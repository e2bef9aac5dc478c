use vstd::prelude::*;

use crate::components::Key;
use crate::events::Event;

verus! {

/// Keys pressed and not yet resolved; the most recent one is resolved first.
pub struct InputQueue {
    pub keys_pressed: Vec<Key>,
}

impl InputQueue {
    /// An empty queue.
    pub fn new() -> (r: InputQueue)
        ensures
            r.keys_pressed@ == Seq::<Key>::empty(),
    {
        InputQueue { keys_pressed: Vec::new() }
    }
}

impl Default for InputQueue {
    fn default() -> (r: InputQueue)
        ensures
            r.keys_pressed@ == Seq::<Key>::empty(),
    {
        InputQueue::new()
    }
}

/// Events of the current frame, in the order they happened.
pub struct EventQueue {
    pub events: Vec<Event>,
}

impl EventQueue {
    /// An empty queue.
    pub fn new() -> (r: EventQueue)
        ensures
            r.events@ == Seq::<Event>::empty(),
    {
        EventQueue { events: Vec::new() }
    }

    /// Hands out every recorded event, oldest first, and empties the queue.
    pub fn drain(&mut self) -> (r: Vec<Event>)
        ensures
            r@ == old(self).events@,
            final(self).events@ == Seq::<Event>::empty(),
    {
        let mut r = Vec::new();
        std::mem::swap(&mut r, &mut self.events);
        r
    }
}

impl Default for EventQueue {
    fn default() -> (r: EventQueue)
        ensures
            r.events@ == Seq::<Event>::empty(),
    {
        EventQueue::new()
    }
}

/// Whether the level is still being played or has been solved.
#[derive(Clone, Copy, Debug, PartialEq, Eq, Structural)]
pub enum GameplayState {
    Playing,
    Won,
}

pub open spec fn state_label(s: GameplayState) -> Seq<char> {
    match s {
        GameplayState::Playing => "Playing"@,
        GameplayState::Won => "Victory"@,
    }
}

impl GameplayState {
    /// The text shown for this state.
    pub fn to_string(&self) -> (r: String)
        ensures
            r@ == state_label(*self),
    {
        match self {
            GameplayState::Playing => "Playing".to_owned(),
            GameplayState::Won => "Victory".to_owned(),
        }
    }
}

impl Default for GameplayState {
    fn default() -> (r: GameplayState)
        ensures
            r == GameplayState::Playing,
    {
        GameplayState::Playing
    }
}

/// Progress through the level: its state and how many moves were made.
pub struct Gameplay {
    pub state: GameplayState,
    pub moves_count: u32,
}

impl Default for Gameplay {
    fn default() -> (r: Gameplay)
        ensures
            r.state == GameplayState::Playing,
            r.moves_count == 0,
    {
        Gameplay { state: GameplayState::Playing, moves_count: 0 }
    }
}

/// Time elapsed since the game started, in milliseconds.
pub struct Time {
    pub delta_millis: u64,
}

impl Default for Time {
    fn default() -> (r: Time)
        ensures
            r.delta_millis == 0,
    {
        Time { delta_millis: 0 }
    }
}

} // verus!
