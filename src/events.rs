use vstd::prelude::*;

verus! {

/// Payload of a move event: the entity that moved.
#[derive(Clone, Copy, Debug, PartialEq, Eq, Structural)]
pub struct EntityMoved {
    pub id: usize,
}

/// Something that happened during a tick, for sound and display to react to.
#[derive(Clone, Copy, Debug, PartialEq, Eq, Structural)]
pub enum Event {
    PlayerHitObstacle,
    EntityMoved(EntityMoved),
}

} // verus!
