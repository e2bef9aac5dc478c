use vstd::prelude::*;

use crate::constants::{MAP_HEIGHT, MAP_WIDTH};

verus! {

/// A grid cell `(x, y)` plus a draw layer `z`.
#[derive(Clone, Copy, Debug, PartialEq, Eq, Structural)]
pub struct Position {
    pub x: u8,
    pub y: u8,
    pub z: u8,
}

/// One of the four directions a tick can push in.
#[derive(Clone, Copy, Debug, PartialEq, Eq, Structural)]
pub enum Direction {
    Up,
    Down,
    Left,
    Right,
}

/// A pressed key as the input queue stores it; only the arrows steer.
#[derive(Clone, Copy, Debug, PartialEq, Eq, Structural)]
pub enum Key {
    Up,
    Down,
    Left,
    Right,
    Other,
}

pub open spec fn key_direction(k: Key) -> Option<Direction> {
    match k {
        Key::Up => Some(Direction::Up),
        Key::Down => Some(Direction::Down),
        Key::Left => Some(Direction::Left),
        Key::Right => Some(Direction::Right),
        Key::Other => None,
    }
}

impl Key {
    /// The direction this key steers in, if it is an arrow.
    pub fn direction(&self) -> (r: Option<Direction>)
        ensures
            r == key_direction(*self),
    {
        match self {
            Key::Up => Some(Direction::Up),
            Key::Down => Some(Direction::Down),
            Key::Left => Some(Direction::Left),
            Key::Right => Some(Direction::Right),
            Key::Other => None,
        }
    }
}

/// Whether cell `c` lies on the playing field.
pub open spec fn on_map(c: (int, int)) -> bool {
    0 <= c.0 < MAP_WIDTH as int && 0 <= c.1 < MAP_HEIGHT as int
}

/// The cell `k` steps from `p` in direction `d`.
pub open spec fn cell(p: Position, d: Direction, k: int) -> (int, int) {
    match d {
        Direction::Up => (p.x as int, p.y - k),
        Direction::Down => (p.x as int, p.y + k),
        Direction::Left => (p.x - k, p.y as int),
        Direction::Right => (p.x + k, p.y as int),
    }
}

/// Whether position `q` stands on grid cell `c`, whatever its layer.
pub open spec fn at(q: Position, c: (int, int)) -> bool {
    q.x as int == c.0 && q.y as int == c.1
}

/// `p` moved one cell in direction `d`, keeping its layer.
pub open spec fn step(p: Position, d: Direction) -> Position {
    let c = cell(p, d, 1);
    Position { x: c.0 as u8, y: c.1 as u8, z: p.z }
}

/// Which entity kinds an entity belongs to, and where it stands.
#[derive(Clone, Copy, Debug, PartialEq, Eq, Structural)]
pub struct Entity {
    pub position: Position,
    pub movable: bool,
    pub immovable: bool,
    pub player: bool,
    pub is_box: bool,
    pub box_spot: bool,
    pub wall: bool,
}

/// Whether the entity takes part in collisions.
pub open spec fn solid(e: Entity) -> bool {
    e.movable || e.immovable
}

/// Whether an entity is drawn from a single image or cycles through several.
#[derive(Clone, Copy, Debug, PartialEq, Eq, Structural)]
pub enum RenderableKind {
    Static,
    Animated,
}

pub open spec fn frame_of(kind: RenderableKind, delta_millis: u64) -> int {
    match kind {
        RenderableKind::Static => 0,
        RenderableKind::Animated => (delta_millis as int % 1000) / 250,
    }
}

/// Index of the image to show: an animated entity cycles through four
/// frames per second, a static one always shows its first.
pub fn frame_index(kind: RenderableKind, delta_millis: u64) -> (r: usize)
    ensures
        r as int == frame_of(kind, delta_millis),
        r < 4,
{
    match kind {
        RenderableKind::Static => 0,
        RenderableKind::Animated => ((delta_millis % 1000) / 250) as usize,
    }
}

} // verus!
