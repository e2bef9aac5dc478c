use vstd::prelude::*;

use crate::components::{Entity, Position};
use vstd::string::StringSliceAdditionalSpecFns;

use crate::components::solid;
use crate::store::{solids_apart, Store};

verus! {

/// `.`: a floor tile.
pub const FLOOR_CELL: u8 = 46;
/// `W`: a wall on a floor tile.
pub const WALL_CELL: u8 = 87;
/// `P`: the player on a floor tile.
pub const PLAYER_CELL: u8 = 80;
/// `B`: a box on a floor tile.
pub const BOX_CELL: u8 = 66;
/// `S`: a box spot on a floor tile.
pub const SPOT_CELL: u8 = 83;
/// `N`: nothing at all.
pub const VOID_CELL: u8 = 78;

pub const NEWLINE: u8 = 10;
pub const SPACE: u8 = 32;
pub const TAB: u8 = 9;
pub const CARRIAGE_RETURN: u8 = 13;

/// Why a level description could not be loaded.
#[derive(Clone, Copy, Debug, PartialEq, Eq, Structural)]
pub enum MapError {
    /// The byte at this offset starts or extends a token that is not a cell.
    UnrecognizedToken { at: usize },
    /// The token at this offset lies past column or row 255.
    OutOfRange { at: usize },
}

/// Separators between the cells of a row.
pub open spec fn is_blank(c: u8) -> bool {
    c == SPACE || c == TAB || c == CARRIAGE_RETURN
}

/// The bytes that name a cell: `.` floor, `W` wall, `P` player, `B` box,
/// `S` box spot, `N` nothing.
pub open spec fn is_cell(c: u8) -> bool {
    c == FLOOR_CELL || c == WALL_CELL || c == PLAYER_CELL || c == BOX_CELL || c == SPOT_CELL
        || c == VOID_CELL
}

pub open spec fn floor(x: u8, y: u8) -> Entity {
    Entity {
        position: Position { x, y, z: 5 },
        movable: false,
        immovable: false,
        player: false,
        is_box: false,
        box_spot: false,
        wall: false,
    }
}

pub open spec fn wall(x: u8, y: u8) -> Entity {
    Entity { position: Position { x, y, z: 10 }, immovable: true, wall: true, ..floor(x, y) }
}

pub open spec fn player(x: u8, y: u8) -> Entity {
    Entity { position: Position { x, y, z: 10 }, movable: true, player: true, ..floor(x, y) }
}

pub open spec fn box_entity(x: u8, y: u8) -> Entity {
    Entity { position: Position { x, y, z: 10 }, movable: true, is_box: true, ..floor(x, y) }
}

pub open spec fn box_spot(x: u8, y: u8) -> Entity {
    Entity { position: Position { x, y, z: 9 }, box_spot: true, ..floor(x, y) }
}

/// The entities that cell byte `c` at `(x, y)` stands for, floor first.
pub open spec fn cell_entities(c: u8, x: u8, y: u8) -> Seq<Entity> {
    if c == FLOOR_CELL {
        seq![floor(x, y)]
    } else if c == WALL_CELL {
        seq![floor(x, y), wall(x, y)]
    } else if c == PLAYER_CELL {
        seq![floor(x, y), player(x, y)]
    } else if c == BOX_CELL {
        seq![floor(x, y), box_entity(x, y)]
    } else if c == SPOT_CELL {
        seq![floor(x, y), box_spot(x, y)]
    } else {
        Seq::empty()
    }
}

/// Where reading a level has got to: the entities so far, the next cell's
/// column and row, whether the current row has a cell yet, whether the
/// previous byte ended a cell, and the error met, if any.
pub struct LoadState {
    pub ents: Seq<Entity>,
    pub x: int,
    pub y: int,
    pub row_used: bool,
    pub after_cell: bool,
    pub err: Option<MapError>,
}

pub open spec fn start() -> LoadState {
    LoadState { ents: Seq::empty(), x: 0, y: 0, row_used: false, after_cell: false, err: None }
}

/// Reads byte `c`, found at offset `at`. Rows end at a newline, and rows
/// without cells do not count; cells within a row are single bytes
/// separated by blanks.
pub open spec fn feed(s: LoadState, c: u8, at: int) -> LoadState {
    if s.err is Some {
        s
    } else if c == NEWLINE {
        LoadState {
            x: 0,
            y: if s.row_used {
                s.y + 1
            } else {
                s.y
            },
            row_used: false,
            after_cell: false,
            ..s
        }
    } else if is_blank(c) {
        LoadState { after_cell: false, ..s }
    } else if s.after_cell || !is_cell(c) {
        LoadState { err: Some(MapError::UnrecognizedToken { at: at as usize }), ..s }
    } else if s.x > 255 || s.y > 255 {
        LoadState { err: Some(MapError::OutOfRange { at: at as usize }), ..s }
    } else {
        LoadState {
            ents: s.ents + cell_entities(c, s.x as u8, s.y as u8),
            x: s.x + 1,
            row_used: true,
            after_cell: true,
            ..s
        }
    }
}

/// The state after reading the first `n` bytes of `b`.
pub open spec fn load(b: Seq<u8>, n: nat) -> LoadState
    decreases n,
{
    if n == 0 {
        start()
    } else {
        feed(load(b, (n - 1) as nat), b[n - 1], n - 1)
    }
}

/// Appends to `v` the entities of cell byte `c` at `(x, y)`.
fn push_cell(v: &mut Vec<Entity>, c: u8, x: u8, y: u8)
    requires
        is_cell(c),
    ensures
        final(v)@ == old(v)@ + cell_entities(c, x, y),
{
    let f = Entity {
        position: Position { x, y, z: 5 },
        movable: false,
        immovable: false,
        player: false,
        is_box: false,
        box_spot: false,
        wall: false,
    };
    if c == VOID_CELL {
        assert(old(v)@ + Seq::<Entity>::empty() =~= old(v)@);
        return ;
    }
    v.push(f);
    if c == WALL_CELL {
        v.push(Entity { position: Position { x, y, z: 10 }, immovable: true, wall: true, ..f });
    } else if c == PLAYER_CELL {
        v.push(Entity { position: Position { x, y, z: 10 }, movable: true, player: true, ..f });
    } else if c == BOX_CELL {
        v.push(Entity { position: Position { x, y, z: 10 }, movable: true, is_box: true, ..f });
    } else if c == SPOT_CELL {
        v.push(Entity { position: Position { x, y, z: 9 }, box_spot: true, ..f });
    }
    assert(final(v)@ =~= old(v)@ + cell_entities(c, x, y));
}

/// Reads a level description and adds its entities to `store`, row by
/// row and cell by cell. On an error the store is left as it was.
pub fn load_map(store: &mut Store, map: &[u8]) -> (r: Result<(), MapError>)
    ensures
        match load(map@, map@.len()).err {
            None => r is Ok && final(store)@ == old(store)@ + load(map@, map@.len()).ents,
            Some(e) => r == Err::<(), MapError>(e) && final(store)@ == old(store)@,
        },
        r is Ok ==> solids_apart(load(map@, map@.len()).ents),
{
    let mut v: Vec<Entity> = Vec::new();
    let mut x: usize = 0;
    let mut y: usize = 0;
    let mut row_used = false;
    let mut after_cell = false;
    let mut i: usize = 0;
    while i < map.len()
        invariant
            i <= map@.len(),
            load(map@, i as nat).err is None,
            load(map@, i as nat).ents == v@,
            load(map@, i as nat).x == x,
            load(map@, i as nat).y == y,
            load(map@, i as nat).row_used == row_used,
            load(map@, i as nat).after_cell == after_cell,
            x <= 256,
            y <= i,
        decreases map@.len() - i,
    {
        let c = map[i];
        if c == NEWLINE {
            x = 0;
            if row_used {
                y = y + 1;
            }
            row_used = false;
            after_cell = false;
        } else if c == SPACE || c == TAB || c == CARRIAGE_RETURN {
            after_cell = false;
        } else if after_cell || !(c == FLOOR_CELL || c == WALL_CELL || c == PLAYER_CELL || c == BOX_CELL || c == SPOT_CELL
            || c == VOID_CELL) {
            proof {
                lemma_err_stays(map@, (i + 1) as nat, map@.len());
            }
            return Err(MapError::UnrecognizedToken { at: i });
        } else if x > 255 || y > 255 {
            proof {
                lemma_err_stays(map@, (i + 1) as nat, map@.len());
            }
            return Err(MapError::OutOfRange { at: i });
        } else {
            push_cell(&mut v, c, x as u8, y as u8);
            x = x + 1;
            row_used = true;
            after_cell = true;
        }
        i = i + 1;
    }
    proof {
        lemma_load_apart(map@, map@.len());
    }
    store.entities.append(&mut v);
    Ok(())
}

/// The level played by default: eight columns, nine rows.
pub const MAP: &'static str = "
    N N W W W W W W
    W W W . . . . W
    W . . . B . . W
    W . . . . . . W 
    W . P W B . . W
    W . . . . . . W
    W . . S . . . W
    W . . . . . . W
    W W W W W W W W
    ";

/// Adds the entities of the default level to `store`.
pub fn initialize_level(store: &mut Store) -> (r: Result<(), MapError>)
    ensures
        ({
            let b = MAP.spec_bytes();
            match load(b, b.len()).err {
                None => r is Ok && final(store)@ == old(store)@ + load(b, b.len()).ents,
                Some(e) => r == Err::<(), MapError>(e) && final(store)@ == old(store)@,
            }
        }),
        r is Ok && old(store)@.len() == 0 ==> final(store).wf(),
{
    load_map(store, MAP.as_bytes())
}

/// Once an error is met, reading further bytes keeps it.
proof fn lemma_err_stays(b: Seq<u8>, n: nat, m: nat)
    requires
        n <= m,
        load(b, n).err is Some,
    ensures
        load(b, m) == load(b, n),
    decreases m - n,
{
    if n < m {
        lemma_err_stays(b, n, (m - 1) as nat);
    }
}

/// Whether `q` comes before column `x` of row `y` in reading order.
pub open spec fn before(q: Position, x: int, y: int) -> bool {
    q.y < y || (q.y == y && q.x < x)
}

/// A level read without error puts no two solid entities on one cell: each
/// cell byte gets its own grid cell, in reading order.
proof fn lemma_load_apart(b: Seq<u8>, n: nat)
    requires
        n <= b.len(),
    ensures
        ({
            let s = load(b, n);
            s.err is None ==> {
                &&& solids_apart(s.ents)
                &&& forall|i: int|
                    0 <= i < s.ents.len() && solid(#[trigger] s.ents[i]) ==> before(
                        s.ents[i].position,
                        s.x,
                        s.y,
                    )
                &&& (!s.row_used ==> s.x == 0)
                &&& 0 <= s.x && 0 <= s.y
            }
        }),
    decreases n,
{
    if n > 0 {
        lemma_load_apart(b, (n - 1) as nat);
        let s0 = load(b, (n - 1) as nat);
        let s = load(b, n);
        let c = b[n - 1];
        if s.err is None && s0.err is None && c != NEWLINE && !is_blank(c) {
            let new = cell_entities(c, s0.x as u8, s0.y as u8);
            assert(s.ents == s0.ents + new);
            assert(forall|k: int|
                0 <= k < new.len() ==> (#[trigger] new[k]).position.x == s0.x && new[k].position.y
                    == s0.y);
            assert(forall|k: int, l: int|
                0 <= k < new.len() && 0 <= l < new.len() && k != l && solid(#[trigger] new[k])
                    ==> !solid(#[trigger] new[l]));
            assert forall|i: int, j: int|
                #![trigger s.ents[i], s.ents[j]]
                0 <= i < s.ents.len() && 0 <= j < s.ents.len() && i != j && solid(s.ents[i])
                    && solid(s.ents[j]) implies !(s.ents[i].position.x == s.ents[j].position.x
                && s.ents[i].position.y == s.ents[j].position.y) by {
                let m = s0.ents.len() as int;
                if i < m && j < m {
                    assert(s.ents[i] == s0.ents[i] && s.ents[j] == s0.ents[j]);
                } else if i < m {
                    assert(s.ents[i] == s0.ents[i] && solid(s0.ents[i]));
                    assert(s.ents[j] == new[j - m]);
                } else if j < m {
                    assert(s.ents[j] == s0.ents[j] && solid(s0.ents[j]));
                    assert(s.ents[i] == new[i - m]);
                } else {
                    assert(s.ents[i] == new[i - m] && s.ents[j] == new[j - m]);
                }
            }
            assert forall|i: int|
                0 <= i < s.ents.len() && solid(#[trigger] s.ents[i]) implies before(
                s.ents[i].position,
                s.x,
                s.y,
            ) by {
                let m = s0.ents.len() as int;
                if i < m {
                    assert(s.ents[i] == s0.ents[i]);
                } else {
                    assert(s.ents[i] == new[i - m]);
                }
            }
        }
        if s.err is None && c == NEWLINE {
            assert forall|i: int|
                0 <= i < s.ents.len() && solid(#[trigger] s.ents[i]) implies before(
                s.ents[i].position,
                s.x,
                s.y,
            ) by {
                assert(before(s0.ents[i].position, s0.x, s0.y));
            }
        }
    }
}

} // verus!
