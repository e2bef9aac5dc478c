use vstd::prelude::*;

use crate::components::{at, cell, on_map, step, Direction, Entity, Position};
use crate::constants::{MAP_HEIGHT, MAP_WIDTH};
use crate::events::{EntityMoved, Event};
use crate::resources::Gameplay;
use crate::resources::EventQueue;
use crate::store::{
    has_player, immovable_at, immovable_on, is_first_player, movable_at, movable_on, solids_apart,
    Store,
};
use crate::components::{key_direction, Key};
use crate::resources::InputQueue;
use crate::components::solid;

verus! {

/// How many consecutive cells, from the `k`-th cell of the scan line onward,
/// lie on the field and hold a movable entity.
pub open spec fn run_len(ents: Seq<Entity>, p: Position, d: Direction, k: nat) -> nat
    decreases (MAP_WIDTH + MAP_HEIGHT) as int - k,
{
    if k < (MAP_WIDTH + MAP_HEIGHT) as nat && on_map(cell(p, d, k as int)) && movable_at(
        ents,
        cell(p, d, k as int),
    ) {
        1 + run_len(ents, p, d, k + 1)
    } else {
        0
    }
}

/// Length of the chain that a push from `p` in direction `d` takes along.
pub open spec fn chain_len(ents: Seq<Entity>, p: Position, d: Direction) -> nat {
    run_len(ents, p, d, 0)
}

/// The first cell past the chain.
pub open spec fn end_cell(ents: Seq<Entity>, p: Position, d: Direction) -> (int, int) {
    cell(p, d, chain_len(ents, p, d) as int)
}

/// The chain runs up to the edge of the field.
pub open spec fn blocked_by_edge(ents: Seq<Entity>, p: Position, d: Direction) -> bool {
    !on_map(end_cell(ents, p, d))
}

/// The chain runs into an immovable entity.
pub open spec fn blocked_by_obstacle(ents: Seq<Entity>, p: Position, d: Direction) -> bool {
    on_map(end_cell(ents, p, d)) && immovable_at(ents, end_cell(ents, p, d))
}

/// The chain ends at a free cell of the field, so it can move.
pub open spec fn can_move(ents: Seq<Entity>, p: Position, d: Direction) -> bool {
    on_map(end_cell(ents, p, d)) && !immovable_at(ents, end_cell(ents, p, d))
}

/// Whether entity `i` is one of the chain.
pub open spec fn in_chain(ents: Seq<Entity>, p: Position, d: Direction, i: int) -> bool {
    exists|k: int| 0 <= k < chain_len(ents, p, d) && movable_on(ents, i, #[trigger] cell(p, d, k))
}

/// The identifiers of the chain, nearest to `p` first.
pub open spec fn chain_ids(ents: Seq<Entity>, p: Position, d: Direction) -> Seq<usize> {
    Seq::new(
        chain_len(ents, p, d),
        |k: int| (choose|i: int| movable_on(ents, i, cell(p, d, k))) as usize,
    )
}

/// The entities after a push from `p` in direction `d`.
pub open spec fn pushed(ents: Seq<Entity>, p: Position, d: Direction) -> Seq<Entity> {
    if can_move(ents, p, d) {
        Seq::new(
            ents.len(),
            |i: int|
                if in_chain(ents, p, d, i) {
                    Entity { position: step(ents[i].position, d), ..ents[i] }
                } else {
                    ents[i]
                },
        )
    } else {
        ents
    }
}

pub open spec fn moved_event(id: usize) -> Event {
    Event::EntityMoved(EntityMoved { id })
}

/// The events that a push from `p` in direction `d` records.
pub open spec fn push_events(ents: Seq<Entity>, p: Position, d: Direction) -> Seq<Event> {
    if can_move(ents, p, d) {
        chain_ids(ents, p, d).map_values(|id: usize| moved_event(id))
    } else if blocked_by_obstacle(ents, p, d) {
        seq![Event::PlayerHitObstacle]
    } else {
        Seq::empty()
    }
}

/// The move counter after a push from `p` in direction `d`.
pub open spec fn push_moves(ents: Seq<Entity>, p: Position, d: Direction, moves: u32) -> u32 {
    if can_move(ents, p, d) && chain_len(ents, p, d) > 0 {
        (moves + 1) as u32
    } else {
        moves
    }
}

/// What the scan of one tick found.
pub enum ResolutionOutcome {
    /// The chain, nearest first, is free to move one cell.
    Moved(Vec<usize>),
    /// An immovable entity stops the chain.
    HitObstacle,
    /// The chain reaches the edge of the field.
    HitEdge,
}

/// Cells at most `k` steps apart on one line of the field are fewer than
/// its width plus height.
proof fn lemma_scan_short(p: Position, d: Direction, k: int)
    requires
        0 <= k,
        on_map(cell(p, d, 0)),
        on_map(cell(p, d, k)),
    ensures
        k < (MAP_WIDTH + MAP_HEIGHT) as int,
{
}

/// Steps from `(x, y)` to the edge of the field in direction `d`.
pub open spec fn steps_left(x: u8, y: u8, d: Direction) -> int {
    match d {
        Direction::Up => y as int,
        Direction::Down => MAP_HEIGHT - y,
        Direction::Left => x as int,
        Direction::Right => MAP_WIDTH - x,
    }
}

/// The cell next to `(x, y)` in direction `d`, unless it is off the field.
fn next_cell(x: u8, y: u8, d: Direction) -> (r: Option<(u8, u8)>)
    requires
        on_map((x as int, y as int)),
    ensures
        match r {
            Some(n) => on_map((n.0 as int, n.1 as int)) && (n.0 as int, n.1 as int) == cell(
                Position { x, y, z: 0 },
                d,
                1,
            ) && steps_left(n.0, n.1, d) < steps_left(x, y, d),
            None => !on_map(cell(Position { x, y, z: 0 }, d, 1)),
        },
{
    match d {
        Direction::Up => if y == 0 {
            None
        } else {
            Some((x, y - 1))
        },
        Direction::Down => if y + 1 >= MAP_HEIGHT {
            None
        } else {
            Some((x, y + 1))
        },
        Direction::Left => if x == 0 {
            None
        } else {
            Some((x - 1, y))
        },
        Direction::Right => if x + 1 >= MAP_WIDTH {
            None
        } else {
            Some((x + 1, y))
        },
    }
}

/// Scans the line in front of `p` in direction `d` and decides whether the
/// chain of movable entities starting at `p` can move.
pub fn resolve_chain(store: &Store, p: Position, d: Direction) -> (r: ResolutionOutcome)
    ensures
        match r {
            ResolutionOutcome::Moved(ch) => can_move(store@, p, d) && ch@.len() == chain_len(
                store@,
                p,
                d,
            ) && forall|k: int|
                0 <= k < ch@.len() ==> movable_on(store@, #[trigger] ch@[k] as int, cell(p, d, k)),
            ResolutionOutcome::HitObstacle => blocked_by_obstacle(store@, p, d),
            ResolutionOutcome::HitEdge => blocked_by_edge(store@, p, d),
        },
{
    let ghost ents = store@;
    if !(p.x < MAP_WIDTH && p.y < MAP_HEIGHT) {
        assert(run_len(ents, p, d, 0) == 0);
        return ResolutionOutcome::HitEdge;
    }
    let mut ch: Vec<usize> = Vec::new();
    let mut x = p.x;
    let mut y = p.y;
    loop
        invariant
            on_map(cell(p, d, 0)),
            on_map((x as int, y as int)),
            (x as int, y as int) == cell(p, d, ch@.len() as int),
            chain_len(ents, p, d) == ch@.len() + run_len(ents, p, d, ch@.len() as nat),
            forall|k: int|
                0 <= k < ch@.len() ==> movable_on(ents, #[trigger] ch@[k] as int, cell(p, d, k)),
            ents == store@,
        decreases steps_left(x, y, d),
    {
        let ghost k = ch@.len() as int;
        proof {
            lemma_scan_short(p, d, k);
        }
        match store.movable_at(x, y) {
            Some(i) => {
                assert(movable_on(ents, i as int, cell(p, d, k)));
                assert(run_len(ents, p, d, k as nat) == 1 + run_len(ents, p, d, (k + 1) as nat));
                ch.push(i);
                match next_cell(x, y, d) {
                    Some(n) => {
                        x = n.0;
                        y = n.1;
                    },
                    None => {
                        assert(run_len(ents, p, d, (k + 1) as nat) == 0);
                        return ResolutionOutcome::HitEdge;
                    },
                }
            },
            None => {
                assert(run_len(ents, p, d, k as nat) == 0);
                match store.immovable_at(x, y) {
                    Some(j) => {
                        return ResolutionOutcome::HitObstacle;
                    },
                    None => {
                        return ResolutionOutcome::Moved(ch);
                    },
                }
            },
        }
    }
}

/// Each of the first `chain_len` cells holds a movable entity on the field,
/// and the cell past them does not.
proof fn lemma_run(ents: Seq<Entity>, p: Position, d: Direction, k: nat)
    requires
        k == 0 || on_map(cell(p, d, 0)),
    ensures
        forall|j: int|
            k <= j < k + run_len(ents, p, d, k) ==> on_map(#[trigger] cell(p, d, j)) && movable_at(
                ents,
                cell(p, d, j),
            ),
        !(on_map(cell(p, d, (k + run_len(ents, p, d, k)) as int)) && movable_at(
            ents,
            cell(p, d, (k + run_len(ents, p, d, k)) as int),
        )),
    decreases (MAP_WIDTH + MAP_HEIGHT) as int - k,
{
    if k < (MAP_WIDTH + MAP_HEIGHT) as nat && on_map(cell(p, d, k as int)) && movable_at(
        ents,
        cell(p, d, k as int),
    ) {
        lemma_run(ents, p, d, k + 1);
    } else if on_map(cell(p, d, k as int)) && k != 0 {
        lemma_scan_short(p, d, k as int);
    }
}

/// The chain's cells, and the free cell past it, as facts over quantifiers.
proof fn lemma_chain(ents: Seq<Entity>, p: Position, d: Direction)
    ensures
        forall|j: int|
            0 <= j < chain_len(ents, p, d) ==> on_map(#[trigger] cell(p, d, j)) && movable_at(
                ents,
                cell(p, d, j),
            ),
        !(on_map(end_cell(ents, p, d)) && movable_at(ents, end_cell(ents, p, d))),
{
    lemma_run(ents, p, d, 0);
}

/// A push that can move keeps the solid entities on distinct cells.
proof fn lemma_pushed_apart(ents: Seq<Entity>, p: Position, d: Direction)
    requires
        solids_apart(ents),
        can_move(ents, p, d),
    ensures
        solids_apart(pushed(ents, p, d)),
{
    let n = chain_len(ents, p, d) as int;
    let e1 = pushed(ents, p, d);
    lemma_chain(ents, p, d);
    assert forall|i: int, j: int|
        #![trigger e1[i], e1[j]]
        0 <= i < e1.len() && 0 <= j < e1.len() && i != j && solid(e1[i]) && solid(e1[j])
            implies !(e1[i].position.x == e1[j].position.x && e1[i].position.y
        == e1[j].position.y) by {
        if e1[i].position.x == e1[j].position.x && e1[i].position.y == e1[j].position.y {
            assert(ents[i] =~= ents[i]);
            if in_chain(ents, p, d, i) && in_chain(ents, p, d, j) {
                let ki = choose|k: int| 0 <= k < n && movable_on(ents, i, #[trigger] cell(p, d, k));
                let kj = choose|k: int| 0 <= k < n && movable_on(ents, j, #[trigger] cell(p, d, k));
                assert(on_map(cell(p, d, ki + 1)) || ki + 1 == n);
                assert(on_map(cell(p, d, kj + 1)) || kj + 1 == n);
                assert(ents[i].position.x == ents[j].position.x && ents[i].position.y
                    == ents[j].position.y);
                assert(ents[i] == ents[i] && ents[j] == ents[j]);
            } else if in_chain(ents, p, d, i) {
                lemma_chain_neighbour(ents, p, d, i, j);
            } else if in_chain(ents, p, d, j) {
                lemma_chain_neighbour(ents, p, d, j, i);
            } else {
                assert(ents[i] == ents[i] && ents[j] == ents[j]);
            }
        }
    }
}

/// A chain entity, once moved, shares no cell with a solid entity outside
/// the chain.
proof fn lemma_chain_neighbour(ents: Seq<Entity>, p: Position, d: Direction, i: int, j: int)
    requires
        solids_apart(ents),
        can_move(ents, p, d),
        0 <= i < ents.len(),
        0 <= j < ents.len(),
        in_chain(ents, p, d, i),
        !in_chain(ents, p, d, j),
        solid(ents[j]),
    ensures
        !(step(ents[i].position, d).x == ents[j].position.x && step(ents[i].position, d).y
            == ents[j].position.y),
{
    let n = chain_len(ents, p, d) as int;
    lemma_chain(ents, p, d);
    let ki = choose|k: int| 0 <= k < n && movable_on(ents, i, #[trigger] cell(p, d, k));
    let c = cell(p, d, ki + 1);
    if ki + 1 < n {
        assert(on_map(c) && movable_at(ents, c));
        let m = choose|m: int| movable_on(ents, m, c);
        if step(ents[i].position, d).x == ents[j].position.x && step(ents[i].position, d).y
            == ents[j].position.y {
            assert(at(ents[j].position, c));
            assert(ents[m] == ents[m] && ents[j] == ents[j]);
            assert(m == j);
            assert(movable_on(ents, j, cell(p, d, ki + 1)));
        }
    } else {
        assert(c == end_cell(ents, p, d));
        if step(ents[i].position, d).x == ents[j].position.x && step(ents[i].position, d).y
            == ents[j].position.y {
            assert(at(ents[j].position, c));
            if ents[j].movable {
                assert(movable_on(ents, j, c));
            } else {
                assert(immovable_on(ents, j, c));
            }
        }
    }
}

/// `p` moved one cell in direction `d`.
fn shift(p: Position, d: Direction) -> (r: Position)
    requires
        on_map(cell(p, d, 1)),
    ensures
        r == step(p, d),
{
    match d {
        Direction::Up => Position { x: p.x, y: p.y - 1, z: p.z },
        Direction::Down => Position { x: p.x, y: p.y + 1, z: p.z },
        Direction::Left => Position { x: p.x - 1, y: p.y, z: p.z },
        Direction::Right => Position { x: p.x + 1, y: p.y, z: p.z },
    }
}

/// Whether `i` is one of the first `j` identifiers of `ch`.
pub open spec fn among(ch: Seq<usize>, j: int, i: int) -> bool {
    exists|a: int| 0 <= a < j && ch[a] as int == i
}

/// Pushes the chain that starts at `p` one cell in direction `d`, if it
/// can move: counts the move and records one event per moved entity,
/// nearest first. A chain stopped by an immovable entity records an
/// obstacle event; one that reaches the edge changes nothing.
pub fn push_chain(
    store: &mut Store,
    events: &mut EventQueue,
    gameplay: &mut Gameplay,
    p: Position,
    d: Direction,
)
    requires
        old(store).wf(),
        old(gameplay).moves_count < u32::MAX,
    ensures
        final(store)@ == pushed(old(store)@, p, d),
        final(events).events@ == old(events).events@ + push_events(old(store)@, p, d),
        final(gameplay).moves_count == push_moves(old(store)@, p, d, old(gameplay).moves_count),
        final(gameplay).state == old(gameplay).state,
        final(store).wf(),
{
    let ghost ents0 = store@;
    let ghost ev0 = events.events@;
    match resolve_chain(store, p, d) {
        ResolutionOutcome::HitObstacle => {
            events.events.push(Event::PlayerHitObstacle);
        },
        ResolutionOutcome::HitEdge => {},
        ResolutionOutcome::Moved(ch) => {
            let n = ch.len();
            if n > 0 {
                gameplay.moves_count = gameplay.moves_count + 1;
            }
            proof {
                lemma_chain(ents0, p, d);
            }
            let mut j: usize = 0;
            while j < n
                invariant
                    n == ch@.len(),
                    n == chain_len(ents0, p, d),
                    can_move(ents0, p, d),
                    solids_apart(ents0),
                    forall|k: int|
                        0 <= k < n ==> movable_on(ents0, #[trigger] ch@[k] as int, cell(p, d, k)),
                    forall|k: int| 0 <= k < n ==> on_map(#[trigger] cell(p, d, k)),
                    j <= n,
                    store@.len() == ents0.len(),
                    forall|i: int|
                        0 <= i < ents0.len() ==> #[trigger] store@[i] == if among(ch@, j as int, i) {
                            Entity { position: step(ents0[i].position, d), ..ents0[i] }
                        } else {
                            ents0[i]
                        },
                    events.events@ == ev0 + ch@.subrange(0, j as int).map_values(
                        |id: usize| moved_event(id),
                    ),
                decreases n - j,
            {
                let id = ch[j];
                assert(movable_on(ents0, id as int, cell(p, d, j as int)));
                assert(!among(ch@, j as int, id as int)) by {
                    if among(ch@, j as int, id as int) {
                        let a = choose|a: int| 0 <= a < j && ch@[a] as int == id as int;
                        assert(movable_on(ents0, ch@[a] as int, cell(p, d, a)));
                    }
                }
                let e = store.entities[id];
                assert(e == ents0[id as int]);
                assert(on_map(cell(p, d, j + 1))) by {
                    if j + 1 == n {
                        assert(cell(p, d, j + 1) == end_cell(ents0, p, d));
                    }
                }
                let np = shift(e.position, d);
                store.entities.set(id, Entity { position: np, ..e });
                events.events.push(Event::EntityMoved(EntityMoved { id }));
                proof {
                    assert forall|i: int| 0 <= i < ents0.len() implies #[trigger] store@[i] == if among(
                        ch@,
                        j + 1,
                        i,
                    ) {
                        Entity { position: step(ents0[i].position, d), ..ents0[i] }
                    } else {
                        ents0[i]
                    } by {
                        if i == id as int {
                            assert(among(ch@, j + 1, i));
                        } else {
                            if among(ch@, j + 1, i) {
                                let a = choose|a: int| 0 <= a < j + 1 && ch@[a] as int == i;
                                assert(among(ch@, j as int, i));
                            }
                        }
                    }
                    assert(ch@.subrange(0, j + 1) == ch@.subrange(0, j as int).push(id));
                    assert(ch@.subrange(0, j + 1).map_values(|id: usize| moved_event(id))
                        =~= ch@.subrange(0, j as int).map_values(|id: usize| moved_event(id)).push(
                        moved_event(id),
                    ));
                }
                j = j + 1;
            }
            proof {
                let e1 = pushed(ents0, p, d);
                assert forall|i: int| 0 <= i < ents0.len() implies among(ch@, n as int, i)
                    == in_chain(ents0, p, d, i) by {
                    if among(ch@, n as int, i) {
                        let a = choose|a: int| 0 <= a < n && ch@[a] as int == i;
                        assert(movable_on(ents0, i, cell(p, d, a)));
                    }
                    if in_chain(ents0, p, d, i) {
                        let k = choose|k: int|
                            0 <= k < n && movable_on(ents0, i, #[trigger] cell(p, d, k));
                        assert(movable_on(ents0, ch@[k] as int, cell(p, d, k)));
                        assert(ents0[i] == ents0[i] && ents0[ch@[k] as int] == ents0[ch@[k] as int]);
                        assert(ch@[k] as int == i);
                    }
                }
                assert(store@ =~= e1);
                assert forall|k: int| 0 <= k < n implies ch@[k] == #[trigger] chain_ids(
                    ents0,
                    p,
                    d,
                )[k] by {
                    assert(movable_on(ents0, ch@[k] as int, cell(p, d, k)));
                    let c = choose|i: int| movable_on(ents0, i, cell(p, d, k));
                    assert(ents0[c] == ents0[c] && ents0[ch@[k] as int] == ents0[ch@[k] as int]);
                }
                assert(ch@ =~= chain_ids(ents0, p, d));
                assert(ch@.subrange(0, n as int) =~= ch@);
                lemma_pushed_apart(ents0, p, d);
            }
        },
    }
}

/// Where the first player entity stands.
pub open spec fn player_pos(ents: Seq<Entity>) -> Position {
    ents[choose|i: int| is_first_player(ents, i)].position
}

/// The entities, event log and move counter after one tick in direction
/// `d`: the first player pushes; without a player nothing happens.
pub open spec fn tick(ents: Seq<Entity>, events: Seq<Event>, moves: u32, d: Direction) -> (
    Seq<Entity>,
    Seq<Event>,
    u32,
) {
    if has_player(ents) {
        let p = player_pos(ents);
        (pushed(ents, p, d), events + push_events(ents, p, d), push_moves(ents, p, d, moves))
    } else {
        (ents, events, moves)
    }
}

/// The pending keys, entities, event log and move counter after the input
/// system runs once: with a player present, the most recent key is taken
/// off the queue and, if it is an arrow, resolved as a tick.
pub open spec fn input_tick(keys: Seq<Key>, ents: Seq<Entity>, events: Seq<Event>, moves: u32) -> (
    Seq<Key>,
    Seq<Entity>,
    Seq<Event>,
    u32,
) {
    if keys.len() == 0 || !has_player(ents) {
        (keys, ents, events, moves)
    } else {
        match key_direction(keys.last()) {
            Some(d) => {
                let t = tick(ents, events, moves, d);
                (keys.drop_last(), t.0, t.1, t.2)
            },
            None => (keys.drop_last(), ents, events, moves),
        }
    }
}

/// Resolves one tick in direction `d` for the first player entity.
pub fn resolve_tick(store: &mut Store, events: &mut EventQueue, gameplay: &mut Gameplay, d: Direction)
    requires
        old(store).wf(),
        old(gameplay).moves_count < u32::MAX,
    ensures
        (final(store)@, final(events).events@, final(gameplay).moves_count) == tick(
            old(store)@,
            old(events).events@,
            old(gameplay).moves_count,
            d,
        ),
        final(gameplay).state == old(gameplay).state,
        final(store).wf(),
{
    match store.player_index() {
        Some(i) => {
            let p = store.entities[i].position;
            proof {
                let c = choose|c: int| is_first_player(store@, c);
                assert(c == i as int) by {
                    if c < i {
                        assert(!store@[c].player);
                    } else if i < c {
                        assert(!store@[i as int].player);
                    }
                }
            }
            push_chain(store, events, gameplay, p, d);
        },
        None => {},
    }
}

/// Resolves the most recently pressed key against the entity store.
pub struct InputSystem;

impl InputSystem {
    /// Takes the most recent key off the queue, if a player is present, and
    /// resolves it as a tick when it is an arrow; other keys are dropped.
    pub fn run(
        &mut self,
        events: &mut EventQueue,
        input: &mut InputQueue,
        gameplay: &mut Gameplay,
        store: &mut Store,
    )
        requires
            old(store).wf(),
            old(gameplay).moves_count < u32::MAX,
        ensures
            (
                final(input).keys_pressed@,
                final(store)@,
                final(events).events@,
                final(gameplay).moves_count,
            ) == input_tick(
                old(input).keys_pressed@,
                old(store)@,
                old(events).events@,
                old(gameplay).moves_count,
            ),
            final(gameplay).state == old(gameplay).state,
            final(store).wf(),
    {
        if store.player_index().is_none() {
            return ;
        }
        match input.keys_pressed.pop() {
            Some(key) => {
                match key.direction() {
                    Some(d) => resolve_tick(store, events, gameplay, d),
                    None => {},
                }
            },
            None => {},
        }
    }
}

/// With no pending key, a run changes nothing.
pub proof fn lemma_empty_queue_noop(ents: Seq<Entity>, events: Seq<Event>, moves: u32)
    ensures
        input_tick(Seq::empty(), ents, events, moves) == (Seq::<Key>::empty(), ents, events, moves),
{
}

/// A push stopped by an immovable entity, resolved twice in a row, leaves
/// every entity and the move counter as they were and records exactly two
/// obstacle events.
pub proof fn lemma_blocked_twice(ents: Seq<Entity>, events: Seq<Event>, moves: u32, d: Direction)
    requires
        has_player(ents),
        blocked_by_obstacle(ents, player_pos(ents), d),
    ensures
        ({
            let t1 = tick(ents, events, moves, d);
            let t2 = tick(t1.0, t1.1, t1.2, d);
            t1.0 == ents && t2.0 == ents && t2.2 == moves && t2.1 == events + seq![
                Event::PlayerHitObstacle,
                Event::PlayerHitObstacle,
            ]
        }),
{
    let t1 = tick(ents, events, moves, d);
    assert(t1.1 == events + seq![Event::PlayerHitObstacle]);
    assert(events + seq![Event::PlayerHitObstacle] + seq![Event::PlayerHitObstacle] =~= events
        + seq![Event::PlayerHitObstacle, Event::PlayerHitObstacle]);
}

/// A push that reaches the edge of the field changes nothing and records
/// nothing.
pub proof fn lemma_edge_noop(ents: Seq<Entity>, events: Seq<Event>, moves: u32, d: Direction)
    requires
        has_player(ents),
        blocked_by_edge(ents, player_pos(ents), d),
    ensures
        tick(ents, events, moves, d) == (ents, events, moves),
{
    assert(events + Seq::<Event>::empty() =~= events);
}

/// A tick neither creates nor removes entities, and changes no entity's
/// tags or draw layer: only where movable entities stand.
pub proof fn lemma_tick_keeps_entities(
    ents: Seq<Entity>,
    events: Seq<Event>,
    moves: u32,
    d: Direction,
    i: int,
)
    requires
        0 <= i < ents.len(),
    ensures
        ({
            let e = tick(ents, events, moves, d).0[i];
            &&& tick(ents, events, moves, d).0.len() == ents.len()
            &&& e.movable == ents[i].movable && e.immovable == ents[i].immovable
            &&& e.player == ents[i].player && e.is_box == ents[i].is_box
            &&& e.box_spot == ents[i].box_spot && e.wall == ents[i].wall
            &&& e.position.z == ents[i].position.z
            &&& (!ents[i].movable ==> e == ents[i])
        }),
{
}

/// A movable player on the top row that is sent up meets the edge of the
/// field: the tick changes nothing and records nothing.
pub proof fn lemma_top_row_up_blocked(ents: Seq<Entity>, events: Seq<Event>, moves: u32, i: int)
    requires
        is_first_player(ents, i),
        ents[i].movable,
        ents[i].position.y == 0,
    ensures
        blocked_by_edge(ents, ents[i].position, Direction::Up),
        tick(ents, events, moves, Direction::Up) == (ents, events, moves),
{
    let c = choose|c: int| is_first_player(ents, c);
    assert(c == i) by {
        if c < i {
            assert(!ents[c].player);
        } else if i < c {
            assert(!ents[i].player);
        }
    }
    let p = ents[i].position;
    assert(movable_on(ents, i, cell(p, Direction::Up, 0)));
    assert(run_len(ents, p, Direction::Up, 1) == 0);
    lemma_edge_noop(ents, events, moves, Direction::Up);
}

} // verus!
