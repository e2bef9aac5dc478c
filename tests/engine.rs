use sokoban::components::{frame_index, Direction, Entity, Key, Position, RenderableKind};
use sokoban::events::{EntityMoved, Event};
use sokoban::map::{initialize_level, load_map, MapError};
use sokoban::resources::{EventQueue, Gameplay, GameplayState, InputQueue, Time};
use sokoban::store::Store;
use sokoban::systems::gameplay_state_system::GameplayStateSystem;
use sokoban::systems::input_system::{resolve_chain, resolve_tick, InputSystem, ResolutionOutcome};

fn plain(x: u8, y: u8) -> Entity {
    Entity {
        position: Position { x, y, z: 10 },
        movable: false,
        immovable: false,
        player: false,
        is_box: false,
        box_spot: false,
        wall: false,
    }
}

fn player(x: u8, y: u8) -> Entity {
    Entity { movable: true, player: true, ..plain(x, y) }
}

fn crate_box(x: u8, y: u8) -> Entity {
    Entity { movable: true, is_box: true, ..plain(x, y) }
}

fn wall(x: u8, y: u8) -> Entity {
    Entity { immovable: true, wall: true, ..plain(x, y) }
}

fn spot(x: u8, y: u8) -> Entity {
    Entity { box_spot: true, position: Position { x, y, z: 9 }, ..plain(x, y) }
}

struct Game {
    store: Store,
    events: EventQueue,
    input: InputQueue,
    gameplay: Gameplay,
}

fn game(ents: Vec<Entity>) -> Game {
    let mut store = Store::new();
    for e in ents {
        store.add(e);
    }
    Game { store, events: EventQueue::new(), input: InputQueue::new(), gameplay: Gameplay::default() }
}

fn press(g: &mut Game, k: Key) {
    g.input.keys_pressed.push(k);
    let mut system = InputSystem;
    system.run(&mut g.events, &mut g.input, &mut g.gameplay, &mut g.store);
}

fn xy(g: &Game, id: usize) -> (u8, u8) {
    let p = g.store.entities[id].position;
    (p.x, p.y)
}

#[test]
fn empty_queue_changes_nothing() {
    let mut g = game(vec![player(3, 4), crate_box(3, 3)]);
    let before = g.store.entities.clone();
    let mut system = InputSystem;
    system.run(&mut g.events, &mut g.input, &mut g.gameplay, &mut g.store);
    assert_eq!(g.store.entities, before);
    assert_eq!(g.gameplay.moves_count, 0);
    assert!(g.events.events.is_empty());
}

#[test]
fn free_move_up() {
    let mut g = game(vec![player(3, 4)]);
    press(&mut g, Key::Up);
    assert_eq!(xy(&g, 0), (3, 3));
    assert_eq!(g.store.entities[0].position.z, 10);
    assert_eq!(g.gameplay.moves_count, 1);
    assert_eq!(g.events.events, vec![Event::EntityMoved(EntityMoved { id: 0 })]);
}

#[test]
fn single_push_up() {
    let mut g = game(vec![crate_box(2, 3), player(2, 4)]);
    press(&mut g, Key::Up);
    assert_eq!(xy(&g, 1), (2, 3));
    assert_eq!(xy(&g, 0), (2, 2));
    assert_eq!(g.gameplay.moves_count, 1);
    assert_eq!(
        g.events.events,
        vec![Event::EntityMoved(EntityMoved { id: 1 }), Event::EntityMoved(EntityMoved { id: 0 })]
    );
}

#[test]
fn push_blocked_by_wall() {
    let mut g = game(vec![player(2, 4), crate_box(2, 3), wall(2, 2)]);
    press(&mut g, Key::Up);
    assert_eq!(xy(&g, 0), (2, 4));
    assert_eq!(xy(&g, 1), (2, 3));
    assert_eq!(xy(&g, 2), (2, 2));
    assert_eq!(g.gameplay.moves_count, 0);
    assert_eq!(g.events.events, vec![Event::PlayerHitObstacle]);
}

#[test]
fn blocked_by_map_edge() {
    let mut g = game(vec![player(2, 0)]);
    press(&mut g, Key::Up);
    assert_eq!(xy(&g, 0), (2, 0));
    assert_eq!(g.gameplay.moves_count, 0);
    assert!(g.events.events.is_empty());
}

#[test]
fn blocked_by_map_edge_after_boxes() {
    let mut g = game(vec![player(5, 1), crate_box(6, 1), crate_box(7, 1)]);
    press(&mut g, Key::Right);
    assert_eq!(xy(&g, 0), (5, 1));
    assert_eq!(xy(&g, 1), (6, 1));
    assert_eq!(xy(&g, 2), (7, 1));
    assert_eq!(g.gameplay.moves_count, 0);
    assert!(g.events.events.is_empty());
    assert!(matches!(
        resolve_chain(&g.store, g.store.entities[0].position, Direction::Right),
        ResolutionOutcome::HitEdge
    ));
}

#[test]
fn blocked_twice_records_two_obstacles() {
    let mut g = game(vec![player(2, 4), crate_box(2, 3), wall(2, 2)]);
    press(&mut g, Key::Up);
    let after_one = g.store.entities.clone();
    press(&mut g, Key::Up);
    assert_eq!(g.store.entities, after_one);
    assert_eq!(xy(&g, 0), (2, 4));
    assert_eq!(g.gameplay.moves_count, 0);
    assert_eq!(g.events.events, vec![Event::PlayerHitObstacle, Event::PlayerHitObstacle]);
}

#[test]
fn pushing_box_onto_spot_wins() {
    let mut store = Store::new();
    let level = "W W W W W\nW P B S W\nW W W W W\n";
    assert_eq!(load_map(&mut store, level.as_bytes()), Ok(()));
    let mut g = Game { store, events: EventQueue::new(), input: InputQueue::new(), gameplay: Gameplay::default() };
    let mut win_check = GameplayStateSystem;
    win_check.run(&g.store, &mut g.gameplay);
    assert_eq!(g.gameplay.state, GameplayState::Playing);
    assert!(!g.store.is_won());
    press(&mut g, Key::Right);
    assert_eq!(g.gameplay.moves_count, 1);
    assert!(g.store.is_won());
    win_check.run(&g.store, &mut g.gameplay);
    assert_eq!(g.gameplay.state, GameplayState::Won);
    assert_eq!(g.gameplay.state.to_string(), "Victory");
    // The engine itself never changes the state, and the win is kept.
    press(&mut g, Key::Left);
    win_check.run(&g.store, &mut g.gameplay);
    assert_eq!(g.gameplay.state, GameplayState::Won);
}

#[test]
fn no_spots_means_won() {
    let g = game(vec![player(1, 1), crate_box(2, 2)]);
    assert!(g.store.is_won());
    let g = game(vec![player(1, 1), crate_box(2, 2), spot(2, 3)]);
    assert!(!g.store.is_won());
}

#[test]
fn last_pressed_key_resolves_first() {
    let mut g = game(vec![player(3, 3)]);
    g.input.keys_pressed.push(Key::Up);
    g.input.keys_pressed.push(Key::Left);
    let mut system = InputSystem;
    system.run(&mut g.events, &mut g.input, &mut g.gameplay, &mut g.store);
    assert_eq!(xy(&g, 0), (2, 3));
    assert_eq!(g.input.keys_pressed, vec![Key::Up]);
    system.run(&mut g.events, &mut g.input, &mut g.gameplay, &mut g.store);
    assert_eq!(xy(&g, 0), (2, 2));
    assert!(g.input.keys_pressed.is_empty());
    assert_eq!(g.gameplay.moves_count, 2);
}

#[test]
fn other_key_is_consumed_and_ignored() {
    let mut g = game(vec![player(3, 3)]);
    press(&mut g, Key::Other);
    assert!(g.input.keys_pressed.is_empty());
    assert_eq!(xy(&g, 0), (3, 3));
    assert_eq!(g.gameplay.moves_count, 0);
    assert!(g.events.events.is_empty());
}

#[test]
fn without_player_key_stays_queued() {
    let mut g = game(vec![crate_box(3, 3)]);
    press(&mut g, Key::Up);
    assert_eq!(g.input.keys_pressed, vec![Key::Up]);
    assert_eq!(xy(&g, 0), (3, 3));
    assert!(g.events.events.is_empty());
}

#[test]
fn push_two_boxes_down_and_right() {
    let mut g = game(vec![player(1, 1), crate_box(1, 2), crate_box(1, 3)]);
    press(&mut g, Key::Down);
    assert_eq!((xy(&g, 0), xy(&g, 1), xy(&g, 2)), ((1, 2), (1, 3), (1, 4)));
    assert_eq!(g.events.events.len(), 3);
    let mut g = game(vec![player(1, 1), crate_box(2, 1), spot(3, 1)]);
    press(&mut g, Key::Right);
    assert_eq!((xy(&g, 0), xy(&g, 1)), ((2, 1), (3, 1)));
    assert!(g.store.is_won());
}

#[test]
fn down_stops_at_last_row() {
    let mut g = game(vec![player(4, 8)]);
    press(&mut g, Key::Down);
    assert_eq!(xy(&g, 0), (4, 8));
    let mut g = game(vec![player(4, 7)]);
    press(&mut g, Key::Down);
    assert_eq!(xy(&g, 0), (4, 8));
}

#[test]
fn resolve_tick_pushes_first_player() {
    let mut store = Store::new();
    store.add(wall(0, 0));
    store.add(player(5, 5));
    let mut events = EventQueue::default();
    let mut gameplay = Gameplay::default();
    resolve_tick(&mut store, &mut events, &mut gameplay, Direction::Left);
    assert_eq!(store.entities[1].position, Position { x: 4, y: 5, z: 10 });
    assert_eq!(gameplay.moves_count, 1);
    let drained = events.drain();
    assert_eq!(drained, vec![Event::EntityMoved(EntityMoved { id: 1 })]);
    assert!(events.events.is_empty());
}

#[test]
fn level_loads_cells_in_reading_order() {
    let mut store = Store::new();
    assert_eq!(load_map(&mut store, "  . W\n\n P B S N\n".as_bytes()), Ok(()));
    let e = &store.entities;
    assert_eq!(e.len(), 9);
    assert_eq!(e[0].position, Position { x: 0, y: 0, z: 5 });
    assert_eq!(e[2].position, Position { x: 1, y: 0, z: 10 });
    assert!(e[2].wall && e[2].immovable);
    assert_eq!(e[4].position, Position { x: 0, y: 1, z: 10 });
    assert!(e[4].player && e[4].movable);
    assert!(e[6].is_box && e[6].movable);
    assert_eq!(e[8].position, Position { x: 2, y: 1, z: 9 });
    assert!(e[8].box_spot);
}

#[test]
fn level_with_unknown_cell_is_refused() {
    let mut store = Store::new();
    store.add(wall(0, 0));
    assert_eq!(load_map(&mut store, "W X".as_bytes()), Err(MapError::UnrecognizedToken { at: 2 }));
    assert_eq!(load_map(&mut store, ". WW".as_bytes()), Err(MapError::UnrecognizedToken { at: 3 }));
    assert_eq!(store.entities.len(), 1);
}

#[test]
fn level_too_wide_is_refused() {
    let mut row = String::new();
    for _ in 0..257 {
        row.push_str(". ");
    }
    let mut store = Store::new();
    assert_eq!(load_map(&mut store, row.as_bytes()), Err(MapError::OutOfRange { at: 512 }));
    assert!(store.entities.is_empty());
}

#[test]
fn default_level_loads() {
    let mut store = Store::new();
    assert_eq!(initialize_level(&mut store), Ok(()));
    let players: Vec<&Entity> = store.entities.iter().filter(|e| e.player).collect();
    assert_eq!(players.len(), 1);
    assert_eq!((players[0].position.x, players[0].position.y), (2, 4));
    let boxes: Vec<(u8, u8)> =
        store.entities.iter().filter(|e| e.is_box).map(|e| (e.position.x, e.position.y)).collect();
    assert_eq!(boxes, vec![(4, 2), (4, 4)]);
    let spots: Vec<(u8, u8)> =
        store.entities.iter().filter(|e| e.box_spot).map(|e| (e.position.x, e.position.y)).collect();
    assert_eq!(spots, vec![(3, 6)]);
    assert_eq!(store.entities.iter().filter(|e| e.wall).count(), 31);
    assert!(!store.is_won());
}

#[test]
fn default_level_player_hits_wall_right() {
    let mut store = Store::new();
    initialize_level(&mut store).unwrap();
    let mut events = EventQueue::new();
    let mut gameplay = Gameplay::default();
    resolve_tick(&mut store, &mut events, &mut gameplay, Direction::Right);
    assert_eq!(events.events, vec![Event::PlayerHitObstacle]);
    assert_eq!(gameplay.moves_count, 0);
}

#[test]
fn state_labels_and_defaults() {
    assert_eq!(GameplayState::default(), GameplayState::Playing);
    assert_eq!(GameplayState::Playing.to_string(), "Playing");
    assert_eq!(GameplayState::Won.to_string(), "Victory");
    let g = Gameplay::default();
    assert_eq!((g.state, g.moves_count), (GameplayState::Playing, 0));
    assert_eq!(Time::default().delta_millis, 0);
    assert!(InputQueue::default().keys_pressed.is_empty());
    assert!(EventQueue::default().events.is_empty());
}

#[test]
fn animation_frames() {
    assert_eq!(frame_index(RenderableKind::Static, 1750), 0);
    assert_eq!(frame_index(RenderableKind::Animated, 0), 0);
    assert_eq!(frame_index(RenderableKind::Animated, 1250), 1);
    assert_eq!(frame_index(RenderableKind::Animated, 2999), 3);
    assert_eq!(frame_index(RenderableKind::Animated, 500), 2);
}

#[test]
fn key_directions() {
    assert_eq!(Key::Up.direction(), Some(Direction::Up));
    assert_eq!(Key::Right.direction(), Some(Direction::Right));
    assert_eq!(Key::Other.direction(), None);
}
