use bracket_lib::prelude::RandomNumberGenerator;
use dungeon_core::camera::Camera;
use dungeon_core::entities::{Entity, EntityStore, PendingMove};
use dungeon_core::map::{map_idx, GridMap, Point, TileType};
use dungeon_core::map_builder::NUM_ROOMS;
use dungeon_core::state::State;
use dungeon_core::systems::collisions::collisions;
use dungeon_core::systems::map_render::map_render;
use dungeon_core::systems::movement::movement;
use dungeon_core::systems::player_input::{player_input, Key};
use dungeon_core::systems::random_move::random_move;
use dungeon_core::turn_state::TurnState;

fn open_map() -> GridMap {
    let mut m = GridMap::new();
    for y in 1..49 {
        for x in 1..79 {
            m.tiles[map_idx(x, y)] = TileType::Floor;
        }
    }
    m
}

fn player(pos: Point) -> Entity {
    Entity { alive: true, pos, is_player: true, is_enemy: false, moves_randomly: false }
}

fn monster(pos: Point) -> Entity {
    Entity { alive: true, pos, is_player: false, is_enemy: true, moves_randomly: true }
}

fn session(map: GridMap, entities: Vec<Entity>) -> State {
    let focus = entities
        .iter()
        .find(|e| e.alive && e.is_player)
        .expect("session needs a player")
        .pos;
    State {
        ecs: EntityStore { entities, pending: Vec::new() },
        map,
        rooms: Vec::new(),
        camera: Camera::new(focus),
        turn_state: TurnState::AwaitingInput,
        rng: RandomNumberGenerator::seeded(7),
    }
}

#[test]
fn tick_awaiting_input_without_key_stays_awaiting() {
    let mut st = session(open_map(), vec![player(Point::new(5, 5))]);
    st.tick(None);
    assert_eq!(st.turn_state, TurnState::AwaitingInput);
    assert!(st.ecs.pending.is_empty());
    assert_eq!(st.ecs.entities[0].pos, Point::new(5, 5));
}

#[test]
fn tick_awaiting_input_with_unrecognized_key_stays_awaiting() {
    let mut st = session(open_map(), vec![player(Point::new(5, 5))]);
    st.tick(Some(Key::Other));
    assert_eq!(st.turn_state, TurnState::AwaitingInput);
    assert!(st.ecs.pending.is_empty());
}

#[test]
fn tick_cycle_input_player_monster_input() {
    let mut st = session(open_map(), vec![player(Point::new(5, 5))]);
    st.tick(Some(Key::Right));
    assert_eq!(st.turn_state, TurnState::PlayerTurn);
    st.tick(None);
    assert_eq!(st.turn_state, TurnState::MonsterTurn);
    st.tick(Some(Key::Left));
    assert_eq!(st.turn_state, TurnState::AwaitingInput);
}

#[test]
fn tick_applies_player_move_on_floor() {
    let mut st = session(open_map(), vec![player(Point::new(5, 5))]);
    st.tick(Some(Key::Down));
    assert_eq!(st.ecs.pending.len(), 1);
    assert_eq!(st.ecs.pending[0].destination, Point::new(5, 6));
    st.tick(None);
    assert_eq!(st.ecs.entities[0].pos, Point::new(5, 6));
    assert!(st.ecs.pending.is_empty());
    assert_eq!(st.camera, Camera::new(Point::new(5, 6)));
}

#[test]
fn pending_move_into_wall_is_dropped() {
    let map = open_map();
    let mut store = EntityStore {
        entities: vec![player(Point::new(1, 1))],
        pending: vec![PendingMove { entity: 0, destination: Point::new(0, 1) }],
    };
    movement(&mut store, &map);
    assert_eq!(store.entities[0].pos, Point::new(1, 1), "wall move must be rejected");
    assert!(store.pending.is_empty(), "the intent record must be consumed");
}

#[test]
fn pending_move_out_of_bounds_is_dropped() {
    let map = open_map();
    let mut store = EntityStore {
        entities: vec![player(Point::new(1, 1))],
        pending: vec![PendingMove { entity: 0, destination: Point::new(-1, 1) }],
    };
    movement(&mut store, &map);
    assert_eq!(store.entities[0].pos, Point::new(1, 1));
    assert!(store.pending.is_empty());
}

#[test]
fn pending_move_onto_floor_is_applied_exactly() {
    let map = open_map();
    let mut store = EntityStore {
        entities: vec![player(Point::new(4, 4))],
        pending: vec![PendingMove { entity: 0, destination: Point::new(4, 3) }],
    };
    movement(&mut store, &map);
    assert_eq!(store.entities[0].pos, Point::new(4, 3));
    assert!(store.pending.is_empty());
}

#[test]
fn collision_removes_enemy_on_player_tile_only() {
    let mut store = EntityStore {
        entities: vec![
            player(Point::new(5, 5)),
            monster(Point::new(5, 5)),
            monster(Point::new(6, 5)),
        ],
        pending: Vec::new(),
    };
    collisions(&mut store);
    assert!(store.entities[0].alive, "the player survives");
    assert!(!store.entities[1].alive, "an enemy on the player's tile is removed");
    assert!(store.entities[2].alive, "an enemy elsewhere is unaffected");
    assert_eq!(store.entities[2].pos, Point::new(6, 5));
}

#[test]
fn player_input_enqueues_one_intent_per_direction() {
    let cases = [
        (Key::Left, Point::new(4, 5)),
        (Key::Right, Point::new(6, 5)),
        (Key::Up, Point::new(5, 4)),
        (Key::Down, Point::new(5, 6)),
    ];
    for (key, expected) in cases {
        let mut store = EntityStore { entities: vec![player(Point::new(5, 5))], pending: Vec::new() };
        let next = player_input(&mut store, Some(key));
        assert_eq!(next, TurnState::PlayerTurn);
        assert_eq!(store.pending.len(), 1);
        assert_eq!(store.pending[0].entity, 0);
        assert_eq!(store.pending[0].destination, expected);
    }
}

#[test]
fn player_input_ignores_missing_or_other_key() {
    let mut store = EntityStore { entities: vec![player(Point::new(5, 5))], pending: Vec::new() };
    assert_eq!(player_input(&mut store, None), TurnState::AwaitingInput);
    assert_eq!(player_input(&mut store, Some(Key::Other)), TurnState::AwaitingInput);
    assert!(store.pending.is_empty());
}

#[test]
fn random_move_proposes_adjacent_steps_for_each_mover() {
    let mut store = EntityStore {
        entities: vec![player(Point::new(5, 5)), monster(Point::new(10, 10)), monster(Point::new(20, 20))],
        pending: Vec::new(),
    };
    let mut rng = RandomNumberGenerator::seeded(3);
    random_move(&mut store, &mut rng);
    assert_eq!(store.pending.len(), 2, "one intent per random mover");
    assert_eq!(store.pending[0].entity, 1);
    assert_eq!(store.pending[1].entity, 2);
    for m in &store.pending {
        let from = store.entities[m.entity].pos;
        let d = (m.destination.x - from.x).abs() + (m.destination.y - from.y).abs();
        assert_eq!(d, 1, "a random step is exactly one orthogonal tile");
    }
}

#[test]
fn camera_is_centered_on_focus() {
    let c = Camera::new(Point::new(5, 5));
    assert_eq!((c.left_x, c.right_x), (-15, 25));
    assert_eq!((c.top_y, c.bottom_y), (-7, 17));
}

#[test]
fn map_render_draws_visible_in_bounds_tiles() {
    let mut map = GridMap::new();
    map.tiles[map_idx(5, 5)] = TileType::Floor;
    let camera = Camera::new(Point::new(5, 5));
    let cmds = map_render(&map, &camera);
    // Viewport columns 0..25 and rows 0..=17 are on the grid: 25 * 18 cells.
    assert_eq!(cmds.len(), 25 * 18);
    let at_focus = cmds
        .iter()
        .find(|c| c.pos == Point::new(5 - camera.left_x, 5 - camera.top_y))
        .expect("focus tile must be drawn");
    assert_eq!(at_focus.glyph, '.');
    let at_origin = cmds
        .iter()
        .find(|c| c.pos == Point::new(-camera.left_x, -camera.top_y))
        .expect("grid origin is visible");
    assert_eq!(at_origin.glyph, '#');
}

#[test]
fn new_session_spawns_player_and_monsters() {
    let st = State::new(42).expect("session construction should succeed");
    assert_eq!(st.turn_state, TurnState::AwaitingInput);
    assert_eq!(st.ecs.entities.len(), NUM_ROOMS);
    assert!(st.ecs.pending.is_empty());
    let e0 = &st.ecs.entities[0];
    assert!(e0.alive && e0.is_player && !e0.is_enemy);
    assert!(st.map.can_enter_tile(e0.pos));
    for e in st.ecs.entities.iter().skip(1) {
        assert!(e.alive && e.is_enemy && e.moves_randomly && !e.is_player);
    }
    assert_eq!(st.camera, Camera::new(e0.pos));
}

#[test]
fn new_session_spawns_monsters_at_room_centers() {
    let st = State::new(7).expect("session construction should succeed");
    assert_eq!(st.rooms.len(), NUM_ROOMS);
    assert_eq!(st.ecs.entities[0].pos, st.rooms[0].center());
    for k in 1..NUM_ROOMS {
        let e = &st.ecs.entities[k];
        assert!(e.alive && e.is_enemy && e.moves_randomly && !e.is_player);
        assert_eq!(e.pos, st.rooms[k].center(), "monster {} sits at its room's center", k);
        assert!(st.map.can_enter_tile(e.pos));
    }
}

#[test]
fn map_render_emits_each_position_once() {
    let map = GridMap::new();
    let camera = Camera::new(Point::new(40, 25));
    let cmds = map_render(&map, &camera);
    for a in 0..cmds.len() {
        for b in (a + 1)..cmds.len() {
            assert_ne!(cmds[a].pos, cmds[b].pos, "duplicate draw command position");
        }
    }
}

#[test]
fn monster_turn_moves_each_mover_at_most_one_tile() {
    let mut st = session(open_map(), vec![player(Point::new(5, 5)), monster(Point::new(10, 10))]);
    st.turn_state = TurnState::MonsterTurn;
    st.tick(None);
    assert_eq!(st.turn_state, TurnState::AwaitingInput);
    let moved = st.ecs.entities[1].pos;
    let d = (moved.x - 10).abs() + (moved.y - 10).abs();
    assert!(d <= 1, "a monster moves at most one orthogonal step per turn");
}
