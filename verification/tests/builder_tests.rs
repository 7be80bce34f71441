use dungeon_core::map::{map_idx, Point, TileType, SCREEN_HEIGHT, SCREEN_WIDTH};
use dungeon_core::map_builder::{MapBuilder, NUM_ROOMS};

fn build(seed: u64) -> MapBuilder {
    MapBuilder::new(seed).expect("level generation should succeed")
}

#[test]
fn builder_returns_exactly_num_rooms() {
    for seed in [0u64, 1, 7, 42, 12345] {
        let mb = build(seed);
        assert_eq!(mb.rooms.len(), NUM_ROOMS);
    }
}

#[test]
fn rooms_never_pairwise_intersect() {
    for seed in [0u64, 1, 7, 42, 12345] {
        let mb = build(seed);
        for i in 0..mb.rooms.len() {
            for j in (i + 1)..mb.rooms.len() {
                assert!(
                    !mb.rooms[i].intersect(&mb.rooms[j]),
                    "rooms {} and {} overlap for seed {}",
                    i,
                    j,
                    seed
                );
            }
        }
    }
}

#[test]
fn rooms_lie_in_documented_ranges() {
    let mb = build(9);
    for r in &mb.rooms {
        assert!(r.x1 >= 1 && r.y1 >= 1);
        assert!(r.x2 - r.x1 >= 2 && r.x2 - r.x1 <= 9);
        assert!(r.y2 - r.y1 >= 2 && r.y2 - r.y1 <= 9);
        assert!(r.x2 <= SCREEN_WIDTH - 2 && r.y2 <= SCREEN_HEIGHT - 2);
    }
}

#[test]
fn player_start_is_first_room_center_on_floor() {
    let mb = build(42);
    let c = mb.rooms[0].center();
    assert_eq!(mb.player_start, c);
    assert!(mb.map.can_enter_tile(mb.player_start));
}

#[test]
fn every_room_center_reachable_by_floor_walk() {
    // Flood fill across floor tiles from the first room's center; every
    // room center must be reached.
    for seed in [0u64, 1, 42, 999] {
        let mb = build(seed);
        let mut seen = vec![false; 80 * 50];
        let start = mb.rooms[0].center();
        let mut queue = vec![start];
        seen[map_idx(start.x, start.y) as usize] = true;
        while let Some(p) = queue.pop() {
            for (dx, dy) in [(-1i32, 0i32), (1, 0), (0, -1), (0, 1)] {
                let q = Point::new(p.x + dx, p.y + dy);
                if mb.map.can_enter_tile(q) {
                    let idx = map_idx(q.x, q.y) as usize;
                    if !seen[idx] {
                        seen[idx] = true;
                        queue.push(q);
                    }
                }
            }
        }
        for (i, room) in mb.rooms.iter().enumerate() {
            let c = room.center();
            assert!(
                seen[map_idx(c.x, c.y) as usize],
                "room {} unreachable for seed {}",
                i,
                seed
            );
        }
    }
}

#[test]
fn same_seed_reproduces_identical_level() {
    let a = build(42);
    let b = build(42);
    assert_eq!(a.rooms.len(), NUM_ROOMS);
    assert_eq!(a.rooms, b.rooms, "room list must be deterministic for one seed");
    assert_eq!(a.player_start, b.player_start);
    assert_eq!(a.map.tiles, b.map.tiles, "tile grid must be byte-identical");
    let floors = a.map.tiles.iter().filter(|t| **t == TileType::Floor).count();
    assert!(floors > 0);
}

#[test]
fn different_seeds_give_different_levels() {
    let a = build(1);
    let b = build(2);
    assert_ne!(
        a.map.tiles, b.map.tiles,
        "two seeds agreeing tile-for-tile would mean the stream ignores the seed"
    );
}
