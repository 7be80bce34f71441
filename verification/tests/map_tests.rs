use dungeon_core::map::{GridMap, Point, TileType, map_idx, NUM_TILES, SCREEN_HEIGHT, SCREEN_WIDTH};
use dungeon_core::rect::Rect;

#[test]
fn new_map_is_all_wall() {
    let m = GridMap::new();
    assert_eq!(m.tiles.len(), NUM_TILES);
    assert!(m.tiles.iter().all(|t| *t == TileType::Wall));
}

#[test]
fn map_idx_is_row_major() {
    assert_eq!(map_idx(0, 0), 0);
    assert_eq!(map_idx(79, 0), 79);
    assert_eq!(map_idx(0, 1), 80);
    assert_eq!(map_idx(7, 3), 3 * 80 + 7);
    assert_eq!(map_idx(79, 49), NUM_TILES - 1);
}

#[test]
fn in_bounds_edges() {
    let m = GridMap::new();
    assert!(m.in_bounds(Point::new(0, 0)));
    assert!(m.in_bounds(Point::new(SCREEN_WIDTH - 1, SCREEN_HEIGHT - 1)));
    assert!(!m.in_bounds(Point::new(-1, 0)));
    assert!(!m.in_bounds(Point::new(0, -1)));
    assert!(!m.in_bounds(Point::new(SCREEN_WIDTH, 0)));
    assert!(!m.in_bounds(Point::new(0, SCREEN_HEIGHT)));
}

#[test]
fn try_idx_none_out_of_bounds() {
    let m = GridMap::new();
    assert_eq!(m.try_idx(Point::new(5, 4)), Some(4 * 80 + 5));
    assert_eq!(m.try_idx(Point::new(80, 4)), None);
    assert_eq!(m.try_idx(Point::new(-3, 4)), None);
    assert_eq!(m.try_idx(Point::new(4, 50)), None);
}

#[test]
fn can_enter_tile_iff_in_bounds_floor() {
    let mut m = GridMap::new();
    let p = Point::new(10, 12);
    assert!(!m.can_enter_tile(p), "wall tile must not be enterable");
    m.tiles[map_idx(10, 12)] = TileType::Floor;
    assert!(m.can_enter_tile(p), "floor tile must be enterable");
    assert!(!m.can_enter_tile(Point::new(-1, 12)));
    assert!(!m.can_enter_tile(Point::new(10, 50)));
    assert!(!m.can_enter_tile(Point::new(80, 80)));
}

#[test]
fn rect_with_size_and_center() {
    let r = Rect::with_size(3, 4, 6, 8);
    assert_eq!((r.x1, r.y1, r.x2, r.y2), (3, 4, 9, 12));
    let c = r.center();
    assert_eq!((c.x, c.y), (6, 8));
}

#[test]
fn rect_intersect_including_touching_edges() {
    let a = Rect::with_size(1, 1, 4, 4);
    let b = Rect::with_size(3, 3, 4, 4);
    let touching = Rect::with_size(5, 1, 3, 3);
    let apart = Rect::with_size(20, 20, 2, 2);
    assert!(a.intersect(&b));
    assert!(b.intersect(&a));
    assert!(a.intersect(&touching), "touching edges count as overlap");
    assert!(!a.intersect(&apart));
}
