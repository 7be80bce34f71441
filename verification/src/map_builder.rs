//! The procedural map builder: from a seeded random stream it carves a set
//! of non-overlapping rooms into an all-wall grid, joins consecutive rooms
//! (in order of center x) with L-shaped corridors, and picks the player
//! start. The result is proved connected: every room center reaches every
//! other across floor tiles.
use vstd::prelude::*;
use vstd::pervasive::VecAdditionalExecFns;
use crate::map::{GridMap, Point, TileType, map_idx, map_idx_spec, lemma_map_idx_injective,
    NUM_TILES, SCREEN_WIDTH, SCREEN_HEIGHT};
use crate::rect::Rect;
use crate::rng::{rng_seeded, rng_range};
use crate::connectivity::{floor_at, pt, reachable, lemma_reachable_trans, lemma_reachable_mono,
    lemma_horizontal_run_reachable, lemma_vertical_run_reachable, lemma_chain_all_pairs};
use bracket_lib::prelude::RandomNumberGenerator;

verus! {

pub const NUM_ROOMS: usize = 20;

/// Cap on candidate-room draws; exceeding it reports `GenerationFailed`
/// instead of looping forever.
pub const MAX_ROOM_ATTEMPTS: usize = 100000;

/// Building a level failed.
#[derive(Clone, Copy, PartialEq, Eq, Structural, Debug)]
pub enum BuildError {
    /// Room placement could not satisfy the non-overlap constraint within
    /// the bounded number of attempts; no partial map is returned.
    GenerationFailed,
}

/// The center of a well-formed room lies strictly inside its interior,
/// hence on the grid.
pub proof fn lemma_center_in_interior(r: Rect)
    requires
        wf_room(r),
    ensures
        r.x1 <= r.center_spec().x < r.x2,
        r.y1 <= r.center_spec().y < r.y2,
        GridMap::in_bounds_spec(r.center_spec()),
{
    assert(r.x1 + r.x2 >= 2 * r.x1);
    assert((r.x1 + r.x2) / 2 >= r.x1);
    assert(r.x1 + r.x2 <= 2 * r.x2 - 2);
    assert((r.x1 + r.x2) / 2 <= r.x2 - 1);
    assert(r.y1 + r.y2 >= 2 * r.y1);
    assert((r.y1 + r.y2) / 2 >= r.y1);
    assert(r.y1 + r.y2 <= 2 * r.y2 - 2);
    assert((r.y1 + r.y2) / 2 <= r.y2 - 1);
}

/// The coordinate ranges every drawn room satisfies: position in
/// `[1, width - 10) x [1, height - 10)`, side lengths 2 to 9, and hence the
/// far corner at least one tile inside the grid edge.
pub open spec fn wf_room(r: Rect) -> bool {
    &&& 1 <= r.x1 <= SCREEN_WIDTH - 11
    &&& r.x1 + 2 <= r.x2
    &&& r.x2 <= r.x1 + 9
    &&& r.x2 <= SCREEN_WIDTH - 2
    &&& 1 <= r.y1 <= SCREEN_HEIGHT - 11
    &&& r.y1 + 2 <= r.y2
    &&& r.y2 <= r.y1 + 9
    &&& r.y2 <= SCREEN_HEIGHT - 2
}

/// `p` lies in the room's interior: corners inclusive on the low side,
/// exclusive on the high side.
pub open spec fn in_room_interior(r: Rect, p: Point) -> bool {
    r.x1 <= p.x < r.x2 && r.y1 <= p.y < r.y2
}

/// Every point of the room's interior is floor.
pub open spec fn room_interior_floor(tiles: Seq<TileType>, r: Rect) -> bool {
    forall|x: int, y: int|
        r.x1 <= x < r.x2 && r.y1 <= y < r.y2 ==> floor_at(tiles, #[trigger] pt(x, y))
}

/// A generated level: the carved grid, the accepted rooms in acceptance
/// order, and the player's spawn point (center of the first room).
pub struct MapBuilder {
    pub map: GridMap,
    pub rooms: Vec<Rect>,
    pub player_start: Point,
}

impl MapBuilder {
    /// Everything a successful build guarantees: exactly `NUM_ROOMS`
    /// well-formed, pairwise non-overlapping rooms carved as floor, the
    /// player start on the first room's floor, and every room center
    /// reachable from every other across floor tiles.
    pub open spec fn wf_built(self) -> bool {
        &&& self.map.wf()
        &&& self.rooms@.len() == NUM_ROOMS
        &&& (forall|i: int| 0 <= i < self.rooms@.len() ==> wf_room(#[trigger] self.rooms@[i]))
        &&& (forall|i: int, j: int|
            0 <= i < j < self.rooms@.len() ==> !self.rooms@[i].intersect_spec(self.rooms@[j]))
        &&& (forall|i: int|
            0 <= i < self.rooms@.len() ==> room_interior_floor(
                self.map.tiles@,
                #[trigger] self.rooms@[i],
            ))
        &&& self.player_start == self.rooms@[0].center_spec()
        &&& floor_at(self.map.tiles@, self.player_start)
        &&& (forall|i: int, j: int|
            0 <= i < self.rooms@.len() && 0 <= j < self.rooms@.len() ==> reachable(
                self.map.tiles@,
                #[trigger] self.rooms@[i].center_spec(),
                #[trigger] self.rooms@[j].center_spec(),
            ))
    }

    /// Builds a level from a seed: the whole procedural stream is drawn
    /// from a generator seeded with `seed`, so one seed reproduces one
    /// dungeon.
    pub fn new(seed: u64) -> (r: Result<MapBuilder, BuildError>)
        ensures
            r is Ok ==> r->Ok_0.wf_built(),
    {
        let mut rng = rng_seeded(seed);
        Self::build(&mut rng)
    }

    /// Builds a level, drawing every procedural decision from the given
    /// generator. Fails with `GenerationFailed` only when the room draw
    /// exhausts its attempt cap.
    pub fn build(rng: &mut RandomNumberGenerator) -> (r: Result<MapBuilder, BuildError>)
        ensures
            r is Ok ==> r->Ok_0.wf_built(),
    {
        let mut mb = MapBuilder { map: GridMap::new(), rooms: Vec::new(), player_start: Point::zero() };
        mb.fill(TileType::Wall);
        match mb.build_random_rooms(rng) {
            Ok(()) => {}
            Err(e) => {
                return Err(e);
            }
        }
        let ghost tiles_rooms = mb.map.tiles@;
        mb.build_corridors(rng);
        proof {
            assert forall|i: int| 0 <= i < mb.rooms@.len() implies room_interior_floor(
                mb.map.tiles@,
                #[trigger] mb.rooms@[i],
            ) by {
                let r = mb.rooms@[i];
                assert(room_interior_floor(tiles_rooms, r));
                assert forall|x: int, y: int|
                    r.x1 <= x < r.x2 && r.y1 <= y < r.y2 implies floor_at(
                    mb.map.tiles@,
                    #[trigger] pt(x, y),
                ) by {
                    assert(floor_at(tiles_rooms, pt(x, y)));
                }
            }
            lemma_center_in_interior(mb.rooms@[0]);
        }
        mb.player_start = mb.rooms[0].center();
        proof {
            let c = mb.rooms@[0].center_spec();
            assert(pt(c.x as int, c.y as int) == c);
            assert(floor_at(mb.map.tiles@, c));
        }
        Ok(mb)
    }

    /// Sets every tile of the grid to `tile`.
    fn fill(&mut self, tile: TileType)
        requires
            old(self).map.wf(),
        ensures
            final(self).map.wf(),
            final(self).rooms@ == old(self).rooms@,
            final(self).player_start == old(self).player_start,
            forall|i: int| 0 <= i < NUM_TILES ==> final(self).map.tiles@[i] == tile,
    {
        let mut i: usize = 0;
        while i < NUM_TILES
            invariant
                self.map.wf(),
                self.rooms@ == old(self).rooms@,
                self.player_start == old(self).player_start,
                i <= NUM_TILES,
                forall|j: int| 0 <= j < i ==> self.map.tiles@[j] == tile,
            decreases NUM_TILES - i,
        {
            self.map.tiles.set(i, tile);
            i = i + 1;
        }
    }

    /// Carves the interior of an accepted room into floor; points on the
    /// grid's outer edge would be skipped, though a well-formed room has
    /// none.
    fn carve_room(&mut self, room: Rect)
        requires
            old(self).map.wf(),
            wf_room(room),
        ensures
            final(self).map.wf(),
            final(self).rooms@ == old(self).rooms@,
            final(self).player_start == old(self).player_start,
            room_interior_floor(final(self).map.tiles@, room),
            forall|p: Point|
                GridMap::in_bounds_spec(p) && !in_room_interior(room, p)
                    ==> final(self).map.tiles@[map_idx_spec(p.x as int, p.y as int)] == old(
                    self,
                ).map.tiles@[map_idx_spec(p.x as int, p.y as int)],
            forall|p: Point| #[trigger] floor_at(old(self).map.tiles@, p) ==> floor_at(final(self).map.tiles@, p),
    {
        let mut y = room.y1;
        while y < room.y2
            invariant
                self.map.wf(),
                self.rooms@ == old(self).rooms@,
                self.player_start == old(self).player_start,
                wf_room(room),
                room.y1 <= y <= room.y2,
                forall|xx: int, yy: int|
                    room.x1 <= xx < room.x2 && room.y1 <= yy < y ==> floor_at(
                        self.map.tiles@,
                        #[trigger] pt(xx, yy),
                    ),
                forall|idx: int|
                    0 <= idx < NUM_TILES && !(room.x1 <= idx % 80 < room.x2 && room.y1 <= idx / 80
                        < room.y2) ==> self.map.tiles@[idx] == old(self).map.tiles@[idx],
                forall|p: Point| #[trigger] floor_at(old(self).map.tiles@, p) ==> floor_at(self.map.tiles@, p),
            decreases room.y2 - y,
        {
            let mut x = room.x1;
            while x < room.x2
                invariant
                    self.map.wf(),
                    self.rooms@ == old(self).rooms@,
                    self.player_start == old(self).player_start,
                    wf_room(room),
                    room.y1 <= y < room.y2,
                    room.x1 <= x <= room.x2,
                    forall|xx: int, yy: int|
                        room.x1 <= xx < room.x2 && room.y1 <= yy < y ==> floor_at(
                            self.map.tiles@,
                            #[trigger] pt(xx, yy),
                        ),
                    forall|xx: int|
                        room.x1 <= xx < x ==> floor_at(self.map.tiles@, #[trigger] pt(xx, y as int)),
                    forall|idx: int|
                        0 <= idx < NUM_TILES && !(room.x1 <= idx % 80 < room.x2 && room.y1 <= idx
                            / 80 < room.y2) ==> self.map.tiles@[idx] == old(self).map.tiles@[idx],
                    forall|p: Point| #[trigger] floor_at(old(self).map.tiles@, p) ==> floor_at(self.map.tiles@, p),
                decreases room.x2 - x,
            {
                if x > 0 && x < SCREEN_WIDTH && y > 0 && y < SCREEN_HEIGHT {
                    let idx = map_idx(x, y);
                    self.map.tiles.set(idx, TileType::Floor);
                    proof {
                        assert((y as int) * 80 + (x as int) == idx as int);
                        assert(idx as int % 80 == x as int && idx as int / 80 == y as int);
                    }
                }
                x = x + 1;
            }
            y = y + 1;
        }
        proof {
            assert forall|p: Point|
                GridMap::in_bounds_spec(p) && !in_room_interior(room, p)
                    implies self.map.tiles@[map_idx_spec(p.x as int, p.y as int)] == old(
                self,
            ).map.tiles@[map_idx_spec(p.x as int, p.y as int)] by {
                let idx = map_idx_spec(p.x as int, p.y as int);
                assert((p.y as int) * 80 + (p.x as int) == idx);
                assert(idx % 80 == p.x as int && idx / 80 == p.y as int);
                assert(0 <= idx < NUM_TILES);
            }
        }
    }

    /// Carves a straight horizontal run of floor on row `y`, spanning
    /// `x1..=x2` inclusive in either order; cells outside the grid are
    /// silently skipped.
    fn apply_horizontal_tunnel(&mut self, x1: i32, x2: i32, y: i32)
        requires
            old(self).map.wf(),
        ensures
            final(self).map.wf(),
            final(self).rooms@ == old(self).rooms@,
            final(self).player_start == old(self).player_start,
            forall|xx: int|
                (if x1 <= x2 {
                    x1 <= xx <= x2
                } else {
                    x2 <= xx <= x1
                }) && GridMap::in_bounds_spec(pt(xx, y as int)) ==> floor_at(
                    final(self).map.tiles@,
                    #[trigger] pt(xx, y as int),
                ),
            forall|p: Point|
                GridMap::in_bounds_spec(p) && !(p.y == y && (if x1 <= x2 {
                    x1 <= p.x <= x2
                } else {
                    x2 <= p.x <= x1
                })) ==> final(self).map.tiles@[map_idx_spec(p.x as int, p.y as int)] == old(
                    self,
                ).map.tiles@[map_idx_spec(p.x as int, p.y as int)],
            forall|p: Point| #[trigger] floor_at(old(self).map.tiles@, p) ==> floor_at(final(self).map.tiles@, p),
    {
        let lo: i64 = if x1 <= x2 { x1 as i64 } else { x2 as i64 };
        let hi: i64 = if x1 <= x2 { x2 as i64 } else { x1 as i64 };
        let mut x: i64 = lo;
        while x <= hi
            invariant
                self.map.wf(),
                self.rooms@ == old(self).rooms@,
                self.player_start == old(self).player_start,
                lo <= x,
                lo == if x1 <= x2 { x1 as int } else { x2 as int },
                hi == if x1 <= x2 { x2 as int } else { x1 as int },
                forall|xx: int|
                    lo <= xx < x && GridMap::in_bounds_spec(pt(xx, y as int)) ==> floor_at(
                        self.map.tiles@,
                        #[trigger] pt(xx, y as int),
                    ),
                forall|q: Point|
                    GridMap::in_bounds_spec(q) && !(q.y == y && lo <= q.x <= hi)
                        ==> self.map.tiles@[map_idx_spec(q.x as int, q.y as int)] == old(
                        self,
                    ).map.tiles@[map_idx_spec(q.x as int, q.y as int)],
                forall|p: Point| #[trigger] floor_at(old(self).map.tiles@, p) ==> floor_at(self.map.tiles@, p),
            decreases hi + 1 - x,
        {
            let p = Point::new(x as i32, y);
            if let Some(idx) = self.map.try_idx(p) {
                let ghost before = self.map.tiles@;
                self.map.tiles.set(idx, TileType::Floor);
                proof {
                    assert forall|q: Point|
                        GridMap::in_bounds_spec(q) && !(q.y == y && lo <= q.x <= hi)
                            implies self.map.tiles@[map_idx_spec(q.x as int, q.y as int)]
                        == before[map_idx_spec(q.x as int, q.y as int)] by {
                        if map_idx_spec(q.x as int, q.y as int) == idx {
                            lemma_map_idx_injective(q, p);
                            assert(false);
                        }
                    }
                }
            }
            x = x + 1;
        }
    }

    /// Carves a straight vertical run of floor in column `x`, spanning
    /// `y1..=y2` inclusive in either order; cells outside the grid are
    /// silently skipped.
    fn apply_vertical_tunnel(&mut self, y1: i32, y2: i32, x: i32)
        requires
            old(self).map.wf(),
        ensures
            final(self).map.wf(),
            final(self).rooms@ == old(self).rooms@,
            final(self).player_start == old(self).player_start,
            forall|yy: int|
                (if y1 <= y2 {
                    y1 <= yy <= y2
                } else {
                    y2 <= yy <= y1
                }) && GridMap::in_bounds_spec(pt(x as int, yy)) ==> floor_at(
                    final(self).map.tiles@,
                    #[trigger] pt(x as int, yy),
                ),
            forall|p: Point|
                GridMap::in_bounds_spec(p) && !(p.x == x && (if y1 <= y2 {
                    y1 <= p.y <= y2
                } else {
                    y2 <= p.y <= y1
                })) ==> final(self).map.tiles@[map_idx_spec(p.x as int, p.y as int)] == old(
                    self,
                ).map.tiles@[map_idx_spec(p.x as int, p.y as int)],
            forall|p: Point| #[trigger] floor_at(old(self).map.tiles@, p) ==> floor_at(final(self).map.tiles@, p),
    {
        let lo: i64 = if y1 <= y2 { y1 as i64 } else { y2 as i64 };
        let hi: i64 = if y1 <= y2 { y2 as i64 } else { y1 as i64 };
        let mut y: i64 = lo;
        while y <= hi
            invariant
                self.map.wf(),
                self.rooms@ == old(self).rooms@,
                self.player_start == old(self).player_start,
                lo <= y,
                lo == if y1 <= y2 { y1 as int } else { y2 as int },
                hi == if y1 <= y2 { y2 as int } else { y1 as int },
                forall|yy: int|
                    lo <= yy < y && GridMap::in_bounds_spec(pt(x as int, yy)) ==> floor_at(
                        self.map.tiles@,
                        #[trigger] pt(x as int, yy),
                    ),
                forall|q: Point|
                    GridMap::in_bounds_spec(q) && !(q.x == x && lo <= q.y <= hi)
                        ==> self.map.tiles@[map_idx_spec(q.x as int, q.y as int)] == old(
                        self,
                    ).map.tiles@[map_idx_spec(q.x as int, q.y as int)],
                forall|p: Point| #[trigger] floor_at(old(self).map.tiles@, p) ==> floor_at(self.map.tiles@, p),
            decreases hi + 1 - y,
        {
            let p = Point::new(x, y as i32);
            if let Some(idx) = self.map.try_idx(p) {
                let ghost before = self.map.tiles@;
                self.map.tiles.set(idx, TileType::Floor);
                proof {
                    assert forall|q: Point|
                        GridMap::in_bounds_spec(q) && !(q.x == x && lo <= q.y <= hi)
                            implies self.map.tiles@[map_idx_spec(q.x as int, q.y as int)]
                        == before[map_idx_spec(q.x as int, q.y as int)] by {
                        if map_idx_spec(q.x as int, q.y as int) == idx {
                            lemma_map_idx_injective(q, p);
                            assert(false);
                        }
                    }
                }
            }
            y = y + 1;
        }
    }

    /// Draws candidate rooms until the list holds `NUM_ROOMS` pairwise
    /// non-overlapping ones, carving each accepted candidate into floor; a
    /// candidate overlapping any room already in the list is rejected and
    /// redrawn. Rooms already in the list keep their positions, and tiles
    /// outside the appended rooms' interiors are untouched. Returns
    /// `GenerationFailed` if and only if the attempt cap runs out before
    /// the count is reached.
    fn build_random_rooms(&mut self, rng: &mut RandomNumberGenerator) -> (r: Result<
        (),
        BuildError,
    >)
        requires
            old(self).map.wf(),
        ensures
            final(self).map.wf(),
            final(self).player_start == old(self).player_start,
            old(self).rooms@.len() <= final(self).rooms@.len(),
            forall|i: int|
                0 <= i < old(self).rooms@.len() ==> final(self).rooms@[i] == old(self).rooms@[i],
            forall|i: int|
                old(self).rooms@.len() <= i < final(self).rooms@.len() ==> wf_room(
                    #[trigger] final(self).rooms@[i],
                ),
            forall|i: int, j: int|
                0 <= i < j < final(self).rooms@.len() && old(self).rooms@.len() <= j
                    ==> !final(self).rooms@[i].intersect_spec(final(self).rooms@[j]),
            forall|i: int|
                old(self).rooms@.len() <= i < final(self).rooms@.len() ==> room_interior_floor(
                    final(self).map.tiles@,
                    #[trigger] final(self).rooms@[i],
                ),
            forall|p: Point| #[trigger] floor_at(old(self).map.tiles@, p) ==> floor_at(
                final(self).map.tiles@,
                p,
            ),
            forall|p: Point|
                GridMap::in_bounds_spec(p) && (forall|i: int|
                    old(self).rooms@.len() <= i < final(self).rooms@.len() ==> !in_room_interior(
                        #[trigger] final(self).rooms@[i],
                        p,
                    )) ==> final(self).map.tiles@[map_idx_spec(p.x as int, p.y as int)]
                    == old(self).map.tiles@[map_idx_spec(p.x as int, p.y as int)],
            r is Ok <==> final(self).rooms@.len() == NUM_ROOMS,
    {
        let ghost n0 = old(self).rooms@.len() as int;
        let mut attempts: usize = 0;
        while self.rooms.len() < NUM_ROOMS && attempts < MAX_ROOM_ATTEMPTS
            invariant
                self.map.wf(),
                self.player_start == old(self).player_start,
                n0 == old(self).rooms@.len(),
                n0 <= self.rooms@.len(),
                self.rooms@.len() <= NUM_ROOMS || self.rooms@.len() == n0,
                forall|i: int| 0 <= i < n0 ==> self.rooms@[i] == old(self).rooms@[i],
                forall|i: int|
                    n0 <= i < self.rooms@.len() ==> wf_room(#[trigger] self.rooms@[i]),
                forall|i: int, j: int|
                    0 <= i < j < self.rooms@.len() && n0 <= j ==> !self.rooms@[i].intersect_spec(
                        self.rooms@[j],
                    ),
                forall|i: int|
                    n0 <= i < self.rooms@.len() ==> room_interior_floor(
                        self.map.tiles@,
                        #[trigger] self.rooms@[i],
                    ),
                forall|p: Point| #[trigger] floor_at(old(self).map.tiles@, p) ==> floor_at(
                    self.map.tiles@,
                    p,
                ),
                forall|p: Point|
                    GridMap::in_bounds_spec(p) && (forall|i: int|
                        n0 <= i < self.rooms@.len() ==> !in_room_interior(
                            #[trigger] self.rooms@[i],
                            p,
                        )) ==> self.map.tiles@[map_idx_spec(p.x as int, p.y as int)] == old(
                        self,
                    ).map.tiles@[map_idx_spec(p.x as int, p.y as int)],
            decreases MAX_ROOM_ATTEMPTS - attempts,
        {
            attempts = attempts + 1;
            let x = rng_range(rng, 1, SCREEN_WIDTH - 10);
            let y = rng_range(rng, 1, SCREEN_HEIGHT - 10);
            let w = rng_range(rng, 2, 10);
            let h = rng_range(rng, 2, 10);
            let room = Rect::with_size(x, y, w, h);
            let mut overlap = false;
            let mut i: usize = 0;
            while i < self.rooms.len()
                invariant
                    i <= self.rooms@.len(),
                    !overlap ==> forall|j: int|
                        0 <= j < i ==> !self.rooms@[j].intersect_spec(room),
                decreases self.rooms@.len() - i,
            {
                if self.rooms[i].intersect(&room) {
                    overlap = true;
                }
                i = i + 1;
            }
            if !overlap {
                let ghost rooms_before = self.rooms@;
                let ghost tiles_before = self.map.tiles@;
                self.carve_room(room);
                self.rooms.push(room);
                proof {
                    assert forall|p: Point|
                        GridMap::in_bounds_spec(p) && (forall|i: int|
                            n0 <= i < self.rooms@.len() ==> !in_room_interior(
                                #[trigger] self.rooms@[i],
                                p,
                            )) implies self.map.tiles@[map_idx_spec(p.x as int, p.y as int)]
                        == old(self).map.tiles@[map_idx_spec(p.x as int, p.y as int)] by {
                        assert(self.rooms@[self.rooms@.len() - 1] == room);
                        assert(!in_room_interior(room, p));
                        assert forall|i: int|
                            n0 <= i < rooms_before.len() implies !in_room_interior(
                            #[trigger] rooms_before[i],
                            p,
                        ) by {
                            assert(self.rooms@[i] == rooms_before[i]);
                            assert(!in_room_interior(self.rooms@[i], p));
                        }
                        assert(tiles_before[map_idx_spec(p.x as int, p.y as int)] == old(
                            self,
                        ).map.tiles@[map_idx_spec(p.x as int, p.y as int)]);
                        assert(self.map.tiles@[map_idx_spec(p.x as int, p.y as int)]
                            == tiles_before[map_idx_spec(p.x as int, p.y as int)]);
                    }
                }
            }
        }
        if self.rooms.len() == NUM_ROOMS {
            Ok(())
        } else {
            Err(BuildError::GenerationFailed)
        }
    }

    /// Connects consecutive rooms, in ascending order of center x, with
    /// L-shaped corridors; the bend's corner is chosen by a coin flip from
    /// the same generator. Afterwards every room center is reachable from
    /// every other across floor tiles.
    fn build_corridors(&mut self, rng: &mut RandomNumberGenerator)
        requires
            old(self).map.wf(),
            forall|i: int| 0 <= i < old(self).rooms@.len() ==> wf_room(#[trigger] old(self).rooms@[i]),
            forall|i: int|
                0 <= i < old(self).rooms@.len() ==> room_interior_floor(
                    old(self).map.tiles@,
                    #[trigger] old(self).rooms@[i],
                ),
        ensures
            final(self).map.wf(),
            final(self).rooms@ == old(self).rooms@,
            final(self).player_start == old(self).player_start,
            forall|p: Point| #[trigger] floor_at(old(self).map.tiles@, p) ==> floor_at(final(self).map.tiles@, p),
            forall|i: int, j: int|
                0 <= i < final(self).rooms@.len() && 0 <= j < final(self).rooms@.len()
                    ==> reachable(
                    final(self).map.tiles@,
                    #[trigger] final(self).rooms@[i].center_spec(),
                    #[trigger] final(self).rooms@[j].center_spec(),
                ),
    {
        let sorted = sort_rooms_by_center_x(&self.rooms);
        let ghost orig_tiles = self.map.tiles@;
        let mut i: usize = 1;
        while i < sorted.len()
            invariant
                self.map.wf(),
                self.rooms@ == old(self).rooms@,
                self.player_start == old(self).player_start,
                1 <= i,
                sorted@.len() == self.rooms@.len(),
                forall|k: int| 0 <= k < sorted@.len() ==> wf_room(#[trigger] sorted@[k]),
                forall|q: Rect| sorted@.contains(q) <==> self.rooms@.contains(q),
                forall|p: Point| #[trigger] floor_at(orig_tiles, p) ==> floor_at(self.map.tiles@, p),
                forall|j: int|
                    1 <= j < i && j < sorted@.len() ==> reachable(
                        self.map.tiles@,
                        sorted@[j - 1].center_spec(),
                        #[trigger] sorted@[j].center_spec(),
                    ),
            decreases sorted@.len() - i,
        {
            proof {
                lemma_center_in_interior(sorted@[i - 1]);
                lemma_center_in_interior(sorted@[i as int]);
            }
            let prev = sorted[i - 1].center();
            let cur = sorted[i].center();
            let ghost before = self.map.tiles@;
            if rng_range(rng, 0, 2) == 1 {
                self.apply_horizontal_tunnel(prev.x, cur.x, prev.y);
                let ghost mid = self.map.tiles@;
                self.apply_vertical_tunnel(prev.y, cur.y, cur.x);
                proof {
                    let now = self.map.tiles@;
                    let corner = pt(cur.x as int, prev.y as int);
                    assert forall|xx: int|
                        (if prev.x <= cur.x {
                            prev.x <= xx <= cur.x
                        } else {
                            cur.x <= xx <= prev.x
                        }) implies floor_at(now, #[trigger] pt(xx, prev.y as int)) by {
                        assert(GridMap::in_bounds_spec(pt(xx, prev.y as int)));
                        assert(floor_at(mid, pt(xx, prev.y as int)));
                    }
                    lemma_horizontal_run_reachable(now, prev.x as int, cur.x as int, prev.y as int);
                    assert forall|yy: int|
                        (if prev.y <= cur.y {
                            prev.y <= yy <= cur.y
                        } else {
                            cur.y <= yy <= prev.y
                        }) implies floor_at(now, #[trigger] pt(cur.x as int, yy)) by {
                        assert(GridMap::in_bounds_spec(pt(cur.x as int, yy)));
                    }
                    lemma_vertical_run_reachable(now, prev.y as int, cur.y as int, cur.x as int);
                    assert(pt(prev.x as int, prev.y as int) == prev);
                    assert(pt(cur.x as int, cur.y as int) == cur);
                    lemma_reachable_trans(now, prev, corner, cur);
                    assert forall|j: int| 1 <= j < i + 1 && j < sorted@.len() implies reachable(
                        now,
                        sorted@[j - 1].center_spec(),
                        #[trigger] sorted@[j].center_spec(),
                    ) by {
                        if j < i {
                            lemma_reachable_mono(
                                before,
                                now,
                                sorted@[j - 1].center_spec(),
                                sorted@[j].center_spec(),
                            );
                        }
                    }
                }
            } else {
                self.apply_vertical_tunnel(prev.y, cur.y, prev.x);
                let ghost mid = self.map.tiles@;
                self.apply_horizontal_tunnel(prev.x, cur.x, cur.y);
                proof {
                    let now = self.map.tiles@;
                    let corner = pt(prev.x as int, cur.y as int);
                    assert forall|yy: int|
                        (if prev.y <= cur.y {
                            prev.y <= yy <= cur.y
                        } else {
                            cur.y <= yy <= prev.y
                        }) implies floor_at(now, #[trigger] pt(prev.x as int, yy)) by {
                        assert(GridMap::in_bounds_spec(pt(prev.x as int, yy)));
                        assert(floor_at(mid, pt(prev.x as int, yy)));
                    }
                    lemma_vertical_run_reachable(now, prev.y as int, cur.y as int, prev.x as int);
                    assert forall|xx: int|
                        (if prev.x <= cur.x {
                            prev.x <= xx <= cur.x
                        } else {
                            cur.x <= xx <= prev.x
                        }) implies floor_at(now, #[trigger] pt(xx, cur.y as int)) by {
                        assert(GridMap::in_bounds_spec(pt(xx, cur.y as int)));
                    }
                    lemma_horizontal_run_reachable(now, prev.x as int, cur.x as int, cur.y as int);
                    assert(pt(prev.x as int, prev.y as int) == prev);
                    assert(pt(cur.x as int, cur.y as int) == cur);
                    lemma_reachable_trans(now, prev, corner, cur);
                    assert forall|j: int| 1 <= j < i + 1 && j < sorted@.len() implies reachable(
                        now,
                        sorted@[j - 1].center_spec(),
                        #[trigger] sorted@[j].center_spec(),
                    ) by {
                        if j < i {
                            lemma_reachable_mono(
                                before,
                                now,
                                sorted@[j - 1].center_spec(),
                                sorted@[j].center_spec(),
                            );
                        }
                    }
                }
            }
            i = i + 1;
        }
        proof {
            let now = self.map.tiles@;
            let centers = sorted@.map_values(|r: Rect| r.center_spec());
            assert forall|j: int| 0 <= j < centers.len() implies floor_at(
                now,
                #[trigger] centers[j],
            ) by {
                assert(sorted@.contains(sorted@[j]));
                assert(self.rooms@.contains(sorted@[j]));
                let k = choose|k: int| 0 <= k < self.rooms@.len() && self.rooms@[k] == sorted@[j];
                assert(room_interior_floor(orig_tiles, self.rooms@[k]));
                lemma_center_in_interior(sorted@[j]);
                let c = sorted@[j].center_spec();
                assert(floor_at(orig_tiles, pt(c.x as int, c.y as int)));
                assert(pt(c.x as int, c.y as int) == c);
            }
            assert forall|j: int| 1 <= j < centers.len() implies reachable(
                now,
                centers[j - 1],
                #[trigger] centers[j],
            ) by {
                assert(reachable(now, sorted@[j - 1].center_spec(), sorted@[j].center_spec()));
            }
            lemma_chain_all_pairs(now, centers);
            assert forall|a: int, b: int|
                0 <= a < self.rooms@.len() && 0 <= b < self.rooms@.len() implies reachable(
                now,
                #[trigger] self.rooms@[a].center_spec(),
                #[trigger] self.rooms@[b].center_spec(),
            ) by {
                assert(self.rooms@.contains(self.rooms@[a]));
                assert(self.rooms@.contains(self.rooms@[b]));
                let ka = choose|k: int| 0 <= k < sorted@.len() && sorted@[k] == self.rooms@[a];
                let kb = choose|k: int| 0 <= k < sorted@.len() && sorted@[k] == self.rooms@[b];
                assert(centers[ka] == self.rooms@[a].center_spec());
                assert(centers[kb] == self.rooms@[b].center_spec());
            }
        }
    }
}

/// Spec-level sort key of a room: the x coordinate of its center.
pub open spec fn cx(r: Rect) -> int {
    (r.x1 + r.x2) / 2
}

/// Insertion sort of the room list by ascending center x. The result holds
/// exactly the same rooms.
fn sort_rooms_by_center_x(rooms: &Vec<Rect>) -> (r: Vec<Rect>)
    requires
        forall|i: int| 0 <= i < rooms@.len() ==> wf_room(#[trigger] rooms@[i]),
    ensures
        r@.len() == rooms@.len(),
        forall|i: int| 0 <= i < r@.len() ==> wf_room(#[trigger] r@[i]),
        forall|i: int, j: int| 0 <= i < j < r@.len() ==> cx(r@[i]) <= cx(r@[j]),
        forall|q: Rect| r@.contains(q) <==> rooms@.contains(q),
{
    let mut v: Vec<Rect> = Vec::new();
    let mut k: usize = 0;
    while k < rooms.len()
        invariant
            k <= rooms@.len(),
            v@ == rooms@.take(k as int),
        decreases rooms@.len() - k,
    {
        v.push(rooms[k]);
        k = k + 1;
    }
    proof {
        assert(v@ == rooms@);
    }
    let mut i: usize = 1;
    while i < v.len()
        invariant
            1 <= i,
            v@.len() == rooms@.len(),
            forall|a: int| 0 <= a < v@.len() ==> wf_room(#[trigger] v@[a]),
            forall|a: int, b: int| 0 <= a < b < i && b < v@.len() ==> cx(v@[a]) <= cx(v@[b]),
            forall|q: Rect| v@.contains(q) <==> rooms@.contains(q),
        decreases v@.len() - i,
    {
        let mut j: usize = i;
        while j > 0 && (v[j - 1].x1 + v[j - 1].x2) / 2 > (v[j].x1 + v[j].x2) / 2
            invariant
                0 <= j <= i < v@.len(),
                v@.len() == rooms@.len(),
                forall|a: int| 0 <= a < v@.len() ==> wf_room(#[trigger] v@[a]),
                forall|a: int, b: int|
                    0 <= a < b <= i && b < v@.len() && b != j ==> cx(v@[a]) <= cx(v@[b]),
                forall|q: Rect| v@.contains(q) <==> rooms@.contains(q),
            decreases j,
        {
            let ghost pre = v@;
            let tmp = v[j - 1];
            let moved = v[j];
            v.set(j - 1, moved);
            v.set(j, tmp);
            proof {
                lemma_swap_preserves_contains(pre, (j - 1) as int, j as int);
                assert(v@ == pre.update((j - 1) as int, pre[j as int]).update(
                    j as int,
                    pre[(j - 1) as int],
                ));
            }
            j = j - 1;
        }
        i = i + 1;
    }
    v
}

/// Swapping two elements of a sequence leaves its set of elements
/// unchanged.
proof fn lemma_swap_preserves_contains(s: Seq<Rect>, a: int, b: int)
    requires
        0 <= a < s.len(),
        0 <= b < s.len(),
    ensures
        forall|q: Rect| s.update(a, s[b]).update(b, s[a]).contains(q) <==> s.contains(q),
{
    let t = s.update(a, s[b]).update(b, s[a]);
    assert forall|q: Rect| t.contains(q) implies s.contains(q) by {
        let k = choose|k: int| 0 <= k < t.len() && t[k] == q;
        if k == b {
            assert(s[a] == q);
        } else if k == a {
            assert(s[b] == q);
        } else {
            assert(s[k] == q);
        }
    }
    assert forall|q: Rect| s.contains(q) implies t.contains(q) by {
        let k = choose|k: int| 0 <= k < s.len() && s[k] == q;
        if k == a {
            assert(t[b] == q);
        } else if k == b {
            assert(t[a] == q);
        } else {
            assert(t[k] == q);
        }
    }
}

} // verus!
