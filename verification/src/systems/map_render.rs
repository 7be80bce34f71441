//! The map-render system: computes the draw commands for the part of the
//! grid visible through the camera, in camera-relative coordinates. The
//! host submits these to its terminal; no drawing happens here.
use vstd::prelude::*;
use crate::camera::{Camera, DISPLAY_WIDTH, DISPLAY_HEIGHT};
use crate::connectivity::pt;
use crate::map::{GridMap, Point, TileType, map_idx};

verus! {

/// One glyph to draw at a camera-relative position.
#[derive(Clone, Copy, PartialEq, Eq, Structural, Debug)]
pub struct DrawCommand {
    pub pos: Point,
    pub glyph: char,
}

/// The glyph a tile is drawn with.
pub open spec fn glyph_of(t: TileType) -> char {
    match t {
        TileType::Wall => '#',
        TileType::Floor => '.',
    }
}

/// One draw command per in-bounds grid point visible through the camera:
/// the point's tile glyph at its camera-relative position. Points of the
/// viewport that fall off the grid produce nothing.
#[verifier::rlimit(100)]
pub fn map_render(map: &GridMap, camera: &Camera) -> (r: Vec<DrawCommand>)
    requires
        map.wf(),
        camera.wf(),
    ensures
        forall|k: int|
            0 <= k < r@.len() ==> {
                let c = #[trigger] r@[k];
                let src = pt(c.pos.x + camera.left_x, c.pos.y + camera.top_y);
                &&& 0 <= c.pos.x < DISPLAY_WIDTH
                &&& 0 <= c.pos.y < DISPLAY_HEIGHT
                &&& GridMap::in_bounds_spec(src)
                &&& c.glyph == glyph_of(map.tile_at(src))
            },
        forall|x: int, y: int|
            camera.left_x <= x < camera.right_x && camera.top_y <= y <= camera.bottom_y
                && GridMap::in_bounds_spec(#[trigger] pt(x, y)) ==> exists|k: int|
                0 <= k < r@.len() && r@[k] == (DrawCommand {
                    pos: pt(x - camera.left_x, y - camera.top_y),
                    glyph: glyph_of(map.tile_at(pt(x, y))),
                }),
        forall|k1: int, k2: int|
            0 <= k1 < k2 < r@.len() ==> (#[trigger] r@[k1]).pos != (#[trigger] r@[k2]).pos,
{
    let mut r: Vec<DrawCommand> = Vec::new();
    let mut y = camera.top_y;
    while y <= camera.bottom_y
        invariant
            map.wf(),
            camera.wf(),
            camera.top_y <= y <= camera.bottom_y + 1,
            forall|k: int|
                0 <= k < r@.len() ==> {
                    let c = #[trigger] r@[k];
                    let src = pt(c.pos.x + camera.left_x, c.pos.y + camera.top_y);
                    &&& 0 <= c.pos.x < DISPLAY_WIDTH
                    &&& 0 <= c.pos.y < DISPLAY_HEIGHT
                    &&& GridMap::in_bounds_spec(src)
                    &&& c.glyph == glyph_of(map.tile_at(src))
                },
            forall|xx: int, yy: int|
                camera.left_x <= xx < camera.right_x && camera.top_y <= yy < y
                    && GridMap::in_bounds_spec(#[trigger] pt(xx, yy)) ==> exists|k: int|
                    0 <= k < r@.len() && r@[k] == (DrawCommand {
                        pos: pt(xx - camera.left_x, yy - camera.top_y),
                        glyph: glyph_of(map.tile_at(pt(xx, yy))),
                    }),
            forall|k: int|
                0 <= k < r@.len() ==> (#[trigger] r@[k]).pos.y + camera.top_y < y,
            forall|k1: int, k2: int|
                0 <= k1 < k2 < r@.len() ==> (#[trigger] r@[k1]).pos != (#[trigger] r@[k2]).pos,
        decreases camera.bottom_y + 1 - y,
    {
        let mut x = camera.left_x;
        while x < camera.right_x
            invariant
                map.wf(),
                camera.wf(),
                camera.top_y <= y <= camera.bottom_y,
                camera.left_x <= x <= camera.right_x,
                forall|k: int|
                    0 <= k < r@.len() ==> {
                        let c = #[trigger] r@[k];
                        let src = pt(c.pos.x + camera.left_x, c.pos.y + camera.top_y);
                        &&& 0 <= c.pos.x < DISPLAY_WIDTH
                        &&& 0 <= c.pos.y < DISPLAY_HEIGHT
                        &&& GridMap::in_bounds_spec(src)
                        &&& c.glyph == glyph_of(map.tile_at(src))
                    },
                forall|xx: int, yy: int|
                    camera.left_x <= xx < camera.right_x && camera.top_y <= yy < y
                        && GridMap::in_bounds_spec(#[trigger] pt(xx, yy)) ==> exists|k: int|
                        0 <= k < r@.len() && r@[k] == (DrawCommand {
                            pos: pt(xx - camera.left_x, yy - camera.top_y),
                            glyph: glyph_of(map.tile_at(pt(xx, yy))),
                        }),
                forall|xx: int|
                    camera.left_x <= xx < x && GridMap::in_bounds_spec(#[trigger] pt(xx, y as int))
                        ==> exists|k: int|
                        0 <= k < r@.len() && r@[k] == (DrawCommand {
                            pos: pt(xx - camera.left_x, y - camera.top_y),
                            glyph: glyph_of(map.tile_at(pt(xx, y as int))),
                        }),
                forall|k: int|
                    0 <= k < r@.len() ==> ((#[trigger] r@[k]).pos.y + camera.top_y < y || (
                    r@[k].pos.y + camera.top_y == y && r@[k].pos.x + camera.left_x < x)),
                forall|k1: int, k2: int|
                    0 <= k1 < k2 < r@.len() ==> (#[trigger] r@[k1]).pos != (#[trigger] r@[k2]).pos,
            decreases camera.right_x - x,
        {
            let p = Point::new(x, y);
            if map.in_bounds(p) {
                let idx = map_idx(x, y);
                let glyph: char = if map.tiles[idx] == TileType::Wall {
                    '#'
                } else {
                    '.'
                };
                let cmd = DrawCommand {
                    pos: Point::new(x - camera.left_x, y - camera.top_y),
                    glyph,
                };
                let ghost pre = r@;
                r.push(cmd);
                proof {
                    assert(r@ == pre.push(cmd));
                    assert(r@[r@.len() - 1] == cmd);
                    assert(pt(x as int, y as int) == p);
                    assert(cmd.pos == pt(x - camera.left_x, y - camera.top_y));
                    assert(cmd.pos.x + camera.left_x == x && cmd.pos.y + camera.top_y == y);
                    assert(cmd.glyph == glyph_of(map.tile_at(pt(x as int, y as int))));
                    assert forall|xx: int|
                        camera.left_x <= xx < x + 1 && GridMap::in_bounds_spec(
                            #[trigger] pt(xx, y as int),
                        ) implies exists|k: int|
                        0 <= k < r@.len() && r@[k] == (DrawCommand {
                            pos: pt(xx - camera.left_x, y - camera.top_y),
                            glyph: glyph_of(map.tile_at(pt(xx, y as int))),
                        }) by {
                        let target = DrawCommand {
                            pos: pt(xx - camera.left_x, y - camera.top_y),
                            glyph: glyph_of(map.tile_at(pt(xx, y as int))),
                        };
                        if xx == x as int {
                            assert(r@[r@.len() - 1] == target);
                        } else {
                            let k0 = choose|k: int| 0 <= k < pre.len() && pre[k] == target;
                            assert(r@[k0] == target);
                        }
                    }
                    assert forall|xx: int, yy: int|
                        camera.left_x <= xx < camera.right_x && camera.top_y <= yy < y
                            && GridMap::in_bounds_spec(#[trigger] pt(xx, yy)) implies exists|k: int|
                        0 <= k < r@.len() && r@[k] == (DrawCommand {
                            pos: pt(xx - camera.left_x, yy - camera.top_y),
                            glyph: glyph_of(map.tile_at(pt(xx, yy))),
                        }) by {
                        let target = DrawCommand {
                            pos: pt(xx - camera.left_x, yy - camera.top_y),
                            glyph: glyph_of(map.tile_at(pt(xx, yy))),
                        };
                        let k0 = choose|k: int| 0 <= k < pre.len() && pre[k] == target;
                        assert(r@[k0] == target);
                    }
                }
            }
            x = x + 1;
        }
        y = y + 1;
    }
    r
}

} // verus!
