//! The viewport rectangle: a rendering aid that tracks the player.
use vstd::prelude::*;
use crate::map::{GridMap, Point, SCREEN_WIDTH, SCREEN_HEIGHT};

verus! {

pub const DISPLAY_WIDTH: i32 = 40;
pub const DISPLAY_HEIGHT: i32 = 25;

/// The viewport: a half-screen window centered on a tracked focus point.
#[derive(Clone, Copy, PartialEq, Eq, Structural, Debug)]
pub struct Camera {
    pub left_x: i32,
    pub right_x: i32,
    pub top_y: i32,
    pub bottom_y: i32,
}

impl Camera {
    /// The viewport whose focus is `p`.
    pub open spec fn centered_on(p: Point) -> Camera {
        Camera {
            left_x: (p.x - DISPLAY_WIDTH / 2) as i32,
            right_x: (p.x + DISPLAY_WIDTH / 2) as i32,
            top_y: (p.y - DISPLAY_HEIGHT / 2) as i32,
            bottom_y: (p.y + DISPLAY_HEIGHT / 2) as i32,
        }
    }

    /// A viewport of the fixed display size whose focus lies on the grid.
    pub open spec fn wf(self) -> bool {
        &&& self.right_x == self.left_x + DISPLAY_WIDTH
        &&& self.bottom_y == self.top_y + DISPLAY_HEIGHT - 1
        &&& -DISPLAY_WIDTH <= self.left_x <= SCREEN_WIDTH
        &&& -DISPLAY_HEIGHT <= self.top_y <= SCREEN_HEIGHT
    }

    /// A fresh viewport centered on the player.
    pub fn new(player: Point) -> (c: Camera)
        requires
            GridMap::in_bounds_spec(player),
        ensures
            c == Self::centered_on(player),
            c.wf(),
    {
        Camera {
            left_x: player.x - DISPLAY_WIDTH / 2,
            right_x: player.x + DISPLAY_WIDTH / 2,
            top_y: player.y - DISPLAY_HEIGHT / 2,
            bottom_y: player.y + DISPLAY_HEIGHT / 2,
        }
    }

    /// Recenters the viewport on the player's new position.
    pub fn on_player_move(&mut self, player: Point)
        requires
            GridMap::in_bounds_spec(player),
        ensures
            *final(self) == Self::centered_on(player),
            final(self).wf(),
    {
        *self = Camera::new(player);
    }
}

} // verus!
