//! The entity population: a dense table of entities carrying a position and
//! behavior tags, plus the tick-scoped queue of pending movement intents.
use vstd::prelude::*;
use crate::map::{GridMap, Point};

verus! {

/// One entity: its position, whether it is still part of the population,
/// and its behavior tags.
#[derive(Clone, Copy, PartialEq, Eq, Structural, Debug)]
pub struct Entity {
    pub alive: bool,
    pub pos: Point,
    pub is_player: bool,
    pub is_enemy: bool,
    pub moves_randomly: bool,
}

/// A proposed, not-yet-applied position change for one entity.
#[derive(Clone, Copy, PartialEq, Eq, Structural, Debug)]
pub struct PendingMove {
    pub entity: usize,
    pub destination: Point,
}

/// Entity `i` is a live player entity.
pub open spec fn is_player_idx(s: Seq<Entity>, i: int) -> bool {
    0 <= i < s.len() && s[i].alive && s[i].is_player
}

/// Exactly one live entity carries the player tag.
pub open spec fn unique_player(s: Seq<Entity>) -> bool {
    (exists|i: int| is_player_idx(s, i)) && (forall|i: int, j: int|
        is_player_idx(s, i) && is_player_idx(s, j) ==> i == j)
}

/// The index of the live player entity.
pub open spec fn player_idx(s: Seq<Entity>) -> int {
    choose|i: int| is_player_idx(s, i)
}

/// The live player entity's position.
pub open spec fn player_pos(s: Seq<Entity>) -> Point {
    s[player_idx(s)].pos
}

/// Every live entity stands on the grid.
pub open spec fn positions_in_bounds(s: Seq<Entity>) -> bool {
    forall|i: int|
        0 <= i < s.len() && (#[trigger] s[i]).alive ==> GridMap::in_bounds_spec(s[i].pos)
}

/// The sum of a position and a movement delta.
pub open spec fn point_add(a: Point, b: Point) -> Point {
    Point { x: (a.x + b.x) as i32, y: (a.y + b.y) as i32 }
}

/// The entity population together with this tick's pending moves.
pub struct EntityStore {
    pub entities: Vec<Entity>,
    pub pending: Vec<PendingMove>,
}

impl EntityStore {
    /// A well-formed population: one live player, who is not an enemy, and
    /// every live entity on the grid.
    pub open spec fn wf(self) -> bool {
        &&& unique_player(self.entities@)
        &&& !self.entities@[player_idx(self.entities@)].is_enemy
        &&& positions_in_bounds(self.entities@)
    }

    /// An empty population with no pending moves.
    pub fn new() -> (s: EntityStore)
        ensures
            s.entities@.len() == 0,
            s.pending@.len() == 0,
    {
        EntityStore { entities: Vec::new(), pending: Vec::new() }
    }

    /// Appends the player entity at `pos`.
    pub fn spawn_player(&mut self, pos: Point)
        requires
            GridMap::in_bounds_spec(pos),
        ensures
            final(self).entities@ == old(self).entities@.push(
                Entity { alive: true, pos, is_player: true, is_enemy: false, moves_randomly: false },
            ),
            final(self).pending@ == old(self).pending@,
    {
        self.entities.push(
            Entity { alive: true, pos, is_player: true, is_enemy: false, moves_randomly: false },
        );
    }

    /// Appends a monster entity at `pos`: an enemy that moves randomly.
    pub fn spawn_monster(&mut self, pos: Point)
        requires
            GridMap::in_bounds_spec(pos),
        ensures
            final(self).entities@ == old(self).entities@.push(
                Entity { alive: true, pos, is_player: false, is_enemy: true, moves_randomly: true },
            ),
            final(self).pending@ == old(self).pending@,
    {
        self.entities.push(
            Entity { alive: true, pos, is_player: false, is_enemy: true, moves_randomly: true },
        );
    }

    /// The index of the live player entity.
    pub fn find_player(&self) -> (r: usize)
        requires
            unique_player(self.entities@),
        ensures
            r as int == player_idx(self.entities@),
    {
        let mut i: usize = 0;
        while i < self.entities.len()
            invariant
                unique_player(self.entities@),
                i <= self.entities@.len(),
                forall|j: int| 0 <= j < i ==> !is_player_idx(self.entities@, j),
            decreases self.entities@.len() - i,
        {
            let e = self.entities[i];
            if e.alive && e.is_player {
                proof {
                    assert(is_player_idx(self.entities@, i as int));
                    assert(is_player_idx(self.entities@, player_idx(self.entities@)));
                }
                return i;
            }
            i = i + 1;
        }
        proof {
            let k = player_idx(self.entities@);
            assert(is_player_idx(self.entities@, k));
            assert(false);
        }
        0
    }

    /// The live player entity's position.
    pub fn player_position(&self) -> (r: Point)
        requires
            unique_player(self.entities@),
        ensures
            r == player_pos(self.entities@),
    {
        let i = self.find_player();
        self.entities[i].pos
    }
}

} // verus!
