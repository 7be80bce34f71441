//! The session: builds the world from a seed and advances it one tick at a
//! time through the three-phase turn cycle.
use vstd::prelude::*;
use crate::camera::Camera;
use crate::connectivity::{adj4, floor_at, pt};
use crate::entities::{Entity, EntityStore, PendingMove, is_player_idx, player_idx, player_pos,
    point_add, positions_in_bounds, unique_player};
use crate::map::GridMap;
use crate::map_builder::{BuildError, MapBuilder, NUM_ROOMS, lemma_center_in_interior,
    room_interior_floor};
use crate::rect::Rect;
use crate::rng::rng_seeded;
use crate::systems::collisions::{collisions, collisions_spec};
use crate::systems::movement::{apply_moves, lemma_apply_moves_frame,
    lemma_apply_moves_pos_from_moves, movement, named_in};
use crate::systems::player_input::{Key, key_delta_spec, player_input};
use crate::systems::random_move::{lemma_mover_indices_are_movers, mover_indices, random_move};
use crate::turn_state::TurnState;
use bracket_lib::prelude::RandomNumberGenerator;

verus! {

/// Resolving moves keeps the population well formed: the unique player
/// stays the unique player and every live entity stays on the grid.
proof fn lemma_apply_moves_wf(s: Seq<Entity>, moves: Seq<PendingMove>, map: GridMap)
    requires
        map.wf(),
        unique_player(s),
        !s[player_idx(s)].is_enemy,
        positions_in_bounds(s),
    ensures
        unique_player(apply_moves(s, moves, map)),
        player_idx(apply_moves(s, moves, map)) == player_idx(s),
        !apply_moves(s, moves, map)[player_idx(s)].is_enemy,
        positions_in_bounds(apply_moves(s, moves, map)),
{
    let t = apply_moves(s, moves, map);
    lemma_apply_moves_frame(s, moves, map);
    let p = player_idx(s);
    assert(is_player_idx(s, p));
    assert(t[p].alive == s[p].alive && t[p].is_player == s[p].is_player);
    assert(is_player_idx(t, p));
    assert forall|i: int| is_player_idx(t, i) implies i == p by {
        assert(t[i].alive == s[i].alive && t[i].is_player == s[i].is_player);
        assert(is_player_idx(s, i));
    }
    assert(unique_player(t));
    assert(is_player_idx(t, player_idx(t)));
    assert forall|i: int|
        0 <= i < t.len() && (#[trigger] t[i]).alive implies GridMap::in_bounds_spec(t[i].pos) by {
        assert(s[i].alive == t[i].alive);
        if t[i].pos == s[i].pos {
            assert(GridMap::in_bounds_spec(s[i].pos));
        } else {
            assert(map.can_enter_spec(t[i].pos));
        }
    }
}

/// Collision resolution keeps the population well formed: the player is
/// never an enemy, so the unique player survives, and no position changes.
proof fn lemma_collisions_wf(s: Seq<Entity>)
    requires
        unique_player(s),
        !s[player_idx(s)].is_enemy,
        positions_in_bounds(s),
    ensures
        unique_player(collisions_spec(s)),
        player_idx(collisions_spec(s)) == player_idx(s),
        !collisions_spec(s)[player_idx(s)].is_enemy,
        positions_in_bounds(collisions_spec(s)),
{
    let t = collisions_spec(s);
    let p = player_idx(s);
    assert(is_player_idx(s, p));
    assert(t[p] == s[p]);
    assert(is_player_idx(t, p));
    assert forall|i: int| is_player_idx(t, i) implies i == p by {
        assert(t[i].alive ==> s[i].alive);
        assert(t[i].is_player == s[i].is_player);
        assert(is_player_idx(s, i));
    }
    assert(unique_player(t));
    assert(is_player_idx(t, player_idx(t)));
    assert forall|i: int|
        0 <= i < t.len() && (#[trigger] t[i]).alive implies GridMap::in_bounds_spec(t[i].pos) by {
        assert(t[i].alive ==> s[i].alive);
        assert(t[i].pos == s[i].pos);
        assert(s[i].alive ==> GridMap::in_bounds_spec(s[i].pos));
    }
}

/// The player phase of a tick on a queue holding one pending move whose
/// destination cannot be entered (wall, or out of bounds): after movement
/// and collision resolution the mover stands exactly where it stood. The
/// phase's own contract says the record is consumed (the queue ends
/// empty), so the rejection is silent and complete.
pub proof fn lemma_player_phase_rejected_move(s: Seq<Entity>, m: PendingMove, map: GridMap)
    requires
        m.entity < s.len(),
        s[m.entity as int].alive,
        !map.can_enter_spec(m.destination),
    ensures
        apply_moves(s, seq![m], map) == s,
        collisions_spec(apply_moves(s, seq![m], map))[m.entity as int].pos == s[m.entity
            as int].pos,
{
    crate::systems::movement::lemma_single_pending_move(s, m, map);
    assert(collisions_spec(s)[m.entity as int].pos == s[m.entity as int].pos);
}

/// The player phase of a tick on a queue holding one pending move whose
/// destination is floor: after movement and collision resolution the mover
/// stands exactly at the destination, and the record is consumed (the
/// phase's contract empties the queue).
pub proof fn lemma_player_phase_floor_move(s: Seq<Entity>, m: PendingMove, map: GridMap)
    requires
        m.entity < s.len(),
        s[m.entity as int].alive,
        map.can_enter_spec(m.destination),
    ensures
        apply_moves(s, seq![m], map) == s.update(
            m.entity as int,
            Entity { pos: m.destination, ..s[m.entity as int] },
        ),
        collisions_spec(apply_moves(s, seq![m], map))[m.entity as int].pos == m.destination,
{
    crate::systems::movement::lemma_single_pending_move(s, m, map);
    let moved = apply_moves(s, seq![m], map);
    assert(moved[m.entity as int].pos == m.destination);
    assert(collisions_spec(moved)[m.entity as int].pos == moved[m.entity as int].pos);
}

/// A running session: the level grid, the entity population, the viewport,
/// the current phase, and the seeded generator every random decision draws
/// from.
pub struct State {
    pub ecs: EntityStore,
    pub map: GridMap,
    pub rooms: Vec<Rect>,
    pub camera: Camera,
    pub turn_state: TurnState,
    pub rng: RandomNumberGenerator,
}

impl State {
    /// The session invariant: a well-formed grid, population, and viewport.
    pub open spec fn wf(self) -> bool {
        &&& self.map.wf()
        &&& self.ecs.wf()
        &&& self.camera.wf()
    }

    /// A new session built from `seed`: the level is generated, the player
    /// spawns at the first room's center, one monster spawns at the center
    /// of every other room, the camera is centered on the player, and the
    /// scheduler awaits input. Fails only when level generation fails.
    pub fn new(seed: u64) -> (r: Result<State, BuildError>)
        ensures
            r is Ok ==> {
                let st = r->Ok_0;
                &&& st.wf()
                &&& st.turn_state == TurnState::AwaitingInput
                &&& st.ecs.pending@.len() == 0
                &&& st.ecs.entities@.len() == NUM_ROOMS
                &&& is_player_idx(st.ecs.entities@, 0)
                &&& player_idx(st.ecs.entities@) == 0
                &&& floor_at(st.map.tiles@, player_pos(st.ecs.entities@))
                &&& st.camera == Camera::centered_on(player_pos(st.ecs.entities@))
                &&& (MapBuilder {
                    map: st.map,
                    rooms: st.rooms,
                    player_start: player_pos(st.ecs.entities@),
                }).wf_built()
                &&& st.ecs.entities@[0] == (Entity {
                    alive: true,
                    pos: st.rooms@[0].center_spec(),
                    is_player: true,
                    is_enemy: false,
                    moves_randomly: false,
                })
                &&& (forall|k: int|
                    1 <= k < NUM_ROOMS ==> st.ecs.entities@[k] == (Entity {
                        alive: true,
                        pos: st.rooms@[k].center_spec(),
                        is_player: false,
                        is_enemy: true,
                        moves_randomly: true,
                    }))
                &&& (forall|k: int|
                    0 <= k < NUM_ROOMS ==> floor_at(
                        st.map.tiles@,
                        #[trigger] st.ecs.entities@[k].pos,
                    ))
            },
    {
        let mut rng = rng_seeded(seed);
        let mb = match MapBuilder::build(&mut rng) {
            Ok(mb) => mb,
            Err(e) => {
                return Err(e);
            }
        };
        let mut ecs = EntityStore::new();
        ecs.spawn_player(mb.player_start);
        let mut i: usize = 1;
        while i < mb.rooms.len()
            invariant
                mb.wf_built(),
                1 <= i <= mb.rooms@.len(),
                ecs.entities@.len() == i,
                ecs.pending@.len() == 0,
                ecs.entities@[0] == (Entity {
                    alive: true,
                    pos: mb.player_start,
                    is_player: true,
                    is_enemy: false,
                    moves_randomly: false,
                }),
                forall|k: int|
                    1 <= k < i ==> ecs.entities@[k] == (Entity {
                        alive: true,
                        pos: mb.rooms@[k].center_spec(),
                        is_player: false,
                        is_enemy: true,
                        moves_randomly: true,
                    }),
            decreases mb.rooms@.len() - i,
        {
            proof {
                lemma_center_in_interior(mb.rooms@[i as int]);
            }
            let c = mb.rooms[i].center();
            ecs.spawn_monster(c);
            i = i + 1;
        }
        proof {
            assert(is_player_idx(ecs.entities@, 0));
            assert forall|a: int, b: int|
                is_player_idx(ecs.entities@, a) && is_player_idx(ecs.entities@, b) implies a
                == b by {
                assert(a == 0 && b == 0);
            }
            assert(unique_player(ecs.entities@));
            assert(is_player_idx(ecs.entities@, player_idx(ecs.entities@)));
            assert(player_idx(ecs.entities@) == 0);
            assert forall|k: int|
                0 <= k < ecs.entities@.len() && (#[trigger] ecs.entities@[k]).alive implies
                GridMap::in_bounds_spec(ecs.entities@[k].pos) by {
                if k > 0 {
                    lemma_center_in_interior(mb.rooms@[k]);
                }
            }
        }
        let start = ecs.player_position();
        let camera = Camera::new(start);
        let ghost gmb = mb;
        let st = State {
            ecs,
            map: mb.map,
            rooms: mb.rooms,
            camera,
            turn_state: TurnState::AwaitingInput,
            rng,
        };
        proof {
            assert(player_pos(st.ecs.entities@) == gmb.player_start);
            assert((MapBuilder {
                map: st.map,
                rooms: st.rooms,
                player_start: player_pos(st.ecs.entities@),
            }) == gmb);
            assert forall|k: int| 0 <= k < NUM_ROOMS implies floor_at(
                st.map.tiles@,
                #[trigger] st.ecs.entities@[k].pos,
            ) by {
                if k > 0 {
                    let r = st.rooms@[k];
                    lemma_center_in_interior(r);
                    let c = r.center_spec();
                    assert(room_interior_floor(st.map.tiles@, r));
                    assert(floor_at(st.map.tiles@, pt(c.x as int, c.y as int)));
                    assert(pt(c.x as int, c.y as int) == c);
                }
            }
        }
        Ok(st)
    }

    /// One tick of the scheduler, with the tick's key press (if any).
    ///
    /// Awaiting input: a directional key enqueues the player's move and the
    /// next phase is the player's turn; otherwise nothing changes. Player
    /// turn: pending moves resolve against the map, enemies on the player's
    /// tile are removed, and the monsters' turn follows unconditionally.
    /// Monster turn: each random mover proposes an adjacent step, moves
    /// resolve, and the cycle returns to awaiting input. The camera ends
    /// every tick centered on the player.
    pub fn tick(&mut self, key: Option<Key>)
        requires
            old(self).wf(),
        ensures
            final(self).wf(),
            final(self).map == old(self).map,
            final(self).rooms@ == old(self).rooms@,
            final(self).camera == Camera::centered_on(player_pos(final(self).ecs.entities@)),
            old(self).turn_state == TurnState::AwaitingInput ==> match key {
                Some(k) => match key_delta_spec(k) {
                    Some(d) => {
                        &&& final(self).turn_state == TurnState::PlayerTurn
                        &&& final(self).ecs.entities@ == old(self).ecs.entities@
                        &&& final(self).ecs.pending@ == old(self).ecs.pending@.push(
                            PendingMove {
                                entity: player_idx(old(self).ecs.entities@) as usize,
                                destination: point_add(player_pos(old(self).ecs.entities@), d),
                            },
                        )
                    },
                    None => {
                        &&& final(self).turn_state == TurnState::AwaitingInput
                        &&& final(self).ecs.entities@ == old(self).ecs.entities@
                        &&& final(self).ecs.pending@ == old(self).ecs.pending@
                    },
                },
                None => {
                    &&& final(self).turn_state == TurnState::AwaitingInput
                    &&& final(self).ecs.entities@ == old(self).ecs.entities@
                    &&& final(self).ecs.pending@ == old(self).ecs.pending@
                },
            },
            old(self).turn_state == TurnState::PlayerTurn ==> {
                &&& final(self).turn_state == TurnState::MonsterTurn
                &&& final(self).ecs.entities@ == collisions_spec(
                    apply_moves(old(self).ecs.entities@, old(self).ecs.pending@, old(self).map),
                )
                &&& final(self).ecs.pending@.len() == 0
            },
            old(self).turn_state == TurnState::MonsterTurn ==> {
                &&& final(self).turn_state == TurnState::AwaitingInput
                &&& final(self).ecs.pending@.len() == 0
                &&& final(self).ecs.entities@.len() == old(self).ecs.entities@.len()
                &&& exists|props: Seq<PendingMove>|
                    {
                        &&& props.len() == mover_indices(old(self).ecs.entities@).len()
                        &&& (forall|k: int|
                            0 <= k < props.len() ==> (#[trigger] props[k]).entity
                                == mover_indices(old(self).ecs.entities@)[k] && props[k].entity
                                < old(self).ecs.entities@.len() && adj4(
                                old(self).ecs.entities@[props[k].entity as int].pos,
                                props[k].destination,
                            ))
                        &&& final(self).ecs.entities@ == apply_moves(
                            old(self).ecs.entities@,
                            old(self).ecs.pending@ + props,
                            old(self).map,
                        )
                    }
                &&& forall|i: int|
                    0 <= i < old(self).ecs.entities@.len() ==> {
                        let e = #[trigger] final(self).ecs.entities@[i];
                        let e0 = old(self).ecs.entities@[i];
                        &&& e.alive == e0.alive
                        &&& e.is_player == e0.is_player
                        &&& e.is_enemy == e0.is_enemy
                        &&& e.moves_randomly == e0.moves_randomly
                        &&& (e.pos == e0.pos || (old(self).map.can_enter_spec(e.pos) && ((
                        e0.alive && e0.moves_randomly) || named_in(old(self).ecs.pending@, i))))
                        &&& (old(self).ecs.pending@.len() == 0 ==> (e.pos == e0.pos || adj4(
                            e0.pos,
                            e.pos,
                        )))
                    }
            },
    {
        let ts = self.turn_state;
        match ts {
            TurnState::AwaitingInput => {
                let next = player_input(&mut self.ecs, key);
                self.turn_state = next;
            },
            TurnState::PlayerTurn => {
                movement(&mut self.ecs, &self.map);
                proof {
                    lemma_apply_moves_wf(
                        old(self).ecs.entities@,
                        old(self).ecs.pending@,
                        old(self).map,
                    );
                }
                collisions(&mut self.ecs);
                proof {
                    lemma_collisions_wf(
                        apply_moves(old(self).ecs.entities@, old(self).ecs.pending@, old(self).map),
                    );
                }
                self.turn_state = TurnState::MonsterTurn;
            },
            TurnState::MonsterTurn => {
                random_move(&mut self.ecs, &mut self.rng);
                let ghost queued = self.ecs.pending@;
                movement(&mut self.ecs, &self.map);
                proof {
                    let s0 = old(self).ecs.entities@;
                    let p0 = old(self).ecs.pending@;
                    let t = self.ecs.entities@;
                    lemma_apply_moves_wf(s0, queued, old(self).map);
                    lemma_apply_moves_frame(s0, queued, old(self).map);
                    lemma_apply_moves_pos_from_moves(s0, queued, old(self).map);
                    lemma_mover_indices_are_movers(s0);
                    let props = queued.skip(p0.len() as int);
                    assert(queued =~= p0 + props);
                    assert(props.len() == mover_indices(s0).len());
                    assert forall|k: int|
                        0 <= k < props.len() implies (#[trigger] props[k]).entity
                        == mover_indices(s0)[k] && props[k].entity < s0.len() && adj4(
                        s0[props[k].entity as int].pos,
                        props[k].destination,
                    ) by {
                        assert(props[k] == queued[p0.len() + k]);
                        assert(queued[p0.len() + k].entity == mover_indices(s0)[k]);
                    }
                    assert(self.ecs.entities@ == apply_moves(s0, p0 + props, old(self).map));
                    assert forall|i: int|
                        0 <= i < s0.len() && (#[trigger] t[i]).pos != s0[i].pos implies
                        (old(self).map.can_enter_spec(t[i].pos) && ((s0[i].alive
                        && s0[i].moves_randomly) || named_in(p0, i)) && (p0.len() == 0 ==> adj4(
                        s0[i].pos,
                        t[i].pos,
                    ))) by {
                        let k = choose|k: int|
                            0 <= k < queued.len() && queued[k].entity == i && queued[k].destination
                                == t[i].pos && old(self).map.can_enter_spec(t[i].pos);
                        if k < p0.len() {
                            assert(queued[k] == p0[k]);
                            assert(named_in(p0, i));
                        } else {
                            let kk = k - p0.len();
                            assert(queued[p0.len() + kk].entity == mover_indices(s0)[kk]);
                            assert(mover_indices(s0)[kk] == i);
                            assert(s0[i].alive && s0[i].moves_randomly);
                            assert(adj4(s0[queued[k].entity as int].pos, queued[k].destination));
                        }
                    }
                }
                self.turn_state = TurnState::AwaitingInput;
            },
        }
        proof {
            assert(is_player_idx(self.ecs.entities@, player_idx(self.ecs.entities@)));
        }
        let focus = self.ecs.player_position();
        self.camera.on_player_move(focus);
    }
}

} // verus!
