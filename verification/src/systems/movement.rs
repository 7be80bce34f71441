//! The movement resolver: drains the pending-move queue, applying each
//! intent whose destination can be entered and silently dropping the rest.
use vstd::prelude::*;
use vstd::pervasive::VecAdditionalExecFns;
use crate::map::GridMap;
use crate::entities::{Entity, EntityStore, PendingMove};

verus! {

/// One movement intent applied against the map: the entity moves to the
/// destination exactly when the intent names a live entity and the
/// destination tile can be entered; otherwise nothing changes.
pub open spec fn apply_move(s: Seq<Entity>, m: PendingMove, map: GridMap) -> Seq<Entity> {
    if m.entity < s.len() && s[m.entity as int].alive && map.can_enter_spec(m.destination) {
        s.update(m.entity as int, Entity { pos: m.destination, ..s[m.entity as int] })
    } else {
        s
    }
}

/// The pending moves applied in queue order.
pub open spec fn apply_moves(s: Seq<Entity>, moves: Seq<PendingMove>, map: GridMap) -> Seq<Entity>
    decreases moves.len(),
{
    if moves.len() == 0 {
        s
    } else {
        apply_moves(apply_move(s, moves[0], map), moves.skip(1), map)
    }
}

/// Appending one intent to the queue is the same as applying it after the
/// rest.
pub proof fn lemma_apply_moves_push(
    s: Seq<Entity>,
    moves: Seq<PendingMove>,
    m: PendingMove,
    map: GridMap,
)
    ensures
        apply_moves(s, moves.push(m), map) == apply_move(apply_moves(s, moves, map), m, map),
    decreases moves.len(),
{
    let e = Seq::<PendingMove>::empty();
    if moves.len() == 0 {
        assert(moves.push(m)[0] == m);
        assert(moves.push(m).skip(1) =~= e);
        assert(apply_moves(s, moves.push(m), map) == apply_moves(
            apply_move(s, m, map),
            e,
            map,
        ));
        assert(apply_moves(apply_move(s, m, map), e, map) == apply_move(s, m, map));
        assert(apply_moves(s, moves, map) == s);
    } else {
        assert(moves.push(m)[0] == moves[0]);
        assert(moves.push(m).skip(1) =~= moves.skip(1).push(m));
        assert(apply_moves(s, moves.push(m), map) == apply_moves(
            apply_move(s, moves[0], map),
            moves.skip(1).push(m),
            map,
        ));
        lemma_apply_moves_push(apply_move(s, moves[0], map), moves.skip(1), m, map);
        assert(apply_moves(s, moves, map) == apply_moves(
            apply_move(s, moves[0], map),
            moves.skip(1),
            map,
        ));
    }
}

/// Resolving moves never changes which entities exist, their tags, or
/// their liveness; a position either stays or becomes an enterable tile.
pub proof fn lemma_apply_moves_frame(s: Seq<Entity>, moves: Seq<PendingMove>, map: GridMap)
    ensures
        apply_moves(s, moves, map).len() == s.len(),
        forall|i: int|
            0 <= i < s.len() ==> {
                let e = #[trigger] apply_moves(s, moves, map)[i];
                &&& e.alive == s[i].alive
                &&& e.is_player == s[i].is_player
                &&& e.is_enemy == s[i].is_enemy
                &&& e.moves_randomly == s[i].moves_randomly
                &&& (e.pos == s[i].pos || map.can_enter_spec(e.pos))
            },
    decreases moves.len(),
{
    if moves.len() > 0 {
        lemma_apply_moves_frame(apply_move(s, moves[0], map), moves.skip(1), map);
    }
}

/// Entity `i` is named by some record of the queue.
pub open spec fn named_in(moves: Seq<PendingMove>, i: int) -> bool {
    exists|k: int| 0 <= k < moves.len() && moves[k].entity == i
}

/// After resolution an entity stands where it stood, or at the enterable
/// destination of a queue record that names it; in particular an entity
/// named by no record never moves.
pub proof fn lemma_apply_moves_pos_from_moves(
    s: Seq<Entity>,
    moves: Seq<PendingMove>,
    map: GridMap,
)
    ensures
        forall|i: int|
            0 <= i < s.len() ==> {
                let e = #[trigger] apply_moves(s, moves, map)[i];
                e.pos == s[i].pos || exists|k: int|
                    0 <= k < moves.len() && moves[k].entity == i && moves[k].destination == e.pos
                        && map.can_enter_spec(e.pos)
            },
    decreases moves.len(),
{
    if moves.len() > 0 {
        let s1 = apply_move(s, moves[0], map);
        lemma_apply_moves_pos_from_moves(s1, moves.skip(1), map);
        let t = apply_moves(s, moves, map);
        assert(t == apply_moves(s1, moves.skip(1), map));
        assert forall|i: int| 0 <= i < s.len() implies {
            let e = #[trigger] t[i];
            e.pos == s[i].pos || exists|k: int|
                0 <= k < moves.len() && moves[k].entity == i && moves[k].destination == e.pos
                    && map.can_enter_spec(e.pos)
        } by {
            if t[i].pos == s1[i].pos {
                if s1[i].pos != s[i].pos {
                    assert(moves[0].entity == i && s1[i].pos == moves[0].destination
                        && map.can_enter_spec(moves[0].destination));
                    assert(0 <= 0 < moves.len() && moves[0].entity == i && moves[0].destination
                        == t[i].pos && map.can_enter_spec(t[i].pos));
                }
            } else {
                let k = choose|k: int|
                    0 <= k < moves.skip(1).len() && moves.skip(1)[k].entity == i && moves.skip(
                        1,
                    )[k].destination == t[i].pos && map.can_enter_spec(t[i].pos);
                assert(moves[k + 1] == moves.skip(1)[k]);
                assert(0 <= k + 1 < moves.len() && moves[k + 1].entity == i && moves[k
                    + 1].destination == t[i].pos && map.can_enter_spec(t[i].pos));
            }
        }
    }
}

/// A queue holding a single pending move: the move is applied exactly when
/// its destination can be entered — in particular a wall or out-of-bounds
/// destination leaves the mover where it stood — and is consumed either
/// way.
pub proof fn lemma_single_pending_move(s: Seq<Entity>, m: PendingMove, map: GridMap)
    requires
        m.entity < s.len(),
        s[m.entity as int].alive,
    ensures
        map.can_enter_spec(m.destination) ==> apply_moves(s, seq![m], map) == s.update(
            m.entity as int,
            Entity { pos: m.destination, ..s[m.entity as int] },
        ),
        !map.can_enter_spec(m.destination) ==> apply_moves(s, seq![m], map) == s,
{
    let e = Seq::<PendingMove>::empty();
    assert(seq![m][0] == m);
    assert(seq![m].skip(1) =~= e);
    assert(apply_moves(s, seq![m], map) == apply_moves(apply_move(s, m, map), e, map));
    assert(apply_moves(apply_move(s, m, map), e, map) == apply_move(s, m, map));
}

/// Applies every pending move in order — moving an entity exactly when its
/// destination can be entered — and empties the queue.
pub fn movement(store: &mut EntityStore, map: &GridMap)
    requires
        map.wf(),
    ensures
        final(store).entities@ == apply_moves(old(store).entities@, old(store).pending@, *map),
        final(store).pending@.len() == 0,
{
    let mut k: usize = 0;
    while k < store.pending.len()
        invariant
            map.wf(),
            store.pending@ == old(store).pending@,
            k <= store.pending@.len(),
            store.entities@ == apply_moves(
                old(store).entities@,
                old(store).pending@.take(k as int),
                *map,
            ),
        decreases store.pending@.len() - k,
    {
        let m = store.pending[k];
        if m.entity < store.entities.len() {
            let e = store.entities[m.entity];
            if e.alive && map.can_enter_tile(m.destination) {
                store.entities.set(m.entity, Entity { pos: m.destination, ..e });
            }
        }
        proof {
            assert(old(store).pending@.take(k + 1 as int) =~= old(store).pending@.take(
                k as int,
            ).push(old(store).pending@[k as int]));
            lemma_apply_moves_push(
                old(store).entities@,
                old(store).pending@.take(k as int),
                old(store).pending@[k as int],
                *map,
            );
        }
        k = k + 1;
    }
    proof {
        assert(old(store).pending@.take(store.pending@.len() as int) =~= old(store).pending@);
    }
    store.pending.clear();
}

} // verus!
