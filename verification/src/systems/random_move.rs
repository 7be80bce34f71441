//! The random-mover system: every randomly-moving entity proposes a step
//! of one tile in a direction drawn from the session's seeded generator.
use vstd::prelude::*;
use crate::connectivity::adj4;
use crate::entities::{Entity, EntityStore, PendingMove, positions_in_bounds};
use crate::map::Point;
use crate::rng::rng_range;
use bracket_lib::prelude::RandomNumberGenerator;

verus! {

/// The indices of the live randomly-moving entities, in ascending order.
pub open spec fn mover_indices(s: Seq<Entity>) -> Seq<int>
    decreases s.len(),
{
    if s.len() == 0 {
        Seq::empty()
    } else {
        let prefix = mover_indices(s.drop_last());
        if s.last().alive && s.last().moves_randomly {
            prefix.push(s.len() - 1)
        } else {
            prefix
        }
    }
}

/// Every entry of `mover_indices` names a live randomly-moving entity.
pub proof fn lemma_mover_indices_are_movers(s: Seq<Entity>)
    ensures
        forall|k: int|
            0 <= k < mover_indices(s).len() ==> {
                let j = #[trigger] mover_indices(s)[k];
                &&& 0 <= j < s.len()
                &&& s[j].alive
                &&& s[j].moves_randomly
            },
    decreases s.len(),
{
    if s.len() > 0 {
        lemma_mover_indices_are_movers(s.drop_last());
        let prefix = mover_indices(s.drop_last());
        assert forall|k: int| 0 <= k < mover_indices(s).len() implies {
            let j = #[trigger] mover_indices(s)[k];
            &&& 0 <= j < s.len()
            &&& s[j].alive
            &&& s[j].moves_randomly
        } by {
            if k < prefix.len() {
                assert(mover_indices(s)[k] == prefix[k]);
                assert(s.drop_last()[prefix[k]] == s[prefix[k]]);
            } else {
                assert(mover_indices(s)[k] == s.len() - 1);
            }
        }
    }
}

/// Enqueues, for each live randomly-moving entity in index order, one
/// pending move to an orthogonally adjacent tile chosen by the generator;
/// positions themselves are untouched and earlier queue entries are kept.
pub fn random_move(store: &mut EntityStore, rng: &mut RandomNumberGenerator)
    requires
        positions_in_bounds(old(store).entities@),
    ensures
        final(store).entities@ == old(store).entities@,
        final(store).pending@.len() == old(store).pending@.len() + mover_indices(
            old(store).entities@,
        ).len(),
        forall|k: int|
            0 <= k < old(store).pending@.len() ==> final(store).pending@[k] == old(
                store,
            ).pending@[k],
        forall|k: int|
            0 <= k < mover_indices(old(store).entities@).len() ==> {
                let m = final(store).pending@[old(store).pending@.len() + k];
                &&& m.entity == #[trigger] mover_indices(old(store).entities@)[k]
                &&& m.entity < old(store).entities@.len()
                &&& adj4(old(store).entities@[m.entity as int].pos, m.destination)
            },
{
    let ghost s0 = store.entities@;
    let ghost p0 = store.pending@;
    let mut i: usize = 0;
    while i < store.entities.len()
        invariant
            store.entities@ == s0,
            positions_in_bounds(s0),
            i <= s0.len(),
            store.pending@.len() == p0.len() + mover_indices(s0.take(i as int)).len(),
            forall|k: int| 0 <= k < p0.len() ==> store.pending@[k] == p0[k],
            forall|k: int|
                0 <= k < mover_indices(s0.take(i as int)).len() ==> {
                    let m = store.pending@[p0.len() + k];
                    &&& m.entity == #[trigger] mover_indices(s0.take(i as int))[k]
                    &&& m.entity < s0.len()
                    &&& adj4(s0[m.entity as int].pos, m.destination)
                },
        decreases s0.len() - i,
    {
        let e = store.entities[i];
        let ghost pend_before = store.pending@;
        if e.alive && e.moves_randomly {
            let roll = rng_range(rng, 0, 4);
            let d: Point = if roll == 0 {
                Point::new(-1, 0)
            } else if roll == 1 {
                Point::new(1, 0)
            } else if roll == 2 {
                Point::new(0, -1)
            } else {
                Point::new(0, 1)
            };
            let destination = Point::new(e.pos.x + d.x, e.pos.y + d.y);
            store.pending.push(PendingMove { entity: i, destination });
        }
        proof {
            assert(s0.take(i + 1 as int).drop_last() =~= s0.take(i as int));
            assert(s0.take(i + 1 as int).last() == s0[i as int]);
            let tail = mover_indices(s0.take(i + 1 as int));
            if s0[i as int].alive && s0[i as int].moves_randomly {
                assert(tail =~= mover_indices(s0.take(i as int)).push(i as int));
            } else {
                assert(tail =~= mover_indices(s0.take(i as int)));
            }
        }
        i = i + 1;
    }
    proof {
        assert(s0.take(s0.len() as int) =~= s0);
        assert(mover_indices(s0.take(s0.len() as int)) == mover_indices(s0));
        assert forall|k: int| 0 <= k < mover_indices(s0).len() implies {
            let m = store.pending@[p0.len() + k];
            &&& m.entity == #[trigger] mover_indices(s0)[k]
            &&& m.entity < s0.len()
            &&& adj4(s0[m.entity as int].pos, m.destination)
        } by {
            assert(mover_indices(s0.take(s0.len() as int))[k] == mover_indices(s0)[k]);
        }
    }
}

} // verus!
