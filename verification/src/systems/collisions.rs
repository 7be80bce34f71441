//! The collision resolver: after movement, any enemy standing on the
//! player's tile is removed from the population.
use vstd::prelude::*;
use vstd::pervasive::VecAdditionalExecFns;
use crate::entities::{Entity, EntityStore, player_pos, unique_player};

verus! {

/// Collision resolution as a function of the population: every live enemy
/// whose position equals the player's is removed (made dead); every other
/// entity is untouched.
pub open spec fn collisions_spec(s: Seq<Entity>) -> Seq<Entity> {
    Seq::new(
        s.len(),
        |i: int|
            if s[i].alive && s[i].is_enemy && s[i].pos == player_pos(s) {
                Entity { alive: false, ..s[i] }
            } else {
                s[i]
            },
    )
}

/// Removes every live enemy standing exactly on the player's position;
/// enemies anywhere else, and all other entities, are unaffected.
pub fn collisions(store: &mut EntityStore)
    requires
        unique_player(old(store).entities@),
    ensures
        final(store).entities@ == collisions_spec(old(store).entities@),
        final(store).pending@ == old(store).pending@,
{
    let ppos = store.player_position();
    let ghost s0 = store.entities@;
    let mut i: usize = 0;
    while i < store.entities.len()
        invariant
            store.entities@.len() == s0.len(),
            store.pending@ == old(store).pending@,
            i <= s0.len(),
            ppos == player_pos(s0),
            forall|j: int| 0 <= j < i ==> store.entities@[j] == collisions_spec(s0)[j],
            forall|j: int| i <= j < s0.len() ==> store.entities@[j] == s0[j],
        decreases s0.len() - i,
    {
        let e = store.entities[i];
        if e.alive && e.is_enemy && e.pos == ppos {
            store.entities.set(i, Entity { alive: false, ..e });
        }
        i = i + 1;
    }
    proof {
        assert(store.entities@ =~= collisions_spec(s0));
    }
}

} // verus!
