//! The input system: turns this tick's key press into a movement intent
//! for the player and decides whether the player's turn begins.
use vstd::prelude::*;
use crate::entities::{EntityStore, PendingMove, player_idx, player_pos, point_add};
use crate::map::Point;
use crate::turn_state::TurnState;

verus! {

/// A raw key press as the host reports it; `Other` is any key that is not
/// a movement key.
#[derive(Clone, Copy, PartialEq, Eq, Structural, Debug)]
pub enum Key {
    Left,
    Right,
    Up,
    Down,
    Other,
}

/// The movement delta of a key, or `None` for an unrecognized key.
pub open spec fn key_delta_spec(k: Key) -> Option<Point> {
    match k {
        Key::Left => Some(Point { x: -1i32, y: 0i32 }),
        Key::Right => Some(Point { x: 1i32, y: 0i32 }),
        Key::Up => Some(Point { x: 0i32, y: -1i32 }),
        Key::Down => Some(Point { x: 0i32, y: 1i32 }),
        Key::Other => None,
    }
}

/// Reads the tick's key press. A directional key enqueues a pending move
/// for the player one tile in that direction and hands the tick to the
/// player's turn; no key, or an unrecognized one, changes nothing and
/// leaves the scheduler awaiting input.
pub fn player_input(store: &mut EntityStore, key: Option<Key>) -> (next: TurnState)
    requires
        old(store).wf(),
    ensures
        final(store).entities@ == old(store).entities@,
        match key {
            Some(k) => match key_delta_spec(k) {
                Some(d) => {
                    &&& final(store).pending@ == old(store).pending@.push(
                        PendingMove {
                            entity: player_idx(old(store).entities@) as usize,
                            destination: point_add(player_pos(old(store).entities@), d),
                        },
                    )
                    &&& next == TurnState::PlayerTurn
                },
                None => final(store).pending@ == old(store).pending@ && next
                    == TurnState::AwaitingInput,
            },
            None => final(store).pending@ == old(store).pending@ && next
                == TurnState::AwaitingInput,
        },
{
    match key {
        None => TurnState::AwaitingInput,
        Some(k) => {
            let delta: Option<Point> = match k {
                Key::Left => Some(Point::new(-1, 0)),
                Key::Right => Some(Point::new(1, 0)),
                Key::Up => Some(Point::new(0, -1)),
                Key::Down => Some(Point::new(0, 1)),
                Key::Other => None,
            };
            match delta {
                None => TurnState::AwaitingInput,
                Some(d) => {
                    let idx = store.find_player();
                    let pos = store.entities[idx].pos;
                    let destination = Point::new(pos.x + d.x, pos.y + d.y);
                    store.pending.push(PendingMove { entity: idx, destination });
                    TurnState::PlayerTurn
                },
            }
        },
    }
}

} // verus!
