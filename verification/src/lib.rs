//! Pure rules kernel for a deterministic card-game engine: typed arenas,
//! zones, mana payment, the turn and priority machine, combat, state-based
//! actions, triggered, replacement and continuous effects, and canonical
//! state hashing.

use vstd::prelude::*;

pub mod ids;
pub mod mana;
pub mod turn;
pub mod characteristics;
pub mod abilities;
pub mod events;
pub mod combat;
pub mod outcome;
pub mod state;
pub mod layers;
pub mod plumbing;
pub mod triggers;
pub mod replacement;
pub mod combat_rules;
pub mod sba;
pub mod activated;
pub mod priority;
pub mod setup;
pub mod turns;
pub mod action;
pub mod hash;

verus! {

/// Returns true when the crate is linked correctly.
pub fn crate_ready() -> (r: bool)
    ensures
        r,
{
    true
}

} // verus!
