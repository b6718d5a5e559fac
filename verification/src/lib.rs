//! A turn-based combat engine: an initiative-ordered turn scheduler, a
//! targeting resolver, and a declarative skill/effect interpreter, all
//! working over an entity store.
//!
//! Combatant state lives in a `hecs::World`; every rule that reads or
//! changes that state is specified against a mathematical model of the
//! store (a map from entity id to its record) and verified.

pub mod combat;
pub mod dice;
pub mod interp;
pub mod level;
pub mod log;
pub mod sched;
pub mod skills;
pub mod store;
pub mod target;

use vstd::prelude::*;

verus! {

} // verus!
