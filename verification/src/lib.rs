//! A branching, multi-timeline narrative modelled as a mutable entity graph,
//! together with a suite of validators that re-derive the expected state by
//! replaying event history and compare it against the stored state.
//!
//! The crate has three parts:
//!
//! - the entity store ([`narrative_core`]): timelines, characters, memories
//!   and events, with the only mutation surface;
//! - an appraisal-based emotion engine ([`emotional_system`]): belief updates
//!   become emotion deltas and a bounded mood coordinate;
//! - the validator suite ([`properties`]): seven pure checks over a store
//!   snapshot, plus a fail-fast combinator.
//!
//! All quantities that are conceptually real numbers in `[-1, 1]` (utility,
//! likelihood, congruence, fidelity, mood axes) are stored in thousandths as
//! signed integers, so `1000` stands for `1.0`.

pub mod actions;
pub mod emotional_system;
pub mod narrative_core;
pub mod properties;
pub mod protagonists;
