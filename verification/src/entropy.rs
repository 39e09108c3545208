//! The library's only window onto randomness. Nothing can be promised of a
//! random value, so these wrappers carry no contract: every caller must
//! state what holds of every possible outcome.

use vstd::prelude::*;

verus! {

/// Relies on rand::random::<bool>: a fresh coin flip; nothing is promised
/// of the outcome.
#[verifier::external_body]
pub fn random_bool() -> bool {
    rand::random::<bool>()
}

/// Relies on rand::random::<u32>: a fresh draw; nothing is promised of the
/// outcome.
#[verifier::external_body]
pub fn random_u32() -> u32 {
    rand::random::<u32>()
}

} // verus!
