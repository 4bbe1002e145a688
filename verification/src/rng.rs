//! Entropy source for the `RND` opcode.

use vstd::prelude::*;

verus! {

/// Relies on macroquad::rand::rand (quad_rand::rand): a pseudo-random `u32`
/// drawn from a process-global generator. Nothing is promised of the value.
#[verifier::external_body]
pub(crate) fn random_u32() -> u32 {
    macroquad::rand::rand()
}

} // verus!
