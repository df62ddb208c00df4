//! Fresh secret randomness.

use vstd::prelude::*;
use rand::Rng;

verus! {

/// Draws 32 bytes from `rand::thread_rng()` with `Rng::gen`.
///
/// Trusted, and nothing is claimed of the bytes: every call may return any
/// value.  The generator stops the process if the operating system cannot
/// seed it.
#[verifier::external_body]
pub(crate) fn random_bytes32() -> (out: [u8; 32]) {
    rand::thread_rng().gen::<[u8; 32]>()
}

} // verus!
