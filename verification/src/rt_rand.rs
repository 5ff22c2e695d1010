//! The source of chance.

use vstd::prelude::*;

verus! {

/// A machine word drawn at random.
///
/// Calls `rand::random::<usize>()`, which samples the thread's generator
/// uniformly over all values of the type. Nothing is claimed of the value:
/// two calls may differ.
#[verifier::external_body]
pub fn rand_usize() -> (r: usize) {
    rand::random::<usize>()
}

} // verus!
