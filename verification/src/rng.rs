//! Random draws.
//!
//! The one call into the outside world: a raw 64-bit sample. Everything
//! derived from it (a scalar in a range, a point in a cube, a direction on
//! the unit sphere) is computed and verified here or in the vector module,
//! with contracts that state only what holds of every possible outcome.

use vstd::prelude::*;

verus! {

/// Relies on `rand::random::<u64>`: one sample from the thread-local
/// generator. Nothing is promised of the value; every caller must handle
/// every outcome.
#[verifier::external_body]
fn random_u64() -> u64 {
    rand::random::<u64>()
}

/// A scalar drawn from the closed interval `[lo, hi]`. Only the range is
/// promised: where the draw falls inside it is chance.
pub fn random_fx(lo: i64, hi: i64) -> (r: i64)
    requires
        lo <= hi,
        (hi as int) - (lo as int) < 0x7fff_ffff_ffff_ffff,
    ensures
        lo <= r <= hi,
{
    let u: u64 = random_u64();
    let span: u64 = ((hi - lo) as u64) + 1;
    let off: u64 = u % span;
    lo + (off as i64)
}

} // verus!
