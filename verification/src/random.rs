//! Random numbers from the thread-local generator of the `rand` crate.
//!
//! Nothing here is proved: the contracts state what the documentation of
//! `rand` promises, and the rest of the crate is proved for every number
//! that may come back.

use vstd::prelude::*;
use rand::rngs::ThreadRng;
use rand::Rng;

verus! {

/// The type `rand::rngs::ThreadRng`, a handle to the generator of the
/// current thread.  Nothing is known of what is inside.
#[verifier::external_type_specification]
#[verifier::external_body]
pub struct ExThreadRng(ThreadRng);

/// `rand::thread_rng` hands out the generator of the current thread.
/// Nothing is claimed of the generator.  The call takes no argument; it
/// fails only where the system has no entropy to seed the generator with.
pub assume_specification[ rand::thread_rng ]() -> (rng: ThreadRng)
;

/// `rand::Rng::gen_range` for `i32`: some number `x` with
/// `low <= x < high`.  The call panics unless `low < high`, so that is
/// required.  Which number comes back is not stated, and two calls may
/// differ.
#[verifier::external_body]
fn gen_range(rng: &mut ThreadRng, low: i32, high: i32) -> (x: i32)
    requires
        low < high,
    ensures
        low <= x < high,
{
    rng.gen_range(low, high)
}

/// A random number `x` with `low <= x < high`, or `None` where there is no
/// such number.
pub fn roll(low: i32, high: i32) -> (outcome: Option<i32>)
    ensures
        match outcome {
            Some(x) => low <= x < high,
            None => low >= high,
        },
{
    if low < high {
        let mut rng = rand::thread_rng();
        Some(gen_range(&mut rng, low, high))
    } else {
        None
    }
}

} // verus!
