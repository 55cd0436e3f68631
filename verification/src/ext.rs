//! Calls into the outside crates that the core leans on: the jump
//! consistent hash used for uniform load balancing, the thread-local random
//! generator, and the coarse system clock.

use vstd::prelude::*;

verus! {

/// Slot assigned by the jump consistent hash to `key` over `n` slots, for a
/// hasher seeded with `k1` and `k2`. The value is determined by these
/// arguments alone.
pub uninterp spec fn jump_hash_slot(k1: u64, k2: u64, key: Seq<u8>, n: u32) -> u32;

/// Relies on jumphash::JumpHasher::slot: for a hasher built with
/// `new_with_keys(k1, k2)` the slot depends only on the seed keys, the hashed
/// bytes and the slot count, and its loop always leaves a value below a
/// nonzero slot count.
#[verifier::external_body]
pub(crate) fn jump_slot(k1: u64, k2: u64, key: &Vec<u8>, n: u32) -> (r: u32)
    requires
        n >= 1,
    ensures
        r == jump_hash_slot(k1, k2, key@, n),
        r < n,
{
    jumphash::JumpHasher::new_with_keys(k1, k2).slot(key, n)
}

/// Relies on rand::random_range over `0..n`, which panics only on an empty
/// range and otherwise samples from it; nothing further is promised of the
/// value.
#[verifier::external_body]
pub(crate) fn random_below(n: usize) -> (r: usize)
    requires
        n >= 1,
    ensures
        r < n,
{
    rand::random_range(0..n)
}

/// Relies on rand::random: a transaction id drawn from the thread-local
/// generator; nothing is promised of its value.
#[verifier::external_body]
pub(crate) fn random_tid() -> (r: u16) {
    rand::random()
}

/// Relies on coarsetime::Clock::now_since_epoch: the coarse system time in
/// whole milliseconds since the UNIX epoch, read on a machine whose clock is
/// at or after the epoch; nothing is promised of its value.
#[verifier::external_body]
pub(crate) fn now_millis() -> (r: u64) {
    coarsetime::Clock::now_since_epoch().as_millis()
}

} // verus!
