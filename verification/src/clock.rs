//! Time: seconds since the Unix epoch as handshakes are dated, and nanoseconds
//! on a clock of the program's own that never runs backwards.
use vstd::arithmetic::power2::pow2;
use vstd::bits::{lemma_u64_pow2_no_overflow, lemma_u64_shl_is_mul};
use vstd::prelude::*;

verus! {

/// The nanoseconds of one second.
pub const NANOS_PER_SEC: u64 = 1_000_000_000;

/// The nanoseconds from `since` to `now`: none where `since` lies ahead.
pub open spec fn elapsed(since: u64, now: u64) -> nat {
    if now >= since {
        (now - since) as nat
    } else {
        0
    }
}

/// Whether `secs` seconds or more lie between `since` and `now`.
pub fn has_elapsed(since: u64, now: u64, secs: u64) -> (answer: bool)
    ensures
        answer == (elapsed(since, now) >= secs * NANOS_PER_SEC),
{
    let passed: u128 = now.saturating_sub(since) as u128;
    assert(secs * NANOS_PER_SEC <= u64::MAX * NANOS_PER_SEC) by (nonlinear_arith)
        requires
            secs <= u64::MAX,
            NANOS_PER_SEC >= 0,
    ;
    passed >= secs as u128 * NANOS_PER_SEC as u128
}

/// Two to the power of `n`.
pub fn power_of_two(n: u32) -> (p: u64)
    requires
        n < 64,
    ensures
        p == pow2(n as nat),
{
    proof {
        lemma_u64_pow2_no_overflow(n as nat);
        lemma_u64_shl_is_mul(1, n as u64);
    }
    1u64 << (n as u64)
}

/// The smaller of two numbers.
pub open spec fn lesser(a: nat, b: nat) -> nat {
    if a <= b {
        a
    } else {
        b
    }
}

/// What has passed from one time to a later one, added to the former, is the
/// latter; to an earlier one nothing has passed. A second has a billion
/// nanoseconds.
pub proof fn law_elapsed(since: u64, now: u64)
    ensures
        since <= now ==> since + elapsed(since, now) == now,
        now <= since ==> elapsed(since, now) == 0,
        NANOS_PER_SEC == 1_000_000_000,
{
}

/// The smaller of two numbers is one of them, and neither is smaller.
pub proof fn law_lesser(a: nat, b: nat)
    ensures
        lesser(a, b) <= a,
        lesser(a, b) <= b,
        lesser(a, b) == a || lesser(a, b) == b,
{
}

} // verus!
