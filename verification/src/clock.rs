//! Saturating arithmetic on the executor's virtual clock.
//!
//! All deadlines and finish times are sums of a base instant and a duration,
//! both in virtual milliseconds. The sum saturates at `u64::MAX`, so timer
//! registration is total and never panics.

use vstd::prelude::*;

verus! {

/// The saturating sum of a base instant and a duration.
pub open spec fn sat_add_spec(a: u64, b: u64) -> u64 {
    if a + b <= u64::MAX {
        (a + b) as u64
    } else {
        u64::MAX
    }
}

/// The saturating sum never falls below either operand.
pub proof fn lemma_sat_add_ge(a: u64, b: u64)
    ensures
        sat_add_spec(a, b) >= a,
        sat_add_spec(a, b) >= b,
{
}

pub fn sat_add(a: u64, b: u64) -> (r: u64)
    ensures
        r == sat_add_spec(a, b),
{
    if a <= u64::MAX - b {
        a + b
    } else {
        u64::MAX
    }
}

} // verus!
