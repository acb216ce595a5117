//! Integer square root, used to turn a windowed mean of squares back into
//! a fixed-point amplitude.

use vstd::prelude::*;
use crate::window::is_isqrt;

verus! {

/// The integer square root is unique: two roots of the same value agree.
pub proof fn lemma_isqrt_unique(n: nat, r1: nat, r2: nat)
    requires
        is_isqrt(n, r1),
        is_isqrt(n, r2),
    ensures
        r1 == r2,
{
    if r1 < r2 {
        assert((r1 + 1) * (r1 + 1) <= r2 * r2) by (nonlinear_arith)
            requires
                r1 + 1 <= r2,
        ;
    }
    if r2 < r1 {
        assert((r2 + 1) * (r2 + 1) <= r1 * r1) by (nonlinear_arith)
            requires
                r2 + 1 <= r1,
        ;
    }
}

/// Binary search for the largest `r` with `r * r <= n`.
pub fn isqrt_u128(n: u128) -> (r: u64)
    ensures
        is_isqrt(n as nat, r as nat),
{
    let mut lo: u64 = 0;
    let mut hi: u64 = u64::MAX;
    proof {
        assert((lo as nat) * (lo as nat) <= n as nat);
        assert((n as nat) < ((hi as nat) + 1) * ((hi as nat) + 1)) by (nonlinear_arith)
            requires
                hi == u64::MAX,
                n <= u128::MAX,
        ;
    }
    while lo < hi
        invariant
            lo <= hi,
            (lo as nat) * (lo as nat) <= n as nat,
            (n as nat) < ((hi as nat) + 1) * ((hi as nat) + 1),
        decreases hi - lo,
    {
        let mid: u64 = hi - (hi - lo) / 2;
        proof {
            assert((mid as nat) * (mid as nat) <= (u64::MAX as nat) * (u64::MAX as nat))
                by (nonlinear_arith)
                requires
                    mid <= u64::MAX,
            ;
            assert((u64::MAX as nat) * (u64::MAX as nat) < u128::MAX as nat) by (nonlinear_arith);
        }
        let sq: u128 = (mid as u128) * (mid as u128);
        if sq <= n {
            lo = mid;
        } else {
            hi = mid - 1;
        }
    }
    lo
}

} // verus!
