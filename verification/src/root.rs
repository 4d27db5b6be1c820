//! Integer square roots.

use vstd::prelude::*;

verus! {

/// Largest number of which `integer_root` takes the root.
pub const MAX_SQUARE: u64 = 0x3fff_ffff_ffff_ffff;

/// Whether `r` is the integer square root of `n`: the largest number whose square
/// does not exceed `n`.
pub open spec fn is_root(r: int, n: int) -> bool {
    0 <= r && r * r <= n < (r + 1) * (r + 1)
}

/// The integer square root of `n`.
pub open spec fn root(n: int) -> int {
    choose|r: int| is_root(r, n)
}

/// A number has at most one integer square root.
pub proof fn lemma_root_is_unique(r: int, s: int, n: int)
    requires
        is_root(r, n),
        is_root(s, n),
    ensures
        r == s,
{
    if r < s {
        assert((r + 1) * (r + 1) <= s * s) by (nonlinear_arith)
            requires
                0 <= r,
                r + 1 <= s,
        ;
    } else if s < r {
        assert((s + 1) * (s + 1) <= r * r) by (nonlinear_arith)
            requires
                0 <= s,
                s + 1 <= r,
        ;
    }
}

/// Every number that is not negative has an integer square root.
pub proof fn lemma_root_exists(n: int)
    requires
        n >= 0,
    ensures
        exists|r: int| is_root(r, n),
    decreases n,
{
    if n == 0 {
        assert(is_root(0, 0));
    } else {
        let m = n - 1;
        lemma_root_exists(m);
        let r = choose|r: int| is_root(r, m);
        if (r + 1) * (r + 1) <= n {
            assert((r + 2) * (r + 2) > n) by (nonlinear_arith)
                requires
                    (r + 1) * (r + 1) > n - 1,
                    r >= 0,
            ;
            assert(is_root(r + 1, n));
        } else {
            assert(is_root(r, n));
        }
    }
}

/// The integer square root of `n`.
pub fn integer_root(n: u64) -> (r: u64)
    requires
        n <= MAX_SQUARE,
    ensures
        is_root(r as int, n as int),
        r == root(n as int),
{
    let mut low: u64 = 0;
    let mut high: u64 = 0x8000_0000;
    assert(0x8000_0000int * 0x8000_0000int > n) by (nonlinear_arith)
        requires
            n <= 0x3fff_ffff_ffff_ffff,
    ;
    while high - low > 1
        invariant
            low < high <= 0x8000_0000,
            low * low <= n < high * high,
        decreases high - low,
    {
        let mid: u64 = low + (high - low) / 2;
        assert(mid * mid < 0x8000_0000int * 0x8000_0000int) by (nonlinear_arith)
            requires
                0 <= mid < 0x8000_0000,
        ;
        if mid * mid <= n {
            low = mid;
        } else {
            high = mid;
        }
    }
    proof {
        assert(is_root(low as int, n as int));
        lemma_root_is_unique(low as int, root(n as int), n as int);
    }
    low
}

} // verus!
