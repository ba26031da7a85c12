//! Fixed-point quantities: one unit is `ONE` steps of the integer grid.

use vstd::prelude::*;
use vstd::arithmetic::div_mod::{lemma_div_is_ordered, lemma_div_by_multiple};

verus! {

/// Grid steps in one unit of length, mass, speed or time.
pub const ONE: i64 = 1000;

/// Largest magnitude of a coordinate, velocity component, mass, radius or time step.
pub const LIMIT: i64 = 0x7fff_ffff;

/// Whether `x` lies within the grid's bounds.
pub open spec fn in_range(x: int) -> bool {
    -LIMIT <= x <= LIMIT
}

/// Quotient of `a` by a positive `b`, rounded toward zero.
pub open spec fn quot(a: int, b: int) -> int {
    if a >= 0 {
        a / b
    } else {
        -((-a) / b)
    }
}

/// `v` after a rate of change `rate` over a time `dt`, rounded toward zero on the grid.
pub open spec fn advanced(v: int, rate: int, dt: int) -> int {
    v + quot(rate * dt, ONE as int)
}

/// `r` is the integer square root of `n`: the largest `r` with `r * r <= n`.
pub open spec fn is_root(n: int, r: int) -> bool {
    0 <= r && r * r <= n && n < (r + 1) * (r + 1)
}

/// The integer square root of a non-negative `n`.
pub open spec fn root(n: int) -> int {
    choose|r: int| is_root(n, r)
}

/// A non-negative integer has exactly one integer square root.
pub proof fn lemma_root_unique(n: int, a: int, b: int)
    requires
        is_root(n, a),
        is_root(n, b),
    ensures
        a == b,
{
    if a < b {
        assert((a + 1) * (a + 1) <= b * b) by (nonlinear_arith)
            requires
                0 <= a,
                a + 1 <= b,
        ;
    } else if b < a {
        assert((b + 1) * (b + 1) <= a * a) by (nonlinear_arith)
            requires
                0 <= b,
                b + 1 <= a,
        ;
    }
}

/// Every non-negative integer has an integer square root.
pub proof fn lemma_root_exists(n: int)
    requires
        n >= 0,
    ensures
        is_root(n, root(n)),
    decreases n,
{
    if n == 0 {
        assert(is_root(0, 0));
    } else {
        lemma_root_exists(n - 1);
        let r = root(n - 1);
        if (r + 1) * (r + 1) <= n {
            assert(n < (r + 2) * (r + 2)) by (nonlinear_arith)
                requires
                    n - 1 < (r + 1) * (r + 1),
                    r >= 0,
            ;
            assert(is_root(n, r + 1));
        } else {
            assert(is_root(n, r));
        }
    }
}

/// `root(n)` is the integer square root whenever one is known to exist.
pub proof fn lemma_root_is(n: int, r: int)
    requires
        is_root(n, r),
    ensures
        root(n) == r,
{
    lemma_root_unique(n, root(n), r);
}

/// Integer square root, by bisection.
pub fn isqrt(n: u128) -> (r: u128)
    requires
        n < 0x1_0000_0000_0000_0000_0,
    ensures
        is_root(n as int, r as int),
        r as int == root(n as int),
{
    let mut lo: u128 = 0;
    let mut hi: u128 = 0x4_0000_0000;
    assert(hi * hi == 0x10_0000_0000_0000_0000);
    while lo + 1 < hi
        invariant
            lo < hi <= 0x4_0000_0000,
            lo * lo <= n,
            n < hi * hi,
        decreases hi - lo,
    {
        let mid: u128 = lo + (hi - lo) / 2;
        assert(mid * mid <= 0x10_0000_0000_0000_0000) by (nonlinear_arith)
            requires
                mid <= 0x4_0000_0000,
        ;
        if mid * mid <= n {
            lo = mid;
        } else {
            hi = mid;
        }
    }
    proof {
        lemma_root_is(n as int, lo as int);
    }
    lo
}

/// Quotient of `a` by a positive `b`, rounded toward zero.
pub fn quot_exec(a: i128, b: i128) -> (r: i128)
    requires
        b > 0,
        a > i128::MIN,
    ensures
        r as int == quot(a as int, b as int),
{
    if a >= 0 {
        a / b
    } else {
        let q = (-a) / b;
        -q
    }
}

/// `v` after a rate of change `rate` over `dt`, if the result lies within the grid's bounds.
pub fn advance(v: i64, rate: i128, dt: i64) -> (r: Option<i64>)
    requires
        in_range(v as int),
        0 <= dt <= LIMIT,
        -0x10_0000_0000_0000_0000_0000_0000_0000 <= rate <= 0x10_0000_0000_0000_0000_0000_0000_0000,
    ensures
        r == (if in_range(advanced(v as int, rate as int, dt as int)) {
            Some(advanced(v as int, rate as int, dt as int) as i64)
        } else {
            None
        }),
{
    if dt == 0 {
        assert(rate * dt == 0);
        return Some(v);
    }
    let big: i128 = 0x4000_0000_0000_0000_0000_0000;
    if rate > big || rate < -big {
        proof {
            let p = rate * dt;
            let floor: int = 1000int * 0x2_0000_0000int;
            lemma_div_by_multiple(0x2_0000_0000, 1000);
            if rate > big {
                assert(p >= floor) by (nonlinear_arith)
                    requires
                        rate > 0x4000_0000_0000_0000_0000_0000,
                        dt >= 1,
                        p == rate * dt,
                        floor == 8589934592000,
                ;
                lemma_div_is_ordered(floor, p, 1000);
            } else {
                assert(-p >= floor) by (nonlinear_arith)
                    requires
                        rate < -0x4000_0000_0000_0000_0000_0000,
                        dt >= 1,
                        p == rate * dt,
                        floor == 8589934592000,
                ;
                lemma_div_is_ordered(floor, -p, 1000);
            }
        }
        return None;
    }
    assert(-0x2000_0000_0000_0000_0000_0000_0000_0000 <= rate * dt <= 0x2000_0000_0000_0000_0000_0000_0000_0000)
        by (nonlinear_arith)
        requires
            -0x4000_0000_0000_0000_0000_0000 <= rate <= 0x4000_0000_0000_0000_0000_0000,
            0 < dt <= 0x7fff_ffff,
    ;
    let p: i128 = rate * dt as i128;
    let q: i128 = quot_exec(p, ONE as i128);
    proof {
        if p >= 0 {
            lemma_div_is_ordered(0, p as int, 1000);
            lemma_div_is_ordered(p as int, 0x2000_0000_0000_0000_0000_0000_0000_0000, 1000);
        } else {
            lemma_div_is_ordered(0, -p, 1000);
            lemma_div_is_ordered(-p, 0x2000_0000_0000_0000_0000_0000_0000_0000, 1000);
        }
    }
    let w: i128 = v as i128 + q;
    if w < -(LIMIT as i128) || w > LIMIT as i128 {
        None
    } else {
        Some(w as i64)
    }
}

} // verus!
