//! Fixed-point scalars.
//!
//! A scalar is an `i64` counting millionths: the value `x` stands for the
//! real number `x / FP_ONE`. Curve control points, noise samples, weights,
//! thresholds and entity positions all use this representation, so that the
//! shaping and query logic is exact integer arithmetic.

use vstd::prelude::*;

verus! {

/// Number of fixed-point units in one whole unit.
pub const FP_ONE: i64 = 1_000_000;

/// Magnitude bound on every fixed-point scalar this crate works with
/// (one million whole units). Keeping scalars within this bound lets all
/// intermediate products fit in `i128`.
pub const FP_LIMIT: i64 = 1_000_000_000_000;

/// A fixed-point scalar within range.
pub open spec fn fp_in_range(v: i64) -> bool {
    -FP_LIMIT <= v <= FP_LIMIT
}

/// Division truncating toward zero, for a positive divisor: the semantics of
/// Rust's `/` on signed integers, stated over mathematical integers
/// (the spec-mode `/` itself is Euclidean).
pub open spec fn div_tz(a: int, b: int) -> int
    recommends
        b > 0,
{
    if a >= 0 {
        a / b
    } else {
        -((-a) / b)
    }
}

/// Runtime truncating division on wide intermediates, tied to `div_tz`.
pub fn div_fx(a: i128, b: i128) -> (r: i128)
    requires
        b > 0,
    ensures
        r == div_tz(a as int, b as int),
{
    proof {
        lemma_div_tz_range(a as int, b as int);
    }
    a / b
}

/// Integer square root: the largest `r` with `r * r <= n`.
pub fn int_sqrt(n: u64) -> (r: u64)
    ensures
        r * r <= n < (r + 1) * (r + 1),
{
    let mut lo: u64 = 0;
    let mut hi: u64 = 0x1_0000_0000;
    proof {
        assert(n < 0x1_0000_0000 * 0x1_0000_0000) by (nonlinear_arith)
            requires
                n <= u64::MAX,
        ;
    }
    while hi - lo > 1
        invariant
            lo < hi <= 0x1_0000_0000,
            lo * lo <= n,
            n < hi * hi,
        decreases hi - lo,
    {
        let mid = lo + (hi - lo) / 2;
        proof {
            assert(mid * mid < 0x1_0000_0000 * 0x1_0000_0000) by (nonlinear_arith)
                requires
                    mid < 0x1_0000_0000,
            ;
        }
        if mid * mid <= n {
            lo = mid;
        } else {
            hi = mid;
        }
    }
    lo
}

/// Runtime flooring division for a positive divisor: the semantics of the
/// spec-mode `/` (Euclidean division), recovered from the machine's
/// truncating division.
pub fn floor_div_fx(a: i128, b: i128) -> (r: i128)
    requires
        b > 0,
        a > i128::MIN,
    ensures
        r == a as int / b as int,
        a >= 0 ==> 0 <= r <= a,
        a < 0 ==> a <= r <= 0,
{
    if a >= 0 {
        proof {
            lemma_div_tz_range(a as int, b as int);
        }
        return a / b;
    }
    let na = -a;
    let u = na / b;
    let ru = na % b;
    proof {
        vstd::arithmetic::div_mod::lemma_fundamental_div_mod(na as int, b as int);
        vstd::arithmetic::div_mod::lemma_div_pos_is_pos(na as int, b as int);
        vstd::arithmetic::div_mod::lemma_div_is_ordered_by_denominator(na as int, 1, b as int);
        assert(u as int == na as int / b as int && ru as int == na as int % b as int);
    }
    if ru == 0 {
        proof {
            assert(a as int == (-(u as int)) * (b as int) + 0) by (nonlinear_arith)
                requires
                    na as int == (b as int) * (u as int) + 0,
                    a as int == -(na as int),
            ;
            vstd::arithmetic::div_mod::lemma_fundamental_div_mod_converse(
                a as int,
                b as int,
                -(u as int),
                0,
            );
        }
        -u
    } else {
        proof {
            assert(a as int == (-(u as int) - 1) * (b as int) + ((b as int) - ru as int))
                by (nonlinear_arith)
                requires
                    na as int == (b as int) * (u as int) + ru as int,
                    a as int == -(na as int),
            ;
            vstd::arithmetic::div_mod::lemma_fundamental_div_mod_converse(
                a as int,
                b as int,
                -(u as int) - 1,
                (b as int) - ru as int,
            );
            assert(u as int <= na as int - 1) by {
                if b == 1 {
                    assert(ru as int == 0);
                } else if na == 1 {
                    vstd::arithmetic::div_mod::lemma_basic_div(1, b as int);
                } else {
                    vstd::arithmetic::div_mod::lemma_div_is_ordered_by_denominator(
                        na as int,
                        2,
                        b as int,
                    );
                    vstd::arithmetic::div_mod::lemma_div_decreases(na as int, 2);
                }
            }
        }
        -u - 1
    }
}

/// A magnitude bound on `div_tz` from a multiple of the divisor.
pub proof fn lemma_div_tz_bound(a: int, b: int, m: int)
    requires
        b > 0,
        m >= 0,
        -m * b <= a <= m * b,
    ensures
        -m <= div_tz(a, b) <= m,
{
    assert((-m) * b == -(m * b)) by (nonlinear_arith);
    if a >= 0 {
        vstd::arithmetic::div_mod::lemma_div_is_ordered(a, m * b, b);
        vstd::arithmetic::div_mod::lemma_div_by_multiple(m, b);
        vstd::arithmetic::div_mod::lemma_div_pos_is_pos(a, b);
    } else {
        vstd::arithmetic::div_mod::lemma_div_is_ordered(-a, m * b, b);
        vstd::arithmetic::div_mod::lemma_div_by_multiple(m, b);
        vstd::arithmetic::div_mod::lemma_div_pos_is_pos(-a, b);
    }
}

/// `div_tz` stays within the bounds that the dividend gives.
pub proof fn lemma_div_tz_range(a: int, b: int)
    requires
        b > 0,
    ensures
        a >= 0 ==> 0 <= div_tz(a, b) <= a,
        a < 0 ==> a <= div_tz(a, b) <= 0,
{
    if a >= 0 {
        vstd::arithmetic::div_mod::lemma_div_is_ordered_by_denominator(a, 1, b);
        vstd::arithmetic::div_mod::lemma_div_pos_is_pos(a, b);
    } else {
        vstd::arithmetic::div_mod::lemma_div_is_ordered_by_denominator(-a, 1, b);
        vstd::arithmetic::div_mod::lemma_div_pos_is_pos(-a, b);
    }
}

} // verus!
