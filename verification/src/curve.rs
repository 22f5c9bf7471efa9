//! Sample-point curves.
//!
//! A [`Curve`] is a piecewise-linear map given by control points with
//! strictly increasing x coordinates. Sampling linearly interpolates between
//! the two bracketing control points and clamps to the first/last point's
//! value beyond the ends. Noise layers use one such curve for their bias and
//! one for their offset.

use vstd::prelude::*;

use crate::errors::ConfigError;
use crate::fixed::{div_fx, div_tz, fp_in_range, lemma_div_tz_range};

verus! {

/// Linear interpolation between `(x0, y0)` and `(x1, y1)` at `x`, with the
/// quotient truncated toward zero as runtime division does.
pub open spec fn lerp(x0: int, y0: int, x1: int, y1: int, x: int) -> int
    recommends
        x0 < x1,
{
    y0 + div_tz((x - x0) * (y1 - y0), x1 - x0)
}

/// Well-formed control points: at least one, every coordinate within the
/// fixed-point range, x strictly increasing.
pub open spec fn points_wf(ps: Seq<(i64, i64)>) -> bool {
    &&& ps.len() >= 1
    &&& forall|i: int|
        0 <= i < ps.len() ==> fp_in_range((#[trigger] ps[i]).0) && fp_in_range(ps[i].1)
    &&& forall|i: int| 0 <= i < ps.len() - 1 ==> (#[trigger] ps[i]).0 < ps[i + 1].0
}

/// What sampling a control-point sequence at `x` yields: the first point's
/// value left of the first point, the last point's value right of the last,
/// and linear interpolation on the bracketing segment in between.
pub open spec fn sample_points(ps: Seq<(i64, i64)>, x: int) -> int
    decreases ps.len(),
{
    if ps.len() == 0 {
        0
    } else if ps.len() == 1 {
        ps[0].1 as int
    } else if x <= ps[0].0 {
        ps[0].1 as int
    } else if x < ps[1].0 {
        lerp(ps[0].0 as int, ps[0].1 as int, ps[1].0 as int, ps[1].1 as int, x)
    } else {
        sample_points(ps.drop_first(), x)
    }
}

/// The interpolated value lies between the segment's endpoint values.
pub proof fn lemma_lerp_bounds(x0: int, y0: int, x1: int, y1: int, x: int)
    requires
        x0 < x1,
        x0 <= x <= x1,
    ensures
        y0 <= y1 ==> y0 <= lerp(x0, y0, x1, y1, x) <= y1,
        y1 <= y0 ==> y1 <= lerp(x0, y0, x1, y1, x) <= y0,
{
    let d = x1 - x0;
    let dy = y1 - y0;
    if dy >= 0 {
        let num = (x - x0) * dy;
        assert(0 <= num <= d * dy && d * dy == dy * d) by (nonlinear_arith)
            requires
                num == (x - x0) * dy,
                0 <= x - x0 <= d,
                dy >= 0,
        ;
        vstd::arithmetic::div_mod::lemma_div_is_ordered(num, dy * d, d);
        vstd::arithmetic::div_mod::lemma_div_pos_is_pos(num, d);
        vstd::arithmetic::div_mod::lemma_div_by_multiple(dy, d);
    } else {
        let num = (x - x0) * (-dy);
        assert(0 <= num <= (-dy) * d && (x - x0) * dy == -num) by (nonlinear_arith)
            requires
                num == (x - x0) * (-dy),
                0 <= x - x0 <= d,
                dy < 0,
        ;
        vstd::arithmetic::div_mod::lemma_div_is_ordered(num, (-dy) * d, d);
        vstd::arithmetic::div_mod::lemma_div_pos_is_pos(num, d);
        vstd::arithmetic::div_mod::lemma_div_by_multiple(-dy, d);
    }
}

/// On a segment whose endpoint values are non-decreasing, interpolation is
/// monotone non-decreasing: the discrete counterpart of the linear
/// interpolation property (exact values at the control points are stated by
/// [`lemma_sample_at_control_point`]).
pub proof fn lemma_lerp_monotone(x0: int, y0: int, x1: int, y1: int, xa: int, xb: int)
    requires
        x0 < x1,
        y0 <= y1,
        x0 <= xa <= xb <= x1,
    ensures
        lerp(x0, y0, x1, y1, xa) <= lerp(x0, y0, x1, y1, xb),
{
    let d = x1 - x0;
    let dy = y1 - y0;
    let na = (xa - x0) * dy;
    let nb = (xb - x0) * dy;
    assert(0 <= na <= nb) by (nonlinear_arith)
        requires
            na == (xa - x0) * dy,
            nb == (xb - x0) * dy,
            0 <= xa - x0 <= xb - x0,
            dy >= 0,
    ;
    vstd::arithmetic::div_mod::lemma_div_is_ordered(na, nb, d);
}

/// Sampling anywhere in segment `i` reduces to that segment alone.
pub proof fn lemma_sample_in_segment(ps: Seq<(i64, i64)>, i: int, x: int)
    requires
        points_wf(ps),
        0 <= i < ps.len() - 1,
        ps[i].0 <= x <= ps[i + 1].0,
    ensures
        sample_points(ps, x) == if x == ps[i].0 {
            ps[i].1 as int
        } else if x == ps[i + 1].0 {
            ps[i + 1].1 as int
        } else {
            lerp(ps[i].0 as int, ps[i].1 as int, ps[i + 1].0 as int, ps[i + 1].1 as int, x)
        },
    decreases i,
{
    reveal_with_fuel(sample_points, 3);
    let tail = ps.drop_first();
    assert(tail.len() == ps.len() - 1);
    assert(forall|j: int| 0 <= j < tail.len() ==> #[trigger] tail[j] == ps[j + 1]);
    if i == 0 {
        if x == ps[1].0 {
            assert(tail[0] == ps[1]);
            assert(sample_points(ps, x) == sample_points(tail, x));
        }
    } else {
        assert(ps[0].0 < ps[1].0);
        assert(ps[1].0 <= ps[i].0) by {
            lemma_x_sorted_chain(ps, 1, i);
        }
        assert(x >= ps[1].0);
        assert(points_wf(tail)) by {
            assert forall|j: int| 0 <= j < tail.len() - 1 implies (#[trigger] tail[j]).0 < tail[j
                + 1].0 by {
                assert(tail[j] == ps[j + 1] && tail[j + 1] == ps[j + 2]);
            }
            assert forall|j: int|
                0 <= j < tail.len() implies fp_in_range((#[trigger] tail[j]).0) && fp_in_range(
                tail[j].1,
            ) by {
                assert(tail[j] == ps[j + 1]);
                assert(fp_in_range(ps[j + 1].0) && fp_in_range(ps[j + 1].1));
            }
        }
        lemma_sample_in_segment(tail, i - 1, x);
        assert(tail[i - 1] == ps[i] && tail[i] == ps[i + 1]);
    }
}

/// Dropping the first of two or more well-formed control points leaves a
/// well-formed sequence.
pub proof fn lemma_tail_wf(ps: Seq<(i64, i64)>)
    requires
        points_wf(ps),
        ps.len() >= 2,
    ensures
        points_wf(ps.drop_first()),
{
    let tail = ps.drop_first();
    assert(forall|j: int| 0 <= j < tail.len() ==> #[trigger] tail[j] == ps[j + 1]);
    assert forall|j: int| 0 <= j < tail.len() - 1 implies (#[trigger] tail[j]).0 < tail[j
        + 1].0 by {
        assert(tail[j] == ps[j + 1] && tail[j + 1] == ps[j + 2]);
    }
    assert forall|j: int|
        0 <= j < tail.len() implies fp_in_range((#[trigger] tail[j]).0) && fp_in_range(
        tail[j].1,
    ) by {
        assert(tail[j] == ps[j + 1]);
        assert(fp_in_range(ps[j + 1].0) && fp_in_range(ps[j + 1].1));
    }
}

/// Sampling a well-formed curve stays within the fixed-point range.
pub proof fn lemma_sample_in_range(ps: Seq<(i64, i64)>, x: int)
    requires
        points_wf(ps),
    ensures
        fp_in_range(sample_points(ps, x) as i64),
        -crate::fixed::FP_LIMIT <= sample_points(ps, x) <= crate::fixed::FP_LIMIT,
    decreases ps.len(),
{
    if ps.len() == 1 {
    } else if x <= ps[0].0 {
    } else if x < ps[1].0 {
        assert(ps[0].0 < ps[1].0);
        lemma_lerp_bounds(ps[0].0 as int, ps[0].1 as int, ps[1].0 as int, ps[1].1 as int, x);
    } else {
        lemma_tail_wf(ps);
        lemma_sample_in_range(ps.drop_first(), x);
    }
}

/// Control-point x coordinates increase across any distance.
pub proof fn lemma_x_sorted_chain(ps: Seq<(i64, i64)>, i: int, j: int)
    requires
        points_wf(ps),
        0 <= i <= j < ps.len(),
    ensures
        i < j ==> ps[i].0 < ps[j].0,
        ps[i].0 <= ps[j].0,
    decreases j - i,
{
    if i < j {
        lemma_x_sorted_chain(ps, i, j - 1);
        assert(ps[j - 1].0 < ps[j].0);
    }
}

/// At a control point, sampling returns exactly that point's value.
pub proof fn lemma_sample_at_control_point(ps: Seq<(i64, i64)>, i: int)
    requires
        points_wf(ps),
        0 <= i < ps.len(),
    ensures
        sample_points(ps, ps[i].0 as int) == ps[i].1 as int,
{
    if i < ps.len() - 1 {
        lemma_sample_in_segment(ps, i, ps[i].0 as int);
        assert(ps[i].0 < ps[i + 1].0);
    } else if ps.len() == 1 {
    } else {
        lemma_sample_in_segment(ps, i - 1, ps[i].0 as int);
        assert(ps[i - 1].0 < ps[i].0);
    }
}

/// Between consecutive control points whose values are non-decreasing,
/// sampling is monotone non-decreasing and stays within the segment's value
/// range.
pub proof fn lemma_sample_monotone_on_segment(ps: Seq<(i64, i64)>, i: int, xa: int, xb: int)
    requires
        points_wf(ps),
        0 <= i < ps.len() - 1,
        ps[i].1 <= ps[i + 1].1,
        ps[i].0 <= xa <= xb <= ps[i + 1].0,
    ensures
        sample_points(ps, xa) <= sample_points(ps, xb),
        ps[i].1 <= sample_points(ps, xa) <= ps[i + 1].1,
{
    let x0 = ps[i].0 as int;
    let y0 = ps[i].1 as int;
    let x1 = ps[i + 1].0 as int;
    let y1 = ps[i + 1].1 as int;
    lemma_sample_in_segment(ps, i, xa);
    lemma_sample_in_segment(ps, i, xb);
    lemma_lerp_bounds(x0, y0, x1, y1, xa);
    lemma_lerp_bounds(x0, y0, x1, y1, xb);
    lemma_lerp_monotone(x0, y0, x1, y1, xa, xb);
    assert(lerp(x0, y0, x1, y1, x0) == y0) by {
        assert((x0 - x0) * (y1 - y0) == 0) by (nonlinear_arith);
        vstd::arithmetic::div_mod::lemma_div_of0(x1 - x0);
    }
    assert(lerp(x0, y0, x1, y1, x1) == y1) by {
        vstd::arithmetic::div_mod::lemma_div_by_multiple(y1 - y0, x1 - x0);
        assert((x1 - x0) * (y1 - y0) == (y1 - y0) * (x1 - x0)) by (nonlinear_arith);
        lemma_div_tz_range((x1 - x0) * (y1 - y0), x1 - x0);
        if y1 >= y0 {
        } else {
            assert(-((x1 - x0) * (y1 - y0)) == (y0 - y1) * (x1 - x0)) by (nonlinear_arith);
            vstd::arithmetic::div_mod::lemma_div_by_multiple(y0 - y1, x1 - x0);
        }
    }
}

/// A piecewise-linear sample-point curve.
pub struct Curve {
    points: Vec<(i64, i64)>,
}

impl Curve {
    /// The control points.
    pub closed spec fn control_points(self) -> Seq<(i64, i64)> {
        self.points@
    }

    /// Structural invariant: see [`points_wf`].
    pub open spec fn wf(self) -> bool {
        points_wf(self.control_points())
    }

    /// What sampling this curve yields.
    pub open spec fn spec_sample(self, x: int) -> int {
        sample_points(self.control_points(), x)
    }

    /// Validates control points and builds the curve: rejects an empty list,
    /// coordinates outside the fixed-point range, and x coordinates that are
    /// not strictly increasing, in that order.
    pub fn new(points: Vec<(i64, i64)>) -> (r: Result<Curve, ConfigError>)
        ensures
            r matches Ok(c) ==> c.wf() && c.control_points() == points@,
            points_wf(points@) ==> (r matches Ok(c) && c.control_points() == points@),
            r == Err::<Curve, ConfigError>(ConfigError::EmptyCurve) <==> points@.len() == 0,
            r == Err::<Curve, ConfigError>(ConfigError::CurveValueOutOfRange) <==> points@.len()
                > 0 && exists|i: int|
                0 <= i < points@.len() && !(fp_in_range((#[trigger] points@[i]).0) && fp_in_range(
                    points@[i].1,
                )),
    {
        if points.len() == 0 {
            return Err(ConfigError::EmptyCurve);
        }
        let n = points.len();
        let mut i: usize = 0;
        while i < n
            invariant
                n == points@.len(),
                i <= n,
                forall|j: int|
                    0 <= j < i ==> fp_in_range((#[trigger] points@[j]).0) && fp_in_range(
                        points@[j].1,
                    ),
            decreases n - i,
        {
            let (px, py) = points[i];
            if px < -crate::fixed::FP_LIMIT || px > crate::fixed::FP_LIMIT
                || py < -crate::fixed::FP_LIMIT || py > crate::fixed::FP_LIMIT {
                proof {
                    assert(!(fp_in_range(points@[i as int].0) && fp_in_range(points@[i as int].1)));
                }
                return Err(ConfigError::CurveValueOutOfRange);
            }
            proof {
                assert(fp_in_range(points@[i as int].0) && fp_in_range(points@[i as int].1));
            }
            i = i + 1;
        }
        let mut j: usize = 0;
        while j < n - 1
            invariant
                n == points@.len(),
                n >= 1,
                j <= n,
                forall|k: int| 0 <= k < points@.len() ==> fp_in_range((#[trigger] points@[k]).0)
                    && fp_in_range(points@[k].1),
                forall|k: int| 0 <= k < j ==> (#[trigger] points@[k]).0 < points@[k + 1].0,
            decreases n - j,
        {
            if points[j].0 >= points[j + 1].0 {
                return Err(ConfigError::CurveNotIncreasing);
            }
            j = j + 1;
        }
        Ok(Curve { points })
    }

    /// Samples the curve at `x`: linear interpolation between the bracketing
    /// control points, clamped to the end values beyond them.
    pub fn sample(&self, x: i64) -> (r: i64)
        requires
            self.wf(),
            fp_in_range(x),
        ensures
            r == self.spec_sample(x as int),
            fp_in_range(r),
    {
        let ps = &self.points;
        let ghost s = self.control_points();
        proof {
            lemma_sample_in_range(s, x as int);
        }
        let n = ps.len();
        if x <= ps[0].0 {
            return ps[0].1;
        }
        proof {
            assert(s.skip(0) =~= s);
        }
        let mut i: usize = 0;
        loop
            invariant
                self.wf(),
                s == self.control_points(),
                ps@ == s,
                n == s.len(),
                i < n,
                x >= s[i as int].0,
                x > s[0].0,
                sample_points(s, x as int) == sample_points(s.skip(i as int), x as int),
            ensures
                i < n,
                x >= s[i as int].0,
                sample_points(s, x as int) == sample_points(s.skip(i as int), x as int),
                i + 1 == n || x < s[i as int + 1].0,
            decreases n - i,
        {
            if i + 1 >= n {
                break ;
            }
            if x < ps[i + 1].0 {
                break ;
            }
            proof {
                let t = s.skip(i as int);
                assert(t[0] == s[i as int] && t[1] == s[i as int + 1]);
                assert(s[i as int].0 < s[i as int + 1].0);
                assert(t.drop_first() =~= s.skip(i as int + 1));
            }
            i = i + 1;
        }
        if i + 1 == n {
            proof {
                let t = s.skip(i as int);
                assert(t.len() == 1 && t[0] == s[i as int]);
            }
            return ps[i].1;
        }
        proof {
            let t = s.skip(i as int);
            assert(t[0] == s[i as int] && t[1] == s[i as int + 1]);
            assert(fp_in_range(s[i as int].0) && fp_in_range(s[i as int].1));
            assert(fp_in_range(s[i as int + 1].0) && fp_in_range(s[i as int + 1].1));
        }
        let (x0, y0) = ps[i];
        let (x1, y1) = ps[i + 1];
        proof {
            assert((x - x0) * (y1 - y0) <= 0x1000000000000000000000000000 && (x - x0) * (y1 - y0)
                >= -0x1000000000000000000000000000) by (nonlinear_arith)
                requires
                    0 <= x - x0 <= 0x40000000000000 && -0x40000000000000 <= y1 - y0
                        <= 0x40000000000000,
            ;
            lemma_lerp_bounds(x0 as int, y0 as int, x1 as int, y1 as int, x as int);
        }
        let num = (x as i128 - x0 as i128) * (y1 as i128 - y0 as i128);
        let den = x1 as i128 - x0 as i128;
        let q = div_fx(num, den);
        proof {
            if x == x0 {
                assert(num == 0) by (nonlinear_arith)
                    requires
                        num == (x as int - x0 as int) * (y1 as int - y0 as int),
                        x == x0,
                ;
                vstd::arithmetic::div_mod::lemma_div_of0(den as int);
            }
        }
        (y0 as i128 + q) as i64
    }
}

} // verus!
