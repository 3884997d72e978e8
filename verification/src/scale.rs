//! Transformations between domain and range.
//!
//! A `Scale` is a stateless affine mapping between a domain interval and a
//! range interval, both given in fixed-point milli-units.  Outputs are
//! clamped into the target interval, so out-of-domain inputs can never
//! escape the chart viewport.

use vstd::arithmetic::div_mod::{
    lemma_div_is_ordered, lemma_div_multiples_vanish, lemma_fundamental_div_mod,
    lemma_div_pos_is_pos,
};
use vstd::arithmetic::mul::lemma_mul_inequality;
use vstd::prelude::*;

verus! {

/// Every coordinate handled by a `Scale` must stay within this bound
/// (milli-units), so that all intermediate products fit in 128 bits.
pub const COORD_LIMIT: i64 = 0x4000_0000_0000_0000;

/// `v` is small enough to be used as a scale endpoint or input.
pub open spec fn in_coord_range(v: int) -> bool {
    -(COORD_LIMIT as int) <= v <= COORD_LIMIT as int
}

/// `v` clamped into the interval `[lo, hi]` (for `lo <= hi`).
pub open spec fn clamp(v: int, lo: int, hi: int) -> int {
    if v < lo {
        lo
    } else if v > hi {
        hi
    } else {
        v
    }
}

/// The affine map sending `[d0, d1]` onto `[r0, r1]`, applied to `x`:
/// the input is clamped into the domain, interpolated, and the result
/// stays inside `[r0, r1]`.  A degenerate domain maps everything to `r0`.
pub open spec fn linear_map(d0: int, d1: int, r0: int, r1: int, x: int) -> int {
    if d1 <= d0 {
        r0
    } else {
        r0 + (clamp(x, d0, d1) - d0) * (r1 - r0) / (d1 - d0)
    }
}

/// The unclamped affine image of `v` under the map sending `[d0, d1]`
/// onto `[r0, r1]`: out-of-domain inputs map to out-of-range outputs.
/// A degenerate domain maps everything to `r0`.
pub open spec fn affine_map(d0: int, d1: int, r0: int, r1: int, v: int) -> int {
    if d1 <= d0 {
        r0
    } else {
        r0 + (v - d0) * (r1 - r0) / (d1 - d0)
    }
}

/// The pixel nearest to a milli-unit value (halves round up).
pub open spec fn px_round(m: int) -> int {
    (m + 500) / 1000
}

/// Holds the mapping between the domain and the range of a chart axis.
/// Both intervals are ascending pairs of milli-unit values.
pub struct Scale {
    domain: (i64, i64),
    range: (i64, i64),
}

impl Scale {
    /// The scale with the given interval endpoints (milli-units), at
    /// the specification level.
    pub closed spec fn spec_new(d0: int, d1: int, r0: int, r1: int) -> Scale {
        Scale { domain: (d0 as i64, d1 as i64), range: (r0 as i64, r1 as i64) }
    }

    /// Left end of the domain interval.
    pub closed spec fn d0(self) -> int {
        self.domain.0 as int
    }

    /// Right end of the domain interval.
    pub closed spec fn d1(self) -> int {
        self.domain.1 as int
    }

    /// Left end of the range interval.
    pub closed spec fn r0(self) -> int {
        self.range.0 as int
    }

    /// Right end of the range interval.
    pub closed spec fn r1(self) -> int {
        self.range.1 as int
    }

    /// Both intervals are ascending and within the coordinate bound.
    pub open spec fn wf(self) -> bool {
        &&& in_coord_range(self.d0())
        &&& in_coord_range(self.d1())
        &&& in_coord_range(self.r0())
        &&& in_coord_range(self.r1())
        &&& self.d0() <= self.d1()
        &&& self.r0() <= self.r1()
    }

    pub fn new(domain: (i64, i64), range: (i64, i64)) -> (s: Scale)
        requires
            -COORD_LIMIT <= domain.0 <= domain.1 <= COORD_LIMIT,
            -COORD_LIMIT <= range.0 <= range.1 <= COORD_LIMIT,
        ensures
            s.wf(),
            s.d0() == domain.0 && s.d1() == domain.1,
            s.r0() == range.0 && s.r1() == range.1,
            s == Scale::spec_new(domain.0 as int, domain.1 as int, range.0 as int, range.1 as int),
    {
        Scale { domain, range }
    }

    /// Translates a value from domain to range scale, clamped into the
    /// range interval.
    pub fn linear(&self, x: i64) -> (r: i64)
        requires
            self.wf(),
        ensures
            r == linear_map(self.d0(), self.d1(), self.r0(), self.r1(), x as int),
            self.r0() <= r <= self.r1(),
    {
        let (d0, d1) = self.domain;
        let (r0, r1) = self.range;
        let xc = if x < d0 {
            d0
        } else if x > d1 {
            d1
        } else {
            x
        };
        if d1 <= d0 {
            return r0;
        }
        let a = (xc as i128) - (d0 as i128);
        let rr = (r1 as i128) - (r0 as i128);
        let dd = (d1 as i128) - (d0 as i128);
        proof {
            lemma_product_fits(a as int, rr as int);
        }
        let q = ((a as u128) * (rr as u128)) / (dd as u128);
        proof {
            lemma_quotient_within(a as int, rr as int, dd as int);
        }
        let qi = q as i128;
        let res = (r0 as i128) + qi;
        res as i64
    }

    /// Translates a value from range to domain scale, clamped into the
    /// domain interval.
    pub fn inv_linear(&self, i: i64) -> (r: i64)
        requires
            self.wf(),
        ensures
            r == linear_map(self.r0(), self.r1(), self.d0(), self.d1(), i as int),
            self.d0() <= r <= self.d1(),
    {
        let (d0, d1) = self.domain;
        let (r0, r1) = self.range;
        let ic = if i < r0 {
            r0
        } else if i > r1 {
            r1
        } else {
            i
        };
        if r1 <= r0 {
            return d0;
        }
        let a = (ic as i128) - (r0 as i128);
        let dd = (d1 as i128) - (d0 as i128);
        let rr = (r1 as i128) - (r0 as i128);
        proof {
            lemma_product_fits(a as int, dd as int);
        }
        let q = ((a as u128) * (dd as u128)) / (rr as u128);
        proof {
            lemma_quotient_within(a as int, dd as int, rr as int);
        }
        let qi = q as i128;
        let res = (d0 as i128) + qi;
        res as i64
    }

    /// Maps `v` to its nearest pixel without clamping: the result is the
    /// rounded affine image, or `None` when that pixel falls outside
    /// `[0, limit]`.
    pub fn affine_px(&self, v: i64, limit: u32) -> (r: Option<u32>)
        requires
            self.wf(),
            in_coord_range(v as int),
        ensures
            ({
                let p = px_round(affine_map(self.d0(), self.d1(), self.r0(), self.r1(), v as int));
                match r {
                    Some(u) => 0 <= p <= limit && u == p,
                    None => !(0 <= p <= limit),
                }
            }),
    {
        let (d0, d1) = self.domain;
        let (r0, r1) = self.range;
        let raw: i128 = if d1 <= d0 {
            r0 as i128
        } else {
            let diff = (v as i128) - (d0 as i128);
            let rr = (r1 as i128) - (r0 as i128);
            let dd = (d1 as i128) - (d0 as i128);
            proof {
                lemma_product_abs_fits(diff as int, rr as int);
            }
            let q = floor_div_i128(diff * rr, dd);
            (r0 as i128) + q
        };
        let p = floor_div_i128(raw + 500, 1000);
        if p >= 0 && p <= limit as i128 {
            Some(p as u32)
        } else {
            None
        }
    }
}

/// Numerators handed to `floor_div_i128` stay within this bound, with
/// room to spare above the products bounded by `lemma_product_abs_fits`.
pub(crate) const FD_BOUND: i128 = 0x5000_0000_0000_0000_0000_0000_0000_0000;

/// Floor division of `n` by a positive divisor `d`, matching the
/// mathematical division on `int`.
pub(crate) fn floor_div_i128(n: i128, d: i128) -> (q: i128)
    requires
        0 < d <= 0x8000_0000_0000_0000,
        -FD_BOUND <= n <= FD_BOUND,
    ensures
        q == n as int / d as int,
        n >= 0 ==> 0 <= q <= n,
        n < 0 ==> n <= q <= 0,
{
    if n >= 0 {
        let qu = (n as u128) / (d as u128);
        proof {
            vstd::arithmetic::div_mod::lemma_div_nonincreasing(n as int, d as int);
            lemma_div_pos_is_pos(n as int, d as int);
        }
        qu as i128
    } else {
        let m = (-n) as u128;
        let dm = d as u128;
        let qq = (m + (dm - 1)) / dm;
        proof {
            lemma_floor_div_negative(m as int, d as int);
            lemma_ceil_div_le(m as int, d as int);
        }
        -(qq as i128)
    }
}

/// For `m >= 1` and `d >= 1`, the ceiling quotient `(m + d - 1) / d` is
/// at most `m`.
proof fn lemma_ceil_div_le(m: int, d: int)
    requires
        1 <= m,
        1 <= d,
    ensures
        0 <= (m + d - 1) / d <= m,
{
    assert(m + d - 1 <= m * d) by (nonlinear_arith)
        requires
            1 <= m,
            1 <= d,
    ;
    lemma_div_is_ordered(m + d - 1, m * d, d);
    lemma_div_multiples_vanish(m, d);
    assert(m * d == d * m) by (nonlinear_arith);
    lemma_div_pos_is_pos(m + d - 1, d);
}

/// For `m > 0` and `d > 0`: `(-m) / d == -((m + d - 1) / d)`, i.e. the
/// floor of a negative quotient is minus the ceiling of its absolute
/// value.
proof fn lemma_floor_div_negative(m: int, d: int)
    requires
        0 < m,
        0 < d,
    ensures
        (-m) / d == -((m + d - 1) / d),
{
    let qq = (m + d - 1) / d;
    let rr = (m + d - 1) % d;
    lemma_fundamental_div_mod(m + d - 1, d);
    lemma_mod_bound(m + d - 1, d);
    assert(-m == (-qq) * d + (d - 1 - rr)) by (nonlinear_arith)
        requires
            m + d - 1 == d * qq + rr,
    ;
    vstd::arithmetic::div_mod::lemma_fundamental_div_mod_converse(
        -m,
        d,
        -qq,
        d - 1 - rr,
    );
}

/// The absolute value of a product of a coordinate difference and an
/// interval width stays below `2^126`.
pub(crate) proof fn lemma_product_abs_fits(a: int, b: int)
    requires
        -2 * (COORD_LIMIT as int) <= a <= 2 * (COORD_LIMIT as int),
        0 <= b <= 2 * (COORD_LIMIT as int),
    ensures
        -0x4000_0000_0000_0000_0000_0000_0000_0000 <= a * b
            <= 0x4000_0000_0000_0000_0000_0000_0000_0000,
{
    assert(-0x4000_0000_0000_0000_0000_0000_0000_0000 <= a * b
        <= 0x4000_0000_0000_0000_0000_0000_0000_0000) by (nonlinear_arith)
        requires
            -2 * (COORD_LIMIT as int) <= a <= 2 * (COORD_LIMIT as int),
            0 <= b <= 2 * (COORD_LIMIT as int),
    ;
}

/// The pixel nearest to a nonnegative milli-unit value.
pub fn px_of_milli(m: i64) -> (p: u32)
    requires
        0 <= m <= 1_000_000_000_000,
    ensures
        p == px_round(m as int),
{
    (((m as u64) + 500) / 1000) as u32
}

/// Products of two interval widths stay below `2^126`, so they fit in
/// an unsigned 128-bit word.
proof fn lemma_product_fits(a: int, b: int)
    requires
        0 <= a <= 2 * (COORD_LIMIT as int),
        0 <= b <= 2 * (COORD_LIMIT as int),
    ensures
        a * b <= 0x4000_0000_0000_0000_0000_0000_0000_0000,
{
    lemma_mul_inequality(a, 2 * (COORD_LIMIT as int), b);
    lemma_mul_inequality(b, 2 * (COORD_LIMIT as int), 2 * (COORD_LIMIT as int));
    assert(a * b <= 2 * (COORD_LIMIT as int) * b ==> a * b
        <= 0x4000_0000_0000_0000_0000_0000_0000_0000) by (nonlinear_arith)
        requires
            b <= 2 * (COORD_LIMIT as int),
    ;
}

/// For `0 <= a <= dd` and `0 <= rr`, the interpolation quotient
/// `a * rr / dd` lies in `[0, rr]`.
pub(crate) proof fn lemma_quotient_within(a: int, rr: int, dd: int)
    requires
        0 <= a <= dd,
        0 < dd,
        0 <= rr,
    ensures
        0 <= a * rr / dd <= rr,
{
    lemma_mul_inequality(a, dd, rr);
    lemma_div_is_ordered(a * rr, dd * rr, dd);
    lemma_div_multiples_vanish(rr, dd);
    assert(dd * rr == rr * dd) by (nonlinear_arith);
    lemma_div_pos_is_pos(a * rr, dd);
    assert(a * rr >= 0) by (nonlinear_arith)
        requires
            0 <= a,
            0 <= rr,
    ;
}

/// The two directions of a `Scale` are mutual inverses up to the
/// resolution of the range: mapping an in-domain value to the range and
/// back moves it down by at most one range step, `(d1 - d0) / (r1 - r0)`,
/// plus one.
pub proof fn lemma_linear_round_trip(s: Scale, x: int)
    requires
        s.wf(),
        s.d0() < s.d1(),
        s.r0() < s.r1(),
        s.d0() <= x <= s.d1(),
    ensures
        ({
            let y = linear_map(s.d0(), s.d1(), s.r0(), s.r1(), x);
            let z = linear_map(s.r0(), s.r1(), s.d0(), s.d1(), y);
            x - (s.d1() - s.d0()) / (s.r1() - s.r0()) - 1 <= z <= x
        }),
{
    let d0 = s.d0();
    let dd = s.d1() - s.d0();
    let r0 = s.r0();
    let rr = s.r1() - s.r0();
    let a = x - d0;
    let q = a * rr / dd;
    lemma_quotient_within(a, rr, dd);
    let y = linear_map(s.d0(), s.d1(), s.r0(), s.r1(), x);
    assert(clamp(x, s.d0(), s.d1()) == x);
    assert(y == r0 + q);
    assert(clamp(y, s.r0(), s.r1()) == y);
    let p = q * dd / rr;
    lemma_quotient_within(q, dd, rr);
    let z = linear_map(s.r0(), s.r1(), s.d0(), s.d1(), y);
    assert(z == d0 + p);

    // p <= a: from q * dd <= a * rr and division by rr.
    lemma_fundamental_div_mod(a * rr, dd);
    lemma_mod_bound(a * rr, dd);
    assert(q * dd <= a * rr) by (nonlinear_arith)
        requires
            a * rr == dd * (a * rr / dd) + (a * rr) % dd,
            q == a * rr / dd,
            (a * rr) % dd >= 0,
    ;
    lemma_div_is_ordered(q * dd, a * rr, rr);
    lemma_div_multiples_vanish(a, rr);
    assert(a * rr == rr * a) by (nonlinear_arith);
    assert(p <= a);

    // a - p <= dd / rr + 1: combine the two division remainders.
    lemma_fundamental_div_mod(q * dd, rr);
    lemma_mod_bound(q * dd, rr);
    assert(a * rr <= q * dd + dd - 1) by (nonlinear_arith)
        requires
            a * rr == dd * (a * rr / dd) + (a * rr) % dd,
            q == a * rr / dd,
            (a * rr) % dd < dd,
    ;
    assert(q * dd <= p * rr + rr - 1) by (nonlinear_arith)
        requires
            q * dd == rr * (q * dd / rr) + (q * dd) % rr,
            p == q * dd / rr,
            (q * dd) % rr < rr,
    ;
    let c = a - p;
    assert(c * rr <= rr + dd - 2) by (nonlinear_arith)
        requires
            c == a - p,
            a * rr <= p * rr + rr - 1 + dd - 1,
    ;
    lemma_div_is_ordered(c * rr, rr + dd - 2, rr);
    lemma_div_multiples_vanish(c, rr);
    assert(c * rr == rr * c) by (nonlinear_arith);
    lemma_div_is_ordered(rr + dd - 2, rr + dd, rr);
    lemma_div_plus_whole(dd, rr);
    assert(c <= dd / rr + 1);
}

/// `(d + r) / r == d / r + 1` for positive `r` and nonnegative `d`.
proof fn lemma_div_plus_whole(d: int, r: int)
    requires
        0 <= d,
        0 < r,
    ensures
        (r + d) / r == d / r + 1,
{
    lemma_fundamental_div_mod(d, r);
    lemma_mod_bound(d, r);
    assert((d / r + 1) * r + d % r == r + d) by (nonlinear_arith)
        requires
            d == r * (d / r) + d % r,
    ;
    vstd::arithmetic::div_mod::lemma_fundamental_div_mod_converse(
        r + d,
        r,
        d / r + 1,
        d % r,
    );
}

/// The remainder of a division by a positive divisor lies in `[0, dd)`.
proof fn lemma_mod_bound(x: int, dd: int)
    requires
        0 < dd,
    ensures
        0 <= x % dd < dd,
{
}

} // verus!
