//! Saturating fixed-point numbers: an `i64` raw value standing for
//! `raw / SCALE`. All operations saturate at the `i64` range instead of
//! overflowing, and products and quotients round toward negative infinity.

use vstd::prelude::*;

verus! {

/// Raw units per 1.0: nine fractional decimal digits.
pub const SCALE: i64 = 1_000_000_000;

/// Does `v` fit in the `i64` range?
pub open spec fn in_i64(v: int) -> bool {
    i64::MIN <= v <= i64::MAX
}

/// Saturate an unbounded integer into the `i64` range.
pub open spec fn clamp64(v: int) -> int {
    if v > i64::MAX {
        i64::MAX as int
    } else if v < i64::MIN {
        i64::MIN as int
    } else {
        v
    }
}

/// Raw value of a saturating fixed-point sum.
pub open spec fn fx_add(a: int, b: int) -> int {
    clamp64(a + b)
}

/// Raw value of a saturating fixed-point difference.
pub open spec fn fx_sub(a: int, b: int) -> int {
    clamp64(a - b)
}

/// Raw value of a saturating fixed-point product: `(a * b) / SCALE`,
/// rounded toward negative infinity.
pub open spec fn fx_mul(a: int, b: int) -> int {
    clamp64((a * b) / (SCALE as int))
}

/// Raw value of a saturating fixed-point quotient by a positive divisor:
/// `(a * SCALE) / b`, rounded toward negative infinity.
pub open spec fn fx_div(a: int, b: int) -> int {
    clamp64((a * (SCALE as int)) / b)
}

/// Raw value of the whole number `v`.
pub open spec fn fx_from_units(v: int) -> int {
    clamp64(v * (SCALE as int))
}

/// A fixed-point number; its mathematical value is `raw / SCALE`.
#[derive(Clone, Copy, PartialEq, Eq, Structural, Debug)]
pub struct Fixed {
    raw: i64,
}

impl View for Fixed {
    type V = int;

    closed spec fn view(&self) -> int {
        self.raw as int
    }
}

/// Quotients by a divisor of at least 1 stay between 0 and the dividend.
proof fn lemma_div_stays_in_range(p: int, s: int)
    requires
        s >= 1,
    ensures
        p >= 0 ==> 0 <= p / s <= p,
        p < 0 ==> p <= p / s <= 0,
{
    vstd::arithmetic::div_mod::lemma_fundamental_div_mod(p, s);
    assert((p >= 0 ==> 0 <= p / s <= p) && (p < 0 ==> p <= p / s <= 0)) by (nonlinear_arith)
        requires
            s >= 1,
            p == s * (p / s) + (p % s),
            0 <= p % s < s,
    {
    }
}

/// Saturate an `i128` intermediate into the `i64` range.
fn clamp_i128(v: i128) -> (r: i64)
    ensures
        r as int == clamp64(v as int),
{
    if v > i64::MAX as i128 {
        i64::MAX
    } else if v < i64::MIN as i128 {
        i64::MIN
    } else {
        v as i64
    }
}

impl Fixed {
    /// The number with the given raw value (`raw / SCALE`).
    pub fn from_raw(raw: i64) -> (f: Fixed)
        ensures
            f@ == raw as int,
    {
        Fixed { raw }
    }

    /// The raw value.
    pub fn raw(&self) -> (r: i64)
        ensures
            r as int == self@,
    {
        self.raw
    }

    /// Zero.
    pub fn zero() -> (f: Fixed)
        ensures
            f@ == 0,
    {
        Fixed { raw: 0 }
    }

    /// The whole number `v`, saturating.
    pub fn from_units(v: i64) -> (f: Fixed)
        ensures
            f@ == fx_from_units(v as int),
    {
        proof {
            assert(i128::MIN <= v as int * (SCALE as int) <= i128::MAX) by (nonlinear_arith)
                requires
                    i64::MIN <= v as int <= i64::MAX,
            {
            }
        }
        let p: i128 = (v as i128) * (SCALE as i128);
        Fixed { raw: clamp_i128(p) }
    }

    /// The whole number `n`, saturating.
    pub fn from_units_usize(n: usize) -> (f: Fixed)
        ensures
            f@ == fx_from_units(n as int),
    {
        proof {
            assert(i128::MIN <= n as int * (SCALE as int) <= i128::MAX) by (nonlinear_arith)
                requires
                    0 <= n as int <= u64::MAX,
            {
            }
        }
        let p: i128 = (n as i128) * (SCALE as i128);
        Fixed { raw: clamp_i128(p) }
    }

    /// Saturating sum.
    pub fn add(self, other: Fixed) -> (r: Fixed)
        ensures
            r@ == fx_add(self@, other@),
    {
        let s: i128 = (self.raw as i128) + (other.raw as i128);
        Fixed { raw: clamp_i128(s) }
    }

    /// Saturating difference.
    pub fn sub(self, other: Fixed) -> (r: Fixed)
        ensures
            r@ == fx_sub(self@, other@),
    {
        let s: i128 = (self.raw as i128) - (other.raw as i128);
        Fixed { raw: clamp_i128(s) }
    }

    /// Saturating product, rounded toward negative infinity.
    pub fn mul(self, other: Fixed) -> (r: Fixed)
        ensures
            r@ == fx_mul(self@, other@),
    {
        let a: i128 = self.raw as i128;
        let b: i128 = other.raw as i128;
        proof {
            assert(i128::MIN <= a as int * b as int <= i128::MAX) by (nonlinear_arith)
                requires
                    i64::MIN <= a as int <= i64::MAX,
                    i64::MIN <= b as int <= i64::MAX,
            {
            }
        }
        let p: i128 = a * b;
        proof {
            lemma_div_stays_in_range(p as int, SCALE as int);
        }
        let q: i128 = p.checked_div_euclid(SCALE as i128).unwrap();
        Fixed { raw: clamp_i128(q) }
    }

    /// Saturating quotient by a positive divisor, rounded toward negative
    /// infinity.
    pub fn div(self, other: Fixed) -> (r: Fixed)
        requires
            other@ > 0,
        ensures
            r@ == fx_div(self@, other@),
    {
        let a: i128 = self.raw as i128;
        let b: i128 = other.raw as i128;
        proof {
            assert(i128::MIN <= a as int * (SCALE as int) <= i128::MAX) by (nonlinear_arith)
                requires
                    i64::MIN <= a as int <= i64::MAX,
            {
            }
        }
        let p: i128 = a * (SCALE as i128);
        proof {
            lemma_div_stays_in_range(p as int, b as int);
        }
        let q: i128 = p.checked_div_euclid(b).unwrap();
        Fixed { raw: clamp_i128(q) }
    }
}

} // verus!
