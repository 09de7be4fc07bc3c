//! Deterministic signed fixed-point arithmetic.
//!
//! All gameplay numerics use `FixedPoint`: a 64-bit signed value with 12
//! binary fraction bits (integer range about two billion, resolution
//! 1/4096).  Every operation is defined purely over the raw integer
//! representation, so results are bit-for-bit reproducible on every
//! machine.  The canonical byte form is 8 bytes, big endian, and is used
//! both for hashing and for the wire encoding.

use vstd::bytes::{
    lemma_auto_spec_u64_to_from_le_bytes, spec_u64_from_le_bytes, spec_u64_to_le_bytes,
    u64_from_le_bytes, u64_to_le_bytes,
};
use vstd::prelude::*;

verus! {

/// Number of binary fraction bits.
pub const FRACTION_BITS: u64 = 12;

/// One, expressed in raw representation units: 2^12.
pub const FIXED_POINT_SCALE: i64 = 4096;

/// A signed fixed-point number: `raw` counts units of 1/4096.
#[derive(Clone, Copy, PartialEq, Eq, Structural, Debug)]
pub struct FixedPoint {
    pub raw: i64,
}

/// The unsigned 64-bit pattern that stands for raw value `r`
/// (two's complement).
pub open spec fn u64_of_raw(r: int) -> u64
    recommends
        i64::MIN <= r <= i64::MAX,
{
    if r >= 0 {
        r as u64
    } else {
        (r + 0x1_0000_0000_0000_0000) as u64
    }
}

/// The raw value that a 64-bit pattern stands for (two's complement).
pub open spec fn raw_of_u64(u: u64) -> int {
    if u < 0x8000_0000_0000_0000 {
        u as int
    } else {
        u - 0x1_0000_0000_0000_0000
    }
}

/// Big-endian byte form of a 64-bit value.
pub open spec fn spec_u64_to_be_bytes(x: u64) -> Seq<u8> {
    spec_u64_to_le_bytes(x).reverse()
}

/// The 64-bit value read from 8 big-endian bytes.
pub open spec fn spec_u64_from_be_bytes(s: Seq<u8>) -> u64
    recommends
        s.len() == 8,
{
    spec_u64_from_le_bytes(s.reverse())
}

/// The two's-complement patterns and raw values are inverse to each other.
pub proof fn lemma_raw_u64_round_trip()
    ensures
        forall|r: int|
            i64::MIN <= r <= i64::MAX ==> #[trigger] raw_of_u64(u64_of_raw(r)) == r,
        forall|u: u64| u64_of_raw(#[trigger] raw_of_u64(u)) == u,
{
}

/// Big-endian conversions are inverse to each other.
pub proof fn lemma_u64_be_bytes_round_trip()
    ensures
        forall|x: u64|
            {
                &&& (#[trigger] spec_u64_to_be_bytes(x)).len() == 8
                &&& spec_u64_from_be_bytes(spec_u64_to_be_bytes(x)) == x
            },
        forall|s: Seq<u8>|
            s.len() == 8 ==> spec_u64_to_be_bytes(#[trigger] spec_u64_from_be_bytes(s)) == s,
{
    lemma_auto_spec_u64_to_from_le_bytes();
    assert forall|x: u64|
        {
            &&& (#[trigger] spec_u64_to_be_bytes(x)).len() == 8
            &&& spec_u64_from_be_bytes(spec_u64_to_be_bytes(x)) == x
        } by {
        let le = spec_u64_to_le_bytes(x);
        assert(le.reverse().reverse() =~= le);
    }
    assert forall|s: Seq<u8>| s.len() == 8 implies spec_u64_to_be_bytes(
        #[trigger] spec_u64_from_be_bytes(s),
    ) == s by {
        let r = s.reverse();
        assert(r.len() == 8);
        assert(spec_u64_to_le_bytes(spec_u64_from_le_bytes(r)) == r);
        assert(r.reverse() =~= s);
    }
}

impl FixedPoint {
    /// The raw representation, in units of 1/4096.
    pub open spec fn spec_raw(self) -> int {
        self.raw as int
    }

    /// Wraps a raw representation value.
    pub fn from_raw(raw: i64) -> (r: FixedPoint)
        ensures
            r.raw == raw,
    {
        FixedPoint { raw }
    }

    /// The fixed-point value for a whole number.
    pub fn from_int(v: i64) -> (r: FixedPoint)
        requires
            -0x8_0000_0000_0000 <= v < 0x8_0000_0000_0000,
        ensures
            r.raw == v * FIXED_POINT_SCALE,
    {
        FixedPoint { raw: v * FIXED_POINT_SCALE }
    }

    /// Exact sum; overflow is a bug, so the bound is a precondition.
    pub fn add(self, rhs: FixedPoint) -> (r: FixedPoint)
        requires
            i64::MIN <= self.raw + rhs.raw <= i64::MAX,
        ensures
            r.raw == self.raw + rhs.raw,
    {
        FixedPoint { raw: self.raw + rhs.raw }
    }

    /// Exact difference; overflow is a bug, so the bound is a precondition.
    pub fn sub(self, rhs: FixedPoint) -> (r: FixedPoint)
        requires
            i64::MIN <= self.raw - rhs.raw <= i64::MAX,
        ensures
            r.raw == self.raw - rhs.raw,
    {
        FixedPoint { raw: self.raw - rhs.raw }
    }

    /// Sum, or `None` when the result would not fit.
    pub fn checked_add(self, rhs: FixedPoint) -> (r: Option<FixedPoint>)
        ensures
            r is Some <==> i64::MIN <= self.raw + rhs.raw <= i64::MAX,
            r matches Some(f) ==> f.raw == self.raw + rhs.raw,
    {
        match self.raw.checked_add(rhs.raw) {
            Some(raw) => Some(FixedPoint { raw }),
            None => None,
        }
    }

    /// Difference, or `None` when the result would not fit.
    pub fn checked_sub(self, rhs: FixedPoint) -> (r: Option<FixedPoint>)
        ensures
            r is Some <==> i64::MIN <= self.raw - rhs.raw <= i64::MAX,
            r matches Some(f) ==> f.raw == self.raw - rhs.raw,
    {
        match self.raw.checked_sub(rhs.raw) {
            Some(raw) => Some(FixedPoint { raw }),
            None => None,
        }
    }

    /// Product, or `None` when the result would not fit.
    ///
    /// The product of two values carries twice the fraction bits, so the
    /// raw result is the mathematical product of the raw representations
    /// scaled back down by 2^12, rounded toward negative infinity (the
    /// quotient below is the flooring division of the `int` type).
    pub fn checked_mul(self, rhs: FixedPoint) -> (r: Option<FixedPoint>)
        ensures
            r is Some <==> i64::MIN <= mul_raw(self.raw as int, rhs.raw as int) <= i64::MAX,
            r matches Some(f) ==> f.raw == mul_raw(self.raw as int, rhs.raw as int),
    {
        let negative: bool = (self.raw < 0) != (rhs.raw < 0);
        let ua: u128 = magnitude_u128(self.raw);
        let ub: u128 = magnitude_u128(rhs.raw);
        proof {
            lemma_magnitude_product(self.raw as int, rhs.raw as int, ua, ub, negative);
        }
        let prod: u128 = ua * ub;
        let q: u128 = prod / 4096;
        let rem: u128 = prod % 4096;
        if !negative {
            proof {
                lemma_floor_div_nonneg(prod as int, q as int, rem as int);
            }
            if q <= 0x7fff_ffff_ffff_ffff {
                Some(FixedPoint { raw: q as i64 })
            } else {
                None
            }
        } else {
            let mag: u128 = if rem == 0 {
                q
            } else {
                q + 1
            };
            proof {
                lemma_floor_div_neg(prod as int, q as int, rem as int, mag as int);
            }
            if mag <= 0x8000_0000_0000_0000 {
                Some(FixedPoint { raw: (-(mag as i128)) as i64 })
            } else {
                None
            }
        }
    }

    /// Product; overflow is a bug, so the bound is a precondition.
    pub fn mul(self, rhs: FixedPoint) -> (r: FixedPoint)
        requires
            i64::MIN <= mul_raw(self.raw as int, rhs.raw as int) <= i64::MAX,
        ensures
            r.raw == mul_raw(self.raw as int, rhs.raw as int),
    {
        self.checked_mul(rhs).unwrap()
    }

    /// Quotient, or `None` when the divisor is zero or the result would
    /// not fit.
    ///
    /// Division first scales the dividend up by 2^12 and then divides the
    /// raw representations, truncating toward zero.
    pub fn checked_div(self, rhs: FixedPoint) -> (r: Option<FixedPoint>)
        ensures
            r is Some <==> rhs.raw != 0 && i64::MIN <= div_raw(self.raw as int, rhs.raw as int)
                <= i64::MAX,
            r matches Some(f) ==> f.raw == div_raw(self.raw as int, rhs.raw as int),
    {
        if rhs.raw == 0 {
            return None;
        }
        let negative: bool = (self.raw < 0) != (rhs.raw < 0);
        let ua: u128 = magnitude_u128(self.raw) * 4096;
        let ub: u128 = magnitude_u128(rhs.raw);
        let q: u128 = ua / ub;
        proof {
            lemma_trunc_div(self.raw as int, rhs.raw as int, ua, ub, q as int, negative);
        }
        if !negative {
            if q <= 0x7fff_ffff_ffff_ffff {
                Some(FixedPoint { raw: q as i64 })
            } else {
                None
            }
        } else {
            if q <= 0x8000_0000_0000_0000 {
                Some(FixedPoint { raw: (-(q as i128)) as i64 })
            } else {
                None
            }
        }
    }

    /// Quotient; a zero divisor or overflow is a bug, so both are ruled
    /// out by preconditions.
    pub fn div(self, rhs: FixedPoint) -> (r: FixedPoint)
        requires
            rhs.raw != 0,
            i64::MIN <= div_raw(self.raw as int, rhs.raw as int) <= i64::MAX,
        ensures
            r.raw == div_raw(self.raw as int, rhs.raw as int),
    {
        self.checked_div(rhs).unwrap()
    }

    /// The canonical 8-byte big-endian form.
    pub fn to_be_bytes(self) -> (r: Vec<u8>)
        ensures
            r@ == spec_u64_to_be_bytes(u64_of_raw(self.raw as int)),
            r@.len() == 8,
    {
        let u: u64 = u64_of_raw_exec(self.raw);
        u64_to_be_bytes(u)
    }

    /// Reads a value back from its canonical 8-byte big-endian form.
    pub fn from_be_bytes(bytes: &[u8]) -> (r: FixedPoint)
        requires
            bytes@.len() == 8,
        ensures
            r.raw == raw_of_u64(spec_u64_from_be_bytes(bytes@)),
    {
        let u: u64 = u64_from_be_bytes(bytes);
        FixedPoint { raw: raw_of_u64_exec(u) }
    }
}

/// The raw representation of a fixed-point product, before the range
/// check: the integer product scaled down by 2^12, rounded toward
/// negative infinity.
pub open spec fn mul_raw(a: int, b: int) -> int {
    (a * b) / (FIXED_POINT_SCALE as int)
}

/// Truncated (toward zero) integer division of `x` by nonzero `y`.
pub open spec fn trunc_div(x: int, y: int) -> int
    recommends
        y != 0,
{
    if (x >= 0) == (y >= 0) {
        abs_int(x) / abs_int(y)
    } else {
        -(abs_int(x) / abs_int(y))
    }
}

/// The raw representation of a fixed-point quotient, before the range
/// check: the dividend scaled up by 2^12, divided by the divisor,
/// truncated toward zero.
pub open spec fn div_raw(a: int, b: int) -> int
    recommends
        b != 0,
{
    trunc_div(a * (FIXED_POINT_SCALE as int), b)
}

/// Absolute value of an integer.
pub open spec fn abs_int(x: int) -> int {
    if x >= 0 {
        x
    } else {
        -x
    }
}

/// The magnitude of a signed 64-bit value, widened so that even
/// `i64::MIN` is representable.
fn magnitude_u128(x: i64) -> (r: u128)
    ensures
        r == abs_int(x as int),
{
    if x >= 0 {
        x as u128
    } else {
        (-(x as i128)) as u128
    }
}

proof fn lemma_magnitude_product(a: int, b: int, ua: u128, ub: u128, negative: bool)
    requires
        ua == abs_int(a),
        ub == abs_int(b),
        i64::MIN <= a <= i64::MAX,
        i64::MIN <= b <= i64::MAX,
        negative == ((a < 0) != (b < 0)),
    ensures
        ua * ub <= 0x4000_0000_0000_0000_0000_0000_0000_0000,
        !negative ==> a * b == ua * ub,
        negative ==> a * b == -((ua * ub) as int),
{
    assert(ua * ub <= 0x8000_0000_0000_0000u128 * 0x8000_0000_0000_0000u128) by (nonlinear_arith)
        requires
            ua <= 0x8000_0000_0000_0000u128,
            ub <= 0x8000_0000_0000_0000u128,
    ;
    vstd::arithmetic::mul::lemma_mul_unary_negation(a, b);
    vstd::arithmetic::mul::lemma_mul_unary_negation(-a, b);
    vstd::arithmetic::mul::lemma_mul_unary_negation(a, -b);
    if a >= 0 && b >= 0 {
        assert(a * b == ua * ub);
    } else if a < 0 && b < 0 {
        assert(a * b == (-a) * (-b));
        assert(a * b == ua * ub);
    } else if a < 0 {
        assert(a * b == -((-a) * b));
        assert(a * b == -((ua * ub) as int));
    } else {
        assert(a * b == -(a * (-b)));
        assert(a * b == -((ua * ub) as int));
    }
}

proof fn lemma_floor_div_nonneg(prod: int, q: int, rem: int)
    requires
        prod >= 0,
        q == prod / 4096,
        rem == prod % 4096,
    ensures
        prod / (FIXED_POINT_SCALE as int) == q,
{
}

proof fn lemma_floor_div_neg(prod: int, q: int, rem: int, mag: int)
    requires
        prod >= 0,
        q == prod / 4096,
        rem == prod % 4096,
        mag == if rem == 0 { q } else { q + 1 },
    ensures
        (-prod) / (FIXED_POINT_SCALE as int) == -mag,
{
    vstd::arithmetic::div_mod::lemma_fundamental_div_mod(prod, 4096);
    if rem == 0 {
        assert((-prod) == 4096 * (-q) + 0) by (nonlinear_arith)
            requires
                prod == 4096 * q + rem,
                rem == 0,
        ;
        vstd::arithmetic::div_mod::lemma_fundamental_div_mod_converse(-prod, 4096, -q, 0);
    } else {
        assert((-prod) == 4096 * (-(q + 1)) + (4096 - rem)) by (nonlinear_arith)
            requires
                prod == 4096 * q + rem,
        ;
        vstd::arithmetic::div_mod::lemma_fundamental_div_mod_converse(
            -prod,
            4096,
            -(q + 1),
            4096 - rem,
        );
    }
}

proof fn lemma_trunc_div(a: int, b: int, ua: u128, ub: u128, q: int, negative: bool)
    requires
        b != 0,
        i64::MIN <= a <= i64::MAX,
        i64::MIN <= b <= i64::MAX,
        ua == abs_int(a) * 4096,
        ub == abs_int(b),
        q == ua as int / ub as int,
        negative == ((a < 0) != (b < 0)),
    ensures
        !negative ==> div_raw(a, b) == q,
        negative ==> div_raw(a, b) == -q,
{
    assert(abs_int(a * 4096) == abs_int(a) * 4096) by (nonlinear_arith);
    assert((a * 4096 >= 0) == (a >= 0)) by (nonlinear_arith)
        requires
            i64::MIN <= a <= i64::MAX,
    ;
}

/// Executable form of `u64_of_raw`.
pub fn u64_of_raw_exec(raw: i64) -> (u: u64)
    ensures
        u == u64_of_raw(raw as int),
{
    if raw >= 0 {
        raw as u64
    } else {
        ((raw as i128) + 0x1_0000_0000_0000_0000i128) as u64
    }
}

/// Executable form of `raw_of_u64`.
pub fn raw_of_u64_exec(u: u64) -> (raw: i64)
    ensures
        raw as int == raw_of_u64(u),
{
    if u < 0x8000_0000_0000_0000 {
        u as i64
    } else {
        ((u as i128) - 0x1_0000_0000_0000_0000i128) as i64
    }
}

/// Writes a 64-bit value as 8 big-endian bytes.
pub fn u64_to_be_bytes(x: u64) -> (r: Vec<u8>)
    ensures
        r@ == spec_u64_to_be_bytes(x),
        r@.len() == 8,
{
    let le: Vec<u8> = u64_to_le_bytes(x);
    let mut r: Vec<u8> = Vec::new();
    r.push(le[7]);
    r.push(le[6]);
    r.push(le[5]);
    r.push(le[4]);
    r.push(le[3]);
    r.push(le[2]);
    r.push(le[1]);
    r.push(le[0]);
    proof {
        assert(r@ =~= spec_u64_to_le_bytes(x).reverse());
    }
    r
}

/// Reads a 64-bit value from 8 big-endian bytes.
pub fn u64_from_be_bytes(bytes: &[u8]) -> (x: u64)
    requires
        bytes@.len() == 8,
    ensures
        x == spec_u64_from_be_bytes(bytes@),
{
    let mut le: Vec<u8> = Vec::new();
    le.push(bytes[7]);
    le.push(bytes[6]);
    le.push(bytes[5]);
    le.push(bytes[4]);
    le.push(bytes[3]);
    le.push(bytes[2]);
    le.push(bytes[1]);
    le.push(bytes[0]);
    proof {
        assert(le@ =~= bytes@.reverse());
    }
    u64_from_le_bytes(le.as_slice())
}

} // verus!
