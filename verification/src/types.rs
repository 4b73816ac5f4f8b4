//! Value types: numbers held by their bit pattern, ranges, non-empty lists,
//! scopes and elapsed time.
//!
//! A double-precision number is held as the 64 bits of its IEEE-754
//! encoding: one sign bit, eleven exponent bits, fifty-two fraction bits.
//! Finiteness, sign and order are all decided on those bits.

use vstd::prelude::*;
use vstd::arithmetic::power2::{
    lemma2_to64, lemma2_to64_rest, lemma_pow2_adds, lemma_pow2_pos, lemma_pow2_strictly_increases,
    lemma_pow2_unfold, pow2,
};
use crate::error::Error;
use crate::text::str_eq;

verus! {

/// The sign bit of an encoded number.
pub const SIGN_BIT: u64 = 0x8000_0000_0000_0000;

/// The smallest magnitude whose exponent bits are all ones: infinity.
/// Every larger magnitude encodes "not a number".
pub const INFINITY_BITS: u64 = 0x7ff0_0000_0000_0000;

/// Whether the encoded number carries a minus sign.
pub open spec fn is_negative(bits: u64) -> bool {
    bits >= SIGN_BIT
}

/// The encoding with its sign bit cleared.
pub open spec fn magnitude(bits: u64) -> u64 {
    if bits >= SIGN_BIT {
        (bits - SIGN_BIT) as u64
    } else {
        bits
    }
}

/// Whether the bits encode a finite number.
pub open spec fn is_finite(bits: u64) -> bool {
    magnitude(bits) < INFINITY_BITS
}

/// An integer that orders finite numbers as their values do: for finite
/// `a` and `b`, `a < b` as numbers exactly when `order_key(a) <
/// order_key(b)`, and the two zeros share the key 0. See
/// `lemma_order_key`.
pub open spec fn order_key(bits: u64) -> int {
    if is_negative(bits) {
        -(magnitude(bits) as int)
    } else {
        magnitude(bits) as int
    }
}

fn magnitude_of(bits: u64) -> (r: u64)
    ensures
        r == magnitude(bits),
{
    if bits >= SIGN_BIT {
        bits - SIGN_BIT
    } else {
        bits
    }
}

/// Whether the number encoded by `a` is smaller than the one encoded by `b`.
fn key_lt(a: u64, b: u64) -> (r: bool)
    ensures
        r == (order_key(a) < order_key(b)),
{
    let ma = magnitude_of(a);
    let mb = magnitude_of(b);
    if a >= SIGN_BIT {
        if b >= SIGN_BIT {
            mb < ma
        } else {
            ma > 0 || mb > 0
        }
    } else {
        if b >= SIGN_BIT {
            false
        } else {
            ma < mb
        }
    }
}

/// A finite number.
#[derive(Debug, Clone, Copy)]
pub struct FiniteF64 {
    bits: u64,
}

impl FiniteF64 {
    #[verifier::type_invariant]
    spec fn inv(self) -> bool {
        is_finite(self.bits)
    }

    /// The encoding of the number.
    pub closed spec fn bits(self) -> u64 {
        self.bits
    }

    /// The order key of the number.
    pub open spec fn key(self) -> int {
        order_key(self.bits())
    }

    /// Accepts the encoding of any finite number.
    pub fn new(bits: u64) -> (r: Result<Self, Error>)
        ensures
            is_finite(bits) ==> r.is_ok() && r.unwrap().bits() == bits,
            !is_finite(bits) ==> r == Err::<Self, Error>(Error::NotFinite),
    {
        if magnitude_of(bits) < INFINITY_BITS {
            Ok(Self { bits })
        } else {
            Err(Error::NotFinite)
        }
    }

    pub fn get(self) -> (r: u64)
        ensures
            r == self.bits(),
            is_finite(r),
    {
        proof {
            use_type_invariant(&self);
        }
        self.bits
    }

    /// Whether this number is smaller than `other`.
    pub fn lt(self, other: Self) -> (r: bool)
        ensures
            r == (self.key() < other.key()),
    {
        key_lt(self.bits, other.bits)
    }

    /// Whether the number lies above zero.
    pub fn is_positive(self) -> (r: bool)
        ensures
            r == (self.key() > 0),
    {
        self.bits < SIGN_BIT && self.bits > 0
    }

    /// Whether the two numbers are equal; the two zeros are.
    pub fn same(self, other: Self) -> (r: bool)
        ensures
            r == (self.key() == other.key()),
    {
        !key_lt(self.bits, other.bits) && !key_lt(other.bits, self.bits)
    }
}

/// A finite number without a minus sign.
#[derive(Debug, Clone, Copy)]
pub struct NonNegF64 {
    bits: u64,
}

impl NonNegF64 {
    #[verifier::type_invariant]
    spec fn inv(self) -> bool {
        self.bits < INFINITY_BITS
    }

    /// The encoding of the number.
    pub closed spec fn bits(self) -> u64 {
        self.bits
    }

    /// The order key of the number, which is its encoding.
    pub open spec fn key(self) -> int {
        order_key(self.bits())
    }

    /// Accepts the encoding of a finite number whose sign bit is clear,
    /// positive zero among them.
    pub fn new(bits: u64) -> (r: Result<Self, Error>)
        ensures
            is_finite(bits) && !is_negative(bits) ==> r.is_ok() && r.unwrap().bits() == bits,
            !is_finite(bits) ==> r == Err::<Self, Error>(Error::NotFinite),
            is_finite(bits) && is_negative(bits) ==> r == Err::<Self, Error>(Error::Negative),
    {
        if magnitude_of(bits) >= INFINITY_BITS {
            Err(Error::NotFinite)
        } else if bits >= SIGN_BIT {
            Err(Error::Negative)
        } else {
            Ok(Self { bits })
        }
    }

    pub fn get(self) -> (r: u64)
        ensures
            r == self.bits(),
            is_finite(r),
            !is_negative(r),
    {
        proof {
            use_type_invariant(&self);
        }
        self.bits
    }

    /// Whether the number is zero.
    pub fn is_zero(self) -> (r: bool)
        ensures
            r == (self.key() == 0),
    {
        proof {
            use_type_invariant(&self);
        }
        self.bits == 0
    }
}

/// The weight of the lowest exponent bit of an encoded number: two to the
/// power of 52, the number of fraction bits.
pub const FRACTION_UNIT: u64 = 0x0010_0000_0000_0000;

/// The exponent bits of an encoded number, as a number.
pub open spec fn exponent(bits: u64) -> int {
    magnitude(bits) as int / FRACTION_UNIT as int
}

/// The significand of a finite number as a whole number: the fraction
/// bits, with the hidden one in front of them unless the exponent bits are
/// all zero.
pub open spec fn significand(bits: u64) -> int {
    let fraction = magnitude(bits) as int % FRACTION_UNIT as int;
    if exponent(bits) == 0 {
        fraction
    } else {
        FRACTION_UNIT as int + fraction
    }
}

/// The power of two by which the significand of a finite number is to be
/// multiplied to give its size in units of the smallest positive number.
pub open spec fn scale(bits: u64) -> nat {
    if exponent(bits) <= 1 {
        0
    } else {
        (exponent(bits) - 1) as nat
    }
}

/// The size of a finite number in units of the smallest positive number,
/// which is two to the power of minus 1074. Every finite number is a whole
/// multiple of that unit.
pub open spec fn scaled(bits: u64) -> int {
    significand(bits) * pow2(scale(bits))
}

/// A finite number in units of the smallest positive number.
pub open spec fn signed_scaled(bits: u64) -> int {
    if is_negative(bits) {
        -scaled(bits)
    } else {
        scaled(bits)
    }
}

/// The smallest distance, in units of the smallest positive number, that
/// is rounded to infinity: half a step above the largest finite number.
pub open spec fn overflow_bound() -> int {
    (pow2(54) - 1) * pow2(2044)
}

/// Whether the distance from the number encoded by `min` to the one
/// encoded by `max`, rounded to the nearest number there is, is finite.
pub open spec fn width_is_finite(min: u64, max: u64) -> bool {
    signed_scaled(max) - signed_scaled(min) < overflow_bound()
}

/// The size of a finite number stays below the overflow bound, and well
/// below it where the scale is not the largest.
proof fn lemma_scaled_bound(bits: u64)
    requires
        is_finite(bits),
    ensures
        0 <= scaled(bits) <= (pow2(54) - 2) * pow2(2044),
        scale(bits) <= 2044 ==> scaled(bits) <= (pow2(53) - 1) * pow2(2044),
        0 <= significand(bits) < pow2(53),
        scale(bits) <= 2045,
        exponent(bits) >= 1 ==> significand(bits) >= pow2(52),
{
    lemma2_to64();
    lemma2_to64_rest();
    let sig = significand(bits);
    let k = scale(bits);
    assert(0 <= exponent(bits) <= 2046);
    assert(0 <= sig <= pow2(53) - 1);
    lemma_pow2_pos(k);
    lemma_pow2_pos(2044);
    lemma_pow2_unfold(2045);
    let p = pow2(k) as int;
    let top = pow2(2044) as int;
    if k <= 2044 {
        if k < 2044 {
            lemma_pow2_strictly_increases(k, 2044);
        }
        assert(sig * p <= (pow2(53) - 1) * top) by (nonlinear_arith)
            requires
                0 <= sig <= pow2(53) - 1,
                0 < p <= top,
        ;
        assert((pow2(53) - 1) * top <= (pow2(54) - 2) * top) by (nonlinear_arith)
            requires
                pow2(53) - 1 <= pow2(54) - 2,
                0 < top,
        ;
    } else {
        assert(p == 2 * top);
        assert(sig * p <= (pow2(54) - 2) * top) by (nonlinear_arith)
            requires
                0 <= sig <= pow2(53) - 1,
                p == 2 * top,
                0 < top,
                pow2(54) == 2 * pow2(53),
        ;
    }
    assert(0 <= sig * p) by (nonlinear_arith)
        requires
            0 <= sig,
            0 < p,
    ;
}

/// Of two finite magnitudes the larger encoding has the larger size.
proof fn lemma_scaled_increases(a: u64, b: u64)
    requires
        !is_negative(a),
        !is_negative(b),
        is_finite(a),
        is_finite(b),
        a < b,
    ensures
        scaled(a) < scaled(b),
{
    lemma2_to64();
    lemma2_to64_rest();
    lemma_scaled_bound(a);
    lemma_scaled_bound(b);
    let (sa, ka) = (significand(a), scale(a));
    let (sb, kb) = (significand(b), scale(b));
    lemma_pow2_pos(ka);
    lemma_pow2_pos(kb);
    let pa = pow2(ka) as int;
    let pb = pow2(kb) as int;
    assert(scaled(a) == sa * pa);
    assert(scaled(b) == sb * pb);
    if exponent(a) == exponent(b) {
        assert(sa < sb);
        assert(ka == kb);
        assert(sa * pa < sb * pa) by (nonlinear_arith)
            requires
                sa < sb,
                0 < pa,
        ;
    } else {
        assert(exponent(a) < exponent(b));
        if exponent(a) == 0 {
            // below every number with exponent bits: less than two to the 52
            assert(sa < pow2(52) && ka == 0 && pa == 1);
            assert(sb >= pow2(52));
            assert(sa * pa == sa) by (nonlinear_arith)
                requires
                    pa == 1,
            ;
            assert(sb * pb >= sb) by (nonlinear_arith)
                requires
                    sb >= 0,
                    pb >= 1,
            ;
        } else {
            assert(kb >= ka + 1);
            lemma_pow2_unfold(ka + 1);
            if kb > ka + 1 {
                lemma_pow2_strictly_increases(ka + 1, kb);
            }
            assert(pb >= 2 * pa);
            assert(sa * pa < sb * pb) by (nonlinear_arith)
                requires
                    0 <= sa < pow2(53),
                    sb >= pow2(52),
                    pow2(53) == 2 * pow2(52),
                    pb >= 2 * pa,
                    pa > 0,
            ;
        }
    }
}

/// The order of the keys is the order of the numbers: of two finite
/// numbers, the one with the smaller key is the smaller number, and two
/// with the same key are the same number.
pub proof fn lemma_order_key(a: u64, b: u64)
    requires
        is_finite(a),
        is_finite(b),
    ensures
        order_key(a) < order_key(b) <==> signed_scaled(a) < signed_scaled(b),
        order_key(a) == order_key(b) <==> signed_scaled(a) == signed_scaled(b),
{
    let ma = magnitude(a);
    let mb = magnitude(b);
    assert(scaled(a) == scaled(ma) && scaled(b) == scaled(mb));
    lemma_scaled_bound(a);
    lemma_scaled_bound(b);
    if ma < mb {
        lemma_scaled_increases(ma, mb);
    } else if mb < ma {
        lemma_scaled_increases(mb, ma);
    }
    if ma > 0 {
        lemma_scaled_increases(0, ma);
    }
    if mb > 0 {
        lemma_scaled_increases(0, mb);
    }
    assert(scaled(0) == 0) by {
        assert(significand(0) == 0);
        assert(0 * pow2(scale(0)) == 0) by (nonlinear_arith);
    }
}

/// A range within a range of finite width has finite width.
pub proof fn lemma_width_within(min: u64, inner: u64, max: u64)
    requires
        is_finite(min),
        is_finite(inner),
        is_finite(max),
        order_key(min) <= order_key(inner) <= order_key(max),
        width_is_finite(min, max),
    ensures
        width_is_finite(min, inner),
{
    lemma_order_key(inner, max);
}

/// When the larger of two sizes has the largest scale, whether their sum
/// stays below the overflow bound is decided by the significands.
proof fn lemma_sum_bound(high: int, low: int, k: nat)
    requires
        pow2(52) <= high < pow2(53),
        0 <= low < pow2(53),
        k <= 2045,
    ensures
        k == 2045 ==> ((high * pow2(2045) + low * pow2(k) < overflow_bound()) <==> 2 * low < pow2(54)
            - 1 - 2 * high),
        k <= 2044 ==> ((high * pow2(2045) + low * pow2(k) < overflow_bound()) <==> low < (pow2(54)
            - 1 - 2 * high) * pow2((2044 - k) as nat)),
{
    lemma2_to64();
    lemma2_to64_rest();
    lemma_pow2_unfold(2045);
    lemma_pow2_pos(2044);
    lemma_pow2_pos(k);
    let top = pow2(2044) as int;
    let q = pow2(k) as int;
    let rest = pow2(54) - 1 - 2 * high;
    let whole = pow2(54) - 1;
    assert(high * pow2(2045) == 2 * high * top) by (nonlinear_arith)
        requires
            pow2(2045) == 2 * top,
    ;
    assert(whole * top - 2 * high * top == rest * top) by (nonlinear_arith)
        requires
            rest == whole - 2 * high,
    ;
    if k == 2045 {
        assert(low * q == 2 * low * top) by (nonlinear_arith)
            requires
                q == 2 * top,
        ;
        assert((2 * low * top < rest * top) <==> (2 * low < rest)) by (nonlinear_arith)
            requires
                0 < top,
        ;
    } else {
        let r = pow2((2044 - k) as nat) as int;
        lemma_pow2_adds((2044 - k) as nat, k);
        assert(top == r * q);
        assert(rest * top == (rest * r) * q) by (nonlinear_arith)
            requires
                top == r * q,
        ;
        assert((low * q < (rest * r) * q) <==> (low < rest * r)) by (nonlinear_arith)
            requires
                0 < q,
        ;
    }
}

/// Two to the power of `s`.
fn two_to(s: u64) -> (p: u128)
    requires
        s <= 52,
    ensures
        p == pow2(s as nat),
        p <= 0x0010_0000_0000_0000,
{
    proof {
        lemma2_to64();
        lemma2_to64_rest();
    }
    let mut p: u128 = 1;
    let mut i: u64 = 0;
    while i < s
        invariant
            i <= s <= 52,
            p == pow2(i as nat),
            p <= pow2(52),
            pow2(52) == 0x0010_0000_0000_0000,
        decreases s - i,
    {
        proof {
            lemma_pow2_unfold((i + 1) as nat);
            if i + 1 < 52 {
                lemma_pow2_strictly_increases((i + 1) as nat, 52);
            }
        }
        p = p * 2;
        i = i + 1;
    }
    p
}

/// The significand and the scale of a finite magnitude.
fn parts(bits: u64) -> (r: (u64, u64))
    requires
        is_finite(bits),
        !is_negative(bits),
    ensures
        r.0 == significand(bits),
        r.1 == scale(bits),
        r.0 < 0x0020_0000_0000_0000,
        r.1 <= 2045,
{
    let e = bits / FRACTION_UNIT;
    let fraction = bits % FRACTION_UNIT;
    if e == 0 {
        (fraction, 0)
    } else {
        (FRACTION_UNIT + fraction, e - 1)
    }
}

/// Whether the distance between two finite numbers, of which the first is
/// not the larger, is rounded to a finite number.
fn width_finite(min: u64, max: u64) -> (r: bool)
    requires
        is_finite(min),
        is_finite(max),
        order_key(min) <= order_key(max),
    ensures
        r == width_is_finite(min, max),
{
    proof {
        lemma2_to64();
        lemma2_to64_rest();
        lemma_scaled_bound(min);
        lemma_scaled_bound(max);
        lemma_pow2_pos(2044);
        assert((pow2(54) - 2) * pow2(2044) < overflow_bound()) by (nonlinear_arith)
            requires
                pow2(2044) > 0,
                overflow_bound() == (pow2(54) - 1) * pow2(2044),
        ;
    }
    if !(min >= SIGN_BIT && max < SIGN_BIT) {
        proof {
            if is_negative(max) && !is_negative(min) {
                // both are zero
                assert(magnitude(min) == 0 && magnitude(max) == 0);
                assert(scaled(min) == 0 && scaled(max) == 0) by (nonlinear_arith)
                    requires
                        significand(min) == 0,
                        significand(max) == 0,
                        scaled(min) == significand(min) * pow2(scale(min)),
                        scaled(max) == significand(max) * pow2(scale(max)),
                ;
            }
        }
        return true;
    }
    let below = min - SIGN_BIT;
    proof {
        assert(magnitude(below) == magnitude(min));
        assert(scaled(below) == scaled(min));
        assert(signed_scaled(max) - signed_scaled(min) == scaled(max) + scaled(below));
    }
    let (sa, ka) = parts(max);
    let (sb, kb) = parts(below);
    let (high, kh, low, kl) = if ka >= kb {
        (sa, ka, sb, kb)
    } else {
        (sb, kb, sa, ka)
    };
    assert(scaled(max) + scaled(below) == high * pow2(kh as nat) + low * pow2(kl as nat));
    if kh < 2045 {
        proof {
            assert(scaled(max) + scaled(below) <= 2 * ((pow2(53) - 1) * pow2(2044)));
            assert(2 * ((pow2(53) - 1) * pow2(2044)) == (pow2(54) - 2) * pow2(2044))
                by (nonlinear_arith)
                requires
                    pow2(54) == 2 * pow2(53),
            ;
        }
        return true;
    }
    proof {
        // the larger one has exponent bits that are not all zero
        assert(high >= pow2(52));
        lemma_sum_bound(high as int, low as int, kl as nat);
    }
    let rest: u64 = 0x003f_ffff_ffff_ffff - 2 * high;
    if kl == 2045 {
        return 2 * low < rest;
    }
    let s = 2044 - kl;
    if s >= 53 {
        proof {
            if s > 53 {
                lemma_pow2_strictly_increases(53, s as nat);
            }
            assert(low < rest * pow2(s as nat)) by (nonlinear_arith)
                requires
                    low < pow2(53),
                    rest >= 1,
                    pow2(s as nat) >= pow2(53),
            ;
        }
        return true;
    }
    let p = two_to(s);
    proof {
        assert((rest as int) * (p as int) <= 0x0020_0000_0000_0000 * 0x0010_0000_0000_0000)
            by (nonlinear_arith)
            requires
                0 <= rest <= 0x0020_0000_0000_0000,
                0 <= p <= 0x0010_0000_0000_0000,
        ;
    }
    (low as u128) < (rest as u128) * p
}

/// What is wrong with the two ends of a range, if anything: an end that is
/// not finite, a lower end above the upper one, or a distance between the
/// two that is not finite.
pub open spec fn range_error(min: u64, max: u64) -> Option<Error> {
    if !is_finite(min) || !is_finite(max) {
        Some(Error::NotFinite)
    } else if order_key(min) > order_key(max) {
        Some(Error::MinAboveMax)
    } else if !width_is_finite(min, max) {
        Some(Error::InfiniteWidth)
    } else {
        None
    }
}

/// A range of finite numbers with both ends included.
#[derive(Debug, Clone, Copy)]
pub struct InclusiveRange {
    min: FiniteF64,
    max: FiniteF64,
}

impl InclusiveRange {
    #[verifier::type_invariant]
    spec fn inv(self) -> bool {
        is_finite(self.min.bits()) && is_finite(self.max.bits()) && self.min.key()
            <= self.max.key() && width_is_finite(self.min.bits(), self.max.bits())
    }

    /// The lower end.
    pub closed spec fn spec_min(self) -> FiniteF64 {
        self.min
    }

    /// The upper end.
    pub closed spec fn spec_max(self) -> FiniteF64 {
        self.max
    }

    /// Accepts two encodings of finite numbers of which the first is not the
    /// larger and which lie a finite distance apart.
    pub fn new(min: u64, max: u64) -> (r: Result<Self, Error>)
        ensures
            match range_error(min, max) {
                Some(e) => r == Err::<Self, Error>(e),
                None => r is Ok && r.unwrap().spec_min().bits() == min && r.unwrap().spec_max().bits()
                    == max,
            },
    {
        let lo = match FiniteF64::new(min) {
            Ok(x) => x,
            Err(e) => {
                return Err(e);
            },
        };
        let hi = match FiniteF64::new(max) {
            Ok(x) => x,
            Err(e) => {
                return Err(e);
            },
        };
        if hi.lt(lo) {
            return Err(Error::MinAboveMax);
        }
        if !width_finite(min, max) {
            return Err(Error::InfiniteWidth);
        }
        Ok(Self { min: lo, max: hi })
    }

    #[verifier::when_used_as_spec(spec_min)]
    pub fn min(self) -> (r: FiniteF64)
        ensures
            r == self.spec_min(),
            r.key() <= self.spec_max().key(),
    {
        proof {
            use_type_invariant(&self);
        }
        self.min
    }

    #[verifier::when_used_as_spec(spec_max)]
    pub fn max(self) -> (r: FiniteF64)
        ensures
            r == self.spec_max(),
            self.spec_min().key() <= r.key(),
    {
        proof {
            use_type_invariant(&self);
        }
        self.max
    }
}

/// A list that holds at least one element.
#[derive(Debug)]
pub struct NonEmptyVec<T> {
    inner: Vec<T>,
}

impl<T> View for NonEmptyVec<T> {
    type V = Seq<T>;

    closed spec fn view(&self) -> Seq<T> {
        self.inner@
    }
}

impl<T> NonEmptyVec<T> {
    #[verifier::type_invariant]
    spec fn inv(self) -> bool {
        self.inner@.len() > 0
    }

    /// Accepts every list but the empty one.
    pub fn new(inner: Vec<T>) -> (r: Result<Self, Error>)
        ensures
            inner@.len() > 0 ==> (r matches Ok(v) && v@ == inner@),
            inner@.len() == 0 ==> (r matches Err(e) && e == Error::EmptyList),
    {
        if inner.len() == 0 {
            Err(Error::EmptyList)
        } else {
            Ok(Self { inner })
        }
    }

    pub fn get(&self) -> (r: &[T])
        ensures
            r@ == self@,
            r@.len() > 0,
    {
        proof {
            use_type_invariant(self);
        }
        self.inner.as_slice()
    }
}

/// A copy of a list of strings.
pub fn clone_strings(v: &[String]) -> (r: Vec<String>)
    ensures
        r@ == v@,
{
    let mut out: Vec<String> = Vec::new();
    let mut i: usize = 0;
    while i < v.len()
        invariant
            i <= v@.len(),
            out@ == v@.take(i as int),
        decreases v@.len() - i,
    {
        out.push(v[i].clone());
        proof {
            assert(out@ =~= v@.take(i + 1));
        }
        i = i + 1;
    }
    proof {
        assert(v@.take(v@.len() as int) =~= v@);
    }
    out
}

impl NonEmptyVec<String> {
    /// A copy of the list.
    pub fn duplicate(&self) -> (r: Self)
        ensures
            r@ == self@,
    {
        proof {
            use_type_invariant(self);
        }
        Self { inner: clone_strings(self.inner.as_slice()) }
    }
}

/// The lifetime that a temporary directory is bound to.
#[derive(Debug, Clone, Copy, PartialEq, Eq, Hash, Structural)]
pub enum Scope {
    Observation,
    Trial,
    Study,
}

impl Scope {
    /// The scope that a name stands for, if it is the name of one.
    pub open spec fn parse(s: Seq<char>) -> Option<Scope> {
        if s == "observation"@ {
            Some(Scope::Observation)
        } else if s == "trial"@ {
            Some(Scope::Trial)
        } else if s == "study"@ {
            Some(Scope::Study)
        } else {
            None
        }
    }

    /// Reads one of the names `observation`, `trial` and `study`.
    pub fn from_str(s: &str) -> (r: Result<Scope, Error>)
        ensures
            Self::parse(s@) is Some ==> r == Ok::<Scope, Error>(Self::parse(s@).unwrap()),
            Self::parse(s@) is None ==> r == Err::<Scope, Error>(Error::UnknownScope),
    {
        if str_eq(s, "observation") {
            Ok(Scope::Observation)
        } else if str_eq(s, "trial") {
            Ok(Scope::Trial)
        } else if str_eq(s, "study") {
            Ok(Scope::Study)
        } else {
            Err(Error::UnknownScope)
        }
    }

    /// The name of the scope.
    pub fn name(self) -> (r: &'static str)
        ensures
            Self::parse(r@) == Some(self),
    {
        proof {
            reveal_strlit("observation");
            reveal_strlit("trial");
            reveal_strlit("study");
            assert("observation"@.len() != "trial"@.len());
            assert("observation"@.len() != "study"@.len());
            assert("trial"@[0] != "study"@[0]);
        }
        match self {
            Scope::Observation => "observation",
            Scope::Trial => "trial",
            Scope::Study => "study",
        }
    }
}

/// Time that has passed since a study started, in whole nanoseconds.
#[derive(Debug, Clone, Copy, PartialEq, Eq, Hash, Structural)]
pub struct Elapsed {
    pub nanos: u128,
}

impl Elapsed {
    pub fn new(nanos: u128) -> (r: Self)
        ensures
            r.nanos == nanos,
    {
        Self { nanos }
    }

    /// No time at all.
    pub fn zero() -> (r: Self)
        ensures
            r.nanos == 0,
    {
        Self { nanos: 0 }
    }

    pub fn get(self) -> (r: u128)
        ensures
            r == self.nanos,
    {
        self.nanos
    }

    /// The sum of two spans, unless it exceeds what the type can hold.
    pub fn checked_add(self, other: Self) -> (r: Option<Self>)
        ensures
            self.nanos + other.nanos <= u128::MAX ==> r == Some(
                Elapsed { nanos: (self.nanos + other.nanos) as u128 },
            ),
            self.nanos + other.nanos > u128::MAX ==> r.is_none(),
    {
        if self.nanos <= u128::MAX - other.nanos {
            Some(Self { nanos: self.nanos + other.nanos })
        } else {
            None
        }
    }
}

} // verus!
