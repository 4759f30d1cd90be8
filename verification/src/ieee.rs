//! Ordered real numbers.
//!
//! The transport loop decides by comparing floating-point numbers. A number
//! reaches this crate as the bit pattern of an IEEE-754 binary64 value, and the
//! comparisons here are the IEEE ones: a NaN compares false with everything and
//! the two zeros are equal.
use vstd::arithmetic::power2::{lemma2_to64_rest, lemma_pow2_adds, lemma_pow2_pos, pow2};
use vstd::prelude::*;

verus! {

/// First bit pattern with the sign bit set.
pub const SIGN_BIT: u64 = 0x8000_0000_0000_0000;

/// Magnitude bits of infinity; anything above is a NaN.
pub const INFINITY_BITS: u64 = 0x7ff0_0000_0000_0000;

/// Bit pattern of `1.0`.
pub const ONE_BITS: u64 = 0x3ff0_0000_0000_0000;

/// Number of patterns that share one exponent field.
pub const BINADE: u64 = 0x0010_0000_0000_0000;

/// An IEEE-754 binary64 number, held as its bit pattern.
#[derive(Clone, Copy, Debug)]
pub struct Real {
    pub bits: u64,
}

impl Real {
    /// The bits below the sign bit.
    pub open spec fn magnitude(self) -> int {
        if self.bits >= SIGN_BIT {
            self.bits - SIGN_BIT
        } else {
            self.bits as int
        }
    }

    pub open spec fn is_nan_spec(self) -> bool {
        self.magnitude() > INFINITY_BITS
    }

    pub open spec fn is_finite_spec(self) -> bool {
        self.magnitude() < INFINITY_BITS
    }

    /// Position on the number line: the magnitude, negated below zero. Both
    /// zeros are at 0.
    pub open spec fn key(self) -> int {
        if self.bits >= SIGN_BIT {
            -self.magnitude()
        } else {
            self.magnitude()
        }
    }

    /// IEEE `self < other`.
    pub open spec fn lt(self, other: Real) -> bool {
        !self.is_nan_spec() && !other.is_nan_spec() && self.key() < other.key()
    }

    /// IEEE `self <= other`.
    pub open spec fn le(self, other: Real) -> bool {
        !self.is_nan_spec() && !other.is_nan_spec() && self.key() <= other.key()
    }

    /// IEEE `self == other`.
    pub open spec fn eqv(self, other: Real) -> bool {
        !self.is_nan_spec() && !other.is_nan_spec() && self.key() == other.key()
    }

    /// Greater than zero.
    pub open spec fn positive(self) -> bool {
        (Real { bits: 0 }).lt(self)
    }

    /// The number itself, in units of the smallest subnormal (`2^-1074`).
    /// Meaningful for finite patterns.
    pub open spec fn scaled_value(self) -> int {
        if self.bits >= SIGN_BIT {
            -scaled_magnitude(self.magnitude() as nat)
        } else {
            scaled_magnitude(self.magnitude() as nat)
        }
    }

    /// Conversion to `u32`: the integer part of a positive number, with
    /// everything out of range clamped and a NaN taken as 0.
    pub open spec fn to_u32_spec(self) -> u32 {
        if self.is_nan_spec() || self.bits >= SIGN_BIT {
            0
        } else if self.bits >= INFINITY_BITS {
            u32::MAX
        } else {
            let whole = self.scaled_value() / (pow2(1074) as int);
            if whole > u32::MAX {
                u32::MAX
            } else {
                whole as u32
            }
        }
    }

    pub fn new(bits: u64) -> (r: Real)
        ensures
            r.bits == bits,
    {
        Real { bits }
    }

    /// Positive zero.
    pub fn zero() -> (r: Real)
        ensures
            r.bits == 0,
    {
        Real { bits: 0 }
    }

    pub fn one() -> (r: Real)
        ensures
            r.bits == ONE_BITS,
    {
        Real { bits: ONE_BITS }
    }

    pub fn is_nan(self) -> (r: bool)
        ensures
            r == self.is_nan_spec(),
    {
        if self.bits >= SIGN_BIT {
            self.bits - SIGN_BIT > INFINITY_BITS
        } else {
            self.bits > INFINITY_BITS
        }
    }

    /// `self as u32`.
    pub fn to_u32(self) -> (r: u32)
        ensures
            r == self.to_u32_spec(),
    {
        if self.bits >= INFINITY_BITS {
            if self.bits == INFINITY_BITS {
                return u32::MAX;
            }
            return 0;
        }
        let e: u64 = self.bits / BINADE;
        let f: u64 = self.bits % BINADE;
        proof {
            lemma_binade_fields(self.bits);
        }
        if e < 1023 {
            proof {
                lemma_below_one(e as nat, f as nat);
            }
            return 0;
        }
        if e > 1054 {
            proof {
                lemma_above_u32(e as nat, f as nat);
            }
            return u32::MAX;
        }
        let shift: u64 = 1075 - e;
        let whole: u64 = (BINADE + f) >> shift;
        proof {
            vstd::bits::lemma_u64_shr_is_div((BINADE + f) as u64, shift);
            lemma_integer_part(e as nat, f as nat, shift as nat);
        }
        if whole > u32::MAX as u64 {
            u32::MAX
        } else {
            whole as u32
        }
    }

    fn order_key(self) -> (r: i64)
        ensures
            r == self.key(),
    {
        if self.bits >= SIGN_BIT {
            let m: i64 = (self.bits - SIGN_BIT) as i64;
            -m
        } else {
            self.bits as i64
        }
    }

    /// `self < other`.
    pub fn is_lt(self, other: Real) -> (r: bool)
        ensures
            r == self.lt(other),
    {
        !self.is_nan() && !other.is_nan() && self.order_key() < other.order_key()
    }

    /// `self <= other`.
    pub fn is_le(self, other: Real) -> (r: bool)
        ensures
            r == self.le(other),
    {
        !self.is_nan() && !other.is_nan() && self.order_key() <= other.order_key()
    }

    /// `self > 0`.
    pub fn is_positive(self) -> (r: bool)
        ensures
            r == self.positive(),
    {
        Real::zero().is_lt(self)
    }

    /// `self == other` as numbers.
    pub fn is_eq(self, other: Real) -> (r: bool)
        ensures
            r == self.eqv(other),
    {
        !self.is_nan() && !other.is_nan() && self.order_key() == other.order_key()
    }
}

impl PartialEq for Real {
    fn eq(&self, other: &Real) -> (r: bool) {
        self.is_eq(*other)
    }
}

impl vstd::std_specs::cmp::PartialEqSpecImpl for Real {
    open spec fn obeys_eq_spec() -> bool {
        true
    }

    open spec fn eq_spec(&self, other: &Real) -> bool {
        self.eqv(*other)
    }
}

/// Value of a non-negative pattern in units of `2^-1074`: the exponent field
/// `m / 2^52` scales the fraction `m % 2^52`, with the implicit leading bit
/// above the subnormals.
pub open spec fn scaled_magnitude(m: nat) -> int {
    let e = m / (BINADE as nat);
    let f = m % (BINADE as nat);
    if e == 0 {
        f as int
    } else {
        (BINADE + f) * pow2((e - 1) as nat)
    }
}

proof fn lemma_binade_fields(bits: u64)
    ensures
        bits / BINADE == bits as nat / (BINADE as nat),
        bits % BINADE == bits as nat % (BINADE as nat),
        bits % BINADE < BINADE,
{
}

proof fn lemma_one_scaled() -> (p: int)
    ensures
        p == pow2(1074),
        p > 0,
{
    vstd::arithmetic::power2::lemma_pow2_pos(1074);
    pow2(1074) as int
}

proof fn lemma_below_one(e: nat, f: nat)
    requires
        e < 1023,
        f < BINADE,
    ensures
        e == 0 ==> f as int / pow2(1074) as int == 0,
        e > 0 ==> ((BINADE + f) * pow2((e - 1) as nat)) / pow2(1074) as int == 0,
{
    let one = lemma_one_scaled();
    assert(BINADE == pow2(52)) by {
        vstd::arithmetic::power2::lemma2_to64_rest();
    }
    if e == 0 {
        vstd::arithmetic::power2::lemma_pow2_strictly_increases(52, 1074);
        vstd::arithmetic::div_mod::lemma_basic_div(f as int, one);
    } else {
        let p = pow2((e - 1) as nat) as int;
        vstd::arithmetic::power2::lemma_pow2_pos((e - 1) as nat);
        vstd::arithmetic::power2::lemma_pow2_unfold(53);
        vstd::arithmetic::power2::lemma_pow2_adds(53, (e - 1) as nat);
        assert(0 <= (BINADE + f) * p < pow2(53) * p) by (nonlinear_arith)
            requires
                0 <= f < BINADE,
                p > 0,
                pow2(53) == 2 * BINADE,
        ;
        if 52 + e < 1074 {
            vstd::arithmetic::power2::lemma_pow2_strictly_increases((52 + e) as nat, 1074);
        }
        vstd::arithmetic::div_mod::lemma_basic_div((BINADE + f) * p, one);
    }
}

proof fn lemma_above_u32(e: nat, f: nat)
    requires
        e > 1054,
        f < BINADE,
    ensures
        ((BINADE + f) * pow2((e - 1) as nat)) / pow2(1074) as int > u32::MAX,
{
    let one = lemma_one_scaled();
    let p = pow2((e - 1) as nat) as int;
    assert(BINADE == pow2(52) && pow2(32) == u32::MAX + 1) by {
        vstd::arithmetic::power2::lemma2_to64();
        vstd::arithmetic::power2::lemma2_to64_rest();
    }
    vstd::arithmetic::power2::lemma_pow2_pos((e - 1) as nat);
    vstd::arithmetic::power2::lemma_pow2_adds(52, (e - 1) as nat);
    vstd::arithmetic::power2::lemma_pow2_adds(32, 1074);
    if 51 + e > 1106 {
        vstd::arithmetic::power2::lemma_pow2_strictly_increases(1106, (51 + e) as nat);
    }
    assert((BINADE + f) * p >= BINADE * p) by (nonlinear_arith)
        requires
            f >= 0,
            p > 0,
    ;
    vstd::arithmetic::div_mod::lemma_div_is_ordered(
        pow2(32) as int * one,
        (BINADE + f) * p,
        one,
    );
    vstd::arithmetic::div_mod::lemma_div_by_multiple(pow2(32) as int, one);
}

proof fn lemma_integer_part(e: nat, f: nat, shift: nat)
    requires
        1023 <= e <= 1054,
        shift + e == 1075,
        f < BINADE,
    ensures
        ((BINADE + f) * pow2((e - 1) as nat)) / pow2(1074) as int == (BINADE + f) as int / pow2(
            shift,
        ) as int,
{
    let a = BINADE + f;
    let p = pow2((e - 1) as nat) as int;
    let q = pow2(shift) as int;
    vstd::arithmetic::power2::lemma_pow2_pos((e - 1) as nat);
    vstd::arithmetic::power2::lemma_pow2_pos(shift);
    vstd::arithmetic::power2::lemma_pow2_adds((e - 1) as nat, shift);
    vstd::arithmetic::div_mod::lemma_div_denominator(a * p, p, q);
    vstd::arithmetic::div_mod::lemma_div_by_multiple(a, p);
}

proof fn lemma_scaled_magnitude_increases(a: nat, b: nat)
    requires
        a < b,
    ensures
        0 <= scaled_magnitude(a) < scaled_magnitude(b),
{
    let n = BINADE as nat;
    let ea = a / n;
    let fa = a % n;
    let eb = b / n;
    let fb = b % n;
    vstd::arithmetic::div_mod::lemma_fundamental_div_mod(a as int, n as int);
    vstd::arithmetic::div_mod::lemma_fundamental_div_mod(b as int, n as int);
    vstd::arithmetic::div_mod::lemma_div_is_ordered(a as int, b as int, n as int);
    if ea > 0 {
        vstd::arithmetic::power2::lemma_pow2_pos((ea - 1) as nat);
    }
    if eb > 0 {
        vstd::arithmetic::power2::lemma_pow2_pos((eb - 1) as nat);
    }
    if ea == eb {
        assert(fa < fb);
        if ea > 0 {
            let p = pow2((ea - 1) as nat) as int;
            assert(0 <= (BINADE + fa) * p < (BINADE + fb) * p) by (nonlinear_arith)
                requires
                    fa < fb,
                    p > 0,
                    fa >= 0,
            ;
        }
    } else if ea == 0 {
        let p = pow2((eb - 1) as nat) as int;
        assert((BINADE + fb) * p >= BINADE) by (nonlinear_arith)
            requires
                p >= 1,
                fb >= 0,
        ;
    } else {
        let pa = pow2((ea - 1) as nat) as int;
        let pb = pow2((eb - 1) as nat) as int;
        assert(pow2(ea) == 2 * pa) by {
            vstd::arithmetic::power2::lemma_pow2_unfold(ea);
        }
        assert(pow2(ea) <= pb) by {
            if ea < (eb - 1) as nat {
                vstd::arithmetic::power2::lemma_pow2_strictly_increases(ea, (eb - 1) as nat);
            }
        }
        assert(0 <= (BINADE + fa) * pa < BINADE * (2 * pa)) by (nonlinear_arith)
            requires
                0 <= fa < BINADE,
                pa > 0,
        ;
        assert((BINADE + fb) * pb >= BINADE * (2 * pa)) by (nonlinear_arith)
            requires
                fb >= 0,
                pb >= 2 * pa,
                pa > 0,
        ;
    }
}

/// The comparisons order finite patterns as the numbers they stand for.
pub proof fn order_is_numeric(a: Real, b: Real)
    requires
        a.is_finite_spec(),
        b.is_finite_spec(),
    ensures
        a.lt(b) <==> a.scaled_value() < b.scaled_value(),
        a.le(b) <==> a.scaled_value() <= b.scaled_value(),
        a.eqv(b) <==> a.scaled_value() == b.scaled_value(),
{
    let ma = a.magnitude() as nat;
    let mb = b.magnitude() as nat;
    assert(scaled_magnitude(0) == 0) by {
        vstd::arithmetic::div_mod::lemma_small_mod(0, BINADE as nat);
    }
    if ma < mb {
        lemma_scaled_magnitude_increases(ma, mb);
    }
    if mb < ma {
        lemma_scaled_magnitude_increases(mb, ma);
    }
    if ma > 0 {
        lemma_scaled_magnitude_increases(0, ma);
    }
    if mb > 0 {
        lemma_scaled_magnitude_increases(0, mb);
    }
}

/// Every finite number lies strictly between the two infinities.
pub proof fn infinities_bound_the_finite(a: Real)
    requires
        a.is_finite_spec(),
    ensures
        a.lt(Real { bits: INFINITY_BITS }),
        (Real { bits: (SIGN_BIT + INFINITY_BITS) as u64 }).lt(a),
{
}

/// Values in non-decreasing order, none of them a NaN.
pub open spec fn sorted(s: Seq<Real>) -> bool {
    &&& forall|i: int| 0 <= i < s.len() ==> !(#[trigger] s[i]).is_nan_spec()
    &&& forall|i: int, j: int| 0 <= i <= j < s.len() ==> (#[trigger] s[i]).key() <= (#[trigger] s[j]).key()
}

/// Values in strictly increasing order, none of them a NaN.
pub open spec fn strictly_increasing(s: Seq<Real>) -> bool {
    &&& forall|i: int| 0 <= i < s.len() ==> !(#[trigger] s[i]).is_nan_spec()
    &&& forall|i: int, j: int| 0 <= i < j < s.len() ==> (#[trigger] s[i]).key() < (#[trigger] s[j]).key()
}

/// A number is above zero exactly where its value is.
pub proof fn positive_is_above_zero(x: Real, r: bool)
    requires
        x.is_finite_spec(),
        call_ensures(Real::is_positive, (x,), r),
    ensures
        r <==> x.scaled_value() > 0,
{
    order_is_numeric(Real { bits: 0 }, x);
    assert(scaled_magnitude(0) == 0);
}

/// A number becomes the largest whole one that is not above it, none below zero and
/// none past the range; what is no number becomes zero.
pub proof fn whole_part_is_rounded_down(x: Real, r: u32)
    requires
        call_ensures(Real::to_u32, (x,), r),
    ensures
        x.is_nan_spec() ==> r == 0,
        x.is_finite_spec() && x.scaled_value() < 0 ==> r == 0,
        x.is_finite_spec() && x.scaled_value() >= 0 ==> r * pow2(1074) <= x.scaled_value(),
        x.is_finite_spec() && x.scaled_value() >= 0 && r < 0xffff_ffff ==> x.scaled_value() < (r + 1)
            * pow2(1074),
        x.bits == 0x7ff0_0000_0000_0000 ==> r == 0xffff_ffff,
        x.bits == 0xfff0_0000_0000_0000 ==> r == 0,
{
    lemma_pow2_pos(1074);
    let v = x.scaled_value();
    let d = pow2(1074) as int;
    let q = v / d;
    if x.is_finite_spec() {
        assert(scaled_magnitude(x.magnitude() as nat) >= 0) by {
            let m = x.magnitude() as nat;
            let e = m / (BINADE as nat);
            let f = m % (BINADE as nat);
            if e > 0 {
                lemma_pow2_pos((e - 1) as nat);
                assert((BINADE + f) * pow2((e - 1) as nat) >= 0) by (nonlinear_arith)
                    requires
                        BINADE + f >= 0,
                        pow2((e - 1) as nat) >= 0,
                ;
            }
        }
        if v >= 0 && x.bits < SIGN_BIT {
            assert(q * d <= v < (q + 1) * d && q >= 0) by (nonlinear_arith)
                requires
                    q == v / d,
                    d > 0,
                    v >= 0,
            ;
            if q > u32::MAX {
                assert(0xffff_ffff * d <= v) by (nonlinear_arith)
                    requires
                        q * d <= v,
                        q > 0xffff_ffff,
                        d > 0,
                ;
            }
        }
        assert(0 * d == 0);
        if v >= 0 && x.bits >= SIGN_BIT {
            assert(v == 0);
            assert((0 + 1) * d > 0);
        }
    }
}

/// Zero and one have the values of their names.
pub proof fn zero_and_one_are_themselves(zero: Real, one: Real)
    requires
        call_ensures(Real::zero, (), zero),
        call_ensures(Real::one, (), one),
    ensures
        zero.scaled_value() == 0,
        one.scaled_value() == pow2(1074),
{
    assert(scaled_magnitude(0) == 0);
    lemma_pow2_adds(52, 1022);
    assert(pow2(52) == 0x0010_0000_0000_0000) by {
        lemma2_to64_rest();
    }
    let m = ONE_BITS as nat;
    assert(m / (BINADE as nat) == 1023);
    assert(m % (BINADE as nat) == 0);
    assert((BINADE + 0) * pow2(1022) == pow2(52) * pow2(1022)) by (nonlinear_arith)
        requires
            BINADE == pow2(52),
    ;
}

/// What is no number is neither below nor above nor equal to anything; of two
/// numbers, one is below the other or they are equal.
pub proof fn numbers_are_ordered(a: Real, b: Real, lt: bool, gt: bool, le: bool, eq: bool, nan: bool)
    requires
        call_ensures(Real::is_lt, (a, b), lt),
        call_ensures(Real::is_lt, (b, a), gt),
        call_ensures(Real::is_le, (a, b), le),
        call_ensures(Real::is_eq, (a, b), eq),
        call_ensures(Real::is_nan, (a,), nan),
    ensures
        nan ==> !lt && !gt && !le && !eq,
        le <==> lt || eq,
        !(lt && gt) && !(lt && eq) && !(gt && eq),
        a.is_finite_spec() && b.is_finite_spec() ==> lt || gt || eq,
        nan <==> (0x7ff0_0000_0000_0000 < a.bits < 0x8000_0000_0000_0000 || a.bits
            > 0xfff0_0000_0000_0000),
{
}

} // verus!
