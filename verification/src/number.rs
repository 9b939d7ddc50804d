//! Double-precision numbers held by their IEEE 754 bit patterns.
//!
//! The library compares and validates numbers but never computes with them, so
//! it keeps the pattern and reads sign, exponent and fraction out of it. The
//! mathematical value of a finite number is a whole multiple of the smallest
//! positive one, which is how contracts speak of it.
use vstd::arithmetic::power2::{lemma2_to64, lemma_pow2_adds, lemma_pow2_pos, pow2};
use vstd::prelude::*;

verus! {

/// A double-precision number, by its bit pattern.
#[derive(Clone, Copy, Debug, PartialEq, Eq, Structural)]
pub struct Number {
    pub bits: u64,
}

/// What a bit pattern stands for. A finite value is counted in units of the
/// smallest positive number, `2^-1074`.
pub enum Real {
    NotANumber,
    NegativeInfinity,
    Finite(int),
    PositiveInfinity,
}

impl Real {
    /// Numeric `<`: false wherever a NaN takes part.
    pub open spec fn lt(self, other: Real) -> bool {
        match (self, other) {
            (Real::NotANumber, _) => false,
            (_, Real::NotANumber) => false,
            (Real::NegativeInfinity, o) => o !is NegativeInfinity,
            (_, Real::NegativeInfinity) => false,
            (Real::PositiveInfinity, _) => false,
            (_, Real::PositiveInfinity) => true,
            (Real::Finite(a), Real::Finite(b)) => a < b,
        }
    }

    /// Numeric `==`: a NaN equals nothing, and the two zeros are equal.
    pub open spec fn same(self, other: Real) -> bool {
        self == other && self !is NotANumber
    }

    /// Numeric `<=`.
    pub open spec fn le(self, other: Real) -> bool {
        self.lt(other) || self.same(other)
    }

    /// Whether the value lies in the closed range from `low` to `high`, both
    /// whole numbers.
    pub open spec fn between(self, low: int, high: int) -> bool {
        self matches Real::Finite(v) && low * unit() <= v <= high * unit()
    }
}

/// The number one, counted in units of the smallest positive number.
pub open spec fn unit() -> int {
    pow2(1074) as int
}

pub open spec fn sign_weight() -> int {
    0x8000_0000_0000_0000
}

pub open spec fn fraction_weight() -> int {
    0x10_0000_0000_0000
}

/// The pattern without its sign bit.
pub open spec fn magnitude(bits: u64) -> int {
    bits as int % sign_weight()
}

/// The value of a magnitude below infinity, in units of the smallest number.
pub open spec fn scaled(magnitude: int) -> int {
    let exponent = magnitude / fraction_weight();
    let fraction = magnitude % fraction_weight();
    if exponent == 0 {
        fraction
    } else {
        (fraction_weight() + fraction) * pow2((exponent - 1) as nat)
    }
}

/// The magnitude of infinity; larger ones are NaNs.
pub open spec fn infinity() -> int {
    2047 * fraction_weight()
}

impl View for Number {
    type V = Real;

    open spec fn view(&self) -> Real {
        let m = magnitude(self.bits);
        let negative = self.bits >= sign_weight();
        if m > infinity() {
            Real::NotANumber
        } else if m == infinity() {
            if negative {
                Real::NegativeInfinity
            } else {
                Real::PositiveInfinity
            }
        } else if negative {
            Real::Finite(-scaled(m))
        } else {
            Real::Finite(scaled(m))
        }
    }
}

proof fn lemma_scaled_step(m: int)
    requires
        0 <= m,
    ensures
        0 <= scaled(m) < scaled(m + 1),
{
    let w = fraction_weight();
    let e = m / w;
    let f = m % w;
    assert(m == e * w + f && 0 <= f < w) by {
        vstd::arithmetic::div_mod::lemma_fundamental_div_mod(m, w);
        assert(w * e == e * w) by (nonlinear_arith);
    }
    lemma2_to64();
    if f + 1 < w {
        assert((m + 1) / w == e && (m + 1) % w == f + 1) by {
            vstd::arithmetic::div_mod::lemma_fundamental_div_mod_converse(m + 1, w, e, f + 1);
        }
        if e > 0 {
            lemma_pow2_pos((e - 1) as nat);
            let p = pow2((e - 1) as nat) as int;
            assert((w + f) * p < (w + f + 1) * p && 0 <= (w + f) * p) by (nonlinear_arith)
                requires
                    p > 0,
                    w > 0,
                    f >= 0,
            ;
        }
    } else {
        assert((m + 1) / w == e + 1 && (m + 1) % w == 0) by {
            assert(m + 1 == (e + 1) * w) by (nonlinear_arith)
                requires
                    m == e * w + f,
                    f + 1 == w,
            ;
            assert((e + 1) * w == w * (e + 1)) by (nonlinear_arith);
            vstd::arithmetic::div_mod::lemma_fundamental_div_mod_converse(m + 1, w, e + 1, 0);
        }
        if e > 0 {
            lemma_pow2_pos((e - 1) as nat);
            lemma_pow2_adds(1, (e - 1) as nat);
            let p = pow2((e - 1) as nat) as int;
            assert(pow2(e as nat) == 2 * p);
            assert((w + f) * p < w * (2 * p) && 0 <= (w + f) * p) by (nonlinear_arith)
                requires
                    p > 0,
                    w > 0,
                    0 <= f < w,
            ;
        }
    }
}

/// Larger magnitudes stand for larger values.
pub proof fn lemma_scaled_increases(a: int, b: int)
    requires
        0 <= a < b,
    ensures
        0 <= scaled(a) < scaled(b),
    decreases b - a,
{
    lemma_scaled_step(b - 1);
    if a < b - 1 {
        lemma_scaled_increases(a, b - 1);
    }
}

proof fn lemma_scaled_nonnegative(a: int)
    requires
        0 <= a,
    ensures
        0 <= scaled(a),
        scaled(a) == 0 <==> a == 0,
{
    lemma_scaled_step(a);
    if a > 0 {
        lemma_scaled_increases(0, a);
    }
}

/// Position of a pattern on the number line: the sign applied to the magnitude.
pub open spec fn signed_magnitude(bits: u64) -> int {
    if bits >= sign_weight() {
        -magnitude(bits)
    } else {
        magnitude(bits)
    }
}

/// Numeric order is the order of signed magnitudes.
proof fn lemma_order(a: Number, b: Number)
    requires
        a@ !is NotANumber,
        b@ !is NotANumber,
    ensures
        a@.lt(b@) <==> signed_magnitude(a.bits) < signed_magnitude(b.bits),
        a@.same(b@) <==> signed_magnitude(a.bits) == signed_magnitude(b.bits),
{
    let m = magnitude(a.bits);
    let n = magnitude(b.bits);
    lemma_scaled_nonnegative(m);
    lemma_scaled_nonnegative(n);
    if m < n {
        lemma_scaled_increases(m, n);
    } else if n < m {
        lemma_scaled_increases(n, m);
    }
}

/// The order that places every pattern, NaNs and signed zeros included:
/// negative ones in reverse, below the positive ones.
pub open spec fn total_order(bits: u64) -> int {
    if bits >= sign_weight() {
        -magnitude(bits) - 1
    } else {
        magnitude(bits)
    }
}

impl Number {
    fn magnitude(self) -> (r: u64)
        ensures
            r == magnitude(self.bits),
            r < 0x8000_0000_0000_0000,
    {
        self.bits % 0x8000_0000_0000_0000
    }

    fn signed(self) -> (r: i64)
        ensures
            r == signed_magnitude(self.bits),
    {
        let m: u64 = self.magnitude();
        if self.bits >= 0x8000_0000_0000_0000 {
            -(m as i64)
        } else {
            m as i64
        }
    }

    pub fn is_finite(self) -> (r: bool)
        ensures
            r == (self@ is Finite),
    {
        self.magnitude() < 0x7FF0_0000_0000_0000
    }

    fn is_nan(self) -> (r: bool)
        ensures
            r == (self@ is NotANumber),
    {
        self.magnitude() > 0x7FF0_0000_0000_0000
    }

    /// Numeric `<`.
    pub fn less(self, other: Number) -> (r: bool)
        ensures
            r == self@.lt(other@),
    {
        if self.is_nan() || other.is_nan() {
            return false;
        }
        proof {
            lemma_order(self, other);
        }
        self.signed() < other.signed()
    }

    /// Numeric `<=`.
    pub fn at_most(self, other: Number) -> (r: bool)
        ensures
            r == self@.le(other@),
    {
        if self.is_nan() || other.is_nan() {
            return false;
        }
        proof {
            lemma_order(self, other);
        }
        self.signed() <= other.signed()
    }

    /// Numeric `==`.
    pub fn equals(self, other: Number) -> (r: bool)
        ensures
            r == self@.same(other@),
    {
        if self.is_nan() || other.is_nan() {
            return false;
        }
        proof {
            lemma_order(self, other);
        }
        self.signed() == other.signed()
    }

    /// Key of the total order over all patterns.
    pub fn total_key(self) -> (r: i128)
        ensures
            r == total_order(self.bits),
    {
        let m: u64 = self.magnitude();
        if self.bits >= 0x8000_0000_0000_0000 {
            -(m as i128) - 1
        } else {
            m as i128
        }
    }
}

/// The total order agrees with numeric order: a smaller number has a smaller
/// key, and distinct patterns have distinct keys.
pub proof fn law_total_order(a: Number, b: Number)
    ensures
        a@.lt(b@) ==> total_order(a.bits) < total_order(b.bits),
        total_order(a.bits) == total_order(b.bits) ==> a == b,
{
    if a@.lt(b@) {
        lemma_order(a, b);
    }
}

/// Bit patterns of the numbers that the rules name.
pub const ZERO: u64 = 0;

pub const ONE: u64 = 0x3FF0_0000_0000_0000;

pub const NINETY: u64 = 0x4056_8000_0000_0000;

pub const MINUS_NINETY: u64 = 0xC056_8000_0000_0000;

pub const HALF_TURN: u64 = 0x4066_8000_0000_0000;

pub const MINUS_HALF_TURN: u64 = 0xC066_8000_0000_0000;

/// The double nearest to 0.1.
pub const TENTH: u64 = 0x3FB9_9999_9999_999A;

/// The double nearest to 0.001.
pub const THOUSANDTH: u64 = 0x3F50_624D_D2F1_A9FC;

/// The named bounds are the whole numbers that they stand for.
pub proof fn lemma_bounds()
    ensures
        (Number { bits: ZERO })@ == Real::Finite(0),
        (Number { bits: ONE })@ == Real::Finite(unit()),
        (Number { bits: NINETY })@ == Real::Finite(90 * unit()),
        (Number { bits: MINUS_NINETY })@ == Real::Finite(-90 * unit()),
        (Number { bits: HALF_TURN })@ == Real::Finite(180 * unit()),
        (Number { bits: MINUS_HALF_TURN })@ == Real::Finite(-180 * unit()),
{
    lemma2_to64();
    lemma_pow2_adds(52, 1022);
    lemma_pow2_adds(46, 1028);
    lemma_pow2_adds(1, 1028);
    let p = pow2(1028) as int;
    assert(pow2(1029) == 2 * p);
    let n = pow2(46) as int;
    assert(n == 0x4000_0000_0000) by {
        lemma_pow2_adds(32, 14);
    }
    assert(pow2(52) == 0x10_0000_0000_0000) by {
        lemma_pow2_adds(32, 20);
    }
    assert((90 * n) * p == 90 * (n * p)) by (nonlinear_arith);
    assert((90 * n) * (2 * p) == 180 * (n * p)) by (nonlinear_arith);
}

/// Whether a number lies in the closed range from `low` to `high`.
pub fn within(x: Number, low: Number, high: Number) -> (r: bool)
    ensures
        r == (x@ is Finite && low@.le(x@) && x@.le(high@)),
{
    x.is_finite() && low.at_most(x) && x.at_most(high)
}

/// Whether a number is the fraction `p / q` up to `2^-50 / q`.
pub open spec fn about(x: Number, p: int, q: int) -> bool {
    x@ matches Real::Finite(v) && -unit() <= (q * v - p * unit()) * 0x4_0000_0000_0000 <= unit()
}

/// A pattern whose exponent field is `1075 - s` stands for its fraction over `2^s`.
pub proof fn lemma_value(x: Number, s: nat, power: int)
    requires
        x.bits < 0x8000_0000_0000_0000,
        x.bits as int / 0x10_0000_0000_0000 == 1075 - s,
        29 <= s <= 1074,
        pow2(s) == power,
    ensures
        ({
            let m = 0x10_0000_0000_0000 + x.bits as int % 0x10_0000_0000_0000;
            x@ matches Real::Finite(v) && v * power == m * unit()
        }),
{
    let m = 0x10_0000_0000_0000 + x.bits as int % 0x10_0000_0000_0000;
    lemma_pow2_adds(s, (1074 - s) as nat);
    let p = pow2((1074 - s) as nat) as int;
    assert((m * p) * power == m * (power * p)) by (nonlinear_arith);
}

/// A pattern is about `p / q` where its fraction says so.
proof fn lemma_about(x: Number, s: nat, power: int, p: int, q: int)
    requires
        x.bits < 0x8000_0000_0000_0000,
        x.bits as int / 0x10_0000_0000_0000 == 1075 - s,
        51 <= s <= 1074,
        pow2(s) == power,
        ({
            let m = 0x10_0000_0000_0000 + x.bits as int % 0x10_0000_0000_0000;
            -power <= (q * m - p * power) * 0x4_0000_0000_0000 <= power
        }),
    ensures
        about(x, p, q),
        about(Number { bits: (x.bits + 0x8000_0000_0000_0000) as u64 }, -p, q),
{
    lemma_value(x, s, power);
    lemma_pow2_pos(s);
    lemma_pow2_pos(1074);
    let m = 0x10_0000_0000_0000 + x.bits as int % 0x10_0000_0000_0000;
    let v = x@->0;
    let u = unit();
    let d = q * m - p * power;
    let e = q * v - p * u;
    let k = 0x4_0000_0000_0000int;
    assert(e * power == u * d) by (nonlinear_arith)
        requires
            v * power == m * u,
            d == q * m - p * power,
            e == q * v - p * u,
    ;
    assert((e * k) * power == u * (d * k)) by (nonlinear_arith)
        requires
            e * power == u * d,
    ;
    assert(-u <= e * k <= u) by (nonlinear_arith)
        requires
            (e * k) * power == u * (d * k),
            -power <= d * k <= power,
            power > 0,
            u > 0,
    ;
    let y = Number { bits: (x.bits + 0x8000_0000_0000_0000) as u64 };
    assert(y@ == Real::Finite(-v));
    assert(q * (-v) - (-p) * u == -e) by (nonlinear_arith)
        requires
            e == q * v - p * u,
    ;
}

/// The fractions that the rules name.
pub proof fn law_named_fractions()
    ensures
        about(Number { bits: 0x3FB9_9999_9999_999A }, 1, 10),
        about(Number { bits: 0xBFB9_9999_9999_999A }, -1, 10),
        about(Number { bits: 0x3F50_624D_D2F1_A9FC }, 1, 1000),
        about(Number { bits: 0x3FA9_9999_9999_999A }, 1, 20),
        about(Number { bits: 0x3FC3_3333_3333_3333 }, 3, 20),
        about(Number { bits: 0x3FC9_9999_9999_999A }, 1, 5),
        about(Number { bits: 0x3FD3_3333_3333_3333 }, 3, 10),
        about(Number { bits: 0x3E11_2E0B_E826_D695 }, 1, 1_000_000_000),
{
    vstd::arithmetic::power2::lemma2_to64();
    vstd::arithmetic::power2::lemma2_to64_rest();
    assert(pow2(82) == 0x4_0000_0000_0000_0000_0000) by {
        lemma_pow2_adds(18, 64);
    }
    lemma_about(Number { bits: 0x3FB9_9999_9999_999A }, 56, 0x100_0000_0000_0000, 1, 10);
    lemma_about(Number { bits: 0x3F50_624D_D2F1_A9FC }, 62, 0x4000_0000_0000_0000, 1, 1000);
    lemma_about(Number { bits: 0x3FA9_9999_9999_999A }, 57, 0x200_0000_0000_0000, 1, 20);
    lemma_about(Number { bits: 0x3FC3_3333_3333_3333 }, 55, 0x80_0000_0000_0000, 3, 20);
    lemma_about(Number { bits: 0x3FC9_9999_9999_999A }, 55, 0x80_0000_0000_0000, 1, 5);
    lemma_about(Number { bits: 0x3FD3_3333_3333_3333 }, 54, 0x40_0000_0000_0000, 3, 10);
    lemma_about(
        Number { bits: 0x3E11_2E0B_E826_D695 },
        82,
        0x4_0000_0000_0000_0000_0000,
        1,
        1_000_000_000,
    );
}

/// What a pattern stands for: the sign bit negates, one more in the exponent field
/// doubles, one is the pattern that exponent 1023 alone gives, patterns below the
/// first exponent count units, and only the last exponent is not finite.
pub proof fn law_patterns(x: Number)
    requires
        x.bits < 0x8000_0000_0000_0000,
    ensures
        ({
            let negated = Number { bits: (x.bits + 0x8000_0000_0000_0000) as u64 };
            let doubled = Number { bits: (x.bits + 0x10_0000_0000_0000) as u64 };
            &&& x.bits < 0x10_0000_0000_0000 ==> x@ == Real::Finite(x.bits as int)
            &&& x@ is Finite <==> x.bits < 0x7FF0_0000_0000_0000
            &&& x@ is NotANumber <==> x.bits > 0x7FF0_0000_0000_0000
            &&& x.bits == 0x7FF0_0000_0000_0000 ==> x@ == Real::PositiveInfinity && negated@
                == Real::NegativeInfinity
            &&& x@ is Finite ==> x@->0 >= 0 && negated@ == Real::Finite(-x@->0)
            &&& x@ is NotANumber ==> negated@ is NotANumber
            &&& 0x10_0000_0000_0000 <= x.bits < 0x7FE0_0000_0000_0000 ==> doubled@ == Real::Finite(
                2 * x@->0,
            )
        }),
        (Number { bits: 0x3FF0_0000_0000_0000 })@ == Real::Finite(unit()),
{
    lemma_bounds();
    lemma_scaled_nonnegative(x.bits as int);
    if 0x10_0000_0000_0000 <= x.bits < 0x7FE0_0000_0000_0000 {
        let w = 0x10_0000_0000_0000int;
        let e = x.bits as int / w;
        let f = x.bits as int % w;
        assert((x.bits + w) / w == e + 1 && (x.bits + w) % w == f);
        lemma2_to64();
        lemma_pow2_adds(1, (e - 1) as nat);
        let p = pow2((e - 1) as nat) as int;
        assert((w + f) * (2 * p) == 2 * ((w + f) * p)) by (nonlinear_arith);
    }
}

/// Numeric order is the order of the values, with the infinities at the ends; a NaN
/// is neither below, above nor equal to anything, itself included.
pub proof fn law_numeric_order(a: Real, b: Real, c: Real)
    ensures
        !a.lt(a),
        a.lt(b) && b.lt(c) ==> a.lt(c),
        a.le(b) <==> a.lt(b) || a.same(b),
        a is NotANumber || b is NotANumber ==> !a.lt(b) && !a.same(b) && !a.le(b),
        a !is NotANumber && b !is NotANumber ==> a.lt(b) || b.lt(a) || a.same(b),
        a.same(b) <==> a == b && a !is NotANumber,
        a is Finite && b is Finite ==> (a.lt(b) <==> a->0 < b->0) && (a.le(b) <==> a->0 <= b->0),
        a is Finite ==> Real::NegativeInfinity.lt(a) && a.lt(Real::PositiveInfinity),
{
}

/// A number is between two whole numbers when it is at least the one and at most the
/// other.
pub proof fn law_between(x: Real, low: int, high: int)
    ensures
        x.between(low, high) <==> x is Finite && Real::Finite(low * unit()).le(x) && x.le(
            Real::Finite(high * unit()),
        ),
{
}

} // verus!
