//! Double-precision numbers, held as their bit patterns.
//!
//! A number of the IEEE 754 binary64 format is a whole multiple of two to the power of minus
//! 1074. Contracts measure a number by that multiple, so that exact results are integers, and
//! an operation's result is the exact one rounded to the nearest number of the format.

use crate::text;
use crate::text::{push_decimal, push_doubled_decimal};
use vstd::arithmetic::div_mod::*;
use vstd::arithmetic::mul::*;
use vstd::arithmetic::power2::*;
use vstd::prelude::*;

verus! {

/// A number of the binary64 format: one sign bit, eleven exponent bits, 52 fraction bits.
#[derive(Clone, Copy, Debug, PartialEq, Eq, Structural)]
pub struct Binary64 {
    pub bits: u64,
}

/// The smallest significand of a normal number.
pub const NORMAL: u64 = 0x10_0000_0000_0000;

/// The bit pattern in which only the sign bit is set.
pub const SIGN: u64 = 0x8000_0000_0000_0000;

/// The bit pattern of 100.0.
pub const HUNDRED: u64 = 0x4059_0000_0000_0000;

/// The bit pattern of 0.5.
pub const HALF: u64 = 0x3fe0_0000_0000_0000;

/// The bit pattern of 1.0.
pub const ONE: u64 = 0x3ff0_0000_0000_0000;

/// The bit pattern of 1e12.
pub const TRILLION: u64 = 0x426d_1a94_a200_0000;

/// The number one, measured in units.
pub open spec fn one() -> nat {
    pow2(1074)
}

impl Binary64 {
    pub open spec fn negative(self) -> bool {
        self.bits >= SIGN
    }

    /// The exponent bits.
    pub open spec fn exponent(self) -> nat {
        (self.bits / NORMAL % 2048) as nat
    }

    /// The fraction bits.
    pub open spec fn fraction(self) -> nat {
        (self.bits % NORMAL) as nat
    }

    pub open spec fn finite(self) -> bool {
        self.exponent() < 2047
    }

    pub open spec fn nan(self) -> bool {
        self.exponent() == 2047 && self.fraction() != 0
    }

    pub open spec fn significand(self) -> nat {
        if self.exponent() == 0 {
            self.fraction()
        } else {
            NORMAL as nat + self.fraction()
        }
    }

    /// The power of two by which the significand is multiplied.
    pub open spec fn shift(self) -> nat {
        if self.exponent() == 0 {
            0
        } else {
            (self.exponent() - 1) as nat
        }
    }

    /// The absolute value in units.
    pub open spec fn magnitude(self) -> nat {
        self.significand() * pow2(self.shift())
    }

    /// The value in units. An infinity counts as the next power of two after the finite numbers.
    pub open spec fn units(self) -> int {
        if self.negative() {
            -self.magnitude()
        } else {
            self.magnitude() as int
        }
    }

    /// Numeric order; a NaN is neither below nor above anything.
    pub open spec fn below(self, other: Binary64) -> bool {
        !self.nan() && !other.nan() && self.units() < other.units()
    }

    /// Numeric equality: the two zeros are equal, a NaN equals nothing.
    pub open spec fn same(self, other: Binary64) -> bool {
        !self.nan() && !other.nan() && self.units() == other.units()
    }
}

/// Magnitudes are ordered as the bit patterns without the sign bit.
proof fn lemma_magnitude_order(a: Binary64, b: Binary64)
    requires
        a.bits % SIGN < b.bits % SIGN,
    ensures
        a.magnitude() < b.magnitude(),
{
    let (ea, fa) = (a.exponent(), a.fraction());
    let (eb, fb) = (b.exponent(), b.fraction());
    assert(a.bits % SIGN == ea * NORMAL + fa);
    assert(b.bits % SIGN == eb * NORMAL + fb);
    lemma_pow2_pos(a.shift());
    lemma_pow2_pos(b.shift());
    assert(ea <= eb);
    if ea == eb {
        assert(a.significand() < b.significand());
        lemma_mul_strict_inequality(
            a.significand() as int,
            b.significand() as int,
            pow2(a.shift()) as int,
        );
    } else {
        assert(b.significand() >= NORMAL);
        lemma_mul_inequality(NORMAL as int, b.significand() as int, pow2(b.shift()) as int);
        if ea == 0 {
            lemma2_to64();
            assert(a.magnitude() == a.fraction()) by {
                lemma_mul_basics(a.significand() as int);
            }
            lemma_mul_inequality(1, pow2(b.shift()) as int, NORMAL as int);
            lemma_mul_is_commutative(NORMAL as int, pow2(b.shift()) as int);
        } else {
            lemma_mul_strict_inequality(
                a.significand() as int,
                2 * NORMAL as int,
                pow2(a.shift()) as int,
            );
            lemma_pow2_unfold(a.shift() + 1);
            if a.shift() + 1 < b.shift() {
                lemma_pow2_strictly_increases(a.shift() + 1, b.shift());
            }
            assert(2 * NORMAL as int * pow2(a.shift()) <= NORMAL as int * pow2(b.shift()))
                by (nonlinear_arith)
                requires
                    2 * pow2(a.shift()) <= pow2(b.shift()),
                    NORMAL >= 0,
            ;
        }
    }
}

proof fn lemma_magnitude_same(a: Binary64, b: Binary64)
    requires
        a.bits % SIGN == b.bits % SIGN,
    ensures
        a.magnitude() == b.magnitude(),
{
    assert(a.bits % SIGN == a.exponent() * NORMAL + a.fraction());
    assert(b.bits % SIGN == b.exponent() * NORMAL + b.fraction());
}

proof fn lemma_magnitude_zero(a: Binary64)
    ensures
        a.bits % SIGN == 0 ==> a.magnitude() == 0,
        a.bits % SIGN != 0 ==> a.magnitude() > 0,
{
    lemma_pow2_pos(a.shift());
    assert(a.bits % SIGN == a.exponent() * NORMAL + a.fraction());
    if a.bits % SIGN != 0 {
        assert(a.significand() > 0);
        lemma_mul_strictly_positive(a.significand() as int, pow2(a.shift()) as int);
    } else {
        lemma_mul_basics(pow2(a.shift()) as int);
    }
}

/// Positive numbers are ordered as their bit patterns.
pub proof fn lemma_positive_order(a: Binary64, b: Binary64)
    requires
        a.bits < b.bits < 0x7ff0_0000_0000_0000,
    ensures
        a.below(b),
        !b.below(a),
{
    lemma_magnitude_order(a, b);
}

impl Binary64 {
    pub fn is_nan(self) -> (nan: bool)
        ensures
            nan == self.nan(),
    {
        self.bits / NORMAL % 2048 == 2047 && self.bits % NORMAL != 0
    }

    pub fn is_finite(self) -> (finite: bool)
        ensures
            finite == self.finite(),
    {
        self.bits / NORMAL % 2048 != 2047
    }

    /// Whether this number is below the other one.
    pub fn is_below(self, other: Binary64) -> (below: bool)
        ensures
            below == self.below(other),
    {
        if self.is_nan() || other.is_nan() {
            return false;
        }
        let a: u64 = self.bits % SIGN;
        let b: u64 = other.bits % SIGN;
        proof {
            lemma_magnitude_zero(self);
            lemma_magnitude_zero(other);
            if a < b {
                lemma_magnitude_order(self, other);
            } else if b < a {
                lemma_magnitude_order(other, self);
            } else {
                lemma_magnitude_same(self, other);
            }
        }
        if self.bits < SIGN {
            other.bits < SIGN && a < b
        } else if other.bits < SIGN {
            a != 0 || b != 0
        } else {
            b < a
        }
    }

    /// Whether the two numbers are equal.
    pub fn is_same(self, other: Binary64) -> (same: bool)
        ensures
            same == self.same(other),
    {
        !self.is_nan() && !other.is_nan() && !self.is_below(other) && !other.is_below(self)
    }
}

/// The distance of neighbouring numbers of the format at a magnitude.
pub open spec fn quantum(n: nat) -> nat
    decreases n,
{
    if n < 2 * NORMAL {
        1
    } else {
        2 * quantum(n / 2)
    }
}

/// The multiple of `q` nearest to `n`; of two equally near ones the even multiple.
pub open spec fn nearest_multiple(n: nat, q: nat) -> nat {
    let below = n / q;
    let rest = n % q;
    if 2 * rest < q || (2 * rest == q && below % 2 == 0) {
        below * q
    } else {
        (below + 1) * q
    }
}

/// A magnitude rounded to the nearest number of the format, ties to the even significand.
pub open spec fn rounded(n: nat) -> nat {
    nearest_multiple(n, quantum(n))
}

/// A value rounded to the nearest number of the format, ties to the even significand.
pub open spec fn rounded_value(x: int) -> int {
    if x < 0 {
        -rounded((-x) as nat)
    } else {
        rounded(x as nat) as int
    }
}

proof fn lemma_quantum_at(n: nat, k: nat)
    requires
        NORMAL * pow2(k) <= n < 2 * NORMAL * pow2(k),
    ensures
        quantum(n) == pow2(k),
    decreases k,
{
    if k == 0 {
        lemma2_to64();
    } else {
        lemma_pow2_unfold(k);
        lemma_pow2_pos((k - 1) as nat);
        let p = pow2((k - 1) as nat) as int;
        assert(n >= 2 * NORMAL) by (nonlinear_arith)
            requires
                n >= NORMAL * (2 * p),
                p >= 1,
                NORMAL >= 0,
        ;
        assert(NORMAL * p <= n / 2 < 2 * NORMAL * p) by {
            assert(NORMAL * (2 * p) == 2 * (NORMAL * p)) by (nonlinear_arith);
            assert(2 * NORMAL * (2 * p) == 2 * (2 * NORMAL * p)) by (nonlinear_arith);
        }
        lemma_quantum_at(n / 2, (k - 1) as nat);
    }
}

proof fn lemma_quantum_positive(n: nat)
    ensures
        quantum(n) >= 1,
    decreases n,
{
    if n >= 2 * NORMAL {
        lemma_quantum_positive(n / 2);
    }
}

/// Rounding to a multiple scales with a common factor.
proof fn lemma_nearest_scaled(n: nat, q: nat, p: nat)
    requires
        q > 0,
        p > 0,
    ensures
        nearest_multiple(n * p, q * p) == nearest_multiple(n, q) * p,
{
    let below = n / q;
    let rest = n % q;
    lemma_fundamental_div_mod(n as int, q as int);
    assert(n * p == below * (q * p) + rest * p) by (nonlinear_arith)
        requires
            n == q * below + rest,
    ;
    assert(0 <= rest * p < q * p) by (nonlinear_arith)
        requires
            0 <= rest < q,
            p > 0,
    ;
    lemma_fundamental_div_mod_converse(
        (n * p) as int,
        (q * p) as int,
        below as int,
        (rest * p) as int,
    );
    assert(2 * (rest * p) < q * p <==> 2 * rest < q) by (nonlinear_arith)
        requires
            p > 0,
    ;
    assert(2 * (rest * p) == q * p <==> 2 * rest == q) by (nonlinear_arith)
        requires
            p > 0,
    ;
    assert(below * (q * p) == (below * q) * p) by (nonlinear_arith);
    assert((below + 1) * (q * p) == ((below + 1) * q) * p) by (nonlinear_arith);
}

proof fn lemma_nearest_of_multiple(f: nat, q: nat)
    requires
        q > 0,
    ensures
        nearest_multiple(f * q, q) == f * q,
{
    lemma_fundamental_div_mod_converse((f * q) as int, q as int, f as int, 0);
}

proof fn lemma_rounded_doubled(n: nat)
    ensures
        rounded(2 * n) == 2 * rounded(n),
{
    lemma_quantum_positive(n);
    if 2 * n < 2 * NORMAL {
        lemma_nearest_of_multiple(2 * n, 1);
        lemma_nearest_of_multiple(n, 1);
    } else {
        assert((2 * n) / 2 == n);
        lemma_nearest_scaled(n, quantum(n), 2);
    }
}

/// Rounding scales with powers of two.
proof fn lemma_rounded_scaled(n: nat, t: nat)
    ensures
        rounded(n * pow2(t)) == rounded(n) * pow2(t),
    decreases t,
{
    if t == 0 {
        lemma2_to64();
    } else {
        lemma_pow2_unfold(t);
        let p = pow2((t - 1) as nat);
        lemma_rounded_scaled(n, (t - 1) as nat);
        lemma_rounded_doubled(n * p);
        assert(n * (2 * p) == 2 * (n * p)) by (nonlinear_arith);
        assert(rounded(n) * (2 * p) == 2 * (rounded(n) * p)) by (nonlinear_arith);
    }
}

/// A significand and the power of two by which it is multiplied.
struct Scaled {
    significand: u64,
    shift: u32,
}

impl Scaled {
    spec fn magnitude(self) -> nat {
        self.significand as nat * pow2(self.shift as nat)
    }
}

/// Rounds a magnitude to a significand of 53 bits.
fn round_significand(n: u128) -> (result: Scaled)
    ensures
        result.magnitude() == rounded(n as nat),
        result.significand <= 2 * NORMAL,
        result.shift <= 75,
        result.shift > 0 ==> NORMAL * pow2(result.shift as nat) <= n,
{
    let mut below: u128 = n;
    let mut q: u128 = 1;
    let mut k: u32 = 0;
    proof {
        lemma2_to64();
        lemma_div_basics(n as int);
    }
    while below >= 2 * NORMAL as u128
        invariant
            q == pow2(k as nat),
            q >= 1,
            below == n / q,
            quantum(n as nat) == q * quantum(below as nat),
            k <= 75,
            k > 0 ==> below >= NORMAL,
        decreases below,
    {
        proof {
            lemma_fundamental_div_mod(n as int, q as int);
            assert(2 * NORMAL * q <= n) by (nonlinear_arith)
                requires
                    n == q * below + n % q,
                    below >= 2 * NORMAL,
                    n % q >= 0,
                    q >= 1,
            ;
            lemma_pow2_unfold((k + 1) as nat);
            lemma_div_denominator(n as int, q as int, 2);
            assert(q * (2 * quantum((below / 2) as nat)) == (q * 2) * quantum((below / 2) as nat))
                by (nonlinear_arith);
            if k >= 75 {
                lemma2_to64();
                lemma_pow2_adds(64, 11);
            }
        }
        below = below / 2;
        q = q * 2;
        k = k + 1;
    }
    proof {
        lemma_fundamental_div_mod(n as int, q as int);
        lemma_mul_is_commutative(below as int, q as int);
        lemma_mul_basics(q as int);
        if k > 0 {
            lemma_mul_inequality(NORMAL as int, below as int, q as int);
        }
    }
    let rest: u128 = n - below * q;
    let significand: u128 = if 2 * rest < q || (2 * rest == q && below % 2 == 0) {
        below
    } else {
        below + 1
    };
    Scaled { significand: significand as u64, shift: k }
}

/// A nonnegative number of the format with the given magnitude.
fn encode(significand: u64, shift: u32) -> (result: Binary64)
    requires
        significand <= 2 * NORMAL,
        shift <= 2000,
    ensures
        !result.negative(),
        result.finite(),
        result.units() == significand * pow2(shift as nat),
{
    let mut m: u64 = significand;
    let mut e: u32 = shift;
    while m < NORMAL && e > 0
        invariant
            m <= 2 * NORMAL,
            e <= 2000,
            m * pow2(e as nat) == significand * pow2(shift as nat),
        ensures
            m <= 2 * NORMAL,
            e <= 2000,
            m * pow2(e as nat) == significand * pow2(shift as nat),
            m < NORMAL ==> e == 0,
        decreases e,
    {
        proof {
            lemma_pow2_unfold(e as nat);
            assert(m * (2 * pow2((e - 1) as nat)) == (2 * m) * pow2((e - 1) as nat))
                by (nonlinear_arith);
        }
        m = 2 * m;
        e = e - 1;
    }
    if m == 2 * NORMAL {
        proof {
            lemma_pow2_unfold((e + 1) as nat);
            assert(NORMAL * (2 * pow2(e as nat)) == (2 * NORMAL) * pow2(e as nat))
                by (nonlinear_arith);
        }
        m = NORMAL;
        e = e + 1;
    }
    if m < NORMAL {
        Binary64 { bits: m }
    } else {
        let result: Binary64 = Binary64 { bits: (e as u64 + 1) * NORMAL + (m - NORMAL) };
        assert(result.exponent() == e + 1 && result.fraction() == m - NORMAL);
        result
    }
}

/// Two to the power of `k`.
fn power_of_two(k: u32) -> (result: u128)
    requires
        k <= 120,
    ensures
        result == pow2(k as nat),
{
    let mut result: u128 = 1;
    let mut i: u32 = 0;
    proof {
        lemma2_to64();
    }
    while i < k
        invariant
            i <= k <= 120,
            result == pow2(i as nat),
        decreases k - i,
    {
        proof {
            lemma_pow2_unfold((i + 1) as nat);
            lemma2_to64();
            lemma2_to64_rest();
            lemma_pow2_adds(64, 56);
            if i + 1 < 120 {
                lemma_pow2_strictly_increases((i + 1) as nat, 120);
            }
        }
        result = result * 2;
        i = i + 1;
    }
    result
}

/// The whole part of `significand * 2^shift / 2^1074`, at most `cap`.
fn whole_part(significand: u64, shift: u32, cap: u64) -> (result: u64)
    requires
        shift <= 4000,
    ensures
        result as int == if significand as nat * pow2(shift as nat) / one() <= cap {
            (significand as nat * pow2(shift as nat) / one()) as int
        } else {
            cap as int
        },
{
    let ghost exact = significand as nat * pow2(shift as nat);
    proof {
        lemma_pow2_pos(1074);
    }
    if shift >= 1074 {
        let mut v: u128 = significand as u128;
        let mut e: u32 = shift - 1074;
        proof {
            lemma_pow2_adds(1074, e as nat);
            assert(exact == (significand as nat * pow2(e as nat)) * one()) by (nonlinear_arith)
                requires
                    exact == significand as nat * pow2(shift as nat),
                    pow2(shift as nat) == pow2(1074) * pow2(e as nat),
                    one() == pow2(1074),
            ;
            lemma_div_multiples_vanish((significand as nat * pow2(e as nat)) as int, one() as int);
            lemma_mul_is_commutative((significand as nat * pow2(e as nat)) as int, one() as int);
        }
        while e > 0
            invariant
                v <= u64::MAX,
                exact == significand as nat * pow2(shift as nat),
                exact / one() == v * pow2(e as nat),
            decreases e,
        {
            if v > cap as u128 {
                proof {
                    lemma_pow2_pos(e as nat);
                    assert(v * pow2(e as nat) >= v) by (nonlinear_arith)
                        requires
                            pow2(e as nat) >= 1,
                            v >= 0,
                    ;
                }
                return cap;
            }
            if v > 0x7fff_ffff_ffff_ffff {
                proof {
                    lemma_pow2_unfold(e as nat);
                    lemma_pow2_pos((e - 1) as nat);
                    assert(v * (2 * pow2((e - 1) as nat)) >= 2 * v) by (nonlinear_arith)
                        requires
                            pow2((e - 1) as nat) >= 1,
                            v >= 0,
                    ;
                }
                return cap;
            }
            proof {
                lemma_pow2_unfold(e as nat);
                assert(v * (2 * pow2((e - 1) as nat)) == (v * 2) * pow2((e - 1) as nat))
                    by (nonlinear_arith);
            }
            v = v * 2;
            e = e - 1;
        }
        proof {
            lemma2_to64();
            lemma_mul_basics(v as int);
        }
        if v > cap as u128 {
            cap
        } else {
            v as u64
        }
    } else {
        let mut v: u64 = significand;
        let mut d: u32 = 1074 - shift;
        proof {
            lemma_pow2_adds(shift as nat, d as nat);
            lemma_pow2_pos(shift as nat);
            lemma_pow2_pos(d as nat);
            lemma_mul_is_commutative(significand as int, pow2(shift as nat) as int);
            lemma_truncate_middle_exact(significand as nat, pow2(d as nat), pow2(shift as nat));
        }
        while d > 0
            invariant
                exact / one() == v as nat / pow2(d as nat),
            decreases d,
        {
            proof {
                lemma_pow2_unfold(d as nat);
                lemma_pow2_pos((d - 1) as nat);
                lemma_div_denominator(v as int, 2, pow2((d - 1) as nat) as int);
            }
            v = v / 2;
            d = d - 1;
        }
        proof {
            lemma2_to64();
            lemma_div_basics(v as int);
        }
        if v > cap {
            cap
        } else {
            v
        }
    }
}

proof fn lemma_truncate_middle_exact(a: nat, b: nat, p: nat)
    requires
        b > 0,
        p > 0,
    ensures
        (p * a) / (p * b) == a / b,
{
    lemma_fundamental_div_mod(a as int, b as int);
    let q = a / b;
    let r = a % b;
    assert(p * a == q * (p * b) + p * r) by (nonlinear_arith)
        requires
            a == b * q + r,
    ;
    assert(0 <= p * r < p * b) by (nonlinear_arith)
        requires
            0 <= r < b,
            p > 0,
    ;
    lemma_fundamental_div_mod_converse((p * a) as int, (p * b) as int, q as int, (p * r) as int);
}

impl Binary64 {
    fn significand_bits(self) -> (significand: u64)
        ensures
            significand == self.significand(),
            significand < 2 * NORMAL,
    {
        if self.bits / NORMAL % 2048 == 0 {
            self.bits % NORMAL
        } else {
            NORMAL + self.bits % NORMAL
        }
    }

    fn shift_bits(self) -> (shift: u32)
        ensures
            shift == self.shift(),
            shift <= 2046,
            shift > 0 ==> self.significand() >= NORMAL,
    {
        let exponent: u64 = self.bits / NORMAL % 2048;
        if exponent == 0 {
            0
        } else {
            (exponent - 1) as u32
        }
    }

    /// This number, moved to the nearer end of the range if it lies outside; a NaN stays.
    pub open spec fn clamped(self, low: Binary64, high: Binary64) -> Binary64 {
        if self.below(low) {
            low
        } else if high.below(self) {
            high
        } else {
            self
        }
    }

    pub fn clamp(self, low: Binary64, high: Binary64) -> (result: Binary64)
        ensures
            result == self.clamped(low, high),
    {
        if self.is_below(low) {
            low
        } else if high.is_below(self) {
            high
        } else {
            self
        }
    }

    /// The whole part, towards zero, as far as an unsigned 64-bit integer reaches.
    pub open spec fn whole(self) -> int {
        if self.nan() || self.negative() {
            0
        } else if self.magnitude() / one() <= u64::MAX {
            (self.magnitude() / one()) as int
        } else {
            u64::MAX as int
        }
    }

    pub fn to_whole(self) -> (result: u64)
        ensures
            result == self.whole(),
    {
        if self.is_nan() || self.bits >= SIGN {
            return 0;
        }
        whole_part(self.significand_bits(), self.shift_bits(), u64::MAX)
    }
}

/// The power of two that is the quantum at a magnitude.
proof fn lemma_quantum_form(n: nat) -> (j: nat)
    ensures
        quantum(n) == pow2(j),
        j > 0 ==> NORMAL * pow2(j) <= n,
        n < 2 * NORMAL * pow2(j),
    decreases n,
{
    if n < 2 * NORMAL {
        lemma2_to64();
        0
    } else {
        let i = lemma_quantum_form(n / 2);
        lemma_pow2_unfold(i + 1);
        if i == 0 {
            lemma2_to64();
        }
        assert(NORMAL * (2 * pow2(i)) == 2 * (NORMAL * pow2(i))) by (nonlinear_arith);
        assert(2 * NORMAL * (2 * pow2(i)) == 2 * (2 * NORMAL * pow2(i))) by (nonlinear_arith);
        i + 1
    }
}

/// Rounding does not go below a number of the format from above, nor above it from below.
proof fn lemma_rounded_bound(n: nat, f: nat, k: nat)
    requires
        NORMAL <= f < 2 * NORMAL,
    ensures
        n >= f * pow2(k) ==> rounded(n) >= f * pow2(k),
        n <= f * pow2(k) ==> rounded(n) <= f * pow2(k),
{
    let c = f * pow2(k);
    let j = lemma_quantum_form(n);
    let q = pow2(j);
    lemma_pow2_pos(j);
    lemma_pow2_pos(k);
    lemma_fundamental_div_mod(n as int, q as int);
    let below = n / q;
    let rest = n % q;
    assert(rounded(n) >= below * q && rounded(n) <= (below + 1) * q) by (nonlinear_arith)
        requires
            rounded(n) == below * q || rounded(n) == (below + 1) * q,
            q > 0,
    ;
    if n >= c {
        if j < k {
            lemma_pow2_unfold(j + 1);
            if j + 1 < k {
                lemma_pow2_strictly_increases(j + 1, k);
            }
            assert(c >= 2 * NORMAL * q) by (nonlinear_arith)
                requires
                    c == f * pow2(k),
                    f >= NORMAL,
                    pow2(k) >= 2 * q,
                    q > 0,
            ;
        } else if j == k {
            assert(below >= f) by (nonlinear_arith)
                requires
                    q * below + rest >= f * q,
                    rest < q,
                    q > 0,
            ;
            lemma_mul_inequality(f as int, below as int, q as int);
        } else {
            lemma_pow2_unfold(k + 1);
            if k + 1 < j {
                lemma_pow2_strictly_increases(k + 1, j);
            }
            assert(below >= NORMAL) by (nonlinear_arith)
                requires
                    q * below + rest >= NORMAL * q,
                    rest < q,
                    q > 0,
            ;
            assert(below * q >= c) by (nonlinear_arith)
                requires
                    below >= NORMAL,
                    q >= 2 * pow2(k),
                    c == f * pow2(k),
                    f < 2 * NORMAL,
                    pow2(k) > 0,
            ;
        }
    }
    if n <= c {
        if j > k {
            lemma_pow2_unfold(k + 1);
            if k + 1 < j {
                lemma_pow2_strictly_increases(k + 1, j);
            }
            assert(n > c) by (nonlinear_arith)
                requires
                    n >= NORMAL * q,
                    q >= 2 * pow2(k),
                    c == f * pow2(k),
                    f < 2 * NORMAL,
                    pow2(k) > 0,
            ;
        } else {
            let g = f * pow2((k - j) as nat);
            lemma_pow2_adds(j, (k - j) as nat);
            assert(c == g * q) by (nonlinear_arith)
                requires
                    c == f * pow2(k),
                    pow2(k) == q * pow2((k - j) as nat),
                    g == f * pow2((k - j) as nat),
            ;
            if n == c {
                lemma_nearest_of_multiple(g, q);
            } else {
                assert(below + 1 <= g) by (nonlinear_arith)
                    requires
                        q * below + rest < g * q,
                        rest >= 0,
                        q > 0,
                ;
                lemma_mul_inequality((below + 1) as int, g as int, q as int);
            }
        }
    }
}

pub proof fn lemma_one_positive()
    ensures
        one() > 0,
{
    lemma_pow2_pos(1074);
}

/// Whole numbers of up to 53 bits are numbers of the format.
pub proof fn lemma_rounded_whole(n: nat)
    requires
        n < 2 * NORMAL,
    ensures
        rounded(n * one()) == n * one(),
{
    lemma_rounded_scaled(n, 1074);
    lemma_nearest_of_multiple(n, 1);
}

pub proof fn lemma_whole_over_one(n: nat)
    ensures
        n * one() / one() == n,
{
    lemma_pow2_pos(1074);
    lemma_multiple_over(n, one());
}

/// One hundred is the number that its bit pattern says.
pub proof fn lemma_hundred()
    ensures
        !(Binary64 { bits: HUNDRED }).nan(),
        (Binary64 { bits: HUNDRED }).units() == 100 * one(),
        100 * one() == 100 * pow2(46) * pow2(1028),
        NORMAL <= 100 * pow2(46) < 2 * NORMAL,
{
    lemma2_to64();
    lemma2_to64_rest();
    lemma_pow2_adds(46, 1028);
    let h = Binary64 { bits: HUNDRED };
    assert(h.exponent() == 1029);
    assert(h.significand() == 100 * pow2(46));
    assert(100 * pow2(46) * pow2(1028) == 100 * (pow2(46) * pow2(1028))) by (nonlinear_arith);
}

/// 1e12 is the number that its bit pattern says.
pub proof fn lemma_trillion()
    ensures
        !(Binary64 { bits: TRILLION }).nan(),
        (Binary64 { bits: TRILLION }).units() == 1_000_000_000_000 * one(),
{
    lemma2_to64();
    lemma_pow2_adds(13, 1061);
    let t = Binary64 { bits: TRILLION };
    assert(t.exponent() == 1062);
    assert(t.significand() == 1_000_000_000_000 * pow2(13));
    assert(1_000_000_000_000 * pow2(13) * pow2(1061) == 1_000_000_000_000 * (pow2(13) * pow2(
        1061,
    ))) by (nonlinear_arith);
}

/// A half and one are the numbers that their bit patterns say.
pub proof fn lemma_half_and_one()
    ensures
        !(Binary64 { bits: HALF }).nan(),
        !(Binary64 { bits: ONE }).nan(),
        2 * (Binary64 { bits: HALF }).units() == one(),
        (Binary64 { bits: ONE }).units() == one(),
{
    lemma2_to64();
    lemma2_to64_rest();
    lemma_pow2_adds(52, 1021);
    lemma_pow2_adds(52, 1022);
    lemma_pow2_unfold(1074);
    let h = Binary64 { bits: HALF };
    let o = Binary64 { bits: ONE };
    assert(h.exponent() == 1022 && h.significand() == NORMAL);
    assert(o.exponent() == 1023 && o.significand() == NORMAL);
}

/// What is left of one hundred after `used`, in units: the rounded difference, kept between
/// zero and one hundred.
pub open spec fn remaining_units(used: Binary64) -> int {
    let difference = rounded_value(100 * one() - used.units());
    if difference < 0 {
        0
    } else if difference > 100 * one() {
        100 * one() as int
    } else {
        difference
    }
}

/// The nonnegative number of the format that has the given value in units.
pub open spec fn number_of_units(units: int) -> Binary64 {
    choose|x: Binary64| x.finite() && !x.negative() && #[trigger] x.units() == units
}

/// A nonnegative finite number is determined by its value.
pub proof fn lemma_number_of_units(x: Binary64)
    requires
        x.finite(),
        !x.negative(),
    ensures
        x == number_of_units(x.units()),
{
    let y = number_of_units(x.units());
    assert(y.finite() && !y.negative() && y.units() == x.units());
    if x.bits < y.bits {
        lemma_magnitude_order(x, y);
    } else if y.bits < x.bits {
        lemma_magnitude_order(y, x);
    }
}

/// A tiny amount taken from one hundred is lost in rounding.
proof fn lemma_hundred_less_little(x: nat)
    requires
        0 < x < pow2(1027),
    ensures
        x < 100 * one(),
        rounded((100 * one() - x) as nat) == 100 * one(),
{
    lemma_hundred();
    lemma2_to64();
    let f = (100 * pow2(46)) as int;
    let q = pow2(1028) as int;
    lemma_pow2_unfold(1028);
    lemma_pow2_pos(1027);
    lemma2_to64_rest();
    let n = f * q - x;
    assert(n == (f - 1) * q + (q - x)) by (nonlinear_arith)
        requires
            n == f * q - x,
    ;
    assert(NORMAL * q <= (f - 1) * q && f * q <= 2 * NORMAL * q) by (nonlinear_arith)
        requires
            NORMAL <= f - 1,
            f <= 2 * NORMAL,
            q >= 0,
    ;
    lemma_quantum_at(n as nat, 1028);
    lemma_fundamental_div_mod_converse(n, q, f - 1, q - x);
}

impl Binary64 {
    /// What is left of one hundred percent when this much is used.
    pub fn remaining(self) -> (result: Binary64)
        requires
            self.finite(),
        ensures
            result == number_of_units(remaining_units(self)),
            result.finite(),
            !result.negative(),
            result.units() == remaining_units(self),
    {
        let result: Binary64 = self.hundred_less();
        proof {
            lemma_number_of_units(result);
        }
        result
    }

    /// One hundred less this number, between zero and one hundred.
    fn hundred_less(self) -> (result: Binary64)
        requires
            self.finite(),
        ensures
            result.finite(),
            !result.negative(),
            result.units() == remaining_units(self),
    {
        let hundred: Binary64 = Binary64 { bits: HUNDRED };
        let zero: Binary64 = Binary64 { bits: 0 };
        proof {
            lemma_hundred();
            lemma_magnitude_zero(zero);
            lemma_pow2_pos(1074);
            lemma_rounded_bound(
                (100 * one() - self.units()) as nat,
                (100 * pow2(46)) as nat,
                1028,
            );
        }
        if !zero.is_below(self) {
            return hundred;
        }
        if !self.is_below(hundred) {
            return zero;
        }
        let significand: u64 = self.significand_bits();
        let shift: u32 = self.shift_bits();
        if shift < 974 {
            proof {
                lemma2_to64_rest();
                lemma_pow2_adds(53, shift as nat);
                lemma_pow2_pos(shift as nat);
                lemma_mul_strict_inequality(
                    significand as int,
                    2 * NORMAL as int,
                    pow2(shift as nat) as int,
                );
                if 53 + shift < 1027 {
                    lemma_pow2_strictly_increases((53 + shift) as nat, 1027);
                }
                lemma_hundred_less_little(self.magnitude());
            }
            return hundred;
        }
        proof {
            if shift > 1028 {
                lemma_pow2_unfold(1029);
                if shift > 1029 {
                    lemma_pow2_strictly_increases(1029, shift as nat);
                }
                assert(significand * pow2(shift as nat) >= 2 * NORMAL * pow2(1028))
                    by (nonlinear_arith)
                    requires
                        significand >= NORMAL,
                        pow2(shift as nat) >= 2 * pow2(1028),
                ;
                lemma_mul_inequality(
                    100 * pow2(46) as int,
                    2 * NORMAL as int,
                    pow2(1028) as int,
                );
            }
            lemma_pow2_adds((1074 - shift) as nat, shift as nat);
            lemma2_to64();
            lemma2_to64_rest();
            lemma_pow2_adds(64, 36);
            if shift > 974 {
                lemma_pow2_strictly_increases((1074 - shift) as nat, 100);
            }
        }
        let whole: u128 = 100 * power_of_two(1074 - shift);
        let ghost p = pow2(shift as nat);
        proof {
            lemma_pow2_pos(shift as nat);
            assert(100 * one() - self.units() == (whole - significand) * p) by (nonlinear_arith)
                requires
                    one() == pow2((1074 - shift) as nat) * p,
                    whole == 100 * pow2((1074 - shift) as nat),
                    self.units() == significand * p,
            ;
            assert(whole > significand) by (nonlinear_arith)
                requires
                    (whole - significand) * p > 0,
                    p > 0,
            ;
            lemma_rounded_scaled((whole - significand) as nat, shift as nat);
        }
        let difference: Scaled = round_significand(whole - significand as u128);
        proof {
            lemma_pow2_adds(difference.shift as nat, shift as nat);
            lemma_mul_is_associative(
                difference.significand as int,
                pow2(difference.shift as nat) as int,
                pow2(shift as nat) as int,
            );
        }
        encode(difference.significand, difference.shift + shift)
    }

    /// The milliseconds that a point in time given by this number stands for: nothing where it is
    /// not positive; below 1e12 it counts seconds, else milliseconds. Both are cut to a whole
    /// number and to the range of a signed 64-bit integer.
    pub open spec fn epoch_millis(self) -> Option<int> {
        if self.units() <= 0 {
            None
        } else {
            let millis = if self.units() < 1_000_000_000_000 * one() {
                rounded(self.magnitude() * 1000) / one()
            } else {
                self.magnitude() / one()
            };
            if millis <= i64::MAX {
                Some(millis as int)
            } else {
                Some(i64::MAX as int)
            }
        }
    }

    pub fn to_epoch_millis(self) -> (result: Option<i64>)
        requires
            self.finite(),
        ensures
            result is Some == self.epoch_millis() is Some,
            result matches Some(millis) ==> self.epoch_millis() == Some(millis as int),
    {
        let zero: Binary64 = Binary64 { bits: 0 };
        proof {
            lemma_magnitude_zero(zero);
            lemma_trillion();
        }
        if !zero.is_below(self) {
            return None;
        }
        let significand: u64 = self.significand_bits();
        let shift: u32 = self.shift_bits();
        if self.is_below(Binary64 { bits: TRILLION }) {
            let product: Scaled = round_significand(significand as u128 * 1000);
            proof {
                let p = pow2(shift as nat);
                assert(self.magnitude() * 1000 == (significand * 1000) as nat * p)
                    by (nonlinear_arith)
                    requires
                        self.magnitude() == significand * p,
                ;
                lemma_rounded_scaled((significand * 1000) as nat, shift as nat);
                lemma_pow2_adds(product.shift as nat, shift as nat);
                lemma_mul_is_associative(
                    product.significand as int,
                    pow2(product.shift as nat) as int,
                    p as int,
                );
            }
            let millis: u64 = whole_part(
                product.significand,
                product.shift + shift,
                i64::MAX as u64,
            );
            Some(millis as i64)
        } else {
            let millis: u64 = whole_part(significand, shift, i64::MAX as u64);
            Some(millis as i64)
        }
    }

    /// The numeral of this number, rounded to a whole one, ties to even, with its sign.
    pub open spec fn whole_text(self) -> Seq<char> {
        if self.nan() {
            "NaN"@
        } else {
            let sign = if self.negative() {
                seq!['-']
            } else {
                Seq::empty()
            };
            if self.finite() {
                sign + text::decimal(nearest_multiple(self.magnitude(), one()) / one())
            } else {
                sign + "inf"@
            }
        }
    }
}

/// Rounding to whole numbers, seen on the significand alone.
proof fn lemma_nearest_whole(significand: nat, shift: nat)
    requires
        shift <= 1074,
    ensures
        nearest_multiple(significand * pow2(shift), one()) / one() == nearest_multiple(
            significand,
            pow2((1074 - shift) as nat),
        ) / pow2((1074 - shift) as nat),
{
    let q = pow2((1074 - shift) as nat);
    let p = pow2(shift);
    lemma_pow2_pos(shift);
    lemma_pow2_pos((1074 - shift) as nat);
    lemma_pow2_adds((1074 - shift) as nat, shift);
    lemma_nearest_scaled(significand, q, p);
    let m = nearest_multiple(significand, q);
    lemma_mul_is_commutative(m as int, p as int);
    lemma_mul_is_commutative(q as int, p as int);
    lemma_truncate_middle_exact(m, q, p);
}

proof fn lemma_multiple_over(f: nat, q: nat)
    requires
        q > 0,
    ensures
        f * q / q == f,
{
    lemma_div_multiples_vanish(f as int, q as int);
    lemma_mul_is_commutative(f as int, q as int);
}

impl Binary64 {
    /// Appends the numeral of this number, rounded to a whole one.
    pub fn push_whole_text(self, text: &mut String)
        ensures
            final(text)@ == old(text)@ + self.whole_text(),
    {
        let ghost before = text@;
        if self.is_nan() {
            text.append("NaN");
            return ;
        }
        if self.bits >= SIGN {
            text.push('-');
        }
        let ghost signed = text@;
        if !self.is_finite() {
            text.append("inf");
            assert(text@ =~= before + self.whole_text());
            return ;
        }
        let significand: u64 = self.significand_bits();
        let shift: u32 = self.shift_bits();
        proof {
            lemma_pow2_pos(1074);
        }
        if shift >= 1074 {
            push_doubled_decimal(text, significand, shift - 1074);
            proof {
                let v = significand as nat * pow2((shift - 1074) as nat);
                lemma_pow2_adds((shift - 1074) as nat, 1074);
                lemma_mul_is_associative(
                    significand as int,
                    pow2((shift - 1074) as nat) as int,
                    one() as int,
                );
                lemma_nearest_of_multiple(v, one());
                lemma_multiple_over(v, one());
            }
        } else {
            let d: u32 = 1074 - shift;
            proof {
                lemma_nearest_whole(significand as nat, shift as nat);
                lemma_pow2_pos(d as nat);
                lemma2_to64();
                lemma2_to64_rest();
            }
            if d > 63 {
                proof {
                    if d > 64 {
                        lemma_pow2_strictly_increases(64, d as nat);
                    }
                    lemma_small_mod(significand as nat, pow2(d as nat));
                    lemma_basic_div(significand as int, pow2(d as nat) as int);
                    lemma_basic_div(0, pow2(d as nat) as int);
                }
                push_decimal(text, 0);
            } else {
                let q: u128 = power_of_two(d);
                let below: u128 = significand as u128 / q;
                let rest: u128 = significand as u128 % q;
                proof {
                    if d < 63 {
                        lemma_pow2_strictly_increases(d as nat, 63);
                    }
                    lemma_div_is_ordered_by_denominator(significand as int, 1, q as int);
                    lemma_div_basics(significand as int);
                    lemma_multiple_over(below as nat, q as nat);
                    lemma_multiple_over((below + 1) as nat, q as nat);
                }
                if 2 * rest < q || (2 * rest == q && below % 2 == 0) {
                    push_decimal(text, below as u64);
                } else {
                    push_decimal(text, (below + 1) as u64);
                }
            }
        }
        assert(text@ =~= before + self.whole_text());
    }

    /// This number times 255, rounded to a whole one, halves upwards.
    pub open spec fn of_255(self) -> nat {
        (2 * rounded(self.magnitude() * 255) + one()) / (2 * one())
    }

    /// This number, between a half and one, scaled to a byte.
    pub fn to_byte(self) -> (result: u8)
        requires
            HALF <= self.bits <= ONE,
        ensures
            result == self.of_255(),
    {
        let significand: u64 = self.significand_bits();
        let shift: u32 = self.shift_bits();
        assert(1021 <= shift <= 1022);
        let product: Scaled = round_significand(significand as u128 * 255);
        let ghost p = pow2(shift as nat);
        proof {
            lemma2_to64();
            lemma2_to64_rest();
            if product.shift > 9 {
                lemma_pow2_strictly_increases(9, product.shift as nat);
            }
            assert(self.magnitude() * 255 == (significand * 255) as nat * p) by (nonlinear_arith)
                requires
                    self.magnitude() == significand * p,
            ;
            lemma_rounded_scaled((significand * 255) as nat, shift as nat);
        }
        let m: u64 = product.significand;
        let s: u32 = product.shift + shift;
        let d: u32 = 1074 - s;
        proof {
            lemma_pow2_adds(product.shift as nat, shift as nat);
            lemma_mul_is_associative(m as int, pow2(product.shift as nat) as int, p as int);
            lemma_pow2_adds(s as nat, d as nat);
            lemma_pow2_pos(s as nat);
            lemma_pow2_pos(d as nat);
            if d < 63 {
                lemma_pow2_strictly_increases(d as nat, 63);
            }
        }
        let q: u128 = power_of_two(d);
        proof {
            let e = pow2(s as nat);
            assert(2 * rounded(self.magnitude() * 255) + one() == e * (2 * m as nat + q as nat))
                by (nonlinear_arith)
                requires
                    rounded(self.magnitude() * 255) == m * e,
                    one() == e * q,
            ;
            assert(2 * one() == e * (2 * q as nat)) by (nonlinear_arith)
                requires
                    one() == e * q,
            ;
            lemma_truncate_middle_exact(2 * m as nat + q as nat, 2 * q as nat, e);
            lemma_byte_range(self);
        }
        ((2 * m as u128 + q) / (2 * q)) as u8
    }
}

/// A number that is kept between a half and one has a bit pattern between theirs.
pub proof fn lemma_clamped_pattern(x: Binary64)
    requires
        !x.nan(),
    ensures
        HALF <= x.clamped(Binary64 { bits: HALF }, Binary64 { bits: ONE }).bits <= ONE,
{
    let low = Binary64 { bits: HALF };
    let high = Binary64 { bits: ONE };
    lemma_magnitude_zero(low);
    if x.bits < HALF {
        lemma_magnitude_order(x, low);
    }
    if ONE < x.bits < SIGN {
        lemma_magnitude_order(high, x);
    }
}

/// From a half to one, a number times 255 rounds to 128 up to 255.
pub proof fn lemma_byte_range(x: Binary64)
    requires
        HALF <= x.bits <= ONE,
    ensures
        128 <= x.of_255() <= 255,
{
    lemma_half_and_one();
    lemma2_to64();
    lemma2_to64_rest();
    lemma_pow2_pos(1074);
    let h = Binary64 { bits: HALF };
    let o = Binary64 { bits: ONE };
    if x.bits < ONE {
        lemma_magnitude_order(x, o);
    }
    if HALF < x.bits {
        lemma_magnitude_order(h, x);
    }
    lemma_pow2_unfold(1029);
    lemma_pow2_adds(45, 1029);
    assert(255 * one() == 255 * pow2(45) * pow2(1029)) by (nonlinear_arith)
        requires
            one() == pow2(45) * pow2(1029),
    ;
    assert(255 * one() == 2 * (255 * pow2(45) * pow2(1028))) by (nonlinear_arith)
        requires
            255 * one() == 255 * pow2(45) * pow2(1029),
            pow2(1029) == 2 * pow2(1028),
    ;
    lemma_rounded_bound(x.magnitude() * 255, 255 * pow2(45), 1029);
    lemma_rounded_bound(x.magnitude() * 255, 255 * pow2(45), 1028);
    let n = 2 * rounded(x.magnitude() * 255) + one();
    assert(128 * (2 * one()) <= n < 256 * (2 * one()));
    lemma_multiply_divide_lt(n as int, (2 * one()) as int, 256);
    lemma_multiple_over(128, 2 * one());
    lemma_div_is_ordered(128 * (2 * one()) as int, n as int, (2 * one()) as int);
}

/// Rounding changes a magnitude by at most half a unit in the last of 53 binary places.
pub proof fn law_rounding_error(n: nat)
    ensures
        0x20_0000_0000_0000 * (rounded(n) - n) <= n,
        0x20_0000_0000_0000 * (n - rounded(n)) <= n,
{
    let j = lemma_quantum_form(n);
    let q = pow2(j);
    lemma_pow2_pos(j);
    lemma_fundamental_div_mod(n as int, q as int);
    let below = n / q;
    let rest = n % q;
    assert(n == below * q + rest) by (nonlinear_arith)
        requires
            n == q * below + rest,
    ;
    assert((below + 1) * q == below * q + q) by (nonlinear_arith);
    if j == 0 {
        lemma2_to64();
        assert(rest == 0);
    } else {
        assert(2 * (rounded(n) - n) <= q && 2 * (n - rounded(n)) <= q);
        assert(0x20_0000_0000_0000 * (rounded(n) - n) <= n && 0x20_0000_0000_0000 * (n - rounded(n))
            <= n) by (nonlinear_arith)
            requires
                2 * (rounded(n) - n) <= q,
                2 * (n - rounded(n)) <= q,
                0x10_0000_0000_0000 * q <= n,
        ;
    }
}

/// A whole number of up to 53 bits has 53 bits once it is doubled often enough.
proof fn lemma_normalized(k: nat) -> (t: nat)
    requires
        0 < k < 2 * NORMAL,
    ensures
        NORMAL <= k * pow2(t) < 2 * NORMAL,
        t <= 1074,
    decreases 2 * NORMAL - k,
{
    if k >= NORMAL {
        lemma2_to64();
        0
    } else {
        let t = lemma_normalized(2 * k);
        lemma_pow2_unfold(t + 1);
        assert(k * (2 * pow2(t)) == 2 * k * pow2(t)) by (nonlinear_arith);
        if t + 1 > 1074 {
            lemma2_to64();
            lemma2_to64_rest();
            lemma_pow2_strictly_increases(53, t + 1);
            assert(k * pow2(t + 1) >= pow2(t + 1)) by (nonlinear_arith)
                requires
                    k >= 1,
                    pow2(t + 1) >= 0,
            ;
        }
        t + 1
    }
}

/// Rounding does not pass a whole number of up to 53 bits.
proof fn lemma_rounded_beside_whole(n: nat, k: nat)
    requires
        k < 2 * NORMAL,
    ensures
        n >= k * one() ==> rounded(n) >= k * one(),
        n <= k * one() ==> rounded(n) <= k * one(),
{
    if k > 0 {
        let t = lemma_normalized(k);
        lemma_pow2_adds(t, (1074 - t) as nat);
        assert(k * pow2(t) * pow2((1074 - t) as nat) == k * (pow2(t) * pow2((1074 - t) as nat)))
            by (nonlinear_arith);
        lemma_rounded_bound(n, k * pow2(t), (1074 - t) as nat);
    } else {
        lemma_quantum_positive(n);
        if n == 0 {
            lemma_nearest_of_multiple(0, quantum(0));
        }
    }
}

/// A number with the given significand and power of two.
proof fn lemma_number_exists(m: nat, e: nat) -> (x: Binary64)
    requires
        m <= 2 * NORMAL,
        e <= 2000,
        m >= NORMAL || e == 0,
    ensures
        x.finite(),
        !x.negative(),
        x.units() == m * pow2(e),
{
    lemma2_to64();
    if m < NORMAL {
        Binary64 { bits: m as u64 }
    } else if m == 2 * NORMAL {
        let x = Binary64 { bits: ((e + 2) * NORMAL) as u64 };
        assert(x.exponent() == e + 2 && x.fraction() == 0);
        lemma_pow2_unfold(e + 1);
        assert(NORMAL * (2 * pow2(e)) == 2 * NORMAL * pow2(e)) by (nonlinear_arith);
        x
    } else {
        let x = Binary64 { bits: ((e + 1) * NORMAL + (m - NORMAL)) as u64 };
        assert(x.exponent() == e + 1 && x.fraction() == m - NORMAL);
        x
    }
}

/// What is left of one hundred is the difference to one hundred, up to rounding in the last of 53
/// binary places; where more than one hundred is used nothing is left, and where less than
/// nothing is used one hundred. It is a number of the format.
pub proof fn law_remaining_is_the_rest(used: Binary64)
    requires
        used.finite(),
    ensures
        ({
            let rest = number_of_units(remaining_units(used));
            let difference = 100 * one() - used.units();
            &&& rest.finite()
            &&& !rest.negative()
            &&& difference <= 0 ==> rest.units() == 0
            &&& difference >= 100 * one() ==> rest.units() == 100 * one()
            &&& 0 < difference < 100 * one() ==> {
                &&& 0x20_0000_0000_0000 * (rest.units() - difference) <= difference
                &&& 0x20_0000_0000_0000 * (difference - rest.units()) <= difference
            }
        }),
{
    let difference = 100 * one() - used.units();
    lemma_hundred();
    lemma_pow2_pos(1074);
    lemma2_to64();
    lemma2_to64_rest();
    let rest = remaining_units(used);
    let x = if difference <= 0 {
        let zero = Binary64 { bits: 0 };
        lemma_magnitude_zero(zero);
        assert(rest == 0) by {
            if difference == 0 {
                lemma_nearest_of_multiple(0, quantum(0));
            }
        }
        zero
    } else {
        let n = difference as nat;
        lemma_rounded_bound(n, (100 * pow2(46)) as nat, 1028);
        if difference >= 100 * one() {
            assert(rest == 100 * one());
            Binary64 { bits: HUNDRED }
        } else {
            law_rounding_error(n);
            let j = lemma_quantum_form(n);
            let q = pow2(j);
            lemma_pow2_pos(j);
            lemma_fundamental_div_mod(n as int, q as int);
            let below = n / q;
            assert(rest == rounded(n));
            assert(below < 2 * NORMAL) by (nonlinear_arith)
                requires
                    q * below + n % q < 2 * NORMAL * q,
                    n % q >= 0,
                    q > 0,
                    n == q * below + n % q,
            ;
            if j > 0 {
                assert(below >= NORMAL) by (nonlinear_arith)
                    requires
                        q * below + n % q >= NORMAL * q,
                        n % q < q,
                        q > 0,
                ;
            }
            if j > 2000 {
                lemma_pow2_adds(7, 1074);
                lemma_pow2_strictly_increases(1081, j);
                assert(NORMAL * q >= q) by (nonlinear_arith)
                    requires
                        NORMAL >= 1,
                        q >= 0,
                ;
                assert(128 * one() == pow2(1081));
            }
            let m = if rounded(n) == below * q {
                below
            } else {
                below + 1
            };
            lemma_number_exists(m, j)
        }
    };
    assert(x.units() == rest);
    lemma_number_of_units(x);
}

/// A number kept in a range lies in it; one that lies in it is kept, and another becomes the
/// nearer end.
pub proof fn law_clamping_keeps_what_is_in_range(x: Binary64, low: Binary64, high: Binary64)
    requires
        !low.nan(),
        !high.nan(),
        low.units() <= high.units(),
    ensures
        x.nan() ==> x.clamped(low, high) == x,
        !x.nan() ==> low.units() <= x.clamped(low, high).units() <= high.units(),
        !x.nan() && low.units() <= x.units() <= high.units() ==> x.clamped(low, high) == x,
        !x.nan() && x.units() < low.units() ==> x.clamped(low, high) == low,
        !x.nan() && x.units() > high.units() ==> x.clamped(low, high) == high,
{
}

/// The whole part is the largest whole number that is not above the number, as far as 64 bits
/// reach; of a negative number and of what is no number it is zero.
pub proof fn law_whole_part_is_the_floor(x: Binary64)
    ensures
        x.nan() || x.negative() ==> x.whole() == 0,
        !x.nan() && !x.negative() && x.units() < 0x1_0000_0000_0000_0000 * one() ==> x.whole()
            * one() <= x.units() < (x.whole() + 1) * one(),
        !x.nan() && !x.negative() && x.units() >= 0x1_0000_0000_0000_0000 * one() ==> x.whole()
            == 0xffff_ffff_ffff_ffff,
{
    lemma_pow2_pos(1074);
    if !x.nan() && !x.negative() {
        lemma_floor(x.magnitude(), 0x1_0000_0000_0000_0000);
    }
}

/// A quotient by one in units is the floor.
proof fn lemma_floor(n: nat, limit: nat)
    ensures
        n / one() * one() <= n < (n / one() + 1) * one(),
        n < limit * one() <==> n / one() < limit,
{
    lemma_pow2_pos(1074);
    lemma_fundamental_div_mod(n as int, one() as int);
    let k = n / one();
    assert(k * one() <= n < (k + 1) * one()) by (nonlinear_arith)
        requires
            n == one() * k + n % one(),
            0 <= n % one() < one(),
    ;
    if k < limit {
        assert((k + 1) * one() <= limit * one()) by (nonlinear_arith)
            requires
                k + 1 <= limit,
        ;
    } else {
        assert(k * one() >= limit * one()) by (nonlinear_arith)
            requires
                k >= limit,
        ;
    }
}

/// A reset time that is not positive is none. One from 1e12 on counts milliseconds, whose
/// fraction is dropped; a smaller one counts seconds, and the thousandfold is off by rounding at
/// most.
pub proof fn law_reset_times(x: Binary64)
    requires
        x.finite(),
    ensures
        x.units() <= 0 ==> x.epoch_millis() is None,
        1_000_000_000_000 * one() <= x.units() < 0x8000_0000_0000_0000 * one() ==> (
        x.epoch_millis() matches Some(millis) && millis * one() <= x.units() < (millis + 1)
            * one()),
        x.units() >= 0x8000_0000_0000_0000 * one() ==> x.epoch_millis() == Some(
            0x7fff_ffff_ffff_ffffint,
        ),
        0 < x.units() < 1_000_000_000_000 * one() ==> (x.epoch_millis() matches Some(millis)
            && millis * one() <= x.units() * 1000 + one() && x.units() * 1000 < (millis + 1)
            * one()),
{
    lemma_pow2_pos(1074);
    if x.units() > 0 {
        let n = x.magnitude();
        lemma_floor(n, 0x8000_0000_0000_0000);
        if n < 1_000_000_000_000 * one() {
            let m = n * 1000;
            lemma_floor(m, 1_000_000_000_000_000);
            let k = m / one();
            lemma_rounded_beside_whole(m, k);
            lemma_rounded_beside_whole(m, k + 1);
            let r = rounded(m);
            lemma_floor(r, 1_000_000_000_000_002);
            let millis = r / one();
            assert(millis >= k) by (nonlinear_arith)
                requires
                    k * one() <= r,
                    r < (millis + 1) * one(),
                    one() > 0,
            ;
            assert(millis <= k + 1) by (nonlinear_arith)
                requires
                    r <= (k + 1) * one(),
                    millis * one() <= r,
                    one() > 0,
            ;
            assert(millis * one() <= m + one()) by (nonlinear_arith)
                requires
                    millis <= k + 1,
                    k * one() <= m,
            ;
            assert(m < (millis + 1) * one()) by (nonlinear_arith)
                requires
                    millis >= k,
                    m < (k + 1) * one(),
            ;
        }
    }
}

/// The numeral of a finite number is that of the nearest whole number, of two equally near ones
/// the even one, with a sign in front of it where the number is negative.
pub proof fn law_numeral_is_the_nearest(x: Binary64)
    requires
        x.finite(),
    ensures
        exists|whole: nat|
            2 * (whole * one() - x.magnitude()) <= one() && 2 * (x.magnitude() - whole * one())
                <= one() && (2 * (x.magnitude() - whole * one()) == one() || 2 * (whole * one()
                - x.magnitude()) == one() ==> whole % 2 == 0) && x.whole_text() == (if x.negative() {
                seq!['-']
            } else {
                Seq::empty()
            }) + #[trigger] text::decimal(whole),
{
    lemma_pow2_pos(1074);
    let n = x.magnitude();
    let q = one();
    lemma_fundamental_div_mod(n as int, q as int);
    let below = n / q;
    let rest = n % q;
    assert(n == below * q + rest) by (nonlinear_arith)
        requires
            n == q * below + rest,
    ;
    assert((below + 1) * q == below * q + q) by (nonlinear_arith);
    lemma_multiple_over(below, q);
    lemma_multiple_over(below + 1, q);
    let whole = nearest_multiple(n, q) / q;
    assert(whole == below || whole == below + 1);
    assert(!x.nan());
    assert(x.whole_text() == (if x.negative() {
        seq!['-']
    } else {
        Seq::empty()
    }) + text::decimal(whole));
}

/// A byte is the nearest to 255 times the number, up to rounding in the last of 53 binary places.
pub proof fn law_byte_is_the_nearest(x: Binary64)
    requires
        HALF <= x.bits <= ONE,
    ensures
        ({
            let exact = x.magnitude() * 255;
            let byte = x.of_255() * one();
            &&& 0x20_0000_0000_0000 * (2 * (byte - exact) - one()) <= 2 * exact
            &&& 0x20_0000_0000_0000 * (2 * (exact - byte) - one()) <= 2 * exact
        }),
{
    lemma_pow2_pos(1074);
    let exact = x.magnitude() * 255;
    let r = rounded(exact);
    law_rounding_error(exact);
    let b = x.of_255();
    let q = 2 * one();
    lemma_fundamental_div_mod((2 * r + one()) as int, q as int);
    let rest = (2 * r + one()) % q;
    assert(2 * r + one() == 2 * (b * one()) + rest) by (nonlinear_arith)
        requires
            2 * r + one() == q * b + rest,
            q == 2 * one(),
    ;
}

/// A half and less, kept between a half and one, is 128 of 255.
pub proof fn lemma_half_is_128(x: Binary64)
    requires
        !x.nan(),
        x.units() <= (Binary64 { bits: HALF }).units(),
    ensures
        x.clamped(Binary64 { bits: HALF }, Binary64 { bits: ONE }).of_255() == 128,
{
    let h = Binary64 { bits: HALF };
    let o = Binary64 { bits: ONE };
    lemma_half_and_one();
    lemma_pow2_pos(1074);
    let y = x.clamped(h, o);
    assert(y.units() == h.units());
    lemma2_to64();
    lemma2_to64_rest();
    lemma_pow2_unfold(1029);
    lemma_pow2_adds(45, 1029);
    let exact = y.magnitude() * 255;
    assert(2 * exact == 255 * one());
    assert(255 * one() == 2 * (255 * pow2(45) * pow2(1028))) by (nonlinear_arith)
        requires
            one() == pow2(45) * pow2(1029),
            pow2(1029) == 2 * pow2(1028),
    ;
    lemma_rounded_bound(exact, 255 * pow2(45), 1028);
    assert(rounded(exact) == exact);
    assert(2 * rounded(exact) + one() == 128 * (2 * one()));
    lemma_multiple_over(128, 2 * one());
}

} // verus!
