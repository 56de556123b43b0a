//! Floating-point numbers as bit patterns.
//!
//! The numbers of a problem, of the solver parameters and of a solver response are IEEE 754
//! numbers. They are kept as their bit patterns and worked on as integers, exactly.
use vstd::prelude::*;
use vstd::arithmetic::power2::*;
use vstd::arithmetic::div_mod::*;
use crate::format::Format;

verus! {

/// The weight of the sign bit of a 64-bit pattern.
pub const SIGN64: u64 = 0x8000_0000_0000_0000;

/// The magnitude of the 64-bit infinities.
pub const INFINITY64: u64 = 0x7ff0_0000_0000_0000;

/// The magnitude of the 64-bit number 1.
pub const ONE64: u64 = 0x3ff0_0000_0000_0000;

/// The weight of the sign bit of a 32-bit pattern.
pub const SIGN32: u32 = 0x8000_0000;

/// The magnitude of the 32-bit infinities.
pub const INFINITY32: u32 = 0x7f80_0000;

/// A 64-bit floating-point number, by its bit pattern.
#[derive(Clone, Copy, Debug, PartialEq, Eq, Structural)]
pub struct Float64 {
    pub bits: u64,
}

/// A 32-bit floating-point number, by its bit pattern.
#[derive(Clone, Copy, Debug, PartialEq, Eq, Structural)]
pub struct Float32 {
    pub bits: u32,
}

impl Float64 {
    /// Whether the sign bit is set, as it also is in a negative zero.
    pub open spec fn negative(self) -> bool {
        self.bits >= SIGN64
    }

    /// The pattern without its sign bit.
    pub open spec fn magnitude(self) -> nat {
        (self.bits % SIGN64) as nat
    }

    pub open spec fn nan(self) -> bool {
        self.magnitude() > INFINITY64
    }

    pub open spec fn infinite(self) -> bool {
        self.magnitude() == INFINITY64
    }

    pub open spec fn finite(self) -> bool {
        self.magnitude() < INFINITY64
    }

    /// How many units, smallest positive numbers, make up the number 1.
    pub open spec fn one() -> nat {
        pow2(1074)
    }

    /// The number in units. An infinity counts as the number that would follow the greatest finite
    /// one.
    pub open spec fn scaled(self) -> int {
        let units = Format::binary64().units(self.magnitude()) as int;
        if self.negative() {
            -units
        } else {
            units
        }
    }

    /// Whether the number is an integer.
    pub open spec fn integral(self) -> bool {
        self.finite() && self.scaled() % (Self::one() as int) == 0
    }

    /// The greatest integer that is not above the number.
    pub open spec fn floor(self) -> int {
        self.scaled() / (Self::one() as int)
    }

    /// The least integer that is not below the number.
    pub open spec fn ceil(self) -> int {
        -((-self.scaled()) / (Self::one() as int))
    }

    /// The pattern without its sign bit.
    pub fn to_magnitude(self) -> (magnitude: u64)
        ensures
            magnitude == self.magnitude(),
    {
        self.bits % SIGN64
    }

    pub fn is_finite(self) -> (finite: bool)
        ensures
            finite == self.finite(),
    {
        self.to_magnitude() < INFINITY64
    }

    pub fn is_infinite(self) -> (infinite: bool)
        ensures
            infinite == self.infinite(),
    {
        self.to_magnitude() == INFINITY64
    }

    pub fn is_nan(self) -> (nan: bool)
        ensures
            nan == self.nan(),
    {
        self.to_magnitude() > INFINITY64
    }

    pub fn is_sign_negative(self) -> (negative: bool)
        ensures
            negative == self.negative(),
    {
        self.bits >= SIGN64
    }

    /// The number with the opposite sign.
    pub fn negated(self) -> (opposite: Float64)
        ensures
            opposite == self.opposite(),
            opposite.magnitude() == self.magnitude(),
            opposite.negative() == !self.negative(),
            opposite.scaled() == -self.scaled(),
    {
        if self.bits >= SIGN64 {
            Float64 { bits: self.bits - SIGN64 }
        } else {
            Float64 { bits: self.bits + SIGN64 }
        }
    }

    /// The pattern with the sign bit flipped.
    pub open spec fn opposite(self) -> Float64 {
        if self.negative() {
            Float64 { bits: (self.bits - SIGN64) as u64 }
        } else {
            Float64 { bits: (self.bits + SIGN64) as u64 }
        }
    }
}

/// The facts about the 64-bit format that tie it to machine integers.
pub(crate) proof fn lemma_binary64()
    ensures
        Format::binary64().wf(),
        Format::binary64().hidden() == 0x10_0000_0000_0000,
        Format::binary64().infinity() == INFINITY64,
{
    lemma2_to64_rest();
}

/// The facts about the 32-bit format that tie it to machine integers.
pub(crate) proof fn lemma_binary32()
    ensures
        Format::binary32().wf(),
        Format::binary32().hidden() == 0x80_0000,
        Format::binary32().infinity() == INFINITY32,
{
    lemma2_to64();
}

/// The significand and the scale of a 64-bit magnitude: it stands for `significand * 2^scale`
/// units.
pub(crate) fn decode(magnitude: u64) -> (parts: (u64, u32))
    requires
        magnitude < INFINITY64,
    ensures
        Format::binary64().units(magnitude as nat) == parts.0 * pow2(parts.1 as nat),
        parts.0 < 0x20_0000_0000_0000,
        parts.1 <= 2045,
        parts.1 == 0 || parts.0 >= 0x10_0000_0000_0000,
        magnitude == parts.1 * 0x10_0000_0000_0000 + parts.0,
{
    let exponent: u64 = magnitude / 0x10_0000_0000_0000;
    let fraction: u64 = magnitude % 0x10_0000_0000_0000;
    proof {
        lemma_binary64();
        lemma2_to64();
        assert(fraction * 1 == fraction);
    }
    if exponent == 0 {
        (fraction, 0)
    } else {
        (0x10_0000_0000_0000 + fraction, (exponent - 1) as u32)
    }
}

/// Dividing `significand * 2^scale` by `2^(scale + bits)` drops `bits` bits of the significand.
proof fn lemma_drop_bits(significand: nat, scale: nat, bits: nat)
    ensures
        (significand * pow2(scale)) / pow2(scale + bits) == significand / pow2(bits),
        (significand * pow2(scale)) % pow2(scale + bits) == (significand % pow2(bits)) * pow2(scale),
{
    let p = pow2(scale) as int;
    let s = pow2(bits) as int;
    let m = significand as int;
    lemma_pow2_pos(scale);
    lemma_pow2_pos(bits);
    lemma_pow2_adds(scale, bits);
    lemma_fundamental_div_mod(m, s);
    let q = m / s;
    let r = m % s;
    assert(m * p == q * (p * s) + r * p) by (nonlinear_arith)
        requires
            m == s * q + r,
    ;
    assert(0 <= r * p < p * s) by (nonlinear_arith)
        requires
            0 <= r < s,
            p > 0,
    ;
    lemma_fundamental_div_mod_converse(m * p, p * s, q, r * p);
}

/// A multiple of the unit that has the scale of 1 or more is an integer.
proof fn lemma_raise_scale(significand: nat, scale: nat, bits: nat)
    ensures
        (significand * pow2(scale + bits)) / pow2(scale) == significand * pow2(bits),
        (significand * pow2(scale + bits)) % pow2(scale) == 0,
{
    let p = pow2(scale) as int;
    let s = pow2(bits) as int;
    let m = significand as int;
    lemma_pow2_pos(scale);
    lemma_pow2_adds(scale, bits);
    assert(m * (p * s) == (m * s) * p + 0) by (nonlinear_arith);
    lemma_fundamental_div_mod_converse(m * (p * s), p, m * s, 0);
}

/// The whole part of a magnitude and whether it has a fractional part; nothing for a number that
/// reaches 2^64, which is whole.
fn whole_part(magnitude: u64) -> (parts: Option<(u64, bool)>)
    requires
        magnitude < INFINITY64,
    ensures
        ({
            let units = Format::binary64().units(magnitude as nat);
            match parts {
                Some((whole, fractional)) => {
                    &&& whole == units / Float64::one()
                    &&& fractional == (units % Float64::one() != 0)
                    &&& fractional ==> whole < 0x20_0000_0000_0000
                },
                None => {
                    &&& units % Float64::one() == 0
                    &&& units / Float64::one() >= 0x1_0000_0000_0000_0000
                },
            }
        }),
{
    let (significand, scale) = decode(magnitude);
    proof {
        lemma2_to64();
        lemma2_to64_rest();
        lemma_pow2_pos(scale as nat);
    }
    if scale >= 1074 {
        let bits: u32 = scale - 1074;
        proof {
            lemma_raise_scale(significand as nat, 1074, bits as nat);
        }
        if bits <= 11 {
            let factor: u64 = crate::format::power_of_two(bits);
            proof {
                if bits < 11 {
                    lemma_pow2_strictly_increases(bits as nat, 11);
                }
                assert(significand * factor <= 0x1f_ffff_ffff_ffff * 0x800) by (nonlinear_arith)
                    requires
                        significand <= 0x1f_ffff_ffff_ffff,
                        factor <= 0x800,
                ;
            }
            Some((significand * factor, false))
        } else {
            proof {
                if bits > 12 {
                    lemma_pow2_strictly_increases(12, bits as nat);
                }
                let factor = pow2(bits as nat);
                assert(significand * factor >= 0x10_0000_0000_0000 * 0x1000) by (nonlinear_arith)
                    requires
                        significand >= 0x10_0000_0000_0000,
                        factor >= 0x1000,
                ;
            }
            None
        }
    } else {
        let bits: u32 = 1074 - scale;
        proof {
            lemma_drop_bits(significand as nat, scale as nat, bits as nat);
            let rest = significand as nat % pow2(bits as nat);
            let p = pow2(scale as nat);
            lemma_pow2_pos(bits as nat);
            assert(rest * p != 0 <==> rest != 0) by (nonlinear_arith)
                requires
                    p > 0,
            ;
        }
        if bits <= 52 {
            let divisor: u64 = crate::format::power_of_two(bits);
            proof {
                lemma_div_is_ordered_by_denominator(significand as int, 1, divisor as int);
            }
            Some((significand / divisor, significand % divisor != 0))
        } else {
            proof {
                if bits > 53 {
                    lemma_pow2_strictly_increases(53, bits as nat);
                }
                lemma_small_mod(significand as nat, pow2(bits as nat));
                lemma_basic_div(significand as int, pow2(bits as nat) as int);
            }
            Some((0, significand != 0))
        }
    }
}

/// Whole numbers and remainders of a number and of its opposite.
proof fn lemma_signed_parts(units: nat, one: nat)
    requires
        one > 0,
    ensures
        units % one == 0 ==> (-units) % (one as int) == 0 && (-units) / (one as int) == -(units
            / one),
        units % one != 0 ==> (-units) % (one as int) != 0 && (-units) / (one as int) == -(units
            / one) - 1,
{
    let u = units as int;
    let d = one as int;
    let q = u / d;
    let r = u % d;
    lemma_fundamental_div_mod(u, d);
    if r == 0 {
        assert(-u == (-q) * d + 0) by (nonlinear_arith)
            requires
                u == d * q,
        ;
        lemma_fundamental_div_mod_converse(-u, d, -q, 0);
    } else {
        assert(-u == (-q - 1) * d + (d - r)) by (nonlinear_arith)
            requires
                u == d * q + r,
        ;
        lemma_fundamental_div_mod_converse(-u, d, -q - 1, d - r);
    }
}

impl Float64 {
    /// Whether the number is an integer.
    pub fn is_integral(self) -> (integral: bool)
        ensures
            integral == self.integral(),
    {
        if !self.is_finite() {
            return false;
        }
        proof {
            lemma_pow2_pos(1074);
            lemma_signed_parts(Format::binary64().units(self.magnitude()), Self::one());
        }
        match whole_part(self.to_magnitude()) {
            Some((_, fractional)) => !fractional,
            None => true,
        }
    }

    /// The greatest integer that is not above the number; nothing where it is out of range, which
    /// it is for integers only.
    pub fn floor_to_i64(self) -> (integer: Option<i64>)
        requires
            self.finite(),
        ensures
            match integer {
                Some(n) => n == self.floor(),
                None => self.integral() && !(i64::MIN <= self.floor() <= i64::MAX),
            },
    {
        proof {
            lemma_pow2_pos(1074);
            lemma_signed_parts(Format::binary64().units(self.magnitude()), Self::one());
        }
        match whole_part(self.to_magnitude()) {
            Some((whole, fractional)) => if self.is_sign_negative() {
                if fractional {
                    negative_i64(whole + 1)
                } else {
                    negative_i64(whole)
                }
            } else {
                positive_i64(whole)
            },
            None => None,
        }
    }

    /// The least integer that is not below the number; nothing where it is out of range, which it
    /// is for integers only.
    pub fn ceil_to_i64(self) -> (integer: Option<i64>)
        requires
            self.finite(),
        ensures
            match integer {
                Some(n) => n == self.ceil(),
                None => self.integral() && !(i64::MIN <= self.ceil() <= i64::MAX),
            },
    {
        proof {
            lemma_pow2_pos(1074);
            lemma_signed_parts(Format::binary64().units(self.magnitude()), Self::one());
        }
        match whole_part(self.to_magnitude()) {
            Some((whole, fractional)) => if self.is_sign_negative() {
                negative_i64(whole)
            } else {
                if fractional {
                    positive_i64(whole + 1)
                } else {
                    positive_i64(whole)
                }
            },
            None => None,
        }
    }

    /// An integer is its own floor and ceiling.
    pub proof fn lemma_integral(self)
        requires
            self.integral(),
        ensures
            self.scaled() == self.floor() * Self::one(),
            self.ceil() == self.floor(),
    {
        lemma_pow2_pos(1074);
        let d = Self::one() as int;
        lemma_fundamental_div_mod(self.scaled(), d);
        assert(d * self.floor() == self.floor() * d) by (nonlinear_arith);
        lemma_signed_parts(Format::binary64().units(self.magnitude()), Self::one());
    }
}

/// The integer `whole`, where it is in range.
fn positive_i64(whole: u64) -> (integer: Option<i64>)
    ensures
        match integer {
            Some(n) => n == whole,
            None => whole > i64::MAX,
        },
{
    if whole <= 0x7fff_ffff_ffff_ffff {
        Some(whole as i64)
    } else {
        None
    }
}

/// The integer `-whole`, where it is in range.
fn negative_i64(whole: u64) -> (integer: Option<i64>)
    ensures
        match integer {
            Some(n) => n == -whole,
            None => -whole < i64::MIN,
        },
{
    if whole <= 0x7fff_ffff_ffff_ffff {
        Some(-(whole as i64))
    } else if whole == 0x8000_0000_0000_0000 {
        Some(i64::MIN)
    } else {
        None
    }
}

} // verus!
