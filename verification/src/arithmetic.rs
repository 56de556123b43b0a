//! Arithmetic on floating-point numbers, rounded to nearest and ties to even.
use vstd::prelude::*;
use vstd::arithmetic::power2::*;
use vstd::arithmetic::div_mod::*;
use crate::float::{Float32, Float64, INFINITY32, INFINITY64, ONE64, SIGN32, SIGN64};
use crate::float::decode;
use crate::format::Format;

verus! {

/// The absolute value of an integer.
pub open spec fn absolute(n: int) -> nat {
    if n < 0 {
        (-n) as nat
    } else {
        n as nat
    }
}

impl Float64 {
    /// The magnitude of `|self - other|`; nothing where that is not a number.
    pub open spec fn difference(self, other: Float64) -> Option<nat> {
        if self.nan() || other.nan() {
            None
        } else if self.infinite() && other.infinite() && self.negative() == other.negative() {
            None
        } else if self.infinite() || other.infinite() {
            Some(INFINITY64 as nat)
        } else {
            Some(Format::binary64().nearest(absolute(self.scaled() - other.scaled()), 1))
        }
    }

    /// The magnitude of the quotient of two magnitudes; nothing where that is not a number.
    pub open spec fn quotient(dividend: nat, divisor: nat) -> Option<nat> {
        if dividend == INFINITY64 && divisor == INFINITY64 {
            None
        } else if dividend == INFINITY64 {
            Some(INFINITY64 as nat)
        } else if divisor == INFINITY64 {
            Some(0)
        } else {
            let format = Format::binary64();
            Some(format.nearest(format.units(dividend) * Self::one(), format.units(divisor)))
        }
    }

    /// The magnitude of the greater of `|self|` and 1; of 1 where `self` is not a number.
    pub open spec fn at_least_one(self) -> nat {
        if self.nan() || self.magnitude() < ONE64 {
            ONE64 as nat
        } else {
            self.magnitude()
        }
    }

    /// Whether the number of a magnitude is less than or equal to this number.
    pub open spec fn not_below(self, magnitude: nat) -> bool {
        !self.nan() && Format::binary64().units(magnitude) <= self.scaled()
    }

    /// Whether the number of a magnitude is less than or equal to this number.
    pub fn is_not_below(self, magnitude: u64) -> (result: bool)
        requires
            magnitude <= INFINITY64,
        ensures
            result == self.not_below(magnitude as nat),
    {
        if self.is_nan() {
            return false;
        }
        let own: u64 = self.to_magnitude();
        proof {
            let format = Format::binary64();
            crate::float::lemma_binary64();
            assert(format.units(0) == 0);
            format.lemma_units_monotonic(0, own as nat);
            format.lemma_units_monotonic(0, magnitude as nat);
            if magnitude <= own {
                format.lemma_units_monotonic(magnitude as nat, own as nat);
            } else {
                format.lemma_units_monotonic(own as nat, magnitude as nat);
            }
        }
        if self.is_sign_negative() {
            magnitude == 0 && own == 0
        } else {
            magnitude <= own
        }
    }

    /// The magnitude of the greater of `|self|` and 1; of 1 where `self` is not a number.
    pub fn to_at_least_one(self) -> (magnitude: u64)
        ensures
            magnitude == self.at_least_one(),
    {
        let own: u64 = self.to_magnitude();
        if self.is_nan() || own < ONE64 {
            ONE64
        } else {
            own
        }
    }

    /// The magnitude of `|self - other|`; nothing where that is not a number.
    pub fn abs_difference(self, other: Float64) -> (magnitude: Option<u64>)
        ensures
            match magnitude {
                Some(m) => self.difference(other) == Some(m as nat) && m <= INFINITY64,
                None => self.difference(other) is None,
            },
    {
        if self.is_nan() || other.is_nan() {
            return None;
        }
        if self.is_infinite() {
            return if other.is_infinite() && self.is_sign_negative() == other.is_sign_negative() {
                None
            } else {
                Some(INFINITY64)
            };
        }
        if other.is_infinite() {
            return Some(INFINITY64);
        }
        let a: u64 = self.to_magnitude();
        let b: u64 = other.to_magnitude();
        let opposed: bool = self.is_sign_negative() != other.is_sign_negative();
        proof {
            crate::float::lemma_binary64();
            if a >= b {
                Format::binary64().lemma_units_monotonic(b as nat, a as nat);
            } else {
                Format::binary64().lemma_units_monotonic(a as nat, b as nat);
            }
        }
        if a >= b {
            Some(combine(a, b, opposed))
        } else {
            Some(combine(b, a, opposed))
        }
    }
}

/// The distance of a number from its neighbours, against a number that is much smaller.
proof fn lemma_absorb(magnitude: nat, significand: nat, scale: nat, small: nat, total: nat)
    requires
        scale > 0,
        Format::binary64().hidden() <= significand < 2 * Format::binary64().hidden(),
        magnitude == scale * Format::binary64().hidden() + significand,
        magnitude < Format::binary64().infinity(),
        8 * small <= pow2(scale),
        small > 0 || total == significand * pow2(scale),
        total == significand * pow2(scale) + small || total + small == significand * pow2(scale),
    ensures
        Format::binary64().rounds_to(total, 1, magnitude),
{
    let format = Format::binary64();
    let h = format.hidden();
    let p = pow2(scale);
    format.lemma_encode(scale, significand);
    format.lemma_encode(scale, significand + 1);
    lemma_pow2_pos(scale);
    assert(scale * h + (significand + 1) == magnitude + 1);
    assert((significand + 1) * p == significand * p + p) by (nonlinear_arith);
    if significand > h {
        format.lemma_encode(scale, (significand - 1) as nat);
        assert((significand - 1) * p == significand * p - p) by (nonlinear_arith);
        assert(format.units((magnitude - 1) as nat) == significand * p - p);
    } else {
        let below = (scale - 1) as nat;
        crate::float::lemma_binary64();
        format.lemma_encode(below, (2 * h - 1) as nat);
        assert((scale - 1) * h == scale * h - h) by (nonlinear_arith);
        lemma_pow2_unfold(scale);
        let half = pow2(below);
        assert((2 * h - 1) * half == h * (2 * half) - half) by (nonlinear_arith);
        assert(format.units((magnitude - 1) as nat) == significand * p - half);
    }
}

/// The magnitude of the sum of two magnitudes, or of their difference, the greater one first.
fn combine(greater: u64, lesser: u64, add: bool) -> (magnitude: u64)
    requires
        lesser <= greater < INFINITY64,
    ensures
        ({
            let format = Format::binary64();
            let g = format.units(greater as nat);
            let l = format.units(lesser as nat);
            &&& magnitude <= INFINITY64
            &&& l <= g
            &&& magnitude == format.nearest(
                if add {
                    g + l
                } else {
                    (g - l) as nat
                },
                1,
            )
        }),
{
    let format = Format::binary64();
    proof {
        crate::float::lemma_binary64();
        lemma2_to64();
        lemma2_to64_rest();
        format.lemma_units_monotonic(lesser as nat, greater as nat);
    }
    let (m, e) = decode(greater);
    let (n, f) = decode(lesser);
    proof {
        assert(e >= f) by (nonlinear_arith)
            requires
                greater == e * 0x10_0000_0000_0000 + m,
                lesser == f * 0x10_0000_0000_0000 + n,
                lesser <= greater,
                f == 0 || n >= 0x10_0000_0000_0000,
                m < 0x20_0000_0000_0000,
        ;
        lemma_pow2_pos(f as nat);
    }
    let ghost g = format.units(greater as nat);
    let ghost l = format.units(lesser as nat);
    let ghost total: nat = if add { g + l } else { (g - l) as nat };
    let shift: u32 = e - f;
    if shift <= 63 {
        let factor: u64 = crate::format::power_of_two(shift);
        proof {
            lemma_pow2_adds(shift as nat, f as nat);
            lemma_pow2_strictly_increases(shift as nat, 64);
            let p = pow2(f as nat);
            assert(m * (factor * p) == (m * factor) * p) by (nonlinear_arith);
            assert(0 <= m * factor <= 0x20_0000_0000_0000 * 0x1_0000_0000_0000_0000) by (nonlinear_arith)
                requires
                    m <= 0x20_0000_0000_0000,
                    factor <= 0x1_0000_0000_0000_0000,
            ;
            assert((m * factor) * p >= n * p ==> m * factor >= n) by (nonlinear_arith)
                requires
                    p > 0,
            ;
            assert((m * factor + n) * p == (m * factor) * p + n * p) by (nonlinear_arith);
            assert((m * factor - n) * p == (m * factor) * p - n * p) by (nonlinear_arith);
        }
        let aligned: u128 = (m as u128) * (factor as u128);
        let sum: u128 = if add { aligned + n as u128 } else { aligned - n as u128 };
        proof {
            assert(total * 1 == total);
            assert(pow2(f as nat) * 1 == pow2(f as nat));
        }
        let magnitude = format.round_scaled(
            sum,
            false,
            f as i32,
            Ghost(total),
            Ghost(1),
            Ghost(0),
            Ghost(0),
        );
        proof {
            format.lemma_nearest(total, 1, magnitude as nat);
        }
        magnitude
    } else {
        proof {
            let small = l;
            lemma_pow2_adds(56, f as nat);
            if 56 + f < e {
                lemma_pow2_strictly_increases((56 + f) as nat, e as nat);
            }
            assert(8 * (n * pow2(f as nat)) <= pow2(56) * pow2(f as nat)) by (nonlinear_arith)
                requires
                    n <= 0x20_0000_0000_0000,
                    pow2(56) == 0x100_0000_0000_0000,
            ;
            lemma_absorb(greater as nat, m as nat, e as nat, small, total);
            format.lemma_nearest(total, 1, greater as nat);
        }
        greater
    }
}

/// Multiplying a significand division through by a power of two.
proof fn lemma_scaled_division(m: nat, d: nat, q: nat, r: nat, e: nat, f: nat, g: nat, t: int)
    requires
        m * pow2(64) == q * d + r,
        r < d,
        t == e - f + 1010,
        t + g >= 0,
    ensures
        r * pow2((t + g + f) as nat) < pow2((t + g) as nat) * (d * pow2(f)),
        ((m * pow2(e)) * pow2(1074)) * pow2(g) == q * (pow2((t + g) as nat) * (d * pow2(f))) + r
            * pow2((t + g + f) as nat),
{
    let a = pow2((t + g) as nat);
    let b = pow2(f);
    let c = pow2((t + g + f) as nat);
    let w = pow2(64);
    lemma_pow2_adds((t + g) as nat, f);
    lemma_pow2_pos((t + g + f) as nat);
    assert(c == a * b);
    lemma_pow2_adds((t + g + f) as nat, 64);
    lemma_pow2_adds(e, 1074);
    lemma_pow2_adds(e + 1074, g);
    assert(t + g + f + 64 == e + 1074 + g);
    let x = pow2(e);
    let y = pow2(1074);
    let z = pow2(g);
    assert(x * y * z == c * w);
    assert(((m * x) * y) * z == m * (x * y * z)) by (nonlinear_arith);
    assert(m * (c * w) == (m * w) * c) by (nonlinear_arith);
    assert((q * d + r) * c == q * (d * c) + r * c) by (nonlinear_arith);
    assert(d * c == a * (d * b)) by (nonlinear_arith)
        requires
            c == a * b,
    ;
    assert(r * c < d * c) by (nonlinear_arith)
        requires
            r < d,
            c > 0,
    ;
}

/// The magnitude of the quotient of two magnitudes, the divisor at least 1; nothing where that is
/// not a number.
pub fn divide(dividend: u64, divisor: u64) -> (magnitude: Option<u64>)
    requires
        dividend <= INFINITY64,
        ONE64 <= divisor <= INFINITY64,
    ensures
        match magnitude {
            Some(m) => Float64::quotient(dividend as nat, divisor as nat) == Some(m as nat) && m
                <= INFINITY64,
            None => Float64::quotient(dividend as nat, divisor as nat) is None,
        },
{
    if dividend == INFINITY64 {
        return if divisor == INFINITY64 {
            None
        } else {
            Some(INFINITY64)
        };
    }
    if divisor == INFINITY64 {
        return Some(0);
    }
    let format = Format::binary64();
    proof {
        crate::float::lemma_binary64();
        lemma2_to64();
        lemma2_to64_rest();
    }
    let (m, e) = decode(dividend);
    let (d, f) = decode(divisor);
    assert(f >= 1022) by (nonlinear_arith)
        requires
            divisor == f * 0x10_0000_0000_0000 + d,
            d < 0x20_0000_0000_0000,
            divisor >= ONE64,
    ;
    let wide: u128 = (m as u128) * 0x1_0000_0000_0000_0000;
    let q: u128 = wide / (d as u128);
    let r: u128 = wide % (d as u128);
    let scale: i32 = e as i32 - f as i32 + 1010;
    let ghost num: nat = format.units(dividend as nat) * Float64::one();
    let ghost den: nat = format.units(divisor as nat);
    let ghost guard_bits: nat = 2045;
    let ghost rest: nat = r as nat * pow2((scale + guard_bits + f) as nat);
    proof {
        lemma_fundamental_div_mod(wide as int, d as int);
        assert(d * q == q * d) by (nonlinear_arith);
        lemma_scaled_division(
            m as nat,
            d as nat,
            q as nat,
            r as nat,
            e as nat,
            f as nat,
            guard_bits,
            scale as int,
        );
        lemma_pow2_pos((scale + guard_bits + f) as nat);
        let c = pow2((scale + guard_bits + f) as nat);
        assert(r * c != 0 <==> r != 0) by (nonlinear_arith)
            requires
                c > 0,
        ;
        lemma_pow2_pos(f as nat);
        assert(d * pow2(f as nat) > 0) by (nonlinear_arith)
            requires
                d > 0,
                pow2(f as nat) > 0,
        ;
        if e > 0 {
            assert(q >= 0x20_0000_0000_0000) by (nonlinear_arith)
                requires
                    m * 0x1_0000_0000_0000_0000 == q * d + r,
                    m >= 0x10_0000_0000_0000,
                    d < 0x20_0000_0000_0000,
                    0 <= r < d,
                    q >= 0,
            ;
        }
    }
    let magnitude = format.round_scaled(
        q,
        r != 0,
        scale,
        Ghost(num),
        Ghost(den),
        Ghost(guard_bits),
        Ghost(rest),
    );
    proof {
        format.lemma_nearest(num, den, magnitude as nat);
    }
    Some(magnitude)
}

impl Float64 {
    /// The number nearest to an integer.
    pub open spec fn of_integer(n: int) -> Float64 {
        let magnitude = Format::binary64().nearest(absolute(n) * Self::one(), 1);
        if n < 0 {
            Float64 { bits: (magnitude + SIGN64) as u64 }
        } else {
            Float64 { bits: magnitude as u64 }
        }
    }

    /// Whether an integer is a number of the 64-bit format.
    pub open spec fn holds_integer(n: int) -> bool {
        exists|number: Float64|
            #![trigger number.scaled()]
            number.finite() && number.scaled() == n * Self::one()
    }

    /// The number nearest to an integer.
    pub fn from_i64(n: i64) -> (number: Float64)
        ensures
            number == Self::of_integer(n as int),
            number.negative() == (n < 0),
            number.magnitude() == Format::binary64().nearest(
                absolute(n as int) * Self::one(),
                1,
            ),
    {
        let format = Format::binary64();
        let size: u128 = if n < 0 { (-(n as i128)) as u128 } else { n as u128 };
        let ghost num: nat = absolute(n as int) * Float64::one();
        proof {
            crate::float::lemma_binary64();
            lemma2_to64();
            assert(pow2(1074) * 1 == pow2(1074));
            assert(num * 1 == num);
            lemma_pow2_pos(1074);
        }
        let magnitude = format.round_scaled(
            size,
            false,
            1074,
            Ghost(num),
            Ghost(1),
            Ghost(0),
            Ghost(0),
        );
        proof {
            format.lemma_nearest(num, 1, magnitude as nat);
        }
        if n < 0 {
            Float64 { bits: magnitude + SIGN64 }
        } else {
            Float64 { bits: magnitude }
        }
    }
}

impl Float32 {
    /// Whether the sign bit is set.
    pub open spec fn negative(self) -> bool {
        self.bits >= SIGN32
    }

    /// The pattern without its sign bit.
    pub open spec fn magnitude(self) -> nat {
        (self.bits % SIGN32) as nat
    }

    pub open spec fn nan(self) -> bool {
        self.magnitude() > INFINITY32
    }

    pub open spec fn infinite(self) -> bool {
        self.magnitude() == INFINITY32
    }

    pub open spec fn finite(self) -> bool {
        self.magnitude() < INFINITY32
    }

    /// The same number in the 64-bit format, whose unit is smaller by a factor of 2^925. A pattern
    /// that is not a number keeps its sign and its payload.
    pub open spec fn widened(self) -> Float64 {
        let magnitude = if self.nan() {
            (INFINITY64 + (self.magnitude() - INFINITY32) * 0x2000_0000) as nat
        } else if self.infinite() {
            INFINITY64 as nat
        } else {
            Format::binary64().nearest(Format::binary32().units(self.magnitude()) * pow2(925), 1)
        };
        if self.negative() {
            Float64 { bits: (magnitude + SIGN64) as u64 }
        } else {
            Float64 { bits: magnitude as u64 }
        }
    }

    /// The same number in the 64-bit format.
    pub fn to_float64(self) -> (wide: Float64)
        ensures
            wide == self.widened(),
            wide.negative() == self.negative(),
            wide.nan() == self.nan(),
            wide.infinite() == self.infinite(),
            self.finite() ==> Format::binary64().units(wide.magnitude())
                == Format::binary32().units(self.magnitude()) * pow2(925),
    {
        proof {
            self.lemma_widened();
        }
        let own: u32 = self.bits % SIGN32;
        let magnitude: u64 = if own > INFINITY32 {
            INFINITY64 + ((own - INFINITY32) as u64) * 0x2000_0000
        } else if own == INFINITY32 {
            INFINITY64
        } else {
            widen(own)
        };
        if self.bits >= SIGN32 {
            Float64 { bits: magnitude + SIGN64 }
        } else {
            Float64 { bits: magnitude }
        }
    }

    /// Widening keeps the sign, the kind and the number.
    pub proof fn lemma_widened(self)
        ensures
            self.widened().negative() == self.negative(),
            self.widened().nan() == self.nan(),
            self.widened().infinite() == self.infinite(),
            self.finite() ==> Format::binary64().units(self.widened().magnitude())
                == Format::binary32().units(self.magnitude()) * pow2(925),
    {
        if self.finite() {
            lemma_widen(self.magnitude());
        }
    }
}

/// The significand and the scale of a finite 32-bit magnitude.
proof fn lemma_parts32(magnitude: nat) -> (parts: (nat, nat))
    requires
        magnitude < INFINITY32,
    ensures
        Format::binary32().units(magnitude) == parts.0 * pow2(parts.1),
        parts.0 < 0x100_0000,
        parts.1 <= 253,
        magnitude / 0x80_0000 == 0 ==> parts.0 == magnitude && parts.1 == 0,
        magnitude / 0x80_0000 > 0 ==> parts.0 == 0x80_0000 + magnitude % 0x80_0000 && parts.1
            == magnitude / 0x80_0000 - 1,
{
    crate::float::lemma_binary32();
    lemma2_to64();
    let exponent = magnitude / 0x80_0000;
    let fraction = magnitude % 0x80_0000;
    assert(fraction * 1 == fraction);
    if exponent == 0 {
        (fraction, 0)
    } else {
        (0x80_0000 + fraction, (exponent - 1) as nat)
    }
}

/// A number whose significand fits is a number of the 64-bit format.
proof fn lemma_representable(significand: nat, scale: nat) -> (magnitude: nat)
    requires
        significand < 2 * Format::binary64().hidden(),
    ensures
        Format::binary64().units(magnitude) == significand * pow2(scale),
        magnitude < (scale + 2) * Format::binary64().hidden(),
    decreases scale,
{
    let h = Format::binary64().hidden();
    crate::float::lemma_binary64();
    if scale == 0 || significand >= h {
        Format::binary64().lemma_encode(scale, significand);
        assert((scale + 2) * h == scale * h + 2 * h) by (nonlinear_arith);
        scale * h + significand
    } else {
        lemma_pow2_unfold(scale);
        let half = pow2((scale - 1) as nat);
        assert(significand * (2 * half) == (2 * significand) * half) by (nonlinear_arith);
        assert((scale - 1 + 2) * h <= (scale + 2) * h) by (nonlinear_arith);
        lemma_representable(2 * significand, (scale - 1) as nat)
    }
}

/// The finite 32-bit numbers are numbers of the 64-bit format.
proof fn lemma_widen(magnitude: nat)
    requires
        magnitude < INFINITY32,
    ensures
        ({
            let num = Format::binary32().units(magnitude) * pow2(925);
            let wide = Format::binary64().nearest(num, 1);
            wide < INFINITY64 && Format::binary64().units(wide) == num
        }),
{
    crate::float::lemma_binary64();
    let (m, e) = lemma_parts32(magnitude);
    let wide = lemma_representable(m, e + 925);
    lemma_pow2_adds(e, 925);
    let p = pow2(e);
    let c = pow2(925);
    assert((m * p) * c == m * (p * c)) by (nonlinear_arith);
    Format::binary64().lemma_exact(wide);
}

/// The 64-bit magnitude of the number of a finite 32-bit magnitude.
fn widen(magnitude: u32) -> (wide: u64)
    requires
        magnitude < INFINITY32,
    ensures
        wide == Format::binary64().nearest(
            Format::binary32().units(magnitude as nat) * pow2(925),
            1,
        ),
        wide < INFINITY64,
{
    let exponent: u32 = magnitude / 0x80_0000;
    let fraction: u32 = magnitude % 0x80_0000;
    let significand: u32 = if exponent == 0 { fraction } else { 0x80_0000 + fraction };
    let scale: u32 = if exponent == 0 { 0 } else { exponent - 1 };
    let format = Format::binary64();
    let ghost num: nat = Format::binary32().units(magnitude as nat) * pow2(925);
    proof {
        crate::float::lemma_binary64();
        lemma_widen(magnitude as nat);
        lemma2_to64();
        let (m, e) = lemma_parts32(magnitude as nat);
        assert(m == significand && e == scale);
        let p = pow2(e);
        let c = pow2(925);
        lemma_pow2_adds(e, 925);
        lemma_pow2_pos(e + 925);
        assert((m * p) * c == m * (p * c)) by (nonlinear_arith);
        assert(pow2(e + 925) * 1 == pow2(e + 925));
        assert(num * 1 == num);
    }
    let wide = format.round_scaled(
        significand as u128,
        false,
        scale as i32 + 925,
        Ghost(num),
        Ghost(1),
        Ghost(0),
        Ghost(0),
    );
    proof {
        format.lemma_nearest(num, 1, wide as nat);
    }
    wide
}

impl Float64 {
    /// The nearest number of the 32-bit format. A pattern that is not a number keeps its sign and
    /// the leading bits of its payload, and is quiet.
    pub open spec fn narrowed(self) -> Float32 {
        let magnitude = if self.nan() {
            let payload = (self.magnitude() - INFINITY64) / 0x2000_0000;
            (INFINITY32 + if payload < 0x40_0000 {
                payload + 0x40_0000
            } else {
                payload
            }) as nat
        } else if self.infinite() {
            INFINITY32 as nat
        } else {
            Format::binary32().nearest(Format::binary64().units(self.magnitude()), pow2(925))
        };
        if self.negative() {
            Float32 { bits: (magnitude + SIGN32) as u32 }
        } else {
            Float32 { bits: magnitude as u32 }
        }
    }

    /// The nearest number of the 32-bit format.
    pub fn to_float32(self) -> (narrow: Float32)
        ensures
            narrow == self.narrowed(),
            narrow.negative() == self.negative(),
            narrow.nan() == self.nan(),
    {
        let own: u64 = self.to_magnitude();
        let magnitude: u32 = if own > INFINITY64 {
            let payload: u64 = (own - INFINITY64) / 0x2000_0000;
            if payload < 0x40_0000 {
                INFINITY32 + (payload as u32) + 0x40_0000
            } else {
                INFINITY32 + payload as u32
            }
        } else if own == INFINITY64 {
            INFINITY32
        } else {
            narrow(own)
        };
        if self.bits >= SIGN64 {
            Float32 { bits: magnitude + SIGN32 }
        } else {
            Float32 { bits: magnitude }
        }
    }
}

/// The nearest 32-bit magnitude to a finite 64-bit magnitude.
fn narrow(magnitude: u64) -> (nearest: u32)
    requires
        magnitude < INFINITY64,
    ensures
        nearest == Format::binary32().nearest(
            Format::binary64().units(magnitude as nat),
            pow2(925),
        ),
        nearest <= INFINITY32,
{
    let (significand, scale) = decode(magnitude);
    let format = Format::binary32();
    let ghost num: nat = Format::binary64().units(magnitude as nat);
    let ghost den: nat = pow2(925);
    proof {
        crate::float::lemma_binary32();
        lemma_pow2_pos(925);
        lemma_pow2_pos(scale as nat);
        let p = pow2(scale as nat);
        assert((significand * p) * den == significand * (p * den)) by (nonlinear_arith);
        assert(p * den > 0) by (nonlinear_arith)
            requires
                p > 0,
                den > 0,
        ;
    }
    let nearest = format.round_scaled(
        significand as u128,
        false,
        scale as i32 - 925,
        Ghost(num),
        Ghost(den),
        Ghost(925),
        Ghost(0),
    );
    proof {
        format.lemma_nearest(num, den, nearest as nat);
    }
    nearest as u32
}

/// Integers of 64 bits do not exceed 2^63, whose magnitude is 1086 times the hidden bit.
proof fn lemma_integer_limit(n: int)
    requires
        i64::MIN <= n <= i64::MAX,
    ensures
        absolute(n) * Float64::one() <= Format::binary64().units(
            1086 * Format::binary64().hidden(),
        ),
{
    let format = Format::binary64();
    let one = Float64::one();
    crate::float::lemma_binary64();
    let h = format.hidden();
    format.lemma_encode(1085, h);
    lemma_pow2_adds(11, 1074);
    lemma2_to64();
    assert(h * (0x800 * one) == 0x8000_0000_0000_0000 * one) by (nonlinear_arith)
        requires
            h == 0x10_0000_0000_0000,
    ;
    let size = absolute(n);
    assert(size * one <= 0x8000_0000_0000_0000 * one) by (nonlinear_arith)
        requires
            size <= 0x8000_0000_0000_0000,
    ;
}

/// An integer of 64 bits rounds to a number within the range of the format, on the same side of
/// zero.
pub proof fn lemma_nearest_integer(n: int)
    requires
        i64::MIN <= n <= i64::MAX,
    ensures
        ({
            let number = Float64::of_integer(n);
            let magnitude = Format::binary64().nearest(absolute(n) * Float64::one(), 1);
            &&& number.finite()
            &&& number.negative() == (n < 0)
            &&& number.magnitude() == magnitude
            &&& Format::binary64().rounds_to(absolute(n) * Float64::one(), 1, magnitude)
            &&& magnitude <= 1086 * Format::binary64().hidden()
        }),
{
    let format = Format::binary64();
    let one = Float64::one();
    let num = absolute(n) * one;
    crate::float::lemma_binary64();
    format.lemma_rounds_to_nearest(num, 1);
    lemma_integer_limit(n);
    format.lemma_rounds_to_side(num, format.nearest(num, 1), 1086 * format.hidden());
}

/// An integer of at most 53 bits has a magnitude in the 64-bit format.
pub proof fn lemma_small_integer(size: nat) -> (magnitude: nat)
    requires
        size <= 0x20_0000_0000_0000,
    ensures
        Format::binary64().units(magnitude) == size * Float64::one(),
        magnitude <= 1076 * Format::binary64().hidden(),
{
    let format = Format::binary64();
    crate::float::lemma_binary64();
    if size < 0x20_0000_0000_0000 {
        lemma_representable(size, 1074)
    } else {
        format.lemma_encode(1074, size);
        1074 * format.hidden() + size
    }
}

/// Numbers of the 64-bit format that are not below 2^53 are integers.
proof fn lemma_large_integral(magnitude: nat)
    requires
        magnitude >= 1076 * Format::binary64().hidden(),
    ensures
        Format::binary64().units(magnitude) % Float64::one() == 0,
{
    let format = Format::binary64();
    crate::float::lemma_binary64();
    let h = format.hidden();
    let exponent = magnitude / h;
    let fraction = magnitude % h;
    lemma_div_is_ordered((1076 * h) as int, magnitude as int, h as int);
    lemma_div_multiples_vanish(1076, h as int);
    assert(exponent >= 1076);
    let one = Float64::one();
    let above = pow2((exponent - 1075) as nat);
    lemma_pow2_adds((exponent - 1075) as nat, 1074);
    lemma_pow2_pos(1074);
    assert((h + fraction) * (above * one) == ((h + fraction) * above) * one) by (nonlinear_arith);
    lemma_mod_multiples_basic(((h + fraction) * above) as int, one as int);
}

/// The number nearest to an integer of 64 bits is an integer.
pub proof fn lemma_integer_stays_integral(n: int)
    requires
        i64::MIN <= n <= i64::MAX,
    ensures
        Float64::of_integer(n).integral(),
{
    let format = Format::binary64();
    let one = Float64::one();
    let size = absolute(n);
    let number = Float64::of_integer(n);
    lemma_nearest_integer(n);
    crate::float::lemma_binary64();
    lemma_pow2_pos(1074);
    let magnitude = number.magnitude();
    let units = format.units(magnitude);
    if size <= 0x20_0000_0000_0000 {
        let exact = lemma_small_integer(size);
        format.lemma_exact(exact);
        lemma_mod_multiples_basic(size as int, one as int);
    } else {
        let limit = 1076 * format.hidden();
        format.lemma_encode(1074, 0x20_0000_0000_0000);
        assert(0x20_0000_0000_0000 * one <= size * one) by (nonlinear_arith)
            requires
                0x20_0000_0000_0000 <= size,
        ;
        format.lemma_rounds_to_side(size * one, magnitude, limit);
        lemma_large_integral(magnitude);
    }
    if n < 0 {
        lemma_fundamental_div_mod(units as int, one as int);
        let q = units as int / one as int;
        assert(-(one * q) == (-q) * one) by (nonlinear_arith);
        lemma_mod_multiples_basic(-q, one as int);
    }
}

/// An integer of 64 bits that has a magnitude in the 64-bit format is the number nearest to it.
pub proof fn lemma_held_integer(n: int, magnitude: nat)
    requires
        i64::MIN <= n <= i64::MAX,
        Format::binary64().units(magnitude) == absolute(n) * Float64::one(),
    ensures
        Float64::of_integer(n).scaled() == n * Float64::one(),
{
    let format = Format::binary64();
    let one = Float64::one();
    lemma_nearest_integer(n);
    crate::float::lemma_binary64();
    lemma_integer_limit(n);
    if magnitude > 1086 * format.hidden() {
        format.lemma_units_monotonic(1086 * format.hidden(), magnitude);
    }
    format.lemma_exact(magnitude);
    if n < 0 {
        assert(-(absolute(n) * one) == n * one) by (nonlinear_arith)
            requires
                absolute(n) == -n,
        ;
    }
}

/// Rounding an integer of 64 bits takes it past no number of the 64-bit format.
pub proof fn lemma_integer_side(n: int, x: Float64)
    requires
        i64::MIN <= n <= i64::MAX,
        x.finite(),
    ensures
        x.scaled() <= n * Float64::one() ==> x.scaled() <= Float64::of_integer(n).scaled(),
        n * Float64::one() <= x.scaled() ==> Float64::of_integer(n).scaled() <= x.scaled(),
{
    let format = Format::binary64();
    let one = Float64::one();
    let size = absolute(n);
    lemma_nearest_integer(n);
    crate::float::lemma_binary64();
    let nearest = Float64::of_integer(n).magnitude();
    let magnitude = x.magnitude();
    format.lemma_rounds_to_side(size * one, nearest, magnitude);
    if nearest <= magnitude {
        format.lemma_units_monotonic(nearest, magnitude);
    }
    if magnitude <= nearest {
        format.lemma_units_monotonic(magnitude, nearest);
    }
    if n < 0 {
        assert(-(size * one) == n * one) by (nonlinear_arith)
            requires
                size == -n,
        ;
    }
}

/// A number survives being widened to 64 bits and narrowed again.
pub proof fn lemma_narrow_widened(number: Float32)
    requires
        !number.nan(),
    ensures
        number.widened().narrowed() == number,
{
    number.lemma_widened();
    if number.finite() {
        let own = Format::binary32().units(number.magnitude());
        let c = pow2(925);
        lemma_pow2_pos(925);
        crate::float::lemma_binary32();
        Format::binary32().lemma_exact(number.magnitude());
        Format::binary32().lemma_rounds_to_scaled(own, 1, c, number.magnitude());
        Format::binary32().lemma_nearest(own * c, c, number.magnitude());
    }
}

} // verus!
