//! Binary floating-point formats: which numbers a bit pattern stands for, and which pattern a
//! real number rounds to.
//!
//! A pattern without its sign bit is called a magnitude. The magnitudes of a format, read as
//! integers, are ordered as the numbers they stand for, so the successor of a number is the
//! number of the next magnitude. Every finite number of a format is a whole multiple of its
//! smallest positive number, the unit; numbers are counted in units here.
use vstd::prelude::*;
use vstd::arithmetic::power2::*;
use vstd::arithmetic::div_mod::*;

verus! {

/// A binary interchange format with gradual underflow, two infinities and not-a-number patterns.
#[derive(Clone, Copy, Debug, PartialEq, Eq, Structural)]
pub struct Format {
    /// Number of fraction bits in a pattern.
    pub fraction_bits: u32,
    /// The exponent field that marks infinities and not-a-number patterns.
    pub exponent_limit: u64,
}

impl Format {
    /// The 64-bit format.
    #[verifier::allow_in_spec]
    pub fn binary64() -> Format
        returns
            (Format { fraction_bits: 52, exponent_limit: 2047 }),
    {
        Format { fraction_bits: 52, exponent_limit: 2047 }
    }

    /// The 32-bit format.
    #[verifier::allow_in_spec]
    pub fn binary32() -> Format
        returns
            (Format { fraction_bits: 23, exponent_limit: 255 }),
    {
        Format { fraction_bits: 23, exponent_limit: 255 }
    }

    /// Fields for which magnitudes fit in 63 bits.
    pub open spec fn wf(self) -> bool {
        &&& 1 <= self.fraction_bits <= 52
        &&& 2 <= self.exponent_limit <= 2047
    }

    /// The weight of the implicit leading bit of a normal number.
    pub open spec fn hidden(self) -> nat {
        pow2(self.fraction_bits as nat)
    }

    /// The magnitude of the infinities.
    pub open spec fn infinity(self) -> nat {
        (self.exponent_limit * self.hidden()) as nat
    }

    /// The number that a magnitude stands for, in units. The formula gives the infinity the number
    /// that would follow the greatest finite one.
    pub open spec fn units(self, magnitude: nat) -> nat {
        let exponent = magnitude / self.hidden();
        let fraction = magnitude % self.hidden();
        if exponent == 0 {
            fraction
        } else {
            (self.hidden() + fraction) * pow2((exponent - 1) as nat)
        }
    }

    /// Whether the non-negative number `num / den`, in units, rounds to `magnitude`, to nearest and
    /// ties to even: it lies between the midpoints that separate `magnitude` from its two
    /// neighbours, on a midpoint only where `magnitude` is even.
    pub open spec fn rounds_to(self, num: nat, den: nat, magnitude: nat) -> bool {
        &&& magnitude <= self.infinity()
        &&& magnitude > 0 ==> {
            let twice_midpoint = self.units((magnitude - 1) as nat) + self.units(magnitude);
            ||| 2 * num > twice_midpoint * den
            ||| 2 * num == twice_midpoint * den && magnitude % 2 == 0
        }
        &&& magnitude < self.infinity() ==> {
            let twice_midpoint = self.units(magnitude) + self.units(magnitude + 1);
            ||| 2 * num < twice_midpoint * den
            ||| 2 * num == twice_midpoint * den && magnitude % 2 == 0
        }
    }

    /// The magnitude to which `num / den`, in units, rounds.
    pub open spec fn nearest(self, num: nat, den: nat) -> nat {
        choose|magnitude: nat| self.rounds_to(num, den, magnitude)
    }

    /// A multiple `significand * 2^scale` of the unit has the magnitude
    /// `scale * hidden + significand`, where the significand is normalised.
    pub proof fn lemma_encode(self, scale: nat, significand: nat)
        requires
            scale == 0 || self.hidden() <= significand,
            significand <= 2 * self.hidden(),
        ensures
            self.units(scale * self.hidden() + significand) == significand * pow2(scale),
    {
        let h = self.hidden() as int;
        let mag = scale * h + significand;
        lemma_pow2_pos(self.fraction_bits as nat);
        lemma_pow2_pos(scale);
        if significand < h {
            assert(pow2(0) == 1) by {
                lemma2_to64();
            }
            assert(0 * h == 0) by (nonlinear_arith);
            lemma_fundamental_div_mod_converse(mag, h, 0, significand as int);
            assert(significand * 1 == significand);
        } else if significand < 2 * h {
            assert((scale + 1) * h == scale * h + h) by (nonlinear_arith);
            lemma_fundamental_div_mod_converse(mag, h, scale as int + 1, significand - h);
        } else {
            assert((scale + 2) * h == scale * h + 2 * h) by (nonlinear_arith);
            lemma_fundamental_div_mod_converse(mag, h, scale as int + 2, 0);
            lemma_pow2_unfold((scale + 1) as nat);
            let p = pow2(scale) as int;
            assert(h * (2 * p) == (2 * h) * p) by (nonlinear_arith);
        }
    }

    /// Greater magnitudes stand for greater numbers.
    pub proof fn lemma_units_step(self, magnitude: nat)
        ensures
            self.units(magnitude) < self.units(magnitude + 1),
    {
        let h = self.hidden() as int;
        lemma_pow2_pos(self.fraction_bits as nat);
        let e = magnitude as int / h;
        let f = magnitude as int % h;
        lemma_fundamental_div_mod(magnitude as int, h);
        assert(h * e == e * h) by (nonlinear_arith);
        assert(e >= 0) by {
            lemma_div_pos_is_pos(magnitude as int, h);
        }
        if e == 0 {
            assert(0 * h == 0) by (nonlinear_arith);
            self.lemma_encode(0, magnitude);
            self.lemma_encode(0, magnitude + 1);
            lemma2_to64();
            assert(magnitude * 1 == magnitude);
            assert((magnitude + 1) * 1 == magnitude + 1);
        } else {
            let s = (e - 1) as nat;
            assert((e - 1) * h == e * h - h) by (nonlinear_arith);
            self.lemma_encode(s, (h + f) as nat);
            self.lemma_encode(s, (h + f + 1) as nat);
            lemma_pow2_pos(s);
            let p = pow2(s) as int;
            assert((h + f) * p < (h + f + 1) * p) by (nonlinear_arith)
                requires
                    p > 0,
            ;
        }
    }

    /// Magnitudes are ordered as the numbers they stand for.
    pub proof fn lemma_units_monotonic(self, lesser: nat, greater: nat)
        requires
            lesser <= greater,
        ensures
            self.units(lesser) <= self.units(greater),
            lesser < greater ==> self.units(lesser) < self.units(greater),
        decreases greater,
    {
        if lesser < greater {
            self.lemma_units_monotonic(lesser, (greater - 1) as nat);
            self.lemma_units_step((greater - 1) as nat);
        }
    }

    /// A number rounds to one magnitude only.
    pub proof fn lemma_rounds_to_unique(self, num: nat, den: nat, a: nat, b: nat)
        requires
            den > 0,
            self.rounds_to(num, den, a),
            self.rounds_to(num, den, b),
        ensures
            a == b,
    {
        self.lemma_rounds_to_ordered(num, den, a, b);
        self.lemma_rounds_to_ordered(num, den, b, a);
    }

    proof fn lemma_rounds_to_ordered(self, num: nat, den: nat, a: nat, b: nat)
        requires
            den > 0,
            self.rounds_to(num, den, a),
            self.rounds_to(num, den, b),
        ensures
            a >= b,
    {
        if a < b {
            let upper = self.units(a) + self.units(a + 1);
            let lower = self.units((b - 1) as nat) + self.units(b);
            self.lemma_units_monotonic(a, (b - 1) as nat);
            self.lemma_units_monotonic(a + 1, b);
            assert(upper * den <= lower * den) by (nonlinear_arith)
                requires
                    upper <= lower,
            ;
            assert(upper * den == lower * den);
            if a + 1 < b {
                assert(upper * den < lower * den) by (nonlinear_arith)
                    requires
                        upper < lower,
                        den > 0,
                ;
            }
        }
    }

    /// What a number rounds to is its nearest magnitude.
    pub proof fn lemma_nearest(self, num: nat, den: nat, magnitude: nat)
        requires
            den > 0,
            self.rounds_to(num, den, magnitude),
        ensures
            self.nearest(num, den) == magnitude,
    {
        self.lemma_rounds_to_unique(num, den, magnitude, self.nearest(num, den));
    }

    /// Every number rounds to its nearest magnitude.
    pub proof fn lemma_rounds_to_nearest(self, num: nat, den: nat)
        requires
            den > 0,
        ensures
            self.rounds_to(num, den, self.nearest(num, den)),
    {
        let magnitude = self.lemma_rounds_from(num, den, 0);
        assert(self.rounds_to(num, den, magnitude));
    }

    /// A number that does not lie below the midpoint under `start` rounds to `start` or to a
    /// magnitude above it.
    proof fn lemma_rounds_from(self, num: nat, den: nat, start: nat) -> (magnitude: nat)
        requires
            start <= self.infinity(),
            start > 0 ==> {
                let twice_midpoint = self.units((start - 1) as nat) + self.units(start);
                ||| 2 * num > twice_midpoint * den
                ||| 2 * num == twice_midpoint * den && start % 2 == 0
            },
        ensures
            self.rounds_to(num, den, magnitude),
        decreases self.infinity() - start,
    {
        if self.rounds_to(num, den, start) {
            start
        } else {
            self.lemma_rounds_from(num, den, start + 1)
        }
    }

    /// What a number rounds to lies on no other side of a magnitude than the number itself.
    pub proof fn lemma_rounds_to_side(self, num: nat, magnitude: nat, other: nat)
        requires
            self.rounds_to(num, 1, magnitude),
            other <= self.infinity(),
        ensures
            self.units(other) <= num ==> other <= magnitude,
            num <= self.units(other) ==> magnitude <= other,
    {
        if magnitude < other {
            self.lemma_units_monotonic(magnitude, other);
            self.lemma_units_monotonic(magnitude + 1, other);
        }
        if other < magnitude {
            self.lemma_units_monotonic(other, magnitude);
            self.lemma_units_monotonic(other, (magnitude - 1) as nat);
        }
    }

    /// A number of the format rounds to itself.
    pub proof fn lemma_exact(self, magnitude: nat)
        requires
            magnitude <= self.infinity(),
        ensures
            self.rounds_to(self.units(magnitude), 1, magnitude),
            self.nearest(self.units(magnitude), 1) == magnitude,
    {
        if magnitude > 0 {
            self.lemma_units_step((magnitude - 1) as nat);
        }
        self.lemma_units_step(magnitude);
        self.lemma_nearest(self.units(magnitude), 1, magnitude);
    }

    /// Rounding depends on the quotient only.
    pub proof fn lemma_rounds_to_scaled(self, num: nat, den: nat, factor: nat, magnitude: nat)
        requires
            factor > 0,
            self.rounds_to(num, den, magnitude),
        ensures
            self.rounds_to(num * factor, den * factor, magnitude),
    {
        if magnitude > 0 {
            let mid = self.units((magnitude - 1) as nat) + self.units(magnitude);
            Self::lemma_scaled_compare(num, den, factor, mid);
        }
        if magnitude < self.infinity() {
            let mid = self.units(magnitude) + self.units(magnitude + 1);
            Self::lemma_scaled_compare(num, den, factor, mid);
        }
    }

    /// Rounding a number that lies `rest` above `significand` steps of width `step`, both in
    /// fractions of a unit that `unit` of them make up.
    proof fn lemma_round_to_step(
        self,
        num: nat,
        den: nat,
        unit: nat,
        scale: nat,
        significand: nat,
        step: nat,
        rest: nat,
        magnitude: nat,
    )
        requires
            self.wf(),
            den > 0,
            unit > 0,
            scale == 0 || self.hidden() <= significand,
            significand < 2 * self.hidden(),
            step == pow2(scale) * (den * unit),
            num * unit == significand * step + rest,
            rest < step,
            magnitude == scale * self.hidden() + significand + if 2 * rest > step || (2 * rest
                == step && significand % 2 == 1) {
                1nat
            } else {
                0nat
            },
        ensures
            self.rounds_to(
                num,
                den,
                if magnitude < self.infinity() {
                    magnitude
                } else {
                    self.infinity()
                },
            ),
    {
        let h = self.hidden();
        let base = scale * h + significand;
        let p = pow2(scale);
        let z = den * unit;
        let inf = self.infinity();
        lemma_pow2_pos(scale);
        assert(z > 0) by (nonlinear_arith)
            requires
                den > 0,
                unit > 0,
                z == den * unit,
        ;
        self.lemma_encode(scale, significand);
        self.lemma_encode(scale, significand + 1);
        assert(scale * h + (significand + 1) == base + 1);
        // The parity of a magnitude is that of its significand.
        assert(base % 2 == significand % 2) by {
            lemma_pow2_unfold(self.fraction_bits as nat);
            let half = pow2((self.fraction_bits - 1) as nat);
            assert(scale * h == 2 * (scale * half)) by (nonlinear_arith)
                requires
                    h == 2 * half,
            ;
        }
        let twice = 2 * (num * unit);
        assert(twice == 2 * (significand * step) + 2 * rest);
        assert((significand + 1) * p == significand * p + p) by (nonlinear_arith);
        assert((significand + 1) * step == significand * step + step) by (nonlinear_arith);
        // A number of units, taken in fractions.
        assert((significand * p) * z == significand * step) by (nonlinear_arith)
            requires
                step == p * z,
        ;
        assert(((significand + 1) * p) * z == (significand + 1) * step) by (nonlinear_arith)
            requires
                step == p * z,
        ;
        let low = self.units(base);
        let high = self.units(base + 1);
        assert((low + high) * z == low * z + high * z) by (nonlinear_arith);
        if magnitude > inf {
            self.lemma_units_monotonic(inf, base);
            self.lemma_infinity_positive();
            self.lemma_units_step((inf - 1) as nat);
            let mid = self.units((inf - 1) as nat) + self.units(inf);
            assert(mid * z < (2 * low) * z) by (nonlinear_arith)
                requires
                    mid < 2 * low,
                    z > 0,
            ;
            assert((2 * low) * z == 2 * (low * z)) by (nonlinear_arith);
            Self::lemma_scaled_compare(num, den, unit, mid);
        } else {
            let r = magnitude;
            if r > 0 {
                self.lemma_units_step((r - 1) as nat);
                let mid = self.units((r - 1) as nat) + self.units(r);
                if r == base {
                    assert(mid * z < (2 * low) * z) by (nonlinear_arith)
                        requires
                            mid < 2 * low,
                            z > 0,
                    ;
                    assert((2 * low) * z == 2 * (low * z)) by (nonlinear_arith);
                }
                Self::lemma_scaled_compare(num, den, unit, mid);
            }
            if r < inf {
                self.lemma_units_step(r);
                let mid = self.units(r) + self.units(r + 1);
                if r == base + 1 {
                    assert((2 * high) * z < mid * z) by (nonlinear_arith)
                        requires
                            2 * high < mid,
                            z > 0,
                    ;
                    assert((2 * high) * z == 2 * (high * z)) by (nonlinear_arith);
                }
                Self::lemma_scaled_compare(num, den, unit, mid);
            }
        }
    }

    proof fn lemma_infinity_positive(self)
        requires
            self.wf(),
        ensures
            self.infinity() > 0,
    {
        lemma_pow2_pos(self.fraction_bits as nat);
        let h = self.hidden();
        assert(self.exponent_limit * h > 0) by (nonlinear_arith)
            requires
                self.exponent_limit > 0,
                h > 0,
        ;
    }

    /// Comparing a number with a midpoint in fractions of a unit is comparing them in units.
    proof fn lemma_scaled_compare(num: nat, den: nat, unit: nat, midpoint: nat)
        requires
            unit > 0,
        ensures
            2 * (num * unit) < midpoint * (den * unit) <==> 2 * num < midpoint * den,
            2 * (num * unit) > midpoint * (den * unit) <==> 2 * num > midpoint * den,
            2 * (num * unit) == midpoint * (den * unit) <==> 2 * num == midpoint * den,
    {
        let a = 2 * num;
        let b = midpoint * den;
        assert(2 * (num * unit) == a * unit) by (nonlinear_arith)
            requires
                a == 2 * num,
        ;
        assert(midpoint * (den * unit) == b * unit) by (nonlinear_arith)
            requires
                b == midpoint * den,
        ;
        assert(a * unit < b * unit <==> a < b) by (nonlinear_arith)
            requires
                unit > 0,
        ;
        assert(a * unit > b * unit <==> a > b) by (nonlinear_arith)
            requires
                unit > 0,
        ;
        assert(a * unit == b * unit <==> a == b) by (nonlinear_arith)
            requires
                unit > 0,
        ;
    }

    /// The magnitude to which a number of units rounds. The number is `significand * 2^scale` units
    /// and, where `inexact`, a part of a step more; such a number has bits to spare.
    ///
    /// The ghost arguments give the number as `num / den`, with `rest` what exceeds the whole steps,
    /// everything in fractions of a unit that `2^guard_bits` of them make up.
    pub(crate) fn round_scaled(
        self,
        significand: u128,
        inexact: bool,
        scale: i32,
        Ghost(num): Ghost<nat>,
        Ghost(den): Ghost<nat>,
        Ghost(guard_bits): Ghost<nat>,
        Ghost(rest): Ghost<nat>,
    ) -> (magnitude: u64)
        requires
            self.wf(),
            den > 0,
            -4000 <= scale <= 4000,
            scale + guard_bits >= 0,
            inexact ==> significand >= 2 * self.hidden() || scale < 0,
            inexact <==> rest != 0,
            rest < pow2((scale + guard_bits) as nat) * den,
            num * pow2(guard_bits) == significand * (pow2((scale + guard_bits) as nat) * den) + rest,
        ensures
            self.rounds_to(num, den, magnitude as nat),
            magnitude <= self.infinity(),
    {
        let hidden: u64 = power_of_two(self.fraction_bits);
        let h: u128 = hidden as u128;
        proof {
            lemma2_to64();
            lemma2_to64_rest();
            if self.fraction_bits < 52 {
                lemma_pow2_strictly_increases(self.fraction_bits as nat, 52);
            }
            if self.fraction_bits > 1 {
                lemma_pow2_strictly_increases(1, self.fraction_bits as nat);
            }
            lemma_pow2_pos(guard_bits);
        }
        let mut q: u128 = significand;
        let mut e: i32 = scale;
        let mut guard: bool = false;
        let mut sticky: bool = inexact;
        let ghost mut step: nat = pow2((scale + guard_bits) as nat) * den;
        let ghost mut left: nat = rest;
        let ghost mut shifted: bool = false;
        let ghost mut halvings: nat = 0;
        let ghost floor: int = if scale > 0 { scale as int } else { 0 };
        proof {
            lemma_pow2_pos((scale + guard_bits) as nat);
            assert(step > 0) by (nonlinear_arith)
                requires
                    step == pow2((scale + guard_bits) as nat) * den,
                    pow2((scale + guard_bits) as nat) > 0,
                    den > 0,
            ;
            assert(significand < pow2(128)) by {
                lemma_pow2_adds(64, 64);
            }
        }
        while q >= 2 * h || e < 0
            invariant
                self.wf(),
                h == self.hidden(),
                2 <= h <= 0x10000000000000,
                den > 0,
                -4000 <= scale <= 4000,
                scale <= e,
                floor == (if scale > 0 { scale as int } else { 0 }),
                e <= floor + halvings,
                halvings <= 128,
                q < pow2((128 - halvings) as nat),
                scale + guard_bits >= 0,
                step == pow2((e + guard_bits) as nat) * den,
                step > 0,
                left < step,
                num * pow2(guard_bits) == q * step + left,
                (guard || sticky) <==> left != 0,
                shifted ==> (guard <==> 2 * left >= step),
                shifted ==> (guard && !sticky <==> 2 * left == step),
                shifted ==> q >= h || e <= 0,
                !shifted ==> q == significand && e == scale && !guard && sticky == inexact && left
                    == rest,
            decreases q + (if e < 0 { -e as int } else { 0 }),
        {
            let odd: bool = q % 2 == 1;
            proof {
                let half = q / 2;
                assert(q == 2 * half + q % 2);
                lemma_pow2_unfold((e + 1 + guard_bits) as nat);
                let wider = pow2((e + 1 + guard_bits) as nat) * den;
                assert(wider == 2 * step) by (nonlinear_arith)
                    requires
                        wider == pow2((e + 1 + guard_bits) as nat) * den,
                        step == pow2((e + guard_bits) as nat) * den,
                        pow2((e + 1 + guard_bits) as nat) == 2 * pow2((e + guard_bits) as nat),
                ;
                let whole = q as int;
                let bit = (q % 2) as int;
                assert(whole * step == half * (2 * step) + bit * step) by (nonlinear_arith)
                    requires
                        whole == 2 * half + bit,
                ;
                assert(bit * step == (if odd { step as int } else { 0 })) by (nonlinear_arith)
                    requires
                        bit == (if odd { 1int } else { 0int }),
                ;
                if odd {
                    left = left + step;
                }
                step = wider;
                shifted = true;
                if e >= 0 {
                    assert(halvings <= 125) by {
                        lemma2_to64();
                        if halvings > 125 {
                            if halvings > 126 {
                                lemma_pow2_strictly_increases((128 - halvings) as nat, 2);
                            }
                        }
                    }
                    lemma_pow2_unfold((128 - halvings) as nat);
                    halvings = halvings + 1;
                }
            }
            sticky = guard || sticky;
            guard = odd;
            q = q / 2;
            e = e + 1;
        }
        while q < h && e > 0
            invariant
                h == self.hidden(),
                2 <= h <= 0x10000000000000,
                q < 2 * h,
                0 <= e <= 5000,
                e + guard_bits >= 0,
                step == pow2((e + guard_bits) as nat) * den,
                step > 0,
                left < step,
                num * pow2(guard_bits) == q * step + left,
                q < h && e > 0 ==> left == 0 && !guard,
                !guard ==> 2 * left < step || left == 0,
                guard ==> 2 * left >= step,
                guard && !sticky <==> 2 * left == step,
            decreases e,
        {
            proof {
                lemma_pow2_unfold((e + guard_bits) as nat);
                let narrower = pow2((e - 1 + guard_bits) as nat) * den;
                assert(step == 2 * narrower) by (nonlinear_arith)
                    requires
                        narrower == pow2((e - 1 + guard_bits) as nat) * den,
                        step == pow2((e + guard_bits) as nat) * den,
                        pow2((e + guard_bits) as nat) == 2 * pow2((e - 1 + guard_bits) as nat),
                ;
                assert(q * (2 * narrower) == (2 * q) * narrower) by (nonlinear_arith);
                step = narrower;
            }
            q = q * 2;
            e = e - 1;
        }
        let bump: u128 = if guard && (sticky || q % 2 == 1) { 1 } else { 0 };
        let ghost plain: nat = (e * h + q + bump) as nat;
        proof {
            lemma_pow2_adds(e as nat, guard_bits);
            let unit = pow2(guard_bits);
            assert(step == pow2(e as nat) * (den * unit)) by (nonlinear_arith)
                requires
                    step == pow2((e + guard_bits) as nat) * den,
                    pow2((e + guard_bits) as nat) == pow2(e as nat) * unit,
            ;
            self.lemma_round_to_step(num, den, unit, e as nat, q as nat, step, left, plain);
            assert(e * h <= 5000 * 0x10000000000000) by (nonlinear_arith)
                requires
                    0 <= e <= 5000,
                    0 <= h <= 0x10000000000000,
            ;
            assert(self.exponent_limit * h <= 2047 * 0x10000000000000) by (nonlinear_arith)
                requires
                    0 <= self.exponent_limit <= 2047,
                    0 <= h <= 0x10000000000000,
            ;
        }
        let magnitude: u128 = (e as u128) * h + q + bump;
        let infinity: u128 = (self.exponent_limit as u128) * h;
        if magnitude < infinity {
            magnitude as u64
        } else {
            infinity as u64
        }
    }
}

/// Two to a power below 64.
pub(crate) fn power_of_two(exponent: u32) -> (power: u64)
    requires
        exponent < 64,
    ensures
        power == pow2(exponent as nat),
{
    proof {
        lemma2_to64();
        lemma2_to64_rest();
        lemma_pow2_strictly_increases(exponent as nat, 64);
        vstd::bits::lemma_u64_shl_is_mul(1, exponent as u64);
    }
    1u64 << (exponent as u64)
}

} // verus!
