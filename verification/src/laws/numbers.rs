//! What holds of numbers: what a bit pattern stands for, and what rounding gives.
use vstd::prelude::*;
use vstd::arithmetic::power2::*;
use vstd::arithmetic::div_mod::*;
use crate::float::{Float32, Float64, INFINITY32, INFINITY64, ONE64, SIGN64};
use crate::format::Format;

verus! {

/// Whether a number is the integer `n`.
pub open spec fn stands_for(x: Float64, n: int) -> bool {
    x.finite() && x.scaled() == n * Float64::one()
}

/// Whether a number is an integer of 64 bits.
pub open spec fn whole(x: Float64) -> bool {
    exists|n: int| i64::MIN <= n <= i64::MAX && #[trigger] stands_for(x, n)
}

/// Whether `n` is the least integer that is not below a number.
pub open spec fn least_above(x: Float64, n: int) -> bool {
    x.finite() && (n - 1) * Float64::one() < x.scaled() <= n * Float64::one()
}

/// Whether `n` is the greatest integer that is not above a number.
pub open spec fn greatest_below(x: Float64, n: int) -> bool {
    x.finite() && n * Float64::one() <= x.scaled() < (n + 1) * Float64::one()
}

/// A 64-bit pattern is a sign bit, 11 bits of exponent and 52 bits of fraction. Numbers with
/// exponent zero are gradual; the greatest exponent marks what is not finite.
pub proof fn law_pattern_meaning(x: Float64)
    ensures
        ({
            let exponent = (x.bits / 0x10_0000_0000_0000) % 0x800;
            let fraction = x.bits % 0x10_0000_0000_0000;
            let size: nat = if exponent == 0 {
                fraction as nat
            } else {
                ((0x10_0000_0000_0000 + fraction) * pow2((exponent - 1) as nat)) as nat
            };
            &&& x.negative() <==> x.bits / 0x8000_0000_0000_0000 == 1
            &&& x.nan() <==> exponent == 0x7ff && fraction != 0
            &&& x.infinite() <==> exponent == 0x7ff && fraction == 0
            &&& x.finite() <==> exponent < 0x7ff
            &&& x.scaled() == if x.negative() {
                -size
            } else {
                size as int
            }
        }),
{
    let bits = x.bits;
    crate::float::lemma_binary64();
    assert((bits / 0x10_0000_0000_0000) % 0x800 == (bits % 0x8000_0000_0000_0000)
        / 0x10_0000_0000_0000) by (bit_vector);
    assert(bits % 0x10_0000_0000_0000 == (bits % 0x8000_0000_0000_0000) % 0x10_0000_0000_0000)
        by (bit_vector);
}

/// A 32-bit pattern is a sign bit, 8 bits of exponent and 23 bits of fraction.
pub proof fn law_pattern_meaning32(x: Float32)
    ensures
        ({
            let exponent = (x.bits / 0x80_0000) % 0x100;
            let fraction = x.bits % 0x80_0000;
            &&& x.negative() <==> x.bits / 0x8000_0000 == 1
            &&& x.nan() <==> exponent == 0xff && fraction != 0
            &&& x.infinite() <==> exponent == 0xff && fraction == 0
            &&& x.finite() <==> exponent < 0xff
            &&& Format::binary32().units(x.magnitude()) == if exponent == 0 {
                fraction as int
            } else {
                (0x80_0000 + fraction) * pow2((exponent - 1) as nat)
            }
        }),
{
    let bits = x.bits;
    crate::float::lemma_binary32();
    assert((bits / 0x80_0000) % 0x100 == (bits % 0x8000_0000) / 0x80_0000) by (bit_vector);
    assert(bits % 0x80_0000 == (bits % 0x8000_0000) % 0x80_0000) by (bit_vector);
}

/// The pattern of the number 1 stands for it.
pub proof fn law_one()
    ensures
        stands_for(Float64 { bits: ONE64 }, 1),
        Format::binary64().units(ONE64 as nat) == Float64::one(),
{
    let format = Format::binary64();
    crate::float::lemma_binary64();
    format.lemma_encode(1022, format.hidden());
    lemma_pow2_adds(52, 1022);
}

/// What a number rounds to is no further from it than any other number of the format, and where
/// another one is as near, it is even.
pub proof fn law_rounding_is_nearest(
    format: Format,
    num: nat,
    den: nat,
    magnitude: nat,
    other: nat,
)
    requires
        den > 0,
        format.rounds_to(num, den, magnitude),
        other <= format.infinity(),
        other != magnitude,
    ensures
        ({
            let error = crate::arithmetic::absolute(num - format.units(magnitude) * den);
            let other_error = crate::arithmetic::absolute(num - format.units(other) * den);
            &&& magnitude <= format.infinity()
            &&& error <= other_error
            &&& error == other_error ==> magnitude % 2 == 0
        }),
{
    let u = format.units(magnitude);
    let c = format.units(other);
    if magnitude < other {
        let next = format.units(magnitude + 1);
        format.lemma_units_step(magnitude);
        format.lemma_units_monotonic(magnitude + 1, other);
        lemma_distances(num as int, den as int, u as int, next as int, c as int);
    } else {
        let previous = format.units((magnitude - 1) as nat);
        format.lemma_units_step((magnitude - 1) as nat);
        format.lemma_units_monotonic(other, (magnitude - 1) as nat);
        assert((-(u as int)) * den == -(u * den)) by (nonlinear_arith);
        assert((-(c as int)) * den == -(c * den)) by (nonlinear_arith);
        assert((-(u as int) + -(previous as int)) * den == -((previous + u) * den))
            by (nonlinear_arith);
        lemma_distances(-(num as int), den as int, -(u as int), -(previous as int), -(c as int));
    }
}

/// A number that is not past the midpoint between `own` and the next number is no further from
/// `own` than from a number that lies beyond.
proof fn lemma_distances(num: int, den: int, own: int, next: int, other: int)
    requires
        den > 0,
        own < next <= other,
        2 * num <= (own + next) * den,
    ensures
        crate::arithmetic::absolute(num - own * den) <= crate::arithmetic::absolute(
            num - other * den,
        ),
        crate::arithmetic::absolute(num - own * den) == crate::arithmetic::absolute(
            num - other * den,
        ) ==> 2 * num == (own + next) * den,
{
    assert((own + next) * den == own * den + next * den) by (nonlinear_arith);
    assert(next * den <= other * den) by (nonlinear_arith)
        requires
            next <= other,
            den > 0,
    ;
    assert(own * den < next * den) by (nonlinear_arith)
        requires
            own < next,
            den > 0,
    ;
}

/// Flipping the sign twice changes nothing, and flipping it once negates the number and keeps its
/// kind.
pub proof fn law_opposite(x: Float64)
    ensures
        x.opposite().opposite() == x,
        x.opposite().bits % SIGN64 == x.bits % SIGN64,
        x.opposite().negative() == !x.negative(),
        x.opposite().scaled() == -x.scaled(),
        x.opposite().finite() == x.finite(),
{
}

/// A number is called integral where it is finite and some integer.
pub proof fn law_integral(x: Float64)
    ensures
        x.integral() <==> exists|n: int| #[trigger] stands_for(x, n),
{
    let one = Float64::one() as int;
    lemma_pow2_pos(1074);
    if x.integral() {
        x.lemma_integral();
        assert(stands_for(x, x.floor()));
    }
    if exists|n: int| #[trigger] stands_for(x, n) {
        let n = choose|n: int| #[trigger] stands_for(x, n);
        lemma_fundamental_div_mod_converse(n * one, one, n, 0);
    }
}

/// A number is only one integer.
pub proof fn law_one_integer(x: Float64, n: int)
    requires
        stands_for(x, n),
    ensures
        x.scaled() / (Float64::one() as int) == n,
{
    let one = Float64::one() as int;
    lemma_pow2_pos(1074);
    lemma_fundamental_div_mod_converse(n * one, one, n, 0);
}

/// The number of an integer is the nearest one and has its sign.
pub proof fn law_of_integer(n: i64)
    ensures
        ({
            let number = Float64::of_integer(n as int);
            &&& number.finite()
            &&& number.negative() == (n < 0)
            &&& Format::binary64().rounds_to(
                crate::arithmetic::absolute(n as int) * Float64::one(),
                1,
                number.magnitude(),
            )
        }),
{
    crate::arithmetic::lemma_nearest_integer(n as int);
    crate::float::lemma_binary64();
}

/// A 32-bit number widens to the same number; what is not a number keeps its sign and its payload.
pub proof fn law_widened(x: Float32)
    ensures
        x.widened().negative() == x.negative(),
        x.widened().infinite() == x.infinite(),
        x.widened().nan() == x.nan(),
        x.nan() ==> x.widened().magnitude() - INFINITY64 == (x.magnitude() - INFINITY32)
            * 0x2000_0000,
        x.finite() ==> Format::binary64().units(x.widened().magnitude())
            == Format::binary32().units(x.magnitude()) * pow2(925),
{
    x.lemma_widened();
}

/// A 64-bit number narrows to the nearest 32-bit number, which has its sign; what is not a number
/// stays so.
pub proof fn law_narrowed(x: Float64)
    ensures
        x.narrowed().negative() == x.negative(),
        x.narrowed().nan() == x.nan(),
        x.infinite() ==> x.narrowed().infinite(),
        x.finite() ==> Format::binary32().rounds_to(
            Format::binary64().units(x.magnitude()),
            pow2(925),
            x.narrowed().magnitude(),
        ),
{
    lemma_pow2_pos(925);
    crate::float::lemma_binary32();
    Format::binary32().lemma_rounds_to_nearest(
        Format::binary64().units(x.magnitude()),
        pow2(925),
    );
}

/// The distance of two numbers is rounded to nearest. It is no number where one of them is none,
/// or both are the same infinity.
pub proof fn law_difference(a: Float64, b: Float64)
    ensures
        a.difference(b) is None <==> a.nan() || b.nan() || (a.infinite() && b.infinite()
            && a.negative() == b.negative()),
        a.difference(b) is Some && (a.infinite() || b.infinite()) ==> a.difference(b)
            == Some(INFINITY64 as nat),
        a.finite() && b.finite() ==> Format::binary64().rounds_to(
            crate::arithmetic::absolute(a.scaled() - b.scaled()),
            1,
            a.difference(b)->0,
        ),
        a.difference(b) == b.difference(a),
{
    if a.finite() && b.finite() {
        Format::binary64().lemma_rounds_to_nearest(
            crate::arithmetic::absolute(a.scaled() - b.scaled()),
            1,
        );
    }
}

/// Numbers that differ are apart: their distance does not round to zero.
pub proof fn law_difference_of_distinct(a: Float64, b: Float64)
    requires
        a.finite(),
        b.finite(),
    ensures
        a.difference(b) == Some(0nat) <==> a.scaled() == b.scaled(),
{
    let format = Format::binary64();
    let distance = crate::arithmetic::absolute(a.scaled() - b.scaled());
    crate::float::lemma_binary64();
    assert(format.units(0) == 0);
    assert(format.units(1) == 1);
    law_difference(a, b);
    format.lemma_rounds_to_side(distance, a.difference(b)->0, 0);
    format.lemma_rounds_to_side(distance, a.difference(b)->0, 1);
}

/// The quotient of two magnitudes, of which the second is not zero, is rounded to nearest. It is no
/// number where both are infinite.
pub proof fn law_quotient(dividend: nat, divisor: nat)
    requires
        dividend <= INFINITY64,
        0 < divisor <= INFINITY64,
    ensures
        ({
            let quotient = Float64::quotient(dividend, divisor);
            let format = Format::binary64();
            &&& quotient is None <==> dividend == INFINITY64 && divisor == INFINITY64
            &&& dividend == INFINITY64 && divisor < INFINITY64 ==> quotient == Some(
                INFINITY64 as nat,
            )
            &&& dividend < INFINITY64 && divisor == INFINITY64 ==> quotient == Some(0nat)
            &&& dividend < INFINITY64 && divisor < INFINITY64 ==> format.rounds_to(
                format.units(dividend) * Float64::one(),
                format.units(divisor),
                quotient->0,
            )
        }),
{
    let format = Format::binary64();
    if dividend < INFINITY64 && divisor < INFINITY64 {
        format.lemma_units_monotonic(0, divisor);
        format.lemma_rounds_to_nearest(
            format.units(dividend) * Float64::one(),
            format.units(divisor),
        );
    }
}

/// The greater of the size of a number and 1 is not below either, and is one of them.
pub proof fn law_at_least_one(x: Float64)
    requires
        !x.nan(),
    ensures
        ({
            let format = Format::binary64();
            let own = format.units(x.magnitude());
            &&& x.at_least_one() <= INFINITY64
            &&& format.units(x.at_least_one()) == if own > Float64::one() {
                own
            } else {
                Float64::one()
            }
            &&& x.at_least_one() == INFINITY64 <==> x.infinite()
        }),
{
    let format = Format::binary64();
    law_one();
    if x.magnitude() < ONE64 {
        format.lemma_units_monotonic(x.magnitude(), ONE64 as nat);
    } else {
        format.lemma_units_monotonic(ONE64 as nat, x.magnitude());
    }
}

/// A limit is not below a magnitude where it is a number and at least as great.
pub proof fn law_not_below(limit: Float64, magnitude: nat)
    requires
        magnitude <= INFINITY64,
    ensures
        limit.nan() ==> !limit.not_below(magnitude),
        !limit.nan() ==> (limit.not_below(magnitude) <==> Format::binary64().units(magnitude)
            <= limit.scaled()),
        magnitude == INFINITY64 ==> (limit.not_below(magnitude) <==> limit.infinite()
            && !limit.negative()),
{
    let format = Format::binary64();
    crate::float::lemma_binary64();
    format.lemma_units_monotonic(0, INFINITY64 as nat);
    assert(format.units(0) == 0);
    if limit.finite() {
        format.lemma_units_monotonic(limit.magnitude(), INFINITY64 as nat);
    }
}

} // verus!
