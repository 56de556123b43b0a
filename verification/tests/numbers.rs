use cp_sat_bridge::arithmetic::divide;
use cp_sat_bridge::error::decimal_text;
use cp_sat_bridge::float::{INFINITY64, ONE64};
use cp_sat_bridge::solver::{CpSolverResponse, SatParameters};
use cp_sat_bridge::status::gap_limit_reached;
use cp_sat_bridge::{Float32, Float64, Message};

/// A pseudo-random sequence of patterns.
struct Patterns {
    state: u64,
}

impl Patterns {
    fn new(seed: u64) -> Patterns {
        Patterns { state: seed }
    }

    fn next(&mut self) -> u64 {
        self.state ^= self.state << 13;
        self.state ^= self.state >> 7;
        self.state ^= self.state << 17;
        self.state.wrapping_mul(0x2545f4914f6cdd1d)
    }

    /// Any pattern, or one with an exponent near that of 1, so that numbers interact.
    fn number(&mut self) -> f64 {
        let bits = self.next();
        if bits % 3 == 0 {
            f64::from_bits(self.next())
        } else {
            let exponent = 1023 - 70 + self.next() % 140;
            f64::from_bits((bits & 0x800f_ffff_ffff_ffff) | (exponent << 52))
        }
    }
}

const SPECIAL: [f64; 24] = [
    0.0,
    -0.0,
    1.0,
    -1.0,
    0.5,
    1.5,
    2.5,
    -2.5,
    0.1,
    100.0,
    110.0,
    5e-324,
    -5e-324,
    2.2250738585072014e-308,
    2.225073858507201e-308,
    1.7976931348623157e308,
    -1.7976931348623157e308,
    9007199254740992.0,
    9007199254740993.0,
    9223372036854775808.0,
    -9223372036854775808.0,
    f64::INFINITY,
    f64::NEG_INFINITY,
    f64::NAN,
];

fn wrapped(x: f64) -> Float64 {
    Float64 { bits: x.to_bits() }
}

fn shown(magnitude: Option<u64>) -> f64 {
    match magnitude {
        Some(bits) => f64::from_bits(bits),
        None => f64::NAN,
    }
}

fn same(a: f64, b: f64) -> bool {
    a.to_bits() == b.to_bits() || (a.is_nan() && b.is_nan())
}

fn check_pair(a: f64, b: f64) {
    let difference = wrapped(a).abs_difference(wrapped(b));
    assert!(same(shown(difference), (a - b).abs()), "|{a:e} - {b:e}|");

    let divisor = b.abs().max(1.0);
    assert_eq!(wrapped(b).to_at_least_one(), divisor.to_bits(), "max(|{b:e}|, 1)");
    if !a.is_nan() {
        let quotient = divide(a.abs().to_bits(), divisor.to_bits());
        assert!(same(shown(quotient), a.abs() / divisor), "|{a:e}| / {divisor:e}");
        assert_eq!(wrapped(b).is_not_below(a.abs().to_bits()), a.abs() <= b, "|{a:e}| <= {b:e}");
    }
}

fn check_one(x: f64) {
    let number = wrapped(x);
    assert_eq!(number.is_finite(), x.is_finite());
    assert_eq!(number.is_infinite(), x.is_infinite());
    assert_eq!(number.is_nan(), x.is_nan());
    assert_eq!(number.is_sign_negative(), x.is_sign_negative());
    assert_eq!(number.negated().bits, x.to_bits() ^ (1 << 63));
    assert_eq!(number.is_integral(), x.is_finite() && x.fract() == 0.0, "{x:e}");
    if x.is_finite() {
        let fits = |y: f64| {
            if y >= -(2f64.powi(63)) && y < 2f64.powi(63) {
                Some(y as i64)
            } else {
                None
            }
        };
        assert_eq!(number.floor_to_i64(), fits(x.floor()), "{x:e}");
        assert_eq!(number.ceil_to_i64(), fits(x.ceil()), "{x:e}");
    }
    let narrow = number.to_float32();
    if x.is_nan() {
        assert!(f32::from_bits(narrow.bits).is_nan());
    } else {
        assert_eq!(narrow.bits, (x as f32).to_bits(), "{x:e}");
    }
}

#[test]
fn special_numbers_behave_as_in_hardware() {
    for a in SPECIAL {
        check_one(a);
        for b in SPECIAL {
            check_pair(a, b);
        }
    }
}

#[test]
fn arbitrary_numbers_behave_as_in_hardware() {
    let mut patterns = Patterns::new(0x9e3779b97f4a7c15);
    for _ in 0..60_000 {
        let a = patterns.number();
        let b = patterns.number();
        check_one(a);
        check_pair(a, b);
        // Numbers that are close, and halfway cases.
        let near = f64::from_bits(a.to_bits() ^ (patterns.next() % 8));
        check_pair(a, near);
        check_pair(a, a * 0.5);
        check_pair(patterns.next() as u32 as f64, patterns.next() as u32 as f64);
    }
}

#[test]
fn integers_become_the_nearest_numbers() {
    for n in [
        0,
        1,
        -1,
        42,
        -42,
        i64::MAX,
        i64::MIN,
        9007199254740992,
        9007199254740993,
        -9007199254740995,
        9223372036854774784,
        9223372036854775295,
        9223372036854775296,
    ] {
        assert_eq!(Float64::from_i64(n).bits, (n as f64).to_bits(), "{n}");
    }
    let mut patterns = Patterns::new(77);
    for _ in 0..50_000 {
        let n = (patterns.next() >> (patterns.next() % 64)) as i64;
        assert_eq!(Float64::from_i64(n).bits, (n as f64).to_bits(), "{n}");
        assert_eq!(Float64::from_i64(-(n >> 1)).bits, (-(n >> 1) as f64).to_bits(), "{n}");
    }
}

#[test]
fn small_numbers_widen_and_narrow_back() {
    let mut patterns = Patterns::new(123456789);
    for i in 0..100_000u32 {
        let bits = if i < 1000 { i * 8_000 } else { patterns.next() as u32 };
        let x = f32::from_bits(bits);
        let wide = Float32 { bits }.to_float64();
        if x.is_nan() {
            assert!(f64::from_bits(wide.bits).is_nan());
            assert_eq!(wide.is_sign_negative(), x.is_sign_negative());
        } else {
            assert_eq!(wide.bits, (x as f64).to_bits(), "{x:e}");
            assert_eq!(wide.to_float32().bits, bits, "{x:e}");
        }
    }
    assert_eq!(Float32 { bits: 1 }.to_float64().bits, (f32::from_bits(1) as f64).to_bits());
    assert_eq!(wrapped(1e39).to_float32().bits, f32::INFINITY.to_bits());
    assert_eq!(wrapped(-3.4028235677973366e38).to_float32().bits, f32::NEG_INFINITY.to_bits());
    assert_eq!(wrapped(7e-46).to_float32().bits, 0);
    assert_eq!(wrapped(7.1e-46).to_float32().bits, 1);
}

#[test]
fn magnitudes_are_ordered_and_bounded() {
    assert_eq!(f64::from_bits(ONE64), 1.0);
    assert_eq!(f64::from_bits(INFINITY64), f64::INFINITY);
    assert!(wrapped(0.1).is_not_below(wrapped(0.1).bits));
    assert!(!wrapped(-0.1).is_not_below(0));
    assert!(wrapped(-0.0).is_not_below(0));
    assert_eq!(wrapped(-3.5).to_magnitude(), 3.5f64.to_bits());
}

/// The test of a gap limit as floating-point hardware makes it.
fn hardware_gap_limit(
    objective: f64,
    bound: f64,
    absolute: Option<f64>,
    relative: Option<f64>,
) -> bool {
    let gap = (objective - bound).abs();
    if gap == 0.0 {
        return false;
    }
    absolute.is_some_and(|limit| gap <= limit)
        || relative.is_some_and(|limit| gap / objective.abs().max(1.0) <= limit)
}

fn check_gap(objective: f64, bound: f64, absolute: Option<f64>, relative: Option<f64>) {
    let response = CpSolverResponse {
        objective_value: wrapped(objective),
        best_objective_bound: wrapped(bound),
        ..CpSolverResponse::default()
    };
    let params = SatParameters {
        absolute_gap_limit: absolute.map(wrapped),
        relative_gap_limit: relative.map(wrapped),
        ..SatParameters::default()
    };
    assert_eq!(
        gap_limit_reached(&response, &params),
        hardware_gap_limit(objective, bound, absolute, relative),
        "{objective:e} {bound:e} {absolute:?} {relative:?}"
    );
}

#[test]
fn gap_limits_are_reached_as_in_hardware() {
    for objective in SPECIAL {
        for bound in SPECIAL {
            for limit in SPECIAL {
                check_gap(objective, bound, Some(limit), None);
                check_gap(objective, bound, None, Some(limit));
            }
            check_gap(objective, bound, None, None);
            check_gap(objective, bound, Some(0.5), Some(0.05));
        }
    }
    let mut patterns = Patterns::new(5);
    for _ in 0..30_000 {
        let objective = (patterns.next() % 2000) as f64 / 8.0 - 100.0;
        let bound = objective + (patterns.next() % 100) as f64 / 10.0;
        let gap = (objective - bound).abs();
        // Limits on the edge and a step off it.
        let relative = gap / objective.abs().max(1.0);
        for (a, r) in [(gap, relative), (gap * 0.999, relative * 1.001)] {
            check_gap(objective, bound, Some(a), None);
            check_gap(objective, bound, None, Some(r));
        }
        check_gap(objective, bound, None, Some(f64::from_bits(relative.to_bits().saturating_sub(1))));
    }
}

#[test]
fn numbers_are_written_in_decimal() {
    for n in [0, 7, 10, 99, 100, 1234567890, usize::MAX] {
        assert_eq!(decimal_text(n), n.to_string());
    }
}

#[test]
fn messages_render_their_numbers_in_place() {
    let show = |x: Float64| f64::from_bits(x.bits).to_string();
    assert_eq!(Message::plain("as it is".to_string()).render(show), "as it is");
    assert_eq!(Message::with_number("a `", wrapped(0.25), "` b").render(show), "a `0.25` b");
    let message =
        Message::with_numbers("from ".to_string(), wrapped(-1.0), " to ", wrapped(1e21), "!");
    assert_eq!(message.render(show), "from -1 to 1000000000000000000000!");
}
