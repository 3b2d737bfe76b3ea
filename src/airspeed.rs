//! Wind and airspeed as polar vectors: a whole-degree compass direction and a
//! magnitude in hundredths of a unit (of knots, say), so that `2000` reads as
//! `20.00`.
//!
//! Trigonometry goes through the cosine table of `crate::angle`, whose values
//! are the exact cosines to `10^-18`. The contracts speak of those values:
//! every magnitude returned is the projection or resultant computed from
//! them exactly and then rounded to the hundredth, halves away from zero.
//! Against the true cosine a projection of a speed below `2^32` hundredths
//! is off by less than `3 · 10^-9` hundredths before rounding, so the
//! rounded result differs from the exact one only where the exact value
//! lies that close to a boundary between two hundredths.

use vstd::prelude::*;
use crate::angle::{cos_deg, cos_of, sin_deg};
use crate::fixed::{
    lemma_rounded_root_is,
    product_le,
    round_div,
    round_scaled,
    rounded_root,
    rounded_root_scaled,
};

verus! {

/// A polar vector: direction in compass degrees, speed in hundredths.
#[derive(Debug, PartialEq, Eq, Clone, Copy, Structural)]
pub struct Airspeed {
    pub direction: i16,
    pub speed: u32,
}

/// The along-track part of a vector, in hundredths.
#[derive(Debug, PartialEq, Eq, Clone, Copy, Structural)]
pub enum BaseComponent {
    Headwind(u32),
    Tailwind(u32),
}

/// The across-track part of a vector, in hundredths.
#[derive(Debug, PartialEq, Eq, Clone, Copy, Structural)]
pub enum CrossComponent {
    LeftCross(u32),
    RightCross(u32),
}

/// A vector resolved against a reference heading.
#[derive(Debug, PartialEq, Eq, Clone, Copy, Structural)]
pub struct WindComponents {
    pub base: BaseComponent,
    pub cross: CrossComponent,
}

/// `x` brought into `(-180, 180]` by whole turns.
pub open spec fn half_turn_offset(x: int) -> int {
    (x + 179) % 360 - 179
}

/// The offset of `direction` from `heading`, in `(-180, 180]`.
pub open spec fn wind_offset(direction: int, heading: int) -> int {
    half_turn_offset(direction - heading)
}

/// `speed · cos(x°)`, in hundredths, rounded.
pub open spec fn along(speed: int, x: int) -> int {
    round_div(speed * cos_deg(x), 1000000000000000000)
}

/// `speed · cos((90 - x)°)`, in hundredths, rounded.
pub open spec fn across(speed: int, x: int) -> int {
    round_div(speed * cos_deg(90 - x), 1000000000000000000)
}

/// A signed along-track value as a component: positive is a headwind, zero
/// and below a tailwind.
pub open spec fn base_of(raw: int) -> BaseComponent {
    if raw > 0 {
        BaseComponent::Headwind(raw as u32)
    } else {
        BaseComponent::Tailwind((-raw) as u32)
    }
}

/// A signed across-track value as a component: positive is from the right,
/// zero and below from the left.
pub open spec fn cross_of(raw: int) -> CrossComponent {
    if raw > 0 {
        CrossComponent::RightCross(raw as u32)
    } else {
        CrossComponent::LeftCross((-raw) as u32)
    }
}

/// `v` resolved against `heading`.
pub open spec fn decomposed(v: Airspeed, heading: int) -> WindComponents {
    let x = wind_offset(v.direction as int, heading);
    WindComponents {
        base: base_of(along(v.speed as int, x)),
        cross: cross_of(across(v.speed as int, x)),
    }
}

/// The value of a base component with its sign: a tailwind counts negative.
pub open spec fn base_signed(c: BaseComponent) -> int {
    match c {
        BaseComponent::Headwind(x) => x as int,
        BaseComponent::Tailwind(x) => -(x as int),
    }
}

/// The absolute value of `x`.
pub open spec fn abs(x: int) -> int {
    if x < 0 {
        -x
    } else {
        x
    }
}

/// The interior angle of the vector triangle: `|180 - |a - b||`.
pub open spec fn interior_angle(a: int, b: int) -> int {
    abs(180 - abs(a - b))
}

/// `10^18` times the square of the resultant's magnitude, by the law of
/// cosines: `10^18 · (v1² + v2²) - 2 · v1 · v2 · cos(alpha°)`.
pub open spec fn resultant_square(v1: int, v2: int, alpha: int) -> int {
    1000000000000000000 * (v1 * v1 + v2 * v2) - 2 * v1 * v2 * cos_deg(alpha)
}

/// Whether `sin(k°) <= v · s / sqrt(q)`, in the table's fixed point: the
/// sine of `k` is at most the ratio of the part `v · s` of the second
/// vector across the first (speed `v`, `s` the sine of the interior angle)
/// to the resultant, whose square times `10^18` is `q`.
pub open spec fn sine_within(k: int, q: int, v: int, s: int) -> bool {
    sin_deg(k) * sin_deg(k) * q <= 1000000000000000000 * (v * v) * (s * s)
}

/// How many of the whole degrees `1..=n` have a sine within the ratio.
pub open spec fn degrees_within(n: int, q: int, v: int, s: int) -> int
    decreases n,
{
    if n <= 0 {
        0
    } else {
        degrees_within(n - 1, q, v, s) + if sine_within(n, q, v, s) {
            1int
        } else {
            0int
        }
    }
}

/// The wind correction angle in whole degrees, truncated toward zero: as the
/// sine grows over `0..=90`, `asin(ratio)` truncated is the number of whole
/// degrees of `1..=90` whose sine does not exceed the ratio (see
/// `lemma_correction_truncates`).
pub open spec fn correction(q: int, v: int, s: int) -> int {
    degrees_within(90, q, v, s)
}

/// The sum of `a` and `b` by the laws of cosines and sines. A resultant of
/// magnitude zero (equal and opposite vectors) has no direction: it is the
/// zero vector pointing at 0.
pub open spec fn composed(a: Airspeed, b: Airspeed) -> Airspeed {
    let v1 = a.speed as int;
    let v2 = b.speed as int;
    let diff = a.direction - b.direction;
    let alpha = interior_angle(a.direction as int, b.direction as int);
    let q = resultant_square(v1, v2, alpha);
    if q == 0 {
        Airspeed { direction: 0, speed: 0 }
    } else {
        let k = correction(q, v2, abs(sin_deg(alpha)));
        Airspeed {
            direction: (if diff >= 0 {
                a.direction + k
            } else {
                a.direction - k
            }) as i16,
            speed: rounded_root(q, 1000000000000000000) as u32,
        }
    }
}

/// Turning the reference heading by whole turns changes nothing in the
/// resolution of a vector against it.
pub proof fn lemma_components_heading_period(v: Airspeed, heading: int, turns: int)
    ensures
        decomposed(v, heading + 360 * turns) == decomposed(v, heading),
{
    let x = v.direction as int - heading + 179;
    vstd::arithmetic::div_mod::lemma_mod_multiples_vanish(-turns, x, 360);
    assert(v.direction as int - (heading + 360 * turns) + 179 == 360 * (-turns) + x);
}

/// Two vectors of equal magnitude whose interior angle is a whole number of
/// turns (equal and opposite) add up to the zero vector.
pub proof fn lemma_plus_opposite_is_zero(a: Airspeed, b: Airspeed)
    requires
        a.speed == b.speed,
        interior_angle(a.direction as int, b.direction as int) % 360 == 0,
    ensures
        composed(a, b) == (Airspeed { direction: 0, speed: 0 }),
{
    let v = a.speed as int;
    let alpha = interior_angle(a.direction as int, b.direction as int);
    assert(cos_deg(alpha) == 1000000000000000000);
    assert(resultant_square(v, v, alpha) == 0) by (nonlinear_arith)
        requires
            resultant_square(v, v, alpha) == 1000000000000000000 * (v * v + v * v) - 2 * v * v * 1000000000000000000,
    ;
}

/// The tabulated sine grows strictly over `0..=90`, so counting the whole
/// degrees whose sine is within a ratio truncates its arcsine.
pub proof fn lemma_sine_increases(k: int)
    requires
        0 <= k < 90,
    ensures
        0 <= sin_deg(k) < sin_deg(k + 1),
{
    vstd::arithmetic::div_mod::lemma_small_mod((90 - k) as nat, 360);
    vstd::arithmetic::div_mod::lemma_small_mod((89 - k) as nat, 360);
}

proof fn lemma_sine_within_down(j: int, q: int, v: int, s: int)
    requires
        0 <= j < 90,
        q >= 0,
        sine_within(j + 1, q, v, s),
    ensures
        sine_within(j, q, v, s),
{
    lemma_sine_increases(j);
    let a = sin_deg(j);
    let b = sin_deg(j + 1);
    assert(a * a * q <= b * b * q) by (nonlinear_arith)
        requires
            0 <= a < b,
            q >= 0,
    ;
}

proof fn lemma_degrees_within_count(n: int, q: int, v: int, s: int)
    requires
        0 <= n <= 90,
        q >= 0,
    ensures
        sine_within(n, q, v, s) ==> degrees_within(n, q, v, s) == n,
        !sine_within(n, q, v, s) ==> {
            let c = degrees_within(n, q, v, s);
            &&& 0 <= c < n
            &&& sine_within(c, q, v, s)
            &&& !sine_within(c + 1, q, v, s)
        },
    decreases n,
{
    if n == 0 {
        let z = sin_deg(0);
        assert(z == 0);
        assert(z * z * q <= 1000000000000000000 * (v * v) * (s * s)) by (nonlinear_arith)
            requires
                z == 0,
        ;
    } else {
        lemma_degrees_within_count(n - 1, q, v, s);
        let c = degrees_within(n - 1, q, v, s);
        if sine_within(n, q, v, s) {
            lemma_sine_within_down(n - 1, q, v, s);
            assert(degrees_within(n, q, v, s) == c + 1);
        } else {
            assert(degrees_within(n, q, v, s) == c);
        }
    }
}

/// The correction is the largest whole degree in `0..=90` whose sine is
/// within the ratio: the arcsine of the ratio truncated toward zero.
pub proof fn lemma_correction_truncates(q: int, v: int, s: int)
    requires
        q >= 0,
    ensures
        0 <= correction(q, v, s) <= 90,
        sine_within(correction(q, v, s), q, v, s),
        correction(q, v, s) == 90 || !sine_within(correction(q, v, s) + 1, q, v, s),
{
    lemma_degrees_within_count(90, q, v, s);
}

/// A rounded product `speed · c` with `|c| <= 10^18` stays within `speed`.
proof fn lemma_scaled_within(speed: int, c: int)
    requires
        speed >= 0,
        -1000000000000000000 <= c <= 1000000000000000000,
    ensures
        -speed <= round_div(speed * c, 1000000000000000000) <= speed,
{
    let n = speed * c;
    assert(-speed * 1000000000000000000 <= n <= speed * 1000000000000000000) by (nonlinear_arith)
        requires
            speed >= 0,
            -1000000000000000000 <= c <= 1000000000000000000,
            n == speed * c,
    ;
    let a = if n >= 0 { 2 * n + 1000000000000000000 } else { -2 * n + 1000000000000000000 };
    vstd::arithmetic::div_mod::lemma_fundamental_div_mod(a, 2000000000000000000);
    let q = a / 2000000000000000000;
    assert(q <= speed) by (nonlinear_arith)
        requires
            a == 2000000000000000000 * q + a % 2000000000000000000,
            0 <= a % 2000000000000000000,
            a <= 2 * speed * 1000000000000000000 + 1000000000000000000,
    ;
    assert(q >= 0) by (nonlinear_arith)
        requires
            a == 2000000000000000000 * q + a % 2000000000000000000,
            a % 2000000000000000000 < 2000000000000000000,
            a >= 0,
    ;
}

/// The wind correction angle, in whole degrees, for a resultant whose
/// square times `10^18` is `q`, a second vector of speed `v` and an
/// interior angle whose sine has magnitude `s`.
fn correction_degrees(q: u128, v: u32, s: u128) -> (k: i16)
    requires
        q <= 1000000000000000000 * (0xffff_ffff * 0xffff_ffff),
        s <= 1000000000000000000,
    ensures
        k == correction(q as int, v as int, s as int),
        0 <= k <= 90,
{
    let vv = v as u128;
    proof {
        assert(1000000000000000000 * (vv * vv) <= 1000000000000000000 * (0xffff_ffff * 0xffff_ffff)) by (nonlinear_arith)
            requires
                vv <= 0xffff_ffff,
        ;
        assert(s * s <= 1000000000000000000 * 1000000000000000000) by (nonlinear_arith)
            requires
                s <= 1000000000000000000,
        ;
    }
    let across: u128 = 1000000000000000000 * (vv * vv);
    let s_sq: u128 = s * s;
    let mut k: i16 = 0;
    let mut n: u32 = 0;
    while n < 90
        invariant
            n <= 90,
            0 <= k <= n,
            k == degrees_within(n as int, q as int, v as int, s as int),
            q <= 1000000000000000000 * (0xffff_ffff * 0xffff_ffff),
            across == 1000000000000000000 * (v * v),
            across <= 1000000000000000000 * (0xffff_ffff * 0xffff_ffff),
            s_sq == s * s,
            s_sq <= 1000000000000000000 * 1000000000000000000,
        decreases 90 - n,
    {
        n = n + 1;
        let c = cos_of(90 - n) as i128;
        proof {
            assert(0 <= c * c <= 1000000000000000000 * 1000000000000000000) by (nonlinear_arith)
                requires
                    -1000000000000000000 <= c <= 1000000000000000000,
            ;
            assert(c == sin_deg(n as int));
        }
        let c_sq: u128 = (c * c) as u128;
        let within = product_le(c_sq, q, across, s_sq);
        proof {
            assert(across * s_sq == 1000000000000000000 * (v * v) * (s * s)) by (nonlinear_arith)
                requires
                    across == 1000000000000000000 * (v * v),
                    s_sq == s * s,
            ;
        }
        if within {
            k = k + 1;
        }
    }
    k
}

impl WindComponents {
    /// Classifies signed along- and across-track values, in hundredths:
    /// a positive base is a headwind, a positive cross comes from the right,
    /// and zero counts as a tailwind and as from the left.
    pub fn from_raw(base: i64, cross: i64) -> (r: WindComponents)
        requires
            -0xffff_ffff <= base <= 0xffff_ffff,
            -0xffff_ffff <= cross <= 0xffff_ffff,
        ensures
            r == (WindComponents { base: base_of(base as int), cross: cross_of(cross as int) }),
    {
        let base = if base > 0 {
            BaseComponent::Headwind(base as u32)
        } else {
            BaseComponent::Tailwind((-base) as u32)
        };
        let cross = if cross > 0 {
            CrossComponent::RightCross(cross as u32)
        } else {
            CrossComponent::LeftCross((-cross) as u32)
        };
        WindComponents { base, cross }
    }
}

impl From<BaseComponent> for i64 {
    /// The component as a signed value: a tailwind counts negative.
    fn from(c: BaseComponent) -> (r: i64) {
        match c {
            BaseComponent::Headwind(x) => x as i64,
            BaseComponent::Tailwind(x) => -(x as i64),
        }
    }
}

impl vstd::std_specs::convert::FromSpecImpl<BaseComponent> for i64 {
    open spec fn obeys_from_spec() -> bool {
        true
    }

    open spec fn from_spec(c: BaseComponent) -> i64 {
        base_signed(c) as i64
    }
}

impl Airspeed {
    pub fn from_dir_and_speed(direction: i16, speed: u32) -> (r: Airspeed)
        ensures
            r.direction == direction,
            r.speed == speed,
    {
        Airspeed { direction, speed }
    }

    /// Resolves this vector against a reference heading (a runway, say): how
    /// much of it opposes travel along the heading and how much pushes
    /// across it.
    pub fn components(&self, direction: i16) -> (r: WindComponents)
        ensures
            r == decomposed(*self, direction as int),
    {
        let d: i32 = self.direction as i32 - direction as i32;
        let x: i32 = ((d + 66059) as u32 % 360) as i32 - 179;
        let y: i32 = 90 - x;
        proof {
            vstd::arithmetic::div_mod::lemma_mod_multiples_vanish(183, d + 179, 360);
            assert(x == wind_offset(self.direction as int, direction as int));
            vstd::arithmetic::div_mod::lemma_mod_add_multiples_vanish(x as int, 360);
            vstd::arithmetic::div_mod::lemma_mod_add_multiples_vanish(y as int, 360);
        }
        let c_along = cos_of((x + 360) as u32);
        let c_across = cos_of((y + 360) as u32);
        let speed = self.speed as i128;
        let ca = c_along as i128;
        let cc = c_across as i128;
        proof {
            lemma_scaled_within(speed as int, ca as int);
            lemma_scaled_within(speed as int, cc as int);
            assert(-0x10_0000_0000_0000_0000_0000_0000 <= speed * ca <= 0x10_0000_0000_0000_0000_0000_0000)
                by (nonlinear_arith)
                requires
                    0 <= speed <= 0xffff_ffff,
                    -1000000000000000000 <= ca <= 1000000000000000000,
            ;
            assert(-0x10_0000_0000_0000_0000_0000_0000 <= speed * cc <= 0x10_0000_0000_0000_0000_0000_0000)
                by (nonlinear_arith)
                requires
                    0 <= speed <= 0xffff_ffff,
                    -1000000000000000000 <= cc <= 1000000000000000000,
            ;
        }
        let base = round_scaled(speed * ca) as i64;
        let cross = round_scaled(speed * cc) as i64;
        WindComponents::from_raw(base, cross)
    }

    /// Adds `x` to this vector (a wind to a course and airspeed, say) by the
    /// laws of cosines and sines. The correction to the direction is
    /// truncated to whole degrees; equal and opposite vectors give the zero
    /// vector.
    pub fn plus(&self, x: Airspeed) -> (r: Airspeed)
        requires
            i16::MIN + 90 <= self.direction <= i16::MAX - 90,
            self.speed + x.speed <= u32::MAX,
        ensures
            r == composed(*self, x),
    {
        let diff: i32 = self.direction as i32 - x.direction as i32;
        let abs_diff: i32 = if diff < 0 {
            -diff
        } else {
            diff
        };
        let alpha: u32 = if abs_diff <= 180 {
            (180 - abs_diff) as u32
        } else {
            (abs_diff - 180) as u32
        };
        assert(alpha == interior_angle(self.direction as int, x.direction as int));
        let q = resultant_square_of(self.speed, x.speed, alpha);
        if q == 0 {
            return Airspeed { direction: 0, speed: 0 };
        }
        let bound: u64 = (self.speed as u64) + (x.speed as u64);
        proof {
            let v1 = self.speed as int;
            let v2 = x.speed as int;
            assert(4 * q < 1000000000000000000 * ((2 * bound + 1) * (2 * bound + 1))) by (nonlinear_arith)
                requires
                    q <= 1000000000000000000 * ((v1 + v2) * (v1 + v2)),
                    bound == v1 + v2,
                    v1 >= 0,
                    v2 >= 0,
            ;
            assert(q <= 1000000000000000000 * (0xffff_ffff * 0xffff_ffff)) by (nonlinear_arith)
                requires
                    q <= 1000000000000000000 * ((v1 + v2) * (v1 + v2)),
                    0 <= v1,
                    0 <= v2,
                    v1 + v2 <= 0xffff_ffff,
            ;
        }
        let speed = rounded_root_scaled(q, bound);
        proof {
            lemma_rounded_root_is(speed as int, q as int, 1000000000000000000);
        }
        let s = sine_magnitude(alpha);
        let k = correction_degrees(q, x.speed, s);
        let direction = if diff >= 0 {
            self.direction + k
        } else {
            self.direction - k
        };
        Airspeed { direction, speed: speed as u32 }
    }
}

/// `resultant_square(v1, v2, alpha)`, with its bound `10^18 · (v1 + v2)²`.
fn resultant_square_of(v1: u32, v2: u32, alpha: u32) -> (q: u128)
    ensures
        q == resultant_square(v1 as int, v2 as int, alpha as int),
        q <= 1000000000000000000 * ((v1 + v2) * (v1 + v2)),
{
    let c = cos_of(alpha);
    let a = v1 as u128;
    let b = v2 as u128;
    proof {
        assert(a * a + b * b <= 0x2_0000_0000_0000_0000) by (nonlinear_arith)
            requires
                a <= 0xffff_ffff,
                b <= 0xffff_ffff,
        ;
        assert(a * b <= 0x1_0000_0000_0000_0000) by (nonlinear_arith)
            requires
                a <= 0xffff_ffff,
                b <= 0xffff_ffff,
        ;
        assert(2 * a * b <= a * a + b * b) by (nonlinear_arith);
    }
    let square_sum: u128 = 1000000000000000000 * (a * a + b * b);
    let q: u128 = if c >= 0 {
        let cu = c as u128;
        proof {
            assert(2 * a * b * cu <= 1000000000000000000 * (a * a + b * b)) by (nonlinear_arith)
                requires
                    cu <= 1000000000000000000,
                    2 * a * b <= a * a + b * b,
                    a >= 0,
                    b >= 0,
            ;
        }
        square_sum - 2 * a * b * cu
    } else {
        let cu = (-c) as u128;
        proof {
            assert(2 * a * b * cu <= 2 * a * b * 1000000000000000000) by (nonlinear_arith)
                requires
                    cu <= 1000000000000000000,
                    a >= 0,
                    b >= 0,
            ;
        }
        square_sum + 2 * a * b * cu
    };
    proof {
        assert(q == 1000000000000000000 * (a * a + b * b) - 2 * a * b * c) by (nonlinear_arith)
            requires
                c >= 0 ==> q == 1000000000000000000 * (a * a + b * b) - 2 * a * b * (c as u128),
                c < 0 ==> q == 1000000000000000000 * (a * a + b * b) + 2 * a * b * ((-c) as u128),
                -1000000000000000000 <= c <= 1000000000000000000,
        ;
        assert(q <= 1000000000000000000 * ((a + b) * (a + b))) by (nonlinear_arith)
            requires
                q == 1000000000000000000 * (a * a + b * b) - 2 * a * b * c,
                -1000000000000000000 <= c,
                a >= 0,
                b >= 0,
        ;
    }
    q
}

/// `|sin(alpha°)|` in units of `10^-18`.
fn sine_magnitude(alpha: u32) -> (s: u128)
    requires
        alpha <= 65535,
    ensures
        s == abs(sin_deg(alpha as int)),
        s <= 1000000000000000000,
{
    // sin(alpha) = cos(90 - alpha), moved to a non-negative angle by whole turns
    proof {
        vstd::arithmetic::div_mod::lemma_mod_multiples_vanish(182, 90 - alpha, 360);
    }
    let c = cos_of(65610 - alpha);
    if c < 0 {
        (-c) as u128
    } else {
        c as u128
    }
}

} // verus!
