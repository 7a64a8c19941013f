//! Numbers that measure the canvas.
//!
//! A [`Fixed`] counts steps of 2^-32 of a unit, so every 32-bit float between
//! 2^-9 and 2^30 in magnitude has an exact counterpart, and sums, differences
//! and halves of such numbers come out without rounding.
use vstd::prelude::*;

verus! {

/// How many steps of a [`Fixed`] make one unit.
pub const UNIT: i64 = 0x1_0000_0000;

/// The largest number of steps an operation gives; its negation is the smallest.
pub const MAX_STEPS: i64 = 0x3fff_ffff_ffff_ffff;

/// A number in steps of 2^-32. Operations stop at the bounds in place of
/// overflowing.
#[derive(Clone, Copy, Debug, PartialEq, Eq, Structural)]
pub struct Fixed {
    pub steps: i64,
}

/// `v` steps, brought back between the bounds of [`Fixed`].
pub open spec fn bounded(v: int) -> Fixed {
    Fixed {
        steps: if v > MAX_STEPS {
            MAX_STEPS
        } else if v < -MAX_STEPS {
            (-MAX_STEPS) as i64
        } else {
            v as i64
        },
    }
}

/// Division that drops the fraction.
pub open spec fn whole_part(a: int, b: int) -> int {
    if a >= 0 {
        a / b
    } else {
        -((-a) / b)
    }
}

/// The number nearest to zero that `num / den` lies beyond or on.
pub open spec fn ratio_spec(num: int, den: int) -> Fixed {
    bounded(whole_part(num * UNIT, den))
}

fn bound(v: i128) -> (r: Fixed)
    ensures
        r == bounded(v as int),
{
    if v > MAX_STEPS as i128 {
        Fixed { steps: MAX_STEPS }
    } else if v < -(MAX_STEPS as i128) {
        Fixed { steps: -MAX_STEPS }
    } else {
        Fixed { steps: v as i64 }
    }
}

fn divide_toward_zero(a: i128, b: i128) -> (r: i128)
    requires
        b > 0,
        a > i128::MIN,
    ensures
        r == whole_part(a as int, b as int),
{
    if a >= 0 {
        a / b
    } else {
        let m: i128 = -a;
        let q: i128 = m / b;
        assert(0 <= q <= m) by (nonlinear_arith)
            requires
                q == m / b,
                b > 0,
                m > 0,
        ;
        -q
    }
}

impl Fixed {
    /// Whether the number lies between the bounds that operations keep.
    pub open spec fn in_bounds(self) -> bool {
        -MAX_STEPS <= self.steps <= MAX_STEPS
    }

    pub open spec fn plus_spec(self, other: Fixed) -> Fixed {
        bounded(self.steps + other.steps)
    }

    pub open spec fn minus_spec(self, other: Fixed) -> Fixed {
        bounded(self.steps - other.steps)
    }

    pub open spec fn times_spec(self, other: Fixed) -> Fixed {
        bounded(whole_part(self.steps * other.steps, UNIT as int))
    }

    pub open spec fn over_spec(self, other: Fixed) -> Fixed {
        bounded(whole_part(self.steps * UNIT, other.steps as int))
    }

    pub open spec fn many_spec(self, n: nat) -> Fixed {
        bounded(self.steps * n)
    }

    pub open spec fn clamp_spec(self, low: Fixed, high: Fixed) -> Fixed {
        if self.steps < low.steps {
            low
        } else if self.steps > high.steps {
            high
        } else {
            self
        }
    }

    pub open spec fn neg_spec(self) -> Fixed {
        bounded(-self.steps)
    }

    pub open spec fn abs_spec(self) -> Fixed {
        if self.steps < 0 {
            self.neg_spec()
        } else {
            self
        }
    }

    pub open spec fn half_spec(self) -> Fixed {
        bounded(whole_part(self.steps as int, 2))
    }

    pub open spec fn max_spec(self, other: Fixed) -> Fixed {
        if self.steps < other.steps {
            other
        } else {
            self
        }
    }

    pub open spec fn min_spec(self, other: Fixed) -> Fixed {
        if other.steps < self.steps {
            other
        } else {
            self
        }
    }

    /// The number `num / den`, its last step dropped where it does not divide.
    pub fn ratio(num: i32, den: i32) -> (r: Fixed)
        requires
            den > 0,
        ensures
            r == ratio_spec(num as int, den as int),
    {
        let n: i128 = num as i128 * 0x1_0000_0000;
        assert(n == num * UNIT) by (nonlinear_arith)
            requires
                n == num * 0x1_0000_0000,
                UNIT == 0x1_0000_0000,
        ;
        bound(divide_toward_zero(n, den as i128))
    }

    /// The number `num / den`, its last step dropped where it does not divide.
    pub fn fraction(num: u64, den: u64) -> (r: Fixed)
        requires
            den > 0,
        ensures
            r == ratio_spec(num as int, den as int),
    {
        let n: i128 = num as i128 * 0x1_0000_0000;
        assert(n == num * UNIT) by (nonlinear_arith)
            requires
                n == num * 0x1_0000_0000,
                UNIT == 0x1_0000_0000,
        ;
        bound(divide_toward_zero(n, den as i128))
    }

    /// The whole number `n`.
    pub fn whole(n: i32) -> (r: Fixed)
        ensures
            r == ratio_spec(n as int, 1),
    {
        Fixed::ratio(n, 1)
    }

    /// The sum of two numbers.
    pub fn plus(self, other: Fixed) -> (r: Fixed)
        ensures
            r == self.plus_spec(other),
    {
        bound(self.steps as i128 + other.steps as i128)
    }

    /// The difference of two numbers.
    pub fn minus(self, other: Fixed) -> (r: Fixed)
        ensures
            r == self.minus_spec(other),
    {
        bound(self.steps as i128 - other.steps as i128)
    }

    /// The product of two numbers, its last step dropped where it does not divide.
    pub fn times(self, other: Fixed) -> (r: Fixed)
        ensures
            r == self.times_spec(other),
    {
        let a: i128 = self.steps as i128;
        let b: i128 = other.steps as i128;
        assert(-0x4000_0000_0000_0000_0000_0000_0000_0000 <= a * b
            <= 0x4000_0000_0000_0000_0000_0000_0000_0000) by (nonlinear_arith)
            requires
                -0x8000_0000_0000_0000 <= a <= 0x7fff_ffff_ffff_ffff,
                -0x8000_0000_0000_0000 <= b <= 0x7fff_ffff_ffff_ffff,
        ;
        bound(divide_toward_zero(a * b, UNIT as i128))
    }

    /// The number divided by a positive one, its last step dropped where it
    /// does not divide.
    pub fn over(self, other: Fixed) -> (r: Fixed)
        requires
            other.steps > 0,
        ensures
            r == self.over_spec(other),
    {
        let n: i128 = self.steps as i128 * 0x1_0000_0000;
        assert(n == self.steps * UNIT) by (nonlinear_arith)
            requires
                n == self.steps * 0x1_0000_0000,
                UNIT == 0x1_0000_0000,
        ;
        bound(divide_toward_zero(n, other.steps as i128))
    }

    /// The sum of `n` times the number.
    pub fn many(self, n: u64) -> (r: Fixed)
        ensures
            r == self.many_spec(n as nat),
    {
        let m: i128 = if n > MAX_STEPS as u64 {
            MAX_STEPS as i128
        } else {
            n as i128
        };
        let a: i128 = self.steps as i128;
        assert(-0x4000_0000_0000_0000_0000_0000_0000_0000 <= a * m
            <= 0x4000_0000_0000_0000_0000_0000_0000_0000) by (nonlinear_arith)
            requires
                -0x8000_0000_0000_0000 <= a <= 0x7fff_ffff_ffff_ffff,
                0 <= m <= 0x3fff_ffff_ffff_ffff,
        ;
        proof {
            let most = MAX_STEPS as int;
            if n > most {
                assert(a > 0 ==> a * most >= most && a * n >= most) by (nonlinear_arith)
                    requires
                        n > most,
                        most > 0,
                ;
                assert(a < 0 ==> a * most <= -most && a * n <= -most) by (nonlinear_arith)
                    requires
                        n > most,
                        most > 0,
                ;
                assert(a == 0 ==> a * most == 0 && a * n == 0) by (nonlinear_arith);
            }
        }
        bound(a * m)
    }

    /// The number, or the bound that it lies beyond.
    pub fn clamped(self, low: Fixed, high: Fixed) -> (r: Fixed)
        ensures
            r == self.clamp_spec(low, high),
    {
        if self.steps < low.steps {
            low
        } else if self.steps > high.steps {
            high
        } else {
            self
        }
    }

    /// The number with its sign changed.
    pub fn negated(self) -> (r: Fixed)
        ensures
            r == self.neg_spec(),
    {
        bound(-(self.steps as i128))
    }

    /// The distance of the number from zero.
    pub fn abs(self) -> (r: Fixed)
        ensures
            r == self.abs_spec(),
    {
        if self.steps < 0 {
            self.negated()
        } else {
            self
        }
    }

    /// Half of the number.
    pub fn half(self) -> (r: Fixed)
        ensures
            r == self.half_spec(),
    {
        bound(divide_toward_zero(self.steps as i128, 2))
    }

    /// The larger of two numbers.
    pub fn larger(self, other: Fixed) -> (r: Fixed)
        ensures
            r == self.max_spec(other),
    {
        if self.steps < other.steps {
            other
        } else {
            self
        }
    }

    /// The smaller of two numbers.
    pub fn smaller(self, other: Fixed) -> (r: Fixed)
        ensures
            r == self.min_spec(other),
    {
        if other.steps < self.steps {
            other
        } else {
            self
        }
    }
}

/// Changing the sign twice gives the number back.
pub proof fn lemma_negation_undoes_itself(a: Fixed)
    requires
        a.in_bounds(),
    ensures
        a.neg_spec().neg_spec() == a,
        a.neg_spec().in_bounds(),
{
}

// ── Laws ─────────────────────────────────────────────────────────────────

/// Between the bounds sums and differences are exact, a negation has the
/// opposite sign, and a product of a number and a count is the repeated sum.
/// Beyond the bounds a result stops at the bound that it passed.
pub proof fn law_sums_are_exact(a: Fixed, b: Fixed, n: nat)
    ensures
        -MAX_STEPS <= a.steps + b.steps <= MAX_STEPS ==> a.plus_spec(b).steps == a.steps + b.steps,
        a.steps + b.steps > MAX_STEPS ==> a.plus_spec(b).steps == MAX_STEPS,
        a.steps + b.steps < -MAX_STEPS ==> a.plus_spec(b).steps == -MAX_STEPS,
        -MAX_STEPS <= a.steps - b.steps <= MAX_STEPS ==> a.minus_spec(b).steps == a.steps
            - b.steps,
        a.steps - b.steps > MAX_STEPS ==> a.minus_spec(b).steps == MAX_STEPS,
        a.steps - b.steps < -MAX_STEPS ==> a.minus_spec(b).steps == -MAX_STEPS,
        -MAX_STEPS <= a.steps <= MAX_STEPS ==> a.neg_spec().steps == -a.steps,
        -MAX_STEPS <= a.steps * n <= MAX_STEPS ==> a.many_spec(n).steps == a.steps * n,
        a.steps * n > MAX_STEPS ==> a.many_spec(n).steps == MAX_STEPS,
        a.steps * n < -MAX_STEPS ==> a.many_spec(n).steps == -MAX_STEPS,
{
}

/// Twice the half of a number misses the number by a step at most, and the
/// distance of a number from zero is the number or its negation, never
/// negative.
pub proof fn law_halves_and_distances(a: Fixed)
    requires
        a.in_bounds(),
    ensures
        -1 <= 2 * a.half_spec().steps - a.steps <= 1,
        a.steps % 2 == 0 ==> 2 * a.half_spec().steps == a.steps,
        a.abs_spec().steps >= 0,
        a.abs_spec().steps == a.steps || a.abs_spec().steps == -a.steps,
{
}

/// The larger of two numbers is one of them and not below either, the smaller
/// not above either, and a clamped number is the number itself between the
/// bounds and the bound that it passed outside.
pub proof fn law_choices_among_numbers(a: Fixed, b: Fixed, c: Fixed)
    ensures
        a.max_spec(b) == a || a.max_spec(b) == b,
        a.max_spec(b).steps >= a.steps && a.max_spec(b).steps >= b.steps,
        a.min_spec(b) == a || a.min_spec(b) == b,
        a.min_spec(b).steps <= a.steps && a.min_spec(b).steps <= b.steps,
        b.steps <= a.steps <= c.steps ==> a.clamp_spec(b, c) == a,
        b.steps <= c.steps && a.steps < b.steps ==> a.clamp_spec(b, c) == b,
        b.steps <= c.steps && a.steps > c.steps ==> a.clamp_spec(b, c) == c,
{
}

proof fn lemma_whole_part(a: int, b: int)
    requires
        b > 0,
    ensures
        -b < a - whole_part(a, b) * b < b,
        a >= 0 ==> whole_part(a, b) >= 0 && a - whole_part(a, b) * b >= 0,
        a <= 0 ==> whole_part(a, b) <= 0 && a - whole_part(a, b) * b <= 0,
{
    if a >= 0 {
        assert(a == b * (a / b) + a % b && 0 <= a % b < b) by (nonlinear_arith)
            requires
                b > 0,
        ;
        assert(a / b >= 0) by (nonlinear_arith)
            requires
                a >= 0,
                b > 0,
        ;
        assert(whole_part(a, b) * b == b * (a / b)) by (nonlinear_arith)
            requires
                whole_part(a, b) == a / b,
        ;
    } else {
        let m = -a;
        assert(m == b * (m / b) + m % b && 0 <= m % b < b) by (nonlinear_arith)
            requires
                b > 0,
        ;
        assert(m / b >= 0) by (nonlinear_arith)
            requires
                m >= 0,
                b > 0,
        ;
        assert(whole_part(a, b) * b == -(b * (m / b))) by (nonlinear_arith)
            requires
                whole_part(a, b) == -(m / b),
        ;
    }
}

/// A product, taken in steps of a unit, misses the product of the two step
/// counts by less than one step, on the side of zero.
pub proof fn law_products_round_toward_zero(a: Fixed, b: Fixed)
    requires
        -MAX_STEPS * UNIT <= a.steps * b.steps <= MAX_STEPS * UNIT,
    ensures
        -UNIT < a.steps * b.steps - a.times_spec(b).steps * UNIT < UNIT,
        a.steps * b.steps >= 0 ==> a.times_spec(b).steps >= 0 && a.times_spec(b).steps * UNIT
            <= a.steps * b.steps,
        a.steps * b.steps <= 0 ==> a.times_spec(b).steps <= 0 && a.times_spec(b).steps * UNIT
            >= a.steps * b.steps,
{
    let p = a.steps * b.steps;
    let q = whole_part(p, UNIT as int);
    lemma_whole_part(p, UNIT as int);
    assert(-MAX_STEPS <= q <= MAX_STEPS) by (nonlinear_arith)
        requires
            -MAX_STEPS * UNIT <= p <= MAX_STEPS * UNIT,
            UNIT == 0x1_0000_0000,
            -UNIT < p - q * UNIT < UNIT,
            p >= 0 ==> q >= 0 && p - q * UNIT >= 0,
            p <= 0 ==> q <= 0 && p - q * UNIT <= 0,
    ;
}

/// A quotient times its divisor misses the dividend by less than the divisor,
/// on the side of zero.
pub proof fn law_quotients_round_toward_zero(a: Fixed, b: Fixed)
    requires
        b.steps > 0,
        -MAX_STEPS <= whole_part(a.steps * UNIT, b.steps as int) <= MAX_STEPS,
    ensures
        -b.steps < a.steps * UNIT - a.over_spec(b).steps * b.steps < b.steps,
        a.steps >= 0 ==> a.over_spec(b).steps >= 0 && a.over_spec(b).steps * b.steps <= a.steps
            * UNIT,
        a.steps <= 0 ==> a.over_spec(b).steps <= 0 && a.over_spec(b).steps * b.steps >= a.steps
            * UNIT,
{
    lemma_whole_part(a.steps * UNIT, b.steps as int);
}

/// A whole number is as many units, and a fraction times its denominator
/// misses the numerator by less than a step for each part.
pub proof fn law_ratios_of_whole_numbers(num: int, den: int)
    requires
        den > 0,
        -0x2000_0000 <= num <= 0x2000_0000,
    ensures
        ratio_spec(num, 1).steps == num * UNIT,
        -den < num * UNIT - ratio_spec(num, den).steps * den < den,
{
    lemma_whole_part(num * UNIT, den);
    lemma_whole_part(num * UNIT, 1);
    let q = whole_part(num * UNIT, den);
    assert(-MAX_STEPS <= q <= MAX_STEPS) by (nonlinear_arith)
        requires
            -0x2000_0000 <= num <= 0x2000_0000,
            UNIT == 0x1_0000_0000,
            MAX_STEPS == 0x3fff_ffff_ffff_ffff,
            den > 0,
            -den < num * UNIT - q * den < den,
            num * UNIT >= 0 ==> q >= 0 && num * UNIT - q * den >= 0,
            num * UNIT <= 0 ==> q <= 0 && num * UNIT - q * den <= 0,
    ;
}

} // verus!
