//! Fixed-point amounts.
//!
//! Every amount is a whole number of a small unit, so that sums and products are exact:
//! a quantity of coins in units of 10^-16, a price and a lot size in units of 10^-8, and what a
//! quantity at a price is worth in units of 10^-24. Results that would leave the `i128` range
//! are held at its ends.

use vstd::prelude::*;
use crate::text::magnitude;

verus! {

/// Decimal places of a [`crate::domain::Quantity`].
pub const QUANTITY_PLACES: u32 = 16;

/// Decimal places of a [`crate::domain::Money`].
pub const MONEY_PLACES: u32 = 24;

/// Quantities up to this size (10^-12 coins) are noise.
pub const QUANTITY_EPSILON: i128 = 10_000;

/// The nearest value that an `i128` can hold.
pub open spec fn clamp(x: int) -> int {
    if x > i128::MAX {
        i128::MAX as int
    } else if x < i128::MIN {
        i128::MIN as int
    } else {
        x
    }
}

/// Whether an `i128` can hold the value.
pub open spec fn fits(x: int) -> bool {
    i128::MIN <= x <= i128::MAX
}

/// The size of a number without its sign.
pub open spec fn abs(x: int) -> int {
    if x < 0 {
        -x
    } else {
        x
    }
}

/// The sum, held at the ends of the `i128` range.
pub fn plus(a: i128, b: i128) -> (r: i128)
    ensures
        r == clamp(a + b),
{
    match a.checked_add(b) {
        Some(s) => s,
        None => if a > 0 {
            i128::MAX
        } else {
            i128::MIN
        },
    }
}

/// The difference, held at the ends of the `i128` range.
pub fn minus(a: i128, b: i128) -> (r: i128)
    ensures
        r == clamp(a - b),
{
    match a.checked_sub(b) {
        Some(s) => s,
        None => if b < 0 {
            i128::MAX
        } else {
            i128::MIN
        },
    }
}

/// The product, held at the ends of the `i128` range.
pub fn times(a: i128, b: i128) -> (r: i128)
    ensures
        r == clamp(a * b),
{
    match a.checked_mul(b) {
        Some(s) => s,
        None => if (a > 0) == (b > 0) {
            proof {
                assert(a * b > 0 || a == 0 || b == 0) by (nonlinear_arith)
                    requires
                        (a > 0) == (b > 0),
                ;
                assert(a == 0 || b == 0 ==> a * b == 0) by (nonlinear_arith);
            }
            i128::MAX
        } else {
            proof {
                assert(a * b <= 0) by (nonlinear_arith)
                    requires
                        (a > 0) != (b > 0),
                ;
            }
            i128::MIN
        },
    }
}

/// The number without its sign, held at the end of the `i128` range.
pub fn size_of(a: i128) -> (r: i128)
    ensures
        r == clamp(abs(a as int)),
{
    if a >= 0 {
        a
    } else {
        minus(0, a)
    }
}

/// Whether a number's size is more than a limit.
pub fn exceeds(a: i128, limit: i128) -> (b: bool)
    requires
        limit >= 0,
    ensures
        b == (abs(a as int) > limit),
{
    a > limit || a < -limit
}

/// The larger of two.
pub fn larger(a: i128, b: i128) -> (r: i128)
    ensures
        r == if a >= b { a } else { b },
{
    if a >= b {
        a
    } else {
        b
    }
}

/// The multiple of `step` that is nearest to `x` on the side of zero. A step that is not
/// positive leaves `x` as it is.
pub open spec fn rounded_down(x: int, step: int) -> int {
    if step <= 0 {
        x
    } else if x >= 0 {
        x - x % step
    } else {
        x + (-x) % step
    }
}

/// The multiple of `step` that is nearest to `x`; of two that are equally near, the one that is
/// farther from zero. A step that is not positive leaves `x` as it is.
pub open spec fn rounded(x: int, step: int) -> int {
    if step <= 0 {
        x
    } else if x >= 0 {
        if 2 * (x % step) >= step {
            x - x % step + step
        } else {
            x - x % step
        }
    } else {
        if 2 * ((-x) % step) >= step {
            x + (-x) % step - step
        } else {
            x + (-x) % step
        }
    }
}

/// Rounds towards zero to a multiple of `step`.
pub fn round_down(x: i128, step: i128) -> (r: i128)
    ensures
        r == rounded_down(x as int, step as int),
{
    if step <= 0 {
        x
    } else {
        let rest: u128 = magnitude(x) % (step as u128);
        if x >= 0 {
            x - rest as i128
        } else {
            x + rest as i128
        }
    }
}

/// Rounds to the nearest multiple of `step`, held at the ends of the `i128` range.
pub fn round(x: i128, step: i128) -> (r: i128)
    ensures
        r == clamp(rounded(x as int, step as int)),
{
    if step <= 0 {
        x
    } else {
        let rest: u128 = magnitude(x) % (step as u128);
        let base = if x >= 0 {
            x - rest as i128
        } else {
            x + rest as i128
        };
        if 2 * rest >= step as u128 {
            if x >= 0 {
                plus(base, step)
            } else {
                minus(base, step)
            }
        } else {
            base
        }
    }
}

/// The quotient, rounded towards zero.
pub open spec fn divided_down(x: int, by: int) -> int {
    if x >= 0 {
        x / by
    } else {
        -((-x) / by)
    }
}

/// The quotient by a positive number, rounded towards zero.
pub fn divide_down(x: i128, by: i128) -> (r: i128)
    requires
        by > 0,
    ensures
        r == divided_down(x as int, by as int),
{
    let m: u128 = magnitude(x) / (by as u128);
    proof {
        vstd::arithmetic::div_mod::lemma_div_is_ordered_by_denominator(
            abs(x as int),
            1,
            by as int,
        );
        vstd::arithmetic::div_mod::lemma_div_basics(abs(x as int));
    }
    if x >= 0 {
        m as i128
    } else if m == 170141183460469231731687303715884105728 {
        i128::MIN
    } else {
        -(m as i128)
    }
}

/// Half of the number, rounded towards zero.
pub open spec fn halved(x: int) -> int {
    if x >= 0 {
        x / 2
    } else {
        -((-x) / 2)
    }
}

/// Half of the number, rounded towards zero.
pub fn halve(x: i128) -> (r: i128)
    ensures
        r == halved(x as int),
{
    let m = (magnitude(x) / 2) as i128;
    if x >= 0 {
        m
    } else {
        -m
    }
}

proof fn lemma_half_of_sum(a: int, b: int)
    requires
        a > 0 ==> b >= 0,
        a < 0 ==> b <= 0,
    ensures
        halved(2 * a + b) == a + halved(b),
{
}

/// Half of the product, rounded towards zero and held at the ends of the `i128` range.
pub fn half_times(a: i128, twice: i128) -> (r: i128)
    ensures
        r == clamp(halved(a * twice)),
{
    let whole = halve(twice);
    let rest: i128 = twice - 2 * whole;
    proof {
        let x = a * whole;
        let y = a * rest;
        assert(a * twice == 2 * x + y) by (nonlinear_arith)
            requires
                x == a * whole,
                y == a * rest,
                rest == twice - 2 * whole,
        ;
        assert(x > 0 ==> y >= 0) by (nonlinear_arith)
            requires
                x == a * whole,
                y == a * rest,
                whole > 0 ==> rest >= 0,
                whole < 0 ==> rest <= 0,
        ;
        assert(x < 0 ==> y <= 0) by (nonlinear_arith)
            requires
                x == a * whole,
                y == a * rest,
                whole > 0 ==> rest >= 0,
                whole < 0 ==> rest <= 0,
        ;
        assert((rest == 0 ==> y == 0) && (rest == 1 ==> y == a) && (rest == -1 ==> y == -a)) by (nonlinear_arith)
            requires
                y == a * rest,
        ;
        lemma_half_of_sum(x, y);
    }
    let half = if rest == 0 {
        0
    } else if rest > 0 {
        halve(a)
    } else {
        -halve(a)
    };
    plus(times(a, whole), half)
}

/// Rounding towards zero gives a multiple of the step, not larger than the number, and less
/// than one step away from it.
pub proof fn rounding_down_never_adds(x: int, step: int)
    requires
        step > 0,
    ensures
        rounded_down(x, step) % step == 0,
        abs(rounded_down(x, step)) <= abs(x) < abs(rounded_down(x, step)) + step,
        x >= 0 ==> rounded_down(x, step) >= 0,
        x <= 0 ==> rounded_down(x, step) <= 0,
{
    let m = abs(x);
    let k = m / step;
    vstd::arithmetic::div_mod::lemma_fundamental_div_mod(m, step);
    vstd::arithmetic::div_mod::lemma_mod_multiples_basic(k, step);
    vstd::arithmetic::div_mod::lemma_mod_multiples_basic(-k, step);
    assert(k * step == step * k && (-k) * step == -(step * k)) by (nonlinear_arith);
    assert(m % step <= m) by (nonlinear_arith)
        requires
            m >= 0,
            step > 0,
    ;
}

/// Rounding to the nearest multiple of the step moves a number by at most half a step.
pub proof fn rounding_moves_at_most_half_a_step(x: int, step: int)
    requires
        step > 0,
    ensures
        2 * abs(rounded(x, step) - x) <= step,
{
}

/// Rounding lands on a step.
pub proof fn rounding_lands_on_a_step(x: int, step: int)
    requires
        step > 0,
    ensures
        rounded(x, step) % step == 0,
{
    let r = if x >= 0 { x % step } else { (-x) % step };
    let q = if x >= 0 { x / step } else { (-x) / step };
    let far = 2 * r >= step;
    if x >= 0 {
        assert(x == step * q + r) by {
            vstd::arithmetic::div_mod::lemma_fundamental_div_mod(x, step);
        }
        let k = if far { q + 1 } else { q };
        assert(rounded(x, step) == step * k) by (nonlinear_arith)
            requires
                x == step * q + r,
                k == (if far { q + 1 } else { q }),
                rounded(x, step) == (if far { x - r + step } else { x - r }),
        ;
        vstd::arithmetic::div_mod::lemma_mod_multiples_basic(k, step);
        assert(k * step == step * k) by (nonlinear_arith);
    } else {
        assert(-x == step * q + r) by {
            vstd::arithmetic::div_mod::lemma_fundamental_div_mod(-x, step);
        }
        let k = if far { -q - 1 } else { -q };
        assert(rounded(x, step) == step * k) by (nonlinear_arith)
            requires
                -x == step * q + r,
                k == (if far { -q - 1 } else { -q }),
                rounded(x, step) == (if far { x + r - step } else { x + r }),
        ;
        vstd::arithmetic::div_mod::lemma_mod_multiples_basic(k, step);
        assert(k * step == step * k) by (nonlinear_arith);
    }
}

/// Rounding goes to the nearer step, and away from zero from the middle between two.
pub proof fn rounding_goes_to_the_nearest_step(x: int, step: int, k: int)
    requires
        step > 0,
    ensures
        abs(rounded(x, step) - x) <= abs(step * k - x),
        2 * abs(rounded(x, step) - x) == step ==> abs(rounded(x, step)) > abs(x),
{
    rounding_moves_at_most_half_a_step(x, step);
    rounding_lands_on_a_step(x, step);
    let n = rounded(x, step) / step;
    assert(rounded(x, step) == step * n) by {
        vstd::arithmetic::div_mod::lemma_fundamental_div_mod(rounded(x, step), step);
    }
    assert(n == k || abs(step * n - step * k) >= step) by (nonlinear_arith)
        requires
            step > 0,
    ;
}

/// What is within range is not cut.
pub proof fn amounts_in_range_are_kept(x: int)
    ensures
        i128::MIN <= x <= i128::MAX ==> clamp(x) == x,
        x > i128::MAX ==> clamp(x) == i128::MAX,
        x < i128::MIN ==> clamp(x) == i128::MIN,
{
}

/// The sum of amounts, without a limit.
pub open spec fn total(parts: Seq<int>) -> int
    decreases parts.len(),
{
    if parts.len() == 0 {
        0
    } else {
        total(parts.drop_last()) + parts.last()
    }
}

/// One amount more adds itself to the sum.
pub proof fn a_part_more_adds_itself(parts: Seq<int>, part: int)
    ensures
        total(parts.push(part)) == total(parts) + part,
{
    assert(parts.push(part).drop_last() =~= parts);
}

/// Replacing one amount changes the sum by the difference.
pub proof fn a_part_replaced_adds_the_difference(parts: Seq<int>, i: int, part: int)
    requires
        0 <= i < parts.len(),
    ensures
        total(parts.update(i, part)) == total(parts) - parts[i] + part,
    decreases parts.len(),
{
    if i == parts.len() - 1 {
        assert(parts.update(i, part).drop_last() =~= parts.drop_last());
    } else {
        assert(parts.update(i, part).drop_last() =~= parts.drop_last().update(i, part));
        a_part_replaced_adds_the_difference(parts.drop_last(), i, part);
    }
}

/// Whether amounts can be added up one by one without leaving the range.
pub open spec fn adds_up(parts: Seq<int>) -> bool {
    forall|k: int| 0 <= k <= parts.len() ==> i128::MIN <= #[trigger] total(parts.take(k)) <= i128::MAX
}

/// What can be added up in whole can be added up but for its last part.
pub proof fn a_part_less_adds_up(parts: Seq<int>)
    requires
        parts.len() > 0,
        adds_up(parts),
    ensures
        adds_up(parts.drop_last()),
        i128::MIN <= total(parts) <= i128::MAX,
{
    let rest = parts.drop_last();
    assert forall|k: int| 0 <= k <= rest.len() implies i128::MIN <= #[trigger] total(rest.take(k)) <= i128::MAX by {
        assert(rest.take(k) =~= parts.take(k));
        assert(i128::MIN <= total(parts.take(k)) <= i128::MAX);
    }
    assert(parts.take(parts.len() as int) =~= parts);
    assert(i128::MIN <= total(parts.take(parts.len() as int)) <= i128::MAX);
}

/// Amounts that are not negative add up as long as their sum is within range, and no sum of fewer of
/// them is larger.
pub proof fn amounts_without_sign_add_up(parts: Seq<int>)
    requires
        forall|i: int| 0 <= i < parts.len() ==> #[trigger] parts[i] >= 0,
        total(parts) <= i128::MAX,
    ensures
        adds_up(parts),
        total(parts) >= 0,
    decreases parts.len(),
{
    assert(parts.take(parts.len() as int) =~= parts);
    if parts.len() > 0 {
        let rest = parts.drop_last();
        assert(parts[parts.len() - 1] >= 0);
        assert forall|i: int| 0 <= i < rest.len() implies #[trigger] rest[i] >= 0 by {
            assert(parts[i] >= 0);
        }
        amounts_without_sign_add_up(rest);
        assert forall|k: int| 0 <= k <= parts.len() implies i128::MIN <= #[trigger] total(parts.take(k)) <= i128::MAX by {
            if k < parts.len() {
                assert(parts.take(k) =~= rest.take(k));
                assert(i128::MIN <= total(rest.take(k)) <= i128::MAX);
            }
        }
    }
}

/// Halving cuts towards zero: what is left over is at most one, and of the sign of what was halved.
pub proof fn halving_cuts_towards_zero(x: int)
    ensures
        x >= 0 ==> 2 * halved(x) <= x <= 2 * halved(x) + 1,
        x <= 0 ==> 2 * halved(x) - 1 <= x <= 2 * halved(x),
        halved(2 * x) == x,
{
}

/// Dividing cuts towards zero: what is left over is less than the divisor, and of the sign of what was
/// divided.
pub proof fn dividing_cuts_towards_zero(x: int, by: int)
    requires
        by > 0,
    ensures
        x >= 0 ==> by * divided_down(x, by) <= x < by * divided_down(x, by) + by,
        x <= 0 ==> by * divided_down(x, by) - by < x <= by * divided_down(x, by),
{
    vstd::arithmetic::div_mod::lemma_fundamental_div_mod(x, by);
    vstd::arithmetic::div_mod::lemma_fundamental_div_mod(-x, by);
    let q = (-x) / by;
    assert(by * (-q) == -(by * q)) by (nonlinear_arith);
}

} // verus!
