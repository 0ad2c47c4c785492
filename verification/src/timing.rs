//! How long a step is, and how far it reaches.
//!
//! The time step is set by the finest cells of a grid and the gains follow from it.
//! What ties them together is the condition for the scheme to be stable, and it is
//! stated here as that, for arithmetic that does not round.

use crate::absorber::aligned;
use crate::algebra::{
    add_nothing, multiply_by_nothing, multiply_commutes, multiply_regroups, multiply_spreads,
};
use crate::grading::ordered;
use crate::grid::{light_speed, Axis, Grid};
use crate::numerics::Elementary;
use crate::order::{
    below_through, factors_come_off, field, lemma_square_of_product, parts,
    products_keep_order, sums_keep_order,
};
use crate::scalar::{
    at_most, below, greater_of, minus, number, over, plus, times, Scalar,
};
use crate::spacing::{greatest, greatest_ratio, least};
use vstd::prelude::*;

verus! {

/// Light covers the Courant number of reference cells in a step.
pub proof fn steps_are_as_long_as_asked<V: Scalar, W: Scalar, N: Elementary<V>>(
    math: &N,
    grid: Grid<V, W>,
)
    requires
        field::<V>(),
        below(number::<V>(0), light_speed::<V, N>(math)),
    ensures
        times(grid.step_time(math), light_speed::<V, N>(math)) == times(
            grid.courant,
            grid.reference_size(math),
        ),
{
    parts(times(grid.courant, grid.reference_size(math)), light_speed::<V, N>(math));
}

/// What light covers in a step is each gain times the width it belongs to.
pub proof fn gains_undo_their_widths<V: Scalar, W: Scalar, N: Elementary<V>>(
    math: &N,
    grid: Grid<V, W>,
    widths: Seq<V>,
    i: int,
)
    requires
        field::<V>(),
        0 <= i < widths.len(),
        below(number::<V>(0), widths[i]),
    ensures
        times(grid.gains_over(math, widths)[i], widths[i]) == times(
            grid.step_time(math),
            light_speed::<V, N>(math),
        ),
{
    parts(grid.travel(math), widths[i]);
    multiply_commutes(grid.step_time(math), light_speed::<V, N>(math));
}

/// The squares of the three gains, each at the finest cell of its axis, add up to
/// three times the square of the Courant number: on a cube each gain is the Courant
/// number, and on any other grid the same Courant number is as far from the limit.
pub proof fn steps_keep_to_the_courant_number<V: Scalar, W: Scalar, N: Elementary<V>>(
    math: &N,
    grid: Grid<V, W>,
    gains: (V, V, V),
)
    requires
        field::<V>(),
        below(number::<V>(0), light_speed::<V, N>(math)),
        forall|axis: Axis| below(number::<V>(0), #[trigger] grid.finest_along(math, axis)),
        // The root of a number above zero, times itself, is the number.
        forall|x: V|
            below(number::<V>(0), x) ==> times(#[trigger] math.sqrt_of(x), math.sqrt_of(x)) == x,
        below(number::<V>(0), number::<V>(3)),
        // Each gain times its cell is what light covers in a step.
        ({
            let reach = times(grid.step_time(math), light_speed::<V, N>(math));
            &&& times(gains.0, grid.finest_along(math, Axis::X)) == reach
            &&& times(gains.1, grid.finest_along(math, Axis::Y)) == reach
            &&& times(gains.2, grid.finest_along(math, Axis::Z)) == reach
        }),
    ensures
        plus(
            plus(times(gains.0, gains.0), times(gains.1, gains.1)),
            times(gains.2, gains.2),
        ) == times(number::<V>(3), times(grid.courant, grid.courant)),
{
    let (zero, one, three) = (number::<V>(0), number::<V>(1), number::<V>(3));
    let (x, y, z) = (
        grid.finest_along(math, Axis::X),
        grid.finest_along(math, Axis::Y),
        grid.finest_along(math, Axis::Z),
    );
    let (a, b, c) = (over(one, times(x, x)), over(one, times(y, y)), over(one, times(z, z)));
    let sum = plus(plus(plus(zero, a), b), c);
    let size = grid.reference_size(math);
    let s = grid.courant;
    let reach = times(s, size);
    steps_are_as_long_as_asked(math, grid);
    lemma_inverse_square(x);
    lemma_inverse_square(y);
    lemma_inverse_square(z);
    // The sum is above zero, and so is three over it.
    add_nothing(a);
    sums_keep_order(zero, a, b);
    add_nothing(b);
    below_through(zero, b, plus(a, b));
    below_through(b, plus(a, b), plus(a, b));
    sums_keep_order(zero, plus(a, b), c);
    add_nothing(c);
    below_through(zero, c, sum);
    below_through(c, sum, sum);
    parts(three, sum);
    multiply_by_nothing(sum);
    factors_come_off(zero, over(three, sum), sum);
    // size² · sum = 3.
    assert(times(size, size) == over(three, sum));
    // Each gain squared is reach² times the inverse square of its cell.
    lemma_gain_squared(gains.0, x, a, reach);
    lemma_gain_squared(gains.1, y, b, reach);
    lemma_gain_squared(gains.2, z, c, reach);
    let square = times(reach, reach);
    multiply_spreads(square, a, b);
    multiply_spreads(square, plus(a, b), c);
    // reach² · sum = s² · (size² · sum) = s² · 3.
    lemma_square_of_product(s, size);
    multiply_regroups(times(s, s), times(size, size), sum);
    multiply_commutes(times(s, s), three);
}

proof fn lemma_inverse_square<V: Scalar>(x: V)
    requires
        field::<V>(),
        below(number::<V>(0), x),
    ensures
        times(over(number::<V>(1), times(x, x)), times(x, x)) == number::<V>(1),
        below(number::<V>(0), over(number::<V>(1), times(x, x))),
        below(number::<V>(0), times(x, x)),
{
    let (zero, one) = (number::<V>(0), number::<V>(1));
    let square = times(x, x);
    multiply_by_nothing(x);
    products_keep_order(zero, x, x);
    parts(one, square);
    multiply_by_nothing(square);
    factors_come_off(zero, over(one, square), square);
}

proof fn lemma_gain_squared<V: Scalar>(gain: V, x: V, inverse: V, reach: V)
    requires
        field::<V>(),
        below(number::<V>(0), times(x, x)),
        times(gain, x) == reach,
        times(inverse, times(x, x)) == number::<V>(1),
    ensures
        times(gain, gain) == times(times(reach, reach), inverse),
{
    let square = times(reach, reach);
    lemma_square_of_product(gain, x);
    multiply_regroups(square, inverse, times(x, x));
    parts(square, square);
    factors_come_off(times(gain, gain), times(square, inverse), times(x, x));
}

/// A grid whose finest cells are as long along every axis is its own reference.
pub proof fn cubes_are_their_own_reference<V: Scalar, W: Scalar, N: Elementary<V>>(
    math: &N,
    grid: Grid<V, W>,
    side: V,
)
    requires
        field::<V>(),
        below(number::<V>(0), side),
        forall|axis: Axis| #[trigger] grid.finest_along(math, axis) == side,
        math.sqrt_of(times(side, side)) == side,
        plus(plus(number::<V>(1), number::<V>(1)), number::<V>(1)) == number::<V>(3),
    ensures
        grid.reference_size(math) == side,
{
    let (zero, one, three) = (number::<V>(0), number::<V>(1), number::<V>(3));
    let square = times(side, side);
    let a = over(one, square);
    let sum = plus(plus(plus(zero, a), a), a);
    assert(grid.finest_along(math, Axis::X) == side && grid.finest_along(math, Axis::Y) == side
        && grid.finest_along(math, Axis::Z) == side);
    lemma_inverse_square(side);
    add_nothing(a);
    // sum = 3·a, and so (side²)·sum = 3.
    multiply_commutes(three, a);
    multiply_spreads(a, plus(one, one), one);
    multiply_spreads(a, one, one);
    parts(a, a);
    assert(sum == times(three, a));
    multiply_regroups(three, a, square);
    parts(three, three);
    multiply_commutes(sum, square);
    // Above zero, so the quotient is the square.
    below_through(zero, one, one);
    sums_keep_order(zero, one, one);
    add_nothing(one);
    below_through(zero, one, plus(one, one));
    below_through(one, plus(one, one), plus(one, one));
    sums_keep_order(zero, plus(one, one), one);
    below_through(zero, one, three);
    below_through(one, three, three);
    multiply_by_nothing(a);
    products_keep_order(zero, three, a);
    parts(three, sum);
    factors_come_off(over(three, sum), square, sum);
}

/// The finest width is one of the widths, and none is finer.
pub proof fn the_finest_is_the_finest<V: Scalar, N: Elementary<V>>(
    math: &N,
    widths: Seq<V>,
    n: int,
    i: int,
)
    requires
        ordered::<V>(),
        aligned::<V>(),
        0 <= i < n <= widths.len(),
        forall|k: int| 0 <= k < n ==> at_most(#[trigger] widths[k], math.infinity_of()),
    ensures
        at_most(least(math, widths, n), widths[i]),
        exists|k: int| 0 <= k < n && #[trigger] widths[k] == least(math, widths, n),
    decreases n,
{
    reveal(ordered);
    reveal(aligned);
    let before = least(math, widths, n - 1);
    let last = widths[n - 1];
    assert(at_most(last, math.infinity_of()));
    assert(at_most(last, last) && at_most(before, before));
    if n > 1 {
        the_finest_is_the_finest(math, widths, n - 1, if i < n - 1 {
            i
        } else {
            0
        });
        let k = choose|k: int| 0 <= k < n - 1 && #[trigger] widths[k] == before;
        assert(widths[k] == before);
        if below(last, before) {
            assert(at_most(last, before));
        } else {
            assert(at_most(before, last));
        }
        assert(widths[n - 1] == last);
    } else {
        if !below(last, math.infinity_of()) {
            assert(at_most(math.infinity_of(), last));
        }
        assert(widths[0] == least(math, widths, 1)) by {
            assert(before == math.infinity_of());
        }
    }
}

/// The coarsest width is one of the widths, and none is coarser.
pub proof fn the_coarsest_is_the_coarsest<V: Scalar, N: Elementary<V>>(
    math: &N,
    widths: Seq<V>,
    n: int,
    i: int,
)
    requires
        ordered::<V>(),
        aligned::<V>(),
        0 <= i < n <= widths.len(),
        forall|k: int|
            0 <= k < n ==> at_most(
                minus(number::<V>(0), math.infinity_of()),
                #[trigger] widths[k],
            ),
    ensures
        at_most(widths[i], greatest(math, widths, n)),
        exists|k: int| 0 <= k < n && #[trigger] widths[k] == greatest(math, widths, n),
    decreases n,
{
    reveal(ordered);
    reveal(aligned);
    let lowest = minus(number::<V>(0), math.infinity_of());
    let before = greatest(math, widths, n - 1);
    let last = widths[n - 1];
    assert(at_most(lowest, last));
    assert(at_most(last, last) && at_most(before, before));
    if n > 1 {
        the_coarsest_is_the_coarsest(math, widths, n - 1, if i < n - 1 {
            i
        } else {
            0
        });
        let k = choose|k: int| 0 <= k < n - 1 && #[trigger] widths[k] == before;
        assert(widths[k] == before);
        if below(before, last) {
            assert(at_most(before, last));
        } else {
            assert(at_most(last, before));
        }
        assert(widths[n - 1] == last);
    } else {
        if !below(lowest, last) {
            assert(at_most(last, lowest));
        }
        assert(widths[0] == greatest(math, widths, 1)) by {
            assert(before == lowest);
        }
    }
}

/// No two neighbours differ by more than the worst ratio, whichever is larger, and
/// it is never below one.
pub proof fn the_worst_ratio_covers_them_all<V: Scalar>(widths: Seq<V>, n: int, i: int)
    requires
        ordered::<V>(),
        0 <= i < n < widths.len(),
    ensures
        at_most(over(widths[i], widths[i + 1]), greatest_ratio(widths, n)),
        at_most(over(widths[i + 1], widths[i]), greatest_ratio(widths, n)),
        at_most(number::<V>(1), greatest_ratio(widths, n)),
    decreases n,
{
    reveal(ordered);
    let before = greatest_ratio(widths, n - 1);
    let (up, down) = (over(widths[n], widths[n - 1]), over(widths[n - 1], widths[n]));
    let step = greater_of(up, down);
    let after = greatest_ratio(widths, n);
    assert(at_most(up, step) && at_most(down, step)) by {
        lemma_not_less(up, down);
    }
    assert(at_most(before, after) && at_most(step, after)) by {
        lemma_not_less(before, step);
    }
    if n > 1 {
        the_worst_ratio_covers_them_all(widths, n - 1, if i < n - 1 {
            i
        } else {
            0
        });
    }
}

proof fn lemma_not_less<V: Scalar>(a: V, b: V)
    requires
        ordered::<V>(),
    ensures
        at_most(a, greater_of(a, b)),
        at_most(b, greater_of(a, b)),
{
    reveal(ordered);
    if below(a, b) {
        assert(at_most(a, b) && at_most(b, b));
    } else {
        assert(at_most(b, a) && at_most(a, a));
    }
}

/// A wave at the frequency that spans a number of cells has that many of the coarsest
/// cells to the wavelength.
pub proof fn frequencies_span_their_cells<V: Scalar, W: Scalar, N: Elementary<V>>(
    math: &N,
    grid: Grid<V, W>,
    cells: V,
)
    requires
        field::<V>(),
        below(number::<V>(0), times(cells, grid.coarsest_anywhere(math))),
    ensures
        times(
            grid.frequency_spanning(math, cells),
            times(cells, grid.coarsest_anywhere(math)),
        ) == light_speed::<V, N>(math),
{
    parts(light_speed::<V, N>(math), times(cells, grid.coarsest_anywhere(math)));
}

/// The coarsest cell anywhere is at or above the coarsest along each axis.
pub proof fn no_axis_is_coarser<V: Scalar, W: Scalar, N: Elementary<V>>(
    math: &N,
    grid: Grid<V, W>,
    axis: Axis,
)
    requires
        ordered::<V>(),
    ensures
        at_most(grid.coarsest_along(math, axis), grid.coarsest_anywhere(math)),
{
    reveal(ordered);
    let (x, y, z) = (
        grid.coarsest_along(math, Axis::X),
        grid.coarsest_along(math, Axis::Y),
        grid.coarsest_along(math, Axis::Z),
    );
    let lowest = minus(number::<V>(0), math.infinity_of());
    let first = greater_of(lowest, x);
    let second = greater_of(first, y);
    lemma_not_less(lowest, x);
    lemma_not_less(first, y);
    lemma_not_less(second, z);
    let third = greater_of(second, z);
    assert(at_most(first, third));
    assert(at_most(x, third));
}

} // verus!
