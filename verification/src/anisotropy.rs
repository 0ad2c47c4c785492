//! How fast waves travel on the grid.
//!
//! The dispersion relation is solved by halving a bracket. What that finds is
//! pinned down here by what it is for: the root stays in the bracket, waves along
//! an axis are the slowest, and waves along an axis get faster with every cell more
//! per wavelength. The last two rest on what a sine is and on arithmetic that does
//! not round, so both are part of the statement.

use crate::algebra::{
    add_commutes, add_nothing, differences_add, multiply_by_nothing, multiply_commutes,
    multiply_regroups, multiply_spreads, multiply_spreads_over_difference, ring, take_away,
};
use crate::dispersion::{
    bracket, phase_velocity, pi_of, spatial_side, sum_of_squares, temporal_side, unit_of,
};
use crate::lattice::Axis;
use crate::numerics::Elementary;
use crate::order::{
    below_through, differences_tell, factors_come_off, field, lemma_square_of_product,
    middles_lie_between, one_way_or_the_other, partners_trade, parts, products_keep_order,
    quotients_by_multiples,
    squares_keep_order, sums_keep_order,
};
use crate::scalar::{at_most, below, half, minus, number, over, plus, times, Scalar};
use vstd::prelude::*;

verus! {

/// Whether a wavenumber is still short of the root: the spatial side of the
/// relation has not reached the temporal one.
pub open spec fn short_of<T: Scalar, N: Elementary<T>>(
    math: &N,
    unit: Seq<T>,
    target: T,
    k: T,
) -> bool {
    below(minus(spatial_side(math, unit, k), target), number::<T>(0))
}

/// A bracket that is short of the root at its low end and not at its high end is so
/// after any number of halvings.
pub proof fn the_root_stays_bracketed<T: Scalar, N: Elementary<T>>(
    math: &N,
    unit: Seq<T>,
    target: T,
    lo: T,
    hi: T,
    n: nat,
)
    requires
        short_of(math, unit, target, lo),
        !short_of(math, unit, target, hi),
    ensures
        ({
            let (a, b) = bracket(math, unit, target, lo, hi, n);
            short_of(math, unit, target, a) && !short_of(math, unit, target, b)
        }),
    decreases n,
{
    if n > 0 {
        the_root_stays_bracketed(math, unit, target, lo, hi, (n - 1) as nat);
    }
}

/// Every halving leaves half of the bracket.
pub proof fn halving_halves<T: Scalar, N: Elementary<T>>(
    math: &N,
    unit: Seq<T>,
    target: T,
    lo: T,
    hi: T,
    n: nat,
)
    requires
        field::<T>(),
    ensures
        ({
            let (a, b) = bracket(math, unit, target, lo, hi, n);
            let (c, d) = bracket(math, unit, target, lo, hi, n + 1);
            minus(d, c) == times(half::<T>(), minus(b, a))
        }),
{
    let h = half::<T>();
    let (a, b) = bracket(math, unit, target, lo, hi, n);
    let mid = times(h, plus(a, b));
    parts(a, a);
    parts(b, b);
    let (ha, hb) = (times(h, a), times(h, b));
    multiply_spreads(h, a, a);
    multiply_spreads(h, b, b);
    multiply_spreads(h, a, b);
    multiply_spreads_over_difference(h, b, a);
    // b - (ha + hb) = (hb + hb) - (ha + hb), and (ha + hb) - a = (ha + hb) - (ha + ha).
    lemma_common_part(hb, ha, hb);
    add_commutes(ha, hb);
    lemma_common_part(hb, ha, ha);
}

/// What two sums share does not show in their difference.
proof fn lemma_common_part<T: Scalar>(a: T, b: T, shared: T)
    requires
        ring::<T>(),
    ensures
        minus(plus(a, shared), plus(b, shared)) == minus(a, b),
{
    differences_add(a, b, shared, shared);
    take_away(shared, shared);
    add_nothing(minus(a, b));
}

/// The bracket after `n` halvings, as multiples of the ideal wavenumber: from a
/// half to two, where `short` says which multiples are short of the root.
pub open spec fn multiples<T: Scalar>(short: spec_fn(T) -> bool, n: nat) -> (T, T)
    decreases n,
{
    if n == 0 {
        (half::<T>(), number::<T>(2))
    } else {
        let (a, b) = multiples(short, (n - 1) as nat);
        let mid = times(half::<T>(), plus(a, b));
        if short(mid) {
            (mid, b)
        } else {
            (a, mid)
        }
    }
}

/// The middle of a pair.
pub open spec fn middle<T: Scalar>(pair: (T, T)) -> T {
    times(half::<T>(), plus(pair.0, pair.1))
}

/// The wavenumber a wave would have without a grid.
pub open spec fn ideal_of<T: Scalar, N: Elementary<T>>(math: &N, cells: T) -> T {
    over(times(number::<T>(2), pi_of::<T, N>(math)), cells)
}

/// Which multiples of the ideal wavenumber are short of the root.
pub open spec fn short_at<T: Scalar, N: Elementary<T>>(
    math: &N,
    courant: T,
    cells: T,
    unit: Seq<T>,
) -> spec_fn(T) -> bool {
    |x: T|
        short_of(
            math,
            unit,
            temporal_side(math, courant, cells),
            times(x, ideal_of(math, cells)),
        )
}

/// Halving goes the same way whatever the bracket is measured in.
proof fn lemma_scales<T: Scalar, N: Elementary<T>>(
    math: &N,
    courant: T,
    cells: T,
    unit: Seq<T>,
    n: nat,
)
    requires
        ring::<T>(),
    ensures
        ({
            let ideal = ideal_of(math, cells);
            let pair = multiples(short_at(math, courant, cells, unit), n);
            bracket(
                math,
                unit,
                temporal_side(math, courant, cells),
                times(half::<T>(), ideal),
                times(number::<T>(2), ideal),
                n,
            ) == (times(pair.0, ideal), times(pair.1, ideal))
        }),
        ({
            let ideal = ideal_of(math, cells);
            let pair = multiples(short_at(math, courant, cells, unit), n);
            times(half::<T>(), plus(times(pair.0, ideal), times(pair.1, ideal))) == times(
                middle(pair),
                ideal,
            )
        }),
    decreases n,
{
    let ideal = ideal_of(math, cells);
    let short = short_at(math, courant, cells, unit);
    if n > 0 {
        lemma_scales(math, courant, cells, unit, (n - 1) as nat);
        let before = multiples(short, (n - 1) as nat);
        assert(short(middle(before)) == short_of(
            math,
            unit,
            temporal_side(math, courant, cells),
            times(middle(before), ideal),
        ));
    }
    let (a, b) = multiples(short, n);
    multiply_commutes(a, ideal);
    multiply_commutes(b, ideal);
    multiply_spreads(ideal, a, b);
    multiply_commutes(ideal, plus(a, b));
    multiply_regroups(half::<T>(), plus(a, b), ideal);
}

/// The multiples stay in order and between a half and two.
proof fn lemma_multiples_are_ordered<T: Scalar>(short: spec_fn(T) -> bool, n: nat)
    requires
        field::<T>(),
        below(half::<T>(), number::<T>(2)),
    ensures
        ({
            let (a, b) = multiples(short, n);
            &&& below(a, b)
            &&& at_most(half::<T>(), a)
            &&& at_most(b, number::<T>(2))
            &&& below(a, middle((a, b)))
            &&& below(middle((a, b)), b)
        }),
    decreases n,
{
    let (low, high) = (half::<T>(), number::<T>(2));
    let (a, b) = multiples(short, n);
    if n > 0 {
        lemma_multiples_are_ordered(short, (n - 1) as nat);
        let (c, d) = multiples(short, (n - 1) as nat);
        let mid = middle((c, d));
        below_through(low, c, mid);
        below_through(c, mid, mid);
        below_through(mid, d, high);
        below_through(mid, d, d);
    } else {
        below_through(low, low, low);
        below_through(high, high, high);
    }
    middles_lie_between(a, b);
}

/// Where whatever is short for the first is short for the second too, the first
/// ends no higher; and where the two part company, lower.
proof fn lemma_shorter_ends_lower<T: Scalar>(
    first: spec_fn(T) -> bool,
    second: spec_fn(T) -> bool,
    n: nat,
)
    requires
        field::<T>(),
        below(half::<T>(), number::<T>(2)),
        forall|x: T|
            at_most(half::<T>(), x) && at_most(x, number::<T>(2)) && #[trigger] first(x)
                ==> second(x),
    ensures
        multiples(first, n) == multiples(second, n) || at_most(
            multiples(first, n).1,
            multiples(second, n).0,
        ),
    decreases n,
{
    if n > 0 {
        let (low, high) = (half::<T>(), number::<T>(2));
        lemma_shorter_ends_lower(first, second, (n - 1) as nat);
        lemma_multiples_are_ordered(first, (n - 1) as nat);
        lemma_multiples_are_ordered(second, (n - 1) as nat);
        let (a, b) = multiples(first, (n - 1) as nat);
        let (c, d) = multiples(second, (n - 1) as nat);
        let (p, q) = (middle((a, b)), middle((c, d)));
        below_through(low, a, p);
        below_through(low, p, p);
        below_through(p, b, high);
        below_through(p, high, high);
        if (a, b) != (c, d) {
            below_through(p, b, c);
            below_through(p, c, c);
            below_through(b, c, q);
            below_through(b, q, q);
            below_through(p, c, q);
            below_through(p, q, q);
        } else {
            below_through(p, p, p);
        }
    }
}

/// A velocity is the partner of the multiple that the halving ends at.
proof fn lemma_velocity<T: Scalar, N: Elementary<T>>(
    math: &N,
    courant: T,
    cells: T,
    unit: Seq<T>,
)
    requires
        field::<T>(),
        below(half::<T>(), number::<T>(2)),
        below(number::<T>(0), ideal_of(math, cells)),
    ensures
        ({
            let m = middle(multiples(short_at(math, courant, cells, unit), 80));
            &&& below(number::<T>(0), m)
            &&& times(phase_velocity(math, courant, cells, unit), m) == number::<T>(1)
        }),
{
    let short = short_at(math, courant, cells, unit);
    let (a, b) = multiples(short, 80);
    let m = middle((a, b));
    lemma_scales(math, courant, cells, unit, 80);
    lemma_multiples_are_ordered(short, 80);
    parts(a, a);
    below_through(number::<T>(0), half::<T>(), a);
    below_through(number::<T>(0), a, m);
    below_through(number::<T>(0), m, m);
    quotients_by_multiples(ideal_of(math, cells), m);
}

/// Where whatever is short for one wave is short for another too, the one is no
/// slower; and where the two part company, faster.
proof fn lemma_shorter_is_faster<T: Scalar, N: Elementary<T>>(
    math: &N,
    courant: T,
    cells: T,
    unit: Seq<T>,
    other_cells: T,
    other_unit: Seq<T>,
)
    requires
        field::<T>(),
        below(half::<T>(), number::<T>(2)),
        below(number::<T>(0), ideal_of(math, cells)),
        below(number::<T>(0), ideal_of(math, other_cells)),
        forall|x: T|
            at_most(half::<T>(), x) && at_most(x, number::<T>(2)) && #[trigger] short_at(
                math,
                courant,
                cells,
                unit,
            )(x) ==> short_at(math, courant, other_cells, other_unit)(x),
    ensures
        at_most(
            phase_velocity(math, courant, other_cells, other_unit),
            phase_velocity(math, courant, cells, unit),
        ),
        multiples(short_at(math, courant, cells, unit), 80) != multiples(
            short_at(math, courant, other_cells, other_unit),
            80,
        ) ==> below(
            phase_velocity(math, courant, other_cells, other_unit),
            phase_velocity(math, courant, cells, unit),
        ),
{
    let first = short_at(math, courant, cells, unit);
    let second = short_at(math, courant, other_cells, other_unit);
    lemma_shorter_ends_lower(first, second, 80);
    lemma_multiples_are_ordered(first, 80);
    lemma_multiples_are_ordered(second, 80);
    lemma_velocity(math, courant, cells, unit);
    lemma_velocity(math, courant, other_cells, other_unit);
    let (m, n) = (middle(multiples(first, 80)), middle(multiples(second, 80)));
    partners_trade(
        phase_velocity(math, courant, cells, unit),
        m,
        phase_velocity(math, courant, other_cells, other_unit),
        n,
    );
    below_through(m, m, m);
    if multiples(first, 80) != multiples(second, 80) {
        let (b, c) = (multiples(first, 80).1, multiples(second, 80).0);
        below_through(m, b, c);
        below_through(m, c, c);
        below_through(m, c, n);
        below_through(m, n, n);
    }
}

/// The direction of an axis.
pub open spec fn axis_unit<T: Scalar>(axis: Axis) -> Seq<T> {
    Seq::new(
        3,
        |i: int|
            if i == axis.position() {
                number::<T>(1)
            } else {
                number::<T>(0)
            },
    )
}

/// The square of a sine.
pub open spec fn squared_sine<T: Scalar, N: Elementary<T>>(math: &N, angle: T) -> T {
    times(math.sin_of(angle), math.sin_of(angle))
}

/// Along an axis the spatial side is a single square.
proof fn lemma_side_of_axis<T: Scalar, N: Elementary<T>>(math: &N, axis: Axis, k: T)
    requires
        field::<T>(),
        math.sin_of(number::<T>(0)) == number::<T>(0),
    ensures
        spatial_side(math, axis_unit::<T>(axis), k) == squared_sine(math, times(half::<T>(), k)),
{
    let zero = number::<T>(0);
    let h = times(half::<T>(), k);
    let unit = axis_unit::<T>(axis);
    parts(h, h);
    multiply_by_nothing(h);
    multiply_by_nothing(zero);
    let square = squared_sine(math, h);
    add_nothing(square);
    add_nothing(zero);
    assert(unit[0] == if axis == Axis::X {
        number::<T>(1)
    } else {
        zero
    });
    assert(unit[1] == if axis == Axis::Y {
        number::<T>(1)
    } else {
        zero
    });
    assert(unit[2] == if axis == Axis::Z {
        number::<T>(1)
    } else {
        zero
    });
}

/// A part of an angle up to half a turn has more than its part of the sine: the
/// square of the sine falls no faster than the square of the angle.
pub open spec fn sine_bows_out<T: Scalar, N: Elementary<T>>(math: &N) -> bool {
    forall|angle: T, part: T|
        at_most(number::<T>(0), angle) && at_most(angle, pi_of::<T, N>(math)) && at_most(
            times(part, part),
            number::<T>(1),
        ) ==> at_most(
            times(times(part, part), squared_sine(math, angle)),
            squared_sine(math, #[trigger] times(angle, part)),
        )
}

/// Squares are no more than a sum of squares they are part of, and the sum takes a
/// factor through.
proof fn lemma_sum_of_squares<T: Scalar>(a: T, b: T, c: T, factor: T)
    requires
        field::<T>(),
    ensures
        at_most(times(a, a), sum_of_squares(a, b, c)),
        at_most(times(b, b), sum_of_squares(a, b, c)),
        at_most(times(c, c), sum_of_squares(a, b, c)),
        times(sum_of_squares(a, b, c), factor) == plus(
            plus(times(times(a, a), factor), times(times(b, b), factor)),
            times(times(c, c), factor),
        ),
{
    let zero = number::<T>(0);
    let (p, q, r) = (times(a, a), times(b, b), times(c, c));
    products_keep_order(a, a, a);
    products_keep_order(b, b, b);
    products_keep_order(c, c, c);
    add_nothing(p);
    add_nothing(q);
    add_nothing(r);
    let (two, all) = (plus(p, q), plus(plus(p, q), r));
    sums_keep_order(zero, q, p);
    sums_keep_order(zero, p, q);
    add_commutes(p, q);
    sums_keep_order(zero, r, two);
    add_commutes(two, r);
    add_nothing(two);
    sums_keep_order(zero, p, two);
    below_through(p, two, all);
    below_through(q, two, all);
    below_through(zero, p, two);
    sums_keep_order(zero, two, r);
    multiply_commutes(all, factor);
    multiply_spreads(factor, two, r);
    multiply_spreads(factor, p, q);
    multiply_commutes(factor, p);
    multiply_commutes(factor, q);
    multiply_commutes(factor, r);
}

/// Along no direction is the spatial side less than along an axis.
proof fn lemma_axis_side_is_least<T: Scalar, N: Elementary<T>>(
    math: &N,
    axis: Axis,
    unit: Seq<T>,
    k: T,
)
    requires
        field::<T>(),
        sine_bows_out::<T, N>(math),
        math.sin_of(number::<T>(0)) == number::<T>(0),
        sum_of_squares(unit[0], unit[1], unit[2]) == number::<T>(1),
        at_most(number::<T>(0), times(half::<T>(), k)),
        at_most(times(half::<T>(), k), pi_of::<T, N>(math)),
    ensures
        at_most(
            spatial_side(math, axis_unit::<T>(axis), k),
            spatial_side(math, unit, k),
        ),
{
    let h = times(half::<T>(), k);
    let square = squared_sine(math, h);
    lemma_side_of_axis(math, axis, k);
    lemma_sum_of_squares(unit[0], unit[1], unit[2], square);
    parts(square, square);
    let (a, b, c) = (
        times(times(unit[0], unit[0]), square),
        times(times(unit[1], unit[1]), square),
        times(times(unit[2], unit[2]), square),
    );
    let (p, q, r) = (
        squared_sine(math, times(h, unit[0])),
        squared_sine(math, times(h, unit[1])),
        squared_sine(math, times(h, unit[2])),
    );
    assert(at_most(a, p) && at_most(b, q) && at_most(c, r));
    assert(square == plus(plus(a, b), c));
    sums_keep_order(a, p, b);
    sums_keep_order(b, q, p);
    add_commutes(b, p);
    add_commutes(q, p);
    below_through(plus(a, b), plus(p, b), plus(p, q));
    sums_keep_order(plus(a, b), plus(p, q), c);
    sums_keep_order(c, r, plus(p, q));
    add_commutes(c, plus(p, q));
    add_commutes(r, plus(p, q));
    below_through(plus(plus(a, b), c), plus(plus(p, q), c), plus(plus(p, q), r));
    add_nothing(p);
}

/// Half of any multiple up to two of the ideal wavenumber is an angle up to half a
/// turn, with two cells or more per wavelength.
proof fn lemma_angles<T: Scalar, N: Elementary<T>>(math: &N, cells: T, x: T)
    requires
        field::<T>(),
        below(number::<T>(0), pi_of::<T, N>(math)),
        below(number::<T>(0), number::<T>(2)),
        at_most(number::<T>(2), cells),
    ensures
        below(number::<T>(0), cells),
        below(number::<T>(0), ideal_of(math, cells)),
        times(half::<T>(), ideal_of(math, cells)) == over(pi_of::<T, N>(math), cells),
        below(number::<T>(0), over(pi_of::<T, N>(math), cells)),
        times(half::<T>(), times(x, ideal_of(math, cells))) == times(
            x,
            over(pi_of::<T, N>(math), cells),
        ),
        at_most(half::<T>(), x) && at_most(x, number::<T>(2)) ==> {
            &&& below(number::<T>(0), times(x, over(pi_of::<T, N>(math), cells)))
            &&& at_most(times(x, over(pi_of::<T, N>(math), cells)), pi_of::<T, N>(math))
        },
{
    let (zero, two, h) = (number::<T>(0), number::<T>(2), half::<T>());
    let turn = pi_of::<T, N>(math);
    let ideal = ideal_of(math, cells);
    let share = over(turn, cells);
    below_through(zero, two, cells);
    parts(turn, cells);
    parts(times(two, turn), cells);
    // Both are above zero, since their products with the cells are.
    multiply_by_nothing(cells);
    multiply_by_nothing(turn);
    factors_come_off(zero, share, cells);
    products_keep_order(zero, two, turn);
    factors_come_off(zero, ideal, cells);
    // (h·ideal)·cells = h·(2·turn) = turn = share·cells.
    multiply_regroups(h, ideal, cells);
    multiply_regroups(h, two, turn);
    factors_come_off(times(h, ideal), share, cells);
    // h·(x·ideal) = x·(h·ideal).
    multiply_regroups(h, x, ideal);
    multiply_commutes(h, x);
    multiply_regroups(x, h, ideal);
    if at_most(h, x) && at_most(x, two) {
        below_through(zero, h, x);
        multiply_by_nothing(share);
        products_keep_order(zero, x, share);
        // x·share <= 2·share <= cells·share = turn.
        below_through(zero, share, share);
        products_keep_order(x, two, share);
        products_keep_order(two, cells, share);
        below_through(times(x, share), times(two, share), times(cells, share));
        multiply_commutes(cells, share);
    }
}

/// No wave is slower than one along an axis, with two cells or more per wavelength;
/// and any whose halving goes another way is faster.
pub proof fn waves_are_slowest_along_an_axis<T: Scalar, N: Elementary<T>>(
    math: &N,
    courant: T,
    cells: T,
    axis: Axis,
    unit: Seq<T>,
)
    requires
        field::<T>(),
        sine_bows_out::<T, N>(math),
        math.sin_of(number::<T>(0)) == number::<T>(0),
        below(number::<T>(0), pi_of::<T, N>(math)),
        below(half::<T>(), number::<T>(2)),
        at_most(number::<T>(2), cells),
        sum_of_squares(unit[0], unit[1], unit[2]) == number::<T>(1),
    ensures
        at_most(
            phase_velocity(math, courant, cells, axis_unit::<T>(axis)),
            phase_velocity(math, courant, cells, unit),
        ),
        multiples(short_at(math, courant, cells, unit), 80) != multiples(
            short_at(math, courant, cells, axis_unit::<T>(axis)),
            80,
        ) ==> below(
            phase_velocity(math, courant, cells, axis_unit::<T>(axis)),
            phase_velocity(math, courant, cells, unit),
        ),
{
    let (zero, two, h) = (number::<T>(0), number::<T>(2), half::<T>());
    parts(h, h);
    below_through(zero, h, two);
    below_through(h, two, two);
    let ideal = ideal_of(math, cells);
    let target = temporal_side(math, courant, cells);
    let along = axis_unit::<T>(axis);
    assert forall|x: T|
        at_most(half::<T>(), x) && at_most(x, number::<T>(2)) && #[trigger] short_at(
            math,
            courant,
            cells,
            unit,
        )(x) implies short_at(math, courant, cells, along)(x) by {
        let k = times(x, ideal);
        lemma_angles(math, cells, x);
        below_through(zero, times(half::<T>(), k), pi_of::<T, N>(math));
        lemma_axis_side_is_least(math, axis, unit, k);
        let (near, far) = (spatial_side(math, along, k), spatial_side(math, unit, k));
        differences_tell(far, target);
        differences_tell(near, target);
        below_through(near, far, target);
    }
    lemma_angles(math, cells, h);
    lemma_shorter_is_faster(math, courant, cells, unit, cells, along);
}

/// Of two angles up to half a turn, the larger has lost more of its sine by the time
/// both are stretched; and up to a quarter turn a larger angle has the larger sine.
pub open spec fn sine_flattens<T: Scalar, N: Elementary<T>>(math: &N) -> bool {
    let zero = number::<T>(0);
    let turn = pi_of::<T, N>(math);
    &&& forall|s: T, x: T, a: T, b: T|
        below(zero, s) && at_most(s, x) && below(zero, a) && at_most(a, b) && at_most(
            times(x, b),
            turn,
        ) ==> at_most(
            times(math.sin_of(#[trigger] times(x, b)), math.sin_of(#[trigger] times(s, a))),
            times(math.sin_of(times(x, a)), math.sin_of(times(s, b))),
        )
    &&& forall|a: T, b: T|
        at_most(zero, a) && at_most(a, b) && at_most(b, times(half::<T>(), turn)) ==> at_most(
            #[trigger] math.sin_of(a),
            #[trigger] math.sin_of(b),
        )
    &&& forall|a: T|
        below(zero, a) && at_most(a, times(half::<T>(), turn)) ==> below(
            zero,
            #[trigger] math.sin_of(a),
        )
    &&& forall|a: T|
        at_most(zero, a) && at_most(a, turn) ==> at_most(zero, #[trigger] math.sin_of(a))
}

/// Along an axis a multiple is short of the root where its sine, times the Courant
/// number, is below that of the Courant number.
proof fn lemma_short_along_axis<T: Scalar, N: Elementary<T>>(
    math: &N,
    courant: T,
    cells: T,
    axis: Axis,
    x: T,
)
    requires
        field::<T>(),
        sine_flattens::<T, N>(math),
        math.sin_of(number::<T>(0)) == number::<T>(0),
        below(number::<T>(0), pi_of::<T, N>(math)),
        below(half::<T>(), number::<T>(2)),
        below(number::<T>(0), courant),
        below(courant, number::<T>(1)),
        at_most(number::<T>(2), cells),
        at_most(half::<T>(), x),
        at_most(x, number::<T>(2)),
    ensures
        ({
            let share = over(pi_of::<T, N>(math), cells);
            let (big, small) = (
                math.sin_of(times(x, share)),
                math.sin_of(times(courant, share)),
            );
            &&& below(number::<T>(0), small)
            &&& at_most(number::<T>(0), big)
            &&& at_most(times(courant, share), times(half::<T>(), pi_of::<T, N>(math)))
            &&& short_at(math, courant, cells, axis_unit::<T>(axis))(x) <==> below(
                times(big, courant),
                small,
            )
        }),
{
    let (zero, one, two, h) = (
        number::<T>(0),
        number::<T>(1),
        number::<T>(2),
        half::<T>(),
    );
    let turn = pi_of::<T, N>(math);
    let share = over(turn, cells);
    let ideal = ideal_of(math, cells);
    let k = times(x, ideal);
    parts(h, h);
    below_through(zero, h, two);
    below_through(h, two, two);
    lemma_angles(math, cells, x);
    lemma_side_of_axis(math, axis, k);
    let (big, small) = (math.sin_of(times(x, share)), math.sin_of(times(courant, share)));
    below_through(zero, times(x, share), turn);
    // The smaller angle is below a quarter turn: courant·share <= share, and
    // 2·share <= cells·share = turn.
    multiply_by_nothing(share);
    products_keep_order(zero, courant, share);
    below_through(courant, one, one);
    below_through(zero, share, share);
    products_keep_order(courant, one, share);
    parts(share, share);
    products_keep_order(two, cells, share);
    parts(turn, cells);
    multiply_commutes(cells, share);
    below_through(zero, h, h);
    products_keep_order(times(two, share), turn, h);
    multiply_commutes(times(two, share), h);
    multiply_regroups(h, two, share);
    multiply_commutes(turn, h);
    below_through(times(courant, share), share, times(h, turn));
    // The temporal side is the square of small over courant.
    multiply_regroups(courant, share, cells);
    multiply_commutes(turn, courant);
    parts(times(turn, courant), cells);
    factors_come_off(over(times(turn, courant), cells), times(courant, share), cells);
    let level = over(small, courant);
    parts(small, courant);
    multiply_by_nothing(courant);
    factors_come_off(zero, level, courant);
    below_through(zero, level, level);
    assert(temporal_side(math, courant, cells) == times(level, level));
    differences_tell(times(big, big), times(level, level));
    squares_keep_order(big, level);
    products_keep_order(big, level, courant);
    factors_come_off(big, level, courant);
}

/// Waves along an axis get no slower with more cells per wavelength, from two on:
/// refining brings them nearer to the speed of light from below; and where the
/// halving goes another way, faster.
pub proof fn refining_speeds_waves_up<T: Scalar, N: Elementary<T>>(
    math: &N,
    courant: T,
    coarse: T,
    fine: T,
    axis: Axis,
)
    requires
        field::<T>(),
        sine_flattens::<T, N>(math),
        math.sin_of(number::<T>(0)) == number::<T>(0),
        below(number::<T>(0), pi_of::<T, N>(math)),
        below(half::<T>(), number::<T>(2)),
        below(number::<T>(0), courant),
        below(courant, number::<T>(1)),
        at_most(number::<T>(2), coarse),
        at_most(coarse, fine),
    ensures
        at_most(
            phase_velocity(math, courant, coarse, axis_unit::<T>(axis)),
            phase_velocity(math, courant, fine, axis_unit::<T>(axis)),
        ),
        multiples(short_at(math, courant, fine, axis_unit::<T>(axis)), 80) != multiples(
            short_at(math, courant, coarse, axis_unit::<T>(axis)),
            80,
        ) ==> below(
            phase_velocity(math, courant, coarse, axis_unit::<T>(axis)),
            phase_velocity(math, courant, fine, axis_unit::<T>(axis)),
        ),
{
    let (zero, two, h) = (number::<T>(0), number::<T>(2), half::<T>());
    let turn = pi_of::<T, N>(math);
    let unit = axis_unit::<T>(axis);
    parts(h, h);
    below_through(zero, h, two);
    below_through(h, two, two);
    below_through(two, coarse, fine);
    lemma_angles(math, coarse, h);
    lemma_angles(math, fine, h);
    let (a, b) = (over(turn, fine), over(turn, coarse));
    // More cells, smaller shares: a·fine = turn = b·coarse.
    parts(turn, fine);
    parts(turn, coarse);
    assert(at_most(a, b)) by {
        below_through(zero, a, a);
        products_keep_order(coarse, fine, a);
        multiply_commutes(coarse, a);
        multiply_commutes(fine, a);
        factors_come_off(a, b, coarse);
    }
    assert forall|x: T|
        at_most(half::<T>(), x) && at_most(x, number::<T>(2)) && #[trigger] short_at(
            math,
            courant,
            fine,
            unit,
        )(x) implies short_at(math, courant, coarse, unit)(x) by {
        lemma_short_along_axis(math, courant, fine, axis, x);
        lemma_short_along_axis(math, courant, coarse, axis, x);
        lemma_angles(math, coarse, x);
        lemma_stays_short(math, courant, x, a, b);
    }
    lemma_shorter_is_faster(math, courant, fine, unit, coarse, unit);
}

/// What is short at a smaller share is short at a larger one.
proof fn lemma_stays_short<T: Scalar, N: Elementary<T>>(math: &N, s: T, x: T, a: T, b: T)
    requires
        field::<T>(),
        sine_flattens::<T, N>(math),
        below(number::<T>(0), s),
        below(s, number::<T>(1)),
        at_most(half::<T>(), x),
        below(number::<T>(0), a),
        at_most(a, b),
        at_most(times(x, b), pi_of::<T, N>(math)),
        at_most(times(s, b), times(half::<T>(), pi_of::<T, N>(math))),
        below(number::<T>(0), math.sin_of(times(s, a))),
        below(number::<T>(0), math.sin_of(times(s, b))),
        at_most(number::<T>(0), math.sin_of(times(x, b))),
        below(times(math.sin_of(times(x, a)), s), math.sin_of(times(s, a))),
    ensures
        below(times(math.sin_of(times(x, b)), s), math.sin_of(times(s, b))),
{
    let (zero, one, h) = (number::<T>(0), number::<T>(1), half::<T>());
    let (xa, xb) = (math.sin_of(times(x, a)), math.sin_of(times(x, b)));
    let (sa, sb) = (math.sin_of(times(s, a)), math.sin_of(times(s, b)));
    below_through(zero, s, s);
    if at_most(s, x) {
        assert(at_most(times(xb, sa), times(xa, sb)));
        // (xb·sa)·s <= (xa·sb)·s = (xa·s)·sb < sa·sb.
        products_keep_order(times(xb, sa), times(xa, sb), s);
        products_keep_order(times(xa, s), sa, sb);
        lemma_swap(xb, sa, s);
        lemma_swap(xa, sb, s);
        multiply_commutes(sa, sb);
        below_through(times(times(xb, s), sa), times(times(xa, s), sb), times(sb, sa));
        factors_come_off(times(xb, s), sb, sa);
    } else {
        // A smaller multiple than the Courant number has the smaller sine.
        one_way_or_the_other(s, x);
        one_way_or_the_other(x, s);
        parts(h, h);
        below_through(zero, h, x);
        below_through(zero, x, x);
        below_through(zero, a, b);
        below_through(zero, b, b);
        multiply_by_nothing(b);
        products_keep_order(zero, x, b);
        below_through(zero, times(x, b), times(x, b));
        lemma_not_at_most(s, x);
        products_keep_order(x, s, b);
        assert(at_most(xb, sb));
        // xb·s <= sb·s < sb.
        products_keep_order(xb, sb, s);
        products_keep_order(s, one, sb);
        parts(sb, sb);
        multiply_commutes(s, sb);
        below_through(times(xb, s), times(sb, s), sb);
    }
}

proof fn lemma_not_at_most<T: Scalar>(a: T, b: T)
    requires
        field::<T>(),
        !at_most(a, b),
    ensures
        at_most(b, a),
{
    one_way_or_the_other(b, a);
    below_through(b, a, a);
}

proof fn lemma_swap<T: Scalar>(a: T, b: T, c: T)
    requires
        ring::<T>(),
    ensures
        times(times(a, b), c) == times(times(a, c), b),
{
    multiply_regroups(a, b, c);
    multiply_commutes(b, c);
    multiply_regroups(a, c, b);
}

/// A direction over its length is a unit vector, where the root of a number times
/// itself is the number; and along the first axis it is that axis.
pub proof fn directions_are_units<T: Scalar, N: Elementary<T>>(math: &N, a: T, b: T, c: T)
    requires
        field::<T>(),
        ({
            let norm = math.sqrt_of(sum_of_squares(a, b, c));
            below(number::<T>(0), norm) && times(norm, norm) == sum_of_squares(a, b, c)
        }),
    ensures
        ({
            let unit = unit_of(math, a, b, c);
            sum_of_squares(unit[0], unit[1], unit[2]) == number::<T>(1)
        }),
        a == number::<T>(1) && b == number::<T>(0) && c == number::<T>(0) ==> unit_of(math, a, b, c)
            == axis_unit::<T>(Axis::X),
{
    let (zero, one) = (number::<T>(0), number::<T>(1));
    let norm = math.sqrt_of(sum_of_squares(a, b, c));
    let unit = unit_of(math, a, b, c);
    let (u, v, w) = (unit[0], unit[1], unit[2]);
    let square = times(norm, norm);
    parts(a, norm);
    parts(b, norm);
    parts(c, norm);
    lemma_square_of_product(u, norm);
    lemma_square_of_product(v, norm);
    lemma_square_of_product(w, norm);
    lemma_sum_of_squares(u, v, w, square);
    add_nothing(times(a, a));
    multiply_by_nothing(norm);
    products_keep_order(zero, norm, norm);
    parts(square, square);
    factors_come_off(sum_of_squares(u, v, w), one, square);
    if a == one && b == zero && c == zero {
        parts(one, one);
        multiply_by_nothing(zero);
        add_nothing(one);
        add_nothing(zero);
        // norm·norm = 1·1, so the norm is one.
        below_through(zero, norm, norm);
        below_through(zero, one, one);
        squares_keep_order(norm, one);
        squares_keep_order(one, norm);
        below_through(one, one, one);
        one_way_or_the_other(norm, one);
        one_way_or_the_other(one, norm);
        parts(u, u);
        parts(v, v);
        parts(w, w);
        assert(unit =~= axis_unit::<T>(Axis::X));
    }
}

/// Waves along an axis lag behind light: however often the bracket is halved, it
/// ends above the wavenumber light would have. The sine of a part of an angle is more
/// than that part of its sine, which is asked of the sine here.
pub proof fn waves_along_an_axis_lag<T: Scalar, N: Elementary<T>>(
    math: &N,
    courant: T,
    cells: T,
    axis: Axis,
    n: nat,
)
    requires
        field::<T>(),
        sine_flattens::<T, N>(math),
        math.sin_of(number::<T>(0)) == number::<T>(0),
        below(number::<T>(0), pi_of::<T, N>(math)),
        below(half::<T>(), number::<T>(2)),
        below(number::<T>(1), number::<T>(2)),
        below(number::<T>(0), courant),
        below(courant, number::<T>(1)),
        at_most(number::<T>(2), cells),
        forall|angle: T, part: T|
            below(number::<T>(0), angle) && at_most(
                angle,
                times(half::<T>(), pi_of::<T, N>(math)),
            ) && below(number::<T>(0), part) && below(part, number::<T>(1)) ==> below(
                times(math.sin_of(angle), part),
                math.sin_of(#[trigger] times(part, angle)),
            ),
    ensures
        below(
            number::<T>(1),
            multiples(short_at(math, courant, cells, axis_unit::<T>(axis)), n).1,
        ),
    decreases n,
{
    if n > 0 {
        let (zero, one, two, h) = (
            number::<T>(0),
            number::<T>(1),
            number::<T>(2),
            half::<T>(),
        );
        let turn = pi_of::<T, N>(math);
        let share = over(turn, cells);
        let short = short_at(math, courant, cells, axis_unit::<T>(axis));
        waves_along_an_axis_lag(math, courant, cells, axis, (n - 1) as nat);
        lemma_multiples_are_ordered(short, (n - 1) as nat);
        let (a, b) = multiples(short, (n - 1) as nat);
        let mid = middle((a, b));
        parts(h, h);
        below_through(zero, h, two);
        below_through(h, two, two);
        below_through(h, a, mid);
        below_through(h, mid, mid);
        below_through(mid, b, two);
        below_through(mid, two, two);
        if !below(one, mid) {
            one_way_or_the_other(one, mid);
            lemma_short_along_axis(math, courant, cells, axis, mid);
            lemma_quarter_turn(math, cells);
            lemma_angles(math, cells, mid);
            // sin(mid·share)·courant <= sin(share)·courant < sin(courant·share).
            below_through(zero, share, share);
            products_keep_order(mid, one, share);
            parts(share, share);
            below_through(zero, times(mid, share), share);
            below_through(zero, times(mid, share), times(mid, share));
            let (big, full) = (math.sin_of(times(mid, share)), math.sin_of(share));
            assert(at_most(big, full));
            below_through(zero, courant, courant);
            products_keep_order(big, full, courant);
            assert(below(times(full, courant), math.sin_of(times(courant, share))));
            below_through(
                times(big, courant),
                times(full, courant),
                math.sin_of(times(courant, share)),
            );
            assert(short(mid));
        }
    }
}

/// Half a turn over two cells or more is at most a quarter turn.
proof fn lemma_quarter_turn<T: Scalar, N: Elementary<T>>(math: &N, cells: T)
    requires
        field::<T>(),
        below(number::<T>(0), pi_of::<T, N>(math)),
        below(half::<T>(), number::<T>(2)),
        at_most(number::<T>(2), cells),
    ensures
        below(number::<T>(0), over(pi_of::<T, N>(math), cells)),
        at_most(
            over(pi_of::<T, N>(math), cells),
            times(half::<T>(), pi_of::<T, N>(math)),
        ),
{
    let (zero, two, h) = (number::<T>(0), number::<T>(2), half::<T>());
    let turn = pi_of::<T, N>(math);
    let share = over(turn, cells);
    parts(h, h);
    below_through(zero, h, two);
    lemma_angles(math, cells, h);
    below_through(zero, share, share);
    products_keep_order(two, cells, share);
    parts(turn, cells);
    multiply_commutes(cells, share);
    below_through(zero, h, h);
    products_keep_order(times(two, share), turn, h);
    multiply_commutes(times(two, share), h);
    multiply_regroups(h, two, share);
    parts(share, share);
    multiply_commutes(turn, h);
}

} // verus!
