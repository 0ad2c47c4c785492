//! Where cells are, and what survives a change of resolution.
//!
//! Positions in metres and cell coordinates are two ways of saying the same
//! thing, and a domain keeps its size however it is cut up. Both hold exactly
//! only where nothing is rounded, so what that takes is part of each statement.

use crate::algebra::{
    add_commutes, add_nothing, add_regroups, multiply_by_nothing, multiply_commutes,
    multiply_regroups, multiply_spreads, multiply_spreads_over_difference, negative_is, negatives,
    ring, take_away,
};
use crate::grading::{divides_back, graded_corners_end_at_the_wall, ordered};
use crate::grid::{cells_for, Grid};
use crate::lattice::Axis;
use crate::numerics::{Elementary, Numerics};
use crate::order::{
    below_through, factors_come_off, field, one_way_or_the_other, parts, products_keep_order,
    sums_keep_order,
};
use crate::scalar::{
    at_most, below, half, magnitude_of, minus, negative, number, over, plus, times, Scalar,
};
use crate::shapes::magnitudes;
use crate::spacing::{
    admissible, corners_reached, dual_width, lemma_corners_reached, Spacing,
};
use vstd::prelude::*;

verus! {

/// The whole number `n`.
#[verifier::inline]
pub open spec fn whole<T: Scalar, N: Elementary<T>>(math: &N, n: u64) -> T {
    math.count_of(n)
}

/// Both precisions hold the same numbers, whole numbers and the half among them.
#[verifier::opaque]
pub open spec fn converts_exactly<V: Scalar, W: Scalar, N: Numerics<V, W>>(math: &N) -> bool {
    &&& forall|x: W| #[trigger] math.wide(math.narrowed(x)) == x
    &&& forall|x: V| #[trigger] math.narrowed(math.wide(x)) == x
    &&& forall|a: V, b: V| #[trigger] math.wide(plus(a, b)) == plus(math.wide(a), math.wide(b))
    &&& forall|a: V, b: V| #[trigger] math.wide(times(a, b)) == times(math.wide(a), math.wide(b))
    &&& math.wide(number::<V>(0)) == number::<W>(0)
    &&& math.wide(half::<V>()) == half::<W>()
    &&& forall|x: V|
        below(number::<V>(0), x) ==> below(number::<W>(0), #[trigger] math.wide(x))
    &&& forall|n: u64|
        math.wide(#[trigger] whole::<V, N>(math, n))
            == whole::<W, N>(math, n)
}

/// Where each corner is one width past the one before it.
pub open spec fn end_to_end<V: Scalar, W: Scalar, N: Numerics<V, W>>(
    math: &N,
    spacing: Spacing<V, W>,
) -> bool {
    forall|i: int|
        0 <= i < spacing.primary@.len() ==> spacing.corners@[i + 1] == plus(
            spacing.corners@[i],
            math.wide(#[trigger] spacing.primary@[i]),
        )
}

/// Half of a width above zero is less than all of it, and more than nothing.
#[verifier::opaque]
pub open spec fn halves<W: Scalar>() -> bool {
    forall|corner: W, width: W|
        below(number::<W>(0), width) ==> {
            &&& at_most(corner, #[trigger] plus(corner, times(half::<W>(), width)))
            &&& !at_most(plus(corner, width), plus(corner, times(half::<W>(), width)))
            &&& at_most(corner, plus(corner, width))
        }
}

/// What is added and taken away again changes nothing.
proof fn lemma_back_again<W: Scalar>(a: W, b: W)
    requires
        ring::<W>(),
    ensures
        minus(plus(a, b), a) == b,
        minus(plus(a, b), b) == a,
        plus(minus(a, b), b) == a,
{
    take_away(plus(a, b), b);
    take_away(b, b);
    add_regroups(a, b, negative(b));
    add_nothing(a);
    add_commutes(a, b);
    take_away(plus(b, a), a);
    take_away(a, a);
    add_regroups(b, a, negative(a));
    add_nothing(b);
    take_away(a, b);
    add_regroups(a, negative(b), b);
    add_commutes(negative(b), b);
}

/// Counting on by one adds one, and one time a number is the number.
pub open spec fn counts_up<W: Scalar, N: Elementary<W>>(math: &N) -> bool {
    &&& forall|n: u64|
        n < u64::MAX ==> whole::<W, N>(math, (n + 1) as u64) == plus(
            #[trigger] whole::<W, N>(math, n),
            number::<W>(1),
        )
    &&& forall|x: W| #[trigger] times(number::<W>(1), x) == x
}

/// Every width of a grid is above zero.
proof fn lemma_widths_are_positive<V: Scalar, W: Scalar, N: Numerics<V, W>>(
    math: &N,
    grid: Grid<V, W>,
    axis: Axis,
)
    requires
        converts_exactly::<V, W, N>(math),
        grid.follows(math, grid.recipe),
        below(number::<V>(0), grid.recipe.cell_size),
    ensures
        forall|k: int|
            0 <= k < grid.along(axis).primary@.len() ==> below(
                number::<W>(0),
                math.wide(#[trigger] grid.along(axis).primary@[k]),
            ),
{
    reveal(converts_exactly);
    let widths = grid.along(axis).primary@;
    assert(Some(grid.along(axis).primary@) == grid.recipe.widths(math, axis));
    assert forall|k: int| 0 <= k < widths.len() implies below(
        number::<W>(0),
        math.wide(#[trigger] widths[k]),
    ) by {
        if grid.recipe.refinements@.len() > 0 {
            assert(admissible(math, widths[k]));
        }
        assert(below(number::<V>(0), widths[k]));
    }
}

/// The corners of a grid follow from its widths, however it was made.
pub proof fn cells_lie_end_to_end<V: Scalar, W: Scalar, N: Numerics<V, W>>(
    math: &N,
    grid: Grid<V, W>,
    axis: Axis,
)
    requires
        ring::<W>(),
        grid.follows(math, grid.recipe),
        counts_up::<W, N>(math),
    ensures
        end_to_end(math, grid.along(axis)),
{
    let spacing = grid.along(axis);
    let spec = grid.recipe;
    assert(spacing.valid());
    assert(Some(spacing.primary@) == spec.widths(math, axis));
    assert forall|i: int| 0 <= i < spacing.primary@.len() implies spacing.corners@[i + 1] == plus(
        spacing.corners@[i],
        math.wide(#[trigger] spacing.primary@[i]),
    ) by {
        assert(spacing.corners@[i] == spec.corner::<W, N>(math, axis, i));
        assert(spacing.corners@[i + 1] == spec.corner::<W, N>(math, axis, i + 1));
        if spec.refinements@.len() == 0 {
            let width: W = math.wide(spec.cell_size);
            let count: W = math.count_of(i as u64);
            assert(spacing.primary@[i] == spec.cell_size);
            assert(whole::<W, N>(math, (i as u64 + 1) as u64) == plus(count, number::<W>(1)));
            multiply_commutes(plus(count, number::<W>(1)), width);
            multiply_spreads(width, count, number::<W>(1));
            multiply_commutes(width, count);
            multiply_commutes(width, number::<W>(1));
        }
    }
}

/// Every corner up to `i` is at or before the middle of cell `i`.
proof fn lemma_corners_before<V: Scalar, W: Scalar, N: Numerics<V, W>>(
    math: &N,
    spacing: Spacing<V, W>,
    i: int,
    j: int,
)
    requires
        ordered::<W>(),
        halves::<W>(),
        spacing.valid(),
        end_to_end(math, spacing),
        forall|k: int|
            0 <= k < spacing.primary@.len() ==> below(
                number::<W>(0),
                math.wide(#[trigger] spacing.primary@[k]),
            ),
        0 <= j <= i <= spacing.primary@.len(),
    ensures
        at_most(spacing.corners@[j], spacing.corners@[i]),
    decreases i - j,
{
    reveal(ordered);
    if j < i {
        reveal(halves);
        lemma_corners_before(math, spacing, i - 1, j);
        let width: W = math.wide(spacing.primary@[i - 1]);
        let corner = spacing.corners@[i - 1];
        assert(at_most(corner, plus(corner, times(half::<W>(), width))));
        assert(spacing.corners@[i] == plus(corner, width));
    } else {
        assert(at_most(spacing.corners@[i], spacing.corners@[i]));
    }
}

/// Halfway through cell `i` is in cell `i`.
proof fn lemma_middle_is_inside<V: Scalar, W: Scalar, N: Numerics<V, W>>(
    math: &N,
    spacing: Spacing<V, W>,
    i: int,
)
    requires
        ordered::<W>(),
        halves::<W>(),
        spacing.valid(),
        end_to_end(math, spacing),
        forall|k: int|
            0 <= k < spacing.primary@.len() ==> below(
                number::<W>(0),
                math.wide(#[trigger] spacing.primary@[k]),
            ),
        0 <= i < spacing.primary@.len(),
    ensures
        spacing.cell_of_offset(
            plus(spacing.corners@[i], times(half::<W>(), math.wide(spacing.primary@[i]))),
        ) == i,
{
    reveal(halves);
    let width: W = math.wide(spacing.primary@[i]);
    let corner = spacing.corners@[i];
    let middle = plus(corner, times(half::<W>(), width));
    assert(spacing.corners@[i + 1] == plus(corner, width));
    assert(at_most(corner, middle) && !at_most(plus(corner, width), middle));
    assert forall|j: int| 0 <= j < i + 1 implies at_most(
        #[trigger] spacing.corners@[j],
        middle,
    ) by {
        lemma_corners_before(math, spacing, i, j);
        reveal(ordered);
    }
    lemma_corners_reached(spacing.corners@, middle, i + 1);
}

/// The cell at the centre of a cell is that cell, on an even axis and on a graded
/// one alike.
pub proof fn centers_lie_in_their_cells<V: Scalar, W: Scalar, N: Numerics<V, W>>(
    math: &N,
    grid: Grid<V, W>,
    axis: Axis,
    i: int,
)
    requires
        ring::<V>(),
        ring::<W>(),
        ordered::<W>(),
        halves::<W>(),
        converts_exactly::<V, W, N>(math),
        counts_up::<W, N>(math),
        // The largest index not above a half past a whole number is that number.
        forall|n: usize|
            math.floor_of(plus(#[trigger] whole::<V, N>(math, n as u64), half::<V>())) == n,
        forall|a: W, b: W|
            below(number::<W>(0), b) ==> over(#[trigger] times(a, b), b) == a,
        grid.follows(math, grid.recipe),
        below(number::<V>(0), grid.recipe.cell_size),
        0 <= i < grid.extent.along(axis),
    ensures
        grid.cell_along(math, axis, grid.center_along(math, axis, i)) == i,
{
    let spacing = grid.along(axis);
    assert(grid.along(axis).valid());
    assert(spacing.primary@.len() == grid.extent.along(axis));
    cells_lie_end_to_end(math, grid, axis);
    lemma_widths_are_positive(math, grid, axis);
    let count: V = math.count_of(i as u64);
    let place = plus(count, half::<V>());
    assert(i as usize as u64 == i as u64 && i as usize == i);
    assert(math.floor_of(place) == i as usize);
    let width: W = math.wide(spacing.primary@[i]);
    let corner = spacing.corners@[i];
    let middle = plus(corner, times(half::<W>(), width));
    lemma_back_again(count, half::<V>());
    lemma_half_converts::<V, W, N>(math, i as u64);
    assert(spacing.offset_at(math, place) == middle);
    let centre = times(half::<W>(), spacing.span_of());
    lemma_narrow_and_back::<V, W, N>(math, minus(middle, centre));
    lemma_back_again(middle, centre);
    let position = grid.center_along(math, axis, i);
    assert(spacing.offset_of_position(math, position) == middle);
    lemma_middle_is_inside(math, spacing, i);
    lemma_back_again(corner, times(half::<W>(), width));
    assert(over(times(half::<W>(), width), width) == half::<W>());
    assert(spacing.coordinate_at(math, position) == place);
}

proof fn lemma_narrow_and_back<V: Scalar, W: Scalar, N: Numerics<V, W>>(math: &N, x: W)
    requires
        converts_exactly::<V, W, N>(math),
    ensures
        math.wide(math.narrowed(x)) == x,
{
    reveal(converts_exactly);
}

proof fn lemma_half_converts<V: Scalar, W: Scalar, N: Numerics<V, W>>(math: &N, n: u64)
    requires
        converts_exactly::<V, W, N>(math),
    ensures
        math.wide(half::<V>()) == half::<W>(),
        math.narrowed(
            plus(whole::<W, N>(math, n), half::<W>()),
        ) == plus(whole::<V, N>(math, n), half::<V>()),
{
    reveal(converts_exactly);
    let count = whole::<V, N>(math, n);
    assert(math.wide(plus(count, half::<V>())) == plus(math.wide(count), half::<W>()));
    assert(math.narrowed(math.wide(plus(count, half::<V>()))) == plus(count, half::<V>()));
}

/// A grid is as long along each axis as its recipe says, refined or not.
pub proof fn refinements_move_no_wall<V: Scalar, W: Scalar, N: Numerics<V, W>>(
    math: &N,
    grid: Grid<V, W>,
    axis: Axis,
)
    requires
        ring::<V>(),
        converts_exactly::<V, W, N>(math),
        grid.follows(math, grid.recipe),
        grid.recipe.refinements@.len() > 0 ==> divides_back(
            math,
            axis,
            grid.recipe.length(math, axis),
            grid.recipe.cell_size,
            grid.recipe.refinements@,
            grid.recipe.max_ratio,
        ),
    ensures
        grid.size_along(math, axis) == grid.recipe.length(math, axis),
{
    reveal(converts_exactly);
    let spec = grid.recipe;
    let spacing = grid.along(axis);
    let length = spec.length(math, axis);
    let n = grid.extent.along(axis);
    assert(grid.along(axis).valid());
    assert(spacing.primary@.len() == n);
    assert(Some(spacing.primary@) == spec.widths(math, axis));
    assert(spacing.corners@[n] == spec.corner::<W, N>(math, axis, n));
    if spec.refinements@.len() == 0 {
        let count: V = math.count_of(n as u64);
        assert(spec.extent.along(axis) == n);
        assert(math.wide(times(count, spec.cell_size)) == times(
            math.wide(count),
            math.wide(spec.cell_size),
        ));
    } else {
        graded_corners_end_at_the_wall::<V, W, N>(
            math,
            axis,
            length,
            spec.cell_size,
            spec.refinements@,
            spec.max_ratio,
        );
    }
    assert(spacing.span_of() == math.wide(length));
    assert(math.narrowed(math.wide(length)) == length);
}

/// Sizes scale with what they are multiplied by.
#[verifier::opaque]
pub open spec fn scales_sizes<V: Scalar>() -> bool {
    &&& forall|a: V, b: V|
        below(number::<V>(0), b) ==> magnitude_of(#[trigger] times(a, b)) == times(
            magnitude_of(a),
            b,
        )
    &&& forall|a: V, b: V, c: V|
        below(number::<V>(0), c) && at_most(a, b) ==> at_most(
            #[trigger] times(a, c),
            #[trigger] times(b, c),
        )
}

/// A domain cut up anew keeps its size to within half of a new cell, along every
/// axis that is not cut into fewer than two.
pub proof fn resolution_keeps_the_size<V: Scalar, W: Scalar, N: Numerics<V, W>>(
    math: &N,
    metres: V,
    resolution: V,
    grid: Grid<V, W>,
    axis: Axis,
)
    requires
        ring::<V>(),
        converts_exactly::<V, W, N>(math),
        scales_sizes::<V>(),
        // The whole number nearest to a number is at most a half away from it.
        forall|x: V|
            2 <= math.nearest_to(x) <= u32::MAX ==> at_most(
                magnitude_of(
                    minus(
                        whole::<V, N>(
                            math,
                            #[trigger] math.nearest_to(x),
                        ),
                        x,
                    ),
                ),
                half::<V>(),
            ),
        forall|x: V| #[trigger] times(x, number::<V>(1)) == x,
        times(resolution, over(number::<V>(1), resolution)) == number::<V>(1),
        below(number::<V>(0), over(number::<V>(1), resolution)),
        2 <= math.nearest_to(times(metres, resolution)) <= u32::MAX,
        grid.follows(math, grid.recipe),
        grid.recipe.cell_size == over(number::<V>(1), resolution),
        grid.recipe.extent.along(axis) == cells_for(math, metres, resolution),
        grid.recipe.refinements@.len() > 0 ==> divides_back(
            math,
            axis,
            grid.recipe.length(math, axis),
            grid.recipe.cell_size,
            grid.recipe.refinements@,
            grid.recipe.max_ratio,
        ),
    ensures
        at_most(
            magnitude_of(minus(grid.size_along(math, axis), metres)),
            times(half::<V>(), grid.recipe.cell_size),
        ),
{
    refinements_move_no_wall(math, grid, axis);
    let cell = grid.recipe.cell_size;
    let wanted = times(metres, resolution);
    let nearest: V = math.count_of(math.nearest_to(wanted));
    assert(grid.recipe.length(math, axis) == times(nearest, cell));
    // nearest·cell - metres = (nearest - metres·resolution)·cell.
    multiply_regroups(metres, resolution, cell);
    assert(times(wanted, cell) == metres);
    multiply_commutes(minus(nearest, wanted), cell);
    multiply_spreads_over_difference(cell, nearest, wanted);
    multiply_commutes(cell, nearest);
    multiply_commutes(cell, wanted);
    let off = minus(nearest, wanted);
    assert(minus(times(nearest, cell), metres) == times(off, cell));
    assert(at_most(magnitude_of(off), half::<V>()));
    reveal(scales_sizes);
    assert(at_most(times(magnitude_of(off), cell), times(half::<V>(), cell)));
    assert(magnitude_of(times(off, cell)) == times(magnitude_of(off), cell));
}

/// How far into the axis a cell coordinate is, where nothing is rounded: at the
/// corner of its cell, and on by its part of the cell.
proof fn lemma_offset_within<V: Scalar, W: Scalar, N: Numerics<V, W>>(
    math: &N,
    spacing: Spacing<V, W>,
    i: int,
    part: V,
)
    requires
        ring::<V>(),
        spacing.valid(),
        0 <= i < spacing.primary@.len(),
        i <= usize::MAX,
        math.floor_of(plus(whole::<V, N>(math, i as u64), part)) == i,
    ensures
        spacing.offset_at(math, plus(whole::<V, N>(math, i as u64), part)) == plus(
            spacing.corners@[i],
            times(math.wide(part), math.wide(spacing.primary@[i])),
        ),
{
    lemma_back_again(whole::<V, N>(math, i as u64), part);
}

/// A position in a cell and the coordinate of it are two names for one place: the
/// coordinate of a coordinate's position is the coordinate, on even and on graded
/// axes.
pub proof fn coordinates_come_back<V: Scalar, W: Scalar, N: Numerics<V, W>>(
    math: &N,
    grid: Grid<V, W>,
    axis: Axis,
    i: int,
    part: V,
)
    requires
        ring::<V>(),
        field::<W>(),
        converts_exactly::<V, W, N>(math),
        counts_up::<W, N>(math),
        math.floor_of(plus(whole::<V, N>(math, i as u64), part)) == i,
        at_most(number::<W>(0), math.wide(part)),
        below(math.wide(part), number::<W>(1)),
        grid.follows(math, grid.recipe),
        below(number::<V>(0), grid.recipe.cell_size),
        0 <= i < grid.extent.along(axis),
    ensures
        ({
            let place = plus(whole::<V, N>(math, i as u64), part);
            grid.along(axis).coordinate_at(
                math,
                grid.along(axis).position_at(math, place),
            ) == place
        }),
{
    let spacing = grid.along(axis);
    assert(grid.along(axis).valid());
    assert(spacing.primary@.len() == grid.extent.along(axis));
    cells_lie_end_to_end(math, grid, axis);
    lemma_widths_are_positive(math, grid, axis);
    let count: V = whole::<V, N>(math, i as u64);
    let place = plus(count, part);
    let inside: W = math.wide(part);
    let width: W = math.wide(spacing.primary@[i]);
    let corner = spacing.corners@[i];
    let offset = plus(corner, times(inside, width));
    lemma_offset_within(math, spacing, i, part);
    let centre = times(half::<W>(), spacing.span_of());
    lemma_narrow_and_back::<V, W, N>(math, minus(offset, centre));
    lemma_back_again(offset, centre);
    let position = spacing.position_at(math, place);
    assert(spacing.offset_of_position(math, position) == offset);
    lemma_part_is_inside(math, spacing, i, inside);
    lemma_back_again(corner, times(inside, width));
    lemma_part_of_width(inside, width);
    assert(spacing.coordinate_at(math, position) == place) by {
        reveal(converts_exactly);
        assert(math.wide(plus(count, part)) == plus(math.wide(count), math.wide(part)));
        assert(math.narrowed(math.wide(place)) == place);
    }
}

proof fn lemma_part_of_width<W: Scalar>(part: W, width: W)
    requires
        field::<W>(),
        below(number::<W>(0), width),
    ensures
        over(times(part, width), width) == part,
{
    parts(times(part, width), width);
    factors_come_off(over(times(part, width), width), part, width);
}

/// Part of the way through cell `i` is in cell `i`.
proof fn lemma_part_is_inside<V: Scalar, W: Scalar, N: Numerics<V, W>>(
    math: &N,
    spacing: Spacing<V, W>,
    i: int,
    part: W,
)
    requires
        field::<W>(),
        spacing.valid(),
        end_to_end(math, spacing),
        forall|k: int|
            0 <= k < spacing.primary@.len() ==> below(
                number::<W>(0),
                math.wide(#[trigger] spacing.primary@[k]),
            ),
        0 <= i < spacing.primary@.len(),
        at_most(number::<W>(0), part),
        below(part, number::<W>(1)),
    ensures
        spacing.cell_of_offset(
            plus(spacing.corners@[i], times(part, math.wide(spacing.primary@[i]))),
        ) == i,
{
    let zero = number::<W>(0);
    let width: W = math.wide(spacing.primary@[i]);
    let corner = spacing.corners@[i];
    let within = times(part, width);
    let place = plus(corner, within);
    below_through(zero, width, width);
    multiply_by_nothing(width);
    products_keep_order(zero, part, width);
    products_keep_order(part, number::<W>(1), width);
    parts(width, width);
    sums_keep_order(zero, within, corner);
    sums_keep_order(within, width, corner);
    add_nothing(corner);
    add_commutes(within, corner);
    add_commutes(width, corner);
    one_way_or_the_other(spacing.corners@[i + 1], place);
    assert(spacing.corners@[i + 1] == plus(corner, width));
    assert forall|j: int| 0 <= j < i + 1 implies at_most(
        #[trigger] spacing.corners@[j],
        place,
    ) by {
        lemma_corners_rise(math, spacing, i, j);
        below_through(spacing.corners@[j], corner, place);
    }
    lemma_corners_reached(spacing.corners@, place, i + 1);
}

proof fn lemma_corners_rise<V: Scalar, W: Scalar, N: Numerics<V, W>>(
    math: &N,
    spacing: Spacing<V, W>,
    i: int,
    j: int,
)
    requires
        field::<W>(),
        spacing.valid(),
        end_to_end(math, spacing),
        forall|k: int|
            0 <= k < spacing.primary@.len() ==> below(
                number::<W>(0),
                math.wide(#[trigger] spacing.primary@[k]),
            ),
        0 <= j <= i <= spacing.primary@.len(),
    ensures
        at_most(spacing.corners@[j], spacing.corners@[i]),
    decreases i - j,
{
    if j < i {
        lemma_corners_rise(math, spacing, i - 1, j);
        let width: W = math.wide(spacing.primary@[i - 1]);
        let corner = spacing.corners@[i - 1];
        below_through(number::<W>(0), width, width);
        sums_keep_order(number::<W>(0), width, corner);
        add_nothing(corner);
        add_commutes(width, corner);
        assert(spacing.corners@[i] == plus(corner, width));
        below_through(spacing.corners@[j], corner, spacing.corners@[i]);
    } else {
        below_through(spacing.corners@[i], spacing.corners@[i], spacing.corners@[i]);
    }
}

/// The low wall is half of the size of the domain below its centre.
pub proof fn walls_are_half_the_size_away<V: Scalar, W: Scalar, N: Numerics<V, W>>(
    math: &N,
    grid: Grid<V, W>,
    axis: Axis,
)
    requires
        field::<V>(),
        field::<W>(),
        converts_exactly::<V, W, N>(math),
        grid.follows(math, grid.recipe),
        whole::<V, N>(math, 0) == number::<V>(0),
        math.floor_of(number::<V>(0)) == 0,
    ensures
        ({
            let low = grid.along(axis).position_at(math, number::<V>(0));
            plus(low, low) == negative(grid.size_along(math, axis))
        }),
{
    let (zero, none) = (number::<V>(0), number::<W>(0));
    let spacing = grid.along(axis);
    assert(grid.along(axis).valid());
    add_nothing(zero);
    lemma_offset_within(math, spacing, 0, zero);
    let span = spacing.span_of();
    let centre = times(half::<W>(), span);
    let low = spacing.position_at(math, zero);
    assert(math.wide(zero) == none) by {
        reveal(converts_exactly);
    }
    multiply_by_nothing(math.wide(spacing.primary@[0]));
    assert(spacing.corners@[0] == none) by {
        assert(spacing.corners@[0] == grid.recipe.corner::<W, N>(math, axis, 0));
        if grid.recipe.refinements@.len() == 0 {
            reveal(converts_exactly);
            assert(math.wide(whole::<V, N>(math, 0)) == whole::<W, N>(math, 0));
            multiply_by_nothing(math.wide(grid.recipe.cell_size));
        }
    }
    add_nothing(none);
    take_away(none, centre);
    add_nothing(negative(centre));
    // low is minus half of the span, both written in the narrower precision.
    reveal(converts_exactly);
    let size = grid.size_along(math, axis);
    assert(math.wide(low) == negative(centre));
    assert(math.wide(size) == span);
    assert(math.wide(plus(low, low)) == plus(negative(centre), negative(centre)));
    negatives(centre, centre);
    multiply_spreads(half::<W>(), span, span);
    parts(span, span);
    assert(math.wide(plus(low, low)) == negative(span));
    // What added to the size gives nothing is its negative.
    assert(math.wide(plus(size, plus(low, low))) == plus(span, negative(span)));
    take_away(span, span);
    assert(math.narrowed(math.wide(plus(size, plus(low, low)))) == plus(size, plus(low, low)));
    assert(math.narrowed(math.wide(zero)) == zero);
    negative_is(size, plus(low, low));
}

/// From the centre of one cell to the centre of the next is the dual width between
/// them.
pub proof fn dual_widths_run_from_centre_to_centre<V: Scalar, W: Scalar, N: Numerics<V, W>>(
    math: &N,
    grid: Grid<V, W>,
    axis: Axis,
    i: int,
)
    requires
        field::<V>(),
        field::<W>(),
        converts_exactly::<V, W, N>(math),
        counts_up::<W, N>(math),
        forall|n: usize|
            math.floor_of(plus(#[trigger] whole::<V, N>(math, n as u64), half::<V>())) == n,
        grid.follows(math, grid.recipe),
        1 <= i < grid.extent.along(axis),
    ensures
        plus(grid.center_along(math, axis, i - 1), grid.along(axis).dual@[i])
            == grid.center_along(math, axis, i),
{
    let spacing = grid.along(axis);
    assert(grid.along(axis).valid());
    assert(spacing.primary@.len() == grid.extent.along(axis));
    cells_lie_end_to_end(math, grid, axis);
    let (first, second) = (spacing.primary@[i - 1], spacing.primary@[i]);
    let (a, b): (W, W) = (math.wide(first), math.wide(second));
    let h = half::<W>();
    assert((i - 1) as usize as u64 == (i - 1) as u64 && i as usize as u64 == i as u64);
    assert(math.floor_of(plus(whole::<V, N>(math, (i - 1) as u64), half::<V>())) == (i - 1)
        as usize);
    assert(math.floor_of(plus(whole::<V, N>(math, i as u64), half::<V>())) == i as usize);
    lemma_offset_within(math, spacing, i - 1, half::<V>());
    lemma_offset_within(math, spacing, i, half::<V>());
    let corner = spacing.corners@[i - 1];
    assert(spacing.corners@[i] == plus(corner, a));
    let centre = times(h, spacing.span_of());
    let (one, two) = (
        grid.center_along(math, axis, i - 1),
        grid.center_along(math, axis, i),
    );
    reveal(converts_exactly);
    let before = plus(corner, times(h, a));
    let after = plus(plus(corner, a), times(h, b));
    assert(math.wide(one) == minus(before, centre));
    assert(math.wide(two) == minus(after, centre));
    // The dual width is half of either cell.
    let dual = spacing.dual@[i];
    assert(dual == times(half::<V>(), plus(first, second)));
    assert(math.wide(dual) == times(h, plus(a, b)));
    multiply_spreads(h, a, b);
    multiply_spreads(h, a, a);
    parts(a, a);
    // (corner + a/2) + (a/2 + b/2) = (corner + a) + b/2.
    let (ha, hb) = (times(h, a), times(h, b));
    add_regroups(corner, ha, plus(ha, hb));
    add_regroups(ha, ha, hb);
    add_regroups(corner, a, hb);
    // And the same with the centre taken away from either side.
    take_away(before, centre);
    take_away(after, centre);
    add_regroups(before, negative(centre), plus(ha, hb));
    add_commutes(negative(centre), plus(ha, hb));
    add_regroups(before, plus(ha, hb), negative(centre));
    assert(math.wide(plus(one, dual)) == math.wide(two));
    assert(math.narrowed(math.wide(plus(one, dual))) == plus(one, dual));
    assert(math.narrowed(math.wide(two)) == two);
}

/// A position is in the domain where it is between the low wall and the high one.
pub proof fn domains_lie_between_their_walls<V: Scalar, W: Scalar, N: Numerics<V, W>>(
    math: &N,
    grid: Grid<V, W>,
    axis: Axis,
    position: V,
)
    requires
        field::<V>(),
    ensures
        ({
            let wall = times(half::<V>(), grid.size_along(math, axis));
            grid.within(math, axis, position) <==> at_most(negative(wall), position) && at_most(
                position,
                wall,
            )
        }),
{
    magnitudes(position, times(half::<V>(), grid.size_along(math, axis)));
}

/// Corners that have been reached, and one that has not.
proof fn lemma_reached<W: Scalar>(corners: Seq<W>, offset: W)
    ensures
        0 <= corners_reached(corners, offset) <= corners.len(),
        forall|i: int|
            0 <= i < corners_reached(corners, offset) ==> at_most(
                #[trigger] corners[i],
                offset,
            ),
        corners_reached(corners, offset) < corners.len() ==> !at_most(
            corners[corners_reached(corners, offset)],
            offset,
        ),
    decreases corners.len(),
{
    if corners.len() > 0 && at_most(corners[0], offset) {
        let rest = corners.drop_first();
        lemma_reached(rest, offset);
        let n = corners_reached(corners, offset);
        assert forall|i: int| 0 <= i < n implies at_most(#[trigger] corners[i], offset) by {
            if i > 0 {
                assert(corners[i] == rest[i - 1]);
            }
        }
        if n < corners.len() {
            assert(corners[n] == rest[n - 1]);
        }
    }
}

/// The largest index not above a whole number and a part of one is the whole number.
#[verifier::opaque]
pub open spec fn floors_drop_parts<V: Scalar, W: Scalar, N: Numerics<V, W>>(math: &N) -> bool {
    forall|n: usize, part: V|
        at_most(number::<W>(0), math.wide(part)) && below(math.wide(part), number::<W>(1))
            ==> math.floor_of(#[trigger] plus(whole::<V, N>(math, n as u64), part)) == n
}

proof fn lemma_floor<V: Scalar, W: Scalar, N: Numerics<V, W>>(math: &N, i: int, part: V)
    requires
        floors_drop_parts::<V, W, N>(math),
        0 <= i <= u32::MAX,
        at_most(number::<W>(0), math.wide(part)),
        below(math.wide(part), number::<W>(1)),
    ensures
        math.floor_of(plus(whole::<V, N>(math, i as u64), part)) == i,
{
    reveal(floors_drop_parts);
    assert(i as usize as u64 == i as u64);
    assert(math.floor_of(plus(whole::<V, N>(math, i as usize as u64), part)) == i as usize);
}

/// The position of a position's coordinate is the position, anywhere between the low
/// wall and the high one, on even and on graded axes.
pub proof fn positions_come_back<V: Scalar, W: Scalar, N: Numerics<V, W>>(
    math: &N,
    grid: Grid<V, W>,
    axis: Axis,
    position: V,
)
    requires
        field::<V>(),
        field::<W>(),
        converts_exactly::<V, W, N>(math),
        counts_up::<W, N>(math),
        floors_drop_parts::<V, W, N>(math),
        whole::<W, N>(math, 0) == number::<W>(0),
        grid.follows(math, grid.recipe),
        below(number::<V>(0), grid.recipe.cell_size),
        ({
            let offset = grid.along(axis).offset_of_position(math, position);
            at_most(number::<W>(0), offset) && below(offset, grid.along(axis).span_of())
        }),
    ensures
        grid.along(axis).position_at(math, grid.along(axis).coordinate_at(math, position))
            == position,
{
    let spacing = grid.along(axis);
    assert(grid.along(axis).valid());
    assert(spacing.primary@.len() == grid.extent.along(axis));
    cells_lie_end_to_end(math, grid, axis);
    lemma_widths_are_positive(math, grid, axis);
    lemma_first_corner(math, grid, axis);
    lemma_position_comes_back(math, spacing, position);
}

/// Where an offset between the walls falls: in a cell, and a part of the way through
/// it.
proof fn lemma_where_it_falls<V: Scalar, W: Scalar, N: Numerics<V, W>>(
    math: &N,
    spacing: Spacing<V, W>,
    offset: W,
)
    requires
        field::<W>(),
        spacing.valid(),
        end_to_end(math, spacing),
        forall|k: int|
            0 <= k < spacing.primary@.len() ==> below(
                number::<W>(0),
                math.wide(#[trigger] spacing.primary@[k]),
            ),
        spacing.corners@[0] == number::<W>(0),
        at_most(number::<W>(0), offset),
        below(offset, spacing.span_of()),
    ensures
        ({
            let i = spacing.cell_of_offset(offset);
            let width: W = math.wide(spacing.primary@[i]);
            let part = over(minus(offset, spacing.corners@[i]), width);
            &&& 0 <= i < spacing.primary@.len()
            &&& at_most(number::<W>(0), part)
            &&& below(part, number::<W>(1))
            &&& times(part, width) == minus(offset, spacing.corners@[i])
        }),
{
    let (none, one) = (number::<W>(0), number::<W>(1));
    let n = spacing.primary@.len() as int;
    lemma_reached(spacing.corners@, offset);
    let reached = corners_reached(spacing.corners@, offset);
    // The first corner is reached and the last is not.
    one_way_or_the_other(spacing.span_of(), offset);
    assert(1 <= reached <= n);
    let i = reached - 1;
    let (corner, next) = (spacing.corners@[i], spacing.corners@[i + 1]);
    let width: W = math.wide(spacing.primary@[i]);
    let inside = minus(offset, corner);
    let part = over(inside, width);
    assert(next == plus(corner, width));
    assert(at_most(corner, offset) && !at_most(next, offset));
    lemma_below_if_not(next, offset);
    // 0 <= inside < width, so 0 <= part < 1.
    take_away(offset, corner);
    take_away(corner, corner);
    take_away(next, corner);
    sums_keep_order(corner, offset, negative(corner));
    sums_keep_order(offset, next, negative(corner));
    add_commutes(corner, width);
    add_regroups(width, corner, negative(corner));
    add_nothing(width);
    parts(inside, width);
    parts(width, width);
    multiply_by_nothing(width);
    factors_come_off(none, part, width);
    factors_come_off(part, one, width);
}

proof fn lemma_position_comes_back<V: Scalar, W: Scalar, N: Numerics<V, W>>(
    math: &N,
    spacing: Spacing<V, W>,
    position: V,
)
    requires
        field::<V>(),
        field::<W>(),
        converts_exactly::<V, W, N>(math),
        floors_drop_parts::<V, W, N>(math),
        spacing.valid(),
        spacing.primary@.len() <= u32::MAX,
        end_to_end(math, spacing),
        forall|k: int|
            0 <= k < spacing.primary@.len() ==> below(
                number::<W>(0),
                math.wide(#[trigger] spacing.primary@[k]),
            ),
        spacing.corners@[0] == number::<W>(0),
        at_most(number::<W>(0), spacing.offset_of_position(math, position)),
        below(spacing.offset_of_position(math, position), spacing.span_of()),
    ensures
        spacing.position_at(math, spacing.coordinate_at(math, position)) == position,
{
    let offset = spacing.offset_of_position(math, position);
    lemma_where_it_falls(math, spacing, offset);
    let i = spacing.cell_of_offset(offset);
    let corner = spacing.corners@[i];
    let width: W = math.wide(spacing.primary@[i]);
    let part = over(minus(offset, corner), width);
    // The coordinate is the cell and the part, both in the narrower precision.
    let count: V = whole::<V, N>(math, i as u64);
    let small: V = math.narrowed(part);
    lemma_narrow_and_back::<V, W, N>(math, part);
    let place = spacing.coordinate_at(math, position);
    assert(place == plus(count, small)) by {
        reveal(converts_exactly);
        assert(math.wide(plus(count, small)) == plus(math.wide(count), math.wide(small)));
        assert(math.narrowed(math.wide(plus(count, small))) == plus(count, small));
    }
    lemma_floor::<V, W, N>(math, i, small);
    lemma_offset_within(math, spacing, i, small);
    // corner + part·width = offset.
    lemma_forth(offset, corner);
    let centre = times(half::<W>(), spacing.span_of());
    lemma_back_again(math.wide(position), centre);
    assert(math.narrowed(math.wide(position)) == position) by {
        reveal(converts_exactly);
    }
}

/// `b + (a - b) = a`.
proof fn lemma_forth<W: Scalar>(a: W, b: W)
    requires
        ring::<W>(),
    ensures
        plus(b, minus(a, b)) == a,
{
    lemma_back_again(a, b);
    add_commutes(b, minus(a, b));
}

proof fn lemma_below_if_not<W: Scalar>(a: W, b: W)
    requires
        field::<W>(),
        !at_most(a, b),
    ensures
        below(b, a),
{
    one_way_or_the_other(b, a);
}

/// The first corner is at nothing.
proof fn lemma_first_corner<V: Scalar, W: Scalar, N: Numerics<V, W>>(
    math: &N,
    grid: Grid<V, W>,
    axis: Axis,
)
    requires
        field::<W>(),
        converts_exactly::<V, W, N>(math),
        counts_up::<W, N>(math),
        grid.follows(math, grid.recipe),
    ensures
        grid.recipe.refinements@.len() > 0 || whole::<W, N>(math, 0) == number::<W>(0)
            ==> grid.along(axis).corners@[0] == number::<W>(0),
{
    assert(grid.along(axis).valid());
    assert(grid.along(axis).corners@[0] == grid.recipe.corner::<W, N>(math, axis, 0));
    multiply_by_nothing(math.wide(grid.recipe.cell_size));
}

/// At the low wall the first cell is mirrored, so the dual width there is that of the
/// whole cell.
pub proof fn the_first_cell_is_mirrored<V: Scalar, W: Scalar>(spacing: Spacing<V, W>)
    requires
        field::<V>(),
        spacing.valid(),
    ensures
        spacing.dual@[0] == spacing.primary@[0],
{
    assert(spacing.dual@[0] == dual_width(spacing.primary@, 0));
    parts(spacing.primary@[0], spacing.primary@[0]);
}

} // verus!
