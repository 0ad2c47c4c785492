//! What points and sheets emit, and from where.
//!
//! A point acts on the one cell it is in by then, a sheet on the whole plane of
//! cells it lies in, fading with the distance from its middle.

use crate::algebra::{
    add_nothing, multiply_by_nothing, multiply_commutes, multiply_regroups, negatives, ring,
    take_away,
};
use crate::grid::{Axis, Grid};
use crate::lattice::Cell;
use crate::numerics::Numerics;
use crate::order::{below_through, factors_come_off, field, parts};
use crate::scalar::{below, minus, negative, number, over, plus, same, times, Scalar};
use crate::source::Source;
use vstd::prelude::*;

verus! {

/// A point acts on `E` along its polarization, in the one cell that contains it, with
/// its amplitude times its waveform; once it has left the domain it is silent. On `H`
/// it never acts.
pub proof fn points_act_where_they_are<V: Scalar, W: Scalar, N: Numerics<V, W>>(
    math: &N,
    grid: Grid<V, W>,
    source: Source<V>,
    time: V,
    place: Seq<V>,
    cell: Cell,
)
    requires
        same(number::<V>(0), number::<V>(0)),
        source.shape is Point,
        grid.valid(),
        grid.extent.has(cell),
        place.len() == 3,
        forall|t: int|
            0 <= t < 3 ==> #[trigger] place[t] == plus(
                source.shape->at@[t],
                times(source.shape->velocity@[t], time),
            ),
    ensures
        ({
            let e = source.electric_injection(math, grid, time);
            let h = source.magnetic_injection(math, grid, time);
            &&& !e.magnetic && e.component == source.polarization.position()
            &&& e.covers(cell) <==> forall|axis: Axis| #[trigger]
                cell.along(axis) == grid.cell_along(math, axis, place[axis.position()])
            &&& forall|x: V, y: V, z: V| #[trigger]
                e.weight_at(math, x, y, z) == number::<V>(1)
            &&& e.value == if forall|axis: Axis| #[trigger]
                grid.within(math, axis, place[axis.position()]) {
                times(source.amplitude, source.waveform.value_at(math, time))
            } else {
                number::<V>(0)
            }
            &&& h.value == number::<V>(0)
        }),
{
    assert(grid.along(Axis::X).valid() && grid.along(Axis::Y).valid() && grid.along(
        Axis::Z,
    ).valid());
    let now = Seq::new(
        3,
        |t: int| plus(source.shape->at@[t], times(source.shape->velocity@[t], time)),
    );
    assert(now =~= place);
    let e = source.electric_injection(math, grid, time);
    assert(grid.within(math, Axis::X, place[Axis::X.position()]) == grid.within(
        math,
        Axis::X,
        place[0],
    ));
    assert(cell.along(Axis::X) == cell.x && cell.along(Axis::Y) == cell.y && cell.along(Axis::Z)
        == cell.z);
    if forall|axis: Axis| #[trigger] grid.within(math, axis, place[axis.position()]) {
        assert(grid.within(math, Axis::X, place[Axis::X.position()]));
        assert(grid.within(math, Axis::Y, place[Axis::Y.position()]));
        assert(grid.within(math, Axis::Z, place[Axis::Z.position()]));
    }
    if e.covers(cell) {
        assert forall|axis: Axis| #[trigger] cell.along(axis) == grid.cell_along(
            math,
            axis,
            place[axis.position()],
        ) by {
            match axis {
                Axis::X => {},
                Axis::Y => {},
                Axis::Z => {},
            }
        }
    }
}

/// A moving point is, at any moment, the point at rest where it has got to.
pub proof fn moving_points_are_where_they_have_got_to<V: Scalar, W: Scalar, N: Numerics<V, W>>(
    math: &N,
    grid: Grid<V, W>,
    moving: Source<V>,
    resting: Source<V>,
    time: V,
)
    requires
        ring::<V>(),
        moving.shape is Point,
        resting.shape is Point,
        forall|t: int|
            0 <= t < 3 ==> #[trigger] resting.shape->velocity@[t] == number::<V>(0),
        forall|t: int|
            0 <= t < 3 ==> #[trigger] resting.shape->at@[t] == plus(
                moving.shape->at@[t],
                times(moving.shape->velocity@[t], time),
            ),
        resting.polarization == moving.polarization,
        resting.waveform == moving.waveform,
        resting.amplitude == moving.amplitude,
    ensures
        moving.electric_injection(math, grid, time) == resting.electric_injection(
            math,
            grid,
            time,
        ),
{
    let zero = number::<V>(0);
    multiply_by_nothing(time);
    let a = Seq::new(
        3,
        |t: int| plus(moving.shape->at@[t], times(moving.shape->velocity@[t], time)),
    );
    let b = Seq::new(
        3,
        |t: int| plus(resting.shape->at@[t], times(resting.shape->velocity@[t], time)),
    );
    assert forall|t: int| 0 <= t < 3 implies a[t] == b[t] by {
        assert(resting.shape->velocity@[t] == zero);
        assert(resting.shape->at@[t] == a[t]);
        add_nothing(a[t]);
    }
    assert(a =~= b);
}

/// A sheet acts on `E` along its polarization, on the whole plane of cells its offset
/// lies in, with its amplitude times its waveform; on `H` it never acts.
pub proof fn sheets_fill_their_plane<V: Scalar, W: Scalar, N: Numerics<V, W>>(
    math: &N,
    grid: Grid<V, W>,
    source: Source<V>,
    time: V,
    cell: Cell,
)
    requires
        source.shape is Sheet,
        grid.valid(),
        grid.extent.has(cell),
    ensures
        ({
            let e = source.electric_injection(math, grid, time);
            let axis = source.shape->Sheet_axis;
            &&& !e.magnetic && e.component == source.polarization.position()
            &&& e.covers(cell) <==> cell.along(axis) == grid.cell_along(
                math,
                axis,
                source.shape->Sheet_offset,
            )
            &&& e.value == times(source.amplitude, source.waveform.value_at(math, time))
            &&& source.magnetic_injection(math, grid, time).value == number::<V>(0)
        }),
{
    assert(grid.along(source.shape->Sheet_axis).valid());
}

/// The squares of the two coordinates across an axis, added up.
pub open spec fn across<V: Scalar>(axis: Axis, x: V, y: V, z: V) -> V {
    match axis {
        Axis::X => plus(times(y, y), times(z, z)),
        Axis::Y => plus(times(x, x), times(z, z)),
        Axis::Z => plus(times(x, x), times(y, y)),
    }
}

/// A sheet fades with the square of the distance from its middle, measured across it
/// in waists: it is whole in the middle and the exponential of minus one a waist out,
/// whatever the position along its axis.
pub proof fn sheets_fade_from_their_middle<V: Scalar, W: Scalar, N: Numerics<V, W>>(
    math: &N,
    grid: Grid<V, W>,
    source: Source<V>,
    time: V,
    x: V,
    y: V,
    z: V,
    waists_squared: V,
)
    requires
        field::<V>(),
        source.shape is Sheet,
        grid.valid(),
        below(number::<V>(0), times(source.shape->waist, source.shape->waist)),
        forall|a: V, b: V| #[trigger] same(a, b) <==> a == b,
        times(waists_squared, times(source.shape->waist, source.shape->waist)) == across(
            source.shape->Sheet_axis,
            x,
            y,
            z,
        ),
    ensures
        source.electric_injection(math, grid, time).weight_at(math, x, y, z) == math.exp_of(
            negative(waists_squared),
        ),
{
    let (zero, one) = (number::<V>(0), number::<V>(1));
    let axis = source.shape->Sheet_axis;
    let waist = source.shape->waist;
    let square = times(waist, waist);
    let inverse = over(one, square);
    let e = source.electric_injection(math, grid, time);
    assert(grid.along(Axis::X).valid() && grid.along(Axis::Y).valid() && grid.along(
        Axis::Z,
    ).valid());
    assert(grid.extent.along(Axis::X) >= 2 && grid.extent.along(Axis::Y) >= 2
        && grid.extent.along(Axis::Z) >= 2);
    parts(one, square);
    multiply_by_nothing(square);
    below_through(zero, one, one);
    if inverse == zero {
        assert(times(inverse, square) == zero);
        parts(one, one);
    }
    lemma_less_nothing(x);
    lemma_less_nothing(y);
    lemma_less_nothing(z);
    add_nothing(times(x, x));
    add_nothing(times(y, y));
    add_nothing(times(z, z));
    let distance = across(axis, x, y, z);
    assert(e.widened(e.widened(e.widened(zero, 0, x), 1, y), 2, z) == distance);
    // -distance · inverse = -waists_squared.
    negatives(distance, inverse);
    multiply_regroups(distance, inverse, square);
    parts(distance, distance);
    multiply_commutes(waists_squared, square);
    factors_come_off(times(distance, inverse), waists_squared, square);
    negatives(inverse, distance);
    multiply_commutes(negative(distance), inverse);
    multiply_commutes(distance, inverse);
}

proof fn lemma_less_nothing<V: Scalar>(a: V)
    requires
        ring::<V>(),
    ensures
        minus(a, number::<V>(0)) == a,
{
    let zero = number::<V>(0);
    take_away(a, zero);
    negatives(zero, zero);
    add_nothing(a);
}

} // verus!
