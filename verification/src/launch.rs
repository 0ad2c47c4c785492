//! Why a plane wave goes one way only.
//!
//! A plane wave source parts the domain at a plane: before it there is nothing of
//! the wave, past it all of it. Neither side fits the other, and the two corrections
//! are exactly what makes up for that: with the one, the row of `H` before the plane
//! stays dark though the wave stands right ahead of it; with the other, the row of
//! `E` at the plane moves as though the wave came up from behind. Both hold of
//! arithmetic that does not round.

use crate::algebra::{
    add_commutes, add_nothing, add_regroups, multiply_by_nothing, multiply_commutes,
    multiply_spreads, multiply_spreads_over_difference, negatives, ring, take_away,
};
use crate::dispersion::pi_of;
use crate::grid::{light_speed, Axis, Grid};
use crate::lattice::{axes_cycle, cell_of_slot, slot_in_range, Cell};
use crate::numerics::{Elementary, Numerics};
use crate::order::{field, parts};
use crate::scalar::{below, half, minus, negative, number, over, plus, same, times, Scalar};
use crate::setup::Setup;
use crate::source::{Source, SourceShape};
use crate::stencil::{relaxed, Direction, Half};
use vstd::prelude::*;

verus! {

/// Whether three axes follow each other as `x`, `y`, `z` do.
pub open spec fn right_handed(a: Axis, b: Axis, c: Axis) -> bool {
    b == a.successor() && c == b.successor()
}

/// A number with its sign turned round where three axes are left-handed.
pub open spec fn handed<V: Scalar>(a: Axis, b: Axis, c: Axis, value: V) -> V {
    if right_handed(a, b, c) {
        value
    } else {
        negative(value)
    }
}

/// One is what it is, in products and in quotients, and zero is the same as zero.
pub open spec fn plain<V: Scalar>() -> bool {
    &&& ring::<V>()
    &&& forall|x: V| #[trigger] times(number::<V>(1), x) == x
    &&& forall|x: V| #[trigger] over(x, number::<V>(1)) == x
    &&& same(number::<V>(0), number::<V>(0))
}

impl<V: Scalar> Source<V> {
    /// Whether the source is a plane wave along `axis` with `E` along
    /// `polarization` and `H` along `third`.
    pub open spec fn travels(self, axis: Axis, third: Axis) -> bool {
        &&& self.shape is PlaneWave
        &&& self.shape->PlaneWave_axis == axis
        &&& self.polarization != axis
        &&& third != axis
        &&& third != self.polarization
    }
}

/// A plane wave acts on `E` along its polarization, and on `H` along the third axis;
/// on all of the plane it starts from, and on all of the one before it; and as
/// strongly everywhere.
pub proof fn plane_waves_fill_their_planes<V: Scalar, W: Scalar, N: Numerics<V, W>>(
    math: &N,
    grid: Grid<V, W>,
    source: Source<V>,
    time: V,
    axis: Axis,
    third: Axis,
    cell: Cell,
)
    requires
        same(number::<V>(0), number::<V>(0)),
        source.travels(axis, third),
        grid.valid(),
        grid.extent.has(cell),
    ensures
        ({
            // The plane its offset lies in, or the next where that is at the wall.
            let at = grid.cell_along(math, axis, source.shape->PlaneWave_offset);
            let row = if at == 0 {
                1
            } else {
                at
            };
            let e = source.electric_injection(math, grid, time);
            let h = source.magnetic_injection(math, grid, time);
            &&& !e.magnetic && e.component == source.polarization.position()
            &&& h.magnetic && h.component == third.position()
            &&& e.covers(cell) <==> cell.along(axis) == row
            &&& h.covers(cell) <==> cell.along(axis) + 1 == row
            &&& forall|x: V, y: V, z: V| #[trigger]
                e.weight_at(math, x, y, z) == number::<V>(1)
            &&& forall|x: V, y: V, z: V| #[trigger]
                h.weight_at(math, x, y, z) == number::<V>(1)
        }),
{
    assert(grid.along(axis).valid());
    assert(grid.extent.along(axis) <= u32::MAX);
}

/// A difference from nothing, or to nothing.
proof fn lemma_one_sided<V: Scalar>(gain: V, x: V)
    requires
        ring::<V>(),
    ensures
        times(gain, minus(x, number::<V>(0))) == times(gain, x),
        times(gain, minus(number::<V>(0), x)) == negative(times(gain, x)),
        times(gain, minus(number::<V>(0), number::<V>(0))) == number::<V>(0),
        minus(x, number::<V>(0)) == x,
{
    let zero = number::<V>(0);
    take_away(x, zero);
    take_away(zero, x);
    take_away(zero, zero);
    negatives(zero, zero);
    negatives(gain, x);
    add_nothing(x);
    add_nothing(negative(x));
    multiply_by_nothing(gain);
}

/// A cell of an update that takes nothing, starting from nothing.
proof fn lemma_bare_update<V: Scalar>(half: Half, own: V, loss: V, push: V)
    requires
        plain::<V>(),
        loss == number::<V>(0),
    ensures
        relaxed(half, Direction::Forward, own, loss, push) == match half {
            Half::Magnetic => minus(own, push),
            Half::Electric => plus(own, push),
        },
{
    let one = number::<V>(1);
    lemma_one_sided(one, one);
    add_nothing(one);
    assert(times(one, own) == own);
}

/// The row of `H` before the plane stays dark: what the wave right ahead of it, as it
/// stood a step ago, would put there, the source takes out.
pub proof fn nothing_leaks_behind_the_plane<V: Scalar, W: Scalar, N: Numerics<V, W>>(
    setup: Setup<V, W, N>,
    source: Source<V>,
    time: V,
    axis: Axis,
    third: Axis,
    dark: Seq<V>,
    ahead: Seq<V>,
    along: Seq<V>,
    cell: Cell,
)
    requires
        plain::<V>(),
        source.travels(axis, third),
        setup.grid.valid(),
        setup.medium.extent == setup.grid.extent,
        setup.grid.extent.has(cell),
        cell.along(axis) + 1 == setup.grid.cell_along(
            &setup.math,
            axis,
            source.shape->PlaneWave_offset,
        ),
        // Empty space, in cells as wide as the source takes them to be.
        setup.medium.gain(Half::Magnetic, cell) == number::<V>(1),
        setup.medium.loss(Half::Magnetic, third, cell) == number::<V>(0),
        setup.medium.magnetic_gains@[axis.position()]@[cell.along(axis)] == setup.grid.row_gain(
            &setup.math,
            axis,
        ),
        // Nothing here yet, the wave one cell ahead, and no `E` along the travel.
        dark[setup.grid.extent.slot(cell)] == number::<V>(0),
        ahead[setup.grid.extent.slot(cell)] == number::<V>(0),
        ahead[setup.grid.extent.slot(cell.moved(axis, 1))] == source.drive(
            &setup.math,
            minus(time, setup.grid.step_time(&setup.math)),
        ),
        along[setup.grid.extent.slot(cell)] == number::<V>(0),
        setup.medium.ahead(along, cell, source.polarization) == number::<V>(0),
    ensures
        ({
            let swept = if third.successor() == source.polarization {
                setup.medium.swept(
                    Half::Magnetic,
                    Direction::Forward,
                    third,
                    dark,
                    ahead,
                    along,
                )
            } else {
                setup.medium.swept(
                    Half::Magnetic,
                    Direction::Forward,
                    third,
                    dark,
                    along,
                    ahead,
                )
            };
            setup.deposited(
                swept,
                source.magnetic_injection(&setup.math, setup.grid, time),
                Direction::Forward,
            )[setup.grid.extent.slot(cell)] == number::<V>(0)
        }),
{
    let (zero, one) = (number::<V>(0), number::<V>(1));
    let extent = setup.grid.extent;
    let medium = setup.medium;
    let p = source.polarization;
    axes_cycle(axis);
    axes_cycle(third);
    slot_in_range(extent, cell);
    cell_of_slot(extent, cell);
    plane_waves_fill_their_planes(&setup.math, setup.grid, source, time, axis, third, cell);
    assert(setup.grid.along(axis).valid());
    let h = source.magnetic_injection(&setup.math, setup.grid, time);
    let gain = setup.grid.row_gain(&setup.math, axis);
    let wave = source.drive(&setup.math, minus(time, setup.grid.step_time(&setup.math)));
    let push = times(gain, wave);
    let other = medium.magnetic_gains@[p.position()]@[cell.along(p)];
    assert(h.covers(cell));
    assert(setup.weight(h, cell) == one);
    assert(cell.along(axis) + 1 < extent.along(axis));
    lemma_one_sided(gain, wave);
    lemma_one_sided(other, zero);
    // The curl is the one difference, with its sign, and the correction undoes it.
    assert(medium.derivative(Half::Magnetic, ahead, cell, axis) == push);
    assert(medium.derivative(Half::Magnetic, along, cell, p) == zero);
    lemma_one_sided(one, push);
    negatives(one, gain);
    negatives(gain, wave);
    negatives(push, push);
    take_away(zero, push);
    take_away(zero, negative(push));
    take_away(push, push);
    add_nothing(push);
    add_nothing(negative(push));
    add_commutes(push, negative(push));
    multiply_commutes(h.value, one);
    if third.successor() == p {
        lemma_bare_update(Half::Magnetic, zero, zero, times(one, negative(push)));
    } else {
        lemma_bare_update(Half::Magnetic, zero, zero, times(one, push));
    }
}

/// The row of `E` at the plane moves as though the wave came up from behind: what the
/// source puts there is what the wave's own `H` half a cell back, half a step ago,
/// would have.
pub proof fn the_wave_enters_as_from_behind<V: Scalar, W: Scalar, N: Numerics<V, W>>(
    setup: Setup<V, W, N>,
    source: Source<V>,
    time: V,
    axis: Axis,
    third: Axis,
    before: Seq<V>,
    dark: Seq<V>,
    lit: Seq<V>,
    along: Seq<V>,
    cell: Cell,
)
    requires
        plain::<V>(),
        source.travels(axis, third),
        setup.grid.valid(),
        setup.medium.extent == setup.grid.extent,
        setup.grid.extent.has(cell),
        1 <= cell.along(axis),
        1 <= cell.along(third),
        cell.along(axis) == setup.grid.cell_along(
            &setup.math,
            axis,
            source.shape->PlaneWave_offset,
        ),
        setup.medium.gain(Half::Electric, cell) == number::<V>(1),
        setup.medium.loss(Half::Electric, source.polarization, cell) == number::<V>(0),
        setup.medium.electric_gains@[axis.position()]@[cell.along(axis)] == setup.grid.row_gain(
            &setup.math,
            axis,
        ),
        // The two fields differ behind the plane only: nothing there, or the wave,
        // which goes with its `E` as `x`, `y` and `z` go together.
        dark[setup.grid.extent.slot(cell)] == lit[setup.grid.extent.slot(cell)],
        dark[setup.grid.extent.slot(cell.moved(axis, -1))] == number::<V>(0),
        lit[setup.grid.extent.slot(cell.moved(axis, -1))] == handed(
            axis,
            source.polarization,
            third,
            source.drive(
                &setup.math,
                plus(
                    minus(time, times(half::<V>(), setup.grid.step_time(&setup.math))),
                    source.retardation(&setup.math, setup.grid, axis),
                ),
            ),
        ),
    ensures
        ({
            let p = source.polarization;
            let sweep = |field: Seq<V>|
                if p.successor() == third {
                    setup.medium.swept(
                        Half::Electric,
                        Direction::Forward,
                        p,
                        before,
                        field,
                        along,
                    )
                } else {
                    setup.medium.swept(
                        Half::Electric,
                        Direction::Forward,
                        p,
                        before,
                        along,
                        field,
                    )
                };
            setup.deposited(
                sweep(dark),
                source.electric_injection(&setup.math, setup.grid, time),
                Direction::Forward,
            )[setup.grid.extent.slot(cell)] == sweep(lit)[setup.grid.extent.slot(cell)]
        }),
{
    let (zero, one) = (number::<V>(0), number::<V>(1));
    let extent = setup.grid.extent;
    let medium = setup.medium;
    let p = source.polarization;
    axes_cycle(axis);
    axes_cycle(p);
    slot_in_range(extent, cell);
    cell_of_slot(extent, cell);
    plane_waves_fill_their_planes(&setup.math, setup.grid, source, time, axis, third, cell);
    assert(setup.grid.along(axis).valid());
    let e = source.electric_injection(&setup.math, setup.grid, time);
    let gain = setup.grid.row_gain(&setup.math, axis);
    let wave = source.drive(
        &setup.math,
        plus(
            minus(time, times(half::<V>(), setup.grid.step_time(&setup.math))),
            source.retardation(&setup.math, setup.grid, axis),
        ),
    );
    let push = times(gain, wave);
    let own = before[extent.slot(cell)];
    let here = dark[extent.slot(cell)];
    assert(e.covers(cell));
    assert(setup.weight(e, cell) == one);
    multiply_commutes(e.value, one);
    assert(medium.writes(Half::Electric, p, cell));
    let side = medium.derivative(Half::Electric, along, cell, third);
    let (near, far) = (
        medium.derivative(Half::Electric, dark, cell, axis),
        medium.derivative(Half::Electric, lit, cell, axis),
    );
    // far = near - gain·H behind.
    let behind = lit[extent.slot(cell.moved(axis, -1))];
    lemma_one_sided(gain, here);
    multiply_spreads_over_difference(gain, here, behind);
    negatives(gain, wave);
    negatives(push, push);
    assert(near == times(gain, here));
    assert(far == minus(near, times(gain, behind)));
    if p.successor() == third {
        // E along p loses the difference along the axis.
        assert(right_handed(axis, p, third));
        lemma_taken_twice(side, near, push);
        lemma_bare_update(Half::Electric, own, zero, times(one, minus(side, near)));
        lemma_bare_update(Half::Electric, own, zero, times(one, minus(side, far)));
        add_regroups(own, minus(side, near), push);
    } else {
        assert(!right_handed(axis, p, third));
        lemma_given_twice(side, near, push);
        lemma_bare_update(Half::Electric, own, zero, times(one, minus(near, side)));
        lemma_bare_update(Half::Electric, own, zero, times(one, minus(far, side)));
        add_regroups(own, minus(near, side), push);
    }
}

/// `s - (a - b) = (s - a) + b`.
proof fn lemma_taken_twice<V: Scalar>(s: V, a: V, b: V)
    requires
        ring::<V>(),
    ensures
        minus(s, minus(a, b)) == plus(minus(s, a), b),
{
    take_away(s, minus(a, b));
    negatives(a, b);
    take_away(b, a);
    take_away(s, a);
    add_commutes(b, negative(a));
    add_regroups(s, negative(a), b);
}

/// `(a - -b) - s = (a - s) + b`.
proof fn lemma_given_twice<V: Scalar>(s: V, a: V, b: V)
    requires
        ring::<V>(),
    ensures
        minus(minus(a, negative(b)), s) == plus(minus(a, s), b),
{
    take_away(a, negative(b));
    negatives(b, b);
    take_away(plus(a, b), s);
    take_away(a, s);
    add_regroups(a, b, negative(s));
    add_commutes(b, negative(s));
    add_regroups(a, negative(s), b);
}

/// The two corrections of one plane wave form a right-handed triple with the way it
/// goes: `H` has the sign of the drive where the polarization follows the axis as `y`
/// follows `x`, and the opposite sign where it is the other way round.
pub proof fn plane_waves_are_right_handed<V: Scalar, W: Scalar, N: Numerics<V, W>>(
    math: &N,
    grid: Grid<V, W>,
    source: Source<V>,
    time: V,
    axis: Axis,
    third: Axis,
)
    requires
        plain::<V>(),
        source.travels(axis, third),
    ensures
        source.magnetic_injection(math, grid, time).value == handed(
            axis,
            source.polarization,
            third,
            times(
                grid.row_gain(math, axis),
                source.drive(math, minus(time, grid.step_time(math))),
            ),
        ),
{
    let (one, gain) = (number::<V>(1), grid.row_gain(math, axis));
    let wave = source.drive(math, minus(time, grid.step_time(math)));
    axes_cycle(axis);
    axes_cycle(source.polarization);
    negatives(one, gain);
    negatives(gain, wave);
}

/// Of two plane waves that differ in having their two transverse axes swapped, the
/// one puts into `H` the opposite of what the other does.
pub proof fn swapping_the_transverse_axes_turns_h_round<V: Scalar, W: Scalar, N: Numerics<V, W>>(
    math: &N,
    grid: Grid<V, W>,
    source: Source<V>,
    swapped: Source<V>,
    time: V,
    axis: Axis,
)
    requires
        plain::<V>(),
        source.travels(axis, swapped.polarization),
        swapped.travels(axis, source.polarization),
        swapped.waveform == source.waveform,
        swapped.amplitude == source.amplitude,
        swapped.shape == source.shape,
    ensures
        swapped.magnetic_injection(math, grid, time).value == negative(
            source.magnetic_injection(math, grid, time).value,
        ),
        swapped.electric_injection(math, grid, time).value == source.electric_injection(
            math,
            grid,
            time,
        ).value,
{
    plane_waves_are_right_handed(math, grid, source, time, axis, swapped.polarization);
    plane_waves_are_right_handed(math, grid, swapped, time, axis, source.polarization);
    axes_cycle(axis);
    let push = times(
        grid.row_gain(math, axis),
        source.drive(math, minus(time, grid.step_time(math))),
    );
    negatives(push, push);
}

/// The gain a plane wave is put in with, across a cell, is what light covers in a
/// step.
pub proof fn the_gain_is_what_light_covers<V: Scalar, W: Scalar, N: Numerics<V, W>>(
    math: &N,
    grid: Grid<V, W>,
    axis: Axis,
)
    requires
        field::<V>(),
        below(number::<V>(0), grid.finest_along(math, axis)),
    ensures
        times(grid.row_gain(math, axis), grid.finest_along(math, axis)) == times(
            light_speed::<V, N>(math),
            grid.step_time(math),
        ),
{
    parts(
        times(light_speed::<V, N>(math), grid.step_time(math)),
        grid.finest_along(math, axis),
    );
}

/// The time a plane wave takes over half a cell is that of the grid's own waves: the
/// sine of what its phase gains in half a step is the gain times the sine of what it
/// gains in half a cell.
pub proof fn plane_waves_travel_as_the_grid_does<V: Scalar, W: Scalar, N: Numerics<V, W>>(
    math: &N,
    grid: Grid<V, W>,
    source: Source<V>,
    axis: Axis,
)
    requires
        field::<V>(),
        below(number::<V>(0), grid.row_gain(math, axis)),
        ({
            let omega = times(
                times(number::<V>(2), pi_of::<V, N>(math)),
                source.waveform.carrier(),
            );
            &&& below(number::<V>(0), omega)
            // An angle with a given sine has that sine.
            &&& forall|x: V| math.sin_of(#[trigger] math.asin_of(x)) == x
        }),
    ensures
        ({
            let omega = times(
                times(number::<V>(2), pi_of::<V, N>(math)),
                source.waveform.carrier(),
            );
            let lag = source.retardation(math, grid, axis);
            times(math.sin_of(times(lag, omega)), grid.row_gain(math, axis)) == math.sin_of(
                times(times(half::<V>(), omega), grid.step_time(math)),
            )
        }),
{
    let omega = times(times(number::<V>(2), pi_of::<V, N>(math)), source.waveform.carrier());
    let gain = grid.row_gain(math, axis);
    let swing = math.sin_of(times(times(half::<V>(), omega), grid.step_time(math)));
    let angle = math.asin_of(over(swing, gain));
    parts(angle, omega);
    parts(swing, gain);
}

/// A source as strong as two others of its kind puts in what the two do together.
pub proof fn injections_grow_with_the_amplitude<V: Scalar, W: Scalar, N: Numerics<V, W>>(
    math: &N,
    grid: Grid<V, W>,
    source: Source<V>,
    first: V,
    second: V,
    time: V,
)
    requires
        ring::<V>(),
    ensures
        ({
            let with = |amplitude: V| Source { amplitude, ..source };
            let (a, b, both) = (with(first), with(second), with(plus(first, second)));
            &&& both.electric_injection(math, grid, time).value == plus(
                a.electric_injection(math, grid, time).value,
                b.electric_injection(math, grid, time).value,
            )
            &&& both.magnetic_injection(math, grid, time).value == plus(
                a.magnetic_injection(math, grid, time).value,
                b.magnetic_injection(math, grid, time).value,
            )
        }),
{
    add_nothing(number::<V>(0));
    match source.shape {
        SourceShape::PlaneWave { axis, offset } => {
            let early = plus(
                minus(time, times(half::<V>(), grid.step_time(math))),
                source.retardation(math, grid, axis),
            );
            lemma_amplitudes_add(source, math, first, second, early);
            lemma_amplitudes_add(source, math, first, second, minus(time, grid.step_time(math)));
            let gain = grid.row_gain(math, axis);
            let with = |amplitude: V| Source { amplitude, ..source };
            let (a, b) = (with(first), with(second));
            multiply_spreads(gain, a.drive(math, early), b.drive(math, early));
            let late = minus(time, grid.step_time(math));
            let sign = if source.polarization.successor() == axis {
                negative(number::<V>(1))
            } else {
                number::<V>(1)
            };
            multiply_spreads(
                times(sign, gain),
                a.drive(math, late),
                b.drive(math, late),
            );
        },
        _ => {
            lemma_amplitudes_add(source, math, first, second, time);
        },
    }
}

proof fn lemma_amplitudes_add<V: Scalar, N: Elementary<V>>(
    source: Source<V>,
    math: &N,
    first: V,
    second: V,
    time: V,
)
    requires
        ring::<V>(),
    ensures
        (Source { amplitude: plus(first, second), ..source }).drive(math, time) == plus(
            (Source { amplitude: first, ..source }).drive(math, time),
            (Source { amplitude: second, ..source }).drive(math, time),
        ),
{
    let value = source.waveform.value_at(math, time);
    multiply_commutes(plus(first, second), value);
    multiply_commutes(first, value);
    multiply_commutes(second, value);
    multiply_spreads(value, first, second);
}

} // verus!
