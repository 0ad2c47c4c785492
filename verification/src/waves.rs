//! Waves the stepping scheme carries exactly.
//!
//! A plane wave of the continuum is not a solution on a grid. A wave of the grid's
//! own is: any function of half cells and half steps whose centred differences are
//! all multiples of one other function, with the amplitudes of the six components
//! tied together by the discrete curls. A cosine is such a function, with the sine
//! beside it and `2·sin(kΔ/2)` and `2·sin(ωΔt/2)` for the multiples, and what ties
//! the amplitudes together is then the dispersion relation of the scheme.
//!
//! Seeded with such a wave, the solver has to reproduce it. The walls know nothing
//! of it, so the error they make walks inwards, one cell a step, and no faster.

use crate::algebra::{
    add_commutes, add_nothing, add_regroups, multiply_commutes, multiply_regroups,
    multiply_spreads_over_difference, negatives, ring, take_away,
};
use crate::grid::Axis;
use crate::lattice::{axes_cycle, cell_of_slot, slot_in_range, Cell, Extent};
use crate::numerics::{Elementary, Numerics};
use crate::reversal::takes_nothing;
use crate::scalar::{minus, negative, number, over, plus, times, Scalar};
use crate::setup::{Setup, State};
use crate::stencil::{Direction, Half, Medium};
use vstd::prelude::*;

verus! {

/// A place and a moment, in half cells and half steps.
pub struct Spot {
    pub x: int,
    pub y: int,
    pub z: int,
    pub t: int,
}

impl Spot {
    /// So many half cells further along an axis.
    pub open spec fn moved(self, axis: Axis, by: int) -> Spot {
        match axis {
            Axis::X => Spot { x: self.x + by, ..self },
            Axis::Y => Spot { y: self.y + by, ..self },
            Axis::Z => Spot { z: self.z + by, ..self },
        }
    }

    /// So many half steps later.
    pub open spec fn later(self, by: int) -> Spot {
        Spot { t: self.t + by, ..self }
    }
}

/// Where and when a component is sampled: `E` half a cell over along its own axis
/// on whole steps, `H` half a cell over along the other two, half a step before.
pub open spec fn sampled(half: Half, axis: Axis, cell: Cell, step: int) -> Spot {
    let over = |t: Axis|
        if (half == Half::Electric) == (t == axis) {
            1int
        } else {
            0int
        };
    Spot {
        x: 2 * cell.x + over(Axis::X),
        y: 2 * cell.y + over(Axis::Y),
        z: 2 * cell.z + over(Axis::Z),
        t: if half == Half::Electric {
            2 * step
        } else {
            2 * step - 1
        },
    }
}

/// A wave of the grid's own.
pub struct Wave<V> {
    /// Amplitude of each component.
    pub amplitude: spec_fn(Half, Axis) -> V,
    /// The wave itself, of amplitude one.
    pub crest: spec_fn(Spot) -> V,
    /// What its centred differences are multiples of.
    pub slope: spec_fn(Spot) -> V,
    /// The multiple of a difference across a cell.
    pub across: spec_fn(Axis) -> V,
    /// The multiple of a difference over a step.
    pub during: V,
}

impl<V: Scalar> Wave<V> {
    /// Value of a component at a cell, after a number of steps.
    pub open spec fn value(self, half: Half, axis: Axis, cell: Cell, step: int) -> V {
        times((self.amplitude)(half, axis), (self.crest)(sampled(half, axis, cell, step)))
    }

    /// Whether the centred differences are the multiples they are said to be.
    pub open spec fn rolls(self) -> bool {
        &&& forall|spot: Spot, axis: Axis|
            minus(
                (self.crest)(#[trigger] spot.moved(axis, 1)),
                (self.crest)(spot.moved(axis, -1)),
            ) == times((self.slope)(spot), (self.across)(axis))
        &&& forall|spot: Spot|
            minus((self.crest)(#[trigger] spot.later(1)), (self.crest)(spot.later(-1)))
                == negative(times((self.slope)(spot), self.during))
    }
}

/// What the differences of the other field along one axis come to, for a wave.
pub open spec fn share_of_curl<V: Scalar>(
    medium: Medium<V>,
    wave: Wave<V>,
    half: Half,
    partner: Axis,
    along: Axis,
    cell: Cell,
) -> V {
    let (gains, other) = match half {
        Half::Magnetic => (medium.magnetic_gains@[along.position()]@, Half::Electric),
        Half::Electric => (medium.electric_gains@[along.position()]@, Half::Magnetic),
    };
    times(
        gains[cell.along(along)],
        times((wave.amplitude)(other, partner), (wave.across)(along)),
    )
}

impl<V: Scalar> Medium<V> {
    /// Whether the amplitude of one component of a wave is tied to the others by
    /// the curl at a cell.
    pub open spec fn ties(self, wave: Wave<V>, half: Half, axis: Axis, cell: Cell) -> bool {
        let (b, c) = (axis.successor(), axis.predecessor());
        let push = times(
            self.gain(half, cell),
            minus(
                share_of_curl(self, wave, half, c, b, cell),
                share_of_curl(self, wave, half, b, c, cell),
            ),
        );
        times((wave.amplitude)(half, axis), wave.during) == match half {
            Half::Magnetic => push,
            Half::Electric => negative(push),
        }
    }

    /// Whether a wave is one of this medium's own: its amplitudes satisfy the
    /// discrete dispersion relation, component by component, in every cell.
    pub open spec fn carries_wave(self, wave: Wave<V>) -> bool {
        forall|half: Half, axis: Axis, cell: Cell|
            self.extent.has(cell) ==> #[trigger] self.ties(wave, half, axis, cell)
    }
}

/// The field an update reads.
pub open spec fn read_by(half: Half) -> Half {
    match half {
        Half::Magnetic => Half::Electric,
        Half::Electric => Half::Magnetic,
    }
}

/// The step the field an update reads stands at, in the step after `step`: `H` has
/// been updated by the time `E` is.
pub open spec fn read_at(half: Half, step: int) -> int {
    match half {
        Half::Magnetic => step,
        Half::Electric => step + 1,
    }
}

proof fn lemma_difference<V: Scalar>(a: V, b: V)
    requires
        ring::<V>(),
    ensures
        a == plus(b, minus(a, b)),
{
    take_away(a, b);
    add_commutes(a, negative(b));
    add_regroups(b, negative(b), a);
    add_nothing(a);
}

/// A product of four, with the third factor taken out to the front.
proof fn lemma_slope_comes_out<V: Scalar>(gain: V, amplitude: V, slope: V, multiple: V)
    requires
        ring::<V>(),
    ensures
        times(gain, times(amplitude, times(slope, multiple))) == times(
            slope,
            times(gain, times(amplitude, multiple)),
        ),
{
    multiply_regroups(amplitude, slope, multiple);
    multiply_commutes(amplitude, slope);
    multiply_regroups(slope, amplitude, multiple);
    let inner = times(amplitude, multiple);
    multiply_regroups(gain, slope, inner);
    multiply_commutes(gain, slope);
    multiply_regroups(slope, gain, inner);
}

/// The cell an update reads beside its own.
pub open spec fn neighbour(half: Half, cell: Cell, along: Axis) -> Cell {
    match half {
        Half::Magnetic => cell.moved(along, 1),
        Half::Electric => cell.moved(along, -1),
    }
}

/// A difference of a wave is the slope of it halfway between.
proof fn lemma_wave_derivative<V: Scalar>(
    medium: Medium<V>,
    wave: Wave<V>,
    half: Half,
    axis: Axis,
    partner: Axis,
    along: Axis,
    field: Seq<V>,
    cell: Cell,
    step: int,
)
    requires
        ring::<V>(),
        wave.rolls(),
        axis != partner,
        axis != along,
        partner != along,
        medium.extent.has(cell),
        medium.extent.has(neighbour(half, cell, along)),
        field[medium.extent.slot(cell)] == wave.value(
            read_by(half),
            partner,
            cell,
            read_at(half, step),
        ),
        field[medium.extent.slot(neighbour(half, cell, along))] == wave.value(
            read_by(half),
            partner,
            neighbour(half, cell, along),
            read_at(half, step),
        ),
    ensures
        medium.derivative(half, field, cell, along) == times(
            (wave.slope)(sampled(half, axis, cell, step).later(1)),
            share_of_curl(medium, wave, half, partner, along, cell),
        ),
{
    let spot = sampled(half, axis, cell, step).later(1);
    let next = neighbour(half, cell, along);
    let amplitude = (wave.amplitude)(read_by(half), partner);
    let (high, low) = match half {
        Half::Magnetic => (next, cell),
        Half::Electric => (cell, next),
    };
    let (above, under) = (spot.moved(along, 1), spot.moved(along, -1));
    assert(sampled(read_by(half), partner, high, read_at(half, step)) == above);
    assert(sampled(read_by(half), partner, low, read_at(half, step)) == under);
    let (u, w) = ((wave.crest)(above), (wave.crest)(under));
    assert(minus(u, w) == times((wave.slope)(spot), (wave.across)(along)));
    multiply_spreads_over_difference(amplitude, u, w);
    let gain = match half {
        Half::Magnetic => medium.magnetic_gains@[along.position()]@[cell.along(along)],
        Half::Electric => medium.electric_gains@[along.position()]@[cell.along(along)],
    };
    lemma_slope_comes_out(gain, amplitude, (wave.slope)(spot), (wave.across)(along));
}

/// A wave of the medium's own passes through an update: where the cell and the ones
/// it reads hold the wave, the update leaves the wave half a step on.
proof fn lemma_wave_passes<V: Scalar>(
    medium: Medium<V>,
    wave: Wave<V>,
    half: Half,
    axis: Axis,
    target: Seq<V>,
    field_b: Seq<V>,
    field_c: Seq<V>,
    cell: Cell,
    step: int,
)
    requires
        ring::<V>(),
        wave.rolls(),
        medium.takes_nothing(),
        medium.carries_wave(wave),
        medium.extent.has(cell),
        medium.extent.has(neighbour(half, cell, axis.successor())),
        medium.extent.has(neighbour(half, cell, axis.predecessor())),
        target[medium.extent.slot(cell)] == wave.value(half, axis, cell, step),
        forall|at: Cell|
            at == cell || at == neighbour(half, cell, axis.successor())
                ==> field_c[#[trigger] medium.extent.slot(at)] == wave.value(
                read_by(half),
                axis.predecessor(),
                at,
                read_at(half, step),
            ),
        forall|at: Cell|
            at == cell || at == neighbour(half, cell, axis.predecessor())
                ==> field_b[#[trigger] medium.extent.slot(at)] == wave.value(
                read_by(half),
                axis.successor(),
                at,
                read_at(half, step),
            ),
    ensures
        medium.updated(half, Direction::Forward, axis, target, field_b, field_c, cell)
            == wave.value(half, axis, cell, step + 1),
{
    axes_cycle(axis);
    let (b, c) = (axis.successor(), axis.predecessor());
    let spot = sampled(half, axis, cell, step).later(1);
    let slope = (wave.slope)(spot);
    let amplitude = (wave.amplitude)(half, axis);
    let gain = medium.gain(half, cell);
    let loss = medium.loss(half, axis, cell);
    let own = target[medium.extent.slot(cell)];
    let near_b = neighbour(half, cell, b);
    let near_c = neighbour(half, cell, c);
    assert(field_c[medium.extent.slot(cell)] == wave.value(
        read_by(half),
        c,
        cell,
        read_at(half, step),
    ));
    assert(field_b[medium.extent.slot(cell)] == wave.value(
        read_by(half),
        b,
        cell,
        read_at(half, step),
    ));
    assert(field_c[medium.extent.slot(near_b)] == wave.value(
        read_by(half),
        c,
        near_b,
        read_at(half, step),
    ));
    assert(field_b[medium.extent.slot(near_c)] == wave.value(
        read_by(half),
        b,
        near_c,
        read_at(half, step),
    ));
    lemma_wave_derivative(medium, wave, half, axis, c, b, field_c, cell, step);
    lemma_wave_derivative(medium, wave, half, axis, b, c, field_b, cell, step);
    let (p, q) = (
        share_of_curl(medium, wave, half, c, b, cell),
        share_of_curl(medium, wave, half, b, c, cell),
    );
    let m = minus(p, q);
    multiply_spreads_over_difference(slope, p, q);
    let curl = medium.curl(half, axis, field_b, field_c, cell);
    assert(curl == times(slope, m));
    // push = gain·(slope·m) = slope·(gain·m).
    let push = times(gain, curl);
    multiply_regroups(gain, slope, m);
    multiply_commutes(gain, slope);
    multiply_regroups(slope, gain, m);
    assert(push == times(slope, times(gain, m)));
    // What the wave itself does over the step.
    assert(sampled(half, axis, cell, step + 1) == spot.later(1));
    assert(sampled(half, axis, cell, step) == spot.later(-1));
    let (after, before) = ((wave.crest)(spot.later(1)), (wave.crest)(spot.later(-1)));
    let turn = times(slope, wave.during);
    assert(minus(after, before) == negative(turn));
    multiply_spreads_over_difference(amplitude, after, before);
    negatives(amplitude, turn);
    multiply_regroups(amplitude, slope, wave.during);
    multiply_commutes(amplitude, slope);
    multiply_regroups(slope, amplitude, wave.during);
    let tied = times(amplitude, wave.during);
    assert(times(amplitude, turn) == times(slope, tied));
    let change = minus(times(amplitude, after), times(amplitude, before));
    assert(change == negative(times(slope, tied)));
    lemma_difference(times(amplitude, after), times(amplitude, before));
    // And the update does the same.
    assert(medium.ties(wave, half, axis, cell));
    assert(takes_nothing(loss));
    let less = minus(number::<V>(1), loss);
    let more = plus(number::<V>(1), loss);
    assert(times(less, own) == own);
    assert(over(minus(own, push), more) == minus(own, push));
    assert(over(plus(own, push), more) == plus(own, push));
    assert(medium.writes(half, axis, cell));
    match half {
        Half::Magnetic => {
            take_away(own, push);
        },
        Half::Electric => {
            negatives(slope, times(gain, m));
            negatives(push, push);
        },
    }
}

/// Whether a cell is at least so many cells away from every wall.
pub open spec fn clear_of_walls(extent: Extent, margin: int, cell: Cell) -> bool {
    &&& margin <= cell.x < extent.x - margin
    &&& margin <= cell.y < extent.y - margin
    &&& margin <= cell.z < extent.z - margin
}

/// Whether fields hold a wave wherever they are clear of the walls.
pub open spec fn holds_wave<V: Scalar>(
    extent: Extent,
    wave: Wave<V>,
    state: State<V>,
    margin: int,
) -> bool {
    &&& forall|axis: Axis, cell: Cell|
        clear_of_walls(extent, margin, cell) ==> #[trigger] state.electric[axis.position()][
            extent.slot(cell)
        ] == wave.value(Half::Electric, axis, cell, state.step)
    &&& forall|axis: Axis, cell: Cell|
        clear_of_walls(extent, margin, cell) ==> #[trigger] state.magnetic[axis.position()][
            extent.slot(cell)
        ] == wave.value(Half::Magnetic, axis, cell, state.step)
}

proof fn lemma_component_swept<V: Scalar, W: Scalar, N: Numerics<V, W>>(
    setup: Setup<V, W, N>,
    half: Half,
    field: Seq<Seq<V>>,
    other: Seq<Seq<V>>,
    axis: Axis,
    cell: Cell,
)
    requires
        setup.medium.extent == setup.grid.extent,
        setup.grid.extent.has(cell),
    ensures
        setup.swept(half, Direction::Forward, field, other)[axis.position()][
            setup.grid.extent.slot(cell)
        ] == setup.medium.updated(
            half,
            Direction::Forward,
            axis,
            field[axis.position()],
            other[axis.successor().position()],
            other[axis.predecessor().position()],
            cell,
        ),
{
    slot_in_range(setup.grid.extent, cell);
    cell_of_slot(setup.grid.extent, cell);
    match axis {
        Axis::X => {},
        Axis::Y => {},
        Axis::Z => {},
    }
}

/// A step carries a wave of the grid's own: where the fields held it before, they
/// hold it a step on, one cell further from the walls.
pub proof fn step_carries_the_wave<V: Scalar, W: Scalar, N: Numerics<V, W>>(
    setup: Setup<V, W, N>,
    wave: Wave<V>,
    state: State<V>,
    margin: int,
)
    requires
        ring::<V>(),
        wave.rolls(),
        setup.medium.takes_nothing(),
        setup.medium.carries_wave(wave),
        setup.medium.extent == setup.grid.extent,
        setup.sources@.len() == 0,
        margin >= 0,
        holds_wave(setup.grid.extent, wave, state, margin),
    ensures
        holds_wave(setup.grid.extent, wave, setup.advanced(state), margin + 1),
{
    let extent = setup.grid.extent;
    let medium = setup.medium;
    let after = setup.advanced(state);
    let (e, h, m) = (state.electric, state.magnetic, after.magnetic);
    let step = state.step;
    // H reads a cell ahead, so it is right up to one cell further from the far
    // walls.
    assert forall|axis: Axis, cell: Cell|
        extent.has(cell) && clear_of_walls(extent, margin, cell) && clear_of_walls(
            extent,
            margin,
            cell.moved(Axis::X, 1),
        ) && clear_of_walls(extent, margin, cell.moved(Axis::Y, 1)) && clear_of_walls(
            extent,
            margin,
            cell.moved(Axis::Z, 1),
        ) implies #[trigger] m[axis.position()][extent.slot(cell)] == wave.value(
        Half::Magnetic,
        axis,
        cell,
        step + 1,
    ) by {
        let (b, c) = (axis.successor(), axis.predecessor());
        lemma_component_swept(setup, Half::Magnetic, h, e, axis, cell);
        assert(state.magnetic[axis.position()][extent.slot(cell)] == wave.value(
            Half::Magnetic,
            axis,
            cell,
            step,
        ));
        assert forall|at: Cell| at == cell || at == neighbour(Half::Magnetic, cell, b) implies e[
            c.position()
        ][#[trigger] extent.slot(at)] == wave.value(Half::Electric, c, at, step) by {
            assert(clear_of_walls(extent, margin, at));
            assert(state.electric[c.position()][extent.slot(at)] == wave.value(
                Half::Electric,
                c,
                at,
                step,
            ));
        }
        assert forall|at: Cell| at == cell || at == neighbour(Half::Magnetic, cell, c) implies e[
            b.position()
        ][#[trigger] extent.slot(at)] == wave.value(Half::Electric, b, at, step) by {
            assert(clear_of_walls(extent, margin, at));
            assert(state.electric[b.position()][extent.slot(at)] == wave.value(
                Half::Electric,
                b,
                at,
                step,
            ));
        }
        lemma_wave_passes(
            medium,
            wave,
            Half::Magnetic,
            axis,
            h[axis.position()],
            e[b.position()],
            e[c.position()],
            cell,
            step,
        );
    }
    // E reads a cell behind, so the near walls cost it one cell as well.
    assert forall|axis: Axis, cell: Cell| clear_of_walls(extent, margin + 1, cell) implies
        #[trigger] after.electric[axis.position()][extent.slot(cell)] == wave.value(
        Half::Electric,
        axis,
        cell,
        step + 1,
    ) by {
        let (b, c) = (axis.successor(), axis.predecessor());
        lemma_component_swept(setup, Half::Electric, e, m, axis, cell);
        assert(state.electric[axis.position()][extent.slot(cell)] == wave.value(
            Half::Electric,
            axis,
            cell,
            step,
        ));
        assert forall|at: Cell| at == cell || at == neighbour(Half::Electric, cell, b) implies m[
            c.position()
        ][#[trigger] extent.slot(at)] == wave.value(Half::Magnetic, c, at, step + 1) by {
            assert(extent.has(at));
            assert(m[c.position()][extent.slot(at)] == wave.value(
                Half::Magnetic,
                c,
                at,
                step + 1,
            ));
        }
        assert forall|at: Cell| at == cell || at == neighbour(Half::Electric, cell, c) implies m[
            b.position()
        ][#[trigger] extent.slot(at)] == wave.value(Half::Magnetic, b, at, step + 1) by {
            assert(extent.has(at));
            assert(m[b.position()][extent.slot(at)] == wave.value(
                Half::Magnetic,
                b,
                at,
                step + 1,
            ));
        }
        lemma_wave_passes(
            medium,
            wave,
            Half::Electric,
            axis,
            e[axis.position()],
            m[b.position()],
            m[c.position()],
            cell,
            step,
        );
    }
    assert forall|axis: Axis, cell: Cell| clear_of_walls(extent, margin + 1, cell) implies
        #[trigger] after.magnetic[axis.position()][extent.slot(cell)] == wave.value(
        Half::Magnetic,
        axis,
        cell,
        after.step,
    ) by {
        assert(m[axis.position()][extent.slot(cell)] == wave.value(
            Half::Magnetic,
            axis,
            cell,
            step + 1,
        ));
    }
}

/// A run carries a wave of the grid's own: seeded everywhere, it is still there
/// after any number of steps, as many cells away from the walls.
pub proof fn runs_carry_the_wave<V: Scalar, W: Scalar, N: Numerics<V, W>>(
    setup: Setup<V, W, N>,
    wave: Wave<V>,
    state: State<V>,
    n: nat,
)
    requires
        ring::<V>(),
        wave.rolls(),
        setup.medium.takes_nothing(),
        setup.medium.carries_wave(wave),
        setup.medium.extent == setup.grid.extent,
        setup.sources@.len() == 0,
        holds_wave(setup.grid.extent, wave, state, 0),
    ensures
        holds_wave(setup.grid.extent, wave, setup.run(state, n), n as int),
    decreases n,
{
    if n > 0 {
        runs_carry_the_wave(setup, wave, state, (n - 1) as nat);
        step_carries_the_wave(setup, wave, setup.run(state, (n - 1) as nat), n - 1);
    }
}

/// A cosine of a phase that falls along the axes and rises with time.
pub open spec fn cosine<V: Scalar, N: Elementary<V>>(
    math: &N,
    amplitude: spec_fn(Half, Axis) -> V,
    phase: spec_fn(Spot) -> V,
    half_across: spec_fn(Axis) -> V,
    half_during: V,
) -> Wave<V> {
    Wave {
        amplitude,
        crest: |spot: Spot| math.cos_of(phase(spot)),
        slope: |spot: Spot| math.sin_of(phase(spot)),
        across: |axis: Axis| times(number::<V>(2), math.sin_of(half_across(axis))),
        during: times(number::<V>(2), math.sin_of(half_during)),
    }
}

/// Where sines and cosines are those of trigonometry, a cosine is a wave whose
/// centred differences are multiples of the sine.
pub proof fn cosines_roll<V: Scalar, N: Elementary<V>>(
    math: &N,
    amplitude: spec_fn(Half, Axis) -> V,
    phase: spec_fn(Spot) -> V,
    half_across: spec_fn(Axis) -> V,
    half_during: V,
)
    requires
        ring::<V>(),
        forall|x: V, h: V|
            minus(#[trigger] math.cos_of(minus(x, h)), math.cos_of(plus(x, h))) == times(
                math.sin_of(x),
                times(number::<V>(2), math.sin_of(h)),
            ),
        forall|spot: Spot, axis: Axis|
            phase(#[trigger] spot.moved(axis, 1)) == minus(phase(spot), half_across(axis)),
        forall|spot: Spot, axis: Axis|
            phase(#[trigger] spot.moved(axis, -1)) == plus(phase(spot), half_across(axis)),
        forall|spot: Spot| phase(#[trigger] spot.later(1)) == plus(phase(spot), half_during),
        forall|spot: Spot| phase(#[trigger] spot.later(-1)) == minus(phase(spot), half_during),
    ensures
        cosine(math, amplitude, phase, half_across, half_during).rolls(),
{
    let wave = cosine(math, amplitude, phase, half_across, half_during);
    assert forall|spot: Spot, axis: Axis|
        minus(
            (wave.crest)(#[trigger] spot.moved(axis, 1)),
            (wave.crest)(spot.moved(axis, -1)),
        ) == times((wave.slope)(spot), (wave.across)(axis)) by {
        assert(phase(spot.moved(axis, -1)) == plus(phase(spot), half_across(axis)));
        let low = math.cos_of(minus(phase(spot), half_across(axis)));
    }
    assert forall|spot: Spot|
        minus((wave.crest)(#[trigger] spot.later(1)), (wave.crest)(spot.later(-1)))
            == negative(times((wave.slope)(spot), wave.during)) by {
        assert(phase(spot.later(-1)) == minus(phase(spot), half_during));
        let before = math.cos_of(minus(phase(spot), half_during));
        let after = math.cos_of(plus(phase(spot), half_during));
        negatives(before, after);
    }
}

} // verus!
