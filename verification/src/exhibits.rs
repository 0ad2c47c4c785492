//! What the built-in scenes show, apart from the numbers they are put together from.

use crate::algebra::{
    add_commutes, add_nothing, add_regroups, multiply_commutes, multiply_spreads, negatives,
    take_away,
};
use crate::grid::{light_speed, Axis};
use crate::numerics::Numerics;
use crate::order::{factors_come_off, field, parts};
use crate::presets::{launcher, packet};
use crate::scalar::{
    below, half, lesser_of, minus, negative, number, over, plus, times, Scalar,
};
use crate::scene::Scene;
use crate::source::Source;
use crate::timing::frequencies_span_their_cells;
use vstd::prelude::*;

verus! {

/// Whether a source is a sheet across `x` that launches a packet of two cycles along
/// it: transverse, a fifth of the way in from the low wall, and as wide as a quarter
/// of the smaller side.
pub open spec fn launches<V: Scalar, W: Scalar, N: Numerics<V, W>>(
    math: &N,
    scene: Scene<V, W>,
    source: Source<V>,
) -> bool {
    let size = scene.grid.size_along(math, Axis::X);
    let side = lesser_of(
        scene.grid.size_along(math, Axis::Y),
        scene.grid.size_along(math, Axis::Z),
    );
    &&& source.shape is Sheet
    &&& source.shape->Sheet_axis == Axis::X
    &&& source.polarization == Axis::Z
    &&& source.amplitude == number::<V>(1)
    &&& plus(source.shape->Sheet_offset, times(half::<V>(), size)) == times(
        math.decimal_of(2, 1),
        size,
    )
    &&& plus(
        plus(source.shape->waist, source.shape->waist),
        plus(source.shape->waist, source.shape->waist),
    ) == side
    &&& source.waveform is GaussianPulse
    &&& source.waveform->duration_cycles == number::<V>(2)
}

/// Whether a carrier has a number of the coarsest cells to the wavelength, in a
/// medium of the given index.
pub open spec fn spans<V: Scalar, W: Scalar, N: Numerics<V, W>>(
    math: &N,
    scene: Scene<V, W>,
    source: Source<V>,
    cells: V,
    index: V,
) -> bool {
    times(
        source.waveform.carrier(),
        times(times(cells, index), scene.grid.coarsest_anywhere(math)),
    ) == light_speed::<V, N>(math)
}

proof fn lemma_launches<V: Scalar, W: Scalar, N: Numerics<V, W>>(
    math: &N,
    scene: Scene<V, W>,
    source: Source<V>,
    cells: V,
)
    requires
        field::<V>(),
        plus::<V>(math.decimal_of(3, 1), math.decimal_of(2, 1)) == half::<V>(),
        plus::<V>(math.decimal_of(25, 2), math.decimal_of(25, 2)) == half::<V>(),
        source == launcher(
            math,
            scene.grid,
            packet(math, scene.grid, cells),
        ),
        below(number::<V>(0), times(cells, scene.grid.coarsest_anywhere(math))),
    ensures
        launches(math, scene, source),
        times(
            source.waveform.carrier(),
            times(cells, scene.grid.coarsest_anywhere(math)),
        ) == light_speed::<V, N>(math),
{
    let size = scene.grid.size_along(math, Axis::X);
    let side = lesser_of(
        scene.grid.size_along(math, Axis::Y),
        scene.grid.size_along(math, Axis::Z),
    );
    let (three, two): (V, V) = (math.decimal_of(3, 1), math.decimal_of(2, 1));
    let quarter: V = math.decimal_of(25, 2);
    // -3/10·size + (3/10 + 2/10)·size = 2/10·size.
    negatives(three, size);
    multiply_commutes(plus(three, two), size);
    multiply_spreads(size, three, two);
    multiply_commutes(size, three);
    multiply_commutes(size, two);
    let (a, b) = (times(three, size), times(two, size));
    add_regroups(negative(a), a, b);
    add_commutes(negative(a), a);
    take_away(a, a);
    add_nothing(b);
    // Four quarters.
    let waist = times(quarter, side);
    multiply_commutes(quarter, side);
    multiply_spreads(side, quarter, quarter);
    let part = times(side, half::<V>());
    multiply_spreads(side, half::<V>(), half::<V>());
    multiply_commutes(side, plus(half::<V>(), half::<V>()));
    multiply_spreads(half::<V>(), side, side);
    parts(side, side);
    multiply_commutes(half::<V>(), side);
    frequencies_span_their_cells(math, scene.grid, cells);
}

/// The photon is a packet alone in free space, sixteen cells to the wavelength.
pub proof fn the_photon_is_a_packet_in_free_space<V: Scalar, W: Scalar, N: Numerics<V, W>>(
    math: &N,
    scene: Scene<V, W>,
)
    requires
        field::<V>(),
        plus::<V>(math.decimal_of(3, 1), math.decimal_of(2, 1)) == half::<V>(),
        plus::<V>(math.decimal_of(25, 2), math.decimal_of(25, 2)) == half::<V>(),
        below(number::<V>(0), times(number::<V>(16), scene.grid.coarsest_anywhere(math))),
        scene.is_photon(math),
    ensures
        scene.shapes@.len() == 0,
        scene.sources@.len() == 1,
        launches(math, scene, scene.sources@[0]),
        spans(math, scene, scene.sources@[0], number::<V>(16), number::<V>(1)),
{
    lemma_launches(math, scene, scene.sources@[0], number::<V>(16));
    parts(number::<V>(16), number::<V>(16));
}

/// The slab starts in the middle of the domain and is a quarter of it thick, and the
/// packet that meets it has sixteen cells to the wavelength inside the glass too.
pub proof fn the_slab_starts_in_the_middle<V: Scalar, W: Scalar, N: Numerics<V, W>>(
    math: &N,
    scene: Scene<V, W>,
    index: V,
)
    requires
        field::<V>(),
        plus::<V>(math.decimal_of(3, 1), math.decimal_of(2, 1)) == half::<V>(),
        plus::<V>(math.decimal_of(25, 2), math.decimal_of(25, 2)) == half::<V>(),
        below(
            number::<V>(0),
            times(times(number::<V>(16), index), scene.grid.coarsest_anywhere(math)),
        ),
        below(number::<V>(0), number::<V>(4)),
        below(number::<V>(0), number::<V>(8)),
        plus(number::<V>(4), number::<V>(4)) == number::<V>(8),
        scene.is_slab(math, index),
    ensures
        scene.shapes@.len() == 1,
        scene.shapes@[0] is Slab,
        ({
            let slab = scene.shapes@[0];
            let size = scene.grid.size_along(math, Axis::X);
            &&& slab->axis == Axis::X
            &&& minus(slab->offset, times(half::<V>(), slab->thickness)) == number::<V>(0)
            &&& times(slab->thickness, number::<V>(4)) == size
        }),
        scene.sources@.len() == 1,
        launches(math, scene, scene.sources@[0]),
        spans(math, scene, scene.sources@[0], number::<V>(16), index),
{
    let size = scene.grid.size_along(math, Axis::X);
    let (four, eight) = (number::<V>(4), number::<V>(8));
    let (offset, thickness) = (over(size, eight), over(size, four));
    lemma_launches(math, scene, scene.sources@[0], times(number::<V>(16), index));
    parts(size, four);
    parts(size, eight);
    // offset·8 = (offset + offset)·4 = thickness·4.
    multiply_spreads(offset, four, four);
    multiply_commutes(plus(offset, offset), four);
    multiply_spreads(four, offset, offset);
    multiply_commutes(four, offset);
    factors_come_off(plus(offset, offset), thickness, four);
    parts(offset, offset);
    take_away(offset, offset);
}

/// The cavity is a closed conducting box, empty but for a dipole along `z` a sixth of
/// its length before the middle.
pub proof fn the_cavity_rings_off_centre<V: Scalar, W: Scalar, N: Numerics<V, W>>(
    math: &N,
    scene: Scene<V, W>,
)
    requires
        field::<V>(),
        below(number::<V>(0), times(number::<V>(16), scene.grid.coarsest_anywhere(math))),
        below(number::<V>(0), number::<V>(6)),
        scene.is_cavity(math),
    ensures
        scene.boundary is Pec,
        scene.shapes@.len() == 0,
        scene.sources@.len() == 1,
        ({
            let dipole = scene.sources@[0];
            let at = dipole.start();
            &&& dipole.shape is Point
            &&& dipole.polarization == Axis::Z
            &&& times(at[0], number::<V>(6)) == negative(scene.grid.size_along(math, Axis::X))
            &&& at[1] == number::<V>(0) && at[2] == number::<V>(0)
            &&& dipole.shape->velocity@ == seq![
                number::<V>(0),
                number::<V>(0),
                number::<V>(0),
            ]
            &&& dipole.waveform is Ricker
            &&& spans(math, scene, dipole, number::<V>(16), number::<V>(1))
        }),
{
    let size = scene.grid.size_along(math, Axis::X);
    parts(negative(size), number::<V>(6));
    parts(number::<V>(16), number::<V>(16));
    frequencies_span_their_cells(math, scene.grid, number::<V>(16));
    assert(scene.sources@[0].shape->velocity@ =~= seq![
        number::<V>(0),
        number::<V>(0),
        number::<V>(0),
    ]);
}

} // verus!
