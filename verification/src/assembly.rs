//! What a setup built from a scene is good for.
//!
//! The pieces of a setup come from different places: gains from the grid, coefficients
//! from the materials, weights from the boxes the samples stand in. That they fit
//! together is what makes a box without losses keep its energy, and a source act at
//! the time the fields have got to.

use crate::absorber::{
    counts_exactly, keeps_order, layers_take_what_they_are_designed_for, loss_at_the_walls,
};
use crate::algebra::{
    cancels, multiply_by_nothing, multiply_commutes, multiply_regroups, multiply_spreads,
    negatives, ring, take_away,
};
use crate::conservation::{box_measure, graded_boxes_are_balanced, Measure};
use crate::grid::{permeability, permittivity, Axis};
use crate::lattice::{axes_cycle, cell_of_slot, slot_in_range, Cell};
use crate::material::{losses_are_what_a_step_conducts, Material};
use crate::numerics::Numerics;
use crate::order::{factors_come_off, field, parts};
use crate::placement::{counts_up, whole};
use crate::scalar::{
    at_most, below, minus, negative, number, over, plus, same, times, Scalar,
};
use crate::scene::{later_shapes_win, unpainted_is_vacuum, Scene};
use crate::setup::{Setup, State};
use crate::source::Injection;
use crate::stencil::{Direction, Half};
use vstd::prelude::*;

verus! {

/// The material a cell of a setup is made of.
pub open spec fn made_of<V: Scalar, W: Scalar, N: Numerics<V, W>>(
    setup: Setup<V, W, N>,
    cell: Cell,
) -> Material<V> {
    setup.materials.materials@[setup.medium.material_index@[setup.grid.extent.slot(
        cell,
    )] as int]
}

/// Samples weighed as energy weighs them: by the box each stands for, in coarse
/// cells, and by what its material makes of a square.
pub open spec fn energy_measure<V: Scalar, W: Scalar, N: Numerics<V, W>>(
    setup: Setup<V, W, N>,
) -> Measure<V> {
    box_measure(
        |along: Axis, p: int|
            over(setup.grid.along(along).primary@[p], setup.grid.recipe.cell_size),
        |along: Axis, p: int|
            over(setup.grid.along(along).dual@[p], setup.grid.recipe.cell_size),
        |half: Half, cell: Cell|
            match half {
                Half::Electric => made_of(setup, cell).relative_permittivity,
                Half::Magnetic => made_of(setup, cell).relative_permeability,
            },
    )
}

/// The boxes of the measure are those that energy counts.
pub proof fn the_measure_is_that_of_energy<V: Scalar, W: Scalar, N: Numerics<V, W>>(
    setup: Setup<V, W, N>,
    half: Half,
    axis: Axis,
    cell: Cell,
)
    ensures
        (energy_measure(setup).volume)(half, axis, cell) == setup.share(half, axis, cell),
{
}

/// A width in coarse cells times the gain across it is what light covers in a step,
/// in coarse cells.
proof fn lemma_width_times_gain<V: Scalar>(width: V, unit: V, reach: V)
    requires
        field::<V>(),
        below(number::<V>(0), width),
        below(number::<V>(0), unit),
    ensures
        times(over(width, unit), over(reach, width)) == over(reach, unit),
{
    let (a, b) = (over(width, unit), over(reach, width));
    parts(width, unit);
    parts(reach, width);
    parts(reach, unit);
    // (a·b)·unit = (a·unit)·b = width·b = reach.
    multiply_regroups(a, b, unit);
    multiply_commutes(b, unit);
    multiply_regroups(a, unit, b);
    multiply_commutes(width, b);
    factors_come_off(times(a, b), over(reach, unit), unit);
}

/// A box built from a scene without conductors weighs both fields so that neither
/// gains on the other, graded or not and whatever it is filled with: what
/// [`crate::conservation`] shows to be kept is its energy.
pub proof fn built_boxes_are_balanced<V: Scalar, W: Scalar, N: Numerics<V, W>>(
    setup: Setup<V, W, N>,
    scene: Scene<V, W>,
)
    requires
        field::<V>(),
        setup.describes(scene),
        scene.grid.valid(),
        below(number::<V>(0), scene.grid.recipe.cell_size),
        setup.grid.recipe.cell_size == scene.grid.recipe.cell_size,
        forall|axis: Axis, i: int|
            0 <= i < scene.grid.extent.along(axis) ==> {
                &&& below(number::<V>(0), #[trigger] scene.grid.along(axis).primary@[i])
                &&& below(number::<V>(0), scene.grid.along(axis).dual@[i])
            },
        forall|m: int|
            #![trigger scene.materials.materials@[m]]
            0 <= m < scene.materials.materials@.len() ==> {
                &&& !setup.math.infinite_at(scene.materials.materials@[m].conductivity)
                &&& below(
                    number::<V>(0),
                    scene.materials.materials@[m].relative_permittivity,
                )
                &&& below(
                    number::<V>(0),
                    scene.materials.materials@[m].relative_permeability,
                )
            },
    ensures
        setup.medium.balanced(energy_measure(setup)),
{
    let grid = scene.grid;
    let medium = setup.medium;
    let unit = grid.recipe.cell_size;
    let reach = grid.travel(&setup.math);
    let primary = |along: Axis, p: int|
        over(setup.grid.along(along).primary@[p], setup.grid.recipe.cell_size);
    let dual = |along: Axis, p: int|
        over(setup.grid.along(along).dual@[p], setup.grid.recipe.cell_size);
    let stiffness = |half: Half, cell: Cell|
        match half {
            Half::Electric => made_of(setup, cell).relative_permittivity,
            Half::Magnetic => made_of(setup, cell).relative_permeability,
        };
    let travel = over(reach, unit);
    assert forall|axis: Axis, p: int| 0 <= p < medium.extent.along(axis) implies times(
        #[trigger] primary(axis, p),
        medium.magnetic_gains@[axis.position()]@[p],
    ) == travel by {
        assert(grid.along(axis).valid());
        assert(setup.grid.along(axis).valid());
        assert(medium.magnetic_gains@[axis.position()]@ == grid.gains_over(
            &setup.math,
            grid.along(axis).primary@,
        ));
        assert(below(number::<V>(0), grid.along(axis).primary@[p]));
        lemma_width_times_gain(grid.along(axis).primary@[p], unit, reach);
    }
    assert forall|axis: Axis, p: int| 0 <= p < medium.extent.along(axis) implies times(
        #[trigger] dual(axis, p),
        medium.electric_gains@[axis.position()]@[p],
    ) == travel by {
        assert(grid.along(axis).valid());
        assert(setup.grid.along(axis).valid());
        assert(medium.electric_gains@[axis.position()]@ == grid.gains_over(
            &setup.math,
            grid.along(axis).dual@,
        ));
        assert(below(number::<V>(0), grid.along(axis).primary@[p]));
        lemma_width_times_gain(grid.along(axis).dual@[p], unit, reach);
    }
    assert forall|half: Half, cell: Cell, x: V| medium.extent.has(cell) implies #[trigger] times(
        stiffness(half, cell),
        times(medium.gain(half, cell), x),
    ) == x by {
        slot_in_range(medium.extent, cell);
        let m = medium.material_index@[medium.extent.slot(cell)] as int;
        let material = scene.materials.materials@[m];
        assert(medium.coefficients@[m] == material.coefficients_over(
            &setup.math,
            grid.step_time(&setup.math),
        ));
        let weight = stiffness(half, cell);
        let gain = medium.gain(half, cell);
        parts(number::<V>(1), weight);
        multiply_regroups(weight, gain, x);
        multiply_commutes(weight, gain);
        parts(x, x);
    }
    graded_boxes_are_balanced(medium, primary, dual, stiffness, travel);
}

/// Time goes by one time step per step.
pub proof fn every_step_takes_a_time_step<V: Scalar, W: Scalar, N: Numerics<V, W>>(
    setup: Setup<V, W, N>,
    step: int,
)
    requires
        ring::<V>(),
        counts_up::<V, N>(&setup.math),
        whole::<V, N>(&setup.math, 0) == number::<V>(0),
        0 <= step < u64::MAX,
    ensures
        setup.time_after(0) == number::<V>(0),
        setup.time_after(step + 1) == plus(
            setup.time_after(step),
            setup.grid.step_time(&setup.math),
        ),
{
    let one = number::<V>(1);
    let tick = setup.grid.step_time(&setup.math);
    let count = whole::<V, N>(&setup.math, step as u64);
    multiply_by_nothing(tick);
    assert(whole::<V, N>(&setup.math, (step as u64 + 1) as u64) == plus(count, one));
    multiply_commutes(plus(count, one), tick);
    multiply_spreads(tick, count, one);
    multiply_commutes(tick, count);
    multiply_commutes(tick, one);
}

/// A step puts a lone source into `E` at the time the step ends at: what it adds to
/// the update is what the source gives at the time of the state it leads to.
pub proof fn sources_act_at_the_end_of_a_step<V: Scalar, W: Scalar, N: Numerics<V, W>>(
    setup: Setup<V, W, N>,
    state: State<V>,
    cell: Cell,
)
    requires
        ring::<V>(),
        forall|x: V| #[trigger] times(number::<V>(1), x) == x,
        same(number::<V>(0), number::<V>(0)),
        setup.consistent(),
        setup.sources@.len() == 1,
        setup.sources@[0].shape is Point,
        state.shaped(setup.cells()),
        setup.grid.extent.has(cell),
        ({
            let after = setup.advanced(state);
            let source = setup.sources@[0].electric_injection(
                &setup.math,
                setup.grid,
                setup.time_after(after.step),
            );
            !same(source.value, number::<V>(0)) && source.covers(cell)
        }),
    ensures
        ({
            let after = setup.advanced(state);
            let axis = setup.sources@[0].polarization;
            let slot = setup.grid.extent.slot(cell);
            &&& after.step == state.step + 1
            &&& after.electric[axis.position()][slot] == plus(
                setup.swept(
                    Half::Electric,
                    Direction::Forward,
                    state.electric,
                    after.magnetic,
                )[axis.position()][slot],
                setup.sources@[0].electric_injection(
                    &setup.math,
                    setup.grid,
                    setup.time_after(after.step),
                ).value,
            )
        }),
{
    let (zero, one) = (number::<V>(0), number::<V>(1));
    let after = setup.advanced(state);
    let time = setup.time_after(state.step + 1);
    let source = setup.sources@[0];
    let axis = source.polarization;
    let e = source.electric_injection(&setup.math, setup.grid, time);
    let h = source.magnetic_injection(&setup.math, setup.grid, time);
    let extent = setup.grid.extent;
    slot_in_range(extent, cell);
    cell_of_slot(extent, cell);
    let swept = setup.swept(Half::Electric, Direction::Forward, state.electric, after.magnetic);
    // Unfold the one source: its part in E, and nothing for H.
    reveal_with_fuel(Setup::injected, 3);
    let driven = setup.driven(swept, e, Half::Electric, Direction::Forward);
    assert(setup.injected(swept, Half::Electric, Direction::Forward, time, 0) == swept);
    assert(!setup.acts(h, Half::Electric));
    assert(after.electric == driven);
    assert(setup.acts(e, Half::Electric));
    assert(setup.weight(e, cell) == one);
    multiply_commutes(e.value, one);
}

/// In a box built from a scene, a cell wears the material of the last shape that
/// holds its centre, and is empty where none does; and sources are weighed there by
/// its centre.
pub proof fn built_cells_wear_their_shapes<V: Scalar, W: Scalar, N: Numerics<V, W>>(
    setup: Setup<V, W, N>,
    scene: Scene<V, W>,
    cell: Cell,
    k: int,
)
    requires
        setup.describes(scene),
        scene.grid.valid(),
        scene.grid.extent.has(cell),
    ensures
        ({
            let index = setup.medium.material_index@[setup.grid.extent.slot(cell)];
            let centre = seq![
                scene.grid.center_along(&setup.math, Axis::X, cell.x),
                scene.grid.center_along(&setup.math, Axis::Y, cell.y),
                scene.grid.center_along(&setup.math, Axis::Z, cell.z),
            ];
            &&& (0 <= k < scene.shapes@.len() && scene.shapes@[k].holds(centre) && forall|j: int|
                k < j < scene.shapes@.len() ==> !(#[trigger] scene.shapes@[j]).holds(centre))
                ==> index == scene.shapes@[k].paint()
            &&& (forall|j: int|
                0 <= j < scene.shapes@.len() ==> !(#[trigger] scene.shapes@[j]).holds(centre))
                ==> index == 0
            &&& forall|injection: Injection<V>| #[trigger]
                setup.weight(injection, cell) == injection.weight_at(
                    &setup.math,
                    centre[0],
                    centre[1],
                    centre[2],
                )
        }),
{
    let extent = scene.grid.extent;
    slot_in_range(extent, cell);
    cell_of_slot(extent, cell);
    let centre = scene.center(&setup.math, cell);
    let shapes = scene.shapes@;
    assert(scene.grid.along(Axis::X).valid() && scene.grid.along(Axis::Y).valid()
        && scene.grid.along(Axis::Z).valid());
    assert(setup.centers@[Axis::X.position()]@ == scene.grid.centers_along(
        &setup.math,
        Axis::X,
    ));
    assert(setup.centers@[Axis::Y.position()]@ == scene.grid.centers_along(
        &setup.math,
        Axis::Y,
    ));
    assert(setup.centers@[Axis::Z.position()]@ == scene.grid.centers_along(
        &setup.math,
        Axis::Z,
    ));
    if 0 <= k < shapes.len() && shapes[k].holds(centre) && forall|j: int|
        k < j < shapes.len() ==> !(#[trigger] shapes[j]).holds(centre) {
        later_shapes_win(shapes, centre, k);
    }
    if forall|j: int| 0 <= j < shapes.len() ==> !(#[trigger] shapes[j]).holds(centre) {
        unpainted_is_vacuum(shapes, centre, shapes.len() as int);
    }
}

/// In a box built from a scene, what a cell loses in a step is what its material
/// conducts while the clock of the run goes on by one step.
pub proof fn built_cells_lose_what_a_step_conducts<V: Scalar, W: Scalar, N: Numerics<V, W>>(
    setup: Setup<V, W, N>,
    scene: Scene<V, W>,
    cell: Cell,
    step: int,
    tick: V,
)
    requires
        field::<V>(),
        setup.describes(scene),
        counts_up::<V, N>(&setup.math),
        whole::<V, N>(&setup.math, 0) == number::<V>(0),
        0 <= step < u64::MAX,
        plus(setup.time_after(step), tick) == setup.time_after(step + 1),
        setup.grid.step_time(&setup.math) == scene.grid.step_time(&setup.math),
        setup.grid.extent.has(cell),
        ({
            let material = made_of(setup, cell);
            &&& !setup.math.infinite_at(material.conductivity)
            &&& below(number::<V>(0), material.relative_permittivity)
            &&& below(number::<V>(0), material.relative_permeability)
            &&& below(
                number::<V>(0),
                times(permittivity::<V, N>(&setup.math), material.relative_permittivity),
            )
            &&& below(
                number::<V>(0),
                times(permeability::<V, N>(&setup.math), material.relative_permeability),
            )
        }),
    ensures
        ({
            let material = made_of(setup, cell);
            let own = setup.medium.coefficients_at(cell);
            let (eps, mu) = (
                times(permittivity::<V, N>(&setup.math), material.relative_permittivity),
                times(permeability::<V, N>(&setup.math), material.relative_permeability),
            );
            &&& times(plus(own.electric_loss, own.electric_loss), eps) == times(
                material.conductivity,
                tick,
            )
            &&& times(plus(own.magnetic_loss, own.magnetic_loss), mu) == times(
                material.magnetic_loss,
                tick,
            )
            &&& times(own.electric_gain, material.relative_permittivity) == number::<V>(1)
            &&& times(own.magnetic_gain, material.relative_permeability) == number::<V>(1)
        }),
{
    let material = made_of(setup, cell);
    let extent = setup.grid.extent;
    slot_in_range(extent, cell);
    every_step_takes_a_time_step(setup, step);
    cancels(setup.time_after(step), tick, setup.grid.step_time(&setup.math));
    let m = setup.medium.material_index@[extent.slot(cell)] as int;
    assert(setup.medium.coefficients@[m] == material.coefficients_over(
        &setup.math,
        scene.grid.step_time(&setup.math),
    ));
    losses_are_what_a_step_conducts(&setup.math, material, scene.grid.step_time(&setup.math));
}

/// In a box built from a scene with an absorbing layer, what a wave meets at a wall
/// over all cells of the layer is the logarithm of the reflection asked for, at the
/// Courant number.
pub proof fn built_layers_take_what_was_asked<V: Scalar, W: Scalar, N: Numerics<V, W>>(
    setup: Setup<V, W, N>,
    scene: Scene<V, W>,
    axis: Axis,
)
    requires
        field::<V>(),
        setup.describes(scene),
        scene.boundary is Absorbing,
        0 < scene.boundary.depth(),
        keeps_order::<V, N>(&setup.math),
        counts_exactly::<V, N>(&setup.math),
        below(
            number::<V>(0),
            whole::<V, N>(&setup.math, scene.boundary.depth() as u64),
        ),
        at_most(
            number::<V>(0),
            whole::<V, N>(&setup.math, (scene.grid.extent.along(axis) - 1) as u64),
        ),
        scene.grid.valid(),
        setup.math.pow_of(number::<V>(1), number::<V>(3)) == number::<V>(1),
        plus(number::<V>(3), number::<V>(1)) == number::<V>(4),
        below(number::<V>(0), number::<V>(4)),
    ensures
        ({
            let layer = setup.medium.absorber.integer@[axis.position()]@;
            let cells = whole::<V, N>(&setup.math, scene.boundary.depth() as u64);
            let log = times(
                setup.math.ln_of(scene.boundary->target_reflection),
                scene.grid.courant,
            );
            &&& times(layer[0], cells) == negative(log)
            &&& times(layer[layer.len() - 1], cells) == negative(log)
        }),
{
    let n = scene.grid.extent.along(axis);
    let cells = whole::<V, N>(&setup.math, scene.boundary.depth() as u64);
    assert(scene.grid.along(axis).valid());
    parts(cells, cells);
    factors_come_off(over(cells, cells), number::<V>(1), cells);
    assert forall|x: V| #[trigger] times(x, number::<V>(1)) == x by {
        parts(x, x);
    }
    loss_at_the_walls(&setup.math, scene.boundary, scene.grid.courant, n);
    layers_take_what_they_are_designed_for(
        &setup.math,
        scene.boundary->thickness,
        scene.boundary->target_reflection,
        scene.grid.courant,
    );
    assert(setup.medium.absorber.integer@[axis.position()]@ == scene.boundary.integer_profile(
        &setup.math,
        scene.grid.courant,
        n,
    ));
}

/// An injection adds its value to every cell it covers, as much of it as its weight
/// there, and leaves the others alone; going back it takes the same out.
pub proof fn deposits_are_weighed<V: Scalar, W: Scalar, N: Numerics<V, W>>(
    setup: Setup<V, W, N>,
    before: Seq<V>,
    injection: Injection<V>,
    cell: Cell,
)
    requires
        field::<V>(),
        setup.grid.extent.has(cell),
    ensures
        ({
            let slot = setup.grid.extent.slot(cell);
            let added = times(setup.weight(injection, cell), injection.value);
            let forth = setup.deposited(before, injection, Direction::Forward)[slot];
            let back = setup.deposited(before, injection, Direction::Backward)[slot];
            &&& injection.covers(cell) ==> forth == plus(before[slot], added) && back == minus(
                before[slot],
                added,
            )
            &&& !injection.covers(cell) ==> forth == before[slot] && back == before[slot]
        }),
{
    let one = number::<V>(1);
    slot_in_range(setup.grid.extent, cell);
    cell_of_slot(setup.grid.extent, cell);
    let (value, weight) = (injection.value, setup.weight(injection, cell));
    parts(value, value);
    multiply_commutes(weight, value);
    negatives(one, value);
    negatives(value, weight);
    take_away(before[setup.grid.extent.slot(cell)], times(weight, value));
}

/// A step puts each correction of a lone plane wave in its place: the one into `H`
/// right after `H` is updated, so that the update of `E` reads it, and the one into
/// `E` after that; both as they are at the time the step ends at.
pub proof fn corrections_come_between_the_updates<V: Scalar, W: Scalar, N: Numerics<V, W>>(
    setup: Setup<V, W, N>,
    state: State<V>,
    axis: Axis,
    third: Axis,
)
    requires
        setup.sources@.len() == 1,
        setup.sources@[0].travels(axis, third),
        state.shaped(setup.cells()),
        ({
            let time = setup.time_after(state.step + 1);
            let source = setup.sources@[0];
            let e = source.electric_injection(&setup.math, setup.grid, time);
            let h = source.magnetic_injection(&setup.math, setup.grid, time);
            !same(e.value, number::<V>(0)) && !same(h.value, number::<V>(0))
        }),
    ensures
        ({
            let after = setup.advanced(state);
            let time = setup.time_after(after.step);
            let source = setup.sources@[0];
            let e = source.electric_injection(&setup.math, setup.grid, time);
            let h = source.magnetic_injection(&setup.math, setup.grid, time);
            let swept_h = setup.swept(
                Half::Magnetic,
                Direction::Forward,
                state.magnetic,
                state.electric,
            );
            let swept_e = setup.swept(
                Half::Electric,
                Direction::Forward,
                state.electric,
                after.magnetic,
            );
            let (q, p) = (third.position(), source.polarization.position());
            &&& after.step == state.step + 1
            &&& after.magnetic == swept_h.update(
                q,
                setup.deposited(swept_h[q], h, Direction::Forward),
            )
            &&& after.electric == swept_e.update(
                p,
                setup.deposited(swept_e[p], e, Direction::Forward),
            )
        }),
{
    reveal_with_fuel(Setup::injected, 3);
    axes_cycle(axis);
    let time = setup.time_after(state.step + 1);
    let source = setup.sources@[0];
    let e = source.electric_injection(&setup.math, setup.grid, time);
    let h = source.magnetic_injection(&setup.math, setup.grid, time);
    assert(!setup.acts(e, Half::Magnetic) && setup.acts(h, Half::Magnetic));
    assert(setup.acts(e, Half::Electric) && !setup.acts(h, Half::Electric));
    assert(h.component == third.position());
    assert(e.component == source.polarization.position());
}

} // verus!
