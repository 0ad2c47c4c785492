//! What a scene that passes validation is good for, and why one that does not is not.

use crate::algebra::{
    add_commutes, add_nothing, add_regroups, multiply_by_nothing, multiply_commutes,
    negatives, ring, take_away,
};
use crate::grading::ordered;
use crate::grid::{light_speed, Axis};
use crate::lattice::{cell_of_slot, slot_in_range, Cell};
use crate::numerics::{Elementary, Numerics};
use crate::order::{
    below_through, field, one_way_or_the_other, parts, products_keep_order, squares_keep_order,
    sums_keep_order,
};
use crate::scalar::{
    at_most, below, greater_of, half, magnitude_of, minus, negative, number, over, plus, same, times,
    Scalar,
};
use crate::scene::{Scene, Shape};
use crate::shapes::{lemma_any_order, magnitudes};
use crate::source::Source;
use crate::validation::{
    coarse_fault, lemma_paint_in_table, resolution_at, unresolved_fault,
};
use vstd::prelude::*;

verus! {

/// No cell a material sits in is wider than the widest it is noted for.
proof fn lemma_widest<V: Scalar, W: Scalar>(
    scene: Scene<V, W>,
    raster: Seq<u32>,
    material: int,
    n: int,
    i: int,
)
    requires
        ordered::<V>(),
        0 <= i < n,
        raster[i] == material,
    ensures
        at_most(
            scene.width_at(scene.grid.extent.cell(i)),
            scene.widest(raster, material, n),
        ),
    decreases n,
{
    reveal(ordered);
    let before = scene.widest(raster, material, n - 1);
    let here = scene.width_at(scene.grid.extent.cell(n - 1));
    assert(at_most(before, before) && at_most(here, here));
    if below(before, here) {
        assert(at_most(before, here));
    } else {
        assert(at_most(here, before));
    }
    if i < n - 1 {
        lemma_widest(scene, raster, material, n - 1, i);
    }
}

/// Every material that is present is among the places that are looked at.
proof fn lemma_place_is_listed<V: Scalar, W: Scalar, N: Numerics<V, W>>(
    math: &N,
    scene: Scene<V, W>,
    n: int,
    m: int,
)
    requires
        0 <= m < n,
        below(
            number::<V>(0),
            scene.widest(scene.raster(math), m, scene.grid.extent.cells()),
        ),
    ensures
        exists|k: int|
            0 <= k < scene.worst_places(math, n).len() && #[trigger] scene.worst_places(math, n)[k]
                == (
                scene.materials.materials@[m].index_of(math),
                scene.widest(scene.raster(math), m, scene.grid.extent.cells()),
            ),
    decreases n,
{
    let before = scene.worst_places(math, n - 1);
    let after = scene.worst_places(math, n);
    let entry = (
        scene.materials.materials@[m].index_of(math),
        scene.widest(scene.raster(math), m, scene.grid.extent.cells()),
    );
    if m == n - 1 {
        assert(after[before.len() as int] == entry);
    } else {
        lemma_place_is_listed(math, scene, n - 1, m);
        let k = choose|k: int| 0 <= k < before.len() && #[trigger] before[k] == entry;
        assert(after[k] == entry);
    }
}

proof fn lemma_no_coarse_place<V: Scalar, N: Elementary<V>>(
    math: &N,
    places: Seq<(V, V)>,
    frequency: V,
    k: int,
    j: int,
)
    requires
        0 <= k <= j < places.len(),
        coarse_fault(math, places, frequency, k) is None,
    ensures
        !below(
            resolution_at(math, places[j].0, frequency, places[j].1),
            number::<V>(10),
        ),
    decreases j - k,
{
    if k < j {
        lemma_no_coarse_place(math, places, frequency, k + 1, j);
    }
}

proof fn lemma_no_unresolved<V: Scalar, N: Elementary<V>>(
    math: &N,
    sources: Seq<Source<V>>,
    places: Seq<(V, V)>,
    k: int,
    j: int,
)
    requires
        0 <= k <= j < sources.len(),
        unresolved_fault(math, sources, places, k) is None,
    ensures
        coarse_fault(math, places, sources[j].waveform.carrier(), 0) is None,
    decreases j - k,
{
    if k < j {
        lemma_no_unresolved(math, sources, places, k + 1, j);
    }
}

/// In a scene nothing is wrong with, every source has ten cells or more to the
/// wavelength in every cell, whatever it is made of and however wide it is: ten cells
/// as wide, times what the material slows the wave by, times its frequency, come to
/// no more than the speed of light.
pub proof fn accepted_scenes_are_resolved_everywhere<V: Scalar, W: Scalar, N: Numerics<V, W>>(
    math: &N,
    scene: Scene<V, W>,
    k: int,
    cell: Cell,
)
    requires
        field::<V>(),
        scene.fault(math) is None,
        at_most(number::<V>(0), number::<V>(10)),
        0 <= k < scene.sources@.len(),
        scene.grid.extent.has(cell),
        below(number::<V>(0), scene.width_at(cell)),
        ({
            let material = scene.materials.materials@[scene.material_at(math, cell) as int];
            below(
                number::<V>(0),
                times(material.index_of(math), scene.sources@[k].waveform.carrier()),
            )
        }),
    ensures
        ({
            let material = scene.materials.materials@[scene.material_at(math, cell) as int];
            let rate = times(material.index_of(math), scene.sources@[k].waveform.carrier());
            at_most(
                times(number::<V>(10), times(rate, scene.width_at(cell))),
                light_speed::<V, N>(math),
            )
        }),
{
    let (zero, ten) = (number::<V>(0), number::<V>(10));
    let extent = scene.grid.extent;
    let raster = scene.raster(math);
    let table = scene.materials.materials@;
    let m = scene.material_at(math, cell) as int;
    let i = extent.slot(cell);
    slot_in_range(extent, cell);
    cell_of_slot(extent, cell);
    lemma_paint_in_table(
        scene.shapes@,
        scene.center(math, cell),
        table.len() as int,
        scene.shapes@.len() as int,
    );
    assert(raster[i] == m);
    let widest = scene.widest(raster, m, extent.cells());
    let width = scene.width_at(cell);
    lemma_widest(scene, raster, m, extent.cells(), i);
    below_through(zero, width, widest);
    lemma_place_is_listed(math, scene, table.len() as int, m);
    let places = scene.worst_places(math, table.len() as int);
    let j = choose|j: int|
        0 <= j < places.len() && #[trigger] places[j] == (table[m].index_of(math), widest);
    lemma_no_unresolved(math, scene.sources@, places, 0, k);
    let frequency = scene.sources@[k].waveform.carrier();
    lemma_no_coarse_place(math, places, frequency, 0, j);
    let light = light_speed::<V, N>(math);
    let rate = times(table[m].index_of(math), frequency);
    let span = times(rate, widest);
    // 10·span <= (light / span)·span = light.
    multiply_by_nothing(widest);
    products_keep_order(zero, rate, widest);
    one_way_or_the_other(over(light, span), ten);
    below_through(zero, span, span);
    products_keep_order(ten, over(light, span), span);
    parts(light, span);
    // And a narrower cell is better off.
    below_through(zero, rate, rate);
    products_keep_order(width, widest, rate);
    multiply_commutes(width, rate);
    multiply_commutes(widest, rate);
    parts(ten, ten);
    products_keep_order(times(rate, width), span, ten);
    multiply_commutes(times(rate, width), ten);
    multiply_commutes(span, ten);
    below_through(times(ten, times(rate, width)), times(ten, span), light);
}

/// How far past a wall a position is: never below zero, and no further than from any
/// place between the walls.
proof fn lemma_excess<V: Scalar>(at: V, place: V, wall: V)
    requires
        field::<V>(),
        at_most(magnitude_of(place), wall),
    ensures
        ({
            let excess = greater_of(minus(magnitude_of(at), wall), number::<V>(0));
            let away = minus(place, at);
            &&& at_most(number::<V>(0), excess)
            &&& at_most(excess, magnitude_of(away))
            &&& at_most(times(excess, excess), times(away, away))
        }),
{
    let zero = number::<V>(0);
    let past = minus(magnitude_of(at), wall);
    let excess = greater_of(past, zero);
    let away = minus(place, at);
    let m = magnitude_of(away);
    magnitudes(away, m);
    magnitudes(place, wall);
    below_through(zero, m, m);
    below_through(m, m, m);
    // at = place - away, so it lies within wall + m.
    lemma_triangle(at, place, wall);
    reveal(ordered);
    assert(same(past, past));
    one_way_or_the_other(past, zero);
    below_through(zero, past, past);
    below_through(past, zero, zero);
    squares_keep_order(excess, m);
}

/// A position is no further out than the walls and the way to a place between them.
proof fn lemma_triangle<V: Scalar>(at: V, place: V, wall: V)
    requires
        field::<V>(),
        at_most(magnitude_of(place), wall),
    ensures
        at_most(minus(magnitude_of(at), wall), magnitude_of(minus(place, at))),
{
    let away = minus(place, at);
    let m = magnitude_of(away);
    let bound = plus(m, wall);
    below_through(m, m, m);
    magnitudes(away, m);
    magnitudes(place, wall);
    // at = place + -away.
    take_away(place, at);
    negatives(place, at);
    take_away(at, place);
    lemma_sum_back(at, place);
    // -wall <= place <= wall and -m <= away <= m.
    negatives(away, m);
    lemma_turn(away, m);
    lemma_turn(negative(m), away);
    negatives(m, m);
    let back = negative(away);
    sums_keep_order(back, m, place);
    sums_keep_order(place, wall, m);
    add_commutes(back, place);
    add_commutes(m, place);
    add_commutes(wall, m);
    below_through(at, plus(m, place), bound);
    sums_keep_order(negative(m), back, place);
    sums_keep_order(negative(wall), place, negative(m));
    add_commutes(negative(m), place);
    add_commutes(negative(wall), negative(m));
    negatives(m, wall);
    below_through(negative(bound), plus(place, negative(m)), at);
    magnitudes(at, bound);
    // |at| <= m + wall, so |at| - wall <= m.
    take_away(magnitude_of(at), wall);
    sums_keep_order(magnitude_of(at), bound, negative(wall));
    add_regroups(m, wall, negative(wall));
    take_away(wall, wall);
    add_nothing(m);
}

/// `place + -(place - at) = at`.
proof fn lemma_sum_back<V: Scalar>(at: V, place: V)
    requires
        ring::<V>(),
    ensures
        plus(place, negative(minus(place, at))) == at,
{
    negatives(place, at);
    take_away(at, place);
    add_commutes(at, negative(place));
    add_regroups(place, negative(place), at);
    take_away(place, place);
    add_nothing(at);
}

proof fn lemma_turn<V: Scalar>(a: V, b: V)
    requires
        field::<V>(),
    ensures
        at_most(a, b) ==> at_most(negative(b), negative(a)),
{
    let shift = plus(negative(a), negative(b));
    sums_keep_order(a, b, shift);
    take_away(a, b);
    take_away(b, b);
    add_regroups(a, negative(a), negative(b));
    add_nothing(negative(b));
    add_commutes(negative(a), negative(b));
    add_regroups(b, negative(b), negative(a));
    add_nothing(negative(a));
}

/// A shape with any place inside the domain is not turned away as outside.
pub proof fn shapes_that_reach_in_are_not_outside<V: Scalar, W: Scalar, N: Numerics<V, W>>(
    math: &N,
    scene: Scene<V, W>,
    shape: Shape<V>,
    place: Seq<V>,
)
    requires
        field::<V>(),
        shape.holds(place),
        scene.grid.encloses(math, place),
        // A slab is unbounded across its axis.
        forall|axis: Axis|
            shape is Slab && axis != shape->axis ==> at_most(
                minus(number::<V>(0), math.infinity_of()),
                times(half::<V>(), #[trigger] scene.grid.size_along(math, axis)),
            ),
    ensures
        !scene.outside(math, shape),
{
    let zero = number::<V>(0);
    let wall = |axis: Axis| times(half::<V>(), scene.grid.size_along(math, axis));
    let middle = shape.middle();
    match shape {
        Shape::Sphere { center, radius, .. } => {
            lemma_excess(center@[0], place[0], wall(Axis::X));
            lemma_excess(center@[1], place[1], wall(Axis::Y));
            lemma_excess(center@[2], place[2], wall(Axis::Z));
            let (x, y, z) = (
                scene.excess(math, center@[0], Axis::X),
                scene.excess(math, center@[1], Axis::Y),
                scene.excess(math, center@[2], Axis::Z),
            );
            let (a, b, c) = (
                minus(place[0], center@[0]),
                minus(place[1], center@[1]),
                minus(place[2], center@[2]),
            );
            let (xx, yy, zz) = (times(x, x), times(y, y), times(z, z));
            let (aa, bb, cc) = (times(a, a), times(b, b), times(c, c));
            lemma_any_order(aa, bb, cc);
            lemma_sums_in_order(xx, yy, zz, aa, bb, cc);
            let all = plus(plus(aa, bb), cc);
            below_through(plus(plus(xx, yy), zz), all, times(radius, radius));
            one_way_or_the_other(plus(plus(xx, yy), zz), times(radius, radius));
        },
        Shape::Block { center, size, .. } => {
            lemma_not_beyond(center@[0], place[0], wall(Axis::X), times(half::<V>(), size@[0]));
            lemma_not_beyond(center@[1], place[1], wall(Axis::Y), times(half::<V>(), size@[1]));
            lemma_not_beyond(center@[2], place[2], wall(Axis::Z), times(half::<V>(), size@[2]));
        },
        Shape::Slab { axis, offset, thickness, .. } => {
            lemma_not_beyond(
                offset,
                place[axis.position()],
                wall(axis),
                times(half::<V>(), thickness),
            );
            below_through(zero, zero, zero);
            assert(magnitude_of(zero) == zero);
            assert(axis != Axis::X ==> at_most(
                minus(zero, math.infinity_of()),
                times(half::<V>(), scene.grid.size_along(math, Axis::X)),
            ));
            assert(axis != Axis::Y ==> at_most(
                minus(zero, math.infinity_of()),
                times(half::<V>(), scene.grid.size_along(math, Axis::Y)),
            ));
            assert(axis != Axis::Z ==> at_most(
                minus(zero, math.infinity_of()),
                times(half::<V>(), scene.grid.size_along(math, Axis::Z)),
            ));
            one_way_or_the_other(minus(zero, math.infinity_of()), wall(Axis::X));
            one_way_or_the_other(minus(zero, math.infinity_of()), wall(Axis::Y));
            one_way_or_the_other(minus(zero, math.infinity_of()), wall(Axis::Z));
        },
    }
}

proof fn lemma_sums_in_order<V: Scalar>(x: V, y: V, z: V, a: V, b: V, c: V)
    requires
        field::<V>(),
        at_most(x, a),
        at_most(y, b),
        at_most(z, c),
    ensures
        at_most(plus(plus(x, y), z), plus(plus(a, b), c)),
{
    sums_keep_order(x, a, y);
    sums_keep_order(y, b, a);
    add_commutes(y, a);
    add_commutes(b, a);
    below_through(plus(x, y), plus(a, y), plus(a, b));
    sums_keep_order(plus(x, y), plus(a, b), z);
    sums_keep_order(z, c, plus(a, b));
    add_commutes(z, plus(a, b));
    add_commutes(c, plus(a, b));
    below_through(plus(plus(x, y), z), plus(plus(a, b), z), plus(plus(a, b), c));
}

/// With a place of it between the walls, a shape is not past one.
proof fn lemma_not_beyond<V: Scalar>(middle: V, place: V, wall: V, reach: V)
    requires
        field::<V>(),
        at_most(magnitude_of(place), wall),
        at_most(magnitude_of(minus(place, middle)), reach),
    ensures
        !below(wall, minus(magnitude_of(middle), reach)),
{
    let size = magnitude_of(middle);
    lemma_triangle(middle, place, wall);
    below_through(minus(size, wall), magnitude_of(minus(place, middle)), reach);
    // |middle| - wall <= reach, so |middle| - reach <= wall.
    take_away(size, wall);
    take_away(size, reach);
    let shift = plus(wall, negative(reach));
    sums_keep_order(minus(size, wall), reach, shift);
    add_regroups(size, negative(wall), shift);
    add_regroups(negative(wall), wall, negative(reach));
    add_commutes(negative(wall), wall);
    take_away(wall, wall);
    add_nothing(negative(reach));
    add_commutes(wall, negative(reach));
    add_regroups(reach, negative(reach), wall);
    take_away(reach, reach);
    add_nothing(wall);
    one_way_or_the_other(minus(size, reach), wall);
}

/// The place between the walls that is nearest to a position, along one axis.
pub open spec fn nearest_inside<V: Scalar>(at: V, wall: V) -> V {
    if at_most(magnitude_of(at), wall) {
        at
    } else if below(at, number::<V>(0)) {
        negative(wall)
    } else {
        wall
    }
}

proof fn lemma_nearest_inside<V: Scalar>(at: V, wall: V)
    requires
        field::<V>(),
        at_most(number::<V>(0), wall),
    ensures
        ({
            let place = nearest_inside(at, wall);
            let excess = greater_of(minus(magnitude_of(at), wall), number::<V>(0));
            &&& at_most(magnitude_of(place), wall)
            &&& magnitude_of(minus(place, at)) == excess
            &&& times(minus(place, at), minus(place, at)) == times(excess, excess)
        }),
{
    let zero = number::<V>(0);
    let size = magnitude_of(at);
    let past = minus(size, wall);
    let place = nearest_inside(at, wall);
    let away = minus(place, at);
    below_through(wall, wall, wall);
    below_through(zero, zero, zero);
    magnitudes(at, wall);
    magnitudes(wall, wall);
    magnitudes(negative(wall), wall);
    negatives(wall, wall);
    lemma_turn(zero, wall);
    negatives(zero, zero);
    below_through(negative(wall), zero, wall);
    below_through(negative(wall), negative(wall), negative(wall));
    one_way_or_the_other(at, zero);
    take_away(size, wall);
    take_away(wall, wall);
    reveal(ordered);
    assert(same(past, past));
    if at_most(size, wall) {
        // Nothing past the wall, and nowhere to go.
        sums_keep_order(size, wall, negative(wall));
        one_way_or_the_other(past, zero);
        take_away(at, at);
        if below(zero, past) {
            one_way_or_the_other(zero, past);
        }
        assert(greater_of(past, zero) == zero);
        assert(magnitude_of(zero) == zero);
    } else {
        one_way_or_the_other(size, wall);
        one_way_or_the_other(wall, size);
        lemma_at_most_or(size, wall);
        sums_keep_order(wall, size, negative(wall));
        one_way_or_the_other(past, zero);
        one_way_or_the_other(zero, past);
        below_through(past, zero, past);
        assert(greater_of(past, zero) == past);
        if below(at, zero) {
            // -wall - at = |at| - wall.
            take_away(negative(wall), at);
            add_commutes(negative(wall), negative(at));
            assert(away == past);
        } else {
            // wall - at = -(|at| - wall).
            negatives(at, wall);
            assert(away == negative(past));
        }
        magnitudes(away, past);
        negatives(past, past);
        lemma_turn(zero, past);
        below_through(past, past, past);
        one_way_or_the_other(away, zero);
        if below(at, zero) {
            one_way_or_the_other(past, zero);
        } else if !below(away, zero) {
            one_way_or_the_other(negative(past), zero);
        }
    }
    magnitudes(away, wall);
}

proof fn lemma_at_most_or<V: Scalar>(a: V, b: V)
    requires
        field::<V>(),
        !at_most(a, b),
    ensures
        below(b, a),
{
    one_way_or_the_other(b, a);
}

/// A shape that is not outside has a place inside the domain: nothing that would
/// paint nothing gets through.
pub proof fn shapes_not_outside_reach_in<V: Scalar, W: Scalar, N: Numerics<V, W>>(
    math: &N,
    scene: Scene<V, W>,
    shape: Shape<V>,
)
    requires
        field::<V>(),
        forall|axis: Axis|
            at_most(
                number::<V>(0),
                times(half::<V>(), #[trigger] scene.grid.size_along(math, axis)),
            ),
        shape is Slab || forall|axis: Axis|
            at_most(number::<V>(0), #[trigger] shape.reach(math)@[axis.position()]),
        shape is Slab ==> at_most(number::<V>(0), times(half::<V>(), shape->thickness)),
        !scene.outside(math, shape),
    ensures
        exists|place: Seq<V>| #[trigger] shape.holds(place) && scene.grid.encloses(math, place),
{
    let zero = number::<V>(0);
    let wall = |axis: Axis| times(half::<V>(), scene.grid.size_along(math, axis));
    let middle = shape.middle();
    let place = seq![
        nearest_inside(middle@[0], wall(Axis::X)),
        nearest_inside(middle@[1], wall(Axis::Y)),
        nearest_inside(middle@[2], wall(Axis::Z)),
    ];
    assert(at_most(zero, times(half::<V>(), scene.grid.size_along(math, Axis::X))));
    assert(at_most(zero, times(half::<V>(), scene.grid.size_along(math, Axis::Y))));
    assert(at_most(zero, times(half::<V>(), scene.grid.size_along(math, Axis::Z))));
    lemma_nearest_inside(middle@[0], wall(Axis::X));
    lemma_nearest_inside(middle@[1], wall(Axis::Y));
    lemma_nearest_inside(middle@[2], wall(Axis::Z));
    assert(scene.grid.encloses(math, place));
    match shape {
        Shape::Sphere { center, radius, .. } => {
            let (x, y, z) = (
                scene.excess(math, center@[0], Axis::X),
                scene.excess(math, center@[1], Axis::Y),
                scene.excess(math, center@[2], Axis::Z),
            );
            lemma_any_order(times(x, x), times(y, y), times(z, z));
            one_way_or_the_other(
                times(radius, radius),
                scene.distance_squared(math, center@),
            );
            assert(shape.holds(place));
        },
        Shape::Block { center, size, .. } => {
            assert(at_most(zero, shape.reach(math)@[Axis::X.position()]));
            assert(at_most(zero, shape.reach(math)@[Axis::Y.position()]));
            assert(at_most(zero, shape.reach(math)@[Axis::Z.position()]));
            lemma_excess_within(center@[0], wall(Axis::X), times(half::<V>(), size@[0]));
            lemma_excess_within(center@[1], wall(Axis::Y), times(half::<V>(), size@[1]));
            lemma_excess_within(center@[2], wall(Axis::Z), times(half::<V>(), size@[2]));
            assert(shape.holds(place));
        },
        Shape::Slab { axis, offset, thickness, .. } => {
            lemma_excess_within(offset, wall(axis), times(half::<V>(), thickness));
            assert(shape.holds(place));
        },
    }
}

/// A shape not past a wall reaches back to it.
proof fn lemma_excess_within<V: Scalar>(middle: V, wall: V, reach: V)
    requires
        field::<V>(),
        at_most(number::<V>(0), reach),
        !below(wall, minus(magnitude_of(middle), reach)),
    ensures
        at_most(
            greater_of(minus(magnitude_of(middle), wall), number::<V>(0)),
            reach,
        ),
{
    let size = magnitude_of(middle);
    one_way_or_the_other(wall, minus(size, reach));
    // |middle| - reach <= wall, so |middle| - wall <= reach.
    take_away(size, wall);
    take_away(size, reach);
    let shift = plus(reach, negative(wall));
    sums_keep_order(minus(size, reach), wall, shift);
    add_regroups(size, negative(reach), shift);
    add_regroups(negative(reach), reach, negative(wall));
    add_commutes(negative(reach), reach);
    take_away(reach, reach);
    add_nothing(negative(wall));
    add_commutes(reach, negative(wall));
    add_regroups(wall, negative(wall), reach);
    take_away(wall, wall);
    add_nothing(reach);
    reveal(ordered);
}

} // verus!
