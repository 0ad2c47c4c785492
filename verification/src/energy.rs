//! Field energy of a whole run.
//!
//! What leapfrog conserves is an integral over the domain. Each component sits on
//! its own points of the grid, so each sample stands for its own box: `E` is
//! surrounded by whole cells along its own axis and by pairs of half cells along
//! the other two, and `H` the other way round.

use crate::algebra::{
    add_nothing, add_swaps, multiply_commutes, multiply_regroups, multiply_spreads, ring, total,
};
use crate::conservation::Measure;
use crate::cpu::Simulation;
use crate::lattice::{slot_of_cell, Axis, Cell};
use crate::material::Material;
use crate::numerics::Numerics;
use crate::order::{field, parts};
use crate::scalar::{arithmetic, half, number, one_half, over, plus, times, Scalar};
use crate::setup::Setup;
use crate::spacing::dual_width;
use crate::stencil::Half;
use vstd::prelude::*;

verus! {

/// Field energy, split into its two halves.
///
/// In normalized units the densities are `½·εr·Ẽ²` and `½·μr·H²`. In a
/// propagating wave the two halves track each other, and in a standing wave they
/// alternate.
///
/// # This total is not exactly the conserved quantity
///
/// `E` and `H` live half a time step apart, so `½Σ(εE² + μH²)` mixes two
/// instants. The difference from what leapfrog conserves, which is stated in
/// [`crate::conservation`], oscillates at the step scale and does not accumulate.
#[derive(Clone, Copy, Debug, PartialEq)]
pub struct Energy<W> {
    pub electric: W,
    pub magnetic: W,
}

impl<W: Scalar> Energy<W> {
    pub fn total(&self) -> (r: W)
        requires
            arithmetic::<W>(),
        ensures
            r == plus(self.electric, self.magnetic),
    {
        self.electric + self.magnetic
    }
}

impl<V: Scalar, W: Scalar, N: Numerics<V, W>> Setup<V, W, N> {
    /// Width along one axis of the box a sample of a component stands for, in
    /// coarse cells.
    pub open spec fn span(self, field: Half, axis: Axis, along: Axis, cell: Cell) -> V {
        let spacing = self.grid.along(along);
        let widths = if (field == Half::Electric) == (axis == along) {
            spacing.primary@
        } else {
            spacing.dual@
        };
        over(widths[cell.along(along)], self.grid.recipe.cell_size)
    }

    /// Volume of the box a sample of a component stands for, in coarse cells.
    pub open spec fn share(self, field: Half, axis: Axis, cell: Cell) -> V {
        times(
            times(
                self.span(field, axis, Axis::X, cell),
                self.span(field, axis, Axis::Y, cell),
            ),
            self.span(field, axis, Axis::Z, cell),
        )
    }

    fn box_width(
        &self,
        field: Half,
        axis: Axis,
        along: Axis,
        at: usize,
        Ghost(cell): Ghost<Cell>,
    ) -> (r: V)
        requires
            self.valid(),
            self.grid.extent.has(cell),
            at == cell.along(along),
        ensures
            r == self.span(field, axis, along, cell),
    {
        let spacing = self.grid.spacing(along);
        assert(self.grid.along(along).valid());
        let width = if (field == Half::Electric) == (axis == along) {
            spacing.primary[at]
        } else {
            spacing.dual[at]
        };
        width / self.grid.recipe.cell_size
    }

    fn box_volume(
        &self,
        field: Half,
        axis: Axis,
        coord: [usize; 3],
        Ghost(cell): Ghost<Cell>,
    ) -> (r: V)
        requires
            self.valid(),
            self.grid.extent.has(cell),
            coord@[0] == cell.x,
            coord@[1] == cell.y,
            coord@[2] == cell.z,
        ensures
            r == self.share(field, axis, cell),
    {
        let x = self.box_width(field, axis, Axis::X, coord[0], Ghost(cell));
        let y = self.box_width(field, axis, Axis::Y, coord[1], Ghost(cell));
        let z = self.box_width(field, axis, Axis::Z, coord[2], Ghost(cell));
        x * y * z
    }

    /// The squares of a field's three components at the cell stored at an index,
    /// each over its own box.
    pub open spec fn square_at(self, half: Half, field: Seq<Seq<V>>, i: int) -> V {
        let cell = self.grid.extent.cell(i);
        plus(
            plus(
                plus(
                    number::<V>(0),
                    times(self.share(half, Axis::X, cell), times(field[0][i], field[0][i])),
                ),
                times(self.share(half, Axis::Y, cell), times(field[1][i], field[1][i])),
            ),
            times(self.share(half, Axis::Z, cell), times(field[2][i], field[2][i])),
        )
    }

    fn square(&self, half: Half, field: &[Vec<V>; 3], index: usize) -> (r: V)
        requires
            self.valid(),
            index < self.cells(),
            forall|a: int| 0 <= a < 3 ==> (#[trigger] field@[a])@.len() == self.cells(),
        ensures
            r == self.square_at(half, seq![field@[0]@, field@[1]@, field@[2]@], index as int),
    {
        let ghost cell = self.grid.extent.cell(index as int);
        proof {
            slot_of_cell(self.grid.extent, index as int);
            assert(field@[0]@.len() == self.cells());
            assert(field@[1]@.len() == self.cells());
            assert(field@[2]@.len() == self.cells());
        }
        let nx: usize = self.grid.extent.x as usize;
        let ny: usize = self.grid.extent.y as usize;
        let coord: [usize; 3] = [index % nx, (index / nx) % ny, (index / nx) / ny];
        let a = field[0][index];
        let b = field[1][index];
        let c = field[2][index];
        V::from(0u8) + self.box_volume(half, Axis::X, coord, Ghost(cell)) * (a * a)
            + self.box_volume(half, Axis::Y, coord, Ghost(cell)) * (b * b)
            + self.box_volume(half, Axis::Z, coord, Ghost(cell)) * (c * c)
    }
}

impl<V: Scalar, W: Scalar, N: Numerics<V, W>> Simulation<V, W, N> {
    /// The material of the cell stored at an index.
    pub open spec fn material_of(self, i: int) -> Material<V> {
        self.setup.materials.materials@[self.setup.medium.material_index@[i] as int]
    }

    /// Field energy of the first `n` cells, in normalized units.
    pub open spec fn energy_of(self, n: int) -> Energy<W>
        decreases n,
    {
        if n <= 0 {
            Energy { electric: number(0), magnetic: number(0) }
        } else {
            let before = self.energy_of(n - 1);
            let material = self.material_of(n - 1);
            let electric = self.setup.square_at(Half::Electric, self.state().electric, n - 1);
            let magnetic = self.setup.square_at(Half::Magnetic, self.state().magnetic, n - 1);
            Energy {
                electric: plus(
                    before.electric,
                    times(
                        half::<W>(),
                        self.setup.math.wide(times(material.relative_permittivity, electric)),
                    ),
                ),
                magnetic: plus(
                    before.magnetic,
                    times(
                        half::<W>(),
                        self.setup.math.wide(times(material.relative_permeability, magnetic)),
                    ),
                ),
            }
        }
    }

    /// Total field energy in normalized units, with the volume of a coarse cell
    /// as the unit of volume.
    ///
    /// Accumulated in the wider precision: the point of this quantity is to
    /// detect drift over many steps, and a narrow accumulator over a million
    /// cells would lose more precision than the drift being measured.
    pub fn energy(&self) -> (r: Energy<W>)
        requires
            self.valid(),
        ensures
            r == self.energy_of(self.setup.cells()),
    {
        let mut electric: W = W::from(0u8);
        let mut magnetic: W = W::from(0u8);
        let mut i: usize = 0;
        proof {
            assert(self.state().electric[0].len() == self.setup.cells());
            assert(self.state().electric[1].len() == self.setup.cells());
            assert(self.state().electric[2].len() == self.setup.cells());
            assert(self.state().magnetic[0].len() == self.setup.cells());
            assert(self.state().magnetic[1].len() == self.setup.cells());
            assert(self.state().magnetic[2].len() == self.setup.cells());
        }
        while i < self.setup.medium.material_index.len()
            invariant
                self.valid(),
                i <= self.setup.medium.material_index@.len(),
                forall|a: int|
                    0 <= a < 3 ==> (#[trigger] self.electric_field@[a])@.len()
                        == self.setup.cells(),
                forall|a: int|
                    0 <= a < 3 ==> (#[trigger] self.magnetic_field@[a])@.len()
                        == self.setup.cells(),
                (Energy { electric, magnetic }) == self.energy_of(i as int),
            decreases self.setup.medium.material_index@.len() - i,
        {
            let material = self.setup.materials.get(self.setup.medium.material_index[i]);
            let e = self.setup.square(Half::Electric, &self.electric_field, i);
            let h = self.setup.square(Half::Magnetic, &self.magnetic_field, i);
            let wide_e: W = self.setup.math.widen(material.relative_permittivity * e);
            let wide_h: W = self.setup.math.widen(material.relative_permeability * h);
            electric = electric + one_half::<W>() * wide_e;
            magnetic = magnetic + one_half::<W>() * wide_h;
            i = i + 1;
        }
        Energy { electric, magnetic }
    }
}

/// On a uniform grid every sample stands for one whole cell, wherever a width
/// over itself is one and half its double is itself.
pub proof fn uniform_boxes_are_whole_cells<V: Scalar, W: Scalar, N: Numerics<V, W>>(
    setup: Setup<V, W, N>,
    field: Half,
    axis: Axis,
    cell: Cell,
)
    requires
        setup.valid(),
        setup.grid.extent.has(cell),
        forall|along: Axis, i: int|
            0 <= i < setup.grid.extent.along(along) ==> (#[trigger] setup.grid.along(
                along,
            ).primary@[i]) == setup.grid.recipe.cell_size,
        over(setup.grid.recipe.cell_size, setup.grid.recipe.cell_size) == number::<V>(1),
        times(
            half::<V>(),
            plus(setup.grid.recipe.cell_size, setup.grid.recipe.cell_size),
        ) == setup.grid.recipe.cell_size,
        times(number::<V>(1), number::<V>(1)) == number::<V>(1),
    ensures
        setup.share(field, axis, cell) == number::<V>(1),
{
    assert forall|along: Axis| #[trigger] setup.span(field, axis, along, cell) == number::<V>(
        1,
    ) by {
        let spacing = setup.grid.along(along);
        let i = cell.along(along);
        assert(spacing.valid());
        assert(spacing.dual@[i] == dual_width(spacing.primary@, i));
        assert(spacing.primary@[i] == setup.grid.recipe.cell_size);
        assert(spacing.primary@[if i == 0 { 0 } else { i - 1 }] == setup.grid.recipe.cell_size);
    }
}

/// The wider precision holds sums, products and the half exactly.
pub open spec fn widens_exactly<V: Scalar, W: Scalar, N: Numerics<V, W>>(math: &N) -> bool {
    &&& forall|a: V, b: V| #[trigger] math.wide(plus(a, b)) == plus(math.wide(a), math.wide(b))
    &&& forall|a: V, b: V| #[trigger] math.wide(times(a, b)) == times(math.wide(a), math.wide(b))
    &&& math.wide(number::<V>(0)) == number::<W>(0)
    &&& math.wide(half::<V>()) == half::<W>()
}

impl<V: Scalar, W: Scalar, N: Numerics<V, W>> Simulation<V, W, N> {
    /// The energy densities of the first `n` cells, added up in the wider precision.
    pub open spec fn densities_of(self, n: int) -> W
        decreases n,
    {
        if n <= 0 {
            number(0)
        } else {
            plus(
                self.densities_of(n - 1),
                self.setup.math.wide(self.density_at(n - 1)),
            )
        }
    }
}

/// Three halves of sums of two are the half of one sum and the half of the other.
proof fn lemma_parts_of_density<V: Scalar>(er: V, mr: V, e: (V, V, V), h: (V, V, V))
    requires
        ring::<V>(),
    ensures
        ({
            let f = half::<V>();
            plus(
                plus(
                    plus(
                        number::<V>(0),
                        times(f, plus(times(er, e.0), times(mr, h.0))),
                    ),
                    times(f, plus(times(er, e.1), times(mr, h.1))),
                ),
                times(f, plus(times(er, e.2), times(mr, h.2))),
            ) == plus(
                times(f, times(er, plus(plus(plus(number::<V>(0), e.0), e.1), e.2))),
                times(f, times(mr, plus(plus(plus(number::<V>(0), h.0), h.1), h.2))),
            )
        }),
{
    let f = half::<V>();
    let (a0, a1, a2) = (times(er, e.0), times(er, e.1), times(er, e.2));
    let (b0, b1, b2) = (times(mr, h.0), times(mr, h.1), times(mr, h.2));
    add_nothing(times(f, plus(a0, b0)));
    add_nothing(e.0);
    add_nothing(h.0);
    multiply_spreads(f, plus(a0, b0), plus(a1, b1));
    multiply_spreads(f, plus(plus(a0, b0), plus(a1, b1)), plus(a2, b2));
    add_swaps(a0, b0, a1, b1);
    add_swaps(plus(a0, a1), plus(b0, b1), a2, b2);
    multiply_spreads(f, plus(plus(a0, a1), a2), plus(plus(b0, b1), b2));
    multiply_spreads(er, e.0, e.1);
    multiply_spreads(er, plus(e.0, e.1), e.2);
    multiply_spreads(mr, h.0, h.1);
    multiply_spreads(mr, plus(h.0, h.1), h.2);
}

/// The energy densities add up to the total energy, of the first `n` cells and so
/// of all of them, where every sample stands for one whole cell and nothing is
/// rounded.
pub proof fn densities_add_up_to_the_energy<V: Scalar, W: Scalar, N: Numerics<V, W>>(
    simulation: Simulation<V, W, N>,
    n: int,
)
    requires
        ring::<V>(),
        ring::<W>(),
        widens_exactly::<V, W, N>(&simulation.setup.math),
        forall|x: V| #[trigger] times(number::<V>(1), x) == x,
        0 <= n <= simulation.setup.cells(),
        forall|field: Half, axis: Axis, i: int|
            0 <= i < simulation.setup.cells() ==> #[trigger] simulation.setup.share(
                field,
                axis,
                simulation.setup.grid.extent.cell(i),
            ) == number::<V>(1),
    ensures
        simulation.densities_of(n) == plus(
            simulation.energy_of(n).electric,
            simulation.energy_of(n).magnetic,
        ),
    decreases n,
{
    if n > 0 {
        densities_add_up_to_the_energy(simulation, n - 1);
        let i = n - 1;
        let setup = simulation.setup;
        let material = simulation.material_of(i);
        let (er, mr) = (material.relative_permittivity, material.relative_permeability);
        let (e, h) = (simulation.state().electric, simulation.state().magnetic);
        let cell = setup.grid.extent.cell(i);
        assert(setup.share(Half::Electric, Axis::X, cell) == number::<V>(1));
        assert(setup.share(Half::Electric, Axis::Y, cell) == number::<V>(1));
        assert(setup.share(Half::Electric, Axis::Z, cell) == number::<V>(1));
        assert(setup.share(Half::Magnetic, Axis::X, cell) == number::<V>(1));
        assert(setup.share(Half::Magnetic, Axis::Y, cell) == number::<V>(1));
        assert(setup.share(Half::Magnetic, Axis::Z, cell) == number::<V>(1));
        lemma_parts_of_density(
            er,
            mr,
            (times(e[0][i], e[0][i]), times(e[1][i], e[1][i]), times(e[2][i], e[2][i])),
            (times(h[0][i], h[0][i]), times(h[1][i], h[1][i]), times(h[2][i], h[2][i])),
        );
        let (ee, hh) = (
            times(er, setup.square_at(Half::Electric, e, i)),
            times(mr, setup.square_at(Half::Magnetic, h, i)),
        );
        let f = half::<V>();
        assert(simulation.density_at(i) == plus(times(f, ee), times(f, hh)));
        assert(setup.math.wide(plus(times(f, ee), times(f, hh))) == plus(
            setup.math.wide(times(f, ee)),
            setup.math.wide(times(f, hh)),
        ));
        let before = simulation.energy_of(n - 1);
        add_swaps(
            before.electric,
            before.magnetic,
            times(half::<W>(), setup.math.wide(ee)),
            times(half::<W>(), setup.math.wide(hh)),
        );
    } else {
        add_nothing(number::<W>(0));
    }
}

/// Twice the energy density of a cell is what the material makes of the squares of
/// the two fields there.
pub proof fn densities_are_half_of_the_squares<V: Scalar, W: Scalar, N: Numerics<V, W>>(
    simulation: Simulation<V, W, N>,
    i: int,
)
    requires
        field::<V>(),
    ensures
        ({
            let material = simulation.material_of(i);
            let squares = |f: Seq<Seq<V>>|
                plus(
                    plus(times(f[0][i], f[0][i]), times(f[1][i], f[1][i])),
                    times(f[2][i], f[2][i]),
                );
            plus(simulation.density_at(i), simulation.density_at(i)) == plus(
                times(material.relative_permittivity, squares(simulation.state().electric)),
                times(material.relative_permeability, squares(simulation.state().magnetic)),
            )
        }),
{
    let material = simulation.material_of(i);
    let (er, mr) = (material.relative_permittivity, material.relative_permeability);
    let (e, h) = (simulation.state().electric, simulation.state().magnetic);
    let (p, q) = (
        (times(e[0][i], e[0][i]), times(e[1][i], e[1][i]), times(e[2][i], e[2][i])),
        (times(h[0][i], h[0][i]), times(h[1][i], h[1][i]), times(h[2][i], h[2][i])),
    );
    lemma_parts_of_density(er, mr, p, q);
    add_nothing(p.0);
    add_nothing(q.0);
    let f = half::<V>();
    let (a, b) = (
        times(er, plus(plus(p.0, p.1), p.2)),
        times(mr, plus(plus(q.0, q.1), q.2)),
    );
    add_swaps(times(f, a), times(f, b), times(f, a), times(f, b));
    multiply_spreads(f, a, a);
    multiply_spreads(f, b, b);
    parts(a, a);
    parts(b, b);
}

/// Whether a measure weighs each sample by the box it stands for and by its
/// material, as energy does.
pub open spec fn weighs_as_energy<V: Scalar, W: Scalar, N: Numerics<V, W>>(
    simulation: Simulation<V, W, N>,
    measure: Measure<V>,
) -> bool {
    let extent = simulation.setup.grid.extent;
    &&& forall|field: Half, axis: Axis, i: int|
        0 <= i < simulation.setup.cells() ==> #[trigger] (measure.volume)(
            field,
            axis,
            extent.cell(i),
        ) == simulation.setup.share(field, axis, extent.cell(i))
    &&& forall|field: Half, i: int|
        0 <= i < simulation.setup.cells() ==> #[trigger] (measure.stiffness)(
            field,
            extent.cell(i),
        ) == match field {
            Half::Electric => simulation.material_of(i).relative_permittivity,
            Half::Magnetic => simulation.material_of(i).relative_permeability,
        }
}

/// Twice the energy of either field is the field paired with itself, the pairing that
/// a lossless box keeps: every sample squared, by its box and its material.
pub proof fn energy_is_half_of_what_is_kept<V: Scalar, W: Scalar, N: Numerics<V, W>>(
    simulation: Simulation<V, W, N>,
    measure: Measure<V>,
    n: int,
)
    requires
        ring::<V>(),
        field::<W>(),
        widens_exactly::<V, W, N>(&simulation.setup.math),
        simulation.setup.medium.extent == simulation.setup.grid.extent,
        weighs_as_energy(simulation, measure),
        0 <= n <= simulation.setup.cells(),
    ensures
        ({
            let (medium, math) = (simulation.setup.medium, simulation.setup.math);
            let (e, h) = (simulation.state().electric, simulation.state().magnetic);
            let sum = |field: Half, f: Seq<Seq<V>>|
                plus(
                    plus(
                        total(n, medium.pairs(measure, field, Axis::X, f[0], f[0])),
                        total(n, medium.pairs(measure, field, Axis::Y, f[1], f[1])),
                    ),
                    total(n, medium.pairs(measure, field, Axis::Z, f[2], f[2])),
                );
            let energy = simulation.energy_of(n);
            &&& plus(energy.electric, energy.electric) == math.wide(sum(Half::Electric, e))
            &&& plus(energy.magnetic, energy.magnetic) == math.wide(sum(Half::Magnetic, h))
        }),
    decreases n,
{
    let (medium, math) = (simulation.setup.medium, simulation.setup.math);
    let (e, h) = (simulation.state().electric, simulation.state().magnetic);
    let zero = number::<V>(0);
    if n > 0 {
        energy_is_half_of_what_is_kept(simulation, measure, n - 1);
        lemma_one_more_square(simulation, measure, Half::Electric, e, n);
        lemma_one_more_square(simulation, measure, Half::Magnetic, h, n);
        let before = simulation.energy_of(n - 1);
        let material = simulation.material_of(n - 1);
        let a: W = math.wide(
            times(
                material.relative_permittivity,
                simulation.setup.square_at(Half::Electric, e, n - 1),
            ),
        );
        let b: W = math.wide(
            times(
                material.relative_permeability,
                simulation.setup.square_at(Half::Magnetic, h, n - 1),
            ),
        );
        let f = half::<W>();
        add_swaps(before.electric, times(f, a), before.electric, times(f, a));
        add_swaps(before.magnetic, times(f, b), before.magnetic, times(f, b));
        multiply_spreads(f, a, a);
        multiply_spreads(f, b, b);
        parts(a, a);
        parts(b, b);
    } else {
        add_nothing(zero);
        add_nothing(number::<W>(0));
    }
}

/// One more cell adds its square, by its box and its material, to the pairing.
proof fn lemma_one_more_square<V: Scalar, W: Scalar, N: Numerics<V, W>>(
    simulation: Simulation<V, W, N>,
    measure: Measure<V>,
    field: Half,
    f: Seq<Seq<V>>,
    n: int,
)
    requires
        ring::<V>(),
        simulation.setup.medium.extent == simulation.setup.grid.extent,
        weighs_as_energy(simulation, measure),
        0 < n <= simulation.setup.cells(),
    ensures
        ({
            let medium = simulation.setup.medium;
            let sum = |m: int|
                plus(
                    plus(
                        total(m, medium.pairs(measure, field, Axis::X, f[0], f[0])),
                        total(m, medium.pairs(measure, field, Axis::Y, f[1], f[1])),
                    ),
                    total(m, medium.pairs(measure, field, Axis::Z, f[2], f[2])),
                );
            let weight = match field {
                Half::Electric => simulation.material_of(n - 1).relative_permittivity,
                Half::Magnetic => simulation.material_of(n - 1).relative_permeability,
            };
            sum(n) == plus(
                sum(n - 1),
                times(weight, simulation.setup.square_at(field, f, n - 1)),
            )
        }),
{
    let medium = simulation.setup.medium;
    let i = n - 1;
    let cell = simulation.setup.grid.extent.cell(i);
    let weight = match field {
        Half::Electric => simulation.material_of(i).relative_permittivity,
        Half::Magnetic => simulation.material_of(i).relative_permeability,
    };
    assert((measure.stiffness)(field, cell) == weight);
    assert((measure.volume)(field, Axis::X, cell) == simulation.setup.share(
        field,
        Axis::X,
        cell,
    ));
    assert((measure.volume)(field, Axis::Y, cell) == simulation.setup.share(
        field,
        Axis::Y,
        cell,
    ));
    assert((measure.volume)(field, Axis::Z, cell) == simulation.setup.share(
        field,
        Axis::Z,
        cell,
    ));
    let (u, v, w) = (
        simulation.setup.share(field, Axis::X, cell),
        simulation.setup.share(field, Axis::Y, cell),
        simulation.setup.share(field, Axis::Z, cell),
    );
    let (a, b, c) = (times(f[0][i], f[0][i]), times(f[1][i], f[1][i]), times(f[2][i], f[2][i]));
    let (p, q, r) = (times(u, a), times(v, b), times(w, c));
    // u·(weight·a) = weight·(u·a), and so on.
    lemma_weight_comes_out(u, weight, a);
    lemma_weight_comes_out(v, weight, b);
    lemma_weight_comes_out(w, weight, c);
    add_nothing(p);
    multiply_spreads(weight, p, q);
    multiply_spreads(weight, plus(p, q), r);
    let (x, y, z) = (
        total(i, medium.pairs(measure, field, Axis::X, f[0], f[0])),
        total(i, medium.pairs(measure, field, Axis::Y, f[1], f[1])),
        total(i, medium.pairs(measure, field, Axis::Z, f[2], f[2])),
    );
    let (p, q, r) = (times(weight, p), times(weight, q), times(weight, r));
    add_swaps(x, p, y, q);
    add_swaps(plus(x, y), plus(p, q), z, r);
}

proof fn lemma_weight_comes_out<V: Scalar>(volume: V, weight: V, square: V)
    requires
        ring::<V>(),
    ensures
        times(volume, times(weight, square)) == times(weight, times(volume, square)),
{
    multiply_regroups(volume, weight, square);
    multiply_commutes(volume, weight);
    multiply_regroups(weight, volume, square);
}

} // verus!
