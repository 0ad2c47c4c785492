//! The walls of the box.
//!
//! A backward difference needs the previous plane, so `E` is never updated on the
//! low face of the two axes it is tangential to. It stays at zero there, which is
//! exactly a perfect electric conductor. On the far faces, which no sample sits on,
//! the forward difference reads the same zero.

use crate::grid::Axis;
use crate::lattice::{cell_of_slot, slot_in_range, Cell};
use crate::numerics::Numerics;
use crate::replay::{lemma_injected_shape, run_keeps_shape};
use crate::scalar::{minus, number, times, Scalar};
use crate::setup::{Setup, State};
use crate::source::Injection;
use crate::stencil::{Direction, Half, Medium};
use vstd::prelude::*;

verus! {

impl<V: Scalar, W: Scalar, N: Numerics<V, W>> Setup<V, W, N> {
    /// Whether an injection adds to one component of a field at a cell.
    pub open spec fn touches(
        self,
        injection: Injection<V>,
        half: Half,
        axis: Axis,
        cell: Cell,
    ) -> bool {
        &&& self.acts(injection, half)
        &&& injection.component == axis.position()
        &&& injection.covers(cell)
    }

    /// Whether no source adds to one component of a field at a cell, with `E`
    /// standing at `time`.
    pub open spec fn undriven(self, half: Half, axis: Axis, cell: Cell, time: V) -> bool {
        forall|k: int|
            #![trigger self.sources@[k]]
            0 <= k < self.sources@.len() ==> {
                &&& !self.touches(
                    self.sources@[k].electric_injection(&self.math, self.grid, time),
                    half,
                    axis,
                    cell,
                )
                &&& !self.touches(
                    self.sources@[k].magnetic_injection(&self.math, self.grid, time),
                    half,
                    axis,
                    cell,
                )
            }
    }
}

proof fn lemma_injected_elsewhere<V: Scalar, W: Scalar, N: Numerics<V, W>>(
    setup: Setup<V, W, N>,
    field: Seq<Seq<V>>,
    half: Half,
    direction: Direction,
    axis: Axis,
    cell: Cell,
    time: V,
    n: int,
)
    requires
        setup.consistent(),
        setup.grid.extent.has(cell),
        n <= setup.sources@.len(),
        field.len() == 3,
        forall|t: int| 0 <= t < 3 ==> (#[trigger] field[t]).len() == setup.cells(),
        setup.undriven(half, axis, cell, time),
    ensures
        setup.injected(
            field,
            half,
            direction,
            time,
            n,
        )[axis.position()][setup.grid.extent.slot(cell)]
            == field[axis.position()][setup.grid.extent.slot(cell)],
    decreases n,
{
    if n > 0 {
        lemma_injected_elsewhere(setup, field, half, direction, axis, cell, time, n - 1);
        lemma_injected_shape(setup, field, half, direction, time, n - 1);
        slot_in_range(setup.grid.extent, cell);
        cell_of_slot(setup.grid.extent, cell);
        assert(setup.sources@[n - 1].coherent());
    }
}

/// A step leaves a tangential `E` sample on a conducting face as it is, unless a
/// source sits right on it.
pub proof fn step_leaves_walls_alone<V: Scalar, W: Scalar, N: Numerics<V, W>>(
    setup: Setup<V, W, N>,
    state: State<V>,
    axis: Axis,
    cell: Cell,
)
    requires
        setup.consistent(),
        state.shaped(setup.cells()),
        setup.grid.extent.has(cell),
        cell.along(axis.successor()) == 0 || cell.along(axis.predecessor()) == 0,
        setup.undriven(Half::Electric, axis, cell, setup.time_after(state.step + 1)),
    ensures
        setup.advanced(state).electric[axis.position()][setup.grid.extent.slot(cell)]
            == state.electric[axis.position()][setup.grid.extent.slot(cell)],
{
    let after = setup.advanced(state);
    let swept = setup.swept(
        Half::Electric,
        Direction::Forward,
        state.electric,
        after.magnetic,
    );
    slot_in_range(setup.grid.extent, cell);
    cell_of_slot(setup.grid.extent, cell);
    assert(!setup.medium.writes(Half::Electric, axis, cell));
    assert(swept[axis.position()][setup.grid.extent.slot(cell)]
        == state.electric[axis.position()][setup.grid.extent.slot(cell)]);
    lemma_injected_elsewhere(
        setup,
        swept,
        Half::Electric,
        Direction::Forward,
        axis,
        cell,
        setup.time_after(state.step + 1),
        setup.sources@.len() as int,
    );
}

/// Tangential `E` on a conducting face is zero at every step of a run, where no
/// source sits right on it.
pub proof fn walls_conduct<V: Scalar, W: Scalar, N: Numerics<V, W>>(
    setup: Setup<V, W, N>,
    step: nat,
    axis: Axis,
    cell: Cell,
)
    requires
        setup.consistent(),
        setup.grid.extent.has(cell),
        cell.along(axis.successor()) == 0 || cell.along(axis.predecessor()) == 0,
        forall|k: int|
            0 < k <= step ==> setup.undriven(
                Half::Electric,
                axis,
                cell,
                #[trigger] setup.time_after(k),
            ),
    ensures
        setup.state_at(step).electric[axis.position()][setup.grid.extent.slot(cell)]
            == number::<V>(0),
    decreases step,
{
    let rest = setup.at_rest();
    assert(rest.shaped(setup.cells()));
    slot_in_range(setup.grid.extent, cell);
    if step > 0 {
        walls_conduct(setup, (step - 1) as nat, axis, cell);
        run_keeps_shape(setup, rest, (step - 1) as nat);
        step_leaves_walls_alone(setup, setup.state_at((step - 1) as nat), axis, cell);
    }
}

/// What `H` next to a far face reads past the last cell is a conductor's zero,
/// whatever the fields are: the far walls conduct like the near ones.
pub proof fn far_walls_conduct<V: Scalar>(
    medium: Medium<V>,
    field: Seq<V>,
    cell: Cell,
    along: Axis,
)
    requires
        cell.along(along) + 1 == medium.extent.along(along),
    ensures
        medium.derivative(Half::Magnetic, field, cell, along) == times(
            medium.magnetic_gains@[along.position()]@[cell.along(along)],
            minus(number::<V>(0), field[medium.extent.slot(cell)]),
        ),
{
}

} // verus!
