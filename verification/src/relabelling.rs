//! The three axes are one.
//!
//! The curls are the same under the cyclic relabelling `x → y → z → x`, which is why
//! each of them is written once and run for all three axes.

use crate::grid::Axis;
use crate::lattice::{axes_cycle, Cell, Extent};
use crate::scalar::Scalar;
use crate::stencil::{Half, Medium};
use vstd::prelude::*;

verus! {

impl Cell {
    /// The same cell, with what was along `x` along `y`, and so on.
    pub open spec fn relabelled(self) -> Cell {
        Cell { x: self.z, y: self.x, z: self.y }
    }
}

impl Extent {
    /// The same grid, with what was along `x` along `y`, and so on.
    pub open spec fn relabelled(self) -> Extent {
        Extent { x: self.z, y: self.x, z: self.y }
    }

    /// Whether a component of the relabelled grid holds at each cell what another
    /// holds at the cell it was.
    pub open spec fn carries<V>(self, field: Seq<V>, relabelled: Seq<V>) -> bool {
        forall|cell: Cell|
            self.has(cell) ==> relabelled[self.relabelled().slot(cell.relabelled())]
                == #[trigger] field[self.slot(cell)]
    }
}

impl<V: Scalar> Medium<V> {
    /// Whether another medium has the same cells under the new names.
    pub open spec fn renamed(self, other: Medium<V>) -> bool {
        &&& other.extent == self.extent.relabelled()
        &&& forall|axis: Axis|
            #![trigger self.magnetic_gains@[axis.position()]]
            other.magnetic_gains@[axis.successor().position()]@
                == self.magnetic_gains@[axis.position()]@
        &&& forall|axis: Axis|
            #![trigger self.electric_gains@[axis.position()]]
            other.electric_gains@[axis.successor().position()]@
                == self.electric_gains@[axis.position()]@
    }
}

proof fn lemma_derivative_relabels<V: Scalar>(
    medium: Medium<V>,
    other: Medium<V>,
    half: Half,
    field: Seq<V>,
    renamed: Seq<V>,
    cell: Cell,
    along: Axis,
)
    requires
        medium.renamed(other),
        medium.extent.has(cell),
        half == Half::Electric ==> cell.along(along) >= 1,
        medium.extent.carries(field, renamed),
    ensures
        other.derivative(half, renamed, cell.relabelled(), along.successor())
            == medium.derivative(half, field, cell, along),
{
    let extent = medium.extent;
    let there = cell.relabelled();
    let way = along.successor();
    assert(there.along(way) == cell.along(along));
    assert(other.extent.along(way) == extent.along(along));
    assert(renamed[other.extent.slot(there)] == field[extent.slot(cell)]);
    assert(other.magnetic_gains@[way.position()]@ == medium.magnetic_gains@[along.position()]@);
    assert(other.electric_gains@[way.position()]@ == medium.electric_gains@[along.position()]@);
    match half {
        Half::Magnetic => {
            if cell.along(along) + 1 < extent.along(along) {
                let next = cell.moved(along, 1);
                assert(extent.has(next));
                assert(next.relabelled() == there.moved(way, 1));
                assert(renamed[other.extent.slot(next.relabelled())] == field[extent.slot(next)]);
            }
        },
        Half::Electric => {
            let last = cell.moved(along, -1);
            assert(extent.has(last));
            assert(last.relabelled() == there.moved(way, -1));
            assert(renamed[other.extent.slot(last.relabelled())] == field[extent.slot(last)]);
        },
    }
}

/// A curl does not depend on what the axes are called: relabelled cyclically, each
/// component of it is the next one.
pub proof fn curls_do_not_depend_on_names<V: Scalar>(
    medium: Medium<V>,
    other: Medium<V>,
    half: Half,
    axis: Axis,
    field_b: Seq<V>,
    field_c: Seq<V>,
    renamed_b: Seq<V>,
    renamed_c: Seq<V>,
    cell: Cell,
)
    requires
        medium.renamed(other),
        medium.extent.has(cell),
        medium.writes(half, axis, cell),
        medium.extent.carries(field_b, renamed_b),
        medium.extent.carries(field_c, renamed_c),
    ensures
        other.writes(half, axis.successor(), cell.relabelled()),
        other.curl(half, axis.successor(), renamed_b, renamed_c, cell.relabelled())
            == medium.curl(half, axis, field_b, field_c, cell),
{
    axes_cycle(axis);
    let (b, c) = (axis.successor(), axis.predecessor());
    assert(axis.successor().successor() == b.successor());
    assert(axis.successor().predecessor() == c.successor());
    lemma_derivative_relabels(medium, other, half, field_c, renamed_c, cell, b);
    lemma_derivative_relabels(medium, other, half, field_b, renamed_b, cell, c);
}

} // verus!
