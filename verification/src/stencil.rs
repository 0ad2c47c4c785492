//! The two half-updates of a step, and their inverses.
//!
//! ```text
//! H[a] ← ((1−m)·H[a] − gain·(∂E[c]/∂b − ∂E[b]/∂c)) / (1+m)     forward differences
//! E[a] ← ((1−l)·E[a] + gain·(∂H[c]/∂b − ∂H[b]/∂c)) / (1+l)     backward differences
//! ```
//!
//! with `b = a.next()` and `c = a.prev()`. The updates are invariant under the
//! cyclic relabelling `x → y → z → x`, so each is written once and run for all
//! three axes. Forward for `H` and backward for `E` is what places each derivative
//! exactly at the position of the field it updates.
//!
//! The walls are perfect conductors on either side: tangential `E` is zero on the
//! near faces, because nothing ever writes it there, and on the far faces, because
//! that is what the forward difference reads past the last cell.
//!
//! No double buffering anywhere: the `H` update reads only `E` and the `E` update
//! reads only `H`, so each is done in place.

use crate::boundary::AbsorbingProfile;
use crate::lattice::{
    axes_cycle, slot_in_range, slot_moves_by_stride, slot_of_cell, slots_distinct, Axis, Cell,
    Extent,
};
use crate::material::Coefficients;
use crate::scalar::{arithmetic, minus, number, over, plus, times, Scalar};
use vstd::prelude::*;
use vstd::slice::slice_subrange;

verus! {

/// Which of the two fields an update writes.
#[derive(Clone, Copy, Debug, Eq, PartialEq, Structural)]
pub enum Half {
    /// `H`, reading `E` ahead of each cell.
    Magnetic,
    /// `E`, reading `H` behind each cell.
    Electric,
}

/// Which way the clock runs.
#[derive(Clone, Copy, Debug, Eq, PartialEq, Structural)]
pub enum Direction {
    Forward,
    Backward,
}

/// Everything a step reads and never writes.
#[derive(Clone, Debug)]
pub struct Medium<V> {
    pub extent: Extent,
    /// Index into `coefficients`, one per cell.
    pub material_index: Vec<u32>,
    pub coefficients: Vec<Coefficients<V>>,
    pub absorber: AbsorbingProfile<V>,
    /// `c·Δt/Δ` along each axis, which the `H` update carries.
    pub magnetic_gains: [Vec<V>; 3],
    /// `c·Δt/Δ̃` along each axis, which the `E` update carries.
    pub electric_gains: [Vec<V>; 3],
}

impl<V: Scalar> Medium<V> {
    /// Every list has an entry for every cell or every coordinate it is read
    /// at, and every axis has a neighbour to difference against.
    pub open spec fn valid(self) -> bool {
        &&& self.extent.x >= 2 && self.extent.y >= 2 && self.extent.z >= 2
        &&& self.extent.countable()
        &&& self.material_index@.len() == self.extent.cells()
        &&& forall|i: int|
            0 <= i < self.material_index@.len() ==> #[trigger] self.material_index@[i]
                < self.coefficients@.len()
        &&& self.absorber.covers(self.extent)
        &&& forall|axis: Axis|
            #![trigger self.magnetic_gains@[axis.position()]]
            self.magnetic_gains@[axis.position()]@.len() == self.extent.along(axis)
        &&& forall|axis: Axis|
            #![trigger self.electric_gains@[axis.position()]]
            self.electric_gains@[axis.position()]@.len() == self.extent.along(axis)
    }

    /// Whether an update of `half` writes component `axis` at a cell.
    ///
    /// `H` is written everywhere. A backward difference needs the sample before
    /// the cell along the other two axes, so `E` is not written on the near
    /// walls it is tangential to: it keeps the zero it starts with, which is
    /// exactly a perfect electric conductor.
    pub open spec fn writes(self, half: Half, axis: Axis, cell: Cell) -> bool {
        match half {
            Half::Magnetic => true,
            Half::Electric => {
                &&& cell.along(axis.successor()) >= 1
                &&& cell.along(axis.predecessor()) >= 1
            },
        }
    }

    /// The sample after a cell along one axis. Past the last cell stands the far
    /// wall, where tangential `E` is zero: a conductor like the near one.
    pub open spec fn ahead(self, field: Seq<V>, cell: Cell, along: Axis) -> V {
        if cell.along(along) + 1 < self.extent.along(along) {
            field[self.extent.slot(cell.moved(along, 1))]
        } else {
            number(0)
        }
    }

    /// The coefficients of the material a cell is made of.
    pub open spec fn coefficients_at(self, cell: Cell) -> Coefficients<V> {
        self.coefficients@[self.material_index@[self.extent.slot(cell)] as int]
    }

    /// Half-step loss at a cell: the material's own, then the absorber's.
    pub open spec fn loss(self, half: Half, axis: Axis, cell: Cell) -> V {
        match half {
            Half::Magnetic => plus(
                plus(
                    self.coefficients_at(cell).magnetic_loss,
                    self.absorber.magnetic_constant(axis, cell.y, cell.z),
                ),
                self.absorber.magnetic_samples(axis, Axis::X)[cell.x],
            ),
            Half::Electric => plus(
                plus(
                    self.coefficients_at(cell).electric_loss,
                    self.absorber.electric_constant(axis, cell.y, cell.z),
                ),
                self.absorber.electric_samples(axis, Axis::X)[cell.x],
            ),
        }
    }

    /// The material half of the gain at a cell.
    pub open spec fn gain(self, half: Half, cell: Cell) -> V {
        match half {
            Half::Magnetic => self.coefficients_at(cell).magnetic_gain,
            Half::Electric => self.coefficients_at(cell).electric_gain,
        }
    }

    /// Derivative of a field along one axis, in units of the time step, at the
    /// position of the field being updated.
    pub open spec fn derivative(self, half: Half, field: Seq<V>, cell: Cell, along: Axis) -> V {
        match half {
            Half::Magnetic => times(
                self.magnetic_gains@[along.position()]@[cell.along(along)],
                minus(self.ahead(field, cell, along), field[self.extent.slot(cell)]),
            ),
            Half::Electric => times(
                self.electric_gains@[along.position()]@[cell.along(along)],
                minus(
                    field[self.extent.slot(cell)],
                    field[self.extent.slot(cell.moved(along, -1))],
                ),
            ),
        }
    }

    /// Component `axis` of the curl of the other field.
    pub open spec fn curl(
        self,
        half: Half,
        axis: Axis,
        field_b: Seq<V>,
        field_c: Seq<V>,
        cell: Cell,
    ) -> V {
        minus(
            self.derivative(half, field_c, cell, axis.successor()),
            self.derivative(half, field_b, cell, axis.predecessor()),
        )
    }

    /// What an update leaves at a cell.
    pub open spec fn updated(
        self,
        half: Half,
        direction: Direction,
        axis: Axis,
        target: Seq<V>,
        field_b: Seq<V>,
        field_c: Seq<V>,
        cell: Cell,
    ) -> V {
        let own = target[self.extent.slot(cell)];
        if self.writes(half, axis, cell) {
            relaxed(
                half,
                direction,
                own,
                self.loss(half, axis, cell),
                times(self.gain(half, cell), self.curl(half, axis, field_b, field_c, cell)),
            )
        } else {
            own
        }
    }

    /// A whole component after an update.
    pub open spec fn swept(
        self,
        half: Half,
        direction: Direction,
        axis: Axis,
        target: Seq<V>,
        field_b: Seq<V>,
        field_c: Seq<V>,
    ) -> Seq<V> {
        Seq::new(
            self.extent.cells() as nat,
            |i: int|
                self.updated(
                    half,
                    direction,
                    axis,
                    target,
                    field_b,
                    field_c,
                    self.extent.cell(i),
                ),
        )
    }
}

/// One cell of the update equations: `own` is the value before, `push` the curl
/// times the gain.
///
/// Running backward inverts the algebra: the two factors swap, and the curl
/// comes off again.
pub open spec fn relaxed<V: Scalar>(
    half: Half,
    direction: Direction,
    own: V,
    loss: V,
    push: V,
) -> V {
    let less = minus(number::<V>(1), loss);
    let more = plus(number::<V>(1), loss);
    match (half, direction) {
        (Half::Magnetic, Direction::Forward) => over(minus(times(less, own), push), more),
        (Half::Electric, Direction::Forward) => over(plus(times(less, own), push), more),
        (Half::Magnetic, Direction::Backward) => over(plus(times(more, own), push), less),
        (Half::Electric, Direction::Backward) => over(minus(times(more, own), push), less),
    }
}

#[inline(always)]
fn relax<V: Scalar>(half: Half, direction: Direction, own: V, loss: V, push: V) -> (r: V)
    requires
        arithmetic::<V>(),
    ensures
        r == relaxed(half, direction, own, loss, push),
{
    let less = V::from(1u8) - loss;
    let more = V::from(1u8) + loss;
    match (half, direction) {
        (Half::Magnetic, Direction::Forward) => (less * own - push) / more,
        (Half::Electric, Direction::Forward) => (less * own + push) / more,
        (Half::Magnetic, Direction::Backward) => (more * own + push) / less,
        (Half::Electric, Direction::Backward) => (more * own - push) / less,
    }
}

/// What an update leaves in one cell of a stretch. Each pair holds the components
/// along the next and the previous axis.
pub(crate) open spec fn stretch_value<V: Scalar>(
    half: Half,
    direction: Direction,
    axis: Axis,
    own: V,
    here: (V, V),
    beside: (V, V),
    gains: (V, V, V),
    material: (V, V),
    absorb: V,
) -> V {
    let gain_b = if axis == Axis::Z {
        gains.2
    } else {
        gains.0
    };
    let gain_c = if axis == Axis::Y {
        gains.2
    } else {
        gains.1
    };
    let curl = match half {
        Half::Magnetic => minus(
            times(gain_b, minus(beside.1, here.1)),
            times(gain_c, minus(beside.0, here.0)),
        ),
        Half::Electric => minus(
            times(gain_b, minus(here.1, beside.1)),
            times(gain_c, minus(here.0, beside.0)),
        ),
    };
    relaxed(half, direction, own, plus(material.1, absorb), times(material.0, curl))
}

/// The coordinate of `(x, y, z)` along one axis.
#[inline(always)]
fn position(axis: Axis, x: usize, y: usize, z: usize) -> (r: usize)
    ensures
        r == (Cell { x: x as int, y: y as int, z: z as int }).along(axis),
{
    match axis {
        Axis::X => x,
        Axis::Y => y,
        Axis::Z => z,
    }
}

/// Whether a sweep in storage order has passed a cell when it stands at
/// `(x, y, z)`.
pub(crate) open spec fn passed(cell: Cell, x: int, y: int, z: int) -> bool {
    cell.z < z || (cell.z == z && (cell.y < y || (cell.y == y && cell.x < x)))
}

impl<V: Scalar> Medium<V> {
    /// First and one-past-last coordinates an update writes, per axis.
    fn bounds(&self, half: Half, axis: Axis) -> (r: ([usize; 3], [usize; 3]))
        requires
            self.valid(),
        ensures
            forall|cell: Cell|
                self.extent.has(cell) ==> (#[trigger] self.writes(half, axis, cell) <==> {
                    &&& r.0@[0] <= cell.x < r.1@[0]
                    &&& r.0@[1] <= cell.y < r.1@[1]
                    &&& r.0@[2] <= cell.z < r.1@[2]
                }),
            forall|t: int| 0 <= t < 3 ==> r.0@[t] <= #[trigger] r.1@[t],
            r.1@[0] <= self.extent.x,
            r.1@[1] <= self.extent.y,
            r.1@[2] <= self.extent.z,
    {
        let extent = self.extent.as_array();
        let b: usize = axis.next().index();
        let c: usize = axis.prev().index();
        let mut start: [usize; 3] = [0, 0, 0];
        if half == Half::Electric {
            start[b] = 1;
            start[c] = 1;
        }
        (start, extent)
    }

    /// The geometric gains one half-update carries along one axis.
    pub open spec fn geometry(self, half: Half, along: Axis) -> Seq<V> {
        match half {
            Half::Magnetic => self.magnetic_gains@[along.position()]@,
            Half::Electric => self.electric_gains@[along.position()]@,
        }
    }

    #[inline(always)]
    fn gains(&self, half: Half, along: Axis) -> (r: &Vec<V>)
        requires
            self.valid(),
        ensures
            r@ == self.geometry(half, along),
            r@.len() == self.extent.along(along),
    {
        let t: usize = along.index();
        proof {
            assert(self.magnetic_gains@[along.position()]@.len() == self.extent.along(along));
            assert(self.electric_gains@[along.position()]@.len() == self.extent.along(along));
        }
        match half {
            Half::Magnetic => &self.magnetic_gains[t],
            Half::Electric => &self.electric_gains[t],
        }
    }

    /// Derivative of `field` along one axis at the cell stored at `index`, where
    /// it is `own`.
    #[inline(always)]
    fn difference(
        &self,
        half: Half,
        field: &Vec<V>,
        own: V,
        along: Axis,
        gains: &Vec<V>,
        position: usize,
        index: usize,
        stride: usize,
        Ghost(cell): Ghost<Cell>,
    ) -> (r: V)
        requires
            arithmetic::<V>(),
            self.valid(),
            field@.len() == self.extent.cells(),
            self.extent.has(cell),
            index == self.extent.slot(cell),
            own == field@[index as int],
            position == cell.along(along),
            stride == self.extent.stride(along),
            gains@ == self.geometry(half, along),
            gains@.len() == self.extent.along(along),
            half == Half::Electric ==> self.extent.has(cell.moved(along, -1)),
        ensures
            r == self.derivative(half, field@, cell, along),
    {
        proof {
            slot_in_range(self.extent, cell);
        }
        match half {
            Half::Magnetic => {
                let ahead = if position + 1 < gains.len() {
                    proof {
                        assert(self.extent.has(cell.moved(along, 1)));
                        slot_in_range(self.extent, cell.moved(along, 1));
                        slot_moves_by_stride(self.extent, cell, along, 1);
                    }
                    field[index + stride]
                } else {
                    V::from(0u8)
                };
                gains[position] * (ahead - own)
            },
            Half::Electric => {
                proof {
                    slot_in_range(self.extent, cell.moved(along, -1));
                    slot_moves_by_stride(self.extent, cell, along, -1);
                }
                gains[position] * (own - field[index - stride])
            },
        }
    }

    /// Runs one half-update over one component, in place.
    ///
    /// `target` is the component itself; `field_b` and `field_c` are the
    /// components of the other field along the next and the previous axis.
    pub fn sweep(
        &self,
        half: Half,
        direction: Direction,
        axis: Axis,
        target: &mut Vec<V>,
        field_b: &Vec<V>,
        field_c: &Vec<V>,
    )
        requires
            arithmetic::<V>(),
            self.valid(),
            old(target)@.len() == self.extent.cells(),
            field_b@.len() == self.extent.cells(),
            field_c@.len() == self.extent.cells(),
        ensures
            final(target)@ == self.swept(
                half,
                direction,
                axis,
                old(target)@,
                field_b@,
                field_c@,
            ),
    {
        match axis {
            Axis::X => self.sweep_axis(half, direction, Axis::X, target, field_b, field_c),
            Axis::Y => self.sweep_axis(half, direction, Axis::Y, target, field_b, field_c),
            Axis::Z => self.sweep_axis(half, direction, Axis::Z, target, field_b, field_c),
        }
    }

    /// The sweep over one component, compiled once for each axis.
    #[inline(always)]
    fn sweep_axis(
        &self,
        half: Half,
        direction: Direction,
        axis: Axis,
        target: &mut Vec<V>,
        field_b: &Vec<V>,
        field_c: &Vec<V>,
    )
        requires
            arithmetic::<V>(),
            self.valid(),
            old(target)@.len() == self.extent.cells(),
            field_b@.len() == self.extent.cells(),
            field_c@.len() == self.extent.cells(),
        ensures
            final(target)@ == self.swept(
                half,
                direction,
                axis,
                old(target)@,
                field_b@,
                field_c@,
            ),
    {
        match (half, direction) {
            (Half::Magnetic, Direction::Forward) => self.sweep_rows(
                Half::Magnetic,
                Direction::Forward,
                axis,
                target,
                field_b,
                field_c,
            ),
            (Half::Magnetic, Direction::Backward) => self.sweep_rows(
                Half::Magnetic,
                Direction::Backward,
                axis,
                target,
                field_b,
                field_c,
            ),
            (Half::Electric, Direction::Forward) => self.sweep_rows(
                Half::Electric,
                Direction::Forward,
                axis,
                target,
                field_b,
                field_c,
            ),
            (Half::Electric, Direction::Backward) => self.sweep_rows(
                Half::Electric,
                Direction::Backward,
                axis,
                target,
                field_b,
                field_c,
            ),
        }
    }

    /// The sweep itself, compiled once for each of the four updates, so that the
    /// innermost loop does not ask which one it is.
    #[inline(always)]
    fn sweep_rows(
        &self,
        half: Half,
        direction: Direction,
        axis: Axis,
        target: &mut Vec<V>,
        field_b: &Vec<V>,
        field_c: &Vec<V>,
    )
        requires
            arithmetic::<V>(),
            self.valid(),
            old(target)@.len() == self.extent.cells(),
            field_b@.len() == self.extent.cells(),
            field_c@.len() == self.extent.cells(),
        ensures
            final(target)@ == self.swept(
                half,
                direction,
                axis,
                old(target)@,
                field_b@,
                field_c@,
            ),
    {
        let ghost before = target@;
        let extent = self.extent.as_array();
        let strides = self.extent.strides();
        let b = axis.next();
        let c = axis.prev();
        let stride_b: usize = strides[b.index()];
        let stride_c: usize = strides[c.index()];
        let (start, limit) = self.bounds(half, axis);
        let mut z: usize = start[2];
        while z < limit[2]
            invariant
                arithmetic::<V>(),
                self.valid(),
                target@.len() == self.extent.cells(),
                before.len() == self.extent.cells(),
                field_b@.len() == self.extent.cells(),
                field_c@.len() == self.extent.cells(),
                extent@ == seq![
                    self.extent.x as usize,
                    self.extent.y as usize,
                    self.extent.z as usize,
                ],
                b == axis.successor(),
                c == axis.predecessor(),
                stride_b == self.extent.stride(b),
                stride_c == self.extent.stride(c),
                forall|cell: Cell|
                    self.extent.has(cell) ==> (#[trigger] self.writes(half, axis, cell) <==> {
                        &&& start@[0] <= cell.x < limit@[0]
                        &&& start@[1] <= cell.y < limit@[1]
                        &&& start@[2] <= cell.z < limit@[2]
                    }),
                start@[0] <= limit@[0] <= self.extent.x,
                start@[1] <= limit@[1] <= self.extent.y,
                start@[2] <= limit@[2] <= self.extent.z,
                start@[2] <= z <= limit@[2],
                forall|cell: Cell|
                    self.extent.has(cell) ==> target@[#[trigger] self.extent.slot(cell)] == (
                    if passed(cell, start@[0] as int, start@[1] as int, z as int) {
                        self.updated(half, direction, axis, before, field_b@, field_c@, cell)
                    } else {
                        before[self.extent.slot(cell)]
                    }),
            decreases limit@[2] - z,
        {
            let mut y: usize = start[1];
            while y < limit[1]
                invariant
                    arithmetic::<V>(),
                    self.valid(),
                    target@.len() == self.extent.cells(),
                    before.len() == self.extent.cells(),
                    field_b@.len() == self.extent.cells(),
                    field_c@.len() == self.extent.cells(),
                    extent@ == seq![
                        self.extent.x as usize,
                        self.extent.y as usize,
                        self.extent.z as usize,
                    ],
                    b == axis.successor(),
                    c == axis.predecessor(),
                    stride_b == self.extent.stride(b),
                    stride_c == self.extent.stride(c),
                    forall|cell: Cell|
                        self.extent.has(cell) ==> (#[trigger] self.writes(half, axis, cell) <==> {
                            &&& start@[0] <= cell.x < limit@[0]
                            &&& start@[1] <= cell.y < limit@[1]
                            &&& start@[2] <= cell.z < limit@[2]
                        }),
                    start@[0] <= limit@[0] <= self.extent.x,
                    start@[1] <= limit@[1] <= self.extent.y,
                    start@[2] <= limit@[2] <= self.extent.z,
                    start@[2] <= z < limit@[2],
                    start@[1] <= y <= limit@[1],
                    forall|cell: Cell|
                        self.extent.has(cell) ==> target@[#[trigger] self.extent.slot(cell)] == (
                        if passed(cell, start@[0] as int, y as int, z as int) {
                            self.updated(half, direction, axis, before, field_b@, field_c@, cell)
                        } else {
                            before[self.extent.slot(cell)]
                        }),
                decreases limit@[1] - y,
            {
                self.sweep_row(
                    half,
                    direction,
                    axis,
                    target,
                    field_b,
                    field_c,
                    [start[0], limit[0]],
                    [y, z],
                    [stride_b, stride_c],
                    Ghost(before),
                );
                proof {
                    assert forall|cell: Cell| self.extent.has(cell) implies target@[
                        #[trigger] self.extent.slot(cell)
                    ] == (if passed(cell, start@[0] as int, y + 1, z as int) {
                        self.updated(half, direction, axis, before, field_b@, field_c@, cell)
                    } else {
                        before[self.extent.slot(cell)]
                    }) by {
                        assert(self.writes(half, axis, cell) <==> {
                            &&& start@[0] <= cell.x < limit@[0]
                            &&& start@[1] <= cell.y < limit@[1]
                            &&& start@[2] <= cell.z < limit@[2]
                        });
                    }
                }
                y = y + 1;
            }
            proof {
                assert forall|cell: Cell| self.extent.has(cell) implies target@[
                    #[trigger] self.extent.slot(cell)
                ] == (if passed(cell, start@[0] as int, start@[1] as int, z + 1) {
                    self.updated(half, direction, axis, before, field_b@, field_c@, cell)
                } else {
                    before[self.extent.slot(cell)]
                }) by {
                    assert(self.writes(half, axis, cell) <==> {
                        &&& start@[0] <= cell.x < limit@[0]
                        &&& start@[1] <= cell.y < limit@[1]
                        &&& start@[2] <= cell.z < limit@[2]
                    });
                }
            }
            z = z + 1;
        }
        proof {
            let after = self.swept(half, direction, axis, before, field_b@, field_c@);
            assert forall|i: int| 0 <= i < self.extent.cells() implies target@[i] == after[i] by {
                let cell = self.extent.cell(i);
                slot_of_cell(self.extent, i);
                assert(self.extent.slot(cell) == i);
                assert(self.writes(half, axis, cell) <==> {
                    &&& start@[0] <= cell.x < limit@[0]
                    &&& start@[1] <= cell.y < limit@[1]
                    &&& start@[2] <= cell.z < limit@[2]
                });
            }
            assert(target@ =~= after);
        }
    }

    /// Whether the cells of a stretch of a row are all of one material.
    #[inline(always)]
    fn is_uniform(&self, row: usize, from: usize, to: usize) -> (r: bool)
        requires
            from < to,
            row + to <= self.material_index@.len(),
        ensures
            r ==> forall|x: int|
                from <= x < to ==> #[trigger] self.material_index@[row + x]
                    == self.material_index@[row + from],
    {
        let all: &[u32] = self.material_index.as_slice();
        let len: usize = all.len();
        assert(row + to <= len);
        let stretch: &[u32] = slice_subrange(
            all,
            row + from,
            row + to,
        );
        let first: u32 = stretch[0];
        let n: usize = to - from;
        let mut differing: u32 = 0;
        let mut i: usize = 0;
        while i < n
            invariant
                i <= n,
                n == to - from,
                stretch@ == self.material_index@.subrange(row + from, row + to),
                row + to <= self.material_index@.len(),
                differing == 0 ==> forall|k: int| 0 <= k < i ==> #[trigger] stretch@[k] == first,
            decreases n - i,
        {
            let next: u32 = stretch[i];
            let before: u32 = differing;
            differing = differing | (next ^ first);
            assert(differing == 0 ==> before == 0 && next == first) by (bit_vector)
                requires
                    differing == before | (next ^ first),
            ;
            i = i + 1;
        }
        proof {
            if differing == 0 {
                assert forall|x: int| from <= x < to implies #[trigger] self.material_index@[row
                    + x] == self.material_index@[row + from] by {
                    assert(stretch@[x - from] == first);
                    assert(stretch@[0] == first);
                }
            }
        }
        differing == 0
    }

    /// Runs an update over a stretch of one material, given as slices: the component
    /// itself, and the other field at each cell and at the cell beside it.
    ///
    /// Nothing in the loop depends on anything but the position in the slices, so it
    /// compiles to code that takes several cells at a time.
    #[inline(always)]
    fn relax_stretch(
        half: Half,
        direction: Direction,
        axis: Axis,
        target: &mut [V],
        here: (&[V], &[V]),
        beside: (&[V], &[V]),
        gains: (V, V, &[V]),
        material: (V, V),
        absorb: &[V],
    )
        requires
            arithmetic::<V>(),
            here.0@.len() == old(target)@.len(),
            here.1@.len() == old(target)@.len(),
            beside.0@.len() == old(target)@.len(),
            beside.1@.len() == old(target)@.len(),
            gains.2@.len() == old(target)@.len(),
            absorb@.len() == old(target)@.len(),
        ensures
            final(target)@.len() == old(target)@.len(),
            forall|i: int|
                0 <= i < old(target)@.len() ==> #[trigger] final(target)@[i] == stretch_value(
                    half,
                    direction,
                    axis,
                    old(target)@[i],
                    (here.0@[i], here.1@[i]),
                    (beside.0@[i], beside.1@[i]),
                    (gains.0, gains.1, gains.2@[i]),
                    material,
                    absorb@[i],
                ),
    {
        let n: usize = target.len();
        let ghost before = target@;
        let here_b: &[V] = slice_subrange(here.0, 0, n);
        let here_c: &[V] = slice_subrange(here.1, 0, n);
        let beside_b: &[V] = slice_subrange(beside.0, 0, n);
        let beside_c: &[V] = slice_subrange(beside.1, 0, n);
        let gains_x: &[V] = slice_subrange(gains.2, 0, n);
        let absorbed: &[V] = slice_subrange(absorb, 0, n);
        let (gain, loss) = material;
        let mut i: usize = 0;
        while i < n
            invariant
                arithmetic::<V>(),
                i <= n,
                n == before.len(),
                target@.len() == n,
                here_b@ =~= here.0@,
                here_c@ =~= here.1@,
                beside_b@ =~= beside.0@,
                beside_c@ =~= beside.1@,
                gains_x@ =~= gains.2@,
                absorbed@ =~= absorb@,
                here.0@.len() == n,
                here.1@.len() == n,
                beside.0@.len() == n,
                beside.1@.len() == n,
                gains.2@.len() == n,
                absorb@.len() == n,
                (gain, loss) == material,
                forall|k: int| i <= k < n ==> #[trigger] target@[k] == before[k],
                forall|k: int|
                    0 <= k < i ==> #[trigger] target@[k] == stretch_value(
                        half,
                        direction,
                        axis,
                        before[k],
                        (here.0@[k], here.1@[k]),
                        (beside.0@[k], beside.1@[k]),
                        (gains.0, gains.1, gains.2@[k]),
                        material,
                        absorb@[k],
                    ),
            decreases n - i,
        {
            let gain_b = if axis == Axis::Z {
                gains_x[i]
            } else {
                gains.0
            };
            let gain_c = if axis == Axis::Y {
                gains_x[i]
            } else {
                gains.1
            };
            let curl = match half {
                Half::Magnetic => gain_b * (beside_c[i] - here_c[i]) - gain_c * (beside_b[i]
                    - here_b[i]),
                Half::Electric => gain_b * (here_c[i] - beside_c[i]) - gain_c * (here_b[i]
                    - beside_b[i]),
            };
            let value = relax(half, direction, target[i], loss + absorbed[i], gain * curl);
            target[i] = value;
            i = i + 1;
        }
    }

    /// The part of a sweep along one row of `x`: in one stretch as far as the row is
    /// of one material and clear of the far walls, and cell by cell where it is not.
    #[inline(always)]
    fn sweep_row(
        &self,
        half: Half,
        direction: Direction,
        axis: Axis,
        target: &mut Vec<V>,
        field_b: &Vec<V>,
        field_c: &Vec<V>,
        span: [usize; 2],
        place: [usize; 2],
        strides: [usize; 2],
        Ghost(before): Ghost<Seq<V>>,
    )
        requires
            arithmetic::<V>(),
            self.valid(),
            old(target)@.len() == self.extent.cells(),
            before.len() == self.extent.cells(),
            field_b@.len() == self.extent.cells(),
            field_c@.len() == self.extent.cells(),
            strides@[0] == self.extent.stride(axis.successor()),
            strides@[1] == self.extent.stride(axis.predecessor()),
            span@[0] <= span@[1] <= self.extent.x,
            place@[0] < self.extent.y,
            place@[1] < self.extent.z,
            forall|x: int|
                span@[0] <= x < span@[1] ==> #[trigger] self.writes(
                    half,
                    axis,
                    (Cell { x, y: place@[0] as int, z: place@[1] as int }),
                ),
            forall|cell: Cell|
                self.extent.has(cell) ==> old(target)@[#[trigger] self.extent.slot(cell)] == (
                if passed(cell, span@[0] as int, place@[0] as int, place@[1] as int) {
                    self.updated(half, direction, axis, before, field_b@, field_c@, cell)
                } else {
                    before[self.extent.slot(cell)]
                }),
        ensures
            final(target)@.len() == self.extent.cells(),
            forall|cell: Cell|
                self.extent.has(cell) ==> final(target)@[#[trigger] self.extent.slot(cell)] == (
                if passed(cell, span@[1] as int, place@[0] as int, place@[1] as int) {
                    self.updated(half, direction, axis, before, field_b@, field_c@, cell)
                } else {
                    before[self.extent.slot(cell)]
                }),
    {
        let y: usize = place[0];
        let z: usize = place[1];
        let (from, end) = (span[0], span[1]);
        let b = axis.next();
        let c = axis.prev();
        proof {
            axes_cycle(axis);
            if end > 0 {
                let last = Cell { x: end - 1, y: y as int, z: z as int };
                slot_in_range(self.extent, last);
                slot_moves_by_stride(
                    self.extent,
                    Cell { x: 0, y: y as int, z: z as int },
                    Axis::X,
                    end - 1,
                );
            }
            slot_in_range(self.extent, Cell { x: 0, y: y as int, z: z as int });
        }
        let row: usize = self.extent.index([0, y, z]);
        // Along `x` the last cell reads the far wall; along the other two a whole row
        // does.
        let to: usize = if half == Half::Magnetic && axis != Axis::X && end > 0 {
            end - 1
        } else {
            end
        };
        let clear = half == Half::Electric || ((b == Axis::X || position(b, 0, y, z) + 1
            < self.gains(half, b).len()) && (c == Axis::X || position(c, 0, y, z) + 1
            < self.gains(half, c).len()));
        let fast = from < to && clear && self.is_uniform(row, from, to);
        if fast {
            proof {
                assert forall|x: int, along: Axis|
                    #![trigger self.beside(half, (Cell { x, y: y as int, z: z as int }), along)]
                    from <= x < to && along != axis implies self.extent.has(
                    self.beside(half, (Cell { x, y: y as int, z: z as int }), along),
                ) by {
                    let cell = Cell { x, y: y as int, z: z as int };
                    assert(self.writes(half, axis, cell));
                    assert(along == b || along == c);
                }
            }
            let ghost earlier = target@;
            let ghost first = Cell { x: from as int, y: y as int, z: z as int };
            let ghost last = Cell { x: to - 1, y: y as int, z: z as int };
            proof {
                assert(self.extent.has(self.beside(half, first, b)));
                assert(self.extent.has(self.beside(half, first, c)));
                assert(self.extent.has(self.beside(half, last, b)));
                assert(self.extent.has(self.beside(half, last, c)));
                self.lemma_stretch_slots(half, axis, first, row as int);
            }
            self.sweep_stretch(
                half,
                direction,
                axis,
                target,
                field_b,
                field_c,
                [from, to],
                place,
                strides,
                row,
            );
            proof {
                self.lemma_stretch_done(
                    half,
                    direction,
                    axis,
                    (before, earlier, target@),
                    (field_b@, field_c@),
                    (from as int, to as int),
                    (y as int, z as int, row as int),
                    (
                        self.geometry(half, b)[first.along(b)],
                        self.geometry(half, c)[first.along(c)],
                    ),
                    (
                        self.gain(half, first),
                        match half {
                            Half::Magnetic => plus(
                                self.coefficients_at(first).magnetic_loss,
                                self.absorber.magnetic_constant(axis, y as int, z as int),
                            ),
                            Half::Electric => plus(
                                self.coefficients_at(first).electric_loss,
                                self.absorber.electric_constant(axis, y as int, z as int),
                            ),
                        },
                    ),
                );
            }
            self.sweep_cells(
                half,
                direction,
                axis,
                target,
                field_b,
                field_c,
                [to, end],
                place,
                strides,
                Ghost(before),
            );
        } else {
            self.sweep_cells(
                half,
                direction,
                axis,
                target,
                field_b,
                field_c,
                span,
                place,
                strides,
                Ghost(before),
            );
        }
    }

    /// Where a cell of a row and the cells read beside it are stored.
    proof fn lemma_stretch_slots(self, half: Half, axis: Axis, cell: Cell, row: int)
        requires
            self.extent.has(cell),
            row == self.extent.slot((Cell { x: 0, y: cell.y, z: cell.z })),
            self.extent.has(self.beside(half, cell, axis.successor())),
            self.extent.has(self.beside(half, cell, axis.predecessor())),
        ensures
            self.extent.slot(cell) == row + cell.x,
            0 <= row + cell.x < self.extent.cells(),
            ({
                let (b, c) = (axis.successor(), axis.predecessor());
                &&& self.extent.slot(self.beside(half, cell, b)) == row + cell.x + self.offset(half, b)
                &&& 0 <= row + cell.x + self.offset(half, b) < self.extent.cells()
                &&& self.extent.slot(self.beside(half, cell, c)) == row + cell.x + self.offset(half, c)
                &&& 0 <= row + cell.x + self.offset(half, c) < self.extent.cells()
            }),
    {
        let origin = Cell { x: 0, y: cell.y, z: cell.z };
        let (b, c) = (axis.successor(), axis.predecessor());
        slot_in_range(self.extent, cell);
        slot_moves_by_stride(self.extent, origin, Axis::X, cell.x);
        assert(origin.moved(Axis::X, cell.x) == cell);
        slot_in_range(self.extent, self.beside(half, cell, b));
        slot_in_range(self.extent, self.beside(half, cell, c));
        slot_moves_by_stride(self.extent, cell, b, 1);
        slot_moves_by_stride(self.extent, cell, b, -1);
        slot_moves_by_stride(self.extent, cell, c, 1);
        slot_moves_by_stride(self.extent, cell, c, -1);
    }

    /// The part of a sweep along a stretch of one material.
    #[inline(always)]
    #[verifier::rlimit(60)]
    fn sweep_stretch(
        &self,
        half: Half,
        direction: Direction,
        axis: Axis,
        target: &mut Vec<V>,
        field_b: &Vec<V>,
        field_c: &Vec<V>,
        span: [usize; 2],
        place: [usize; 2],
        strides: [usize; 2],
        row: usize,
    )
        requires
            arithmetic::<V>(),
            self.valid(),
            old(target)@.len() == self.extent.cells(),
            field_b@.len() == self.extent.cells(),
            field_c@.len() == self.extent.cells(),
            strides@[0] == self.extent.stride(axis.successor()),
            strides@[1] == self.extent.stride(axis.predecessor()),
            span@[0] < span@[1] <= self.extent.x,
            place@[0] < self.extent.y,
            place@[1] < self.extent.z,
            row == self.extent.slot((Cell { x: 0, y: place@[0] as int, z: place@[1] as int })),
            ({
                let first = Cell { x: span@[0] as int, y: place@[0] as int, z: place@[1] as int };
                let last = Cell { x: span@[1] - 1, y: place@[0] as int, z: place@[1] as int };
                let (b, c) = (axis.successor(), axis.predecessor());
                &&& self.extent.has(self.beside(half, first, b))
                &&& self.extent.has(self.beside(half, first, c))
                &&& self.extent.has(self.beside(half, last, b))
                &&& self.extent.has(self.beside(half, last, c))
            }),
        ensures
            final(target)@.len() == self.extent.cells(),
            forall|j: int|
                0 <= j < old(target)@.len() && !(row + span@[0] <= j < row + span@[1])
                    ==> #[trigger] final(target)@[j] == old(target)@[j],
            ({
                let first = Cell { x: span@[0] as int, y: place@[0] as int, z: place@[1] as int };
                let (b, c) = (axis.successor(), axis.predecessor());
                let (absorb, base) = match half {
                    Half::Magnetic => (
                        self.absorber.magnetic_samples(axis, Axis::X),
                        plus(
                            self.coefficients_at(first).magnetic_loss,
                            self.absorber.magnetic_constant(axis, first.y, first.z),
                        ),
                    ),
                    Half::Electric => (
                        self.absorber.electric_samples(axis, Axis::X),
                        plus(
                            self.coefficients_at(first).electric_loss,
                            self.absorber.electric_constant(axis, first.y, first.z),
                        ),
                    ),
                };
                forall|j: int|
                    row + span@[0] <= j < row + span@[1] ==> #[trigger] final(target)@[j]
                        == stretch_value(
                        half,
                        direction,
                        axis,
                        old(target)@[j],
                        (field_b@[j], field_c@[j]),
                        (
                            field_b@[j + self.offset(half, c)],
                            field_c@[j + self.offset(half, b)],
                        ),
                        (
                            self.geometry(half, b)[first.along(b)],
                            self.geometry(half, c)[first.along(c)],
                            self.geometry(half, Axis::X)[j - row],
                        ),
                        (self.gain(half, first), base),
                        absorb[j - row],
                    )
            }),
    {
        let y: usize = place[0];
        let z: usize = place[1];
        let (from, to) = (span[0], span[1]);
        let n: usize = to - from;
        let b = axis.next();
        let c = axis.prev();
        let ghost first = Cell { x: from as int, y: y as int, z: z as int };
        let ghost last = Cell { x: to - 1, y: y as int, z: z as int };
        proof {
            axes_cycle(axis);
            self.lemma_stretch_slots(half, axis, first, row as int);
            self.lemma_stretch_slots(half, axis, last, row as int);
            assert(self.absorber.integer@[Axis::X.position()]@.len() == self.extent.x);
            assert(self.absorber.integer@[Axis::Y.position()]@.len() == self.extent.y);
            assert(self.absorber.integer@[Axis::Z.position()]@.len() == self.extent.z);
        }
        let start: usize = row + from;
        let (beside_b, beside_c) = match half {
            Half::Magnetic => (start + strides[1], start + strides[0]),
            Half::Electric => (start - strides[1], start - strides[0]),
        };
        let (absorb_x, absorb_row) = match half {
            Half::Magnetic => self.absorber.magnetic_row(axis, y, z),
            Half::Electric => self.absorber.electric_row(axis, y, z),
        };
        let gains_b = self.gains(half, b);
        let gains_c = self.gains(half, c);
        let gains_x = self.gains(half, Axis::X);
        let material: usize = self.material_index[start] as usize;
        let (gain, loss) = match half {
            Half::Magnetic => (
                self.coefficients[material].magnetic_gain,
                self.coefficients[material].magnetic_loss,
            ),
            Half::Electric => (
                self.coefficients[material].electric_gain,
                self.coefficients[material].electric_loss,
            ),
        };
        let gain_b = gains_b[position(b, from, y, z)];
        let gain_c = gains_c[position(c, from, y, z)];
        Self::relax_within(
            half,
            direction,
            axis,
            target,
            [start, start + n],
            (
                slice_subrange(field_b.as_slice(), start, start + n),
                slice_subrange(field_c.as_slice(), start, start + n),
            ),
            (
                slice_subrange(field_b.as_slice(), beside_b, beside_b + n),
                slice_subrange(field_c.as_slice(), beside_c, beside_c + n),
            ),
            (gain_b, gain_c, slice_subrange(gains_x.as_slice(), from, to)),
            (gain, loss + absorb_row),
            slice_subrange(absorb_x, from, to),
        );
    }

    /// What a stretch was left holding is what the sweep owes.
    proof fn lemma_stretch_done(
        self,
        half: Half,
        direction: Direction,
        axis: Axis,
        target: (Seq<V>, Seq<V>, Seq<V>),
        fields: (Seq<V>, Seq<V>),
        span: (int, int),
        place: (int, int, int),
        gains: (V, V),
        material: (V, V),
    )
        requires
            self.valid(),
            0 <= span.0 < span.1 <= self.extent.x,
            0 <= place.0 < self.extent.y,
            0 <= place.1 < self.extent.z,
            place.2 == self.extent.slot((Cell { x: 0, y: place.0, z: place.1 })),
            target.1.len() == self.extent.cells(),
            target.2.len() == self.extent.cells(),
            forall|x: int|
                span.0 <= x < span.1 ==> #[trigger] self.material_index@[place.2 + x]
                    == self.material_index@[place.2 + span.0],
            forall|x: int|
                span.0 <= x < span.1 ==> #[trigger] self.writes(
                    half,
                    axis,
                    (Cell { x, y: place.0, z: place.1 }),
                ),
            forall|x: int, along: Axis|
                #![trigger self.beside(half, (Cell { x, y: place.0, z: place.1 }), along)]
                span.0 <= x < span.1 && along != axis ==> self.extent.has(
                    self.beside(half, (Cell { x, y: place.0, z: place.1 }), along),
                ),
            forall|cell: Cell|
                self.extent.has(cell) ==> target.1[#[trigger] self.extent.slot(cell)] == (
                if passed(cell, span.0, place.0, place.1) {
                    self.updated(half, direction, axis, target.0, fields.0, fields.1, cell)
                } else {
                    target.0[self.extent.slot(cell)]
                }),
            ({
                let first = Cell { x: span.0, y: place.0, z: place.1 };
                let (b, c) = (axis.successor(), axis.predecessor());
                &&& gains.0 == self.geometry(half, b)[first.along(b)]
                &&& gains.1 == self.geometry(half, c)[first.along(c)]
                &&& material.0 == self.gain(half, first)
                &&& material.1 == match half {
                    Half::Magnetic => plus(
                        self.coefficients_at(first).magnetic_loss,
                        self.absorber.magnetic_constant(axis, place.0, place.1),
                    ),
                    Half::Electric => plus(
                        self.coefficients_at(first).electric_loss,
                        self.absorber.electric_constant(axis, place.0, place.1),
                    ),
                }
            }),
            forall|j: int|
                0 <= j < target.1.len() && !(place.2 + span.0 <= j < place.2 + span.1)
                    ==> #[trigger] target.2[j] == target.1[j],
            ({
                let (b, c) = (axis.successor(), axis.predecessor());
                let absorb = match half {
                    Half::Magnetic => self.absorber.magnetic_samples(axis, Axis::X),
                    Half::Electric => self.absorber.electric_samples(axis, Axis::X),
                };
                forall|j: int|
                    place.2 + span.0 <= j < place.2 + span.1 ==> #[trigger] target.2[j]
                        == stretch_value(
                        half,
                        direction,
                        axis,
                        target.1[j],
                        (fields.0[j], fields.1[j]),
                        (
                            fields.0[j + self.offset(half, c)],
                            fields.1[j + self.offset(half, b)],
                        ),
                        (gains.0, gains.1, self.geometry(half, Axis::X)[j - place.2]),
                        material,
                        absorb[j - place.2],
                    )
            }),
        ensures
            forall|cell: Cell|
                self.extent.has(cell) ==> target.2[#[trigger] self.extent.slot(cell)] == (
                if passed(cell, span.1, place.0, place.1) {
                    self.updated(half, direction, axis, target.0, fields.0, fields.1, cell)
                } else {
                    target.0[self.extent.slot(cell)]
                }),
    {
        let extent = self.extent;
        assert forall|cell: Cell| extent.has(cell) implies target.2[#[trigger] extent.slot(
            cell,
        )] == (if passed(cell, span.1, place.0, place.1) {
            self.updated(half, direction, axis, target.0, fields.0, fields.1, cell)
        } else {
            target.0[extent.slot(cell)]
        }) by {
            slot_in_range(extent, cell);
            axes_cycle(axis);
            if cell.y == place.0 && cell.z == place.1 && span.0 <= cell.x < span.1 {
                let at = Cell { x: cell.x, y: place.0, z: place.1 };
                assert(at == cell);
                assert(extent.has(self.beside(half, at, axis.successor())));
                assert(extent.has(self.beside(half, at, axis.predecessor())));
                self.lemma_stretch_slots(half, axis, cell, place.2);
                assert(self.writes(half, axis, at));
                let first = Cell { x: span.0, y: place.0, z: place.1 };
                assert(extent.has(self.beside(half, first, axis.successor())));
                assert(extent.has(self.beside(half, first, axis.predecessor())));
                self.lemma_stretch_slots(half, axis, first, place.2);
                assert(self.material_index@[place.2 + cell.x] == self.material_index@[place.2
                    + span.0]);
                self.lemma_stretch_value(
                    half,
                    direction,
                    axis,
                    target.0,
                    fields.0,
                    fields.1,
                    cell,
                    gains,
                );
                assert(target.1[extent.slot(cell)] == target.0[extent.slot(cell)]);
            } else {
                let j = extent.slot(cell);
                if place.2 + span.0 <= j < place.2 + span.1 {
                    let at = Cell { x: j - place.2, y: place.0, z: place.1 };
                    assert(extent.has(self.beside(half, at, axis.successor())));
                    assert(extent.has(self.beside(half, at, axis.predecessor())));
                    self.lemma_stretch_slots(half, axis, at, place.2);
                    slots_distinct(extent, cell, at);
                }
                assert(target.2[j] == target.1[j]);
            }
        }
    }

    /// A cell of a stretch holds what the update leaves there.
    proof fn lemma_stretch_value(
        self,
        half: Half,
        direction: Direction,
        axis: Axis,
        target: Seq<V>,
        field_b: Seq<V>,
        field_c: Seq<V>,
        cell: Cell,
        gains: (V, V),
    )
        requires
            self.extent.has(cell),
            self.writes(half, axis, cell),
            self.extent.has(self.beside(half, cell, axis.successor())),
            self.extent.has(self.beside(half, cell, axis.predecessor())),
            axis != Axis::Z ==> gains.0 == self.geometry(half, axis.successor())[cell.along(
                axis.successor(),
            )],
            axis != Axis::Y ==> gains.1 == self.geometry(half, axis.predecessor())[cell.along(
                axis.predecessor(),
            )],
        ensures
            self.updated(half, direction, axis, target, field_b, field_c, cell) == stretch_value(
                half,
                direction,
                axis,
                target[self.extent.slot(cell)],
                (field_b[self.extent.slot(cell)], field_c[self.extent.slot(cell)]),
                (
                    field_b[self.extent.slot(self.beside(half, cell, axis.predecessor()))],
                    field_c[self.extent.slot(self.beside(half, cell, axis.successor()))],
                ),
                (gains.0, gains.1, self.geometry(half, Axis::X)[cell.x]),
                (
                    self.gain(half, cell),
                    match half {
                        Half::Magnetic => plus(
                            self.coefficients_at(cell).magnetic_loss,
                            self.absorber.magnetic_constant(axis, cell.y, cell.z),
                        ),
                        Half::Electric => plus(
                            self.coefficients_at(cell).electric_loss,
                            self.absorber.electric_constant(axis, cell.y, cell.z),
                        ),
                    },
                ),
                match half {
                    Half::Magnetic => self.absorber.magnetic_samples(axis, Axis::X)[cell.x],
                    Half::Electric => self.absorber.electric_samples(axis, Axis::X)[cell.x],
                },
            ),
    {
        axes_cycle(axis);
    }

    /// Runs an update over a stretch of a component, in place.
    #[inline(always)]
    fn relax_within(
        half: Half,
        direction: Direction,
        axis: Axis,
        target: &mut Vec<V>,
        span: [usize; 2],
        here: (&[V], &[V]),
        beside: (&[V], &[V]),
        gains: (V, V, &[V]),
        material: (V, V),
        absorb: &[V],
    )
        requires
            arithmetic::<V>(),
            span@[0] <= span@[1] <= old(target)@.len(),
            here.0@.len() == span@[1] - span@[0],
            here.1@.len() == span@[1] - span@[0],
            beside.0@.len() == span@[1] - span@[0],
            beside.1@.len() == span@[1] - span@[0],
            gains.2@.len() == span@[1] - span@[0],
            absorb@.len() == span@[1] - span@[0],
        ensures
            final(target)@.len() == old(target)@.len(),
            forall|j: int|
                0 <= j < old(target)@.len() && !(span@[0] <= j < span@[1])
                    ==> #[trigger] final(target)@[j] == old(target)@[j],
            forall|j: int|
                span@[0] <= j < span@[1] ==> #[trigger] final(target)@[j] == stretch_value(
                    half,
                    direction,
                    axis,
                    old(target)@[j],
                    (here.0@[j - span@[0]], here.1@[j - span@[0]]),
                    (beside.0@[j - span@[0]], beside.1@[j - span@[0]]),
                    (gains.0, gains.1, gains.2@[j - span@[0]]),
                    material,
                    absorb@[j - span@[0]],
                ),
    {
        let ghost earlier = target@;
        let (start, end) = (span[0], span[1]);
        let whole = target.as_mut_slice();
        let (_, rest) = whole.split_at_mut(start);
        let (stretch, _) = rest.split_at_mut(end - start);
        Self::relax_stretch(half, direction, axis, stretch, here, beside, gains, material, absorb);
        proof {
            assert forall|j: int| start <= j < end implies #[trigger] target@[j] == stretch_value(
                half,
                direction,
                axis,
                earlier[j],
                (here.0@[j - start], here.1@[j - start]),
                (beside.0@[j - start], beside.1@[j - start]),
                (gains.0, gains.1, gains.2@[j - start]),
                material,
                absorb@[j - start],
            ) by {
                let i = j - start;
                assert(earlier.subrange(start as int, earlier.len() as int).subrange(
                    0,
                    end - start,
                )[i] == earlier[j]);
            }
        }
    }

    /// How far from a cell the one an update reads beside it is stored.
    pub open spec fn offset(self, half: Half, along: Axis) -> int {
        match half {
            Half::Magnetic => self.extent.stride(along),
            Half::Electric => -self.extent.stride(along),
        }
    }

    /// The cell an update reads beside its own, along one axis.
    pub open spec fn beside(self, half: Half, cell: Cell, along: Axis) -> Cell {
        match half {
            Half::Magnetic => cell.moved(along, 1),
            Half::Electric => cell.moved(along, -1),
        }
    }

    /// The part of a sweep along a stretch of a row, cell by cell.
    #[inline(always)]
    fn sweep_cells(
        &self,
        half: Half,
        direction: Direction,
        axis: Axis,
        target: &mut Vec<V>,
        field_b: &Vec<V>,
        field_c: &Vec<V>,
        span: [usize; 2],
        place: [usize; 2],
        strides: [usize; 2],
        Ghost(before): Ghost<Seq<V>>,
    )
        requires
            arithmetic::<V>(),
            self.valid(),
            old(target)@.len() == self.extent.cells(),
            before.len() == self.extent.cells(),
            field_b@.len() == self.extent.cells(),
            field_c@.len() == self.extent.cells(),
            strides@[0] == self.extent.stride(axis.successor()),
            strides@[1] == self.extent.stride(axis.predecessor()),
            span@[0] <= span@[1] <= self.extent.x,
            place@[0] < self.extent.y,
            place@[1] < self.extent.z,
            forall|x: int|
                span@[0] <= x < span@[1] ==> #[trigger] self.writes(
                    half,
                    axis,
                    (Cell { x, y: place@[0] as int, z: place@[1] as int }),
                ),
            forall|cell: Cell|
                self.extent.has(cell) ==> old(target)@[#[trigger] self.extent.slot(cell)] == (
                if passed(cell, span@[0] as int, place@[0] as int, place@[1] as int) {
                    self.updated(half, direction, axis, before, field_b@, field_c@, cell)
                } else {
                    before[self.extent.slot(cell)]
                }),
        ensures
            final(target)@.len() == self.extent.cells(),
            forall|cell: Cell|
                self.extent.has(cell) ==> final(target)@[#[trigger] self.extent.slot(cell)] == (
                if passed(cell, span@[1] as int, place@[0] as int, place@[1] as int) {
                    self.updated(half, direction, axis, before, field_b@, field_c@, cell)
                } else {
                    before[self.extent.slot(cell)]
                }),
    {
        let y: usize = place[0];
        let z: usize = place[1];
        let b = axis.next();
        let c = axis.prev();
        proof {
            slot_in_range(self.extent, Cell { x: 0, y: y as int, z: z as int });
            assert(self.absorber.integer@[Axis::X.position()]@.len() == self.extent.x);
            assert(self.absorber.integer@[Axis::Y.position()]@.len() == self.extent.y);
            assert(self.absorber.integer@[Axis::Z.position()]@.len() == self.extent.z);
        }
        let row: usize = self.extent.index([0, y, z]);
        let (absorb_x, absorb_row) = match half {
            Half::Magnetic => self.absorber.magnetic_row(axis, y, z),
            Half::Electric => self.absorber.electric_row(axis, y, z),
        };
        let gains_b = self.gains(half, b);
        let gains_c = self.gains(half, c);
        let end: usize = span[1];
        proof {
            if end > 0 {
                let last = Cell { x: end - 1, y: y as int, z: z as int };
                slot_in_range(self.extent, last);
                slot_moves_by_stride(
                    self.extent,
                    Cell { x: 0, y: y as int, z: z as int },
                    Axis::X,
                    end - 1,
                );
            }
        }
        let row_b: &[V] = slice_subrange(field_b.as_slice(), row, row + end);
        let row_c: &[V] = slice_subrange(field_c.as_slice(), row, row + end);
        let row_index: &[u32] = slice_subrange(self.material_index.as_slice(), row, row + end);
        let absorb: &[V] = slice_subrange(absorb_x, 0, end);
        let mut x: usize = span[0];
        while x < end
            invariant
                end == span@[1],
                row_b@ == field_b@.subrange(row as int, row + end),
                row_c@ == field_c@.subrange(row as int, row + end),
                row_index@ == self.material_index@.subrange(row as int, row + end),
                absorb@ == absorb_x@.subrange(0, end as int),
                row + end <= self.extent.cells(),
                gains_b@ == self.geometry(half, b),
                gains_b@.len() == self.extent.along(b),
                gains_c@ == self.geometry(half, c),
                gains_c@.len() == self.extent.along(c),
                arithmetic::<V>(),
                self.valid(),
                target@.len() == self.extent.cells(),
                before.len() == self.extent.cells(),
                field_b@.len() == self.extent.cells(),
                field_c@.len() == self.extent.cells(),
                b == axis.successor(),
                c == axis.predecessor(),
                strides@[0] == self.extent.stride(b),
                strides@[1] == self.extent.stride(c),
                span@[0] <= x <= span@[1] <= self.extent.x,
                y < self.extent.y,
                z < self.extent.z,
                row == self.extent.slot((Cell { x: 0, y: y as int, z: z as int })),
                absorb_x@.len() == self.extent.x,
                half == Half::Magnetic ==> absorb_x@ == self.absorber.magnetic_samples(axis, Axis::X)
                    && absorb_row == self.absorber.magnetic_constant(axis, y as int, z as int),
                half == Half::Electric ==> absorb_x@ == self.absorber.electric_samples(axis, Axis::X)
                    && absorb_row == self.absorber.electric_constant(axis, y as int, z as int),
                forall|x: int|
                    span@[0] <= x < span@[1] ==> #[trigger] self.writes(
                        half,
                        axis,
                        (Cell { x, y: y as int, z: z as int }),
                    ),
                forall|cell: Cell|
                    self.extent.has(cell) ==> target@[#[trigger] self.extent.slot(cell)] == (
                    if passed(cell, x as int, y as int, z as int) {
                        self.updated(half, direction, axis, before, field_b@, field_c@, cell)
                    } else {
                        before[self.extent.slot(cell)]
                    }),
            decreases end - x,
        {
            let ghost here = Cell { x: x as int, y: y as int, z: z as int };
            proof {
                slot_in_range(self.extent, here);
                slot_moves_by_stride(
                    self.extent,
                    Cell { x: 0, y: y as int, z: z as int },
                    Axis::X,
                    x as int,
                );
                assert(self.writes(half, axis, here));
            }
            let index: usize = row + x;
            let curl = self.difference(
                half,
                field_c,
                row_c[x],
                b,
                gains_b,
                position(b, x, y, z),
                index,
                strides[0],
                Ghost(here),
            ) - self.difference(
                half,
                field_b,
                row_b[x],
                c,
                gains_c,
                position(c, x, y, z),
                index,
                strides[1],
                Ghost(here),
            );
            let material: usize = row_index[x] as usize;
            let own = target[index];
            let (gain, loss) = match half {
                Half::Magnetic => (
                    self.coefficients[material].magnetic_gain,
                    self.coefficients[material].magnetic_loss,
                ),
                Half::Electric => (
                    self.coefficients[material].electric_gain,
                    self.coefficients[material].electric_loss,
                ),
            };
            let value = relax(half, direction, own, loss + absorb_row + absorb[x], gain * curl);
            assert(value == self.updated(
                half,
                direction,
                axis,
                before,
                field_b@,
                field_c@,
                here,
            ));
            let ghost earlier = target@;
            target.set(index, value);
            proof {
                assert forall|cell: Cell| self.extent.has(cell) implies target@[
                    #[trigger] self.extent.slot(cell)
                ] == (if passed(cell, x + 1, y as int, z as int) {
                    self.updated(half, direction, axis, before, field_b@, field_c@, cell)
                } else {
                    before[self.extent.slot(cell)]
                }) by {
                    slot_in_range(self.extent, cell);
                    if cell != here {
                        if self.extent.slot(cell) == self.extent.slot(here) {
                            slots_distinct(self.extent, cell, here);
                        }
                        assert(target@[self.extent.slot(cell)] == earlier[self.extent.slot(cell)]);
                    }
                }
            }
            x = x + 1;
        }
    }
}

} // verus!
