//! What happens at the edge of the domain.
//!
//! # Two options
//!
//! [`Boundary::Pec`] costs nothing: clamping the stencil to the array bounds leaves
//! the outermost tangential `E` samples at their initial zero forever, which *is* a
//! perfect electric conductor. A closed PEC box is lossless.
//!
//! [`Boundary::Absorbing`] is a graded, impedance-matched conductive layer: both
//! the electric and magnetic loss rates are set to the same value, which in the
//! continuum is the condition for a wave to cross the interface without
//! reflecting. Grading the loss smoothly from zero at the inner edge to a maximum at
//! the wall keeps the reflection of the discretization small.
//!
//! # Why the profile is separable
//!
//! A conductivity that ramps in from all six faces is, at an edge or a corner, the
//! *sum* of the contributions from each face that the cell is inside of:
//!
//! ```text
//! r(i, j, k) = rx(i) + ry(j) + rz(k)
//! ```
//!
//! That needs no special case for edges and corners, and costs three 1D arrays
//! instead of a full-domain field.
//!
//! Each axis carries *two* profiles, sampled at integer and half-integer
//! positions: `E` and `H` are staggered by half a cell, and an impedance-matched
//! layer only matches if the loss damping each field is evaluated where that field
//! lives.

use crate::grading::ordered;
use crate::grid::Grid;
use crate::lattice::{cell_at, Axis, Cell, Extent};
use crate::numerics::Elementary;
use crate::scalar::{
    arithmetic, at_most, below, greater, greater_of, half, minus, number, one_half, over, plus, times,
    Scalar,
};
use vstd::prelude::*;

verus! {

/// The condition applied at all six faces of the domain.
#[derive(Clone, Copy, Debug, PartialEq)]
pub enum Boundary<V> {
    /// Perfectly conducting walls. Lossless: energy stays in the box forever.
    Pec,
    /// Graded impedance-matched conductive layer.
    Absorbing {
        /// Layer depth in cells. Ten is the usual working value; fewer than
        /// about six starts to reflect visibly.
        thickness: u32,
        /// Reflection coefficient the grading is designed for, e.g. `1e-6`.
        target_reflection: V,
    },
}

impl<V: Scalar> Boundary<V> {
    /// Ten cells targeting `1e-6`.
    pub open spec fn usual<N: Elementary<V>>(math: &N) -> Boundary<V> {
        Boundary::Absorbing { thickness: 10, target_reflection: math.decimal_of(1, 6) }
    }

    /// Depth of the layer in cells.
    pub open spec fn depth(self) -> int {
        match self {
            Boundary::Pec => 0,
            Boundary::Absorbing { thickness, .. } => thickness as int,
        }
    }

    /// Whether the layers of two opposite walls leave room between them on
    /// every axis.
    pub open spec fn leaves_room(self, extent: Extent) -> bool {
        forall|axis: Axis| 2 * self.depth() < #[trigger] extent.along(axis)
    }

    /// Whether the reflection asked for is a fraction.
    pub open spec fn reflects_partly(self) -> bool {
        match self {
            Boundary::Pec => true,
            Boundary::Absorbing { target_reflection, .. } => {
                &&& below(number::<V>(0), target_reflection)
                &&& below(target_reflection, number::<V>(1))
            },
        }
    }

    /// Whether a layer can be laid out along the walls of a grid.
    pub open spec fn fits(self, extent: Extent) -> bool {
        self.depth() > 0 ==> self.leaves_room(extent) && self.reflects_partly()
    }

    /// Whether a layer can be laid out along the walls of a grid.
    pub fn is_fitting(&self, extent: Extent) -> (r: bool)
        requires
            arithmetic::<V>(),
        ensures
            r == self.fits(extent),
    {
        match *self {
            Boundary::Pec => true,
            Boundary::Absorbing { thickness, target_reflection } => {
                let twice: u64 = 2 * thickness as u64;
                let room = twice < extent.x as u64 && twice < extent.y as u64 && twice
                    < extent.z as u64;
                proof {
                    assert(self.leaves_room(extent) ==> 2 * self.depth() < extent.along(Axis::X)
                        && 2 * self.depth() < extent.along(Axis::Y) && 2 * self.depth()
                        < extent.along(Axis::Z));
                }
                thickness == 0 || (room && V::from(0u8) < target_reflection && target_reflection
                    < V::from(1u8))
            },
        }
    }

    /// Half-step loss at the wall: `−(m+1)·ln(R₀)·S / (4T)`.
    pub open spec fn peak_loss<N: Elementary<V>>(self, math: &N, courant: V) -> V {
        match self {
            Boundary::Pec => number(0),
            Boundary::Absorbing { thickness, target_reflection } => over(
                times(
                    times(
                        minus(number::<V>(0), plus(number::<V>(3), number::<V>(1))),
                        math.ln_of(target_reflection),
                    ),
                    courant,
                ),
                times(number::<V>(4), math.count_of(thickness as u64)),
            ),
        }
    }

    /// Half-step loss at a position along an axis of `n` cells, in cells from
    /// the low wall.
    pub open spec fn loss_at<N: Elementary<V>>(
        self,
        math: &N,
        courant: V,
        n: int,
        position: V,
    ) -> V {
        let deep = math.count_of(self.depth() as u64);
        let outer = math.count_of((n - 1) as u64);
        let low = over(minus(deep, position), deep);
        let high = over(minus(deep, minus(outer, position)), deep);
        times(
            self.peak_loss(math, courant),
            math.pow_of(clamped(greater_of(low, high)), number::<V>(3)),
        )
    }

    /// The integer profile along an axis of `n` cells.
    pub open spec fn integer_profile<N: Elementary<V>>(
        self,
        math: &N,
        courant: V,
        n: int,
    ) -> Seq<V> {
        Seq::new(
            n as nat,
            |i: int|
                if self.depth() == 0 {
                    number::<V>(0)
                } else {
                    self.loss_at(math, courant, n, math.count_of(i as u64))
                },
        )
    }

    /// The half-integer profile along an axis of `n` cells.
    pub open spec fn half_profile<N: Elementary<V>>(
        self,
        math: &N,
        courant: V,
        n: int,
    ) -> Seq<V> {
        Seq::new(
            n as nat,
            |i: int|
                if self.depth() == 0 {
                    number::<V>(0)
                } else {
                    self.loss_at(math, courant, n, plus(math.count_of(i as u64), half::<V>()))
                },
        )
    }

    /// The usual absorbing layer: ten cells targeting `1e-6`.
    pub fn absorbing<N: Elementary<V>>(math: &N) -> (r: Boundary<V>)
        ensures
            r == Boundary::<V>::usual(math),
    {
        Boundary::Absorbing { thickness: 10, target_reflection: math.decimal(1, 6) }
    }
}

/// A number held between zero and one.
pub open spec fn clamped<V: Scalar>(x: V) -> V {
    if below(x, number::<V>(0)) {
        number(0)
    } else if below(number::<V>(1), x) {
        number(1)
    } else {
        x
    }
}

/// The largest of the first `n` values, and never below zero.
pub open spec fn peak_of<V: Scalar>(values: Seq<V>, n: int) -> V
    decreases n,
{
    if n <= 0 {
        number::<V>(0)
    } else {
        greater_of(peak_of(values, n - 1), values[n - 1])
    }
}

proof fn lemma_peak_of_joined<V: Scalar>(a: Seq<V>, b: Seq<V>, n: int)
    requires
        0 <= n <= b.len(),
    ensures
        peak_of(a + b, a.len() + n) == peak_from(peak_of(a, a.len() as int), b, n),
    decreases n,
{
    if n > 0 {
        lemma_peak_of_joined(a, b, n - 1);
        assert((a + b)[a.len() + n - 1] == b[n - 1]);
    } else {
        lemma_peak_of_prefix(a, a + b, a.len() as int);
    }
}

proof fn lemma_peak_of_prefix<V: Scalar>(a: Seq<V>, b: Seq<V>, n: int)
    requires
        0 <= n <= a.len(),
        n <= b.len(),
        forall|i: int| 0 <= i < n ==> a[i] == b[i],
    ensures
        peak_of(a, n) == peak_of(b, n),
    decreases n,
{
    if n > 0 {
        lemma_peak_of_prefix(a, b, n - 1);
    }
}

/// The largest of `start` and the first `n` values.
spec fn peak_from<V: Scalar>(start: V, values: Seq<V>, n: int) -> V
    decreases n,
{
    if n <= 0 {
        start
    } else {
        greater_of(peak_from(start, values, n - 1), values[n - 1])
    }
}

fn raise<V: Scalar>(start: V, values: &Vec<V>) -> (r: V)
    requires
        arithmetic::<V>(),
    ensures
        r == peak_from(start, values@, values@.len() as int),
{
    let mut peak = start;
    let mut i: usize = 0;
    while i < values.len()
        invariant
            arithmetic::<V>(),
            i <= values@.len(),
            peak == peak_from(start, values@, i as int),
        decreases values@.len() - i,
    {
        peak = greater(peak, values[i]);
        i = i + 1;
    }
    peak
}

pub(crate) fn extend<V: Copy>(list: &mut Vec<V>, more: &Vec<V>)
    ensures
        final(list)@ == old(list)@ + more@,
{
    let mut i: usize = 0;
    while i < more.len()
        invariant
            i <= more@.len(),
            list@ == old(list)@ + more@.subrange(0, i as int),
        decreases more@.len() - i,
    {
        list.push(more[i]);
        i = i + 1;
        assert(list@ =~= old(list)@ + more@.subrange(0, i as int));
    }
    assert(more@.subrange(0, more@.len() as int) =~= more@);
}

/// Per-axis loss profiles, sampled at both integer and half-integer positions.
///
/// Values are stored as the dimensionless half-step loss `r·Δt/2`, which is
/// what the update equations consume directly.
#[derive(Clone, Debug)]
pub struct AbsorbingProfile<V> {
    /// Samples at cell corners, one list per axis.
    pub integer: [Vec<V>; 3],
    /// Samples at cell centres, one list per axis.
    pub half: [Vec<V>; 3],
}

impl<V: Scalar> AbsorbingProfile<V> {
    /// Whether there is one sample of either kind for each cell of each axis.
    pub open spec fn covers(self, extent: Extent) -> bool {
        forall|axis: Axis|
            #![trigger self.integer@[axis.position()]]
            #![trigger self.half@[axis.position()]]
            self.integer@[axis.position()]@.len() == extent.along(axis)
                && self.half@[axis.position()]@.len() == extent.along(axis)
    }

    /// The list `E[axis]` reads along `along`: it sits half a cell over along
    /// its own axis and on the corners along the other two.
    pub open spec fn electric_samples(self, axis: Axis, along: Axis) -> Seq<V> {
        if along == axis {
            self.half@[along.position()]@
        } else {
            self.integer@[along.position()]@
        }
    }

    /// The list `H[axis]` reads along `along`: the mirror image.
    pub open spec fn magnetic_samples(self, axis: Axis, along: Axis) -> Seq<V> {
        if along == axis {
            self.integer@[along.position()]@
        } else {
            self.half@[along.position()]@
        }
    }

    /// The part of the electric loss that a row along `x` shares.
    pub open spec fn electric_constant(self, axis: Axis, y: int, z: int) -> V {
        plus(self.electric_samples(axis, Axis::Y)[y], self.electric_samples(axis, Axis::Z)[z])
    }

    /// The part of the magnetic loss that a row along `x` shares.
    pub open spec fn magnetic_constant(self, axis: Axis, y: int, z: int) -> V {
        plus(self.magnetic_samples(axis, Axis::Y)[y], self.magnetic_samples(axis, Axis::Z)[z])
    }

    /// Loss seen by `E[axis]` at a cell: one contribution from each axis.
    pub open spec fn electric_at(self, axis: Axis, cell: Cell) -> V {
        plus(
            self.electric_samples(axis, Axis::X)[cell.x],
            self.electric_constant(axis, cell.y, cell.z),
        )
    }

    /// Loss seen by `H[axis]` at a cell.
    pub open spec fn magnetic_at(self, axis: Axis, cell: Cell) -> V {
        plus(
            self.magnetic_samples(axis, Axis::X)[cell.x],
            self.magnetic_constant(axis, cell.y, cell.z),
        )
    }

    fn electric_list(&self, axis: Axis, along: Axis) -> (r: &[V])
        ensures
            r@ == self.electric_samples(axis, along),
    {
        let t: usize = along.index();
        if along == axis {
            self.half[t].as_slice()
        } else {
            self.integer[t].as_slice()
        }
    }

    fn magnetic_list(&self, axis: Axis, along: Axis) -> (r: &[V])
        ensures
            r@ == self.magnetic_samples(axis, along),
    {
        let t: usize = along.index();
        if along == axis {
            self.integer[t].as_slice()
        } else {
            self.half[t].as_slice()
        }
    }

    /// Loss seen by the `axis` component of `E` at a cell.
    ///
    /// `E[a]` sits at a half position along `a` and integer positions along the
    /// other two.
    ///
    /// Defined in terms of [`Self::electric_row`] rather than alongside it, so
    /// that the two cannot drift apart, not even by the last bit, which they
    /// would if each summed the three profiles in its own order.
    pub fn electric(&self, axis: Axis, coord: [usize; 3]) -> (r: V)
        requires
            arithmetic::<V>(),
            coord@[0] < self.electric_samples(axis, Axis::X).len(),
            coord@[1] < self.electric_samples(axis, Axis::Y).len(),
            coord@[2] < self.electric_samples(axis, Axis::Z).len(),
        ensures
            r == self.electric_at(axis, cell_at(coord)),
    {
        let (varying, constant) = self.electric_row(axis, coord[1], coord[2]);
        varying[coord[0]] + constant
    }

    /// Loss seen by the `axis` component of `H` at a cell, the mirror image
    /// of [`Self::electric`].
    pub fn magnetic(&self, axis: Axis, coord: [usize; 3]) -> (r: V)
        requires
            arithmetic::<V>(),
            coord@[0] < self.magnetic_samples(axis, Axis::X).len(),
            coord@[1] < self.magnetic_samples(axis, Axis::Y).len(),
            coord@[2] < self.magnetic_samples(axis, Axis::Z).len(),
        ensures
            r == self.magnetic_at(axis, cell_at(coord)),
    {
        let (varying, constant) = self.magnetic_row(axis, coord[1], coord[2]);
        varying[coord[0]] + constant
    }

    /// Splits the [`Self::electric`] lookup into the part that varies along
    /// `x` and the constant remainder for a given `(y, z)` row.
    ///
    /// The solver sweeps `x` innermost, so two of the three profile reads are
    /// loop-invariant. Hoisting them here rather than in the loop keeps the
    /// staggering rule stated once.
    pub fn electric_row(&self, axis: Axis, y: usize, z: usize) -> (r: (&[V], V))
        requires
            arithmetic::<V>(),
            y < self.electric_samples(axis, Axis::Y).len(),
            z < self.electric_samples(axis, Axis::Z).len(),
        ensures
            r.0@ == self.electric_samples(axis, Axis::X),
            r.1 == self.electric_constant(axis, y as int, z as int),
    {
        let along_y = self.electric_list(axis, Axis::Y);
        let along_z = self.electric_list(axis, Axis::Z);
        (self.electric_list(axis, Axis::X), along_y[y] + along_z[z])
    }

    /// [`Self::magnetic`] split the same way.
    pub fn magnetic_row(&self, axis: Axis, y: usize, z: usize) -> (r: (&[V], V))
        requires
            arithmetic::<V>(),
            y < self.magnetic_samples(axis, Axis::Y).len(),
            z < self.magnetic_samples(axis, Axis::Z).len(),
        ensures
            r.0@ == self.magnetic_samples(axis, Axis::X),
            r.1 == self.magnetic_constant(axis, y as int, z as int),
    {
        let along_y = self.magnetic_list(axis, Axis::Y);
        let along_z = self.magnetic_list(axis, Axis::Z);
        (self.magnetic_list(axis, Axis::X), along_y[y] + along_z[z])
    }

    /// The lists in the order they are uploaded: all three integer profiles,
    /// then all three half profiles, each in `x, y, z` order.
    pub open spec fn layout(self) -> Seq<V> {
        self.integer@[0]@ + self.integer@[1]@ + self.integer@[2]@ + self.half@[0]@ + self.half@[1]@
            + self.half@[2]@
    }

    /// The lists in the order their peak is looked for.
    pub open spec fn samples(self) -> Seq<V> {
        self.half@[0]@ + self.half@[1]@ + self.half@[2]@ + self.integer@[0]@ + self.integer@[1]@
            + self.integer@[2]@
    }

    /// Builds the profiles for a grid.
    ///
    /// The layer thickness is counted in cells, so the cell size and the speed
    /// of light both cancel, leaving a loss that depends only on the grading
    /// order, the target, the Courant number and the thickness. The grading is
    /// cubic: quadratic reflects more, quartic concentrates too much loss at the
    /// wall.
    pub fn new<W: Scalar, N: Elementary<V>>(
        math: &N,
        grid: &Grid<V, W>,
        boundary: Boundary<V>,
    ) -> (r: Self)
        requires
            arithmetic::<V>(),
            boundary.fits(grid.extent),
        ensures
            r.covers(grid.extent),
            forall|axis: Axis| #[trigger]
                r.integer@[axis.position()]@ == boundary.integer_profile(
                    math,
                    grid.courant,
                    grid.extent.along(axis),
                ),
            forall|axis: Axis| #[trigger]
                r.half@[axis.position()]@ == boundary.half_profile(
                    math,
                    grid.courant,
                    grid.extent.along(axis),
                ),
    {
        let extent = grid.extent.as_array();
        let courant = grid.courant;
        let profile = AbsorbingProfile {
            integer: [
                Self::axis_profile(math, boundary, courant, extent[0], false),
                Self::axis_profile(math, boundary, courant, extent[1], false),
                Self::axis_profile(math, boundary, courant, extent[2], false),
            ],
            half: [
                Self::axis_profile(math, boundary, courant, extent[0], true),
                Self::axis_profile(math, boundary, courant, extent[1], true),
                Self::axis_profile(math, boundary, courant, extent[2], true),
            ],
        };
        profile
    }

    /// One list: along an axis of `n` cells, shifted by half a cell or not.
    fn axis_profile<N: Elementary<V>>(
        math: &N,
        boundary: Boundary<V>,
        courant: V,
        n: usize,
        shifted: bool,
    ) -> (r: Vec<V>)
        requires
            arithmetic::<V>(),
        ensures
            !shifted ==> r@ == boundary.integer_profile(math, courant, n as int),
            shifted ==> r@ == boundary.half_profile(math, courant, n as int),
    {
        let zero = V::from(0u8);
        let mut out: Vec<V> = Vec::new();
        let mut i: usize = 0;
        while i < n
            invariant
                arithmetic::<V>(),
                zero == number::<V>(0),
                i <= n,
                out@.len() == i,
                forall|j: int|
                    0 <= j < i && !shifted ==> #[trigger] out@[j] == boundary.integer_profile(
                        math,
                        courant,
                        n as int,
                    )[j],
                forall|j: int|
                    0 <= j < i && shifted ==> #[trigger] out@[j] == boundary.half_profile(
                        math,
                        courant,
                        n as int,
                    )[j],
            decreases n - i,
        {
            let value = match boundary {
                Boundary::Pec => zero,
                Boundary::Absorbing { thickness, target_reflection } => {
                    if thickness == 0 {
                        zero
                    } else {
                        let corner: V = math.count(i as u64);
                        let position = if shifted {
                            corner + one_half::<V>()
                        } else {
                            corner
                        };
                        let deep: V = math.count(thickness as u64);
                        let outer: V = math.count((n - 1) as u64);
                        let order = V::from(3u8);
                        let peak = (zero - (order + V::from(1u8))) * math.ln(target_reflection)
                            * courant / (V::from(4u8) * deep);
                        let low = (deep - position) / deep;
                        let high = (deep - (outer - position)) / deep;
                        peak * math.pow(Self::clamp(greater(low, high)), order)
                    }
                },
            };
            out.push(value);
            i = i + 1;
        }
        assert(!shifted ==> out@ =~= boundary.integer_profile(math, courant, n as int));
        assert(shifted ==> out@ =~= boundary.half_profile(math, courant, n as int));
        out
    }

    fn clamp(x: V) -> (r: V)
        requires
            arithmetic::<V>(),
        ensures
            r == clamped(x),
    {
        if x < V::from(0u8) {
            V::from(0u8)
        } else if V::from(1u8) < x {
            V::from(1u8)
        } else {
            x
        }
    }

    /// The profiles laid out for upload: all three integer profiles, then all
    /// three half profiles, each in `x, y, z` order.
    ///
    /// Offsets are recoverable from the grid extent alone, so no side table
    /// needs to travel with the buffer.
    pub fn packed(&self) -> (r: Vec<V>)
        ensures
            r@ == self.layout(),
    {
        let mut out: Vec<V> = Vec::new();
        extend(&mut out, &self.integer[0]);
        extend(&mut out, &self.integer[1]);
        extend(&mut out, &self.integer[2]);
        extend(&mut out, &self.half[0]);
        extend(&mut out, &self.half[1]);
        extend(&mut out, &self.half[2]);
        assert(Seq::<V>::empty() + self.integer@[0]@ =~= self.integer@[0]@);
        out
    }

    /// Largest half-step loss anywhere in the layer, useful for reporting.
    pub fn peak(&self) -> (r: V)
        requires
            arithmetic::<V>(),
        ensures
            r == peak_of(self.samples(), self.samples().len() as int),
    {
        let peak = raise(V::from(0u8), &self.half[0]);
        let peak = raise(peak, &self.half[1]);
        let peak = raise(peak, &self.half[2]);
        let peak = raise(peak, &self.integer[0]);
        let peak = raise(peak, &self.integer[1]);
        let peak = raise(peak, &self.integer[2]);
        proof {
            let none = Seq::<V>::empty();
            let one = self.half@[0]@;
            let two = one + self.half@[1]@;
            let three = two + self.half@[2]@;
            let four = three + self.integer@[0]@;
            let five = four + self.integer@[1]@;
            lemma_peak_of_joined(none, one, one.len() as int);
            assert(none + one =~= one);
            lemma_peak_of_joined(one, self.half@[1]@, self.half@[1]@.len() as int);
            lemma_peak_of_joined(two, self.half@[2]@, self.half@[2]@.len() as int);
            lemma_peak_of_joined(three, self.integer@[0]@, self.integer@[0]@.len() as int);
            lemma_peak_of_joined(four, self.integer@[1]@, self.integer@[1]@.len() as int);
            lemma_peak_of_joined(five, self.integer@[2]@, self.integer@[2]@.len() as int);
        }
        peak
    }
}

/// Where the list along one axis starts among the three integer profiles, or
/// among the three half profiles.
pub open spec fn section_start(extent: Extent, axis: Axis) -> int {
    match axis {
        Axis::X => 0,
        Axis::Y => extent.x as int,
        Axis::Z => extent.x + extent.y,
    }
}

/// The upload holds twice the sum of the three extents, and every sample is where
/// the extent alone says it is.
pub proof fn layout_follows_from_extent<V: Scalar>(
    profile: AbsorbingProfile<V>,
    extent: Extent,
    axis: Axis,
    i: int,
)
    requires
        profile.covers(extent),
        0 <= i < extent.along(axis),
    ensures
        profile.layout().len() == 2 * (extent.x + extent.y + extent.z),
        profile.layout()[section_start(extent, axis) + i] == profile.integer@[axis.position()]@[i],
        profile.layout()[extent.x + extent.y + extent.z + section_start(extent, axis) + i]
            == profile.half@[axis.position()]@[i],
{
    assert(profile.integer@[Axis::X.position()]@.len() == extent.x);
    assert(profile.integer@[Axis::Y.position()]@.len() == extent.y);
    assert(profile.integer@[Axis::Z.position()]@.len() == extent.z);
}

/// Perfectly conducting walls take nothing from either field, anywhere.
pub proof fn conducting_walls_are_lossless<V: Scalar, N: Elementary<V>>(
    math: &N,
    courant: V,
    n: int,
    i: int,
)
    requires
        0 <= i < n,
    ensures
        Boundary::<V>::Pec.integer_profile(math, courant, n)[i] == number::<V>(0),
        Boundary::<V>::Pec.half_profile(math, courant, n)[i] == number::<V>(0),
{
}

/// The peak is at or above every value, and is one of them where any is above zero.
pub proof fn the_peak_is_the_highest<V: Scalar>(values: Seq<V>, n: int, i: int)
    requires
        ordered::<V>(),
        0 <= i < n <= values.len(),
    ensures
        at_most(values[i], peak_of(values, n)),
        peak_of(values, n) == number::<V>(0) || exists|k: int|
            0 <= k < n && #[trigger] values[k] == peak_of(values, n),
    decreases n,
{
    reveal(ordered);
    let before = peak_of(values, n - 1);
    let last = values[n - 1];
    assert(at_most(before, before) && at_most(last, last));
    if below(before, last) {
        assert(at_most(before, last));
    } else {
        assert(at_most(last, before));
    }
    if n > 1 {
        the_peak_is_the_highest(values, n - 1, if i < n - 1 {
            i
        } else {
            0
        });
        if before != number::<V>(0) {
            let k = choose|k: int| 0 <= k < n - 1 && #[trigger] values[k] == before;
            assert(values[k] == before);
        }
    }
    assert(values[n - 1] == last);
}

/// Layers that fit leave a cell between them on every axis, and those that do not fit
/// meet on some axis or ask for no fraction.
pub proof fn layers_that_fit_leave_room<V: Scalar>(
    boundary: Boundary<V>,
    extent: Extent,
    axis: Axis,
)
    requires
        boundary is Absorbing,
        boundary.depth() > 0,
    ensures
        boundary.fits(extent) ==> boundary.depth() <= extent.along(axis) - 1 - boundary.depth(),
        boundary.fits(extent) ==> below(number::<V>(0), boundary->target_reflection) && below(
            boundary->target_reflection,
            number::<V>(1),
        ),
        !boundary.fits(extent) ==> !(below(number::<V>(0), boundary->target_reflection) && below(
            boundary->target_reflection,
            number::<V>(1),
        )) || exists|t: Axis|
            #[trigger] extent.along(t) - 1 - boundary.depth() < boundary.depth(),
{
    if boundary.fits(extent) {
        assert(2 * boundary.depth() < extent.along(axis));
    } else if boundary.reflects_partly() {
        assert(!boundary.leaves_room(extent));
        let t = choose|t: Axis| !(2 * boundary.depth() < #[trigger] extent.along(t));
        assert(extent.along(t) - 1 - boundary.depth() < boundary.depth());
    }
}

} // verus!
