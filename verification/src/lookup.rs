//! Where a position along an axis lies, in cells, tabulated for a renderer.
//!
//! On a graded axis a position becomes a cell coordinate by a search. A ray-march
//! does that at every sample, so it reads a table instead: evenly spaced positions
//! from one wall to the other, with the cell coordinate of each.

use crate::algebra::{
    add_nothing, add_regroups, multiply_commutes, multiply_regroups,
    multiply_spreads_over_difference, take_away,
};
use crate::grid::Grid;
use crate::lattice::Axis;
use crate::numerics::{Elementary, Numerics};
use crate::order::{factors_come_off, field, parts};
use crate::placement::whole;
use crate::scalar::{
    arithmetic, below, half, minus, negative, number, one_half, over, plus, times, Scalar,
};
use vstd::prelude::*;

verus! {

impl<V: Scalar, W: Scalar> Grid<V, W> {
    /// Sample `k` of `samples` along one axis: the cell coordinate at that
    /// fraction of the way from the low wall to the high one.
    pub open spec fn lookup_at<N: Numerics<V, W>>(
        self,
        math: &N,
        axis: Axis,
        samples: u32,
        k: int,
    ) -> V {
        let fraction: V = over(
            math.count_of(k as u64),
            math.count_of((samples - 1) as u64),
        );
        self.along(axis).coordinate_at(
            math,
            times(self.size_along(math, axis), minus(fraction, half::<V>())),
        )
    }

    /// The samples along one axis.
    pub open spec fn lookup_along<N: Numerics<V, W>>(
        self,
        math: &N,
        axis: Axis,
        samples: u32,
    ) -> Seq<V> {
        Seq::new(samples as nat, |k: int| self.lookup_at(math, axis, samples, k))
    }

    fn axis_lookup<N: Numerics<V, W>>(&self, math: &N, axis: Axis, samples: u32) -> (r: Vec<V>)
        requires
            arithmetic::<V>(),
            arithmetic::<W>(),
            self.valid(),
            samples >= 2,
        ensures
            r@ == self.lookup_along(math, axis, samples),
    {
        let mut out: Vec<V> = Vec::new();
        let spacing = self.spacing(axis);
        assert(self.along(axis).valid());
        let length: V = spacing.length(math);
        let last: V = math.count((samples - 1) as u64);
        let mut k: u32 = 0;
        while k < samples
            invariant
                arithmetic::<V>(),
                arithmetic::<W>(),
                k <= samples,
                samples >= 2,
                *spacing == self.along(axis),
                spacing.valid(),
                length == self.size_along(math, axis),
                last == <N as Elementary<V>>::count_of(math, (samples - 1) as u64),
                out@.len() == k,
                forall|j: int|
                    0 <= j < k ==> #[trigger] out@[j] == self.lookup_at(math, axis, samples, j),
            decreases samples - k,
        {
            let place: V = math.count(k as u64);
            let fraction: V = place / last;
            out.push(spacing.coordinate(math, length * (fraction - one_half::<V>())));
            k = k + 1;
        }
        assert(out@ =~= self.lookup_along(math, axis, samples));
        out
    }

    /// The tables of all three axes, one after another.
    pub fn cell_lookup<N: Numerics<V, W>>(&self, math: &N, samples: u32) -> (r: Vec<V>)
        requires
            arithmetic::<V>(),
            arithmetic::<W>(),
            self.valid(),
            samples >= 2,
        ensures
            r@ == self.lookup_along(math, Axis::X, samples) + self.lookup_along(
                math,
                Axis::Y,
                samples,
            ) + self.lookup_along(math, Axis::Z, samples),
    {
        let mut packed: Vec<V> = self.axis_lookup(math, Axis::X, samples);
        let mut next: Vec<V> = self.axis_lookup(math, Axis::Y, samples);
        packed.append(&mut next);
        next = self.axis_lookup(math, Axis::Z, samples);
        packed.append(&mut next);
        packed
    }
}

/// Every sample of the table is the coordinate of its place: so much of the way from
/// the low wall to the high one as it is of the way through the table.
pub proof fn lookups_run_evenly<V: Scalar, W: Scalar, N: Numerics<V, W>>(
    math: &N,
    grid: Grid<V, W>,
    axis: Axis,
    samples: u32,
    k: int,
    position: V,
)
    requires
        field::<V>(),
        below(number::<V>(0), whole::<V, N>(math, (samples - 1) as u64)),
        // The way from the low wall, over all of the table, is the sample's part of
        // the length.
        times(
            plus(position, times(half::<V>(), grid.size_along(math, axis))),
            whole::<V, N>(math, (samples - 1) as u64),
        ) == times(grid.size_along(math, axis), whole::<V, N>(math, k as u64)),
    ensures
        grid.lookup_at(math, axis, samples, k) == grid.along(axis).coordinate_at(math, position),
{
    let size = grid.size_along(math, axis);
    let (here, last) = (
        whole::<V, N>(math, k as u64),
        whole::<V, N>(math, (samples - 1) as u64),
    );
    let part = over(here, last);
    parts(here, last);
    // (position + size/2)·last = size·here = (size·part)·last.
    multiply_regroups(size, part, last);
    let middle = times(half::<V>(), size);
    factors_come_off(plus(position, middle), times(size, part), last);
    multiply_spreads_over_difference(size, part, half::<V>());
    multiply_commutes(size, half::<V>());
    take_away(plus(position, middle), middle);
    take_away(middle, middle);
    add_regroups(position, middle, negative(middle));
    add_nothing(position);
}

} // verus!
