//! What a lossless box keeps.
//!
//! `E` and `H` live half a time step apart, so the sum of their squares at one
//! moment is not quite what leapfrog conserves. What it conserves, to the last bit
//! wherever nothing is rounded, pairs each `H` with the next one:
//!
//! ```text
//! U = Σ w·ε·E·E + Σ w·μ·H·H⁺
//! ```
//!
//! The reason is that the two curls are each other's transposes: what the backward
//! differences of `H` push into `E` is exactly what the forward differences of `E`
//! take out of `H`. That is summation by parts, and the conducting walls are why
//! nothing is left over at the ends.

use crate::algebra::{
    add_commutes, add_nothing, add_regroups, add_swaps, differences_add, multiply_by_nothing,
    multiply_commutes, multiply_regroups, multiply_spreads, multiply_spreads_over_difference,
    negatives, ring, take_away, total, totals_add, totals_shift, totals_subtract,
};
use crate::grid::Axis;
use crate::lattice::{
    axes_cycle, cell_of_slot, slot_in_range, slot_moves_by_stride, slot_of_cell, Cell, Extent,
};
use crate::mirror::walled;
use crate::numerics::Numerics;
use crate::replay::{lemma_cells, run_keeps_shape};
use crate::residue::Residue;
use crate::reversal::takes_nothing;
use crate::scalar::{minus, negative, number, over, plus, times, Scalar};
use crate::setup::{Setup, State};
use crate::stencil::{relaxed, Direction, Half, Medium};
use crate::unwinding::lossless_takes_nothing;
use vstd::arithmetic::div_mod::{
    lemma_add_mod_noop, lemma_mul_mod_noop_left, lemma_mul_mod_noop_right, lemma_small_mod,
};
use vstd::prelude::*;

verus! {

proof fn lemma_ends(extent: Extent, along: Axis, i: int)
    requires
        0 <= i < extent.cells(),
    ensures
        extent.stride(along) >= 1,
        i < extent.stride(along) ==> extent.cell(i).along(along) == 0,
        i >= extent.cells() - extent.stride(along) ==> extent.cell(i).along(along) + 1
            == extent.along(along),
        extent.cell(i).along(along) + 1 < extent.along(along) ==> {
            &&& i + extent.stride(along) < extent.cells()
            &&& extent.cell(i + extent.stride(along)) == extent.cell(i).moved(along, 1)
            &&& extent.slot(extent.cell(i).moved(along, 1)) == i + extent.stride(along)
        },
        extent.cell(i).along(along) + 1 == extent.along(along) && i + extent.stride(along)
            < extent.cells() ==> extent.cell(i + extent.stride(along)).along(along) == 0,
        extent.stride(along) <= extent.cells(),
{
    let cell = extent.cell(i);
    let s = extent.stride(along);
    slot_of_cell(extent, i);
    slot_moves_by_stride(extent, cell, along, 1);
    slot_moves_by_stride(extent, cell, along, -1);
    let (nx, ny, nz) = (extent.x as int, extent.y as int, extent.z as int);
    assert(nx >= 1 && ny >= 1 && nz >= 1);
    assert(nx * ny >= 1) by (nonlinear_arith)
        requires
            nx >= 1,
            ny >= 1,
    ;
    assert(nx * ny * nz >= nx * ny && nx * ny >= nx) by (nonlinear_arith)
        requires
            nx >= 1,
            ny >= 1,
            nz >= 1,
            nx * ny >= 1,
    ;
    if cell.along(along) >= 1 {
        slot_in_range(extent, cell.moved(along, -1));
    }
    if cell.along(along) + 1 < extent.along(along) {
        slot_in_range(extent, cell.moved(along, 1));
        cell_of_slot(extent, cell.moved(along, 1));
    }
    if i + s < extent.cells() {
        let next = extent.cell(i + s);
        slot_of_cell(extent, i + s);
        slot_moves_by_stride(extent, next, along, -1);
        if next.along(along) >= 1 {
            slot_in_range(extent, next.moved(along, -1));
            cell_of_slot(extent, next.moved(along, -1));
        }
    }
}

/// What a backward difference of `g` pushes into `f` at each cell.
pub open spec fn pushed<V: Scalar>(
    extent: Extent,
    along: Axis,
    weight: spec_fn(Cell) -> V,
    g: Seq<V>,
    f: Seq<V>,
) -> spec_fn(int) -> V {
    |i: int|
        {
            let cell = extent.cell(i);
            times(
                weight(cell),
                times(minus(g[i], g[extent.slot(cell.moved(along, -1))]), f[i]),
            )
        }
}

/// What a forward difference of `f` pulls out of `g` at each cell.
pub open spec fn pulled<V: Scalar>(
    medium: Medium<V>,
    along: Axis,
    weight: spec_fn(Cell) -> V,
    g: Seq<V>,
    f: Seq<V>,
) -> spec_fn(int) -> V {
    |i: int|
        {
            let cell = medium.extent.cell(i);
            times(weight(cell), times(g[i], minus(medium.ahead(f, cell, along), f[i])))
        }
}

/// Summation by parts between two conducting walls.
proof fn lemma_parts<V: Scalar>(
    medium: Medium<V>,
    along: Axis,
    weight: spec_fn(Cell) -> V,
    g: Seq<V>,
    f: Seq<V>,
)
    requires
        ring::<V>(),
        walled(medium.extent, along, f),
        forall|cell: Cell|
            #![trigger weight(cell.moved(along, 1))]
            medium.extent.has(cell) && medium.extent.has(cell.moved(along, 1)) ==> weight(cell)
                == weight(cell.moved(along, 1)),
    ensures
        total(medium.extent.cells(), pushed(medium.extent, along, weight, g, f)) == negative(
            total(medium.extent.cells(), pulled(medium, along, weight, g, f)),
        ),
{
    let extent = medium.extent;
    let n = extent.cells();
    let s = extent.stride(along);
    let zero = number::<V>(0);
    let here = |i: int| times(weight(extent.cell(i)), times(g[i], f[i]));
    let behind = |i: int|
        times(
            weight(extent.cell(i)),
            times(g[extent.slot(extent.cell(i).moved(along, -1))], f[i]),
        );
    let ahead = |i: int|
        times(
            weight(extent.cell(i)),
            times(g[i], medium.ahead(f, extent.cell(i), along)),
        );
    let push = pushed(extent, along, weight, g, f);
    let pull = pulled(medium, along, weight, g, f);
    assert forall|i: int| 0 <= i < n implies #[trigger] push(i) == minus(here(i), behind(i)) by {
        let w = weight(extent.cell(i));
        let last = g[extent.slot(extent.cell(i).moved(along, -1))];
        multiply_spreads_over_difference(f[i], g[i], last);
        multiply_spreads_over_difference(w, times(g[i], f[i]), times(last, f[i]));
    }
    assert forall|i: int| 0 <= i < n implies #[trigger] pull(i) == minus(ahead(i), here(i)) by {
        let w = weight(extent.cell(i));
        let next = medium.ahead(f, extent.cell(i), along);
        multiply_spreads_over_difference(g[i], next, f[i]);
        multiply_spreads_over_difference(w, times(g[i], next), times(g[i], f[i]));
    }
    totals_subtract(n, here, behind, push);
    totals_subtract(n, ahead, here, pull);
    if n > 0 {
        lemma_ends(extent, along, 0);
        assert forall|i: int| 0 <= i < n && extent.cell(i).along(along) == 0 implies
            #[trigger] behind(i) == zero by {
            slot_of_cell(extent, i);
            assert(f[extent.slot(extent.cell(i))] == zero);
            let last = g[extent.slot(extent.cell(i).moved(along, -1))];
            multiply_by_nothing(last);
            multiply_by_nothing(weight(extent.cell(i)));
        }
        assert forall|i: int| 0 <= i < n && extent.cell(i).along(along) + 1 == extent.along(
            along,
        ) implies #[trigger] ahead(i) == zero by {
            multiply_by_nothing(g[i]);
            multiply_by_nothing(weight(extent.cell(i)));
        }
        assert forall|i: int| 0 <= i < s implies #[trigger] behind(i) == zero by {
            lemma_ends(extent, along, i);
        }
        assert forall|j: int| n - s <= j < n implies #[trigger] ahead(j) == zero by {
            lemma_ends(extent, along, j);
        }
        assert forall|j: int| 0 <= j < n - s implies #[trigger] ahead(j) == behind(j + s) by {
            lemma_ends(extent, along, j);
            let cell = extent.cell(j);
            slot_of_cell(extent, j);
            if cell.along(along) + 1 < extent.along(along) {
                let next = cell.moved(along, 1);
                assert(extent.cell(j + s) == next);
                assert(next.moved(along, -1) == cell);
                assert(extent.has(next));
                assert(weight(cell) == weight(next));
            } else {
                assert(extent.cell(j + s).along(along) == 0);
            }
        }
        totals_shift(n, s, behind, ahead);
    }
    negatives(total(n, ahead), total(n, here));
}

/// How the samples of a field are weighed: the volume each stands for, and the
/// stiffness of the material there, which is what its gain divides by.
pub struct Measure<V> {
    pub volume: spec_fn(Half, Axis, Cell) -> V,
    pub stiffness: spec_fn(Half, Cell) -> V,
}

/// The weight a difference along `along` of the field that drives `H[axis]` enters
/// with.
pub open spec fn coupling<V: Scalar>(
    medium: Medium<V>,
    measure: Measure<V>,
    axis: Axis,
    along: Axis,
) -> spec_fn(Cell) -> V {
    |cell: Cell|
        times(
            (measure.volume)(Half::Magnetic, axis, cell),
            medium.magnetic_gains@[along.position()]@[cell.along(along)],
        )
}

impl<V: Scalar> Medium<V> {
    /// Whether `E[axis]` and the component of `H` it exchanges with by a
    /// difference along `along` are weighed alike.
    pub open spec fn exchanges_evenly(
        self,
        measure: Measure<V>,
        axis: Axis,
        partner: Axis,
        along: Axis,
        cell: Cell,
    ) -> bool {
        let weight = coupling(self, measure, partner, along);
        &&& cell.along(along) >= 1 ==> times(
            (measure.volume)(Half::Electric, axis, cell),
            self.electric_gains@[along.position()]@[cell.along(along)],
        ) == weight(cell)
        &&& self.extent.has(cell.moved(along, 1)) ==> weight(cell) == weight(
            cell.moved(along, 1),
        )
    }

    /// Whether a measure weighs the two fields so that neither gains on the other:
    /// a volume times the gain along an axis does not change along that axis, and
    /// the stiffness undoes the gain of the material.
    pub open spec fn balanced(self, measure: Measure<V>) -> bool {
        &&& forall|axis: Axis, cell: Cell|
            #![trigger (measure.volume)(Half::Electric, axis, cell)]
            self.extent.has(cell) ==> {
                let (b, c) = (axis.successor(), axis.predecessor());
                &&& self.exchanges_evenly(measure, axis, c, b, cell)
                &&& self.exchanges_evenly(measure, axis, b, c, cell)
            }
        &&& forall|half: Half, cell: Cell, x: V|
            self.extent.has(cell) ==> #[trigger] times(
                (measure.stiffness)(half, cell),
                times(self.gain(half, cell), x),
            ) == x
    }

    /// One component of one field paired with another, cell by cell.
    pub open spec fn pairs(
        self,
        measure: Measure<V>,
        half: Half,
        axis: Axis,
        x: Seq<V>,
        y: Seq<V>,
    ) -> spec_fn(int) -> V {
        |i: int|
            {
                let cell = self.extent.cell(i);
                times(
                    (measure.volume)(half, axis, cell),
                    times((measure.stiffness)(half, cell), times(x[i], y[i])),
                )
            }
    }

    /// A field paired with another, all three components together.
    pub open spec fn pairing(
        self,
        measure: Measure<V>,
        half: Half,
        x: Seq<Seq<V>>,
        y: Seq<Seq<V>>,
    ) -> V {
        let n = self.extent.cells();
        plus(
            plus(
                total(n, self.pairs(measure, half, Axis::X, x[0], y[0])),
                total(n, self.pairs(measure, half, Axis::Y, x[1], y[1])),
            ),
            total(n, self.pairs(measure, half, Axis::Z, x[2], y[2])),
        )
    }

    /// What the curl of `H` does to a component of `E`, against another field.
    pub open spec fn work(
        self,
        measure: Measure<V>,
        axis: Axis,
        field_b: Seq<V>,
        field_c: Seq<V>,
        f: Seq<V>,
    ) -> spec_fn(int) -> V {
        |i: int|
            {
                let cell = self.extent.cell(i);
                times(
                    (measure.volume)(Half::Electric, axis, cell),
                    times(self.curl(Half::Electric, axis, field_b, field_c, cell), f[i]),
                )
            }
    }

    /// What the curl of `E` does to a component of `H`, against another field.
    pub open spec fn counterwork(
        self,
        measure: Measure<V>,
        axis: Axis,
        field_b: Seq<V>,
        field_c: Seq<V>,
        h: Seq<V>,
    ) -> spec_fn(int) -> V {
        |i: int|
            {
                let cell = self.extent.cell(i);
                times(
                    (measure.volume)(Half::Magnetic, axis, cell),
                    times(h[i], self.curl(Half::Magnetic, axis, field_b, field_c, cell)),
                )
            }
    }
}

/// Two components, added cell by cell.
pub open spec fn added<V: Scalar>(x: Seq<V>, y: Seq<V>) -> Seq<V> {
    Seq::new(x.len(), |i: int| plus(x[i], y[i]))
}

/// A square after a push, against the square before.
proof fn lemma_square_grows<V: Scalar>(stiffness: V, gain: V, own: V, curl: V)
    requires
        ring::<V>(),
        forall|x: V| #[trigger] times(stiffness, times(gain, x)) == x,
    ensures
        ({
            let after = plus(own, times(gain, curl));
            times(stiffness, times(after, after)) == plus(
                times(stiffness, times(own, own)),
                times(curl, plus(after, own)),
            )
        }),
{
    let push = times(gain, curl);
    let after = plus(own, push);
    let sum = plus(after, own);
    // after·after = after·own + after·push, and after·own = own·own + own·push.
    multiply_spreads(after, own, push);
    multiply_commutes(after, own);
    multiply_spreads(own, own, push);
    add_regroups(times(own, own), times(own, push), times(after, push));
    // The rest is push·(after + own).
    multiply_commutes(own, push);
    multiply_commutes(after, push);
    multiply_spreads(push, after, own);
    add_commutes(times(push, own), times(push, after));
    assert(times(after, after) == plus(times(own, own), times(push, sum)));
    multiply_regroups(gain, curl, sum);
    multiply_spreads(stiffness, times(own, own), times(push, sum));
    assert(times(stiffness, times(gain, times(curl, sum))) == times(curl, sum));
}

/// Two successive products of three values a push apart.
proof fn lemma_product_shrinks<V: Scalar>(stiffness: V, gain: V, own: V, first: V, second: V)
    requires
        ring::<V>(),
        forall|x: V| #[trigger] times(stiffness, times(gain, x)) == x,
    ensures
        ({
            let middle = minus(own, times(gain, first));
            let last = minus(middle, times(gain, second));
            times(stiffness, times(middle, last)) == minus(
                times(stiffness, times(own, middle)),
                times(middle, plus(second, first)),
            )
        }),
{
    let (p, q) = (times(gain, first), times(gain, second));
    let middle = minus(own, p);
    let last = minus(middle, q);
    let square = times(middle, middle);
    // own = middle + p, so own·middle = middle·middle + p·middle.
    take_away(own, p);
    add_regroups(own, negative(p), p);
    add_commutes(negative(p), p);
    take_away(p, p);
    add_nothing(own);
    assert(own == plus(middle, p));
    multiply_commutes(own, middle);
    multiply_spreads(middle, middle, p);
    assert(times(own, middle) == plus(square, times(middle, p)));
    // middle·last = middle·middle - middle·q.
    multiply_spreads_over_difference(middle, middle, q);
    assert(times(middle, last) == minus(square, times(middle, q)));
    // Together: middle·last = own·middle - middle·(q + p).
    multiply_spreads(middle, q, p);
    let (mp, mq) = (times(middle, p), times(middle, q));
    assert(minus(plus(square, mp), plus(mq, mp)) == minus(square, mq)) by {
        differences_add(square, mq, mp, mp);
        take_away(mp, mp);
        add_nothing(minus(square, mq));
    }
    assert(times(middle, last) == minus(times(own, middle), times(middle, plus(q, p))));
    // And q + p = gain·(second + first).
    multiply_spreads(gain, second, first);
    let both = plus(second, first);
    assert(plus(q, p) == times(gain, both));
    multiply_commutes(middle, times(gain, both));
    multiply_regroups(gain, both, middle);
    multiply_commutes(both, middle);
    multiply_spreads_over_difference(
        stiffness,
        times(own, middle),
        times(middle, plus(q, p)),
    );
    assert(times(stiffness, times(gain, times(middle, both))) == times(middle, both));
}

/// A lossless update is its push.
proof fn lemma_relaxed_is_the_push<V: Scalar>(half: Half, own: V, loss: V, push: V)
    requires
        takes_nothing(loss),
    ensures
        relaxed(half, Direction::Forward, own, loss, push) == match half {
            Half::Magnetic => minus(own, push),
            Half::Electric => plus(own, push),
        },
{
    let less = minus(number::<V>(1), loss);
    let more = plus(number::<V>(1), loss);
    assert(times(less, own) == own);
    assert(over(minus(own, push), more) == minus(own, push));
    assert(over(plus(own, push), more) == plus(own, push));
}

/// What one component of `E` gains in a step.
proof fn lemma_electric_gain<V: Scalar>(
    medium: Medium<V>,
    measure: Measure<V>,
    axis: Axis,
    e: Seq<V>,
    hb: Seq<V>,
    hc: Seq<V>,
)
    requires
        ring::<V>(),
        medium.takes_nothing(),
        medium.balanced(measure),
        e.len() == medium.extent.cells(),
        walled(medium.extent, axis.successor(), e),
        walled(medium.extent, axis.predecessor(), e),
    ensures
        ({
            let after = medium.swept(Half::Electric, Direction::Forward, axis, e, hb, hc);
            let n = medium.extent.cells();
            total(n, medium.pairs(measure, Half::Electric, axis, after, after)) == plus(
                total(n, medium.pairs(measure, Half::Electric, axis, e, e)),
                total(n, medium.work(measure, axis, hb, hc, added(after, e))),
            )
        }),
{
    let extent = medium.extent;
    let n = extent.cells();
    let half = Half::Electric;
    let after = medium.swept(half, Direction::Forward, axis, e, hb, hc);
    let f = added(after, e);
    let old_pairs = medium.pairs(measure, half, axis, e, e);
    let new_pairs = medium.pairs(measure, half, axis, after, after);
    let work = medium.work(measure, axis, hb, hc, f);
    let zero = number::<V>(0);
    assert forall|i: int| 0 <= i < n implies #[trigger] new_pairs(i) == plus(
        old_pairs(i),
        work(i),
    ) by {
        let cell = extent.cell(i);
        slot_of_cell(extent, i);
        let curl = medium.curl(half, axis, hb, hc, cell);
        let volume = (measure.volume)(half, axis, cell);
        let stiffness = (measure.stiffness)(half, cell);
        let gain = medium.gain(half, cell);
        if medium.writes(half, axis, cell) {
            let push = times(gain, curl);
            assert(takes_nothing(medium.loss(half, axis, cell)));
            lemma_relaxed_is_the_push(half, e[i], medium.loss(half, axis, cell), push);
            assert(after[i] == plus(e[i], push));
            lemma_square_grows(stiffness, gain, e[i], curl);
        } else {
            assert(e[extent.slot(cell)] == zero);
            assert(after[i] == zero);
            add_nothing(zero);
            multiply_by_nothing(curl);
            add_nothing(times(stiffness, times(zero, zero)));
        }
        assert(times(stiffness, times(after[i], after[i])) == plus(
            times(stiffness, times(e[i], e[i])),
            times(curl, f[i]),
        ));
        multiply_spreads(
            volume,
            times(stiffness, times(e[i], e[i])),
            times(curl, f[i]),
        );
    }
    totals_add(n, old_pairs, work, new_pairs);
}

/// The work done on one component of `E`, as two sums of differences of `H`.
proof fn lemma_work_splits<V: Scalar>(
    medium: Medium<V>,
    measure: Measure<V>,
    axis: Axis,
    hb: Seq<V>,
    hc: Seq<V>,
    f: Seq<V>,
)
    requires
        ring::<V>(),
        medium.balanced(measure),
        f.len() == medium.extent.cells(),
        walled(medium.extent, axis.successor(), f),
        walled(medium.extent, axis.predecessor(), f),
    ensures
        ({
            let (b, c) = (axis.successor(), axis.predecessor());
            let n = medium.extent.cells();
            total(n, medium.work(measure, axis, hb, hc, f)) == minus(
                total(n, pushed(medium.extent, b, coupling(medium, measure, c, b), hc, f)),
                total(n, pushed(medium.extent, c, coupling(medium, measure, b, c), hb, f)),
            )
        }),
{
    let extent = medium.extent;
    let n = extent.cells();
    let (b, c) = (axis.successor(), axis.predecessor());
    let half = Half::Electric;
    let work = medium.work(measure, axis, hb, hc, f);
    let (weight_b, weight_c) = (
        coupling(medium, measure, c, b),
        coupling(medium, measure, b, c),
    );
    let along_b = pushed(extent, b, weight_b, hc, f);
    let along_c = pushed(extent, c, weight_c, hb, f);
    let zero = number::<V>(0);
    assert forall|i: int| 0 <= i < n implies #[trigger] work(i) == minus(
        along_b(i),
        along_c(i),
    ) by {
        let cell = extent.cell(i);
        slot_of_cell(extent, i);
        let volume = (measure.volume)(half, axis, cell);
        let gain_b = medium.electric_gains@[b.position()]@[cell.along(b)];
        let gain_c = medium.electric_gains@[c.position()]@[cell.along(c)];
        let step_b = minus(hc[i], hc[extent.slot(cell.moved(b, -1))]);
        let step_c = minus(hb[i], hb[extent.slot(cell.moved(c, -1))]);
        let curl = medium.curl(half, axis, hb, hc, cell);
        assert(curl == minus(times(gain_b, step_b), times(gain_c, step_c)));
        if cell.along(b) == 0 || cell.along(c) == 0 {
            assert(f[extent.slot(cell)] == zero);
            multiply_by_nothing(curl);
            multiply_by_nothing(step_b);
            multiply_by_nothing(step_c);
            multiply_by_nothing(volume);
            multiply_by_nothing(weight_b(cell));
            multiply_by_nothing(weight_c(cell));
            take_away(zero, zero);
        } else {
            assert(medium.exchanges_evenly(measure, axis, c, b, cell));
            assert(medium.exchanges_evenly(measure, axis, b, c, cell));
            multiply_spreads_over_difference(f[i], times(gain_b, step_b), times(gain_c, step_c));
            multiply_spreads_over_difference(
                volume,
                times(times(gain_b, step_b), f[i]),
                times(times(gain_c, step_c), f[i]),
            );
            multiply_regroups(gain_b, step_b, f[i]);
            multiply_regroups(gain_c, step_c, f[i]);
            multiply_regroups(volume, gain_b, times(step_b, f[i]));
            multiply_regroups(volume, gain_c, times(step_c, f[i]));
        }
    }
    totals_subtract(n, along_b, along_c, work);
}

/// A forward difference of a sum is the sum of the differences.
proof fn lemma_derivative_adds<V: Scalar>(
    medium: Medium<V>,
    x: Seq<V>,
    y: Seq<V>,
    cell: Cell,
    along: Axis,
)
    requires
        ring::<V>(),
        medium.extent.has(cell),
        x.len() == medium.extent.cells(),
        y.len() == medium.extent.cells(),
    ensures
        medium.derivative(Half::Magnetic, added(x, y), cell, along) == plus(
            medium.derivative(Half::Magnetic, x, cell, along),
            medium.derivative(Half::Magnetic, y, cell, along),
        ),
{
    let extent = medium.extent;
    let zero = number::<V>(0);
    slot_in_range(extent, cell);
    if cell.along(along) + 1 < extent.along(along) {
        slot_in_range(extent, cell.moved(along, 1));
    }
    add_nothing(zero);
    let (ax, ay) = (medium.ahead(x, cell, along), medium.ahead(y, cell, along));
    let (ox, oy) = (x[extent.slot(cell)], y[extent.slot(cell)]);
    assert(medium.ahead(added(x, y), cell, along) == plus(ax, ay));
    differences_add(ax, ox, ay, oy);
    multiply_spreads(
        medium.magnetic_gains@[along.position()]@[cell.along(along)],
        minus(ax, ox),
        minus(ay, oy),
    );
}

/// What one component of `H` loses over two updates.
proof fn lemma_magnetic_loss<V: Scalar>(
    medium: Medium<V>,
    measure: Measure<V>,
    axis: Axis,
    h: Seq<V>,
    eb: Seq<V>,
    ec: Seq<V>,
    next_b: Seq<V>,
    next_c: Seq<V>,
)
    requires
        ring::<V>(),
        medium.takes_nothing(),
        medium.balanced(measure),
        h.len() == medium.extent.cells(),
        eb.len() == medium.extent.cells(),
        ec.len() == medium.extent.cells(),
        next_b.len() == medium.extent.cells(),
        next_c.len() == medium.extent.cells(),
    ensures
        ({
            let n = medium.extent.cells();
            let half = Half::Magnetic;
            let middle = medium.swept(half, Direction::Forward, axis, h, eb, ec);
            let last = medium.swept(half, Direction::Forward, axis, middle, next_b, next_c);
            total(n, medium.pairs(measure, half, axis, middle, last)) == minus(
                total(n, medium.pairs(measure, half, axis, h, middle)),
                total(
                    n,
                    medium.counterwork(
                        measure,
                        axis,
                        added(next_b, eb),
                        added(next_c, ec),
                        middle,
                    ),
                ),
            )
        }),
{
    let extent = medium.extent;
    let n = extent.cells();
    let half = Half::Magnetic;
    let (b, c) = (axis.successor(), axis.predecessor());
    let middle = medium.swept(half, Direction::Forward, axis, h, eb, ec);
    let last = medium.swept(half, Direction::Forward, axis, middle, next_b, next_c);
    let old_pairs = medium.pairs(measure, half, axis, h, middle);
    let new_pairs = medium.pairs(measure, half, axis, middle, last);
    let (fb, fc) = (added(next_b, eb), added(next_c, ec));
    let lost = medium.counterwork(measure, axis, fb, fc, middle);
    assert forall|i: int| 0 <= i < n implies #[trigger] new_pairs(i) == minus(
        old_pairs(i),
        lost(i),
    ) by {
        let cell = extent.cell(i);
        slot_of_cell(extent, i);
        let volume = (measure.volume)(half, axis, cell);
        let stiffness = (measure.stiffness)(half, cell);
        let gain = medium.gain(half, cell);
        let loss = medium.loss(half, axis, cell);
        let first = medium.curl(half, axis, eb, ec, cell);
        let second = medium.curl(half, axis, next_b, next_c, cell);
        assert(takes_nothing(loss));
        lemma_relaxed_is_the_push(half, h[i], loss, times(gain, first));
        lemma_relaxed_is_the_push(half, middle[i], loss, times(gain, second));
        assert(middle[i] == minus(h[i], times(gain, first)));
        assert(last[i] == minus(middle[i], times(gain, second)));
        lemma_product_shrinks(stiffness, gain, h[i], first, second);
        lemma_derivative_adds(medium, next_c, ec, cell, b);
        lemma_derivative_adds(medium, next_b, eb, cell, c);
        differences_add(
            medium.derivative(half, next_c, cell, b),
            medium.derivative(half, next_b, cell, c),
            medium.derivative(half, ec, cell, b),
            medium.derivative(half, eb, cell, c),
        );
        assert(medium.curl(half, axis, fb, fc, cell) == plus(second, first));
        multiply_spreads_over_difference(
            volume,
            times(stiffness, times(h[i], middle[i])),
            times(middle[i], plus(second, first)),
        );
    }
    totals_subtract(n, old_pairs, lost, new_pairs);
}

/// What is taken out of one component of `H`, as two sums of differences of `E`.
proof fn lemma_counterwork_splits<V: Scalar>(
    medium: Medium<V>,
    measure: Measure<V>,
    axis: Axis,
    fb: Seq<V>,
    fc: Seq<V>,
    h: Seq<V>,
)
    requires
        ring::<V>(),
    ensures
        ({
            let (b, c) = (axis.successor(), axis.predecessor());
            let n = medium.extent.cells();
            total(n, medium.counterwork(measure, axis, fb, fc, h)) == minus(
                total(n, pulled(medium, b, coupling(medium, measure, axis, b), h, fc)),
                total(n, pulled(medium, c, coupling(medium, measure, axis, c), h, fb)),
            )
        }),
{
    let extent = medium.extent;
    let n = extent.cells();
    let half = Half::Magnetic;
    let (b, c) = (axis.successor(), axis.predecessor());
    let lost = medium.counterwork(measure, axis, fb, fc, h);
    let along_b = pulled(medium, b, coupling(medium, measure, axis, b), h, fc);
    let along_c = pulled(medium, c, coupling(medium, measure, axis, c), h, fb);
    assert forall|i: int| 0 <= i < n implies #[trigger] lost(i) == minus(
        along_b(i),
        along_c(i),
    ) by {
        let cell = extent.cell(i);
        slot_of_cell(extent, i);
        let volume = (measure.volume)(half, axis, cell);
        let gain_b = medium.magnetic_gains@[b.position()]@[cell.along(b)];
        let gain_c = medium.magnetic_gains@[c.position()]@[cell.along(c)];
        let step_b = minus(medium.ahead(fc, cell, b), fc[i]);
        let step_c = minus(medium.ahead(fb, cell, c), fb[i]);
        let (db, dc) = (times(gain_b, step_b), times(gain_c, step_c));
        assert(medium.curl(half, axis, fb, fc, cell) == minus(db, dc));
        multiply_spreads_over_difference(h[i], db, dc);
        multiply_spreads_over_difference(volume, times(h[i], db), times(h[i], dc));
        lemma_gain_comes_out(volume, h[i], gain_b, step_b);
        lemma_gain_comes_out(volume, h[i], gain_c, step_c);
    }
    totals_subtract(n, along_b, along_c, lost);
}

proof fn lemma_gain_comes_out<V: Scalar>(volume: V, h: V, gain: V, step: V)
    requires
        ring::<V>(),
    ensures
        times(volume, times(h, times(gain, step))) == times(times(volume, gain), times(h, step)),
{
    multiply_regroups(h, gain, step);
    multiply_commutes(h, gain);
    multiply_regroups(gain, h, step);
    multiply_regroups(volume, gain, times(h, step));
}

impl<V: Scalar, W: Scalar, N: Numerics<V, W>> Setup<V, W, N> {
    /// What leapfrog keeps: `E` paired with itself, and `H` with the next `H`.
    pub open spec fn kept(self, measure: Measure<V>, state: State<V>) -> V {
        let next = self.swept(Half::Magnetic, Direction::Forward, state.magnetic, state.electric);
        plus(
            self.medium.pairing(measure, Half::Electric, state.electric, state.electric),
            self.medium.pairing(measure, Half::Magnetic, state.magnetic, next),
        )
    }
}

/// Whether tangential `E` is zero on every near wall.
pub open spec fn boxed<V: Scalar>(extent: Extent, electric: Seq<Seq<V>>) -> bool {
    forall|axis: Axis|
        #![trigger electric[axis.position()]]
        walled(extent, axis.successor(), electric[axis.position()]) && walled(
            extent,
            axis.predecessor(),
            electric[axis.position()],
        )
}

/// An update of `E` leaves the near walls as they are.
proof fn lemma_stays_boxed<V: Scalar>(
    medium: Medium<V>,
    axis: Axis,
    e: Seq<V>,
    hb: Seq<V>,
    hc: Seq<V>,
)
    requires
        walled(medium.extent, axis.successor(), e),
        walled(medium.extent, axis.predecessor(), e),
    ensures
        ({
            let after = medium.swept(Half::Electric, Direction::Forward, axis, e, hb, hc);
            &&& walled(medium.extent, axis.successor(), after)
            &&& walled(medium.extent, axis.predecessor(), after)
        }),
{
    let extent = medium.extent;
    let after = medium.swept(Half::Electric, Direction::Forward, axis, e, hb, hc);
    assert forall|cell: Cell|
        extent.has(cell) && (cell.along(axis.successor()) == 0 || cell.along(axis.predecessor())
            == 0) implies after[#[trigger] extent.slot(cell)] == number::<V>(0) by {
        slot_in_range(extent, cell);
        cell_of_slot(extent, cell);
        assert(e[extent.slot(cell)] == number::<V>(0));
    }
}

proof fn lemma_added_stays_walled<V: Scalar>(extent: Extent, along: Axis, x: Seq<V>, y: Seq<V>)
    requires
        ring::<V>(),
        x.len() == extent.cells(),
        walled(extent, along, x),
        walled(extent, along, y),
    ensures
        walled(extent, along, added(x, y)),
{
    let zero = number::<V>(0);
    assert forall|cell: Cell| extent.has(cell) && cell.along(along) == 0 implies added(x, y)[
        #[trigger] extent.slot(cell)
    ] == zero by {
        slot_in_range(extent, cell);
        assert(x[extent.slot(cell)] == zero && y[extent.slot(cell)] == zero);
        add_nothing(zero);
    }
}

/// The work done on one component of `E` is what is taken out of its two partners.
proof fn lemma_exchange<V: Scalar>(
    medium: Medium<V>,
    measure: Measure<V>,
    axis: Axis,
    hb: Seq<V>,
    hc: Seq<V>,
    f: Seq<V>,
)
    requires
        ring::<V>(),
        medium.balanced(measure),
        f.len() == medium.extent.cells(),
        walled(medium.extent, axis.successor(), f),
        walled(medium.extent, axis.predecessor(), f),
    ensures
        ({
            let (b, c) = (axis.successor(), axis.predecessor());
            let n = medium.extent.cells();
            total(n, medium.work(measure, axis, hb, hc, f)) == minus(
                total(n, pulled(medium, c, coupling(medium, measure, b, c), hb, f)),
                total(n, pulled(medium, b, coupling(medium, measure, c, b), hc, f)),
            )
        }),
{
    let extent = medium.extent;
    let n = extent.cells();
    let (b, c) = (axis.successor(), axis.predecessor());
    let (weight_b, weight_c) = (
        coupling(medium, measure, c, b),
        coupling(medium, measure, b, c),
    );
    lemma_work_splits(medium, measure, axis, hb, hc, f);
    assert forall|cell: Cell|
        #![trigger weight_b(cell.moved(b, 1))]
        extent.has(cell) && extent.has(cell.moved(b, 1)) implies weight_b(cell) == weight_b(
        cell.moved(b, 1),
    ) by {
        let volume = (measure.volume)(Half::Electric, axis, cell);
        assert(medium.exchanges_evenly(measure, axis, c, b, cell));
    }
    assert forall|cell: Cell|
        #![trigger weight_c(cell.moved(c, 1))]
        extent.has(cell) && extent.has(cell.moved(c, 1)) implies weight_c(cell) == weight_c(
        cell.moved(c, 1),
    ) by {
        let volume = (measure.volume)(Half::Electric, axis, cell);
        assert(medium.exchanges_evenly(measure, axis, b, c, cell));
    }
    lemma_parts(medium, b, weight_b, hc, f);
    lemma_parts(medium, c, weight_c, hb, f);
    let v = total(n, pulled(medium, b, weight_b, hc, f));
    let u = total(n, pulled(medium, c, weight_c, hb, f));
    // -v - (-u) is u - v.
    take_away(negative(v), negative(u));
    negatives(u, v);
    add_commutes(negative(v), u);
    take_away(u, v);
}

/// Three sums that grow by three amounts, and three that shrink by the same in
/// another order, keep their total.
proof fn lemma_books_balance<V: Scalar>(
    e: (V, V, V),
    h: (V, V, V),
    u: (V, V, V),
    v: (V, V, V),
)
    requires
        ring::<V>(),
    ensures
        plus(
            plus(
                plus(plus(e.0, minus(u.1, v.2)), plus(e.1, minus(u.2, v.0))),
                plus(e.2, minus(u.0, v.1)),
            ),
            plus(
                plus(minus(h.0, minus(u.0, v.0)), minus(h.1, minus(u.1, v.1))),
                minus(h.2, minus(u.2, v.2)),
            ),
        ) == plus(plus(plus(e.0, e.1), e.2), plus(plus(h.0, h.1), h.2)),
{
    let (t0, t1, t2) = (minus(u.1, v.2), minus(u.2, v.0), minus(u.0, v.1));
    let (r0, r1, r2) = (minus(u.0, v.0), minus(u.1, v.1), minus(u.2, v.2));
    let (ee, hh) = (plus(plus(e.0, e.1), e.2), plus(plus(h.0, h.1), h.2));
    let (tt, rr) = (plus(plus(t0, t1), t2), plus(plus(r0, r1), r2));
    // Each side collects into one sum.
    add_swaps(e.0, t0, e.1, t1);
    add_swaps(plus(e.0, e.1), plus(t0, t1), e.2, t2);
    differences_add(h.0, r0, h.1, r1);
    differences_add(plus(h.0, h.1), plus(r0, r1), h.2, r2);
    // The two amounts are the same.
    differences_add(u.1, v.2, u.2, v.0);
    differences_add(plus(u.1, u.2), plus(v.2, v.0), u.0, v.1);
    differences_add(u.0, v.0, u.1, v.1);
    differences_add(plus(u.0, u.1), plus(v.0, v.1), u.2, v.2);
    add_commutes(plus(u.1, u.2), u.0);
    add_regroups(u.0, u.1, u.2);
    add_regroups(v.2, v.0, v.1);
    add_commutes(v.2, plus(v.0, v.1));
    assert(tt == rr);
    // So what one side gains the other loses.
    take_away(hh, tt);
    add_swaps(ee, tt, hh, negative(tt));
    take_away(tt, tt);
    add_nothing(plus(ee, hh));
}

/// In a lossless box that nothing drives, a step keeps what leapfrog conserves, to
/// the last bit, wherever nothing is rounded.
pub proof fn step_keeps_the_energy<V: Scalar, W: Scalar, N: Numerics<V, W>>(
    setup: Setup<V, W, N>,
    measure: Measure<V>,
    state: State<V>,
)
    requires
        ring::<V>(),
        setup.medium.takes_nothing(),
        setup.medium.balanced(measure),
        setup.medium.extent == setup.grid.extent,
        setup.sources@.len() == 0,
        state.shaped(setup.cells()),
        boxed(setup.grid.extent, state.electric),
    ensures
        setup.kept(measure, setup.advanced(state)) == setup.kept(measure, state),
        boxed(setup.grid.extent, setup.advanced(state).electric),
{
    let medium = setup.medium;
    let extent = medium.extent;
    let n = extent.cells();
    let (e, h) = (state.electric, state.magnetic);
    let after = setup.advanced(state);
    let (m, g) = (after.magnetic, after.electric);
    let last = setup.swept(Half::Magnetic, Direction::Forward, m, g);
    assert(e[0].len() == n && e[1].len() == n && e[2].len() == n);
    assert(h[0].len() == n && h[1].len() == n && h[2].len() == n);
    let (ax, ay, az) = (Axis::X, Axis::Y, Axis::Z);
    assert(ax.position() == 0 && ay.position() == 1 && az.position() == 2);
    assert(walled(extent, ay, e[ax.position()]) && walled(extent, az, e[ax.position()]));
    assert(walled(extent, az, e[ay.position()]) && walled(extent, ax, e[ay.position()]));
    assert(walled(extent, ax, e[az.position()]) && walled(extent, ay, e[az.position()]));
    lemma_stays_boxed(medium, ax, e[0], m[1], m[2]);
    lemma_stays_boxed(medium, ay, e[1], m[2], m[0]);
    lemma_stays_boxed(medium, az, e[2], m[0], m[1]);
    let (fx, fy, fz) = (added(g[0], e[0]), added(g[1], e[1]), added(g[2], e[2]));
    lemma_added_stays_walled(extent, ay, g[0], e[0]);
    lemma_added_stays_walled(extent, az, g[0], e[0]);
    lemma_added_stays_walled(extent, az, g[1], e[1]);
    lemma_added_stays_walled(extent, ax, g[1], e[1]);
    lemma_added_stays_walled(extent, ax, g[2], e[2]);
    lemma_added_stays_walled(extent, ay, g[2], e[2]);
    // What E gains.
    lemma_electric_gain(medium, measure, ax, e[0], m[1], m[2]);
    lemma_electric_gain(medium, measure, ay, e[1], m[2], m[0]);
    lemma_electric_gain(medium, measure, az, e[2], m[0], m[1]);
    lemma_exchange(medium, measure, ax, m[1], m[2], fx);
    lemma_exchange(medium, measure, ay, m[2], m[0], fy);
    lemma_exchange(medium, measure, az, m[0], m[1], fz);
    // What H loses.
    lemma_magnetic_loss(medium, measure, ax, h[0], e[1], e[2], g[1], g[2]);
    lemma_magnetic_loss(medium, measure, ay, h[1], e[2], e[0], g[2], g[0]);
    lemma_magnetic_loss(medium, measure, az, h[2], e[0], e[1], g[0], g[1]);
    lemma_counterwork_splits(medium, measure, ax, fy, fz, m[0]);
    lemma_counterwork_splits(medium, measure, ay, fz, fx, m[1]);
    lemma_counterwork_splits(medium, measure, az, fx, fy, m[2]);
    let half = Half::Electric;
    let other = Half::Magnetic;
    let old_e = (
        total(n, medium.pairs(measure, half, ax, e[0], e[0])),
        total(n, medium.pairs(measure, half, ay, e[1], e[1])),
        total(n, medium.pairs(measure, half, az, e[2], e[2])),
    );
    let old_h = (
        total(n, medium.pairs(measure, other, ax, h[0], m[0])),
        total(n, medium.pairs(measure, other, ay, h[1], m[1])),
        total(n, medium.pairs(measure, other, az, h[2], m[2])),
    );
    let u = (
        total(n, pulled(medium, ay, coupling(medium, measure, ax, ay), m[0], fz)),
        total(n, pulled(medium, az, coupling(medium, measure, ay, az), m[1], fx)),
        total(n, pulled(medium, ax, coupling(medium, measure, az, ax), m[2], fy)),
    );
    let v = (
        total(n, pulled(medium, az, coupling(medium, measure, ax, az), m[0], fy)),
        total(n, pulled(medium, ax, coupling(medium, measure, ay, ax), m[1], fz)),
        total(n, pulled(medium, ay, coupling(medium, measure, az, ay), m[2], fx)),
    );
    lemma_books_balance(old_e, old_h, u, v);
    assert forall|axis: Axis|
        #![trigger after.electric[axis.position()]]
        walled(extent, axis.successor(), after.electric[axis.position()]) && walled(
            extent,
            axis.predecessor(),
            after.electric[axis.position()],
        ) by {
        match axis {
            Axis::X => {},
            Axis::Y => {},
            Axis::Z => {},
        }
    }
}

/// However long it runs, a lossless box that nothing drives keeps what it has.
pub proof fn energy_stays_in_the_box<V: Scalar, W: Scalar, N: Numerics<V, W>>(
    setup: Setup<V, W, N>,
    measure: Measure<V>,
    state: State<V>,
    n: nat,
)
    requires
        ring::<V>(),
        setup.consistent(),
        setup.medium.takes_nothing(),
        setup.medium.balanced(measure),
        setup.sources@.len() == 0,
        state.shaped(setup.cells()),
        boxed(setup.grid.extent, state.electric),
    ensures
        setup.kept(measure, setup.run(state, n)) == setup.kept(measure, state),
        boxed(setup.grid.extent, setup.run(state, n).electric),
    decreases n,
{
    if n > 0 {
        energy_stays_in_the_box(setup, measure, state, (n - 1) as nat);
        run_keeps_shape(setup, state, (n - 1) as nat);
        step_keeps_the_energy(setup, measure, setup.run(state, (n - 1) as nat));
    }
}

/// Every cell counts for one, whatever it is made of.
pub open spec fn plain_measure<V: Scalar>() -> Measure<V> {
    Measure {
        volume: |half: Half, axis: Axis, cell: Cell| number::<V>(1),
        stiffness: |half: Half, cell: Cell| number::<V>(1),
    }
}

/// An empty box of equal cells is balanced when every cell counts for one.
pub proof fn uniform_boxes_are_balanced<V: Scalar>(medium: Medium<V>)
    requires
        forall|x: V| #[trigger] times(number::<V>(1), x) == x,
        forall|half: Half, cell: Cell|
            medium.extent.has(cell) ==> #[trigger] medium.gain(half, cell) == number::<V>(1),
        forall|axis: Axis, p: int|
            0 <= p < medium.extent.along(axis) ==> {
                &&& #[trigger] medium.magnetic_gains@[axis.position()]@[p]
                    == medium.magnetic_gains@[axis.position()]@[0]
                &&& medium.electric_gains@[axis.position()]@[p]
                    == medium.magnetic_gains@[axis.position()]@[0]
            },
    ensures
        medium.balanced(plain_measure()),
{
    let measure = plain_measure::<V>();
    assert forall|axis: Axis, partner: Axis, along: Axis, cell: Cell| medium.extent.has(
        cell,
    ) implies #[trigger] medium.exchanges_evenly(measure, axis, partner, along, cell) by {
        let p = cell.along(along);
        let gains = medium.magnetic_gains@[along.position()]@;
        assert(gains[p] == gains[0]);
        if medium.extent.has(cell.moved(along, 1)) {
            assert(cell.moved(along, 1).along(along) == p + 1);
            assert(gains[p + 1] == gains[0]);
        }
    }
    assert forall|half: Half, cell: Cell, x: V| medium.extent.has(cell) implies #[trigger] times(
        (measure.stiffness)(half, cell),
        times(medium.gain(half, cell), x),
    ) == x by {
        assert(medium.gain(half, cell) == number::<V>(1));
    }
}

/// Cells count for the boxes their samples stand in: whole cells along the axis of
/// `E` and between centres along the others, and the other way round for `H`.
pub open spec fn box_measure<V: Scalar>(
    primary: spec_fn(Axis, int) -> V,
    dual: spec_fn(Axis, int) -> V,
    stiffness: spec_fn(Half, Cell) -> V,
) -> Measure<V> {
    Measure {
        volume: |half: Half, axis: Axis, cell: Cell|
            {
                let width = |along: Axis|
                    if (half == Half::Electric) == (axis == along) {
                        primary(along, cell.along(along))
                    } else {
                        dual(along, cell.along(along))
                    };
                times(times(width(Axis::X), width(Axis::Y)), width(Axis::Z))
            },
        stiffness,
    }
}

proof fn lemma_width_absorbs<V: Scalar>(x: V, y: V, z: V, gain: V)
    requires
        ring::<V>(),
    ensures
        times(times(times(x, y), z), gain) == times(times(times(x, gain), y), z),
        times(times(times(x, y), z), gain) == times(times(x, times(y, gain)), z),
        times(times(times(x, y), z), gain) == times(times(x, y), times(z, gain)),
{
    let xy = times(x, y);
    multiply_regroups(xy, z, gain);
    multiply_commutes(z, gain);
    multiply_regroups(xy, gain, z);
    multiply_regroups(x, y, gain);
    multiply_commutes(y, gain);
    multiply_regroups(x, gain, y);
}

/// A graded box is balanced when its samples are weighed by the boxes they stand
/// in: wherever a width times the gain across it is one and the same distance, the
/// one light travels in a step.
pub proof fn graded_boxes_are_balanced<V: Scalar>(
    medium: Medium<V>,
    primary: spec_fn(Axis, int) -> V,
    dual: spec_fn(Axis, int) -> V,
    stiffness: spec_fn(Half, Cell) -> V,
    travel: V,
)
    requires
        ring::<V>(),
        forall|half: Half, cell: Cell, x: V|
            medium.extent.has(cell) ==> #[trigger] times(
                stiffness(half, cell),
                times(medium.gain(half, cell), x),
            ) == x,
        forall|axis: Axis, p: int|
            0 <= p < medium.extent.along(axis) ==> times(
                #[trigger] primary(axis, p),
                medium.magnetic_gains@[axis.position()]@[p],
            ) == travel,
        forall|axis: Axis, p: int|
            0 <= p < medium.extent.along(axis) ==> times(
                #[trigger] dual(axis, p),
                medium.electric_gains@[axis.position()]@[p],
            ) == travel,
    ensures
        medium.balanced(box_measure(primary, dual, stiffness)),
{
    let measure = box_measure(primary, dual, stiffness);
    assert forall|axis: Axis, partner: Axis, along: Axis, cell: Cell|
        medium.extent.has(cell) && axis != partner && axis != along && partner
            != along implies #[trigger] medium.exchanges_evenly(
        measure,
        axis,
        partner,
        along,
        cell,
    ) by {
        lemma_box_exchange(medium, primary, dual, stiffness, travel, axis, partner, along, cell);
    }
    assert forall|axis: Axis, cell: Cell|
        #![trigger (measure.volume)(Half::Electric, axis, cell)]
        medium.extent.has(cell) implies {
        let (b, c) = (axis.successor(), axis.predecessor());
        &&& medium.exchanges_evenly(measure, axis, c, b, cell)
        &&& medium.exchanges_evenly(measure, axis, b, c, cell)
    } by {
        axes_cycle(axis);
    }
}

proof fn lemma_box_exchange<V: Scalar>(
    medium: Medium<V>,
    primary: spec_fn(Axis, int) -> V,
    dual: spec_fn(Axis, int) -> V,
    stiffness: spec_fn(Half, Cell) -> V,
    travel: V,
    axis: Axis,
    partner: Axis,
    along: Axis,
    cell: Cell,
)
    requires
        ring::<V>(),
        medium.extent.has(cell),
        axis != partner,
        axis != along,
        partner != along,
        forall|axis: Axis, p: int|
            0 <= p < medium.extent.along(axis) ==> times(
                #[trigger] primary(axis, p),
                medium.magnetic_gains@[axis.position()]@[p],
            ) == travel,
        forall|axis: Axis, p: int|
            0 <= p < medium.extent.along(axis) ==> times(
                #[trigger] dual(axis, p),
                medium.electric_gains@[axis.position()]@[p],
            ) == travel,
    ensures
        medium.exchanges_evenly(
            box_measure(primary, dual, stiffness),
            axis,
            partner,
            along,
            cell,
        ),
{
    let p = cell.along(along);
    let next = cell.moved(along, 1);
    let (px, py, pz) = (
        primary(Axis::X, cell.x),
        primary(Axis::Y, cell.y),
        primary(Axis::Z, cell.z),
    );
    let (dx, dy, dz) = (dual(Axis::X, cell.x), dual(Axis::Y, cell.y), dual(Axis::Z, cell.z));
    let own = medium.electric_gains@[along.position()]@[p];
    let gain = medium.magnetic_gains@[along.position()]@[p];
    let gain_next = medium.magnetic_gains@[along.position()]@[p + 1];
    assert(times(primary(along, p), gain) == travel);
    assert(times(dual(along, p), own) == travel);
    if medium.extent.has(next) {
        assert(next.along(along) == p + 1);
        assert(times(primary(along, p + 1), gain_next) == travel);
    }
    let after = primary(along, p + 1);
    match (axis, along) {
        (Axis::X, Axis::Y) => {
            lemma_width_absorbs(px, dy, dz, own);
            lemma_width_absorbs(px, py, dz, gain);
            lemma_width_absorbs(px, after, dz, gain_next);
        },
        (Axis::X, Axis::Z) => {
            lemma_width_absorbs(px, dy, dz, own);
            lemma_width_absorbs(px, dy, pz, gain);
            lemma_width_absorbs(px, dy, after, gain_next);
        },
        (Axis::Y, Axis::X) => {
            lemma_width_absorbs(dx, py, dz, own);
            lemma_width_absorbs(px, py, dz, gain);
            lemma_width_absorbs(after, py, dz, gain_next);
        },
        (Axis::Y, Axis::Z) => {
            lemma_width_absorbs(dx, py, dz, own);
            lemma_width_absorbs(dx, py, pz, gain);
            lemma_width_absorbs(dx, py, after, gain_next);
        },
        (Axis::Z, Axis::X) => {
            lemma_width_absorbs(dx, dy, pz, own);
            lemma_width_absorbs(px, dy, pz, gain);
            lemma_width_absorbs(after, dy, pz, gain_next);
        },
        (Axis::Z, Axis::Y) => {
            lemma_width_absorbs(dx, dy, pz, own);
            lemma_width_absorbs(dx, py, pz, gain);
            lemma_width_absorbs(dx, after, pz, gain_next);
        },
        _ => {},
    }
}

/// Residues add and multiply like the integers they stand for, so theirs is a ring.
pub proof fn residues_are_a_ring()
    ensures
        ring::<Residue>(),
{
    reveal(ring);
    let m: int = 0x1_0000_0000;
    assert forall|a: Residue, b: Residue| #[trigger] times(a, b) == times(b, a) by {
        assert(a.0 * b.0 == b.0 * a.0) by (nonlinear_arith);
    }
    assert forall|a: Residue, b: Residue, c: Residue| #[trigger] times(times(a, b), c) == times(
        a,
        times(b, c),
    ) by {
        let (x, y, z) = (a.0 as int, b.0 as int, c.0 as int);
        lemma_mul_mod_noop_left(x * y, z, m);
        lemma_mul_mod_noop_right(x, y * z, m);
        assert((x * y) * z == x * (y * z)) by (nonlinear_arith);
    }
    assert forall|a: Residue, b: Residue, c: Residue| #[trigger]
        times(a, plus(b, c)) == plus(times(a, b), times(a, c)) by {
        lemma_residues_spread(a, b, c);
    }
}

proof fn lemma_residues_spread(a: Residue, b: Residue, c: Residue)
    ensures
        times(a, plus(b, c)) == plus(times(a, b), times(a, c)),
{
    let m: int = 0x1_0000_0000;
    let (x, y, z) = (a.0 as int, b.0 as int, c.0 as int);
    assert(plus(b, c).0 == (y + z) % m);
    lemma_mul_mod_noop_right(x, y + z, m);
    assert(x * (y + z) == x * y + x * z) by (nonlinear_arith);
    lemma_add_mod_noop(x * y, x * z, m);
    assert(plus(times(a, b), times(a, c)).0 == ((x * y) % m + (x * z) % m) % m);
}

/// On residues a lossless box of equal cells, empty and driven by nothing, keeps
/// its energy exactly, however long it runs.
pub proof fn residue_boxes_keep_their_energy<N: Numerics<Residue, Residue>>(
    setup: Setup<Residue, Residue, N>,
    state: State<Residue>,
    n: nat,
)
    requires
        setup.valid(),
        setup.lossless(),
        setup.sources@.len() == 0,
        forall|half: Half, cell: Cell|
            setup.medium.extent.has(cell) ==> #[trigger] setup.medium.gain(half, cell) == Residue(
                1,
            ),
        forall|axis: Axis, p: int|
            0 <= p < setup.medium.extent.along(axis) ==> {
                &&& #[trigger] setup.medium.magnetic_gains@[axis.position()]@[p]
                    == setup.medium.magnetic_gains@[axis.position()]@[0]
                &&& setup.medium.electric_gains@[axis.position()]@[p]
                    == setup.medium.magnetic_gains@[axis.position()]@[0]
            },
        state.shaped(setup.cells()),
        boxed(setup.grid.extent, state.electric),
    ensures
        setup.kept(plain_measure(), setup.run(state, n)) == setup.kept(plain_measure(), state),
{
    residues_are_a_ring();
    lossless_takes_nothing(setup);
    lemma_cells(setup);
    assert forall|x: Residue| #[trigger] times(number::<Residue>(1), x) == x by {
        lemma_small_mod(x.0 as nat, 0x1_0000_0000);
    }
    uniform_boxes_are_balanced(setup.medium);
    energy_stays_in_the_box(setup, plain_measure(), state, n);
}

} // verus!
