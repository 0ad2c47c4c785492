//! A conducting box cannot tell its low walls from its high ones.
//!
//! Reflecting the box along an axis turns round the component of `E` along that
//! axis and the components of `H` across it. Those sit halfway between the planes
//! of the grid, so the reflection takes cell `p` of `n` to `n − 1 − p`. The others
//! sit on the planes themselves and keep their sign: plane `p` goes to plane
//! `n − p`, and plane 0, a conducting wall that holds nothing, to the far wall that
//! no sample sits on. What is shown is that a step of the reflected fields is the
//! reflection of the step.
//!
//! None of it holds of an arithmetic that treats a number and its negative
//! differently, so the symmetry of the arithmetic is part of the statement.

use crate::grid::Axis;
use crate::lattice::{axes_cycle, cell_of_slot, slot_in_range, slot_of_cell, Cell, Extent};
use crate::numerics::Numerics;
use crate::replay::run_keeps_shape;
use crate::residue::Residue;
use crate::scalar::{minus, negative, number, over, plus, same, times, Scalar};
use crate::setup::{Setup, State};
use crate::source::Injection;
use crate::stencil::{relaxed, Direction, Half, Medium};
use vstd::arithmetic::div_mod::{lemma_fundamental_div_mod, lemma_fundamental_div_mod_converse};
use vstd::prelude::*;

verus! {

/// Whether a component changes its sign when the box is reflected along an axis.
pub open spec fn turns(field: Half, axis: Axis, mirror: Axis) -> bool {
    (field == Half::Electric) == (axis == mirror)
}

/// The cell a reflection brings to `cell`: between the planes for a component
/// that changes its sign, on them for one that does not.
pub open spec fn opposite(extent: Extent, mirror: Axis, odd: bool, cell: Cell) -> Cell {
    let (n, p) = (extent.along(mirror), cell.along(mirror));
    cell.moved(
        mirror,
        if odd {
            n - 1 - 2 * p
        } else {
            n - 2 * p
        },
    )
}

/// What a reflection leaves at a cell.
pub open spec fn reflected_at<V: Scalar>(
    extent: Extent,
    mirror: Axis,
    odd: bool,
    field: Seq<V>,
    cell: Cell,
) -> V {
    let there = field[extent.slot(opposite(extent, mirror, odd, cell))];
    if odd {
        negative(there)
    } else if cell.along(mirror) == 0 {
        number(0)
    } else {
        there
    }
}

/// A component of a reflected field.
pub open spec fn reflected<V: Scalar>(
    extent: Extent,
    mirror: Axis,
    odd: bool,
    field: Seq<V>,
) -> Seq<V> {
    Seq::new(
        extent.cells() as nat,
        |i: int| reflected_at(extent, mirror, odd, field, extent.cell(i)),
    )
}

/// A whole field, reflected.
pub open spec fn reflected_field<V: Scalar>(
    extent: Extent,
    mirror: Axis,
    half: Half,
    field: Seq<Seq<V>>,
) -> Seq<Seq<V>> {
    seq![
        reflected(extent, mirror, turns(half, Axis::X, mirror), field[0]),
        reflected(extent, mirror, turns(half, Axis::Y, mirror), field[1]),
        reflected(extent, mirror, turns(half, Axis::Z, mirror), field[2]),
    ]
}

/// Both fields, reflected.
pub open spec fn reflected_state<V: Scalar>(
    extent: Extent,
    mirror: Axis,
    state: State<V>,
) -> State<V> {
    State {
        electric: reflected_field(extent, mirror, Half::Electric, state.electric),
        magnetic: reflected_field(extent, mirror, Half::Magnetic, state.magnetic),
        step: state.step,
    }
}

/// Whether a component that sits on the planes is zero on the near wall.
pub open spec fn walled<V: Scalar>(extent: Extent, mirror: Axis, field: Seq<V>) -> bool {
    forall|cell: Cell|
        extent.has(cell) && cell.along(mirror) == 0 ==> field[#[trigger] extent.slot(cell)]
            == number::<V>(0)
}

/// Whether every component that sits on the planes of an axis is zero on its near
/// wall.
pub open spec fn walled_state<V: Scalar>(extent: Extent, mirror: Axis, state: State<V>) -> bool {
    &&& forall|axis: Axis|
        !turns(Half::Electric, axis, mirror) ==> walled(
            extent,
            mirror,
            #[trigger] state.electric[axis.position()],
        )
    &&& forall|axis: Axis|
        !turns(Half::Magnetic, axis, mirror) ==> walled(
            extent,
            mirror,
            #[trigger] state.magnetic[axis.position()],
        )
}

/// Sums, differences and products treat a number and its negative alike, and zero
/// is neither.
pub open spec fn even_handed<V: Scalar>() -> bool {
    &&& forall|a: V, b: V| #[trigger] minus(negative(a), negative(b)) == negative(minus(a, b))
    &&& forall|a: V, b: V| #[trigger] minus(a, b) == negative(minus(b, a))
    &&& forall|a: V, b: V| #[trigger] plus(negative(a), negative(b)) == negative(plus(a, b))
    &&& forall|a: V, b: V| #[trigger] times(a, negative(b)) == negative(times(a, b))
    &&& forall|a: V| #[trigger] negative(negative(a)) == a
    &&& forall|a: V| #[trigger] times(a, number::<V>(0)) == number::<V>(0)
    &&& minus(number::<V>(0), number::<V>(0)) == number::<V>(0)
    &&& plus(number::<V>(0), number::<V>(0)) == number::<V>(0)
}

impl<V: Scalar> Medium<V> {
    /// Whether every cell is of one material and the cells along an axis read the
    /// same from either end.
    pub open spec fn reads_both_ways(self, mirror: Axis) -> bool {
        let origin = Cell { x: 0, y: 0, z: 0 };
        let n = self.extent.along(mirror);
        &&& forall|half: Half, axis: Axis, cell: Cell|
            self.extent.has(cell) ==> #[trigger] self.loss(half, axis, cell) == self.loss(
                half,
                axis,
                origin,
            )
        &&& forall|half: Half, cell: Cell|
            self.extent.has(cell) ==> #[trigger] self.gain(half, cell) == self.gain(half, origin)
        &&& forall|p: int|
            0 <= p < n ==> #[trigger] self.magnetic_gains@[mirror.position()]@[p]
                == self.magnetic_gains@[mirror.position()]@[n - 1 - p]
        &&& forall|p: int|
            1 <= p < n ==> #[trigger] self.electric_gains@[mirror.position()]@[p]
                == self.electric_gains@[mirror.position()]@[n - p]
        &&& forall|half: Half, axis: Axis, x: V|
            #[trigger]
            over(negative(x), plus(number::<V>(1), self.loss(half, axis, origin))) == negative(
                over(x, plus(number::<V>(1), self.loss(half, axis, origin))),
            )
        &&& forall|half: Half, axis: Axis|
            over(
                number::<V>(0),
                plus(number::<V>(1), #[trigger] self.loss(half, axis, origin)),
            ) == number::<V>(0)
    }
}

proof fn lemma_opposite(extent: Extent, mirror: Axis, odd: bool, cell: Cell)
    requires
        extent.has(cell),
        odd || cell.along(mirror) >= 1,
    ensures
        extent.has(opposite(extent, mirror, odd, cell)),
        opposite(extent, mirror, odd, cell).along(mirror) == if odd {
            extent.along(mirror) - 1 - cell.along(mirror)
        } else {
            extent.along(mirror) - cell.along(mirror)
        },
        forall|t: Axis|
            t != mirror ==> #[trigger] opposite(extent, mirror, odd, cell).along(t) == cell.along(
                t,
            ),
{
}

proof fn lemma_reflected_at<V: Scalar>(
    extent: Extent,
    mirror: Axis,
    odd: bool,
    field: Seq<V>,
    cell: Cell,
)
    requires
        extent.has(cell),
    ensures
        reflected(extent, mirror, odd, field)[extent.slot(cell)] == reflected_at(
            extent,
            mirror,
            odd,
            field,
            cell,
        ),
{
    slot_in_range(extent, cell);
    cell_of_slot(extent, cell);
}

/// A derivative across the mirror keeps the parity of what it is taken of.
proof fn lemma_derivative_across<V: Scalar>(
    medium: Medium<V>,
    mirror: Axis,
    half: Half,
    odd: bool,
    field: Seq<V>,
    cell: Cell,
    along: Axis,
)
    requires
        even_handed::<V>(),
        medium.extent.has(cell),
        along != mirror,
        half == Half::Electric ==> cell.along(along) >= 1,
    ensures
        ({
            let there = medium.derivative(
                half,
                field,
                opposite(medium.extent, mirror, odd, cell),
                along,
            );
            medium.derivative(half, reflected(medium.extent, mirror, odd, field), cell, along)
                == if odd {
                negative(there)
            } else if cell.along(mirror) == 0 {
                number(0)
            } else {
                there
            }
        }),
{
    let extent = medium.extent;
    let zero = number::<V>(0);
    let here = opposite(extent, mirror, odd, cell);
    lemma_reflected_at(extent, mirror, odd, field, cell);
    assert(here.along(along) == cell.along(along));
    assert(negative(zero) == zero);
    match half {
        Half::Magnetic => {
            if cell.along(along) + 1 < extent.along(along) {
                let next = cell.moved(along, 1);
                lemma_reflected_at(extent, mirror, odd, field, next);
                assert(opposite(extent, mirror, odd, next) == here.moved(along, 1));
            }
        },
        Half::Electric => {
            let last = cell.moved(along, -1);
            lemma_reflected_at(extent, mirror, odd, field, last);
            assert(opposite(extent, mirror, odd, last) == here.moved(along, -1));
        },
    }
}

/// A derivative of `E` toward the mirror changes sign.
proof fn lemma_magnetic_derivative_toward<V: Scalar>(
    medium: Medium<V>,
    mirror: Axis,
    field: Seq<V>,
    cell: Cell,
)
    requires
        even_handed::<V>(),
        medium.reads_both_ways(mirror),
        medium.extent.has(cell),
        walled(medium.extent, mirror, field),
    ensures
        medium.derivative(
            Half::Magnetic,
            reflected(medium.extent, mirror, false, field),
            cell,
            mirror,
        ) == negative(
            medium.derivative(
                Half::Magnetic,
                field,
                opposite(medium.extent, mirror, true, cell),
                mirror,
            ),
        ),
{
    let extent = medium.extent;
    let (n, p) = (extent.along(mirror), cell.along(mirror));
    let there = opposite(extent, mirror, true, cell);
    let zero = number::<V>(0);
    lemma_reflected_at(extent, mirror, false, field, cell);
    assert(there.along(mirror) == n - 1 - p);
    assert(medium.magnetic_gains@[mirror.position()]@[p]
        == medium.magnetic_gains@[mirror.position()]@[n - 1 - p]);
    // What stands ahead here is what stands here over there, and the other way
    // round.
    let ahead = medium.ahead(reflected(extent, mirror, false, field), cell, mirror);
    assert(ahead == field[extent.slot(there)]) by {
        if p + 1 < n {
            let next = cell.moved(mirror, 1);
            lemma_reflected_at(extent, mirror, false, field, next);
            assert(opposite(extent, mirror, false, next) == there);
        } else {
            assert(extent.has(there) && there.along(mirror) == 0);
        }
    }
    let own = reflected(extent, mirror, false, field)[extent.slot(cell)];
    assert(own == medium.ahead(field, there, mirror)) by {
        if p >= 1 {
            assert(opposite(extent, mirror, false, cell) == there.moved(mirror, 1));
        }
    }
    let gain = medium.magnetic_gains@[mirror.position()]@[p];
    assert(minus(ahead, own) == negative(minus(own, ahead)));
    assert(times(gain, negative(minus(own, ahead))) == negative(times(gain, minus(own, ahead))));
}

/// A derivative of `H` toward the mirror keeps its sign.
proof fn lemma_electric_derivative_toward<V: Scalar>(
    medium: Medium<V>,
    mirror: Axis,
    field: Seq<V>,
    cell: Cell,
)
    requires
        even_handed::<V>(),
        medium.reads_both_ways(mirror),
        medium.extent.has(cell),
        cell.along(mirror) >= 1,
    ensures
        medium.derivative(
            Half::Electric,
            reflected(medium.extent, mirror, true, field),
            cell,
            mirror,
        ) == medium.derivative(
            Half::Electric,
            field,
            opposite(medium.extent, mirror, false, cell),
            mirror,
        ),
{
    let extent = medium.extent;
    let (n, p) = (extent.along(mirror), cell.along(mirror));
    let there = opposite(extent, mirror, false, cell);
    let last = cell.moved(mirror, -1);
    lemma_reflected_at(extent, mirror, true, field, cell);
    lemma_reflected_at(extent, mirror, true, field, last);
    assert(there.along(mirror) == n - p);
    assert(medium.electric_gains@[mirror.position()]@[p]
        == medium.electric_gains@[mirror.position()]@[n - p]);
    assert(opposite(extent, mirror, true, cell) == there.moved(mirror, -1));
    assert(opposite(extent, mirror, true, last) == there);
    let a = field[extent.slot(there.moved(mirror, -1))];
    let b = field[extent.slot(there)];
    assert(minus(negative(a), negative(b)) == negative(minus(a, b)));
    assert(minus(b, a) == negative(minus(a, b)));
}

/// One cell of an update runs the same on negatives.
proof fn lemma_relaxed_turns<V: Scalar>(half: Half, own: V, loss: V, push: V)
    requires
        even_handed::<V>(),
        forall|x: V|
            #[trigger] over(negative(x), plus(number::<V>(1), loss)) == negative(
                over(x, plus(number::<V>(1), loss)),
            ),
    ensures
        relaxed(half, Direction::Forward, negative(own), loss, negative(push)) == negative(
            relaxed(half, Direction::Forward, own, loss, push),
        ),
{
    let less = minus(number::<V>(1), loss);
    let kept = times(less, own);
    assert(times(less, negative(own)) == negative(kept));
    assert(minus(negative(kept), negative(push)) == negative(minus(kept, push)));
    assert(plus(negative(kept), negative(push)) == negative(plus(kept, push)));
}

/// Component by component, a half-update of reflected fields is the reflection of
/// the half-update.
proof fn lemma_updated_mirrors<V: Scalar>(
    medium: Medium<V>,
    mirror: Axis,
    half: Half,
    axis: Axis,
    target: Seq<V>,
    field_b: Seq<V>,
    field_c: Seq<V>,
    cell: Cell,
)
    requires
        even_handed::<V>(),
        medium.reads_both_ways(mirror),
        medium.extent.has(cell),
        target.len() == medium.extent.cells(),
        half == Half::Magnetic && axis.successor() != mirror ==> walled(
            medium.extent,
            mirror,
            field_b,
        ),
        half == Half::Magnetic && axis.predecessor() != mirror ==> walled(
            medium.extent,
            mirror,
            field_c,
        ),
    ensures
        ({
            let extent = medium.extent;
            let other = if half == Half::Magnetic {
                Half::Electric
            } else {
                Half::Magnetic
            };
            medium.updated(
                half,
                Direction::Forward,
                axis,
                reflected(extent, mirror, turns(half, axis, mirror), target),
                reflected(extent, mirror, turns(other, axis.successor(), mirror), field_b),
                reflected(extent, mirror, turns(other, axis.predecessor(), mirror), field_c),
                cell,
            ) == reflected_at(
                extent,
                mirror,
                turns(half, axis, mirror),
                medium.swept(half, Direction::Forward, axis, target, field_b, field_c),
                cell,
            )
        }),
{
    axes_cycle(axis);
    let extent = medium.extent;
    let zero = number::<V>(0);
    let (b, c) = (axis.successor(), axis.predecessor());
    let other = if half == Half::Magnetic {
        Half::Electric
    } else {
        Half::Magnetic
    };
    let odd = turns(half, axis, mirror);
    let (odd_b, odd_c) = (turns(other, b, mirror), turns(other, c, mirror));
    let there = opposite(extent, mirror, odd, cell);
    let origin = Cell { x: 0, y: 0, z: 0 };
    let (new_target, new_b, new_c) = (
        reflected(extent, mirror, odd, target),
        reflected(extent, mirror, odd_b, field_b),
        reflected(extent, mirror, odd_c, field_c),
    );
    let swept = medium.swept(half, Direction::Forward, axis, target, field_b, field_c);
    lemma_reflected_at(extent, mirror, odd, target, cell);
    assert(negative(zero) == zero);
    if odd || cell.along(mirror) >= 1 {
        lemma_opposite(extent, mirror, odd, cell);
        slot_in_range(extent, there);
        cell_of_slot(extent, there);
        assert(swept[extent.slot(there)] == medium.updated(
            half,
            Direction::Forward,
            axis,
            target,
            field_b,
            field_c,
            there,
        ));
        assert(medium.writes(half, axis, cell) == medium.writes(half, axis, there));
        if medium.writes(half, axis, cell) {
            // The two derivatives have the parity of the component they push.
            let (to_b, to_c) = (
                medium.derivative(half, field_c, there, b),
                medium.derivative(half, field_b, there, c),
            );
            let (new_to_b, new_to_c) = (
                medium.derivative(half, new_c, cell, b),
                medium.derivative(half, new_b, cell, c),
            );
            if b != mirror {
                lemma_derivative_across(medium, mirror, half, odd_c, field_c, cell, b);
            } else if half == Half::Magnetic {
                lemma_magnetic_derivative_toward(medium, mirror, field_c, cell);
            } else {
                lemma_electric_derivative_toward(medium, mirror, field_c, cell);
            }
            if c != mirror {
                lemma_derivative_across(medium, mirror, half, odd_b, field_b, cell, c);
            } else if half == Half::Magnetic {
                lemma_magnetic_derivative_toward(medium, mirror, field_b, cell);
            } else {
                lemma_electric_derivative_toward(medium, mirror, field_b, cell);
            }
            assert(medium.gain(half, cell) == medium.gain(half, there));
            assert(medium.loss(half, axis, cell) == medium.loss(half, axis, origin));
            assert(medium.loss(half, axis, there) == medium.loss(half, axis, origin));
            if odd {
                assert(new_to_b == negative(to_b));
                assert(new_to_c == negative(to_c));
                let curl = minus(to_b, to_c);
                assert(minus(new_to_b, new_to_c) == negative(curl));
                let gain = medium.gain(half, there);
                assert(times(gain, negative(curl)) == negative(times(gain, curl)));
                lemma_relaxed_turns(
                    half,
                    target[extent.slot(there)],
                    medium.loss(half, axis, origin),
                    times(gain, curl),
                );
            } else {
                assert(new_to_b == to_b);
                assert(new_to_c == to_c);
            }
        }
    } else {
        // On the near wall nothing is there to begin with, and nothing comes.
        if half == Half::Magnetic {
            lemma_derivative_across(medium, mirror, half, odd_c, field_c, cell, b);
            lemma_derivative_across(medium, mirror, half, odd_b, field_b, cell, c);
            assert(medium.loss(half, axis, cell) == medium.loss(half, axis, origin));
            assert(times(minus(number::<V>(1), medium.loss(half, axis, origin)), zero) == zero);
            assert(times(medium.gain(half, cell), zero) == zero);
        }
    }
}

proof fn lemma_swept_mirrors<V: Scalar>(
    medium: Medium<V>,
    mirror: Axis,
    half: Half,
    axis: Axis,
    target: Seq<V>,
    field_b: Seq<V>,
    field_c: Seq<V>,
)
    requires
        even_handed::<V>(),
        medium.reads_both_ways(mirror),
        target.len() == medium.extent.cells(),
        half == Half::Magnetic && axis.successor() != mirror ==> walled(
            medium.extent,
            mirror,
            field_b,
        ),
        half == Half::Magnetic && axis.predecessor() != mirror ==> walled(
            medium.extent,
            mirror,
            field_c,
        ),
    ensures
        ({
            let extent = medium.extent;
            let other = if half == Half::Magnetic {
                Half::Electric
            } else {
                Half::Magnetic
            };
            medium.swept(
                half,
                Direction::Forward,
                axis,
                reflected(extent, mirror, turns(half, axis, mirror), target),
                reflected(extent, mirror, turns(other, axis.successor(), mirror), field_b),
                reflected(extent, mirror, turns(other, axis.predecessor(), mirror), field_c),
            ) == reflected(
                extent,
                mirror,
                turns(half, axis, mirror),
                medium.swept(half, Direction::Forward, axis, target, field_b, field_c),
            )
        }),
{
    let extent = medium.extent;
    let other = if half == Half::Magnetic {
        Half::Electric
    } else {
        Half::Magnetic
    };
    let odd = turns(half, axis, mirror);
    let left = medium.swept(
        half,
        Direction::Forward,
        axis,
        reflected(extent, mirror, odd, target),
        reflected(extent, mirror, turns(other, axis.successor(), mirror), field_b),
        reflected(extent, mirror, turns(other, axis.predecessor(), mirror), field_c),
    );
    let right = reflected(
        extent,
        mirror,
        odd,
        medium.swept(half, Direction::Forward, axis, target, field_b, field_c),
    );
    assert forall|i: int| 0 <= i < extent.cells() implies left[i] == right[i] by {
        slot_of_cell(extent, i);
        lemma_updated_mirrors(
            medium,
            mirror,
            half,
            axis,
            target,
            field_b,
            field_c,
            extent.cell(i),
        );
    }
    assert(left =~= right);
}

/// The near wall stays empty of what sits on the planes.
proof fn lemma_swept_stays_walled<V: Scalar>(
    medium: Medium<V>,
    mirror: Axis,
    half: Half,
    axis: Axis,
    target: Seq<V>,
    field_b: Seq<V>,
    field_c: Seq<V>,
)
    requires
        even_handed::<V>(),
        medium.reads_both_ways(mirror),
        target.len() == medium.extent.cells(),
        !turns(half, axis, mirror),
        walled(medium.extent, mirror, target),
        half == Half::Magnetic ==> walled(medium.extent, mirror, field_b) && walled(
            medium.extent,
            mirror,
            field_c,
        ),
    ensures
        walled(
            medium.extent,
            mirror,
            medium.swept(half, Direction::Forward, axis, target, field_b, field_c),
        ),
{
    axes_cycle(axis);
    let extent = medium.extent;
    let zero = number::<V>(0);
    let origin = Cell { x: 0, y: 0, z: 0 };
    let (b, c) = (axis.successor(), axis.predecessor());
    let swept = medium.swept(half, Direction::Forward, axis, target, field_b, field_c);
    assert forall|cell: Cell| extent.has(cell) && cell.along(mirror) == 0 implies swept[
        #[trigger] extent.slot(cell)
    ] == zero by {
        slot_in_range(extent, cell);
        cell_of_slot(extent, cell);
        if half == Half::Magnetic {
            lemma_flat_derivative(medium, mirror, field_c, cell, b);
            lemma_flat_derivative(medium, mirror, field_b, cell, c);
            assert(medium.loss(half, axis, cell) == medium.loss(half, axis, origin));
            assert(times(minus(number::<V>(1), medium.loss(half, axis, origin)), zero) == zero);
            assert(times(medium.gain(half, cell), zero) == zero);
        }
    }
}

proof fn lemma_flat_derivative<V: Scalar>(
    medium: Medium<V>,
    mirror: Axis,
    field: Seq<V>,
    cell: Cell,
    along: Axis,
)
    requires
        even_handed::<V>(),
        medium.extent.has(cell),
        cell.along(mirror) == 0,
        along != mirror,
        walled(medium.extent, mirror, field),
    ensures
        medium.derivative(Half::Magnetic, field, cell, along) == number::<V>(0),
{
    let zero = number::<V>(0);
    assert(field[medium.extent.slot(cell)] == zero);
    if cell.along(along) + 1 < medium.extent.along(along) {
        let next = cell.moved(along, 1);
        assert(medium.extent.has(next) && next.along(mirror) == 0);
        assert(field[medium.extent.slot(next)] == zero);
    }
}

impl<V: Scalar, W: Scalar, N: Numerics<V, W>> Setup<V, W, N> {
    /// Whether an injection, if it acts on a field at all, acts on a component
    /// that keeps its sign, off the near wall, and as strongly on either side of
    /// the middle.
    pub open spec fn centred(self, injection: Injection<V>, half: Half, mirror: Axis) -> bool {
        self.acts(injection, half) ==> {
            &&& injection.component < 3
            &&& forall|axis: Axis|
                #[trigger] axis.position() == injection.component ==> !turns(half, axis, mirror)
            &&& forall|cell: Cell|
                self.grid.extent.has(cell) && #[trigger] injection.covers(cell) ==> {
                    let there = opposite(self.grid.extent, mirror, false, cell);
                    &&& cell.along(mirror) >= 1
                    &&& injection.covers(there)
                    &&& self.weight(injection, cell) == self.weight(injection, there)
                }
        }
    }

    /// Whether every source drives the box alike on either side of the middle.
    pub open spec fn driven_evenly(self, mirror: Axis) -> bool {
        &&& forall|k: int, time: V, half: Half|
            0 <= k < self.sources@.len() ==> #[trigger] self.centred(
                self.sources@[k].electric_injection(&self.math, self.grid, time),
                half,
                mirror,
            )
        &&& forall|k: int, time: V, half: Half|
            0 <= k < self.sources@.len() ==> #[trigger] self.centred(
                self.sources@[k].magnetic_injection(&self.math, self.grid, time),
                half,
                mirror,
            )
    }
}

/// Whether a field has three components that each cover the box, and those that
/// sit on the planes are zero on the near wall.
spec fn bounded<V: Scalar>(
    extent: Extent,
    mirror: Axis,
    half: Half,
    field: Seq<Seq<V>>,
) -> bool {
    &&& field.len() == 3
    &&& forall|axis: Axis|
        {
            &&& (#[trigger] field[axis.position()]).len() == extent.cells()
            &&& !turns(half, axis, mirror) ==> walled(extent, mirror, field[axis.position()])
        }
}

/// What an injection adds to a component that keeps its sign, it adds to the
/// reflected component in the reflected place.
proof fn lemma_deposited_mirrors<V: Scalar, W: Scalar, N: Numerics<V, W>>(
    setup: Setup<V, W, N>,
    mirror: Axis,
    half: Half,
    field: Seq<V>,
    injection: Injection<V>,
)
    requires
        setup.centred(injection, half, mirror),
        setup.acts(injection, half),
        field.len() == setup.cells(),
    ensures
        setup.deposited(
            reflected(setup.grid.extent, mirror, false, field),
            injection,
            Direction::Forward,
        ) == reflected(
            setup.grid.extent,
            mirror,
            false,
            setup.deposited(field, injection, Direction::Forward),
        ),
        walled(setup.grid.extent, mirror, field) ==> walled(
            setup.grid.extent,
            mirror,
            setup.deposited(field, injection, Direction::Forward),
        ),
{
    let extent = setup.grid.extent;
    let after = setup.deposited(field, injection, Direction::Forward);
    let left = setup.deposited(
        reflected(extent, mirror, false, field),
        injection,
        Direction::Forward,
    );
    let right = reflected(extent, mirror, false, after);
    assert forall|i: int| 0 <= i < extent.cells() implies left[i] == right[i] by {
        slot_of_cell(extent, i);
        let cell = extent.cell(i);
        if cell.along(mirror) >= 1 {
            let there = opposite(extent, mirror, false, cell);
            lemma_opposite(extent, mirror, false, cell);
            slot_in_range(extent, there);
            cell_of_slot(extent, there);
            assert(opposite(extent, mirror, false, there) == cell);
            assert(injection.covers(cell) == injection.covers(there));
        } else {
            assert(!injection.covers(cell));
        }
    }
    assert(left =~= right);
    if walled(extent, mirror, field) {
        assert forall|cell: Cell| extent.has(cell) && cell.along(mirror) == 0 implies after[
            #[trigger] extent.slot(cell)
        ] == number::<V>(0) by {
            slot_in_range(extent, cell);
            cell_of_slot(extent, cell);
            assert(!injection.covers(cell));
        }
    }
}

proof fn lemma_driven_mirrors<V: Scalar, W: Scalar, N: Numerics<V, W>>(
    setup: Setup<V, W, N>,
    mirror: Axis,
    half: Half,
    field: Seq<Seq<V>>,
    injection: Injection<V>,
)
    requires
        setup.centred(injection, half, mirror),
        bounded(setup.grid.extent, mirror, half, field),
    ensures
        setup.driven(
            reflected_field(setup.grid.extent, mirror, half, field),
            injection,
            half,
            Direction::Forward,
        ) == reflected_field(
            setup.grid.extent,
            mirror,
            half,
            setup.driven(field, injection, half, Direction::Forward),
        ),
        bounded(
            setup.grid.extent,
            mirror,
            half,
            setup.driven(field, injection, half, Direction::Forward),
        ),
{
    if setup.acts(injection, half) {
        let extent = setup.grid.extent;
        let c = injection.component as int;
        let axis = if c == 0 {
            Axis::X
        } else if c == 1 {
            Axis::Y
        } else {
            Axis::Z
        };
        assert(axis.position() == injection.component);
        assert(!turns(half, axis, mirror));
        assert(field[axis.position()].len() == extent.cells());
        lemma_deposited_mirrors(setup, mirror, half, field[c], injection);
        let after = setup.driven(field, injection, half, Direction::Forward);
        assert(setup.driven(
            reflected_field(extent, mirror, half, field),
            injection,
            half,
            Direction::Forward,
        ) =~= reflected_field(extent, mirror, half, after));
        assert forall|t: Axis|
            {
                &&& (#[trigger] after[t.position()]).len() == extent.cells()
                &&& !turns(half, t, mirror) ==> walled(extent, mirror, after[t.position()])
            } by {
            assert(field[t.position()].len() == extent.cells());
            if t.position() != c {
                assert(after[t.position()] == field[t.position()]);
            }
        }
    }
}

/// What the sources add to a reflected field is the reflection of what they add.
proof fn lemma_injected_mirrors<V: Scalar, W: Scalar, N: Numerics<V, W>>(
    setup: Setup<V, W, N>,
    mirror: Axis,
    half: Half,
    field: Seq<Seq<V>>,
    time: V,
    n: int,
)
    requires
        setup.driven_evenly(mirror),
        bounded(setup.grid.extent, mirror, half, field),
        0 <= n <= setup.sources@.len(),
    ensures
        setup.injected(
            reflected_field(setup.grid.extent, mirror, half, field),
            half,
            Direction::Forward,
            time,
            n,
        ) == reflected_field(
            setup.grid.extent,
            mirror,
            half,
            setup.injected(field, half, Direction::Forward, time, n),
        ),
        bounded(
            setup.grid.extent,
            mirror,
            half,
            setup.injected(field, half, Direction::Forward, time, n),
        ),
    decreases n,
{
    if n > 0 {
        lemma_injected_mirrors(setup, mirror, half, field, time, n - 1);
        let before = setup.injected(field, half, Direction::Forward, time, n - 1);
        let source = setup.sources@[n - 1];
        let electric = source.electric_injection(&setup.math, setup.grid, time);
        let magnetic = source.magnetic_injection(&setup.math, setup.grid, time);
        assert(setup.centred(electric, half, mirror));
        assert(setup.centred(magnetic, half, mirror));
        lemma_driven_mirrors(setup, mirror, half, before, electric);
        lemma_driven_mirrors(
            setup,
            mirror,
            half,
            setup.driven(before, electric, half, Direction::Forward),
            magnetic,
        );
    }
}

/// A point source that rests on the middle plane of the box, polarized along it,
/// drives it evenly.
pub proof fn dipoles_on_the_middle_plane_drive_evenly<V: Scalar, W: Scalar, N: Numerics<V, W>>(
    setup: Setup<V, W, N>,
    mirror: Axis,
)
    requires
        same(number::<V>(0), number::<V>(0)),
        setup.grid.valid(),
        forall|k: int, time: V|
            0 <= k < setup.sources@.len() ==> {
                &&& setup.sources@[k].shape is Point
                &&& setup.sources@[k].polarization != mirror
                &&& 2 * (#[trigger] setup.sources@[k].electric_injection(
                    &setup.math,
                    setup.grid,
                    time,
                )).origin@[mirror.position()] == setup.grid.extent.along(mirror)
            },
    ensures
        setup.driven_evenly(mirror),
{
    let extent = setup.grid.extent;
    assert(setup.grid.along(mirror).valid());
    assert forall|k: int, time: V, half: Half|
        0 <= k < setup.sources@.len() implies #[trigger] setup.centred(
        setup.sources@[k].electric_injection(&setup.math, setup.grid, time),
        half,
        mirror,
    ) by {
        let source = setup.sources@[k];
        let injection = source.electric_injection(&setup.math, setup.grid, time);
        assert(2 * injection.origin@[mirror.position()] == extent.along(mirror));
        assert forall|cell: Cell| extent.has(cell) && #[trigger] injection.covers(
            cell,
        ) implies opposite(extent, mirror, false, cell) == cell && cell.along(mirror) >= 1 by {
            assert(cell.along(mirror) == injection.origin@[mirror.position()]);
        }
    }
    assert forall|k: int, time: V, half: Half|
        0 <= k < setup.sources@.len() implies #[trigger] setup.centred(
        setup.sources@[k].magnetic_injection(&setup.math, setup.grid, time),
        half,
        mirror,
    ) by {
        let injection = setup.sources@[k].electric_injection(&setup.math, setup.grid, time);
        assert(2 * injection.origin@[mirror.position()] == extent.along(mirror));
    }
}

/// A step of reflected fields is the reflection of the step, in a box of one
/// material whose cells read the same both ways and which is driven alike on
/// either side of the middle, or not at all.
pub proof fn reflected_step_is_the_step_reflected<V: Scalar, W: Scalar, N: Numerics<V, W>>(
    setup: Setup<V, W, N>,
    mirror: Axis,
    state: State<V>,
)
    requires
        even_handed::<V>(),
        setup.medium.reads_both_ways(mirror),
        setup.medium.extent == setup.grid.extent,
        setup.driven_evenly(mirror),
        state.shaped(setup.cells()),
        walled_state(setup.grid.extent, mirror, state),
    ensures
        setup.advanced(reflected_state(setup.grid.extent, mirror, state)) == reflected_state(
            setup.grid.extent,
            mirror,
            setup.advanced(state),
        ),
        walled_state(setup.grid.extent, mirror, setup.advanced(state)),
{
    let extent = setup.grid.extent;
    let after = setup.advanced(state);
    let time = setup.time_after(state.step + 1);
    let all = setup.sources@.len() as int;
    let (e, h) = (state.electric, state.magnetic);
    assert forall|axis: Axis| (#[trigger] e[axis.position()]).len() == extent.cells() by {
        assert(state.electric[axis.position()].len() == setup.cells());
    }
    assert forall|axis: Axis| (#[trigger] h[axis.position()]).len() == extent.cells() by {
        assert(state.magnetic[axis.position()].len() == setup.cells());
    }
    assert(bounded(extent, mirror, Half::Electric, e));
    assert(bounded(extent, mirror, Half::Magnetic, h));
    lemma_half_step_mirrors(setup, mirror, Half::Magnetic, h, e);
    let swept = setup.swept(Half::Magnetic, Direction::Forward, h, e);
    lemma_injected_mirrors(setup, mirror, Half::Magnetic, swept, time, all);
    let m = after.magnetic;
    lemma_half_step_mirrors(setup, mirror, Half::Electric, e, m);
    lemma_injected_mirrors(
        setup,
        mirror,
        Half::Electric,
        setup.swept(Half::Electric, Direction::Forward, e, m),
        time,
        all,
    );
    let left = setup.advanced(reflected_state(extent, mirror, state));
    let right = reflected_state(extent, mirror, after);
    assert(left.magnetic =~= right.magnetic);
    assert(left.electric =~= right.electric);
    assert(left =~= right);
}

/// A half-update of reflected fields is the reflection of the half-update.
proof fn lemma_half_step_mirrors<V: Scalar, W: Scalar, N: Numerics<V, W>>(
    setup: Setup<V, W, N>,
    mirror: Axis,
    half: Half,
    field: Seq<Seq<V>>,
    source: Seq<Seq<V>>,
)
    requires
        even_handed::<V>(),
        setup.medium.reads_both_ways(mirror),
        setup.medium.extent == setup.grid.extent,
        bounded(setup.grid.extent, mirror, half, field),
        bounded(
            setup.grid.extent,
            mirror,
            if half == Half::Magnetic {
                Half::Electric
            } else {
                Half::Magnetic
            },
            source,
        ),
    ensures
        ({
            let extent = setup.grid.extent;
            let other = if half == Half::Magnetic {
                Half::Electric
            } else {
                Half::Magnetic
            };
            setup.swept(
                half,
                Direction::Forward,
                reflected_field(extent, mirror, half, field),
                reflected_field(extent, mirror, other, source),
            ) == reflected_field(
                extent,
                mirror,
                half,
                setup.swept(half, Direction::Forward, field, source),
            )
        }),
        bounded(
            setup.grid.extent,
            mirror,
            half,
            setup.swept(half, Direction::Forward, field, source),
        ),
{
    let extent = setup.grid.extent;
    let medium = setup.medium;
    let other = if half == Half::Magnetic {
        Half::Electric
    } else {
        Half::Magnetic
    };
    assert(Axis::X.position() == 0 && Axis::Y.position() == 1 && Axis::Z.position() == 2);
    assert forall|axis: Axis|
        {
            &&& field[#[trigger] axis.position()].len() == extent.cells()
            &&& !turns(half, axis, mirror) ==> walled(extent, mirror, field[axis.position()])
            &&& !turns(other, axis, mirror) ==> walled(extent, mirror, source[axis.position()])
        } by {
        assert(field[axis.position()].len() == extent.cells());
        assert(source[axis.position()].len() == extent.cells());
    }
    lemma_swept_mirrors(medium, mirror, half, Axis::X, field[0], source[1], source[2]);
    lemma_swept_mirrors(medium, mirror, half, Axis::Y, field[1], source[2], source[0]);
    lemma_swept_mirrors(medium, mirror, half, Axis::Z, field[2], source[0], source[1]);
    let after = setup.swept(half, Direction::Forward, field, source);
    assert(setup.swept(
        half,
        Direction::Forward,
        reflected_field(extent, mirror, half, field),
        reflected_field(extent, mirror, other, source),
    ) =~= reflected_field(extent, mirror, half, after));
    assert forall|axis: Axis|
        {
            &&& (#[trigger] after[axis.position()]).len() == extent.cells()
            &&& !turns(half, axis, mirror) ==> walled(extent, mirror, after[axis.position()])
        } by {
        if !turns(half, axis, mirror) {
            axes_cycle(axis);
            lemma_swept_stays_walled(
                medium,
                mirror,
                half,
                axis,
                field[axis.position()],
                source[axis.successor().position()],
                source[axis.predecessor().position()],
            );
        }
    }
}

/// However long it runs, a box cannot tell its low walls from its high ones: a run
/// from reflected fields is the reflection of the run.
pub proof fn reflected_run_is_the_run_reflected<V: Scalar, W: Scalar, N: Numerics<V, W>>(
    setup: Setup<V, W, N>,
    mirror: Axis,
    state: State<V>,
    n: nat,
)
    requires
        even_handed::<V>(),
        setup.consistent(),
        setup.medium.reads_both_ways(mirror),
        setup.driven_evenly(mirror),
        state.shaped(setup.cells()),
        walled_state(setup.grid.extent, mirror, state),
    ensures
        setup.run(reflected_state(setup.grid.extent, mirror, state), n) == reflected_state(
            setup.grid.extent,
            mirror,
            setup.run(state, n),
        ),
        walled_state(setup.grid.extent, mirror, setup.run(state, n)),
    decreases n,
{
    if n > 0 {
        let before = setup.run(state, (n - 1) as nat);
        reflected_run_is_the_run_reflected(setup, mirror, state, (n - 1) as nat);
        run_keeps_shape(setup, state, (n - 1) as nat);
        reflected_step_is_the_step_reflected(setup, mirror, before);
    }
}

/// Driven from the middle and started from rest, the fields are their own
/// reflection at every step: the echoes off opposite walls agree.
pub proof fn echoes_agree<V: Scalar, W: Scalar, N: Numerics<V, W>>(
    setup: Setup<V, W, N>,
    mirror: Axis,
    n: nat,
)
    requires
        even_handed::<V>(),
        setup.consistent(),
        setup.medium.reads_both_ways(mirror),
        setup.driven_evenly(mirror),
    ensures
        reflected_state(setup.grid.extent, mirror, setup.state_at(n)) == setup.state_at(n),
{
    let extent = setup.grid.extent;
    let rest = setup.at_rest();
    assert(negative(number::<V>(0)) == number::<V>(0));
    let empty = Seq::new(setup.cells() as nat, |i: int| number::<V>(0));
    assert forall|odd: bool| #[trigger] reflected(extent, mirror, odd, empty) == empty by {
        assert forall|i: int| 0 <= i < extent.cells() implies reflected(
            extent,
            mirror,
            odd,
            empty,
        )[i] == empty[i] by {
            slot_of_cell(extent, i);
            let cell = extent.cell(i);
            if odd || cell.along(mirror) >= 1 {
                lemma_opposite(extent, mirror, odd, cell);
                slot_in_range(extent, opposite(extent, mirror, odd, cell));
            }
        }
        assert(reflected(extent, mirror, odd, empty) =~= empty);
    }
    let image = reflected_state(extent, mirror, rest);
    assert(image.electric =~= rest.electric);
    assert(image.magnetic =~= rest.magnetic);
    assert forall|axis: Axis| rest.electric[#[trigger] axis.position()] == empty by {}
    assert forall|axis: Axis| rest.magnetic[#[trigger] axis.position()] == empty by {}
    assert(walled(extent, mirror, empty)) by {
        assert forall|cell: Cell| extent.has(cell) && cell.along(mirror) == 0 implies empty[
            #[trigger] extent.slot(cell)
        ] == number::<V>(0) by {
            slot_in_range(extent, cell);
        }
    }
    reflected_run_is_the_run_reflected(setup, mirror, rest, n);
}

proof fn lemma_negative_product(a: Residue, b: Residue)
    ensures
        times(a, negative(b)) == negative(times(a, b)),
{
    let m: int = 0x1_0000_0000;
    let (x, y) = (a.0 as int, b.0 as int);
    assert(x * y >= 0) by (nonlinear_arith)
        requires
            x >= 0,
            y >= 0,
    ;
    let (q, r) = ((x * y) / m, (x * y) % m);
    lemma_fundamental_div_mod(x * y, m);
    assert(times(a, b).0 == r);
    if y == 0 {
        assert(x * 0 == 0) by (nonlinear_arith);
    } else {
        assert(negative(b).0 == m - y);
        assert(x * (m - y) == m * (x - q) - r) by (nonlinear_arith)
            requires
                x * y == m * q + r,
        ;
        if r == 0 {
            lemma_fundamental_div_mod_converse(x * (m - y), m, x - q, 0);
        } else {
            assert(m * (x - q) - r == m * (x - q - 1) + (m - r)) by (nonlinear_arith);
            lemma_fundamental_div_mod_converse(x * (m - y), m, x - q - 1, m - r);
        }
    }
}

/// Residues treat a number and its negative alike, so what is said of boxes here
/// is said of theirs.
pub proof fn residues_are_even_handed()
    ensures
        even_handed::<Residue>(),
{
    assert forall|a: Residue, b: Residue| #[trigger] times(a, negative(b)) == negative(
        times(a, b),
    ) by {
        lemma_negative_product(a, b);
    }
    assert forall|a: Residue| #[trigger] times(a, number::<Residue>(0)) == number::<Residue>(
        0,
    ) by {
        assert(a.0 as int * 0 == 0) by (nonlinear_arith);
    }
}

} // verus!
