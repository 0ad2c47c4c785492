//! Leapfrog is an involution.
//!
//! Undoing a step runs its parts in the opposite order with the algebra inverted.
//! Where nothing takes energy out of the fields and arithmetic loses nothing, the
//! round trip is the identity, which checks that the forward and the reverse sweep
//! cover exactly the same cells: a cell updated one way and not the other would
//! not be undone, it would be corrupted.

use crate::grid::Axis;
use crate::lattice::{slot_of_cell, Cell};
use crate::numerics::Numerics;
use crate::replay::{lemma_injected_shape, run_keeps_shape};
use crate::scalar::{minus, number, over, plus, times, Scalar};
use crate::setup::{sign_of, Setup, State};
use crate::source::Injection;
use crate::stencil::{relaxed, Direction, Half, Medium};
use vstd::prelude::*;

verus! {

/// Taking away what was added gives back what was there.
pub open spec fn addition_is_undone<V: Scalar>() -> bool {
    &&& forall|a: V, b: V| #[trigger] minus(plus(a, b), b) == a
    &&& forall|a: V, b: V| #[trigger] plus(minus(a, b), b) == a
}

/// The order in which two amounts are added does not matter.
pub open spec fn additions_commute<V: Scalar>() -> bool {
    forall|t: V, a: V, b: V| #[trigger] plus(plus(t, a), b) == plus(plus(t, b), a)
}

/// A source retracted takes out exactly what it put in.
pub open spec fn retraction_is_exact<V: Scalar>() -> bool {
    &&& forall|t: V, v: V, w: V| #[trigger]
        plus(
            plus(t, times(times(sign_of::<V>(Direction::Forward), v), w)),
            times(times(sign_of::<V>(Direction::Backward), v), w),
        ) == t
    &&& forall|t: V, v: V, w: V| #[trigger]
        plus(
            plus(t, times(times(sign_of::<V>(Direction::Backward), v), w)),
            times(times(sign_of::<V>(Direction::Forward), v), w),
        ) == t
}

/// Arithmetic that loses nothing to rounding.
pub open spec fn exact<V: Scalar>() -> bool {
    &&& addition_is_undone::<V>()
    &&& additions_commute::<V>()
    &&& retraction_is_exact::<V>()
}

/// A loss that takes nothing: its factors are one.
pub open spec fn takes_nothing<V: Scalar>(loss: V) -> bool {
    let less = minus(number::<V>(1), loss);
    let more = plus(number::<V>(1), loss);
    forall|x: V|
        #![trigger times(less, x)]
        #![trigger times(more, x)]
        #![trigger over(x, less)]
        #![trigger over(x, more)]
        times(less, x) == x && times(more, x) == x && over(x, less) == x && over(x, more) == x
}

/// The other direction.
pub open spec fn opposite(direction: Direction) -> Direction {
    match direction {
        Direction::Forward => Direction::Backward,
        Direction::Backward => Direction::Forward,
    }
}

impl<V: Scalar> Medium<V> {
    /// No cell loses anything, in either field.
    pub open spec fn takes_nothing(self) -> bool {
        forall|half: Half, axis: Axis, cell: Cell|
            self.extent.has(cell) ==> takes_nothing(#[trigger] self.loss(half, axis, cell))
    }
}

/// A half-update run one way and then the other leaves a component as it was,
/// in every cell.
pub proof fn sweep_is_undone<V: Scalar>(
    medium: Medium<V>,
    half: Half,
    direction: Direction,
    axis: Axis,
    target: Seq<V>,
    field_b: Seq<V>,
    field_c: Seq<V>,
)
    requires
        addition_is_undone::<V>(),
        medium.takes_nothing(),
        target.len() == medium.extent.cells(),
    ensures
        medium.swept(
            half,
            opposite(direction),
            axis,
            medium.swept(half, direction, axis, target, field_b, field_c),
            field_b,
            field_c,
        ) == target,
{
    let there = medium.swept(half, direction, axis, target, field_b, field_c);
    let back = medium.swept(half, opposite(direction), axis, there, field_b, field_c);
    assert forall|i: int| 0 <= i < target.len() implies back[i] == target[i] by {
        let cell = medium.extent.cell(i);
        slot_of_cell(medium.extent, i);
        let loss = medium.loss(half, axis, cell);
        assert(takes_nothing(loss));
        let push = times(
            medium.gain(half, cell),
            medium.curl(half, axis, field_b, field_c, cell),
        );
        let own = target[i];
        let less = minus(number::<V>(1), loss);
        let more = plus(number::<V>(1), loss);
        assert(times(less, own) == own && times(more, own) == own);
        let up = plus(own, push);
        let down = minus(own, push);
        assert(over(up, more) == up && over(up, less) == up && times(less, up) == up && times(
            more,
            up,
        ) == up);
        assert(over(down, more) == down && over(down, less) == down && times(less, down) == down
            && times(more, down) == down);
        assert(minus(up, push) == own);
        assert(plus(down, push) == own);
        assert(over(own, more) == own && over(own, less) == own);
        assert(relaxed(
            half,
            opposite(direction),
            relaxed(half, direction, own, loss, push),
            loss,
            push,
        ) == own);
    }
    assert(back =~= target);
}

/// Whether a field has three components of the right length.
pub open spec fn formed<V>(field: Seq<Seq<V>>, cells: int) -> bool {
    &&& field.len() == 3
    &&& forall|t: int| 0 <= t < 3 ==> (#[trigger] field[t]).len() == cells
}

proof fn lemma_swept_undone<V: Scalar, W: Scalar, N: Numerics<V, W>>(
    setup: Setup<V, W, N>,
    half: Half,
    direction: Direction,
    field: Seq<Seq<V>>,
    other: Seq<Seq<V>>,
)
    requires
        addition_is_undone::<V>(),
        setup.consistent(),
        setup.medium.takes_nothing(),
        formed(field, setup.cells()),
    ensures
        setup.swept(half, opposite(direction), setup.swept(half, direction, field, other), other)
            == field,
{
    let m = setup.medium;
    assert(field[0].len() == setup.cells());
    assert(field[1].len() == setup.cells());
    assert(field[2].len() == setup.cells());
    sweep_is_undone(m, half, direction, Axis::X, field[0], other[1], other[2]);
    sweep_is_undone(m, half, direction, Axis::Y, field[1], other[2], other[0]);
    sweep_is_undone(m, half, direction, Axis::Z, field[2], other[0], other[1]);
    assert(setup.swept(
        half,
        opposite(direction),
        setup.swept(half, direction, field, other),
        other,
    ) =~= field);
}

proof fn lemma_driven_formed<V: Scalar, W: Scalar, N: Numerics<V, W>>(
    setup: Setup<V, W, N>,
    field: Seq<Seq<V>>,
    injection: Injection<V>,
    half: Half,
    direction: Direction,
)
    requires
        setup.consistent(),
        formed(field, setup.cells()),
        injection.component < 3,
    ensures
        formed(setup.driven(field, injection, half, direction), setup.cells()),
{
}

/// Two injections can be applied in either order.
pub proof fn injections_commute<V: Scalar, W: Scalar, N: Numerics<V, W>>(
    setup: Setup<V, W, N>,
    field: Seq<Seq<V>>,
    first: Injection<V>,
    second: Injection<V>,
    half: Half,
    one: Direction,
    two: Direction,
)
    requires
        additions_commute::<V>(),
        setup.consistent(),
        formed(field, setup.cells()),
        first.component < 3,
        second.component < 3,
    ensures
        setup.driven(setup.driven(field, first, half, one), second, half, two) == setup.driven(
            setup.driven(field, second, half, two),
            first,
            half,
            one,
        ),
{
    let a = first.component as int;
    let b = second.component as int;
    let left = setup.driven(setup.driven(field, first, half, one), second, half, two);
    let right = setup.driven(setup.driven(field, second, half, two), first, half, one);
    lemma_driven_formed(setup, field, first, half, one);
    lemma_driven_formed(setup, field, second, half, two);
    if setup.acts(first, half) && setup.acts(second, half) {
        if a == b {
            let l = setup.deposited(setup.deposited(field[a], first, one), second, two);
            let r = setup.deposited(setup.deposited(field[a], second, two), first, one);
            assert forall|i: int| 0 <= i < setup.cells() implies l[i] == r[i] by {
                let cell = setup.grid.extent.cell(i);
                if first.covers(cell) && second.covers(cell) {
                    let x = times(
                        times(sign_of::<V>(one), first.value),
                        setup.weight(first, cell),
                    );
                    let y = times(
                        times(sign_of::<V>(two), second.value),
                        setup.weight(second, cell),
                    );
                    assert(plus(plus(field[a][i], x), y) == plus(plus(field[a][i], y), x));
                }
            }
            assert(l =~= r);
        }
        assert(left =~= right);
    }
}

/// An injection applied one way and then the other leaves a field as it was.
pub proof fn injection_is_undone<V: Scalar, W: Scalar, N: Numerics<V, W>>(
    setup: Setup<V, W, N>,
    field: Seq<Seq<V>>,
    injection: Injection<V>,
    half: Half,
    direction: Direction,
)
    requires
        retraction_is_exact::<V>(),
        setup.consistent(),
        formed(field, setup.cells()),
        injection.component < 3,
    ensures
        setup.driven(
            setup.driven(field, injection, half, direction),
            injection,
            half,
            opposite(direction),
        ) == field,
{
    if setup.acts(injection, half) {
        let a = injection.component as int;
        let there = setup.deposited(field[a], injection, direction);
        let back = setup.deposited(there, injection, opposite(direction));
        assert(field[a].len() == setup.cells());
        assert forall|i: int| 0 <= i < setup.cells() implies back[i] == field[a][i] by {
            let cell = setup.grid.extent.cell(i);
            if injection.covers(cell) {
                let t = field[a][i];
                let v = injection.value;
                let w = setup.weight(injection, cell);
                assert(plus(
                    plus(t, times(times(sign_of::<V>(direction), v), w)),
                    times(times(sign_of::<V>(opposite(direction)), v), w),
                ) == t);
            }
        }
        assert(back =~= field[a]);
        assert(setup.driven(
            setup.driven(field, injection, half, direction),
            injection,
            half,
            opposite(direction),
        ) =~= field);
    }
}

/// One injection can be moved in front of all the sources.
proof fn lemma_driven_passes<V: Scalar, W: Scalar, N: Numerics<V, W>>(
    setup: Setup<V, W, N>,
    field: Seq<Seq<V>>,
    injection: Injection<V>,
    half: Half,
    one: Direction,
    two: Direction,
    time: V,
    n: int,
)
    requires
        additions_commute::<V>(),
        setup.consistent(),
        formed(field, setup.cells()),
        injection.component < 3,
        n <= setup.sources@.len(),
    ensures
        setup.injected(setup.driven(field, injection, half, one), half, two, time, n)
            == setup.driven(
            setup.injected(field, half, two, time, n),
            injection,
            half,
            one,
        ),
    decreases n,
{
    if n > 0 {
        lemma_driven_passes(setup, field, injection, half, one, two, time, n - 1);
        lemma_injected_shape(setup, field, half, two, time, n - 1);
        assert(setup.sources@[n - 1].coherent());
        let before = setup.injected(field, half, two, time, n - 1);
        let e = setup.sources@[n - 1].electric_injection(&setup.math, setup.grid, time);
        let m = setup.sources@[n - 1].magnetic_injection(&setup.math, setup.grid, time);
        injections_commute(setup, before, injection, e, half, one, two);
        lemma_driven_formed(setup, before, e, half, two);
        injections_commute(
            setup,
            setup.driven(before, e, half, two),
            injection,
            m,
            half,
            one,
            two,
        );
    }
}

/// Taking all the sources out again leaves a field as it was.
pub proof fn sources_are_undone<V: Scalar, W: Scalar, N: Numerics<V, W>>(
    setup: Setup<V, W, N>,
    field: Seq<Seq<V>>,
    half: Half,
    direction: Direction,
    time: V,
    n: int,
)
    requires
        exact::<V>(),
        setup.consistent(),
        formed(field, setup.cells()),
        n <= setup.sources@.len(),
    ensures
        setup.injected(
            setup.injected(field, half, direction, time, n),
            half,
            opposite(direction),
            time,
            n,
        ) == field,
    decreases n,
{
    if n > 0 {
        let back = opposite(direction);
        let e = setup.sources@[n - 1].electric_injection(&setup.math, setup.grid, time);
        let m = setup.sources@[n - 1].magnetic_injection(&setup.math, setup.grid, time);
        assert(setup.sources@[n - 1].coherent());
        let inner = setup.injected(field, half, direction, time, n - 1);
        lemma_injected_shape(setup, field, half, direction, time, n - 1);
        let with_e = setup.driven(inner, e, half, direction);
        lemma_driven_formed(setup, inner, e, half, direction);
        let with_both = setup.driven(with_e, m, half, direction);
        lemma_driven_formed(setup, with_e, m, half, direction);
        // Everything before the last source unwinds underneath it.
        lemma_driven_passes(setup, with_e, m, half, direction, back, time, n - 1);
        lemma_driven_passes(setup, inner, e, half, direction, back, time, n - 1);
        sources_are_undone(setup, field, half, direction, time, n - 1);
        assert(setup.injected(with_both, half, back, time, n - 1) == setup.driven(
            setup.driven(field, e, half, direction),
            m,
            half,
            direction,
        ));
        // And the last source comes off.
        let just_e = setup.driven(field, e, half, direction);
        lemma_driven_formed(setup, field, e, half, direction);
        injections_commute(setup, just_e, m, e, half, direction, back);
        injection_is_undone(setup, field, e, half, direction);
        injection_is_undone(setup, field, m, half, direction);
    }
}

/// Stepping back undoes stepping forward.
pub proof fn step_is_undone<V: Scalar, W: Scalar, N: Numerics<V, W>>(
    setup: Setup<V, W, N>,
    state: State<V>,
)
    requires
        exact::<V>(),
        setup.consistent(),
        setup.medium.takes_nothing(),
        state.shaped(setup.cells()),
    ensures
        setup.reversed(setup.advanced(state)) == state,
{
    let time = setup.time_after(state.step + 1);
    let all = setup.sources@.len() as int;
    let there = setup.advanced(state);
    let pushed_h = setup.swept(
        Half::Magnetic,
        Direction::Forward,
        state.magnetic,
        state.electric,
    );
    let pushed_e = setup.swept(
        Half::Electric,
        Direction::Forward,
        state.electric,
        there.magnetic,
    );
    sources_are_undone(setup, pushed_e, Half::Electric, Direction::Forward, time, all);
    lemma_swept_undone(
        setup,
        Half::Electric,
        Direction::Forward,
        state.electric,
        there.magnetic,
    );
    sources_are_undone(setup, pushed_h, Half::Magnetic, Direction::Forward, time, all);
    lemma_swept_undone(
        setup,
        Half::Magnetic,
        Direction::Forward,
        state.magnetic,
        state.electric,
    );
    assert(setup.reversed(there) =~= state);
}

/// Stepping forward undoes stepping back.
pub proof fn step_back_is_undone<V: Scalar, W: Scalar, N: Numerics<V, W>>(
    setup: Setup<V, W, N>,
    state: State<V>,
)
    requires
        exact::<V>(),
        setup.consistent(),
        setup.medium.takes_nothing(),
        state.shaped(setup.cells()),
    ensures
        setup.advanced(setup.reversed(state)) == state,
{
    let time = setup.time_after(state.step);
    let all = setup.sources@.len() as int;
    let before = setup.reversed(state);
    let bare_e = setup.injected(
        state.electric,
        Half::Electric,
        Direction::Backward,
        time,
        all,
    );
    let bare_h = setup.injected(
        state.magnetic,
        Half::Magnetic,
        Direction::Backward,
        time,
        all,
    );
    lemma_injected_shape(
        setup,
        state.electric,
        Half::Electric,
        Direction::Backward,
        time,
        all,
    );
    lemma_injected_shape(
        setup,
        state.magnetic,
        Half::Magnetic,
        Direction::Backward,
        time,
        all,
    );
    lemma_swept_undone(setup, Half::Magnetic, Direction::Backward, bare_h, before.electric);
    sources_are_undone(
        setup,
        state.magnetic,
        Half::Magnetic,
        Direction::Backward,
        time,
        all,
    );
    lemma_swept_undone(setup, Half::Electric, Direction::Backward, bare_e, state.magnetic);
    sources_are_undone(
        setup,
        state.electric,
        Half::Electric,
        Direction::Backward,
        time,
        all,
    );
    assert(setup.advanced(before) =~= state);
}

proof fn lemma_rewind_from_the_front<V: Scalar, W: Scalar, N: Numerics<V, W>>(
    setup: Setup<V, W, N>,
    state: State<V>,
    n: nat,
)
    ensures
        setup.rewound(state, n + 1) == setup.rewound(setup.reversed(state), n),
    decreases n,
{
    reveal_with_fuel(Setup::rewound, 2);
    if n > 0 {
        lemma_rewind_from_the_front(setup, state, (n - 1) as nat);
    }
}

/// Running forward and stepping back by as much returns to the same state,
/// however long the run.
pub proof fn run_is_undone<V: Scalar, W: Scalar, N: Numerics<V, W>>(
    setup: Setup<V, W, N>,
    state: State<V>,
    n: nat,
)
    requires
        exact::<V>(),
        setup.consistent(),
        setup.medium.takes_nothing(),
        state.shaped(setup.cells()),
    ensures
        setup.rewound(setup.run(state, n), n) == state,
    decreases n,
{
    if n > 0 {
        let before = setup.run(state, (n - 1) as nat);
        run_keeps_shape(setup, state, (n - 1) as nat);
        step_is_undone(setup, before);
        lemma_rewind_from_the_front(setup, setup.run(state, n), (n - 1) as nat);
        run_is_undone(setup, state, (n - 1) as nat);
    }
}

/// Replaying from the start and stepping back are two routes to the same state.
pub proof fn reversal_agrees_with_replay<V: Scalar, W: Scalar, N: Numerics<V, W>>(
    setup: Setup<V, W, N>,
    step: nat,
    back: nat,
)
    requires
        exact::<V>(),
        setup.consistent(),
        setup.medium.takes_nothing(),
    ensures
        setup.rewound(setup.state_at(step + back), back) == setup.state_at(step),
{
    let rest = setup.at_rest();
    assert(rest.shaped(setup.cells()));
    run_keeps_shape(setup, rest, step);
    crate::replay::runs_add_up(setup, rest, step, back);
    run_is_undone(setup, setup.state_at(step), back);
}

} // verus!
