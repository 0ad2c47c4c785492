//! The reference solver as something a timeline can scrub.

use crate::boundary::extend;
use crate::cpu::Simulation;
use crate::numerics::Numerics;
use crate::scalar::Scalar;
use crate::setup::{Setup, State};
use crate::stencil::{Direction, Half};
use crate::timeline::{evolve, rest, Deterministic, Dynamics, Frame, Snapshot, Steppable};
use vstd::prelude::*;

verus! {

/// Three components laid out one after another.
pub open spec fn joined<V>(field: Seq<Seq<V>>) -> Seq<V> {
    field[0] + field[1] + field[2]
}

/// Three components of `cells` values each, taken apart again.
pub open spec fn split<V>(values: Seq<V>, cells: int) -> Seq<Seq<V>> {
    seq![
        values.subrange(0, cells),
        values.subrange(cells, 2 * cells),
        values.subrange(2 * cells, 3 * cells),
    ]
}

/// A state as a snapshot holds it.
pub open spec fn framed<V>(state: State<V>) -> Frame<V> {
    Frame { step: state.step, electric: joined(state.electric), magnetic: joined(state.magnetic) }
}

/// The state a snapshot holds.
pub open spec fn unframed<V>(frame: Frame<V>, cells: int) -> State<V> {
    State {
        electric: split(frame.electric, cells),
        magnetic: split(frame.magnetic, cells),
        step: frame.step,
    }
}

/// Whether a snapshot has both fields of a grid in full.
pub open spec fn sized<V>(frame: Frame<V>, cells: int) -> bool {
    &&& cells >= 0
    &&& frame.electric.len() == 3 * cells
    &&& frame.magnetic.len() == 3 * cells
}

/// A snapshot gives back the state it was taken of, and a state the snapshot.
pub proof fn framing_round_trips<V>(state: State<V>, frame: Frame<V>, cells: int)
    ensures
        cells >= 0 && state.shaped(cells) ==> {
            &&& unframed(framed(state), cells) == state
            &&& sized(framed(state), cells)
        },
        sized(frame, cells) ==> {
            &&& framed(unframed(frame, cells)) == frame
            &&& unframed(frame, cells).shaped(cells)
        },
{
    if cells >= 0 && state.shaped(cells) {
        lemma_split_joined(state.electric, cells);
        lemma_split_joined(state.magnetic, cells);
        assert(unframed(framed(state), cells) =~= state);
    }
    if sized(frame, cells) {
        assert(joined(split(frame.electric, cells)) =~= frame.electric);
        assert(joined(split(frame.magnetic, cells)) =~= frame.magnetic);
        assert(framed(unframed(frame, cells)) =~= frame);
        let state = unframed(frame, cells);
        assert forall|t: int| 0 <= t < 3 implies (#[trigger] state.electric[t]).len() == cells by {
            if t == 0 {
            } else if t == 1 {
            } else {
            }
        }
        assert forall|t: int| 0 <= t < 3 implies (#[trigger] state.magnetic[t]).len() == cells by {
            if t == 0 {
            } else if t == 1 {
            } else {
            }
        }
    }
}

/// A keyframe costs six values for every cell: 24 bytes where a value takes four.
pub proof fn keyframes_cost_six_values_a_cell<V>(snapshot: Snapshot<V>, cells: int)
    requires
        sized(snapshot@, cells),
    ensures
        snapshot.size() == 6 * cells * vstd::layout::size_of::<V>(),
{
}

proof fn lemma_split_joined<V>(field: Seq<Seq<V>>, cells: int)
    requires
        cells >= 0,
        field.len() == 3,
        forall|t: int| 0 <= t < 3 ==> (#[trigger] field[t]).len() == cells,
    ensures
        split(joined(field), cells) == field,
        joined(field).len() == 3 * cells,
{
    assert(field[0].len() == cells);
    assert(field[1].len() == cells);
    assert(field[2].len() == cells);
    assert(joined(field).subrange(0, cells) =~= field[0]);
    assert(joined(field).subrange(cells, 2 * cells) =~= field[1]);
    assert(joined(field).subrange(2 * cells, 3 * cells) =~= field[2]);
    assert(split(joined(field), cells) =~= field);
}

impl<V: Scalar, W: Scalar, N: Numerics<V, W>> Setup<V, W, N> {
    /// The medium is that of the grid, and every source drives a component
    /// there is.
    pub open spec fn consistent(self) -> bool {
        &&& self.medium.extent == self.grid.extent
        &&& self.cells() >= 0
        &&& forall|k: int|
            0 <= k < self.sources@.len() ==> (#[trigger] self.sources@[k]).coherent()
    }
}

/// A setup in working order is a consistent one.
pub(crate) proof fn lemma_cells<V: Scalar, W: Scalar, N: Numerics<V, W>>(setup: Setup<V, W, N>)
    requires
        setup.valid(),
    ensures
        setup.consistent(),
{
    assert(setup.cells() >= 0) by (nonlinear_arith)
        requires
            setup.cells() == setup.grid.extent.x as int * setup.grid.extent.y as int
                * setup.grid.extent.z as int,
    ;
}

/// A run keeps the shape of the fields and counts its steps.
pub proof fn run_keeps_shape<V: Scalar, W: Scalar, N: Numerics<V, W>>(
    setup: Setup<V, W, N>,
    state: State<V>,
    n: nat,
)
    requires
        state.shaped(setup.cells()),
        setup.consistent(),
    ensures
        setup.run(state, n).shaped(setup.cells()),
        setup.run(state, n).step == state.step + n,
    decreases n,
{
    if n > 0 {
        run_keeps_shape(setup, state, (n - 1) as nat);
        let before = setup.run(state, (n - 1) as nat);
        let time = setup.time_after(before.step + 1);
        let all = setup.sources@.len() as int;
        let magnetic = setup.swept(
            Half::Magnetic,
            Direction::Forward,
            before.magnetic,
            before.electric,
        );
        lemma_injected_shape(
            setup,
            magnetic,
            Half::Magnetic,
            Direction::Forward,
            time,
            all,
        );
        let after = setup.advanced(before);
        let electric = setup.swept(
            Half::Electric,
            Direction::Forward,
            before.electric,
            after.magnetic,
        );
        lemma_injected_shape(
            setup,
            electric,
            Half::Electric,
            Direction::Forward,
            time,
            all,
        );
    }
}

/// Adding sources keeps the shape of a field.
pub(crate) proof fn lemma_injected_shape<V: Scalar, W: Scalar, N: Numerics<V, W>>(
    setup: Setup<V, W, N>,
    field: Seq<Seq<V>>,
    half: Half,
    direction: Direction,
    time: V,
    n: int,
)
    requires
        setup.consistent(),
        n <= setup.sources@.len(),
        field.len() == 3,
        forall|t: int| 0 <= t < 3 ==> (#[trigger] field[t]).len() == setup.cells(),
    ensures
        setup.injected(field, half, direction, time, n).len() == 3,
        forall|t: int|
            0 <= t < 3 ==> (#[trigger] setup.injected(field, half, direction, time, n)[t]).len()
                == setup.cells(),
    decreases n,
{
    if n > 0 {
        lemma_injected_shape(setup, field, half, direction, time, n - 1);
        assert(setup.sources@[n - 1].coherent());
    }
}

/// Running `a` steps and `b` more is running `a + b`.
pub proof fn runs_add_up<V: Scalar, W: Scalar, N: Numerics<V, W>>(
    setup: Setup<V, W, N>,
    state: State<V>,
    a: nat,
    b: nat,
)
    ensures
        setup.run(setup.run(state, a), b) == setup.run(state, a + b),
    decreases b,
{
    if b > 0 {
        runs_add_up(setup, state, a, (b - 1) as nat);
        assert((a + b - 1) as nat == a + (b - 1) as nat);
    }
}

impl<V: Scalar, W: Scalar, N: Numerics<V, W>> Deterministic<V> for Simulation<V, W, N> {
    open spec fn ready(&self) -> bool {
        self.valid()
    }

    open spec fn frame(&self) -> Frame<V> {
        framed(self.state())
    }

    open spec fn dynamics(&self) -> Dynamics<V> {
        let setup = self.setup;
        let rest = setup.at_rest();
        Dynamics {
            start: (joined(rest.electric), joined(rest.magnetic)),
            stepped: |from: Frame<V>|
                {
                    let after = setup.advanced(unframed(from, setup.cells()));
                    (joined(after.electric), joined(after.magnetic))
                },
            fits: |frame: Frame<V>| sized(frame, setup.cells()),
        }
    }
}

/// What a timeline sees of a run is the run.
pub proof fn evolution_is_the_run<V: Scalar, W: Scalar, N: Numerics<V, W>>(
    simulation: Simulation<V, W, N>,
    state: State<V>,
    steps: nat,
)
    requires
        simulation.setup.consistent(),
        state.shaped(simulation.setup.cells()),
    ensures
        evolve(simulation, framed(state), steps) == framed(simulation.setup.run(state, steps)),
    decreases steps,
{
    if steps > 0 {
        evolution_is_the_run(simulation, state, (steps - 1) as nat);
        let before = simulation.setup.run(state, (steps - 1) as nat);
        run_keeps_shape(simulation.setup, state, (steps - 1) as nat);
        framing_round_trips(before, framed(before), simulation.setup.cells());
    }
}

/// The fields a timeline finds after seeking are those of the run at that step.
pub proof fn seeking_finds_the_state_of_the_run<V: Scalar, W: Scalar, N: Numerics<V, W>>(
    simulation: Simulation<V, W, N>,
    step: nat,
)
    requires
        simulation.setup.consistent(),
    ensures
        evolve(simulation, rest(simulation), step) == framed(simulation.setup.state_at(step)),
{
    let rest = simulation.setup.at_rest();
    assert(rest.shaped(simulation.setup.cells()));
    evolution_is_the_run(simulation, rest, step);
}

fn join<V: Copy>(field: &[Vec<V>; 3]) -> (r: Vec<V>)
    ensures
        r@ == joined(seq![field@[0]@, field@[1]@, field@[2]@]),
{
    let mut out: Vec<V> = Vec::new();
    extend(&mut out, &field[0]);
    extend(&mut out, &field[1]);
    extend(&mut out, &field[2]);
    assert(Seq::<V>::empty() + field@[0]@ =~= field@[0]@);
    out
}

fn part<V: Copy>(values: &Vec<V>, start: usize, count: usize) -> (r: Vec<V>)
    requires
        start + count <= values@.len(),
    ensures
        r@ == values@.subrange(start as int, start + count),
{
    let mut out: Vec<V> = Vec::new();
    let len: usize = values.len();
    let mut i: usize = 0;
    while i < count
        invariant
            i <= count,
            len == values@.len(),
            start + count <= len,
            out@ == values@.subrange(start as int, start + i),
        decreases count - i,
    {
        out.push(values[start + i]);
        i = i + 1;
        assert(out@ =~= values@.subrange(start as int, start + i));
    }
    out
}

impl<V: Scalar, W: Scalar, N: Numerics<V, W>> Steppable<V> for Simulation<V, W, N> {
    fn step_count(&self) -> (r: u64) {
        self.step
    }

    fn advance_by(&mut self, steps: u64) {
        proof {
            lemma_cells(self.setup);
            evolution_is_the_run(*self, self.state(), steps as nat);
        }
        Simulation::advance_by(self, steps);
    }

    fn reset(&mut self) {
        Simulation::reset(self);
    }

    fn snapshot(&mut self) -> (r: Snapshot<V>) {
        proof {
            lemma_cells(self.setup);
            framing_round_trips(self.state(), self.frame(), self.setup.cells());
        }
        Snapshot {
            step: self.step,
            electric: join(&self.electric_field),
            magnetic: join(&self.magnetic_field),
        }
    }

    fn restore(&mut self, snapshot: &Snapshot<V>) {
        let cells: usize = self.setup.grid.extent.total();
        let len: usize = snapshot.electric.len();
        assert(len == 3 * cells);
        self.electric_field = [
            part(&snapshot.electric, 0, cells),
            part(&snapshot.electric, cells, cells),
            part(&snapshot.electric, 2 * cells, cells),
        ];
        self.magnetic_field = [
            part(&snapshot.magnetic, 0, cells),
            part(&snapshot.magnetic, cells, cells),
            part(&snapshot.magnetic, 2 * cells, cells),
        ];
        self.step = snapshot.step;
        proof {
            framing_round_trips(self.state(), snapshot@, cells as int);
            assert(self.state() =~= unframed(snapshot@, cells as int));
        }
    }
}

} // verus!
