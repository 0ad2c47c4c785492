//! The bookkeeping of a run on a device: the clock, the running intensity, and
//! which buffers have to be cleared when.

use crate::device::{
    injecting, lemma_performed_elsewhen, lemma_performed_joined, passes_perform_a_step, Pass,
};
use crate::grid::{Axis, Extent};
use crate::numerics::Numerics;
use crate::scalar::{arithmetic, Scalar};
use crate::setup::{Setup, State};
use crate::source::Injection;
use crate::staging::Resource;
use crate::stencil::{Direction, Half};
use vstd::prelude::*;
use vstd::slice::slice_subrange;

verus! {

/// A buffer to be filled with zeros, and how much of it.
#[derive(Clone, Copy, Debug, Eq, PartialEq, Structural)]
pub struct Fill {
    pub resource: Resource,
    pub bytes: u64,
}

/// A run on a device, as far as the host keeps track of it.
#[derive(Debug)]
pub struct Schedule<V, W, N> {
    /// What the run reads and never writes.
    pub setup: Setup<V, W, N>,
    /// Steps completed so far.
    pub step: u64,
    /// Decided once from the scene: a lossy scene cannot be run backwards.
    pub reversible: bool,
    /// Whether each step also accumulates `|E|²`.
    pub accumulating: bool,
    /// Steps summed into the intensity buffer so far; readers divide by it.
    pub accumulated: u64,
}

/// Bytes occupied by one field, all three components together.
pub open spec fn field_size(extent: Extent) -> int {
    3 * extent.cells() * 4
}

/// Samples of the position lookup: four per coarse cell, within limits.
pub open spec fn lookup_size(extent: Extent) -> int {
    let longest = extent.longest_side();
    if 4 * longest < 256 {
        256
    } else if 4 * longest > 8192 {
        8192
    } else {
        4 * longest
    }
}

/// Samples of the position lookup.
pub fn samples_of(extent: Extent) -> (r: u32)
    ensures
        r == lookup_size(extent),
{
    let longest: u32 = extent.longest();
    if longest < 64 {
        256
    } else if longest > 2048 {
        8192
    } else {
        4 * longest
    }
}

impl<V: Scalar, W: Scalar, N: Numerics<V, W>> Schedule<V, W, N> {
    /// The setup is in order, a step's traffic can be counted, and the scene is
    /// known for what it is.
    pub open spec fn valid(self) -> bool {
        &&& self.setup.valid()
        &&& 4 * field_size(self.setup.grid.extent) <= u64::MAX
        &&& self.reversible == self.setup.lossless()
    }

    pub fn new(setup: Setup<V, W, N>) -> (r: Self)
        requires
            setup.valid(),
            4 * field_size(setup.grid.extent) <= u64::MAX,
        ensures
            r.valid(),
            r == (Schedule {
                setup,
                step: 0,
                reversible: setup.lossless(),
                accumulating: false,
                accumulated: 0,
            }),
    {
        let reversible = setup.is_reversible();
        Schedule { setup, step: 0, reversible, accumulating: false, accumulated: 0 }
    }

    /// Bytes occupied by one field, all three components together.
    pub fn field_bytes(&self) -> (r: u64)
        requires
            self.valid(),
        ensures
            r == field_size(self.setup.grid.extent),
    {
        let cells: u64 = self.setup.grid.extent.total() as u64;
        3 * cells * 4
    }

    /// Bytes of field traffic one full step must move, at best: every
    /// component of both fields is read once and written once.
    ///
    /// Used to turn a step rate into an effective bandwidth.
    pub fn bytes_per_step(&self) -> (r: u64)
        requires
            self.valid(),
        ensures
            r == 4 * field_size(self.setup.grid.extent),
    {
        4 * self.field_bytes()
    }

    /// How many samples per axis the position lookup holds: four per cell,
    /// which puts a lookup interval well inside one cell everywhere.
    pub fn lookup_samples(&self) -> (r: u32)
        ensures
            r == lookup_size(self.setup.grid.extent),
    {
        samples_of(self.setup.grid.extent)
    }

    pub fn step_count(&self) -> (r: u64)
        ensures
            r == self.step,
    {
        self.step
    }

    /// Steps summed into the intensity buffer since it was last cleared.
    pub fn accumulated_steps(&self) -> (r: u64)
        ensures
            r == self.accumulated,
    {
        self.accumulated
    }

    /// Simulated time in seconds.
    pub fn time(&self) -> (r: V)
        requires
            self.setup.valid(),
        ensures
            r == self.setup.time_after(self.step as int),
    {
        self.time_of(self.step)
    }

    fn time_of(&self, step: u64) -> (r: V)
        requires
            self.setup.valid(),
        ensures
            r == self.setup.time_after(step as int),
    {
        let steps: V = self.setup.math.count(step);
        steps * self.setup.grid.time_step(&self.setup.math)
    }

    fn plan_injection(
        passes: &mut Vec<Pass<V>>,
        injection: Injection<V>,
        half: Half,
        direction: Direction,
    )
        requires
            arithmetic::<V>(),
        ensures
            final(passes)@ == old(passes)@ + injecting(injection, half, direction),
    {
        let ghost before = passes@;
        let zero = V::from(0u8);
        let wanted = match half {
            Half::Magnetic => injection.magnetic,
            Half::Electric => !injection.magnetic,
        };
        if injection.value != zero && wanted {
            passes.push(Pass::Inject { injection, direction });
        }
        assert(passes@ =~= before + injecting(injection, half, direction));
    }

    /// Adds the injections of every source into one of the fields.
    fn plan_injections(
        &self,
        passes: &mut Vec<Pass<V>>,
        half: Half,
        direction: Direction,
        time: V,
    )
        requires
            self.setup.valid(),
        ensures
            final(passes)@ == old(passes)@ + self.setup.injections_into(
                half,
                direction,
                time,
                self.setup.sources@.len() as int,
            ),
    {
        let ghost before = passes@;
        let mut k: usize = 0;
        assert(before + Seq::<Pass<V>>::empty() =~= before);
        while k < self.setup.sources.len()
            invariant
                self.setup.valid(),
                k <= self.setup.sources@.len(),
                passes@ == before + self.setup.injections_into(
                    half,
                    direction,
                    time,
                    k as int,
                ),
            decreases self.setup.sources@.len() - k,
        {
            let source = self.setup.sources[k];
            let injections = source.injections(&self.setup.math, &self.setup.grid, time);
            Self::plan_injection(passes, injections[0], half, direction);
            Self::plan_injection(passes, injections[1], half, direction);
            k = k + 1;
            assert(passes@ =~= before + self.setup.injections_into(
                half,
                direction,
                time,
                k as int,
            ));
        }
    }

    /// Adds the passes of one step.
    fn plan_forward(&self, passes: &mut Vec<Pass<V>>)
        requires
            self.valid(),
            self.step < u64::MAX,
        ensures
            final(passes)@ == old(passes)@ + self.setup.forward_passes(
                self.step as int,
                self.accumulating,
            ),
    {
        let forward = Direction::Forward;
        let ghost before = passes@;
        let time = self.time_of(self.step + 1);
        passes.push(Pass::Start { direction: forward });
        passes.push(Pass::Update { half: Half::Magnetic, direction: forward });
        // Magnetic injections land between the half-updates.
        self.plan_injections(passes, Half::Magnetic, forward, time);
        passes.push(Pass::Update { half: Half::Electric, direction: forward });
        self.plan_injections(passes, Half::Electric, forward, time);
        if self.accumulating {
            // `E` is complete for this step; add its square in.
            passes.push(Pass::Accumulate);
        }
        assert(passes@ =~= before + self.setup.forward_passes(
            self.step as int,
            self.accumulating,
        ));
    }

    /// Adds the passes that undo one step.
    fn plan_backward(&self, passes: &mut Vec<Pass<V>>)
        requires
            self.valid(),
        ensures
            final(passes)@ == old(passes)@ + self.setup.backward_passes(self.step as int),
    {
        let back = Direction::Backward;
        let ghost before = passes@;
        let time = self.time_of(self.step);
        passes.push(Pass::Start { direction: back });
        self.plan_injections(passes, Half::Electric, back, time);
        passes.push(Pass::Update { half: Half::Electric, direction: back });
        self.plan_injections(passes, Half::Magnetic, back, time);
        passes.push(Pass::Update { half: Half::Magnetic, direction: back });
        assert(passes@ =~= before + self.setup.backward_passes(self.step as int));
    }

    /// Plans `steps` complete time steps as one batch, and moves the clock.
    pub fn advance_by(&mut self, steps: u64) -> (r: Vec<Pass<V>>)
        requires
            old(self).valid(),
            old(self).step + steps <= u64::MAX,
            old(self).accumulated + steps <= u64::MAX,
        ensures
            r@ == old(self).setup.forward_batch(
                old(self).step as int,
                old(self).accumulating,
                steps as nat,
            ),
            *final(self) == (Schedule {
                step: (old(self).step + steps) as u64,
                accumulated: if old(self).accumulating {
                    (old(self).accumulated + steps) as u64
                } else {
                    old(self).accumulated
                },
                ..*old(self)
            }),
    {
        let ghost before = *self;
        let mut passes: Vec<Pass<V>> = Vec::new();
        let mut done: u64 = 0;
        while done < steps
            invariant
                self.valid(),
                done <= steps,
                before.step + steps <= u64::MAX,
                before.accumulated + steps <= u64::MAX,
                *self == (Schedule {
                    step: (before.step + done) as u64,
                    accumulated: if before.accumulating {
                        (before.accumulated + done) as u64
                    } else {
                        before.accumulated
                    },
                    ..before
                }),
                passes@ == before.setup.forward_batch(
                    before.step as int,
                    before.accumulating,
                    done as nat,
                ),
            decreases steps - done,
        {
            self.plan_forward(&mut passes);
            if self.accumulating {
                self.accumulated = self.accumulated + 1;
            }
            self.step = self.step + 1;
            done = done + 1;
        }
        passes
    }

    /// Plans undoing `steps` complete time steps, and moves the clock back.
    ///
    /// The same involution the reference solver performs. A sum over steps that
    /// are about to be un-stepped is not an average of anything, so reversal
    /// restarts the accumulation: the fill, if any, comes before the passes.
    pub fn reverse_by(&mut self, steps: u64) -> (r: (Option<Fill>, Vec<Pass<V>>))
        requires
            old(self).valid(),
            steps > 0 ==> old(self).reversible,
            steps <= old(self).step,
        ensures
            r.1@ == old(self).setup.backward_batch(old(self).step as int, steps as nat),
            r.0 == if steps == 0 {
                None::<Fill>
            } else {
                old(self).stale_intensity()
            },
            *final(self) == (Schedule {
                step: (old(self).step - steps) as u64,
                accumulated: if steps == 0 {
                    old(self).accumulated
                } else {
                    0
                },
                ..*old(self)
            }),
    {
        let mut passes: Vec<Pass<V>> = Vec::new();
        if steps == 0 {
            return (None, passes);
        }
        let fill = self.clear_intensity();
        let ghost before = *self;
        let mut done: u64 = 0;
        while done < steps
            invariant
                self.valid(),
                done <= steps,
                steps <= before.step,
                *self == (Schedule { step: (before.step - done) as u64, ..before }),
                passes@ == before.setup.backward_batch(before.step as int, done as nat),
            decreases steps - done,
        {
            self.plan_backward(&mut passes);
            self.step = self.step - 1;
            done = done + 1;
        }
        (fill, passes)
    }

    /// The fill a non-empty intensity buffer needs to start over.
    pub open spec fn stale_intensity(self) -> Option<Fill> {
        if self.accumulated == 0 {
            None
        } else {
            Some(
                Fill {
                    resource: Resource::Intensity,
                    bytes: (field_size(self.setup.grid.extent) / 3) as u64,
                },
            )
        }
    }

    /// Forgets the accumulated intensity, and says what has to be cleared.
    pub fn clear_intensity(&mut self) -> (r: Option<Fill>)
        requires
            old(self).valid(),
        ensures
            r == old(self).stale_intensity(),
            *final(self) == (Schedule { accumulated: 0, ..*old(self) }),
    {
        if self.accumulated == 0 {
            return None;
        }
        let bytes: u64 = self.field_bytes() / 3;
        self.accumulated = 0;
        Some(Fill { resource: Resource::Intensity, bytes })
    }

    /// Turns per-step intensity accumulation on or off.
    ///
    /// Turning it on starts a fresh average. Off costs nothing: the pass simply
    /// never happens. Readers normalize by [`Self::accumulated_steps`].
    pub fn set_accumulate_intensity(&mut self, on: bool) -> (r: Option<Fill>)
        requires
            old(self).valid(),
        ensures
            r == if on && !old(self).accumulating {
                old(self).stale_intensity()
            } else {
                None::<Fill>
            },
            *final(self) == (Schedule {
                accumulating: on,
                accumulated: if on && !old(self).accumulating {
                    0
                } else {
                    old(self).accumulated
                },
                ..*old(self)
            }),
    {
        let fill = if on && !self.accumulating {
            self.clear_intensity()
        } else {
            None
        };
        self.accumulating = on;
        fill
    }

    /// Rewinds the clock, and says what has to be cleared: both fields and the
    /// running intensity. Geometry is left alone.
    pub fn reset(&mut self) -> (r: [Fill; 3])
        requires
            old(self).valid(),
        ensures
            *final(self) == (Schedule { step: 0, accumulated: 0, ..*old(self) }),
            r@ == old(self).all_fields(),
    {
        let bytes: u64 = self.field_bytes();
        self.step = 0;
        self.accumulated = 0;
        [
            Fill { resource: Resource::Electric, bytes },
            Fill { resource: Resource::Magnetic, bytes },
            Fill { resource: Resource::Intensity, bytes: bytes / 3 },
        ]
    }

    /// Everything a run starts with zeros in.
    pub open spec fn all_fields(self) -> Seq<Fill> {
        let bytes = field_size(self.setup.grid.extent);
        seq![
            Fill { resource: Resource::Electric, bytes: bytes as u64 },
            Fill { resource: Resource::Magnetic, bytes: bytes as u64 },
            Fill { resource: Resource::Intensity, bytes: (bytes / 3) as u64 },
        ]
    }

    /// Moves the clock to a restored state. The average belongs to the history
    /// that was just abandoned, so it is forgotten.
    pub fn restore_to(&mut self, step: u64) -> (r: Option<Fill>)
        requires
            old(self).valid(),
        ensures
            r == old(self).stale_intensity(),
            *final(self) == (Schedule { step, accumulated: 0, ..*old(self) }),
    {
        let fill = self.clear_intensity();
        self.step = step;
        fill
    }

    /// One component out of a field read back from the device.
    pub fn component<'a>(&self, values: &'a [V], axis: Axis) -> (r: &'a [V])
        requires
            self.setup.valid(),
            values@.len() == 3 * self.setup.cells(),
        ensures
            r@ == values@.subrange(
                axis.position() * self.setup.cells(),
                (axis.position() + 1) * self.setup.cells(),
            ),
    {
        let cells: usize = self.setup.grid.extent.total();
        let len: usize = values.len();
        assert(len == 3 * cells);
        proof {
            let (a, c) = (axis.position(), self.setup.cells());
            assert(a == 0 ==> a * c == 0 && (a + 1) * c == c) by (nonlinear_arith);
            assert(a == 1 ==> a * c == c && (a + 1) * c == 2 * c) by (nonlinear_arith);
            assert(a == 2 ==> a * c == 2 * c && (a + 1) * c == 3 * c) by (nonlinear_arith);
        }
        match axis {
            Axis::X => slice_subrange(values, 0, cells),
            Axis::Y => slice_subrange(values, cells, 2 * cells),
            Axis::Z => slice_subrange(values, 2 * cells, 3 * cells),
        }
    }

    /// Whether values are a full field of this run's grid, as a restore needs.
    pub fn is_full_field(&self, values: &[V]) -> (r: bool)
        requires
            self.valid(),
        ensures
            r == (values@.len() == 3 * self.setup.cells()),
    {
        let cells: u64 = self.setup.grid.extent.total() as u64;
        values.len() as u64 == 3 * cells
    }
}

/// However a batch is cut, the device is asked to do the same things.
pub proof fn batches_add_up<V: Scalar, W: Scalar, N: Numerics<V, W>>(
    setup: Setup<V, W, N>,
    step: int,
    accumulating: bool,
    a: nat,
    b: nat,
)
    ensures
        setup.forward_batch(step, accumulating, a + b) == setup.forward_batch(
            step,
            accumulating,
            a,
        ) + setup.forward_batch(step + a, accumulating, b),
    decreases b,
{
    if b > 0 {
        batches_add_up(setup, step, accumulating, a, (b - 1) as nat);
        assert((a + b - 1) as nat == a + (b - 1) as nat);
        assert(setup.forward_batch(step, accumulating, a + b) =~= setup.forward_batch(
            step,
            accumulating,
            a,
        ) + setup.forward_batch(step + a, accumulating, b));
    } else {
        assert(setup.forward_batch(step, accumulating, a) + seq![] =~= setup.forward_batch(
            step,
            accumulating,
            a,
        ));
    }
}

/// A batch of passes takes the fields where the reference solver takes them.
pub proof fn batch_performs_a_run<V: Scalar, W: Scalar, N: Numerics<V, W>>(
    setup: Setup<V, W, N>,
    state: State<V>,
    accumulating: bool,
    n: nat,
)
    ensures
        setup.performed_all(state, setup.forward_batch(state.step, accumulating, n)) == (State {
            step: state.step,
            ..setup.run(state, n)
        }),
        setup.run(state, n).step == state.step + n,
    decreases n,
{
    if n > 0 {
        batch_performs_a_run(setup, state, accumulating, (n - 1) as nat);
        let before = setup.forward_batch(state.step, accumulating, (n - 1) as nat);
        let here = setup.run(state, (n - 1) as nat);
        let last = setup.forward_passes(here.step, accumulating);
        lemma_performed_joined(setup, state, before, last);
        lemma_performed_elsewhen(setup, here, state.step, last);
        passes_perform_a_step(setup, here, accumulating);
    }
}

} // verus!
