//! What a device is asked to do, pass by pass.
//!
//! # Shape of a step
//!
//! ```text
//! dispatch update_magnetic  →  barrier
//! dispatch inject, for what drives H
//! dispatch update_electric  →  barrier
//! dispatch inject, for what drives E
//! ```
//!
//! No ping-pong: the `H` update reads only `E` and the `E` update reads only `H`,
//! so both write in place. A batch of steps is planned here as one list of passes,
//! and encoded into a single command buffer by whoever owns the device.
//!
//! # Storage layout
//!
//! Components are laid out one after another, so component `a` occupies
//! `[a·cell_count, (a+1)·cell_count)`.

use crate::grid::Extent;
use crate::numerics::Numerics;
use crate::scalar::{arithmetic, number, same, times, Scalar};
use crate::setup::{sign_of, Setup, State};
use crate::source::Injection;
use crate::stencil::{Direction, Half};
use vstd::prelude::*;

verus! {

/// Uniform block shared by all kernels, as four-component vectors.
#[derive(Clone, Copy, Debug, PartialEq)]
pub struct Params<V> {
    /// `nx, ny, nz, cell_count`.
    pub extent: [u32; 4],
    /// Source origin `xyz`, then the driven component.
    pub source_region: [u32; 4],
    /// Source extent `xyz`, then whether it drives `H`.
    pub source_extent: [u32; 4],
    /// Apodization centre `xyz`, then `1/waist²`.
    pub source_shape: [V; 4],
    /// `amplitude · waveform(t)`, then the direction of time: `+1` steps
    /// forward, `−1` undoes a step.
    pub source_drive: [V; 4],
}

/// One thing the device is asked to do.
#[derive(Clone, Copy, Debug, PartialEq)]
pub enum Pass<V> {
    /// A step starts: nothing is dispatched, the uniforms are set.
    Start { direction: Direction },
    /// A half-update over the whole grid.
    Update { half: Half, direction: Direction },
    /// An injection over its own region.
    Inject { injection: Injection<V>, direction: Direction },
    /// `|E|²` is added to the running sum, over the whole grid.
    Accumulate,
}

impl<V: Scalar> Pass<V> {
    /// Whether whatever reads a field next has to wait for this pass.
    pub fn needs_barrier(&self) -> (r: bool)
        ensures
            r == (self is Update || self is Inject),
    {
        match self {
            Pass::Update { .. } => true,
            Pass::Inject { .. } => true,
            _ => false,
        }
    }

    /// Cells the pass is dispatched over, or nothing where it dispatches
    /// nothing.
    pub fn region(&self, extent: Extent) -> (r: Option<[u32; 3]>)
        requires
            self matches Pass::Inject { injection, .. } ==> injection.inside(extent),
        ensures
            match *self {
                Pass::Start { .. } => r is None,
                Pass::Inject { injection, .. } => r matches Some(size) && size@ == seq![
                    injection.extent@[0] as u32,
                    injection.extent@[1] as u32,
                    injection.extent@[2] as u32,
                ],
                _ => r matches Some(size) && size@ == seq![extent.x, extent.y, extent.z],
            },
    {
        match self {
            Pass::Start { .. } => None,
            Pass::Inject { injection, .. } => Some(
                [
                    injection.extent[0] as u32,
                    injection.extent[1] as u32,
                    injection.extent[2] as u32,
                ],
            ),
            _ => Some([extent.x, extent.y, extent.z]),
        }
    }
}

impl<V: Scalar> Params<V> {
    /// The uniforms of an injection.
    pub open spec fn of_injection(
        self,
        injection: Injection<V>,
        direction: Direction,
    ) -> Params<V> {
        let zero = number::<V>(0);
        Params {
            extent: self.extent,
            source_region: [
                injection.origin@[0] as u32,
                injection.origin@[1] as u32,
                injection.origin@[2] as u32,
                injection.component as u32,
            ],
            source_extent: [
                injection.extent@[0] as u32,
                injection.extent@[1] as u32,
                injection.extent@[2] as u32,
                if injection.magnetic {
                    1
                } else {
                    0
                },
            ],
            source_shape: [
                injection.center@[0],
                injection.center@[1],
                injection.center@[2],
                injection.inverse_waist_squared,
            ],
            source_drive: [
                times(sign_of::<V>(direction), injection.value),
                sign_of::<V>(direction),
                zero,
                zero,
            ],
        }
    }

    /// The uniforms once a pass has been prepared.
    pub open spec fn prepared(self, pass: Pass<V>) -> Params<V> {
        let zero = number::<V>(0);
        match pass {
            Pass::Start { direction } => Params {
                source_drive: [zero, sign_of::<V>(direction), zero, zero],
                ..self
            },
            Pass::Inject { injection, direction } => self.of_injection(injection, direction),
            _ => self,
        }
    }

    /// Whether these are the uniforms a run starts with: the extent, and nothing
    /// else.
    pub open spec fn starts(self, extent: Extent) -> bool {
        &&& self.extent@ == extent.words()
        &&& self.source_region@ == seq![0u32, 0u32, 0u32, 0u32]
        &&& self.source_extent@ == seq![0u32, 0u32, 0u32, 0u32]
        &&& self.source_shape@ == seq![number::<V>(0), number(0), number(0), number(0)]
        &&& self.source_drive@ == seq![number::<V>(0), number(0), number(0), number(0)]
    }

    /// The uniforms a run starts with.
    pub fn new(extent: Extent) -> (r: Self)
        requires
            arithmetic::<V>(),
            extent.countable(),
        ensures
            r.starts(extent),
    {
        let zero = V::from(0u8);
        Params {
            extent: extent.as_words(),
            source_region: [0, 0, 0, 0],
            source_extent: [0, 0, 0, 0],
            source_shape: [zero, zero, zero, zero],
            source_drive: [zero, zero, zero, zero],
        }
    }

    /// Sets the uniforms a pass is dispatched with.
    ///
    /// The forward and reverse paths share it: the drive flips with the
    /// direction so retraction is exact, and the direction is left in the second
    /// slot for the update kernels to read.
    pub fn prepare(&mut self, pass: &Pass<V>)
        requires
            arithmetic::<V>(),
        ensures
            *final(self) == old(self).prepared(*pass),
    {
        let zero = V::from(0u8);
        match pass {
            Pass::Start { direction } => {
                self.source_drive = [zero, sign(*direction), zero, zero];
                assert(self.source_drive =~= [
                    number::<V>(0),
                    sign_of::<V>(*direction),
                    number::<V>(0),
                    number::<V>(0),
                ]);
            },
            Pass::Inject { injection, direction } => {
                let ghost goal = old(self).of_injection(*injection, *direction);
                let magnetic: u32 = if injection.magnetic {
                    1
                } else {
                    0
                };
                self.source_region = [
                    injection.origin[0] as u32,
                    injection.origin[1] as u32,
                    injection.origin[2] as u32,
                    injection.component as u32,
                ];
                self.source_extent = [
                    injection.extent[0] as u32,
                    injection.extent[1] as u32,
                    injection.extent[2] as u32,
                    magnetic,
                ];
                self.source_shape = [
                    injection.center[0],
                    injection.center[1],
                    injection.center[2],
                    injection.inverse_waist_squared,
                ];
                let way = sign::<V>(*direction);
                self.source_drive = [way * injection.value, way, zero, zero];
                assert(self.source_region =~= goal.source_region);
                assert(self.source_extent =~= goal.source_extent);
                assert(self.source_shape =~= goal.source_shape);
                assert(self.source_drive =~= goal.source_drive);
            },
            _ => {},
        }
    }
}

fn sign<V: Scalar>(direction: Direction) -> (r: V)
    requires
        arithmetic::<V>(),
    ensures
        r == sign_of::<V>(direction),
{
    match direction {
        Direction::Forward => V::from(1u8),
        Direction::Backward => V::from(0u8) - V::from(1u8),
    }
}

/// A pass for an injection, if it acts on one of the two fields.
pub open spec fn injecting<V: Scalar>(
    injection: Injection<V>,
    half: Half,
    direction: Direction,
) -> Seq<Pass<V>> {
    if !same(injection.value, number::<V>(0)) && injection.magnetic == (half == Half::Magnetic) {
        seq![Pass::Inject { injection, direction }]
    } else {
        seq![]
    }
}

impl<V: Scalar, W: Scalar, N: Numerics<V, W>> Setup<V, W, N> {
    /// The injections of the first `n` sources into one of the fields.
    pub open spec fn injections_into(
        self,
        half: Half,
        direction: Direction,
        time: V,
        n: int,
    ) -> Seq<Pass<V>>
        decreases n,
    {
        if n <= 0 {
            seq![]
        } else {
            let source = self.sources@[n - 1];
            self.injections_into(half, direction, time, n - 1) + injecting(
                source.electric_injection(&self.math, self.grid, time),
                half,
                direction,
            ) + injecting(
                source.magnetic_injection(&self.math, self.grid, time),
                half,
                direction,
            )
        }
    }

    /// The passes of one step forward, from `step` on.
    pub open spec fn forward_passes(self, step: int, accumulating: bool) -> Seq<Pass<V>> {
        let time = self.time_after(step + 1);
        let all = self.sources@.len() as int;
        let forward = Direction::Forward;
        seq![
            Pass::Start { direction: forward },
            Pass::Update { half: Half::Magnetic, direction: forward },
        ] + self.injections_into(Half::Magnetic, forward, time, all) + seq![
            Pass::Update { half: Half::Electric, direction: forward },
        ] + self.injections_into(Half::Electric, forward, time, all) + (if accumulating {
            seq![Pass::Accumulate]
        } else {
            seq![]
        })
    }

    /// The passes of one step back, from `step` on: each part of a step undone
    /// in the opposite order.
    pub open spec fn backward_passes(self, step: int) -> Seq<Pass<V>> {
        let time = self.time_after(step);
        let all = self.sources@.len() as int;
        let back = Direction::Backward;
        seq![Pass::Start { direction: back }] + self.injections_into(
            Half::Electric,
            back,
            time,
            all,
        ) + seq![Pass::Update { half: Half::Electric, direction: back }] + self.injections_into(
            Half::Magnetic,
            back,
            time,
            all,
        ) + seq![Pass::Update { half: Half::Magnetic, direction: back }]
    }

    /// The passes of `n` steps forward.
    pub open spec fn forward_batch(self, step: int, accumulating: bool, n: nat) -> Seq<Pass<V>>
        decreases n,
    {
        if n == 0 {
            seq![]
        } else {
            self.forward_batch(step, accumulating, (n - 1) as nat) + self.forward_passes(
                step + n - 1,
                accumulating,
            )
        }
    }

    /// The passes of `n` steps back.
    pub open spec fn backward_batch(self, step: int, n: nat) -> Seq<Pass<V>>
        decreases n,
    {
        if n == 0 {
            seq![]
        } else {
            self.backward_batch(step, (n - 1) as nat) + self.backward_passes(step - n + 1)
        }
    }

    /// What a pass does to the fields.
    pub open spec fn performed(self, state: State<V>, pass: Pass<V>) -> State<V> {
        match pass {
            Pass::Update { half: Half::Magnetic, direction } => State {
                magnetic: self.swept(
                    Half::Magnetic,
                    direction,
                    state.magnetic,
                    state.electric,
                ),
                ..state
            },
            Pass::Update { half: Half::Electric, direction } => State {
                electric: self.swept(
                    Half::Electric,
                    direction,
                    state.electric,
                    state.magnetic,
                ),
                ..state
            },
            Pass::Inject { injection, direction } => if injection.magnetic {
                State {
                    magnetic: self.driven(state.magnetic, injection, Half::Magnetic, direction),
                    ..state
                }
            } else {
                State {
                    electric: self.driven(state.electric, injection, Half::Electric, direction),
                    ..state
                }
            },
            _ => state,
        }
    }

    /// What a list of passes does to the fields, in order.
    pub open spec fn performed_all(self, state: State<V>, passes: Seq<Pass<V>>) -> State<V>
        decreases passes.len(),
    {
        if passes.len() == 0 {
            state
        } else {
            self.performed(self.performed_all(state, passes.drop_last()), passes.last())
        }
    }
}

pub(crate) proof fn lemma_performed_joined<V: Scalar, W: Scalar, N: Numerics<V, W>>(
    setup: Setup<V, W, N>,
    state: State<V>,
    a: Seq<Pass<V>>,
    b: Seq<Pass<V>>,
)
    ensures
        setup.performed_all(state, a + b) == setup.performed_all(
            setup.performed_all(state, a),
            b,
        ),
    decreases b.len(),
{
    if b.len() == 0 {
        assert(a + b =~= a);
    } else {
        assert((a + b).drop_last() =~= a + b.drop_last());
        lemma_performed_joined(setup, state, a, b.drop_last());
    }
}

/// Passes do not look at the clock.
pub(crate) proof fn lemma_performed_elsewhen<V: Scalar, W: Scalar, N: Numerics<V, W>>(
    setup: Setup<V, W, N>,
    state: State<V>,
    step: int,
    passes: Seq<Pass<V>>,
)
    ensures
        setup.performed_all(State { step, ..state }, passes) == (State {
            step,
            ..setup.performed_all(state, passes)
        }),
    decreases passes.len(),
{
    if passes.len() > 0 {
        lemma_performed_elsewhen(setup, state, step, passes.drop_last());
    }
}

proof fn lemma_performed_one<V: Scalar, W: Scalar, N: Numerics<V, W>>(
    setup: Setup<V, W, N>,
    state: State<V>,
    pass: Pass<V>,
)
    ensures
        setup.performed_all(state, seq![pass]) == setup.performed(state, pass),
{
    assert(seq![pass].drop_last() =~= Seq::<Pass<V>>::empty());
    reveal_with_fuel(Setup::performed_all, 2);
}

proof fn lemma_injecting<V: Scalar, W: Scalar, N: Numerics<V, W>>(
    setup: Setup<V, W, N>,
    state: State<V>,
    injection: Injection<V>,
    half: Half,
    direction: Direction,
)
    ensures
        setup.performed_all(state, injecting(injection, half, direction)) == match half {
            Half::Magnetic => State {
                magnetic: setup.driven(state.magnetic, injection, half, direction),
                ..state
            },
            Half::Electric => State {
                electric: setup.driven(state.electric, injection, half, direction),
                ..state
            },
        },
{
    lemma_performed_one(setup, state, Pass::Inject { injection, direction });
}

proof fn lemma_injections_performed<V: Scalar, W: Scalar, N: Numerics<V, W>>(
    setup: Setup<V, W, N>,
    state: State<V>,
    half: Half,
    direction: Direction,
    time: V,
    n: int,
)
    ensures
        setup.performed_all(state, setup.injections_into(half, direction, time, n)) == match half {
            Half::Magnetic => State {
                magnetic: setup.injected(state.magnetic, half, direction, time, n),
                ..state
            },
            Half::Electric => State {
                electric: setup.injected(state.electric, half, direction, time, n),
                ..state
            },
        },
    decreases n,
{
    if n > 0 {
        lemma_injections_performed(setup, state, half, direction, time, n - 1);
        let before = setup.injections_into(half, direction, time, n - 1);
        let source = setup.sources@[n - 1];
        let e = source.electric_injection(&setup.math, setup.grid, time);
        let m = source.magnetic_injection(&setup.math, setup.grid, time);
        let middle = setup.performed_all(state, before);
        lemma_performed_joined(setup, state, before, injecting(e, half, direction));
        lemma_injecting(setup, middle, e, half, direction);
        let later = setup.performed_all(state, before + injecting(e, half, direction));
        lemma_performed_joined(
            setup,
            state,
            before + injecting(e, half, direction),
            injecting(m, half, direction),
        );
        lemma_injecting(setup, later, m, half, direction);
    }
}

/// The passes of a step forward do to the fields what the reference solver does,
/// whether or not the intensity is accumulated.
pub proof fn passes_perform_a_step<V: Scalar, W: Scalar, N: Numerics<V, W>>(
    setup: Setup<V, W, N>,
    state: State<V>,
    accumulating: bool,
)
    ensures
        setup.performed_all(state, setup.forward_passes(state.step, accumulating)) == (State {
            step: state.step,
            ..setup.advanced(state)
        }),
{
    let time = setup.time_after(state.step + 1);
    let all = setup.sources@.len() as int;
    let forward = Direction::Forward;
    let start = Pass::<V>::Start { direction: forward };
    let h = Pass::<V>::Update { half: Half::Magnetic, direction: forward };
    let e = Pass::<V>::Update { half: Half::Electric, direction: forward };
    let into_h = setup.injections_into(Half::Magnetic, forward, time, all);
    let into_e = setup.injections_into(Half::Electric, forward, time, all);
    let tail = if accumulating {
        seq![Pass::<V>::Accumulate]
    } else {
        seq![]
    };
    assert(seq![start, h] =~= seq![start] + seq![h]);
    lemma_performed_one(setup, state, start);
    lemma_performed_joined(setup, state, seq![start], seq![h]);
    lemma_performed_one(setup, state, h);
    let one = seq![start, h];
    let s1 = setup.performed_all(state, one);
    lemma_performed_joined(setup, state, one, into_h);
    lemma_injections_performed(setup, s1, Half::Magnetic, forward, time, all);
    let two = one + into_h;
    let s2 = setup.performed_all(state, two);
    lemma_performed_joined(setup, state, two, seq![e]);
    lemma_performed_one(setup, s2, e);
    let three = two + seq![e];
    let s3 = setup.performed_all(state, three);
    lemma_performed_joined(setup, state, three, into_e);
    lemma_injections_performed(setup, s3, Half::Electric, forward, time, all);
    let four = three + into_e;
    let s4 = setup.performed_all(state, four);
    lemma_performed_joined(setup, state, four, tail);
    if accumulating {
        lemma_performed_one(setup, s4, Pass::Accumulate);
    }
}

/// The passes of a step back do to the fields what the reference solver's reverse
/// does.
pub proof fn passes_perform_a_step_back<V: Scalar, W: Scalar, N: Numerics<V, W>>(
    setup: Setup<V, W, N>,
    state: State<V>,
)
    ensures
        setup.performed_all(state, setup.backward_passes(state.step)) == (State {
            step: state.step,
            ..setup.reversed(state)
        }),
{
    let time = setup.time_after(state.step);
    let all = setup.sources@.len() as int;
    let back = Direction::Backward;
    let start = Pass::<V>::Start { direction: back };
    let h = Pass::<V>::Update { half: Half::Magnetic, direction: back };
    let e = Pass::<V>::Update { half: Half::Electric, direction: back };
    let into_h = setup.injections_into(Half::Magnetic, back, time, all);
    let into_e = setup.injections_into(Half::Electric, back, time, all);
    lemma_performed_one(setup, state, start);
    let one = seq![start];
    lemma_performed_joined(setup, state, one, into_e);
    lemma_injections_performed(setup, state, Half::Electric, back, time, all);
    let two = one + into_e;
    let s2 = setup.performed_all(state, two);
    lemma_performed_joined(setup, state, two, seq![e]);
    lemma_performed_one(setup, s2, e);
    let three = two + seq![e];
    let s3 = setup.performed_all(state, three);
    lemma_performed_joined(setup, state, three, into_h);
    lemma_injections_performed(setup, s3, Half::Magnetic, back, time, all);
    let four = three + into_h;
    let s4 = setup.performed_all(state, four);
    lemma_performed_joined(setup, state, four, seq![h]);
    lemma_performed_one(setup, s4, h);
}

} // verus!
