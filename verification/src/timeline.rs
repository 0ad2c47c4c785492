//! Scrubbing back and forth in time.
//!
//! # The mechanism is determinism, not reversal
//!
//! The state of a simulation is a pure function of its scene and its step number:
//! fixed initial conditions, sources that are analytic functions of time, no
//! randomness anywhere. So "go to step *k*" never needs a recording: reset and
//! re-run. That alone is a working seek, fine for a jump and hopeless for a drag.
//!
//! Keyframes bound the cost. Snapshot the fields every so often, and seeking
//! backwards becomes "restore the nearest earlier keyframe, replay the remainder".
//! [`Timeline`] is that ring buffer.
//!
//! # What it costs
//!
//! A keyframe is both fields in full: six values per cell. Keyframe spacing sets
//! the worst-case scrub latency, and the product of the two is the memory bill. A
//! long run therefore gets a *window*, not a complete history: recent steps scrub
//! instantly, older ones fall back to replaying from the start, which is always
//! available and never wrong.

use std::collections::VecDeque;
use vstd::arithmetic::div_mod::{lemma_fundamental_div_mod, lemma_mod_bound};
use vstd::prelude::*;

verus! {

/// A complete field state, and the step it belongs to.
#[derive(Clone, Debug, PartialEq)]
pub struct Snapshot<V> {
    pub step: u64,
    /// All three components of `E`, laid out one after another.
    pub electric: Vec<V>,
    /// All three components of `H`.
    pub magnetic: Vec<V>,
}

/// What a [`Snapshot`] holds.
#[verifier::ext_equal]
pub struct Frame<V> {
    pub step: int,
    pub electric: Seq<V>,
    pub magnetic: Seq<V>,
}

impl<V> View for Snapshot<V> {
    type V = Frame<V>;

    open spec fn view(&self) -> Frame<V> {
        Frame { step: self.step as int, electric: self.electric@, magnetic: self.magnetic@ }
    }
}

impl<V> Snapshot<V> {
    /// Memory the values occupy.
    pub open spec fn size(self) -> nat {
        (self.electric@.len() + self.magnetic@.len()) * vstd::layout::size_of::<V>()
    }

    /// Memory the fields occupy, in bytes.
    pub fn bytes(&self) -> (r: usize)
        requires
            self.electric@.len() + self.magnetic@.len() <= usize::MAX,
            self.size() <= usize::MAX,
        ensures
            r == self.size(),
    {
        (self.electric.len() + self.magnetic.len()) * core::mem::size_of::<V>()
    }

    /// Memory the fields occupy, in bytes, if it can be counted.
    pub fn checked_bytes(&self) -> (r: Option<usize>)
        ensures
            r == if self.electric@.len() + self.magnetic@.len() <= usize::MAX && self.size()
                <= usize::MAX {
                Some(self.size() as usize)
            } else {
                None
            },
    {
        match self.electric.len().checked_add(self.magnetic.len()) {
            Some(values) => values.checked_mul(core::mem::size_of::<V>()),
            None => None,
        }
    }
}

/// What a solver computes, as a function of where it starts.
///
/// This is what makes scrubbing possible at all: the fields at a step depend on
/// nothing but the scene and the step. What the functions are is each solver's own
/// matter.
pub trait Deterministic<V>: Sized {
    /// Whether the solver is in working order.
    spec fn ready(&self) -> bool;

    /// The fields as they stand.
    spec fn frame(&self) -> Frame<V>;

    /// The scene, as what it makes of fields.
    spec fn dynamics(&self) -> Dynamics<V>;
}

/// What a scene makes of fields.
#[verifier::reject_recursive_types(V)]
pub struct Dynamics<V> {
    /// Both fields as a run starts.
    pub start: (Seq<V>, Seq<V>),
    /// Both fields one step after a frame.
    pub stepped: spec_fn(Frame<V>) -> (Seq<V>, Seq<V>),
    /// Whether given fields are ones a solver of the scene could hold.
    pub fits: spec_fn(Frame<V>) -> bool,
}

/// The fields a run starts from.
pub open spec fn rest<V, S: Deterministic<V>>(solver: S) -> Frame<V> {
    Frame { step: 0, electric: solver.dynamics().start.0, magnetic: solver.dynamics().start.1 }
}

/// What a number of steps makes of given fields.
pub open spec fn evolve<V, S: Deterministic<V>>(solver: S, from: Frame<V>, steps: nat) -> Frame<V>
    decreases steps,
{
    if steps == 0 {
        from
    } else {
        let before = evolve(solver, from, (steps - 1) as nat);
        let (electric, magnetic) = (solver.dynamics().stepped)(before);
        Frame { step: before.step + 1, electric, magnetic }
    }
}

/// Whether two solvers run the same scene.
pub open spec fn same_run<V, S: Deterministic<V>>(a: S, b: S) -> bool {
    &&& a.dynamics().start == b.dynamics().start
    &&& forall|from: Frame<V>| #[trigger]
        (b.dynamics().stepped)(from) == (a.dynamics().stepped)(from)
    &&& forall|frame: Frame<V>| #[trigger] (b.dynamics().fits)(frame) == (a.dynamics().fits)(frame)
}

/// A run can be cut anywhere, and every step counts as one.
pub proof fn evolving_adds_up<V, S: Deterministic<V>>(
    solver: S,
    from: Frame<V>,
    first: nat,
    second: nat,
)
    ensures
        evolve(solver, evolve(solver, from, first), second) == evolve(
            solver,
            from,
            first + second,
        ),
        evolve(solver, from, first).step == from.step + first,
    decreases first + second, second,
{
    if second > 0 {
        evolving_adds_up(solver, from, first, (second - 1) as nat);
        assert((first + second - 1) as nat == first + (second - 1) as nat);
    } else if first > 0 {
        evolving_adds_up(solver, from, (first - 1) as nat, 0);
    }
}

proof fn lemma_same_evolution<V, S: Deterministic<V>>(a: S, b: S, from: Frame<V>, steps: nat)
    requires
        same_run(a, b),
    ensures
        evolve(b, from, steps) == evolve(a, from, steps),
        rest(b) == rest(a),
    decreases steps,
{
    if steps > 0 {
        lemma_same_evolution(a, b, from, (steps - 1) as nat);
    }
}

/// What a [`Timeline`] needs from a solver.
///
/// On a device a snapshot is a readback and a restore is an upload; both are
/// expensive, which is exactly why they happen on keyframe boundaries rather than
/// every step.
pub trait Steppable<V>: Deterministic<V> {
    fn step_count(&self) -> (r: u64)
        requires
            self.ready(),
        ensures
            r == self.frame().step,
    ;

    fn advance_by(&mut self, steps: u64)
        requires
            old(self).ready(),
            old(self).frame().step + steps <= u64::MAX,
        ensures
            final(self).ready(),
            same_run(*old(self), *final(self)),
            final(self).frame() == evolve(*old(self), old(self).frame(), steps as nat),
    ;

    fn reset(&mut self)
        requires
            old(self).ready(),
        ensures
            final(self).ready(),
            same_run(*old(self), *final(self)),
            final(self).frame() == rest(*old(self)),
    ;

    /// Takes `&mut` because on a device this is a readback: it has to wait for
    /// the last submission and drive the encoder.
    fn snapshot(&mut self) -> (r: Snapshot<V>)
        requires
            old(self).ready(),
        ensures
            final(self).ready(),
            same_run(*old(self), *final(self)),
            final(self).frame() == old(self).frame(),
            r@ == old(self).frame(),
            (final(self).dynamics().fits)(r@),
    ;

    /// Restores a state captured by [`Self::snapshot`] from the same scene.
    fn restore(&mut self, snapshot: &Snapshot<V>)
        requires
            old(self).ready(),
            (old(self).dynamics().fits)(snapshot@),
        ensures
            final(self).ready(),
            same_run(*old(self), *final(self)),
            final(self).frame() == snapshot@,
    ;
}

/// Whether fields are the ones a run has at their step: those that stepping from
/// the start would have given.
pub open spec fn on_course<V, S: Deterministic<V>>(solver: S, frame: Frame<V>) -> bool {
    frame.step >= 0 && frame == evolve(solver, rest(solver), frame.step as nat)
}

/// What a [`Timeline::seek`] actually had to do, for a display to report.
#[derive(Clone, Copy, Debug, Eq, PartialEq, Structural)]
pub enum Seek {
    /// Already there.
    Unchanged,
    /// Stepped forward from where it was.
    Forward { replayed: u64 },
    /// Restored a keyframe, then replayed the remainder.
    FromKeyframe { at: u64, replayed: u64 },
    /// Fell outside the window, so it restarted from an empty domain.
    FromStart { replayed: u64 },
}

impl Seek {
    /// Steps that were run.
    pub open spec fn cost(self) -> u64 {
        match self {
            Seek::Unchanged => 0,
            Seek::Forward { replayed } => replayed,
            Seek::FromKeyframe { replayed, .. } => replayed,
            Seek::FromStart { replayed } => replayed,
        }
    }

    /// Steps the solver had to run, which is what the latency is proportional
    /// to.
    pub fn replayed(&self) -> (r: u64)
        ensures
            r == self.cost(),
    {
        match *self {
            Seek::Unchanged => 0,
            Seek::Forward { replayed } => replayed,
            Seek::FromKeyframe { replayed, .. } => replayed,
            Seek::FromStart { replayed } => replayed,
        }
    }
}

/// A ring of keyframes covering the recent past.
#[derive(Debug)]
pub struct Timeline<V> {
    pub keyframes: VecDeque<Snapshot<V>>,
    pub interval: u64,
    pub capacity: usize,
}

/// Of the first `n` keyframes that are not past `target`, the one of the greatest
/// step, or -1 where there is none. Of two of the same step, the one recorded last.
pub open spec fn nearest_before<V>(keyframes: Seq<Snapshot<V>>, target: u64, n: int) -> int
    decreases n,
{
    if n <= 0 {
        -1
    } else {
        let best = nearest_before(keyframes, target, n - 1);
        if keyframes[n - 1].step <= target && (best < 0 || keyframes[best].step <= keyframes[n
            - 1].step) {
            n - 1
        } else {
            best
        }
    }
}

/// Least step of the first `n` keyframes.
pub open spec fn least_step<V>(keyframes: Seq<Snapshot<V>>, n: int) -> u64
    decreases n,
{
    if n <= 1 {
        keyframes[0].step
    } else {
        let least = least_step(keyframes, n - 1);
        if keyframes[n - 1].step < least {
            keyframes[n - 1].step
        } else {
            least
        }
    }
}

/// Memory the first `n` keyframes occupy.
pub open spec fn total_size<V>(keyframes: Seq<Snapshot<V>>, n: int) -> nat
    decreases n,
{
    if n <= 0 {
        0
    } else {
        total_size(keyframes, n - 1) + keyframes[n - 1].size()
    }
}

impl<V> Timeline<V> {
    /// Never more keyframes than there is room for, and all of them on interval
    /// boundaries.
    pub open spec fn valid(self) -> bool {
        &&& self.interval > 0
        &&& self.capacity > 0
        &&& self.keyframes@.len() <= self.capacity
        &&& forall|k: int|
            0 <= k < self.keyframes@.len() ==> (#[trigger] self.keyframes@[k]).step as int % (
            self.interval as int) == 0
    }

    /// Whether every keyframe could be restored into a solver.
    pub open spec fn suits<S: Deterministic<V>>(self, solver: S) -> bool {
        forall|k: int|
            0 <= k < self.keyframes@.len() ==> (solver.dynamics().fits)((#[trigger] self.keyframes@[k])@)
    }

    /// Whether every keyframe is what stepping from the start would have given.
    pub open spec fn faithful<S: Deterministic<V>>(self, solver: S) -> bool {
        forall|k: int|
            0 <= k < self.keyframes@.len() ==> on_course(solver, (#[trigger] self.keyframes@[k])@)
    }

    /// Whether a keyframe is due at a step.
    pub open spec fn due(self, step: int) -> bool {
        &&& step % (self.interval as int) == 0
        &&& self.keyframes@.len() == 0 || self.keyframes@.last().step != step
    }

    /// The keyframes that stay when one is added.
    pub open spec fn kept(self) -> Seq<Snapshot<V>> {
        if self.keyframes@.len() == self.capacity {
            self.keyframes@.drop_first()
        } else {
            self.keyframes@
        }
    }

    /// Keeps `capacity` keyframes spaced `interval` steps apart.
    ///
    /// `interval` trades scrub latency against memory: the worst replay is
    /// `interval` steps, and the bill is `capacity` full field states.
    pub fn new(interval: u64, capacity: usize) -> (r: Self)
        requires
            interval > 0,
            capacity > 0,
        ensures
            r.valid(),
            r.keyframes@ == Seq::<Snapshot<V>>::empty(),
            r.interval == interval,
            r.capacity == capacity,
    {
        Timeline { keyframes: VecDeque::with_capacity(capacity), interval, capacity }
    }

    /// Records a keyframe if one is due. Call after advancing.
    ///
    /// Cheap when nothing is due, which is almost always.
    pub fn observe<S: Steppable<V>>(&mut self, simulation: &mut S)
        requires
            old(self).valid(),
            old(simulation).ready(),
        ensures
            final(self).valid(),
            final(self).interval == old(self).interval,
            final(self).capacity == old(self).capacity,
            final(simulation).ready(),
            same_run(*old(simulation), *final(simulation)),
            final(simulation).frame() == old(simulation).frame(),
            !old(self).due(old(simulation).frame().step) ==> *final(self) == *old(self)
                && *final(simulation) == *old(simulation),
            old(self).due(old(simulation).frame().step) ==> {
                &&& final(self).keyframes@.len() == old(self).kept().len() + 1
                &&& final(self).keyframes@.drop_last() == old(self).kept()
                &&& final(self).keyframes@.last()@ == old(simulation).frame()
            },
            old(self).suits(*old(simulation)) ==> final(self).suits(*final(simulation)),
            old(self).faithful(*old(simulation)) && on_course(
                *old(simulation),
                old(simulation).frame(),
            ) ==> final(self).faithful(*final(simulation)),
    {
        let step: u64 = simulation.step_count();
        if step % self.interval != 0 {
            return;
        }
        if self.keyframes.len() > 0 && self.keyframes[self.keyframes.len() - 1].step == step {
            return;
        }
        let ghost before = self.keyframes@;
        if self.keyframes.len() == self.capacity {
            let _ = self.keyframes.pop_front();
            assert(self.keyframes@ =~= before.drop_first());
        }
        let ghost earlier = *simulation;
        let snapshot = simulation.snapshot();
        let ghost kept = self.keyframes@;
        self.keyframes.push_back(snapshot);
        proof {
            assert(self.keyframes@.drop_last() =~= kept);
            assert forall|frame: Frame<V>| on_course(earlier, frame) implies #[trigger] on_course(
                *simulation,
                frame,
            ) by {
                lemma_same_evolution(earlier, *simulation, rest(earlier), frame.step as nat);
            }
            assert forall|k: int| 0 <= k < kept.len() implies #[trigger] self.keyframes@[k]
                == before[if before.len() == self.capacity { k + 1 } else { k }] by {}
        }
    }

    /// Throws away every keyframe, for when the scene underneath has changed.
    pub fn clear(&mut self)
        ensures
            final(self).keyframes@ == Seq::<Snapshot<V>>::empty(),
            final(self).interval == old(self).interval,
            final(self).capacity == old(self).capacity,
            old(self).valid() ==> final(self).valid(),
    {
        self.keyframes.clear();
    }

    /// The least step held.
    pub open spec fn oldest(self) -> Option<u64> {
        if self.keyframes@.len() == 0 {
            None
        } else {
            Some(least_step(self.keyframes@, self.keyframes@.len() as int))
        }
    }

    /// Oldest step that can be reached without replaying from zero.
    pub fn earliest(&self) -> (r: Option<u64>)
        ensures
            r == self.oldest(),
            r is None <==> self.keyframes@.len() == 0,
            r matches Some(e) ==> {
                &&& exists|k: int|
                    0 <= k < self.keyframes@.len() && (#[trigger] self.keyframes@[k]).step == e
                &&& forall|k: int|
                    0 <= k < self.keyframes@.len() ==> e <= (#[trigger] self.keyframes@[k]).step
            },
    {
        if self.keyframes.len() == 0 {
            return None;
        }
        let mut least: u64 = self.keyframes[0].step;
        let mut n: usize = 1;
        while n < self.keyframes.len()
            invariant
                1 <= n <= self.keyframes@.len(),
                least == least_step(self.keyframes@, n as int),
            decreases self.keyframes@.len() - n,
        {
            let step: u64 = self.keyframes[n].step;
            if step < least {
                least = step;
            }
            n = n + 1;
        }
        proof {
            lemma_least_is_least(self.keyframes@, n as int);
        }
        Some(least)
    }

    pub fn keyframe_count(&self) -> (r: usize)
        ensures
            r == self.keyframes@.len(),
    {
        self.keyframes.len()
    }

    /// Whether the memory the keyframes occupy can be counted.
    pub open spec fn countable(self) -> bool {
        &&& total_size(self.keyframes@, self.keyframes@.len() as int) <= usize::MAX
        &&& forall|k: int|
            0 <= k < self.keyframes@.len() ==> (#[trigger] self.keyframes@[k]).electric@.len()
                + self.keyframes@[k].magnetic@.len() <= usize::MAX
    }

    /// Memory the keyframes currently occupy.
    pub fn bytes(&self) -> (r: usize)
        requires
            self.countable(),
        ensures
            r == total_size(self.keyframes@, self.keyframes@.len() as int),
    {
        let mut total: usize = 0;
        let mut k: usize = 0;
        while k < self.keyframes.len()
            invariant
                k <= self.keyframes@.len(),
                total == total_size(self.keyframes@, k as int),
                total_size(self.keyframes@, self.keyframes@.len() as int) <= usize::MAX,
                forall|k: int|
                    0 <= k < self.keyframes@.len() ==> (
                    #[trigger] self.keyframes@[k]).electric@.len()
                        + self.keyframes@[k].magnetic@.len() <= usize::MAX,
            decreases self.keyframes@.len() - k,
        {
            proof {
                lemma_size_grows(self.keyframes@, k + 1, self.keyframes@.len() as int);
            }
            total = total + self.keyframes[k].bytes();
            k = k + 1;
        }
        total
    }

    /// Memory the keyframes currently occupy, if it can be counted.
    pub fn checked_bytes(&self) -> (r: Option<usize>)
        ensures
            r == if self.countable() {
                Some(total_size(self.keyframes@, self.keyframes@.len() as int) as usize)
            } else {
                None
            },
    {
        let mut total: usize = 0;
        let mut k: usize = 0;
        while k < self.keyframes.len()
            invariant
                k <= self.keyframes@.len(),
                total == total_size(self.keyframes@, k as int),
                forall|j: int|
                    0 <= j < k ==> (#[trigger] self.keyframes@[j]).electric@.len()
                        + self.keyframes@[j].magnetic@.len() <= usize::MAX,
            decreases self.keyframes@.len() - k,
        {
            let frame = &self.keyframes[k];
            assert(self.keyframes@[k as int] == *frame);
            let counted = match frame.checked_bytes() {
                Some(bytes) => total.checked_add(bytes),
                None => None,
            };
            proof {
                lemma_size_grows(self.keyframes@, k + 1, self.keyframes@.len() as int);
                lemma_size_grows(self.keyframes@, 0, k as int);
                assert(self.keyframes@[k as int].size() >= 0);
            }
            match counted {
                Some(sum) => {
                    total = sum;
                },
                None => {
                    return None;
                },
            }
            k = k + 1;
        }
        Some(total)
    }

    /// Index of the keyframe nearest to `target` that is not past it.
    fn nearest(&self, target: u64) -> (r: Option<usize>)
        ensures
            match r {
                Some(k) => k < self.keyframes@.len() && nearest_before(
                    self.keyframes@,
                    target,
                    self.keyframes@.len() as int,
                ) == k,
                None => nearest_before(self.keyframes@, target, self.keyframes@.len() as int)
                    == -1,
            },
    {
        let mut best: Option<usize> = None;
        let mut n: usize = 0;
        while n < self.keyframes.len()
            invariant
                n <= self.keyframes@.len(),
                match best {
                    Some(k) => k < n && nearest_before(self.keyframes@, target, n as int) == k,
                    None => nearest_before(self.keyframes@, target, n as int) == -1,
                },
            decreases self.keyframes@.len() - n,
        {
            let step: u64 = self.keyframes[n].step;
            if step <= target {
                let nearer = match best {
                    Some(k) => self.keyframes[k].step <= step,
                    None => true,
                };
                if nearer {
                    best = Some(n);
                }
            }
            n = n + 1;
        }
        best
    }

    /// Moves the simulation to `target`, by the cheapest route available.
    ///
    /// Forward is just stepping. Backward restores the nearest keyframe at or
    /// before the target and replays; if none exists, it resets and replays
    /// from the start, which is slow but always correct.
    pub fn seek<S: Steppable<V>>(&self, simulation: &mut S, target: u64) -> (r: Seek)
        requires
            old(simulation).ready(),
            self.suits(*old(simulation)),
        ensures
            final(simulation).ready(),
            same_run(*old(simulation), *final(simulation)),
            final(simulation).frame().step == target,
            r == self.route(old(simulation).frame().step as u64, target),
            r is Unchanged ==> *final(simulation) == *old(simulation),
            final(simulation).frame() == evolve(
                *old(simulation),
                match r {
                    Seek::Unchanged => old(simulation).frame(),
                    Seek::Forward { .. } => old(simulation).frame(),
                    Seek::FromKeyframe { .. } => self.keyframes@[nearest_before(
                        self.keyframes@,
                        target,
                        self.keyframes@.len() as int,
                    )]@,
                    Seek::FromStart { .. } => rest(*old(simulation)),
                },
                r.cost() as nat,
            ),
            r matches Seek::FromKeyframe { at, replayed } ==> {
                &&& at + replayed == target
                &&& exists|k: int|
                    0 <= k < self.keyframes@.len() && (#[trigger] self.keyframes@[k]).step == at
                &&& forall|k: int|
                    0 <= k < self.keyframes@.len() && (#[trigger] self.keyframes@[k]).step
                        <= target ==> self.keyframes@[k].step <= at
            },
            self.faithful(*old(simulation)) && on_course(
                *old(simulation),
                old(simulation).frame(),
            ) ==> final(simulation).frame() == evolve(
                *old(simulation),
                rest(*old(simulation)),
                target as nat,
            ),
    {
        let ghost before = *simulation;
        let current: u64 = simulation.step_count();
        if target == current {
            return Seek::Unchanged;
        }
        if target > current {
            proof {
                evolving_adds_up(before, before.frame(), (target - current) as nat, 0);
                evolving_adds_up(
                    before,
                    rest(before),
                    current as nat,
                    (target - current) as nat,
                );
            }
            simulation.advance_by(target - current);
            return Seek::Forward { replayed: target - current };
        }
        let nearest = self.nearest(target);
        proof {
            lemma_nearest_is_greatest(self.keyframes@, target, self.keyframes@.len() as int);
        }
        if let Some(k) = nearest {
            let frame = &self.keyframes[k];
            simulation.restore(frame);
            proof {
                lemma_same_evolution(
                    before,
                    *simulation,
                    frame@,
                    (target - frame.step) as nat,
                );
                evolving_adds_up(before, frame@, (target - frame.step) as nat, 0);
                evolving_adds_up(
                    before,
                    rest(before),
                    frame.step as nat,
                    (target - frame.step) as nat,
                );
            }
            simulation.advance_by(target - frame.step);
            Seek::FromKeyframe { at: frame.step, replayed: target - frame.step }
        } else {
            simulation.reset();
            proof {
                lemma_same_evolution(before, *simulation, rest(before), target as nat);
                evolving_adds_up(before, rest(before), target as nat, 0);
            }
            simulation.advance_by(target);
            Seek::FromStart { replayed: target }
        }
    }

    /// The cheapest way from one step to another.
    pub open spec fn route(self, current: u64, target: u64) -> Seek {
        let nearest = nearest_before(self.keyframes@, target, self.keyframes@.len() as int);
        if target == current {
            Seek::Unchanged
        } else if target > current {
            Seek::Forward { replayed: (target - current) as u64 }
        } else if nearest >= 0 {
            Seek::FromKeyframe {
                at: self.keyframes@[nearest].step,
                replayed: (target - self.keyframes@[nearest].step) as u64,
            }
        } else {
            Seek::FromStart { replayed: target }
        }
    }
}

proof fn lemma_size_grows<V>(keyframes: Seq<Snapshot<V>>, a: int, b: int)
    requires
        0 <= a <= b <= keyframes.len(),
    ensures
        total_size(keyframes, a) <= total_size(keyframes, b),
    decreases b,
{
    if a < b {
        lemma_size_grows(keyframes, a, b - 1);
    }
}

/// Whether the keyframes are the ones a run leaves behind that was observed at
/// every step: consecutive multiples of the interval.
pub open spec fn consecutive<V>(timeline: Timeline<V>) -> bool {
    forall|k: int|
        0 <= k < timeline.keyframes@.len() ==> (#[trigger] timeline.keyframes@[k]).step
            == timeline.keyframes@[0].step + k * timeline.interval
}

/// A window that records a keyframe every interval stays a window: what
/// [`Timeline::observe`] leaves of consecutive keyframes, one interval after the
/// last of them, is consecutive again.
pub proof fn window_slides<V>(before: Timeline<V>, after: Timeline<V>, snapshot: Snapshot<V>)
    requires
        before.valid(),
        consecutive(before),
        before.keyframes@.len() > 0 ==> snapshot.step == before.keyframes@.last().step
            + before.interval,
        after.interval == before.interval,
        after.capacity == before.capacity,
        after.keyframes@ == before.kept().push(snapshot),
    ensures
        consecutive(after),
        after.keyframes@.last().step == snapshot.step,
{
    let frames = before.keyframes@;
    let d = before.interval as int;
    assert forall|k: int| 0 <= k < after.keyframes@.len() implies (
    #[trigger] after.keyframes@[k]).step == after.keyframes@[0].step + k * d by {
        let n = frames.len() as int;
        let offset: int = if n == before.capacity {
            1
        } else {
            0
        };
        if n > 0 {
            assert(frames[n - 1].step == frames[0].step + (n - 1) * d);
            assert((n - 1) * d + d == n * d) by (nonlinear_arith);
            assert((k + offset) * d == k * d + offset * d) by (nonlinear_arith);
            if offset < n {
                assert(frames[offset].step == frames[0].step + offset * d);
            }
            if k + offset < n {
                assert(after.keyframes@[k] == frames[k + offset]);
            }
        }
        assert(0 * d == 0 && 1 * d == d) by (nonlinear_arith);
    }
}

/// Within the window a scrub never replays as much as one keyframe interval.
pub proof fn scrubbing_replays_less_than_an_interval<V>(
    timeline: Timeline<V>,
    current: u64,
    target: u64,
)
    requires
        timeline.valid(),
        consecutive(timeline),
        timeline.keyframes@.len() > 0,
        timeline.keyframes@[0].step <= target < current,
        target < timeline.keyframes@.last().step + timeline.interval,
    ensures
        timeline.route(current, target) is FromKeyframe,
        timeline.route(current, target).cost() < timeline.interval,
{
    let frames = timeline.keyframes@;
    let n = frames.len() as int;
    let (first, d) = (frames[0].step as int, timeline.interval as int);
    lemma_nearest_is_greatest(frames, target, n);
    // The keyframe the target falls behind.
    let k = (target - first) / d;
    lemma_fundamental_div_mod(target - first, d);
    lemma_mod_bound(target - first, d);
    assert(frames[n - 1].step == first + (n - 1) * d);
    assert(0 <= k < n) by (nonlinear_arith)
        requires
            target - first == d * k + (target - first) % d,
            0 <= (target - first) % d < d,
            0 <= target - first < (n - 1) * d + d,
            d > 0,
    ;
    assert(frames[k].step == first + k * d);
    assert(k * d == d * k) by (nonlinear_arith);
    assert(frames[k].step <= target < frames[k].step + d);
}

/// The keyframe a seek goes by is the nearest: of those held that are not past the
/// target, none has a greater step.
proof fn lemma_nearest_is_greatest<V>(keyframes: Seq<Snapshot<V>>, target: u64, n: int)
    requires
        0 <= n <= keyframes.len(),
    ensures
        ({
            let best = nearest_before(keyframes, target, n);
            &&& -1 <= best < n
            &&& best >= 0 ==> keyframes[best].step <= target
            &&& forall|k: int|
                0 <= k < n && (#[trigger] keyframes[k]).step <= target ==> best >= 0
                    && keyframes[k].step <= keyframes[best].step
        }),
    decreases n,
{
    if n > 0 {
        lemma_nearest_is_greatest(keyframes, target, n - 1);
    }
}

proof fn lemma_least_is_least<V>(keyframes: Seq<Snapshot<V>>, n: int)
    requires
        1 <= n <= keyframes.len(),
    ensures
        exists|k: int| 0 <= k < n && (#[trigger] keyframes[k]).step == least_step(keyframes, n),
        forall|k: int|
            0 <= k < n ==> least_step(keyframes, n) <= (#[trigger] keyframes[k]).step,
    decreases n,
{
    if n > 1 {
        lemma_least_is_least(keyframes, n - 1);
        let k = choose|k: int|
            0 <= k < n - 1 && (#[trigger] keyframes[k]).step == least_step(keyframes, n - 1);
        assert(keyframes[k].step == least_step(keyframes, n - 1));
        assert(keyframes[n - 1].step == keyframes[n - 1].step);
    } else {
        assert(keyframes[0].step == least_step(keyframes, n));
    }
}

/// No route is cheaper: whatever keyframe a step back might start from, it replays
/// at least as many steps as the one taken, and so does the start.
pub proof fn seeking_back_is_cheapest<V>(
    timeline: Timeline<V>,
    current: u64,
    target: u64,
    k: int,
)
    requires
        target < current,
    ensures
        timeline.route(current, target).cost() <= target,
        0 <= k < timeline.keyframes@.len() && timeline.keyframes@[k].step <= target
            ==> timeline.route(current, target).cost() <= target - timeline.keyframes@[k].step,
{
    lemma_nearest_is_greatest(timeline.keyframes@, target, timeline.keyframes@.len() as int);
}

/// What [`Timeline::earliest`] promises: before it a step back replays from the
/// start, and from it on never does, whatever was recorded in whatever order.
pub proof fn earliest_is_where_replay_begins<V>(timeline: Timeline<V>, current: u64, target: u64)
    requires
        target < current,
    ensures
        timeline.route(current, target) is FromStart <==> (timeline.oldest() matches Some(e)
            ==> target < e),
{
    let n = timeline.keyframes@.len() as int;
    lemma_nearest_is_greatest(timeline.keyframes@, target, n);
    if n > 0 {
        lemma_least_is_least(timeline.keyframes@, n);
        let k = choose|k: int|
            0 <= k < n && (#[trigger] timeline.keyframes@[k]).step == least_step(
                timeline.keyframes@,
                n,
            );
        assert(timeline.keyframes@[k].step == least_step(timeline.keyframes@, n));
    }
}

/// Older than the window, a target is replayed from the start, and never from
/// anywhere later than itself.
pub proof fn older_targets_replay_from_the_start<V>(
    timeline: Timeline<V>,
    current: u64,
    target: u64,
)
    requires
        target < current,
        forall|k: int|
            0 <= k < timeline.keyframes@.len() ==> (#[trigger] timeline.keyframes@[k]).step
                > target,
    ensures
        timeline.route(current, target) == (Seek::FromStart { replayed: target }),
{
    lemma_nearest_is_greatest(timeline.keyframes@, target, timeline.keyframes@.len() as int);
}

impl<V> Timeline<V> {
    /// Of the first `n` keyframes from `low` to `high`, the least step, or `high`
    /// where there is none.
    pub open spec fn held_between(self, low: u64, high: u64, n: int) -> u64
        decreases n,
    {
        if n <= 0 {
            high
        } else {
            let best = self.held_between(low, high, n - 1);
            let step = self.keyframes@[n - 1].step;
            if low <= step && step < best {
                step
            } else {
                best
            }
        }
    }

    /// Where a move from `current` toward `target` ends if it may replay no more
    /// than `budget` steps: at the target, or else at the first keyframe on this
    /// side of it, or else where it is.
    pub open spec fn in_reach(self, current: u64, target: u64, budget: u64) -> u64 {
        if self.route(current, target).cost() <= budget {
            target
        } else if target < current {
            self.held_between(target, current, self.keyframes@.len() as int)
        } else {
            current
        }
    }

    /// Where a move from `current` toward `target` ends if it may replay no more
    /// than `budget` steps.
    pub fn within_reach(&self, current: u64, target: u64, budget: u64) -> (r: u64)
        ensures
            r == self.in_reach(current, target, budget),
            self.route(current, r).cost() <= budget,
    {
        proof {
            lemma_reach_is_cheap(*self, current, target, budget);
        }
        if target >= current {
            return if target - current <= budget {
                target
            } else {
                current
            };
        }
        proof {
            lemma_nearest_is_greatest(
                self.keyframes@,
                target,
                self.keyframes@.len() as int,
            );
        }
        let replayed: u64 = match self.nearest(target) {
            Some(k) => target - self.keyframes[k].step,
            None => target,
        };
        if replayed <= budget {
            return target;
        }
        let mut best: u64 = current;
        let mut n: usize = 0;
        while n < self.keyframes.len()
            invariant
                n <= self.keyframes@.len(),
                best == self.held_between(target, current, n as int),
            decreases self.keyframes@.len() - n,
        {
            let step: u64 = self.keyframes[n].step;
            if target <= step && step < best {
                best = step;
            }
            n = n + 1;
        }
        best
    }
}

proof fn lemma_held_between<V>(timeline: Timeline<V>, low: u64, high: u64, n: int)
    requires
        0 <= n <= timeline.keyframes@.len(),
        low < high,
    ensures
        ({
            let best = timeline.held_between(low, high, n);
            &&& low <= best <= high
            &&& best == high || exists|k: int|
                0 <= k < n && (#[trigger] timeline.keyframes@[k]).step == best
        }),
    decreases n,
{
    if n > 0 {
        lemma_held_between(timeline, low, high, n - 1);
        let before = timeline.held_between(low, high, n - 1);
        let best = timeline.held_between(low, high, n);
        if best == timeline.keyframes@[n - 1].step {
        } else if before != high {
            let k = choose|k: int|
                0 <= k < n - 1 && (#[trigger] timeline.keyframes@[k]).step == before;
            assert(timeline.keyframes@[k].step == best);
        }
    }
}

/// A move within reach ends between where it starts and where it is headed.
pub(crate) proof fn lemma_reach_lies_between<V>(
    timeline: Timeline<V>,
    current: u64,
    target: u64,
    budget: u64,
)
    ensures
        target <= current ==> target <= timeline.in_reach(current, target, budget) <= current,
        target >= current ==> current <= timeline.in_reach(current, target, budget) <= target,
{
    if target < current {
        lemma_held_between(timeline, target, current, timeline.keyframes@.len() as int);
    }
}

/// A move within reach costs no more than it may.
pub(crate) proof fn lemma_reach_is_cheap<V>(timeline: Timeline<V>, current: u64, target: u64, budget: u64)
    ensures
        timeline.route(current, timeline.in_reach(current, target, budget)).cost() <= budget,
{
    let n = timeline.keyframes@.len() as int;
    let r = timeline.in_reach(current, target, budget);
    if timeline.route(current, target).cost() > budget && target < current {
        lemma_held_between(timeline, target, current, n);
        lemma_nearest_is_greatest(timeline.keyframes@, r, n);
        if r != current {
            let k = choose|k: int|
                0 <= k < n && (#[trigger] timeline.keyframes@[k]).step == r;
            assert(timeline.keyframes@[k].step <= r);
        }
    }
}

/// However long a run goes on, its keyframes never occupy more than `capacity`
/// full field states.
pub proof fn memory_is_bounded<V>(timeline: Timeline<V>, frame: nat)
    requires
        timeline.valid(),
        forall|k: int|
            0 <= k < timeline.keyframes@.len() ==> (#[trigger] timeline.keyframes@[k]).size()
                <= frame,
    ensures
        total_size(timeline.keyframes@, timeline.keyframes@.len() as int) <= timeline.capacity
            * frame,
{
    lemma_total_bounded(timeline.keyframes@, frame, timeline.keyframes@.len() as int);
    assert(timeline.keyframes@.len() * frame <= timeline.capacity * frame) by (nonlinear_arith)
        requires
            timeline.keyframes@.len() <= timeline.capacity,
    ;
}

proof fn lemma_total_bounded<V>(keyframes: Seq<Snapshot<V>>, frame: nat, n: int)
    requires
        0 <= n <= keyframes.len(),
        forall|k: int| 0 <= k < keyframes.len() ==> (#[trigger] keyframes[k]).size() <= frame,
    ensures
        total_size(keyframes, n) <= n * frame,
    decreases n,
{
    if n > 0 {
        lemma_total_bounded(keyframes, frame, n - 1);
        assert(keyframes[n - 1].size() <= frame);
        assert((n - 1) * frame + frame == n * frame) by (nonlinear_arith);
    }
}

/// A keyframe is due at every multiple of the interval, the start among them, and
/// nowhere else; and not twice running at one step.
pub proof fn keyframes_are_due_every_interval<V>(timeline: Timeline<V>, q: int, past: int)
    requires
        timeline.valid(),
        0 <= past < timeline.interval,
    ensures
        ({
            let step = q * timeline.interval + past;
            let recorded = timeline.keyframes@.len() > 0 && timeline.keyframes@.last().step
                == step;
            timeline.due(step) <==> past == 0 && !recorded
        }),
{
    let d = timeline.interval as int;
    let step = q * d + past;
    assert(step == d * q + past) by (nonlinear_arith)
        requires
            step == q * d + past,
    ;
    vstd::arithmetic::div_mod::lemma_fundamental_div_mod_converse(step, d, q, past);
}

} // verus!
