//! What the window does in answer to keys, the mouse, and the passing of frames.
//!
//! The decisions are made here, from plain values to plain values; whoever owns the
//! window and the device carries them out.

use crate::algebra::multiply_by_nothing;
use crate::boundary::clamped;
use crate::grading::ordered;
use crate::numerics::{Elementary, Numerics};
use crate::order::{below_through, factors_come_off, field, one_way_or_the_other, parts};
use crate::scalar::{
    arithmetic, at_most, below, greater, greater_of, lesser, lesser_of, minus, number, over, plus, times,
    Scalar,
};
use crate::timeline::{
    consecutive, lemma_reach_is_cheap, lemma_reach_lies_between,
    scrubbing_replays_less_than_an_interval, Timeline,
};
use crate::view::{ScrubBar, ViewMode, ViewSettings};
use vstd::prelude::*;

verus! {

/// Steps between keyframes. Bounds the worst-case scrub replay, and with a
/// sixteen-frame ring bounds the memory.
pub const KEYFRAME_INTERVAL: u64 = 200;

/// Keyframes kept.
pub const KEYFRAME_CAPACITY: usize = 16;

/// Most solver steps per displayed frame.
pub const MOST_STEPS: u32 = 4096;

/// A key the viewer listens to.
#[derive(Clone, Copy, Debug, Eq, PartialEq, Structural)]
pub enum Key {
    Escape,
    Space,
    Reset,
    Logarithm,
    Left,
    Right,
    Minus,
    Equal,
    BracketLeft,
    BracketRight,
    Home,
    Mode { mode: ViewMode },
}

/// What is to be done with the window or the solver.
#[derive(Clone, Copy, Debug, PartialEq)]
pub enum Action<V> {
    Nothing,
    /// Close the window.
    Quit,
    /// Clear the fields and forget every keyframe.
    Reset,
    /// Move the solver to a step.
    Seek { target: u64 },
    /// Turn the camera by a number of pixels.
    Orbit { right: V, down: V },
}

/// The interactive state that survives across frames.
#[derive(Clone, Copy, Debug, PartialEq)]
pub struct Control<V, W> {
    pub running: bool,
    pub steps_per_frame: u32,
    pub settings: ViewSettings<V>,
    /// Furthest step reached, which is what the scrub bar spans.
    pub furthest: u64,
    pub dragging: bool,
    pub scrubbing: bool,
    /// Where the pointer was last seen.
    pub cursor: Option<(W, W)>,
    /// Frames presented so far.
    pub presented: u64,
    /// Present this many frames and quit.
    pub exit_after: Option<u64>,
    pub steps_per_second: V,
}

/// Where a step lies when moved by keyframe intervals, kept within the run.
pub open spec fn nudged(current: u64, furthest: u64, intervals: int) -> u64 {
    let target = current + intervals * KEYFRAME_INTERVAL;
    if target < 0 {
        0
    } else if target > furthest {
        furthest
    } else {
        target as u64
    }
}

impl<V: Scalar, W: Scalar> Control<V, W> {
    /// The step at a fraction of the run so far.
    pub open spec fn step_at<N: Elementary<V>>(self, math: &N, fraction: V) -> u64 {
        math.nearest_to(times(clamped(fraction), math.count_of(self.furthest)))
    }

    /// Scrubbing to a fraction: pauses on the way, because a slider that keeps
    /// advancing under the pointer is not a slider. Nothing happens where the
    /// solver is there already.
    pub open spec fn scrubbed<N: Elementary<V>>(self, math: &N, current: u64, fraction: V) -> (
        Control<V, W>,
        Action<V>,
    ) {
        let target = self.step_at(math, fraction);
        if target == current {
            (self, Action::Nothing)
        } else {
            (Control { running: false, ..self }, Action::Seek { target })
        }
    }

    /// Where a nudge ends: an interval away, if it can be had for an interval of
    /// replay, and else as far that way as it can.
    pub open spec fn nudge_target(
        self,
        timeline: Timeline<V>,
        current: u64,
        intervals: int,
    ) -> u64 {
        timeline.in_reach(
            current,
            nudged(current, self.furthest, intervals),
            KEYFRAME_INTERVAL,
        )
    }

    /// What a key does.
    pub open spec fn keyed<N: Elementary<V>>(
        self,
        math: &N,
        key: Key,
        timeline: Timeline<V>,
        current: u64,
    ) -> (Control<V, W>, Action<V>) {
        let zero = number::<V>(0);
        match key {
            Key::Escape => (self, Action::Quit),
            Key::Space => (Control { running: !self.running, ..self }, Action::Nothing),
            Key::Reset => (Control { furthest: 0, ..self }, Action::Reset),
            Key::Logarithm => (
                Control {
                    settings: ViewSettings {
                        log_strength: if below(zero, self.settings.log_strength) {
                            zero
                        } else {
                            number(40)
                        },
                        ..self.settings
                    },
                    ..self
                },
                Action::Nothing,
            ),
            Key::Left => (
                Control {
                    steps_per_frame: if self.steps_per_frame <= 2 {
                        1
                    } else {
                        (self.steps_per_frame - 1) as u32
                    },
                    ..self
                },
                Action::Nothing,
            ),
            Key::Right => (
                Control {
                    steps_per_frame: if self.steps_per_frame >= MOST_STEPS {
                        MOST_STEPS
                    } else {
                        (self.steps_per_frame + 1) as u32
                    },
                    ..self
                },
                Action::Nothing,
            ),
            Key::Minus => (
                Control {
                    settings: ViewSettings {
                        gain: greater_of(
                            over(self.settings.gain, math.decimal_of(13, 1)),
                            math.decimal_of(1, 3),
                        ),
                        ..self.settings
                    },
                    ..self
                },
                Action::Nothing,
            ),
            Key::Equal => (
                Control {
                    settings: ViewSettings {
                        gain: lesser_of(
                            times(self.settings.gain, math.decimal_of(13, 1)),
                            math.count_of(10_000),
                        ),
                        ..self.settings
                    },
                    ..self
                },
                Action::Nothing,
            ),
            Key::BracketLeft => (
                Control { running: false, ..self },
                Action::Seek { target: self.nudge_target(timeline, current, -1) },
            ),
            Key::BracketRight => (
                Control { running: false, ..self },
                Action::Seek { target: self.nudge_target(timeline, current, 1) },
            ),
            Key::Home => self.scrubbed(math, current, zero),
            Key::Mode { mode } => (
                Control { settings: ViewSettings { mode, ..self.settings }, ..self },
                Action::Nothing,
            ),
        }
    }

    /// What pressing the left button does, with the pointer at a fraction of the
    /// scrub bar or off it.
    ///
    /// Which gesture this is gets decided on press and held until release, so a
    /// scrub that wanders off the bar keeps scrubbing rather than suddenly
    /// spinning the camera.
    pub open spec fn pressed<N: Elementary<V>>(self, math: &N, current: u64, bar: Option<V>) -> (
        Control<V, W>,
        Action<V>,
    ) {
        let held = Control { dragging: true, ..self };
        match (self.cursor, bar) {
            (None, _) => (held, Action::Nothing),
            (Some(_), None) => (Control { scrubbing: false, ..held }, Action::Nothing),
            (Some(_), Some(fraction)) => (Control { scrubbing: true, ..held }).scrubbed(
                math,
                current,
                fraction,
            ),
        }
    }

    /// What moving the pointer does: scrubs, turns the camera, or nothing.
    pub open spec fn moved<N: Numerics<V, W>>(
        self,
        math: &N,
        current: u64,
        position: (W, W),
        fraction: V,
    ) -> (Control<V, W>, Action<V>) {
        let (after, action) = if self.dragging && self.scrubbing {
            self.scrubbed(math, current, fraction)
        } else if self.dragging && self.cursor is Some {
            let previous = self.cursor->0;
            (
                self,
                Action::Orbit {
                    right: math.narrowed(minus(position.0, previous.0)),
                    down: math.narrowed(minus(position.1, previous.1)),
                },
            )
        } else {
            (self, Action::Nothing)
        };
        (Control { cursor: Some(position), ..after }, action)
    }

    pub fn new(
        steps_per_frame: u32,
        settings: ViewSettings<V>,
        exit_after: Option<u64>,
    ) -> (r: Self)
        requires
            arithmetic::<V>(),
        ensures
            r == (Control::<V, W> {
                running: true,
                steps_per_frame,
                settings,
                furthest: 0,
                dragging: false,
                scrubbing: false,
                cursor: None,
                presented: 0,
                exit_after,
                steps_per_second: number(0),
            }),
    {
        Control {
            running: true,
            steps_per_frame,
            settings,
            furthest: 0,
            dragging: false,
            scrubbing: false,
            cursor: None,
            presented: 0,
            exit_after,
            steps_per_second: V::from(0u8),
        }
    }

    /// Moves to a fraction of the run so far.
    pub fn scrub_to<N: Elementary<V>>(&mut self, math: &N, current: u64, fraction: V) -> (r: Action<
        V,
    >)
        requires
            arithmetic::<V>(),
        ensures
            (*final(self), r) == old(self).scrubbed(math, current, fraction),
    {
        let zero = V::from(0u8);
        let one = V::from(1u8);
        let held = if fraction < zero {
            zero
        } else if one < fraction {
            one
        } else {
            fraction
        };
        let span: V = math.count(self.furthest);
        let target: u64 = math.nearest(held * span);
        if target == current {
            return Action::Nothing;
        }
        self.running = false;
        Action::Seek { target }
    }

    /// Jumps by one keyframe interval, within the run and for no more than one
    /// interval of replay. Where the keyframes do not hold so far back, it stops at
    /// the first they do hold.
    pub fn nudge(&mut self, timeline: &Timeline<V>, current: u64, forward: bool) -> (r: Action<V>)
        ensures
            *final(self) == (Control { running: false, ..*old(self) }),
            r == (Action::<V>::Seek {
                target: old(self).nudge_target(
                    *timeline,
                    current,
                    if forward {
                        1
                    } else {
                        -1
                    },
                ),
            }),
            r matches Action::Seek { target } && timeline.route(current, target).cost()
                <= KEYFRAME_INTERVAL,
    {
        self.running = false;
        let moved: u64 = if forward {
            if current <= u64::MAX - KEYFRAME_INTERVAL {
                current + KEYFRAME_INTERVAL
            } else {
                u64::MAX
            }
        } else if current >= KEYFRAME_INTERVAL {
            current - KEYFRAME_INTERVAL
        } else {
            0
        };
        let wanted: u64 = if moved > self.furthest {
            self.furthest
        } else {
            moved
        };
        let target: u64 = timeline.within_reach(current, wanted, KEYFRAME_INTERVAL);
        Action::Seek { target }
    }

    /// Answers a key, with the solver at step `current`.
    pub fn on_key<N: Elementary<V>>(
        &mut self,
        math: &N,
        key: Key,
        timeline: &Timeline<V>,
        current: u64,
    ) -> (r: Action<V>)
        requires
            arithmetic::<V>(),
        ensures
            (*final(self), r) == old(self).keyed(math, key, *timeline, current),
    {
        let zero = V::from(0u8);
        match key {
            Key::Escape => {
                return Action::Quit;
            },
            Key::Space => {
                self.running = !self.running;
            },
            Key::Reset => {
                self.furthest = 0;
                return Action::Reset;
            },
            Key::Logarithm => {
                self.settings.log_strength = if zero < self.settings.log_strength {
                    zero
                } else {
                    V::from(40u8)
                };
            },
            Key::Left => {
                self.steps_per_frame = if self.steps_per_frame <= 2 {
                    1
                } else {
                    self.steps_per_frame - 1
                };
            },
            Key::Right => {
                self.steps_per_frame = if self.steps_per_frame >= MOST_STEPS {
                    MOST_STEPS
                } else {
                    self.steps_per_frame + 1
                };
            },
            Key::Minus => {
                let step: V = math.decimal(13, 1);
                self.settings.gain = greater(self.settings.gain / step, math.decimal(1, 3));
            },
            Key::Equal => {
                let step: V = math.decimal(13, 1);
                self.settings.gain = lesser(self.settings.gain * step, math.count(10_000));
            },
            Key::BracketLeft => {
                return self.nudge(timeline, current, false);
            },
            Key::BracketRight => {
                return self.nudge(timeline, current, true);
            },
            Key::Home => {
                return self.scrub_to(math, current, zero);
            },
            Key::Mode { mode } => {
                self.settings.mode = mode;
            },
        }
        Action::Nothing
    }

    /// Answers the left button going down. `bar` is where along the scrub bar
    /// the pointer is, if it is on it.
    pub fn on_press<N: Elementary<V>>(&mut self, math: &N, current: u64, bar: Option<V>) -> (r:
        Action<V>)
        requires
            arithmetic::<V>(),
        ensures
            (*final(self), r) == old(self).pressed(math, current, bar),
    {
        self.dragging = true;
        if self.cursor.is_some() {
            match bar {
                Some(fraction) => {
                    self.scrubbing = true;
                    return self.scrub_to(math, current, fraction);
                },
                None => {
                    self.scrubbing = false;
                },
            }
        }
        Action::Nothing
    }

    /// Answers the left button coming up.
    pub fn on_release(&mut self)
        ensures
            *final(self) == (Control { dragging: false, scrubbing: false, ..*old(self) }),
    {
        self.dragging = false;
        self.scrubbing = false;
    }

    /// Answers the pointer moving. `fraction` is where along the width of the
    /// window it is.
    pub fn on_move<N: Numerics<V, W>>(
        &mut self,
        math: &N,
        current: u64,
        position: (W, W),
        fraction: V,
    ) -> (r: Action<V>)
        requires
            arithmetic::<V>(),
            arithmetic::<W>(),
        ensures
            (*final(self), r) == old(self).moved(math, current, position, fraction),
    {
        let mut action: Action<V> = Action::Nothing;
        if self.dragging && self.scrubbing {
            action = self.scrub_to(math, current, fraction);
        } else if self.dragging {
            if let Some(previous) = self.cursor {
                action = Action::Orbit {
                    right: math.narrow(position.0 - previous.0),
                    down: math.narrow(position.1 - previous.1),
                };
            }
        }
        self.cursor = Some(position);
        action
    }

    /// Solver steps the next frame runs.
    pub fn steps(&self) -> (r: u64)
        ensures
            r == if self.running {
                self.steps_per_frame as u64
            } else {
                0
            },
    {
        if self.running {
            self.steps_per_frame as u64
        } else {
            0
        }
    }

    /// Takes note of the step the solver stands at after a frame's steps.
    pub fn reached(&mut self, step: u64)
        ensures
            *final(self) == (Control {
                furthest: if step > old(self).furthest {
                    step
                } else {
                    old(self).furthest
                },
                ..*old(self)
            }),
    {
        if step > self.furthest {
            self.furthest = step;
        }
    }

    /// Where the playhead and the start of the keyframed window lie along the
    /// scrub bar, as fractions of the run.
    pub fn scrub_bar<N: Elementary<V>>(&self, math: &N, step: u64, earliest: Option<u64>) -> (r:
        ScrubBar<V>)
        requires
            arithmetic::<V>(),
        ensures
            ({
                let span = math.count_of(
                    if self.furthest == 0 {
                        1
                    } else {
                        self.furthest
                    },
                );
                &&& r.played == over(math.count_of(step), span)
                &&& r.window_start == over(
                    math.count_of(
                        match earliest {
                            Some(first) => first,
                            None => 0,
                        },
                    ),
                    span,
                )
            }),
            // Scrubbing to where the playhead stands goes nowhere.
            field::<V>() && (forall|n: u64| #[trigger] math.nearest_to(math.count_of(n)) == n)
                && math.count_of(0) == number::<V>(0) && self.furthest > 0 && below(
                number::<V>(0),
                math.count_of(self.furthest),
            ) && at_most(number::<V>(0), r.played) && at_most(r.played, number::<V>(1))
                ==> self.step_at(math, r.played) == step,
    {
        let span: V = math.count(
            if self.furthest == 0 {
                1
            } else {
                self.furthest
            },
        );
        let first: u64 = match earliest {
            Some(first) => first,
            None => 0,
        };
        let played: V = math.count(step);
        let start: V = math.count(first);
        proof {
            let part = over(math.count_of(step), math.count_of(self.furthest));
            if field::<V>() && (forall|n: u64| #[trigger]
                math.nearest_to(math.count_of(n)) == n) && math.count_of(0) == number::<V>(0)
                && self.furthest > 0 && below(number::<V>(0), math.count_of(self.furthest))
                && at_most(number::<V>(0), part) && at_most(part, number::<V>(1)) {
                the_bar_spans_the_run(math, *self, step);
            }
        }
        ScrubBar { played: played / span, window_start: start / span }
    }

    /// Takes note of a presented frame that ran `steps` steps in `elapsed`
    /// seconds.
    pub fn present<N: Elementary<V>>(&mut self, math: &N, steps: u64, elapsed: V)
        requires
            arithmetic::<V>(),
            old(self).presented < u64::MAX,
        ensures
            *final(self) == (Control {
                presented: (old(self).presented + 1) as u64,
                steps_per_second: plus(
                    old(self).steps_per_second,
                    times(
                        math.decimal_of(1, 1),
                        minus(
                            over(
                                math.count_of(steps),
                                greater_of(elapsed, math.decimal_of(1, 6)),
                            ),
                            old(self).steps_per_second,
                        ),
                    ),
                ),
                ..*old(self)
            }),
    {
        let seconds = greater(elapsed, math.decimal(1, 6));
        let count: V = math.count(steps);
        let rate = count / seconds;
        let tenth: V = math.decimal(1, 1);
        self.steps_per_second = self.steps_per_second + tenth * (rate - self.steps_per_second);
        self.presented = self.presented + 1;
    }

    /// Whether enough frames have been presented to quit.
    pub fn is_done(&self) -> (r: bool)
        ensures
            r == (self.exit_after matches Some(limit) && self.presented >= limit),
    {
        match self.exit_after {
            Some(limit) => self.presented >= limit,
            None => false,
        }
    }
}

/// Size of a drawable surface: never empty.
pub fn surface_size(width: u32, height: u32) -> (r: (u32, u32))
    ensures
        r.0 == if width == 0 {
            1
        } else {
            width
        },
        r.1 == if height == 0 {
            1
        } else {
            height
        },
{
    (
        if width == 0 {
            1
        } else {
            width
        },
        if height == 0 {
            1
        } else {
            height
        },
    )
}

/// Bytes of one captured frame, four to a pixel.
pub fn capture_bytes(width: u32, height: u32) -> (r: u64)
    requires
        width as int * height as int * 4 <= u64::MAX,
    ensures
        r == width as int * height as int * 4,
{
    assert(width as int * height as int >= 0) by (nonlinear_arith);
    width as u64 * height as u64 * 4
}

/// A nudge never leaves the part of the run that has been reached, pauses, and
/// never costs more than one interval of replay, whatever the keyframes hold.
pub proof fn nudging_is_cheap<V: Scalar, W: Scalar, N: Elementary<V>>(
    math: &N,
    control: Control<V, W>,
    key: Key,
    timeline: Timeline<V>,
    current: u64,
)
    requires
        key == Key::BracketLeft || key == Key::BracketRight,
        current <= control.furthest,
    ensures
        control.keyed(math, key, timeline, current).1 matches Action::Seek { target } && target
            <= control.furthest && timeline.route(current, target).cost() <= KEYFRAME_INTERVAL,
        !control.keyed(math, key, timeline, current).0.running,
        control.keyed(math, key, timeline, current).0.furthest == control.furthest,
{
    let way: int = if key == Key::BracketLeft {
        -1
    } else {
        1
    };
    let wanted = nudged(current, control.furthest, way);
    lemma_reach_is_cheap(timeline, current, wanted, KEYFRAME_INTERVAL);
    lemma_reach_lies_between(timeline, current, wanted, KEYFRAME_INTERVAL);
}

/// Forward always, and backward within a window without gaps, a nudge moves exactly
/// one interval, kept within the run.
pub proof fn nudges_move_an_interval<V: Scalar, W: Scalar>(
    control: Control<V, W>,
    timeline: Timeline<V>,
    current: u64,
)
    requires
        current <= control.furthest,
        timeline.valid(),
        timeline.interval == KEYFRAME_INTERVAL,
    ensures
        control.nudge_target(timeline, current, 1) == nudged(current, control.furthest, 1),
        consecutive(timeline) && timeline.keyframes@.len() > 0 && timeline.keyframes@[0].step
            <= nudged(current, control.furthest, -1) && current
            < timeline.keyframes@.last().step + timeline.interval ==> control.nudge_target(
            timeline,
            current,
            -1,
        ) == nudged(current, control.furthest, -1),
{
    let back = nudged(current, control.furthest, -1);
    if consecutive(timeline) && timeline.keyframes@.len() > 0 && timeline.keyframes@[0].step
        <= back && current < timeline.keyframes@.last().step + timeline.interval && back
        < current {
        scrubbing_replays_less_than_an_interval(timeline, current, back);
    }
}

/// The number of steps per frame stays within its limits, whatever keys are
/// pressed.
pub proof fn steps_per_frame_stay_bounded<V: Scalar, W: Scalar, N: Elementary<V>>(
    math: &N,
    control: Control<V, W>,
    key: Key,
    timeline: Timeline<V>,
    current: u64,
)
    requires
        1 <= control.steps_per_frame <= MOST_STEPS,
    ensures
        1 <= control.keyed(math, key, timeline, current).0.steps_per_frame <= MOST_STEPS,
{
}

/// A gesture keeps its kind until the button comes up: while it is held, moving
/// the pointer never turns a scrub into an orbit or the other way round.
pub proof fn gestures_keep_their_kind<V: Scalar, W: Scalar, N: Numerics<V, W>>(
    math: &N,
    control: Control<V, W>,
    current: u64,
    position: (W, W),
    fraction: V,
)
    ensures
        control.moved(math, current, position, fraction).0.dragging == control.dragging,
        control.moved(math, current, position, fraction).0.scrubbing == control.scrubbing,
        control.scrubbing ==> !(control.moved(math, current, position, fraction).1 is Orbit),
        !control.scrubbing ==> !(control.moved(math, current, position, fraction).1 is Seek),
{
}

/// Scrubbing to where the playhead stands goes nowhere, and the ends of the bar are
/// the start of the run and the furthest it has got: where whole numbers are their own
/// nearest and a quotient undoes a product.
pub proof fn the_bar_spans_the_run<V: Scalar, W: Scalar, N: Elementary<V>>(
    math: &N,
    control: Control<V, W>,
    step: u64,
)
    requires
        field::<V>(),
        forall|n: u64| #[trigger] math.nearest_to(math.count_of(n)) == n,
        math.count_of(0) == number::<V>(0),
        below(number::<V>(0), math.count_of(control.furthest)),
        at_most(number::<V>(0), over(math.count_of(step), math.count_of(control.furthest))),
        at_most(over(math.count_of(step), math.count_of(control.furthest)), number::<V>(1)),
    ensures
        control.step_at(
            math,
            over(math.count_of(step), math.count_of(control.furthest)),
        ) == step,
        control.step_at(math, number::<V>(0)) == 0,
        control.step_at(math, number::<V>(1)) == control.furthest,
{
    let (zero, one) = (number::<V>(0), number::<V>(1));
    let (here, far) = (math.count_of(step), math.count_of(control.furthest));
    let part = over(here, far);
    parts(here, far);
    parts(far, far);
    multiply_by_nothing(far);
    below_through(zero, one, one);
    below_through(zero, zero, zero);
    below_through(one, one, one);
    one_way_or_the_other(zero, part);
    one_way_or_the_other(part, one);
    one_way_or_the_other(zero, one);
}

/// The two arrows undo each other inside their limits, and so do the two brightness
/// keys, where a quotient undoes a product.
pub proof fn opposite_keys_undo_each_other<V: Scalar, W: Scalar, N: Elementary<V>>(
    math: &N,
    control: Control<V, W>,
    timeline: Timeline<V>,
    current: u64,
)
    requires
        field::<V>(),
        below(number::<V>(0), math.decimal_of(13, 1)),
        1 <= control.steps_per_frame < MOST_STEPS,
        ({
            let brighter = times(control.settings.gain, math.decimal_of(13, 1));
            at_most(brighter, math.count_of(10_000))
        }),
        at_most(math.decimal_of(1, 3), control.settings.gain),
    ensures
        control.keyed(math, Key::Right, timeline, current).0.keyed(
            math,
            Key::Left,
            timeline,
            current,
        ).0 == control,
        control.keyed(math, Key::Equal, timeline, current).0.keyed(
            math,
            Key::Minus,
            timeline,
            current,
        ).0 == control,
        control.keyed(math, Key::Right, timeline, current).0.steps_per_frame
            == control.steps_per_frame + 1,
{
    let factor = math.decimal_of(13, 1);
    let gain = control.settings.gain;
    let brighter = times(gain, factor);
    parts(brighter, factor);
    factors_come_off(over(brighter, factor), gain, factor);
    reveal(ordered);
    one_way_or_the_other(brighter, math.count_of(10_000));
    one_way_or_the_other(math.decimal_of(1, 3), gain);
    one_way_or_the_other(gain, math.decimal_of(1, 3));
}

} // verus!
