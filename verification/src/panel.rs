//! The window with a control panel.
//!
//! The panel records what it was asked for and acts on none of it; what the requests
//! come to is decided here, in one place and in a fixed order, so that a slider that
//! moved and a solver that stepped cannot interleave differently from widget to
//! widget. The keyboard shadows the panel.

use crate::common::COMMON_HELP;
use crate::control::{Action, Control, Key};
use crate::numerics::{Elementary, Numerics};
use crate::scalar::{arithmetic, greater, greater_of, number, over, times, Scalar};
use crate::timeline::Timeline;
use crate::view::{ViewMode, ViewSettings};
use vstd::prelude::*;

verus! {

/// What the scrub window is allowed to cost, in bytes.
///
/// A keyframe is 24 bytes per cell, so a fixed *count* is a budget that scales with
/// the domain. Fixing the bytes instead makes a big domain get a shorter window
/// rather than a bigger bill.
pub const KEYFRAME_BUDGET: usize = 0x600_0000;

/// Most keyframes kept, however small the domain.
pub const MOST_KEYFRAMES: usize = 32;

/// Bytes of one keyframe per cell: six components of four bytes.
pub const BYTES_PER_CELL: usize = 24;

/// How many keyframes the budget pays for: at least one, because one keyframe still
/// means the scrub bar works.
pub open spec fn affordable(cells: usize) -> usize {
    let bytes = if cells == 0 {
        1
    } else {
        cells * BYTES_PER_CELL
    };
    let count = KEYFRAME_BUDGET as int / bytes;
    if count < 1 {
        1
    } else if count > MOST_KEYFRAMES {
        MOST_KEYFRAMES
    } else {
        count as usize
    }
}

/// How many keyframes of a domain are kept.
pub fn keyframe_capacity(cells: usize) -> (r: usize)
    requires
        cells * BYTES_PER_CELL <= usize::MAX,
    ensures
        r == affordable(cells),
{
    let bytes: usize = if cells == 0 {
        1
    } else {
        cells * BYTES_PER_CELL
    };
    let count: usize = KEYFRAME_BUDGET / bytes;
    if count < 1 {
        1
    } else if count > MOST_KEYFRAMES {
        MOST_KEYFRAMES
    } else {
        count
    }
}

/// There is always a keyframe to keep, and the window never costs more than its
/// budget unless a single keyframe does.
pub proof fn windows_keep_to_their_budget(cells: usize)
    ensures
        1 <= affordable(cells) <= MOST_KEYFRAMES,
        affordable(cells) > 1 ==> affordable(cells) * (cells * BYTES_PER_CELL) <= KEYFRAME_BUDGET,
{
    let bytes = cells * BYTES_PER_CELL;
    let budget = KEYFRAME_BUDGET as int;
    let kept = affordable(cells) as int;
    if cells > 0 && kept > 1 {
        let count = budget / bytes;
        vstd::arithmetic::div_mod::lemma_fundamental_div_mod(budget, bytes);
        assert(kept * bytes <= count * bytes) by (nonlinear_arith)
            requires
                kept <= count,
                bytes >= 0,
        ;
        assert(count * bytes == bytes * count) by (nonlinear_arith);
    } else if cells == 0 {
        assert(kept * 0 == 0);
    }
}

/// What the keys do.
pub const KEYS: &'static str = "The panel along the bottom has the transport, the scrub slider, the view mode
and the numbers. The keyboard shadows it, for the things worth doing without
aiming:

    space          pause / resume
    R              reset the fields
    left / right   solver steps per frame
    1..7           E+H / energy / E / H / total / the grid / ribbons
    L              toggle signed-log scaling
    - / =          brightness
    [ / ]          scrub back / forward one keyframe interval
    home           scrub to the start
    drag           orbit
    scroll         zoom
    escape         quit

Scrubbing inside the keyframed span restores a snapshot; outside it the run
replays from the start, which is slower and always correct -- the state is a
pure function of the step number, so a replayed step is the step. Stepping
*backwards* is that same replay: the GPU solver only runs forwards.
";

/// How the help text starts.
pub const HELP_HEAD: &'static str = "cargo viz — watch a 3D electromagnetic field evolve

USAGE:
    cargo viz [OPTIONS]

OPTIONS:
";

/// What only this window takes.
pub const HELP_OWN: &'static str = "    --exit-after <FRAMES>         present this many frames, then quit
                                  (--steps 0 opens the window paused)

";

/// How the help text ends.
pub const HELP_TAIL: &'static str = "
Use `cargo render` to write PNGs instead, on a machine with no display.
";

/// The help text: the window's own flag after the shared ones, then the keys.
pub open spec fn help_text() -> Seq<char> {
    HELP_HEAD@ + COMMON_HELP@ + HELP_OWN@ + KEYS@ + HELP_TAIL@
}

/// The help text.
pub fn help() -> (r: String)
    ensures
        r@ == help_text(),
{
    let mut out: String = HELP_HEAD.to_owned();
    out.append(COMMON_HELP);
    out.append(HELP_OWN);
    out.append(KEYS);
    out.append(HELP_TAIL);
    out
}

/// What the panel asks for.
#[derive(Clone, Copy, Debug, Eq, PartialEq, Structural)]
pub struct Commands {
    pub toggle_running: bool,
    pub reset: bool,
    /// Steps to move, signed. Backwards goes through the timeline.
    pub step_by: i64,
    /// Absolute step to seek to, from the scrub slider.
    pub seek: Option<u64>,
    pub steps_per_frame: Option<u32>,
}

impl Commands {
    /// Nothing asked for.
    pub open spec fn none() -> Commands {
        Commands {
            toggle_running: false,
            reset: false,
            step_by: 0,
            seek: None,
            steps_per_frame: None,
        }
    }
}

impl Default for Commands {
    fn default() -> (r: Self)
        ensures
            r == Commands::none(),
    {
        Commands {
            toggle_running: false,
            reset: false,
            step_by: 0,
            seek: None,
            steps_per_frame: None,
        }
    }
}

/// What is to be done with the solver: first a reset, if there is to be one, then a
/// move.
#[derive(Clone, Copy, Debug, Eq, PartialEq, Structural)]
pub struct Orders {
    /// Clear the fields and forget every keyframe.
    pub reset: bool,
    /// Move the solver to a step, and record a keyframe there if one is due.
    pub target: Option<u64>,
}

/// A step moved by a signed number of steps, as far as steps go.
pub open spec fn stepped(current: u64, by: i64) -> u64 {
    let target = current + by;
    if target < 0 {
        0
    } else if target > u64::MAX {
        u64::MAX
    } else {
        target as u64
    }
}

/// A step moved by a signed number of steps, as far as steps go.
fn step_from(current: u64, by: i64) -> (r: u64)
    ensures
        r == stepped(current, by),
{
    let sum: i128 = current as i128 + by as i128;
    if sum < 0 {
        0
    } else if sum > u64::MAX as i128 {
        u64::MAX
    } else {
        sum as u64
    }
}

/// What the panel displays. Sampled once per frame, before any of it moves.
#[derive(Clone, Copy, Debug, PartialEq)]
pub struct Readout<V, W> {
    pub step: u64,
    pub furthest: u64,
    /// First step the keyframe window can reach instantly.
    pub window_start: u64,
    /// Simulated time, in seconds.
    pub time: V,
    pub steps_per_second: V,
    pub gigabytes_per_second: W,
    pub frame_milliseconds: V,
    pub keyframes: usize,
    pub keyframe_megabytes: W,
    pub running: bool,
    pub steps_per_frame: u32,
}

/// What a frame's readout is taken from.
#[derive(Clone, Copy, Debug, PartialEq)]
pub struct Sample<V> {
    pub step: u64,
    pub earliest: Option<u64>,
    pub time: V,
    /// Seconds since the last frame.
    pub elapsed: V,
    pub bytes_per_step: u64,
    pub keyframes: usize,
    pub keyframe_bytes: u64,
}

impl<V: Scalar, W: Scalar> Readout<V, W> {
    /// The last step of the scrub slider: never zero, so that it has some length.
    pub open spec fn span(self) -> u64 {
        if self.furthest == 0 {
            1
        } else {
            self.furthest
        }
    }

    /// How much of the run so far is cheap to reach, in percent.
    pub fn covered<N: Elementary<V>>(&self, math: &N) -> (r: V)
        requires
            arithmetic::<V>(),
            self.window_start <= self.span(),
        ensures
            r == over(
                times(
                    number::<V>(100),
                    math.count_of((self.span() - self.window_start) as u64),
                ),
                math.count_of(self.span()),
            ),
    {
        let furthest: u64 = if self.furthest == 0 {
            1
        } else {
            self.furthest
        };
        let inside: V = math.count(furthest - self.window_start);
        let whole: V = math.count(furthest);
        V::from(100u8) * inside / whole
    }
}

impl<V: Scalar, W: Scalar> Control<V, W> {
    /// Asking for no steps per frame reads as opening the window paused.
    pub fn with_panel(
        steps_per_frame: u32,
        settings: ViewSettings<V>,
        exit_after: Option<u64>,
    ) -> (r: Self)
        requires
            arithmetic::<V>(),
        ensures
            r == (Control::<V, W> {
                running: steps_per_frame > 0,
                steps_per_frame: if steps_per_frame == 0 {
                    1
                } else {
                    steps_per_frame
                },
                settings,
                furthest: 0,
                dragging: false,
                scrubbing: false,
                cursor: None,
                presented: 0,
                exit_after,
                steps_per_second: number(0),
            }),
    {
        let per_frame: u32 = if steps_per_frame == 0 {
            1
        } else {
            steps_per_frame
        };
        let mut control = Self::new(per_frame, settings, exit_after);
        control.running = steps_per_frame > 0;
        control
    }

    /// What a key does beside the panel: a reset pauses too, as the panel's own
    /// does, and the compression comes back at the strength it had.
    pub open spec fn shadowed<N: Elementary<V>>(
        self,
        math: &N,
        key: Key,
        timeline: Timeline<V>,
        current: u64,
    ) -> (Control<V, W>, Action<V>) {
        match key {
            Key::Reset => (Control { furthest: 0, running: false, ..self }, Action::Reset),
            Key::Logarithm => (
                Control { settings: self.settings.log_toggled(), ..self },
                Action::Nothing,
            ),
            _ => self.keyed(math, key, timeline, current),
        }
    }

    /// Answers a key beside the panel, with the solver at step `current`.
    pub fn on_shadow_key<N: Elementary<V>>(
        &mut self,
        math: &N,
        key: Key,
        timeline: &Timeline<V>,
        current: u64,
    ) -> (r: Action<V>)
        requires
            arithmetic::<V>(),
        ensures
            (*final(self), r) == old(self).shadowed(math, key, *timeline, current),
    {
        match key {
            Key::Reset => {
                self.furthest = 0;
                self.running = false;
                Action::Reset
            },
            Key::Logarithm => {
                self.settings.toggle_log();
                Action::Nothing
            },
            _ => self.on_key(math, key, timeline, current),
        }
    }

    /// Answers the left button going down or coming up. A press that gets past the
    /// panel is on the volume, and over the volume a drag turns it.
    pub fn on_grab(&mut self, pressed: bool)
        ensures
            *final(self) == (Control { dragging: pressed, ..*old(self) }),
    {
        self.dragging = pressed;
    }

    /// What the panel's requests come to, with the solver at step `current`.
    ///
    /// Any move on the timeline pauses. Stepping is not held to the furthest step
    /// reached: at the head of the run, stepping forward means advancing the solver.
    pub open spec fn commanded(self, commands: Commands, current: u64) -> (Control<V, W>, Orders) {
        let at = if commands.reset {
            0
        } else {
            current
        };
        let wanted = match commands.seek {
            Some(target) => target,
            None => stepped(at, commands.step_by),
        };
        let running = if commands.toggle_running {
            !self.running
        } else {
            self.running
        };
        (
            Control {
                running: running && !commands.reset && wanted == at,
                steps_per_frame: match commands.steps_per_frame {
                    Some(per_frame) => per_frame,
                    None => self.steps_per_frame,
                },
                furthest: if commands.reset {
                    0
                } else {
                    self.furthest
                },
                ..self
            },
            Orders {
                reset: commands.reset,
                target: if wanted == at {
                    None
                } else {
                    Some(wanted)
                },
            },
        )
    }

    /// Takes the panel's requests, with the solver at step `current`.
    pub fn on_commands(&mut self, commands: &Commands, current: u64) -> (r: Orders)
        ensures
            (*final(self), r) == old(self).commanded(*commands, current),
    {
        let mut at: u64 = current;
        if commands.toggle_running {
            self.running = !self.running;
        }
        if let Some(per_frame) = commands.steps_per_frame {
            self.steps_per_frame = per_frame;
        }
        if commands.reset {
            self.furthest = 0;
            self.running = false;
            at = 0;
        }
        let wanted: u64 = match commands.seek {
            Some(target) => target,
            None => step_from(at, commands.step_by),
        };
        if wanted == at {
            return Orders { reset: commands.reset, target: None };
        }
        self.running = false;
        Orders { reset: commands.reset, target: Some(wanted) }
    }

    /// What the panel displays of a frame.
    pub fn readout<N: Numerics<V, W>>(&self, math: &N, sample: &Sample<V>) -> (r: Readout<V, W>)
        requires
            arithmetic::<V>(),
            arithmetic::<W>(),
        ensures
            r == (Readout::<V, W> {
                step: sample.step,
                furthest: self.furthest,
                window_start: match sample.earliest {
                    Some(first) => first,
                    None => 0,
                },
                time: sample.time,
                steps_per_second: self.steps_per_second,
                gigabytes_per_second: over(
                    times(math.wide(self.steps_per_second), math.count_of(sample.bytes_per_step)),
                    math.count_of(1_000_000_000),
                ),
                frame_milliseconds: times(
                    greater_of(sample.elapsed, math.decimal_of(1, 6)),
                    math.count_of(1000),
                ),
                keyframes: sample.keyframes,
                keyframe_megabytes: over(
                    math.count_of(sample.keyframe_bytes),
                    math.count_of(1_000_000),
                ),
                running: self.running,
                steps_per_frame: self.steps_per_frame,
            }),
    {
        let window_start: u64 = match sample.earliest {
            Some(first) => first,
            None => 0,
        };
        let rate: W = math.widen(self.steps_per_second);
        let per_step: W = math.count(sample.bytes_per_step);
        let giga: W = math.count(1_000_000_000);
        let held: W = math.count(sample.keyframe_bytes);
        let mega: W = math.count(1_000_000);
        let thousand: V = math.count(1000);
        let seconds: V = greater(sample.elapsed, math.decimal(1, 6));
        Readout {
            step: sample.step,
            furthest: self.furthest,
            window_start,
            time: sample.time,
            steps_per_second: self.steps_per_second,
            gigabytes_per_second: rate * per_step / giga,
            frame_milliseconds: seconds * thousand,
            keyframes: sample.keyframes,
            keyframe_megabytes: held / mega,
            running: self.running,
            steps_per_frame: self.steps_per_frame,
        }
    }
}

/// The mode a number key stands for beside the panel, counted from one.
pub fn mode_of_digit(digit: u8) -> (r: Option<ViewMode>)
    ensures
        r == if 1 <= digit <= 7 {
            Some(ViewMode::PANEL@[digit - 1])
        } else {
            None
        },
{
    if 1 <= digit && digit <= 7 {
        let modes = ViewMode::PANEL;
        Some(modes[digit as usize - 1])
    } else {
        None
    }
}

/// A reset is a reset, whichever way it is asked for: the key and the panel leave
/// the window alike.
pub proof fn resets_agree<V: Scalar, W: Scalar, N: Elementary<V>>(
    math: &N,
    control: Control<V, W>,
    timeline: Timeline<V>,
    current: u64,
)
    ensures
        ({
            let (keyed, action) = control.shadowed(math, Key::Reset, timeline, current);
            let (asked, orders) = control.commanded(
                Commands { reset: true, ..Commands::none() },
                current,
            );
            &&& keyed == asked
            &&& !keyed.running && keyed.furthest == 0
            &&& action == Action::<V>::Reset
            &&& orders == Orders { reset: true, target: None }
        }),
{
}

/// Moving on the timeline pauses, and asking for nothing changes nothing.
pub proof fn moving_pauses<V: Scalar, W: Scalar>(
    control: Control<V, W>,
    commands: Commands,
    current: u64,
)
    ensures
        control.commanded(commands, current).1.target is Some ==> !control.commanded(
            commands,
            current,
        ).0.running,
        control.commanded(Commands::none(), current) == (
            control,
            Orders { reset: false, target: None },
        ),
{
}

} // verus!
