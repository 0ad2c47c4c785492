//! The command line of the windowed viewer.

use crate::common::{
    is_shared, is_shared_flag, missing_value, unknown_flag, Common, Shared, COMMON_HELP,
};
use crate::numerics::Elementary;
use crate::options::{texts, Complaint, Reason, Refusal, Verdict};
use crate::scalar::{arithmetic, Scalar};
use crate::text::{read_whole, same_text, whole_number};
use vstd::prelude::*;

verus! {

/// What the keys do.
pub const KEYS: &'static str = "KEYS
    space          pause / resume
    R              reset the fields
    left / right   solver steps per frame
    1 2 3 4        energy split / Ez / Hz / total energy
    L              toggle signed-log scaling
    - / =          brightness
    [ / ]          scrub back / forward one keyframe interval
    home           scrub to the start
    drag           orbit, or scrub when the pointer is on the bar
    scroll         zoom
    escape         quit

The bar along the bottom is the timeline. The lighter span is what keyframes
cover and can be scrubbed to instantly; dragging outside it replays from the
start, which is slower but always available -- the state here is a pure
function of the step number, so a replayed step is the step.
";

/// How the help text starts.
pub const HELP_HEAD: &'static str = "diaphane-viz — watch a 3D electromagnetic field evolve

USAGE:
    diaphane-viz [OPTIONS]

OPTIONS:
";

/// What only this program takes.
pub const HELP_OWN: &'static str = "    --exit-after <FRAMES>         present this many frames, then quit

";

/// How the help text ends.
pub const HELP_TAIL: &'static str = "
Use `diaphane-render` to write PNGs instead, on a machine with no display.
";

/// The help text: the viewer's own flag after the shared ones, then the keys.
pub open spec fn help_text() -> Seq<char> {
    HELP_HEAD@ + COMMON_HELP@ + HELP_OWN@ + KEYS@ + HELP_TAIL@
}

/// The help text.
pub fn help() -> (r: String)
    ensures
        r@ == help_text(),
{
    let mut out: String = HELP_HEAD.to_owned();
    out.append(COMMON_HELP);
    out.append(HELP_OWN);
    out.append(KEYS);
    out.append(HELP_TAIL);
    out
}

/// Flags for the viewer, on top of the shared ones.
#[derive(Debug)]
pub struct Options<V> {
    pub common: Common<V>,
    /// Present this many frames and quit.
    pub exit_after: Option<u64>,
}

/// What [`Options`] hold.
pub struct Choices<V> {
    pub common: Shared<V>,
    pub exit_after: Option<u64>,
}

impl<V> View for Options<V> {
    type V = Choices<V>;

    open spec fn view(&self) -> Choices<V> {
        Choices { common: self.common@, exit_after: self.exit_after }
    }
}

/// What a command line comes to.
#[derive(Debug)]
pub enum Parsed<V> {
    /// Run with these options.
    Run { options: Options<V> },
    /// Print the help text and stop.
    Help,
    /// Refuse.
    Refused { complaint: Complaint },
}

impl<V> View for Parsed<V> {
    type V = Verdict<Choices<V>>;

    open spec fn view(&self) -> Verdict<Choices<V>> {
        match *self {
            Parsed::Run { options } => Verdict::Run { choices: options@ },
            Parsed::Help => Verdict::Help,
            Parsed::Refused { complaint } => Verdict::Refused { refusal: complaint@ },
        }
    }
}

impl<V: Scalar> Choices<V> {
    /// What the options are before any flag.
    pub open spec fn initial() -> Choices<V> {
        Choices { common: Shared::initial(), exit_after: None }
    }

    /// What the arguments from the `k`-th on make of the options so far.
    pub open spec fn parsed<N: Elementary<V>>(
        self,
        math: &N,
        args: Seq<Seq<char>>,
        k: int,
    ) -> Verdict<Choices<V>>
        decreases args.len() - k,
    {
        if k >= args.len() {
            Verdict::Run { choices: self }
        } else if args[k] == "-h"@ || args[k] == "--help"@ {
            Verdict::Help
        } else if !(is_shared(args[k]) || args[k] == "--exit-after"@) {
            Verdict::Refused {
                refusal: Refusal {
                    reason: Reason::UnknownFlag,
                    flag: args[k],
                    text: Seq::empty(),
                },
            }
        } else if k + 1 >= args.len() {
            Verdict::Refused {
                refusal: Refusal {
                    reason: Reason::NeedsValue,
                    flag: args[k],
                    text: Seq::empty(),
                },
            }
        } else if is_shared(args[k]) {
            match self.common.with(math, args[k], args[k + 1]) {
                Err(refusal) => Verdict::Refused { refusal },
                Ok(common) => (Choices { common, ..self }).parsed(math, args, k + 2),
            }
        } else {
            match whole_number(args[k + 1], u64::MAX as nat) {
                None => Verdict::Refused {
                    refusal: Refusal {
                        reason: Reason::Unreadable,
                        flag: args[k],
                        text: args[k + 1],
                    },
                },
                Some(limit) => (Choices { exit_after: Some(limit as u64), ..self }).parsed(
                    math,
                    args,
                    k + 2,
                ),
            }
        }
    }
}

/// Reads a command line, without the program's own name.
pub fn parse<V: Scalar, N: Elementary<V>>(math: &N, args: &Vec<String>) -> (r: Parsed<V>)
    requires
        arithmetic::<V>(),
    ensures
        r@ == Choices::<V>::initial().parsed(math, texts(args@), 0),
{
    let mut options = Options::<V> { common: Common::initial(), exit_after: None };
    let ghost all = texts(args@);
    let mut k: usize = 0;
    while k < args.len()
        invariant
            k <= args@.len(),
            all == texts(args@),
            options@.parsed(math, all, k as int) == Choices::<V>::initial().parsed(math, all, 0),
        decreases args@.len() - k,
    {
        let flag: &str = args[k].as_str();
        assert(all[k as int] == flag@);
        if same_text(flag, "-h") || same_text(flag, "--help") {
            return Parsed::Help;
        }
        if !(is_shared_flag(flag) || same_text(flag, "--exit-after")) {
            return Parsed::Refused { complaint: unknown_flag(flag) };
        }
        if k + 1 >= args.len() {
            return Parsed::Refused { complaint: missing_value(flag) };
        }
        let value = &args[k + 1];
        assert(all[k + 1] == value@);
        if is_shared_flag(flag) {
            if let Err(complaint) = options.common.accept(math, flag, Some(value)) {
                return Parsed::Refused { complaint };
            }
        } else {
            match read_whole(value.as_str(), u64::MAX) {
                Some(limit) => {
                    options.exit_after = Some(limit);
                },
                None => {
                    return Parsed::Refused {
                        complaint: Complaint::new(Reason::Unreadable, flag, value.as_str()),
                    };
                },
            }
        }
        k = k + 2;
    }
    Parsed::Run { options }
}

} // verus!
