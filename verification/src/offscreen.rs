//! The command line of the offscreen renderer.

use crate::common::{
    is_shared, is_shared_flag, missing_value, unknown_flag, Common, Shared, COMMON_HELP,
};
use crate::numerics::Elementary;
use crate::options::{
    number_or_refusal, read_u32, texts, Complaint, Reason, Refusal, Verdict,
};
use crate::scalar::{arithmetic, Scalar};
use crate::text::same_text;
use vstd::prelude::*;

verus! {

/// Flags for the offscreen renderer, on top of the shared ones.
#[derive(Debug)]
pub struct Options<V> {
    pub common: Common<V>,
    pub frames: u32,
    pub output_dir: String,
    /// Where to write the resolved scene, instead of rendering it.
    pub save_scene: Option<String>,
    /// Draw the scrub bar into the frames too.
    pub timeline: bool,
}

/// What [`Options`] hold.
pub struct Choices<V> {
    pub common: Shared<V>,
    pub frames: u32,
    pub output_dir: Seq<char>,
    pub save_scene: Option<Seq<char>>,
    pub timeline: bool,
}

impl<V> View for Options<V> {
    type V = Choices<V>;

    open spec fn view(&self) -> Choices<V> {
        Choices {
            common: self.common@,
            frames: self.frames,
            output_dir: self.output_dir@,
            save_scene: match self.save_scene {
                Some(path) => Some(path@),
                None => None,
            },
            timeline: self.timeline,
        }
    }
}

/// What a command line comes to.
#[derive(Debug)]
pub enum Parsed<V> {
    /// Run with these options.
    Run { options: Options<V> },
    /// Print the help text and stop.
    Help,
    /// Refuse.
    Refused { complaint: Complaint },
}

impl<V> View for Parsed<V> {
    type V = Verdict<Choices<V>>;

    open spec fn view(&self) -> Verdict<Choices<V>> {
        match *self {
            Parsed::Run { options } => Verdict::Run { choices: options@ },
            Parsed::Help => Verdict::Help,
            Parsed::Refused { complaint } => Verdict::Refused { refusal: complaint@ },
        }
    }
}

impl<V: Scalar> Choices<V> {
    /// What the options are before any flag.
    pub open spec fn initial() -> Choices<V> {
        Choices {
            common: Shared::initial(),
            frames: 1,
            output_dir: "frames"@,
            save_scene: None,
            timeline: false,
        }
    }

    /// What the arguments from the `k`-th on make of the options so far.
    pub open spec fn parsed<N: Elementary<V>>(
        self,
        math: &N,
        args: Seq<Seq<char>>,
        k: int,
    ) -> Verdict<Choices<V>>
        decreases args.len() - k,
    {
        if k >= args.len() {
            Verdict::Run { choices: self }
        } else if args[k] == "-h"@ || args[k] == "--help"@ {
            Verdict::Help
        } else if args[k] == "--timeline"@ {
            (Choices { timeline: true, ..self }).parsed(math, args, k + 1)
        } else if !(is_shared(args[k]) || args[k] == "--frames"@ || args[k] == "--output-dir"@
            || args[k] == "--save-scene"@) {
            Verdict::Refused {
                refusal: Refusal {
                    reason: Reason::UnknownFlag,
                    flag: args[k],
                    text: Seq::empty(),
                },
            }
        } else if k + 1 >= args.len() {
            Verdict::Refused {
                refusal: Refusal {
                    reason: Reason::NeedsValue,
                    flag: args[k],
                    text: Seq::empty(),
                },
            }
        } else if is_shared(args[k]) {
            match self.common.with(math, args[k], args[k + 1]) {
                Err(refusal) => Verdict::Refused { refusal },
                Ok(common) => (Choices { common, ..self }).parsed(math, args, k + 2),
            }
        } else if args[k] == "--frames"@ {
            match number_or_refusal(args[k], args[k + 1]) {
                Err(refusal) => Verdict::Refused { refusal },
                Ok(frames) => (Choices { frames, ..self }).parsed(math, args, k + 2),
            }
        } else if args[k] == "--output-dir"@ {
            (Choices { output_dir: args[k + 1], ..self }).parsed(math, args, k + 2)
        } else {
            (Choices { save_scene: Some(args[k + 1]), ..self }).parsed(math, args, k + 2)
        }
    }
}

/// How the help text starts.
pub const HELP_HEAD: &'static str = "diaphane-render — render a 3D electromagnetic field to PNG files

USAGE:
    diaphane-render [OPTIONS]

OPTIONS:
";

/// How the help text ends: what only this program takes.
pub const HELP_TAIL: &'static str = "    --frames <N>                  how many frames to write   [default: 1]
    --output-dir <PATH>           where the PNGs go          [default: frames]
    --save-scene <PATH>           write the scene out and exit
    --timeline                    draw the scrub bar into the frames

Needs no window system, so this is what CI runs.
";

/// The help text: the renderer's own flags after the shared ones.
pub open spec fn help_text() -> Seq<char> {
    HELP_HEAD@ + COMMON_HELP@ + HELP_TAIL@
}

/// The help text.
pub fn help() -> (r: String)
    ensures
        r@ == help_text(),
{
    let mut out: String = HELP_HEAD.to_owned();
    out.append(COMMON_HELP);
    out.append(HELP_TAIL);
    out
}

impl<V: Scalar> Options<V> {
    /// What the options are before any flag.
    pub fn initial() -> (r: Self)
        requires
            arithmetic::<V>(),
        ensures
            r@ == Choices::<V>::initial(),
    {
        Options {
            common: Common::initial(),
            frames: 1,
            output_dir: "frames".to_owned(),
            save_scene: None,
            timeline: false,
        }
    }
}

/// Reads a command line, without the program's own name.
pub fn parse<V: Scalar, N: Elementary<V>>(math: &N, args: &Vec<String>) -> (r: Parsed<V>)
    requires
        arithmetic::<V>(),
    ensures
        r@ == Choices::<V>::initial().parsed(math, texts(args@), 0),
{
    let mut options = Options::<V>::initial();
    let ghost all = texts(args@);
    let mut k: usize = 0;
    while k < args.len()
        invariant
            k <= args@.len(),
            all == texts(args@),
            options@.parsed(math, all, k as int) == Choices::<V>::initial().parsed(math, all, 0),
        decreases args@.len() - k,
    {
        let flag: &str = args[k].as_str();
        let ghost before = options@;
        assert(all[k as int] == flag@);
        if same_text(flag, "-h") || same_text(flag, "--help") {
            return Parsed::Help;
        }
        if same_text(flag, "--timeline") {
            options.timeline = true;
            k = k + 1;
            continue ;
        }
        if !(is_shared_flag(flag) || same_text(flag, "--frames") || same_text(flag, "--output-dir")
            || same_text(flag, "--save-scene")) {
            return Parsed::Refused { complaint: unknown_flag(flag) };
        }
        if k + 1 >= args.len() {
            return Parsed::Refused { complaint: missing_value(flag) };
        }
        let value = &args[k + 1];
        assert(all[k + 1] == value@);
        if is_shared_flag(flag) {
            if let Err(complaint) = options.common.accept(math, flag, Some(value)) {
                return Parsed::Refused { complaint };
            }
        } else if same_text(flag, "--frames") {
            match read_u32(flag, value.as_str()) {
                Ok(frames) => {
                    options.frames = frames;
                },
                Err(complaint) => {
                    return Parsed::Refused { complaint };
                },
            }
        } else if same_text(flag, "--output-dir") {
            options.output_dir = value.clone();
        } else {
            options.save_scene = Some(value.clone());
        }
        k = k + 2;
    }
    Parsed::Run { options }
}

} // verus!
