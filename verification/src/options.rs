//! The command line of the one-program viewer.

use crate::grid::Extent;
use crate::numerics::{Elementary, Numerics};
use crate::presets::preset_cell_size;
use crate::scalar::{arithmetic, Scalar};
use crate::scene::Scene;
use crate::spacing::admissible;
use crate::text::{cut, find_cut, read_whole, same_text, whole_number};
use crate::view::{ViewMode, ViewSettings};
use vstd::prelude::*;

verus! {

/// A built-in scene.
#[derive(Clone, Copy, Debug, Eq, PartialEq, Structural)]
pub enum SceneKind {
    Photon,
    Cavity,
    Slab,
}

impl SceneKind {
    /// What a flag calls the scene.
    pub open spec fn named(name: Seq<char>) -> Option<SceneKind> {
        if name == "photon"@ {
            Some(SceneKind::Photon)
        } else if name == "cavity"@ {
            Some(SceneKind::Cavity)
        } else if name == "slab"@ {
            Some(SceneKind::Slab)
        } else {
            None
        }
    }

    /// One line on what happens in the scene.
    pub open spec fn description(self) -> Seq<char> {
        match self {
            SceneKind::Photon => "a wave packet crossing free space"@,
            SceneKind::Cavity => "a dipole ringing a closed conducting box"@,
            SceneKind::Slab => "a wave packet meeting a dielectric slab"@,
        }
    }

    /// The scene a flag names.
    pub fn parse(name: &str) -> (r: Option<SceneKind>)
        ensures
            r == SceneKind::named(name@),
    {
        if same_text(name, "photon") {
            Some(SceneKind::Photon)
        } else if same_text(name, "cavity") {
            Some(SceneKind::Cavity)
        } else if same_text(name, "slab") {
            Some(SceneKind::Slab)
        } else {
            None
        }
    }

    pub fn describe(self) -> (r: &'static str)
        ensures
            r@ == self.description(),
    {
        match self {
            SceneKind::Photon => "a wave packet crossing free space",
            SceneKind::Cavity => "a dipole ringing a closed conducting box",
            SceneKind::Slab => "a wave packet meeting a dielectric slab",
        }
    }

    /// The scene itself, on a grid of the given extent. The slab is of glass with
    /// an index of 1.8.
    pub fn build<V: Scalar, W: Scalar, N: Numerics<V, W>>(self, math: &N, extent: Extent) -> (r:
        Scene<V, W>)
        requires
            arithmetic::<V>(),
            arithmetic::<W>(),
            extent.x >= 2,
            extent.y >= 2,
            extent.z >= 2,
            admissible(math, preset_cell_size::<V, N>(math)),
        ensures
            r.on_preset_grid(math, extent),
            match self {
                SceneKind::Photon => r.is_photon(math),
                SceneKind::Cavity => r.is_cavity(math),
                SceneKind::Slab => r.is_slab(math, math.decimal_of(18, 1)),
            },
    {
        match self {
            SceneKind::Photon => Scene::photon(math, extent),
            SceneKind::Cavity => Scene::cavity(math, extent),
            SceneKind::Slab => {
                let index: V = math.decimal(18, 1);
                Scene::slab(math, extent, index)
            },
        }
    }
}

/// The help text.
pub const HELP: &'static str = "diaphane-viz — watch a 3D electromagnetic field evolve

USAGE:
    diaphane-viz [OPTIONS]

OPTIONS:
    --scene <photon|cavity|slab>  what to simulate           [default: photon]
    --extent <CELLS>              cube side in cells         [default: 96]
    --steps <N>                   solver steps per frame     [default: 8]
    --warmup <N>                  steps to run before the first frame [default: 0]
    --mode <energy|electric|magnetic|magnitude>              [default: energy]
    --gain <F>                    brightness multiplier      [default: 1.0]
    --log <F>                     signed-log strength, 0 = linear [default: 6]
    --frames <N>                  render N frames offscreen and exit
    --output-dir <PATH>           where the PNGs go          [default: frames]
    --size <WxH>                  offscreen resolution       [default: 720x540]
    -h, --help                    this

KEYS (windowed)
    space          pause / resume
    R              reset the fields
    left / right   solver steps per frame
    1 2 3 4        energy split / Ez / Hz / total energy
    L              toggle signed-log scaling
    - / =          brightness
    drag           orbit
    scroll         zoom
    escape         quit
";

/// Why a command line was refused.
#[derive(Clone, Copy, Debug, Eq, PartialEq, Structural)]
pub enum Reason {
    /// The flag stands at the end, with no value behind it.
    NeedsValue,
    /// There is no such scene.
    UnknownScene,
    /// There is no such mode.
    UnknownMode,
    /// The size is not a width and a height.
    WantsSize,
    /// The value is not a number of the kind wanted.
    Unreadable,
    /// There is no such flag.
    UnknownFlag,
}

/// A refused command line: why, at which flag, and over which text.
#[derive(Debug)]
pub struct Complaint {
    pub reason: Reason,
    pub flag: String,
    pub text: String,
}

/// What a [`Complaint`] says.
pub struct Refusal {
    pub reason: Reason,
    pub flag: Seq<char>,
    pub text: Seq<char>,
}

impl View for Complaint {
    type V = Refusal;

    open spec fn view(&self) -> Refusal {
        Refusal { reason: self.reason, flag: self.flag@, text: self.text@ }
    }
}

/// A text in quotes, with what cannot be shown escaped.
pub uninterp spec fn quoted(text: Seq<char>) -> Seq<char>;

/// Formats a text with `{:?}`, which puts it in quotes and escapes what cannot be
/// shown. Which characters those are is left to the formatter; the result depends
/// on the text alone.
#[verifier::external_body]
fn quote(text: &str) -> (r: String)
    ensures
        r@ == quoted(text@),
{
    format!("{text:?}")
}

impl Refusal {
    /// The message shown to the user.
    pub open spec fn message(self) -> Seq<char> {
        match self.reason {
            Reason::NeedsValue => self.flag + " needs a value"@,
            Reason::UnknownScene => "unknown scene "@ + quoted(self.text),
            Reason::UnknownMode => "unknown mode "@ + quoted(self.text),
            Reason::WantsSize => self.flag + " wants WxH, got "@ + quoted(self.text),
            Reason::Unreadable => self.flag + " could not read "@ + quoted(self.text),
            Reason::UnknownFlag => "unknown flag "@ + quoted(self.flag) + "; try --help"@,
        }
    }
}

impl Complaint {
    pub fn new(reason: Reason, flag: &str, text: &str) -> (r: Self)
        ensures
            r@ == (Refusal { reason, flag: flag@, text: text@ }),
    {
        Complaint { reason, flag: flag.to_owned(), text: text.to_owned() }
    }

    /// The message shown to the user.
    pub fn message(&self) -> (r: String)
        ensures
            r@ == self@.message(),
    {
        match self.reason {
            Reason::NeedsValue => {
                let mut out: String = self.flag.clone();
                out.append(" needs a value");
                out
            },
            Reason::UnknownScene => {
                let mut out: String = "unknown scene ".to_owned();
                out.append(quote(self.text.as_str()).as_str());
                out
            },
            Reason::UnknownMode => {
                let mut out: String = "unknown mode ".to_owned();
                out.append(quote(self.text.as_str()).as_str());
                out
            },
            Reason::WantsSize => {
                let mut out: String = self.flag.clone();
                out.append(" wants WxH, got ");
                out.append(quote(self.text.as_str()).as_str());
                out
            },
            Reason::Unreadable => {
                let mut out: String = self.flag.clone();
                out.append(" could not read ");
                out.append(quote(self.text.as_str()).as_str());
                out
            },
            Reason::UnknownFlag => {
                let mut out: String = "unknown flag ".to_owned();
                out.append(quote(self.flag.as_str()).as_str());
                out.append("; try --help");
                out
            },
        }
    }
}

/// What to simulate, and where the pixels go.
#[derive(Debug)]
pub struct Options<V> {
    pub scene: SceneKind,
    pub extent: u32,
    pub steps_per_frame: u32,
    pub warmup: u32,
    /// Frames to render offscreen before exiting; a window is opened if there
    /// are none.
    pub frames: Option<u32>,
    pub output_dir: String,
    pub width: u32,
    pub height: u32,
    pub settings: ViewSettings<V>,
}

/// What [`Options`] hold.
pub struct Choices<V> {
    pub scene: SceneKind,
    pub extent: u32,
    pub steps_per_frame: u32,
    pub warmup: u32,
    pub frames: Option<u32>,
    pub output_dir: Seq<char>,
    pub width: u32,
    pub height: u32,
    pub settings: ViewSettings<V>,
}

impl<V> View for Options<V> {
    type V = Choices<V>;

    open spec fn view(&self) -> Choices<V> {
        Choices {
            scene: self.scene,
            extent: self.extent,
            steps_per_frame: self.steps_per_frame,
            warmup: self.warmup,
            frames: self.frames,
            output_dir: self.output_dir@,
            width: self.width,
            height: self.height,
            settings: self.settings,
        }
    }
}

/// What a command line comes to.
#[derive(Debug)]
pub enum Parsed<V> {
    /// Run with these options.
    Run { options: Options<V> },
    /// Print the help text and stop.
    Help,
    /// Refuse.
    Refused { complaint: Complaint },
}

/// What a command line comes to, over what the options hold.
pub enum Verdict<C> {
    Run { choices: C },
    Help,
    Refused { refusal: Refusal },
}

impl<V> View for Parsed<V> {
    type V = Verdict<Choices<V>>;

    open spec fn view(&self) -> Verdict<Choices<V>> {
        match *self {
            Parsed::Run { options } => Verdict::Run { choices: options@ },
            Parsed::Help => Verdict::Help,
            Parsed::Refused { complaint } => Verdict::Refused { refusal: complaint@ },
        }
    }
}

/// The texts of a list of arguments.
pub open spec fn texts(args: Seq<String>) -> Seq<Seq<char>> {
    Seq::new(args.len(), |i: int| args[i]@)
}

/// A `u32` out of a text, or the refusal of it.
pub open spec fn number_or_refusal(flag: Seq<char>, text: Seq<char>) -> Result<u32, Refusal> {
    match whole_number(text, u32::MAX as nat) {
        Some(value) => Ok(value as u32),
        None => Err(Refusal { reason: Reason::Unreadable, flag, text }),
    }
}

/// Reads a `u32`.
pub fn read_u32(flag: &str, text: &str) -> (r: Result<u32, Complaint>)
    ensures
        match number_or_refusal(flag@, text@) {
            Ok(value) => r == Ok::<u32, Complaint>(value),
            Err(refusal) => r matches Err(complaint) && complaint@ == refusal,
        },
{
    match read_whole(text, u32::MAX as u64) {
        Some(value) => Ok(value as u32),
        None => Err(Complaint::new(Reason::Unreadable, flag, text)),
    }
}

/// Whether a flag takes a value.
pub open spec fn takes_value(flag: Seq<char>) -> bool {
    ||| flag == "--scene"@
    ||| flag == "--mode"@
    ||| flag == "--extent"@
    ||| flag == "--steps"@
    ||| flag == "--warmup"@
    ||| flag == "--frames"@
    ||| flag == "--gain"@
    ||| flag == "--log"@
    ||| flag == "--output-dir"@
    ||| flag == "--size"@
}

impl<V: Scalar> Choices<V> {
    /// What the options are before any flag.
    pub open spec fn initial() -> Choices<V> {
        Choices {
            scene: SceneKind::Photon,
            extent: 96,
            steps_per_frame: 8,
            warmup: 0,
            frames: None,
            output_dir: "frames"@,
            width: 720,
            height: 540,
            settings: ViewSettings::usual(),
        }
    }

    /// The size a text of the form `WxH` gives.
    pub open spec fn sized(self, text: Seq<char>) -> Result<Choices<V>, Refusal> {
        match cut(text, 0) {
            None => Err(Refusal { reason: Reason::WantsSize, flag: "--size"@, text }),
            Some(at) => match number_or_refusal("--size"@, text.subrange(0, at)) {
                Err(refusal) => Err(refusal),
                Ok(width) => match number_or_refusal(
                    "--size"@,
                    text.subrange(at + 1, text.len() as int),
                ) {
                    Err(refusal) => Err(refusal),
                    Ok(height) => Ok(Choices { width, height, ..self }),
                },
            },
        }
    }

    /// The options after one flag and its value.
    pub open spec fn with<N: Elementary<V>>(
        self,
        math: &N,
        flag: Seq<char>,
        text: Seq<char>,
    ) -> Result<Choices<V>, Refusal> {
        if flag == "--scene"@ {
            match SceneKind::named(text) {
                Some(scene) => Ok(Choices { scene, ..self }),
                None => Err(Refusal { reason: Reason::UnknownScene, flag, text }),
            }
        } else if flag == "--mode"@ {
            match ViewMode::named(text) {
                Some(mode) => Ok(
                    Choices { settings: ViewSettings { mode, ..self.settings }, ..self },
                ),
                None => Err(Refusal { reason: Reason::UnknownMode, flag, text }),
            }
        } else if flag == "--output-dir"@ {
            Ok(Choices { output_dir: text, ..self })
        } else if flag == "--size"@ {
            self.sized(text)
        } else if flag == "--gain"@ || flag == "--log"@ {
            match math.read_from(text) {
                None => Err(Refusal { reason: Reason::Unreadable, flag, text }),
                Some(value) => if flag == "--gain"@ {
                    Ok(Choices { settings: ViewSettings { gain: value, ..self.settings }, ..self })
                } else {
                    Ok(
                        Choices {
                            settings: ViewSettings { log_strength: value, ..self.settings },
                            ..self
                        },
                    )
                },
            }
        } else {
            match number_or_refusal(flag, text) {
                Err(refusal) => Err(refusal),
                Ok(value) => if flag == "--extent"@ {
                    Ok(Choices { extent: value, ..self })
                } else if flag == "--steps"@ {
                    Ok(Choices { steps_per_frame: value, ..self })
                } else if flag == "--warmup"@ {
                    Ok(Choices { warmup: value, ..self })
                } else {
                    Ok(Choices { frames: Some(value), ..self })
                },
            }
        }
    }

    /// What the arguments from the `k`-th on make of the options so far.
    pub open spec fn parsed<N: Elementary<V>>(
        self,
        math: &N,
        args: Seq<Seq<char>>,
        k: int,
    ) -> Verdict<Choices<V>>
        decreases args.len() - k,
    {
        if k >= args.len() {
            Verdict::Run { choices: self }
        } else if args[k] == "-h"@ || args[k] == "--help"@ {
            Verdict::Help
        } else if !takes_value(args[k]) {
            Verdict::Refused {
                refusal: Refusal {
                    reason: Reason::UnknownFlag,
                    flag: args[k],
                    text: Seq::empty(),
                },
            }
        } else if k + 1 >= args.len() {
            Verdict::Refused {
                refusal: Refusal {
                    reason: Reason::NeedsValue,
                    flag: args[k],
                    text: Seq::empty(),
                },
            }
        } else {
            match self.with(math, args[k], args[k + 1]) {
                Err(refusal) => Verdict::Refused { refusal },
                Ok(choices) => choices.parsed(math, args, k + 2),
            }
        }
    }
}

fn is_value_flag(flag: &str) -> (r: bool)
    ensures
        r == takes_value(flag@),
{
    same_text(flag, "--scene") || same_text(flag, "--mode") || same_text(flag, "--extent")
        || same_text(flag, "--steps") || same_text(flag, "--warmup") || same_text(flag, "--frames")
        || same_text(flag, "--gain") || same_text(flag, "--log") || same_text(flag, "--output-dir")
        || same_text(flag, "--size")
}

/// Reads `WxH`.
pub fn read_size(text: &str) -> (r: Result<(u32, u32), Complaint>)
    ensures
        match cut(text@, 0) {
            None => r matches Err(complaint) && complaint@ == (Refusal {
                reason: Reason::WantsSize,
                flag: "--size"@,
                text: text@,
            }),
            Some(at) => match number_or_refusal("--size"@, text@.subrange(0, at)) {
                Err(refusal) => r matches Err(complaint) && complaint@ == refusal,
                Ok(width) => match number_or_refusal(
                    "--size"@,
                    text@.subrange(at + 1, text@.len() as int),
                ) {
                    Err(refusal) => r matches Err(complaint) && complaint@ == refusal,
                    Ok(height) => r == Ok::<(u32, u32), Complaint>((width, height)),
                },
            },
        },
{
    match find_cut(text) {
        None => Err(Complaint::new(Reason::WantsSize, "--size", text)),
        Some(at) => {
            let n: usize = text.unicode_len();
            match read_u32("--size", text.substring_char(0, at)) {
                Err(complaint) => Err(complaint),
                Ok(width) => match read_u32("--size", text.substring_char(at + 1, n)) {
                    Err(complaint) => Err(complaint),
                    Ok(height) => Ok((width, height)),
                },
            }
        },
    }
}

impl<V: Scalar> Options<V> {
    /// What the options are before any flag.
    pub fn initial() -> (r: Self)
        requires
            arithmetic::<V>(),
        ensures
            r@ == Choices::<V>::initial(),
    {
        Options {
            scene: SceneKind::Photon,
            extent: 96,
            steps_per_frame: 8,
            warmup: 0,
            frames: None,
            output_dir: "frames".to_owned(),
            width: 720,
            height: 540,
            settings: ViewSettings::new(),
        }
    }

    /// Applies one flag that takes a value.
    fn accept<N: Elementary<V>>(&mut self, math: &N, flag: &str, text: &str) -> (r: Result<
        (),
        Complaint,
    >)
        requires
            takes_value(flag@),
        ensures
            match old(self)@.with(math, flag@, text@) {
                Ok(choices) => r is Ok && final(self)@ == choices,
                Err(refusal) => r matches Err(complaint) && complaint@ == refusal,
            },
    {
        if same_text(flag, "--scene") {
            match SceneKind::parse(text) {
                Some(scene) => {
                    self.scene = scene;
                    Ok(())
                },
                None => Err(Complaint::new(Reason::UnknownScene, flag, text)),
            }
        } else if same_text(flag, "--mode") {
            match ViewMode::parse(text) {
                Some(mode) => {
                    self.settings.mode = mode;
                    Ok(())
                },
                None => Err(Complaint::new(Reason::UnknownMode, flag, text)),
            }
        } else if same_text(flag, "--output-dir") {
            self.output_dir = text.to_owned();
            Ok(())
        } else if same_text(flag, "--size") {
            match read_size(text) {
                Ok((width, height)) => {
                    self.width = width;
                    self.height = height;
                    Ok(())
                },
                Err(complaint) => Err(complaint),
            }
        } else if same_text(flag, "--gain") {
            match math.read(text) {
                Some(gain) => {
                    self.settings.gain = gain;
                    Ok(())
                },
                None => Err(Complaint::new(Reason::Unreadable, flag, text)),
            }
        } else if same_text(flag, "--log") {
            match math.read(text) {
                Some(strength) => {
                    self.settings.log_strength = strength;
                    Ok(())
                },
                None => Err(Complaint::new(Reason::Unreadable, flag, text)),
            }
        } else {
            match read_u32(flag, text) {
                Err(complaint) => Err(complaint),
                Ok(value) => {
                    if same_text(flag, "--extent") {
                        self.extent = value;
                    } else if same_text(flag, "--steps") {
                        self.steps_per_frame = value;
                    } else if same_text(flag, "--warmup") {
                        self.warmup = value;
                    } else {
                        self.frames = Some(value);
                    }
                    Ok(())
                },
            }
        }
    }

    /// Reads a command line, without the program's own name.
    pub fn parse<N: Elementary<V>>(math: &N, args: &Vec<String>) -> (r: Parsed<V>)
        requires
            arithmetic::<V>(),
        ensures
            r@ == Choices::<V>::initial().parsed(math, texts(args@), 0),
    {
        let mut options = Self::initial();
        let ghost all = texts(args@);
        let mut k: usize = 0;
        while k < args.len()
            invariant
                k <= args@.len(),
                all == texts(args@),
                options@.parsed(math, all, k as int) == Choices::<V>::initial().parsed(
                    math,
                    all,
                    0,
                ),
            decreases args@.len() - k,
        {
            let flag: &str = args[k].as_str();
            assert(all[k as int] == flag@);
            if same_text(flag, "-h") || same_text(flag, "--help") {
                return Parsed::Help;
            }
            if !is_value_flag(flag) {
                let complaint = Complaint::new(Reason::UnknownFlag, flag, "");
                proof {
                    reveal_strlit("");
                    assert(complaint@.text =~= Seq::<char>::empty());
                }
                return Parsed::Refused { complaint };
            }
            if k + 1 >= args.len() {
                let complaint = Complaint::new(Reason::NeedsValue, flag, "");
                proof {
                    reveal_strlit("");
                    assert(complaint@.text =~= Seq::<char>::empty());
                }
                return Parsed::Refused { complaint };
            }
            assert(all[k + 1] == args@[k + 1]@);
            match options.accept(math, flag, args[k + 1].as_str()) {
                Ok(()) => {},
                Err(complaint) => {
                    return Parsed::Refused { complaint };
                },
            }
            k = k + 2;
        }
        Parsed::Run { options }
    }
}

} // verus!
