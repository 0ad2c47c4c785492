//! The flags the viewer and the offscreen renderer share.
//!
//! The two programs share everything about *what* to simulate and how to colour
//! it, and nothing about where the pixels go, so each owns its own flags and its own
//! help text.

use crate::numerics::Elementary;
use crate::options::{number_or_refusal, read_u32, Complaint, Reason, Refusal};
use crate::scalar::{arithmetic, Scalar};
use crate::text::{cut, find_cut, read_whole, same_text, whole_number};
use crate::view::{ViewMode, ViewSettings};
use vstd::prelude::*;

verus! {

/// Where the scene comes from: a built-in preset, or a file.
#[derive(Debug)]
pub enum SceneSource {
    Photon,
    Cavity,
    Slab,
    File { path: String },
}

/// What a [`SceneSource`] names.
pub enum Origin {
    Photon,
    Cavity,
    Slab,
    File { path: Seq<char> },
}

impl View for SceneSource {
    type V = Origin;

    open spec fn view(&self) -> Origin {
        match *self {
            SceneSource::Photon => Origin::Photon,
            SceneSource::Cavity => Origin::Cavity,
            SceneSource::Slab => Origin::Slab,
            SceneSource::File { path } => Origin::File { path: path@ },
        }
    }
}

impl Origin {
    /// Anything that is not a preset name is a path.
    pub open spec fn named(argument: Seq<char>) -> Origin {
        if argument == "photon"@ {
            Origin::Photon
        } else if argument == "cavity"@ {
            Origin::Cavity
        } else if argument == "slab"@ {
            Origin::Slab
        } else {
            Origin::File { path: argument }
        }
    }

    /// One line on what is simulated.
    pub open spec fn description(self) -> Seq<char> {
        match self {
            Origin::Photon => "a wave packet crossing free space"@,
            Origin::Cavity => "a dipole ringing a closed conducting box"@,
            Origin::Slab => "a wave packet meeting a dielectric slab"@,
            Origin::File { path } => path,
        }
    }
}

impl SceneSource {
    /// Anything that is not a preset name is taken as a path, so naming a scene
    /// file needs no extra flag.
    pub fn parse(argument: &str) -> (r: SceneSource)
        ensures
            r@ == Origin::named(argument@),
    {
        if same_text(argument, "photon") {
            SceneSource::Photon
        } else if same_text(argument, "cavity") {
            SceneSource::Cavity
        } else if same_text(argument, "slab") {
            SceneSource::Slab
        } else {
            SceneSource::File { path: argument.to_owned() }
        }
    }

    pub fn describe(&self) -> (r: String)
        ensures
            r@ == self@.description(),
    {
        match self {
            SceneSource::Photon => "a wave packet crossing free space".to_owned(),
            SceneSource::Cavity => "a dipole ringing a closed conducting box".to_owned(),
            SceneSource::Slab => "a wave packet meeting a dielectric slab".to_owned(),
            SceneSource::File { path } => path.clone(),
        }
    }
}

/// The flags both programs accept.
#[derive(Debug)]
pub struct Common<V> {
    pub scene: SceneSource,
    pub extent: u32,
    /// Cells per metre to rediscretize at, without moving anything.
    pub resolution: Option<V>,
    pub steps_per_frame: u32,
    pub warmup: u32,
    pub width: u32,
    pub height: u32,
    pub settings: ViewSettings<V>,
}

/// What [`Common`] holds.
pub struct Shared<V> {
    pub scene: Origin,
    pub extent: u32,
    pub resolution: Option<V>,
    pub steps_per_frame: u32,
    pub warmup: u32,
    pub width: u32,
    pub height: u32,
    pub settings: ViewSettings<V>,
}

impl<V> View for Common<V> {
    type V = Shared<V>;

    open spec fn view(&self) -> Shared<V> {
        Shared {
            scene: self.scene@,
            extent: self.extent,
            resolution: self.resolution,
            steps_per_frame: self.steps_per_frame,
            warmup: self.warmup,
            width: self.width,
            height: self.height,
            settings: self.settings,
        }
    }
}

/// The shared part of both help texts, so the two cannot drift apart.
pub const COMMON_HELP: &'static str = "    --scene <NAME|PATH.ron>       a preset or a scene file   [default: photon]
                                  presets: photon, cavity, slab
    --extent <CELLS>              cube side in cells         [default: 96]
    --resolution <CELLS/M>        rediscretize without moving anything
    --steps <N>                   solver steps per frame     [default: 8]
    --warmup <N>                  steps to run before the first frame
    --mode <fields|energy|electric|magnetic|magnitude|grid>  [default: fields]
    --gain <F>                    brightness multiplier      [default: 1.0]
    --log <F>                     signed-log strength, 0 = linear [default: 6]
    --size <WxH>                  resolution                 [default: 720x540]
    -h, --help                    this
";

/// Whether a flag is one of the shared ones. All of them take a value.
pub open spec fn is_shared(flag: Seq<char>) -> bool {
    ||| flag == "--scene"@
    ||| flag == "--extent"@
    ||| flag == "--resolution"@
    ||| flag == "--steps"@
    ||| flag == "--warmup"@
    ||| flag == "--gain"@
    ||| flag == "--log"@
    ||| flag == "--size"@
    ||| flag == "--mode"@
}

impl<V: Scalar> Shared<V> {
    /// What the flags are before any is given.
    pub open spec fn initial() -> Shared<V> {
        Shared {
            scene: Origin::Photon,
            extent: 96,
            resolution: None,
            steps_per_frame: 8,
            warmup: 0,
            width: 720,
            height: 540,
            settings: ViewSettings { mode: ViewMode::Fields, ..ViewSettings::usual() },
        }
    }

    /// The size a text of the form `WxH` gives. What cannot be read is quoted in
    /// full.
    pub open spec fn sized(self, flag: Seq<char>, text: Seq<char>) -> Result<Shared<V>, Refusal> {
        let unreadable = Refusal { reason: Reason::Unreadable, flag, text };
        match cut(text, 0) {
            None => Err(Refusal { reason: Reason::WantsSize, flag, text }),
            Some(at) => match (
                whole_number(text.subrange(0, at), u32::MAX as nat),
                whole_number(text.subrange(at + 1, text.len() as int), u32::MAX as nat),
            ) {
                (Some(width), Some(height)) => Ok(
                    Shared { width: width as u32, height: height as u32, ..self },
                ),
                _ => Err(unreadable),
            },
        }
    }

    /// The flags after one more of them and its value.
    pub open spec fn with<N: Elementary<V>>(
        self,
        math: &N,
        flag: Seq<char>,
        text: Seq<char>,
    ) -> Result<Shared<V>, Refusal> {
        if flag == "--scene"@ {
            Ok(Shared { scene: Origin::named(text), ..self })
        } else if flag == "--mode"@ {
            match ViewMode::known_as(text) {
                Some(mode) => Ok(
                    Shared { settings: ViewSettings { mode, ..self.settings }, ..self },
                ),
                None => Err(Refusal { reason: Reason::UnknownMode, flag, text }),
            }
        } else if flag == "--size"@ {
            self.sized(flag, text)
        } else if flag == "--gain"@ || flag == "--log"@ || flag == "--resolution"@ {
            match math.read_from(text) {
                None => Err(Refusal { reason: Reason::Unreadable, flag, text }),
                Some(value) => if flag == "--gain"@ {
                    Ok(Shared { settings: ViewSettings { gain: value, ..self.settings }, ..self })
                } else if flag == "--log"@ {
                    Ok(
                        Shared {
                            settings: ViewSettings { log_strength: value, ..self.settings },
                            ..self
                        },
                    )
                } else {
                    Ok(Shared { resolution: Some(value), ..self })
                },
            }
        } else {
            match number_or_refusal(flag, text) {
                Err(refusal) => Err(refusal),
                Ok(value) => if flag == "--extent"@ {
                    Ok(Shared { extent: value, ..self })
                } else if flag == "--steps"@ {
                    Ok(Shared { steps_per_frame: value, ..self })
                } else {
                    Ok(Shared { warmup: value, ..self })
                },
            }
        }
    }
}

/// Whether a flag is one of the shared ones.
pub fn is_shared_flag(flag: &str) -> (r: bool)
    ensures
        r == is_shared(flag@),
{
    same_text(flag, "--scene") || same_text(flag, "--extent") || same_text(flag, "--resolution")
        || same_text(flag, "--steps") || same_text(flag, "--warmup") || same_text(flag, "--gain")
        || same_text(flag, "--log") || same_text(flag, "--size") || same_text(flag, "--mode")
}

impl<V: Scalar> Common<V> {
    /// What the flags are before any is given.
    pub fn initial() -> (r: Self)
        requires
            arithmetic::<V>(),
        ensures
            r@ == Shared::<V>::initial(),
    {
        let mut settings = ViewSettings::new();
        settings.mode = ViewMode::Fields;
        Common {
            scene: SceneSource::Photon,
            extent: 96,
            resolution: None,
            steps_per_frame: 8,
            warmup: 0,
            width: 720,
            height: 540,
            settings,
        }
    }

    /// Takes `flag` with its value if it is one of the shared ones.
    ///
    /// Gives false when it is not, so the caller can try its own.
    pub fn accept<N: Elementary<V>>(&mut self, math: &N, flag: &str, value: Option<&String>) -> (r:
        Result<bool, Complaint>)
        ensures
            !is_shared(flag@) ==> r == Ok::<bool, Complaint>(false) && *final(self) == *old(self),
            is_shared(flag@) ==> match value {
                None => r matches Err(complaint) && complaint@ == (Refusal {
                    reason: Reason::NeedsValue,
                    flag: flag@,
                    text: Seq::empty(),
                }),
                Some(text) => match old(self)@.with(math, flag@, text@) {
                    Ok(shared) => r == Ok::<bool, Complaint>(true) && final(self)@ == shared,
                    Err(refusal) => r matches Err(complaint) && complaint@ == refusal,
                },
            },
            r is Err ==> *final(self) == *old(self),
    {
        if !is_shared_flag(flag) {
            return Ok(false);
        }
        let text: &str = match value {
            Some(text) => text.as_str(),
            None => {
                return Err(missing_value(flag));
            },
        };
        if same_text(flag, "--scene") {
            self.scene = SceneSource::parse(text);
        } else if same_text(flag, "--mode") {
            match ViewMode::recognize(text) {
                Some(mode) => {
                    self.settings.mode = mode;
                },
                None => {
                    return Err(Complaint::new(Reason::UnknownMode, flag, text));
                },
            }
        } else if same_text(flag, "--size") {
            match Self::read_size(flag, text) {
                Ok((width, height)) => {
                    self.width = width;
                    self.height = height;
                },
                Err(complaint) => {
                    return Err(complaint);
                },
            }
        } else if same_text(flag, "--gain") || same_text(flag, "--log") || same_text(
            flag,
            "--resolution",
        ) {
            match math.read(text) {
                None => {
                    return Err(Complaint::new(Reason::Unreadable, flag, text));
                },
                Some(number) => {
                    if same_text(flag, "--gain") {
                        self.settings.gain = number;
                    } else if same_text(flag, "--log") {
                        self.settings.log_strength = number;
                    } else {
                        self.resolution = Some(number);
                    }
                },
            }
        } else {
            match read_u32(flag, text) {
                Err(complaint) => {
                    return Err(complaint);
                },
                Ok(number) => {
                    if same_text(flag, "--extent") {
                        self.extent = number;
                    } else if same_text(flag, "--steps") {
                        self.steps_per_frame = number;
                    } else {
                        self.warmup = number;
                    }
                },
            }
        }
        Ok(true)
    }

    fn read_size(flag: &str, text: &str) -> (r: Result<(u32, u32), Complaint>)
        ensures
            forall|shared: Shared<V>|
                match #[trigger] shared.sized(flag@, text@) {
                    Ok(after) => r matches Ok((width, height)) && after == (Shared {
                        width,
                        height,
                        ..shared
                    }),
                    Err(refusal) => r matches Err(complaint) && complaint@ == refusal,
                },
    {
        match find_cut(text) {
            None => Err(Complaint::new(Reason::WantsSize, flag, text)),
            Some(at) => {
                let n: usize = text.unicode_len();
                let width = read_whole(text.substring_char(0, at), u32::MAX as u64);
                let height = read_whole(text.substring_char(at + 1, n), u32::MAX as u64);
                match (width, height) {
                    (Some(width), Some(height)) => Ok((width as u32, height as u32)),
                    _ => Err(Complaint::new(Reason::Unreadable, flag, text)),
                }
            },
        }
    }
}

/// A flag with nothing behind it.
pub fn missing_value(flag: &str) -> (r: Complaint)
    ensures
        r@ == (Refusal { reason: Reason::NeedsValue, flag: flag@, text: Seq::empty() }),
{
    let complaint = Complaint::new(Reason::NeedsValue, flag, "");
    proof {
        reveal_strlit("");
        assert(complaint@.text =~= Seq::<char>::empty());
    }
    complaint
}

/// A flag nobody knows.
pub fn unknown_flag(flag: &str) -> (r: Complaint)
    ensures
        r@ == (Refusal { reason: Reason::UnknownFlag, flag: flag@, text: Seq::empty() }),
{
    let complaint = Complaint::new(Reason::UnknownFlag, flag, "");
    proof {
        reveal_strlit("");
        assert(complaint@.text =~= Seq::<char>::empty());
    }
    complaint
}

/// Every flag that takes a whole number sets what it is named for to that number,
/// and nothing else; a text that is no such number sets nothing.
pub proof fn counting_flags_set_what_they_name<V: Scalar, N: Elementary<V>>(
    math: &N,
    before: Shared<V>,
    text: Seq<char>,
    value: u32,
)
    requires
        whole_number(text, u32::MAX as nat) == Some(value as nat),
    ensures
        before.with(math, "--extent"@, text) == Ok::<_, Refusal>(
            Shared { extent: value, ..before },
        ),
        before.with(math, "--steps"@, text) == Ok::<_, Refusal>(
            Shared { steps_per_frame: value, ..before },
        ),
        before.with(math, "--warmup"@, text) == Ok::<_, Refusal>(
            Shared { warmup: value, ..before },
        ),
{
    lemma_flags_differ();
}

/// Every flag that takes a number sets what it is named for to that number, and
/// nothing else.
pub proof fn measuring_flags_set_what_they_name<V: Scalar, N: Elementary<V>>(
    math: &N,
    before: Shared<V>,
    text: Seq<char>,
    value: V,
)
    requires
        math.read_from(text) == Some(value),
    ensures
        before.with(math, "--gain"@, text) == Ok::<_, Refusal>(
            Shared { settings: ViewSettings { gain: value, ..before.settings }, ..before },
        ),
        before.with(math, "--log"@, text) == Ok::<_, Refusal>(
            Shared {
                settings: ViewSettings { log_strength: value, ..before.settings },
                ..before
            },
        ),
        before.with(math, "--resolution"@, text) == Ok::<_, Refusal>(
            Shared { resolution: Some(value), ..before },
        ),
{
    lemma_flags_differ();
}

/// A size sets the width to what stands before the `x` and the height to what stands
/// behind it; a scene is set by its name, or is a file; a mode by its name.
pub proof fn naming_flags_set_what_they_name<V: Scalar, N: Elementary<V>>(
    math: &N,
    before: Shared<V>,
    text: Seq<char>,
)
    ensures
        before.with(math, "--size"@, text) matches Ok(after) ==> exists|at: int|
            0 <= at < text.len() && (text[at] == 'x' || text[at] == 'X') && whole_number(
                #[trigger] text.subrange(0, at),
                u32::MAX as nat,
            ) == Some(after.width as nat) && whole_number(
                text.subrange(at + 1, text.len() as int),
                u32::MAX as nat,
            ) == Some(after.height as nat) && after == (Shared {
                width: after.width,
                height: after.height,
                ..before
            }),
        before.with(math, "--scene"@, text) matches Ok(after) && after == (Shared {
            scene: after.scene,
            ..before
        }) && (after.scene is File ==> after.scene->path == text),
        before.with(math, "--mode"@, text) matches Ok(after) ==> after == (Shared {
            settings: ViewSettings { mode: after.settings.mode, ..before.settings },
            ..before
        }),
{
    lemma_flags_differ();
    lemma_cut_is_inside(text, 0);
    if let Ok(after) = before.with(math, "--size"@, text) {
        let at = cut(text, 0)->0;
        assert(text.subrange(0, at) == text.subrange(0, at));
    }
}

/// No two of the shared flags are the same.
proof fn lemma_flags_differ()
    ensures
        "--scene"@ != "--mode"@,
        "--size"@ != "--scene"@,
        "--size"@ != "--mode"@,
        "--gain"@ != "--scene"@,
        "--gain"@ != "--mode"@,
        "--gain"@ != "--size"@,
        "--log"@ != "--scene"@,
        "--log"@ != "--mode"@,
        "--log"@ != "--size"@,
        "--log"@ != "--gain"@,
        "--resolution"@ != "--scene"@,
        "--resolution"@ != "--mode"@,
        "--resolution"@ != "--size"@,
        "--resolution"@ != "--gain"@,
        "--resolution"@ != "--log"@,
        "--extent"@ != "--scene"@,
        "--extent"@ != "--mode"@,
        "--extent"@ != "--size"@,
        "--extent"@ != "--gain"@,
        "--extent"@ != "--log"@,
        "--extent"@ != "--resolution"@,
        "--steps"@ != "--scene"@,
        "--steps"@ != "--mode"@,
        "--steps"@ != "--size"@,
        "--steps"@ != "--gain"@,
        "--steps"@ != "--log"@,
        "--steps"@ != "--resolution"@,
        "--steps"@ != "--extent"@,
        "--warmup"@ != "--scene"@,
        "--warmup"@ != "--mode"@,
        "--warmup"@ != "--size"@,
        "--warmup"@ != "--gain"@,
        "--warmup"@ != "--log"@,
        "--warmup"@ != "--resolution"@,
        "--warmup"@ != "--extent"@,
        "--warmup"@ != "--steps"@,
{
    reveal_strlit("--scene");
    reveal_strlit("--mode");
    reveal_strlit("--size");
    reveal_strlit("--gain");
    reveal_strlit("--log");
    reveal_strlit("--resolution");
    reveal_strlit("--extent");
    reveal_strlit("--steps");
    reveal_strlit("--warmup");
    // By length where the lengths differ, and else by one letter.
    assert("--scene"@.len() == 7 && "--mode"@.len() == 6 && "--size"@.len() == 6 && "--gain"@.len()
        == 6 && "--log"@.len() == 5 && "--resolution"@.len() == 12 && "--extent"@.len() == 8
        && "--steps"@.len() == 7 && "--warmup"@.len() == 8);
    assert("--mode"@[2] == 'm' && "--size"@[2] == 's' && "--gain"@[2] == 'g');
    assert("--scene"@[3] == 'c' && "--steps"@[3] == 't');
    assert("--extent"@[2] == 'e' && "--warmup"@[2] == 'w');
}

proof fn lemma_cut_is_inside(text: Seq<char>, i: int)
    requires
        0 <= i <= text.len(),
    ensures
        cut(text, i) matches Some(at) ==> i <= at < text.len() && (text[at] == 'x' || text[at]
            == 'X'),
    decreases text.len() - i,
{
    if i < text.len() {
        lemma_cut_is_inside(text, i + 1);
    }
}

} // verus!
