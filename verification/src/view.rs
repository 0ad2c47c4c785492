//! What is shown, and how bright.

use crate::camera::{Camera, CameraBasis};
use crate::grid::Extent;
use crate::numerics::Elementary;
use crate::scalar::{
    arithmetic, at_most, below, greater, greater_of, minus, number, over, plus, same, times,
    Scalar,
};
use crate::text::same_text;
use vstd::prelude::*;

verus! {

/// Which quantity the volume shows.
#[derive(Clone, Copy, Debug, Eq, PartialEq, Structural)]
pub enum ViewMode {
    /// Electric and magnetic energy density in opposing hues: the view in which
    /// the two fields visibly trade energy.
    Energy,
    /// Signed `E` through a diverging colormap.
    Electric,
    /// Signed `H`.
    Magnetic,
    /// Total energy density, monochrome.
    Magnitude,
    /// Signed `E` and `H` at once, in two hues: the only view in which the two
    /// fields are separately visible.
    Fields,
    /// The mesh, with no field in it. Shows where the resolution went.
    Grid,
    /// `E` and `H` plotted as ribbons in perpendicular planes along the direction
    /// of travel.
    Ribbons,
    /// Time-averaged `|E|²`: what a detector integrates.
    Intensity,
}

impl ViewMode {
    /// The modes of the plain window, in the order of its number keys.
    pub const ALL: [ViewMode; 4] = [
        ViewMode::Energy,
        ViewMode::Electric,
        ViewMode::Magnetic,
        ViewMode::Magnitude,
    ];

    /// Every mode, in the order of the panel.
    pub const PANEL: [ViewMode; 8] = [
        ViewMode::Fields,
        ViewMode::Energy,
        ViewMode::Electric,
        ViewMode::Magnetic,
        ViewMode::Magnitude,
        ViewMode::Grid,
        ViewMode::Ribbons,
        ViewMode::Intensity,
    ];

    /// What the mode is called on screen.
    pub open spec fn title(self) -> Seq<char> {
        match self {
            ViewMode::Energy => "energy split"@,
            ViewMode::Electric => "Ez"@,
            ViewMode::Magnetic => "Hz"@,
            ViewMode::Magnitude => "total energy"@,
            ViewMode::Fields => "E and H"@,
            ViewMode::Grid => "the grid"@,
            ViewMode::Ribbons => "E and H as ribbons"@,
            ViewMode::Intensity => "time-averaged intensity"@,
        }
    }

    /// What the mode is called where the component shown is measured rather than
    /// fixed.
    pub open spec fn caption_of(self) -> Seq<char> {
        match self {
            ViewMode::Electric => "signed E"@,
            ViewMode::Magnetic => "signed H"@,
            _ => self.title(),
        }
    }

    /// Number the shader knows the mode by.
    pub open spec fn number(self) -> u8 {
        match self {
            ViewMode::Energy => 0,
            ViewMode::Electric => 1,
            ViewMode::Magnetic => 2,
            ViewMode::Magnitude => 3,
            ViewMode::Fields => 4,
            ViewMode::Grid => 5,
            ViewMode::Ribbons => 6,
            ViewMode::Intensity => 7,
        }
    }

    /// Whether the mode shows a field amplitude rather than an energy.
    pub open spec fn signed(self) -> bool {
        ||| self == ViewMode::Electric
        ||| self == ViewMode::Magnetic
        ||| self == ViewMode::Fields
        ||| self == ViewMode::Ribbons
    }

    /// What a flag of the plain window calls the mode.
    pub open spec fn named(name: Seq<char>) -> Option<ViewMode> {
        if name == "energy"@ {
            Some(ViewMode::Energy)
        } else if name == "electric"@ {
            Some(ViewMode::Electric)
        } else if name == "magnetic"@ {
            Some(ViewMode::Magnetic)
        } else if name == "magnitude"@ {
            Some(ViewMode::Magnitude)
        } else {
            None
        }
    }

    /// What a shared flag calls the mode.
    pub open spec fn known_as(name: Seq<char>) -> Option<ViewMode> {
        if name == "fields"@ {
            Some(ViewMode::Fields)
        } else if name == "energy"@ {
            Some(ViewMode::Energy)
        } else if name == "electric"@ {
            Some(ViewMode::Electric)
        } else if name == "magnetic"@ {
            Some(ViewMode::Magnetic)
        } else if name == "magnitude"@ {
            Some(ViewMode::Magnitude)
        } else if name == "grid"@ {
            Some(ViewMode::Grid)
        } else {
            None
        }
    }

    pub fn label(self) -> (r: &'static str)
        ensures
            r@ == self.title(),
    {
        match self {
            ViewMode::Energy => "energy split",
            ViewMode::Electric => "Ez",
            ViewMode::Magnetic => "Hz",
            ViewMode::Magnitude => "total energy",
            ViewMode::Fields => "E and H",
            ViewMode::Grid => "the grid",
            ViewMode::Ribbons => "E and H as ribbons",
            ViewMode::Intensity => "time-averaged intensity",
        }
    }

    /// What the mode is called where the component shown is measured: naming one
    /// would lie in any scene that is not polarized along it.
    pub fn caption(self) -> (r: &'static str)
        ensures
            r@ == self.caption_of(),
    {
        match self {
            ViewMode::Electric => "signed E",
            ViewMode::Magnetic => "signed H",
            _ => self.label(),
        }
    }

    pub fn code(self) -> (r: u8)
        ensures
            r == self.number(),
    {
        match self {
            ViewMode::Energy => 0,
            ViewMode::Electric => 1,
            ViewMode::Magnetic => 2,
            ViewMode::Magnitude => 3,
            ViewMode::Fields => 4,
            ViewMode::Grid => 5,
            ViewMode::Ribbons => 6,
            ViewMode::Intensity => 7,
        }
    }

    /// Whether the mode shows a field amplitude rather than an energy. Ribbons
    /// deflect by an amplitude too.
    pub fn is_signed(self) -> (r: bool)
        ensures
            r == self.signed(),
    {
        match self {
            ViewMode::Electric => true,
            ViewMode::Magnetic => true,
            ViewMode::Fields => true,
            ViewMode::Ribbons => true,
            _ => false,
        }
    }

    /// The mode a flag of the plain window names.
    pub fn parse(name: &str) -> (r: Option<ViewMode>)
        ensures
            r == ViewMode::named(name@),
    {
        if same_text(name, "energy") {
            Some(ViewMode::Energy)
        } else if same_text(name, "electric") {
            Some(ViewMode::Electric)
        } else if same_text(name, "magnetic") {
            Some(ViewMode::Magnetic)
        } else if same_text(name, "magnitude") {
            Some(ViewMode::Magnitude)
        } else {
            None
        }
    }

    /// The mode a shared flag names.
    pub fn recognize(name: &str) -> (r: Option<ViewMode>)
        ensures
            r == ViewMode::known_as(name@),
    {
        if same_text(name, "fields") {
            Some(ViewMode::Fields)
        } else if same_text(name, "energy") {
            Some(ViewMode::Energy)
        } else if same_text(name, "electric") {
            Some(ViewMode::Electric)
        } else if same_text(name, "magnetic") {
            Some(ViewMode::Magnetic)
        } else if same_text(name, "magnitude") {
            Some(ViewMode::Magnitude)
        } else if same_text(name, "grid") {
            Some(ViewMode::Grid)
        } else {
            None
        }
    }
}

impl Default for ViewMode {
    fn default() -> (r: Self)
        ensures
            r == ViewMode::Energy,
    {
        ViewMode::Energy
    }
}

/// Everything the display does that the physics does not.
#[derive(Clone, Copy, Debug, PartialEq)]
pub struct ViewSettings<V> {
    pub mode: ViewMode,
    /// Multiplies the auto-ranged scale. One puts the loudest cell at the top
    /// of the range.
    pub gain: V,
    /// Strength of the signed-log compression; 0 is linear.
    pub log_strength: V,
    /// The strength [`Self::toggle_log`] goes back to.
    pub remembered_log: V,
}

impl<V: Scalar> ViewSettings<V> {
    /// Enough compression that a weak scattered field is visible in the same
    /// frame as the source that produced it. Much more than this and the noise
    /// floor comes up with it.
    pub open spec fn usual() -> ViewSettings<V> {
        ViewSettings {
            mode: ViewMode::Energy,
            gain: number(1),
            log_strength: number(6),
            remembered_log: number(6),
        }
    }

    pub fn new() -> (r: Self)
        requires
            arithmetic::<V>(),
        ensures
            r == Self::usual(),
    {
        ViewSettings {
            mode: ViewMode::Energy,
            gain: V::from(1u8),
            log_strength: V::from(6u8),
            remembered_log: V::from(6u8),
        }
    }

    /// The compression off, or back on at the strength it had.
    pub open spec fn log_toggled(self) -> ViewSettings<V> {
        if below(number::<V>(0), self.log_strength) {
            ViewSettings {
                log_strength: number(0),
                remembered_log: self.log_strength,
                ..self
            }
        } else {
            ViewSettings { log_strength: self.remembered_log, ..self }
        }
    }

    /// Turns the signed-log compression off and back on to the strength it had,
    /// whether that is the usual one or was asked for.
    pub fn toggle_log(&mut self)
        requires
            arithmetic::<V>(),
        ensures
            *final(self) == old(self).log_toggled(),
    {
        let zero = V::from(0u8);
        if zero < self.log_strength {
            self.remembered_log = self.log_strength;
            self.log_strength = zero;
        } else {
            self.log_strength = self.remembered_log;
        }
    }

    /// What a peak energy density is multiplied by to be shown.
    ///
    /// The reduction measures energy density; the signed views show a field
    /// amplitude, whose scale is the square root of it.
    pub open spec fn exposure_at<N: Elementary<V>>(self, math: &N, reference: V) -> V {
        if self.mode.signed() {
            over(self.gain, math.sqrt_of(times(number::<V>(2), reference)))
        } else {
            over(self.gain, reference)
        }
    }

    /// What the field is multiplied by to be shown, given the auto-ranged scale
    /// and the smallest positive number it may be divided by.
    pub fn exposure<N: Elementary<V>>(&self, math: &N, scale: V, smallest: V) -> (r: V)
        requires
            arithmetic::<V>(),
        ensures
            r == self.exposure_at(math, greater_of(scale, smallest)),
    {
        let reference = greater(scale, smallest);
        if self.mode.is_signed() {
            self.gain / math.sqrt(V::from(2u8) * reference)
        } else {
            self.gain / reference
        }
    }
}

/// The running scale after a new measurement.
///
/// Rises quickly and falls slowly. Without that asymmetry the display flickers as
/// a pulse's amplitude swings.
pub open spec fn rescaled<V: Scalar, N: Elementary<V>>(math: &N, scale: V, measured: V) -> V {
    if !math.finite_at(measured) || at_most(measured, number::<V>(0)) {
        scale
    } else if same(scale, number::<V>(0)) {
        measured
    } else {
        let rate = if below(scale, measured) {
            math.decimal_of(4, 1)
        } else {
            math.decimal_of(2, 2)
        };
        plus(scale, times(rate, minus(measured, scale)))
    }
}

/// Folds a measured peak into the running scale.
pub fn update_scale<V: Scalar, N: Elementary<V>>(math: &N, scale: V, measured: V) -> (r: V)
    requires
        arithmetic::<V>(),
    ensures
        r == rescaled(math, scale, measured),
{
    let zero = V::from(0u8);
    if !math.is_finite(measured) || measured <= zero {
        return scale;
    }
    if scale == zero {
        return measured;
    }
    let rate: V = if scale < measured {
        math.decimal(4, 1)
    } else {
        math.decimal(2, 2)
    };
    scale + rate * (measured - scale)
}

/// A third of the longest side, and at least one cell.
pub open spec fn reference_length<V: Scalar, N: Elementary<V>>(math: &N, extent: Extent) -> V {
    greater_of(
        over(math.count_of(extent.longest_side() as u64), number::<V>(3)),
        number::<V>(1),
    )
}

/// Path length, in cells, over which a feature at the top of the range
/// accumulates to full brightness.
///
/// Emission along a ray is an integral, so the natural unit is a length. A third
/// of the domain means a packet occupying a third of the box reads as saturated
/// and anything smaller reads as proportionally dimmer.
pub fn reference_path<V: Scalar, N: Elementary<V>>(math: &N, extent: Extent) -> (r: V)
    requires
        arithmetic::<V>(),
    ensures
        r == reference_length(math, extent),
{
    let cells: V = math.count(extent.longest() as u64);
    greater(cells / V::from(3u8), V::from(1u8))
}

/// Everything the volume shader is told about a frame.
#[derive(Clone, Copy, Debug, PartialEq)]
pub struct ViewParams<V> {
    /// `nx, ny, nz, cell_count`.
    pub extent: [u32; 4],
    /// Camera position in cells, then the ray-march step in cells.
    pub origin: [V; 4],
    /// Camera right scaled by aspect and field of view, then exposure.
    pub right: [V; 4],
    /// Camera up scaled by field of view, then the signed-log strength.
    pub up: [V; 4],
    /// Camera forward, then the view mode.
    pub forward: [V; 4],
    /// Reciprocal of the reference path length, then the scrub bar: played
    /// fraction, window start fraction, and bar height. A height of 0 hides it.
    pub tone: [V; 4],
}

/// What the scrub bar shows, as fractions of the run so far.
#[derive(Clone, Copy, Debug, PartialEq)]
pub struct ScrubBar<V> {
    /// Where the playhead sits, 0 to 1.
    pub played: V,
    /// Where the keyframed window begins: the earliest step that can be reached
    /// without replaying from zero.
    pub window_start: V,
}

impl<V: Scalar> ScrubBar<V> {
    /// Height of the bar as a fraction of the image. The shader draws with the
    /// same constant.
    pub open spec fn height_of<N: Elementary<V>>(math: &N) -> V {
        math.decimal_of(45, 3)
    }

    /// Height of the bar as a fraction of the image.
    pub fn height<N: Elementary<V>>(math: &N) -> (r: V)
        ensures
            r == Self::height_of(math),
    {
        math.decimal(45, 3)
    }

    /// Whether a pointer `y` pixels down an image `rows` pixels high is on the
    /// bar, which runs along the bottom.
    pub fn contains<N: Elementary<V>>(math: &N, y: V, rows: u32) -> (r: bool)
        requires
            arithmetic::<V>(),
        ensures
            r == at_most(
                times(math.count_of(rows as u64), minus(number::<V>(1), Self::height_of(math))),
                y,
            ),
    {
        let whole: V = math.count(rows as u64);
        let top = whole * (V::from(1u8) - Self::height(math));
        top <= y
    }

    /// Where along the width of an image a pointer `x` pixels in is, as a
    /// fraction.
    pub fn fraction_at<N: Elementary<V>>(math: &N, x: V, columns: u32) -> (r: V)
        requires
            arithmetic::<V>(),
        ensures
            r == over(x, math.count_of(if columns == 0 {
                1
            } else {
                columns as u64
            })),
    {
        let whole: u64 = if columns == 0 {
            1
        } else {
            columns as u64
        };
        x / math.count(whole)
    }
}

/// The scrub bar of a captured frame: how far through the capture it is, in front
/// of a window that begins about a third of the way in.
pub fn capture_bar<V: Scalar, N: Elementary<V>>(math: &N, frame: u32, frames: u32) -> (r: ScrubBar<
    V,
>)
    requires
        arithmetic::<V>(),
        frame < frames,
    ensures
        r.played == over(math.count_of((frame + 1) as u64), math.count_of(frames as u64)),
        r.window_start == math.decimal_of(35, 2),
{
    let done: V = math.count((frame + 1) as u64);
    let whole: V = math.count(frames as u64);
    ScrubBar { played: done / whole, window_start: math.decimal(35, 2) }
}

/// The image a frame is drawn into.
#[derive(Clone, Copy, Debug, PartialEq)]
pub struct Exposed<V> {
    /// Size in pixels.
    pub width: u32,
    pub height: u32,
    /// Auto-ranged peak energy density.
    pub scale: V,
    /// The smallest positive number the scale is taken for.
    pub smallest: V,
    /// Ray-march step in cells.
    pub march: V,
    /// The scrub bar, or nothing to hide it.
    pub scrub: Option<ScrubBar<V>>,
}

impl<V: Scalar> Exposed<V> {
    /// Width over height; an image without rows counts as one row high.
    pub open spec fn aspect<N: Elementary<V>>(self, math: &N) -> V {
        over(
            math.count_of(self.width as u64),
            math.count_of(if self.height == 0 {
                1
            } else {
                self.height as u64
            }),
        )
    }
}

/// The size of a domain in cells, axis by axis.
pub open spec fn cell_counts<V: Scalar, N: Elementary<V>>(math: &N, extent: Extent) -> Seq<V> {
    seq![
        math.count_of(extent.x as u64),
        math.count_of(extent.y as u64),
        math.count_of(extent.z as u64),
    ]
}

impl<V: Scalar> ViewParams<V> {
    /// What the shader is told of a domain seen by a camera.
    pub fn new<N: Elementary<V>>(
        math: &N,
        extent: Extent,
        camera: &Camera<V>,
        settings: &ViewSettings<V>,
        image: &Exposed<V>,
    ) -> (r: Self)
        requires
            arithmetic::<V>(),
            extent.countable(),
        ensures
            r.extent@ == extent.words(),
            exists|basis: CameraBasis<V>|
                {
                    &&& #[trigger] camera.frames(
                        math,
                        cell_counts(math, extent),
                        image.aspect(math),
                        basis,
                    )
                    &&& r.origin@ == basis.position@.push(image.march)
                    &&& r.right@ == basis.right@.push(
                        settings.exposure_at(math, greater_of(image.scale, image.smallest)),
                    )
                    &&& r.up@ == basis.up@.push(settings.log_strength)
                    &&& r.forward@ == basis.forward@.push(number(settings.mode.number()))
                },
            r.tone@ == match image.scrub {
                Some(bar) => seq![
                    over(number::<V>(1), reference_length(math, extent)),
                    bar.played,
                    bar.window_start,
                    ScrubBar::height_of(math),
                ],
                None => seq![
                    over(number::<V>(1), reference_length(math, extent)),
                    number(0),
                    number(0),
                    number(0),
                ],
            },
    {
        let zero = V::from(0u8);
        let rows: u64 = if image.height == 0 {
            1
        } else {
            image.height as u64
        };
        let (width, height): (V, V) = (math.count(image.width as u64), math.count(rows));
        let size: [V; 3] = [
            math.count(extent.x as u64),
            math.count(extent.y as u64),
            math.count(extent.z as u64),
        ];
        assert(size@ =~= cell_counts(math, extent));
        let aspect = width / height;
        assert(aspect == image.aspect(math));
        let basis = camera.basis(math, size, aspect);
        assert(camera.frames(math, cell_counts(math, extent), image.aspect(math), basis));
        let exposure = settings.exposure(math, image.scale, image.smallest);
        let emission = V::from(1u8) / reference_path(math, extent);
        let r = ViewParams {
            extent: extent.as_words(),
            origin: followed(basis.position, image.march),
            right: followed(basis.right, exposure),
            up: followed(basis.up, settings.log_strength),
            forward: followed(basis.forward, V::from(settings.mode.code())),
            tone: match image.scrub {
                Some(bar) => [emission, bar.played, bar.window_start, ScrubBar::height(math)],
                None => [emission, zero, zero, zero],
            },
        };
        assert(r.right@ == basis.right@.push(exposure));
        assert(r.forward@ == basis.forward@.push(number(settings.mode.number())));
        r
    }
}

pub(crate) fn followed<V: Scalar>(v: [V; 3], last: V) -> (r: [V; 4])
    ensures
        r@ == v@.push(last),
{
    [v[0], v[1], v[2], last]
}

/// Compression turned off and on again is as it was.
pub proof fn log_survives_a_round_trip<V: Scalar>(settings: ViewSettings<V>)
    requires
        below(number::<V>(0), settings.log_strength),
        !below(number::<V>(0), number::<V>(0)),
    ensures
        settings.log_toggled().log_toggled().log_strength == settings.log_strength,
{
}

} // verus!
