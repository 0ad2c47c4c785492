//! Reading the field peaks back: how bright the volume is shown, and which
//! components are worth drawing.

use crate::camera::{Camera, CameraBasis};
use crate::grid::Extent;
use crate::numerics::{Elementary, Numerics};
use crate::scalar::{arithmetic, greater, greater_of, number, over, Scalar};
use crate::view::{followed, rescaled, update_scale, Exposed, ScrubBar, ViewMode, ViewSettings};
use vstd::prelude::*;

verus! {

/// Slots in the reduction: the energy peak, then `|E|` and `|H|` per component, then
/// the peak of the averaged intensity.
pub const PEAK_SLOTS: usize = 8;

/// Where a stored word stands among all of them, in the order of the numbers they
/// are: the sign bit first, and below zero the larger word is the smaller number.
pub open spec fn rank(word: u32) -> int {
    if word < 0x8000_0000 {
        0x8000_0000 + word
    } else {
        0xffff_ffff - word
    }
}

fn rank_of(word: u32) -> (r: u32)
    ensures
        r == rank(word),
{
    if word < 0x8000_0000 {
        0x8000_0000 + word
    } else {
        0xffff_ffff - word
    }
}

/// The component, of the first `n`, with the greatest of three finite values from
/// `offset` on: the last one of equals, and nothing if none is finite.
pub open spec fn strongest<V: Scalar, W: Scalar, N: Numerics<V, W>>(
    math: &N,
    slots: Seq<V>,
    offset: int,
    n: int,
) -> Option<int>
    decreases n,
{
    if n <= 0 {
        None
    } else {
        let best = strongest::<V, W, N>(math, slots, offset, n - 1);
        let here = slots[offset + n - 1];
        if !math.finite_at(here) {
            best
        } else {
            match best {
                Some(k) => if rank(math.word_of(here)) < rank(math.word_of(slots[offset + k])) {
                    best
                } else {
                    Some(n - 1)
                },
                None => Some(n - 1),
            }
        }
    }
}

/// The component worth drawing, and the first where none is.
pub open spec fn dominant<V: Scalar, W: Scalar, N: Numerics<V, W>>(
    math: &N,
    slots: Seq<V>,
    offset: int,
) -> u32 {
    match strongest::<V, W, N>(math, slots, offset, 3) {
        Some(k) => k as u32,
        None => 0,
    }
}

fn find_dominant<V: Scalar, W: Scalar, N: Numerics<V, W>>(
    math: &N,
    slots: &[V; 8],
    offset: usize,
) -> (r: u32)
    requires
        offset + 3 <= 8,
    ensures
        r == dominant::<V, W, N>(math, slots@, offset as int),
        r < 3,
{
    let mut best: Option<usize> = None;
    let mut n: usize = 0;
    while n < 3
        invariant
            n <= 3,
            offset + 3 <= 8,
            match best {
                Some(k) => k < n && strongest::<V, W, N>(math, slots@, offset as int, n as int)
                    == Some(k as int),
                None => strongest::<V, W, N>(math, slots@, offset as int, n as int) == None::<int>,
            },
        decreases 3 - n,
    {
        let here = slots[offset + n];
        if math.is_finite(here) {
            let stays = match best {
                Some(k) => rank_of(math.word(here)) < rank_of(math.word(slots[offset + k])),
                None => false,
            };
            if !stays {
                best = Some(n);
            }
        }
        n = n + 1;
    }
    match best {
        Some(k) => k as u32,
        None => 0,
    }
}

/// The auto-ranged scale, and the components of `E` and of `H` the signed views
/// read.
///
/// The components are measured rather than assumed: which ones carry the field is a
/// fact about the scene, not about the renderer.
#[derive(Clone, Copy, Debug, PartialEq)]
pub struct Gauge<V> {
    pub scale: V,
    pub components: [u32; 2],
}

/// What a [`Gauge`] reads.
pub struct Reading<V> {
    pub scale: V,
    pub electric: u32,
    pub magnetic: u32,
}

impl<V> View for Gauge<V> {
    type V = Reading<V>;

    open spec fn view(&self) -> Reading<V> {
        Reading {
            scale: self.scale,
            electric: self.components@[0],
            magnetic: self.components@[1],
        }
    }
}

impl<V: Scalar> Reading<V> {
    /// The reading after a frame's peaks.
    ///
    /// Where the solver did not step nothing changes: an image that goes on
    /// developing while the field is frozen reads as the simulation still running.
    pub open spec fn after<W: Scalar, N: Numerics<V, W>>(
        self,
        math: &N,
        advanced: bool,
        mode: ViewMode,
        slots: Seq<V>,
    ) -> Reading<V> {
        if !advanced {
            self
        } else {
            let electric = dominant::<V, W, N>(math, slots, 1);
            let magnetic = dominant::<V, W, N>(math, slots, 4);
            // The averaged intensity ranges itself: over a long average its peak can
            // sit far from the instantaneous one.
            let measured = if mode == ViewMode::Intensity {
                slots[7]
            } else {
                slots[0]
            };
            Reading {
                scale: rescaled(math, self.scale, measured),
                electric,
                magnetic: if magnetic == electric {
                    ((electric + 1) % 3) as u32
                } else {
                    magnetic
                },
            }
        }
    }
}

impl<V: Scalar> Gauge<V> {
    pub fn new() -> (r: Self)
        requires
            arithmetic::<V>(),
        ensures
            r@ == (Reading::<V> { scale: number(0), electric: 2, magnetic: 1 }),
    {
        Gauge { scale: V::from(0u8), components: [2, 1] }
    }

    /// Folds a frame's peaks in.
    pub fn update<W: Scalar, N: Numerics<V, W>>(
        &mut self,
        math: &N,
        advanced: bool,
        mode: ViewMode,
        slots: &[V; 8],
    )
        requires
            arithmetic::<V>(),
        ensures
            final(self)@ == old(self)@.after::<W, N>(math, advanced, mode, slots@),
    {
        if !advanced {
            return;
        }
        let electric: u32 = find_dominant::<V, W, N>(math, slots, 1);
        let mut magnetic: u32 = find_dominant::<V, W, N>(math, slots, 4);
        if magnetic == electric {
            // Only where a field is zero everywhere, but the ribbons run along the
            // axis left over, and two components have to leave one.
            magnetic = (electric + 1) % 3;
        }
        self.components = [electric, magnetic];
        let measured = if mode == ViewMode::Intensity {
            slots[7]
        } else {
            slots[0]
        };
        self.scale = update_scale(math, self.scale, measured);
    }
}

/// The two components are always two of the three, so that one is left for the
/// direction of travel.
pub proof fn an_axis_is_left_over<V: Scalar, W: Scalar, N: Numerics<V, W>>(
    math: &N,
    before: Reading<V>,
    mode: ViewMode,
    slots: Seq<V>,
)
    ensures
        ({
            let after = before.after::<W, N>(math, true, mode, slots);
            &&& after.electric < 3 && after.magnetic < 3
            &&& after.electric != after.magnetic
        }),
{
    lemma_strongest(math, slots, 1, 3);
    lemma_strongest(math, slots, 4, 3);
}

proof fn lemma_strongest<V: Scalar, W: Scalar, N: Numerics<V, W>>(
    math: &N,
    slots: Seq<V>,
    offset: int,
    n: int,
)
    requires
        0 <= n,
    ensures
        strongest::<V, W, N>(math, slots, offset, n) matches Some(k) ==> 0 <= k < n,
    decreases n,
{
    if n > 0 {
        lemma_strongest::<V, W, N>(math, slots, offset, n - 1);
    }
}

/// The component chosen is finite and no finite one is stronger.
pub proof fn the_dominant_component_dominates<V: Scalar, W: Scalar, N: Numerics<V, W>>(
    math: &N,
    slots: Seq<V>,
    offset: int,
    n: int,
    other: int,
)
    requires
        0 <= other < n,
        math.finite_at(slots[offset + other]),
    ensures
        strongest::<V, W, N>(math, slots, offset, n) matches Some(k) && 0 <= k < n
            && math.finite_at(slots[offset + k]) && rank(math.word_of(slots[offset + other]))
            <= rank(math.word_of(slots[offset + k])),
    decreases n,
{
    lemma_strongest::<V, W, N>(math, slots, offset, n - 1);
    if other < n - 1 {
        the_dominant_component_dominates::<V, W, N>(math, slots, offset, n - 1, other);
    } else {
        lemma_strongest_is_finite::<V, W, N>(math, slots, offset, n - 1);
    }
}

proof fn lemma_strongest_is_finite<V: Scalar, W: Scalar, N: Numerics<V, W>>(
    math: &N,
    slots: Seq<V>,
    offset: int,
    n: int,
)
    ensures
        strongest::<V, W, N>(math, slots, offset, n) matches Some(k) ==> math.finite_at(
            slots[offset + k],
        ),
    decreases n,
{
    if n > 0 {
        lemma_strongest_is_finite::<V, W, N>(math, slots, offset, n - 1);
    }
}

/// Everything the volume shader is told about a frame with measured components.
#[derive(Clone, Copy, Debug, PartialEq)]
pub struct GaugedParams<V> {
    /// `nx, ny, nz, cell_count`.
    pub extent: [u32; 4],
    /// Domain size in coarse cells, then the lookup sample count per axis.
    pub box_size: [V; 4],
    /// Camera position in cells, then the ray-march step in cells.
    pub origin: [V; 4],
    /// Camera right scaled by aspect and field of view, then exposure.
    pub right: [V; 4],
    /// Camera up scaled by field of view, then the signed-log strength.
    pub up: [V; 4],
    /// Camera forward, then the view mode.
    pub forward: [V; 4],
    /// Reciprocal of the reference path length, then the scrub bar: played
    /// fraction, window start fraction, and bar height. A height of 0 hides it.
    pub tone: [V; 4],
    /// Which component of `E` and of `H` the signed views read, then how many steps
    /// the intensity is averaged over, then padding.
    pub components: [u32; 4],
}

/// The domain a frame shows.
#[derive(Clone, Copy, Debug, PartialEq)]
pub struct Domain<V> {
    pub extent: Extent,
    /// Size in coarse cells, which differs from the cell counts on a graded grid.
    pub box_size: [V; 3],
    /// Lookup samples per axis.
    pub lookup_samples: u32,
    /// Steps the intensity is averaged over.
    pub accumulated: u64,
}

/// A third of the longest side, and at least one cell.
pub open spec fn box_length<V: Scalar>(size: Seq<V>) -> V {
    greater_of(
        over(greater_of(greater_of(size[0], size[1]), size[2]), number::<V>(3)),
        number::<V>(1),
    )
}

impl<V: Scalar> GaugedParams<V> {
    /// What the shader is told of a domain seen by a camera.
    pub fn new<N: Elementary<V>>(
        math: &N,
        domain: &Domain<V>,
        camera: &Camera<V>,
        settings: &ViewSettings<V>,
        image: &Exposed<V>,
        components: [u32; 2],
    ) -> (r: Self)
        requires
            arithmetic::<V>(),
            domain.extent.countable(),
        ensures
            r.extent@ == domain.extent.words(),
            r.box_size@ == domain.box_size@.push(math.count_of(domain.lookup_samples as u64)),
            exists|basis: CameraBasis<V>|
                {
                    &&& #[trigger] camera.frames(
                        math,
                        domain.box_size@,
                        image.aspect(math),
                        basis,
                    )
                    &&& r.origin@ == basis.position@.push(image.march)
                    &&& r.right@ == basis.right@.push(
                        settings.exposure_at(math, greater_of(image.scale, image.smallest)),
                    )
                    &&& r.up@ == basis.up@.push(settings.log_strength)
                    &&& r.forward@ == basis.forward@.push(number(settings.mode.number()))
                },
            r.tone@ == match image.scrub {
                Some(bar) => seq![
                    over(number::<V>(1), box_length(domain.box_size@)),
                    bar.played,
                    bar.window_start,
                    ScrubBar::height_of(math),
                ],
                None => seq![
                    over(number::<V>(1), box_length(domain.box_size@)),
                    number(0),
                    number(0),
                    number(0),
                ],
            },
            r.components@ == seq![
                components@[0],
                components@[1],
                if domain.accumulated > u32::MAX {
                    u32::MAX
                } else {
                    domain.accumulated as u32
                },
                0,
            ],
    {
        let zero = V::from(0u8);
        let rows: u64 = if image.height == 0 {
            1
        } else {
            image.height as u64
        };
        let (width, height): (V, V) = (math.count(image.width as u64), math.count(rows));
        let size = domain.box_size;
        let aspect = width / height;
        assert(aspect == image.aspect(math));
        let basis = camera.basis(math, size, aspect);
        assert(camera.frames(math, domain.box_size@, image.aspect(math), basis));
        let exposure = settings.exposure(math, image.scale, image.smallest);
        let longest = greater(greater(size[0], size[1]), size[2]);
        let emission = V::from(1u8) / greater(longest / V::from(3u8), V::from(1u8));
        let samples: V = math.count(domain.lookup_samples as u64);
        let averaged: u32 = if domain.accumulated > u32::MAX as u64 {
            u32::MAX
        } else {
            domain.accumulated as u32
        };
        let r = GaugedParams {
            extent: domain.extent.as_words(),
            box_size: followed(size, samples),
            origin: followed(basis.position, image.march),
            right: followed(basis.right, exposure),
            up: followed(basis.up, settings.log_strength),
            forward: followed(basis.forward, V::from(settings.mode.code())),
            tone: match image.scrub {
                Some(bar) => [emission, bar.played, bar.window_start, ScrubBar::height(math)],
                None => [emission, zero, zero, zero],
            },
            components: [components[0], components[1], averaged, 0],
        };
        assert(r.right@ == basis.right@.push(exposure));
        assert(r.forward@ == basis.forward@.push(number(settings.mode.number())));
        r
    }
}

} // verus!
