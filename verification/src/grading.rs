//! Cell widths that are fine where a refinement asks and smoothly graded back to
//! the base width everywhere else.
//!
//! Three steps, and the middle one is the whole idea:
//!
//! 1. Sample the target width on a lattice: the base, or the smallest refinement
//!    covering that point.
//! 2. Limit how fast it may change. Between neighbouring cells the position
//!    advances by about one width, so a per-cell ratio cap of `max_ratio` is a
//!    Lipschitz bound of `max_ratio − 1` on width against distance. A forward sweep
//!    and a backward sweep make that bound hold in both directions.
//! 3. March out cells, then scale every width by one common factor so the last
//!    corner lands exactly on the far wall.

use crate::algebra::{
    add_commutes, add_nothing, add_regroups, multiply_by_nothing, multiply_commutes, multiply_regroups,
    multiply_spreads, negatives, ring, take_away,
};
use crate::lattice::Axis;
use crate::numerics::{Elementary, Numerics};
use crate::order::{
    below_through, factors_come_off, field, one_way_or_the_other, parts, products_keep_order,
    squares_keep_order,
};
use crate::scalar::{
    arithmetic, at_most, below, half, lesser, lesser_of, magnitude, magnitude_of, minus, negative,
    number, one_half, over, plus, same, times, Scalar,
};
use crate::shapes::{lemma_between, magnitudes};
use crate::spacing::{admissible, all_admissible, stacked, Spacing};
use vstd::prelude::*;

verus! {

/// A request to resolve part of the domain more finely than the rest.
///
/// In metres, from the centre of the domain: a refinement is a statement about
/// which physics is to be resolved, so it has to survive a change of base
/// resolution or of domain size without moving.
///
/// Refinement is per axis: asking for a fine box refines the three slabs it
/// projects onto, all the way through the domain.
#[derive(Clone, Copy, Debug)]
pub struct Refinement<V> {
    pub center: [V; 3],
    pub size: [V; 3],
    /// Target cell size inside the region, in metres.
    pub cell_size: V,
}

impl<V: Scalar> Refinement<V> {
    /// Whether a position along one axis lies in the refined slab.
    pub open spec fn reaches(self, axis: Axis, position: V) -> bool {
        at_most(
            magnitude_of(minus(position, self.center@[axis.position()])),
            times(half::<V>(), self.size@[axis.position()]),
        )
    }
}

impl<V: Scalar> Refinement<V> {
    /// A band across one axis, leaving the other two alone.
    ///
    /// Rather than a box, and the difference is not cosmetic: refinement is per
    /// axis, so giving a band a transverse size would refine the whole
    /// transverse plane as well. A negative size is one that nothing is within.
    pub fn across(axis: Axis, offset: V, width: V, cell_size: V) -> (r: Self)
        requires
            arithmetic::<V>(),
        ensures
            r.cell_size == cell_size,
            forall|t: Axis|
                r.center@[#[trigger] t.position()] == if t == axis {
                    offset
                } else {
                    number::<V>(0)
                },
            forall|t: Axis|
                r.size@[#[trigger] t.position()] == if t == axis {
                    width
                } else {
                    minus(number::<V>(0), number::<V>(1))
                },
    {
        let zero = V::from(0u8);
        let none = zero - V::from(1u8);
        let mut center = [zero, zero, zero];
        let mut size = [none, none, none];
        center[axis.index()] = offset;
        size[axis.index()] = width;
        Refinement { center, size, cell_size }
    }
}

/// Most cells one axis may be graded into.
pub const MOST_CELLS: usize = 0x1_0000;

/// Smallest of `base` and the cell sizes of the first `n` refinements.
pub open spec fn finest_asked<V: Scalar>(refinements: Seq<Refinement<V>>, base: V, n: int) -> V
    decreases n,
{
    if n <= 0 {
        base
    } else {
        lesser_of(finest_asked(refinements, base, n - 1), refinements[n - 1].cell_size)
    }
}

/// The width wanted at a position: `base`, or the smallest of the first `n`
/// refinements that reaches it.
pub open spec fn wanted<V: Scalar>(
    refinements: Seq<Refinement<V>>,
    axis: Axis,
    base: V,
    position: V,
    n: int,
) -> V
    decreases n,
{
    if n <= 0 {
        base
    } else {
        let width = wanted(refinements, axis, base, position, n - 1);
        if refinements[n - 1].reaches(axis, position) {
            lesser_of(width, refinements[n - 1].cell_size)
        } else {
            width
        }
    }
}

/// How many intervals the target width is sampled over: four across the smallest
/// cell asked for, so the march never steps over a refinement.
pub open spec fn samples_for<V: Scalar, N: Elementary<V>>(math: &N, length: V, finest: V) -> int {
    let asked = math.ceiling_of(times(over(length, finest), number::<V>(4))) as int;
    if asked < 64 {
        64
    } else if asked > 0x10_0000 {
        0x10_0000
    } else {
        asked
    }
}

/// Position of sample `i`, from the centre of the axis.
pub open spec fn sample_position<V: Scalar, N: Elementary<V>>(
    math: &N,
    length: V,
    step: V,
    i: int,
) -> V {
    minus(times(math.count_of(i as u64), step), times(half::<V>(), length))
}

/// The width wanted at every sample.
pub open spec fn profile<V: Scalar, N: Elementary<V>>(
    math: &N,
    axis: Axis,
    length: V,
    base: V,
    refinements: Seq<Refinement<V>>,
    samples: int,
) -> Seq<V> {
    let step = over(length, math.count_of(samples as u64));
    Seq::new(
        (samples + 1) as nat,
        |i: int|
            wanted(
                refinements,
                axis,
                base,
                sample_position(math, length, step, i),
                refinements.len() as int,
            ),
    )
}

/// How far a width may be from its neighbour's.
#[derive(Clone, Copy, Debug)]
pub enum Cap<V> {
    /// By a fixed amount.
    Slope(V),
    /// By a fixed factor.
    Ratio(V),
}

impl<V: Scalar> Cap<V> {
    /// The largest width allowed beside `width`.
    pub open spec fn beside(self, width: V) -> V {
        match self {
            Cap::Slope(slope) => plus(width, slope),
            Cap::Ratio(ratio) => times(width, ratio),
        }
    }

    fn allow(&self, width: V) -> (r: V)
        requires
            arithmetic::<V>(),
        ensures
            r == self.beside(width),
    {
        match *self {
            Cap::Slope(slope) => width + slope,
            Cap::Ratio(ratio) => width * ratio,
        }
    }
}

/// Width `i` once none may exceed what the one before it allows.
pub open spec fn risen<V: Scalar>(widths: Seq<V>, cap: Cap<V>, i: int) -> V
    decreases i,
{
    if i <= 0 {
        widths[0]
    } else {
        lesser_of(widths[i], cap.beside(risen(widths, cap, i - 1)))
    }
}

/// Width `i` once none may exceed what the one after it allows.
pub open spec fn fallen<V: Scalar>(widths: Seq<V>, cap: Cap<V>, i: int) -> V
    decreases widths.len() - i,
{
    if i >= widths.len() - 1 {
        widths[i]
    } else {
        lesser_of(widths[i], cap.beside(fallen(widths, cap, i + 1)))
    }
}

/// The widths after both sweeps.
pub open spec fn limited<V: Scalar>(widths: Seq<V>, cap: Cap<V>) -> Seq<V> {
    let up = Seq::new(widths.len(), |i: int| risen(widths, cap, i));
    Seq::new(widths.len(), |i: int| fallen(up, cap, i))
}

/// Cells laid out from `offset` on until the far wall is reached, each as wide as
/// the sample it starts in, or nothing if that takes more cells than allowed.
pub open spec fn marched<V: Scalar, N: Elementary<V>>(
    math: &N,
    target: Seq<V>,
    length: V,
    step: V,
    offset: V,
    widths: Seq<V>,
) -> Option<Seq<V>>
    decreases MOST_CELLS + 1 - widths.len(),
{
    if !below(offset, length) {
        Some(widths)
    } else if widths.len() >= MOST_CELLS {
        None
    } else {
        let width = target[sample_index(math, target.len() as int, step, offset)];
        marched(math, target, length, step, plus(offset, width), widths.push(width))
    }
}

/// The sample an offset from the low edge falls in.
pub open spec fn sample_index<V: Scalar, N: Elementary<V>>(
    math: &N,
    count: int,
    step: V,
    offset: V,
) -> int {
    let index = math.floor_of(over(offset, step)) as int;
    if index < count - 1 {
        index
    } else {
        count - 1
    }
}

/// Sum of the first `n` widths.
pub open spec fn summed<V: Scalar>(widths: Seq<V>, n: int) -> V
    decreases n,
{
    if n <= 0 {
        number::<V>(0)
    } else {
        plus(summed(widths, n - 1), widths[n - 1])
    }
}

/// The march always ends past the far wall. Dropping the last cell may land
/// closer than keeping it, and the nearer of the two is taken. With the widths
/// comes their total.
pub open spec fn trimmed<V: Scalar>(widths: Seq<V>, length: V) -> (Seq<V>, V) {
    let total = summed(widths, widths.len() as int);
    let without = minus(total, widths[widths.len() - 1]);
    if widths.len() > 2 && below(
        magnitude_of(minus(length, without)),
        magnitude_of(minus(total, length)),
    ) {
        (widths.drop_last(), without)
    } else {
        (widths, total)
    }
}

/// Every width times one common factor.
pub open spec fn scaled<V: Scalar>(widths: Seq<V>, factor: V) -> Seq<V> {
    Seq::new(widths.len(), |i: int| times(widths[i], factor))
}

/// The cells laid out along one axis, before they are fitted to its length.
pub open spec fn laid_out<V: Scalar, N: Elementary<V>>(
    math: &N,
    axis: Axis,
    length: V,
    base: V,
    refinements: Seq<Refinement<V>>,
    max_ratio: V,
) -> Option<Seq<V>> {
    let finest = finest_asked(refinements, base, refinements.len() as int);
    let samples = samples_for(math, length, finest);
    let step = over(length, math.count_of(samples as u64));
    let target = limited(
        profile(math, axis, length, base, refinements, samples),
        Cap::Slope(times(minus(max_ratio, number::<V>(1)), step)),
    );
    marched(math, target, length, step, number::<V>(0), Seq::<V>::empty())
}

/// The widths along one axis, if the refinements are ones the domain can carry.
pub open spec fn graded_widths<V: Scalar, N: Elementary<V>>(
    math: &N,
    axis: Axis,
    length: V,
    base: V,
    refinements: Seq<Refinement<V>>,
    max_ratio: V,
) -> Option<Seq<V>> {
    match laid_out(math, axis, length, base, refinements, max_ratio) {
        None => None,
        Some(widths) => {
            if widths.len() < 2 {
                None
            } else {
                let (kept, total) = trimmed(limited(widths, Cap::Ratio(max_ratio)), length);
                let fitted = scaled(kept, over(length, total));
                if all_admissible(math, fitted) {
                    Some(fitted)
                } else {
                    None
                }
            }
        },
    }
}

/// Holds every width to what its neighbours on either side allow.
fn limit<V: Scalar>(widths: &mut Vec<V>, cap: Cap<V>)
    requires
        arithmetic::<V>(),
        old(widths)@.len() >= 1,
    ensures
        final(widths)@ == limited(old(widths)@, cap),
{
    let ghost first = widths@;
    let mut i: usize = 1;
    while i < widths.len()
        invariant
            arithmetic::<V>(),
            widths@.len() == first.len(),
            1 <= i <= first.len(),
            forall|j: int| 0 <= j < i ==> #[trigger] widths@[j] == risen(first, cap, j),
            forall|j: int| i <= j < first.len() ==> #[trigger] widths@[j] == first[j],
        decreases first.len() - i,
    {
        let allowed = cap.allow(widths[i - 1]);
        let value = lesser(widths[i], allowed);
        widths.set(i, value);
        i = i + 1;
    }
    let ghost up = Seq::new(first.len(), |i: int| risen(first, cap, i));
    assert(widths@ =~= up);
    let mut k: usize = widths.len() - 1;
    while k > 0
        invariant
            arithmetic::<V>(),
            widths@.len() == up.len(),
            k < up.len(),
            forall|j: int| k <= j < up.len() ==> #[trigger] widths@[j] == fallen(up, cap, j),
            forall|j: int| 0 <= j < k ==> #[trigger] widths@[j] == up[j],
        decreases k,
    {
        let allowed = cap.allow(widths[k]);
        let value = lesser(widths[k - 1], allowed);
        widths.set(k - 1, value);
        k = k - 1;
    }
    assert(widths@ =~= limited(first, cap));
}

/// Lays cells out until they reach the far wall.
fn march<V: Scalar, N: Elementary<V>>(math: &N, target: &Vec<V>, length: V, step: V) -> (r: Option<
    Vec<V>,
>)
    requires
        arithmetic::<V>(),
        target@.len() >= 1,
    ensures
        match marched(math, target@, length, step, number::<V>(0), Seq::<V>::empty()) {
            Some(widths) => r is Some && r->0@ == widths,
            None => r is None,
        },
{
    let mut widths: Vec<V> = Vec::new();
    let mut offset: V = V::from(0u8);
    let ghost goal = marched(math, target@, length, step, number::<V>(0), Seq::<V>::empty());
    assert(widths@ =~= Seq::<V>::empty());
    while offset < length
        invariant
            arithmetic::<V>(),
            target@.len() >= 1,
            widths@.len() <= MOST_CELLS,
            marched(math, target@, length, step, offset, widths@) == goal,
            goal == marched(math, target@, length, step, number::<V>(0), Seq::<V>::empty()),
        decreases MOST_CELLS - widths@.len(),
    {
        if widths.len() >= MOST_CELLS {
            return None;
        }
        let raw: usize = math.floor(offset / step);
        let last: usize = target.len() - 1;
        let index: usize = if raw < last {
            raw
        } else {
            last
        };
        let width = target[index];
        widths.push(width);
        offset = offset + width;
    }
    Some(widths)
}

/// The width wanted at one position.
fn wanted_at<V: Scalar>(
    refinements: &Vec<Refinement<V>>,
    axis: Axis,
    base: V,
    position: V,
) -> (r: V)
    requires
        arithmetic::<V>(),
    ensures
        r == wanted(refinements@, axis, base, position, refinements@.len() as int),
{
    let t: usize = axis.index();
    let mut width = base;
    let mut k: usize = 0;
    while k < refinements.len()
        invariant
            arithmetic::<V>(),
            t == axis.position(),
            t < 3,
            k <= refinements@.len(),
            width == wanted(refinements@, axis, base, position, k as int),
        decreases refinements@.len() - k,
    {
        let refinement = refinements[k];
        if magnitude(position - refinement.center[t]) <= one_half::<V>() * refinement.size[t] {
            width = lesser(width, refinement.cell_size);
        }
        k = k + 1;
    }
    width
}

/// Smallest cell asked for anywhere.
pub(crate) fn finest_of<V: Scalar>(refinements: &Vec<Refinement<V>>, base: V) -> (r: V)
    requires
        arithmetic::<V>(),
    ensures
        r == finest_asked(refinements@, base, refinements@.len() as int),
{
    let mut finest = base;
    let mut k: usize = 0;
    while k < refinements.len()
        invariant
            arithmetic::<V>(),
            k <= refinements@.len(),
            finest == finest_asked(refinements@, base, k as int),
        decreases refinements@.len() - k,
    {
        finest = lesser(finest, refinements[k].cell_size);
        k = k + 1;
    }
    finest
}

/// Sum of all widths.
fn sum_of<V: Scalar>(widths: &Vec<V>) -> (r: V)
    requires
        arithmetic::<V>(),
    ensures
        r == summed(widths@, widths@.len() as int),
{
    let mut total: V = V::from(0u8);
    let mut k: usize = 0;
    while k < widths.len()
        invariant
            arithmetic::<V>(),
            k <= widths@.len(),
            total == summed(widths@, k as int),
        decreases widths@.len() - k,
    {
        total = total + widths[k];
        k = k + 1;
    }
    total
}

/// Multiplies every width by one factor, and says whether all of them are still
/// widths a cell can have.
fn scale_all<V: Scalar, N: Elementary<V>>(math: &N, widths: &mut Vec<V>, factor: V) -> (r: bool)
    requires
        arithmetic::<V>(),
    ensures
        final(widths)@ == scaled(old(widths)@, factor),
        r == all_admissible(math, scaled(old(widths)@, factor)),
{
    let ghost first = widths@;
    let mut fine = true;
    let mut k: usize = 0;
    while k < widths.len()
        invariant
            arithmetic::<V>(),
            widths@.len() == first.len(),
            k <= first.len(),
            forall|j: int| 0 <= j < k ==> #[trigger] widths@[j] == times(first[j], factor),
            forall|j: int| k <= j < first.len() ==> #[trigger] widths@[j] == first[j],
            fine <==> forall|j: int|
                0 <= j < k ==> admissible(math, #[trigger] scaled(first, factor)[j]),
        decreases first.len() - k,
    {
        let value = widths[k] * factor;
        widths.set(k, value);
        assert(scaled(first, factor)[k as int] == value);
        if !(V::from(0u8) < value && math.is_finite(value)) {
            fine = false;
        }
        k = k + 1;
    }
    assert(widths@ =~= scaled(first, factor));
    fine
}

/// Cell widths along one axis, or nothing if the refinements are finer than the
/// domain can carry.
pub fn grade<V: Scalar, W: Scalar, N: Numerics<V, W>>(
    math: &N,
    axis: Axis,
    length: V,
    base: V,
    refinements: &Vec<Refinement<V>>,
    max_ratio: V,
) -> (r: Option<Spacing<V, W>>)
    requires
        arithmetic::<V>(),
        arithmetic::<W>(),
        admissible(math, finest_asked(refinements@, base, refinements@.len() as int)),
    ensures
        match graded_widths(math, axis, length, base, refinements@, max_ratio) {
            Some(widths) => {
                &&& r matches Some(spacing)
                &&& spacing.valid()
                &&& spacing.primary@ == widths
                &&& widths.len() <= MOST_CELLS
                &&& spacing.corners@ == Seq::new(
                    (widths.len() + 1) as nat,
                    |i: int| stacked::<V, W, N>(math, widths, i),
                )
            },
            None => r is None,
        },
{
    let finest = finest_of(refinements, base);
    let asked: usize = math.ceiling(length / finest * V::from(4u8));
    let samples: usize = if asked < 64 {
        64
    } else if asked > 0x10_0000 {
        0x10_0000
    } else {
        asked
    };
    let intervals: V = math.count(samples as u64);
    let step = length / intervals;
    let mut target: Vec<V> = Vec::new();
    let mut i: usize = 0;
    while i <= samples
        invariant
            arithmetic::<V>(),
            i <= samples + 1,
            samples <= 0x10_0000,
            step == over(length, math.count_of(samples as u64)),
            target@.len() == i,
            forall|j: int|
                0 <= j < i ==> #[trigger] target@[j] == profile(
                    math,
                    axis,
                    length,
                    base,
                    refinements@,
                    samples as int,
                )[j],
        decreases samples + 1 - i,
    {
        let place: V = math.count(i as u64);
        let position = place * step - one_half::<V>() * length;
        target.push(wanted_at(refinements, axis, base, position));
        i = i + 1;
    }
    assert(target@ =~= profile(math, axis, length, base, refinements@, samples as int));
    limit(&mut target, Cap::Slope((max_ratio - V::from(1u8)) * step));
    let mut widths = match march(math, &target, length, step) {
        Some(widths) => widths,
        None => {
            return None;
        },
    };
    if widths.len() < 2 {
        return None;
    }
    proof {
        lemma_march_is_bounded(math, target@, length, step, number::<V>(0), Seq::<V>::empty());
    }
    limit(&mut widths, Cap::Ratio(max_ratio));
    let mut total = sum_of(&widths);
    let ghost bounded = widths@;
    if widths.len() > 2 {
        let without = total - widths[widths.len() - 1];
        if magnitude(length - without) < magnitude(total - length) {
            widths.pop();
            total = without;
            assert(widths@ =~= bounded.drop_last());
        }
    }
    assert((widths@, total) == trimmed(bounded, length));
    if scale_all(math, &mut widths, length / total) {
        Some(Spacing::from_widths(math, widths))
    } else {
        None
    }
}

proof fn lemma_march_is_bounded<V: Scalar, N: Elementary<V>>(
    math: &N,
    target: Seq<V>,
    length: V,
    step: V,
    offset: V,
    widths: Seq<V>,
)
    requires
        widths.len() <= MOST_CELLS,
    ensures
        marched(math, target, length, step, offset, widths) matches Some(cells)
            ==> cells.len() <= MOST_CELLS,
    decreases MOST_CELLS + 1 - widths.len(),
{
    if below(offset, length) && widths.len() < MOST_CELLS {
        let width = target[sample_index(math, target.len() as int, step, offset)];
        lemma_march_is_bounded(
            math,
            target,
            length,
            step,
            plus(offset, width),
            widths.push(width),
        );
    }
}

/// Numbers that compare the way a line is ordered.
#[verifier::opaque]
pub open spec fn ordered<V: Scalar>() -> bool {
    &&& forall|a: V| #[trigger] same(a, a)
    &&& forall|a: V| #[trigger] at_most(a, a)
    &&& forall|a: V, b: V, c: V| #[trigger]
        at_most(a, b) && #[trigger] at_most(b, c) ==> at_most(a, c)
    &&& forall|a: V, b: V| #[trigger] below(a, b) ==> at_most(a, b)
    &&& forall|a: V, b: V| !(#[trigger] below(a, b)) ==> at_most(b, a)
}

/// Of widths above zero: a cap allows a width above zero beside each, it allows
/// more beside a larger one, and allowing twice over is never less than the width
/// itself.
#[verifier::opaque]
pub open spec fn grows<V: Scalar>(cap: Cap<V>) -> bool {
    let zero = number::<V>(0);
    &&& forall|a: V| below(zero, a) ==> below(zero, #[trigger] cap.beside(a))
    &&& forall|a: V, b: V|
        below(zero, a) && #[trigger] at_most(a, b) ==> at_most(cap.beside(a), cap.beside(b))
    &&& forall|a: V| below(zero, a) ==> at_most(a, #[trigger] cap.beside(cap.beside(a)))
}

/// Whether every width is above zero.
pub open spec fn all_positive<V: Scalar>(widths: Seq<V>) -> bool {
    forall|i: int| 0 <= i < widths.len() ==> below(number::<V>(0), #[trigger] widths[i])
}

proof fn lemma_risen_is_positive<V: Scalar>(widths: Seq<V>, cap: Cap<V>, i: int)
    requires
        grows(cap),
        all_positive(widths),
        0 <= i < widths.len(),
    ensures
        below(number::<V>(0), risen(widths, cap, i)),
    decreases i,
{
    reveal(grows);
    assert(below(number::<V>(0), widths[i]));
    if i > 0 {
        lemma_risen_is_positive(widths, cap, i - 1);
        assert(below(number::<V>(0), cap.beside(risen(widths, cap, i - 1))));
    }
}

proof fn lemma_fallen_is_positive<V: Scalar>(widths: Seq<V>, cap: Cap<V>, i: int)
    requires
        grows(cap),
        all_positive(widths),
        0 <= i < widths.len(),
    ensures
        below(number::<V>(0), fallen(widths, cap, i)),
    decreases widths.len() - i,
{
    reveal(grows);
    assert(below(number::<V>(0), widths[i]));
    if i < widths.len() - 1 {
        lemma_fallen_is_positive(widths, cap, i + 1);
        assert(below(number::<V>(0), cap.beside(fallen(widths, cap, i + 1))));
    }
}

/// The sweeps leave widths above zero above zero.
pub proof fn limited_widths_stay_positive<V: Scalar>(widths: Seq<V>, cap: Cap<V>)
    requires
        grows(cap),
        all_positive(widths),
    ensures
        all_positive(limited(widths, cap)),
{
    let up = Seq::new(widths.len(), |i: int| risen(widths, cap, i));
    assert forall|i: int| 0 <= i < up.len() implies below(number::<V>(0), #[trigger] up[i]) by {
        lemma_risen_is_positive(widths, cap, i);
    }
    assert forall|i: int| 0 <= i < widths.len() implies below(
        number::<V>(0),
        #[trigger] limited(widths, cap)[i],
    ) by {
        lemma_fallen_is_positive(up, cap, i);
    }
}

proof fn lemma_lesser<V: Scalar>(a: V, b: V)
    requires
        ordered::<V>(),
    ensures
        at_most(lesser_of(a, b), a),
        at_most(lesser_of(a, b), b),
{
    reveal(ordered);
    if below(b, a) {
        assert(at_most(b, a));
        assert(at_most(b, b));
    } else {
        assert(at_most(a, b));
        assert(at_most(a, a));
    }
}

proof fn lemma_fallen_is_lower<V: Scalar>(widths: Seq<V>, cap: Cap<V>, i: int)
    requires
        ordered::<V>(),
        0 <= i < widths.len(),
    ensures
        at_most(fallen(widths, cap, i), widths[i]),
{
    reveal(ordered);
    if i < widths.len() - 1 {
        lemma_lesser(widths[i], cap.beside(fallen(widths, cap, i + 1)));
    } else {
        assert(at_most(widths[i], widths[i]));
    }
}

/// After the two sweeps no width exceeds what either neighbour allows: one pass
/// each way is enough to make the cap hold in both directions.
pub proof fn limited_widths_respect_the_cap<V: Scalar>(widths: Seq<V>, cap: Cap<V>, i: int)
    requires
        ordered::<V>(),
        grows(cap),
        all_positive(widths),
        0 <= i < widths.len() - 1,
    ensures
        at_most(limited(widths, cap)[i], cap.beside(limited(widths, cap)[i + 1])),
        at_most(limited(widths, cap)[i + 1], cap.beside(limited(widths, cap)[i])),
{
    reveal(ordered);
    reveal(grows);
    let up = Seq::new(widths.len(), |i: int| risen(widths, cap, i));
    let a = fallen(up, cap, i);
    let b = fallen(up, cap, i + 1);
    assert(limited(widths, cap)[i] == a && limited(widths, cap)[i + 1] == b);
    limited_widths_stay_positive(widths, cap);
    assert(below(number::<V>(0), limited(widths, cap)[i + 1]));
    lemma_lesser(up[i], cap.beside(b));
    lemma_fallen_is_lower(up, cap, i + 1);
    lemma_lesser(widths[i + 1], cap.beside(risen(widths, cap, i)));
    assert(at_most(b, up[i + 1]));
    assert(at_most(up[i + 1], cap.beside(up[i])));
    assert(at_most(b, cap.beside(up[i])));
    if below(cap.beside(b), up[i]) {
        assert(a == cap.beside(b));
        assert(at_most(b, cap.beside(cap.beside(b))));
    } else {
        assert(a == up[i]);
    }
}

/// The sweeps only ever shrink a width.
pub proof fn limiting_only_shrinks<V: Scalar>(widths: Seq<V>, cap: Cap<V>, i: int)
    requires
        ordered::<V>(),
        0 <= i < widths.len(),
    ensures
        at_most(limited(widths, cap)[i], widths[i]),
{
    reveal(ordered);
    let up = Seq::new(widths.len(), |i: int| risen(widths, cap, i));
    lemma_fallen_is_lower(up, cap, i);
    if i > 0 {
        lemma_lesser(widths[i], cap.beside(risen(widths, cap, i - 1)));
    } else {
        assert(at_most(widths[0], widths[0]));
    }
    assert(at_most(fallen(up, cap, i), up[i]));
    assert(at_most(up[i], widths[i]));
}

/// And no more than they have to: widths that respect the cap both ways and are
/// nowhere above the ones asked for are nowhere above what the sweeps leave.
pub proof fn limiting_shrinks_no_more_than_it_must<V: Scalar>(
    widths: Seq<V>,
    cap: Cap<V>,
    other: Seq<V>,
    i: int,
)
    requires
        ordered::<V>(),
        forall|a: V, b: V|
            at_most(a, b) ==> at_most(#[trigger] cap.beside(a), #[trigger] cap.beside(b)),
        other.len() == widths.len(),
        forall|j: int| 0 <= j < other.len() ==> at_most(#[trigger] other[j], widths[j]),
        forall|j: int|
            #![trigger other[j]]
            0 <= j < other.len() - 1 ==> at_most(other[j], cap.beside(other[j + 1])) && at_most(
                other[j + 1],
                cap.beside(other[j]),
            ),
        0 <= i < widths.len(),
    ensures
        at_most(other[i], limited(widths, cap)[i]),
{
    let up = Seq::new(widths.len(), |i: int| risen(widths, cap, i));
    assert forall|j: int| 0 <= j < other.len() implies at_most(#[trigger] other[j], up[j]) by {
        lemma_risen_is_highest(widths, cap, other, j);
    }
    lemma_fallen_is_highest(up, cap, other, i);
}

proof fn lemma_risen_is_highest<V: Scalar>(widths: Seq<V>, cap: Cap<V>, other: Seq<V>, i: int)
    requires
        ordered::<V>(),
        forall|a: V, b: V|
            at_most(a, b) ==> at_most(#[trigger] cap.beside(a), #[trigger] cap.beside(b)),
        other.len() == widths.len(),
        forall|j: int| 0 <= j < other.len() ==> at_most(#[trigger] other[j], widths[j]),
        forall|j: int|
            #![trigger other[j]]
            0 <= j < other.len() - 1 ==> at_most(other[j + 1], cap.beside(other[j])),
        0 <= i < widths.len(),
    ensures
        at_most(other[i], risen(widths, cap, i)),
    decreases i,
{
    reveal(ordered);
    assert(at_most(other[i], widths[i]));
    if i > 0 {
        let before = risen(widths, cap, i - 1);
        lemma_risen_is_highest(widths, cap, other, i - 1);
        assert(at_most(other[i - 1 + 1], cap.beside(other[i - 1])));
        assert(at_most(cap.beside(other[i - 1]), cap.beside(before)));
        assert(at_most(other[i], cap.beside(before)));
    }
}

proof fn lemma_fallen_is_highest<V: Scalar>(widths: Seq<V>, cap: Cap<V>, other: Seq<V>, i: int)
    requires
        ordered::<V>(),
        forall|a: V, b: V|
            at_most(a, b) ==> at_most(#[trigger] cap.beside(a), #[trigger] cap.beside(b)),
        other.len() == widths.len(),
        forall|j: int| 0 <= j < other.len() ==> at_most(#[trigger] other[j], widths[j]),
        forall|j: int|
            #![trigger other[j]]
            0 <= j < other.len() - 1 ==> at_most(other[j], cap.beside(other[j + 1])),
        0 <= i < widths.len(),
    ensures
        at_most(other[i], fallen(widths, cap, i)),
    decreases widths.len() - i,
{
    reveal(ordered);
    assert(at_most(other[i], widths[i]));
    if i < widths.len() - 1 {
        let after = fallen(widths, cap, i + 1);
        lemma_fallen_is_highest(widths, cap, other, i + 1);
        assert(at_most(cap.beside(other[i + 1]), cap.beside(after)));
        assert(at_most(other[i], cap.beside(other[i + 1])));
        assert(at_most(other[i], cap.beside(after)));
    }
}

/// Whether widths times a factor are as far apart as the widths.
#[verifier::opaque]
pub open spec fn scales<V: Scalar>(ratio: V, factor: V) -> bool {
    forall|a: V, b: V|
        below(number::<V>(0), a) && below(number::<V>(0), b) && at_most(a, times(b, ratio))
            ==> #[trigger] at_most(times(a, factor), times(times(b, factor), ratio))
}

/// How fast the target width may change from sample to sample.
pub open spec fn slope_cap<V: Scalar, N: Elementary<V>>(
    math: &N,
    length: V,
    base: V,
    refinements: Seq<Refinement<V>>,
    max_ratio: V,
) -> Cap<V> {
    let finest = finest_asked(refinements, base, refinements.len() as int);
    let step = over(length, math.count_of(samples_for(math, length, finest) as u64));
    Cap::Slope(times(minus(max_ratio, number::<V>(1)), step))
}

proof fn lemma_wanted_is_positive<V: Scalar>(
    refinements: Seq<Refinement<V>>,
    axis: Axis,
    base: V,
    position: V,
    n: int,
)
    requires
        below(number::<V>(0), base),
        forall|k: int|
            0 <= k < refinements.len() ==> below(
                number::<V>(0),
                (#[trigger] refinements[k]).cell_size,
            ),
        0 <= n <= refinements.len(),
    ensures
        below(number::<V>(0), wanted(refinements, axis, base, position, n)),
    decreases n,
{
    if n > 0 {
        lemma_wanted_is_positive(refinements, axis, base, position, n - 1);
        assert(below(number::<V>(0), refinements[n - 1].cell_size));
    }
}

proof fn lemma_marched_is_positive<V: Scalar, N: Elementary<V>>(
    math: &N,
    target: Seq<V>,
    length: V,
    step: V,
    offset: V,
    widths: Seq<V>,
)
    requires
        target.len() >= 1,
        all_positive(target),
        all_positive(widths),
    ensures
        marched(math, target, length, step, offset, widths) matches Some(cells) ==> all_positive(
            cells,
        ),
    decreases MOST_CELLS + 1 - widths.len(),
{
    if below(offset, length) && widths.len() < MOST_CELLS {
        let width = target[sample_index(math, target.len() as int, step, offset)];
        assert(below(number::<V>(0), width));
        let more = widths.push(width);
        assert forall|i: int| 0 <= i < more.len() implies below(
            number::<V>(0),
            #[trigger] more[i],
        ) by {
            if i < widths.len() {
                assert(more[i] == widths[i]);
            }
        }
        lemma_marched_is_positive(math, target, length, step, plus(offset, width), more);
    }
}

/// Every cell laid out is above zero, if every size asked for is.
proof fn lemma_laid_out_is_positive<V: Scalar, N: Elementary<V>>(
    math: &N,
    axis: Axis,
    length: V,
    base: V,
    refinements: Seq<Refinement<V>>,
    max_ratio: V,
)
    requires
        grows(slope_cap(math, length, base, refinements, max_ratio)),
        below(number::<V>(0), base),
        forall|k: int|
            0 <= k < refinements.len() ==> below(
                number::<V>(0),
                (#[trigger] refinements[k]).cell_size,
            ),
    ensures
        laid_out(math, axis, length, base, refinements, max_ratio) matches Some(cells)
            ==> all_positive(cells),
{
    let finest = finest_asked(refinements, base, refinements.len() as int);
    let samples = samples_for(math, length, finest);
    let step = over(length, math.count_of(samples as u64));
    let asked = profile(math, axis, length, base, refinements, samples);
    assert forall|i: int| 0 <= i < asked.len() implies below(
        number::<V>(0),
        #[trigger] asked[i],
    ) by {
        lemma_wanted_is_positive(
            refinements,
            axis,
            base,
            sample_position(math, length, step, i),
            refinements.len() as int,
        );
    }
    let cap = slope_cap(math, length, base, refinements, max_ratio);
    limited_widths_stay_positive(asked, cap);
    lemma_marched_is_positive(
        math,
        limited(asked, cap),
        length,
        step,
        number::<V>(0),
        Seq::<V>::empty(),
    );
}

/// No cell of a graded axis is larger than its neighbour by more than the growth
/// cap, on either side: fitting the cells to the axis by one common factor leaves
/// every ratio alone.
pub proof fn graded_cells_respect_the_cap<V: Scalar, N: Elementary<V>>(
    math: &N,
    axis: Axis,
    length: V,
    base: V,
    refinements: Seq<Refinement<V>>,
    max_ratio: V,
    i: int,
)
    requires
        ordered::<V>(),
        grows(slope_cap(math, length, base, refinements, max_ratio)),
        grows(Cap::Ratio(max_ratio)),
        below(number::<V>(0), base),
        forall|k: int|
            0 <= k < refinements.len() ==> below(
                number::<V>(0),
                (#[trigger] refinements[k]).cell_size,
            ),
        laid_out(math, axis, length, base, refinements, max_ratio) matches Some(cells) ==> scales(
            max_ratio,
            over(length, trimmed(limited(cells, Cap::Ratio(max_ratio)), length).1),
        ),
    ensures
        graded_widths(math, axis, length, base, refinements, max_ratio) matches Some(widths) ==> (
        0 <= i < widths.len() - 1 ==> {
            &&& at_most(widths[i], times(widths[i + 1], max_ratio))
            &&& at_most(widths[i + 1], times(widths[i], max_ratio))
        }),
{
    let cap = Cap::Ratio(max_ratio);
    let cells = laid_out(math, axis, length, base, refinements, max_ratio);
    let widths = graded_widths(math, axis, length, base, refinements, max_ratio);
    if widths is Some && 0 <= i < widths->0.len() - 1 {
        let even = limited(cells->0, cap);
        let (kept, sum) = trimmed(even, length);
        let factor = over(length, sum);
        lemma_laid_out_is_positive(math, axis, length, base, refinements, max_ratio);
        limited_widths_stay_positive(cells->0, cap);
        assert(kept[i] == even[i] && kept[i + 1] == even[i + 1]);
        limited_widths_respect_the_cap(cells->0, cap, i);
        assert(at_most(even[i], times(even[i + 1], max_ratio)));
        assert(at_most(even[i + 1], times(even[i], max_ratio)));
        lemma_scaled(even[i], even[i + 1], max_ratio, factor);
        lemma_scaled(even[i + 1], even[i], max_ratio, factor);
    }
}

proof fn lemma_scaled<V: Scalar>(a: V, b: V, ratio: V, factor: V)
    requires
        scales(ratio, factor),
        below(number::<V>(0), a),
        below(number::<V>(0), b),
        at_most(a, times(b, ratio)),
    ensures
        at_most(times(a, factor), times(times(b, factor), ratio)),
{
    reveal(scales);
}

/// A sum of scaled widths is the sum, scaled.
proof fn lemma_scaled_sum<V: Scalar>(widths: Seq<V>, factor: V, n: int)
    requires
        ring::<V>(),
        0 <= n <= widths.len(),
    ensures
        summed(scaled(widths, factor), n) == times(summed(widths, n), factor),
    decreases n,
{
    multiply_commutes(summed(widths, n), factor);
    if n > 0 {
        let (before, last) = (summed(widths, n - 1), widths[n - 1]);
        lemma_scaled_sum(widths, factor, n - 1);
        multiply_spreads(factor, before, last);
        multiply_commutes(factor, before);
        multiply_commutes(factor, last);
    } else {
        multiply_by_nothing(factor);
    }
}

/// What comes after the first `n` widths has no part in their sum.
proof fn lemma_sum_of_prefix<V: Scalar>(a: Seq<V>, b: Seq<V>, n: int)
    requires
        n <= a.len(),
        n <= b.len(),
        forall|i: int| 0 <= i < n ==> #[trigger] a[i] == b[i],
    ensures
        summed(a, n) == summed(b, n),
    decreases n,
{
    if n > 0 {
        lemma_sum_of_prefix(a, b, n - 1);
    }
}

/// The total that comes with trimmed widths is their sum.
proof fn lemma_trimmed_total<V: Scalar>(widths: Seq<V>, length: V)
    requires
        ring::<V>(),
        widths.len() >= 1,
    ensures
        ({
            let (kept, total) = trimmed(widths, length);
            summed(kept, kept.len() as int) == total
        }),
{
    let n = widths.len() - 1;
    let (before, last) = (summed(widths, n), widths[n]);
    // (before + last) - last = before.
    take_away(plus(before, last), last);
    take_away(last, last);
    add_regroups(before, last, negative(last));
    add_nothing(before);
    lemma_sum_of_prefix(widths.drop_last(), widths, n);
}

/// Whether the length over the total of the cells laid out, times that total, is
/// the length again.
pub open spec fn divides_back<V: Scalar, N: Elementary<V>>(
    math: &N,
    axis: Axis,
    length: V,
    base: V,
    refinements: Seq<Refinement<V>>,
    max_ratio: V,
) -> bool {
    laid_out(math, axis, length, base, refinements, max_ratio) matches Some(cells) ==> ({
        let total = trimmed(limited(cells, Cap::Ratio(max_ratio)), length).1;
        times(total, over(length, total)) == length
    })
}

/// The cells of a graded axis add up to its length, where a quotient times its
/// divisor is what was divided and nothing is rounded.
pub proof fn graded_cells_add_up<V: Scalar, N: Elementary<V>>(
    math: &N,
    axis: Axis,
    length: V,
    base: V,
    refinements: Seq<Refinement<V>>,
    max_ratio: V,
)
    requires
        ring::<V>(),
        divides_back(math, axis, length, base, refinements, max_ratio),
    ensures
        graded_widths(math, axis, length, base, refinements, max_ratio) matches Some(widths)
            ==> summed(widths, widths.len() as int) == length,
{
    let cells = laid_out(math, axis, length, base, refinements, max_ratio);
    let widths = graded_widths(math, axis, length, base, refinements, max_ratio);
    if widths is Some {
        let even = limited(cells->0, Cap::Ratio(max_ratio));
        let (kept, total) = trimmed(even, length);
        lemma_trimmed_total(even, length);
        lemma_scaled_sum(kept, over(length, total), kept.len() as int);
    }
}

proof fn lemma_stacked_is_summed<V: Scalar, W: Scalar, N: Numerics<V, W>>(
    math: &N,
    widths: Seq<V>,
    n: int,
)
    requires
        forall|a: V, b: V| #[trigger] math.wide(plus(a, b)) == plus(math.wide(a), math.wide(b)),
        math.wide(number::<V>(0)) == number::<W>(0),
        0 <= n <= widths.len(),
    ensures
        stacked::<V, W, N>(math, widths, n) == math.wide(summed(widths, n)),
    decreases n,
{
    if n > 0 {
        lemma_stacked_is_summed::<V, W, N>(math, widths, n - 1);
        assert(math.wide(plus(summed(widths, n - 1), widths[n - 1])) == plus(
            math.wide(summed(widths, n - 1)),
            math.wide(widths[n - 1]),
        ));
    }
}

/// The last corner of a graded axis lands on the far wall, where nothing is
/// rounded.
pub proof fn graded_corners_end_at_the_wall<V: Scalar, W: Scalar, N: Numerics<V, W>>(
    math: &N,
    axis: Axis,
    length: V,
    base: V,
    refinements: Seq<Refinement<V>>,
    max_ratio: V,
)
    requires
        ring::<V>(),
        forall|a: V, b: V| #[trigger] math.wide(plus(a, b)) == plus(math.wide(a), math.wide(b)),
        math.wide(number::<V>(0)) == number::<W>(0),
        divides_back(math, axis, length, base, refinements, max_ratio),
    ensures
        graded_widths(math, axis, length, base, refinements, max_ratio) matches Some(widths)
            ==> stacked::<V, W, N>(math, widths, widths.len() as int) == math.wide(length),
{
    graded_cells_add_up(math, axis, length, base, refinements, max_ratio);
    if let Some(widths) = graded_widths(math, axis, length, base, refinements, max_ratio) {
        lemma_stacked_is_summed::<V, W, N>(math, widths, widths.len() as int);
    }
}

/// Where a refinement reaches, no wider cell is wanted than it asks for; where none
/// does, the base width is; and nowhere is a wider one wanted than that.
pub proof fn refinements_are_heeded<V: Scalar>(
    refinements: Seq<Refinement<V>>,
    axis: Axis,
    base: V,
    position: V,
    n: int,
    k: int,
)
    requires
        ordered::<V>(),
        0 <= k < n <= refinements.len(),
    ensures
        refinements[k].reaches(axis, position) ==> at_most(
            wanted(refinements, axis, base, position, n),
            refinements[k].cell_size,
        ),
        (forall|j: int|
            0 <= j < n ==> !(#[trigger] refinements[j]).reaches(axis, position)) ==> wanted(
            refinements,
            axis,
            base,
            position,
            n,
        ) == base,
        at_most(wanted(refinements, axis, base, position, n), base),
    decreases n,
{
    reveal(ordered);
    let before = wanted(refinements, axis, base, position, n - 1);
    let here = refinements[n - 1];
    assert(at_most(base, base) && at_most(before, before));
    lemma_lesser(before, here.cell_size);
    if n > 1 {
        refinements_are_heeded(refinements, axis, base, position, n - 1, if k < n - 1 {
            k
        } else {
            0
        });
    }
    if forall|j: int| 0 <= j < n ==> !(#[trigger] refinements[j]).reaches(axis, position) {
        assert(!here.reaches(axis, position));
    }
}

/// A refinement reaches half of its size either side of its centre.
pub proof fn refinements_lie_between_their_edges<V: Scalar>(
    refinement: Refinement<V>,
    axis: Axis,
    position: V,
)
    requires
        field::<V>(),
    ensures
        ({
            let center = refinement.center@[axis.position()];
            let part = times(half::<V>(), refinement.size@[axis.position()]);
            refinement.reaches(axis, position) <==> at_most(minus(center, part), position)
                && at_most(position, plus(center, part))
        }),
{
    lemma_between(
        position,
        refinement.center@[axis.position()],
        times(half::<V>(), refinement.size@[axis.position()]),
    );
}

/// The finest cell asked for is at or below the base and every refinement, and is one
/// of them.
pub proof fn the_finest_asked_is_the_finest<V: Scalar>(
    refinements: Seq<Refinement<V>>,
    base: V,
    n: int,
    k: int,
)
    requires
        ordered::<V>(),
        0 <= k < n <= refinements.len(),
    ensures
        at_most(finest_asked(refinements, base, n), refinements[k].cell_size),
        at_most(finest_asked(refinements, base, n), base),
        finest_asked(refinements, base, n) == base || exists|j: int|
            0 <= j < n && (#[trigger] refinements[j]).cell_size == finest_asked(
                refinements,
                base,
                n,
            ),
    decreases n,
{
    reveal(ordered);
    let before = finest_asked(refinements, base, n - 1);
    let last = refinements[n - 1].cell_size;
    assert(at_most(base, base) && at_most(before, before));
    lemma_lesser(before, last);
    if n > 1 {
        the_finest_asked_is_the_finest(refinements, base, n - 1, if k < n - 1 {
            k
        } else {
            0
        });
        if before != base {
            let j = choose|j: int|
                0 <= j < n - 1 && (#[trigger] refinements[j]).cell_size == before;
            assert(refinements[j].cell_size == before);
        }
    }
    assert(refinements[n - 1].cell_size == last);
}

/// A band across one axis, which is of a size below zero along the others, reaches
/// nothing along those.
pub proof fn bands_leave_the_other_axes_alone<V: Scalar>(
    refinement: Refinement<V>,
    axis: Axis,
    position: V,
)
    requires
        field::<V>(),
        below(refinement.size@[axis.position()], number::<V>(0)),
    ensures
        !refinement.reaches(axis, position),
{
    let zero = number::<V>(0);
    let size = refinement.size@[axis.position()];
    let offset = minus(position, refinement.center@[axis.position()]);
    let part = times(half::<V>(), size);
    parts(size, size);
    multiply_by_nothing(half::<V>());
    products_keep_order(size, zero, half::<V>());
    multiply_commutes(size, half::<V>());
    magnitudes(offset, part);
    below_through(part, zero, magnitude_of(offset));
    one_way_or_the_other(magnitude_of(offset), part);
}

/// The target width is sampled four times across the smallest cell asked for, or
/// oftener, so that no cell steps over a refinement; up to a limit.
pub proof fn sampling_is_finer_than_any_cell<V: Scalar, N: Elementary<V>>(
    math: &N,
    length: V,
    finest: V,
)
    requires
        field::<V>(),
        below(number::<V>(0), finest),
        // The smallest index not below a number is not below it.
        forall|x: V| at_most(x, math.count_of(#[trigger] math.ceiling_of(x) as u64)),
        forall|a: u64, b: u64|
            a <= b ==> at_most(#[trigger] math.count_of(a), #[trigger] math.count_of(b)),
        math.ceiling_of(times(over(length, finest), number::<V>(4))) <= 0x10_0000,
    ensures
        at_most(
            times(length, number::<V>(4)),
            times(finest, math.count_of(samples_for(math, length, finest) as u64)),
        ),
{
    let four = number::<V>(4);
    let ratio = over(length, finest);
    let wanted = times(ratio, four);
    let asked = math.ceiling_of(wanted) as u64;
    let samples = samples_for(math, length, finest) as u64;
    assert(asked <= samples);
    assert(at_most(math.count_of(asked), math.count_of(samples)));
    below_through(wanted, math.count_of(asked), math.count_of(samples));
    below_through(number::<V>(0), finest, finest);
    products_keep_order(wanted, math.count_of(samples), finest);
    multiply_commutes(math.count_of(samples), finest);
    // (length/finest · 4) · finest = length · 4.
    parts(length, finest);
    multiply_regroups(ratio, four, finest);
    multiply_commutes(four, finest);
    multiply_regroups(ratio, finest, four);
}

/// Of keeping the last cell and dropping it, the one that ends nearer to the wall is
/// chosen.
pub proof fn trimming_ends_nearer_to_the_wall<V: Scalar>(widths: Seq<V>, length: V)
    requires
        field::<V>(),
        widths.len() > 2,
    ensures
        ({
            let all = summed(widths, widths.len() as int);
            let fewer = summed(widths, widths.len() - 1);
            let kept = trimmed(widths, length).1;
            &&& kept == all || kept == fewer
            &&& at_most(magnitude_of(minus(length, kept)), magnitude_of(minus(length, all)))
            &&& at_most(magnitude_of(minus(length, kept)), magnitude_of(minus(length, fewer)))
        }),
{
    let n = widths.len() as int;
    let (all, last) = (summed(widths, n), widths[n - 1]);
    let fewer = summed(widths, n - 1);
    take_away(plus(fewer, last), last);
    take_away(last, last);
    add_regroups(fewer, last, negative(last));
    add_nothing(fewer);
    assert(minus(all, last) == fewer);
    lemma_size_of_difference(all, length);
    let (a, b) = (magnitude_of(minus(length, fewer)), magnitude_of(minus(length, all)));
    one_way_or_the_other(a, b);
    below_through(a, b, b);
    below_through(b, a, a);
    below_through(a, a, a);
    below_through(b, b, b);
}

/// A difference is as large either way round.
proof fn lemma_size_of_difference<V: Scalar>(a: V, b: V)
    requires
        field::<V>(),
    ensures
        magnitude_of(minus(a, b)) == magnitude_of(minus(b, a)),
{
    let (p, q) = (minus(a, b), minus(b, a));
    let zero = number::<V>(0);
    negatives(a, b);
    negatives(b, a);
    magnitudes(p, p);
    magnitudes(q, q);
    let (m, k) = (magnitude_of(p), magnitude_of(q));
    one_way_or_the_other(p, zero);
    one_way_or_the_other(q, zero);
    negatives(p, q);
    negatives(zero, zero);
    // Both are not below zero and have the same square.
    negatives(p, p);
    negatives(p, negative(p));
    negatives(times(p, p), p);
    squares_keep_order(m, k);
    squares_keep_order(k, m);
    one_way_or_the_other(m, k);
    one_way_or_the_other(k, m);
    below_through(times(m, m), times(m, m), times(m, m));
}

/// The samples run evenly from half of the length below the centre to half of it
/// above.
pub proof fn samples_run_from_wall_to_wall<V: Scalar, N: Elementary<V>>(
    math: &N,
    length: V,
    samples: int,
    i: int,
)
    requires
        field::<V>(),
        1 <= samples <= 0x10_0000,
        0 <= i < samples,
        below(number::<V>(0), math.count_of(samples as u64)),
        math.count_of(0) == number::<V>(0),
        math.count_of((i + 1) as u64) == plus(math.count_of(i as u64), number::<V>(1)),
    ensures
        ({
            let step = over(length, math.count_of(samples as u64));
            let wall = times(half::<V>(), length);
            &&& sample_position(math, length, step, 0) == negative(wall)
            &&& sample_position(math, length, step, samples) == wall
            &&& sample_position(math, length, step, i + 1) == plus(
                sample_position(math, length, step, i),
                step,
            )
        }),
{
    let (zero, one) = (number::<V>(0), number::<V>(1));
    let count = math.count_of(samples as u64);
    let step = over(length, count);
    let wall = times(half::<V>(), length);
    multiply_by_nothing(step);
    take_away(zero, wall);
    add_nothing(negative(wall));
    // samples·step = length, and length is twice the wall.
    parts(length, count);
    multiply_commutes(count, step);
    multiply_spreads(half::<V>(), length, length);
    parts(length, length);
    take_away(plus(wall, wall), wall);
    take_away(wall, wall);
    add_regroups(wall, wall, negative(wall));
    add_nothing(wall);
    // One sample on is one step on.
    let here = math.count_of(i as u64);
    multiply_commutes(plus(here, one), step);
    multiply_spreads(step, here, one);
    multiply_commutes(step, here);
    parts(step, step);
    let place = times(here, step);
    take_away(plus(place, step), wall);
    take_away(place, wall);
    add_regroups(place, step, negative(wall));
    add_commutes(step, negative(wall));
    add_regroups(place, negative(wall), step);
}

/// A cell takes its width from the sample it starts in.
pub proof fn cells_take_the_sample_they_start_in<V: Scalar, N: Elementary<V>>(
    math: &N,
    count: int,
    step: V,
    offset: V,
    i: int,
    part: V,
)
    requires
        field::<V>(),
        below(number::<V>(0), step),
        0 <= i < count,
        math.floor_of(plus(math.count_of(i as u64), part)) == i,
        offset == times(plus(math.count_of(i as u64), part), step),
    ensures
        sample_index(math, count, step, offset) == i,
{
    let place = plus(math.count_of(i as u64), part);
    parts(offset, step);
    factors_come_off(over(offset, step), place, step);
}

} // verus!
