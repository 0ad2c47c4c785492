//! Cell widths along one axis.
//!
//! Cells are boxes, not cubes: each axis carries its own list of widths, so
//! resolution can be spent where the physics is small and saved where it is not.
//! A uniform grid is a [`Spacing`] whose widths happen to be equal.
//!
//! # Two spacings, and confusing them is the graded off-by-half
//!
//! | | measured between | used by |
//! |---|---|---|
//! | primary `Δ[i]` | corner `i` and corner `i+1` | the `H` update |
//! | dual `Δ̃[i]` | centre `i−1` and centre `i` | the `E` update |
//!
//! `E` sits on integer positions and `H` on half positions, so a difference of `E`
//! spans one whole cell, while a difference of `H` spans two half cells that may be
//! different sizes.

use crate::numerics::{Elementary, Numerics};
use crate::scalar::{
    arithmetic, at_most, below, greater, greater_of, half, lesser, lesser_of, minus, number,
    one_half, over, plus, same, times, Scalar,
};
use vstd::prelude::*;

verus! {

/// The widths of the cells along one axis, and where their corners are.
#[derive(Debug)]
pub struct Spacing<V, W> {
    /// Cell widths, low edge first.
    pub primary: Vec<V>,
    /// Centre-to-centre distances.
    pub dual: Vec<V>,
    /// Corner positions from the low edge; one more than there are cells.
    ///
    /// In the wider precision: a running sum of a few hundred widths drifts by
    /// enough to land a source one cell over, which reads as a physics bug.
    pub corners: Vec<W>,
}

/// Whether a width is one a cell can have.
pub open spec fn admissible<V: Scalar, N: Elementary<V>>(math: &N, width: V) -> bool {
    &&& below(number::<V>(0), width)
    &&& math.finite_at(width)
}

/// Whether a width is one a cell can have.
pub fn is_admissible<V: Scalar, N: Elementary<V>>(math: &N, width: V) -> (r: bool)
    requires
        arithmetic::<V>(),
    ensures
        r == admissible(math, width),
{
    V::from(0u8) < width && math.is_finite(width)
}

/// Whether every width is one a cell can have.
pub open spec fn all_admissible<V: Scalar, N: Elementary<V>>(math: &N, widths: Seq<V>) -> bool {
    forall|i: int| 0 <= i < widths.len() ==> admissible(math, #[trigger] widths[i])
}

/// The dual width at `i` spans the two half cells either side of corner `i`. At
/// the low edge the left half lies outside the domain, and the first cell is
/// mirrored there.
pub open spec fn dual_width<V: Scalar>(primary: Seq<V>, i: int) -> V {
    times(half::<V>(), plus(primary[if i == 0 { 0 } else { i - 1 }], primary[i]))
}

/// Corner `i` of cells laid end to end from the low edge.
pub open spec fn stacked<V: Scalar, W: Scalar, N: Numerics<V, W>>(
    math: &N,
    widths: Seq<V>,
    i: int,
) -> W
    decreases i,
{
    if i <= 0 {
        number::<W>(0)
    } else {
        plus(stacked::<V, W, N>(math, widths, i - 1), math.wide(widths[i - 1]))
    }
}

/// Corner `i` of equal cells.
pub open spec fn spaced<V: Scalar, W: Scalar, N: Numerics<V, W>>(math: &N, width: V, i: int) -> W {
    times(math.count_of(i as u64), math.wide(width))
}

/// Smallest of the first `n` widths.
pub open spec fn least<V: Scalar, N: Elementary<V>>(math: &N, widths: Seq<V>, n: int) -> V
    decreases n,
{
    if n <= 0 {
        math.infinity_of()
    } else {
        lesser_of(least(math, widths, n - 1), widths[n - 1])
    }
}

/// Largest of the first `n` widths.
pub open spec fn greatest<V: Scalar, N: Elementary<V>>(math: &N, widths: Seq<V>, n: int) -> V
    decreases n,
{
    if n <= 0 {
        minus(number::<V>(0), math.infinity_of())
    } else {
        greater_of(greatest(math, widths, n - 1), widths[n - 1])
    }
}

/// How much two neighbouring widths differ, as a ratio not below one.
pub open spec fn step_ratio<V: Scalar>(a: V, b: V) -> V {
    greater_of(over(b, a), over(a, b))
}

/// Largest ratio between neighbours among the first `n` pairs.
pub open spec fn greatest_ratio<V: Scalar>(widths: Seq<V>, n: int) -> V
    decreases n,
{
    if n <= 0 {
        number::<V>(1)
    } else {
        greater_of(greatest_ratio(widths, n - 1), step_ratio(widths[n - 1], widths[n]))
    }
}

/// How many corners, from the first on, are not past an offset.
pub open spec fn corners_reached<W: Scalar>(corners: Seq<W>, offset: W) -> int
    decreases corners.len(),
{
    if corners.len() == 0 || !at_most(corners[0], offset) {
        0
    } else {
        1 + corners_reached(corners.drop_first(), offset)
    }
}

pub(crate) proof fn lemma_corners_reached<W: Scalar>(corners: Seq<W>, offset: W, n: int)
    requires
        0 <= n <= corners.len(),
        forall|i: int| 0 <= i < n ==> at_most(#[trigger] corners[i], offset),
        n == corners.len() || !at_most(corners[n], offset),
    ensures
        corners_reached(corners, offset) == n,
    decreases n,
{
    if n > 0 {
        assert(at_most(corners[0], offset));
        let rest = corners.drop_first();
        assert forall|i: int| 0 <= i < n - 1 implies at_most(#[trigger] rest[i], offset) by {
            assert(rest[i] == corners[i + 1]);
        }
        if n < corners.len() {
            assert(rest[n - 1] == corners[n]);
        }
        lemma_corners_reached(rest, offset, n - 1);
    }
}

/// A copy of a list.
pub(crate) fn copied<T: Copy>(list: &Vec<T>) -> (r: Vec<T>)
    ensures
        r@ == list@,
{
    let mut out: Vec<T> = Vec::new();
    let mut i: usize = 0;
    while i < list.len()
        invariant
            i <= list@.len(),
            out@ == list@.subrange(0, i as int),
        decreases list@.len() - i,
    {
        out.push(list[i]);
        i = i + 1;
        assert(out@ =~= list@.subrange(0, i as int));
    }
    assert(out@ =~= list@);
    out
}

impl<V: Scalar, W: Scalar> Spacing<V, W> {
    /// At least two cells, each with a dual width, and a corner at either end
    /// of each.
    pub open spec fn valid(self) -> bool {
        &&& self.primary@.len() >= 2
        &&& self.dual@.len() == self.primary@.len()
        &&& self.corners@.len() == self.primary@.len() + 1
        &&& forall|i: int|
            0 <= i < self.primary@.len() ==> #[trigger] self.dual@[i] == dual_width(
                self.primary@,
                i,
            )
    }

    /// Distance from the low edge to the high one.
    pub open spec fn span_of(self) -> W {
        self.corners@[self.corners@.len() - 1]
    }

    /// The cell whose offset range is used for a cell coordinate.
    pub open spec fn cell_of_coordinate<N: Elementary<V>>(self, math: &N, coordinate: V) -> int {
        let floor = math.floor_of(coordinate) as int;
        if floor < self.primary@.len() {
            floor
        } else {
            self.primary@.len() - 1
        }
    }

    /// Distance of a cell coordinate from the low edge.
    pub open spec fn offset_at<N: Numerics<V, W>>(self, math: &N, coordinate: V) -> W {
        let index = self.cell_of_coordinate(math, coordinate);
        plus(
            self.corners@[index],
            times(
                math.wide(minus(coordinate, math.count_of(index as u64))),
                math.wide(self.primary@[index]),
            ),
        )
    }

    /// Position of a cell coordinate, measured from the centre of the axis.
    pub open spec fn position_at<N: Numerics<V, W>>(self, math: &N, coordinate: V) -> V {
        math.narrowed(
            minus(self.offset_at(math, coordinate), times(half::<W>(), self.span_of())),
        )
    }

    /// The cell an offset from the low edge falls in, clamped to the axis.
    pub open spec fn cell_of_offset(self, offset: W) -> int {
        let reached = corners_reached(self.corners@, offset);
        let cell = if reached == 0 {
            0
        } else {
            reached - 1
        };
        if cell < self.primary@.len() {
            cell
        } else {
            self.primary@.len() - 1
        }
    }

    /// Whether every cell is as wide as the first.
    pub open spec fn even(self) -> bool {
        forall|i: int|
            0 <= i < self.primary@.len() ==> same(#[trigger] self.primary@[i], self.primary@[0])
    }

    /// Distance from the low edge of a position measured from the centre.
    pub open spec fn offset_of_position<N: Numerics<V, W>>(self, math: &N, position: V) -> W {
        plus(math.wide(position), times(half::<W>(), self.span_of()))
    }

    /// Cell coordinate of a position measured from the centre.
    pub open spec fn coordinate_at<N: Numerics<V, W>>(self, math: &N, position: V) -> V {
        let offset = self.offset_of_position(math, position);
        let index = self.cell_of_offset(offset);
        math.narrowed(
            plus(
                math.count_of(index as u64),
                over(minus(offset, self.corners@[index]), math.wide(self.primary@[index])),
            ),
        )
    }

    /// Equal cells, which is what every scene gets until it asks otherwise.
    ///
    /// Corners are multiplied out rather than accumulated, so that the domain
    /// centre falls on a corner exactly.
    pub fn uniform<N: Numerics<V, W>>(math: &N, count: u32, width: V) -> (r: Self)
        requires
            arithmetic::<V>(),
            arithmetic::<W>(),
            count >= 2,
            admissible(math, width),
        ensures
            r.valid(),
            r.primary@ == Seq::new(count as nat, |i: int| width),
            r.corners@ == Seq::new((count + 1) as nat, |i: int| spaced::<V, W, N>(math, width, i)),
    {
        let mut primary: Vec<V> = Vec::new();
        let mut corners: Vec<W> = Vec::new();
        let wide: W = math.widen(width);
        let mut i: u32 = 0;
        while i < count
            invariant
                arithmetic::<W>(),
                i <= count,
                wide == math.wide(width),
                primary@.len() == i,
                corners@.len() == i,
                forall|j: int| 0 <= j < i ==> #[trigger] primary@[j] == width,
                forall|j: int|
                    0 <= j < i ==> #[trigger] corners@[j] == spaced::<V, W, N>(math, width, j),
            decreases count - i,
        {
            primary.push(width);
            let place: W = math.count(i as u64);
            corners.push(place * wide);
            i = i + 1;
        }
        let place: W = math.count(count as u64);
        corners.push(place * wide);
        assert(corners@ =~= Seq::new(
            (count + 1) as nat,
            |i: int| spaced::<V, W, N>(math, width, i),
        ));
        assert(primary@ =~= Seq::new(count as nat, |i: int| width));
        Self::assemble(primary, corners)
    }

    /// Arbitrary cell widths, low edge first.
    pub fn from_widths<N: Numerics<V, W>>(math: &N, primary: Vec<V>) -> (r: Self)
        requires
            arithmetic::<V>(),
            arithmetic::<W>(),
            primary@.len() >= 2,
            all_admissible(math, primary@),
        ensures
            r.valid(),
            r.primary@ == primary@,
            r.corners@ == Seq::new(
                (primary@.len() + 1) as nat,
                |i: int| stacked::<V, W, N>(math, primary@, i),
            ),
    {
        let mut corners: Vec<W> = Vec::new();
        let mut offset: W = W::from(0u8);
        corners.push(offset);
        let mut i: usize = 0;
        while i < primary.len()
            invariant
                arithmetic::<W>(),
                i <= primary@.len(),
                corners@.len() == i + 1,
                offset == stacked::<V, W, N>(math, primary@, i as int),
                forall|j: int|
                    0 <= j <= i ==> #[trigger] corners@[j] == stacked::<V, W, N>(
                        math,
                        primary@,
                        j,
                    ),
            decreases primary@.len() - i,
        {
            let wide: W = math.widen(primary[i]);
            offset = offset + wide;
            corners.push(offset);
            i = i + 1;
        }
        assert(corners@ =~= Seq::new(
            (primary@.len() + 1) as nat,
            |i: int| stacked::<V, W, N>(math, primary@, i),
        ));
        Self::assemble(primary, corners)
    }

    fn assemble(primary: Vec<V>, corners: Vec<W>) -> (r: Self)
        requires
            arithmetic::<V>(),
            primary@.len() >= 2,
            corners@.len() == primary@.len() + 1,
        ensures
            r.valid(),
            r.primary@ == primary@,
            r.corners@ == corners@,
    {
        let mut dual: Vec<V> = Vec::new();
        let mut i: usize = 0;
        while i < primary.len()
            invariant
                arithmetic::<V>(),
                i <= primary@.len(),
                dual@.len() == i,
                forall|j: int| 0 <= j < i ==> #[trigger] dual@[j] == dual_width(primary@, j),
            decreases primary@.len() - i,
        {
            let left: usize = if i == 0 {
                0
            } else {
                i - 1
            };
            dual.push(one_half::<V>() * (primary[left] + primary[i]));
            i = i + 1;
        }
        Spacing { primary, dual, corners }
    }

    /// A copy of this spacing.
    pub fn duplicate(&self) -> (r: Self)
        ensures
            r.primary@ == self.primary@,
            r.dual@ == self.dual@,
            r.corners@ == self.corners@,
    {
        Spacing {
            primary: copied(&self.primary),
            dual: copied(&self.dual),
            corners: copied(&self.corners),
        }
    }

    pub fn count(&self) -> (r: u32)
        requires
            self.primary@.len() <= u32::MAX,
        ensures
            r == self.primary@.len(),
    {
        self.primary.len() as u32
    }

    /// Cell widths, for the `H` update.
    pub fn primary(&self) -> (r: &[V])
        ensures
            r@ == self.primary@,
    {
        self.primary.as_slice()
    }

    /// Centre-to-centre distances, for the `E` update.
    pub fn dual(&self) -> (r: &[V])
        ensures
            r@ == self.dual@,
    {
        self.dual.as_slice()
    }

    /// Total length of the axis, in metres.
    pub fn length<N: Numerics<V, W>>(&self, math: &N) -> (r: V)
        requires
            self.valid(),
        ensures
            r == math.narrowed(self.span_of()),
    {
        math.narrow(self.span())
    }

    fn span(&self) -> (r: W)
        requires
            self.valid(),
        ensures
            r == self.span_of(),
    {
        self.corners[self.corners.len() - 1]
    }

    /// Smallest cell width.
    pub fn finest<N: Elementary<V>>(&self, math: &N) -> (r: V)
        requires
            arithmetic::<V>(),
        ensures
            r == least(math, self.primary@, self.primary@.len() as int),
    {
        let mut finest: V = math.infinity();
        let mut i: usize = 0;
        while i < self.primary.len()
            invariant
                arithmetic::<V>(),
                i <= self.primary@.len(),
                finest == least(math, self.primary@, i as int),
            decreases self.primary@.len() - i,
        {
            finest = lesser(finest, self.primary[i]);
            i = i + 1;
        }
        finest
    }

    /// Largest cell width.
    pub fn coarsest<N: Elementary<V>>(&self, math: &N) -> (r: V)
        requires
            arithmetic::<V>(),
        ensures
            r == greatest(math, self.primary@, self.primary@.len() as int),
    {
        let mut coarsest: V = V::from(0u8) - math.infinity();
        let mut i: usize = 0;
        while i < self.primary.len()
            invariant
                arithmetic::<V>(),
                i <= self.primary@.len(),
                coarsest == greatest(math, self.primary@, i as int),
            decreases self.primary@.len() - i,
        {
            coarsest = greater(coarsest, self.primary[i]);
            i = i + 1;
        }
        coarsest
    }

    /// Largest ratio between neighbouring cells, which is the number that says
    /// whether the grading is smooth enough to stay second-order accurate.
    pub fn worst_ratio(&self) -> (r: V)
        requires
            arithmetic::<V>(),
            self.valid(),
        ensures
            r == greatest_ratio(self.primary@, self.primary@.len() - 1),
    {
        let mut worst: V = V::from(1u8);
        let mut i: usize = 1;
        while i < self.primary.len()
            invariant
                arithmetic::<V>(),
                1 <= i <= self.primary@.len(),
                worst == greatest_ratio(self.primary@, i - 1),
            decreases self.primary@.len() - i,
        {
            let a = self.primary[i - 1];
            let b = self.primary[i];
            worst = greater(worst, greater(b / a, a / b));
            i = i + 1;
        }
        worst
    }

    /// Position of a possibly fractional cell coordinate, measured from the
    /// *centre* of the axis.
    ///
    /// Centred here rather than in the caller so that the half-length is
    /// subtracted in the wider precision, against the same corners the forward
    /// map uses.
    pub fn position<N: Numerics<V, W>>(&self, math: &N, coordinate: V) -> (r: V)
        requires
            arithmetic::<V>(),
            arithmetic::<W>(),
            self.valid(),
        ensures
            r == self.position_at(math, coordinate),
    {
        let offset: W = self.offset_of(math, coordinate);
        math.narrow(offset - one_half::<W>() * self.span())
    }

    /// Cell coordinate of a position measured from the centre: the inverse of
    /// [`Self::position`], which on a graded axis is a search rather than a
    /// division.
    pub fn coordinate<N: Numerics<V, W>>(&self, math: &N, position: V) -> (r: V)
        requires
            arithmetic::<V>(),
            arithmetic::<W>(),
            self.valid(),
        ensures
            r == self.coordinate_at(math, position),
    {
        let wide: W = math.widen(position);
        let offset: W = wide + one_half::<W>() * self.span();
        let index: usize = self.containing(offset);
        let place: W = math.count(index as u64);
        let width: W = math.widen(self.primary[index]);
        math.narrow(place + (offset - self.corners[index]) / width)
    }

    /// Whether every cell is as wide as the first.
    pub fn is_even(&self) -> (r: bool)
        requires
            arithmetic::<V>(),
            self.valid(),
        ensures
            r == self.even(),
    {
        let first = self.primary[0];
        let mut i: usize = 0;
        while i < self.primary.len()
            invariant
                arithmetic::<V>(),
                i <= self.primary@.len(),
                self.primary@.len() >= 1,
                first == self.primary@[0],
                forall|j: int| 0 <= j < i ==> same(#[trigger] self.primary@[j], first),
            decreases self.primary@.len() - i,
        {
            if self.primary[i] != first {
                assert(!same(self.primary@[i as int], first));
                return false;
            }
            i = i + 1;
        }
        true
    }

    /// Index of the cell an offset from the low edge falls in.
    fn containing(&self, offset: W) -> (r: usize)
        requires
            arithmetic::<W>(),
            self.valid(),
        ensures
            r == self.cell_of_offset(offset),
            r < self.primary@.len(),
    {
        let mut reached: usize = 0;
        while reached < self.corners.len() && self.corners[reached] <= offset
            invariant
                arithmetic::<W>(),
                reached <= self.corners@.len(),
                forall|i: int| 0 <= i < reached ==> at_most(#[trigger] self.corners@[i], offset),
            ensures
                reached <= self.corners@.len(),
                forall|i: int| 0 <= i < reached ==> at_most(#[trigger] self.corners@[i], offset),
                reached == self.corners@.len() || !at_most(self.corners@[reached as int], offset),
            decreases self.corners@.len() - reached,
        {
            reached = reached + 1;
        }
        proof {
            lemma_corners_reached(self.corners@, offset, reached as int);
        }
        let cell: usize = if reached == 0 {
            0
        } else {
            reached - 1
        };
        if cell < self.primary.len() {
            cell
        } else {
            self.primary.len() - 1
        }
    }

    fn offset_of<N: Numerics<V, W>>(&self, math: &N, coordinate: V) -> (r: W)
        requires
            arithmetic::<V>(),
            arithmetic::<W>(),
            self.valid(),
        ensures
            r == self.offset_at(math, coordinate),
    {
        let last: usize = self.primary.len() - 1;
        let floor: usize = math.floor(coordinate);
        let index: usize = if floor < last {
            floor
        } else {
            last
        };
        let place: V = math.count(index as u64);
        let within: W = math.widen(coordinate - place);
        let width: W = math.widen(self.primary[index]);
        self.corners[index] + within * width
    }
}

} // verus!
