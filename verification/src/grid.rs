//! The Yee grid: spacing, the time step, and the staggering convention.
//!
//! # Staggering
//!
//! Every FDTD bug is an off-by-half, so the convention is written down once, here,
//! and every other module refers back to it. Positions are in units of the cell
//! size `Δ`, with the origin at the corner of cell `(0, 0, 0)`:
//!
//! | Field | Position          | Time    |
//! |-------|-------------------|---------|
//! | `Ex`  | `(i+½, j,   k  )` | `n`     |
//! | `Ey`  | `(i,   j+½, k  )` | `n`     |
//! | `Ez`  | `(i,   j,   k+½)` | `n`     |
//! | `Hx`  | `(i,   j+½, k+½)` | `n+½`   |
//! | `Hy`  | `(i+½, j,   k+½)` | `n+½`   |
//! | `Hz`  | `(i+½, j+½, k  )` | `n+½`   |
//!
//! Read as a rule rather than a table: **`E` along axis `a` is offset by half a
//! cell along `a` and sits on integer positions along the other two. `H` along `a`
//! is the mirror image: integer along `a`, half along the other two.**

use crate::grading::{finest_asked, finest_of, grade, graded_widths, Refinement, MOST_CELLS};
use crate::numerics::{Elementary, Numerics};
use crate::order::{field, parts};
use crate::scalar::{
    arithmetic, at_most, below, greater, greater_of, half, lesser, lesser_of, magnitude,
    magnitude_of, minus, number, one_half, over, plus, times, Scalar,
};
use crate::spacing::{
    admissible, copied, greatest, greatest_ratio, is_admissible, least, spaced, stacked, Spacing,
};
use vstd::prelude::*;

pub use crate::lattice::{Axis, Extent};

verus! {

/// Speed of light in vacuum, m/s.
pub const SPEED_OF_LIGHT: u64 = 299_792_458;

/// Speed of light in vacuum, m/s.
pub open spec fn light_speed<T: Scalar, N: Elementary<T>>(math: &N) -> T {
    math.count_of(SPEED_OF_LIGHT)
}

/// Vacuum magnetic permeability, H/m.
pub open spec fn permeability<T: Scalar, N: Elementary<T>>(math: &N) -> T {
    math.decimal_of(12_566_371, 13)
}

/// Vacuum electric permittivity, F/m.
pub open spec fn permittivity<T: Scalar, N: Elementary<T>>(math: &N) -> T {
    math.decimal_of(8_854_188, 18)
}

/// Vacuum magnetic permeability, H/m.
pub fn vacuum_permeability<T: Scalar, N: Elementary<T>>(math: &N) -> (r: T)
    ensures
        r == permeability::<T, N>(math),
{
    math.decimal(12_566_371, 13)
}

/// Vacuum electric permittivity, F/m.
pub fn vacuum_permittivity<T: Scalar, N: Elementary<T>>(math: &N) -> (r: T)
    ensures
        r == permittivity::<T, N>(math),
{
    math.decimal(8_854_188, 18)
}

/// Wave impedance of free space, Ω.
pub fn vacuum_impedance<T: Scalar, N: Elementary<T>>(math: &N) -> (r: T)
    ensures
        r == math.decimal_of(37_673_032, 5),
{
    math.decimal(37_673_032, 5)
}

/// Growth cap between neighbouring cells.
///
/// The second-order accuracy of the scheme rests on the centred difference being
/// centred, which a change of spacing breaks. Grading gently keeps the *global*
/// error close to second order, and 1.15 is the usual working figure: enough to
/// cross an order of magnitude in about sixteen cells.
pub fn default_max_ratio<T: Scalar, N: Elementary<T>>(math: &N) -> (r: T)
    ensures
        r == usual_max_ratio::<T, N>(math),
{
    math.decimal(115, 2)
}

/// The growth cap a grid has unless it asks for another.
pub open spec fn usual_max_ratio<T: Scalar, N: Elementary<T>>(math: &N) -> T {
    math.decimal_of(115, 2)
}

/// The recipe of a [`Grid`]: what a scene file states.
///
/// A scene says "cells this big, and this region finer"; writing out a few
/// hundred cell widths per axis would be unreadable and welded to one
/// resolution.
#[derive(Debug)]
pub struct GridSpec<V> {
    /// Cells the domain would have at `cell_size`, which is what fixes its
    /// physical size. Refinements only subdivide; they never move a wall.
    pub extent: Extent,
    /// The coarse cell size in metres, away from any refinement.
    pub cell_size: V,
    pub courant: V,
    pub refinements: Vec<Refinement<V>>,
    pub max_ratio: V,
}

impl<V: Scalar> GridSpec<V> {
    /// Length of one axis, in metres.
    pub open spec fn length<N: Elementary<V>>(self, math: &N, axis: Axis) -> V {
        times(math.count_of(self.extent.along(axis) as u64), self.cell_size)
    }

    /// Cell sizes are positive and finite, the growth cap exceeds one, and an
    /// axis with nothing to refine has at least two cells.
    pub open spec fn sensible<N: Elementary<V>>(self, math: &N) -> bool {
        &&& admissible(math, self.cell_size)
        &&& below(number::<V>(1), self.max_ratio)
        &&& math.finite_at(self.max_ratio)
        &&& if self.refinements@.len() == 0 {
            self.extent.x >= 2 && self.extent.y >= 2 && self.extent.z >= 2
        } else {
            admissible(
                math,
                finest_asked(self.refinements@, self.cell_size, self.refinements@.len() as int),
            )
        }
    }

    /// Whether the recipe can be asked for at all.
    pub fn is_sensible<N: Elementary<V>>(&self, math: &N) -> (r: bool)
        requires
            arithmetic::<V>(),
        ensures
            r == self.sensible(math),
    {
        let kept = V::from(1u8) < self.max_ratio && math.is_finite(self.max_ratio);
        if self.refinements.len() == 0 {
            is_admissible(math, self.cell_size) && kept && self.extent.x >= 2 && self.extent.y >= 2
                && self.extent.z >= 2
        } else {
            is_admissible(math, self.cell_size) && kept && is_admissible(
                math,
                finest_of(&self.refinements, self.cell_size),
            )
        }
    }

    /// Cell widths along one axis, if the axis can be laid out at all.
    ///
    /// With nothing to refine the answer is the grid that was asked for, cell
    /// for cell.
    pub open spec fn widths<N: Elementary<V>>(self, math: &N, axis: Axis) -> Option<Seq<V>> {
        if self.refinements@.len() == 0 {
            Some(Seq::new(self.extent.along(axis) as nat, |i: int| self.cell_size))
        } else {
            graded_widths(
                math,
                axis,
                self.length(math, axis),
                self.cell_size,
                self.refinements@,
                self.max_ratio,
            )
        }
    }

    /// Corner `i` along one axis.
    pub open spec fn corner<W: Scalar, N: Numerics<V, W>>(self, math: &N, axis: Axis, i: int) -> W {
        if self.refinements@.len() == 0 {
            spaced::<V, W, N>(math, self.cell_size, i)
        } else {
            stacked::<V, W, N>(math, self.widths(math, axis)->0, i)
        }
    }

    /// Whether all three axes can be laid out.
    pub open spec fn feasible<N: Elementary<V>>(self, math: &N) -> bool {
        &&& self.widths(math, Axis::X) is Some
        &&& self.widths(math, Axis::Y) is Some
        &&& self.widths(math, Axis::Z) is Some
    }
}

impl<V: Scalar> GridSpec<V> {
    /// The recipe a grid was built from, with the Courant number it has now.
    pub fn from<W: Scalar>(grid: Grid<V, W>) -> (r: Self)
        ensures
            r == (GridSpec { courant: grid.courant, ..grid.recipe }),
    {
        let mut spec = grid.recipe;
        spec.courant = grid.courant;
        spec
    }
}

/// The discretization: how big the cells are, and how big a time step is.
#[derive(Debug)]
pub struct Grid<V, W> {
    /// Size of the grid in cells. Derived from the spacing when the grid is
    /// graded, so it is not the same as the base extent that was asked for.
    pub extent: Extent,
    /// Courant number `S = c·Δt/Δ_ref`.
    pub courant: V,
    /// The recipe, kept so the grid can be rebuilt at another resolution.
    pub recipe: GridSpec<V>,
    /// Cell widths along each axis.
    pub spacings: [Spacing<V, W>; 3],
}

/// Why a grid cannot step.
#[derive(Clone, Copy, Debug, Eq, PartialEq, Structural)]
pub enum GridFault {
    /// Fewer than two cells across on some axis.
    TooSmall,
    /// The spacing along an axis has another number of cells than the extent
    /// says.
    Mismatched { axis: Axis },
    /// The Courant number is outside the range the scheme is stable in.
    Unstable,
}

impl<V: Scalar, W: Scalar> Grid<V, W> {
    /// The spacing along one axis.
    pub open spec fn along(self, axis: Axis) -> Spacing<V, W> {
        self.spacings@[axis.position()]
    }

    /// The extent counts the cells of the spacings.
    pub open spec fn valid(self) -> bool {
        forall|axis: Axis| #[trigger]
            self.along(axis).valid() && self.along(axis).primary@.len() == self.extent.along(axis)
    }

    /// Whether this is the grid a recipe describes.
    pub open spec fn follows<N: Numerics<V, W>>(self, math: &N, spec: GridSpec<V>) -> bool {
        &&& self.valid()
        &&& self.courant == spec.courant
        &&& self.recipe == spec
        &&& forall|axis: Axis|
            Some((#[trigger] self.along(axis)).primary@) == spec.widths(math, axis)
        &&& forall|axis: Axis, i: int|
            0 <= i <= self.extent.along(axis) ==> #[trigger] self.along(axis).corners@[i]
                == spec.corner::<W, N>(math, axis, i)
    }

    /// The largest stable Courant number on a cubic grid, `1/√3`.
    pub open spec fn courant_bound<N: Elementary<V>>(math: &N) -> V {
        math.decimal_of(57_735_026, 8)
    }

    /// Largest Courant number the scheme is stable at.
    pub fn courant_limit<N: Elementary<V>>(math: &N) -> (r: V)
        ensures
            r == Self::courant_bound(math),
    {
        math.decimal(57_735_026, 8)
    }

    /// What is wrong with the grid, if anything.
    pub open spec fn fault<N: Elementary<V>>(self, math: &N) -> Option<GridFault> {
        if self.extent.x < 2 || self.extent.y < 2 || self.extent.z < 2 {
            Some(GridFault::TooSmall)
        } else if self.along(Axis::X).primary@.len() != self.extent.x {
            Some(GridFault::Mismatched { axis: Axis::X })
        } else if self.along(Axis::Y).primary@.len() != self.extent.y {
            Some(GridFault::Mismatched { axis: Axis::Y })
        } else if self.along(Axis::Z).primary@.len() != self.extent.z {
            Some(GridFault::Mismatched { axis: Axis::Z })
        } else if !(below(number::<V>(0), self.courant) && at_most(
            self.courant,
            Self::courant_bound(math),
        )) {
            Some(GridFault::Unstable)
        } else {
            None
        }
    }

    /// Smallest cell width along one axis.
    pub open spec fn finest_along<N: Elementary<V>>(self, math: &N, axis: Axis) -> V {
        least(math, self.along(axis).primary@, self.along(axis).primary@.len() as int)
    }

    /// Largest cell width along one axis.
    pub open spec fn coarsest_along<N: Elementary<V>>(self, math: &N, axis: Axis) -> V {
        greatest(math, self.along(axis).primary@, self.along(axis).primary@.len() as int)
    }

    /// Largest ratio between neighbouring cells along one axis.
    pub open spec fn ratio_along(self, axis: Axis) -> V {
        greatest_ratio(self.along(axis).primary@, self.along(axis).primary@.len() - 1)
    }

    /// Largest cell width anywhere.
    pub open spec fn coarsest_anywhere<N: Elementary<V>>(self, math: &N) -> V {
        greater_of(
            greater_of(
                greater_of(
                    minus(number::<V>(0), math.infinity_of()),
                    self.coarsest_along(math, Axis::X),
                ),
                self.coarsest_along(math, Axis::Y),
            ),
            self.coarsest_along(math, Axis::Z),
        )
    }

    /// Side of the cubic cell that would impose the same stability limit:
    /// `√(3 / Σ_a 1/Δ_a²)`, taking the smallest cell on each axis.
    pub open spec fn reference_size<N: Elementary<V>>(self, math: &N) -> V {
        let inverse = |axis: Axis|
            over(
                number::<V>(1),
                times(self.finest_along(math, axis), self.finest_along(math, axis)),
            );
        let sum = plus(
            plus(plus(number::<V>(0), inverse(Axis::X)), inverse(Axis::Y)),
            inverse(Axis::Z),
        );
        math.sqrt_of(over(number::<V>(3), sum))
    }

    /// Time step `Δt = S·Δ_ref/c`, in seconds.
    pub open spec fn step_time<N: Elementary<V>>(self, math: &N) -> V {
        over(times(self.courant, self.reference_size(math)), light_speed::<V, N>(math))
    }

    /// Distance light travels in one step, in metres.
    pub open spec fn travel<N: Elementary<V>>(self, math: &N) -> V {
        times(light_speed::<V, N>(math), self.step_time(math))
    }

    /// `c·Δt/Δ` for each width in a list.
    pub open spec fn gains_over<N: Elementary<V>>(self, math: &N, widths: Seq<V>) -> Seq<V> {
        Seq::new(widths.len(), |i: int| over(self.travel(math), widths[i]))
    }

    /// Physical size along one axis, in metres.
    pub open spec fn size_along<N: Numerics<V, W>>(self, math: &N, axis: Axis) -> V {
        math.narrowed(self.along(axis).span_of())
    }

    /// Centre of cell `i` along one axis, in metres from the domain centre.
    pub open spec fn center_along<N: Numerics<V, W>>(self, math: &N, axis: Axis, i: int) -> V {
        self.along(axis).position_at(math, plus(math.count_of(i as u64), half::<V>()))
    }

    /// Centres of all cells along one axis.
    pub open spec fn centers_along<N: Numerics<V, W>>(self, math: &N, axis: Axis) -> Seq<V> {
        Seq::new(
            self.along(axis).primary@.len(),
            |i: int| self.center_along(math, axis, i),
        )
    }

    /// Coordinate along one axis of the cell containing a position, clamped to
    /// the domain.
    pub open spec fn cell_along<N: Numerics<V, W>>(self, math: &N, axis: Axis, position: V) -> int {
        let floor = math.floor_of(self.along(axis).coordinate_at(math, position)) as int;
        if floor < self.extent.along(axis) {
            floor
        } else {
            self.extent.along(axis) - 1
        }
    }

    /// Whether a position lies between the walls along one axis.
    pub open spec fn within<N: Numerics<V, W>>(self, math: &N, axis: Axis, position: V) -> bool {
        at_most(magnitude_of(position), times(half::<V>(), self.size_along(math, axis)))
    }

    /// Whether a position lies inside the domain.
    pub open spec fn encloses<N: Numerics<V, W>>(self, math: &N, position: Seq<V>) -> bool {
        &&& self.within(math, Axis::X, position[0])
        &&& self.within(math, Axis::Y, position[1])
        &&& self.within(math, Axis::Z, position[2])
    }

    /// Everything per-axis a kernel needs: three sections of three axes each.
    pub open spec fn geometry<N: Numerics<V, W>>(self, math: &N) -> Seq<V> {
        self.gains_over(math, self.along(Axis::X).primary@)
            + self.gains_over(math, self.along(Axis::Y).primary@)
            + self.gains_over(math, self.along(Axis::Z).primary@)
            + self.gains_over(math, self.along(Axis::X).dual@)
            + self.gains_over(math, self.along(Axis::Y).dual@)
            + self.gains_over(math, self.along(Axis::Z).dual@)
            + self.centers_along(math, Axis::X) + self.centers_along(math, Axis::Y)
            + self.centers_along(math, Axis::Z)
    }
}

/// Cells along one axis of a domain `metres` long, never fewer than two.
pub open spec fn cells_for<V: Scalar, N: Elementary<V>>(math: &N, metres: V, resolution: V) -> int {
    let nearest = math.nearest_to(times(metres, resolution)) as int;
    if nearest < 2 {
        2
    } else if nearest > u32::MAX {
        u32::MAX as int
    } else {
        nearest
    }
}

/// Whether a domain can be discretized at a resolution, refined as asked.
pub open spec fn can_grade<V: Scalar, N: Elementary<V>>(
    math: &N,
    resolution: V,
    refinements: Seq<Refinement<V>>,
    max_ratio: V,
) -> bool {
    let cell_size = over(number::<V>(1), resolution);
    &&& admissible(math, resolution)
    &&& admissible(math, cell_size)
    &&& below(number::<V>(1), max_ratio)
    &&& math.finite_at(max_ratio)
    &&& refinements.len() > 0 ==> admissible(
        math,
        finest_asked(refinements, cell_size, refinements.len() as int),
    )
}

/// Whether a domain can be discretized at a resolution, refined as asked.
pub fn is_gradable<V: Scalar, N: Elementary<V>>(
    math: &N,
    resolution: V,
    refinements: &Vec<Refinement<V>>,
    max_ratio: V,
) -> (r: bool)
    requires
        arithmetic::<V>(),
    ensures
        r == can_grade(math, resolution, refinements@, max_ratio),
{
    let cell_size = V::from(1u8) / resolution;
    is_admissible(math, resolution) && is_admissible(math, cell_size) && V::from(1u8) < max_ratio
        && math.is_finite(max_ratio) && (refinements.len() == 0 || is_admissible(
        math,
        finest_of(refinements, cell_size),
    ))
}

/// Whether a grid is the discretization of a domain of `size` metres at a
/// resolution, or is missing because an axis cannot be laid out.
pub open spec fn graded_as_asked<V: Scalar, W: Scalar, N: Numerics<V, W>>(
    math: &N,
    size: Seq<V>,
    resolution: V,
    refinements: Seq<Refinement<V>>,
    courant: V,
    max_ratio: V,
    grid: Option<Grid<V, W>>,
) -> bool {
    exists|spec: GridSpec<V>|
        {
            &&& forall|axis: Axis| #[trigger]
                spec.extent.along(axis) == cells_for(math, size[axis.position()], resolution)
            &&& spec.cell_size == over(number::<V>(1), resolution)
            &&& spec.courant == courant
            &&& spec.refinements@ == refinements
            &&& spec.max_ratio == max_ratio
            &&& grid is Some <==> #[trigger] spec.feasible(math)
            &&& grid matches Some(grid) ==> grid.follows(math, spec)
        }
}

impl<V: Scalar, W: Scalar> Grid<V, W> {
    /// A uniform grid with the default Courant number of `0.5`, which leaves
    /// headroom below the limit for lossy media and the absorbing layer.
    pub fn new<N: Numerics<V, W>>(math: &N, extent: Extent, cell_size: V) -> (r: Self)
        requires
            arithmetic::<V>(),
            arithmetic::<W>(),
            extent.x >= 2,
            extent.y >= 2,
            extent.z >= 2,
            admissible(math, cell_size),
        ensures
            r.recipe.extent == extent,
            r.recipe.cell_size == cell_size,
            r.recipe.courant == half::<V>(),
            r.recipe.refinements@.len() == 0,
            r.recipe.max_ratio == usual_max_ratio::<V, N>(math),
            r.extent == extent,
            r.follows(math, r.recipe),
    {
        let spacings = [
            Spacing::uniform(math, extent.x, cell_size),
            Spacing::uniform(math, extent.y, cell_size),
            Spacing::uniform(math, extent.z, cell_size),
        ];
        let courant = one_half::<V>();
        let recipe = GridSpec {
            extent,
            cell_size,
            courant,
            refinements: Vec::new(),
            max_ratio: default_max_ratio(math),
        };
        let grid = Grid { extent, courant, recipe, spacings };
        proof {
            grid.lemma_uniform(math);
        }
        grid
    }

    proof fn lemma_uniform<N: Numerics<V, W>>(self, math: &N)
        requires
            self.recipe.refinements@.len() == 0,
            self.courant == self.recipe.courant,
            self.extent == self.recipe.extent,
            self.along(Axis::X).valid() && self.along(Axis::Y).valid() && self.along(
                Axis::Z,
            ).valid(),
            forall|axis: Axis|
                (#[trigger] self.along(axis)).primary@ == Seq::new(
                    self.extent.along(axis) as nat,
                    |i: int| self.recipe.cell_size,
                ),
            forall|axis: Axis|
                (#[trigger] self.along(axis)).corners@ == Seq::new(
                    (self.extent.along(axis) + 1) as nat,
                    |i: int| spaced::<V, W, N>(math, self.recipe.cell_size, i),
                ),
        ensures
            self.follows(math, self.recipe),
    {
        assert forall|axis: Axis| #[trigger] self.along(axis).valid() by {
            match axis {
                Axis::X => {},
                Axis::Y => {},
                Axis::Z => {},
            }
        }
    }

    /// The grid a recipe describes, or nothing where an axis cannot be laid
    /// out.
    pub fn from<N: Numerics<V, W>>(math: &N, spec: GridSpec<V>) -> (r: Option<Self>)
        requires
            arithmetic::<V>(),
            arithmetic::<W>(),
            spec.sensible(math),
        ensures
            r is Some <==> spec.feasible(math),
            r matches Some(grid) ==> grid.follows(math, spec),
            r matches Some(grid) ==> (spec.refinements@.len() == 0 ==> grid.extent == spec.extent),
    {
        let base = spec.extent;
        if spec.refinements.len() == 0 {
            let spacings = [
                Spacing::uniform(math, base.x, spec.cell_size),
                Spacing::uniform(math, base.y, spec.cell_size),
                Spacing::uniform(math, base.z, spec.cell_size),
            ];
            let courant = spec.courant;
            let grid = Grid { extent: base, courant, recipe: spec, spacings };
            proof {
                grid.lemma_uniform(math);
            }
            return Some(grid);
        }
        let x = Self::graded_axis(math, &spec, Axis::X);
        let y = Self::graded_axis(math, &spec, Axis::Y);
        let z = Self::graded_axis(math, &spec, Axis::Z);
        match (x, y, z) {
            (Some(x), Some(y), Some(z)) => {
                let extent = Extent::new(x.count(), y.count(), z.count());
                let courant = spec.courant;
                let grid = Grid { extent, courant, recipe: spec, spacings: [x, y, z] };
                proof {
                    assert forall|axis: Axis| #[trigger] grid.along(axis).valid() && grid.along(
                        axis,
                    ).primary@.len() == grid.extent.along(axis) && Some(grid.along(axis).primary@)
                        == spec.widths(math, axis) && (forall|i: int|
                        0 <= i <= grid.extent.along(axis) ==> #[trigger] grid.along(axis).corners@[i]
                            == spec.corner::<W, N>(math, axis, i)) by {
                        match axis {
                            Axis::X => {},
                            Axis::Y => {},
                            Axis::Z => {},
                        }
                    }
                    assert(grid.follows(math, spec));
                }
                Some(grid)
            },
            _ => None,
        }
    }

    fn graded_axis<N: Numerics<V, W>>(math: &N, spec: &GridSpec<V>, axis: Axis) -> (r: Option<
        Spacing<V, W>,
    >)
        requires
            arithmetic::<V>(),
            arithmetic::<W>(),
            spec.refinements@.len() > 0,
            spec.sensible(math),
        ensures
            r is Some <==> spec.widths(math, axis) is Some,
            r matches Some(spacing) ==> {
                &&& spacing.valid()
                &&& spacing.primary@.len() <= MOST_CELLS
                &&& Some(spacing.primary@) == spec.widths(math, axis)
                &&& forall|i: int|
                    0 <= i <= spacing.primary@.len() ==> #[trigger] spacing.corners@[i]
                        == spec.corner::<W, N>(math, axis, i)
            },
    {
        let cells: u32 = match axis {
            Axis::X => spec.extent.x,
            Axis::Y => spec.extent.y,
            Axis::Z => spec.extent.z,
        };
        let across: V = math.count(cells as u64);
        grade(
            math,
            axis,
            across * spec.cell_size,
            spec.cell_size,
            &spec.refinements,
            spec.max_ratio,
        )
    }

    /// Whether two grids hold the same numbers.
    pub open spec fn alike(self, other: Grid<V, W>) -> bool {
        &&& self.extent == other.extent
        &&& self.courant == other.courant
        &&& self.recipe.extent == other.recipe.extent
        &&& self.recipe.cell_size == other.recipe.cell_size
        &&& self.recipe.courant == other.recipe.courant
        &&& self.recipe.refinements@ == other.recipe.refinements@
        &&& self.recipe.max_ratio == other.recipe.max_ratio
        &&& forall|axis: Axis|
            {
                &&& (#[trigger] self.along(axis)).primary@ == other.along(axis).primary@
                &&& self.along(axis).dual@ == other.along(axis).dual@
                &&& self.along(axis).corners@ == other.along(axis).corners@
            }
    }

    /// A copy of this grid.
    pub fn duplicate(&self) -> (r: Self)
        ensures
            r.alike(*self),
            self.valid() ==> r.valid(),
    {
        let recipe = GridSpec {
            extent: self.recipe.extent,
            cell_size: self.recipe.cell_size,
            courant: self.recipe.courant,
            refinements: copied(&self.recipe.refinements),
            max_ratio: self.recipe.max_ratio,
        };
        let spacings = [
            self.spacings[0].duplicate(),
            self.spacings[1].duplicate(),
            self.spacings[2].duplicate(),
        ];
        let grid = Grid { extent: self.extent, courant: self.courant, recipe, spacings };
        proof {
            assert forall|axis: Axis|
                {
                    &&& (#[trigger] grid.along(axis)).primary@ == self.along(axis).primary@
                    &&& grid.along(axis).dual@ == self.along(axis).dual@
                    &&& grid.along(axis).corners@ == self.along(axis).corners@
                } by {
                match axis {
                    Axis::X => {},
                    Axis::Y => {},
                    Axis::Z => {},
                }
            }
            if self.valid() {
                assert forall|axis: Axis| #[trigger] grid.along(axis).valid() && grid.along(
                    axis,
                ).primary@.len() == grid.extent.along(axis) by {
                    assert(self.along(axis).valid());
                }
            }
        }
        grid
    }

    fn extent_for<N: Elementary<V>>(math: &N, size: [V; 3], resolution: V) -> (r: Extent)
        requires
            arithmetic::<V>(),
        ensures
            forall|axis: Axis| #[trigger]
                r.along(axis) == cells_for(math, size@[axis.position()], resolution),
            r.x >= 2 && r.y >= 2 && r.z >= 2,
    {
        let extent = Extent::new(
            Self::count_for(math, size[0], resolution),
            Self::count_for(math, size[1], resolution),
            Self::count_for(math, size[2], resolution),
        );
        assert(extent.along(Axis::X) == cells_for(math, size@[0], resolution));
        assert(extent.along(Axis::Y) == cells_for(math, size@[1], resolution));
        assert(extent.along(Axis::Z) == cells_for(math, size@[2], resolution));
        extent
    }

    fn count_for<N: Elementary<V>>(math: &N, metres: V, resolution: V) -> (r: u32)
        requires
            arithmetic::<V>(),
        ensures
            r == cells_for(math, metres, resolution),
    {
        let nearest: u64 = math.nearest(metres * resolution);
        if nearest < 2 {
            2
        } else if nearest > u32::MAX as u64 {
            u32::MAX
        } else {
            nearest as u32
        }
    }

    /// A uniform grid covering `size` metres at `resolution` cells per metre.
    ///
    /// This is the constructor scenes are authored against: it is the one where
    /// changing the resolution leaves the physical problem alone.
    pub fn for_size<N: Numerics<V, W>>(math: &N, size: [V; 3], resolution: V) -> (r: Self)
        requires
            arithmetic::<V>(),
            arithmetic::<W>(),
            admissible(math, resolution),
            admissible(math, over(number::<V>(1), resolution)),
        ensures
            forall|axis: Axis| #[trigger]
                r.extent.along(axis) == cells_for(math, size@[axis.position()], resolution),
            r.recipe.extent == r.extent,
            r.recipe.cell_size == over(number::<V>(1), resolution),
            r.recipe.courant == half::<V>(),
            r.recipe.refinements@.len() == 0,
            r.recipe.max_ratio == usual_max_ratio::<V, N>(math),
            r.follows(math, r.recipe),
    {
        Self::new(math, Self::extent_for(math, size, resolution), V::from(1u8) / resolution)
    }

    /// A grid covering `size` metres at `resolution` cells per metre, refined
    /// where asked, or nothing where the refinements cannot be carried.
    ///
    /// The refinements only subdivide: the domain keeps the size and the walls
    /// it would have had without them, so adding one does not move the
    /// geometry or the absorbing layer.
    pub fn graded<N: Numerics<V, W>>(
        math: &N,
        size: [V; 3],
        resolution: V,
        refinements: Vec<Refinement<V>>,
    ) -> (r: Option<Self>)
        requires
            arithmetic::<V>(),
            arithmetic::<W>(),
            can_grade(math, resolution, refinements@, usual_max_ratio::<V, N>(math)),
        ensures
            graded_as_asked(
                math,
                size@,
                resolution,
                refinements@,
                half::<V>(),
                usual_max_ratio::<V, N>(math),
                r,
            ),
    {
        Self::graded_at(math, size, resolution, refinements, default_max_ratio(math))
    }

    /// The same with a growth cap of one's own: grading more gently reflects
    /// less and takes more cells.
    pub fn graded_at<N: Numerics<V, W>>(
        math: &N,
        size: [V; 3],
        resolution: V,
        refinements: Vec<Refinement<V>>,
        max_ratio: V,
    ) -> (r: Option<Self>)
        requires
            arithmetic::<V>(),
            arithmetic::<W>(),
            can_grade(math, resolution, refinements@, max_ratio),
        ensures
            graded_as_asked(
                math,
                size@,
                resolution,
                refinements@,
                half::<V>(),
                max_ratio,
                r,
            ),
    {
        let spec = GridSpec {
            extent: Self::extent_for(math, size, resolution),
            cell_size: V::from(1u8) / resolution,
            courant: one_half::<V>(),
            refinements,
            max_ratio,
        };
        let ghost asked = spec;
        let grid = Self::from(math, spec);
        assert(grid is Some <==> asked.feasible(math));
        grid
    }

    /// The same domain and the same refinements, rediscretized.
    pub fn with_resolution<N: Numerics<V, W>>(&self, math: &N, resolution: V) -> (r: Option<Self>)
        requires
            arithmetic::<V>(),
            arithmetic::<W>(),
            self.valid(),
            can_grade(math, resolution, self.recipe.refinements@, self.recipe.max_ratio),
        ensures
            graded_as_asked(
                math,
                seq![
                    self.size_along(math, Axis::X),
                    self.size_along(math, Axis::Y),
                    self.size_along(math, Axis::Z),
                ],
                resolution,
                self.recipe.refinements@,
                self.courant,
                self.recipe.max_ratio,
                r,
            ),
    {
        let size = self.size(math);
        let spec = GridSpec {
            extent: Self::extent_for(math, size, resolution),
            cell_size: V::from(1u8) / resolution,
            courant: self.courant,
            refinements: copied(&self.recipe.refinements),
            max_ratio: self.recipe.max_ratio,
        };
        let ghost asked = spec;
        let grid = Self::from(math, spec);
        assert(grid is Some <==> asked.feasible(math));
        grid
    }

    /// Cell widths along one axis.
    pub fn spacing(&self, axis: Axis) -> (r: &Spacing<V, W>)
        ensures
            *r == self.along(axis),
    {
        &self.spacings[axis.index()]
    }

    pub fn refinements(&self) -> (r: &[Refinement<V>])
        ensures
            r@ == self.recipe.refinements@,
    {
        self.recipe.refinements.as_slice()
    }

    /// Whether every cell is the same cube, which is worth knowing because it
    /// is the case the analytic tests can be written against.
    pub fn is_uniform(&self) -> (r: bool)
        ensures
            r == (self.recipe.refinements@.len() == 0),
    {
        self.recipe.refinements.len() == 0
    }

    /// Cells per metre at the coarse spacing.
    pub fn resolution(&self) -> (r: V)
        requires
            arithmetic::<V>(),
        ensures
            r == over(number::<V>(1), self.recipe.cell_size),
    {
        V::from(1u8) / self.recipe.cell_size
    }

    /// The smallest cell in the domain, in metres.
    pub fn finest<N: Elementary<V>>(&self, math: &N) -> (r: V)
        requires
            arithmetic::<V>(),
        ensures
            r == lesser_of(
                lesser_of(
                    lesser_of(math.infinity_of(), self.finest_along(math, Axis::X)),
                    self.finest_along(math, Axis::Y),
                ),
                self.finest_along(math, Axis::Z),
            ),
    {
        let x = self.spacing(Axis::X).finest(math);
        let y = self.spacing(Axis::Y).finest(math);
        let z = self.spacing(Axis::Z).finest(math);
        lesser(lesser(lesser(math.infinity(), x), y), z)
    }

    /// The largest cell in the domain, in metres.
    pub fn coarsest<N: Elementary<V>>(&self, math: &N) -> (r: V)
        requires
            arithmetic::<V>(),
        ensures
            r == self.coarsest_anywhere(math),
    {
        let x = self.spacing(Axis::X).coarsest(math);
        let y = self.spacing(Axis::Y).coarsest(math);
        let z = self.spacing(Axis::Z).coarsest(math);
        greater(greater(greater(V::from(0u8) - math.infinity(), x), y), z)
    }

    /// Largest ratio between neighbouring cells, over all three axes.
    pub fn worst_ratio(&self) -> (r: V)
        requires
            arithmetic::<V>(),
            self.valid(),
        ensures
            r == greater_of(
                greater_of(
                    greater_of(number::<V>(1), self.ratio_along(Axis::X)),
                    self.ratio_along(Axis::Y),
                ),
                self.ratio_along(Axis::Z),
            ),
    {
        proof {
            assert(self.along(Axis::X).valid());
            assert(self.along(Axis::Y).valid());
            assert(self.along(Axis::Z).valid());
        }
        let x = self.spacing(Axis::X).worst_ratio();
        let y = self.spacing(Axis::Y).worst_ratio();
        let z = self.spacing(Axis::Z).worst_ratio();
        greater(greater(greater(V::from(1u8), x), y), z)
    }

    /// The cubic cell that would impose the same stability limit as this one.
    ///
    /// The 3D Courant condition is `c·Δt·√(Σ_a 1/Δ_a²) ≤ 1`, taking the
    /// smallest cell on each axis. Rolling that sum into a single equivalent
    /// cube keeps `courant` meaning what it means on a cubic grid, so the same
    /// `1/√3` limit still applies.
    pub fn reference_cell_size<N: Elementary<V>>(&self, math: &N) -> (r: V)
        requires
            arithmetic::<V>(),
        ensures
            r == self.reference_size(math),
    {
        let x = self.spacing(Axis::X).finest(math);
        let y = self.spacing(Axis::Y).finest(math);
        let z = self.spacing(Axis::Z).finest(math);
        let one = V::from(1u8);
        let sum = V::from(0u8) + one / (x * x) + one / (y * y) + one / (z * z);
        math.sqrt(V::from(3u8) / sum)
    }

    /// Size of the domain in coarse cells: the cells each axis would have without
    /// refinements. The cell counts are the same on a uniform grid, and more
    /// wherever the mesh is fine on a graded one.
    pub fn box_size<N: Elementary<V>>(&self, math: &N) -> (r: [V; 3])
        ensures
            forall|axis: Axis|
                r@[#[trigger] axis.position()] == math.count_of(
                    self.recipe.extent.along(axis) as u64,
                ),
    {
        [
            math.count(self.recipe.extent.x as u64),
            math.count(self.recipe.extent.y as u64),
            math.count(self.recipe.extent.z as u64),
        ]
    }

    /// Physical size of the domain in metres.
    pub fn size<N: Numerics<V, W>>(&self, math: &N) -> (r: [V; 3])
        requires
            self.valid(),
        ensures
            forall|axis: Axis| r@[#[trigger] axis.position()] == self.size_along(math, axis),
            r@ == seq![
                self.size_along(math, Axis::X),
                self.size_along(math, Axis::Y),
                self.size_along(math, Axis::Z),
            ],
    {
        proof {
            assert(self.along(Axis::X).valid());
            assert(self.along(Axis::Y).valid());
            assert(self.along(Axis::Z).valid());
        }
        [
            self.spacing(Axis::X).length(math),
            self.spacing(Axis::Y).length(math),
            self.spacing(Axis::Z).length(math),
        ]
    }

    /// Time step `Δt = S·Δ_ref/c`, in seconds.
    pub fn time_step<N: Elementary<V>>(&self, math: &N) -> (r: V)
        requires
            arithmetic::<V>(),
        ensures
            r == self.step_time(math),
    {
        let light: V = math.count(SPEED_OF_LIGHT);
        self.courant * self.reference_cell_size(math) / light
    }

    /// `c·Δt/Δ` per cell along one axis: the factor the `H` update carries,
    /// which differences `E` across a whole cell.
    ///
    /// On a uniform grid every entry is the Courant number.
    pub fn magnetic_gains<N: Elementary<V>>(&self, math: &N, axis: Axis) -> (r: Vec<V>)
        requires
            arithmetic::<V>(),
        ensures
            r@ == self.gains_over(math, self.along(axis).primary@),
    {
        self.gains(math, &self.spacing(axis).primary)
    }

    /// `c·Δt/Δ̃` per cell along one axis: the factor the `E` update carries,
    /// which differences `H` across two half cells.
    pub fn electric_gains<N: Elementary<V>>(&self, math: &N, axis: Axis) -> (r: Vec<V>)
        requires
            arithmetic::<V>(),
        ensures
            r@ == self.gains_over(math, self.along(axis).dual@),
    {
        self.gains(math, &self.spacing(axis).dual)
    }

    fn gains<N: Elementary<V>>(&self, math: &N, widths: &Vec<V>) -> (r: Vec<V>)
        requires
            arithmetic::<V>(),
        ensures
            r@ == self.gains_over(math, widths@),
    {
        let light: V = math.count(SPEED_OF_LIGHT);
        let travel = light * self.time_step(math);
        let mut gains: Vec<V> = Vec::new();
        let mut i: usize = 0;
        while i < widths.len()
            invariant
                arithmetic::<V>(),
                i <= widths@.len(),
                travel == self.travel(math),
                gains@.len() == i,
                forall|j: int| 0 <= j < i ==> #[trigger] gains@[j] == over(travel, widths@[j]),
            decreases widths@.len() - i,
        {
            gains.push(travel / widths[i]);
            i = i + 1;
        }
        assert(gains@ =~= self.gains_over(math, widths@));
        gains
    }

    /// Centre of each cell along one axis, in metres from the domain centre.
    pub fn cell_centers<N: Numerics<V, W>>(&self, math: &N, axis: Axis) -> (r: Vec<V>)
        requires
            arithmetic::<V>(),
            arithmetic::<W>(),
            self.valid(),
        ensures
            r@ == self.centers_along(math, axis),
    {
        proof {
            assert(self.along(axis).valid());
        }
        let spacing = self.spacing(axis);
        let mut centers: Vec<V> = Vec::new();
        let mut i: usize = 0;
        while i < spacing.primary.len()
            invariant
                arithmetic::<V>(),
                arithmetic::<W>(),
                spacing.valid(),
                *spacing == self.along(axis),
                i <= spacing.primary@.len(),
                centers@.len() == i,
                forall|j: int|
                    0 <= j < i ==> #[trigger] centers@[j] == self.center_along(math, axis, j),
            decreases spacing.primary@.len() - i,
        {
            let place: V = math.count(i as u64);
            centers.push(spacing.position(math, place + one_half::<V>()));
            i = i + 1;
        }
        assert(centers@ =~= self.centers_along(math, axis));
        centers
    }

    /// Everything per-axis a kernel needs, packed the way the shaders unpack
    /// it: three sections of three axes each, back to back.
    ///
    /// | section | contents | read by |
    /// |---|---|---|
    /// | 0 | `c·Δt/Δ`, primary | the `H` update |
    /// | 1 | `c·Δt/Δ̃`, dual | the `E` update |
    /// | 2 | cell centre, metres | source apodization, and the renderer |
    pub fn packed_geometry<N: Numerics<V, W>>(&self, math: &N) -> (r: Vec<V>)
        requires
            arithmetic::<V>(),
            arithmetic::<W>(),
            self.valid(),
        ensures
            r@ == self.geometry(math),
    {
        let mut packed: Vec<V> = self.magnetic_gains(math, Axis::X);
        let mut next: Vec<V> = self.magnetic_gains(math, Axis::Y);
        packed.append(&mut next);
        next = self.magnetic_gains(math, Axis::Z);
        packed.append(&mut next);
        next = self.electric_gains(math, Axis::X);
        packed.append(&mut next);
        next = self.electric_gains(math, Axis::Y);
        packed.append(&mut next);
        next = self.electric_gains(math, Axis::Z);
        packed.append(&mut next);
        next = self.cell_centers(math, Axis::X);
        packed.append(&mut next);
        next = self.cell_centers(math, Axis::Y);
        packed.append(&mut next);
        next = self.cell_centers(math, Axis::Z);
        packed.append(&mut next);
        packed
    }

    /// Cell coordinate of a physical position.
    ///
    /// # The origin is the centre of the domain
    ///
    /// Not the corner. Geometry written against a centred origin survives a
    /// change of resolution *and* a change of domain size without moving.
    ///
    /// # And it is not a scale
    ///
    /// On a graded axis this is the inverse of the cumulative cell width, so
    /// it is a search rather than a division.
    pub fn to_cell<N: Numerics<V, W>>(&self, math: &N, position: [V; 3]) -> (r: [V; 3])
        requires
            arithmetic::<V>(),
            arithmetic::<W>(),
            self.valid(),
        ensures
            forall|axis: Axis|
                r@[#[trigger] axis.position()] == self.along(axis).coordinate_at(
                    math,
                    position@[axis.position()],
                ),
    {
        proof {
            assert(self.along(Axis::X).valid());
            assert(self.along(Axis::Y).valid());
            assert(self.along(Axis::Z).valid());
        }
        [
            self.spacing(Axis::X).coordinate(math, position[0]),
            self.spacing(Axis::Y).coordinate(math, position[1]),
            self.spacing(Axis::Z).coordinate(math, position[2]),
        ]
    }

    /// Physical position of a possibly fractional cell coordinate.
    pub fn to_position<N: Numerics<V, W>>(&self, math: &N, cell: [V; 3]) -> (r: [V; 3])
        requires
            arithmetic::<V>(),
            arithmetic::<W>(),
            self.valid(),
        ensures
            forall|axis: Axis|
                r@[#[trigger] axis.position()] == self.along(axis).position_at(
                    math,
                    cell@[axis.position()],
                ),
    {
        proof {
            assert(self.along(Axis::X).valid());
            assert(self.along(Axis::Y).valid());
            assert(self.along(Axis::Z).valid());
        }
        [
            self.spacing(Axis::X).position(math, cell[0]),
            self.spacing(Axis::Y).position(math, cell[1]),
            self.spacing(Axis::Z).position(math, cell[2]),
        ]
    }

    /// Index of the cell containing a physical position, clamped to the domain.
    ///
    /// The *floor*, not the nearest integer: [`Self::to_cell`] measures from
    /// cell corners, so cell `i` spans `[i, i+1)` and its centre is at `i+0.5`.
    pub fn cell_containing<N: Numerics<V, W>>(&self, math: &N, position: [V; 3]) -> (r: [usize; 3])
        requires
            arithmetic::<V>(),
            arithmetic::<W>(),
            self.valid(),
        ensures
            forall|axis: Axis|
                r@[#[trigger] axis.position()] == self.cell_along(
                    math,
                    axis,
                    position@[axis.position()],
                ),
            forall|axis: Axis| r@[#[trigger] axis.position()] < self.extent.along(axis),
    {
        let cell = self.to_cell(math, position);
        let extent = self.extent.as_array();
        proof {
            assert(self.along(Axis::X).valid());
            assert(self.along(Axis::Y).valid());
            assert(self.along(Axis::Z).valid());
            assert(cell@[Axis::X.position()] == self.along(Axis::X).coordinate_at(
                math,
                position@[0],
            ));
            assert(cell@[Axis::Y.position()] == self.along(Axis::Y).coordinate_at(
                math,
                position@[1],
            ));
            assert(cell@[Axis::Z.position()] == self.along(Axis::Z).coordinate_at(
                math,
                position@[2],
            ));
        }
        let x: usize = math.floor(cell[0]);
        let y: usize = math.floor(cell[1]);
        let z: usize = math.floor(cell[2]);
        [
            if x < extent[0] {
                x
            } else {
                extent[0] - 1
            },
            if y < extent[1] {
                y
            } else {
                extent[1] - 1
            },
            if z < extent[2] {
                z
            } else {
                extent[2] - 1
            },
        ]
    }

    /// Physical position of the centre of a cell, which is where material
    /// membership is decided.
    pub fn cell_center<N: Numerics<V, W>>(&self, math: &N, coord: [usize; 3]) -> (r: [V; 3])
        requires
            arithmetic::<V>(),
            arithmetic::<W>(),
            self.valid(),
        ensures
            forall|axis: Axis|
                r@[#[trigger] axis.position()] == self.center_along(
                    math,
                    axis,
                    coord@[axis.position()] as int,
                ),
    {
        let x: V = math.count(coord[0] as u64);
        let y: V = math.count(coord[1] as u64);
        let z: V = math.count(coord[2] as u64);
        let middle = one_half::<V>();
        self.to_position(math, [x + middle, y + middle, z + middle])
    }

    /// Whether a physical position lies inside the domain.
    pub fn contains<N: Numerics<V, W>>(&self, math: &N, position: [V; 3]) -> (r: bool)
        requires
            arithmetic::<V>(),
            self.valid(),
        ensures
            r == self.encloses(math, position@),
    {
        let size = self.size(math);
        magnitude(position[0]) <= one_half::<V>() * size[0] && magnitude(position[1])
            <= one_half::<V>() * size[1] && magnitude(position[2]) <= one_half::<V>() * size[2]
    }

    /// Cells per wavelength at `frequency` in a medium of the given refractive
    /// index, taken at the *coarsest* cell: the question being asked is
    /// whether the wave is resolved everywhere, and the answer is set by the
    /// worst place, not the average one.
    pub fn cells_per_wavelength<N: Elementary<V>>(
        &self,
        math: &N,
        frequency: V,
        refractive_index: V,
    ) -> (r: V)
        requires
            arithmetic::<V>(),
        ensures
            r == over(
                light_speed::<V, N>(math),
                times(times(refractive_index, frequency), self.coarsest_anywhere(math)),
            ),
            // That many of the coarsest cells make up what light covers in a cycle,
            // slowed by the medium.
            field::<V>() && below(
                number::<V>(0),
                times(times(refractive_index, frequency), self.coarsest_anywhere(math)),
            ) ==> times(
                r,
                times(times(refractive_index, frequency), self.coarsest_anywhere(math)),
            ) == light_speed::<V, N>(math),
    {
        proof {
            if field::<V>() {
                parts(
                    light_speed::<V, N>(math),
                    times(times(refractive_index, frequency), self.coarsest_anywhere(math)),
                );
            }
        }
        let light: V = math.count(SPEED_OF_LIGHT);
        light / (refractive_index * frequency * self.coarsest(math))
    }

    /// The frequency whose free-space wavelength spans `cells` of the coarsest
    /// cells.
    pub fn frequency_for_resolution<N: Elementary<V>>(&self, math: &N, cells: V) -> (r: V)
        requires
            arithmetic::<V>(),
        ensures
            r == self.frequency_spanning(math, cells),
    {
        let light: V = math.count(SPEED_OF_LIGHT);
        light / (cells * self.coarsest(math))
    }

    /// The frequency whose free-space wavelength spans `cells` of the coarsest
    /// cells.
    pub open spec fn frequency_spanning<N: Elementary<V>>(self, math: &N, cells: V) -> V {
        over(light_speed::<V, N>(math), times(cells, self.coarsest_anywhere(math)))
    }

    /// Says why the configuration cannot step stably, if it cannot.
    ///
    /// The extent and the spacings are kept in agreement by the constructors,
    /// and rechecked here rather than trusted: a grid in which they disagree
    /// indexes past the end of an axis somewhere deep in a solver.
    pub fn validate<N: Elementary<V>>(&self, math: &N) -> (r: Result<(), GridFault>)
        requires
            arithmetic::<V>(),
        ensures
            match self.fault(math) {
                Some(fault) => r == Err::<(), GridFault>(fault),
                None => r == Ok::<(), GridFault>(()),
            },
    {
        if self.extent.x < 2 || self.extent.y < 2 || self.extent.z < 2 {
            return Err(GridFault::TooSmall);
        }
        if self.spacing(Axis::X).primary.len() != self.extent.x as usize {
            return Err(GridFault::Mismatched { axis: Axis::X });
        }
        if self.spacing(Axis::Y).primary.len() != self.extent.y as usize {
            return Err(GridFault::Mismatched { axis: Axis::Y });
        }
        if self.spacing(Axis::Z).primary.len() != self.extent.z as usize {
            return Err(GridFault::Mismatched { axis: Axis::Z });
        }
        let limit: V = Self::courant_limit(math);
        if V::from(0u8) < self.courant && self.courant <= limit {
            Ok(())
        } else {
            Err(GridFault::Unstable)
        }
    }
}

/// A recipe says all there is to a grid: what [`Grid::from`] makes of what
/// [`GridSpec::from`] gives of it, whatever its Courant number is by then, has the
/// same cells in the same places.
pub proof fn recipe_rebuilds_the_grid<V: Scalar, W: Scalar, N: Numerics<V, W>>(
    math: &N,
    grid: Grid<V, W>,
    rebuilt: Grid<V, W>,
    courant: V,
)
    requires
        grid.follows(math, grid.recipe),
        rebuilt.follows(math, (GridSpec { courant, ..grid.recipe })),
    ensures
        rebuilt.courant == courant,
        rebuilt.recipe == (GridSpec { courant, ..grid.recipe }),
        rebuilt.extent == grid.extent,
        forall|axis: Axis|
            {
                &&& (#[trigger] rebuilt.along(axis)).primary@ == grid.along(axis).primary@
                &&& rebuilt.along(axis).dual@ == grid.along(axis).dual@
                &&& rebuilt.along(axis).corners@ == grid.along(axis).corners@
            },
{
    let spec = grid.recipe;
    let again = GridSpec { courant, ..spec };
    assert forall|axis: Axis|
        {
            &&& (#[trigger] rebuilt.along(axis)).primary@ == grid.along(axis).primary@
            &&& rebuilt.along(axis).dual@ == grid.along(axis).dual@
            &&& rebuilt.along(axis).corners@ == grid.along(axis).corners@
            &&& rebuilt.extent.along(axis) == grid.extent.along(axis)
        } by {
        assert(spec.length(math, axis) == again.length(math, axis));
        assert(spec.widths(math, axis) == again.widths(math, axis)) by {
            if spec.refinements@.len() == 0 {
                assert(spec.widths(math, axis)->0 =~= again.widths(math, axis)->0);
            }
        }
        assert(grid.along(axis).valid() && rebuilt.along(axis).valid());
        assert(Some(grid.along(axis).primary@) == spec.widths(math, axis));
        assert(Some(rebuilt.along(axis).primary@) == again.widths(math, axis));
        assert(rebuilt.along(axis).dual@ =~= grid.along(axis).dual@);
        assert forall|i: int| 0 <= i < grid.along(axis).corners@.len() implies rebuilt.along(
            axis,
        ).corners@[i] == #[trigger] grid.along(axis).corners@[i] by {
            assert(grid.along(axis).corners@[i] == spec.corner::<W, N>(math, axis, i));
            assert(rebuilt.along(axis).corners@[i] == again.corner::<W, N>(math, axis, i));
        }
        assert(rebuilt.along(axis).corners@ =~= grid.along(axis).corners@);
    }
    assert(rebuilt.along(Axis::X).primary@ == grid.along(Axis::X).primary@);
    assert(rebuilt.along(Axis::Y).primary@ == grid.along(Axis::Y).primary@);
    assert(rebuilt.along(Axis::Z).primary@ == grid.along(Axis::Z).primary@);
}

} // verus!
