//! A scene: everything needed to reproduce a run.
//!
//! The scene is the unit of persistence, and a solver is constructed from one and
//! nothing else. Geometry is rasterized into the per-cell material index once, at
//! construction; after that the solver only ever reads indices.

use crate::boundary::Boundary;
use crate::grid::{Axis, Extent, Grid};
use crate::lattice::{cell_of_slot, Cell};
use crate::material::{Material, MaterialTable};
use crate::numerics::{Elementary, Numerics};
use crate::scalar::{
    arithmetic, at_most, half, magnitude, magnitude_of, minus, number, one_half, over, plus, times,
    Scalar,
};
use crate::source::{replaced, Source};
use crate::spacing::admissible;
use vstd::prelude::*;

verus! {

/// A primitive painted into the material index.
///
/// # Everything is in metres, with the origin at the centre of the domain
///
/// Not cell indices. Geometry written in cells is welded to one resolution:
/// change the cell size and every object moves.
///
/// Later shapes overwrite earlier ones, so a scene reads top to bottom like a
/// stack of paint.
#[derive(Clone, Copy, Debug, PartialEq)]
pub enum Shape<V> {
    /// Axis-aligned box given by its centre and its full side lengths.
    Block { center: [V; 3], size: [V; 3], material: u32 },
    Sphere { center: [V; 3], radius: V, material: u32 },
    /// A slab spanning the whole domain except along `axis`, where it is
    /// `thickness` metres thick and centred at `offset`.
    Slab { axis: Axis, offset: V, thickness: V, material: u32 },
}

/// Whether two positions along an axis are at most half of `size` apart.
pub open spec fn close<V: Scalar>(position: V, center: V, size: V) -> bool {
    at_most(magnitude_of(minus(position, center)), times(half::<V>(), size))
}

fn is_close<V: Scalar>(position: V, center: V, size: V) -> (r: bool)
    requires
        arithmetic::<V>(),
    ensures
        r == close(position, center, size),
{
    magnitude(position - center) <= one_half::<V>() * size
}

impl<V: Scalar> Shape<V> {
    /// Whether a physical position is inside this shape.
    pub open spec fn holds(self, position: Seq<V>) -> bool {
        match self {
            Shape::Block { center, size, .. } => {
                &&& close(position[0], center@[0], size@[0])
                &&& close(position[1], center@[1], size@[1])
                &&& close(position[2], center@[2], size@[2])
            },
            Shape::Sphere { center, radius, .. } => {
                let square = |t: int|
                    times(minus(position[t], center@[t]), minus(position[t], center@[t]));
                at_most(
                    plus(plus(plus(number::<V>(0), square(0)), square(1)), square(2)),
                    times(radius, radius),
                )
            },
            Shape::Slab { axis, offset, thickness, .. } => close(
                position[axis.position()],
                offset,
                thickness,
            ),
        }
    }

    /// What the shape paints with.
    pub open spec fn paint(self) -> u32 {
        match self {
            Shape::Block { material, .. } => material,
            Shape::Sphere { material, .. } => material,
            Shape::Slab { material, .. } => material,
        }
    }

    /// Centre of the shape.
    pub open spec fn middle(self) -> [V; 3] {
        match self {
            Shape::Block { center, .. } => center,
            Shape::Sphere { center, .. } => center,
            Shape::Slab { axis, offset, .. } => replaced(
                [number::<V>(0), number::<V>(0), number::<V>(0)],
                axis,
                offset,
            ),
        }
    }

    /// Half-extent of the shape along each axis. A slab is unbounded in its two
    /// transverse directions.
    pub open spec fn reach<N: Elementary<V>>(self, math: &N) -> [V; 3] {
        match self {
            Shape::Block { size, .. } => [
                times(half::<V>(), size@[0]),
                times(half::<V>(), size@[1]),
                times(half::<V>(), size@[2]),
            ],
            Shape::Sphere { radius, .. } => [radius, radius, radius],
            Shape::Slab { axis, thickness, .. } => replaced(
                [math.infinity_of(), math.infinity_of(), math.infinity_of()],
                axis,
                times(half::<V>(), thickness),
            ),
        }
    }

    /// Whether a physical position is inside this shape.
    pub fn contains(&self, position: [V; 3]) -> (r: bool)
        requires
            arithmetic::<V>(),
        ensures
            r == self.holds(position@),
    {
        match *self {
            Shape::Block { center, size, .. } => is_close(position[0], center[0], size[0])
                && is_close(position[1], center[1], size[1]) && is_close(
                position[2],
                center[2],
                size[2],
            ),
            Shape::Sphere { center, radius, .. } => {
                let x = position[0] - center[0];
                let y = position[1] - center[1];
                let z = position[2] - center[2];
                V::from(0u8) + x * x + y * y + z * z <= radius * radius
            },
            Shape::Slab { axis, offset, thickness, .. } => is_close(
                position[axis.index()],
                offset,
                thickness,
            ),
        }
    }

    /// Centre of the shape and its half-extent along each axis, measured from
    /// there. A slab is unbounded in its two transverse directions.
    pub fn bounds<N: Elementary<V>>(&self, math: &N) -> (r: ([V; 3], [V; 3]))
        requires
            arithmetic::<V>(),
        ensures
            r.0 == self.middle(),
            r.1 == self.reach(math),
    {
        match *self {
            Shape::Block { center, size, .. } => {
                let half = [
                    one_half::<V>() * size[0],
                    one_half::<V>() * size[1],
                    one_half::<V>() * size[2],
                ];
                assert(half =~= self.reach(math));
                (center, half)
            },
            Shape::Sphere { center, radius, .. } => {
                let half = [radius, radius, radius];
                assert(half =~= self.reach(math));
                (center, half)
            },
            Shape::Slab { axis, offset, thickness, .. } => {
                let zero = V::from(0u8);
                let infinity: V = math.infinity();
                let mut center = [zero, zero, zero];
                center[axis.index()] = offset;
                let mut half = [infinity, infinity, infinity];
                half[axis.index()] = one_half::<V>() * thickness;
                assert(center =~= self.middle());
                assert(half =~= self.reach(math));
                (center, half)
            },
        }
    }

    pub fn material(&self) -> (r: u32)
        ensures
            r == self.paint(),
    {
        match *self {
            Shape::Block { material, .. } => material,
            Shape::Sphere { material, .. } => material,
            Shape::Slab { material, .. } => material,
        }
    }
}

/// What the first `n` shapes leave at a position: the last of them that contains
/// it wins, and vacuum is underneath them all.
pub open spec fn painted<V: Scalar>(shapes: Seq<Shape<V>>, position: Seq<V>, n: int) -> u32
    decreases n,
{
    if n <= 0 {
        0
    } else if shapes[n - 1].holds(position) {
        shapes[n - 1].paint()
    } else {
        painted(shapes, position, n - 1)
    }
}

/// A complete, reproducible simulation setup.
#[derive(Debug)]
pub struct Scene<V, W> {
    pub grid: Grid<V, W>,
    pub boundary: Boundary<V>,
    pub materials: MaterialTable<V>,
    pub shapes: Vec<Shape<V>>,
    pub sources: Vec<Source<V>>,
}

impl<V: Scalar, W: Scalar> Scene<V, W> {
    /// Centre of a cell, in metres.
    pub open spec fn center<N: Numerics<V, W>>(self, math: &N, cell: Cell) -> Seq<V> {
        seq![
            self.grid.center_along(math, Axis::X, cell.x),
            self.grid.center_along(math, Axis::Y, cell.y),
            self.grid.center_along(math, Axis::Z, cell.z),
        ]
    }

    /// The material of a cell: membership is decided at its centre.
    pub open spec fn material_at<N: Numerics<V, W>>(self, math: &N, cell: Cell) -> u32 {
        painted(self.shapes@, self.center(math, cell), self.shapes@.len() as int)
    }

    /// The material of every cell, in storage order.
    pub open spec fn raster<N: Numerics<V, W>>(self, math: &N) -> Seq<u32> {
        Seq::new(
            self.grid.extent.cells() as nat,
            |i: int| self.material_at(math, self.grid.extent.cell(i)),
        )
    }

    /// An empty domain on a grid built beforehand: the way in for a graded one.
    pub fn on_grid<N: Numerics<V, W>>(math: &N, grid: Grid<V, W>) -> (r: Self)
        requires
            arithmetic::<V>(),
        ensures
            r.grid == grid,
            r.boundary == Boundary::<V>::usual(math),
            r.materials.materials@ == seq![Material::<V>::empty_space()],
            r.shapes@.len() == 0,
            r.sources@.len() == 0,
    {
        Scene {
            grid,
            boundary: Boundary::absorbing(math),
            materials: MaterialTable::new(),
            shapes: Vec::new(),
            sources: Vec::new(),
        }
    }

    /// An empty domain on an explicitly chosen grid, with absorbing walls and
    /// no sources.
    pub fn empty<N: Numerics<V, W>>(math: &N, extent: Extent, cell_size: V) -> (r: Self)
        requires
            arithmetic::<V>(),
            arithmetic::<W>(),
            extent.x >= 2,
            extent.y >= 2,
            extent.z >= 2,
            admissible(math, cell_size),
        ensures
            r.grid.follows(math, r.grid.recipe),
            r.grid.extent == extent,
            r.grid.recipe.extent == extent,
            r.grid.recipe.cell_size == cell_size,
            r.grid.recipe.courant == half::<V>(),
            r.grid.recipe.refinements@.len() == 0,
            r.boundary == Boundary::<V>::usual(math),
            r.materials.materials@ == seq![Material::<V>::empty_space()],
            r.shapes@.len() == 0,
            r.sources@.len() == 0,
    {
        Self::on_grid(math, Grid::new(math, extent, cell_size))
    }

    /// An empty domain of the given physical size, at `resolution` cells per
    /// metre, with absorbing walls and no sources.
    ///
    /// This is the constructor to author against. [`Self::empty`] is the
    /// grid-level one, for when the exact cell count is what matters.
    pub fn sized<N: Numerics<V, W>>(math: &N, size: [V; 3], resolution: V) -> (r: Self)
        requires
            arithmetic::<V>(),
            arithmetic::<W>(),
            admissible(math, resolution),
            admissible(math, over(number::<V>(1), resolution)),
        ensures
            r.grid.follows(math, r.grid.recipe),
            forall|axis: Axis| #[trigger]
                r.grid.extent.along(axis) == crate::grid::cells_for(
                    math,
                    size@[axis.position()],
                    resolution,
                ),
            r.grid.recipe.extent == r.grid.extent,
            r.grid.recipe.cell_size == over(number::<V>(1), resolution),
            r.grid.recipe.refinements@.len() == 0,
            r.boundary == Boundary::<V>::usual(math),
            r.materials.materials@ == seq![Material::<V>::empty_space()],
            r.shapes@.len() == 0,
            r.sources@.len() == 0,
    {
        Self::on_grid(math, Grid::for_size(math, size, resolution))
    }

    pub fn with_boundary(self, boundary: Boundary<V>) -> (r: Self)
        ensures
            r == (Scene { boundary, ..self }),
    {
        let mut scene = self;
        scene.boundary = boundary;
        scene
    }

    pub fn with_source(self, source: Source<V>) -> (r: Self)
        ensures
            r.sources@ == self.sources@.push(source),
            r == (Scene { sources: r.sources, ..self }),
    {
        let mut scene = self;
        scene.sources.push(source);
        scene
    }

    pub fn with_shape(self, shape: Shape<V>) -> (r: Self)
        ensures
            r.shapes@ == self.shapes@.push(shape),
            r == (Scene { shapes: r.shapes, ..self }),
    {
        let mut scene = self;
        scene.shapes.push(shape);
        scene
    }

    /// Material of the cell whose centre is at a position.
    fn material_of(&self, position: [V; 3]) -> (r: u32)
        requires
            arithmetic::<V>(),
        ensures
            r == painted(self.shapes@, position@, self.shapes@.len() as int),
    {
        let mut material: u32 = MaterialTable::<V>::VACUUM;
        let mut k: usize = 0;
        while k < self.shapes.len()
            invariant
                arithmetic::<V>(),
                k <= self.shapes@.len(),
                material == painted(self.shapes@, position@, k as int),
            decreases self.shapes@.len() - k,
        {
            if self.shapes[k].contains(position) {
                material = self.shapes[k].material();
            }
            k = k + 1;
        }
        material
    }

    /// Rasterizes the shapes into a per-cell material index.
    pub fn material_indices<N: Numerics<V, W>>(&self, math: &N) -> (r: Vec<u32>)
        requires
            arithmetic::<V>(),
            arithmetic::<W>(),
            self.grid.valid(),
            self.grid.extent.countable(),
        ensures
            r@ == self.raster(math),
    {
        let ghost extent = self.grid.extent;
        let mut indices: Vec<u32> = Vec::new();
        let mut z: u32 = 0;
        proof {
            lemma_rows_join(extent, 0, 0);
        }
        while z < self.grid.extent.z
            invariant
                arithmetic::<V>(),
                arithmetic::<W>(),
                self.grid.valid(),
                extent == self.grid.extent,
                z <= extent.z,
                indices@.len() == extent.slot((Cell { x: 0, y: 0, z: z as int })),
                forall|i: int|
                    0 <= i < indices@.len() ==> #[trigger] indices@[i] == self.material_at(
                        math,
                        extent.cell(i),
                    ),
            decreases extent.z - z,
        {
            let mut y: u32 = 0;
            while y < self.grid.extent.y
                invariant
                    arithmetic::<V>(),
                    arithmetic::<W>(),
                    self.grid.valid(),
                    extent == self.grid.extent,
                    z < extent.z,
                    y <= extent.y,
                    indices@.len() == extent.slot((Cell { x: 0, y: y as int, z: z as int })),
                    forall|i: int|
                        0 <= i < indices@.len() ==> #[trigger] indices@[i] == self.material_at(
                            math,
                            extent.cell(i),
                        ),
                decreases extent.y - y,
            {
                let mut x: u32 = 0;
                while x < self.grid.extent.x
                    invariant
                        arithmetic::<V>(),
                        arithmetic::<W>(),
                        self.grid.valid(),
                        extent == self.grid.extent,
                        z < extent.z,
                        y < extent.y,
                        x <= extent.x,
                        indices@.len() == extent.slot(
                            (Cell { x: x as int, y: y as int, z: z as int }),
                        ),
                        forall|i: int|
                            0 <= i < indices@.len() ==> #[trigger] indices@[i] == self.material_at(
                                math,
                                extent.cell(i),
                            ),
                    decreases extent.x - x,
                {
                    let ghost here = Cell { x: x as int, y: y as int, z: z as int };
                    let position = self.grid.cell_center(
                        math,
                        [x as usize, y as usize, z as usize],
                    );
                    proof {
                        cell_of_slot(extent, here);
                        assert(position@[Axis::X.position()] == self.center(math, here)[0]);
                        assert(position@[Axis::Y.position()] == self.center(math, here)[1]);
                        assert(position@[Axis::Z.position()] == self.center(math, here)[2]);
                        assert(position@ =~= self.center(math, here));
                    }
                    indices.push(self.material_of(position));
                    x = x + 1;
                }
                proof {
                    lemma_rows_join(extent, y as int, z as int);
                }
                y = y + 1;
            }
            proof {
                lemma_rows_join(extent, 0, z as int);
            }
            z = z + 1;
        }
        proof {
            lemma_rows_join(extent, 0, 0);
            assert(extent.z as int * extent.y as int * extent.x as int == extent.cells())
                by (nonlinear_arith)
                requires
                    extent.cells() == extent.x as int * extent.y as int * extent.z as int,
            ;
        }
        assert(indices@ =~= self.raster(math));
        indices
    }
}

/// A row starts where the one before it ends, and so does a plane.
pub(crate) proof fn lemma_rows_join(extent: Extent, y: int, z: int)
    ensures
        extent.slot((Cell { x: extent.x as int, y, z })) == extent.slot(
            (Cell { x: 0, y: y + 1, z }),
        ),
        extent.slot((Cell { x: 0, y: extent.y as int, z })) == extent.slot(
            (Cell { x: 0, y: 0, z: z + 1 }),
        ),
        extent.slot((Cell { x: 0, y: 0, z: 0 })) == 0,
{
    let (nx, ny) = (extent.x as int, extent.y as int);
    assert((z * ny + y) * nx + nx == (z * ny + (y + 1)) * nx) by (nonlinear_arith);
    assert((z * ny + ny) * nx == ((z + 1) * ny) * nx) by (nonlinear_arith);
    assert((0 * ny + 0) * nx == 0) by (nonlinear_arith);
}

/// A cell that some shape contains wears the last such shape's material, whatever
/// was painted before it.
pub proof fn later_shapes_win<V: Scalar>(shapes: Seq<Shape<V>>, position: Seq<V>, k: int)
    requires
        0 <= k < shapes.len(),
        shapes[k].holds(position),
        forall|j: int| k < j < shapes.len() ==> !(#[trigger] shapes[j]).holds(position),
    ensures
        painted(shapes, position, shapes.len() as int) == shapes[k].paint(),
{
    lemma_nothing_over(shapes, position, k, shapes.len() as int);
}

proof fn lemma_nothing_over<V: Scalar>(shapes: Seq<Shape<V>>, position: Seq<V>, k: int, n: int)
    requires
        0 <= k < n <= shapes.len(),
        shapes[k].holds(position),
        forall|j: int| k < j < shapes.len() ==> !(#[trigger] shapes[j]).holds(position),
    ensures
        painted(shapes, position, n) == shapes[k].paint(),
    decreases n,
{
    if n - 1 > k {
        assert(!shapes[n - 1].holds(position));
        lemma_nothing_over(shapes, position, k, n - 1);
    }
}

/// A cell that no shape contains is vacuum.
pub proof fn unpainted_is_vacuum<V: Scalar>(shapes: Seq<Shape<V>>, position: Seq<V>, n: int)
    requires
        n <= shapes.len(),
        forall|j: int| 0 <= j < n ==> !(#[trigger] shapes[j]).holds(position),
    ensures
        painted(shapes, position, n) == 0,
    decreases n,
{
    if n > 0 {
        assert(!shapes[n - 1].holds(position));
        unpainted_is_vacuum(shapes, position, n - 1);
    }
}

} // verus!
