//! Whether a scene is one the solver can run, and resolve.
//!
//! Under-resolving is the most common way to get a result that looks convincing
//! and is wrong: the wave still propagates, just at the wrong speed, so nothing
//! announces the problem.

use crate::boundary::Boundary;
use crate::grid::{light_speed, Axis, Extent, Grid, GridFault, SPEED_OF_LIGHT};
use crate::lattice::{cell_of_slot, slot_in_range, Cell};
use crate::material::Material;
use crate::numerics::{Elementary, Numerics};
use crate::scalar::{
    arithmetic, below, greater, greater_of, half, magnitude, magnitude_of, minus, number,
    one_half, over, plus, times, Scalar,
};
use crate::scene::{lemma_rows_join, Scene, Shape};
use crate::source::{Source, SourceShape};
use vstd::prelude::*;

verus! {

/// What is wrong with a scene.
#[derive(Clone, Copy, Debug, PartialEq)]
pub enum SceneFault<V> {
    /// The grid itself cannot step.
    Grid { fault: GridFault },
    /// The material table is empty; slot 0 must be vacuum.
    NoMaterials,
    /// Material 0 must be vacuum: every unpainted cell wears index 0.
    NotVacuum,
    /// The absorbing layers of an axis meet in its middle.
    LayersMeet { thickness: u32, axis: Axis, cells: u32 },
    /// The target reflection must lie in (0, 1).
    Reflection { target: V },
    /// A shape references a material the table does not have.
    Dangling { material: u32, len: usize },
    /// Fewer than ten cells per wavelength somewhere, below which the phase
    /// error is severe.
    Unresolved { per_wavelength: V, frequency: V, index: V, cell_size: V },
    /// A source is outside the domain.
    SourceOutside { position: [V; 3] },
    /// A plane wave is polarized along the way it travels.
    Longitudinal { axis: Axis },
    /// A plane wave travels along an axis whose cells differ: its corrections
    /// cancel only where the grid is uniform along the way.
    GradedPlane { axis: Axis },
    /// A shape lies entirely outside the domain and paints nothing.
    ShapeOutside { center: [V; 3] },
}

/// The first axis on which layers of a thickness would meet.
pub open spec fn meeting_axis(extent: Extent, thickness: u32) -> Option<Axis> {
    if 2 * thickness >= extent.x {
        Some(Axis::X)
    } else if 2 * thickness >= extent.y {
        Some(Axis::Y)
    } else if 2 * thickness >= extent.z {
        Some(Axis::Z)
    } else {
        None
    }
}

/// What is wrong with a boundary on a grid.
pub open spec fn boundary_fault<V: Scalar>(boundary: Boundary<V>, extent: Extent) -> Option<
    SceneFault<V>,
> {
    match boundary {
        Boundary::Pec => None,
        Boundary::Absorbing { thickness, target_reflection } => {
            match meeting_axis(extent, thickness) {
                Some(axis) => Some(
                    SceneFault::LayersMeet { thickness, axis, cells: extent.along(axis) as u32 },
                ),
                None => if boundary.reflects_partly() {
                    None
                } else {
                    Some(SceneFault::Reflection { target: target_reflection })
                },
            }
        },
    }
}

/// The first shape, from the `k`-th on, that names a material the table lacks.
pub open spec fn dangling_fault<V: Scalar>(shapes: Seq<Shape<V>>, len: int, k: int) -> Option<
    SceneFault<V>,
>
    decreases shapes.len() - k,
{
    if k >= shapes.len() {
        None
    } else if shapes[k].paint() >= len {
        Some(SceneFault::Dangling { material: shapes[k].paint(), len: len as usize })
    } else {
        dangling_fault(shapes, len, k + 1)
    }
}

/// Cells per wavelength at a frequency, in a medium of the given index, where
/// the cells have the given size.
pub open spec fn resolution_at<V: Scalar, N: Elementary<V>>(
    math: &N,
    index: V,
    frequency: V,
    cell_size: V,
) -> V {
    over(light_speed::<V, N>(math), times(times(index, frequency), cell_size))
}

/// The first place, from the `k`-th on, where a frequency is not resolved.
pub open spec fn coarse_fault<V: Scalar, N: Elementary<V>>(
    math: &N,
    places: Seq<(V, V)>,
    frequency: V,
    k: int,
) -> Option<SceneFault<V>>
    decreases places.len() - k,
{
    if k >= places.len() {
        None
    } else {
        let (index, cell_size) = places[k];
        let cells = resolution_at(math, index, frequency, cell_size);
        if below(cells, number::<V>(10)) {
            Some(SceneFault::Unresolved { per_wavelength: cells, frequency, index, cell_size })
        } else {
            coarse_fault(math, places, frequency, k + 1)
        }
    }
}

/// The first source, from the `k`-th on, that is not resolved everywhere.
pub open spec fn unresolved_fault<V: Scalar, N: Elementary<V>>(
    math: &N,
    sources: Seq<Source<V>>,
    places: Seq<(V, V)>,
    k: int,
) -> Option<SceneFault<V>>
    decreases sources.len() - k,
{
    if k >= sources.len() {
        None
    } else {
        match coarse_fault(math, places, sources[k].waveform.carrier(), 0) {
            Some(fault) => Some(fault),
            None => unresolved_fault(math, sources, places, k + 1),
        }
    }
}

impl<V: Scalar, W: Scalar> Scene<V, W> {
    /// Largest width of a cell over the three axes.
    pub open spec fn width_at(self, cell: Cell) -> V {
        greater_of(
            greater_of(
                self.grid.along(Axis::Y).primary@[cell.y],
                self.grid.along(Axis::Z).primary@[cell.z],
            ),
            self.grid.along(Axis::X).primary@[cell.x],
        )
    }

    /// Largest cell a material sits in, among the first `n` cells, or zero
    /// where it sits in none of them.
    pub open spec fn widest(self, raster: Seq<u32>, material: int, n: int) -> V
        decreases n,
    {
        if n <= 0 {
            number::<V>(0)
        } else {
            let so_far = self.widest(raster, material, n - 1);
            if raster[n - 1] == material {
                greater_of(so_far, self.width_at(self.grid.extent.cell(n - 1)))
            } else {
                so_far
            }
        }
    }

    /// For each of the first `n` materials that is present, its refractive
    /// index paired with the largest cell it sits in: the place where that
    /// material is least well resolved.
    pub open spec fn worst_places<N: Numerics<V, W>>(self, math: &N, n: int) -> Seq<(V, V)>
        decreases n,
    {
        if n <= 0 {
            Seq::empty()
        } else {
            let before = self.worst_places(math, n - 1);
            let cell = self.widest(self.raster(math), n - 1, self.grid.extent.cells());
            if below(number::<V>(0), cell) {
                before.push((self.materials.materials@[n - 1].index_of(math), cell))
            } else {
                before
            }
        }
    }

    /// The first source, from the `k`-th on, that is outside the domain.
    pub open spec fn stray_source<N: Numerics<V, W>>(self, math: &N, k: int) -> Option<
        SceneFault<V>,
    >
        decreases self.sources@.len() - k,
    {
        if k >= self.sources@.len() {
            None
        } else if !self.grid.encloses(math, self.sources@[k].start()) {
            let at = self.sources@[k].start();
            Some(SceneFault::SourceOutside { position: [at[0], at[1], at[2]] })
        } else {
            self.stray_source(math, k + 1)
        }
    }

    /// What is wrong with a source as a plane wave: it has to be transverse, and
    /// to travel along cells of one width.
    pub open spec fn plane_fault(self, source: Source<V>) -> Option<SceneFault<V>> {
        match source.shape {
            SourceShape::PlaneWave { axis, .. } => if source.polarization == axis {
                Some(SceneFault::Longitudinal { axis })
            } else if !self.grid.along(axis).even() {
                Some(SceneFault::GradedPlane { axis })
            } else {
                None
            },
            _ => None,
        }
    }

    /// The first source, from the `k`-th on, that is wrong as a plane wave.
    pub open spec fn bad_plane(self, k: int) -> Option<SceneFault<V>>
        decreases self.sources@.len() - k,
    {
        if k >= self.sources@.len() {
            None
        } else {
            match self.plane_fault(self.sources@[k]) {
                Some(fault) => Some(fault),
                None => self.bad_plane(k + 1),
            }
        }
    }

    /// Whether a shape lies past a wall along one axis.
    pub open spec fn beyond<N: Numerics<V, W>>(
        self,
        math: &N,
        shape: Shape<V>,
        axis: Axis,
    ) -> bool {
        below(
            times(half::<V>(), self.grid.size_along(math, axis)),
            minus(
                magnitude_of(shape.middle()@[axis.position()]),
                shape.reach(math)@[axis.position()],
            ),
        )
    }

    /// How far a position lies past the nearer wall along one axis, and zero where
    /// it lies between the walls.
    pub open spec fn excess<N: Numerics<V, W>>(self, math: &N, at: V, axis: Axis) -> V {
        greater_of(
            minus(magnitude_of(at), times(half::<V>(), self.grid.size_along(math, axis))),
            number::<V>(0),
        )
    }

    /// The square of the distance from a position to the domain.
    pub open spec fn distance_squared<N: Numerics<V, W>>(self, math: &N, at: Seq<V>) -> V {
        let x = self.excess(math, at[0], Axis::X);
        let y = self.excess(math, at[1], Axis::Y);
        let z = self.excess(math, at[2], Axis::Z);
        plus(plus(times(x, x), times(y, y)), times(z, z))
    }

    /// Whether a shape lies entirely outside the domain: a sphere if its centre is
    /// further from the domain than its radius, a box if it lies past a wall.
    pub open spec fn outside<N: Numerics<V, W>>(self, math: &N, shape: Shape<V>) -> bool {
        match shape {
            Shape::Sphere { center, radius, .. } => below(
                times(radius, radius),
                self.distance_squared(math, center@),
            ),
            _ => self.beyond(math, shape, Axis::X) || self.beyond(math, shape, Axis::Y)
                || self.beyond(math, shape, Axis::Z),
        }
    }

    /// The first shape, from the `k`-th on, that lies entirely outside.
    pub open spec fn stray_shape<N: Numerics<V, W>>(self, math: &N, k: int) -> Option<SceneFault<V>>
        decreases self.shapes@.len() - k,
    {
        if k >= self.shapes@.len() {
            None
        } else if self.outside(math, self.shapes@[k]) {
            Some(SceneFault::ShapeOutside { center: self.shapes@[k].middle() })
        } else {
            self.stray_shape(math, k + 1)
        }
    }

    /// The first thing wrong with the scene, if anything is.
    ///
    /// Structural checks come first: the later ones rasterize the shapes and
    /// look materials up by the index they find.
    pub open spec fn fault<N: Numerics<V, W>>(self, math: &N) -> Option<SceneFault<V>> {
        let table = self.materials.materials@;
        if self.grid.fault(math) is Some {
            Some(SceneFault::Grid { fault: self.grid.fault(math)->0 })
        } else if table.len() == 0 {
            Some(SceneFault::NoMaterials)
        } else if !table[0].matches(Material::<V>::empty_space()) {
            Some(SceneFault::NotVacuum)
        } else if boundary_fault(self.boundary, self.grid.extent) is Some {
            boundary_fault(self.boundary, self.grid.extent)
        } else if dangling_fault(self.shapes@, table.len() as int, 0) is Some {
            dangling_fault(self.shapes@, table.len() as int, 0)
        } else if unresolved_fault(
            math,
            self.sources@,
            self.worst_places(math, table.len() as int),
            0,
        ) is Some {
            unresolved_fault(
                math,
                self.sources@,
                self.worst_places(math, table.len() as int),
                0,
            )
        } else if self.stray_source(math, 0) is Some {
            self.stray_source(math, 0)
        } else if self.bad_plane(0) is Some {
            self.bad_plane(0)
        } else {
            self.stray_shape(math, 0)
        }
    }

    /// For each material present, its refractive index paired with the largest
    /// cell it sits in.
    ///
    /// Vacuum is included, because an under-resolved *empty* region is just as
    /// wrong; it simply needs a bigger cell to get there.
    pub fn worst_resolved<N: Numerics<V, W>>(&self, math: &N) -> (r: Vec<(V, V)>)
        requires
            arithmetic::<V>(),
            arithmetic::<W>(),
            self.grid.valid(),
            self.grid.extent.countable(),
            self.materials.materials@.len() >= 1,
            dangling_fault(self.shapes@, self.materials.materials@.len() as int, 0) is None,
        ensures
            r@ == self.worst_places(math, self.materials.materials@.len() as int),
    {
        let indices = self.material_indices(math);
        let ghost raster = self.raster(math);
        let ghost extent = self.grid.extent;
        let count: usize = self.materials.len();
        proof {
            assert(self.grid.along(Axis::X).valid());
            assert(self.grid.along(Axis::Y).valid());
            assert(self.grid.along(Axis::Z).valid());
            assert forall|i: int| 0 <= i < raster.len() implies #[trigger] raster[i] < count by {
                lemma_paint_in_table(
                    self.shapes@,
                    self.center(math, extent.cell(i)),
                    count as int,
                    self.shapes@.len() as int,
                );
            }
        }
        let zero = V::from(0u8);
        let mut coarsest: Vec<V> = Vec::new();
        let mut m: usize = 0;
        while m < count
            invariant
                m <= count,
                zero == number::<V>(0),
                coarsest@.len() == m,
                forall|j: int| 0 <= j < m ==> #[trigger] coarsest@[j] == number::<V>(0),
            decreases count - m,
        {
            coarsest.push(zero);
            m = m + 1;
        }
        let along_x = &self.grid.spacing(Axis::X).primary;
        let along_y = &self.grid.spacing(Axis::Y).primary;
        let along_z = &self.grid.spacing(Axis::Z).primary;
        let mut index: usize = 0;
        let mut z: usize = 0;
        proof {
            lemma_rows_join(extent, 0, 0);
        }
        while z < along_z.len()
            invariant
                arithmetic::<V>(),
                extent == self.grid.extent,
                extent.countable(),
                raster == self.raster(math),
                indices@ == raster,
                coarsest@.len() == count,
                forall|i: int| 0 <= i < raster.len() ==> #[trigger] raster[i] < count,
                along_x@ == self.grid.along(Axis::X).primary@,
                along_y@ == self.grid.along(Axis::Y).primary@,
                along_z@ == self.grid.along(Axis::Z).primary@,
                along_x@.len() == extent.x,
                along_y@.len() == extent.y,
                along_z@.len() == extent.z,
                z <= extent.z,
                index == extent.slot((Cell { x: 0, y: 0, z: z as int })),
                forall|j: int|
                    0 <= j < count ==> #[trigger] coarsest@[j] == self.widest(
                        raster,
                        j,
                        index as int,
                    ),
            decreases extent.z - z,
        {
            let mut y: usize = 0;
            while y < along_y.len()
                invariant
                    arithmetic::<V>(),
                    extent == self.grid.extent,
                    extent.countable(),
                    raster == self.raster(math),
                    indices@ == raster,
                    coarsest@.len() == count,
                    forall|i: int| 0 <= i < raster.len() ==> #[trigger] raster[i] < count,
                    along_x@ == self.grid.along(Axis::X).primary@,
                    along_y@ == self.grid.along(Axis::Y).primary@,
                    along_z@ == self.grid.along(Axis::Z).primary@,
                    along_x@.len() == extent.x,
                    along_y@.len() == extent.y,
                    along_z@.len() == extent.z,
                    z < extent.z,
                    y <= extent.y,
                    index == extent.slot((Cell { x: 0, y: y as int, z: z as int })),
                    forall|j: int|
                        0 <= j < count ==> #[trigger] coarsest@[j] == self.widest(
                            raster,
                            j,
                            index as int,
                        ),
                decreases extent.y - y,
            {
                let slab = greater(along_y[y], along_z[z]);
                let mut x: usize = 0;
                while x < along_x.len()
                    invariant
                        arithmetic::<V>(),
                        extent == self.grid.extent,
                        extent.countable(),
                        raster == self.raster(math),
                        indices@ == raster,
                        coarsest@.len() == count,
                        forall|i: int| 0 <= i < raster.len() ==> #[trigger] raster[i] < count,
                        along_x@ == self.grid.along(Axis::X).primary@,
                        along_y@ == self.grid.along(Axis::Y).primary@,
                        along_z@ == self.grid.along(Axis::Z).primary@,
                        along_x@.len() == extent.x,
                        along_y@.len() == extent.y,
                        along_z@.len() == extent.z,
                        z < extent.z,
                        y < extent.y,
                        x <= extent.x,
                        slab == greater_of(along_y@[y as int], along_z@[z as int]),
                        index == extent.slot((Cell { x: x as int, y: y as int, z: z as int })),
                        forall|j: int|
                            0 <= j < count ==> #[trigger] coarsest@[j] == self.widest(
                                raster,
                                j,
                                index as int,
                            ),
                    decreases extent.x - x,
                {
                    let ghost here = Cell { x: x as int, y: y as int, z: z as int };
                    proof {
                        slot_in_range(extent, here);
                        cell_of_slot(extent, here);
                        assert(raster[index as int] < count);
                    }
                    let cell = greater(slab, along_x[x]);
                    let material: usize = indices[index] as usize;
                    let value = greater(coarsest[material], cell);
                    coarsest.set(material, value);
                    index = index + 1;
                    x = x + 1;
                }
                proof {
                    lemma_rows_join(extent, y as int, z as int);
                }
                y = y + 1;
            }
            proof {
                lemma_rows_join(extent, 0, z as int);
            }
            z = z + 1;
        }
        proof {
            assert((extent.z * extent.y + 0) * extent.x + 0 == extent.cells()) by (nonlinear_arith)
                requires
                    extent.cells() == extent.x as int * extent.y as int * extent.z as int,
            ;
        }
        let mut out: Vec<(V, V)> = Vec::new();
        let mut m: usize = 0;
        while m < count
            invariant
                arithmetic::<V>(),
                zero == number::<V>(0),
                raster == self.raster(math),
                count == self.materials.materials@.len(),
                coarsest@.len() == count,
                m <= count,
                forall|j: int|
                    0 <= j < count ==> #[trigger] coarsest@[j] == self.widest(
                        raster,
                        j,
                        self.grid.extent.cells(),
                    ),
                out@ == self.worst_places(math, m as int),
            decreases count - m,
        {
            let cell = coarsest[m];
            if zero < cell {
                out.push((self.materials.materials[m].refractive_index(math), cell));
            }
            m = m + 1;
        }
        out
    }

    fn check_boundary(&self) -> (r: Result<(), SceneFault<V>>)
        requires
            arithmetic::<V>(),
        ensures
            match boundary_fault(self.boundary, self.grid.extent) {
                Some(fault) => r == Err::<(), SceneFault<V>>(fault),
                None => r is Ok,
            },
    {
        if let Boundary::Absorbing { thickness, target_reflection } = self.boundary {
            let extent = self.grid.extent;
            let twice: u64 = 2 * thickness as u64;
            if twice >= extent.x as u64 {
                return Err(SceneFault::LayersMeet { thickness, axis: Axis::X, cells: extent.x });
            }
            if twice >= extent.y as u64 {
                return Err(SceneFault::LayersMeet { thickness, axis: Axis::Y, cells: extent.y });
            }
            if twice >= extent.z as u64 {
                return Err(SceneFault::LayersMeet { thickness, axis: Axis::Z, cells: extent.z });
            }
            if !(V::from(0u8) < target_reflection && target_reflection < V::from(1u8)) {
                return Err(SceneFault::Reflection { target: target_reflection });
            }
        }
        Ok(())
    }

    pub(crate) fn check_references(&self) -> (r: Result<(), SceneFault<V>>)
        ensures
            match dangling_fault(self.shapes@, self.materials.materials@.len() as int, 0) {
                Some(fault) => r == Err::<(), SceneFault<V>>(fault),
                None => r is Ok,
            },
    {
        let len: usize = self.materials.len();
        let mut k: usize = 0;
        while k < self.shapes.len()
            invariant
                k <= self.shapes@.len(),
                len == self.materials.materials@.len(),
                dangling_fault(self.shapes@, len as int, k as int) == dangling_fault(
                    self.shapes@,
                    len as int,
                    0,
                ),
            decreases self.shapes@.len() - k,
        {
            let material: u32 = self.shapes[k].material();
            if material as usize >= len {
                return Err(SceneFault::Dangling { material, len });
            }
            k = k + 1;
        }
        Ok(())
    }

    fn check_resolution<N: Numerics<V, W>>(&self, math: &N) -> (r: Result<(), SceneFault<V>>)
        requires
            arithmetic::<V>(),
            arithmetic::<W>(),
            self.grid.valid(),
            self.grid.extent.countable(),
            self.materials.materials@.len() >= 1,
            dangling_fault(self.shapes@, self.materials.materials@.len() as int, 0) is None,
        ensures
            match unresolved_fault(
                math,
                self.sources@,
                self.worst_places(math, self.materials.materials@.len() as int),
                0,
            ) {
                Some(fault) => r == Err::<(), SceneFault<V>>(fault),
                None => r is Ok,
            },
    {
        let places = self.worst_resolved(math);
        let light: V = math.count(SPEED_OF_LIGHT);
        let mut k: usize = 0;
        while k < self.sources.len()
            invariant
                arithmetic::<V>(),
                light == light_speed::<V, N>(math),
                k <= self.sources@.len(),
                unresolved_fault(math, self.sources@, places@, k as int) == unresolved_fault(
                    math,
                    self.sources@,
                    places@,
                    0,
                ),
                places@ == self.worst_places(math, self.materials.materials@.len() as int),
            decreases self.sources@.len() - k,
        {
            let frequency = self.sources[k].waveform.dominant_frequency();
            let mut p: usize = 0;
            while p < places.len()
                invariant
                    arithmetic::<V>(),
                    light == light_speed::<V, N>(math),
                    k < self.sources@.len(),
                    frequency == self.sources@[k as int].waveform.carrier(),
                    p <= places@.len(),
                    coarse_fault(math, places@, frequency, p as int) == coarse_fault(
                        math,
                        places@,
                        frequency,
                        0,
                    ),
                    unresolved_fault(math, self.sources@, places@, k as int) == unresolved_fault(
                        math,
                        self.sources@,
                        places@,
                        0,
                    ),
                    places@ == self.worst_places(math, self.materials.materials@.len() as int),
                decreases places@.len() - p,
            {
                let (index, cell_size) = places[p];
                let cells = light / (index * frequency * cell_size);
                if cells < V::from(10u8) {
                    return Err(
                        SceneFault::Unresolved {
                            per_wavelength: cells,
                            frequency,
                            index,
                            cell_size,
                        },
                    );
                }
                p = p + 1;
            }
            k = k + 1;
        }
        Ok(())
    }

    fn check_sources<N: Numerics<V, W>>(&self, math: &N) -> (r: Result<(), SceneFault<V>>)
        requires
            arithmetic::<V>(),
            self.grid.valid(),
        ensures
            match self.stray_source(math, 0) {
                Some(fault) => r == Err::<(), SceneFault<V>>(fault),
                None => r is Ok,
            },
    {
        let mut k: usize = 0;
        while k < self.sources.len()
            invariant
                arithmetic::<V>(),
                self.grid.valid(),
                k <= self.sources@.len(),
                self.stray_source(math, k as int) == self.stray_source(math, 0),
            decreases self.sources@.len() - k,
        {
            let position = self.sources[k].position();
            if !self.grid.contains(math, position) {
                proof {
                    let at = self.sources@[k as int].start();
                    assert(position =~= [at[0], at[1], at[2]]);
                }
                return Err(SceneFault::SourceOutside { position });
            }
            k = k + 1;
        }
        Ok(())
    }

    fn check_plane_waves(&self) -> (r: Result<(), SceneFault<V>>)
        requires
            arithmetic::<V>(),
            self.grid.valid(),
        ensures
            match self.bad_plane(0) {
                Some(fault) => r == Err::<(), SceneFault<V>>(fault),
                None => r is Ok,
            },
    {
        let mut k: usize = 0;
        while k < self.sources.len()
            invariant
                arithmetic::<V>(),
                self.grid.valid(),
                k <= self.sources@.len(),
                self.bad_plane(k as int) == self.bad_plane(0),
            decreases self.sources@.len() - k,
        {
            if let SourceShape::PlaneWave { axis, .. } = self.sources[k].shape {
                if self.sources[k].polarization == axis {
                    return Err(SceneFault::Longitudinal { axis });
                }
                assert(self.grid.along(axis).valid());
                if !self.grid.spacing(axis).is_even() {
                    return Err(SceneFault::GradedPlane { axis });
                }
            }
            k = k + 1;
        }
        Ok(())
    }

    fn check_shapes<N: Numerics<V, W>>(&self, math: &N) -> (r: Result<(), SceneFault<V>>)
        requires
            arithmetic::<V>(),
            self.grid.valid(),
        ensures
            match self.stray_shape(math, 0) {
                Some(fault) => r == Err::<(), SceneFault<V>>(fault),
                None => r is Ok,
            },
    {
        let size = self.grid.size(math);
        let mut k: usize = 0;
        while k < self.shapes.len()
            invariant
                arithmetic::<V>(),
                size@ == seq![
                    self.grid.size_along(math, Axis::X),
                    self.grid.size_along(math, Axis::Y),
                    self.grid.size_along(math, Axis::Z),
                ],
                k <= self.shapes@.len(),
                self.stray_shape(math, k as int) == self.stray_shape(math, 0),
            decreases self.shapes@.len() - k,
        {
            let (center, reach) = self.shapes[k].bounds(math);
            let middle = one_half::<V>();
            let zero = V::from(0u8);
            let stray = match self.shapes[k] {
                Shape::Sphere { radius, .. } => {
                    let x = greater(magnitude(center[0]) - middle * size[0], zero);
                    let y = greater(magnitude(center[1]) - middle * size[1], zero);
                    let z = greater(magnitude(center[2]) - middle * size[2], zero);
                    radius * radius < x * x + y * y + z * z
                },
                _ => middle * size[0] < magnitude(center[0]) - reach[0] || middle * size[1]
                    < magnitude(center[1]) - reach[1] || middle * size[2] < magnitude(center[2])
                    - reach[2],
            };
            if stray {
                return Err(SceneFault::ShapeOutside { center });
            }
            k = k + 1;
        }
        Ok(())
    }

    /// Checks that the scene is actually resolvable, and reports what is
    /// wrong if it is not.
    ///
    /// Resolution is checked against the cells each material *actually
    /// occupies*, not against the coarsest cell in the domain: on a graded grid
    /// that would reject precisely the scenes grading exists for, where the slow
    /// material is small and the refinement is over it.
    pub fn validate<N: Numerics<V, W>>(&self, math: &N) -> (r: Result<(), SceneFault<V>>)
        requires
            arithmetic::<V>(),
            arithmetic::<W>(),
            self.grid.along(Axis::X).valid(),
            self.grid.along(Axis::Y).valid(),
            self.grid.along(Axis::Z).valid(),
            self.grid.extent.countable(),
        ensures
            match self.fault(math) {
                Some(fault) => r == Err::<(), SceneFault<V>>(fault),
                None => r is Ok,
            },
    {
        if let Err(fault) = self.grid.validate(math) {
            return Err(SceneFault::Grid { fault });
        }
        proof {
            assert forall|axis: Axis| #[trigger] self.grid.along(axis).valid() && self.grid.along(
                axis,
            ).primary@.len() == self.grid.extent.along(axis) by {
                match axis {
                    Axis::X => {},
                    Axis::Y => {},
                    Axis::Z => {},
                }
            }
            assert(self.grid.valid());
        }
        if self.materials.len() == 0 {
            return Err(SceneFault::NoMaterials);
        }
        if !self.materials.get(0).equals(&Material::vacuum()) {
            return Err(SceneFault::NotVacuum);
        }
        self.check_boundary()?;
        self.check_references()?;
        self.check_resolution(math)?;
        self.check_sources(math)?;
        self.check_plane_waves()?;
        self.check_shapes(math)
    }
}

/// Whatever is painted is in the table, where no shape names a material outside
/// of it.
pub(crate) proof fn lemma_paint_in_table<V: Scalar>(
    shapes: Seq<Shape<V>>,
    position: Seq<V>,
    len: int,
    n: int,
)
    requires
        0 <= n <= shapes.len(),
        len >= 1,
        dangling_fault(shapes, len, 0) is None,
    ensures
        crate::scene::painted(shapes, position, n) < len,
    decreases n,
{
    if n > 0 {
        lemma_no_dangling(shapes, len, 0, n - 1);
        lemma_paint_in_table(shapes, position, len, n - 1);
    }
}

proof fn lemma_no_dangling<V: Scalar>(shapes: Seq<Shape<V>>, len: int, k: int, j: int)
    requires
        0 <= k <= j < shapes.len(),
        dangling_fault(shapes, len, k) is None,
    ensures
        shapes[j].paint() < len,
    decreases j - k,
{
    if k < j {
        lemma_no_dangling(shapes, len, k + 1, j);
    }
}

/// A scene nothing is wrong with can be built and run: its absorber fits, its
/// shapes name materials that exist, its sources start inside the domain, and its
/// plane waves are transverse and travel along cells of one width.
pub proof fn validated_scene_can_run<V: Scalar, W: Scalar, N: Numerics<V, W>>(
    math: &N,
    scene: Scene<V, W>,
)
    requires
        scene.grid.along(Axis::X).valid(),
        scene.grid.along(Axis::Y).valid(),
        scene.grid.along(Axis::Z).valid(),
        scene.grid.extent.countable(),
        scene.fault(math) is None,
    ensures
        scene.buildable(),
        scene.grid.fault(math) is None,
        forall|k: int|
            0 <= k < scene.sources@.len() ==> scene.grid.encloses(
                math,
                (#[trigger] scene.sources@[k]).start(),
            ),
        forall|k: int|
            0 <= k < scene.sources@.len() ==> scene.plane_fault(
                #[trigger] scene.sources@[k],
            ) is None,
{
    assert forall|axis: Axis| #[trigger] scene.grid.along(axis).valid() && scene.grid.along(
        axis,
    ).primary@.len() == scene.grid.extent.along(axis) by {
        match axis {
            Axis::X => {},
            Axis::Y => {},
            Axis::Z => {},
        }
    }
    assert(scene.boundary.fits(scene.grid.extent)) by {
        assert(boundary_fault(scene.boundary, scene.grid.extent) is None);
        if scene.boundary.depth() > 0 {
            assert forall|axis: Axis| 2 * scene.boundary.depth()
                < #[trigger] scene.grid.extent.along(axis) by {
                match axis {
                    Axis::X => {},
                    Axis::Y => {},
                    Axis::Z => {},
                }
            }
        }
    }
    assert forall|k: int| 0 <= k < scene.sources@.len() implies scene.grid.encloses(
        math,
        (#[trigger] scene.sources@[k]).start(),
    ) by {
        lemma_no_stray(math, scene, 0, k);
    }
    assert forall|k: int| 0 <= k < scene.sources@.len() implies scene.plane_fault(
        #[trigger] scene.sources@[k],
    ) is None by {
        lemma_no_bad_plane(scene, 0, k);
    }
    assert forall|k: int| 0 <= k < scene.sources@.len() implies (
    #[trigger] scene.sources@[k]).coherent() by {
        assert(scene.plane_fault(scene.sources@[k]) is None);
    }
}

proof fn lemma_no_bad_plane<V: Scalar, W: Scalar>(scene: Scene<V, W>, k: int, j: int)
    requires
        0 <= k <= j < scene.sources@.len(),
        scene.bad_plane(k) is None,
    ensures
        scene.plane_fault(scene.sources@[j]) is None,
    decreases j - k,
{
    if k < j {
        lemma_no_bad_plane(scene, k + 1, j);
    }
}

proof fn lemma_no_stray<V: Scalar, W: Scalar, N: Numerics<V, W>>(
    math: &N,
    scene: Scene<V, W>,
    k: int,
    j: int,
)
    requires
        0 <= k <= j < scene.sources@.len(),
        scene.stray_source(math, k) is None,
    ensures
        scene.grid.encloses(math, scene.sources@[j].start()),
    decreases j - k,
{
    if k < j {
        lemma_no_stray(math, scene, k + 1, j);
    }
}

} // verus!
