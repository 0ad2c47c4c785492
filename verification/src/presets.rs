//! The built-in scenes.

use crate::boundary::Boundary;
use crate::grid::{can_grade, graded_as_asked, Axis, Extent, Grid};
use crate::material::{Material, MaterialTable};
use crate::numerics::{Elementary, Numerics};
use crate::scalar::{arithmetic, half, lesser, lesser_of, negative, number, over, times, Scalar};
use crate::scene::{Scene, Shape};
use crate::source::{Source, SourceShape, Waveform};
use crate::spacing::{admissible, copied};
use vstd::prelude::*;

verus! {

/// Cell size the built-in scenes are defined at: one millimetre.
pub open spec fn preset_cell_size<V: Scalar, N: Elementary<V>>(math: &N) -> V {
    math.decimal_of(1, 3)
}

/// A two-cycle pulse spanning `cells` cells per wavelength.
pub open spec fn packet<V: Scalar, W: Scalar, N: Elementary<V>>(
    math: &N,
    grid: Grid<V, W>,
    cells: V,
) -> Waveform<V> {
    let frequency = grid.frequency_spanning(math, cells);
    Waveform::GaussianPulse {
        center_frequency: frequency,
        duration_cycles: number(2),
        delay: over(times(math.decimal_of(23, 1), number::<V>(2)), frequency),
    }
}

/// The sheet that launches the packet: a fifth of the way in from the low wall,
/// a quarter of the cross-section wide.
pub open spec fn launcher<V: Scalar, W: Scalar, N: Numerics<V, W>>(
    math: &N,
    grid: Grid<V, W>,
    waveform: Waveform<V>,
) -> Source<V> {
    Source {
        shape: SourceShape::Sheet {
            axis: Axis::X,
            offset: times(negative(math.decimal_of(3, 1)), grid.size_along(math, Axis::X)),
            waist: times(
                math.decimal_of(25, 2),
                lesser_of(grid.size_along(math, Axis::Y), grid.size_along(math, Axis::Z)),
            ),
        },
        polarization: Axis::Z,
        waveform,
        amplitude: number(1),
    }
}

impl<V: Scalar, W: Scalar> Scene<V, W> {
    /// Whether the scene sits on the uniform grid a preset of this extent has.
    pub open spec fn on_preset_grid<N: Numerics<V, W>>(self, math: &N, extent: Extent) -> bool {
        &&& self.grid.follows(math, self.grid.recipe)
        &&& self.grid.extent == extent
        &&& self.grid.recipe.extent == extent
        &&& self.grid.recipe.cell_size == preset_cell_size::<V, N>(math)
        &&& self.grid.recipe.courant == half::<V>()
        &&& self.grid.recipe.refinements@.len() == 0
    }

    /// Whether this is the packet in free space: absorbing walls, nothing
    /// inside, one sheet at sixteen cells per wavelength.
    pub open spec fn is_photon<N: Numerics<V, W>>(self, math: &N) -> bool {
        &&& self.boundary == Boundary::<V>::usual(math)
        &&& self.materials.materials@ == seq![Material::<V>::empty_space()]
        &&& self.shapes@.len() == 0
        &&& self.sources@ == seq![
            launcher(math, self.grid, packet(math, self.grid, number::<V>(16))),
        ]
    }

    /// Whether this is the packet meeting a slab: the glass is the second
    /// material unless it is no different from vacuum, the slab is a quarter of
    /// the domain thick, and the packet is resolved inside it too.
    pub open spec fn is_slab<N: Numerics<V, W>>(self, math: &N, refractive_index: V) -> bool {
        let glass = Material {
            relative_permittivity: times(refractive_index, refractive_index),
            ..Material::<V>::empty_space()
        };
        let merged = Material::<V>::empty_space().matches(glass);
        &&& self.boundary == Boundary::<V>::usual(math)
        &&& self.materials.materials@ == if merged {
            seq![Material::<V>::empty_space()]
        } else {
            seq![Material::<V>::empty_space(), glass]
        }
        &&& self.shapes@ == seq![
            Shape::Slab {
                axis: Axis::X,
                offset: over(self.grid.size_along(math, Axis::X), number::<V>(8)),
                thickness: over(self.grid.size_along(math, Axis::X), number::<V>(4)),
                material: if merged {
                    0u32
                } else {
                    1u32
                },
            },
        ]
        &&& self.sources@ == seq![
            launcher(
                math,
                self.grid,
                packet(math, self.grid, times(number::<V>(16), refractive_index)),
            ),
        ]
    }

    /// The signature demo: a transversely apodized wave packet launched into
    /// free space, with absorbing walls so it leaves cleanly.
    ///
    /// The packet is polarized along `z` and travels along `x`, so `Ez` and
    /// `Hy` carry it and the exchange between them is visible side-on. Sixteen
    /// cells per wavelength keep numerical dispersion a fraction of a percent.
    pub fn photon<N: Numerics<V, W>>(math: &N, extent: Extent) -> (r: Self)
        requires
            arithmetic::<V>(),
            arithmetic::<W>(),
            extent.x >= 2,
            extent.y >= 2,
            extent.z >= 2,
            admissible(math, preset_cell_size::<V, N>(math)),
        ensures
            r.on_preset_grid(math, extent),
            r.is_photon(math),
    {
        let grid = Grid::new(math, extent, math.decimal(1, 3));
        let source = Self::launch(math, &grid, V::from(16u8));
        let mut sources: Vec<Source<V>> = Vec::new();
        sources.push(source);
        Scene {
            grid,
            boundary: Boundary::absorbing(math),
            materials: MaterialTable::new(),
            shapes: Vec::new(),
            sources,
        }
    }

    fn launch<N: Numerics<V, W>>(math: &N, grid: &Grid<V, W>, cells: V) -> (r: Source<V>)
        requires
            arithmetic::<V>(),
            grid.valid(),
        ensures
            r == launcher(math, *grid, packet(math, *grid, cells)),
    {
        let size = grid.size(math);
        let frequency = grid.frequency_for_resolution(math, cells);
        let back: V = math.decimal(3, 1);
        let quarter: V = math.decimal(25, 2);
        Source::sheet(
            Axis::X,
            (V::from(0u8) - back) * size[0],
            quarter * lesser(size[1], size[2]),
            Axis::Z,
            Waveform::gaussian_pulse(math, frequency, V::from(2u8)),
        )
    }

    /// A closed perfectly conducting box driven by a point dipole.
    ///
    /// Lossless; and once the standing-wave pattern settles, the electric and
    /// magnetic energy densities alternate in place.
    pub fn cavity<N: Numerics<V, W>>(math: &N, extent: Extent) -> (r: Self)
        requires
            arithmetic::<V>(),
            arithmetic::<W>(),
            extent.x >= 2,
            extent.y >= 2,
            extent.z >= 2,
            admissible(math, preset_cell_size::<V, N>(math)),
        ensures
            r.on_preset_grid(math, extent),
            r.is_cavity(math),
    {
        Self::cavity_on(math, Grid::new(math, extent, math.decimal(1, 3)))
    }

    /// Whether this is a cavity: conducting walls, nothing inside, and one
    /// dipole along `z`, off-centre along `x`.
    pub open spec fn is_cavity<N: Numerics<V, W>>(self, math: &N) -> bool {
        let zero = number::<V>(0);
        let frequency = self.grid.frequency_spanning(math, number::<V>(16));
        &&& self.boundary == Boundary::<V>::Pec
        &&& self.materials.materials@ == seq![Material::<V>::empty_space()]
        &&& self.shapes@.len() == 0
        &&& self.sources@ == seq![
            Source {
                shape: SourceShape::Point {
                    at: [
                        over(negative(self.grid.size_along(math, Axis::X)), number::<V>(6)),
                        zero,
                        zero,
                    ],
                    velocity: [zero, zero, zero],
                },
                polarization: Axis::Z,
                waveform: Waveform::Ricker {
                    peak_frequency: frequency,
                    delay: over(math.decimal_of(14, 1), frequency),
                },
                amplitude: number(1),
            },
        ]
    }

    /// The same cavity on a grid built beforehand, graded or not.
    pub fn cavity_on<N: Numerics<V, W>>(math: &N, grid: Grid<V, W>) -> (r: Self)
        requires
            arithmetic::<V>(),
            arithmetic::<W>(),
            grid.valid(),
        ensures
            r.grid == grid,
            r.is_cavity(math),
    {
        let zero = V::from(0u8);
        let size = grid.size(math);
        let frequency = grid.frequency_for_resolution(math, V::from(16u8));
        let at = [(zero - size[0]) / V::from(6u8), zero, zero];
        let still = [zero, zero, zero];
        let source = Source::point_moving(at, still, Axis::Z, Waveform::ricker(math, frequency));
        let mut sources: Vec<Source<V>> = Vec::new();
        sources.push(source);
        let scene = Scene {
            grid,
            boundary: Boundary::Pec,
            materials: MaterialTable::new(),
            shapes: Vec::new(),
            sources,
        };
        proof {
            assert(at =~= [
                over(negative(scene.grid.size_along(math, Axis::X)), number::<V>(6)),
                number::<V>(0),
                number::<V>(0),
            ]);
            assert(still =~= [number::<V>(0), number::<V>(0), number::<V>(0)]);
        }
        scene
    }

    /// A wave packet meeting a dielectric slab head on: part reflects, part
    /// refracts, and the wavelength visibly shortens inside the glass.
    ///
    /// The resolution is kept inside the glass too, where the wavelength is `n`
    /// times shorter.
    pub fn slab<N: Numerics<V, W>>(math: &N, extent: Extent, refractive_index: V) -> (r: Self)
        requires
            arithmetic::<V>(),
            arithmetic::<W>(),
            extent.x >= 2,
            extent.y >= 2,
            extent.z >= 2,
            admissible(math, preset_cell_size::<V, N>(math)),
        ensures
            r.on_preset_grid(math, extent),
            r.is_slab(math, refractive_index),
    {
        let grid = Grid::new(math, extent, math.decimal(1, 3));
        let source = Self::launch(math, &grid, V::from(16u8) * refractive_index);
        let size = grid.size(math);
        let mut materials = MaterialTable::new();
        proof {
            reveal_with_fuel(crate::material::first_match, 3);
            assert(materials.materials@.drop_first() =~= Seq::<Material<V>>::empty());
        }
        let material: u32 = materials.push(Material::refractive(refractive_index));
        let mut shapes: Vec<Shape<V>> = Vec::new();
        shapes.push(
            Shape::Slab {
                axis: Axis::X,
                offset: size[0] / V::from(8u8),
                thickness: size[0] / V::from(4u8),
                material,
            },
        );
        let mut sources: Vec<Source<V>> = Vec::new();
        sources.push(source);
        let scene = Scene {
            grid,
            boundary: Boundary::absorbing(math),
            materials,
            shapes,
            sources,
        };
        proof {
            let vacuum = Material::<V>::empty_space();
            let glass = Material {
                relative_permittivity: times(refractive_index, refractive_index),
                ..vacuum
            };
            assert(scene.materials.materials@ =~= if vacuum.matches(glass) {
                seq![vacuum]
            } else {
                seq![vacuum, glass]
            });
            assert(scene.shapes@ =~= seq![scene.shapes@[0]]);
            assert(scene.sources@ =~= seq![scene.sources@[0]]);
        }
        scene
    }

    /// The same physical scene, rediscretized at `resolution` cells per metre,
    /// or nothing where its refinements cannot be carried there.
    ///
    /// Nothing moves: geometry and sources are in metres, so only the grid
    /// changes. This is what makes a convergence study a one-liner.
    pub fn with_resolution<N: Numerics<V, W>>(&self, math: &N, resolution: V) -> (r: Option<Self>)
        requires
            arithmetic::<V>(),
            arithmetic::<W>(),
            self.grid.valid(),
            can_grade(
                math,
                resolution,
                self.grid.recipe.refinements@,
                self.grid.recipe.max_ratio,
            ),
        ensures
            graded_as_asked(
                math,
                seq![
                    self.grid.size_along(math, Axis::X),
                    self.grid.size_along(math, Axis::Y),
                    self.grid.size_along(math, Axis::Z),
                ],
                resolution,
                self.grid.recipe.refinements@,
                self.grid.courant,
                self.grid.recipe.max_ratio,
                match r {
                    Some(scene) => Some(scene.grid),
                    None => None,
                },
            ),
            r matches Some(scene) ==> {
                &&& scene.boundary == self.boundary
                &&& scene.materials.materials@ == self.materials.materials@
                &&& scene.shapes@ == self.shapes@
                &&& scene.sources@ == self.sources@
            },
    {
        match self.grid.with_resolution(math, resolution) {
            Some(grid) => Some(
                Scene {
                    grid,
                    boundary: self.boundary,
                    materials: MaterialTable { materials: copied(&self.materials.materials) },
                    shapes: copied(&self.shapes),
                    sources: copied(&self.sources),
                },
            ),
            None => None,
        }
    }
}

} // verus!
