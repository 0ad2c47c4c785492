//! The reference solver.
//!
//! Plain loops, no intrinsics, no threads. Its job is to be *obviously* the
//! equations in [`crate::stencil`] and nothing else.

use crate::boundary::{peak_of, AbsorbingProfile};
use crate::grid::{Axis, Grid};
use crate::lattice::{cell_at, slot_in_range};
use crate::material::MaterialTable;
use crate::numerics::Numerics;
use crate::scalar::{
    arithmetic, half, number, one_half, plus, same, times, Scalar,
};
use crate::scene::Scene;
use crate::setup::{Setup, State};
use crate::source::{Injection, SourceShape};
use crate::spacing::copied;
use crate::stencil::{Direction, Half, Medium};
use crate::validation::{dangling_fault, lemma_paint_in_table};
use vstd::prelude::*;

verus! {

/// A running simulation.
#[derive(Debug)]
pub struct Simulation<V, W, N> {
    /// What the run reads and never writes.
    pub setup: Setup<V, W, N>,
    /// The three components of `E`.
    pub electric_field: [Vec<V>; 3],
    /// The three components of `H`.
    pub magnetic_field: [Vec<V>; 3],
    /// Steps completed so far.
    pub step: u64,
}

fn filled<V: Scalar>(count: usize, value: V) -> (r: Vec<V>)
    ensures
        r@ == Seq::new(count as nat, |i: int| value),
{
    let mut out: Vec<V> = Vec::new();
    let mut i: usize = 0;
    while i < count
        invariant
            i <= count,
            out@.len() == i,
            forall|j: int| 0 <= j < i ==> #[trigger] out@[j] == value,
        decreases count - i,
    {
        out.push(value);
        i = i + 1;
    }
    assert(out@ =~= Seq::new(count as nat, |i: int| value));
    out
}

impl<V: Scalar, W: Scalar> Scene<V, W> {
    /// Whether a solver can be built from the scene.
    pub open spec fn buildable(self) -> bool {
        &&& self.grid.valid()
        &&& self.grid.extent.countable()
        &&& self.boundary.fits(self.grid.extent)
        &&& self.materials.materials@.len() >= 1
        &&& dangling_fault(self.shapes@, self.materials.materials@.len() as int, 0) is None
        &&& forall|k: int|
            0 <= k < self.sources@.len() ==> (#[trigger] self.sources@[k]).coherent()
    }

    /// Whether a solver can be built of the scene.
    pub fn is_buildable(&self) -> (r: bool)
        requires
            arithmetic::<V>(),
            self.grid.along(Axis::X).valid(),
            self.grid.along(Axis::Y).valid(),
            self.grid.along(Axis::Z).valid(),
        ensures
            r == self.buildable(),
    {
        let extent = self.grid.extent;
        let spaced = self.grid.spacing(Axis::X).primary.len() == extent.x as usize
            && self.grid.spacing(Axis::Y).primary.len() == extent.y as usize && self.grid.spacing(
            Axis::Z,
        ).primary.len() == extent.z as usize;
        proof {
            assert(self.grid.valid() ==> self.grid.along(Axis::X).primary@.len() == extent.x
                && self.grid.along(Axis::Y).primary@.len() == extent.y && self.grid.along(
                Axis::Z,
            ).primary@.len() == extent.z);
            if spaced {
                assert forall|axis: Axis| #[trigger] self.grid.along(axis).valid()
                    && self.grid.along(axis).primary@.len() == extent.along(axis) by {
                    match axis {
                        Axis::X => {},
                        Axis::Y => {},
                        Axis::Z => {},
                    }
                }
            }
        }
        spaced && extent.is_countable() && self.boundary.is_fitting(extent) && self.materials.len()
            >= 1 && self.check_references().is_ok() && self.sources_cohere()
    }

    fn sources_cohere(&self) -> (r: bool)
        ensures
            r == forall|k: int|
                0 <= k < self.sources@.len() ==> (#[trigger] self.sources@[k]).coherent(),
    {
        let mut k: usize = 0;
        while k < self.sources.len()
            invariant
                k <= self.sources@.len(),
                forall|j: int| 0 <= j < k ==> (#[trigger] self.sources@[j]).coherent(),
            decreases self.sources@.len() - k,
        {
            let source = self.sources[k];
            let coherent = match source.shape {
                SourceShape::PlaneWave { axis, .. } => source.polarization != axis,
                _ => true,
            };
            if !coherent {
                assert(!self.sources@[k as int].coherent());
                return false;
            }
            k = k + 1;
        }
        true
    }
}

impl<V: Scalar, W: Scalar, N: Numerics<V, W>> Setup<V, W, N> {
    /// Whether this is the setup of a scene.
    pub open spec fn describes(self, scene: Scene<V, W>) -> bool {
        let math = &self.math;
        &&& self.valid()
        &&& self.grid.alike(scene.grid)
        &&& self.materials.materials@ == scene.materials.materials@
        &&& self.sources@ == scene.sources@
        &&& self.medium.material_index@ == scene.raster(math)
        &&& self.medium.coefficients@ == scene.materials.coefficients_over(
            math,
            scene.grid.step_time(math),
        )
        &&& forall|axis: Axis|
            #![trigger self.medium.magnetic_gains@[axis.position()]]
            self.medium.magnetic_gains@[axis.position()]@ == scene.grid.gains_over(
                math,
                scene.grid.along(axis).primary@,
            )
        &&& forall|axis: Axis|
            #![trigger self.medium.electric_gains@[axis.position()]]
            self.medium.electric_gains@[axis.position()]@ == scene.grid.gains_over(
                math,
                scene.grid.along(axis).dual@,
            )
        &&& forall|axis: Axis|
            #![trigger self.medium.absorber.integer@[axis.position()]]
            self.medium.absorber.integer@[axis.position()]@ == scene.boundary.integer_profile(
                math,
                scene.grid.courant,
                scene.grid.extent.along(axis),
            )
        &&& forall|axis: Axis|
            #![trigger self.medium.absorber.half@[axis.position()]]
            self.medium.absorber.half@[axis.position()]@ == scene.boundary.half_profile(
                math,
                scene.grid.courant,
                scene.grid.extent.along(axis),
            )
        &&& forall|axis: Axis|
            #![trigger self.centers@[axis.position()]]
            self.centers@[axis.position()]@ == scene.grid.centers_along(math, axis)
    }

    /// Whether nothing in the setup takes energy out of the fields.
    pub open spec fn lossless(self) -> bool {
        &&& forall|i: int|
            #![trigger self.medium.coefficients@[i]]
            0 <= i < self.medium.coefficients@.len() ==> same(
                self.medium.coefficients@[i].electric_loss,
                number::<V>(0),
            ) && same(self.medium.coefficients@[i].magnetic_loss, number::<V>(0))
        &&& same(
            peak_of(
                self.medium.absorber.samples(),
                self.medium.absorber.samples().len() as int,
            ),
            number::<V>(0),
        )
    }

    /// Builds the setup of a scene.
    pub fn new(math: N, scene: &Scene<V, W>) -> (r: Self)
        requires
            arithmetic::<V>(),
            arithmetic::<W>(),
            scene.buildable(),
            scene.grid.fault(&math) is None,
        ensures
            r.math == math,
            r.describes(*scene),
    {
        let grid = &scene.grid;
        proof {
            assert(grid.along(Axis::X).valid());
            assert(grid.along(Axis::Y).valid());
            assert(grid.along(Axis::Z).valid());
        }
        let material_index = scene.material_indices(&math);
        let coefficients = scene.materials.coefficients(&math, grid);
        let absorber = AbsorbingProfile::new(&math, grid, scene.boundary);
        let magnetic_gains = [
            grid.magnetic_gains(&math, Axis::X),
            grid.magnetic_gains(&math, Axis::Y),
            grid.magnetic_gains(&math, Axis::Z),
        ];
        let electric_gains = [
            grid.electric_gains(&math, Axis::X),
            grid.electric_gains(&math, Axis::Y),
            grid.electric_gains(&math, Axis::Z),
        ];
        let centers = [
            grid.cell_centers(&math, Axis::X),
            grid.cell_centers(&math, Axis::Y),
            grid.cell_centers(&math, Axis::Z),
        ];
        let medium = Medium {
            extent: grid.extent,
            material_index,
            coefficients,
            absorber,
            magnetic_gains,
            electric_gains,
        };
        proof {
            assert forall|i: int| 0 <= i < medium.material_index@.len() implies (
            #[trigger] medium.material_index@[i]) < medium.coefficients@.len() by {
                lemma_paint_in_table(
                    scene.shapes@,
                    scene.center(&math, grid.extent.cell(i)),
                    scene.materials.materials@.len() as int,
                    scene.shapes@.len() as int,
                );
            }
            assert forall|axis: Axis|
                #![trigger medium.magnetic_gains@[axis.position()]]
                medium.magnetic_gains@[axis.position()]@ == grid.gains_over(
                    &math,
                    grid.along(axis).primary@,
                ) && medium.magnetic_gains@[axis.position()]@.len() == grid.extent.along(axis) by {
                match axis {
                    Axis::X => {},
                    Axis::Y => {},
                    Axis::Z => {},
                }
            }
            assert forall|axis: Axis|
                #![trigger medium.electric_gains@[axis.position()]]
                medium.electric_gains@[axis.position()]@ == grid.gains_over(
                    &math,
                    grid.along(axis).dual@,
                ) && medium.electric_gains@[axis.position()]@.len() == grid.extent.along(axis) by {
                match axis {
                    Axis::X => {},
                    Axis::Y => {},
                    Axis::Z => {},
                }
            }
            assert forall|axis: Axis|
                #![trigger centers@[axis.position()]]
                centers@[axis.position()]@ == grid.centers_along(&math, axis)
                    && centers@[axis.position()]@.len() == grid.extent.along(axis) by {
                match axis {
                    Axis::X => {},
                    Axis::Y => {},
                    Axis::Z => {},
                }
            }
            assert(medium.valid());
        }
        Setup {
            math,
            grid: grid.duplicate(),
            medium,
            materials: MaterialTable { materials: copied(&scene.materials.materials) },
            centers,
            sources: copied(&scene.sources),
        }
    }

    /// Whether stepping backwards is numerically meaningful here.
    ///
    /// False as soon as anything in the scene is lossy.
    pub fn is_reversible(&self) -> (r: bool)
        requires
            self.valid(),
        ensures
            r == self.lossless(),
    {
        let zero = V::from(0u8);
        let mut k: usize = 0;
        while k < self.medium.coefficients.len()
            invariant
                arithmetic::<V>(),
                zero == number::<V>(0),
                k <= self.medium.coefficients@.len(),
                forall|i: int|
                    #![trigger self.medium.coefficients@[i]]
                    0 <= i < k ==> same(
                        self.medium.coefficients@[i].electric_loss,
                        number::<V>(0),
                    ) && same(self.medium.coefficients@[i].magnetic_loss, number::<V>(0)),
            decreases self.medium.coefficients@.len() - k,
        {
            let coefficients = self.medium.coefficients[k];
            if !(coefficients.electric_loss == zero && coefficients.magnetic_loss == zero) {
                assert(!(same(
                    self.medium.coefficients@[k as int].electric_loss,
                    number::<V>(0),
                ) && same(
                    self.medium.coefficients@[k as int].magnetic_loss,
                    number::<V>(0),
                )));
                return false;
            }
            k = k + 1;
        }
        self.medium.absorber.peak() == zero
    }
}

impl<V: Scalar, W: Scalar, N: Numerics<V, W>> Simulation<V, W, N> {
    /// The setup is in order, and every component has a value for every cell.
    pub open spec fn valid(self) -> bool {
        &&& self.setup.valid()
        &&& self.state().shaped(self.setup.cells())
    }

    /// The fields and the clock.
    pub open spec fn state(self) -> State<V> {
        State {
            electric: seq![
                self.electric_field@[0]@,
                self.electric_field@[1]@,
                self.electric_field@[2]@,
            ],
            magnetic: seq![
                self.magnetic_field@[0]@,
                self.magnetic_field@[1]@,
                self.magnetic_field@[2]@,
            ],
            step: self.step as int,
        }
    }

    /// Builds a simulation from a scene, with empty fields.
    pub fn new(math: N, scene: &Scene<V, W>) -> (r: Self)
        requires
            arithmetic::<V>(),
            arithmetic::<W>(),
            scene.buildable(),
            scene.grid.fault(&math) is None,
        ensures
            r.valid(),
            r.setup.math == math,
            r.setup.describes(*scene),
            r.state() == r.setup.at_rest(),
    {
        let setup = Setup::new(math, scene);
        let total: usize = scene.grid.extent.total();
        let zero = V::from(0u8);
        let simulation = Simulation {
            setup,
            electric_field: [filled(total, zero), filled(total, zero), filled(total, zero)],
            magnetic_field: [filled(total, zero), filled(total, zero), filled(total, zero)],
            step: 0,
        };
        assert(simulation.state() =~= simulation.setup.at_rest());
        simulation
    }

    pub fn grid(&self) -> (r: &Grid<V, W>)
        ensures
            *r == self.setup.grid,
    {
        &self.setup.grid
    }

    /// Steps completed so far.
    pub fn step_count(&self) -> (r: u64)
        ensures
            r == self.state().step,
    {
        self.step
    }

    /// Simulated time in seconds, which is the time `E` currently holds.
    pub fn time(&self) -> (r: V)
        requires
            self.setup.valid(),
        ensures
            r == self.setup.time_after(self.state().step),
    {
        self.time_of(self.step)
    }

    fn time_of(&self, step: u64) -> (r: V)
        requires
            self.setup.valid(),
        ensures
            r == self.setup.time_after(step as int),
    {
        let steps: V = self.setup.math.count(step);
        steps * self.setup.grid.time_step(&self.setup.math)
    }

    pub fn electric(&self, axis: Axis) -> (r: &[V])
        ensures
            r@ == self.state().electric[axis.position()],
    {
        self.electric_field[axis.index()].as_slice()
    }

    pub fn magnetic(&self, axis: Axis) -> (r: &[V])
        ensures
            r@ == self.state().magnetic[axis.position()],
    {
        self.magnetic_field[axis.index()].as_slice()
    }

    /// Direct access for seeding an initial condition.
    pub fn electric_mut(&mut self, axis: Axis) -> (r: &mut [V])
        ensures
            r@ == old(self).state().electric[axis.position()],
            final(self).setup == old(self).setup,
            final(self).state() == (State {
                electric: old(self).state().electric.update(axis.position(), final(r)@),
                ..old(self).state()
            }),
    {
        self.electric_field[axis.index()].as_mut_slice()
    }

    pub fn magnetic_mut(&mut self, axis: Axis) -> (r: &mut [V])
        ensures
            r@ == old(self).state().magnetic[axis.position()],
            final(self).setup == old(self).setup,
            final(self).state() == (State {
                magnetic: old(self).state().magnetic.update(axis.position(), final(r)@),
                ..old(self).state()
            }),
    {
        self.magnetic_field[axis.index()].as_mut_slice()
    }

    /// Value of an `E` component at a cell.
    pub fn sample_electric(&self, axis: Axis, coord: [usize; 3]) -> (r: V)
        requires
            self.valid(),
            self.setup.grid.extent.has(cell_at(coord)),
        ensures
            r == self.state().electric[axis.position()][self.setup.grid.extent.slot(
                cell_at(coord),
            )],
    {
        proof {
            slot_in_range(self.setup.grid.extent, cell_at(coord));
            assert(self.state().electric[axis.position()].len() == self.setup.cells());
        }
        self.electric_field[axis.index()][self.setup.grid.extent.index(coord)]
    }

    /// Value of an `H` component at a cell.
    pub fn sample_magnetic(&self, axis: Axis, coord: [usize; 3]) -> (r: V)
        requires
            self.valid(),
            self.setup.grid.extent.has(cell_at(coord)),
        ensures
            r == self.state().magnetic[axis.position()][self.setup.grid.extent.slot(
                cell_at(coord),
            )],
    {
        proof {
            slot_in_range(self.setup.grid.extent, cell_at(coord));
            assert(self.state().magnetic[axis.position()].len() == self.setup.cells());
        }
        self.magnetic_field[axis.index()][self.setup.grid.extent.index(coord)]
    }

    /// Clears the fields and rewinds the clock, leaving geometry alone.
    pub fn reset(&mut self)
        requires
            old(self).valid(),
        ensures
            final(self).valid(),
            final(self).setup == old(self).setup,
            final(self).state() == old(self).setup.at_rest(),
    {
        let total: usize = self.setup.grid.extent.total();
        let zero = V::from(0u8);
        self.electric_field = [filled(total, zero), filled(total, zero), filled(total, zero)];
        self.magnetic_field = [filled(total, zero), filled(total, zero), filled(total, zero)];
        self.step = 0;
        assert(self.state() =~= self.setup.at_rest());
    }

    /// Runs one half-update over all three components.
    fn sweep(&mut self, half: Half, direction: Direction)
        requires
            old(self).valid(),
        ensures
            final(self).valid(),
            final(self).setup == old(self).setup,
            half == Half::Magnetic ==> final(self).state() == (State {
                magnetic: old(self).setup.swept(
                    half,
                    direction,
                    old(self).state().magnetic,
                    old(self).state().electric,
                ),
                ..old(self).state()
            }),
            half == Half::Electric ==> final(self).state() == (State {
                electric: old(self).setup.swept(
                    half,
                    direction,
                    old(self).state().electric,
                    old(self).state().magnetic,
                ),
                ..old(self).state()
            }),
    {
        let ghost before = self.state();
        proof {
            assert(before.electric[0].len() == self.setup.cells());
            assert(before.electric[1].len() == self.setup.cells());
            assert(before.electric[2].len() == self.setup.cells());
            assert(before.magnetic[0].len() == self.setup.cells());
            assert(before.magnetic[1].len() == self.setup.cells());
            assert(before.magnetic[2].len() == self.setup.cells());
        }
        match half {
            Half::Magnetic => {
                self.setup.medium.sweep(
                    half,
                    direction,
                    Axis::X,
                    &mut self.magnetic_field[0],
                    &self.electric_field[1],
                    &self.electric_field[2],
                );
                self.setup.medium.sweep(
                    half,
                    direction,
                    Axis::Y,
                    &mut self.magnetic_field[1],
                    &self.electric_field[2],
                    &self.electric_field[0],
                );
                self.setup.medium.sweep(
                    half,
                    direction,
                    Axis::Z,
                    &mut self.magnetic_field[2],
                    &self.electric_field[0],
                    &self.electric_field[1],
                );
                assert(self.state().magnetic =~= self.setup.swept(
                    half,
                    direction,
                    before.magnetic,
                    before.electric,
                ));
            },
            Half::Electric => {
                self.setup.medium.sweep(
                    half,
                    direction,
                    Axis::X,
                    &mut self.electric_field[0],
                    &self.magnetic_field[1],
                    &self.magnetic_field[2],
                );
                self.setup.medium.sweep(
                    half,
                    direction,
                    Axis::Y,
                    &mut self.electric_field[1],
                    &self.magnetic_field[2],
                    &self.magnetic_field[0],
                );
                self.setup.medium.sweep(
                    half,
                    direction,
                    Axis::Z,
                    &mut self.electric_field[2],
                    &self.magnetic_field[0],
                    &self.magnetic_field[1],
                );
                assert(self.state().electric =~= self.setup.swept(
                    half,
                    direction,
                    before.electric,
                    before.magnetic,
                ));
            },
        }
    }

    /// `H[a] ← ((1−m)·H[a] − gain·(∂E[c]/∂b − ∂E[b]/∂c)) / (1+m)`, forward
    /// differences.
    pub fn update_magnetic(&mut self)
        requires
            old(self).valid(),
        ensures
            final(self).valid(),
            final(self).setup == old(self).setup,
            final(self).state() == (State {
                magnetic: old(self).setup.swept(
                    Half::Magnetic,
                    Direction::Forward,
                    old(self).state().magnetic,
                    old(self).state().electric,
                ),
                ..old(self).state()
            }),
    {
        self.sweep(Half::Magnetic, Direction::Forward);
    }

    /// `E[a] ← ((1−l)·E[a] + gain·(∂H[c]/∂b − ∂H[b]/∂c)) / (1+l)`, backward
    /// differences.
    pub fn update_electric(&mut self)
        requires
            old(self).valid(),
        ensures
            final(self).valid(),
            final(self).setup == old(self).setup,
            final(self).state() == (State {
                electric: old(self).setup.swept(
                    Half::Electric,
                    Direction::Forward,
                    old(self).state().electric,
                    old(self).state().magnetic,
                ),
                ..old(self).state()
            }),
    {
        self.sweep(Half::Electric, Direction::Forward);
    }

    /// The inverse of [`Self::update_electric`], over the same cells.
    ///
    /// `E ← ((1+l)·E − gain·curl H) / (1−l)`. A cell the forward step skipped
    /// and this one touched would not be undone, it would be corrupted.
    pub fn reverse_electric(&mut self)
        requires
            old(self).valid(),
        ensures
            final(self).valid(),
            final(self).setup == old(self).setup,
            final(self).state() == (State {
                electric: old(self).setup.swept(
                    Half::Electric,
                    Direction::Backward,
                    old(self).state().electric,
                    old(self).state().magnetic,
                ),
                ..old(self).state()
            }),
    {
        self.sweep(Half::Electric, Direction::Backward);
    }

    /// The inverse of [`Self::update_magnetic`], over the same cells.
    pub fn reverse_magnetic(&mut self)
        requires
            old(self).valid(),
        ensures
            final(self).valid(),
            final(self).setup == old(self).setup,
            final(self).state() == (State {
                magnetic: old(self).setup.swept(
                    Half::Magnetic,
                    Direction::Backward,
                    old(self).state().magnetic,
                    old(self).state().electric,
                ),
                ..old(self).state()
            }),
    {
        self.sweep(Half::Magnetic, Direction::Backward);
    }

    /// Adds one injection to the field of `half`, if it acts on that field.
    fn apply_injection(&mut self, injection: &Injection<V>, half: Half, direction: Direction)
        requires
            old(self).valid(),
            injection.inside(old(self).setup.grid.extent),
        ensures
            final(self).valid(),
            final(self).setup == old(self).setup,
            half == Half::Magnetic ==> final(self).state() == (State {
                magnetic: old(self).setup.driven(
                    old(self).state().magnetic,
                    *injection,
                    half,
                    direction,
                ),
                ..old(self).state()
            }),
            half == Half::Electric ==> final(self).state() == (State {
                electric: old(self).setup.driven(
                    old(self).state().electric,
                    *injection,
                    half,
                    direction,
                ),
                ..old(self).state()
            }),
    {
        let ghost before = self.state();
        let component: usize = injection.component;
        let zero = V::from(0u8);
        proof {
            assert(before.electric[component as int].len() == self.setup.cells());
            assert(before.magnetic[component as int].len() == self.setup.cells());
        }
        if injection.value == zero {
            return;
        }
        match half {
            Half::Magnetic => {
                if injection.magnetic {
                    self.setup.deposit(
                        &mut self.magnetic_field[component],
                        injection,
                        direction,
                    );
                    assert(self.state().magnetic =~= self.setup.driven(
                        before.magnetic,
                        *injection,
                        half,
                        direction,
                    ));
                }
            },
            Half::Electric => {
                if !injection.magnetic {
                    self.setup.deposit(
                        &mut self.electric_field[component],
                        injection,
                        direction,
                    );
                    assert(self.state().electric =~= self.setup.driven(
                        before.electric,
                        *injection,
                        half,
                        direction,
                    ));
                }
            },
        }
    }

    /// Adds every source into one of the fields, or takes them out again.
    /// Additive, never assigning.
    pub fn apply_sources(&mut self, half: Half, direction: Direction, time: V)
        requires
            old(self).valid(),
        ensures
            final(self).valid(),
            final(self).setup == old(self).setup,
            half == Half::Magnetic ==> final(self).state() == (State {
                magnetic: old(self).setup.injected(
                    old(self).state().magnetic,
                    half,
                    direction,
                    time,
                    old(self).setup.sources@.len() as int,
                ),
                ..old(self).state()
            }),
            half == Half::Electric ==> final(self).state() == (State {
                electric: old(self).setup.injected(
                    old(self).state().electric,
                    half,
                    direction,
                    time,
                    old(self).setup.sources@.len() as int,
                ),
                ..old(self).state()
            }),
    {
        let ghost before = self.state();
        let ghost setup = self.setup;
        let mut k: usize = 0;
        while k < self.setup.sources.len()
            invariant
                self.valid(),
                self.setup == setup,
                k <= setup.sources@.len(),
                half == Half::Magnetic ==> self.state() == (State {
                    magnetic: setup.injected(before.magnetic, half, direction, time, k as int),
                    ..before
                }),
                half == Half::Electric ==> self.state() == (State {
                    electric: setup.injected(before.electric, half, direction, time, k as int),
                    ..before
                }),
            decreases setup.sources@.len() - k,
        {
            let source = self.setup.sources[k];
            let injections = source.injections(&self.setup.math, &self.setup.grid, time);
            self.apply_injection(&injections[0], half, direction);
            self.apply_injection(&injections[1], half, direction);
            k = k + 1;
        }
    }

    /// Advances one full time step.
    pub fn advance(&mut self)
        requires
            old(self).valid(),
            old(self).step < u64::MAX,
        ensures
            final(self).valid(),
            final(self).setup == old(self).setup,
            final(self).state() == old(self).setup.advanced(old(self).state()),
    {
        let time = self.time_of(self.step + 1);
        self.update_magnetic();
        self.apply_sources(Half::Magnetic, Direction::Forward, time);
        self.update_electric();
        self.apply_sources(Half::Electric, Direction::Forward, time);
        self.step = self.step + 1;
    }

    pub fn advance_by(&mut self, steps: u64)
        requires
            old(self).valid(),
            old(self).step + steps <= u64::MAX,
        ensures
            final(self).valid(),
            final(self).setup == old(self).setup,
            final(self).state() == old(self).setup.run(old(self).state(), steps as nat),
            final(self).step == old(self).step + steps,
    {
        let ghost before = *self;
        let mut done: u64 = 0;
        while done < steps
            invariant
                self.valid(),
                self.setup == before.setup,
                done <= steps,
                before.step + steps <= u64::MAX,
                self.step == before.step + done,
                self.state() == before.setup.run(before.state(), done as nat),
            decreases steps - done,
        {
            self.advance();
            done = done + 1;
        }
    }

    /// Whether stepping backwards is numerically meaningful here.
    ///
    /// False as soon as anything in the scene is lossy; see [`Self::reverse`].
    pub fn is_reversible(&self) -> (r: bool)
        requires
            self.setup.valid(),
        ensures
            r == self.setup.lossless(),
    {
        self.setup.is_reversible()
    }

    /// Undoes one step.
    ///
    /// # Leapfrog is an involution
    ///
    /// The forward step is
    ///
    /// ```text
    /// H ← ((1−m)·H − g_h·curl E) / (1+m)
    /// E ← ((1−l)·E + g_e·curl H) / (1+l)
    /// ```
    ///
    /// and undoing it means running the two in the opposite order with the
    /// algebra inverted:
    ///
    /// ```text
    /// E ← ((1+l)·E − g_e·curl H) / (1−l)
    /// H ← ((1+m)·H + g_h·curl E) / (1−m)
    /// ```
    ///
    /// In exact arithmetic the round trip is the identity; in floating point
    /// it drifts by rounding, because `a + b − b` is not `a`.
    ///
    /// # Why loss forbids it
    ///
    /// The reverse step divides by `(1−l)`. In an absorbing layer that
    /// *amplifies* whatever noise is there at every step, and in a perfect
    /// conductor `l = 1` exactly, so the information is gone.
    pub fn reverse(&mut self)
        requires
            old(self).valid(),
            old(self).setup.lossless(),
            old(self).step > 0,
        ensures
            final(self).valid(),
            final(self).setup == old(self).setup,
            final(self).state() == old(self).setup.reversed(old(self).state()),
    {
        // Forward order is H, inject, E, inject; so backward is un-inject,
        // un-E, un-inject, un-H.
        let time = self.time_of(self.step);
        self.apply_sources(Half::Electric, Direction::Backward, time);
        self.reverse_electric();
        self.apply_sources(Half::Magnetic, Direction::Backward, time);
        self.reverse_magnetic();
        self.step = self.step - 1;
    }

    pub fn reverse_by(&mut self, steps: u64)
        requires
            old(self).valid(),
            steps > 0 ==> old(self).setup.lossless(),
            steps <= old(self).step,
        ensures
            final(self).valid(),
            final(self).setup == old(self).setup,
            final(self).state() == old(self).setup.rewound(old(self).state(), steps as nat),
            final(self).step == old(self).step - steps,
    {
        let ghost before = *self;
        let mut done: u64 = 0;
        while done < steps
            invariant
                self.valid(),
                self.setup == before.setup,
                steps > 0 ==> self.setup.lossless(),
                done <= steps,
                steps <= before.step,
                self.step == before.step - done,
                self.state() == before.setup.rewound(before.state(), done as nat),
            decreases steps - done,
        {
            self.reverse();
            done = done + 1;
        }
    }

    /// What one component of either field adds to the energy density of a cell:
    /// `½·(εr·E² + μr·H²)`.
    pub open spec fn density_of(self, t: int, i: int) -> V {
        let material = self.material_of(i);
        let (e, h) = (self.state().electric[t][i], self.state().magnetic[t][i]);
        times(
            half::<V>(),
            plus(
                times(material.relative_permittivity, times(e, e)),
                times(material.relative_permeability, times(h, h)),
            ),
        )
    }

    /// Energy density of the cell stored at an index, both fields together.
    pub open spec fn density_at(self, i: int) -> V {
        plus(
            plus(plus(number::<V>(0), self.density_of(0, i)), self.density_of(1, i)),
            self.density_of(2, i),
        )
    }

    /// Per-cell energy density, summed over both fields, for visualization and
    /// for locating a wave packet.
    pub fn energy_density(&self) -> (r: Vec<V>)
        requires
            self.valid(),
        ensures
            r@ == Seq::new(self.setup.cells() as nat, |i: int| self.density_at(i)),
    {
        let total: usize = self.setup.grid.extent.total();
        let mut out: Vec<V> = Vec::new();
        let mut i: usize = 0;
        proof {
            assert(self.state().electric[0].len() == self.setup.cells());
            assert(self.state().electric[1].len() == self.setup.cells());
            assert(self.state().electric[2].len() == self.setup.cells());
            assert(self.state().magnetic[0].len() == self.setup.cells());
            assert(self.state().magnetic[1].len() == self.setup.cells());
            assert(self.state().magnetic[2].len() == self.setup.cells());
        }
        while i < total
            invariant
                self.valid(),
                total == self.setup.cells(),
                i <= total,
                self.electric_field@[0]@.len() == total,
                self.electric_field@[1]@.len() == total,
                self.electric_field@[2]@.len() == total,
                self.magnetic_field@[0]@.len() == total,
                self.magnetic_field@[1]@.len() == total,
                self.magnetic_field@[2]@.len() == total,
                out@.len() == i,
                forall|j: int| 0 <= j < i ==> #[trigger] out@[j] == self.density_at(j),
            decreases total - i,
        {
            let x = self.density_part(0, i);
            let y = self.density_part(1, i);
            let z = self.density_part(2, i);
            out.push(V::from(0u8) + x + y + z);
            i = i + 1;
        }
        assert(out@ =~= Seq::new(self.setup.cells() as nat, |i: int| self.density_at(i)));
        out
    }

    fn density_part(&self, t: usize, i: usize) -> (r: V)
        requires
            self.valid(),
            t < 3,
            i < self.setup.cells(),
            i < self.electric_field@[t as int]@.len(),
            i < self.magnetic_field@[t as int]@.len(),
        ensures
            r == self.density_of(t as int, i as int),
    {
        let material = self.setup.materials.get(self.setup.medium.material_index[i]);
        let e = self.electric_field[t][i];
        let h = self.magnetic_field[t][i];
        one_half::<V>() * (material.relative_permittivity * (e * e)
            + material.relative_permeability * (h * h))
    }

    /// Whether every field value is a finite number. A Courant violation is
    /// what makes it stop being true a few hundred steps in.
    pub fn is_finite(&self) -> (r: bool)
        ensures
            r <==> {
                &&& forall|t: int, i: int|
                    0 <= t < 3 && 0 <= i < self.state().electric[t].len()
                        ==> self.setup.math.finite_at(#[trigger] self.state().electric[t][i])
                &&& forall|t: int, i: int|
                    0 <= t < 3 && 0 <= i < self.state().magnetic[t].len()
                        ==> self.setup.math.finite_at(#[trigger] self.state().magnetic[t][i])
            },
    {
        let mut t: usize = 0;
        while t < 3
            invariant
                t <= 3,
                forall|s: int, i: int|
                    0 <= s < t && 0 <= i < self.state().electric[s].len()
                        ==> self.setup.math.finite_at(#[trigger] self.state().electric[s][i]),
                forall|s: int, i: int|
                    0 <= s < t && 0 <= i < self.state().magnetic[s].len()
                        ==> self.setup.math.finite_at(#[trigger] self.state().magnetic[s][i]),
            decreases 3 - t,
        {
            assert(self.state().electric[t as int] == self.electric_field@[t as int]@);
            assert(self.state().magnetic[t as int] == self.magnetic_field@[t as int]@);
            if !self.all_finite(&self.electric_field[t]) {
                return false;
            }
            if !self.all_finite(&self.magnetic_field[t]) {
                return false;
            }
            t = t + 1;
        }
        true
    }

    fn all_finite(&self, values: &Vec<V>) -> (r: bool)
        ensures
            r <==> forall|i: int|
                0 <= i < values@.len() ==> self.setup.math.finite_at(#[trigger] values@[i]),
    {
        let mut i: usize = 0;
        while i < values.len()
            invariant
                i <= values@.len(),
                forall|j: int|
                    0 <= j < i ==> self.setup.math.finite_at(#[trigger] values@[j]),
            decreases values@.len() - i,
        {
            if !self.setup.math.is_finite(values[i]) {
                assert(!self.setup.math.finite_at(values@[i as int]));
                return false;
            }
            i = i + 1;
        }
        true
    }
}

} // verus!
