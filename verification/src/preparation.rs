//! Everything a device is given before the first step.
//!
//! A setup becomes a list of buffers to allocate, one upload with everything that
//! stays constant for the run, the buffers that start out as zeros, the uniforms,
//! and the schedule that plans the steps. Whoever owns the device creates the
//! buffers, copies the sections of the upload into them, and fills the rest.

use crate::boundary::section_start;
use crate::device::Params;
use crate::grid::{light_speed, Axis, Grid};
use crate::material::Coefficients;
use crate::numerics::Numerics;
use crate::order::field;
use crate::scalar::{below, number, times, Scalar};
use crate::schedule::{field_size, lookup_size, samples_of, Fill, Schedule};
use crate::setup::Setup;
use crate::staging::{stored, Resource, Upload};
use crate::timing::gains_undo_their_widths;
use vstd::prelude::*;

verus! {

/// A buffer to create.
#[derive(Clone, Copy, Debug, Eq, PartialEq, Structural)]
pub struct Allocation {
    pub resource: Resource,
    pub bytes: u64,
}

/// What a device is given to run a scene.
#[derive(Debug)]
pub struct Preparation<V, W, N> {
    pub schedule: Schedule<V, W, N>,
    pub params: Params<V>,
    pub allocations: Vec<Allocation>,
    pub upload: Upload,
    /// What starts out as zeros.
    pub fills: [Fill; 3],
}

/// The coefficients of the materials, four to a material, as the kernels read
/// them.
pub open spec fn flattened<V: Scalar>(coefficients: Seq<Coefficients<V>>) -> Seq<V> {
    Seq::new(
        4 * coefficients.len(),
        |i: int|
            {
                let material = coefficients[i / 4];
                if i % 4 == 0 {
                    material.electric_gain
                } else if i % 4 == 1 {
                    material.electric_loss
                } else if i % 4 == 2 {
                    material.magnetic_gain
                } else {
                    material.magnetic_loss
                }
            },
    )
}

/// Values as the words they are stored in.
pub open spec fn worded<V: Scalar, W: Scalar, N: Numerics<V, W>>(
    math: &N,
    values: Seq<V>,
) -> Seq<u32> {
    Seq::new(values.len(), |i: int| math.word_of(values[i]))
}

fn words<V: Scalar, W: Scalar, N: Numerics<V, W>>(math: &N, values: &Vec<V>) -> (r: Vec<u32>)
    ensures
        r@ == worded::<V, W, N>(math, values@),
{
    let mut out: Vec<u32> = Vec::new();
    let mut i: usize = 0;
    while i < values.len()
        invariant
            i <= values@.len(),
            out@.len() == i,
            forall|j: int| 0 <= j < i ==> #[trigger] out@[j] == math.word_of(values@[j]),
        decreases values@.len() - i,
    {
        out.push(math.word(values[i]));
        i = i + 1;
    }
    assert(out@ =~= worded::<V, W, N>(math, values@));
    out
}

fn flatten<V: Scalar>(coefficients: &Vec<Coefficients<V>>) -> (r: Vec<V>)
    ensures
        r@ == flattened(coefficients@),
{
    let mut out: Vec<V> = Vec::new();
    let mut i: usize = 0;
    while i < coefficients.len()
        invariant
            i <= coefficients@.len(),
            out@.len() == 4 * i,
            forall|j: int| 0 <= j < 4 * i ==> #[trigger] out@[j] == flattened(coefficients@)[j],
        decreases coefficients@.len() - i,
    {
        let material = &coefficients[i];
        out.push(material.electric_gain);
        out.push(material.electric_loss);
        out.push(material.magnetic_gain);
        out.push(material.magnetic_loss);
        i = i + 1;
    }
    assert(out@ =~= flattened(coefficients@));
    out
}

impl<V: Scalar, W: Scalar, N: Numerics<V, W>> Setup<V, W, N> {
    /// The words a buffer that stays constant for the run is filled with.
    pub open spec fn staged(self, resource: Resource) -> Seq<u32> {
        let samples = lookup_size(self.grid.extent) as u32;
        match resource {
            Resource::MaterialIndex => self.medium.material_index@,
            Resource::Coefficients => worded::<V, W, N>(
                &self.math,
                flattened(self.medium.coefficients@),
            ),
            Resource::Absorber => worded::<V, W, N>(&self.math, self.medium.absorber.layout()),
            Resource::Geometry => worded::<V, W, N>(&self.math, self.grid.geometry(&self.math)),
            Resource::Lookup => worded::<V, W, N>(
                &self.math,
                self.grid.lookup_along(&self.math, Axis::X, samples) + self.grid.lookup_along(
                    &self.math,
                    Axis::Y,
                    samples,
                ) + self.grid.lookup_along(&self.math, Axis::Z, samples),
            ),
            _ => Seq::empty(),
        }
    }

    /// Size of a buffer, in bytes.
    pub open spec fn allocated(self, resource: Resource) -> int {
        match resource {
            Resource::Electric => field_size(self.grid.extent),
            Resource::Magnetic => field_size(self.grid.extent),
            Resource::Readback => field_size(self.grid.extent),
            Resource::Intensity => field_size(self.grid.extent) / 3,
            _ => 4 * self.staged(resource).len() as int,
        }
    }

    /// Whether a step's traffic can be counted and the upload fits in memory.
    pub open spec fn deliverable(self) -> bool {
        &&& 4 * field_size(self.grid.extent) <= u64::MAX
        &&& 4 * (self.staged(Resource::MaterialIndex).len() + self.staged(
            Resource::Coefficients,
        ).len() + self.staged(Resource::Absorber).len() + self.staged(Resource::Geometry).len()
            + self.staged(Resource::Lookup).len()) + 80 <= usize::MAX
    }
}

impl<V: Scalar, W: Scalar, N: Numerics<V, W>> Setup<V, W, N> {
    /// Whether a step's traffic can be counted and the upload fits in memory.
    pub fn is_deliverable(&self) -> (r: bool)
        requires
            self.valid(),
        ensures
            r == self.deliverable(),
    {
        let extent = self.grid.extent;
        proof {
            lemma_staged_lengths(*self);
        }
        let cells: u128 = extent.total() as u128;
        let around: u128 = extent.x as u128 + extent.y as u128 + extent.z as u128;
        let samples: u128 = samples_of(extent) as u128;
        let materials: u128 = self.medium.coefficients.len() as u128;
        let words: u128 = cells + 4 * materials + 5 * around + 3 * samples;
        48 * cells <= u64::MAX as u128 && 4 * words + 80 <= usize::MAX as u128
    }
}

/// How long each section of the upload is.
proof fn lemma_staged_lengths<V: Scalar, W: Scalar, N: Numerics<V, W>>(setup: Setup<V, W, N>)
    requires
        setup.valid(),
    ensures
        ({
            let extent = setup.grid.extent;
            let around = extent.x + extent.y + extent.z;
            &&& setup.staged(Resource::MaterialIndex).len() == extent.cells()
            &&& setup.staged(Resource::Coefficients).len() == 4 * setup.medium.coefficients@.len()
            &&& setup.staged(Resource::Absorber).len() == 2 * around
            &&& setup.staged(Resource::Geometry).len() == 3 * around
            &&& setup.staged(Resource::Lookup).len() == 3 * lookup_size(extent)
        }),
{
    assert(setup.medium.absorber.integer@[Axis::X.position()]@.len() == setup.grid.extent.x);
    assert(setup.medium.absorber.integer@[Axis::Y.position()]@.len() == setup.grid.extent.y);
    assert(setup.medium.absorber.integer@[Axis::Z.position()]@.len() == setup.grid.extent.z);
    assert(setup.grid.along(Axis::X).valid());
    assert(setup.grid.along(Axis::Y).valid());
    assert(setup.grid.along(Axis::Z).valid());
}

/// The buffers of a run, in the order they are created in.
pub open spec fn resources() -> Seq<Resource> {
    seq![
        Resource::Electric,
        Resource::Magnetic,
        Resource::MaterialIndex,
        Resource::Coefficients,
        Resource::Absorber,
        Resource::Geometry,
        Resource::Lookup,
        Resource::Intensity,
        Resource::Readback,
    ]
}

/// The buffers the upload fills, in the order of its sections.
pub open spec fn uploaded() -> Seq<Resource> {
    seq![
        Resource::MaterialIndex,
        Resource::Coefficients,
        Resource::Absorber,
        Resource::Geometry,
        Resource::Lookup,
    ]
}

impl<V: Scalar, W: Scalar, N: Numerics<V, W>> Preparation<V, W, N> {
    /// Whether this is everything a device needs to run a setup: every buffer,
    /// every constant in it, and the clock at the start.
    pub open spec fn serves(self, setup: Setup<V, W, N>) -> bool {
        &&& self.schedule.valid()
        &&& self.schedule == (Schedule {
            setup,
            step: 0,
            reversible: setup.lossless(),
            accumulating: false,
            accumulated: 0,
        })
        &&& self.params.starts(setup.grid.extent)
        &&& self.allocations@ == resources().map_values(
            |resource: Resource| Allocation { resource, bytes: setup.allocated(resource) as u64 },
        )
        &&& self.upload.valid()
        &&& self.upload.sections@.len() == uploaded().len()
        &&& forall|k: int|
            0 <= k < uploaded().len() ==> {
                &&& (#[trigger] self.upload.sections@[k]).resource == uploaded()[k]
                &&& self.upload.sections@[k].bytes == 4 * setup.staged(uploaded()[k]).len()
                &&& exists|little: bool|
                    self.upload.contents(k) == #[trigger] stored(
                        setup.staged(uploaded()[k]),
                        little,
                    )
            }
        &&& self.fills@ == self.schedule.all_fields()
    }

    /// Prepares a setup for a device.
    pub fn of_setup(setup: Setup<V, W, N>) -> (r: Self)
        requires
            setup.valid(),
            setup.deliverable(),
        ensures
            r.serves(setup),
    {
        let extent = setup.grid.extent;
        let coefficients = words(&setup.math, &flatten(&setup.medium.coefficients));
        let absorption = words(&setup.math, &setup.medium.absorber.packed());
        let geometry = words(&setup.math, &setup.grid.packed_geometry(&setup.math));
        let ghost given = setup;
        let mut schedule = Schedule::new(setup);
        let samples: u32 = schedule.lookup_samples();
        let lookup = words(
            &schedule.setup.math,
            &schedule.setup.grid.cell_lookup(&schedule.setup.math, samples),
        );
        let upload = Upload::of_scene(
            &schedule.setup.medium.material_index,
            &coefficients,
            &absorption,
            &geometry,
            &lookup,
        );
        let field: u64 = schedule.field_bytes();
        let mut allocations: Vec<Allocation> = Vec::new();
        allocations.push(Allocation { resource: Resource::Electric, bytes: field });
        allocations.push(Allocation { resource: Resource::Magnetic, bytes: field });
        let mut k: usize = 0;
        let ghost wanted = resources().map_values(
            |resource: Resource| Allocation { resource, bytes: given.allocated(resource) as u64 },
        );
        proof {
            assert(upload.sections@[0].resource == uploaded()[0]);
            assert(upload.sections@[1].resource == uploaded()[1]);
            assert(upload.sections@[2].resource == uploaded()[2]);
            assert(upload.sections@[3].resource == uploaded()[3]);
            assert(upload.sections@[4].resource == uploaded()[4]);
            assert forall|j: int| 0 <= j < 5 implies {
                &&& (#[trigger] upload.sections@[j]).resource == uploaded()[j]
                &&& upload.sections@[j].bytes == 4 * given.staged(uploaded()[j]).len()
                &&& exists|little: bool|
                    upload.contents(j) == #[trigger] stored(given.staged(uploaded()[j]), little)
            } by {}
        }
        while k < upload.sections.len()
            invariant
                k <= upload.sections@.len(),
                upload.sections@.len() == 5,
                allocations@.len() == k + 2,
                wanted == resources().map_values(
                    |resource: Resource|
                        Allocation { resource, bytes: given.allocated(resource) as u64 },
                ),
                forall|j: int| 0 <= j < k + 2 ==> #[trigger] allocations@[j] == wanted[j],
                forall|j: int|
                    0 <= j < 5 ==> {
                        &&& (#[trigger] upload.sections@[j]).resource == uploaded()[j]
                        &&& upload.sections@[j].bytes == 4 * given.staged(uploaded()[j]).len()
                    },
            decreases upload.sections@.len() - k,
        {
            let section = upload.sections[k];
            assert(resources()[k + 2] == uploaded()[k as int]);
            allocations.push(Allocation { resource: section.resource, bytes: section.bytes });
            k = k + 1;
        }
        allocations.push(Allocation { resource: Resource::Intensity, bytes: field / 3 });
        allocations.push(Allocation { resource: Resource::Readback, bytes: field });
        assert(allocations@ =~= wanted);
        let fills = schedule.reset();
        Preparation { schedule, params: Params::new(extent), allocations, upload, fills }
    }
}

/// The table of coefficients has four entries for every material, the two of `E`
/// before the two of `H` and each gain before its loss.
pub proof fn tables_hold_four_entries_a_material<V: Scalar>(
    coefficients: Seq<Coefficients<V>>,
    m: int,
)
    requires
        0 <= m < coefficients.len(),
    ensures
        flattened(coefficients).len() == 4 * coefficients.len(),
        flattened(coefficients).subrange(4 * m, 4 * m + 4) == seq![
            coefficients[m].electric_gain,
            coefficients[m].electric_loss,
            coefficients[m].magnetic_gain,
            coefficients[m].magnetic_loss,
        ],
{
    let all = flattened(coefficients);
    assert((4 * m) / 4 == m && (4 * m + 1) / 4 == m && (4 * m + 2) / 4 == m && (4 * m + 3) / 4 == m);
    assert(all.subrange(4 * m, 4 * m + 4) =~= seq![
        coefficients[m].electric_gain,
        coefficients[m].electric_loss,
        coefficients[m].magnetic_gain,
        coefficients[m].magnetic_loss,
    ]);
}

/// The geometry a device is given is three sections of three axes each, every entry
/// where the extent alone says it is: the gain that undoes a cell's width, the gain
/// that undoes the width between its centre and the one before, and its centre.
pub proof fn geometry_follows_from_extent<V: Scalar, W: Scalar, N: Numerics<V, W>>(
    math: &N,
    grid: Grid<V, W>,
    axis: Axis,
    i: int,
)
    requires
        field::<V>(),
        grid.valid(),
        0 <= i < grid.extent.along(axis),
        below(number::<V>(0), grid.along(axis).primary@[i]),
        below(number::<V>(0), grid.along(axis).dual@[i]),
    ensures
        ({
            let all = grid.extent.x + grid.extent.y + grid.extent.z;
            let at = section_start(grid.extent, axis) + i;
            let geometry = grid.geometry(math);
            let reach = times(grid.step_time(math), light_speed::<V, N>(math));
            &&& geometry.len() == 3 * all
            &&& times(geometry[at], grid.along(axis).primary@[i]) == reach
            &&& times(geometry[all + at], grid.along(axis).dual@[i]) == reach
            &&& geometry[2 * all + at] == grid.center_along(math, axis, i)
        }),
{
    let (x, y, z) = (grid.along(Axis::X), grid.along(Axis::Y), grid.along(Axis::Z));
    assert(grid.along(Axis::X).valid() && grid.along(Axis::Y).valid() && grid.along(
        Axis::Z,
    ).valid());
    assert(x.primary@.len() == grid.extent.x && y.primary@.len() == grid.extent.y
        && z.primary@.len() == grid.extent.z);
    gains_undo_their_widths(math, grid, grid.along(axis).primary@, i);
    gains_undo_their_widths(math, grid, grid.along(axis).dual@, i);
}

} // verus!
