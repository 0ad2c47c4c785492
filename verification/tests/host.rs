//! What is staged for a device, and what it is asked to do.

use diaphane::cpu::Simulation;
use diaphane::device::{Params, Pass};
use diaphane::numerics::{Elementary, Functions, Numerics};
use diaphane::preparation::Preparation;
use diaphane::schedule::{Fill, Schedule};
use diaphane::setup::Setup;
use diaphane::staging::{append, byte_size, Resource, Upload};
use diaphane::stencil::{Direction, Half};
use diaphane::{Axis, Boundary, Extent, Material, Source, Waveform};

/// IEEE arithmetic, with the elementary functions of the standard library.
#[derive(Clone, Copy, Debug)]
struct Ieee;

const M: &Ieee = &Ieee;

impl Elementary<f32> for Ieee {
    fn functions(&self) -> Functions<f32> {
        unreachable!()
    }
    fn exp(&self, x: f32) -> f32 {
        x.exp()
    }
    fn sin(&self, x: f32) -> f32 {
        x.sin()
    }
    fn cos(&self, x: f32) -> f32 {
        x.cos()
    }
    fn tan(&self, x: f32) -> f32 {
        x.tan()
    }
    fn asin(&self, x: f32) -> f32 {
        x.asin()
    }
    fn ln(&self, x: f32) -> f32 {
        x.ln()
    }
    fn sqrt(&self, x: f32) -> f32 {
        x.sqrt()
    }
    fn pow(&self, x: f32, y: f32) -> f32 {
        x.powf(y)
    }
    fn count(&self, n: u64) -> f32 {
        n as f32
    }
    fn decimal(&self, digits: u64, places: u8) -> f32 {
        format!("{digits}e-{places}").parse().unwrap()
    }
    fn infinity(&self) -> f32 {
        f32::INFINITY
    }
    fn is_finite(&self, x: f32) -> bool {
        x.is_finite()
    }
    fn is_infinite(&self, x: f32) -> bool {
        x.is_infinite()
    }
    fn floor(&self, x: f32) -> usize {
        x.floor().max(0.0) as usize
    }
    fn ceiling(&self, x: f32) -> usize {
        x.ceil() as usize
    }
    fn nearest(&self, x: f32) -> u64 {
        x.round() as u64
    }
    fn read(&self, text: &str) -> Option<f32> {
        text.parse().ok()
    }
}

impl Elementary<f64> for Ieee {
    fn functions(&self) -> Functions<f64> {
        unreachable!()
    }
    fn exp(&self, x: f64) -> f64 {
        x.exp()
    }
    fn sin(&self, x: f64) -> f64 {
        x.sin()
    }
    fn cos(&self, x: f64) -> f64 {
        x.cos()
    }
    fn tan(&self, x: f64) -> f64 {
        x.tan()
    }
    fn asin(&self, x: f64) -> f64 {
        x.asin()
    }
    fn ln(&self, x: f64) -> f64 {
        x.ln()
    }
    fn sqrt(&self, x: f64) -> f64 {
        x.sqrt()
    }
    fn pow(&self, x: f64, y: f64) -> f64 {
        x.powf(y)
    }
    fn count(&self, n: u64) -> f64 {
        n as f64
    }
    fn decimal(&self, digits: u64, places: u8) -> f64 {
        format!("{digits}e-{places}").parse().unwrap()
    }
    fn infinity(&self) -> f64 {
        f64::INFINITY
    }
    fn is_finite(&self, x: f64) -> bool {
        x.is_finite()
    }
    fn is_infinite(&self, x: f64) -> bool {
        x.is_infinite()
    }
    fn floor(&self, x: f64) -> usize {
        x.floor().max(0.0) as usize
    }
    fn ceiling(&self, x: f64) -> usize {
        x.ceil() as usize
    }
    fn nearest(&self, x: f64) -> u64 {
        x.round() as u64
    }
    fn read(&self, text: &str) -> Option<f64> {
        text.parse().ok()
    }
}

impl Numerics<f32, f64> for Ieee {
    fn wide(&self, x: f32) -> f64 {
        f64::from(x)
    }
    fn narrowed(&self, x: f64) -> f32 {
        x as f32
    }
    fn word_of(&self, x: f32) -> u32 {
        x.to_bits()
    }
    fn widen(&self, x: f32) -> f64 {
        f64::from(x)
    }
    fn narrow(&self, x: f64) -> f32 {
        x as f32
    }
    fn word(&self, x: f32) -> u32 {
        x.to_bits()
    }
}

type Scene = diaphane::Scene<f32, f64>;
type Grid = diaphane::Grid<f32, f64>;

type Planned = Schedule<f32, f64, Ieee>;

fn driven(boundary: Boundary<f32>) -> Scene {
    let scene = Scene::empty(M, Extent::new(30, 32, 34), 1e-3).with_boundary(boundary);
    let frequency = scene.grid.frequency_for_resolution(M, 20.0);
    scene
        .with_source(Source::point(
            [0.0; 3],
            Axis::Z,
            Waveform::ricker(M, frequency),
        ))
        .with_source(Source::plane_wave(
            Axis::X,
            0.0,
            Axis::Y,
            Waveform::ContinuousWave {
                frequency,
                ramp_cycles: 1.0,
            },
        ))
}

fn planned(scene: &Scene) -> Planned {
    Schedule::new(Simulation::new(Ieee, scene).setup)
}

fn names(passes: &[Pass<f32>]) -> String {
    passes
        .iter()
        .map(|pass| match pass {
            Pass::Start { .. } => '.',
            Pass::Update {
                half: Half::Magnetic,
                ..
            } => 'H',
            Pass::Update {
                half: Half::Electric,
                ..
            } => 'E',
            Pass::Inject { injection, .. } if injection.magnetic => 'h',
            Pass::Inject { .. } => 'e',
            Pass::Accumulate => '+',
        })
        .collect()
}

#[test]
fn words_are_staged_in_machine_order() {
    let mut blob = vec![];
    assert_eq!(append(&mut blob, &[0x0102_0304, 5]), 0);
    assert_eq!(blob[..4], 0x0102_0304u32.to_ne_bytes());
    assert_eq!(blob[4..8], 5u32.to_ne_bytes());
    assert_eq!(blob[8..], [0; 8]);
    assert_eq!(append(&mut blob, &[7, 8, 9, 10]), 16);
    assert_eq!(blob.len(), 32);
    assert_eq!(append(&mut blob, &[]), 32);
    assert_eq!(blob.len(), 32);
}

#[test]
fn sections_start_where_a_storage_buffer_may_be_bound() {
    let alignment = blade_graphics::limits::STORAGE_BUFFER_ALIGNMENT;
    assert_eq!(alignment, 16);
    let upload = Upload::of_scene(&[1, 2, 3], &[4; 4], &[5], &[], &[6, 7]);
    let layout: Vec<(u64, Resource, u64)> = upload
        .sections
        .iter()
        .map(|section| (section.offset, section.resource, section.bytes))
        .collect();
    assert_eq!(
        layout,
        [
            (0, Resource::MaterialIndex, 12),
            (16, Resource::Coefficients, 16),
            (32, Resource::Absorber, 4),
            (48, Resource::Geometry, 0),
            (48, Resource::Lookup, 8),
        ]
    );
    assert_eq!(upload.blob.len(), 64);
    assert_eq!(upload.blob[32..36], 5u32.to_ne_bytes());
    assert_eq!(upload.blob[52..56], 7u32.to_ne_bytes());
}

#[test]
fn a_list_knows_its_memory() {
    assert_eq!(byte_size(&[1u32, 2, 3]), 12);
    assert_eq!(byte_size(&[1.0f64; 5]), 40);
    assert_eq!(byte_size::<u8>(&[]), 0);
}

#[test]
fn a_scene_is_delivered_whole() {
    let scene = driven(Boundary::absorbing(M));
    let setup = Setup::new(Ieee, &scene);
    assert!(setup.is_deliverable());
    let prepared = Preparation::of_setup(setup);
    let cells = 30 * 32 * 34u64;
    let sizes: Vec<(Resource, u64)> = prepared
        .allocations
        .iter()
        .map(|allocation| (allocation.resource, allocation.bytes))
        .collect();
    assert_eq!(
        sizes,
        [
            (Resource::Electric, 12 * cells),
            (Resource::Magnetic, 12 * cells),
            (Resource::MaterialIndex, 4 * cells),
            (Resource::Coefficients, 16),
            (Resource::Absorber, 4 * 2 * 96),
            (Resource::Geometry, 4 * 3 * 96),
            (Resource::Lookup, 4 * 3 * 256),
            (Resource::Intensity, 4 * cells),
            (Resource::Readback, 12 * cells),
        ]
    );
    assert_eq!(prepared.fills.len(), 3);
    assert_eq!(prepared.params.extent, [30, 32, 34, cells as u32]);
    assert_eq!(prepared.schedule.step_count(), 0);
    assert!(!prepared.schedule.reversible);
    // Vacuum: no loss, and a gain of one either way.
    let section = prepared.upload.sections[1];
    let values: Vec<f32> = prepared.upload.blob
        [section.offset as usize..(section.offset + section.bytes) as usize]
        .chunks(4)
        .map(|bytes| f32::from_ne_bytes([bytes[0], bytes[1], bytes[2], bytes[3]]))
        .collect();
    assert_eq!(values, [1.0, 0.0, 1.0, 0.0]);
}

#[test]
fn a_step_is_two_updates_with_the_injections_between() {
    let mut schedule = planned(&driven(Boundary::Pec));
    schedule.advance_by(40);
    let passes = schedule.advance_by(1);
    assert_eq!(names(&passes), ".HhEee");
    assert_eq!(schedule.step_count(), 41);
    assert!(passes.iter().all(|pass| match pass {
        Pass::Start { direction }
        | Pass::Update { direction, .. }
        | Pass::Inject { direction, .. } => *direction == Direction::Forward,
        Pass::Accumulate => true,
    }));
    assert!((schedule.time() / schedule.setup.grid.time_step(M) - 41.0).abs() < 1e-4);
}

#[test]
fn a_step_back_runs_the_passes_the_other_way_round() {
    let mut schedule = planned(&driven(Boundary::Pec));
    schedule.advance_by(41);
    let (fill, passes) = schedule.reverse_by(1);
    assert_eq!(fill, None);
    assert_eq!(names(&passes), ".eeEhH");
    assert_eq!(schedule.step_count(), 40);
    assert!(schedule.reversible);
    assert!(!planned(&driven(Boundary::absorbing(M))).reversible);
}

#[test]
fn batches_of_steps_are_the_steps_one_after_another() {
    let mut together = planned(&driven(Boundary::Pec));
    let mut apart = planned(&driven(Boundary::Pec));
    let whole = together.advance_by(5);
    let mut pieces = apart.advance_by(2);
    pieces.extend(apart.advance_by(3));
    assert_eq!(whole, pieces);
    assert_eq!(together.advance_by(0), []);
}

#[test]
fn accumulating_costs_a_pass_and_is_forgotten_on_the_way_back() {
    let mut schedule = planned(&driven(Boundary::Pec));
    let bytes = 30 * 32 * 34 * 4;
    assert_eq!(schedule.set_accumulate_intensity(true), None);
    assert!(names(&schedule.advance_by(2)).ends_with('+'));
    assert_eq!(schedule.accumulated_steps(), 2);
    let (fill, _) = schedule.reverse_by(1);
    assert_eq!(
        fill,
        Some(Fill {
            resource: Resource::Intensity,
            bytes
        })
    );
    assert_eq!(schedule.accumulated_steps(), 0);
    schedule.advance_by(3);
    assert_eq!(schedule.set_accumulate_intensity(false), None);
    assert_eq!(schedule.accumulated_steps(), 3);
    assert!(!names(&schedule.advance_by(1)).contains('+'));
    // Turning it on again starts a fresh average.
    assert!(schedule.set_accumulate_intensity(true).is_some());
    assert_eq!(schedule.accumulated_steps(), 0);
}

#[test]
fn a_reset_clears_every_buffer_a_step_writes() {
    let mut schedule = planned(&driven(Boundary::Pec));
    schedule.advance_by(7);
    let cleared: Vec<(Resource, u64)> = schedule
        .reset()
        .iter()
        .map(|fill| (fill.resource, fill.bytes))
        .collect();
    let bytes = schedule.field_bytes();
    assert_eq!(
        cleared,
        [
            (Resource::Electric, bytes),
            (Resource::Magnetic, bytes),
            (Resource::Intensity, bytes / 3),
        ]
    );
    assert_eq!(schedule.step_count(), 0);
    assert_eq!(schedule.restore_to(12), None);
    assert_eq!(schedule.step_count(), 12);
}

#[test]
fn components_lie_one_after_another() {
    let schedule = planned(&driven(Boundary::Pec));
    let cells = 30 * 32 * 34;
    let values: Vec<f32> = (0..3 * cells).map(|i| i as f32).collect();
    assert!(schedule.is_full_field(&values));
    assert!(!schedule.is_full_field(&values[1..]));
    let y = schedule.component(&values, Axis::Y);
    assert_eq!(y.len(), cells);
    assert_eq!(y[0], cells as f32);
}

#[test]
fn an_injection_reaches_the_device_with_the_direction_of_time() {
    let scene = driven(Boundary::Pec);
    let mut schedule = planned(&scene);
    schedule.advance_by(40);
    let extent = scene.grid.extent;
    let mut params: Params<f32> = Params::new(extent);
    assert_eq!(params.extent, [30, 32, 34, 30 * 32 * 34]);
    for pass in schedule.advance_by(1) {
        params.prepare(&pass);
        match pass {
            Pass::Start { .. } => {
                assert_eq!(params.source_drive, [0.0, 1.0, 0.0, 0.0]);
                assert_eq!(pass.region(extent), None);
                assert!(!pass.needs_barrier());
            }
            Pass::Update { .. } => {
                assert_eq!(pass.region(extent), Some([30, 32, 34]));
                assert!(pass.needs_barrier());
            }
            Pass::Inject { injection, .. } => {
                assert_eq!(params.source_drive[0], injection.value);
                assert_eq!(params.source_extent[3], u32::from(injection.magnetic));
                assert_eq!(params.source_region[3], injection.component as u32);
                assert_eq!(params.source_shape[3], injection.inverse_waist_squared);
                let size = pass.region(extent).unwrap();
                assert_eq!(size.map(|n| n as usize), injection.extent);
                assert!(pass.needs_barrier());
            }
            Pass::Accumulate => unreachable!(),
        }
    }
    for pass in schedule.reverse_by(1).1 {
        params.prepare(&pass);
        assert_eq!(params.source_drive[1], -1.0);
        if let Pass::Inject { injection, .. } = pass {
            assert_eq!(params.source_drive[0], -injection.value);
        }
    }
}

#[test]
fn a_lossy_material_makes_a_schedule_irreversible() {
    let mut scene = driven(Boundary::Pec);
    scene.materials.push(Material::matched_lossy(M, 2.0, 0.1));
    assert!(!planned(&scene).reversible);
}
