//! The reference solver, run in `f32`.

use diaphane::cpu;
use diaphane::numerics::{Elementary, Functions, Numerics};
use diaphane::{
    numerical_phase_velocity, Axis, Boundary, Extent, Material, Refinement, Seek, Shape, Snapshot,
    Source, Steppable, Timeline, Waveform,
};

/// IEEE arithmetic, with the elementary functions of the standard library.
#[derive(Clone, Copy, Debug)]
struct Ieee;

const M: &Ieee = &Ieee;

impl Elementary<f32> for Ieee {
    fn functions(&self) -> Functions<f32> {
        unreachable!()
    }
    fn exp(&self, x: f32) -> f32 {
        x.exp()
    }
    fn sin(&self, x: f32) -> f32 {
        x.sin()
    }
    fn cos(&self, x: f32) -> f32 {
        x.cos()
    }
    fn tan(&self, x: f32) -> f32 {
        x.tan()
    }
    fn asin(&self, x: f32) -> f32 {
        x.asin()
    }
    fn ln(&self, x: f32) -> f32 {
        x.ln()
    }
    fn sqrt(&self, x: f32) -> f32 {
        x.sqrt()
    }
    fn pow(&self, x: f32, y: f32) -> f32 {
        x.powf(y)
    }
    fn count(&self, n: u64) -> f32 {
        n as f32
    }
    fn decimal(&self, digits: u64, places: u8) -> f32 {
        format!("{digits}e-{places}").parse().unwrap()
    }
    fn infinity(&self) -> f32 {
        f32::INFINITY
    }
    fn is_finite(&self, x: f32) -> bool {
        x.is_finite()
    }
    fn is_infinite(&self, x: f32) -> bool {
        x.is_infinite()
    }
    fn floor(&self, x: f32) -> usize {
        x.floor().max(0.0) as usize
    }
    fn ceiling(&self, x: f32) -> usize {
        x.ceil() as usize
    }
    fn nearest(&self, x: f32) -> u64 {
        x.round() as u64
    }
    fn read(&self, text: &str) -> Option<f32> {
        text.parse().ok()
    }
}

impl Elementary<f64> for Ieee {
    fn functions(&self) -> Functions<f64> {
        unreachable!()
    }
    fn exp(&self, x: f64) -> f64 {
        x.exp()
    }
    fn sin(&self, x: f64) -> f64 {
        x.sin()
    }
    fn cos(&self, x: f64) -> f64 {
        x.cos()
    }
    fn tan(&self, x: f64) -> f64 {
        x.tan()
    }
    fn asin(&self, x: f64) -> f64 {
        x.asin()
    }
    fn ln(&self, x: f64) -> f64 {
        x.ln()
    }
    fn sqrt(&self, x: f64) -> f64 {
        x.sqrt()
    }
    fn pow(&self, x: f64, y: f64) -> f64 {
        x.powf(y)
    }
    fn count(&self, n: u64) -> f64 {
        n as f64
    }
    fn decimal(&self, digits: u64, places: u8) -> f64 {
        format!("{digits}e-{places}").parse().unwrap()
    }
    fn infinity(&self) -> f64 {
        f64::INFINITY
    }
    fn is_finite(&self, x: f64) -> bool {
        x.is_finite()
    }
    fn is_infinite(&self, x: f64) -> bool {
        x.is_infinite()
    }
    fn floor(&self, x: f64) -> usize {
        x.floor().max(0.0) as usize
    }
    fn ceiling(&self, x: f64) -> usize {
        x.ceil() as usize
    }
    fn nearest(&self, x: f64) -> u64 {
        x.round() as u64
    }
    fn read(&self, text: &str) -> Option<f64> {
        text.parse().ok()
    }
}

impl Numerics<f32, f64> for Ieee {
    fn wide(&self, x: f32) -> f64 {
        f64::from(x)
    }
    fn narrowed(&self, x: f64) -> f32 {
        x as f32
    }
    fn word_of(&self, x: f32) -> u32 {
        x.to_bits()
    }
    fn widen(&self, x: f32) -> f64 {
        f64::from(x)
    }
    fn narrow(&self, x: f64) -> f32 {
        x as f32
    }
    fn word(&self, x: f32) -> u32 {
        x.to_bits()
    }
}

type Scene = diaphane::Scene<f32, f64>;
type Grid = diaphane::Grid<f32, f64>;
type Simulation = cpu::Simulation<f32, f64, Ieee>;

fn simulation_of(scene: &Scene) -> Simulation {
    Simulation::new(Ieee, scene)
}

fn pulse_scene(extent: Extent) -> Scene {
    let scene = Scene::empty(M, extent, 1e-3);
    let frequency = scene.grid.frequency_for_resolution(M, 20.0);
    scene.with_source(Source::point(
        [0.0; 3],
        Axis::Z,
        Waveform::ricker(M, frequency),
    ))
}

#[test]
fn starts_at_rest() {
    let simulation = simulation_of(&pulse_scene(Extent::cube(24)));
    assert_eq!(simulation.step_count(), 0);
    assert_eq!(simulation.time(), 0.0);
    assert_eq!(simulation.energy().total(), 0.0);
}

#[test]
fn a_source_puts_energy_in_and_the_absorber_takes_it_out() {
    let mut simulation = simulation_of(&pulse_scene(Extent::cube(48)));
    simulation.advance_by(120);
    let peak = simulation.energy().total();
    assert!(peak > 0.0, "the source did nothing");
    assert!(simulation.is_finite());

    simulation.advance_by(600);
    let remaining = simulation.energy().total();
    assert!(
        remaining < peak * 1e-4,
        "{remaining:e} left of {peak:e} — the absorber is leaking"
    );
}

/// Mean total energy over a window, which averages away the half-step
/// oscillation.
fn mean_energy(simulation: &mut Simulation, steps: u64) -> f64 {
    let mut sum = 0.0;
    for _ in 0..steps {
        simulation.advance();
        sum += simulation.energy().total();
    }
    sum / steps as f64
}

#[test]
fn a_pec_box_holds_on_to_its_energy() {
    let scene = pulse_scene(Extent::cube(40)).with_boundary(Boundary::Pec);
    let mut simulation = simulation_of(&scene);
    simulation.advance_by(200);
    let settled = mean_energy(&mut simulation, 200);
    simulation.advance_by(2000);
    let later = mean_energy(&mut simulation, 200);
    let drift = (later - settled).abs() / settled;
    assert!(drift < 1e-3, "energy drifted by {drift:e}");
}

#[test]
fn the_two_energies_alternate_in_a_cavity() {
    let mut simulation = simulation_of(&Scene::cavity(M, Extent::cube(40)));
    simulation.advance_by(400);
    let mut minimum = f64::INFINITY;
    let mut maximum = f64::NEG_INFINITY;
    for _ in 0..200 {
        simulation.advance();
        let energy = simulation.energy();
        let split = (energy.electric - energy.magnetic) / energy.total();
        minimum = minimum.min(split);
        maximum = maximum.max(split);
    }
    assert!(
        maximum - minimum > 0.3,
        "the split barely moved: {minimum} to {maximum}"
    );
}

#[test]
fn a_pulse_expands_at_about_the_speed_of_light() {
    let extent = Extent::cube(80);
    let mut simulation = simulation_of(&pulse_scene(extent));
    let center = 40;
    let radius = 25;
    let probe = [center + radius, center, center];

    let mut arrival = None;
    for step in 1..400 {
        simulation.advance();
        if simulation.sample_electric(Axis::Z, probe).abs() > 1e-4 {
            arrival = Some(step);
            break;
        }
    }
    let arrival = arrival.expect("the pulse never reached the probe") as f32;
    let travel = radius as f32 / simulation.grid().courant;
    assert!(
        arrival > travel * 0.9,
        "arrived at step {arrival}, faster than light ({travel} steps of travel)"
    );
    assert!(
        arrival < travel * 3.0,
        "arrived at step {arrival}, far too slow"
    );
}

#[test]
fn a_perfect_conductor_expels_the_field() {
    let extent = Extent::cube(40);
    let mut scene = pulse_scene(extent);
    let metal = scene.materials.push(Material::perfect_conductor(M));
    // 40 cells at 1 mm spans -20..20 mm; cells 26..34 are 6..14 mm.
    scene.shapes.push(Shape::Block {
        center: [10e-3, 0.0, 0.0],
        size: [8e-3, 20e-3, 20e-3],
        material: metal,
    });

    let mut simulation = simulation_of(&scene);
    simulation.advance_by(300);
    for z in 10..30 {
        for y in 10..30 {
            for x in 26..34 {
                let value = simulation.sample_electric(Axis::Z, [x, y, z]);
                assert_eq!(value, 0.0, "field leaked into the conductor at {x},{y},{z}");
            }
        }
    }
}

fn everything(simulation: &Simulation) -> Vec<f32> {
    Axis::ALL
        .iter()
        .flat_map(|&axis| simulation.electric(axis).iter().copied())
        .chain(
            Axis::ALL
                .iter()
                .flat_map(|&axis| simulation.magnetic(axis).iter().copied()),
        )
        .collect()
}

#[test]
fn stepping_back_undoes_stepping_forward() {
    let scene = pulse_scene(Extent::cube(32)).with_boundary(Boundary::Pec);
    let mut simulation = simulation_of(&scene);
    assert!(simulation.is_reversible());

    simulation.advance_by(60);
    let before = everything(&simulation);
    let peak = before.iter().fold(0.0f32, |acc, &v| acc.max(v.abs()));
    assert!(peak > 0.0);

    simulation.advance_by(200);
    simulation.reverse_by(200);
    assert_eq!(simulation.step_count(), 60);

    let after = everything(&simulation);
    let worst = before
        .iter()
        .zip(after.iter())
        .fold(0.0f32, |acc, (&a, &b)| acc.max((a - b).abs()));
    assert!(
        worst < 1e-4 * peak,
        "round trip drifted by {:e} against a peak of {peak:e}",
        worst / peak
    );
}

#[test]
fn reversing_all_the_way_returns_to_an_empty_domain() {
    let scene = pulse_scene(Extent::cube(24)).with_boundary(Boundary::Pec);
    let mut simulation = simulation_of(&scene);
    simulation.advance_by(120);
    let excited = simulation.energy().total();
    simulation.reverse_by(120);

    assert_eq!(simulation.step_count(), 0);
    let residue = simulation.energy().total();
    assert!(
        residue < excited * 1e-8,
        "{residue:e} left of {excited:e} after unwinding to t = 0"
    );
}

#[test]
fn a_lossy_scene_is_not_reversible() {
    let absorbing = simulation_of(&pulse_scene(Extent::cube(32)));
    assert!(!absorbing.is_reversible());

    let mut scene = pulse_scene(Extent::cube(32)).with_boundary(Boundary::Pec);
    let metal = scene.materials.push(Material::perfect_conductor(M));
    scene.shapes.push(Shape::Block {
        center: [8e-3, 0.0, 0.0],
        size: [4e-3; 3],
        material: metal,
    });
    assert!(!simulation_of(&scene).is_reversible());
}

#[test]
fn reset_returns_to_the_initial_state() {
    let mut simulation = simulation_of(&pulse_scene(Extent::cube(24)));
    simulation.advance_by(50);
    assert!(simulation.energy().total() > 0.0);
    simulation.reset();
    assert_eq!(simulation.step_count(), 0);
    assert_eq!(simulation.energy().total(), 0.0);
}

#[test]
fn energy_density_sums_to_the_total_energy() {
    let mut simulation = simulation_of(&pulse_scene(Extent::cube(24)));
    simulation.advance_by(60);
    let summed: f64 = simulation
        .energy_density()
        .iter()
        .map(|&v| f64::from(v))
        .sum();
    let total = simulation.energy().total();
    assert!((summed - total).abs() < total * 1e-4, "{summed} vs {total}");
}

fn photon() -> Scene {
    Scene::photon(M, Extent::cube(24))
}

fn fingerprint(simulation: &Simulation) -> Vec<f32> {
    Axis::ALL
        .iter()
        .flat_map(|&axis| simulation.electric(axis).iter().copied())
        .collect()
}

#[test]
fn a_snapshot_restores_the_exact_state() {
    let mut simulation = simulation_of(&photon());
    simulation.advance_by(60);
    let snapshot = simulation.snapshot();
    let expected = fingerprint(&simulation);

    simulation.advance_by(40);
    assert_ne!(fingerprint(&simulation), expected);

    simulation.restore(&snapshot);
    assert_eq!(simulation.step_count(), 60);
    assert_eq!(fingerprint(&simulation), expected);
}

#[test]
fn seeking_backwards_reproduces_the_forward_run_exactly() {
    let mut reference = simulation_of(&photon());
    reference.advance_by(90);
    let expected = fingerprint(&reference);

    let mut simulation = simulation_of(&photon());
    let mut timeline = Timeline::new(25, 8);
    for _ in 0..150 {
        simulation.advance_by(1);
        timeline.observe(&mut simulation);
    }
    let outcome = timeline.seek(&mut simulation, 90);

    assert_eq!(simulation.step_count(), 90);
    assert_eq!(fingerprint(&simulation), expected);
    // 90 is 15 steps past the keyframe at 75.
    assert_eq!(
        outcome,
        Seek::FromKeyframe {
            at: 75,
            replayed: 15
        }
    );
}

#[test]
fn a_target_older_than_the_window_replays_from_the_start() {
    let mut simulation = simulation_of(&photon());
    // Room for two keyframes only, so the early history falls out.
    let mut timeline = Timeline::new(20, 2);
    for _ in 0..120 {
        simulation.advance_by(1);
        timeline.observe(&mut simulation);
    }
    assert_eq!(timeline.keyframe_count(), 2);
    assert_eq!(timeline.earliest(), Some(100));

    let mut reference = simulation_of(&photon());
    reference.advance_by(10);
    let outcome = timeline.seek(&mut simulation, 10);

    assert_eq!(outcome, Seek::FromStart { replayed: 10 });
    assert_eq!(fingerprint(&simulation), fingerprint(&reference));
}

#[test]
fn seeking_forward_just_steps() {
    let mut simulation = simulation_of(&photon());
    let timeline = Timeline::new(10, 4);
    simulation.advance_by(20);
    assert_eq!(
        timeline.seek(&mut simulation, 35),
        Seek::Forward { replayed: 15 }
    );
    assert_eq!(simulation.step_count(), 35);
    assert_eq!(timeline.seek(&mut simulation, 35), Seek::Unchanged);
}

#[test]
fn the_window_slides_and_the_memory_bill_is_bounded() {
    let mut simulation = simulation_of(&photon());
    let mut timeline = Timeline::new(10, 4);
    for _ in 0..200 {
        simulation.advance_by(1);
        timeline.observe(&mut simulation);
    }
    assert_eq!(timeline.keyframe_count(), 4);
    assert_eq!(timeline.earliest(), Some(170));

    // 24 bytes per cell per keyframe, and no more than `capacity` of them
    // however long the run goes on.
    let per_frame = 24 * Extent::cube(24).total();
    assert_eq!(timeline.bytes(), 4 * per_frame);
}

#[test]
fn observing_twice_at_the_same_step_records_one_keyframe() {
    let mut simulation = simulation_of(&photon());
    let mut timeline = Timeline::new(10, 8);
    simulation.advance_by(10);
    timeline.observe(&mut simulation);
    timeline.observe(&mut simulation);
    assert_eq!(timeline.keyframe_count(), 1);
}

#[test]
fn a_snapshot_reports_its_own_size() {
    let mut simulation = simulation_of(&photon());
    let snapshot: Snapshot<f32> = simulation.snapshot();
    assert_eq!(snapshot.bytes(), 24 * Extent::cube(24).total());
}

#[test]
fn scrubbing_a_lossless_scene_agrees_with_stepping_backwards() {
    let scene = Scene::cavity(M, Extent::cube(24)).with_boundary(Boundary::Pec);
    let mut scrubbed = simulation_of(&scene);
    let mut timeline = Timeline::new(20, 8);
    for _ in 0..100 {
        scrubbed.advance_by(1);
        timeline.observe(&mut scrubbed);
    }
    let mut reversed = simulation_of(&scene);
    reversed.advance_by(100);
    reversed.reverse_by(30);

    timeline.seek(&mut scrubbed, 70);
    assert_eq!(scrubbed.step_count(), reversed.step_count());

    let peak = fingerprint(&scrubbed)
        .iter()
        .fold(0.0f32, |acc, &v| acc.max(v.abs()));
    let worst = fingerprint(&scrubbed)
        .iter()
        .zip(fingerprint(&reversed).iter())
        .fold(0.0f32, |acc, (&a, &b)| acc.max((a - b).abs()));
    assert!(
        worst < 1e-4 * peak,
        "replay and reversal disagree by {:e} of the peak",
        worst / peak
    );
}

#[test]
fn energy_is_weighed_by_the_box_of_each_sample() {
    let scene = Scene::empty(M, Extent::cube(3), 1.0).with_boundary(Boundary::Pec);
    let mut simulation = Simulation::new(Ieee, &scene);
    // Widths 1, 3, 5 along x: between centres they are 1, 2 and 4.
    simulation.setup.grid.spacings[0].primary = vec![1.0, 3.0, 5.0];
    simulation.setup.grid.spacings[0].dual = vec![1.0, 2.0, 4.0];
    let index = Extent::cube(3).index([1, 1, 1]);
    simulation.electric_mut(Axis::X)[index] = 2.0;
    assert_eq!(simulation.energy().electric, 0.5 * 3.0 * 4.0);
    simulation.electric_mut(Axis::X)[index] = 0.0;
    simulation.electric_mut(Axis::Y)[index] = 2.0;
    assert_eq!(simulation.energy().electric, 0.5 * 2.0 * 4.0);
    simulation.magnetic_mut(Axis::X)[index] = 3.0;
    assert_eq!(simulation.energy().magnetic, 0.5 * 2.0 * 9.0);
}

#[test]
fn energy_density_counts_the_material() {
    let mut scene = Scene::empty(M, Extent::cube(24), 1e-3).with_boundary(Boundary::Pec);
    let glass = scene.materials.push(Material {
        relative_permittivity: 4.0,
        relative_permeability: 2.0,
        conductivity: 0.0,
        magnetic_loss: 0.0,
    });
    scene.shapes.push(Shape::Sphere {
        center: [0.0; 3],
        radius: 6e-3,
        material: glass,
    });
    let mut simulation = Simulation::new(Ieee, &scene);
    let inside = Extent::cube(24).index([12, 12, 12]);
    let outside = Extent::cube(24).index([1, 1, 1]);
    for index in [inside, outside] {
        simulation.electric_mut(Axis::Y)[index] = 3.0;
        simulation.magnetic_mut(Axis::Z)[index] = 5.0;
    }
    let density = simulation.energy_density();
    assert_eq!(density[inside], 0.5 * (4.0 * 9.0 + 2.0 * 25.0));
    assert_eq!(density[outside], 0.5 * (9.0 + 25.0));
    let summed: f64 = density.iter().map(|&value| f64::from(value)).sum();
    assert_eq!(summed, simulation.energy().total());
}

#[test]
fn a_seek_restores_the_nearest_keyframe_whatever_the_order() {
    let scene = Scene::photon(M, Extent::cube(24));
    let mut simulation = Simulation::new(Ieee, &scene);
    let mut timeline = Timeline::new(10, 8);
    while simulation.step_count() < 30 {
        simulation.advance_by(1);
        timeline.observe(&mut simulation);
    }
    timeline.seek(&mut simulation, 15);
    while simulation.step_count() < 20 {
        simulation.advance_by(1);
        timeline.observe(&mut simulation);
    }
    simulation.advance_by(25);
    assert_eq!(
        timeline.seek(&mut simulation, 35),
        Seek::FromKeyframe {
            at: 30,
            replayed: 5
        }
    );
    assert_eq!(timeline.earliest(), Some(10));
    assert_eq!(
        timeline.seek(&mut simulation, 9),
        Seek::FromStart { replayed: 9 }
    );
}
