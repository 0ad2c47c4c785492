//! Runs on residues, where arithmetic wraps and nothing is rounded: what is
//! undone is undone to the bit.

use diaphane::boundary::AbsorbingProfile;
use diaphane::cpu::Simulation;
use diaphane::residue::{Linear, Residue};
use diaphane::schedule::Schedule;
use diaphane::setup::Setup;
use diaphane::stencil::Medium;
use diaphane::timeline::{Seek, Steppable, Timeline};
use diaphane::{Axis, Coefficients, Extent, Grid, MaterialTable, Source, Waveform};

type Exact = Simulation<Residue, Residue, Linear>;

/// An empty box with conducting walls and gains of one. Residues know no stability
/// limit, so it is put together by hand rather than from a scene.
fn bare(extent: Extent) -> Exact {
    let cells = extent.total();
    let lists = |value: u32| extent.as_array().map(|n| vec![Residue(value); n]);
    let fields = || [0; 3].map(|_| vec![Residue(0); cells]);
    Exact {
        setup: Setup {
            math: Linear,
            grid: Grid::new(&Linear, extent, Residue(1)),
            medium: Medium {
                extent,
                material_index: vec![0; cells],
                coefficients: vec![Coefficients {
                    electric_gain: Residue(1),
                    electric_loss: Residue(0),
                    magnetic_gain: Residue(1),
                    magnetic_loss: Residue(0),
                }],
                absorber: AbsorbingProfile {
                    integer: lists(0),
                    half: lists(0),
                },
                magnetic_gains: lists(1),
                electric_gains: lists(1),
            },
            materials: MaterialTable::new(),
            centers: lists(0),
            sources: vec![],
        },
        electric_field: fields(),
        magnetic_field: fields(),
        step: 0,
    }
}

/// A box whose gains are whole numbers of no particular kind, with a source in it.
fn stirred(extent: Extent) -> Exact {
    let mut simulation = bare(extent);
    simulation.setup.sources.push(Source::point(
        [Residue(0); 3],
        Axis::Z,
        Waveform::ContinuousWave {
            frequency: Residue(7),
            ramp_cycles: Residue(0),
        },
    ));
    for axis in 0..3 {
        let medium = &mut simulation.setup.medium;
        for (x, gain) in medium.magnetic_gains[axis].iter_mut().enumerate() {
            *gain = Residue(3 + 5 * axis as u32 + x as u32);
        }
        for (x, gain) in medium.electric_gains[axis].iter_mut().enumerate() {
            *gain = Residue(11 + 2 * axis as u32 + 7 * x as u32);
        }
    }
    simulation
}

fn seeded(extent: Extent) -> Exact {
    let mut simulation = stirred(extent);
    for axis in Axis::ALL {
        for (i, value) in simulation.electric_mut(axis).iter_mut().enumerate() {
            *value = Residue((i as u32).wrapping_mul(2_654_435_761) ^ axis.index() as u32);
        }
        for (i, value) in simulation.magnetic_mut(axis).iter_mut().enumerate() {
            *value = Residue((i as u32).wrapping_mul(40_503) + axis.index() as u32);
        }
    }
    simulation
}

fn fields(simulation: &Exact) -> Vec<u32> {
    Axis::ALL
        .into_iter()
        .flat_map(|axis| {
            simulation
                .electric(axis)
                .iter()
                .chain(simulation.magnetic(axis))
        })
        .map(|value| value.0)
        .collect()
}

#[test]
fn residues_wrap() {
    assert_eq!(Residue(u32::MAX) + Residue(2), Residue(1));
    assert_eq!(Residue(1) - Residue(2), Residue(u32::MAX));
    assert_eq!(Residue(1 << 31) * Residue(2), Residue(0));
    assert_eq!(Residue(7) / Residue(2), Residue(3));
    assert_eq!(Residue::from(9), Residue(9));
    assert!(Residue(3) < Residue(4));
}

#[test]
fn a_run_unwinds_to_the_bit() {
    let mut simulation = seeded(Extent::new(5, 4, 3));
    let before = fields(&simulation);
    assert!(simulation.is_reversible());
    simulation.advance_by(23);
    assert_ne!(fields(&simulation), before);
    simulation.reverse_by(23);
    assert_eq!(simulation.step_count(), 0);
    assert_eq!(fields(&simulation), before);
}

#[test]
fn stepping_back_and_forward_again_changes_nothing() {
    let mut simulation = seeded(Extent::new(4, 4, 4));
    simulation.advance_by(9);
    let there = fields(&simulation);
    simulation.reverse();
    simulation.advance();
    assert_eq!(fields(&simulation), there);
}

#[test]
fn runs_add_up_whatever_the_batches() {
    let mut together = seeded(Extent::new(3, 5, 4));
    let mut apart = seeded(Extent::new(3, 5, 4));
    together.advance_by(12);
    apart.advance_by(5);
    apart.advance_by(0);
    apart.advance_by(7);
    assert_eq!(fields(&together), fields(&apart));
    assert_eq!(together.step_count(), apart.step_count());
}

#[test]
fn the_walls_keep_what_they_hold() {
    let extent = Extent::new(4, 5, 3);
    let mut simulation = stirred(extent);
    for value in simulation.magnetic_mut(Axis::X).iter_mut() {
        *value = Residue(9);
    }
    simulation.advance_by(6);
    for axis in Axis::ALL {
        for z in 0..3 {
            for y in 0..5 {
                for x in 0..4 {
                    let coord = [x, y, z];
                    if coord[axis.next().index()] == 0 || coord[axis.prev().index()] == 0 {
                        assert_eq!(simulation.sample_electric(axis, coord), Residue(0));
                    }
                }
            }
        }
    }
}

#[test]
fn one_step_of_one_excited_edge() {
    let mut simulation = bare(Extent::cube(3));
    let index = Extent::cube(3).index([1, 1, 1]);
    simulation.electric_mut(Axis::Z)[index] = Residue(5);
    simulation.update_magnetic();
    // Hx = -dEz/dy and Hy = dEz/dx, forward differences.
    assert_eq!(simulation.sample_magnetic(Axis::X, [1, 1, 1]), Residue(5));
    assert_eq!(
        simulation.sample_magnetic(Axis::X, [1, 0, 1]),
        Residue(0) - Residue(5)
    );
    assert_eq!(
        simulation.sample_magnetic(Axis::Y, [1, 1, 1]),
        Residue(0) - Residue(5)
    );
    assert_eq!(simulation.sample_magnetic(Axis::Y, [0, 1, 1]), Residue(5));
    assert_eq!(simulation.sample_magnetic(Axis::Z, [1, 1, 1]), Residue(0));
    simulation.update_electric();
    // Four edges of the loop around Ez, each taking five off.
    assert_eq!(
        simulation.sample_electric(Axis::Z, [1, 1, 1]),
        Residue(5) - Residue(20)
    );
    assert_eq!(simulation.sample_electric(Axis::Z, [2, 1, 1]), Residue(5));
    simulation.reverse_electric();
    simulation.reverse_magnetic();
    assert_eq!(simulation.sample_electric(Axis::Z, [1, 1, 1]), Residue(5));
    assert_eq!(simulation.sample_magnetic(Axis::X, [1, 1, 1]), Residue(0));
}

#[test]
fn a_loss_makes_a_run_irreversible() {
    let mut simulation = stirred(Extent::cube(3));
    assert!(simulation.is_reversible());
    simulation.setup.medium.coefficients[0].electric_loss = Residue(1);
    assert!(!simulation.is_reversible());
    simulation.setup.medium.coefficients[0].electric_loss = Residue(0);
    simulation.setup.medium.absorber.half[2][1] = Residue(1);
    assert!(!simulation.is_reversible());
}

/// A box of one material, whose cells read the same from either end.
fn symmetric(extent: Extent) -> Exact {
    let mut simulation = bare(extent);
    for axis in 0..3 {
        let medium = &mut simulation.setup.medium;
        let n = medium.magnetic_gains[axis].len();
        for p in 0..n {
            medium.magnetic_gains[axis][p] = Residue((3 + p.min(n - 1 - p) + 2 * axis) as u32);
            medium.electric_gains[axis][p] = Residue((7 + p.min(n - p) + 5 * axis) as u32);
        }
    }
    simulation
}

/// The fields as a mirror across `mirror` shows them.
fn reflected(simulation: &Exact, mirror: Axis, extent: Extent) -> Exact {
    let mut image = symmetric(extent);
    let n = extent.as_array()[mirror.index()];
    let [nx, ny, nz] = extent.as_array();
    for axis in Axis::ALL {
        for z in 0..nz {
            for y in 0..ny {
                for x in 0..nx {
                    let here = [x, y, z];
                    let p = here[mirror.index()];
                    let mut between = here;
                    between[mirror.index()] = n - 1 - p;
                    let mut across = here;
                    across[mirror.index()] = (n - p) % n;
                    let turned = |value: Residue| Residue(0) - value;
                    let kept = |value: Residue| if p == 0 { Residue(0) } else { value };
                    let (electric, magnetic) = if axis == mirror {
                        (
                            turned(simulation.sample_electric(axis, between)),
                            kept(simulation.sample_magnetic(axis, across)),
                        )
                    } else {
                        (
                            kept(simulation.sample_electric(axis, across)),
                            turned(simulation.sample_magnetic(axis, between)),
                        )
                    };
                    let index = extent.index(here);
                    image.electric_mut(axis)[index] = electric;
                    image.magnetic_mut(axis)[index] = magnetic;
                }
            }
        }
    }
    image
}

#[test]
fn a_reflected_run_is_the_run_reflected() {
    let extent = Extent::new(4, 5, 3);
    for mirror in Axis::ALL {
        let mut simulation = symmetric(extent);
        let [nx, ny, nz] = extent.as_array();
        for axis in Axis::ALL {
            for z in 0..nz {
                for y in 0..ny {
                    for x in 0..nx {
                        let here = [x, y, z];
                        let seed = 1 + x as u32 + 17 * y as u32 + 101 * z as u32;
                        let wall = here[mirror.index()] == 0;
                        let index = extent.index(here);
                        if axis == mirror || !wall {
                            simulation.electric_mut(axis)[index] =
                                Residue(seed.wrapping_mul(2_654_435_761));
                        }
                        if axis != mirror || !wall {
                            simulation.magnetic_mut(axis)[index] =
                                Residue(seed.wrapping_mul(40_503));
                        }
                    }
                }
            }
        }
        let mut image = reflected(&simulation, mirror, extent);
        assert_ne!(fields(&image), fields(&simulation));
        simulation.advance_by(11);
        image.advance_by(11);
        assert_eq!(
            fields(&image),
            fields(&reflected(&simulation, mirror, extent)),
            "{mirror:?}"
        );
    }
}

#[test]
fn renaming_the_axes_renames_the_fields() {
    let extent = Extent::new(3, 4, 5);
    let mut simulation = symmetric(extent);
    let mut renamed = symmetric(Extent::new(5, 3, 4));
    for axis in Axis::ALL {
        let (old, new) = (axis.index(), axis.next().index());
        let medium = &simulation.setup.medium;
        renamed.setup.medium.magnetic_gains[new] = medium.magnetic_gains[old].clone();
        renamed.setup.medium.electric_gains[new] = medium.electric_gains[old].clone();
    }
    for axis in Axis::ALL {
        for z in 0..5 {
            for y in 0..4 {
                for x in 0..3 {
                    let seed = 1 + x as u32 + 17 * y as u32 + 101 * z as u32;
                    let value = Residue(seed.wrapping_mul(2_654_435_761) ^ axis.index() as u32);
                    let here = extent.index([x, y, z]);
                    let there = Extent::new(5, 3, 4).index([z, x, y]);
                    simulation.electric_mut(axis)[here] = value;
                    renamed.electric_mut(axis.next())[there] = value;
                    simulation.magnetic_mut(axis)[here] = value + Residue(3);
                    renamed.magnetic_mut(axis.next())[there] = value + Residue(3);
                }
            }
        }
    }
    simulation.advance_by(7);
    renamed.advance_by(7);
    for axis in Axis::ALL {
        for z in 0..5 {
            for y in 0..4 {
                for x in 0..3 {
                    assert_eq!(
                        simulation.sample_electric(axis, [x, y, z]),
                        renamed.sample_electric(axis.next(), [z, x, y])
                    );
                    assert_eq!(
                        simulation.sample_magnetic(axis, [x, y, z]),
                        renamed.sample_magnetic(axis.next(), [z, x, y])
                    );
                }
            }
        }
    }
}

#[test]
fn a_ramp_of_the_grids_own_is_carried_exactly() {
    // A ramp falling along x and rising with time, as fast as the grid carries it:
    // with a gain of three, three half cells go by in half a step.
    let extent = Extent::cube(9);
    let mut simulation = bare(extent);
    for axis in 0..3 {
        let medium = &mut simulation.setup.medium;
        medium.magnetic_gains[axis].fill(Residue(3));
        medium.electric_gains[axis].fill(Residue(3));
    }
    let crest = |half_cells: usize, half_steps: i64| {
        Residue((3 * half_steps - half_cells as i64) as u32)
    };
    let electric = |x: usize, step: i64| crest(2 * x, 2 * step);
    let magnetic = |x: usize, step: i64| Residue(0) - crest(2 * x + 1, 2 * step - 1);
    for z in 0..9 {
        for y in 0..9 {
            for x in 0..9 {
                let index = extent.index([x, y, z]);
                simulation.electric_mut(Axis::Z)[index] = electric(x, 0);
                simulation.magnetic_mut(Axis::Y)[index] = magnetic(x, 0);
            }
        }
    }
    for step in 1..=4 {
        simulation.advance();
        for z in step..9 - step {
            for y in step..9 - step {
                for x in step..9 - step {
                    let (here, moment) = ([x, y, z], step as i64);
                    assert_eq!(simulation.sample_electric(Axis::Z, here), electric(x, moment));
                    assert_eq!(simulation.sample_magnetic(Axis::Y, here), magnetic(x, moment));
                    for axis in [Axis::X, Axis::Y] {
                        assert_eq!(simulation.sample_electric(axis, here), Residue(0));
                    }
                    for axis in [Axis::X, Axis::Z] {
                        assert_eq!(simulation.sample_magnetic(axis, here), Residue(0));
                    }
                }
            }
        }
    }
}

/// What one moment of a run keeps: `E` with itself, and `H` with the next `H`.
fn kept(now: &[Vec<u32>; 2], next: &[Vec<u32>; 2]) -> u32 {
    let paired = |x: &[u32], y: &[u32]| {
        x.iter()
            .zip(y)
            .fold(0u32, |sum, (&a, &b)| sum.wrapping_add(a.wrapping_mul(b)))
    };
    paired(&now[0], &now[0]).wrapping_add(paired(&now[1], &next[1]))
}

#[test]
fn a_lossless_box_keeps_its_energy_to_the_bit() {
    let extent = Extent::new(4, 3, 5);
    let mut simulation = bare(extent);
    for (axis, gain) in [3, 5, 7].into_iter().enumerate() {
        let medium = &mut simulation.setup.medium;
        medium.magnetic_gains[axis].fill(Residue(gain));
        medium.electric_gains[axis].fill(Residue(gain));
    }
    let [nx, ny, nz] = extent.as_array();
    for axis in Axis::ALL {
        for z in 0..nz {
            for y in 0..ny {
                for x in 0..nx {
                    let here = [x, y, z];
                    let seed = 1 + x as u32 + 17 * y as u32 + 101 * z as u32;
                    let index = extent.index(here);
                    if here[axis.next().index()] > 0 && here[axis.prev().index()] > 0 {
                        simulation.electric_mut(axis)[index] =
                            Residue(seed.wrapping_mul(2_654_435_761));
                    }
                    simulation.magnetic_mut(axis)[index] = Residue(seed.wrapping_mul(40_503));
                }
            }
        }
    }
    let moment = |simulation: &Exact| -> [Vec<u32>; 2] {
        let flat = |values: &[Residue]| values.iter().map(|value| value.0).collect::<Vec<_>>();
        [
            Axis::ALL
                .iter()
                .flat_map(|&axis| flat(simulation.electric(axis)))
                .collect(),
            Axis::ALL
                .iter()
                .flat_map(|&axis| flat(simulation.magnetic(axis)))
                .collect(),
        ]
    };
    let mut moments = vec![moment(&simulation)];
    for _ in 0..20 {
        simulation.advance();
        moments.push(moment(&simulation));
    }
    let energies: Vec<u32> = moments
        .windows(2)
        .map(|pair| kept(&pair[0], &pair[1]))
        .collect();
    assert_ne!(moments[0], moments[20]);
    assert!(energies.iter().all(|&energy| energy == energies[0]), "{energies:?}");
}

#[test]
fn a_snapshot_holds_six_values_a_cell() {
    let mut simulation = seeded(Extent::new(4, 5, 6));
    let snapshot = simulation.snapshot();
    assert_eq!(snapshot.bytes(), 24 * 4 * 5 * 6);
    let mut timeline = Timeline::new(2, 3);
    for _ in 0..20 {
        timeline.observe(&mut simulation);
        simulation.advance();
    }
    assert_eq!(timeline.keyframe_count(), 3);
    assert_eq!(timeline.bytes(), 3 * 24 * 4 * 5 * 6);
    let steps: Vec<u64> = timeline.keyframes.iter().map(|frame| frame.step).collect();
    assert_eq!(steps, [14, 16, 18]);
}

#[test]
fn a_seek_finds_the_state_of_the_run() {
    let extent = Extent::new(4, 3, 5);
    let start = || {
        let mut simulation = stirred(extent);
        simulation.reset();
        simulation
    };
    let mut timeline = Timeline::new(4, 3);
    let mut simulation = start();
    for _ in 0..30 {
        timeline.observe(&mut simulation);
        simulation.advance();
    }
    for target in [30u64, 25, 17, 3, 0, 29] {
        let mut expected = start();
        expected.advance_by(target);
        timeline.seek(&mut simulation, target);
        assert_eq!(simulation.step_count(), target);
        assert_eq!(fields(&simulation), fields(&expected));
    }
    assert!(timeline.keyframes.len() <= 3);
}

#[test]
fn a_seek_says_how_it_got_there() {
    let mut timeline = Timeline::new(4, 3);
    let mut simulation = stirred(Extent::cube(3));
    for _ in 0..20 {
        timeline.observe(&mut simulation);
        simulation.advance();
    }
    assert_eq!(timeline.earliest(), Some(8));
    assert_eq!(timeline.seek(&mut simulation, 20), Seek::Unchanged);
    assert_eq!(
        timeline.seek(&mut simulation, 14),
        Seek::FromKeyframe {
            at: 12,
            replayed: 2
        }
    );
    assert_eq!(
        timeline.seek(&mut simulation, 19),
        Seek::Forward { replayed: 5 }
    );
    assert_eq!(
        timeline.seek(&mut simulation, 3),
        Seek::FromStart { replayed: 3 }
    );
    assert_eq!(
        timeline.seek(&mut simulation, 5),
        Seek::Forward { replayed: 2 }
    );
}

#[test]
fn a_snapshot_gives_back_what_it_was_taken_of() {
    let mut simulation = seeded(Extent::new(3, 4, 3));
    simulation.advance_by(4);
    let snapshot = simulation.snapshot();
    let kept = fields(&simulation);
    simulation.advance_by(3);
    simulation.restore(&snapshot);
    assert_eq!(simulation.step_count(), 4);
    assert_eq!(fields(&simulation), kept);
}

#[test]
fn a_schedule_counts_bytes() {
    let simulation = stirred(Extent::new(4, 5, 6));
    let schedule = Schedule::new(simulation.setup);
    assert_eq!(schedule.field_bytes(), 3 * 120 * 4);
    assert_eq!(schedule.bytes_per_step(), 4 * 3 * 120 * 4);
    assert_eq!(schedule.lookup_samples(), 256);
    let wide = Schedule::new(stirred(Extent::new(100, 5, 6)).setup);
    assert_eq!(wide.lookup_samples(), 400);
}
