//! Grids, materials, boundaries, sources and scenes, in `f32`.

use diaphane::boundary::AbsorbingProfile;
use diaphane::grid::{
    is_gradable, vacuum_impedance, vacuum_permeability, vacuum_permittivity, GridFault, GridSpec,
    SPEED_OF_LIGHT,
};
use diaphane::numerics::{Elementary, Functions, Numerics};
use diaphane::validation::SceneFault;
use diaphane::{
    numerical_phase_velocity, Axis, Boundary, Extent, Material, MaterialTable, Refinement, Shape,
    Source, SourceShape, Spacing, Waveform,
};

/// IEEE arithmetic, with the elementary functions of the standard library.
#[derive(Clone, Copy, Debug)]
struct Ieee;

const M: &Ieee = &Ieee;

impl Elementary<f32> for Ieee {
    fn functions(&self) -> Functions<f32> {
        unreachable!()
    }
    fn exp(&self, x: f32) -> f32 {
        x.exp()
    }
    fn sin(&self, x: f32) -> f32 {
        x.sin()
    }
    fn cos(&self, x: f32) -> f32 {
        x.cos()
    }
    fn tan(&self, x: f32) -> f32 {
        x.tan()
    }
    fn asin(&self, x: f32) -> f32 {
        x.asin()
    }
    fn ln(&self, x: f32) -> f32 {
        x.ln()
    }
    fn sqrt(&self, x: f32) -> f32 {
        x.sqrt()
    }
    fn pow(&self, x: f32, y: f32) -> f32 {
        x.powf(y)
    }
    fn count(&self, n: u64) -> f32 {
        n as f32
    }
    fn decimal(&self, digits: u64, places: u8) -> f32 {
        format!("{digits}e-{places}").parse().unwrap()
    }
    fn infinity(&self) -> f32 {
        f32::INFINITY
    }
    fn is_finite(&self, x: f32) -> bool {
        x.is_finite()
    }
    fn is_infinite(&self, x: f32) -> bool {
        x.is_infinite()
    }
    fn floor(&self, x: f32) -> usize {
        x.floor().max(0.0) as usize
    }
    fn ceiling(&self, x: f32) -> usize {
        x.ceil() as usize
    }
    fn nearest(&self, x: f32) -> u64 {
        x.round() as u64
    }
    fn read(&self, text: &str) -> Option<f32> {
        text.parse().ok()
    }
}

impl Elementary<f64> for Ieee {
    fn functions(&self) -> Functions<f64> {
        unreachable!()
    }
    fn exp(&self, x: f64) -> f64 {
        x.exp()
    }
    fn sin(&self, x: f64) -> f64 {
        x.sin()
    }
    fn cos(&self, x: f64) -> f64 {
        x.cos()
    }
    fn tan(&self, x: f64) -> f64 {
        x.tan()
    }
    fn asin(&self, x: f64) -> f64 {
        x.asin()
    }
    fn ln(&self, x: f64) -> f64 {
        x.ln()
    }
    fn sqrt(&self, x: f64) -> f64 {
        x.sqrt()
    }
    fn pow(&self, x: f64, y: f64) -> f64 {
        x.powf(y)
    }
    fn count(&self, n: u64) -> f64 {
        n as f64
    }
    fn decimal(&self, digits: u64, places: u8) -> f64 {
        format!("{digits}e-{places}").parse().unwrap()
    }
    fn infinity(&self) -> f64 {
        f64::INFINITY
    }
    fn is_finite(&self, x: f64) -> bool {
        x.is_finite()
    }
    fn is_infinite(&self, x: f64) -> bool {
        x.is_infinite()
    }
    fn floor(&self, x: f64) -> usize {
        x.floor().max(0.0) as usize
    }
    fn ceiling(&self, x: f64) -> usize {
        x.ceil() as usize
    }
    fn nearest(&self, x: f64) -> u64 {
        x.round() as u64
    }
    fn read(&self, text: &str) -> Option<f64> {
        text.parse().ok()
    }
}

impl Numerics<f32, f64> for Ieee {
    fn wide(&self, x: f32) -> f64 {
        f64::from(x)
    }
    fn narrowed(&self, x: f64) -> f32 {
        x as f32
    }
    fn word_of(&self, x: f32) -> u32 {
        x.to_bits()
    }
    fn widen(&self, x: f32) -> f64 {
        f64::from(x)
    }
    fn narrow(&self, x: f64) -> f32 {
        x as f32
    }
    fn word(&self, x: f32) -> u32 {
        x.to_bits()
    }
}

type Scene = diaphane::Scene<f32, f64>;
type Grid = diaphane::Grid<f32, f64>;

fn velocity(courant: f32, cells: f32, direction: [f32; 3]) -> f32 {
    numerical_phase_velocity(M, courant, cells, direction)
}

#[test]
fn dispersion_is_slower_along_axes_than_diagonals() {
    let axial = velocity(0.5, 20.0, [1.0, 0.0, 0.0]);
    let diagonal = velocity(0.5, 20.0, [1.0, 1.0, 1.0]);
    assert!(axial < diagonal, "{axial} should lag {diagonal}");
    assert!(axial < 1.0 && axial > 0.99, "axial velocity {axial}");
    assert!(
        diagonal <= 1.0 && diagonal > 0.999,
        "diagonal velocity {diagonal}"
    );

    let fine = velocity(0.5, 40.0, [1.0, 0.0, 0.0]);
    assert!(1.0 - fine < 1.0 - axial, "refining should reduce the error");
}

#[test]
fn waves_are_slowest_along_an_axis_and_refining_speeds_them_up() {
    for courant in [0.3, 0.5, 0.57] {
        let mut last = 0.0;
        for cells in [8.0, 10.0, 14.0, 20.0, 40.0] {
            let axis = velocity(courant, cells, [1.0, 0.0, 0.0]);
            assert!(axis > last && axis < 1.0);
            last = axis;
            for direction in [[1.0, 1.0, 0.0], [1.0, 2.0, 3.0], [1.0, 1.0, 1.0]] {
                assert!(axis < velocity(courant, cells, direction));
            }
            assert_eq!(axis, velocity(courant, cells, [0.0, 0.0, -2.0]));
        }
    }
}

#[test]
fn physical_coordinates_are_centred_and_round_trip() {
    let grid = Grid::new(M, Extent::new(40, 60, 80), 1e-3);
    let close = |a: [f32; 3], b: [f32; 3]| (0..3).all(|axis| (a[axis] - b[axis]).abs() < 1e-7);
    assert!(close(grid.size(M), [0.04, 0.06, 0.08]), "{:?}", grid.size(M));
    // The origin sits at the centre, so the domain runs from −L/2 to +L/2.
    assert_eq!(grid.to_cell(M, [0.0; 3]), [20.0, 30.0, 40.0]);
    assert_eq!(grid.to_position(M, [20.0, 30.0, 40.0]), [0.0; 3]);
    assert!(grid.contains(M, [0.019, -0.029, 0.0]));
    assert!(!grid.contains(M, [0.021, 0.0, 0.0]));

    for position in [[0.0; 3], [0.011, -0.007, 0.03], [-0.02, 0.03, -0.04]] {
        let round_trip = grid.to_position(M, grid.to_cell(M, position));
        for axis in 0..3 {
            assert!((round_trip[axis] - position[axis]).abs() < 1e-7);
        }
    }
}

#[test]
fn geometry_does_not_move_when_the_resolution_changes() {
    let size = [0.04, 0.06, 0.08];
    let coarse = Grid::for_size(M, size, 1000.0);
    let fine = Grid::for_size(M, size, 2000.0);
    assert_eq!(coarse.extent, Extent::new(40, 60, 80));
    assert_eq!(fine.extent, Extent::new(80, 120, 160));

    let position = [0.012, -0.018, 0.031];
    let coarse_cell = coarse.to_cell(M, position);
    let fine_cell = fine.to_cell(M, position);
    for axis in 0..3 {
        assert!((fine_cell[axis] - 2.0 * coarse_cell[axis]).abs() < 1e-3);
    }
}

#[test]
fn a_cell_centre_lands_back_in_its_own_cell() {
    let grid = Grid::new(M, Extent::new(12, 14, 16), 1e-3);
    for coord in [[0, 0, 0], [4, 5, 6], [11, 13, 15], [6, 7, 8]] {
        assert_eq!(grid.cell_containing(M, grid.cell_center(M, coord)), coord);
    }
    // Positions outside the domain clamp rather than wrapping or panicking.
    assert_eq!(grid.cell_containing(M, [-9.9, 0.0, 0.0]), [0, 7, 8]);
    assert_eq!(grid.cell_containing(M, [9.9, 9.9, 9.9]), [11, 13, 15]);
}

#[test]
fn cell_centres_are_half_a_cell_in_from_the_corner() {
    let grid = Grid::new(M, Extent::cube(10), 1e-3);
    for axis in 0..3 {
        assert!((grid.cell_center(M, [0, 0, 0])[axis] + 0.0045).abs() < 1e-7);
        assert!((grid.cell_center(M, [9, 9, 9])[axis] - 0.0045).abs() < 1e-7);
    }
    assert!((grid.resolution() - 1000.0).abs() < 1e-3);
}

#[test]
fn time_step_respects_courant() {
    let grid = Grid::new(M, Extent::cube(16), 1e-3);
    assert_eq!(grid.validate(M), Ok(()));
    assert!(grid.courant < Grid::courant_limit(M));
    let expected = 0.5 * 1e-3 / 299_792_458.0;
    assert!((grid.time_step(M) - expected).abs() < 1e-16);
}

#[test]
fn free_space_has_the_usual_constants() {
    let impedance: f32 = vacuum_impedance(M);
    assert!((impedance - 376.73).abs() < 0.01, "{impedance}");
    let speed: f32 = 1.0
        / (vacuum_permeability::<f32, Ieee>(M) * vacuum_permittivity::<f32, Ieee>(M)).sqrt();
    assert!((speed / SPEED_OF_LIGHT as f32 - 1.0).abs() < 1e-5, "{speed}");
}

#[test]
fn an_unstable_courant_number_is_a_fault() {
    let mut grid = Grid::new(M, Extent::cube(16), 1e-3);
    grid.courant = 0.9;
    assert_eq!(grid.validate(M), Err(GridFault::Unstable));
    grid.courant = 0.0;
    assert_eq!(grid.validate(M), Err(GridFault::Unstable));
    grid.courant = 0.577_350_26;
    assert_eq!(grid.validate(M), Ok(()));
}

#[test]
fn a_grid_that_disagrees_with_its_spacing_is_a_fault() {
    let mut grid = Grid::new(M, Extent::cube(16), 1e-3);
    grid.extent = Extent::new(16, 15, 16);
    assert_eq!(
        grid.validate(M),
        Err(GridFault::Mismatched { axis: Axis::Y })
    );
    grid.extent = Extent::new(16, 16, 1);
    assert_eq!(grid.validate(M), Err(GridFault::TooSmall));
}

#[test]
fn a_recipe_survives_the_grid_built_from_it() {
    let spec = GridSpec {
        extent: Extent::new(20, 24, 28),
        cell_size: 2e-3f32,
        courant: 0.4,
        refinements: vec![Refinement::across(Axis::Y, 1e-3, 8e-3, 1e-3)],
        max_ratio: 1.2,
    };
    let grid = Grid::from(M, spec).unwrap();
    assert_eq!(grid.courant, 0.4);
    let back = GridSpec::from(grid);
    assert_eq!(back.extent, Extent::new(20, 24, 28));
    assert_eq!(back.cell_size, 2e-3);
    assert_eq!(back.courant, 0.4);
    assert_eq!(back.refinements.len(), 1);
    assert_eq!(back.max_ratio, 1.2);
}

#[test]
fn a_refinement_too_fine_to_carry_gives_no_grid() {
    let grid = Grid::graded(
        M,
        [1.0, 0.01, 0.01],
        1000.0,
        vec![Refinement::across(Axis::X, 0.0, 2.0, 1e-6)],
    );
    assert!(grid.is_none());
}

#[test]
fn dual_widths_span_two_half_cells() {
    let spacing: Spacing<f32, f64> = Spacing::from_widths(M, vec![1.0, 2.0, 4.0]);
    assert_eq!(spacing.count(), 3);
    assert_eq!(spacing.primary(), &[1.0, 2.0, 4.0]);
    assert_eq!(spacing.dual(), &[1.0, 1.5, 3.0]);
    assert_eq!(spacing.length(M), 7.0);
    assert_eq!(spacing.finest(M), 1.0);
    assert_eq!(spacing.coarsest(M), 4.0);
    assert_eq!(spacing.worst_ratio(), 2.0);
    // The centre of the axis is a quarter of the way into the last cell.
    assert_eq!(spacing.coordinate(M, 0.0), 2.125);
    assert_eq!(spacing.position(M, 2.125), 0.0);
    assert_eq!(spacing.position(M, 0.0), -3.5);
}

#[test]
fn packed_geometry_is_three_sections_of_three_axes() {
    let grid = Grid::new(M, Extent::new(4, 5, 6), 1e-3);
    let packed = grid.packed_geometry(M);
    assert_eq!(packed.len(), 3 * (4 + 5 + 6));
    assert_eq!(packed[4..9].to_vec(), grid.magnetic_gains(M, Axis::Y));
    assert_eq!(packed[15..19].to_vec(), grid.electric_gains(M, Axis::X));
    assert_eq!(packed[39..45].to_vec(), grid.cell_centers(M, Axis::Z));
}

fn material_grid() -> Grid {
    Grid::new(M, Extent::cube(16), 1e-3)
}

#[test]
fn vacuum_is_lossless_and_symmetric() {
    let c = Material::vacuum().coefficients(M, &material_grid());
    assert_eq!(c.electric_loss, 0.0);
    assert_eq!(c.magnetic_loss, 0.0);
    // The point of impedance normalization: both curls carry the same gain.
    assert_eq!(c.electric_gain, c.magnetic_gain);
    assert_eq!(c.electric_gain, 1.0);
    let grid = material_grid();
    for axis in Axis::ALL {
        for gain in grid
            .electric_gains(M, axis)
            .iter()
            .chain(&grid.magnetic_gains(M, axis))
        {
            assert!((gain - grid.courant).abs() < 1e-6, "gain {gain}");
        }
    }
}

#[test]
fn perfect_conductor_pins_the_field_to_zero() {
    let c = Material::perfect_conductor(M).coefficients(M, &material_grid());
    let updated = |e: f32, curl: f32| {
        ((1.0 - c.electric_loss) * e + c.electric_gain * curl) / (1.0 + c.electric_loss)
    };
    assert_eq!(updated(1.0, 5.0), 0.0);
    assert_eq!(updated(-3.0, -2.0), 0.0);
}

#[test]
fn matched_loss_has_equal_electric_and_magnetic_rates() {
    for &permittivity in &[1.0, 2.25, 12.0] {
        let material = Material::matched_lossy(M, permittivity, 0.05);
        let c = material.coefficients(M, &material_grid());
        let relative = (c.electric_loss - c.magnetic_loss).abs() / c.electric_loss;
        assert!(relative < 1e-5, "{permittivity}: {c:?}");
    }
}

#[test]
fn conductivity_raises_loss_without_touching_gain() {
    let lossless = Material::dielectric(4.0).coefficients(M, &material_grid());
    let lossy = Material::matched_lossy(M, 4.0, 0.02).coefficients(M, &material_grid());
    assert_eq!(lossless.electric_gain, lossy.electric_gain);
    assert_eq!(lossless.electric_loss, 0.0);
    assert!(lossy.electric_loss > 0.0);
}

#[test]
fn table_starts_with_vacuum_and_merges_duplicates() {
    let mut table: MaterialTable<f32> = MaterialTable::new();
    assert_eq!(table.get(MaterialTable::<f32>::VACUUM), Material::vacuum());
    let glass = table.push(Material::refractive(1.5));
    assert_eq!(glass, 1);
    assert_eq!(table.push(Material::refractive(1.5)), glass);
    assert_eq!(
        table.push(Material::vacuum()),
        MaterialTable::<f32>::VACUUM
    );
    assert_eq!(table.len(), 2);
    assert!(!table.is_empty());
    assert!((table.peak_refractive_index(M) - 1.5).abs() < 1e-6);
}

#[test]
fn perfect_conductor_does_not_inflate_the_resolution_requirement() {
    let mut table: MaterialTable<f32> = MaterialTable::new();
    table.push(Material::perfect_conductor(M));
    assert_eq!(table.peak_refractive_index(M), 1.0);
}

#[test]
fn refractive_index_is_the_root_of_the_product() {
    let material = Material {
        relative_permittivity: 4.0f32,
        relative_permeability: 2.25,
        conductivity: 0.0,
        magnetic_loss: 0.0,
    };
    assert_eq!(material.refractive_index(M), 3.0);
    assert_eq!(Material::refractive(2.0f32).relative_permittivity, 4.0);
}

fn boundary_grid() -> Grid {
    Grid::new(M, Extent::new(40, 44, 48), 1e-3)
}

fn default_profile() -> AbsorbingProfile<f32> {
    AbsorbingProfile::new(M, &boundary_grid(), Boundary::absorbing(M))
}

#[test]
fn pec_has_no_loss_anywhere() {
    let profile = AbsorbingProfile::new(M, &boundary_grid(), Boundary::Pec);
    assert_eq!(profile.peak(), 0.0);
    assert_eq!(profile.electric(Axis::X, [0, 0, 0]), 0.0);
    assert_eq!(profile.magnetic(Axis::Z, [39, 43, 47]), 0.0);
}

#[test]
fn interior_is_untouched_and_walls_are_damped() {
    let profile = default_profile();
    assert_eq!(profile.electric(Axis::X, [20, 22, 24]), 0.0);
    assert_eq!(profile.magnetic(Axis::Y, [20, 22, 24]), 0.0);
    let corner = profile.electric(Axis::X, [0, 0, 0]);
    let face = profile.electric(Axis::X, [0, 22, 24]);
    assert!(corner > face, "corner {corner} should exceed face {face}");
    assert!(face > 0.0);
}

#[test]
fn grading_is_monotone_into_the_wall() {
    let profile = default_profile();
    let mut previous = f32::INFINITY;
    for i in 0..10 {
        let value = profile.electric(Axis::Y, [i, 22, 24]);
        assert!(
            value <= previous,
            "not monotone at {i}: {value} > {previous}"
        );
        previous = value;
    }
    assert_eq!(profile.electric(Axis::Y, [12, 22, 24]), 0.0);
}

#[test]
fn both_walls_are_absorbing() {
    let profile = default_profile();
    let low = profile.magnetic(Axis::Z, [20, 22, 0]);
    let high = profile.magnetic(Axis::Z, [20, 22, 47]);
    assert!(low > 0.0 && high > 0.0, "low {low}, high {high}");
}

#[test]
fn peak_matches_the_closed_form() {
    let profile = default_profile();
    // −(m+1)·ln(R₀)·S / (4T) with m = 3, R₀ = 1e-6, S = 0.5, T = 10.
    let expected = -4.0 * 1e-6f32.ln() * 0.5 / 40.0;
    assert!(
        (profile.peak() - expected).abs() < 1e-5,
        "{} vs {expected}",
        profile.peak()
    );
}

#[test]
fn electric_and_magnetic_sample_different_positions() {
    let profile = default_profile();
    let coord = [3, 22, 24];
    assert_ne!(
        profile.electric(Axis::X, coord),
        profile.magnetic(Axis::X, coord)
    );
}

#[test]
fn row_split_agrees_with_the_direct_lookup() {
    let profile = default_profile();
    for axis in Axis::ALL {
        for coord in [
            [0, 0, 0],
            [3, 5, 44],
            [20, 22, 24],
            [39, 43, 47],
            [7, 2, 40],
        ] {
            let (varying, constant) = profile.electric_row(axis, coord[1], coord[2]);
            assert_eq!(varying[coord[0]] + constant, profile.electric(axis, coord));
            let (varying, constant) = profile.magnetic_row(axis, coord[1], coord[2]);
            assert_eq!(varying[coord[0]] + constant, profile.magnetic(axis, coord));
        }
    }
}

#[test]
fn packed_layout_round_trips() {
    let grid = boundary_grid();
    let profile = default_profile();
    let packed = profile.packed();
    let [nx, ny, nz] = grid.extent.as_array();
    assert_eq!(packed.len(), 2 * (nx + ny + nz));
    assert_eq!(packed[0], profile.integer[0][0]);
    assert_eq!(packed[nx], profile.integer[1][0]);
    assert_eq!(packed[nx + ny + nz], profile.half[0][0]);
}

fn source_grid() -> Grid {
    Grid::new(M, Extent::new(32, 40, 48), 1e-3)
}

#[test]
fn ricker_peaks_at_its_delay_and_is_zero_mean() {
    let frequency = 1e9;
    let waveform = Waveform::ricker(M, frequency);
    let Waveform::Ricker { delay, .. } = waveform else {
        unreachable!()
    };
    assert!((waveform.evaluate(M, delay) - 1.0f32).abs() < 1e-6);
    // Starts from rest: no step at t = 0.
    assert!(waveform.evaluate(M, 0.0).abs() < 1e-5);

    let steps = 20_000;
    let span = 4.0 * delay;
    let mean: f32 = (0..steps)
        .map(|i| waveform.evaluate(M, span * i as f32 / steps as f32))
        .sum::<f32>()
        / steps as f32;
    assert!(mean.abs() < 1e-4, "mean {mean} is not zero");
}

#[test]
fn gaussian_pulse_envelope_has_the_requested_width() {
    let frequency = 1e9f32;
    let cycles = 10.0;
    let waveform = Waveform::gaussian_pulse(M, frequency, cycles);
    let Waveform::GaussianPulse { delay, .. } = waveform else {
        unreachable!()
    };
    let period = 1.0 / frequency;
    let envelope = |periods_from_peak: f32| {
        let center = delay + periods_from_peak * period;
        (0..256)
            .map(|i| {
                waveform
                    .evaluate(M, center + (i as f32 / 256.0 - 0.5) * period)
                    .abs()
            })
            .fold(0.0f32, f32::max)
    };
    assert!((envelope(0.0) - 1.0).abs() < 0.02, "{}", envelope(0.0));
    let half = envelope(0.5 * cycles);
    assert!(
        (half - 0.5).abs() < 0.05,
        "envelope at half width is {half}"
    );
    assert!(envelope(2.0 * cycles) < 0.01, "pulse does not die out");
    assert!(waveform.evaluate(M, 0.0).abs() < 1e-4);
}

#[test]
fn the_delay_hides_the_switch_on() {
    let pulse = Waveform::gaussian_pulse(M, 1.0f32, 2.125);
    assert!(pulse.evaluate(M, 0.0).abs() < 1e-6);
    let wavelet = Waveform::ricker(M, 1.0f32);
    assert!(wavelet.evaluate(M, 0.0).abs() < 1e-6);
}

#[test]
fn continuous_wave_ramps_smoothly_from_rest() {
    let waveform = Waveform::ContinuousWave {
        frequency: 1e9f32,
        ramp_cycles: 3.0,
    };
    assert_eq!(waveform.evaluate(M, -1e-12), 0.0);
    assert_eq!(waveform.evaluate(M, 0.0), 0.0);
    let quarter = 0.25e-9;
    assert!(waveform.evaluate(M, quarter).abs() < 0.15);
    let late = 10e-9;
    let peak = (0..400)
        .map(|i| waveform.evaluate(M, late + i as f32 * 1e-12).abs())
        .fold(0.0f32, f32::max);
    assert!((peak - 1.0).abs() < 0.01, "peak {peak}");
}

#[test]
fn a_waveform_knows_its_carrier() {
    assert_eq!(Waveform::ricker(M, 3e9f32).dominant_frequency(), 3e9);
    assert_eq!(
        Waveform::gaussian_pulse(M, 2e9f32, 4.0).dominant_frequency(),
        2e9
    );
    let steady = Waveform::ContinuousWave {
        frequency: 1e9f32,
        ramp_cycles: 3.0,
    };
    assert_eq!(steady.dominant_frequency(), 1e9);
}

#[test]
fn point_injection_covers_exactly_one_cell() {
    // 32x40x48 cells at 1 mm: cell (4,5,6) centres at (-11.5, -14.5, -17.5) mm.
    let source = Source::point(
        [-11.5e-3, -14.5e-3, -17.5e-3],
        Axis::Z,
        Waveform::ricker(M, 1e9),
    );
    let injection = source.injections(M, &source_grid(), 0.0)[0];
    assert_eq!(injection.cell_count(), 1);
    assert_eq!(injection.origin, [4, 5, 6]);
    assert_eq!(injection.component, 2);
    assert_eq!(injection.weight(M, [-11.5e-3, -14.5e-3, -17.5e-3]), 1.0);
}

#[test]
fn sheet_injection_spans_the_plane_and_apodizes_transversely() {
    let grid = source_grid();
    // x = -8 mm is cell 8 of 32; a 6 mm waist is 6 cells.
    let source = Source::sheet(Axis::X, -8e-3, 6e-3, Axis::Z, Waveform::ricker(M, 1e9));
    let injection = source.injections(M, &grid, 0.0)[0];
    assert_eq!(injection.origin, [8, 0, 0]);
    assert_eq!(injection.extent, [1, 40, 48]);

    let center = [-8e-3, 0.0, 0.0];
    assert!((injection.weight(M, center) - 1.0).abs() < 1e-6);
    let offset = injection.weight(M, [-8e-3, 6e-3, 0.0]);
    assert!(
        (offset - (-1.0f32).exp()).abs() < 1e-6,
        "one waist out should be exp(-1), got {offset}"
    );
    // The sheet normal must not participate.
    assert_eq!(
        injection.weight(M, [0.05, 0.0, 0.0]),
        injection.weight(M, center)
    );
}

#[test]
fn injection_value_follows_the_waveform() {
    let grid = source_grid();
    let waveform = Waveform::ricker(M, 1e9);
    let source = Source::point([0.0; 3], Axis::X, waveform).with_amplitude(3.0);
    let time = 0.7e-9;
    let injection = source.injections(M, &grid, time)[0];
    assert!((injection.value - 3.0 * waveform.evaluate(M, time)).abs() < 1e-6);
}

#[test]
fn a_moving_point_tracks_its_velocity() {
    let source = Source::point_moving(
        [0.0; 3],
        [1.5e8, 0.0, 0.0],
        Axis::Z,
        Waveform::ricker(M, 1e9),
    );
    assert_eq!(
        source.injections(M, &source_grid(), 0.0)[0].origin,
        [16, 20, 24]
    );
    assert_eq!(
        source.injections(M, &source_grid(), 1e-10)[0].origin,
        [31, 20, 24]
    );
}

#[test]
fn a_moving_point_goes_silent_when_it_leaves() {
    let waveform = Waveform::ricker(M, 1e9);
    let Waveform::Ricker { delay, .. } = waveform else {
        unreachable!()
    };
    let mover = Source::point_moving([0.0; 3], [1.5e8, 0.0, 0.0], Axis::Z, waveform);
    let sitter = Source::point([0.0; 3], Axis::Z, waveform);
    assert_eq!(mover.injections(M, &source_grid(), delay)[0].value, 0.0);
    assert!(sitter.injections(M, &source_grid(), delay)[0].value.abs() > 0.99f32);
}

#[test]
fn a_plane_wave_makes_two_staggered_corrections() {
    let grid = source_grid();
    let waveform = Waveform::ContinuousWave {
        frequency: 1e9,
        ramp_cycles: 1.0,
    };
    let source = Source::plane_wave(Axis::X, 0.0, Axis::Z, waveform);
    let [electric, magnetic] = source.injections(M, &grid, 10.13e-9);

    assert!(!electric.magnetic);
    assert!(magnetic.magnetic);
    // Ez rides the wave; Hy is the component a +x wave with Ez carries.
    assert_eq!(electric.component, 2);
    assert_eq!(magnetic.component, 1);
    // The first total E row, and the last scattered H row just before it.
    assert_eq!(electric.origin[0], magnetic.origin[0] + 1);
    assert_eq!(electric.extent, [1, 40, 48]);
    assert_eq!(magnetic.extent, [1, 40, 48]);
    assert!(electric.value > 0.0, "{}", electric.value);
    assert!(magnetic.value < 0.0, "{}", magnetic.value);
}

#[test]
fn sheet_clamps_a_position_past_the_far_wall() {
    let grid = source_grid();
    let source = Source::sheet(Axis::Y, 9.9, 4e-3, Axis::X, Waveform::ricker(M, 1e9));
    let injection = source.injections(M, &grid, 0.0)[0];
    assert_eq!(injection.origin[1], 39);
    assert!(matches!(source.shape, SourceShape::Sheet { .. }));
}

#[test]
fn a_source_knows_where_it_starts() {
    let waveform = Waveform::ricker(M, 1e9f32);
    let point = Source::point([1.0, 2.0, 3.0], Axis::Z, waveform);
    assert_eq!(point.position(), [1.0, 2.0, 3.0]);
    let sheet = Source::sheet(Axis::Y, 0.5, 0.1, Axis::Z, waveform);
    assert_eq!(sheet.position(), [0.0, 0.5, 0.0]);
    let wave = Source::plane_wave(Axis::Z, -0.5, Axis::X, waveform);
    assert_eq!(wave.position(), [0.0, 0.0, -0.5]);
}

#[test]
fn empty_scene_is_all_vacuum() {
    let scene = Scene::empty(M, Extent::cube(24), 1e-3);
    let indices = scene.material_indices(M);
    assert_eq!(indices.len(), 24 * 24 * 24);
    assert!(indices.iter().all(|&i| i == MaterialTable::<f32>::VACUUM));
    assert_eq!(scene.validate(M), Ok(()));
}

#[test]
fn shapes_rasterize_and_later_ones_win() {
    let mut scene = Scene::empty(M, Extent::cube(16), 1e-3);
    let glass = scene.materials.push(Material::refractive(1.5));
    let metal = scene.materials.push(Material::perfect_conductor(M));
    // A 16 mm box at 1 mm per cell: the domain runs from -8 mm to +8 mm.
    scene.shapes.push(Shape::Block {
        center: [0.0; 3],
        size: [8e-3; 3],
        material: glass,
    });
    scene.shapes.push(Shape::Sphere {
        center: [0.0; 3],
        radius: 2e-3,
        material: metal,
    });

    let indices = scene.material_indices(M);
    let at = |c: [usize; 3]| indices[scene.grid.extent.index(c)];
    assert_eq!(at([0, 0, 0]), MaterialTable::<f32>::VACUUM);
    assert_eq!(at([5, 5, 5]), glass);
    // Centre of the sphere, painted after the block.
    assert_eq!(at([8, 8, 8]), metal);
    // Inside the block but outside the sphere.
    assert_eq!(at([11, 11, 11]), glass);
}

#[test]
fn slab_shape_spans_one_axis_only() {
    let mut scene = Scene::empty(M, Extent::cube(12), 1e-3);
    let glass = scene.materials.push(Material::refractive(2.0));
    // 12 cells at 1 mm spans -6 mm to +6 mm; cells 3..6 are -2.5..-0.5 mm.
    scene.shapes.push(Shape::Slab {
        axis: Axis::Y,
        offset: -1.5e-3,
        thickness: 3e-3,
        material: glass,
    });
    let indices = scene.material_indices(M);
    let at = |c: [usize; 3]| indices[scene.grid.extent.index(c)];
    assert_eq!(at([0, 4, 11]), glass);
    assert_eq!(at([11, 4, 0]), glass);
    assert_eq!(at([5, 2, 5]), MaterialTable::<f32>::VACUUM);
    assert_eq!(at([5, 6, 5]), MaterialTable::<f32>::VACUUM);
}

#[test]
fn validation_rejects_an_unresolved_source() {
    let mut scene = Scene::photon(M, Extent::cube(48));
    // Ten times the frequency is half a wavelength per cell: nonsense.
    let frequency = scene.grid.frequency_for_resolution(M, 2.0);
    for source in scene.sources.iter_mut() {
        source.waveform = Waveform::ricker(M, frequency);
    }
    assert!(matches!(
        scene.validate(M),
        Err(SceneFault::Unresolved { .. })
    ));
}

#[test]
fn validation_rejects_a_dangling_material_reference() {
    let mut scene = Scene::empty(M, Extent::cube(24), 1e-3);
    scene.shapes.push(Shape::Block {
        center: [0.0; 3],
        size: [2e-3; 3],
        material: 7,
    });
    assert_eq!(
        scene.validate(M),
        Err(SceneFault::Dangling {
            material: 7,
            len: 1
        })
    );
}

#[test]
fn geometry_occupies_the_same_volume_at_any_resolution() {
    let mut scene = Scene::sized(M, [0.032; 3], 1000.0);
    let glass = scene.materials.push(Material::refractive(1.5));
    let metal = scene.materials.push(Material::perfect_conductor(M));
    scene.shapes.push(Shape::Sphere {
        center: [4e-3, -2e-3, 0.0],
        radius: 6e-3,
        material: glass,
    });
    scene.shapes.push(Shape::Block {
        center: [-8e-3, 0.0, 0.0],
        size: [4e-3, 8e-3, 8e-3],
        material: metal,
    });

    let fraction = |scene: &Scene, material: u32| {
        let indices = scene.material_indices(M);
        indices.iter().filter(|&&i| i == material).count() as f64 / indices.len() as f64
    };
    for material in [glass, metal] {
        let coarse = fraction(&scene, material);
        let fine = fraction(&scene.with_resolution(M, 2000.0).unwrap(), material);
        assert!(coarse > 0.001, "material {material} painted nothing");
        let difference = (fine - coarse).abs() / coarse;
        assert!(
            difference < 0.03,
            "material {material} occupies {coarse:.4} coarse vs {fine:.4} fine"
        );
    }
    assert_eq!(
        scene.with_resolution(M, 2000.0).unwrap().grid.extent,
        Extent::cube(64)
    );
}

#[test]
fn sources_keep_their_physical_position_across_resolutions() {
    let mut scene = Scene::sized(M, [0.032; 3], 1000.0);
    let frequency = scene.grid.frequency_for_resolution(M, 20.0);
    scene.sources.push(Source::point(
        [8e-3, -4e-3, 0.0],
        Axis::Z,
        Waveform::ricker(M, frequency),
    ));
    let fine = scene.with_resolution(M, 2000.0).unwrap();

    let coarse_cell = scene.sources[0].injections(M, &scene.grid, 0.0)[0].origin;
    let fine_cell = fine.sources[0].injections(M, &fine.grid, 0.0)[0].origin;
    for axis in 0..3 {
        let expected = 2 * coarse_cell[axis];
        assert!(
            fine_cell[axis].abs_diff(expected) <= 1,
            "axis {axis}: coarse cell {} became {}",
            coarse_cell[axis],
            fine_cell[axis]
        );
    }
}

#[test]
fn validation_catches_geometry_written_in_cells_by_mistake() {
    let mut scene = Scene::sized(M, [0.032; 3], 1000.0);
    let glass = scene.materials.push(Material::refractive(1.5));
    scene.shapes.push(Shape::Sphere {
        center: [20.0, 20.0, 20.0],
        radius: 5.0,
        material: glass,
    });
    assert_eq!(
        scene.validate(M),
        Err(SceneFault::ShapeOutside {
            center: [20.0, 20.0, 20.0]
        })
    );
}

#[test]
fn validation_catches_a_sphere_past_an_edge_of_the_domain() {
    let sphere = |center: [f32; 3], radius: f32| {
        let mut scene = Scene::sized(M, [0.032; 3], 1000.0);
        let material = scene.materials.push(Material::refractive(1.5));
        scene.shapes.push(Shape::Sphere {
            center,
            radius,
            material,
        });
        scene.validate(M)
    };
    // The nearest edge is 12.7 mm from the centre.
    let center = [0.025, 0.025, 0.0];
    assert_eq!(
        sphere(center, 0.010),
        Err(SceneFault::ShapeOutside { center })
    );
    assert_eq!(sphere(center, 0.013), Ok(()));
    // The nearest corner is 15.6 mm from the centre.
    let center = [-0.025, 0.025, -0.025];
    assert_eq!(
        sphere(center, 0.015),
        Err(SceneFault::ShapeOutside { center })
    );
    assert_eq!(sphere(center, 0.016), Ok(()));
    assert_eq!(sphere([0.0; 3], 0.001), Ok(()));
}

#[test]
fn validation_catches_a_source_outside_the_domain() {
    let mut scene = Scene::sized(M, [0.032; 3], 1000.0);
    let frequency = scene.grid.frequency_for_resolution(M, 20.0);
    scene.sources.push(Source::point(
        [20.0, 0.0, 0.0],
        Axis::Z,
        Waveform::ricker(M, frequency),
    ));
    assert_eq!(
        scene.validate(M),
        Err(SceneFault::SourceOutside {
            position: [20.0, 0.0, 0.0]
        })
    );
}

#[test]
fn validation_catches_an_absorber_that_does_not_fit() {
    // Two ten-cell layers meet in the middle of a nineteen-cell axis.
    let scene = Scene::empty(M, Extent::cube(19), 1e-3).with_boundary(Boundary::Absorbing {
        thickness: 10,
        target_reflection: 1e-6,
    });
    assert_eq!(
        scene.validate(M),
        Err(SceneFault::LayersMeet {
            thickness: 10,
            axis: Axis::X,
            cells: 19
        })
    );
}

#[test]
fn validation_catches_a_nonsense_target_reflection() {
    let scene = Scene::empty(M, Extent::cube(32), 1e-3).with_boundary(Boundary::Absorbing {
        thickness: 8,
        target_reflection: 0.0,
    });
    assert_eq!(
        scene.validate(M),
        Err(SceneFault::Reflection { target: 0.0 })
    );
}

#[test]
fn validation_catches_a_longitudinal_plane_wave() {
    let mut scene = Scene::sized(M, [0.032; 3], 1000.0);
    let frequency = scene.grid.frequency_for_resolution(M, 20.0);
    let wave = |polarization: Axis| {
        Source::plane_wave(Axis::X, 0.0, polarization, Waveform::ricker(M, frequency))
    };
    scene.sources.push(wave(Axis::Z));
    assert_eq!(scene.validate(M), Ok(()));
    assert!(scene.is_buildable());
    scene.sources.push(wave(Axis::X));
    assert_eq!(
        scene.validate(M),
        Err(SceneFault::Longitudinal { axis: Axis::X })
    );
    assert!(!scene.is_buildable());
}

#[test]
fn validation_catches_a_plane_wave_along_a_graded_axis() {
    let grid = |axis: Axis| {
        Grid::graded(
            M,
            [0.032; 3],
            1000.0,
            vec![Refinement::across(axis, 0.0, 8e-3, 0.5e-3)],
        )
        .unwrap()
    };
    let scene = |grid: Grid| {
        let frequency = 299_792_458.0 / 20e-3;
        Scene::on_grid(M, grid).with_source(Source::plane_wave(
            Axis::X,
            0.0,
            Axis::Z,
            Waveform::ricker(M, frequency),
        ))
    };
    assert_eq!(
        scene(grid(Axis::X)).validate(M),
        Err(SceneFault::GradedPlane { axis: Axis::X })
    );
    assert_eq!(scene(grid(Axis::Y)).validate(M), Ok(()));
}

#[test]
fn a_scene_that_cannot_be_built_says_so() {
    let scene = || Scene::empty(M, Extent::cube(24), 1e-3);
    assert!(scene().is_buildable());
    let thick = scene().with_boundary(Boundary::Absorbing {
        thickness: 12,
        target_reflection: 1e-6,
    });
    assert!(!thick.is_buildable());
    let mut dangling = scene();
    dangling = dangling.with_shape(Shape::Sphere {
        center: [0.0; 3],
        radius: 1e-3,
        material: 1,
    });
    assert!(!dangling.is_buildable());
    let mut empty = scene();
    empty.materials.materials.clear();
    assert!(!empty.is_buildable());
    let mut mismatched = scene();
    mismatched.grid.extent = Extent::new(24, 24, 23);
    assert!(!mismatched.is_buildable());
}

#[test]
fn recipes_and_resolutions_are_checked_before_they_are_built() {
    let spec = |cell_size: f32, max_ratio: f32, side: u32| GridSpec {
        extent: Extent::cube(side),
        cell_size,
        courant: 0.5,
        refinements: vec![],
        max_ratio,
    };
    assert!(spec(1e-3, 1.15, 2).is_sensible(M));
    assert!(!spec(0.0, 1.15, 2).is_sensible(M));
    assert!(!spec(f32::INFINITY, 1.15, 2).is_sensible(M));
    assert!(!spec(1e-3, 1.0, 2).is_sensible(M));
    assert!(!spec(1e-3, 1.15, 1).is_sensible(M));
    assert!(is_gradable(M, 1000.0f32, &vec![], 1.15));
    assert!(!is_gradable(M, 0.0f32, &vec![], 1.15));
    let impossible = vec![Refinement::across(Axis::X, 0.0, 1.0, 0.0f32)];
    assert!(!is_gradable(M, 1000.0, &impossible, 1.15));
    assert!(!Extent::new(u32::MAX, u32::MAX, u32::MAX).is_countable());
    assert!(Extent::new(640, 480, 3).is_countable());
}

#[test]
fn a_lookup_runs_from_wall_to_wall() {
    let grid = Grid::new(M, Extent::new(10, 20, 40), 1e-3);
    let table = grid.cell_lookup(M, 5);
    assert_eq!(table.len(), 15);
    for (sample, expected) in table.iter().zip([
        0.0f32, 2.5, 5.0, 7.5, 10.0, 0.0, 5.0, 10.0, 15.0, 20.0, 0.0, 10.0, 20.0, 30.0, 40.0,
    ]) {
        assert!((sample - expected).abs() < 1e-4, "{sample} vs {expected}");
    }
}

#[test]
fn validation_catches_a_broken_material_table() {
    let mut scene = Scene::empty(M, Extent::cube(24), 1e-3);
    scene.materials.materials[0] = Material::refractive(1.5);
    assert_eq!(scene.validate(M), Err(SceneFault::NotVacuum));
    scene.materials.materials.clear();
    assert_eq!(scene.validate(M), Err(SceneFault::NoMaterials));
}

#[test]
fn validation_passes_on_what_is_wrong_with_the_grid() {
    let mut scene = Scene::empty(M, Extent::cube(24), 1e-3);
    scene.grid.courant = 0.9;
    assert_eq!(
        scene.validate(M),
        Err(SceneFault::Grid {
            fault: GridFault::Unstable
        })
    );
}

#[test]
fn a_refinement_over_the_slow_material_makes_it_resolvable() {
    // Glass of index 4 in one-millimetre cells is not resolved at a frequency
    // that spans 20 of them in vacuum; quarter-millimetre cells over it are.
    let build = |grid: Grid| {
        let frequency = 299_792_458.0 / (20.0 * 1e-3);
        let mut scene = Scene::on_grid(M, grid);
        let glass = scene.materials.push(Material::refractive(4.0));
        scene.shapes.push(Shape::Block {
            center: [0.0; 3],
            size: [4e-3; 3],
            material: glass,
        });
        scene.with_source(Source::point(
            [-10e-3, 0.0, 0.0],
            Axis::Z,
            Waveform::ricker(M, frequency),
        ))
    };
    let coarse = build(Grid::for_size(M, [0.032; 3], 1000.0));
    assert!(matches!(
        coarse.validate(M),
        Err(SceneFault::Unresolved { .. })
    ));
    let fine = Grid::graded(
        M,
        [0.032; 3],
        1000.0,
        vec![Refinement {
            center: [0.0; 3],
            size: [6e-3; 3],
            cell_size: 0.25e-3,
        }],
    );
    assert_eq!(build(fine.unwrap()).validate(M), Ok(()));
}

#[test]
fn presets_are_valid_and_have_the_intended_boundaries() {
    let photon = Scene::photon(M, Extent::cube(64));
    assert_eq!(photon.validate(M), Ok(()));
    assert_ne!(photon.boundary, Boundary::Pec);

    let cavity = Scene::cavity(M, Extent::cube(64));
    assert_eq!(cavity.validate(M), Ok(()));
    assert_eq!(cavity.boundary, Boundary::Pec);

    let slab = Scene::slab(M, Extent::cube(64), 2.0);
    assert_eq!(slab.validate(M), Ok(()));
    assert!(slab.materials.peak_refractive_index(M) >= 2.0);
}

#[test]
fn a_wavelet_is_even_and_a_pulse_is_odd_about_its_delay() {
    let wavelet = Waveform::Ricker {
        peak_frequency: 1.0f32,
        delay: 2.0,
    };
    let pulse = Waveform::GaussianPulse {
        center_frequency: 1.0f32,
        duration_cycles: 4.0,
        delay: 8.0,
    };
    for by in [0.125f32, 0.25, 0.5, 1.0, 1.75] {
        assert_eq!(
            wavelet.evaluate(M, 2.0 + by),
            wavelet.evaluate(M, 2.0 - by)
        );
        assert_eq!(pulse.evaluate(M, 8.0 - by), -pulse.evaluate(M, 8.0 + by));
    }
    assert_eq!(wavelet.evaluate(M, 2.0), 1.0);
    assert_eq!(pulse.evaluate(M, 8.0), 0.0);
}

#[test]
fn every_waveform_stays_within_one_of_zero() {
    let steady = Waveform::ContinuousWave {
        frequency: 1.0f32,
        ramp_cycles: 2.0,
    };
    for i in 0..400 {
        let time = i as f32 * 0.0375;
        assert!(Waveform::ricker(M, 1.0).evaluate(M, time).abs() <= 1.0);
        assert!(Waveform::gaussian_pulse(M, 1.0, 3.0).evaluate(M, time).abs() <= 1.0);
        assert!(steady.evaluate(M, time).abs() <= 1.0);
        assert_eq!(steady.evaluate(M, -time), 0.0);
    }
}

#[test]
fn the_layer_reads_the_same_from_either_wall() {
    let profile = default_profile();
    for axis in 0..3 {
        let corners = &profile.integer[axis];
        let centres = &profile.half[axis];
        let n = corners.len();
        for i in 0..n {
            assert_eq!(corners[i], corners[n - 1 - i], "corner {i}");
            assert_eq!(corners[i] == 0.0, (10..=n - 11).contains(&i));
            assert!(corners[i] <= corners[0]);
        }
        for i in 0..n - 1 {
            assert_eq!(centres[i], centres[n - 2 - i], "centre {i}");
            assert_eq!(centres[i] == 0.0, (10..=n - 12).contains(&i));
            assert!(centres[i] <= corners[0]);
        }
        for i in 1..n / 2 {
            assert!(corners[i] <= corners[i - 1] && centres[i] <= centres[i - 1]);
        }
    }
    assert_eq!(profile.peak(), profile.integer[0][0]);
}

#[test]
fn a_table_holds_each_material_once() {
    let mut table: MaterialTable<f32> = MaterialTable::new();
    let pushed = [
        Material::refractive(1.5),
        Material::vacuum(),
        Material::refractive(2.0),
        Material::refractive(1.5),
        Material::perfect_conductor(M),
        Material::refractive(2.0),
    ];
    for material in pushed {
        let before = table.len();
        let held = (0..before).any(|i| table.get(i as u32) == material);
        let index = table.push(material);
        assert_eq!(table.get(index), material);
        assert_eq!(table.len(), if held { before } else { before + 1 });
        let holding = (0..table.len())
            .filter(|&i| table.get(i as u32) == material)
            .count();
        assert_eq!(holding, 1);
    }
    assert_eq!(table.len(), 4);
    assert_eq!(table.get(MaterialTable::<f32>::VACUUM), Material::vacuum());
}

#[test]
fn a_domain_keeps_its_size_to_half_a_cell() {
    let grid = Grid::for_size(M, [0.0403, 0.0617, 0.08], 1000.0);
    for resolution in [300.0f32, 777.0, 1500.0, 2100.0] {
        let again = grid.with_resolution(M, resolution).unwrap();
        for axis in 0..3 {
            let moved = (again.size(M)[axis] - grid.size(M)[axis]).abs();
            assert!(moved <= 0.501 / resolution, "{moved} at {resolution}");
        }
    }
}

#[test]
fn graded_cells_add_up_to_the_axis() {
    let band = Refinement::across(Axis::X, 0.004, 0.008, 0.25e-3f32);
    let grid = Grid::graded(M, [0.04, 0.02, 0.02], 1000.0, vec![band]).unwrap();
    let widths = grid.spacing(Axis::X).primary();
    let total: f64 = widths.iter().map(|&w| w as f64).sum();
    assert!((total - 0.04).abs() < 1e-7, "{total}");
    for pair in widths.windows(2) {
        assert!(pair[0] <= 1.15001 * pair[1] && pair[1] <= 1.15001 * pair[0]);
    }
    for i in 0..widths.len() {
        assert_eq!(
            grid.cell_containing(M, grid.cell_center(M, [i, 3, 7])),
            [i, 3, 7]
        );
    }
}
