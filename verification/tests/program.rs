//! The command lines, the camera, the controls, and what the shader is told.

use diaphane::camera::Camera;
use diaphane::common::{Common, SceneSource};
use diaphane::control::{capture_bytes, surface_size, Action, Control, Key};
use diaphane::gauge::{Domain, Gauge, GaugedParams};
use diaphane::numerics::{Elementary, Functions, Numerics};
use diaphane::options::{Reason, SceneKind};
use diaphane::panel::{keyframe_capacity, mode_of_digit, Commands, Orders, Sample};
use diaphane::text::{frame_name, read_whole};
use diaphane::view::{
    capture_bar, reference_path, update_scale, Exposed, ScrubBar, ViewParams, ViewSettings,
};
use diaphane::{offscreen, options, viewer, Boundary, Extent, Snapshot, Timeline, ViewMode};

/// IEEE arithmetic, with the elementary functions of the standard library.
#[derive(Clone, Copy, Debug)]
struct Ieee;

const M: &Ieee = &Ieee;

impl Elementary<f32> for Ieee {
    fn functions(&self) -> Functions<f32> {
        unreachable!()
    }
    fn exp(&self, x: f32) -> f32 {
        x.exp()
    }
    fn sin(&self, x: f32) -> f32 {
        x.sin()
    }
    fn cos(&self, x: f32) -> f32 {
        x.cos()
    }
    fn tan(&self, x: f32) -> f32 {
        x.tan()
    }
    fn asin(&self, x: f32) -> f32 {
        x.asin()
    }
    fn ln(&self, x: f32) -> f32 {
        x.ln()
    }
    fn sqrt(&self, x: f32) -> f32 {
        x.sqrt()
    }
    fn pow(&self, x: f32, y: f32) -> f32 {
        x.powf(y)
    }
    fn count(&self, n: u64) -> f32 {
        n as f32
    }
    fn decimal(&self, digits: u64, places: u8) -> f32 {
        format!("{digits}e-{places}").parse().unwrap()
    }
    fn infinity(&self) -> f32 {
        f32::INFINITY
    }
    fn is_finite(&self, x: f32) -> bool {
        x.is_finite()
    }
    fn is_infinite(&self, x: f32) -> bool {
        x.is_infinite()
    }
    fn floor(&self, x: f32) -> usize {
        x.floor().max(0.0) as usize
    }
    fn ceiling(&self, x: f32) -> usize {
        x.ceil() as usize
    }
    fn nearest(&self, x: f32) -> u64 {
        x.round() as u64
    }
    fn read(&self, text: &str) -> Option<f32> {
        text.parse().ok()
    }
}

impl Elementary<f64> for Ieee {
    fn functions(&self) -> Functions<f64> {
        unreachable!()
    }
    fn exp(&self, x: f64) -> f64 {
        x.exp()
    }
    fn sin(&self, x: f64) -> f64 {
        x.sin()
    }
    fn cos(&self, x: f64) -> f64 {
        x.cos()
    }
    fn tan(&self, x: f64) -> f64 {
        x.tan()
    }
    fn asin(&self, x: f64) -> f64 {
        x.asin()
    }
    fn ln(&self, x: f64) -> f64 {
        x.ln()
    }
    fn sqrt(&self, x: f64) -> f64 {
        x.sqrt()
    }
    fn pow(&self, x: f64, y: f64) -> f64 {
        x.powf(y)
    }
    fn count(&self, n: u64) -> f64 {
        n as f64
    }
    fn decimal(&self, digits: u64, places: u8) -> f64 {
        format!("{digits}e-{places}").parse().unwrap()
    }
    fn infinity(&self) -> f64 {
        f64::INFINITY
    }
    fn is_finite(&self, x: f64) -> bool {
        x.is_finite()
    }
    fn is_infinite(&self, x: f64) -> bool {
        x.is_infinite()
    }
    fn floor(&self, x: f64) -> usize {
        x.floor().max(0.0) as usize
    }
    fn ceiling(&self, x: f64) -> usize {
        x.ceil() as usize
    }
    fn nearest(&self, x: f64) -> u64 {
        x.round() as u64
    }
    fn read(&self, text: &str) -> Option<f64> {
        text.parse().ok()
    }
}

impl Numerics<f32, f64> for Ieee {
    fn wide(&self, x: f32) -> f64 {
        f64::from(x)
    }
    fn narrowed(&self, x: f64) -> f32 {
        x as f32
    }
    fn word_of(&self, x: f32) -> u32 {
        x.to_bits()
    }
    fn widen(&self, x: f32) -> f64 {
        f64::from(x)
    }
    fn narrow(&self, x: f64) -> f32 {
        x as f32
    }
    fn word(&self, x: f32) -> u32 {
        x.to_bits()
    }
}

type Scene = diaphane::Scene<f32, f64>;
type Grid = diaphane::Grid<f32, f64>;

fn words(items: &[&str]) -> Vec<String> {
    items.iter().map(|item| item.to_string()).collect()
}

fn viz(items: &[&str]) -> options::Parsed<f32> {
    options::Options::parse(M, &words(items))
}

fn refusal(items: &[&str]) -> String {
    match viz(items) {
        options::Parsed::Refused { complaint } => complaint.message(),
        other => panic!("{items:?} gave {other:?}"),
    }
}

#[test]
fn no_arguments_means_the_defaults() {
    let options::Parsed::Run { options } = viz(&[]) else {
        panic!("refused nothing")
    };
    assert_eq!(options.scene, SceneKind::Photon);
    assert_eq!(options.extent, 96);
    assert_eq!(options.steps_per_frame, 8);
    assert_eq!(options.warmup, 0);
    assert_eq!(options.frames, None);
    assert_eq!(options.output_dir, "frames");
    assert_eq!((options.width, options.height), (720, 540));
    assert_eq!(options.settings.mode, ViewMode::Energy);
    assert_eq!(options.settings.gain, 1.0);
    assert_eq!(options.settings.log_strength, 6.0);
}

#[test]
fn every_flag_is_read() {
    let options::Parsed::Run { options } = viz(&[
        "--scene",
        "slab",
        "--extent",
        "48",
        "--steps",
        "+3",
        "--warmup",
        "12",
        "--mode",
        "magnetic",
        "--gain",
        "2.5",
        "--log",
        "0",
        "--frames",
        "7",
        "--output-dir",
        "out",
        "--size",
        "64x32",
    ]) else {
        panic!("refused good flags")
    };
    assert_eq!(options.scene, SceneKind::Slab);
    assert_eq!(options.extent, 48);
    assert_eq!(options.steps_per_frame, 3);
    assert_eq!(options.warmup, 12);
    assert_eq!(options.frames, Some(7));
    assert_eq!(options.output_dir, "out");
    assert_eq!((options.width, options.height), (64, 32));
    assert_eq!(options.settings.mode, ViewMode::Magnetic);
    assert_eq!(options.settings.gain, 2.5);
    assert_eq!(options.settings.log_strength, 0.0);
}

#[test]
fn the_last_of_two_flags_wins() {
    let options::Parsed::Run { options } = viz(&["--extent", "20", "--extent", "30"]) else {
        panic!("refused good flags")
    };
    assert_eq!(options.extent, 30);
}

#[test]
fn help_is_asked_for_either_way() {
    assert!(matches!(viz(&["-h"]), options::Parsed::Help));
    assert!(matches!(
        viz(&["--extent", "20", "--help", "--nonsense"]),
        options::Parsed::Help
    ));
    assert!(options::HELP.contains("--output-dir <PATH>"));
    assert!(offscreen::help().contains("--save-scene <PATH>"));
    assert!(offscreen::help().contains("--resolution <CELLS/M>"));
    assert!(viewer::help().contains("--exit-after <FRAMES>"));
    assert!(viewer::help().contains("home           scrub to the start"));
}

#[test]
fn every_refusal_says_what_was_wrong() {
    assert_eq!(refusal(&["--extent"]), "--extent needs a value");
    assert_eq!(refusal(&["--scene", "a\"b"]), "unknown scene \"a\\\"b\"");
    assert_eq!(refusal(&["--mode", "x\ty"]), "unknown mode \"x\\ty\"");
    assert_eq!(
        refusal(&["--extent", "-4"]),
        "--extent could not read \"-4\""
    );
    assert_eq!(
        refusal(&["--steps", "4294967296"]),
        "--steps could not read \"4294967296\""
    );
    assert_eq!(refusal(&["--gain", "loud"]), "--gain could not read \"loud\"");
    assert_eq!(refusal(&["--size", "64"]), "--size wants WxH, got \"64\"");
    assert_eq!(
        refusal(&["--verbose"]),
        "unknown flag \"--verbose\"; try --help"
    );
}

#[test]
fn an_unreadable_size_is_refused() {
    let options::Parsed::Refused { complaint } = viz(&["--size", "64xtall"]) else {
        panic!("accepted a size without a height")
    };
    assert_eq!(complaint.reason, Reason::Unreadable);
    assert_eq!(complaint.flag, "--size");
}

#[test]
fn the_renderer_reads_its_own_flags() {
    let offscreen::Parsed::Run { options } = offscreen::parse::<f32, Ieee>(
        M,
        &words(&[
            "--frames",
            "4",
            "--save-scene",
            "a.ron",
            "--timeline",
            "--scene",
            "scenes/a.ron",
            "--resolution",
            "2e3",
            "--size",
            "10X20",
        ]),
    ) else {
        panic!("refused good flags")
    };
    assert_eq!(options.frames, 4);
    assert_eq!(options.output_dir, "frames");
    assert_eq!(options.save_scene.as_deref(), Some("a.ron"));
    assert!(options.timeline);
    assert!(matches!(
        &options.common.scene,
        SceneSource::File { path } if path == "scenes/a.ron"
    ));
    assert_eq!(options.common.scene.describe(), "scenes/a.ron");
    assert_eq!(options.common.resolution, Some(2000.0));
    assert_eq!((options.common.width, options.common.height), (10, 20));
}

#[test]
fn the_renderer_refuses_what_it_does_not_know() {
    let message = |items: &[&str]| match offscreen::parse::<f32, Ieee>(M, &words(items)) {
        offscreen::Parsed::Refused { complaint } => complaint.message(),
        other => panic!("{items:?} gave {other:?}"),
    };
    assert_eq!(
        message(&["--exit-after", "3"]),
        "unknown flag \"--exit-after\"; try --help"
    );
    assert_eq!(message(&["--frames", "x"]), "--frames could not read \"x\"");
    assert_eq!(message(&["--save-scene"]), "--save-scene needs a value");
    assert_eq!(message(&["--size", "7"]), "--size wants WxH, got \"7\"");
    assert!(matches!(
        offscreen::parse::<f32, Ieee>(M, &words(&["--help"])),
        offscreen::Parsed::Help
    ));
}

#[test]
fn the_viewer_reads_its_own_flags() {
    let viewer::Parsed::Run { options } = viewer::parse::<f32, Ieee>(
        M,
        &words(&["--exit-after", "90", "--scene", "cavity", "--mode", "electric"]),
    ) else {
        panic!("refused good flags")
    };
    assert_eq!(options.exit_after, Some(90));
    assert!(matches!(options.common.scene, SceneSource::Cavity));
    assert_eq!(
        options.common.scene.describe(),
        "a dipole ringing a closed conducting box"
    );
    assert_eq!(options.common.settings.mode, ViewMode::Electric);
    assert!(matches!(
        viewer::parse::<f32, Ieee>(M, &words(&["--frames", "2"])),
        viewer::Parsed::Refused { .. }
    ));
    assert!(matches!(
        viewer::parse::<f32, Ieee>(M, &words(&["-h"])),
        viewer::Parsed::Help
    ));
}

#[test]
fn numbers_are_whole_and_bounded() {
    assert_eq!(read_whole("0042", 100), Some(42));
    assert_eq!(read_whole("+7", 100), Some(7));
    assert_eq!(read_whole("101", 100), None);
    assert_eq!(read_whole("", 100), None);
    assert_eq!(read_whole("+", 100), None);
    assert_eq!(read_whole("1 ", 100), None);
    assert_eq!(read_whole("18446744073709551615", u64::MAX), Some(u64::MAX));
    assert_eq!(read_whole("18446744073709551616", u64::MAX), None);
}

#[test]
fn frames_are_numbered_in_four_digits() {
    assert_eq!(frame_name(0), "frame0000.png");
    assert_eq!(frame_name(37), "frame0037.png");
    assert_eq!(frame_name(123_456), "frame123456.png");
}

#[test]
fn scenes_are_known_by_name() {
    assert_eq!(SceneKind::parse("photon"), Some(SceneKind::Photon));
    assert_eq!(SceneKind::parse("Photon"), None);
    assert_eq!(
        SceneKind::Slab.describe(),
        "a wave packet meeting a dielectric slab"
    );
    let scene: Scene = SceneKind::Cavity.build(M, Extent::cube(32));
    assert_eq!(scene.boundary, Boundary::Pec);
}

#[test]
fn modes_are_labelled_numbered_and_named() {
    let labels: Vec<&str> = ViewMode::ALL.iter().map(|mode| mode.label()).collect();
    assert_eq!(labels, ["energy split", "Ez", "Hz", "total energy"]);
    let codes: Vec<u8> = ViewMode::ALL.iter().map(|mode| mode.code()).collect();
    assert_eq!(codes, [0, 1, 2, 3]);
    assert!(ViewMode::Electric.is_signed() && ViewMode::Magnetic.is_signed());
    assert!(!ViewMode::Energy.is_signed() && !ViewMode::Magnitude.is_signed());
    assert_eq!(ViewMode::parse("magnitude"), Some(ViewMode::Magnitude));
    assert_eq!(ViewMode::parse("total"), None);
    assert_eq!(ViewMode::default(), ViewMode::Energy);
}

#[test]
fn exposure_follows_what_the_mode_shows() {
    let mut settings: ViewSettings<f32> = ViewSettings::new();
    settings.gain = 3.0;
    assert_eq!(settings.exposure(M, 2.0, f32::MIN_POSITIVE), 1.5);
    settings.mode = ViewMode::Magnetic;
    assert_eq!(settings.exposure(M, 2.0, f32::MIN_POSITIVE), 1.5);
    assert_eq!(settings.exposure(M, 8.0, f32::MIN_POSITIVE), 0.75);
    settings.mode = ViewMode::Magnitude;
    assert_eq!(
        settings.exposure(M, 0.0, f32::MIN_POSITIVE),
        3.0 / f32::MIN_POSITIVE
    );
}

#[test]
fn the_scale_rises_fast_and_falls_slowly() {
    assert_eq!(update_scale(M, 0.0f32, 5.0), 5.0);
    assert_eq!(update_scale(M, 1.0f32, 2.0), 1.4);
    assert_eq!(update_scale(M, 1.0f32, 0.5), 0.99);
    assert_eq!(update_scale(M, 1.0f32, f32::NAN), 1.0);
    assert_eq!(update_scale(M, 1.0f32, f32::INFINITY), 1.0);
    assert_eq!(update_scale(M, 1.0f32, -2.0), 1.0);
}

#[test]
fn brightness_saturates_over_a_third_of_the_domain() {
    let path: f32 = reference_path(M, Extent::new(30, 96, 12));
    assert_eq!(path, 32.0);
    let path: f32 = reference_path(M, Extent::new(2, 2, 2));
    assert_eq!(path, 1.0);
}

#[test]
fn looks_at_the_centre_of_the_domain() {
    let basis = Camera::new(M).basis(M, [40.0, 60.0, 80.0], 1.0);
    // Walking forward from the camera by the orbit distance must land on
    // the domain centre.
    let radius = 80.0 * 1.9;
    let landing: Vec<f32> = (0..3)
        .map(|a| basis.position[a] + basis.forward[a] * radius)
        .collect();
    for (axis, &expected) in [20.0, 30.0, 40.0].iter().enumerate() {
        assert!(
            (landing[axis] - expected).abs() < 1e-3,
            "axis {axis}: {} vs {expected}",
            landing[axis]
        );
    }
}

#[test]
fn the_basis_stays_orthogonal_while_orbiting() {
    let mut camera: Camera<f32> = Camera::new(M);
    for _ in 0..40 {
        camera.orbit(M, 0.3, 0.2);
        let basis = camera.basis(M, [32.0; 3], 1.6);
        let dot = |a: [f32; 3], b: [f32; 3]| a[0] * b[0] + a[1] * b[1] + a[2] * b[2];
        assert!(dot(basis.right, basis.forward).abs() < 1e-4);
        assert!(dot(basis.up, basis.forward).abs() < 1e-4);
        assert!(dot(basis.right, basis.up).abs() < 1e-4);
    }
}

#[test]
fn pitch_never_reaches_the_pole() {
    let mut camera: Camera<f32> = Camera::new(M);
    for _ in 0..50 {
        camera.orbit(M, 0.0, 1.0);
    }
    assert!(camera.pitch < 0.5 * std::f32::consts::PI);
    for _ in 0..100 {
        camera.orbit(M, 0.0, -1.0);
    }
    assert!(camera.pitch > -0.5 * std::f32::consts::PI);
}

#[test]
fn zoom_is_bounded() {
    let mut camera: Camera<f32> = Camera::new(M);
    for _ in 0..100 {
        camera.zoom(M, 0.5);
    }
    assert!(camera.distance >= 0.6);
    for _ in 0..100 {
        camera.zoom(M, 2.0);
    }
    assert!(camera.distance <= 8.0);
}

#[test]
fn dragging_and_scrolling_move_the_camera() {
    let mut camera: Camera<f32> = Camera::new(M);
    camera.drag(M, 100.0, 50.0);
    assert!((camera.yaw - 0.3).abs() < 1e-6, "{}", camera.yaw);
    assert!((camera.pitch - 0.75).abs() < 1e-6, "{}", camera.pitch);
    camera.scroll(M, 1.0);
    assert!((camera.distance - 1.9 * (-0.1f32).exp()).abs() < 1e-6);
}

#[test]
fn the_shader_is_told_what_the_camera_sees() {
    let camera: Camera<f32> = Camera::new(M);
    let settings: ViewSettings<f32> = ViewSettings::new();
    let image = Exposed {
        width: 720,
        height: 540,
        scale: 4.0,
        smallest: f32::MIN_POSITIVE,
        march: 1.0,
        scrub: None,
    };
    let extent = Extent::new(40, 60, 80);
    let params = ViewParams::new(M, extent, &camera, &settings, &image);
    assert_eq!(params.extent, [40, 60, 80, 192_000]);
    let basis = camera.basis(M, [40.0, 60.0, 80.0], 720.0 / 540.0);
    assert_eq!(params.origin[..3], basis.position);
    assert_eq!(params.origin[3], 1.0);
    assert_eq!(params.right[..3], basis.right);
    assert_eq!(params.right[3], 0.25);
    assert_eq!(params.up[..3], basis.up);
    assert_eq!(params.up[3], 6.0);
    assert_eq!(params.forward[..3], basis.forward);
    assert_eq!(params.forward[3], 0.0);
    assert_eq!(params.tone, [1.0 / (80.0 / 3.0), 0.0, 0.0, 0.0]);
    let image = Exposed {
        scrub: Some(ScrubBar {
            played: 0.5,
            window_start: 0.25,
        }),
        ..image
    };
    let params = ViewParams::new(M, extent, &camera, &settings, &image);
    assert_eq!(params.tone[1..], [0.5, 0.25, 0.045]);
}

fn held(steps: &[u64]) -> Timeline<f32> {
    let mut timeline = Timeline::new(200, 16);
    for &step in steps {
        timeline.keyframes.push_back(Snapshot {
            step,
            electric: vec![],
            magnetic: vec![],
        });
    }
    timeline
}

fn empty() -> Timeline<f32> {
    held(&[])
}

fn controls() -> Control<f32, f64> {
    Control::new(8, ViewSettings::new(), None)
}

#[test]
fn keys_do_what_the_help_says() {
    let mut control = controls();
    control.reached(1000);
    assert_eq!(control.on_key(M, Key::Escape, &empty(), 1000), Action::Quit);
    assert_eq!(control.on_key(M, Key::Space, &empty(), 1000), Action::Nothing);
    assert!(!control.running);
    assert_eq!(control.steps(), 0);
    control.on_key(M, Key::Space, &empty(), 1000);
    assert_eq!(control.steps(), 8);
    control.on_key(M, Key::Right, &empty(), 1000);
    assert_eq!(control.steps_per_frame, 9);
    control.on_key(M, Key::Left, &empty(), 1000);
    control.on_key(M, Key::Left, &empty(), 1000);
    assert_eq!(control.steps_per_frame, 7);
    control.on_key(M, Key::Logarithm, &empty(), 1000);
    assert_eq!(control.settings.log_strength, 0.0);
    control.on_key(M, Key::Logarithm, &empty(), 1000);
    assert_eq!(control.settings.log_strength, 40.0);
    control.on_key(M, Key::Equal, &empty(), 1000);
    assert_eq!(control.settings.gain, 1.3);
    control.on_key(M, Key::Minus, &empty(), 1000);
    assert_eq!(control.settings.gain, 1.0);
    control.on_key(
        M,
        Key::Mode {
            mode: ViewMode::Magnitude,
        },
        &empty(),
        1000,
    );
    assert_eq!(control.settings.mode, ViewMode::Magnitude);
    assert_eq!(control.on_key(M, Key::Reset, &empty(), 1000), Action::Reset);
    assert_eq!(control.furthest, 0);
}

#[test]
fn brightness_and_steps_are_bounded() {
    let mut control = controls();
    for _ in 0..100 {
        control.on_key(M, Key::Minus, &empty(), 0);
        control.on_key(M, Key::Left, &empty(), 0);
    }
    assert_eq!(control.settings.gain, 1e-3);
    assert_eq!(control.steps_per_frame, 1);
    for _ in 0..200 {
        control.on_key(M, Key::Equal, &empty(), 0);
    }
    assert_eq!(control.settings.gain, 1e4);
    control.steps_per_frame = 4096;
    control.on_key(M, Key::Right, &empty(), 0);
    assert_eq!(control.steps_per_frame, 4096);
}

#[test]
fn brackets_and_home_scrub_within_the_run() {
    let timeline = held(&[0, 200, 400]);
    let mut control = controls();
    control.reached(500);
    let mut press = |key: Key, current: u64| control.on_key(M, key, &timeline, current);
    assert_eq!(press(Key::BracketLeft, 150), Action::Seek { target: 0 });
    assert_eq!(press(Key::BracketLeft, 450), Action::Seek { target: 250 });
    assert_eq!(press(Key::BracketRight, 150), Action::Seek { target: 350 });
    assert_eq!(press(Key::BracketRight, 450), Action::Seek { target: 500 });
    assert_eq!(press(Key::Home, 450), Action::Seek { target: 0 });
    assert_eq!(press(Key::Home, 0), Action::Nothing);
    assert!(!control.running, "scrubbing pauses");
}

#[test]
fn a_nudge_never_costs_more_than_an_interval() {
    let steps: Vec<u64> = (5..=20).map(|k| 200 * k).collect();
    let timeline = held(&steps);
    let mut control = controls();
    control.reached(4100);
    // The window begins at 1000, and before it everything replays from the start.
    assert_eq!(
        control.nudge(&timeline, 1000, false),
        Action::Seek { target: 1000 }
    );
    assert_eq!(
        control.nudge(&timeline, 1150, false),
        Action::Seek { target: 1000 }
    );
    assert_eq!(
        control.nudge(&timeline, 1250, false),
        Action::Seek { target: 1050 }
    );
    assert_eq!(
        control.nudge(&timeline, 700, false),
        Action::Seek { target: 700 }
    );
    assert_eq!(
        control.nudge(&timeline, 300, false),
        Action::Seek { target: 100 }
    );
    assert_eq!(
        control.nudge(&timeline, 4000, true),
        Action::Seek { target: 4100 }
    );
    // A gap in what is held is not jumped into.
    let gappy = held(&[200, 1000, 800]);
    assert_eq!(
        control.nudge(&gappy, 900, false),
        Action::Seek { target: 800 }
    );
    assert_eq!(control.furthest, 4100);
}

#[test]
fn a_captured_frame_shows_how_far_the_capture_is() {
    let bar: ScrubBar<f32> = capture_bar(M, 2, 4);
    assert_eq!(bar.played, 0.75);
    assert_eq!(bar.window_start, 0.35);
}

#[test]
fn a_press_on_the_bar_scrubs_and_keeps_scrubbing() {
    let mut control = controls();
    control.reached(1000);
    assert_eq!(
        control.on_move(M, 1000, (10.0, 20.0), 0.1),
        Action::Nothing
    );
    assert_eq!(
        control.on_press(M, 1000, Some(0.25)),
        Action::Seek { target: 250 }
    );
    // Off the bar by now, and still a scrub.
    assert_eq!(
        control.on_move(M, 250, (50.0, 400.0), 0.5),
        Action::Seek { target: 500 }
    );
    assert_eq!(
        control.on_move(M, 500, (90.0, 400.0), 7.5),
        Action::Seek { target: 1000 }
    );
    control.on_release();
    assert_eq!(control.on_move(M, 1000, (95.0, 400.0), 0.2), Action::Nothing);
}

#[test]
fn a_press_off_the_bar_turns_the_camera() {
    let mut control = controls();
    control.on_move(M, 0, (10.0, 20.0), 0.1);
    assert_eq!(control.on_press(M, 0, None), Action::Nothing);
    assert_eq!(
        control.on_move(M, 0, (16.0, 18.0), 0.2),
        Action::Orbit {
            right: 6.0,
            down: -2.0
        }
    );
}

#[test]
fn the_scrub_bar_shows_the_run_and_the_window() {
    let mut control = controls();
    control.reached(800);
    assert_eq!(
        control.scrub_bar(M, 200, Some(400)),
        ScrubBar {
            played: 0.25,
            window_start: 0.5
        }
    );
    assert_eq!(
        controls().scrub_bar(M, 0, None),
        ScrubBar {
            played: 0.0,
            window_start: 0.0
        }
    );
}

#[test]
fn the_bar_lies_along_the_bottom() {
    assert!(ScrubBar::contains(M, 990.0f32, 1000));
    assert!(!ScrubBar::contains(M, 900.0f32, 1000));
    assert_eq!(ScrubBar::fraction_at(M, 160.0f32, 640), 0.25);
    assert_eq!(ScrubBar::fraction_at(M, 3.0f32, 0), 3.0);
}

#[test]
fn presenting_counts_frames_and_smooths_the_rate() {
    let mut control: Control<f32, f64> = Control::new(8, ViewSettings::new(), Some(2));
    control.present(M, 8, 0.5);
    assert!((control.steps_per_second - 1.6).abs() < 1e-6);
    assert!(!control.is_done());
    control.present(M, 8, 0.5);
    assert!(control.is_done());
    assert!(!controls().is_done());
}

#[test]
fn surfaces_are_never_empty() {
    assert_eq!(surface_size(0, 7), (1, 7));
    assert_eq!(surface_size(640, 0), (640, 1));
    assert_eq!(capture_bytes(720, 540), 720 * 540 * 4);
}

fn text(value: &str) -> String {
    value.to_string()
}

#[test]
fn accepts_the_shared_flags() {
    let mut common: Common<f32> = Common::initial();
    assert_eq!(common.settings.mode, ViewMode::Fields);
    for (flag, value) in [
        ("--mode", "electric"),
        ("--gain", "2.5"),
        ("--size", "1600x900"),
        ("--extent", "48"),
    ] {
        assert!(common.accept(M, flag, Some(&text(value))).unwrap());
    }
    assert_eq!(common.settings.mode, ViewMode::Electric);
    assert_eq!(common.settings.gain, 2.5);
    assert_eq!((common.width, common.height), (1600, 900));
    assert_eq!(common.extent, 48);
    for (name, mode) in [
        ("fields", ViewMode::Fields),
        ("energy", ViewMode::Energy),
        ("magnetic", ViewMode::Magnetic),
        ("magnitude", ViewMode::Magnitude),
        ("grid", ViewMode::Grid),
    ] {
        assert!(common.accept(M, "--mode", Some(&text(name))).unwrap());
        assert_eq!(common.settings.mode, mode);
    }
}

#[test]
fn declines_flags_it_does_not_own() {
    let mut common: Common<f32> = Common::initial();
    assert!(!common.accept(M, "--frames", Some(&text("7"))).unwrap());
}

#[test]
fn reports_a_missing_or_unreadable_value() {
    let mut common: Common<f32> = Common::initial();
    common.accept(M, "--extent", Some(&text("48"))).unwrap();
    assert!(common.accept(M, "--extent", None).is_err());
    assert!(common.accept(M, "--extent", Some(&text("wide"))).is_err());
    assert!(common.accept(M, "--size", Some(&text("1600"))).is_err());
    assert!(common.accept(M, "--size", Some(&text("1600xhigh"))).is_err());
    assert!(common.accept(M, "--mode", Some(&text("sideways"))).is_err());
    assert!(common.accept(M, "--mode", Some(&text("ribbons"))).is_err());
    // A refusal leaves everything as it was.
    assert_eq!(common.extent, 48);
    assert_eq!((common.width, common.height), (720, 540));
    assert_eq!(common.settings.mode, ViewMode::Fields);
}

#[test]
fn a_scene_argument_is_a_preset_name_or_a_path() {
    assert!(matches!(SceneSource::parse("cavity"), SceneSource::Cavity));
    assert!(matches!(
        SceneSource::parse("scenes/double-slit.ron"),
        SceneSource::File { path } if path == "scenes/double-slit.ron"
    ));
}

#[test]
fn every_mode_has_a_place_on_the_panel() {
    let captions: Vec<&str> = ViewMode::PANEL.iter().map(|mode| mode.caption()).collect();
    assert_eq!(
        captions,
        [
            "E and H",
            "energy split",
            "signed E",
            "signed H",
            "total energy",
            "the grid",
            "E and H as ribbons",
            "time-averaged intensity",
        ]
    );
    let codes: Vec<u8> = ViewMode::PANEL.iter().map(|mode| mode.code()).collect();
    assert_eq!(codes, [4, 0, 1, 2, 3, 5, 6, 7]);
    assert!(ViewMode::Ribbons.is_signed() && ViewMode::Fields.is_signed());
    assert!(!ViewMode::Grid.is_signed() && !ViewMode::Intensity.is_signed());
    assert_eq!(mode_of_digit(1), Some(ViewMode::Fields));
    assert_eq!(mode_of_digit(7), Some(ViewMode::Ribbons));
    assert_eq!(mode_of_digit(8), None);
    assert_eq!(mode_of_digit(0), None);
}

#[test]
fn compression_comes_back_at_the_strength_it_had() {
    let mut settings: ViewSettings<f32> = ViewSettings::new();
    settings.log_strength = 9.0;
    settings.toggle_log();
    assert_eq!(settings.log_strength, 0.0);
    settings.toggle_log();
    assert_eq!(settings.log_strength, 9.0);
    // Off from the start, it comes back at the usual strength.
    let mut settings: ViewSettings<f32> = ViewSettings::new();
    settings.log_strength = 0.0;
    settings.toggle_log();
    assert_eq!(settings.log_strength, 6.0);
}

#[test]
fn brightness_recovers_from_what_is_not_a_number() {
    let timeline = empty();
    for (key, expected) in [(Key::Minus, 1e-3), (Key::Equal, 1e4)] {
        let mut control = controls();
        control.settings.gain = f32::NAN;
        control.on_key(M, key, &timeline, 0);
        assert_eq!(control.settings.gain, expected);
    }
}

#[test]
fn the_keyframe_window_keeps_to_its_budget() {
    assert_eq!(keyframe_capacity(0), 32);
    assert_eq!(keyframe_capacity(1), 32);
    assert_eq!(keyframe_capacity(96 * 96 * 96), 4);
    assert_eq!(keyframe_capacity(256 * 256 * 256), 1);
    assert_eq!(keyframe_capacity(64 * 64 * 64), 16);
}

#[test]
fn no_steps_per_frame_opens_the_window_paused() {
    let paused: Control<f32, f64> = Control::with_panel(0, ViewSettings::new(), None);
    assert!(!paused.running);
    assert_eq!((paused.steps_per_frame, paused.steps()), (1, 0));
    let running: Control<f32, f64> = Control::with_panel(5, ViewSettings::new(), None);
    assert!(running.running);
    assert_eq!(running.steps(), 5);
}

#[test]
fn keys_beside_the_panel_reset_and_pause() {
    let timeline = empty();
    let mut control = controls();
    control.furthest = 700;
    assert_eq!(
        control.on_shadow_key(M, Key::Reset, &timeline, 300),
        Action::Reset
    );
    assert!(!control.running);
    assert_eq!(control.furthest, 0);
    control.on_shadow_key(M, Key::Logarithm, &timeline, 0);
    assert_eq!(control.settings.log_strength, 0.0);
    control.on_shadow_key(M, Key::Logarithm, &timeline, 0);
    assert_eq!(control.settings.log_strength, 6.0);
    control.on_shadow_key(M, Key::Space, &timeline, 0);
    assert!(control.running);
    control.on_grab(true);
    control.on_move(M, 0, (1.0, 1.0), 0.5);
    assert_eq!(
        control.on_move(M, 0, (3.0, 0.5), 0.5),
        Action::Orbit {
            right: 2.0,
            down: -0.5
        }
    );
    control.on_grab(false);
    assert_eq!(control.on_move(M, 0, (9.0, 9.0), 0.5), Action::Nothing);
}

#[test]
fn the_panel_asks_and_the_window_decides() {
    let mut control = controls();
    control.furthest = 1000;
    assert_eq!(
        control.on_commands(&Commands::default(), 400),
        Orders {
            reset: false,
            target: None
        }
    );
    assert!(control.running);

    // Stepping forward at the head of the run advances the solver.
    let step = Commands {
        step_by: 1,
        ..Commands::default()
    };
    assert_eq!(control.on_commands(&step, 1000).target, Some(1001));
    assert!(!control.running);

    // There is no step before the first.
    let back = Commands {
        step_by: -1,
        toggle_running: true,
        ..Commands::default()
    };
    assert_eq!(control.on_commands(&back, 0).target, None);
    assert!(control.running);
    assert_eq!(control.on_commands(&back, u64::MAX).target, Some(u64::MAX - 1));
    assert!(!control.running);

    // The slider outranks the buttons, and a reset comes first.
    let all = Commands {
        toggle_running: true,
        reset: true,
        step_by: 5,
        seek: Some(70),
        steps_per_frame: Some(12),
    };
    assert_eq!(
        control.on_commands(&all, 400),
        Orders {
            reset: true,
            target: Some(70)
        }
    );
    assert!(!control.running);
    assert_eq!((control.furthest, control.steps_per_frame), (0, 12));
}

#[test]
fn the_panel_reports_what_a_frame_did() {
    let mut control = controls();
    control.furthest = 800;
    control.steps_per_second = 50.0;
    let readout = control.readout(
        M,
        &Sample {
            step: 640,
            earliest: Some(200),
            time: 1.5e-9,
            elapsed: 0.25,
            bytes_per_step: 40_000_000,
            keyframes: 3,
            keyframe_bytes: 2_500_000,
        },
    );
    assert_eq!(readout.window_start, 200);
    assert_eq!(readout.gigabytes_per_second, 2.0);
    assert_eq!(readout.frame_milliseconds, 250.0);
    assert_eq!(readout.keyframe_megabytes, 2.5);
    assert_eq!(readout.covered(M), 75.0);
    assert_eq!((readout.step, readout.keyframes), (640, 3));
}

#[test]
fn the_gauge_finds_the_components_that_carry_the_field() {
    let mut gauge: Gauge<f32> = Gauge::new();
    assert_eq!((gauge.scale, gauge.components), (0.0, [2, 1]));
    let slots = [4.0, 0.1, 0.2, 0.9, 0.3, 0.8, 0.1, 16.0];
    gauge.update(M, false, ViewMode::Energy, &slots);
    assert_eq!(gauge.scale, 0.0);
    gauge.update(M, true, ViewMode::Energy, &slots);
    assert_eq!((gauge.scale, gauge.components), (4.0, [2, 1]));
    // The averaged intensity ranges itself.
    gauge.update(M, true, ViewMode::Intensity, &slots);
    assert!((gauge.scale - 8.8).abs() < 1e-5);
    // What is not finite does not count, the last of equals does, and two
    // components always leave an axis over.
    let slots = [f32::NAN, 1.0, 1.0, f32::INFINITY, 0.0, 7.0, 2.0, 0.0];
    gauge.update(M, true, ViewMode::Fields, &slots);
    assert_eq!(gauge.components, [1, 2]);
    assert!((gauge.scale - 8.8).abs() < 1e-5);
    gauge.update(M, true, ViewMode::Fields, &[f32::NAN; 8]);
    assert_eq!(gauge.components, [0, 1]);
    let slots = [1.0, -3.0, -1.0, -2.0, -0.0, 0.0, -0.0, 0.0];
    gauge.update(M, true, ViewMode::Fields, &slots);
    assert_eq!(gauge.components, [1, 2]);
}

#[test]
fn the_gauged_shader_is_told_of_the_box() {
    let image = Exposed {
        width: 200,
        height: 100,
        scale: 4.0,
        smallest: f32::MIN_POSITIVE,
        march: 1.0,
        scrub: None,
    };
    let mut settings = ViewSettings::new();
    settings.mode = ViewMode::Ribbons;
    let params = GaugedParams::new(
        M,
        &Domain {
            extent: Extent::new(40, 20, 30),
            box_size: [24.0, 20.0, 30.0],
            lookup_samples: 256,
            accumulated: 1 << 40,
        },
        &Camera::new(M),
        &settings,
        &image,
        [2, 1],
    );
    assert_eq!(params.extent, [40, 20, 30, 24_000]);
    assert_eq!(params.box_size, [24.0, 20.0, 30.0, 256.0]);
    assert_eq!(params.components, [2, 1, u32::MAX, 0]);
    assert_eq!(params.forward[3], 6.0);
    assert_eq!(params.right[3], 1.0 / 8.0f32.sqrt());
    assert_eq!(params.tone, [0.1, 0.0, 0.0, 0.0]);
}

#[test]
fn the_panel_has_a_help_text_of_its_own() {
    let text = diaphane::panel::help();
    assert!(text.starts_with("cargo viz"));
    assert!(text.contains("    --mode <fields|energy|electric|magnetic|magnitude|grid>  [default: fields]\n"));
    assert!(text.contains("(--steps 0 opens the window paused)\n\nThe panel along the bottom"));
    assert!(text.ends_with("only runs forwards.\n\nUse `cargo render` to write PNGs instead, on a machine with no display.\n"));
}
