//! Real-time 3D electrodynamics.
//!
//! Diaphane solves Maxwell's curl equations on a Yee grid in three dimensions.
//! This crate is everything about it that can be stated exactly: the grid and its
//! indexing, the update equations and their inverses, sources, scenes and their
//! validation, the timeline, the plan of what a device is asked to do, and the
//! decisions of the viewer. Arithmetic is a parameter, so that what is proved here
//! is proved of the formulas and not of one number format.
//!
//! # Where to read first
//!
//! - [`grid`]: the Yee staggering convention. Every FDTD bug is an off-by-half.
//! - [`stencil`]: the two half-updates of a step.
//! - [`setup`]: what one step does to the fields.
//! - [`reversal`]: why a step can be undone.
//! - [`conservation`], [`waves`] and [`mirror`]: what a lossless box keeps, which
//!   waves it carries, and which of its walls it cannot tell apart.
//! - [`absorber`], [`placement`] and [`waveforms`]: what shape the absorbing layer
//!   has, where cells are, and what the pulses look like.
//! - [`launch`] and [`emission`]: why a plane wave goes one way, and where points and
//!   sheets act.
//! - [`shapes`], [`damping`], [`timing`] and [`sight`]: what shapes hold, what a loss
//!   takes, how long a step is, and what the camera sees.
//! - [`assembly`], [`acceptance`] and [`exhibits`]: what a built scene is good for,
//!   which scenes are let through, and what the built-in ones show.
//! - [`anisotropy`]: which waves the grid slows down.
//! - [`timeline`]: why any step can be reached.
//! - [`control`] and [`panel`]: what the two windows do when asked.
//! - [`scalar`] and [`numerics`]: the arithmetic all of it is written over.

pub mod absorber;
pub mod acceptance;
pub mod algebra;
pub mod anisotropy;
pub mod assembly;
pub mod boundary;
pub mod camera;
pub mod common;
pub mod conservation;
pub mod control;
pub mod cpu;
pub mod damping;
pub mod device;
pub mod dispersion;
pub mod emission;
pub mod energy;
pub mod exhibits;
pub mod gauge;
pub mod grading;
pub mod grid;
pub mod lattice;
pub mod launch;
pub mod lookup;
pub mod material;
pub mod mirror;
pub mod numerics;
pub mod offscreen;
pub mod options;
pub mod order;
pub mod panel;
pub mod placement;
pub mod preparation;
pub mod presets;
pub mod relabelling;
pub mod replay;
pub mod residue;
pub mod reversal;
pub mod scalar;
pub mod scene;
pub mod schedule;
pub mod setup;
pub mod shapes;
pub mod sight;
pub mod source;
pub mod spacing;
pub mod staging;
pub mod stencil;
pub mod text;
pub mod timeline;
pub mod timing;
pub mod unwinding;
pub mod validation;
pub mod view;
pub mod viewer;
pub mod walls;
pub mod waveforms;
pub mod waves;

pub use boundary::Boundary;
pub use dispersion::numerical_phase_velocity;
pub use grading::Refinement;
pub use grid::{Axis, Extent, Grid, GridSpec};
pub use material::{Coefficients, Material, MaterialTable};
pub use scene::{Scene, Shape};
pub use source::{Injection, Source, SourceShape, Waveform};
pub use spacing::Spacing;
pub use timeline::{Seek, Snapshot, Steppable, Timeline};
pub use view::ViewMode;
