# diaphane

Real-time 3D electrodynamics: Maxwell's curl equations on a Yee grid, leapfrogged in
place, with materials, absorbing walls, sources, graded meshes, and a timeline that
can be scrubbed in either direction.

The library is written in [Verus](https://github.com/verus-lang/verus), and every
function in it carries a contract that is proved. Arithmetic is a parameter, so that
what is proved is proved of the formulas and not of one number format: the programs
run in `f32`, and the exact arithmetic of residues is built in for tests that must
not round.

| | |
|---|---|
| `src/` | the library: grid, materials, sources, scenes, solver, timeline, the plan of what a device is asked to do, and the decisions of the viewer |
| `tests/` | analytic acceptance tests in `f32`, exact ones on residues, and the host side |
| `app/` | the programs: IEEE arithmetic, the compute device, the window, PNG and RON files |

## Where to read first

- `src/lattice.rs` and `src/spacing.rs`: indexing, and the two spacings of a graded
  axis. Every FDTD bug is an off-by-half.
- `src/stencil.rs` and `src/setup.rs`: what one step does to the fields.
- `src/reversal.rs` and `src/unwinding.rs`: why a step can be undone.
- `src/walls.rs` and `src/mirror.rs`: what the walls of the box are.
- `src/absorber.rs`, `src/placement.rs` and `src/waveforms.rs`: what shape the
  absorbing layer has, where cells are, and what the pulses look like.
- `src/anisotropy.rs`: which waves the grid slows down, and by how much less on a
  finer one.
- `src/conservation.rs` and `src/waves.rs`: what a lossless box keeps, and the waves
  it carries, to the last bit.
- `src/timeline.rs` and `src/replay.rs`: why any step can be reached.
- `src/device.rs`, `src/preparation.rs` and `src/schedule.rs`: what a device is given
  and asked to do, and why that performs the same steps.
- `src/control.rs` and `src/panel.rs`: what the two windows do when asked, the plain
  one with a scrub bar and the one with a control panel.
- `src/scalar.rs` and `src/numerics.rs`: the arithmetic all of it is written over.

## What is trusted

`staging::as_bytes` and `staging::storage_alignment` state what `bytemuck` and
`blade-graphics` do, and `options::quote` names what the standard library makes of a
string in quotes. The traits in `src/numerics.rs` say that an elementary function
gives the same value for the same operand; the programs implement them with the
functions of the standard library.

The programs read their kernels from `shaders/fdtd.wgsl`, and draw with
`shaders/volume.wgsl` in the plain window and `shaders/gauged.wgsl` beside the panel.
