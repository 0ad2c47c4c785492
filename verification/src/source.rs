//! Sources: what shakes the fields, and how.
//!
//! All sources here are **soft**, meaning they add to the field rather than
//! overwrite it:
//!
//! ```text
//! E[component] += amplitude · waveform(t) · weight(cell)
//! ```
//!
//! A hard source that assigns `E` instead is also a perfect reflector, because a
//! cell whose value is dictated cannot respond to a wave arriving at it. Soft
//! sources are transparent to everything except the energy they inject.
//!
//! # Waveform choice matters more than it looks
//!
//! Every waveform here is zero-mean and smoothly switched on. A pulse with DC
//! content deposits a static field that never radiates away; a sinusoid switched on
//! abruptly is a step discontinuity whose spectrum reaches to the grid's Nyquist
//! limit, where the numerical dispersion is worst.

use crate::dispersion::{pi, pi_of};
use crate::grid::{light_speed, Axis, Extent, Grid, SPEED_OF_LIGHT};
use crate::lattice::Cell;
use crate::numerics::{Elementary, Numerics};
use crate::scalar::{
    arithmetic, at_most, half, minus, negative, number, one_half, over, plus, same, times, Scalar,
};
use vstd::prelude::*;

verus! {

/// The time profile of a source.
#[derive(Clone, Copy, Debug, PartialEq)]
pub enum Waveform<V> {
    /// The second derivative of a Gaussian, `(1 − 2π²f²τ²)·exp(−π²f²τ²)`.
    ///
    /// The default choice: broadband, compact in time, and exactly zero-mean,
    /// so it leaves nothing behind after it passes.
    Ricker {
        peak_frequency: V,
        /// Time of the peak. Before it the waveform ramps up from zero; make
        /// it large enough that the switch-on is negligible.
        delay: V,
    },
    /// A sinusoid under a Gaussian envelope: narrowband, for looking at one
    /// frequency at a time.
    GaussianPulse {
        center_frequency: V,
        /// Envelope width at half maximum, in periods of the carrier.
        duration_cycles: V,
        delay: V,
    },
    /// A steady sinusoid, raised smoothly from zero over `ramp_cycles`.
    ContinuousWave { frequency: V, ramp_cycles: V },
}

/// `2π·f·t`.
pub open spec fn phase<V: Scalar, N: Elementary<V>>(math: &N, frequency: V, time: V) -> V {
    times(times(times(number::<V>(2), pi_of::<V, N>(math)), frequency), time)
}

impl<V: Scalar> Waveform<V> {
    /// Value at time `t`.
    pub open spec fn value_at<N: Elementary<V>>(self, math: &N, time: V) -> V {
        match self {
            Waveform::Ricker { peak_frequency, delay } => {
                let arg = times(
                    times(pi_of::<V, N>(math), peak_frequency),
                    minus(time, delay),
                );
                let square = times(arg, arg);
                times(
                    minus(number::<V>(1), times(number::<V>(2), square)),
                    math.exp_of(negative(square)),
                )
            },
            Waveform::GaussianPulse { center_frequency, duration_cycles, delay } => {
                // Width at half maximum over 2√(2 ln 2) is the deviation.
                let sigma = over(
                    times(math.decimal_of(4_246_609, 7), duration_cycles),
                    center_frequency,
                );
                let tau = minus(time, delay);
                let envelope = math.exp_of(
                    times(times(negative(half::<V>()), over(tau, sigma)), over(tau, sigma)),
                );
                times(envelope, math.sin_of(phase(math, center_frequency, tau)))
            },
            Waveform::ContinuousWave { frequency, ramp_cycles } => {
                let ramp = over(ramp_cycles, frequency);
                // Raised cosine: value and first derivative are both continuous
                // at each end.
                let envelope = if at_most(ramp, time) {
                    number::<V>(1)
                } else {
                    times(
                        half::<V>(),
                        minus(
                            number::<V>(1),
                            math.cos_of(over(times(pi_of::<V, N>(math), time), ramp)),
                        ),
                    )
                };
                if at_most(time, number::<V>(0)) {
                    number::<V>(0)
                } else {
                    times(envelope, math.sin_of(phase(math, frequency, time)))
                }
            },
        }
    }

    /// The frequency the source puts the most energy at.
    pub open spec fn carrier(self) -> V {
        match self {
            Waveform::Ricker { peak_frequency, .. } => peak_frequency,
            Waveform::GaussianPulse { center_frequency, .. } => center_frequency,
            Waveform::ContinuousWave { frequency, .. } => frequency,
        }
    }

    /// A Ricker wavelet with a delay long enough that the switch-on transient
    /// is below `1e-6` of the peak.
    pub fn ricker<N: Elementary<V>>(math: &N, peak_frequency: V) -> (r: Self)
        requires
            arithmetic::<V>(),
        ensures
            r == (Waveform::Ricker {
                peak_frequency,
                delay: over(math.decimal_of(14, 1), peak_frequency),
            }),
    {
        let periods: V = math.decimal(14, 1);
        Waveform::Ricker { peak_frequency, delay: periods / peak_frequency }
    }

    /// A Gaussian pulse with the delay chosen the same way: at 2.3 times the width
    /// of the envelope from its peak, the envelope is below `1e-6`.
    pub fn gaussian_pulse<N: Elementary<V>>(
        math: &N,
        center_frequency: V,
        duration_cycles: V,
    ) -> (r: Self)
        requires
            arithmetic::<V>(),
        ensures
            r == (Waveform::GaussianPulse {
                center_frequency,
                duration_cycles,
                delay: over(times(math.decimal_of(23, 1), duration_cycles), center_frequency),
            }),
    {
        let widths: V = math.decimal(23, 1);
        Waveform::GaussianPulse {
            center_frequency,
            duration_cycles,
            delay: widths * duration_cycles / center_frequency,
        }
    }

    /// Value at time `t`, normalized so the peak magnitude is about 1.
    pub fn evaluate<N: Elementary<V>>(&self, math: &N, time: V) -> (r: V)
        requires
            arithmetic::<V>(),
        ensures
            r == self.value_at(math, time),
    {
        let zero = V::from(0u8);
        let one = V::from(1u8);
        let two = V::from(2u8);
        let turn: V = pi(math);
        match *self {
            Waveform::Ricker { peak_frequency, delay } => {
                let arg = turn * peak_frequency * (time - delay);
                let square = arg * arg;
                (one - two * square) * math.exp(zero - square)
            },
            Waveform::GaussianPulse { center_frequency, duration_cycles, delay } => {
                let width: V = math.decimal(4_246_609, 7);
                let sigma = width * duration_cycles / center_frequency;
                let tau = time - delay;
                let envelope = math.exp((zero - one_half::<V>()) * (tau / sigma) * (tau / sigma));
                envelope * math.sin(two * turn * center_frequency * tau)
            },
            Waveform::ContinuousWave { frequency, ramp_cycles } => {
                if time <= zero {
                    return zero;
                }
                let ramp = ramp_cycles / frequency;
                let envelope = if ramp <= time {
                    one
                } else {
                    one_half::<V>() * (one - math.cos(turn * time / ramp))
                };
                envelope * math.sin(two * turn * frequency * time)
            },
        }
    }

    /// The frequency the source puts the most energy at.
    pub fn dominant_frequency(&self) -> (r: V)
        ensures
            r == self.carrier(),
    {
        match *self {
            Waveform::Ricker { peak_frequency, .. } => peak_frequency,
            Waveform::GaussianPulse { center_frequency, .. } => center_frequency,
            Waveform::ContinuousWave { frequency, .. } => frequency,
        }
    }
}

/// Where a source deposits its energy.
///
/// Positions are in metres from the centre of the domain: a source pinned to a
/// cell index moves when the resolution changes.
#[derive(Clone, Copy, Debug, PartialEq)]
pub enum SourceShape<V> {
    /// A single Yee cell: an oscillating point dipole.
    ///
    /// A nonzero `velocity` slides it through the grid, hopping cell to cell,
    /// and it goes *silent* once its true position leaves the domain.
    Point {
        at: [V; 3],
        /// Metres per second.
        velocity: [V; 3],
    },
    /// A planar sheet normal to `axis`, at `offset` metres along it, centred
    /// on the domain transversely and apodized by a Gaussian of the given
    /// waist in metres.
    ///
    /// The sheet is soft, so it radiates in *both* directions along `axis`.
    Sheet { axis: Axis, offset: V, waist: V },
    /// A one-way plane wave travelling toward `+axis` from a
    /// total-field/scattered-field plane at `offset` metres.
    ///
    /// Everything past the plane sees the incident wave plus whatever
    /// scatters; everything before it sees *scattered field only*. The trick is
    /// two correction terms per step, one on the last scattered `H` row and one
    /// on the first total `E` row, each the incident wave the other region is
    /// not supposed to know about. The incident wave is evaluated at the
    /// numerical phase velocity of the grid, not at `c`, because the
    /// cancellation has to match what the stencil actually propagates.
    PlaneWave { axis: Axis, offset: V },
}

/// A source: a shape, a direction, and a time profile.
#[derive(Clone, Copy, Debug, PartialEq)]
pub struct Source<V> {
    pub shape: SourceShape<V>,
    /// Which component of `E` is driven. For a [`SourceShape::Sheet`] this
    /// should be transverse to the sheet's axis, or the source drives a
    /// longitudinal field that cannot propagate.
    pub polarization: Axis,
    pub waveform: Waveform<V>,
    pub amplitude: V,
}

/// A source flattened into something a kernel can execute: a box of cells, a
/// component, an amplitude, and an apodization.
#[derive(Clone, Copy, Debug, PartialEq)]
pub struct Injection<V> {
    /// First cell of the affected region.
    pub origin: [usize; 3],
    /// Size of the affected region in cells.
    pub extent: [usize; 3],
    /// Centre of the Gaussian apodization, in metres from the domain centre.
    pub center: [V; 3],
    /// `1/waist²` in 1/m². Zero means no apodization: every cell gets full
    /// weight.
    pub inverse_waist_squared: V,
    /// Index of the driven component.
    pub component: usize,
    /// Whether the driven component is `H` rather than `E`. Ordinary sources
    /// drive `E`; the plane wave's scattered-side correction drives `H`.
    pub magnetic: bool,
    /// `amplitude · waveform(t)`.
    pub value: V,
}

impl<V: Scalar> Injection<V> {
    /// Whether a cell is in the affected region.
    pub open spec fn covers(self, cell: Cell) -> bool {
        &&& self.origin@[0] <= cell.x < self.origin@[0] + self.extent@[0]
        &&& self.origin@[1] <= cell.y < self.origin@[1] + self.extent@[1]
        &&& self.origin@[2] <= cell.z < self.origin@[2] + self.extent@[2]
    }

    /// Whether the affected region lies inside a grid and the component is one
    /// a field has.
    pub open spec fn inside(self, extent: Extent) -> bool {
        &&& self.origin@[0] + self.extent@[0] <= extent.x
        &&& self.origin@[1] + self.extent@[1] <= extent.y
        &&& self.origin@[2] + self.extent@[2] <= extent.z
        &&& self.component < 3
    }

    /// `radius` grown by the offset along one axis, if the region spans it. The
    /// sheet's own normal contributes nothing.
    pub open spec fn widened(self, radius: V, t: int, coordinate: V) -> V {
        if self.extent@[t] > 1 {
            plus(
                radius,
                times(minus(coordinate, self.center@[t]), minus(coordinate, self.center@[t])),
            )
        } else {
            radius
        }
    }

    /// Apodization weight at a physical position.
    pub open spec fn weight_at<N: Elementary<V>>(self, math: &N, x: V, y: V, z: V) -> V {
        if same(self.inverse_waist_squared, number::<V>(0)) {
            number::<V>(1)
        } else {
            let radius_squared = self.widened(
                self.widened(self.widened(number::<V>(0), 0, x), 1, y),
                2,
                z,
            );
            math.exp_of(times(negative(radius_squared), self.inverse_waist_squared))
        }
    }

    /// A copy that injects nothing, for shapes that fill only one slot.
    fn silenced(self) -> (r: Self)
        requires
            arithmetic::<V>(),
        ensures
            r == (Injection { value: number(0), ..self }),
    {
        let mut injection = self;
        injection.value = V::from(0u8);
        injection
    }

    /// Number of cells this injection touches.
    pub fn cell_count(&self) -> (r: usize)
        requires
            self.extent@[0] * self.extent@[1] <= usize::MAX,
            self.extent@[0] * self.extent@[1] * self.extent@[2] <= usize::MAX,
        ensures
            r == self.extent@[0] * self.extent@[1] * self.extent@[2],
    {
        self.extent[0] * self.extent[1] * self.extent[2]
    }

    /// Apodization weight at a physical position, in metres.
    pub fn weight<N: Elementary<V>>(&self, math: &N, position: [V; 3]) -> (r: V)
        requires
            arithmetic::<V>(),
        ensures
            r == self.weight_at(math, position@[0], position@[1], position@[2]),
    {
        let zero = V::from(0u8);
        if self.inverse_waist_squared == zero {
            return V::from(1u8);
        }
        let radius_squared = self.widen(
            self.widen(self.widen(zero, 0, position[0]), 1, position[1]),
            2,
            position[2],
        );
        math.exp((zero - radius_squared) * self.inverse_waist_squared)
    }

    fn widen(&self, radius: V, t: usize, coordinate: V) -> (r: V)
        requires
            arithmetic::<V>(),
            t < 3,
        ensures
            r == self.widened(radius, t as int, coordinate),
    {
        if self.extent[t] > 1 {
            let offset = coordinate - self.center[t];
            radius + offset * offset
        } else {
            radius
        }
    }
}

impl<V: Scalar> Source<V> {
    /// `amplitude · waveform(t)`.
    pub open spec fn drive<N: Elementary<V>>(self, math: &N, time: V) -> V {
        times(self.amplitude, self.waveform.value_at(math, time))
    }

    /// Whether the source can act on a grid at all: a plane wave is transverse.
    pub open spec fn coherent(self) -> bool {
        match self.shape {
            SourceShape::PlaneWave { axis, .. } => self.polarization != axis,
            _ => true,
        }
    }

    /// What this source adds to `E`, with `E` standing at `time`.
    pub open spec fn electric_injection<W: Scalar, N: Numerics<V, W>>(
        self,
        math: &N,
        grid: Grid<V, W>,
        time: V,
    ) -> Injection<V> {
        let zero = number::<V>(0);
        match self.shape {
            SourceShape::Point { at, velocity } => {
                let now = Seq::new(3, |t: int| plus(at@[t], times(velocity@[t], time)));
                Injection {
                    origin: [
                        grid.cell_along(math, Axis::X, now[0]) as usize,
                        grid.cell_along(math, Axis::Y, now[1]) as usize,
                        grid.cell_along(math, Axis::Z, now[2]) as usize,
                    ],
                    extent: [1, 1, 1],
                    center: [zero, zero, zero],
                    inverse_waist_squared: zero,
                    component: self.polarization.position() as usize,
                    magnetic: false,
                    // Gone means silent. The position is a pure function of
                    // time, so a retraction silences at exactly the same
                    // instant.
                    value: if grid.encloses(math, now) {
                        self.drive(math, time)
                    } else {
                        zero
                    },
                }
            },
            SourceShape::Sheet { axis, offset, waist } => Injection {
                // The centre and the waist stay in metres, so the taper is the
                // same shape whatever the cells under it are doing.
                inverse_waist_squared: over(number::<V>(1), times(waist, waist)),
                component: self.polarization.position() as usize,
                value: self.drive(math, time),
                ..whole_plane(grid.extent, axis, grid.cell_along(math, axis, offset))
            },
            SourceShape::PlaneWave { axis, offset } => Injection {
                component: self.polarization.position() as usize,
                // The first total E row is missing the incident H just behind
                // it, at H's own half step, half a cell back along the travel
                // axis.
                value: times(
                    grid.row_gain(math, axis),
                    self.drive(
                        math,
                        plus(
                            minus(time, times(half::<V>(), grid.step_time(math))),
                            self.retardation(math, grid, axis),
                        ),
                    ),
                ),
                ..whole_plane(grid.extent, axis, self.total_row(math, grid, axis, offset))
            },
        }
    }

    /// What this source adds to `H`. Only the plane wave does; every other
    /// shape leaves this slot silent.
    pub open spec fn magnetic_injection<W: Scalar, N: Numerics<V, W>>(
        self,
        math: &N,
        grid: Grid<V, W>,
        time: V,
    ) -> Injection<V> {
        match self.shape {
            SourceShape::PlaneWave { axis, offset } => Injection {
                component: (3 - axis.position() - self.polarization.position()) as usize,
                magnetic: true,
                // The last scattered H row saw the incident E ahead of it, at
                // E's own previous full step.
                value: times(
                    times(
                        if self.polarization.successor() == axis {
                            negative(number::<V>(1))
                        } else {
                            number::<V>(1)
                        },
                        grid.row_gain(math, axis),
                    ),
                    self.drive(math, minus(time, grid.step_time(math))),
                ),
                ..whole_plane(grid.extent, axis, self.total_row(math, grid, axis, offset) - 1)
            },
            _ => Injection { value: number(0), ..self.electric_injection(math, grid, time) },
        }
    }

    /// The first row of the total field. The last scattered `H` row sits one
    /// cell before it, so the plane cannot be at the wall.
    pub open spec fn total_row<W: Scalar, N: Numerics<V, W>>(
        self,
        math: &N,
        grid: Grid<V, W>,
        axis: Axis,
        offset: V,
    ) -> int {
        let cell = grid.cell_along(math, axis, offset);
        if cell < 1 {
            1
        } else {
            cell
        }
    }

    /// Time the carrier takes over half a cell: `kΔ/2ω`, with `k` from
    /// `sin(ωΔt/2) = S·sin(kΔ/2)`.
    pub open spec fn retardation<W: Scalar, N: Elementary<V>>(
        self,
        math: &N,
        grid: Grid<V, W>,
        axis: Axis,
    ) -> V {
        let omega = times(times(number::<V>(2), pi_of::<V, N>(math)), self.waveform.carrier());
        over(
            math.asin_of(
                over(
                    math.sin_of(times(times(half::<V>(), omega), grid.step_time(math))),
                    grid.row_gain(math, axis),
                ),
            ),
            omega,
        )
    }

    /// Where the source sits at `t = 0`.
    pub open spec fn start(self) -> Seq<V> {
        match self.shape {
            SourceShape::Point { at, .. } => at@,
            SourceShape::Sheet { axis, offset, .. } => Seq::new(
                3,
                |t: int|
                    if t == axis.position() {
                        offset
                    } else {
                        number::<V>(0)
                    },
            ),
            SourceShape::PlaneWave { axis, offset } => Seq::new(
                3,
                |t: int|
                    if t == axis.position() {
                        offset
                    } else {
                        number::<V>(0)
                    },
            ),
        }
    }

    /// A point dipole at a position in metres.
    pub fn point(at: [V; 3], polarization: Axis, waveform: Waveform<V>) -> (r: Self)
        requires
            arithmetic::<V>(),
        ensures
            r.shape matches SourceShape::Point { at: place, velocity } && place == at && velocity@
                == seq![number::<V>(0), number::<V>(0), number::<V>(0)],
            r.polarization == polarization,
            r.waveform == waveform,
            r.amplitude == number::<V>(1),
    {
        let zero = V::from(0u8);
        Self::point_moving(at, [zero, zero, zero], polarization, waveform)
    }

    /// A point dipole that starts `at` and moves at `velocity` metres per
    /// second; see [`SourceShape::Point`] for what motion means here.
    pub fn point_moving(
        at: [V; 3],
        velocity: [V; 3],
        polarization: Axis,
        waveform: Waveform<V>,
    ) -> (r: Self)
        requires
            arithmetic::<V>(),
        ensures
            r == (Source {
                shape: SourceShape::Point { at, velocity },
                polarization,
                waveform,
                amplitude: number(1),
            }),
    {
        Source {
            shape: SourceShape::Point { at, velocity },
            polarization,
            waveform,
            amplitude: V::from(1u8),
        }
    }

    /// An apodized sheet, which is the shape that launches something looking
    /// like a propagating wave packet rather than a spherical wave.
    ///
    /// `offset` and `waist` are metres.
    pub fn sheet(
        axis: Axis,
        offset: V,
        waist: V,
        polarization: Axis,
        waveform: Waveform<V>,
    ) -> (r: Self)
        requires
            arithmetic::<V>(),
        ensures
            r == (Source {
                shape: SourceShape::Sheet { axis, offset, waist },
                polarization,
                waveform,
                amplitude: number(1),
            }),
    {
        Source {
            shape: SourceShape::Sheet { axis, offset, waist },
            polarization,
            waveform,
            amplitude: V::from(1u8),
        }
    }

    /// A one-way plane wave travelling toward `+axis`; see
    /// [`SourceShape::PlaneWave`]. `polarization` must be transverse to `axis`.
    pub fn plane_wave(
        axis: Axis,
        offset: V,
        polarization: Axis,
        waveform: Waveform<V>,
    ) -> (r: Self)
        requires
            arithmetic::<V>(),
        ensures
            r == (Source {
                shape: SourceShape::PlaneWave { axis, offset },
                polarization,
                waveform,
                amplitude: number(1),
            }),
    {
        Source {
            shape: SourceShape::PlaneWave { axis, offset },
            polarization,
            waveform,
            amplitude: V::from(1u8),
        }
    }

    pub fn with_amplitude(self, amplitude: V) -> (r: Self)
        ensures
            r == (Source { amplitude, ..self }),
    {
        let mut source = self;
        source.amplitude = amplitude;
        source
    }

    /// Where this source sits at `t = 0`, in metres. A sheet reports the
    /// centre of the plane it occupies; a moving point reports where it
    /// starts, which is the position validation checks.
    pub fn position(&self) -> (r: [V; 3])
        requires
            arithmetic::<V>(),
        ensures
            r@ == self.start(),
    {
        let zero = V::from(0u8);
        match self.shape {
            SourceShape::Point { at, .. } => at,
            SourceShape::Sheet { axis, offset, .. } => {
                let mut position = [zero, zero, zero];
                position[axis.index()] = offset;
                assert(position@ =~= self.start());
                position
            },
            SourceShape::PlaneWave { axis, offset } => {
                let mut position = [zero, zero, zero];
                position[axis.index()] = offset;
                assert(position@ =~= self.start());
                position
            },
        }
    }

    /// Resolves the source against a grid at one instant.
    ///
    /// Every shape is reduced to boxes of cells and weight functions, so there
    /// is exactly one injection rather than one per shape. `time` is where `E`
    /// stands after the update this injection follows: `(n+1)·Δt`. Most shapes
    /// fill one slot and leave the other silent; the plane wave needs both.
    pub fn injections<W: Scalar, N: Numerics<V, W>>(
        &self,
        math: &N,
        grid: &Grid<V, W>,
        time: V,
    ) -> (r: [Injection<V>; 2])
        requires
            arithmetic::<V>(),
            arithmetic::<W>(),
            grid.valid(),
            self.coherent(),
        ensures
            r@[0] == self.electric_injection(math, *grid, time),
            r@[1] == self.magnetic_injection(math, *grid, time),
            r@[0].inside(grid.extent),
            r@[1].inside(grid.extent),
    {
        proof {
            assert(grid.along(Axis::X).valid());
            assert(grid.along(Axis::Y).valid());
            assert(grid.along(Axis::Z).valid());
        }
        let zero = V::from(0u8);
        let one = V::from(1u8);
        let extent = grid.extent.as_array();
        let middle = [zero, zero, zero];
        assert(extent =~= [
            grid.extent.x as usize,
            grid.extent.y as usize,
            grid.extent.z as usize,
        ]);
        assert(middle =~= [number::<V>(0), number::<V>(0), number::<V>(0)]);
        match self.shape {
            SourceShape::Point { at, velocity } => {
                let position = [
                    at[0] + velocity[0] * time,
                    at[1] + velocity[1] * time,
                    at[2] + velocity[2] * time,
                ];
                let ghost now = Seq::new(3, |t: int| plus(at@[t], times(velocity@[t], time)));
                assert(position@ =~= now);
                let value = if grid.contains(math, position) {
                    self.amplitude * self.waveform.evaluate(math, time)
                } else {
                    zero
                };
                let origin = grid.cell_containing(math, position);
                proof {
                    assert(origin@[Axis::X.position()] < grid.extent.along(Axis::X));
                    assert(origin@[Axis::Y.position()] < grid.extent.along(Axis::Y));
                    assert(origin@[Axis::Z.position()] < grid.extent.along(Axis::Z));
                }
                assert(origin =~= [
                    grid.cell_along(math, Axis::X, now[0]) as usize,
                    grid.cell_along(math, Axis::Y, now[1]) as usize,
                    grid.cell_along(math, Axis::Z, now[2]) as usize,
                ]);
                let single: [usize; 3] = [1, 1, 1];
                assert(single =~= [1usize, 1usize, 1usize]);
                let injection = Injection {
                    origin,
                    extent: single,
                    center: middle,
                    inverse_waist_squared: zero,
                    component: self.polarization.index(),
                    magnetic: false,
                    value,
                };
                [injection, injection.silenced()]
            },
            SourceShape::Sheet { axis, offset, waist } => {
                let a: usize = axis.index();
                let mut position = [zero, zero, zero];
                position[a] = offset;
                let cell = grid.cell_containing(math, position);
                assert(cell@[axis.position()] == grid.cell_along(math, axis, offset));
                let mut origin: [usize; 3] = [0, 0, 0];
                let mut region: [usize; 3] = extent;
                origin[a] = cell[a];
                region[a] = 1;
                assert(origin =~= replaced([0, 0, 0], axis, cell@[axis.position()]));
                assert(region =~= replaced(extent, axis, 1));
                let injection = Injection {
                    origin,
                    extent: region,
                    center: middle,
                    inverse_waist_squared: one / (waist * waist),
                    component: self.polarization.index(),
                    magnetic: false,
                    value: self.amplitude * self.waveform.evaluate(math, time),
                };
                [injection, injection.silenced()]
            },
            SourceShape::PlaneWave { axis, offset } => {
                let travel: usize = axis.index();
                let mut position = [zero, zero, zero];
                position[travel] = offset;
                let cell = grid.cell_containing(math, position);
                assert(cell@[axis.position()] == grid.cell_along(math, axis, offset));
                let plane: usize = if cell[travel] < 1 {
                    1
                } else {
                    cell[travel]
                };
                let light: V = math.count(SPEED_OF_LIGHT);
                let spacing = grid.spacing(axis).finest(math);
                let time_step = grid.time_step(math);
                let gain = light * time_step / spacing;
                let turn: V = pi(math);
                let omega = V::from(2u8) * turn * self.waveform.dominant_frequency();
                let half_k_spacing = math.asin(
                    math.sin(one_half::<V>() * omega * time_step) / gain,
                );
                let retard = half_k_spacing / omega;
                let mut e_origin: [usize; 3] = [0, 0, 0];
                e_origin[travel] = plane;
                let mut h_origin: [usize; 3] = [0, 0, 0];
                h_origin[travel] = plane - 1;
                let mut region: [usize; 3] = extent;
                region[travel] = 1;
                assert(e_origin =~= replaced([0, 0, 0], axis, plane));
                assert(h_origin =~= replaced([0, 0, 0], axis, (plane - 1) as usize));
                assert(region =~= replaced(extent, axis, 1));
                let pol: usize = self.polarization.index();
                let h_axis: usize = 3 - travel - pol;
                let h_sign = if self.polarization.next() == axis {
                    zero - one
                } else {
                    one
                };
                let early = self.amplitude * self.waveform.evaluate(
                    math,
                    time - one_half::<V>() * time_step + retard,
                );
                let late = self.amplitude * self.waveform.evaluate(math, time - time_step);
                [
                    Injection {
                        origin: e_origin,
                        extent: region,
                        center: middle,
                        inverse_waist_squared: zero,
                        component: pol,
                        magnetic: false,
                        value: gain * early,
                    },
                    Injection {
                        origin: h_origin,
                        extent: region,
                        center: middle,
                        inverse_waist_squared: zero,
                        component: h_axis,
                        magnetic: true,
                        value: h_sign * gain * late,
                    },
                ]
            },
        }
    }
}

impl<V: Scalar, W: Scalar> Grid<V, W> {
    /// `c·Δt/Δ` at the finest cell along one axis.
    pub open spec fn row_gain<N: Elementary<V>>(self, math: &N, axis: Axis) -> V {
        over(
            times(light_speed::<V, N>(math), self.step_time(math)),
            self.finest_along(math, axis),
        )
    }
}

/// An `[x, y, z]` array with the entry along one axis replaced.
pub open spec fn replaced<T>(list: [T; 3], axis: Axis, value: T) -> [T; 3] {
    match axis {
        Axis::X => [value, list@[1], list@[2]],
        Axis::Y => [list@[0], value, list@[2]],
        Axis::Z => [list@[0], list@[1], value],
    }
}

/// A silent injection into one whole plane of cells normal to an axis.
pub open spec fn whole_plane<V: Scalar>(extent: Extent, axis: Axis, row: int) -> Injection<V> {
    let zero = number::<V>(0);
    Injection {
        origin: replaced([0, 0, 0], axis, row as usize),
        extent: replaced([extent.x as usize, extent.y as usize, extent.z as usize], axis, 1),
        center: [zero, zero, zero],
        inverse_waist_squared: zero,
        component: 0,
        magnetic: false,
        value: zero,
    }
}

} // verus!
