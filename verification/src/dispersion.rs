//! The discrete dispersion relation.

use crate::numerics::{Elementary, Numerics};
use crate::scalar::{
    arithmetic, below, half, minus, number, one_half, over, plus, times, Scalar,
};
use vstd::prelude::*;

verus! {

/// Half turn in radians.
pub open spec fn pi_of<T: Scalar, N: Elementary<T>>(math: &N) -> T {
    math.decimal_of(3_141_592_653_589_793, 15)
}

/// Half turn in radians.
pub fn pi<T: Scalar, N: Elementary<T>>(math: &N) -> (r: T)
    ensures
        r == pi_of::<T, N>(math),
{
    math.decimal(3_141_592_653_589_793, 15)
}

/// Sum of three squares.
pub open spec fn sum_of_squares<T: Scalar>(a: T, b: T, c: T) -> T {
    plus(plus(plus(number::<T>(0), times(a, a)), times(b, b)), times(c, c))
}

fn squares<T: Scalar>(a: T, b: T, c: T) -> (r: T)
    requires
        arithmetic::<T>(),
    ensures
        r == sum_of_squares(a, b, c),
{
    T::from(0u8) + a * a + b * b + c * c
}

/// The spatial side of the dispersion relation at `kΔ`: `Σ_a sin²(kΔ·d_a/2)`.
pub open spec fn spatial_side<T: Scalar, N: Elementary<T>>(math: &N, unit: Seq<T>, k: T) -> T {
    sum_of_squares(
        math.sin_of(times(times(half::<T>(), k), unit[0])),
        math.sin_of(times(times(half::<T>(), k), unit[1])),
        math.sin_of(times(times(half::<T>(), k), unit[2])),
    )
}

/// The temporal side: `(sin(π·S/n) / S)²`.
pub open spec fn temporal_side<T: Scalar, N: Elementary<T>>(math: &N, courant: T, cells: T) -> T {
    let s = over(math.sin_of(over(times(pi_of::<T, N>(math), courant), cells)), courant);
    times(s, s)
}

/// A bracket around the root after `n` halvings.
pub open spec fn bracket<T: Scalar, N: Elementary<T>>(
    math: &N,
    unit: Seq<T>,
    target: T,
    lo: T,
    hi: T,
    n: nat,
) -> (T, T)
    decreases n,
{
    if n == 0 {
        (lo, hi)
    } else {
        let (lo, hi) = bracket(math, unit, target, lo, hi, (n - 1) as nat);
        let mid = times(half::<T>(), plus(lo, hi));
        if below(minus(spatial_side(math, unit, mid), target), number::<T>(0)) {
            (mid, hi)
        } else {
            (lo, mid)
        }
    }
}

/// The direction as a unit vector.
pub open spec fn unit_of<T: Scalar, N: Elementary<T>>(math: &N, a: T, b: T, c: T) -> Seq<T> {
    let norm = math.sqrt_of(sum_of_squares(a, b, c));
    seq![over(a, norm), over(b, norm), over(c, norm)]
}

/// `v/c` for a wave with `cells` cells per wavelength.
pub open spec fn phase_velocity<T: Scalar, N: Elementary<T>>(
    math: &N,
    courant: T,
    cells: T,
    unit: Seq<T>,
) -> T {
    let ideal = over(times(number::<T>(2), pi_of::<T, N>(math)), cells);
    let (lo, hi) = bracket(
        math,
        unit,
        temporal_side(math, courant, cells),
        times(half::<T>(), ideal),
        times(number::<T>(2), ideal),
        80,
    );
    over(ideal, times(half::<T>(), plus(lo, hi)))
}

/// The analytic phase velocity of the discrete scheme, as a fraction of `c`.
///
/// The Yee scheme does not propagate all wavelengths at `c`. For a plane wave
/// with `n` cells per wavelength travelling along `direction`, the numerical
/// dispersion relation
///
/// ```text
/// (1/S)² sin²(π S / n) = Σ_a sin²(π d_a / n)
/// ```
///
/// is solved for the numerical wavenumber by bisection, in the wider precision.
/// The sum of squared sines rises monotonically with `k` over the bracket.
pub fn numerical_phase_velocity<V: Scalar, W: Scalar, N: Numerics<V, W>>(
    math: &N,
    courant: V,
    cells_per_wavelength: V,
    direction: [V; 3],
) -> (r: V)
    requires
        arithmetic::<W>(),
    ensures
        r == math.narrowed(
            phase_velocity(
                math,
                math.wide(courant),
                math.wide(cells_per_wavelength),
                unit_of(
                    math,
                    math.wide(direction@[0]),
                    math.wide(direction@[1]),
                    math.wide(direction@[2]),
                ),
            ),
        ),
{
    let courant: W = math.widen(courant);
    let cells: W = math.widen(cells_per_wavelength);
    let a: W = math.widen(direction[0]);
    let b: W = math.widen(direction[1]);
    let c: W = math.widen(direction[2]);
    let norm: W = math.sqrt(squares(a, b, c));
    let unit: [W; 3] = [a / norm, b / norm, c / norm];
    let turn: W = pi(math);
    let s: W = math.sin(turn * courant / cells) / courant;
    let target = s * s;
    let ideal = W::from(2u8) * turn / cells;
    let mut lo = one_half::<W>() * ideal;
    let mut hi = W::from(2u8) * ideal;
    let ghost first = (lo, hi);
    assert(unit@ =~= unit_of(math, a, b, c));
    let mut done: u32 = 0;
    while done < 80
        invariant
            arithmetic::<W>(),
            done <= 80,
            (lo, hi) == bracket(math, unit@, target, first.0, first.1, done as nat),
        decreases 80 - done,
    {
        let mid = one_half::<W>() * (lo + hi);
        let x: W = math.sin(one_half::<W>() * mid * unit[0]);
        let y: W = math.sin(one_half::<W>() * mid * unit[1]);
        let z: W = math.sin(one_half::<W>() * mid * unit[2]);
        if squares(x, y, z) - target < W::from(0u8) {
            lo = mid;
        } else {
            hi = mid;
        }
        done = done + 1;
    }
    math.narrow(ideal / (one_half::<W>() * (lo + hi)))
}

} // verus!
