//! Residues do not round, so on them a run unwinds to the last bit.

use crate::boundary::{peak_of, AbsorbingProfile};
use crate::grid::Axis;
use crate::lattice::{slot_in_range, Cell};
use crate::numerics::Numerics;
use crate::replay::lemma_cells;
use crate::residue::Residue;
use crate::reversal::{exact, run_is_undone, takes_nothing};
use crate::scalar::{minus, number, over, plus, same, times};
use crate::setup::{sign_of, Setup, State};
use crate::stencil::{Direction, Half};
use vstd::arithmetic::div_mod::{
    lemma_add_mod_noop, lemma_mod_multiples_vanish, lemma_mul_mod_noop_left, lemma_small_mod,
};
use vstd::prelude::*;

verus! {

/// Residue arithmetic loses nothing to rounding.
pub proof fn residues_are_exact()
    ensures
        exact::<Residue>(),
{
    assert forall|t: Residue, v: Residue, w: Residue| #[trigger]
        plus(
            plus(t, times(times(sign_of::<Residue>(Direction::Forward), v), w)),
            times(times(sign_of::<Residue>(Direction::Backward), v), w),
        ) == t by {
        lemma_opposite_products(v, w);
    }
    assert forall|t: Residue, v: Residue, w: Residue| #[trigger]
        plus(
            plus(t, times(times(sign_of::<Residue>(Direction::Backward), v), w)),
            times(times(sign_of::<Residue>(Direction::Forward), v), w),
        ) == t by {
        lemma_opposite_products(v, w);
    }
}

/// `(1·v)·w` and `(−1·v)·w` add up to nothing.
proof fn lemma_opposite_products(v: Residue, w: Residue)
    ensures
        plus(
            times(times(sign_of::<Residue>(Direction::Forward), v), w),
            times(times(sign_of::<Residue>(Direction::Backward), v), w),
        ) == Residue(0),
{
    let (a, b) = (v.0, w.0);
    assert(1u32.wrapping_mul(a) == a) by {
        lemma_small_mod(a as nat, 0x1_0000_0000);
    }
    let m: int = 0x1_0000_0000;
    let minus_one: int = 0xffff_ffff;
    let p = (a * b) % m;
    let q = (((minus_one * a) % m) * b) % m;
    lemma_mul_mod_noop_left(minus_one * a, b as int, m);
    assert((minus_one * a) * b + a * b == (a * b) * m) by (nonlinear_arith)
        requires
            minus_one == m - 1,
    ;
    lemma_add_mod_noop((minus_one * a) * b, a * b, m);
    lemma_mod_multiples_vanish(a * b, 0, m);
    assert(m * (a * b) + 0 == (a * b) * m) by (nonlinear_arith);
    lemma_small_mod(0, m as nat);
    assert((p + q) % m == 0);
}

/// A loss of zero takes nothing.
proof fn lemma_zero_takes_nothing()
    ensures
        takes_nothing(Residue(0)),
{
    let less = minus(number::<Residue>(1), Residue(0));
    let more = plus(number::<Residue>(1), Residue(0));
    assert(less == Residue(1) && more == Residue(1));
    assert forall|x: Residue|
        #![trigger times(less, x)]
        #![trigger times(more, x)]
        #![trigger over(x, less)]
        #![trigger over(x, more)]
        times(less, x) == x && times(more, x) == x && over(x, less) == x && over(x, more) == x by {
        lemma_small_mod(x.0 as nat, 0x1_0000_0000);
        assert(x.0 / 1 == x.0);
    }
}

/// If the largest of some residues is zero, all of them are.
proof fn lemma_peak_bounds(values: Seq<Residue>, n: int, i: int)
    requires
        0 <= i < n <= values.len(),
    ensures
        values[i].0 <= peak_of(values, n).0,
    decreases n,
{
    if i < n - 1 {
        lemma_peak_bounds(values, n - 1, i);
    }
}

/// A profile whose peak is zero is zero throughout.
proof fn lemma_peakless(profile: AbsorbingProfile<Residue>, axis: Axis, i: int)
    requires
        peak_of(profile.samples(), profile.samples().len() as int) == Residue(0),
    ensures
        0 <= i < profile.integer@[axis.position()]@.len() ==> profile.integer@[axis.position()]@[i]
            == Residue(0),
        0 <= i < profile.half@[axis.position()]@.len() ==> profile.half@[axis.position()]@[i]
            == Residue(0),
{
    let all = profile.samples();
    let (a, b, c) = (profile.half@[0]@.len(), profile.half@[1]@.len(), profile.half@[2]@.len());
    let (d, e) = (profile.integer@[0]@.len(), profile.integer@[1]@.len());
    if 0 <= i < profile.half@[axis.position()]@.len() {
        let at = match axis {
            Axis::X => i,
            Axis::Y => a + i,
            Axis::Z => a + b + i,
        };
        assert(all[at] == profile.half@[axis.position()]@[i]);
        lemma_peak_bounds(all, all.len() as int, at);
    }
    if 0 <= i < profile.integer@[axis.position()]@.len() {
        let at = a + b + c + match axis {
            Axis::X => i,
            Axis::Y => d + i,
            Axis::Z => d + e + i,
        };
        assert(all[at] == profile.integer@[axis.position()]@[i]);
        lemma_peak_bounds(all, all.len() as int, at);
    }
}

/// Where nothing is lossy, no cell loses anything.
pub proof fn lossless_takes_nothing<N: Numerics<Residue, Residue>>(
    setup: Setup<Residue, Residue, N>,
)
    requires
        setup.valid(),
        setup.lossless(),
    ensures
        setup.medium.takes_nothing(),
{
    let m = setup.medium;
    lemma_zero_takes_nothing();
    assert forall|half: Half, axis: Axis, cell: Cell| m.extent.has(cell) implies takes_nothing(
        #[trigger] m.loss(half, axis, cell),
    ) by {
        slot_in_range(m.extent, cell);
        let material = m.material_index@[m.extent.slot(cell)] as int;
        assert(m.material_index@[m.extent.slot(cell)] < m.coefficients@.len());
        assert(same(m.coefficients@[material].electric_loss, number::<Residue>(0)));
        lemma_peakless(m.absorber, Axis::X, cell.x);
        lemma_peakless(m.absorber, Axis::Y, cell.y);
        lemma_peakless(m.absorber, Axis::Z, cell.z);
        assert(m.absorber.integer@[Axis::X.position()]@.len() == m.extent.x);
        assert(m.absorber.integer@[Axis::Y.position()]@.len() == m.extent.y);
        assert(m.absorber.integer@[Axis::Z.position()]@.len() == m.extent.z);
        assert(m.loss(half, axis, cell) == Residue(0));
    }
}

/// On residues, a run of any reversible scene unwinds exactly: whatever the
/// fields were, however many steps, with sources and all.
pub proof fn residue_runs_unwind<N: Numerics<Residue, Residue>>(
    setup: Setup<Residue, Residue, N>,
    state: State<Residue>,
    n: nat,
)
    requires
        setup.valid(),
        setup.lossless(),
        state.shaped(setup.cells()),
    ensures
        setup.rewound(setup.run(state, n), n) == state,
{
    residues_are_exact();
    lossless_takes_nothing(setup);
    lemma_cells(setup);
    run_is_undone(setup, state, n);
}

} // verus!
