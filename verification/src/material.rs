//! Materials, and the update coefficients derived from them.
//!
//! The grid stores a `u32` index per cell into a small table, never the
//! coefficients themselves. Repainting geometry is then a single index write with
//! no recomputation.
//!
//! # Normalized fields
//!
//! Everything is written for the impedance-normalized electric field
//! `Ẽ = √(ε₀/μ₀)·E = E/η₀`. Substituting it into Maxwell's curl equations gives
//!
//! ```text
//! ∂Ẽ/∂t = (c/εr)·∇×H − (σ/(ε₀ εr))·Ẽ
//! ∂H/∂t = −(c/μr)·∇×Ẽ − (σ*/(μ₀ μr))·H
//! ```
//!
//! which is *symmetric*: the two gains are `c/εr` and `c/μr`, the two loss rates
//! have the same units, and in free space they are numerically identical.

use crate::algebra::{
    multiply_by_nothing, multiply_commutes, multiply_regroups, multiply_spreads,
};
use crate::grading::ordered;
use crate::grid::{permeability, permittivity, vacuum_permeability, vacuum_permittivity, Grid};
use crate::numerics::Elementary;
use crate::order::{factors_come_off, field, parts};
use crate::scalar::{
    arithmetic, at_most, below, greater, greater_of, half, number, one_half, over, plus, same, times,
    Scalar,
};
use vstd::prelude::*;

verus! {

/// A linear, non-dispersive, possibly lossy medium.
#[derive(Clone, Copy, Debug, PartialEq)]
pub struct Material<V> {
    /// Relative permittivity `εr`.
    pub relative_permittivity: V,
    /// Relative permeability `μr`.
    pub relative_permeability: V,
    /// Electric conductivity `σ`, in S/m. Infinite means a perfect conductor.
    pub conductivity: V,
    /// Magnetic loss `σ*`, in Ω/m. Not a physical property of ordinary matter;
    /// it exists so that absorbing regions can be impedance-matched.
    pub magnetic_loss: V,
}

/// The four numbers a cell needs to advance one step.
///
/// The solver applies them in a semi-implicit form, which is what makes a lossy
/// medium stable at any conductivity:
///
/// ```text
/// E ← ((1 − l)·E + electric_gain·(∇×H)) / (1 + l),   l = electric_loss + absorber
/// H ← ((1 − m)·H − magnetic_gain·(∇×E)) / (1 + m),   m = magnetic_loss + absorber
/// ```
#[derive(Clone, Copy, Debug, PartialEq)]
pub struct Coefficients<V> {
    /// `1/εr`.
    pub electric_gain: V,
    /// `σ·Δt / (2 ε₀ εr)`, dimensionless.
    pub electric_loss: V,
    /// `1/μr`.
    pub magnetic_gain: V,
    /// `σ*·Δt / (2 μ₀ μr)`, dimensionless.
    pub magnetic_loss: V,
}

impl<V: Scalar> Material<V> {
    /// Empty space.
    pub open spec fn empty_space() -> Material<V> {
        Material {
            relative_permittivity: number(1),
            relative_permeability: number(1),
            conductivity: number(0),
            magnetic_loss: number(0),
        }
    }

    /// Whether two materials agree in all four numbers.
    pub open spec fn matches(self, other: Material<V>) -> bool {
        &&& same(self.relative_permittivity, other.relative_permittivity)
        &&& same(self.relative_permeability, other.relative_permeability)
        &&& same(self.conductivity, other.conductivity)
        &&& same(self.magnetic_loss, other.magnetic_loss)
    }

    /// Refractive index `√(εr μr)` of the lossless part of the medium.
    pub open spec fn index_of<N: Elementary<V>>(self, math: &N) -> V {
        math.sqrt_of(times(self.relative_permittivity, self.relative_permeability))
    }

    /// Update coefficients with a time step of `step_time`.
    ///
    /// A perfect conductor is the `loss = 1` limit rather than a branch in the
    /// update: it makes the electric update `E ← (0·E + 0·curl)/2 = 0`, which
    /// is precisely the boundary condition.
    pub open spec fn coefficients_over<N: Elementary<V>>(
        self,
        math: &N,
        step_time: V,
    ) -> Coefficients<V> {
        let half_step = times(half::<V>(), step_time);
        if math.infinite_at(self.conductivity) {
            Coefficients {
                electric_gain: number(0),
                electric_loss: number(1),
                magnetic_gain: over(number(1), self.relative_permeability),
                magnetic_loss: number(0),
            }
        } else {
            Coefficients {
                electric_gain: over(number(1), self.relative_permittivity),
                electric_loss: over(
                    times(half_step, self.conductivity),
                    times(permittivity::<V, N>(math), self.relative_permittivity),
                ),
                magnetic_gain: over(number(1), self.relative_permeability),
                magnetic_loss: over(
                    times(half_step, self.magnetic_loss),
                    times(permeability::<V, N>(math), self.relative_permeability),
                ),
            }
        }
    }

    pub fn vacuum() -> (r: Material<V>)
        requires
            arithmetic::<V>(),
        ensures
            r == Material::<V>::empty_space(),
    {
        Material {
            relative_permittivity: V::from(1u8),
            relative_permeability: V::from(1u8),
            conductivity: V::from(0u8),
            magnetic_loss: V::from(0u8),
        }
    }

    /// A perfect electric conductor: tangential `E` is pinned to zero.
    pub fn perfect_conductor<N: Elementary<V>>(math: &N) -> (r: Material<V>)
        requires
            arithmetic::<V>(),
        ensures
            r == (Material { conductivity: math.infinity_of(), ..Material::<V>::empty_space() }),
    {
        let mut material = Self::vacuum();
        material.conductivity = math.infinity();
        material
    }

    /// A lossless dielectric of the given relative permittivity.
    pub fn dielectric(relative_permittivity: V) -> (r: Material<V>)
        requires
            arithmetic::<V>(),
        ensures
            r == (Material { relative_permittivity, ..Material::<V>::empty_space() }),
    {
        let mut material = Self::vacuum();
        material.relative_permittivity = relative_permittivity;
        material
    }

    /// A lossless dielectric specified by its refractive index `n = √(εr μr)`,
    /// with the permeability left at 1.
    pub fn refractive(index: V) -> (r: Material<V>)
        requires
            arithmetic::<V>(),
        ensures
            r == (Material {
                relative_permittivity: times(index, index),
                ..Material::<V>::empty_space()
            }),
    {
        Self::dielectric(index * index)
    }

    /// A conductive medium whose magnetic loss is chosen to match its
    /// wave impedance to the lossless version of itself.
    ///
    /// The matching condition is `σ*/μ = σ/ε`. A wave crossing into such a
    /// medium sees no impedance step and therefore does not reflect; it only
    /// decays. This is the mechanism behind an absorbing boundary.
    pub fn matched_lossy<N: Elementary<V>>(
        math: &N,
        relative_permittivity: V,
        conductivity: V,
    ) -> (r: Material<V>)
        requires
            arithmetic::<V>(),
        ensures
            r == (Material {
                relative_permittivity,
                relative_permeability: number(1),
                conductivity,
                magnetic_loss: over(
                    times(conductivity, permeability::<V, N>(math)),
                    times(permittivity::<V, N>(math), relative_permittivity),
                ),
            }),
            // What matching asks for, where a quotient undoes a product.
            field::<V>() && below(
                number::<V>(0),
                times(permittivity::<V, N>(math), relative_permittivity),
            ) ==> times(
                r.magnetic_loss,
                times(permittivity::<V, N>(math), r.relative_permittivity),
            ) == times(r.conductivity, permeability::<V, N>(math)),
    {
        let mu: V = vacuum_permeability(math);
        let eps: V = vacuum_permittivity(math);
        proof {
            if field::<V>() {
                parts(
                    times(conductivity, permeability::<V, N>(math)),
                    times(permittivity::<V, N>(math), relative_permittivity),
                );
            }
        }
        Material {
            relative_permittivity,
            relative_permeability: V::from(1u8),
            conductivity,
            magnetic_loss: conductivity * mu / (eps * relative_permittivity),
        }
    }

    /// Refractive index `√(εr μr)` of the lossless part of the medium.
    pub fn refractive_index<N: Elementary<V>>(&self, math: &N) -> (r: V)
        requires
            arithmetic::<V>(),
        ensures
            r == self.index_of(math),
    {
        math.sqrt(self.relative_permittivity * self.relative_permeability)
    }

    /// Update coefficients for this material on the given grid.
    ///
    /// The gains are the *material* half only. The geometric half, `c·Δt/Δ`, is
    /// per axis and per cell, so it lives in [`Grid::electric_gains`] and
    /// [`Grid::magnetic_gains`] and the two multiply in the update.
    pub fn coefficients<W: Scalar, N: Elementary<V>>(
        &self,
        math: &N,
        grid: &Grid<V, W>,
    ) -> (r: Coefficients<V>)
        requires
            arithmetic::<V>(),
        ensures
            r == self.coefficients_over(math, grid.step_time(math)),
    {
        let one = V::from(1u8);
        if math.is_infinite(self.conductivity) {
            return Coefficients {
                electric_gain: V::from(0u8),
                electric_loss: one,
                magnetic_gain: one / self.relative_permeability,
                magnetic_loss: V::from(0u8),
            };
        }
        let half_step = one_half::<V>() * grid.time_step(math);
        let mu: V = vacuum_permeability(math);
        let eps: V = vacuum_permittivity(math);
        Coefficients {
            electric_gain: one / self.relative_permittivity,
            electric_loss: half_step * self.conductivity / (eps * self.relative_permittivity),
            magnetic_gain: one / self.relative_permeability,
            magnetic_loss: half_step * self.magnetic_loss / (mu * self.relative_permeability),
        }
    }

    /// Whether two materials agree in all four numbers.
    pub fn equals(&self, other: &Material<V>) -> (r: bool)
        requires
            arithmetic::<V>(),
        ensures
            r == self.matches(*other),
    {
        self.relative_permittivity == other.relative_permittivity && self.relative_permeability
            == other.relative_permeability && self.conductivity == other.conductivity
            && self.magnetic_loss == other.magnetic_loss
    }
}

/// The palette of materials a scene can paint with.
///
/// Index 0 is always vacuum, so a freshly zeroed material index describes an
/// empty domain.
#[derive(Debug, PartialEq)]
pub struct MaterialTable<V> {
    pub materials: Vec<Material<V>>,
}

/// Position of the first entry that agrees with a material, or the length where
/// there is none.
pub open spec fn first_match<V: Scalar>(materials: Seq<Material<V>>, material: Material<V>) -> int
    decreases materials.len(),
{
    if materials.len() == 0 || materials[0].matches(material) {
        0
    } else {
        1 + first_match(materials.drop_first(), material)
    }
}

proof fn lemma_first_match<V: Scalar>(
    materials: Seq<Material<V>>,
    material: Material<V>,
    n: int,
)
    requires
        0 <= n <= materials.len(),
        forall|i: int| 0 <= i < n ==> !(#[trigger] materials[i]).matches(material),
        n == materials.len() || materials[n].matches(material),
    ensures
        first_match(materials, material) == n,
    decreases n,
{
    if n > 0 {
        assert(!materials[0].matches(material));
        let rest = materials.drop_first();
        assert forall|i: int| 0 <= i < n - 1 implies !(#[trigger] rest[i]).matches(material) by {
            assert(rest[i] == materials[i + 1]);
        }
        if n < materials.len() {
            assert(rest[n - 1] == materials[n]);
        }
        lemma_first_match(rest, material, n - 1);
    }
}

/// Whether no two entries agree.
pub open spec fn distinct<V: Scalar>(materials: Seq<Material<V>>) -> bool {
    forall|i: int, j: int|
        0 <= i < j < materials.len() ==> !(#[trigger] materials[i]).matches(
            #[trigger] materials[j],
        )
}

/// Highest refractive index among the first `n` materials that are not perfect
/// conductors, and never below one.
pub open spec fn peak_index<V: Scalar, N: Elementary<V>>(
    math: &N,
    materials: Seq<Material<V>>,
    n: int,
) -> V
    decreases n,
{
    if n <= 0 {
        number::<V>(1)
    } else {
        let peak = peak_index(math, materials, n - 1);
        if math.finite_at(materials[n - 1].conductivity) {
            greater_of(peak, materials[n - 1].index_of(math))
        } else {
            peak
        }
    }
}

impl<V: Scalar> MaterialTable<V> {
    /// Index of vacuum, which is always present.
    pub const VACUUM: u32 = 0;

    /// Index 0 is vacuum.
    pub open spec fn valid(self) -> bool {
        &&& self.materials@.len() >= 1
        &&& self.materials@[0] == Material::<V>::empty_space()
    }

    /// The coefficients of every material with a time step of `step_time`.
    pub open spec fn coefficients_over<N: Elementary<V>>(
        self,
        math: &N,
        step_time: V,
    ) -> Seq<Coefficients<V>> {
        Seq::new(
            self.materials@.len(),
            |i: int| self.materials@[i].coefficients_over(math, step_time),
        )
    }

    /// A table containing only vacuum.
    pub fn new() -> (r: Self)
        requires
            arithmetic::<V>(),
        ensures
            r.valid(),
            r.materials@ == seq![Material::<V>::empty_space()],
            distinct(r.materials@),
    {
        let mut materials: Vec<Material<V>> = Vec::new();
        materials.push(Material::vacuum());
        MaterialTable { materials }
    }

    /// Adds a material and returns its index. Duplicates are merged, so
    /// callers can add freely without growing the table.
    pub fn push(&mut self, material: Material<V>) -> (r: u32)
        requires
            arithmetic::<V>(),
            old(self).materials@.len() <= u32::MAX,
        ensures
            r == first_match(old(self).materials@, material),
            final(self).materials@ == if r < old(self).materials@.len() {
                old(self).materials@
            } else {
                old(self).materials@.push(material)
            },
            old(self).valid() ==> final(self).valid(),
            distinct(old(self).materials@) ==> distinct(final(self).materials@),
    {
        let mut i: usize = 0;
        while i < self.materials.len()
            invariant
                arithmetic::<V>(),
                self.materials@ == old(self).materials@,
                i <= self.materials@.len(),
                self.materials@.len() <= u32::MAX,
                forall|j: int| 0 <= j < i ==> !(#[trigger] self.materials@[j]).matches(material),
            decreases self.materials@.len() - i,
        {
            if self.materials[i].equals(&material) {
                proof {
                    lemma_first_match(self.materials@, material, i as int);
                }
                return i as u32;
            }
            i = i + 1;
        }
        proof {
            lemma_first_match(self.materials@, material, i as int);
        }
        self.materials.push(material);
        i as u32
    }

    pub fn get(&self, index: u32) -> (r: Material<V>)
        requires
            index < self.materials@.len(),
        ensures
            r == self.materials@[index as int],
    {
        self.materials[index as usize]
    }

    pub fn len(&self) -> (r: usize)
        ensures
            r == self.materials@.len(),
    {
        self.materials.len()
    }

    /// Always false for a table built here: vacuum occupies index 0.
    pub fn is_empty(&self) -> (r: bool)
        ensures
            r == (self.materials@.len() == 0),
            self.valid() ==> !r,
    {
        self.materials.len() == 0
    }

    /// The coefficient table to upload alongside the material indices.
    pub fn coefficients<W: Scalar, N: Elementary<V>>(
        &self,
        math: &N,
        grid: &Grid<V, W>,
    ) -> (r: Vec<Coefficients<V>>)
        requires
            arithmetic::<V>(),
        ensures
            r@ == self.coefficients_over(math, grid.step_time(math)),
    {
        let mut out: Vec<Coefficients<V>> = Vec::new();
        let mut i: usize = 0;
        while i < self.materials.len()
            invariant
                arithmetic::<V>(),
                i <= self.materials@.len(),
                out@.len() == i,
                forall|j: int|
                    0 <= j < i ==> #[trigger] out@[j] == self.materials@[j].coefficients_over(
                        math,
                        grid.step_time(math),
                    ),
            decreases self.materials@.len() - i,
        {
            out.push(self.materials[i].coefficients(math, grid));
            i = i + 1;
        }
        assert(out@ =~= self.coefficients_over(math, grid.step_time(math)));
        out
    }

    /// Highest refractive index present, which sets the resolution the grid
    /// has to meet.
    pub fn peak_refractive_index<N: Elementary<V>>(&self, math: &N) -> (r: V)
        requires
            arithmetic::<V>(),
        ensures
            r == peak_index(math, self.materials@, self.materials@.len() as int),
    {
        let mut peak: V = V::from(1u8);
        let mut i: usize = 0;
        while i < self.materials.len()
            invariant
                arithmetic::<V>(),
                i <= self.materials@.len(),
                peak == peak_index(math, self.materials@, i as int),
            decreases self.materials@.len() - i,
        {
            if math.is_finite(self.materials[i].conductivity) {
                peak = greater(peak, self.materials[i].refractive_index(math));
            }
            i = i + 1;
        }
        peak
    }
}

/// Loss leaves the gains alone: two media that differ only in what they take out
/// of the fields are driven alike.
pub proof fn loss_leaves_gain_alone<V: Scalar, N: Elementary<V>>(
    math: &N,
    step_time: V,
    a: Material<V>,
    b: Material<V>,
)
    requires
        a.relative_permittivity == b.relative_permittivity,
        a.relative_permeability == b.relative_permeability,
        !math.infinite_at(a.conductivity),
        !math.infinite_at(b.conductivity),
    ensures
        a.coefficients_over(math, step_time).electric_gain == b.coefficients_over(
            math,
            step_time,
        ).electric_gain,
        a.coefficients_over(math, step_time).magnetic_gain == b.coefficients_over(
            math,
            step_time,
        ).magnetic_gain,
{
}

/// Adding a material a second time changes nothing and gives the same index,
/// wherever a number equals itself.
pub proof fn push_is_idempotent<V: Scalar>(materials: Seq<Material<V>>, material: Material<V>)
    requires
        material.matches(material),
    ensures
        ({
            let index = first_match(materials, material);
            let after = if index < materials.len() {
                materials
            } else {
                materials.push(material)
            };
            &&& first_match(after, material) == index
            &&& index < after.len()
        }),
    decreases materials.len(),
{
    let n = first_match(materials, material);
    lemma_first_match_is_first(materials, material);
    if n >= materials.len() {
        let after = materials.push(material);
        assert forall|i: int| 0 <= i < n implies !(#[trigger] after[i]).matches(material) by {
            assert(after[i] == materials[i]);
        }
        lemma_first_match(after, material, n);
    }
}

proof fn lemma_first_match_is_first<V: Scalar>(
    materials: Seq<Material<V>>,
    material: Material<V>,
)
    ensures
        0 <= first_match(materials, material) <= materials.len(),
        first_match(materials, material) < materials.len() ==> materials[first_match(
            materials,
            material,
        )].matches(material),
        forall|i: int|
            0 <= i < first_match(materials, material) ==> !(#[trigger] materials[i]).matches(
                material,
            ),
    decreases materials.len(),
{
    if materials.len() > 0 && !materials[0].matches(material) {
        let rest = materials.drop_first();
        lemma_first_match_is_first(rest, material);
        assert forall|i: int|
            0 <= i < first_match(materials, material) implies !(#[trigger] materials[i]).matches(
            material,
        ) by {
            if i > 0 {
                assert(materials[i] == rest[i - 1]);
            }
        }
    }
}

/// Numbers equal each other the way things do.
pub open spec fn alike<V: Scalar>() -> bool {
    &&& forall|a: V, b: V| #[trigger] same(a, b) ==> same(b, a)
    &&& forall|a: V, b: V, c: V| #[trigger] same(a, b) && #[trigger] same(b, c) ==> same(a, c)
}

/// A table made by pushes holds a pushed material exactly once, at the index that
/// was returned, grows only by a material it did not hold, and leaves every earlier
/// entry where it was.
pub proof fn materials_are_held_once<V: Scalar>(
    materials: Seq<Material<V>>,
    material: Material<V>,
    k: int,
)
    requires
        alike::<V>(),
        material.matches(material),
        distinct(materials),
    ensures
        ({
            let index = first_match(materials, material);
            let after = if index < materials.len() {
                materials
            } else {
                materials.push(material)
            };
            &&& 0 <= index < after.len()
            &&& after[index].matches(material)
            &&& 0 <= k < after.len() && k != index ==> !after[k].matches(material)
            &&& 0 <= k < materials.len() ==> after[k] == materials[k]
            &&& after.len() == materials.len() + 1 <==> (forall|i: int|
                0 <= i < materials.len() ==> !(#[trigger] materials[i]).matches(material))
            &&& distinct(after)
        }),
{
    let index = first_match(materials, material);
    lemma_first_match_is_first(materials, material);
    let after = if index < materials.len() {
        materials
    } else {
        materials.push(material)
    };
    assert(after[index].matches(material));
    assert(distinct(after)) by {
        assert forall|i: int, j: int| 0 <= i < j < after.len() implies !(
        #[trigger] after[i]).matches(#[trigger] after[j]) by {
            assert(after[i] == materials[i]);
            if j < materials.len() {
                assert(after[j] == materials[j]);
            }
        }
    }
    if index < materials.len() {
        assert(materials[index].matches(material));
    }
    if 0 <= k < after.len() && k != index && after[k].matches(material) {
        // Two entries that agree with the material agree with each other.
        let (first, second) = if index < k {
            (index, k)
        } else {
            (k, index)
        };
        assert(after[first].matches(after[second])) by {
            let (a, b) = (after[first], after[second]);
            assert(a.matches(material) && b.matches(material));
            assert(same(material.relative_permittivity, b.relative_permittivity));
            assert(same(material.relative_permeability, b.relative_permeability));
            assert(same(material.conductivity, b.conductivity));
            assert(same(material.magnetic_loss, b.magnetic_loss));
        }
    }
}

/// Twice the loss a step takes, times what the medium stores, is what the medium
/// conducts in a step; and a gain is what undoes the material's own constant. A
/// perfect conductor takes everything and lets nothing in.
pub proof fn losses_are_what_a_step_conducts<V: Scalar, N: Elementary<V>>(
    math: &N,
    material: Material<V>,
    step_time: V,
)
    requires
        field::<V>(),
        below(
            number::<V>(0),
            times(permittivity::<V, N>(math), material.relative_permittivity),
        ),
        below(
            number::<V>(0),
            times(permeability::<V, N>(math), material.relative_permeability),
        ),
        below(number::<V>(0), material.relative_permittivity),
        below(number::<V>(0), material.relative_permeability),
    ensures
        ({
            let update = material.coefficients_over(math, step_time);
            let (eps, mu) = (
                times(permittivity::<V, N>(math), material.relative_permittivity),
                times(permeability::<V, N>(math), material.relative_permeability),
            );
            &&& times(update.magnetic_gain, material.relative_permeability) == number::<V>(1)
            &&& if math.infinite_at(material.conductivity) {
                &&& update.electric_loss == number::<V>(1)
                &&& update.electric_gain == number::<V>(0)
                &&& update.magnetic_loss == number::<V>(0)
            } else {
                &&& times(plus(update.electric_loss, update.electric_loss), eps) == times(
                    material.conductivity,
                    step_time,
                )
                &&& times(plus(update.magnetic_loss, update.magnetic_loss), mu) == times(
                    material.magnetic_loss,
                    step_time,
                )
                &&& times(update.electric_gain, material.relative_permittivity) == number::<V>(1)
            }
        }),
{
    let (eps, mu) = (
        times(permittivity::<V, N>(math), material.relative_permittivity),
        times(permeability::<V, N>(math), material.relative_permeability),
    );
    parts(number::<V>(1), material.relative_permeability);
    parts(number::<V>(1), material.relative_permittivity);
    lemma_twice_a_loss(step_time, material.conductivity, eps);
    lemma_twice_a_loss(step_time, material.magnetic_loss, mu);
}

proof fn lemma_twice_a_loss<V: Scalar>(step_time: V, rate: V, stored: V)
    requires
        field::<V>(),
        below(number::<V>(0), stored),
    ensures
        ({
            let loss = over(times(times(half::<V>(), step_time), rate), stored);
            times(plus(loss, loss), stored) == times(rate, step_time)
        }),
{
    let part = times(times(half::<V>(), step_time), rate);
    let loss = over(part, stored);
    let whole = times(step_time, rate);
    parts(part, stored);
    multiply_commutes(plus(loss, loss), stored);
    multiply_spreads(stored, loss, loss);
    multiply_commutes(stored, loss);
    // part + part = half·whole + half·whole = whole.
    multiply_regroups(half::<V>(), step_time, rate);
    multiply_spreads(half::<V>(), whole, whole);
    parts(whole, whole);
    multiply_commutes(step_time, rate);
}

/// Losses grow with the time step: a step as long as two takes what the two take
/// together, and no time takes nothing.
pub proof fn losses_grow_with_the_step<V: Scalar, N: Elementary<V>>(
    math: &N,
    material: Material<V>,
    first: V,
    second: V,
)
    requires
        field::<V>(),
        below(
            number::<V>(0),
            times(permittivity::<V, N>(math), material.relative_permittivity),
        ),
        below(
            number::<V>(0),
            times(permeability::<V, N>(math), material.relative_permeability),
        ),
        below(number::<V>(0), material.relative_permittivity),
        below(number::<V>(0), material.relative_permeability),
        !math.infinite_at(material.conductivity),
    ensures
        ({
            let (a, b, both) = (
                material.coefficients_over(math, first),
                material.coefficients_over(math, second),
                material.coefficients_over(math, plus(first, second)),
            );
            let still = material.coefficients_over(math, number::<V>(0));
            &&& both.electric_loss == plus(a.electric_loss, b.electric_loss)
            &&& both.magnetic_loss == plus(a.magnetic_loss, b.magnetic_loss)
            &&& still.electric_loss == number::<V>(0)
            &&& still.magnetic_loss == number::<V>(0)
        }),
{
    let (eps, mu) = (
        times(permittivity::<V, N>(math), material.relative_permittivity),
        times(permeability::<V, N>(math), material.relative_permeability),
    );
    lemma_losses_add(first, second, material.conductivity, eps);
    lemma_losses_add(first, second, material.magnetic_loss, mu);
}

proof fn lemma_losses_add<V: Scalar>(first: V, second: V, rate: V, stored: V)
    requires
        field::<V>(),
        below(number::<V>(0), stored),
    ensures
        over(times(times(half::<V>(), plus(first, second)), rate), stored) == plus(
            over(times(times(half::<V>(), first), rate), stored),
            over(times(times(half::<V>(), second), rate), stored),
        ),
        over(times(times(half::<V>(), number::<V>(0)), rate), stored) == number::<V>(0),
{
    let h = half::<V>();
    let (a, b) = (times(times(h, first), rate), times(times(h, second), rate));
    let (p, q) = (over(a, stored), over(b, stored));
    let both = times(times(h, plus(first, second)), rate);
    multiply_spreads(h, first, second);
    multiply_commutes(plus(times(h, first), times(h, second)), rate);
    multiply_spreads(rate, times(h, first), times(h, second));
    multiply_commutes(rate, times(h, first));
    multiply_commutes(rate, times(h, second));
    parts(a, stored);
    parts(b, stored);
    parts(both, stored);
    multiply_commutes(plus(p, q), stored);
    multiply_spreads(stored, p, q);
    multiply_commutes(stored, p);
    multiply_commutes(stored, q);
    factors_come_off(over(both, stored), plus(p, q), stored);
    multiply_by_nothing(h);
    multiply_by_nothing(rate);
    parts(number::<V>(0), stored);
    multiply_by_nothing(stored);
    factors_come_off(over(number::<V>(0), stored), number::<V>(0), stored);
}

/// A matched medium takes from both fields alike, so a wave meets no step in
/// impedance.
pub proof fn matched_losses_are_equal<V: Scalar, N: Elementary<V>>(
    math: &N,
    material: Material<V>,
    step_time: V,
)
    requires
        field::<V>(),
        below(
            number::<V>(0),
            times(permittivity::<V, N>(math), material.relative_permittivity),
        ),
        below(number::<V>(0), permeability::<V, N>(math)),
        material.relative_permeability == number::<V>(1),
        // The magnetic loss is what matching asks for.
        times(
            material.magnetic_loss,
            times(permittivity::<V, N>(math), material.relative_permittivity),
        ) == times(material.conductivity, permeability::<V, N>(math)),
        !math.infinite_at(material.conductivity),
    ensures
        material.coefficients_over(math, step_time).electric_loss == material.coefficients_over(
            math,
            step_time,
        ).magnetic_loss,
{
    let eps = times(permittivity::<V, N>(math), material.relative_permittivity);
    let mu = permeability::<V, N>(math);
    let hs = times(half::<V>(), step_time);
    let (s, m) = (material.conductivity, material.magnetic_loss);
    parts(mu, mu);
    let (e, h) = (over(times(hs, s), eps), over(times(hs, m), mu));
    parts(times(hs, s), eps);
    parts(times(hs, m), mu);
    // (e·eps)·mu = hs·(s·mu) = hs·(m·eps) = (h·mu)·eps.
    multiply_regroups(hs, s, mu);
    multiply_regroups(hs, m, eps);
    multiply_regroups(e, eps, mu);
    multiply_commutes(eps, mu);
    multiply_regroups(e, mu, eps);
    multiply_regroups(h, mu, eps);
    multiply_regroups(e, mu, eps);
    factors_come_off(times(e, mu), times(h, mu), eps);
    factors_come_off(e, h, mu);
}

/// The index a medium was made from is the index it has, where the root of a square
/// is what was squared.
pub proof fn refractive_media_have_their_index<V: Scalar, N: Elementary<V>>(
    math: &N,
    material: Material<V>,
    index: V,
)
    requires
        field::<V>(),
        math.sqrt_of(times(index, index)) == index,
        material.relative_permittivity == times(index, index),
        material.relative_permeability == number::<V>(1),
    ensures
        material.index_of(math) == index,
{
    parts(times(index, index), index);
}

/// The peak index is at or above that of every medium waves enter, and never below
/// one; conductors have no part in it.
pub proof fn the_peak_index_is_the_highest<V: Scalar, N: Elementary<V>>(
    math: &N,
    materials: Seq<Material<V>>,
    n: int,
    i: int,
)
    requires
        ordered::<V>(),
        0 <= i < n <= materials.len(),
    ensures
        at_most(number::<V>(1), peak_index(math, materials, n)),
        math.finite_at(materials[i].conductivity) ==> at_most(
            materials[i].index_of(math),
            peak_index(math, materials, n),
        ),
        peak_index(math, materials, n) == number::<V>(1) || exists|k: int|
            0 <= k < n && math.finite_at((#[trigger] materials[k]).conductivity)
                && materials[k].index_of(math) == peak_index(math, materials, n),
    decreases n,
{
    reveal(ordered);
    let before = peak_index(math, materials, n - 1);
    let last = materials[n - 1].index_of(math);
    assert(at_most(before, before) && at_most(last, last));
    if below(before, last) {
        assert(at_most(before, last));
    } else {
        assert(at_most(last, before));
    }
    if n > 1 {
        the_peak_index_is_the_highest(math, materials, n - 1, if i < n - 1 {
            i
        } else {
            0
        });
        if before != number::<V>(1) {
            let k = choose|k: int|
                0 <= k < n - 1 && math.finite_at((#[trigger] materials[k]).conductivity)
                    && materials[k].index_of(math) == before;
            assert(materials[k].index_of(math) == before);
        }
    } else {
        assert(at_most(number::<V>(1), number::<V>(1)));
    }
    assert(materials[n - 1].index_of(math) == last);
}

/// Materials that agree behave alike: merging them changes no update and no index.
pub proof fn materials_that_match_behave_alike<V: Scalar, N: Elementary<V>>(
    math: &N,
    a: Material<V>,
    b: Material<V>,
    step_time: V,
)
    requires
        forall|x: V, y: V| #[trigger] same(x, y) <==> x == y,
    ensures
        a.matches(b) <==> a == b,
        a.matches(b) ==> a.coefficients_over(math, step_time) == b.coefficients_over(
            math,
            step_time,
        ) && a.index_of(math) == b.index_of(math),
{
}

} // verus!
