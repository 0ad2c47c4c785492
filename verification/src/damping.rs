//! What a loss takes from a field.
//!
//! An update takes a loss half from the field before it and half from the field after
//! it, which is what makes any loss stable; a perfect conductor is the end of that
//! scale. Where the loss comes from is the material, and the layer at the walls, read
//! where each component sits. All of it is said of arithmetic that does not round.

use crate::algebra::{
    add_commutes, add_nothing, add_regroups, add_swaps, multiply_by_nothing, multiply_commutes,
    multiply_spreads, multiply_spreads_over_difference, negatives, ring, take_away,
};
use crate::boundary::AbsorbingProfile;
use crate::grid::Axis;
use crate::lattice::Cell;
use crate::order::{factors_come_off, field, parts};
use crate::scalar::{below, minus, negative, number, over, plus, times, Scalar};
use crate::stencil::{relaxed, Direction, Half, Medium};
use crate::waves::sampled;
use vstd::prelude::*;

verus! {

/// A step changes a field by what the curl pushes, less the loss of the field before
/// and of the field after: `E` gains the push and `H` gives it up.
pub proof fn losses_are_centred_in_time<V: Scalar>(half: Half, before: V, loss: V, push: V)
    requires
        field::<V>(),
        below(number::<V>(0), plus(number::<V>(1), loss)),
    ensures
        ({
            let after = relaxed(half, Direction::Forward, before, loss, push);
            let drag = times(loss, plus(before, after));
            plus(minus(after, before), drag) == match half {
                Half::Electric => push,
                Half::Magnetic => negative(push),
            }
        }),
{
    let one = number::<V>(1);
    let after = relaxed(half, Direction::Forward, before, loss, push);
    let (less, more) = (minus(one, loss), plus(one, loss));
    let given = match half {
        Half::Electric => push,
        Half::Magnetic => negative(push),
    };
    let kept = times(less, before);
    take_away(kept, push);
    parts(plus(kept, given), more);
    assert(times(after, more) == plus(kept, given));
    // after·(1 + l) = after + l·after, and (1 - l)·before = before - l·before.
    multiply_spreads(after, one, loss);
    multiply_commutes(after, loss);
    parts(after, after);
    multiply_spreads_over_difference(before, one, loss);
    multiply_commutes(before, one);
    multiply_commutes(before, loss);
    multiply_commutes(less, before);
    parts(before, before);
    multiply_spreads(loss, before, after);
    let (a, b) = (times(loss, after), times(loss, before));
    // after + a = (before - b) + given, so (after - before) + (b + a) = given.
    take_away(before, b);
    take_away(after, before);
    lemma_balance(after, a, before, b, given);
}

/// From `p + a = (q + -b) + g` follows `(p + -q) + (b + a) = g`.
proof fn lemma_balance<V: Scalar>(p: V, a: V, q: V, b: V, g: V)
    requires
        ring::<V>(),
        plus(p, a) == plus(plus(q, negative(b)), g),
    ensures
        plus(plus(p, negative(q)), plus(b, a)) == g,
{
    // (p - q) + (b + a) = (p + a) + (b - q).
    add_commutes(b, a);
    add_swaps(p, negative(q), a, b);
    add_commutes(negative(q), b);
    // ((q - b) + g) + (b - q) = g.
    let (forth, back) = (plus(q, negative(b)), plus(b, negative(q)));
    add_regroups(forth, g, back);
    add_commutes(g, back);
    add_regroups(forth, back, g);
    add_swaps(q, negative(b), b, negative(q));
    // (q + b) + (-b + -q) = nothing.
    add_commutes(negative(b), negative(q));
    negatives(q, b);
    take_away(plus(q, b), plus(q, b));
    add_nothing(g);
}

/// A perfect conductor leaves no field, whatever was there and whatever pushes.
pub proof fn conductors_hold_no_field<V: Scalar>(half: Half, before: V, curl: V)
    requires
        field::<V>(),
        below(number::<V>(0), plus(number::<V>(1), number::<V>(1))),
    ensures
        relaxed(
            half,
            Direction::Forward,
            before,
            number::<V>(1),
            times(number::<V>(0), curl),
        ) == number::<V>(0),
{
    let (zero, one) = (number::<V>(0), number::<V>(1));
    let two = plus(one, one);
    multiply_by_nothing(curl);
    take_away(one, one);
    multiply_by_nothing(before);
    take_away(zero, zero);
    negatives(zero, zero);
    add_nothing(zero);
    parts(zero, two);
    multiply_by_nothing(two);
    factors_come_off(over(zero, two), zero, two);
}

/// What the layer takes at a place along an axis, counted in half cells from the low
/// wall.
pub open spec fn layer_at<V: Scalar>(
    absorber: AbsorbingProfile<V>,
    along: Axis,
    half_cells: int,
) -> V {
    if half_cells % 2 == 0 {
        absorber.integer@[along.position()]@[half_cells / 2]
    } else {
        absorber.half@[along.position()]@[half_cells / 2]
    }
}

/// The loss of a component is its material's and what the layers of the three axes
/// take where the component itself sits.
pub proof fn losses_add_up_where_the_field_sits<V: Scalar>(
    medium: Medium<V>,
    half: Half,
    axis: Axis,
    cell: Cell,
)
    requires
        ring::<V>(),
    ensures
        ({
            let spot = sampled(half, axis, cell, 0);
            let own = match half {
                Half::Electric => medium.coefficients_at(cell).electric_loss,
                Half::Magnetic => medium.coefficients_at(cell).magnetic_loss,
            };
            medium.loss(half, axis, cell) == plus(
                own,
                plus(
                    plus(
                        layer_at(medium.absorber, Axis::X, spot.x),
                        layer_at(medium.absorber, Axis::Y, spot.y),
                    ),
                    layer_at(medium.absorber, Axis::Z, spot.z),
                ),
            )
        }),
{
    let spot = sampled(half, axis, cell, 0);
    let own = match half {
        Half::Electric => medium.coefficients_at(cell).electric_loss,
        Half::Magnetic => medium.coefficients_at(cell).magnetic_loss,
    };
    let (x, y, z) = (
        layer_at(medium.absorber, Axis::X, spot.x),
        layer_at(medium.absorber, Axis::Y, spot.y),
        layer_at(medium.absorber, Axis::Z, spot.z),
    );
    add_regroups(own, plus(y, z), x);
    add_commutes(plus(y, z), x);
    add_regroups(x, y, z);
}

} // verus!
