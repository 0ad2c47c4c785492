//! What the camera sees, and how bright.
//!
//! The camera looks at the centre of the domain from its distance, with the horizon
//! level and the image at right angles to the way it looks; the brightness undoes the
//! peak it is measured from. All of it is said of arithmetic that does not round.

use crate::algebra::{
    add_commutes, add_nothing, add_regroups, multiply_by_nothing, multiply_commutes,
    multiply_regroups, multiply_spreads, multiply_spreads_over_difference, negatives, ring,
    take_away,
};
use crate::camera::{crossed, stretched, unit, Camera, CameraBasis};
use crate::grading::ordered;
use crate::grid::Extent;
use crate::numerics::Elementary;
use crate::order::{
    below_through, factors_come_off, field, lemma_square_of_product, one_way_or_the_other, parts,
    products_keep_order, sums_keep_order,
};
use crate::scalar::{
    at_most, below, greater_of, half, minus, negative, number, over, plus, same, times, Scalar,
};
use crate::shapes::lemma_turning_keeps_squares;
use crate::view::{reference_length, rescaled, ViewMode, ViewSettings};
use vstd::prelude::*;

verus! {

/// The inner product.
pub open spec fn dot<V: Scalar>(a: Seq<V>, b: Seq<V>) -> V {
    plus(plus(times(a[0], b[0]), times(a[1], b[1])), times(a[2], b[2]))
}

/// Walking forward from the camera by its distance, in longest sides of the domain,
/// ends at the centre of the domain.
pub proof fn the_camera_looks_at_the_centre<V: Scalar, N: Elementary<V>>(
    math: &N,
    camera: Camera<V>,
    size: Seq<V>,
    aspect: V,
    basis: CameraBasis<V>,
    a: int,
)
    requires
        ring::<V>(),
        camera.frames(math, size, aspect, basis),
        0 <= a < 3,
    ensures
        plus(
            basis.position@[a],
            times(
                basis.forward@[a],
                times(camera.distance, greater_of(greater_of(size[0], size[1]), size[2])),
            ),
        ) == times(half::<V>(), size[a]),
{
    let radius = greater_of(greater_of(size[0], size[1]), size[2]);
    let away = camera.away(math)[a];
    let middle = times(half::<V>(), size[a]);
    let reach = times(times(away, camera.distance), radius);
    assert(basis.position@[a] == plus(middle, reach));
    assert(basis.forward@[a] == negative(away));
    multiply_regroups(away, camera.distance, radius);
    negatives(away, times(camera.distance, radius));
    add_regroups(middle, reach, negative(reach));
    take_away(reach, reach);
    add_nothing(middle);
}

/// A vector product is at right angles to both factors.
proof fn lemma_cross_is_across<V: Scalar>(a: Seq<V>, b: Seq<V>)
    requires
        ring::<V>(),
    ensures
        dot(crossed(a, b), a) == number::<V>(0),
        dot(crossed(a, b), b) == number::<V>(0),
{
    lemma_determinant(a[0], a[1], a[2], b[0], b[1], b[2]);
    lemma_determinant(b[0], b[1], b[2], a[0], a[1], a[2]);
    // Swapping the factors turns each part round.
    let c = crossed(a, b);
    let d = crossed(b, a);
    lemma_swapped_part(a[1], b[2], a[2], b[1]);
    lemma_swapped_part(a[2], b[0], a[0], b[2]);
    lemma_swapped_part(a[0], b[1], a[1], b[0]);
    negatives(d[0], b[0]);
    negatives(d[1], b[1]);
    negatives(d[2], b[2]);
    let (p, q, r) = (times(d[0], b[0]), times(d[1], b[1]), times(d[2], b[2]));
    negatives(p, q);
    negatives(plus(p, q), r);
}

/// `p·q - r·s = -(s·r - q·p)`.
proof fn lemma_swapped_part<V: Scalar>(p: V, q: V, r: V, s: V)
    requires
        ring::<V>(),
    ensures
        minus(times(p, q), times(r, s)) == negative(minus(times(s, r), times(q, p))),
{
    multiply_commutes(p, q);
    multiply_commutes(r, s);
    negatives(times(s, r), times(q, p));
}

/// A determinant with two equal rows is nothing.
proof fn lemma_determinant<V: Scalar>(a: V, b: V, c: V, x: V, y: V, z: V)
    requires
        ring::<V>(),
    ensures
        plus(
            plus(
                times(minus(times(b, z), times(c, y)), a),
                times(minus(times(c, x), times(a, z)), b),
            ),
            times(minus(times(a, y), times(b, x)), c),
        ) == number::<V>(0),
{
    multiply_spreads_over_difference(a, times(b, z), times(c, y));
    multiply_spreads_over_difference(b, times(c, x), times(a, z));
    multiply_spreads_over_difference(c, times(a, y), times(b, x));
    let (bza, cya) = (times(times(b, z), a), times(times(c, y), a));
    let (cxb, azb) = (times(times(c, x), b), times(times(a, z), b));
    let (ayc, bxc) = (times(times(a, y), c), times(times(b, x), c));
    lemma_ends_swap(b, z, a);
    lemma_ends_swap(c, y, a);
    lemma_ends_swap(c, x, b);
    assert(bza == azb && cya == ayc && cxb == bxc);
    // (p - q) + (r - p) + (q - r) = nothing.
    take_away(bza, cya);
    take_away(cxb, bza);
    take_away(cya, cxb);
    let (p, q, r) = (bza, cya, cxb);
    add_commutes(plus(p, negative(q)), plus(r, negative(p)));
    add_regroups(r, negative(p), plus(p, negative(q)));
    add_regroups(negative(p), p, negative(q));
    add_commutes(negative(p), p);
    take_away(p, p);
    add_nothing(negative(q));
    // (r - q) + (q - r).
    add_regroups(r, negative(q), plus(q, negative(r)));
    add_regroups(negative(q), q, negative(r));
    add_commutes(negative(q), q);
    take_away(q, q);
    add_nothing(negative(r));
    take_away(r, r);
}

/// `(a·b)·c = (c·b)·a`.
proof fn lemma_ends_swap<V: Scalar>(a: V, b: V, c: V)
    requires
        ring::<V>(),
    ensures
        times(times(a, b), c) == times(times(c, b), a),
{
    multiply_commutes(times(a, b), c);
    multiply_commutes(a, b);
    multiply_regroups(c, b, a);
}

/// A stretched vector's inner products are stretched.
proof fn lemma_stretched_dot<V: Scalar>(a: Seq<V>, factor: V, b: Seq<V>)
    requires
        ring::<V>(),
    ensures
        dot(stretched(a, factor), b) == times(dot(a, b), factor),
        dot(b, stretched(a, factor)) == times(dot(a, b), factor),
{
    lemma_factor_out(a[0], factor, b[0]);
    lemma_factor_out(a[1], factor, b[1]);
    lemma_factor_out(a[2], factor, b[2]);
    let (p, q, r) = (times(a[0], b[0]), times(a[1], b[1]), times(a[2], b[2]));
    multiply_commutes(p, factor);
    multiply_commutes(q, factor);
    multiply_commutes(r, factor);
    multiply_spreads(factor, p, q);
    multiply_spreads(factor, plus(p, q), r);
    multiply_commutes(dot(a, b), factor);
    multiply_commutes(times(a[0], factor), b[0]);
    multiply_commutes(times(a[1], factor), b[1]);
    multiply_commutes(times(a[2], factor), b[2]);
}

/// `(a·f)·b = (a·b)·f`.
proof fn lemma_factor_out<V: Scalar>(a: V, f: V, b: V)
    requires
        ring::<V>(),
    ensures
        times(times(a, f), b) == times(times(a, b), f),
{
    multiply_regroups(a, f, b);
    multiply_commutes(f, b);
    multiply_regroups(a, b, f);
}

/// A vector over its length, stretched by its length, is the vector; and it has
/// length one.
proof fn lemma_unit<V: Scalar, N: Elementary<V>>(math: &N, v: Seq<V>)
    requires
        field::<V>(),
        ({
            let norm = math.sqrt_of(dot(v, v));
            below(number::<V>(0), norm) && times(norm, norm) == dot(v, v)
        }),
    ensures
        ({
            let (u, norm) = (unit(math, v), math.sqrt_of(dot(v, v)));
            &&& times(u[0], norm) == v[0]
            &&& times(u[1], norm) == v[1]
            &&& times(u[2], norm) == v[2]
            &&& dot(u, u) == number::<V>(1)
        }),
{
    let norm = math.sqrt_of(dot(v, v));
    let u = unit(math, v);
    parts(v[0], norm);
    parts(v[1], norm);
    parts(v[2], norm);
    lemma_square_of_product(u[0], norm);
    lemma_square_of_product(u[1], norm);
    lemma_square_of_product(u[2], norm);
    let square = times(norm, norm);
    let (p, q, r) = (times(u[0], u[0]), times(u[1], u[1]), times(u[2], u[2]));
    multiply_commutes(p, square);
    multiply_commutes(q, square);
    multiply_commutes(r, square);
    multiply_spreads(square, p, q);
    multiply_spreads(square, plus(p, q), r);
    multiply_commutes(dot(u, u), square);
    multiply_by_nothing(norm);
    products_keep_order(number::<V>(0), norm, norm);
    parts(square, square);
    factors_come_off(dot(u, u), number::<V>(1), square);
}

/// The image is at right angles to the way the camera looks, its two sides are at
/// right angles to each other, and the horizon is level.
pub proof fn the_image_is_square_to_the_view<V: Scalar, N: Elementary<V>>(
    math: &N,
    camera: Camera<V>,
    size: Seq<V>,
    aspect: V,
    basis: CameraBasis<V>,
)
    requires
        field::<V>(),
        camera.frames(math, size, aspect, basis),
        ({
            let side = crossed(
                camera.ahead(math),
                seq![number::<V>(0), number::<V>(1), number::<V>(0)],
            );
            let norm = math.sqrt_of(dot(side, side));
            below(number::<V>(0), norm) && times(norm, norm) == dot(side, side)
        }),
    ensures
        dot(basis.right@, basis.forward@) == number::<V>(0),
        dot(basis.up@, basis.forward@) == number::<V>(0),
        dot(basis.up@, basis.right@) == number::<V>(0),
        basis.right@[1] == number::<V>(0),
{
    let (zero, one) = (number::<V>(0), number::<V>(1));
    let ahead = camera.ahead(math);
    let side = crossed(ahead, seq![zero, one, zero]);
    let norm = math.sqrt_of(dot(side, side));
    let right = camera.rightward(math);
    let tangent = math.tan_of(times(half::<V>(), camera.fov));
    lemma_unit(math, side);
    lemma_cross_is_across(ahead, seq![zero, one, zero]);
    // side = right·norm, so right is across the view too.
    assert(stretched(right, norm) =~= side);
    lemma_stretched_dot(right, norm, ahead);
    multiply_by_nothing(norm);
    factors_come_off(dot(right, ahead), zero, norm);
    let up = crossed(right, ahead);
    lemma_cross_is_across(right, ahead);
    lemma_stretched_dot(right, tangent, ahead);
    lemma_stretched_dot(stretched(right, tangent), aspect, ahead);
    lemma_stretched_dot(up, tangent, ahead);
    multiply_by_nothing(tangent);
    multiply_by_nothing(aspect);
    lemma_stretched_dot(right, tangent, up);
    lemma_stretched_dot(stretched(right, tangent), aspect, up);
    lemma_dot_commutes(up, right);
    lemma_stretched_dot(up, tangent, basis.right@);
    lemma_dot_commutes(up, basis.right@);
    // The side of a view is level: its middle part is f2·0 - f0·0.
    multiply_by_nothing(ahead[2]);
    multiply_by_nothing(ahead[0]);
    take_away(zero, zero);
    negatives(zero, zero);
    add_nothing(zero);
    assert(side[1] == zero);
    factors_come_off(right[1], zero, norm);
}

proof fn lemma_dot_commutes<V: Scalar>(a: Seq<V>, b: Seq<V>)
    requires
        ring::<V>(),
    ensures
        dot(a, b) == dot(b, a),
{
    multiply_commutes(a[0], b[0]);
    multiply_commutes(a[1], b[1]);
    multiply_commutes(a[2], b[2]);
}

/// The image reaches as far up as half of the field of view does, and as much further
/// to the side as it is wider than high.
pub proof fn the_image_spans_the_field_of_view<V: Scalar, N: Elementary<V>>(
    math: &N,
    camera: Camera<V>,
    size: Seq<V>,
    aspect: V,
    basis: CameraBasis<V>,
)
    requires
        field::<V>(),
        camera.frames(math, size, aspect, basis),
        forall|x: V|
            plus(
                times(#[trigger] math.sin_of(x), math.sin_of(x)),
                times(math.cos_of(x), math.cos_of(x)),
            ) == number::<V>(1),
        ({
            let side = crossed(
                camera.ahead(math),
                seq![number::<V>(0), number::<V>(1), number::<V>(0)],
            );
            let norm = math.sqrt_of(dot(side, side));
            below(number::<V>(0), norm) && times(norm, norm) == dot(side, side)
        }),
    ensures
        ({
            let tangent = math.tan_of(times(half::<V>(), camera.fov));
            &&& dot(basis.forward@, basis.forward@) == number::<V>(1)
            &&& dot(basis.up@, basis.up@) == times(tangent, tangent)
            &&& dot(basis.right@, basis.right@) == times(
                times(tangent, tangent),
                times(aspect, aspect),
            )
        }),
{
    let (zero, one) = (number::<V>(0), number::<V>(1));
    let ahead = camera.ahead(math);
    let side = crossed(ahead, seq![zero, one, zero]);
    let norm = math.sqrt_of(dot(side, side));
    let right = camera.rightward(math);
    let tangent = math.tan_of(times(half::<V>(), camera.fov));
    lemma_unit(math, side);
    lemma_view_is_unit(math, camera);
    the_image_is_square_to_the_view(math, camera, size, aspect, basis);
    // Right.
    lemma_stretched_dot(right, tangent, right);
    lemma_stretched_dot(right, tangent, stretched(right, tangent));
    lemma_stretched_dot(
        stretched(right, tangent),
        aspect,
        stretched(right, tangent),
    );
    lemma_stretched_dot(stretched(right, tangent), aspect, basis.right@);
    parts(tangent, tangent);
    multiply_regroups(times(tangent, tangent), aspect, aspect);
    // Up: with the horizon level, its parts are -r2·f1, r2·f0 - r0·f2 and r0·f1.
    let up = crossed(right, ahead);
    lemma_cross_is_across(ahead, seq![zero, one, zero]);
    assert(stretched(right, norm) =~= side);
    lemma_stretched_dot(right, norm, ahead);
    multiply_by_nothing(norm);
    factors_come_off(dot(right, ahead), zero, norm);
    assert(right[1] == zero) by {
        multiply_by_nothing(ahead[2]);
        multiply_by_nothing(ahead[0]);
        take_away(zero, zero);
        negatives(zero, zero);
        add_nothing(zero);
        assert(side[1] == zero);
        factors_come_off(right[1], zero, norm);
    }
    lemma_up_is_unit(right, ahead);
    lemma_stretched_dot(up, tangent, up);
    lemma_stretched_dot(up, tangent, stretched(up, tangent));
}

/// The way a camera looks has length one.
proof fn lemma_view_is_unit<V: Scalar, N: Elementary<V>>(math: &N, camera: Camera<V>)
    requires
        field::<V>(),
        forall|x: V|
            plus(
                times(#[trigger] math.sin_of(x), math.sin_of(x)),
                times(math.cos_of(x), math.cos_of(x)),
            ) == number::<V>(1),
    ensures
        dot(camera.ahead(math), camera.ahead(math)) == number::<V>(1),
{
    let (sp, cp) = (math.sin_of(camera.pitch), math.cos_of(camera.pitch));
    let (sy, cy) = (math.sin_of(camera.yaw), math.cos_of(camera.yaw));
    let (x, y, z) = (times(cp, sy), sp, times(cp, cy));
    negatives(x, negative(x));
    negatives(x, x);
    negatives(y, negative(y));
    negatives(y, y);
    negatives(z, negative(z));
    negatives(z, z);
    negatives(times(x, x), x);
    negatives(times(y, y), x);
    negatives(times(z, z), x);
    // cp²·sy² + cp²·cy² = cp², and cp² + sp² = 1.
    lemma_square_of_product(cp, sy);
    lemma_square_of_product(cp, cy);
    let (c, s, t) = (times(cp, cp), times(sy, sy), times(cy, cy));
    multiply_spreads(c, s, t);
    parts(c, c);
    let (xx, yy, zz) = (times(x, x), times(y, y), times(z, z));
    add_regroups(xx, yy, zz);
    add_commutes(yy, zz);
    add_regroups(xx, zz, yy);
    add_commutes(c, yy);
    assert(plus(times(sp, sp), times(cp, cp)) == number::<V>(1));
    assert(plus(times(sy, sy), times(cy, cy)) == number::<V>(1));
}

/// Of two unit vectors at right angles, the first of them level, the vector product
/// has length one.
proof fn lemma_up_is_unit<V: Scalar>(r: Seq<V>, f: Seq<V>)
    requires
        field::<V>(),
        dot(r, r) == number::<V>(1),
        dot(f, f) == number::<V>(1),
        dot(r, f) == number::<V>(0),
        r[1] == number::<V>(0),
    ensures
        dot(crossed(r, f), crossed(r, f)) == number::<V>(1),
{
    let zero = number::<V>(0);
    let up = crossed(r, f);
    multiply_by_nothing(zero);
    multiply_by_nothing(f[0]);
    multiply_by_nothing(f[1]);
    multiply_by_nothing(f[2]);
    let (rr, ss) = (times(r[0], r[0]), times(r[2], r[2]));
    add_nothing(rr);
    assert(plus(rr, ss) == number::<V>(1));
    add_nothing(times(r[0], f[0]));
    assert(plus(times(r[0], f[0]), times(r[2], f[2])) == zero);
    // Up is (-r2·f1, r2·f0 - r0·f2, r0·f1).
    take_away(zero, times(r[2], f[1]));
    add_nothing(negative(times(r[2], f[1])));
    lemma_without_nothing(times(r[0], f[1]));
    let (a, b, c) = (times(r[2], f[1]), up[1], times(r[0], f[1]));
    assert(up[0] == negative(a) && up[2] == c);
    negatives(a, negative(a));
    negatives(a, a);
    negatives(times(a, a), a);
    // a² + c² = f1², and b² = f0² + f2².
    lemma_square_of_product(r[2], f[1]);
    lemma_square_of_product(r[0], f[1]);
    let ff = times(f[1], f[1]);
    multiply_commutes(rr, ff);
    multiply_commutes(ss, ff);
    multiply_spreads(ff, rr, ss);
    parts(ff, ff);
    add_commutes(rr, ss);
    lemma_turning_keeps_squares(r[2], r[0], f[0], f[2]);
    add_nothing(times(b, b));
    let (aa, bb, cc) = (times(a, a), times(b, b), times(c, c));
    add_regroups(aa, bb, cc);
    add_commutes(bb, cc);
    add_regroups(aa, cc, bb);
    add_commutes(aa, cc);
    // f1² + (f0² + f2²) = f0² + f1² + f2².
    let (p, q) = (times(f[0], f[0]), times(f[2], f[2]));
    add_regroups(ff, p, q);
    add_commutes(ff, p);
}

proof fn lemma_without_nothing<V: Scalar>(a: V)
    requires
        ring::<V>(),
    ensures
        minus(a, number::<V>(0)) == a,
{
    let zero = number::<V>(0);
    take_away(a, zero);
    negatives(zero, zero);
    add_nothing(a);
}

/// A peak as bright as the scale is shown at the gain: an energy as it is, an
/// amplitude by its square, which is twice an energy.
pub proof fn the_loudest_cell_is_shown_at_the_gain<V: Scalar, N: Elementary<V>>(
    math: &N,
    settings: ViewSettings<V>,
    reference: V,
)
    requires
        field::<V>(),
        below(number::<V>(0), reference),
        ({
            let root = math.sqrt_of(times(number::<V>(2), reference));
            &&& below(number::<V>(0), root)
            &&& times(root, root) == times(number::<V>(2), reference)
        }),
    ensures
        ({
            let exposure = settings.exposure_at(math, reference);
            match settings.mode {
                ViewMode::Electric | ViewMode::Magnetic | ViewMode::Fields
                | ViewMode::Ribbons => times(
                    times(exposure, exposure),
                    times(number::<V>(2), reference),
                ) == times(settings.gain, settings.gain),
                _ => times(exposure, reference) == settings.gain,
            }
        }),
{
    let root = math.sqrt_of(times(number::<V>(2), reference));
    parts(settings.gain, reference);
    parts(settings.gain, root);
    lemma_square_of_product(over(settings.gain, root), root);
}

/// The scale follows a peak without passing it, faster up than down.
pub proof fn the_scale_follows_the_peak<V: Scalar, N: Elementary<V>>(
    math: &N,
    scale: V,
    measured: V,
)
    requires
        field::<V>(),
        math.finite_at(measured),
        below(number::<V>(0), measured),
        !same(scale, number::<V>(0)),
        at_most(number::<V>(0), math.decimal_of(2, 2)),
        at_most(math.decimal_of(2, 2), math.decimal_of(4, 1)),
        at_most(math.decimal_of(4, 1), number::<V>(1)),
    ensures
        ({
            let after = rescaled(math, scale, measured);
            &&& below(scale, measured) ==> at_most(scale, after) && at_most(after, measured)
            &&& !below(scale, measured) ==> at_most(measured, after) && at_most(after, scale)
            // Up by twenty times as much as down, for the same distance.
            &&& below(scale, measured) ==> minus(after, scale) == times(
                math.decimal_of(4, 1),
                minus(measured, scale),
            )
            &&& !below(scale, measured) ==> minus(scale, after) == times(
                math.decimal_of(2, 2),
                minus(scale, measured),
            )
        }),
{
    let (zero, one) = (number::<V>(0), number::<V>(1));
    let (slow, fast) = (math.decimal_of(2, 2), math.decimal_of(4, 1));
    one_way_or_the_other(measured, zero);
    below_through(zero, slow, fast);
    below_through(slow, fast, one);
    below_through(scale, measured, measured);
    one_way_or_the_other(scale, measured);
    let rate = if below(scale, measured) {
        fast
    } else {
        slow
    };
    let gap = minus(measured, scale);
    let move_by = times(rate, gap);
    let after = plus(scale, move_by);
    // after - scale is the move, and scale + gap is what was measured.
    take_away(after, scale);
    add_commutes(scale, move_by);
    add_regroups(move_by, scale, negative(scale));
    take_away(scale, scale);
    add_nothing(move_by);
    take_away(measured, scale);
    add_regroups(measured, negative(scale), scale);
    add_commutes(negative(scale), scale);
    add_nothing(measured);
    add_commutes(scale, gap);
    negatives(measured, scale);
    take_away(scale, after);
    negatives(after, scale);
    negatives(rate, gap);
    if below(scale, measured) {
        // 0 <= gap, so 0 <= move <= gap.
        sums_keep_order(scale, measured, negative(scale));
        multiply_by_nothing(gap);
        products_keep_order(zero, rate, gap);
        products_keep_order(rate, one, gap);
        parts(gap, gap);
        sums_keep_order(zero, move_by, scale);
        sums_keep_order(move_by, gap, scale);
        add_nothing(scale);
    } else {
        let fall = minus(scale, measured);
        take_away(measured, measured);
        take_away(scale, measured);
        sums_keep_order(measured, scale, negative(measured));
        multiply_by_nothing(fall);
        products_keep_order(zero, rate, fall);
        products_keep_order(rate, one, fall);
        parts(fall, fall);
        // The move is the fall's share, turned round.
        negatives(rate, fall);
        negatives(scale, measured);
        assert(gap == negative(fall));
        assert(move_by == negative(times(rate, fall)));
        let part = times(rate, fall);
        // measured + fall = scale, so scale - part lies between.
        add_regroups(scale, negative(measured), measured);
        add_commutes(negative(measured), measured);
        add_nothing(scale);
        sums_keep_order(zero, part, negative(part));
        take_away(part, part);
        add_nothing(negative(part));
        sums_keep_order(negative(part), zero, scale);
        add_commutes(negative(part), scale);
        sums_keep_order(part, fall, plus(measured, negative(part)));
        add_commutes(part, plus(measured, negative(part)));
        add_regroups(measured, negative(part), part);
        add_commutes(negative(part), part);
        add_commutes(fall, plus(measured, negative(part)));
        add_regroups(measured, negative(part), fall);
        add_commutes(negative(part), fall);
        add_regroups(measured, fall, negative(part));
        add_commutes(measured, fall);
        negatives(part, part);
    }
}

/// A third of the longest side reads as saturated, but never less than a cell.
pub proof fn brightness_is_measured_over_a_third<V: Scalar, N: Elementary<V>>(
    math: &N,
    extent: Extent,
)
    requires
        field::<V>(),
        below(number::<V>(0), number::<V>(3)),
    ensures
        ({
            let length = reference_length(math, extent);
            let longest = math.count_of(extent.longest_side() as u64);
            &&& at_most(number::<V>(1), length)
            &&& at_most(longest, times(length, number::<V>(3)))
            &&& length == number::<V>(1) || times(length, number::<V>(3)) == longest
        }),
{
    let (one, three) = (number::<V>(1), number::<V>(3));
    let longest = math.count_of(extent.longest_side() as u64);
    let third = over(longest, three);
    parts(longest, three);
    one_way_or_the_other(third, one);
    below_through(third, one, one);
    below_through(one, third, third);
    below_through(number::<V>(0), three, three);
    products_keep_order(third, one, three);
    below_through(longest, longest, longest);
    reveal(ordered);
}

/// A camera that is not turned stands out along `z`, raised by its pitch towards `y`;
/// turning it takes it round the vertical, from `z` towards `x`.
pub proof fn the_camera_turns_about_the_vertical<V: Scalar, N: Elementary<V>>(
    math: &N,
    camera: Camera<V>,
    turn: V,
)
    requires
        field::<V>(),
        math.sin_of(number::<V>(0)) == number::<V>(0),
        math.cos_of(number::<V>(0)) == number::<V>(1),
        math.sin_of(plus(camera.yaw, turn)) == plus(
            times(math.sin_of(camera.yaw), math.cos_of(turn)),
            times(math.cos_of(camera.yaw), math.sin_of(turn)),
        ),
        math.cos_of(plus(camera.yaw, turn)) == minus(
            times(math.cos_of(camera.yaw), math.cos_of(turn)),
            times(math.sin_of(camera.yaw), math.sin_of(turn)),
        ),
    ensures
        ({
            let straight = Camera { yaw: number::<V>(0), ..camera };
            let turned = Camera { yaw: plus(camera.yaw, turn), ..camera };
            let (from, to) = (camera.away(math), turned.away(math));
            let (c, s) = (math.cos_of(turn), math.sin_of(turn));
            &&& straight.away(math)[0] == number::<V>(0)
            &&& straight.away(math)[1] == math.sin_of(camera.pitch)
            &&& straight.away(math)[2] == math.cos_of(camera.pitch)
            &&& to[0] == plus(times(from[0], c), times(from[2], s))
            &&& to[1] == from[1]
            &&& to[2] == minus(times(from[2], c), times(from[0], s))
        }),
{
    let p = math.cos_of(camera.pitch);
    let (a, b) = (math.sin_of(camera.yaw), math.cos_of(camera.yaw));
    let (c, s) = (math.cos_of(turn), math.sin_of(turn));
    multiply_by_nothing(p);
    parts(p, p);
    multiply_spreads(p, times(a, c), times(b, s));
    multiply_regroups(p, a, c);
    multiply_regroups(p, b, s);
    multiply_spreads_over_difference(p, times(b, c), times(a, s));
    multiply_regroups(p, b, c);
    multiply_regroups(p, a, s);
}

/// Turns add up, and so do lifts that stay short of the poles.
pub proof fn turns_add_up<V: Scalar, N: Elementary<V>>(
    math: &N,
    camera: Camera<V>,
    first: (V, V),
    second: (V, V),
)
    requires
        field::<V>(),
        ({
            let limit = Camera::<V>::steepest(math);
            let (once, twice) = (
                plus(camera.pitch, first.1),
                plus(plus(camera.pitch, first.1), second.1),
            );
            &&& at_most(negative(limit), once) && at_most(once, limit)
            &&& at_most(negative(limit), twice) && at_most(twice, limit)
        }),
    ensures
        camera.orbited(math, first.0, first.1).orbited(math, second.0, second.1)
            == camera.orbited(math, plus(first.0, second.0), plus(first.1, second.1)),
{
    let limit = Camera::<V>::steepest(math);
    add_regroups(camera.yaw, first.0, second.0);
    add_regroups(camera.pitch, first.1, second.1);
    let (once, twice) = (
        plus(camera.pitch, first.1),
        plus(plus(camera.pitch, first.1), second.1),
    );
    one_way_or_the_other(negative(limit), once);
    one_way_or_the_other(once, limit);
    one_way_or_the_other(negative(limit), twice);
    one_way_or_the_other(twice, limit);
}

} // verus!
