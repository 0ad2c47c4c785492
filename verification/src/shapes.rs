//! What the shapes are, apart from how membership is worked out.
//!
//! A sphere looks the same from every side and ends at its radius, boxes and slabs
//! lie between their faces, and every shape fills the box its bounds give and no
//! more. All of it is said of arithmetic that does not round.

use crate::algebra::{
    add_commutes, add_nothing, add_regroups, add_swaps, multiply_by_nothing, multiply_commutes,
    multiply_regroups, multiply_spreads, negatives, ring, take_away,
};
use crate::grid::Axis;
use crate::numerics::Elementary;
use crate::order::{
    below_through, field, lemma_square_of_product, one_way_or_the_other, parts,
    products_keep_order, squares_keep_order, sums_keep_order,
};
use crate::scalar::{
    at_most, below, half, magnitude_of, minus, negative, number, plus, times, Scalar,
};
use crate::scene::Shape;
use vstd::prelude::*;

verus! {

/// How far a position is from the centre of a shape along one axis, with its sign.
pub open spec fn offset_from<V: Scalar>(shape: Shape<V>, position: Seq<V>, axis: Axis) -> V {
    minus(position[axis.position()], shape.middle()@[axis.position()])
}

/// A number without its sign is not below zero, has the same square, and lies within
/// a bound where the number lies between the bound's negative and the bound.
pub(crate) proof fn magnitudes<V: Scalar>(a: V, bound: V)
    requires
        field::<V>(),
    ensures
        at_most(number::<V>(0), magnitude_of(a)),
        times(magnitude_of(a), magnitude_of(a)) == times(a, a),
        at_most(magnitude_of(a), bound) <==> at_most(negative(bound), a) && at_most(a, bound),
        magnitude_of(a) == a || magnitude_of(a) == negative(a),
{
    let zero = number::<V>(0);
    let m = magnitude_of(a);
    one_way_or_the_other(a, zero);
    negatives(a, a);
    negatives(a, negative(a));
    negatives(bound, a);
    lemma_turned(a, zero);
    lemma_turned(a, bound);
    lemma_turned(negative(bound), a);
    lemma_turned(negative(a), bound);
    lemma_turned(bound, a);
    below_through(a, zero, m);
    below_through(a, m, bound);
    below_through(negative(bound), zero, a);
    below_through(zero, m, bound);
    lemma_turned(zero, bound);
    below_through(zero, a, bound);
}

/// Turning signs round turns an order round.
proof fn lemma_turned<V: Scalar>(a: V, b: V)
    requires
        field::<V>(),
    ensures
        at_most(a, b) ==> at_most(negative(b), negative(a)),
        below(a, b) ==> at_most(a, b),
        negative(negative(a)) == a,
        negative(number::<V>(0)) == number::<V>(0),
{
    let shift = plus(negative(a), negative(b));
    below_through(a, b, b);
    sums_keep_order(a, b, shift);
    // a + (-a + -b) = -b, and b + (-a + -b) = -a.
    take_away(a, b);
    take_away(b, b);
    add_regroups(a, negative(a), negative(b));
    add_nothing(negative(b));
    add_commutes(negative(a), negative(b));
    add_regroups(b, negative(b), negative(a));
    add_nothing(negative(a));
    negatives(a, b);
}

/// A turn in a plane keeps the sum of the squares.
pub(crate) proof fn lemma_turning_keeps_squares<V: Scalar>(c: V, s: V, x: V, y: V)
    requires
        field::<V>(),
        plus(times(c, c), times(s, s)) == number::<V>(1),
    ensures
        ({
            let (u, v) = (minus(times(c, x), times(s, y)), plus(times(s, x), times(c, y)));
            plus(times(u, u), times(v, v)) == plus(times(x, x), times(y, y))
        }),
{
    let (cx, sy, sx, cy) = (times(c, x), times(s, y), times(s, x), times(c, y));
    let (u, v) = (minus(cx, sy), plus(sx, cy));
    let (xx, yy) = (times(x, x), times(y, y));
    // u² = (cx² + sy²) - 2·cx·sy, v² = (sx² + cy²) + 2·sx·cy, and cx·sy = sx·cy.
    take_away(cx, sy);
    lemma_square_of_sum(cx, negative(sy));
    lemma_square_of_sum(sx, cy);
    negatives(sy, sy);
    negatives(sy, negative(sy));
    negatives(cx, sy);
    negatives(times(sy, sy), sy);
    let cross = times(cx, sy);
    lemma_cross(c, s, x, y);
    negatives(cross, cross);
    let (p, q) = (plus(times(cx, cx), times(sy, sy)), plus(times(sx, sx), times(cy, cy)));
    add_swaps(p, negative(plus(cross, cross)), q, plus(cross, cross));
    add_commutes(negative(plus(cross, cross)), plus(cross, cross));
    take_away(plus(cross, cross), plus(cross, cross));
    add_nothing(plus(p, q));
    // cx² + sx² = x² and sy² + cy² = y².
    lemma_square_of_product(c, x);
    lemma_square_of_product(s, y);
    lemma_square_of_product(s, x);
    lemma_square_of_product(c, y);
    let (cc, ss) = (times(c, c), times(s, s));
    add_swaps(times(cc, xx), times(ss, yy), times(ss, xx), times(cc, yy));
    lemma_shares(cc, ss, xx);
    lemma_shares(cc, ss, yy);
    add_commutes(times(ss, yy), times(cc, yy));
}

proof fn lemma_shares<V: Scalar>(a: V, b: V, x: V)
    requires
        field::<V>(),
        plus(a, b) == number::<V>(1),
    ensures
        plus(times(a, x), times(b, x)) == x,
{
    multiply_commutes(a, x);
    multiply_commutes(b, x);
    multiply_spreads(x, a, b);
    parts(x, x);
}

/// `(c·x)·(s·y) = (s·x)·(c·y)`.
proof fn lemma_cross<V: Scalar>(c: V, s: V, x: V, y: V)
    requires
        ring::<V>(),
    ensures
        times(times(c, x), times(s, y)) == times(times(s, x), times(c, y)),
{
    let (p, q) = (times(s, y), times(c, y));
    multiply_regroups(c, x, p);
    multiply_commutes(c, times(x, p));
    multiply_commutes(x, p);
    multiply_regroups(s, y, x);
    multiply_commutes(y, x);
    multiply_regroups(s, x, y);
    // (c·x)·p = (p·x)·c = ((s·x)·y)·c = (s·x)·(y·c).
    multiply_regroups(times(s, x), y, c);
    multiply_commutes(y, c);
}

/// `(a + b)² = (a² + b²) + (ab + ab)`.
proof fn lemma_square_of_sum<V: Scalar>(a: V, b: V)
    requires
        ring::<V>(),
    ensures
        times(plus(a, b), plus(a, b)) == plus(
            plus(times(a, a), times(b, b)),
            plus(times(a, b), times(a, b)),
        ),
{
    let sum = plus(a, b);
    multiply_spreads(sum, a, b);
    multiply_commutes(sum, a);
    multiply_commutes(sum, b);
    multiply_spreads(a, a, b);
    multiply_spreads(b, a, b);
    multiply_commutes(b, a);
    let (aa, bb, ab) = (times(a, a), times(b, b), times(a, b));
    // (aa + ab) + (ab + bb) = (aa + bb) + (ab + ab).
    add_commutes(ab, bb);
    add_swaps(aa, ab, bb, ab);
}

/// Turned about its centre in the plane of any two axes, a position stays in a
/// sphere or out of it: a sphere looks the same from every side.
pub proof fn spheres_are_round<V: Scalar>(
    sphere: Shape<V>,
    position: Seq<V>,
    turned: Seq<V>,
    first: Axis,
    second: Axis,
    cosine: V,
    sine: V,
)
    requires
        field::<V>(),
        sphere is Sphere,
        first != second,
        plus(times(cosine, cosine), times(sine, sine)) == number::<V>(1),
        ({
            let (x, y) = (
                offset_from(sphere, position, first),
                offset_from(sphere, position, second),
            );
            &&& offset_from(sphere, turned, first) == minus(times(cosine, x), times(sine, y))
            &&& offset_from(sphere, turned, second) == plus(times(sine, x), times(cosine, y))
        }),
        forall|axis: Axis|
            axis != first && axis != second ==> offset_from(sphere, turned, axis)
                == #[trigger] offset_from(sphere, position, axis),
    ensures
        sphere.holds(turned) == sphere.holds(position),
{
    let (x, y, z) = (
        offset_from(sphere, position, Axis::X),
        offset_from(sphere, position, Axis::Y),
        offset_from(sphere, position, Axis::Z),
    );
    let (u, v, w) = (
        offset_from(sphere, turned, Axis::X),
        offset_from(sphere, turned, Axis::Y),
        offset_from(sphere, turned, Axis::Z),
    );
    lemma_turning_keeps_squares(
        cosine,
        sine,
        offset_from(sphere, position, first),
        offset_from(sphere, position, second),
    );
    lemma_any_order(times(x, x), times(y, y), times(z, z));
    lemma_any_order(times(u, u), times(v, v), times(w, w));
    add_commutes(times(u, u), times(v, v));
    add_commutes(times(v, v), times(w, w));
    add_commutes(times(u, u), times(w, w));
    add_commutes(times(x, x), times(y, y));
    add_commutes(times(y, y), times(z, z));
    add_commutes(times(x, x), times(z, z));
}

/// Three summands, starting from nothing, in any order.
pub(crate) proof fn lemma_any_order<V: Scalar>(a: V, b: V, c: V)
    requires
        ring::<V>(),
    ensures
        plus(plus(plus(number::<V>(0), a), b), c) == plus(plus(a, b), c),
        plus(plus(plus(number::<V>(0), a), b), c) == plus(plus(b, c), a),
        plus(plus(plus(number::<V>(0), a), b), c) == plus(plus(a, c), b),
{
    add_nothing(a);
    add_regroups(a, b, c);
    add_commutes(a, plus(b, c));
    add_commutes(b, c);
    add_regroups(a, c, b);
}

/// Swapping two axes of a position and of the centre changes nothing.
pub proof fn spheres_have_no_first_axis<V: Scalar>(
    sphere: Shape<V>,
    other: Shape<V>,
    position: Seq<V>,
    swapped: Seq<V>,
    first: Axis,
    second: Axis,
)
    requires
        ring::<V>(),
        sphere is Sphere,
        other is Sphere,
        other->Sphere_radius == sphere->Sphere_radius,
        first != second,
        offset_from(other, swapped, first) == offset_from(sphere, position, second),
        offset_from(other, swapped, second) == offset_from(sphere, position, first),
        forall|axis: Axis|
            axis != first && axis != second ==> offset_from(other, swapped, axis)
                == #[trigger] offset_from(sphere, position, axis),
    ensures
        other.holds(swapped) == sphere.holds(position),
{
    let (x, y, z) = (
        offset_from(sphere, position, Axis::X),
        offset_from(sphere, position, Axis::Y),
        offset_from(sphere, position, Axis::Z),
    );
    let (u, v, w) = (
        offset_from(other, swapped, Axis::X),
        offset_from(other, swapped, Axis::Y),
        offset_from(other, swapped, Axis::Z),
    );
    lemma_any_order(times(x, x), times(y, y), times(z, z));
    lemma_any_order(times(u, u), times(v, v), times(w, w));
    add_commutes(times(u, u), times(v, v));
    add_commutes(times(v, v), times(w, w));
    add_commutes(times(u, u), times(w, w));
}

/// A sphere holds nothing that is further from its centre along any one axis than
/// its radius; and along an axis it holds everything that is not.
pub proof fn spheres_end_at_their_radius<V: Scalar>(
    sphere: Shape<V>,
    position: Seq<V>,
    axis: Axis,
)
    requires
        field::<V>(),
        sphere is Sphere,
        at_most(number::<V>(0), sphere->Sphere_radius),
    ensures
        sphere.holds(position) ==> at_most(
            magnitude_of(offset_from(sphere, position, axis)),
            sphere->Sphere_radius,
        ),
        (forall|other: Axis|
            other != axis ==> #[trigger] offset_from(sphere, position, other) == number::<V>(0))
            ==> (sphere.holds(position) <==> at_most(
            magnitude_of(offset_from(sphere, position, axis)),
            sphere->Sphere_radius,
        )),
{
    let zero = number::<V>(0);
    let radius = sphere->Sphere_radius;
    let (x, y, z) = (
        offset_from(sphere, position, Axis::X),
        offset_from(sphere, position, Axis::Y),
        offset_from(sphere, position, Axis::Z),
    );
    let d = offset_from(sphere, position, axis);
    let (xx, yy, zz) = (times(x, x), times(y, y), times(z, z));
    products_keep_order(x, x, x);
    products_keep_order(y, y, y);
    products_keep_order(z, z, z);
    lemma_any_order(xx, yy, zz);
    lemma_part_of_sum(xx, yy, zz);
    lemma_part_of_sum(yy, zz, xx);
    lemma_part_of_sum(xx, zz, yy);
    add_commutes(plus(yy, zz), xx);
    let all = plus(plus(plus(zero, xx), yy), zz);
    below_through(times(d, d), all, times(radius, radius));
    magnitudes(d, radius);
    let m = magnitude_of(d);
    squares_keep_order(m, radius);
    squares_keep_order(radius, m);
    one_way_or_the_other(radius, m);
    one_way_or_the_other(m, radius);
    one_way_or_the_other(times(m, m), times(radius, radius));
    if forall|other: Axis|
        other != axis ==> #[trigger] offset_from(sphere, position, other) == zero {
        multiply_by_nothing(zero);
        add_nothing(times(d, d));
        add_nothing(zero);
        assert(axis != Axis::X ==> x == zero);
        assert(axis != Axis::Y ==> y == zero);
        assert(axis != Axis::Z ==> z == zero);
        assert(all == times(d, d));
    }
}

/// Of three numbers that are not below zero, each is no more than their sum.
proof fn lemma_part_of_sum<V: Scalar>(a: V, b: V, c: V)
    requires
        field::<V>(),
        at_most(number::<V>(0), a),
        at_most(number::<V>(0), b),
        at_most(number::<V>(0), c),
    ensures
        at_most(a, plus(plus(a, b), c)),
        at_most(b, plus(plus(a, b), c)),
        at_most(c, plus(plus(a, b), c)),
{
    let zero = number::<V>(0);
    let two = plus(a, b);
    add_nothing(a);
    add_nothing(b);
    add_nothing(c);
    add_nothing(two);
    sums_keep_order(zero, b, a);
    add_commutes(b, a);
    sums_keep_order(zero, a, b);
    sums_keep_order(zero, c, two);
    add_commutes(c, two);
    below_through(zero, a, two);
    sums_keep_order(zero, two, c);
    below_through(a, two, plus(two, c));
    below_through(b, two, plus(two, c));
}

/// A box lies between its six faces, half of its size either side of its centre.
pub proof fn blocks_lie_between_their_faces<V: Scalar>(block: Shape<V>, position: Seq<V>)
    requires
        field::<V>(),
        block is Block,
    ensures
        block.holds(position) <==> forall|axis: Axis|
            {
                let part = times(
                    half::<V>(),
                    block->Block_size@[#[trigger] axis.position()],
                );
                let middle = block->Block_center@[axis.position()];
                &&& at_most(minus(middle, part), position[axis.position()])
                &&& at_most(position[axis.position()], plus(middle, part))
            },
{
    lemma_between(
        position[0],
        block->Block_center@[0],
        times(half::<V>(), block->Block_size@[0]),
    );
    lemma_between(
        position[1],
        block->Block_center@[1],
        times(half::<V>(), block->Block_size@[1]),
    );
    lemma_between(
        position[2],
        block->Block_center@[2],
        times(half::<V>(), block->Block_size@[2]),
    );
    assert(Axis::X.position() == 0 && Axis::Y.position() == 1 && Axis::Z.position() == 2);
}

/// A slab lies between its two faces, half of its thickness either side of its
/// offset, and goes on for ever along the other axes.
pub proof fn slabs_lie_between_their_faces<V: Scalar>(slab: Shape<V>, position: Seq<V>)
    requires
        field::<V>(),
        slab is Slab,
    ensures
        ({
            let part = times(half::<V>(), slab->thickness);
            let place = position[slab->axis.position()];
            slab.holds(position) <==> at_most(minus(slab->offset, part), place) && at_most(
                place,
                plus(slab->offset, part),
            )
        }),
{
    lemma_between(
        position[slab->axis.position()],
        slab->offset,
        times(half::<V>(), slab->thickness),
    );
}

/// Within a part of a middle is between the middle less and plus the part.
pub(crate) proof fn lemma_between<V: Scalar>(place: V, middle: V, part: V)
    requires
        field::<V>(),
    ensures
        at_most(magnitude_of(minus(place, middle)), part) <==> at_most(
            minus(middle, part),
            place,
        ) && at_most(place, plus(middle, part)),
{
    let offset = minus(place, middle);
    magnitudes(offset, part);
    take_away(place, middle);
    take_away(middle, part);
    // place = offset + middle.
    add_regroups(place, negative(middle), middle);
    add_commutes(negative(middle), middle);
    add_nothing(place);
    sums_keep_order(negative(part), offset, middle);
    sums_keep_order(offset, part, middle);
    add_commutes(negative(part), middle);
    add_commutes(part, middle);
    // And back.
    sums_keep_order(minus(middle, part), place, negative(middle));
    sums_keep_order(place, plus(middle, part), negative(middle));
    add_regroups(negative(part), middle, negative(middle));
    add_regroups(part, middle, negative(middle));
    take_away(middle, middle);
    add_nothing(negative(part));
    add_nothing(part);
}

/// Nothing of a shape is outside its bounds, along any axis on which it has some.
pub proof fn shapes_stay_in_their_bounds<V: Scalar, N: Elementary<V>>(
    math: &N,
    shape: Shape<V>,
    position: Seq<V>,
    axis: Axis,
)
    requires
        field::<V>(),
        shape.holds(position),
        shape is Sphere ==> at_most(number::<V>(0), shape->Sphere_radius),
        shape is Slab ==> axis == shape->axis,
    ensures
        at_most(
            magnitude_of(offset_from(shape, position, axis)),
            shape.reach(math)@[axis.position()],
        ),
{
    if shape is Sphere {
        spheres_end_at_their_radius(shape, position, axis);
    }
}

/// And the bounds are no wider than the shape: as far from its centre as they say,
/// along one axis and either way, the shape still is.
pub proof fn shapes_fill_their_bounds<V: Scalar, N: Elementary<V>>(
    math: &N,
    shape: Shape<V>,
    position: Seq<V>,
    axis: Axis,
)
    requires
        field::<V>(),
        shape is Slab ==> axis == shape->axis,
        forall|t: Axis|
            !(shape is Slab) ==> at_most(
                number::<V>(0),
                #[trigger] shape.reach(math)@[t.position()],
            ),
        magnitude_of(offset_from(shape, position, axis)) == shape.reach(math)@[axis.position()],
        forall|other: Axis|
            other != axis ==> #[trigger] offset_from(shape, position, other) == number::<V>(0),
    ensures
        shape.holds(position),
{
    let zero = number::<V>(0);
    let reach = shape.reach(math);
    below_through(
        reach@[axis.position()],
        reach@[axis.position()],
        reach@[axis.position()],
    );
    assert(magnitude_of(zero) == zero) by {
        below_through(zero, zero, zero);
    }
    match shape {
        Shape::Block { center, size, .. } => {
            assert(axis != Axis::X ==> offset_from(shape, position, Axis::X) == zero);
            assert(axis != Axis::Y ==> offset_from(shape, position, Axis::Y) == zero);
            assert(axis != Axis::Z ==> offset_from(shape, position, Axis::Z) == zero);
            assert(at_most(zero, reach@[Axis::X.position()]));
            assert(at_most(zero, reach@[Axis::Y.position()]));
            assert(at_most(zero, reach@[Axis::Z.position()]));
        },
        Shape::Sphere { radius, .. } => {
            assert(at_most(zero, reach@[Axis::X.position()]));
            spheres_end_at_their_radius(shape, position, axis);
        },
        Shape::Slab { .. } => {},
    }
}

} // verus!
