//! Numbers on a line.
//!
//! What holds of arithmetic that does not round and of an order that goes with it
//! is stated once as [`field`], and the inequalities that follow from it are worked
//! out here.

use crate::absorber::aligned;
use crate::algebra::{
    add_commutes, add_nothing, add_regroups, multiply_by_nothing, multiply_commutes,
    multiply_regroups, multiply_spreads, ring, take_away,
};
use crate::grading::ordered;
use crate::scalar::{
    at_most, below, half, minus, negative, number, over, plus, times, Scalar,
};
use vstd::prelude::*;

verus! {

/// Sums, and products with what is above zero, keep numbers in order; a quotient
/// times its divisor is what was divided; two halves are one.
#[verifier::opaque]
pub open spec fn compatible<V: Scalar>() -> bool {
    let (zero, one) = (number::<V>(0), number::<V>(1));
    &&& forall|a: V, b: V, c: V|
        at_most(a, b) ==> at_most(#[trigger] plus(a, c), #[trigger] plus(b, c))
    &&& forall|a: V, b: V, c: V|
        below(a, b) ==> below(#[trigger] plus(a, c), #[trigger] plus(b, c))
    &&& forall|a: V, b: V, c: V|
        at_most(zero, c) && at_most(a, b) ==> at_most(
            #[trigger] times(a, c),
            #[trigger] times(b, c),
        )
    &&& forall|a: V, b: V, c: V|
        below(zero, c) && below(a, b) ==> below(#[trigger] times(a, c), #[trigger] times(b, c))
    &&& forall|a: V| at_most(zero, #[trigger] times(a, a))
    &&& forall|a: V, b: V| below(zero, b) ==> times(#[trigger] over(a, b), b) == a
    &&& forall|a: V| #[trigger] times(one, a) == a
    &&& plus(half::<V>(), half::<V>()) == one
    &&& times(half::<V>(), number::<V>(2)) == one
    &&& below(zero, half::<V>())
}

/// An ordered field.
pub open spec fn field<V: Scalar>() -> bool {
    &&& ring::<V>()
    &&& ordered::<V>()
    &&& aligned::<V>()
    &&& compatible::<V>()
}

/// Either way round, what is below one end is below the other.
pub(crate) proof fn below_through<V: Scalar>(a: V, b: V, c: V)
    requires
        field::<V>(),
    ensures
        below(a, b) && at_most(b, c) ==> below(a, c),
        at_most(a, b) && below(b, c) ==> below(a, c),
        at_most(a, b) && at_most(b, c) ==> at_most(a, c),
        below(a, b) ==> at_most(a, b),
        at_most(a, a),
        !below(a, a),
{
    reveal(ordered);
    reveal(aligned);
    assert(at_most(a, a));
    if below(a, b) && at_most(b, c) && !below(a, c) {
        assert(at_most(c, a));
        assert(at_most(b, a));
    }
    if at_most(a, b) && below(b, c) && !below(a, c) {
        assert(at_most(c, a));
        assert(at_most(c, b));
    }
}

/// Of two numbers, one is below the other or they are the same.
pub(crate) proof fn one_way_or_the_other<V: Scalar>(a: V, b: V)
    requires
        field::<V>(),
    ensures
        !below(a, b) ==> at_most(b, a),
        at_most(a, b) ==> !below(b, a),
        at_most(a, b) && at_most(b, a) ==> a == b,
{
    reveal(ordered);
    reveal(aligned);
}

pub(crate) proof fn sums_keep_order<V: Scalar>(a: V, b: V, c: V)
    requires
        field::<V>(),
    ensures
        at_most(a, b) ==> at_most(plus(a, c), plus(b, c)),
        below(a, b) ==> below(plus(a, c), plus(b, c)),
{
    reveal(compatible);
}

pub(crate) proof fn products_keep_order<V: Scalar>(a: V, b: V, c: V)
    requires
        field::<V>(),
    ensures
        at_most(number::<V>(0), c) && at_most(a, b) ==> at_most(times(a, c), times(b, c)),
        below(number::<V>(0), c) && below(a, b) ==> below(times(a, c), times(b, c)),
        at_most(number::<V>(0), times(a, a)),
{
    reveal(compatible);
}

/// A common factor above zero comes off an inequality.
pub(crate) proof fn factors_come_off<V: Scalar>(a: V, b: V, c: V)
    requires
        field::<V>(),
        below(number::<V>(0), c),
    ensures
        at_most(times(a, c), times(b, c)) ==> at_most(a, b),
        below(times(a, c), times(b, c)) ==> below(a, b),
        times(a, c) == times(b, c) ==> a == b,
{
    let zero = number::<V>(0);
    below_through(zero, c, c);
    products_keep_order(a, b, c);
    products_keep_order(b, a, c);
    one_way_or_the_other(a, b);
    one_way_or_the_other(b, a);
    one_way_or_the_other(times(a, c), times(b, c));
    one_way_or_the_other(times(b, c), times(a, c));
    below_through(times(a, c), times(a, c), times(a, c));
}

/// Ones, halves and quotients.
pub(crate) proof fn parts<V: Scalar>(a: V, b: V)
    requires
        field::<V>(),
    ensures
        times(number::<V>(1), a) == a,
        times(a, number::<V>(1)) == a,
        below(number::<V>(0), half::<V>()),
        below(number::<V>(0), number::<V>(1)),
        times(half::<V>(), number::<V>(2)) == number::<V>(1),
        times(half::<V>(), plus(a, a)) == a,
        below(number::<V>(0), b) ==> times(over(a, b), b) == a,
{
    reveal(compatible);
    let h = half::<V>();
    multiply_commutes(number::<V>(1), a);
    multiply_spreads(h, a, a);
    multiply_commutes(h, a);
    multiply_spreads(a, h, h);
    multiply_commutes(a, plus(h, h));
    sums_keep_order(number::<V>(0), h, h);
    add_nothing(h);
    below_through(number::<V>(0), h, plus(h, h));
    below_through(number::<V>(0), h, number::<V>(1));
}

/// A difference is below zero where the first is below the second.
pub(crate) proof fn differences_tell<V: Scalar>(a: V, b: V)
    requires
        field::<V>(),
    ensures
        below(minus(a, b), number::<V>(0)) <==> below(a, b),
{
    let zero = number::<V>(0);
    take_away(a, b);
    sums_keep_order(a, b, negative(b));
    // a = (a - b) + b.
    add_regroups(a, negative(b), b);
    add_commutes(b, negative(b));
    add_nothing(a);
    add_nothing(b);
    sums_keep_order(minus(a, b), zero, b);
}

/// The middle of two numbers lies between them.
pub(crate) proof fn middles_lie_between<V: Scalar>(a: V, b: V)
    requires
        field::<V>(),
        below(a, b),
    ensures
        below(a, times(half::<V>(), plus(a, b))),
        below(times(half::<V>(), plus(a, b)), b),
{
    let h = half::<V>();
    parts(a, a);
    parts(b, b);
    sums_keep_order(a, b, a);
    sums_keep_order(a, b, b);
    add_commutes(b, a);
    products_keep_order(plus(a, a), plus(a, b), h);
    products_keep_order(plus(a, b), plus(b, b), h);
    multiply_commutes(plus(a, a), h);
    multiply_commutes(plus(a, b), h);
    multiply_commutes(plus(b, b), h);
}

/// Squares of numbers that are not below zero compare as the numbers do.
pub(crate) proof fn squares_keep_order<V: Scalar>(a: V, b: V)
    requires
        field::<V>(),
        at_most(number::<V>(0), a),
        at_most(number::<V>(0), b),
    ensures
        below(a, b) <==> below(times(a, a), times(b, b)),
        at_most(a, b) ==> at_most(times(a, a), times(b, b)),
{
    let zero = number::<V>(0);
    products_keep_order(a, b, a);
    products_keep_order(a, b, b);
    products_keep_order(b, a, a);
    products_keep_order(b, a, b);
    multiply_commutes(a, b);
    below_through(zero, a, b);
    below_through(a, b, b);
    below_through(times(a, a), times(a, b), times(b, b));
    below_through(times(b, b), times(a, b), times(a, a));
    one_way_or_the_other(a, b);
    one_way_or_the_other(times(b, b), times(a, a));
}

/// Two products of one that fall together fall apart: the larger has the smaller
/// partner.
pub(crate) proof fn partners_trade<V: Scalar>(v: V, m: V, w: V, n: V)
    requires
        field::<V>(),
        below(number::<V>(0), m),
        below(number::<V>(0), n),
        times(v, m) == number::<V>(1),
        times(w, n) == number::<V>(1),
    ensures
        at_most(m, n) ==> at_most(w, v),
        below(m, n) ==> below(w, v),
{
    let (zero, one) = (number::<V>(0), number::<V>(1));
    parts(one, one);
    // Both are above zero, since their products with m and n are.
    multiply_by_nothing(m);
    multiply_by_nothing(n);
    factors_come_off(zero, v, m);
    factors_come_off(zero, w, n);
    below_through(zero, v, v);
    below_through(zero, w, w);
    // w·m against w·n = 1 = v·m.
    products_keep_order(m, n, w);
    multiply_commutes(m, w);
    multiply_commutes(n, w);
    factors_come_off(w, v, m);
}

/// A quotient by a multiple of what is divided is the partner of the multiple.
pub(crate) proof fn quotients_by_multiples<V: Scalar>(a: V, m: V)
    requires
        field::<V>(),
        below(number::<V>(0), a),
        below(number::<V>(0), m),
    ensures
        times(over(a, times(m, a)), m) == number::<V>(1),
{
    let v = over(a, times(m, a));
    multiply_by_nothing(a);
    products_keep_order(number::<V>(0), m, a);
    parts(a, times(m, a));
    multiply_regroups(v, m, a);
    factors_come_off(times(v, m), number::<V>(1), a);
}

/// The square of a product is the product of the squares.
pub(crate) proof fn lemma_square_of_product<V: Scalar>(a: V, b: V)
    requires
        ring::<V>(),
    ensures
        times(times(a, b), times(a, b)) == times(times(a, a), times(b, b)),
{
    multiply_regroups(a, b, times(a, b));
    multiply_commutes(b, times(a, b));
    multiply_regroups(a, b, b);
    multiply_regroups(a, a, times(b, b));
}

} // verus!
