//! Sums and products that do not depend on the order they are taken in.
//!
//! Rounding makes the order matter, so nothing here holds of every arithmetic.
//! What holds of those without rounding is stated once as [`ring`], and the sums
//! that follow from it are worked out here.

use crate::scalar::{minus, negative, number, plus, times, Scalar};
use vstd::prelude::*;

verus! {

/// Addition and multiplication are those of a commutative ring.
#[verifier::opaque]
pub open spec fn ring<V: Scalar>() -> bool {
    &&& forall|a: V, b: V| #[trigger] plus(a, b) == plus(b, a)
    &&& forall|a: V, b: V, c: V| #[trigger] plus(plus(a, b), c) == plus(a, plus(b, c))
    &&& forall|a: V| #[trigger] plus(a, number::<V>(0)) == a
    &&& forall|a: V, b: V| #[trigger] minus(a, b) == plus(a, negative(b))
    &&& forall|a: V| plus(a, #[trigger] negative(a)) == number::<V>(0)
    &&& forall|a: V, b: V| #[trigger] times(a, b) == times(b, a)
    &&& forall|a: V, b: V, c: V| #[trigger] times(times(a, b), c) == times(a, times(b, c))
    &&& forall|a: V, b: V, c: V| #[trigger]
        times(a, plus(b, c)) == plus(times(a, b), times(a, c))
}

pub(crate) proof fn add_commutes<V: Scalar>(a: V, b: V)
    requires
        ring::<V>(),
    ensures
        plus(a, b) == plus(b, a),
{
    reveal(ring);
}

pub(crate) proof fn add_regroups<V: Scalar>(a: V, b: V, c: V)
    requires
        ring::<V>(),
    ensures
        plus(plus(a, b), c) == plus(a, plus(b, c)),
{
    reveal(ring);
}

pub(crate) proof fn add_nothing<V: Scalar>(a: V)
    requires
        ring::<V>(),
    ensures
        plus(a, number::<V>(0)) == a,
        plus(number::<V>(0), a) == a,
{
    reveal(ring);
    assert(plus(a, number::<V>(0)) == plus(number::<V>(0), a));
}

pub(crate) proof fn take_away<V: Scalar>(a: V, b: V)
    requires
        ring::<V>(),
    ensures
        minus(a, b) == plus(a, negative(b)),
        plus(a, negative(a)) == number::<V>(0),
        plus(b, negative(b)) == number::<V>(0),
{
    reveal(ring);
}

pub(crate) proof fn multiply_commutes<V: Scalar>(a: V, b: V)
    requires
        ring::<V>(),
    ensures
        times(a, b) == times(b, a),
{
    reveal(ring);
}

pub(crate) proof fn multiply_regroups<V: Scalar>(a: V, b: V, c: V)
    requires
        ring::<V>(),
    ensures
        times(times(a, b), c) == times(a, times(b, c)),
{
    reveal(ring);
}

pub(crate) proof fn multiply_spreads<V: Scalar>(a: V, b: V, c: V)
    requires
        ring::<V>(),
    ensures
        times(a, plus(b, c)) == plus(times(a, b), times(a, c)),
{
    reveal(ring);
}

/// What is added to a sum on the left comes off again.
pub(crate) proof fn cancels<V: Scalar>(a: V, b: V, c: V)
    requires
        ring::<V>(),
        plus(a, b) == plus(a, c),
    ensures
        b == c,
{
    let n = negative(a);
    take_away(a, a);
    add_commutes(n, a);
    add_regroups(n, a, b);
    add_regroups(n, a, c);
    add_nothing(b);
    add_nothing(c);
}

/// The middle two of four summands change places.
pub(crate) proof fn add_swaps<V: Scalar>(a: V, b: V, c: V, d: V)
    requires
        ring::<V>(),
    ensures
        plus(plus(a, b), plus(c, d)) == plus(plus(a, c), plus(b, d)),
{
    add_regroups(a, b, plus(c, d));
    add_regroups(b, c, d);
    add_commutes(b, c);
    add_regroups(c, b, d);
    add_regroups(a, c, plus(b, d));
}

/// Nothing times anything is nothing.
pub(crate) proof fn multiply_by_nothing<V: Scalar>(a: V)
    requires
        ring::<V>(),
    ensures
        times(a, number::<V>(0)) == number::<V>(0),
        times(number::<V>(0), a) == number::<V>(0),
{
    let zero = number::<V>(0);
    add_nothing(zero);
    multiply_spreads(a, zero, zero);
    add_nothing(times(a, zero));
    cancels(times(a, zero), times(a, zero), zero);
    multiply_commutes(a, zero);
}

/// A negative is what makes a sum vanish.
pub(crate) proof fn negative_is<V: Scalar>(a: V, b: V)
    requires
        ring::<V>(),
        plus(a, b) == number::<V>(0),
    ensures
        b == negative(a),
{
    take_away(a, a);
    cancels(a, b, negative(a));
}

/// How negatives go through sums and products.
pub(crate) proof fn negatives<V: Scalar>(a: V, b: V)
    requires
        ring::<V>(),
    ensures
        negative(negative(a)) == a,
        negative(number::<V>(0)) == number::<V>(0),
        negative(plus(a, b)) == plus(negative(a), negative(b)),
        times(a, negative(b)) == negative(times(a, b)),
        times(negative(a), b) == negative(times(a, b)),
        negative(minus(a, b)) == minus(b, a),
{
    let zero = number::<V>(0);
    take_away(a, b);
    take_away(b, a);
    add_commutes(a, negative(a));
    negative_is(negative(a), a);
    add_nothing(zero);
    negative_is(zero, zero);
    add_swaps(a, b, negative(a), negative(b));
    negative_is(plus(a, b), plus(negative(a), negative(b)));
    multiply_spreads(a, b, negative(b));
    multiply_by_nothing(a);
    negative_is(times(a, b), times(a, negative(b)));
    multiply_commutes(negative(a), b);
    multiply_spreads(b, a, negative(a));
    multiply_by_nothing(b);
    multiply_commutes(a, b);
    negative_is(times(b, a), times(b, negative(a)));
    // a - b and b - a add up to nothing.
    add_swaps(a, negative(b), b, negative(a));
    add_commutes(plus(a, b), plus(negative(b), negative(a)));
    add_commutes(negative(b), negative(a));
    take_away(plus(a, b), plus(a, b));
    negative_is(minus(a, b), minus(b, a));
}

/// A product with a difference is a difference of products.
pub(crate) proof fn multiply_spreads_over_difference<V: Scalar>(a: V, b: V, c: V)
    requires
        ring::<V>(),
    ensures
        times(a, minus(b, c)) == minus(times(a, b), times(a, c)),
        times(minus(b, c), a) == minus(times(b, a), times(c, a)),
{
    take_away(b, c);
    multiply_spreads(a, b, negative(c));
    negatives(a, c);
    take_away(times(a, b), times(a, c));
    multiply_commutes(a, minus(b, c));
    multiply_commutes(a, b);
    multiply_commutes(a, c);
}

/// Differences add up to the difference of the sums.
pub(crate) proof fn differences_add<V: Scalar>(a: V, b: V, c: V, d: V)
    requires
        ring::<V>(),
    ensures
        plus(minus(a, b), minus(c, d)) == minus(plus(a, c), plus(b, d)),
{
    take_away(a, b);
    take_away(c, d);
    take_away(plus(a, c), plus(b, d));
    add_swaps(a, negative(b), c, negative(d));
    negatives(b, d);
}

/// The first `n` terms of a sequence, added up.
pub open spec fn total<V: Scalar>(n: int, terms: spec_fn(int) -> V) -> V
    decreases n,
{
    if n <= 0 {
        number(0)
    } else {
        plus(total(n - 1, terms), terms(n - 1))
    }
}

pub(crate) proof fn totals_add<V: Scalar>(
    n: int,
    f: spec_fn(int) -> V,
    g: spec_fn(int) -> V,
    sum: spec_fn(int) -> V,
)
    requires
        ring::<V>(),
        forall|i: int| 0 <= i < n ==> #[trigger] sum(i) == plus(f(i), g(i)),
    ensures
        total(n, sum) == plus(total(n, f), total(n, g)),
    decreases n,
{
    if n > 0 {
        totals_add(n - 1, f, g, sum);
        assert(sum(n - 1) == plus(f(n - 1), g(n - 1)));
        add_swaps(total(n - 1, f), total(n - 1, g), f(n - 1), g(n - 1));
    } else {
        add_nothing(number::<V>(0));
    }
}

pub(crate) proof fn totals_subtract<V: Scalar>(
    n: int,
    f: spec_fn(int) -> V,
    g: spec_fn(int) -> V,
    difference: spec_fn(int) -> V,
)
    requires
        ring::<V>(),
        forall|i: int| 0 <= i < n ==> #[trigger] difference(i) == minus(f(i), g(i)),
    ensures
        total(n, difference) == minus(total(n, f), total(n, g)),
    decreases n,
{
    if n > 0 {
        totals_subtract(n - 1, f, g, difference);
        assert(difference(n - 1) == minus(f(n - 1), g(n - 1)));
        differences_add(total(n - 1, f), total(n - 1, g), f(n - 1), g(n - 1));
    } else {
        let zero = number::<V>(0);
        take_away(zero, zero);
    }
}

/// Terms that are nothing add up to nothing.
pub(crate) proof fn totals_vanish<V: Scalar>(n: int, f: spec_fn(int) -> V)
    requires
        ring::<V>(),
        forall|i: int| 0 <= i < n ==> #[trigger] f(i) == number::<V>(0),
    ensures
        total(n, f) == number::<V>(0),
    decreases n,
{
    if n > 0 {
        totals_vanish(n - 1, f);
        assert(f(n - 1) == number::<V>(0));
        add_nothing(number::<V>(0));
    }
}

/// A sum whose first `shift` terms are nothing is the sum of its terms moved up.
pub(crate) proof fn totals_shift<V: Scalar>(
    n: int,
    shift: int,
    f: spec_fn(int) -> V,
    g: spec_fn(int) -> V,
)
    requires
        ring::<V>(),
        0 <= shift <= n,
        forall|i: int| 0 <= i < shift ==> #[trigger] f(i) == number::<V>(0),
        forall|j: int| n - shift <= j < n ==> #[trigger] g(j) == number::<V>(0),
        forall|j: int| 0 <= j < n - shift ==> #[trigger] g(j) == f(j + shift),
    ensures
        total(n, f) == total(n, g),
{
    lemma_moved_up(n, shift, f, g, n - shift);
    lemma_tail_vanishes(n, n - shift, g, n);
}

proof fn lemma_moved_up<V: Scalar>(
    n: int,
    shift: int,
    f: spec_fn(int) -> V,
    g: spec_fn(int) -> V,
    k: int,
)
    requires
        ring::<V>(),
        0 <= shift <= n,
        0 <= k <= n - shift,
        forall|i: int| 0 <= i < shift ==> #[trigger] f(i) == number::<V>(0),
        forall|j: int| 0 <= j < n - shift ==> #[trigger] g(j) == f(j + shift),
    ensures
        total(k + shift, f) == total(k, g),
    decreases k,
{
    if k > 0 {
        lemma_moved_up(n, shift, f, g, k - 1);
        assert(g(k - 1) == f(k - 1 + shift));
    } else {
        totals_vanish(shift, f);
    }
}

proof fn lemma_tail_vanishes<V: Scalar>(n: int, from: int, g: spec_fn(int) -> V, k: int)
    requires
        ring::<V>(),
        0 <= from <= k <= n,
        forall|j: int| from <= j < n ==> #[trigger] g(j) == number::<V>(0),
    ensures
        total(k, g) == total(from, g),
    decreases k - from,
{
    if k > from {
        lemma_tail_vanishes(n, from, g, k - 1);
        assert(g(k - 1) == number::<V>(0));
        add_nothing(total(k - 1, g));
    }
}

} // verus!
