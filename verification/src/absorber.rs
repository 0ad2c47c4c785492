//! The shape of the absorbing layer.
//!
//! The loss is strongest at the walls, falls on the way in, is nothing inside, and
//! does not tell one wall from the one opposite.

use crate::algebra::{
    add_commutes, add_nothing, add_regroups, add_swaps, multiply_by_nothing, multiply_commutes,
    multiply_regroups, negatives, ring, take_away,
};
use crate::boundary::{clamped, Boundary};
use crate::grading::ordered;
use crate::numerics::Elementary;
use crate::order::{factors_come_off, field, one_way_or_the_other, parts, products_keep_order};
use crate::scalar::{
    at_most, below, greater_of, half, minus, negative, number, over, plus, times, Scalar,
};
use vstd::prelude::*;

verus! {

/// Numbers on a line: of two, one is below the other or they are the same.
#[verifier::opaque]
pub open spec fn aligned<V: Scalar>() -> bool {
    &&& forall|a: V, b: V| #[trigger] at_most(a, b) ==> !below(b, a)
    &&& forall|a: V, b: V| #[trigger] at_most(a, b) && at_most(b, a) ==> a == b
    &&& below(number::<V>(0), number::<V>(1))
}

/// Sums, differences, quotients, products and cubes keep numbers in order.
#[verifier::opaque]
pub open spec fn keeps_order<V: Scalar, N: Elementary<V>>(math: &N) -> bool {
    let zero = number::<V>(0);
    &&& forall|a: V, p: V, q: V|
        at_most(p, q) ==> at_most(#[trigger] minus(a, q), #[trigger] minus(a, p))
    &&& forall|a: V, b: V, c: V|
        at_most(a, b) ==> at_most(#[trigger] plus(a, c), #[trigger] plus(b, c))
    &&& forall|a: V, b: V, c: V|
        below(zero, c) && at_most(a, b) ==> at_most(#[trigger] over(a, c), #[trigger] over(b, c))
    &&& forall|a: V, b: V|
        at_most(zero, a) && at_most(a, b) ==> at_most(
            #[trigger] math.pow_of(a, number::<V>(3)),
            #[trigger] math.pow_of(b, number::<V>(3)),
        )
    &&& forall|k: V, a: V, b: V|
        at_most(zero, k) && at_most(a, b) ==> at_most(
            #[trigger] times(k, a),
            #[trigger] times(k, b),
        )
}

/// Counting up and adding up agree.
#[verifier::opaque]
pub open spec fn counts_exactly<V: Scalar, N: Elementary<V>>(math: &N) -> bool {
    &&& math.count_of(0) == number::<V>(0)
    &&& math.count_of(1) == number::<V>(1)
    &&& plus(half::<V>(), half::<V>()) == number::<V>(1)
    &&& at_most(number::<V>(0), half::<V>())
    &&& forall|a: u64, b: u64|
        a <= b ==> at_most(#[trigger] math.count_of(a), #[trigger] math.count_of(b))
    &&& forall|a: u64, b: u64|
        a + b <= u64::MAX ==> #[trigger] plus(math.count_of(a), math.count_of(b))
            == math.count_of((a + b) as u64)
}

proof fn lemma_greater<V: Scalar>(a: V, b: V)
    requires
        ordered::<V>(),
    ensures
        at_most(a, greater_of(a, b)),
        at_most(b, greater_of(a, b)),
{
    reveal(ordered);
    if below(a, b) {
        assert(at_most(a, b) && at_most(b, b));
    } else {
        assert(at_most(b, a) && at_most(a, a));
    }
}

proof fn lemma_clamped<V: Scalar>(a: V, b: V)
    requires
        ordered::<V>(),
        aligned::<V>(),
        at_most(a, b),
    ensures
        at_most(clamped(a), clamped(b)),
        at_most(number::<V>(0), clamped(a)),
        at_most(clamped(a), number::<V>(1)),
{
    reveal(ordered);
    reveal(aligned);
    let (zero, one) = (number::<V>(0), number::<V>(1));
    assert(at_most(zero, one) && at_most(zero, zero) && at_most(one, one));
    assert(!below(a, zero) ==> at_most(zero, a));
    assert(!below(b, zero) ==> at_most(zero, b));
    assert(!below(one, a) ==> at_most(a, one));
    assert(!below(one, b) ==> at_most(b, one));
    assert(below(b, zero) ==> at_most(b, zero));
    assert(below(one, a) ==> at_most(one, a));
}

impl<V: Scalar> Boundary<V> {
    /// How far into the layer a position is: one at a wall, and zero or less
    /// inside.
    pub open spec fn depth_at<N: Elementary<V>>(self, math: &N, n: int, position: V) -> V {
        let deep = math.count_of(self.depth() as u64);
        let outer = math.count_of((n - 1) as u64);
        greater_of(
            over(minus(deep, position), deep),
            over(minus(deep, minus(outer, position)), deep),
        )
    }
}

/// The loss falls on the way in from the low wall, as far as the middle.
pub proof fn loss_falls_inwards<V: Scalar, N: Elementary<V>>(
    math: &N,
    boundary: Boundary<V>,
    courant: V,
    n: int,
    nearer: V,
    farther: V,
)
    requires
        ordered::<V>(),
        aligned::<V>(),
        keeps_order(math),
        below(number::<V>(0), math.count_of(boundary.depth() as u64)),
        at_most(number::<V>(0), boundary.peak_loss(math, courant)),
        at_most(nearer, farther),
        at_most(farther, minus(math.count_of((n - 1) as u64), farther)),
    ensures
        at_most(
            boundary.loss_at(math, courant, n, farther),
            boundary.loss_at(math, courant, n, nearer),
        ),
{
    let deep = math.count_of(boundary.depth() as u64);
    let outer = math.count_of((n - 1) as u64);
    let (low, high) = (
        over(minus(deep, farther), deep),
        over(minus(deep, minus(outer, farther)), deep),
    );
    let first = over(minus(deep, nearer), deep);
    assert(at_most(minus(deep, farther), minus(deep, nearer)) && at_most(low, first)) by {
        reveal(keeps_order);
    }
    assert(at_most(minus(deep, minus(outer, farther)), minus(deep, farther)) && at_most(high, low))
        by {
        reveal(keeps_order);
    }
    let (inside, outside) = (
        boundary.depth_at(math, n, farther),
        boundary.depth_at(math, n, nearer),
    );
    lemma_greater(first, over(minus(deep, minus(outer, nearer)), deep));
    assert(at_most(inside, outside)) by {
        reveal(ordered);
    }
    lemma_clamped(inside, outside);
    reveal(keeps_order);
    assert(at_most(
        math.pow_of(clamped(inside), number::<V>(3)),
        math.pow_of(clamped(outside), number::<V>(3)),
    ));
}

/// No loss anywhere is above the one the layer is designed to have at its walls.
pub proof fn loss_peaks_at_the_walls<V: Scalar, N: Elementary<V>>(
    math: &N,
    boundary: Boundary<V>,
    courant: V,
    n: int,
    position: V,
)
    requires
        ordered::<V>(),
        aligned::<V>(),
        keeps_order(math),
        at_most(number::<V>(0), boundary.peak_loss(math, courant)),
        math.pow_of(number::<V>(1), number::<V>(3)) == number::<V>(1),
        forall|x: V| #[trigger] times(x, number::<V>(1)) == x,
    ensures
        at_most(
            boundary.loss_at(math, courant, n, position),
            boundary.peak_loss(math, courant),
        ),
{
    let one = number::<V>(1);
    let deep = boundary.depth_at(math, n, position);
    assert(at_most(deep, deep)) by {
        reveal(ordered);
    }
    lemma_clamped(deep, deep);
    reveal(keeps_order);
    let peak = boundary.peak_loss(math, courant);
    assert(at_most(math.pow_of(clamped(deep), number::<V>(3)), math.pow_of(one, number::<V>(3))));
    assert(at_most(
        times(peak, math.pow_of(clamped(deep), number::<V>(3))),
        times(peak, math.pow_of(one, number::<V>(3))),
    ));
}

/// The first and the last corner have exactly that loss.
pub proof fn loss_at_the_walls<V: Scalar, N: Elementary<V>>(
    math: &N,
    boundary: Boundary<V>,
    courant: V,
    n: int,
)
    requires
        ring::<V>(),
        ordered::<V>(),
        aligned::<V>(),
        keeps_order(math),
        counts_exactly(math),
        0 < boundary.depth(),
        1 <= n <= u64::MAX,
        below(number::<V>(0), math.count_of(boundary.depth() as u64)),
        at_most(number::<V>(0), math.count_of((n - 1) as u64)),
        over(
            math.count_of(boundary.depth() as u64),
            math.count_of(boundary.depth() as u64),
        ) == number::<V>(1),
        math.pow_of(number::<V>(1), number::<V>(3)) == number::<V>(1),
        forall|x: V| #[trigger] times(x, number::<V>(1)) == x,
    ensures
        boundary.integer_profile(math, courant, n)[0] == boundary.peak_loss(math, courant),
        boundary.integer_profile(math, courant, n)[n - 1] == boundary.peak_loss(math, courant),
{
    let (zero, one) = (number::<V>(0), number::<V>(1));
    let deep = math.count_of(boundary.depth() as u64);
    let outer = math.count_of((n - 1) as u64);
    assert(math.count_of(0) == zero) by {
        reveal(counts_exactly);
    }
    lemma_take_nothing(deep);
    lemma_take_nothing(outer);
    take_away(outer, outer);
    // Whatever the other wall says, it says no more than one.
    assert(at_most(over(minus(deep, outer), deep), one)) by {
        reveal(keeps_order);
        assert(at_most(minus(deep, outer), minus(deep, zero)));
        assert(at_most(over(minus(deep, outer), deep), over(deep, deep)));
    }
    let other = over(minus(deep, outer), deep);
    assert(greater_of(one, other) == one && greater_of(other, one) == one) by {
        reveal(aligned);
        reveal(ordered);
        if !below(other, one) {
            assert(at_most(one, other));
        }
    }
    assert(clamped(one) == one) by {
        reveal(aligned);
        reveal(ordered);
        assert(at_most(one, one) && at_most(zero, one));
    }
    assert(boundary.depth_at(math, n, zero) == one);
    assert(boundary.depth_at(math, n, outer) == one);
}

proof fn lemma_take_nothing<V: Scalar>(a: V)
    requires
        ring::<V>(),
    ensures
        minus(a, number::<V>(0)) == a,
        minus(a, a) == number::<V>(0),
{
    let zero = number::<V>(0);
    take_away(a, zero);
    take_away(a, a);
    take_away(zero, zero);
    add_nothing(negative(zero));
    add_nothing(a);
}

/// Nothing is lost between the two layers.
pub proof fn nothing_is_lost_inside<V: Scalar, N: Elementary<V>>(
    math: &N,
    boundary: Boundary<V>,
    courant: V,
    n: int,
    position: V,
)
    requires
        ring::<V>(),
        ordered::<V>(),
        aligned::<V>(),
        keeps_order(math),
        below(number::<V>(0), math.count_of(boundary.depth() as u64)),
        over(number::<V>(0), math.count_of(boundary.depth() as u64)) == number::<V>(0),
        math.pow_of(number::<V>(0), number::<V>(3)) == number::<V>(0),
        at_most(math.count_of(boundary.depth() as u64), position),
        at_most(
            math.count_of(boundary.depth() as u64),
            minus(math.count_of((n - 1) as u64), position),
        ),
    ensures
        boundary.loss_at(math, courant, n, position) == number::<V>(0),
{
    let zero = number::<V>(0);
    let deep = math.count_of(boundary.depth() as u64);
    let across = minus(math.count_of((n - 1) as u64), position);
    lemma_take_nothing(deep);
    let (low, high) = (over(minus(deep, position), deep), over(minus(deep, across), deep));
    assert(at_most(low, zero) && at_most(high, zero)) by {
        reveal(keeps_order);
        assert(at_most(minus(deep, position), minus(deep, deep)));
        assert(at_most(minus(deep, across), minus(deep, deep)));
        assert(at_most(low, over(zero, deep)));
        assert(at_most(high, over(zero, deep)));
    }
    let most = greater_of(low, high);
    assert(clamped(most) == zero) by {
        reveal(ordered);
        reveal(aligned);
        assert(at_most(most, zero));
        if !below(most, zero) {
            assert(at_most(zero, most));
        }
        assert(at_most(zero, number::<V>(1)));
    }
    multiply_by_nothing(boundary.peak_loss(math, courant));
}

/// Two positions as far from one wall as from the other lose the same.
proof fn lemma_loss_is_even<V: Scalar, N: Elementary<V>>(
    math: &N,
    boundary: Boundary<V>,
    courant: V,
    n: int,
    position: V,
    mirrored: V,
)
    requires
        ordered::<V>(),
        aligned::<V>(),
        minus(math.count_of((n - 1) as u64), position) == mirrored,
        minus(math.count_of((n - 1) as u64), mirrored) == position,
    ensures
        boundary.loss_at(math, courant, n, position) == boundary.loss_at(
            math,
            courant,
            n,
            mirrored,
        ),
{
    let deep = math.count_of(boundary.depth() as u64);
    let (low, high) = (over(minus(deep, position), deep), over(minus(deep, mirrored), deep));
    assert(greater_of(low, high) == greater_of(high, low)) by {
        reveal(ordered);
        reveal(aligned);
        if below(low, high) {
            assert(at_most(low, high));
        } else if !below(high, low) {
            assert(at_most(high, low) && at_most(low, high));
        }
    }
}

/// `(a + b) - a` and `(a + b) - b`.
proof fn lemma_rest<V: Scalar>(a: V, b: V)
    requires
        ring::<V>(),
    ensures
        minus(plus(a, b), b) == a,
        minus(plus(a, b), a) == b,
{
    take_away(plus(a, b), b);
    take_away(b, b);
    add_regroups(a, b, negative(b));
    add_nothing(a);
    add_commutes(a, b);
    take_away(plus(b, a), a);
    take_away(a, a);
    add_regroups(b, a, negative(a));
    add_nothing(b);
}

/// The profile at the corners reads the same from either wall.
pub proof fn corners_are_symmetric<V: Scalar, N: Elementary<V>>(
    math: &N,
    boundary: Boundary<V>,
    courant: V,
    n: int,
    i: int,
)
    requires
        ring::<V>(),
        ordered::<V>(),
        aligned::<V>(),
        counts_exactly(math),
        n <= u64::MAX,
        0 <= i < n,
    ensures
        boundary.integer_profile(math, courant, n)[i] == boundary.integer_profile(
            math,
            courant,
            n,
        )[n - 1 - i],
{
    let (near, far) = (math.count_of(i as u64), math.count_of((n - 1 - i) as u64));
    assert(plus(near, far) == math.count_of((n - 1) as u64)) by {
        reveal(counts_exactly);
        assert((i as u64 + (n - 1 - i) as u64) as u64 == (n - 1) as u64);
    }
    lemma_rest(near, far);
    lemma_loss_is_even(math, boundary, courant, n, near, far);
}

/// Half a cell past corner `i` and half a cell past its opposite make up the axis.
proof fn lemma_halves_meet<V: Scalar, N: Elementary<V>>(math: &N, n: int, i: int)
    requires
        ring::<V>(),
        counts_exactly(math),
        n <= u64::MAX,
        0 <= i < n - 1,
    ensures
        plus(
            plus(math.count_of(i as u64), half::<V>()),
            plus(math.count_of((n - 2 - i) as u64), half::<V>()),
        ) == math.count_of((n - 1) as u64),
{
    let (near, far) = (math.count_of(i as u64), math.count_of((n - 2 - i) as u64));
    let h = half::<V>();
    let (first, second) = (plus(near, h), plus(far, h));
    // (near + h) + (far + h) = (near + far) + 1.
    add_swaps(near, h, far, h);
    assert(plus(first, second) == math.count_of((n - 1) as u64)) by {
        reveal(counts_exactly);
        assert((i as u64 + (n - 2 - i) as u64) as u64 == (n - 2) as u64);
        assert(plus(near, far) == math.count_of((n - 2) as u64));
        assert(plus(math.count_of((n - 2) as u64), math.count_of(1)) == math.count_of(
            ((n - 2) as u64 + 1u64) as u64,
        ));
    }
}

/// The profile halfway between corners reads the same from either wall too, one
/// sample short.
pub proof fn centers_are_symmetric<V: Scalar, N: Elementary<V>>(
    math: &N,
    boundary: Boundary<V>,
    courant: V,
    n: int,
    i: int,
)
    requires
        ring::<V>(),
        ordered::<V>(),
        aligned::<V>(),
        counts_exactly(math),
        n <= u64::MAX,
        0 <= i < n - 1,
    ensures
        boundary.half_profile(math, courant, n)[i] == boundary.half_profile(math, courant, n)[n - 2
            - i],
{
    let (first, second) = (
        plus(math.count_of(i as u64), half::<V>()),
        plus(math.count_of((n - 2 - i) as u64), half::<V>()),
    );
    lemma_halves_meet(math, n, i);
    lemma_rest(first, second);
    lemma_loss_is_even(math, boundary, courant, n, first, second);
}

/// Where sample `i` of a profile sits: on a corner, or half a cell past it.
pub open spec fn sample_place<V: Scalar, N: Elementary<V>>(math: &N, shifted: bool, i: int) -> V {
    if shifted {
        plus(math.count_of(i as u64), half::<V>())
    } else {
        math.count_of(i as u64)
    }
}

impl<V: Scalar> Boundary<V> {
    /// Either profile along an axis of `n` cells.
    pub open spec fn profile<N: Elementary<V>>(
        self,
        math: &N,
        courant: V,
        n: int,
        shifted: bool,
    ) -> Seq<V> {
        if shifted {
            self.half_profile(math, courant, n)
        } else {
            self.integer_profile(math, courant, n)
        }
    }
}

/// How sample places compare with each other and with the far wall.
proof fn lemma_places<V: Scalar, N: Elementary<V>>(
    math: &N,
    shifted: bool,
    n: int,
    d: int,
    i: int,
)
    requires
        ring::<V>(),
        ordered::<V>(),
        keeps_order(math),
        counts_exactly(math),
        n <= u64::MAX,
        0 <= i < n,
        0 <= d,
    ensures
        // As far from the far wall as whatever the sample leaves of the axis.
        !shifted || i < n - 1 ==> minus(
            math.count_of((n - 1) as u64),
            sample_place(math, shifted, i),
        ) == sample_place(
            math,
            shifted,
            if shifted {
                n - 2 - i
            } else {
                n - 1 - i
            },
        ),
        d <= i ==> at_most(math.count_of(d as u64), sample_place(math, shifted, i)),
        d <= i ==> at_most(sample_place(math, shifted, d), sample_place(math, shifted, i)),
{
    let (near, h) = (math.count_of(i as u64), half::<V>());
    if d <= i {
        let first = math.count_of(d as u64);
        assert(at_most(first, near)) by {
            reveal(counts_exactly);
        }
        if shifted {
            add_nothing(near);
            add_commutes(near, h);
            assert(at_most(plus(number::<V>(0), near), plus(h, near))) by {
                reveal(counts_exactly);
                reveal(keeps_order);
            }
            assert(at_most(plus(first, h), plus(near, h))) by {
                reveal(keeps_order);
            }
            assert(at_most(first, plus(near, h))) by {
                reveal(ordered);
            }
        }
    }
    if !shifted {
        let far = math.count_of((n - 1 - i) as u64);
        assert(plus(near, far) == math.count_of((n - 1) as u64)) by {
            reveal(counts_exactly);
            assert((i as u64 + (n - 1 - i) as u64) as u64 == (n - 1) as u64);
        }
        lemma_rest(near, far);
    } else if i < n - 1 {
        lemma_halves_meet(math, n, i);
        lemma_rest(plus(near, h), plus(math.count_of((n - 2 - i) as u64), h));
    }
}

/// No sample takes more than the one before it, from the low wall as far as the
/// middle.
pub proof fn profiles_fall_inwards<V: Scalar, N: Elementary<V>>(
    math: &N,
    boundary: Boundary<V>,
    courant: V,
    n: int,
    shifted: bool,
    i: int,
    j: int,
)
    requires
        ring::<V>(),
        ordered::<V>(),
        aligned::<V>(),
        keeps_order(math),
        counts_exactly(math),
        0 < boundary.depth(),
        below(number::<V>(0), math.count_of(boundary.depth() as u64)),
        at_most(number::<V>(0), boundary.peak_loss(math, courant)),
        n <= u64::MAX,
        0 <= i <= j,
        2 * j + (if shifted {
            1int
        } else {
            0int
        }) <= n - 1,
    ensures
        at_most(
            boundary.profile(math, courant, n, shifted)[j],
            boundary.profile(math, courant, n, shifted)[i],
        ),
{
    let across = if shifted {
        n - 2 - j
    } else {
        n - 1 - j
    };
    lemma_places(math, shifted, n, i, j);
    lemma_places(math, shifted, n, j, across);
    loss_falls_inwards(
        math,
        boundary,
        courant,
        n,
        sample_place(math, shifted, i),
        sample_place(math, shifted, j),
    );
}

/// Samples between the two layers take nothing.
pub proof fn profiles_are_zero_inside<V: Scalar, N: Elementary<V>>(
    math: &N,
    boundary: Boundary<V>,
    courant: V,
    n: int,
    shifted: bool,
    i: int,
)
    requires
        ring::<V>(),
        ordered::<V>(),
        aligned::<V>(),
        keeps_order(math),
        counts_exactly(math),
        0 < boundary.depth(),
        below(number::<V>(0), math.count_of(boundary.depth() as u64)),
        over(number::<V>(0), math.count_of(boundary.depth() as u64)) == number::<V>(0),
        math.pow_of(number::<V>(0), number::<V>(3)) == number::<V>(0),
        n <= u64::MAX,
        boundary.depth() <= i,
        i + (if shifted {
            1int
        } else {
            0int
        }) <= n - 1 - boundary.depth(),
    ensures
        boundary.profile(math, courant, n, shifted)[i] == number::<V>(0),
{
    let across = if shifted {
        n - 2 - i
    } else {
        n - 1 - i
    };
    lemma_places(math, shifted, n, boundary.depth(), i);
    lemma_places(math, shifted, n, boundary.depth(), across);
    nothing_is_lost_inside(math, boundary, courant, n, sample_place(math, shifted, i));
}

/// The loss at the wall, over all cells of the layer, is the logarithm of the
/// reflection asked for, at the Courant number: what a wave meets on its way through
/// does not depend on how many cells it is spread over.
pub proof fn layers_take_what_they_are_designed_for<V: Scalar, N: Elementary<V>>(
    math: &N,
    thickness: u32,
    target_reflection: V,
    courant: V,
)
    requires
        field::<V>(),
        plus(number::<V>(3), number::<V>(1)) == number::<V>(4),
        below(number::<V>(0), number::<V>(4)),
        below(number::<V>(0), math.count_of(thickness as u64)),
    ensures
        times(
            (Boundary::Absorbing { thickness, target_reflection }).peak_loss(math, courant),
            math.count_of(thickness as u64),
        ) == negative(times(math.ln_of(target_reflection), courant)),
{
    let four = number::<V>(4);
    let deep = math.count_of(thickness as u64);
    let depth = times(math.ln_of(target_reflection), courant);
    let peak = (Boundary::Absorbing { thickness, target_reflection }).peak_loss(math, courant);
    let all = times(times(negative(four), math.ln_of(target_reflection)), courant);
    multiply_by_nothing(deep);
    products_keep_order(number::<V>(0), four, deep);
    parts(all, times(four, deep));
    // peak·(4·deep) = -4·depth, and so peak·deep = -depth.
    multiply_regroups(negative(four), math.ln_of(target_reflection), courant);
    negatives(four, depth);
    multiply_commutes(four, depth);
    negatives(depth, four);
    multiply_commutes(four, deep);
    multiply_regroups(peak, deep, four);
    factors_come_off(times(peak, deep), negative(depth), four);
}

/// A wave that meets the whole layer comes back as weak as was asked for: what is
/// left of it is the exponential of what the layer takes over a time step's travel.
pub proof fn layers_reflect_as_little_as_asked<V: Scalar, N: Elementary<V>>(
    math: &N,
    thickness: u32,
    target_reflection: V,
    courant: V,
)
    requires
        field::<V>(),
        plus(number::<V>(3), number::<V>(1)) == number::<V>(4),
        below(number::<V>(0), number::<V>(4)),
        below(number::<V>(0), math.count_of(thickness as u64)),
        below(number::<V>(0), courant),
        math.exp_of(math.ln_of(target_reflection)) == target_reflection,
    ensures
        ({
            let peak = (Boundary::Absorbing { thickness, target_reflection }).peak_loss(
                math,
                courant,
            );
            math.exp_of(
                negative(over(times(peak, math.count_of(thickness as u64)), courant)),
            ) == target_reflection
        }),
{
    let (log, deep) = (math.ln_of(target_reflection), math.count_of(thickness as u64));
    let peak = (Boundary::Absorbing { thickness, target_reflection }).peak_loss(math, courant);
    layers_take_what_they_are_designed_for(math, thickness, target_reflection, courant);
    negatives(log, courant);
    parts(times(peak, deep), courant);
    factors_come_off(over(times(peak, deep), courant), negative(log), courant);
}

/// Two layers for the same reflection take the same in all, however many cells each
/// is spread over.
pub proof fn thickness_spreads_the_loss<V: Scalar, N: Elementary<V>>(
    math: &N,
    thin: u32,
    thick: u32,
    target_reflection: V,
    courant: V,
)
    requires
        field::<V>(),
        plus(number::<V>(3), number::<V>(1)) == number::<V>(4),
        below(number::<V>(0), number::<V>(4)),
        below(number::<V>(0), math.count_of(thin as u64)),
        below(number::<V>(0), math.count_of(thick as u64)),
    ensures
        times(
            (Boundary::Absorbing { thickness: thin, target_reflection }).peak_loss(math, courant),
            math.count_of(thin as u64),
        ) == times(
            (Boundary::Absorbing { thickness: thick, target_reflection }).peak_loss(math, courant),
            math.count_of(thick as u64),
        ),
{
    layers_take_what_they_are_designed_for(math, thin, target_reflection, courant);
    layers_take_what_they_are_designed_for(math, thick, target_reflection, courant);
}

/// A fraction of the way out from the inner edge of the layer the loss is the cube
/// of that fraction of the loss at the wall, on either side of the domain.
pub proof fn the_loss_is_cubic_in_depth<V: Scalar, N: Elementary<V>>(
    math: &N,
    boundary: Boundary<V>,
    courant: V,
    n: int,
    fraction: V,
    position: V,
)
    requires
        field::<V>(),
        keeps_order(math),
        forall|x: V| #[trigger] math.pow_of(x, number::<V>(3)) == times(times(x, x), x),
        below(number::<V>(0), math.count_of(boundary.depth() as u64)),
        at_most(number::<V>(0), fraction),
        at_most(fraction, number::<V>(1)),
        // The far layer does not reach over here.
        at_most(position, minus(math.count_of((n - 1) as u64), position)),
        plus(position, times(fraction, math.count_of(boundary.depth() as u64))) == math.count_of(
            boundary.depth() as u64,
        ),
    ensures
        boundary.loss_at(math, courant, n, position) == times(
            boundary.peak_loss(math, courant),
            times(times(fraction, fraction), fraction),
        ),
        boundary.loss_at(
            math,
            courant,
            n,
            minus(math.count_of((n - 1) as u64), position),
        ) == boundary.loss_at(math, courant, n, position),
{
    let (zero, one) = (number::<V>(0), number::<V>(1));
    let deep = math.count_of(boundary.depth() as u64);
    let outer = math.count_of((n - 1) as u64);
    let across = minus(outer, position);
    let (low, high) = (over(minus(deep, position), deep), over(minus(deep, across), deep));
    // deep - position = fraction·deep, so low is the fraction.
    lemma_rest(position, times(fraction, deep));
    parts(times(fraction, deep), deep);
    factors_come_off(low, fraction, deep);
    assert(at_most(high, low)) by {
        reveal(keeps_order);
        assert(at_most(minus(deep, across), minus(deep, position)));
    }
    one_way_or_the_other(high, low);
    one_way_or_the_other(low, high);
    one_way_or_the_other(zero, fraction);
    one_way_or_the_other(fraction, one);
    assert(greater_of(low, high) == low) by {
        reveal(ordered);
    }
    assert(clamped(low) == fraction);
    // outer - across = position.
    take_away(outer, position);
    take_away(outer, across);
    lemma_back(outer, position);
    lemma_loss_is_even(math, boundary, courant, n, position, across);
}

proof fn lemma_back<V: Scalar>(a: V, b: V)
    requires
        ring::<V>(),
    ensures
        minus(a, minus(a, b)) == b,
{
    take_away(a, b);
    add_commutes(negative(b), b);
    // a = (a - b) + b, and (a - b) + b - (a - b) = b.
    add_regroups(a, negative(b), b);
    take_away(b, b);
    add_nothing(a);
    lemma_rest(minus(a, b), b);
}

} // verus!
