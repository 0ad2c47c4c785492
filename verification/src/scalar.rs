//! The arithmetic the solver is written over.
//!
//! Nothing in the equations cares how a number is stored. Every quantity here is
//! a [`Scalar`], known only through its operators, and every formula is stated
//! over what those operators compute. A program runs the library with `f32` for
//! the fields and `f64` for the few places that need the extra digits.

use core::ops::{Add, Div, Mul, Sub};
use vstd::prelude::*;
use vstd::std_specs::cmp::{PartialEqSpec, PartialOrdIs, PartialOrdSpec};
use vstd::std_specs::convert::FromSpec;
use vstd::std_specs::ops::{AddSpec, DivSpec, MulSpec, SubSpec};

verus! {

/// A number: the four operations, an order, and the small whole numbers.
pub trait Scalar: Copy + PartialOrd + From<u8> + Add<Output = Self> + Sub<Output = Self> + Mul<
    Output = Self,
> + Div<Output = Self> {

}

impl<T> Scalar for T where
    T: Copy + PartialOrd + From<u8> + Add<Output = T> + Sub<Output = T> + Mul<Output = T> + Div<
        Output = T,
    >,
 {

}

/// `a + b`.
pub open spec fn plus<V: Scalar>(a: V, b: V) -> V {
    a.add_spec(b)
}

/// `a - b`.
pub open spec fn minus<V: Scalar>(a: V, b: V) -> V {
    a.sub_spec(b)
}

/// `a * b`.
pub open spec fn times<V: Scalar>(a: V, b: V) -> V {
    a.mul_spec(b)
}

/// `a / b`.
pub open spec fn over<V: Scalar>(a: V, b: V) -> V {
    a.div_spec(b)
}

/// The whole number `n`.
pub open spec fn number<V: Scalar>(n: u8) -> V {
    <V as FromSpec<u8>>::from_spec(n)
}

/// `a < b`.
pub open spec fn below<V: Scalar>(a: V, b: V) -> bool {
    a.is_lt(&b)
}

/// `a <= b`.
pub open spec fn at_most<V: Scalar>(a: V, b: V) -> bool {
    a.is_le(&b)
}

/// `a == b`, as the numbers themselves compare.
pub open spec fn same<V: Scalar>(a: V, b: V) -> bool {
    a.eq_spec(&b)
}

/// One half.
pub open spec fn half<V: Scalar>() -> V {
    over(number(1), number(2))
}

/// `a` with its sign turned round.
pub open spec fn negative<V: Scalar>(a: V) -> V {
    minus(number(0), a)
}

/// `a` without its sign.
pub open spec fn magnitude_of<V: Scalar>(a: V) -> V {
    if below(a, number(0)) {
        negative(a)
    } else {
        a
    }
}

/// The smaller of two numbers, and the other one where one is not a number.
pub open spec fn lesser_of<V: Scalar>(a: V, b: V) -> V {
    if !same(a, a) || below(b, a) {
        b
    } else {
        a
    }
}

/// The larger of two numbers, and the other one where one is not a number.
pub open spec fn greater_of<V: Scalar>(a: V, b: V) -> V {
    if !same(a, a) || below(a, b) {
        b
    } else {
        a
    }
}

/// No operands are turned away.
pub open spec fn operations_total<V: Scalar>() -> bool {
    &&& forall|a: V, b: V| #[trigger] a.add_req(b)
    &&& forall|a: V, b: V| #[trigger] a.sub_req(b)
    &&& forall|a: V, b: V| #[trigger] a.mul_req(b)
    &&& forall|a: V, b: V| #[trigger] a.div_req(b)
}

/// A result is a function of the operands.
pub open spec fn operations_exact<V: Scalar>() -> bool {
    &&& V::obeys_add_spec()
    &&& V::obeys_sub_spec()
    &&& V::obeys_mul_spec()
    &&& V::obeys_div_spec()
}

/// A whole number always converts to the same value.
pub open spec fn conversion_exact<V: Scalar>() -> bool {
    <V as FromSpec<u8>>::obeys_from_spec()
}

/// A comparison is a function of what it compares.
pub open spec fn comparison_exact<V: Scalar>() -> bool {
    &&& V::obeys_eq_spec()
    &&& V::obeys_partial_cmp_spec()
}

/// The operators of `V` accept any operands, and what each gives is settled by
/// its operands.
///
/// IEEE arithmetic is of this kind wherever it yields a number at all: an
/// overflow is an infinity and a division by zero is not an error. Only which
/// of the many not-a-numbers comes out of an invalid operation is left open.
pub open spec fn arithmetic<V: Scalar>() -> bool {
    &&& operations_total::<V>()
    &&& operations_exact::<V>()
    &&& conversion_exact::<V>()
    &&& comparison_exact::<V>()
}

/// The smaller of two numbers, and the other one where one is not a number.
pub fn lesser<V: Scalar>(a: V, b: V) -> (r: V)
    requires
        arithmetic::<V>(),
    ensures
        r == lesser_of(a, b),
{
    if a != a || b < a {
        b
    } else {
        a
    }
}

/// The larger of two numbers, and the other one where one is not a number.
pub fn greater<V: Scalar>(a: V, b: V) -> (r: V)
    requires
        arithmetic::<V>(),
    ensures
        r == greater_of(a, b),
{
    if a != a || a < b {
        b
    } else {
        a
    }
}

/// A number without its sign.
pub fn magnitude<V: Scalar>(a: V) -> (r: V)
    requires
        arithmetic::<V>(),
    ensures
        r == magnitude_of(a),
{
    if a < V::from(0u8) {
        V::from(0u8) - a
    } else {
        a
    }
}

/// One half.
pub fn one_half<V: Scalar>() -> (r: V)
    requires
        arithmetic::<V>(),
    ensures
        r == half::<V>(),
{
    V::from(1u8) / V::from(2u8)
}

}
