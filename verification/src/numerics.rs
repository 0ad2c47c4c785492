//! The functions that arithmetic alone does not give.
//!
//! Waveforms need exponentials and sines, the stability limit needs a square
//! root, and a position in metres has to become a cell index somewhere. All of
//! it goes through [`Elementary`], so that the rest of the library can say what
//! it computes without saying how a sine is approximated.

use crate::scalar::Scalar;
use vstd::prelude::*;

verus! {

/// What the elementary functions of one kind of number are.
#[verifier::reject_recursive_types(T)]
pub struct Functions<T> {
    /// `e` to the power `x`.
    pub exp: spec_fn(T) -> T,
    /// Sine of an angle in radians.
    pub sin: spec_fn(T) -> T,
    /// Cosine of an angle in radians.
    pub cos: spec_fn(T) -> T,
    /// Tangent of an angle in radians.
    pub tan: spec_fn(T) -> T,
    /// Angle in radians with the given sine.
    pub asin: spec_fn(T) -> T,
    /// Natural logarithm.
    pub ln: spec_fn(T) -> T,
    /// Square root.
    pub sqrt: spec_fn(T) -> T,
    /// `x` to the power `y`.
    pub pow: spec_fn(T, T) -> T,
    /// The whole number `n`.
    pub count: spec_fn(u64) -> T,
    /// The decimal fraction `digits / 10^places`.
    pub decimal: spec_fn(u64, u8) -> T,
    /// The unbounded value.
    pub infinity: T,
    /// Whether a number is an ordinary one.
    pub finite: spec_fn(T) -> bool,
    /// Whether a number is unbounded.
    pub infinite: spec_fn(T) -> bool,
    /// The largest index not above a number, and 0 below the first.
    pub floor: spec_fn(T) -> usize,
    /// The smallest index not below a number.
    pub ceiling: spec_fn(T) -> usize,
    /// The whole number nearest to a number, and 0 below the first.
    pub nearest: spec_fn(T) -> u64,
    /// The number a text spells, if it spells one.
    pub read: spec_fn(Seq<char>) -> Option<T>,
}

/// The elementary functions of one kind of number, and its conversions.
///
/// Each function is a pure one: the same operand gives the same value, which is
/// what makes a source a function of time and a run a function of its scene.
pub trait Elementary<T: Scalar> {
    /// What the functions are.
    spec fn functions(&self) -> Functions<T>;

    /// `e` to the power `x`.
    open spec fn exp_of(&self, x: T) -> T {
        (self.functions().exp)(x)
    }

    /// Sine of an angle in radians.
    open spec fn sin_of(&self, x: T) -> T {
        (self.functions().sin)(x)
    }

    /// Cosine of an angle in radians.
    open spec fn cos_of(&self, x: T) -> T {
        (self.functions().cos)(x)
    }

    /// Tangent of an angle in radians.
    open spec fn tan_of(&self, x: T) -> T {
        (self.functions().tan)(x)
    }

    /// Angle in radians with the given sine.
    open spec fn asin_of(&self, x: T) -> T {
        (self.functions().asin)(x)
    }

    /// Natural logarithm.
    open spec fn ln_of(&self, x: T) -> T {
        (self.functions().ln)(x)
    }

    /// Square root.
    open spec fn sqrt_of(&self, x: T) -> T {
        (self.functions().sqrt)(x)
    }

    /// `x` to the power `y`.
    open spec fn pow_of(&self, x: T, y: T) -> T {
        (self.functions().pow)(x, y)
    }

    /// The whole number `n`.
    open spec fn count_of(&self, n: u64) -> T {
        (self.functions().count)(n)
    }

    /// The decimal fraction `digits / 10^places`.
    open spec fn decimal_of(&self, digits: u64, places: u8) -> T {
        (self.functions().decimal)(digits, places)
    }

    /// The unbounded value.
    open spec fn infinity_of(&self) -> T {
        self.functions().infinity
    }

    /// Whether `x` is an ordinary number.
    open spec fn finite_at(&self, x: T) -> bool {
        (self.functions().finite)(x)
    }

    /// Whether `x` is unbounded.
    open spec fn infinite_at(&self, x: T) -> bool {
        (self.functions().infinite)(x)
    }

    /// The largest index not above `x`, and 0 below the first.
    open spec fn floor_of(&self, x: T) -> usize {
        (self.functions().floor)(x)
    }

    /// The smallest index not below `x`.
    open spec fn ceiling_of(&self, x: T) -> usize {
        (self.functions().ceiling)(x)
    }

    /// The whole number nearest to `x`, and 0 below the first.
    open spec fn nearest_to(&self, x: T) -> u64 {
        (self.functions().nearest)(x)
    }

    /// The number a text spells, if it spells one.
    open spec fn read_from(&self, text: Seq<char>) -> Option<T> {
        (self.functions().read)(text)
    }

    fn exp(&self, x: T) -> (r: T)
        ensures
            r == self.exp_of(x),
    ;

    fn sin(&self, x: T) -> (r: T)
        ensures
            r == self.sin_of(x),
    ;

    fn cos(&self, x: T) -> (r: T)
        ensures
            r == self.cos_of(x),
    ;

    fn tan(&self, x: T) -> (r: T)
        ensures
            r == self.tan_of(x),
    ;

    fn asin(&self, x: T) -> (r: T)
        ensures
            r == self.asin_of(x),
    ;

    fn ln(&self, x: T) -> (r: T)
        ensures
            r == self.ln_of(x),
    ;

    fn sqrt(&self, x: T) -> (r: T)
        ensures
            r == self.sqrt_of(x),
    ;

    fn pow(&self, x: T, y: T) -> (r: T)
        ensures
            r == self.pow_of(x, y),
    ;

    fn count(&self, n: u64) -> (r: T)
        ensures
            r == self.count_of(n),
    ;

    fn decimal(&self, digits: u64, places: u8) -> (r: T)
        ensures
            r == self.decimal_of(digits, places),
    ;

    fn infinity(&self) -> (r: T)
        ensures
            r == self.infinity_of(),
    ;

    fn is_finite(&self, x: T) -> (r: bool)
        ensures
            r == self.finite_at(x),
    ;

    fn is_infinite(&self, x: T) -> (r: bool)
        ensures
            r == self.infinite_at(x),
    ;

    fn floor(&self, x: T) -> (r: usize)
        ensures
            r == self.floor_of(x),
    ;

    fn ceiling(&self, x: T) -> (r: usize)
        ensures
            r == self.ceiling_of(x),
    ;

    fn nearest(&self, x: T) -> (r: u64)
        ensures
            r == self.nearest_to(x),
    ;

    fn read(&self, text: &str) -> (r: Option<T>)
        ensures
            r == self.read_from(text@),
    ;
}

/// A working precision `V`, a wider one `W`, and the way between them.
pub trait Numerics<V: Scalar, W: Scalar>: Elementary<V> + Elementary<W> {
    /// `x` in the wider precision.
    spec fn wide(&self, x: V) -> W;

    /// `x` rounded to the working precision.
    spec fn narrowed(&self, x: W) -> V;

    /// The word a value is stored in on a device.
    spec fn word_of(&self, x: V) -> u32;

    fn widen(&self, x: V) -> (r: W)
        ensures
            r == self.wide(x),
    ;

    fn narrow(&self, x: W) -> (r: V)
        ensures
            r == self.narrowed(x),
    ;

    fn word(&self, x: V) -> (r: u32)
        ensures
            r == self.word_of(x),
    ;
}

} // verus!
