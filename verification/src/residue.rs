//! Whole numbers modulo 2³², in which arithmetic loses nothing.
//!
//! Rounding is what keeps a floating-point run from unwinding to the last bit.
//! A [`Residue`] does not round: `a + b - b` is `a`, so everything that holds in
//! exact arithmetic can be run and compared for equality. [`Linear`] completes it
//! with elementary functions cut off after their linear term, which keeps a whole
//! run small enough to be worked out by hand.

use crate::numerics::{Elementary, Functions, Numerics};
use crate::scalar::arithmetic;
use crate::text::{read_whole, whole_number};
use core::cmp::Ordering;
use core::ops::{Add, Div, Mul, Sub};
use vstd::prelude::*;
use vstd::std_specs::cmp::{PartialEqSpecImpl, PartialOrdSpecImpl};
use vstd::std_specs::convert::FromSpecImpl;
use vstd::std_specs::ops::{AddSpecImpl, DivSpecImpl, MulSpecImpl, SubSpecImpl};

verus! {

/// A whole number modulo 2³².
#[derive(Clone, Copy, Debug)]
pub struct Residue(pub u32);

impl From<u8> for Residue {
    fn from(n: u8) -> (r: Self) {
        Residue(n as u32)
    }
}

impl FromSpecImpl<u8> for Residue {
    open spec fn obeys_from_spec() -> bool {
        true
    }

    open spec fn from_spec(n: u8) -> Self {
        Residue(n as u32)
    }
}

impl PartialEq for Residue {
    fn eq(&self, other: &Self) -> (r: bool) {
        self.0 == other.0
    }
}

impl PartialEqSpecImpl for Residue {
    open spec fn obeys_eq_spec() -> bool {
        true
    }

    open spec fn eq_spec(&self, other: &Self) -> bool {
        self.0 == other.0
    }
}

impl PartialOrd for Residue {
    fn partial_cmp(&self, other: &Self) -> (r: Option<Ordering>) {
        if self.0 < other.0 {
            Some(Ordering::Less)
        } else if self.0 == other.0 {
            Some(Ordering::Equal)
        } else {
            Some(Ordering::Greater)
        }
    }
}

impl PartialOrdSpecImpl for Residue {
    open spec fn obeys_partial_cmp_spec() -> bool {
        true
    }

    open spec fn partial_cmp_spec(&self, other: &Self) -> Option<Ordering> {
        if self.0 < other.0 {
            Some(Ordering::Less)
        } else if self.0 == other.0 {
            Some(Ordering::Equal)
        } else {
            Some(Ordering::Greater)
        }
    }
}

impl Add for Residue {
    type Output = Residue;

    fn add(self, other: Residue) -> (r: Residue) {
        Residue(self.0.wrapping_add(other.0))
    }
}

impl AddSpecImpl for Residue {
    open spec fn obeys_add_spec() -> bool {
        true
    }

    open spec fn add_req(self, other: Residue) -> bool {
        true
    }

    open spec fn add_spec(self, other: Residue) -> Residue {
        Residue(self.0.wrapping_add(other.0))
    }
}

impl Sub for Residue {
    type Output = Residue;

    fn sub(self, other: Residue) -> (r: Residue) {
        Residue(self.0.wrapping_sub(other.0))
    }
}

impl SubSpecImpl for Residue {
    open spec fn obeys_sub_spec() -> bool {
        true
    }

    open spec fn sub_req(self, other: Residue) -> bool {
        true
    }

    open spec fn sub_spec(self, other: Residue) -> Residue {
        Residue(self.0.wrapping_sub(other.0))
    }
}

impl Mul for Residue {
    type Output = Residue;

    fn mul(self, other: Residue) -> (r: Residue) {
        Residue(self.0.wrapping_mul(other.0))
    }
}

impl MulSpecImpl for Residue {
    open spec fn obeys_mul_spec() -> bool {
        true
    }

    open spec fn mul_req(self, other: Residue) -> bool {
        true
    }

    open spec fn mul_spec(self, other: Residue) -> Residue {
        Residue(self.0.wrapping_mul(other.0))
    }
}

/// Division rounds down, and division by zero gives zero.
impl Div for Residue {
    type Output = Residue;

    fn div(self, other: Residue) -> (r: Residue) {
        if other.0 == 0 {
            Residue(0)
        } else {
            Residue(self.0 / other.0)
        }
    }
}

impl DivSpecImpl for Residue {
    open spec fn obeys_div_spec() -> bool {
        true
    }

    open spec fn div_req(self, other: Residue) -> bool {
        true
    }

    open spec fn div_spec(self, other: Residue) -> Residue {
        if other.0 == 0 {
            Residue(0)
        } else {
            Residue((self.0 / other.0) as u32)
        }
    }
}

/// `n` with its last `places` decimal digits dropped.
pub open spec fn shifted(n: u64, places: u8) -> u64
    decreases places,
{
    if places == 0 {
        n
    } else {
        shifted((n / 10) as u64, (places - 1) as u8)
    }
}

/// The residue of a whole number.
pub open spec fn residue_of(n: u64) -> Residue {
    Residue((n % 0x1_0000_0000) as u32)
}

/// Elementary functions cut off after their linear term: about zero for the
/// exponential and the angles, about one for the logarithm and the powers.
#[derive(Clone, Copy, Debug)]
pub struct Linear;

impl Elementary<Residue> for Linear {
    open spec fn functions(&self) -> Functions<Residue> {
        Functions {
            exp: |x: Residue| Residue(1u32.wrapping_add(x.0)),
            sin: |x: Residue| x,
            cos: |x: Residue| Residue(1),
            tan: |x: Residue| x,
            asin: |x: Residue| x,
            ln: |x: Residue| Residue(x.0.wrapping_sub(1)),
            sqrt: |x: Residue| Residue((x.0.wrapping_add(1) / 2) as u32),
            pow: |x: Residue, y: Residue|
                Residue(1u32.wrapping_add(y.0.wrapping_mul(x.0.wrapping_sub(1)))),
            count: |n: u64| residue_of(n),
            decimal: |digits: u64, places: u8| residue_of(shifted(digits, places)),
            infinity: Residue(u32::MAX),
            finite: |x: Residue| x.0 != u32::MAX,
            infinite: |x: Residue| x.0 == u32::MAX,
            floor: |x: Residue| x.0 as usize,
            ceiling: |x: Residue| x.0 as usize,
            nearest: |x: Residue| x.0 as u64,
            read: |text: Seq<char>|
                match whole_number(text, u32::MAX as nat) {
                    Some(value) => Some(Residue(value as u32)),
                    None => None,
                },
        }
    }

    fn exp(&self, x: Residue) -> (r: Residue) {
        Residue(1u32.wrapping_add(x.0))
    }

    fn sin(&self, x: Residue) -> (r: Residue) {
        x
    }

    fn cos(&self, x: Residue) -> (r: Residue) {
        Residue(1)
    }

    fn tan(&self, x: Residue) -> (r: Residue) {
        x
    }

    fn asin(&self, x: Residue) -> (r: Residue) {
        x
    }

    fn ln(&self, x: Residue) -> (r: Residue) {
        Residue(x.0.wrapping_sub(1))
    }

    fn sqrt(&self, x: Residue) -> (r: Residue) {
        Residue(x.0.wrapping_add(1) / 2)
    }

    fn pow(&self, x: Residue, y: Residue) -> (r: Residue) {
        Residue(1u32.wrapping_add(y.0.wrapping_mul(x.0.wrapping_sub(1))))
    }

    fn count(&self, n: u64) -> (r: Residue) {
        Residue((n % 0x1_0000_0000) as u32)
    }

    fn decimal(&self, digits: u64, places: u8) -> (r: Residue) {
        let mut left: u64 = digits;
        let mut remaining: u8 = places;
        while remaining > 0
            invariant
                shifted(left, remaining) == shifted(digits, places),
            decreases remaining,
        {
            left = left / 10;
            remaining = remaining - 1;
        }
        Residue((left % 0x1_0000_0000) as u32)
    }

    fn infinity(&self) -> (r: Residue) {
        Residue(u32::MAX)
    }

    fn is_finite(&self, x: Residue) -> (r: bool) {
        x.0 != u32::MAX
    }

    fn is_infinite(&self, x: Residue) -> (r: bool) {
        x.0 == u32::MAX
    }

    fn floor(&self, x: Residue) -> (r: usize) {
        x.0 as usize
    }

    fn ceiling(&self, x: Residue) -> (r: usize) {
        x.0 as usize
    }

    fn nearest(&self, x: Residue) -> (r: u64) {
        x.0 as u64
    }

    fn read(&self, text: &str) -> (r: Option<Residue>) {
        match read_whole(text, u32::MAX as u64) {
            Some(value) => Some(Residue(value as u32)),
            None => None,
        }
    }
}

impl Numerics<Residue, Residue> for Linear {
    open spec fn wide(&self, x: Residue) -> Residue {
        x
    }

    open spec fn narrowed(&self, x: Residue) -> Residue {
        x
    }

    open spec fn word_of(&self, x: Residue) -> u32 {
        x.0
    }

    fn widen(&self, x: Residue) -> (r: Residue) {
        x
    }

    fn narrow(&self, x: Residue) -> (r: Residue) {
        x
    }

    fn word(&self, x: Residue) -> (r: u32) {
        x.0
    }
}

/// Residues are numbers the library can run on.
pub proof fn residues_compute()
    ensures
        arithmetic::<Residue>(),
{
}

} // verus!
