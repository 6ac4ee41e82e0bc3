//! The order of numbers.
use std::cmp::Ordering;

use vstd::prelude::*;

use crate::token::{magnitude, FiniteDouble, Vec2, SIGN_BIT};

verus! {

/// How the finite number with the bit pattern `a` compares with the one
/// with the bit pattern `b`: zeros are equal whatever their sign; a negative
/// number is less than a positive one; of two positive numbers the one with
/// the smaller pattern is less, of two negative numbers the one with the
/// greater pattern.
pub open spec fn number_order(a: u64, b: u64) -> Ordering {
    if magnitude(a) == 0 && magnitude(b) == 0 {
        Ordering::Equal
    } else if a >= SIGN_BIT && b < SIGN_BIT {
        Ordering::Less
    } else if a < SIGN_BIT && b >= SIGN_BIT {
        Ordering::Greater
    } else if a == b {
        Ordering::Equal
    } else if (a < b) == (a < SIGN_BIT) {
        Ordering::Less
    } else {
        Ordering::Greater
    }
}

impl PartialOrd for FiniteDouble {
    fn partial_cmp(&self, other: &Self) -> (r: Option<Ordering>) {
        let a = self.to_bits();
        let b = other.to_bits();
        let a_negative = a >= SIGN_BIT;
        let b_negative = b >= SIGN_BIT;
        let a_zero = a == 0 || a == SIGN_BIT;
        let b_zero = b == 0 || b == SIGN_BIT;
        if a_zero && b_zero {
            Some(Ordering::Equal)
        } else if a_negative && !b_negative {
            Some(Ordering::Less)
        } else if !a_negative && b_negative {
            Some(Ordering::Greater)
        } else if a == b {
            Some(Ordering::Equal)
        } else if (a < b) == !a_negative {
            Some(Ordering::Less)
        } else {
            Some(Ordering::Greater)
        }
    }
}

impl vstd::std_specs::cmp::PartialOrdSpecImpl for FiniteDouble {
    open spec fn obeys_partial_cmp_spec() -> bool {
        true
    }

    open spec fn partial_cmp_spec(&self, other: &Self) -> Option<Ordering> {
        Some(number_order(self@, other@))
    }
}

/// How the pair of `ax` and `ay` compares with the pair of `bx` and `by`: as
/// the first numbers do, and where these are equal, as the second numbers
/// do.
pub open spec fn pair_order(ax: u64, ay: u64, bx: u64, by: u64) -> Ordering {
    match number_order(ax, bx) {
        Ordering::Equal => number_order(ay, by),
        other => other,
    }
}

impl PartialOrd for Vec2 {
    fn partial_cmp(&self, other: &Self) -> (r: Option<Ordering>) {
        match self.x.partial_cmp(&other.x) {
            Some(Ordering::Equal) => self.y.partial_cmp(&other.y),
            first => first,
        }
    }
}

impl vstd::std_specs::cmp::PartialOrdSpecImpl for Vec2 {
    open spec fn obeys_partial_cmp_spec() -> bool {
        true
    }

    open spec fn partial_cmp_spec(&self, other: &Self) -> Option<Ordering> {
        Some(pair_order(self.x@, self.y@, other.x@, other.y@))
    }
}

} // verus!
