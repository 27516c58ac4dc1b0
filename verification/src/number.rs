//! Monetary amounts, held as integer cents.

use vstd::prelude::*;
use crate::decimal::{cents_text, cents_to_text};

verus! {

/// An amount of money in cents.
#[derive(Debug, Clone, Copy, PartialEq, Eq, Structural)]
pub struct Number {
    pub n: i64,
}

impl Number {
    /// Zero.
    pub fn new() -> (r: Number)
        ensures
            r.n == 0,
    {
        Number { n: 0 }
    }

    /// Wraps a cent amount.
    pub fn from(n: i64) -> (r: Number)
        ensures
            r.n == n,
    {
        Number { n }
    }

    /// The underlying cent amount.
    pub fn unwrap(&self) -> (r: i64)
        ensures
            r == self.n,
    {
        self.n
    }

    pub fn is_negative(&self) -> (r: bool)
        ensures
            r == (self.n < 0),
    {
        self.n < 0
    }

    /// The sum of two amounts.
    pub fn plus(self, other: Number) -> (r: Number)
        requires
            i64::MIN <= self.n + other.n <= i64::MAX,
        ensures
            r.n == self.n + other.n,
    {
        Number { n: self.n + other.n }
    }

    /// The amount rendered with exactly two fraction digits.
    pub fn to_text(&self) -> (r: String)
        requires
            self.n > i64::MIN,
        ensures
            r@ == cents_text(self.n as int),
    {
        cents_to_text(self.n)
    }
}

} // verus!
