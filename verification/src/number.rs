//! Numbers of real blocks, and numbers of targets in votes.
use vstd::prelude::*;

use crate::ident::Identity;

verus! {

/// A real block number: a height that can be advanced by one until it runs out.
pub trait BlockNumber: Identity {
    /// The number as a height.
    spec fn height(&self) -> nat;

    /// The number of the next block, if the type can represent it.
    spec fn successor(&self) -> Option<Self>;

    /// The next block is one higher.
    proof fn successor_is_one_higher(&self)
        ensures
            self.successor() matches Some(n) ==> n.height() == self.height() + 1,
    ;

    /// Advance by one, or report that the type is exhausted.
    fn checked_successor(&self) -> (r: Option<Self>)
        ensures
            r == self.successor(),
    ;
}

/// `num::CheckedAdd::checked_add` on `u32`: the exact sum, or `None` when it
/// does not fit.
#[verifier::external_body]
fn checked_add_u32(a: &u32, b: &u32) -> (r: Option<u32>)
    ensures
        r == (if *a + *b <= u32::MAX {
            Some((*a + *b) as u32)
        } else {
            None
        }),
{
    num::CheckedAdd::checked_add(a, b)
}

/// `num::One::one` on `u32`: the number one.
#[verifier::external_body]
fn one_u32() -> (r: u32)
    ensures
        r == 1,
{
    num::One::one()
}

impl BlockNumber for u32 {
    open spec fn height(&self) -> nat {
        *self as nat
    }

    open spec fn successor(&self) -> Option<u32> {
        if *self < u32::MAX {
            Some((*self + 1) as u32)
        } else {
            None
        }
    }

    proof fn successor_is_one_higher(&self) {
    }

    fn checked_successor(&self) -> (r: Option<u32>) {
        checked_add_u32(self, &one_u32())
    }
}

/// `num::CheckedAdd::checked_add` on `u64`: the exact sum, or `None` when it
/// does not fit.
#[verifier::external_body]
fn checked_add_u64(a: &u64, b: &u64) -> (r: Option<u64>)
    ensures
        r == (if *a + *b <= u64::MAX {
            Some((*a + *b) as u64)
        } else {
            None
        }),
{
    num::CheckedAdd::checked_add(a, b)
}

/// `num::One::one` on `u64`: the number one.
#[verifier::external_body]
fn one_u64() -> (r: u64)
    ensures
        r == 1,
{
    num::One::one()
}

impl BlockNumber for u64 {
    open spec fn height(&self) -> nat {
        *self as nat
    }

    open spec fn successor(&self) -> Option<u64> {
        if *self < u64::MAX {
            Some((*self + 1) as u64)
        } else {
            None
        }
    }

    proof fn successor_is_one_higher(&self) {
    }

    fn checked_successor(&self) -> (r: Option<u64>) {
        checked_add_u64(self, &one_u64())
    }
}

/// The number of a target in votes: its view. Numbers count up one by one, from the
/// least to the largest that the type can represent.
pub trait TargetNumber: Identity {
    /// What the number counts.
    spec fn value(&self) -> nat;

    /// The number that counts as much, if the type can represent it.
    spec fn with_value(value: nat) -> Option<Self>;

    /// A number is determined by what it counts, which fits 64 bits.
    proof fn value_determines(&self)
        ensures
            self.value() <= u64::MAX,
            Self::with_value(self.value()) == Some(*self),
    ;

    /// The number that counts as much does so.
    proof fn representation_is_exact(value: nat)
        ensures
            Self::with_value(value) matches Some(number) ==> number.value() == value,
    ;

    /// Everything below a number is represented.
    proof fn lower_values_are_represented(&self, value: nat)
        requires
            value <= self.value(),
        ensures
            Self::with_value(value) matches Some(lower) && lower.value() == value,
    ;

    /// What the number counts.
    fn to_u64(&self) -> (r: u64)
        ensures
            r == self.value(),
    ;

    /// The number that counts as much, if the type can represent it.
    fn from_u64(value: u64) -> (r: Option<Self>)
        ensures
            r == Self::with_value(value as nat),
    ;
}

impl TargetNumber for u32 {
    open spec fn value(&self) -> nat {
        *self as nat
    }

    open spec fn with_value(value: nat) -> Option<u32> {
        if value <= u32::MAX {
            Some(value as u32)
        } else {
            None
        }
    }

    proof fn value_determines(&self) {
    }

    proof fn representation_is_exact(value: nat) {
    }

    proof fn lower_values_are_represented(&self, value: nat) {
    }

    fn to_u64(&self) -> (r: u64) {
        *self as u64
    }

    fn from_u64(value: u64) -> (r: Option<u32>) {
        if value <= u32::MAX as u64 {
            Some(value as u32)
        } else {
            None
        }
    }
}

impl TargetNumber for u64 {
    open spec fn value(&self) -> nat {
        *self as nat
    }

    open spec fn with_value(value: nat) -> Option<u64> {
        if value <= u64::MAX {
            Some(value as u64)
        } else {
            None
        }
    }

    proof fn value_determines(&self) {
    }

    proof fn representation_is_exact(value: nat) {
    }

    proof fn lower_values_are_represented(&self, value: nat) {
    }

    fn to_u64(&self) -> (r: u64) {
        *self
    }

    fn from_u64(value: u64) -> (r: Option<u64>) {
        Some(value)
    }
}

} // verus!
