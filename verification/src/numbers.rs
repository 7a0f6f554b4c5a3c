//! What the registry needs to know of identifiers, block numbers and balances.
//!
//! The registry never looks inside an identifier: it compares, copies and stores it. Block
//! numbers and balances are quantities besides: they stand for natural numbers up to some limit.
use vstd::prelude::*;

verus! {

/// A value that can be compared, copied, and read where nothing was stored.
pub trait Identity: Sized {
    /// The value that is read where none was ever stored.
    spec fn blank() -> Self;

    fn blank_value() -> (r: Self)
        ensures
            r == Self::blank(),
    ;

    fn same(&self, other: &Self) -> (b: bool)
        ensures
            b == (*self == *other),
    ;

    fn duplicate(&self) -> (r: Self)
        ensures
            r == *self,
    ;
}

/// An identity that stands for a natural number no larger than `limit`.
pub trait Quantity: Identity {
    spec fn limit() -> nat;

    /// The number that `self` stands for.
    spec fn value(self) -> nat;

    /// The quantity that stands for `n`, where there is one.
    spec fn of(n: nat) -> Self;

    /// `value` and `of` undo each other, so equal values mean equal quantities.
    proof fn lemma_value(self)
        ensures
            self.value() <= Self::limit(),
            Self::of(self.value()) == self,
    ;

    proof fn lemma_of(n: nat)
        requires
            n <= Self::limit(),
        ensures
            Self::of(n).value() == n,
    ;
}

/// A block number.
pub trait Height: Quantity {
    /// The block `len` blocks later, or nothing if there is no such block number.
    fn later(&self, len: &Self) -> (r: Option<Self>)
        ensures
            r == later(*self, *len),
            r is Some <==> self.value() + len.value() <= Self::limit(),
            r matches Some(block) ==> block.value() == self.value() + len.value(),
    ;
}

/// An amount of the currency.
pub trait Amount: Quantity {
    fn at_least(&self, other: &Self) -> (b: bool)
        ensures
            b == (self.value() >= other.value()),
    ;

    fn plus(&self, other: &Self) -> (r: Self)
        requires
            self.value() + other.value() <= Self::limit(),
        ensures
            r == plus(*self, *other),
            r.value() == self.value() + other.value(),
    ;
}

/// The block number `len` blocks after `now`, where it exists.
pub open spec fn later<N: Quantity>(now: N, len: N) -> Option<N> {
    if now.value() + len.value() <= N::limit() {
        Some(N::of(now.value() + len.value()))
    } else {
        None
    }
}

/// The sum of two amounts.
pub open spec fn plus<B: Quantity>(a: B, b: B) -> B {
    B::of(a.value() + b.value())
}

/// Calls `checked_add` of `sp_runtime::traits::CheckedAdd` on `u32`. It gives the sum where that
/// fits the type, and `None` where it does not.
#[verifier::external_body]
fn checked_add_u32(a: &u32, b: &u32) -> (r: Option<u32>)
    ensures
        r == (if *a + *b <= u32::MAX { Some((*a + *b) as u32) } else { None }),
{
    sp_runtime::traits::CheckedAdd::checked_add(a, b)
}

/// Calls `checked_add` of `sp_runtime::traits::CheckedAdd` on `u64`. It gives the sum where that
/// fits the type, and `None` where it does not.
#[verifier::external_body]
fn checked_add_u64(a: &u64, b: &u64) -> (r: Option<u64>)
    ensures
        r == (if *a + *b <= u64::MAX { Some((*a + *b) as u64) } else { None }),
{
    sp_runtime::traits::CheckedAdd::checked_add(a, b)
}

impl Identity for u32 {
    open spec fn blank() -> u32 {
        0
    }

    fn blank_value() -> (r: u32) {
        0
    }

    fn same(&self, other: &u32) -> (b: bool) {
        *self == *other
    }

    fn duplicate(&self) -> (r: u32) {
        *self
    }
}

impl Quantity for u32 {
    open spec fn limit() -> nat {
        u32::MAX as nat
    }

    open spec fn value(self) -> nat {
        self as nat
    }

    open spec fn of(n: nat) -> u32 {
        n as u32
    }

    proof fn lemma_value(self) {
    }

    proof fn lemma_of(n: nat) {
    }
}

impl Height for u32 {
    fn later(&self, len: &u32) -> (r: Option<u32>) {
        checked_add_u32(self, len)
    }
}

impl Amount for u32 {
    fn at_least(&self, other: &u32) -> (b: bool) {
        *self >= *other
    }

    fn plus(&self, other: &u32) -> (r: u32) {
        *self + *other
    }
}

impl Identity for u64 {
    open spec fn blank() -> u64 {
        0
    }

    fn blank_value() -> (r: u64) {
        0
    }

    fn same(&self, other: &u64) -> (b: bool) {
        *self == *other
    }

    fn duplicate(&self) -> (r: u64) {
        *self
    }
}

impl Quantity for u64 {
    open spec fn limit() -> nat {
        u64::MAX as nat
    }

    open spec fn value(self) -> nat {
        self as nat
    }

    open spec fn of(n: nat) -> u64 {
        n as u64
    }

    proof fn lemma_value(self) {
    }

    proof fn lemma_of(n: nat) {
    }
}

impl Height for u64 {
    fn later(&self, len: &u64) -> (r: Option<u64>) {
        checked_add_u64(self, len)
    }
}

impl Amount for u64 {
    fn at_least(&self, other: &u64) -> (b: bool) {
        *self >= *other
    }

    fn plus(&self, other: &u64) -> (r: u64) {
        *self + *other
    }
}

impl Identity for u128 {
    open spec fn blank() -> u128 {
        0
    }

    fn blank_value() -> (r: u128) {
        0
    }

    fn same(&self, other: &u128) -> (b: bool) {
        *self == *other
    }

    fn duplicate(&self) -> (r: u128) {
        *self
    }
}

impl Quantity for u128 {
    open spec fn limit() -> nat {
        u128::MAX as nat
    }

    open spec fn value(self) -> nat {
        self as nat
    }

    open spec fn of(n: nat) -> u128 {
        n as u128
    }

    proof fn lemma_value(self) {
    }

    proof fn lemma_of(n: nat) {
    }
}

impl Amount for u128 {
    fn at_least(&self, other: &u128) -> (b: bool) {
        *self >= *other
    }

    fn plus(&self, other: &u128) -> (r: u128) {
        *self + *other
    }
}

} // verus!
