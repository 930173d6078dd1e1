//! Numbers that can be summed.

use std::ops::Add;
use vstd::prelude::*;
use vstd::std_specs::ops::*;

verus! {

/// A number that can be summed up.
///
/// The addition of a sum is `+` wherever that is defined. Integers wrap around
/// at the ends of their range, so that on the way to a result that fits a sum
/// may leave the range.
pub trait Summand: Copy + Add<Output = Self> + Default {
    /// The number zero, from which a sum starts.
    spec fn nil() -> Self;

    /// The sum of two numbers.
    spec fn joined(self, other: Self) -> Self;

    /// The order of additions does not matter, as for integers.
    spec fn exact() -> bool;

    /// The default value is the number zero.
    proof fn lemma_nil(zero: Self)
        requires
            call_ensures(Self::default, (), zero),
        ensures
            zero == Self::nil(),
    ;

    /// The sum of two numbers is what `+` gives, where that is defined.
    proof fn lemma_joined(self, other: Self)
        requires
            Self::obeys_add_spec(),
            self.add_req(other),
        ensures
            self.joined(other) == self.add_spec(other),
    ;

    /// Numbers whose order does not matter can be swapped and regrouped, and
    /// zero changes nothing.
    proof fn lemma_exact(self, other: Self, third: Self)
        requires
            Self::exact(),
        ensures
            self.joined(other) == other.joined(self),
            self.joined(other).joined(third) == self.joined(other.joined(third)),
            self.joined(Self::nil()) == self,
    ;

    /// Returns the sum of two numbers.
    fn plus(self, other: Self) -> (sum: Self)
        ensures
            sum == self.joined(other),
    ;
}

impl Summand for u8 {
    open spec fn nil() -> u8 {
        0
    }

    open spec fn joined(self, other: u8) -> u8 {
        self.wrapping_add(other)
    }

    open spec fn exact() -> bool {
        true
    }

    proof fn lemma_nil(zero: u8) {
    }

    proof fn lemma_joined(self, other: u8) {
    }

    proof fn lemma_exact(self, other: u8, third: u8) {
    }

    fn plus(self, other: u8) -> (sum: u8) {
        self.wrapping_add(other)
    }
}

impl Summand for u16 {
    open spec fn nil() -> u16 {
        0
    }

    open spec fn joined(self, other: u16) -> u16 {
        self.wrapping_add(other)
    }

    open spec fn exact() -> bool {
        true
    }

    proof fn lemma_nil(zero: u16) {
    }

    proof fn lemma_joined(self, other: u16) {
    }

    proof fn lemma_exact(self, other: u16, third: u16) {
    }

    fn plus(self, other: u16) -> (sum: u16) {
        self.wrapping_add(other)
    }
}

impl Summand for u32 {
    open spec fn nil() -> u32 {
        0
    }

    open spec fn joined(self, other: u32) -> u32 {
        self.wrapping_add(other)
    }

    open spec fn exact() -> bool {
        true
    }

    proof fn lemma_nil(zero: u32) {
    }

    proof fn lemma_joined(self, other: u32) {
    }

    proof fn lemma_exact(self, other: u32, third: u32) {
    }

    fn plus(self, other: u32) -> (sum: u32) {
        self.wrapping_add(other)
    }
}

impl Summand for u64 {
    open spec fn nil() -> u64 {
        0
    }

    open spec fn joined(self, other: u64) -> u64 {
        self.wrapping_add(other)
    }

    open spec fn exact() -> bool {
        true
    }

    proof fn lemma_nil(zero: u64) {
    }

    proof fn lemma_joined(self, other: u64) {
    }

    proof fn lemma_exact(self, other: u64, third: u64) {
    }

    fn plus(self, other: u64) -> (sum: u64) {
        self.wrapping_add(other)
    }
}

impl Summand for u128 {
    open spec fn nil() -> u128 {
        0
    }

    open spec fn joined(self, other: u128) -> u128 {
        self.wrapping_add(other)
    }

    open spec fn exact() -> bool {
        true
    }

    proof fn lemma_nil(zero: u128) {
    }

    proof fn lemma_joined(self, other: u128) {
    }

    proof fn lemma_exact(self, other: u128, third: u128) {
    }

    fn plus(self, other: u128) -> (sum: u128) {
        self.wrapping_add(other)
    }
}

impl Summand for usize {
    open spec fn nil() -> usize {
        0
    }

    open spec fn joined(self, other: usize) -> usize {
        self.wrapping_add(other)
    }

    open spec fn exact() -> bool {
        true
    }

    proof fn lemma_nil(zero: usize) {
    }

    proof fn lemma_joined(self, other: usize) {
    }

    proof fn lemma_exact(self, other: usize, third: usize) {
    }

    fn plus(self, other: usize) -> (sum: usize) {
        self.wrapping_add(other)
    }
}

impl Summand for i8 {
    open spec fn nil() -> i8 {
        0
    }

    open spec fn joined(self, other: i8) -> i8 {
        self.wrapping_add(other)
    }

    open spec fn exact() -> bool {
        true
    }

    proof fn lemma_nil(zero: i8) {
    }

    proof fn lemma_joined(self, other: i8) {
    }

    proof fn lemma_exact(self, other: i8, third: i8) {
    }

    fn plus(self, other: i8) -> (sum: i8) {
        self.wrapping_add(other)
    }
}

impl Summand for i16 {
    open spec fn nil() -> i16 {
        0
    }

    open spec fn joined(self, other: i16) -> i16 {
        self.wrapping_add(other)
    }

    open spec fn exact() -> bool {
        true
    }

    proof fn lemma_nil(zero: i16) {
    }

    proof fn lemma_joined(self, other: i16) {
    }

    proof fn lemma_exact(self, other: i16, third: i16) {
    }

    fn plus(self, other: i16) -> (sum: i16) {
        self.wrapping_add(other)
    }
}

impl Summand for i32 {
    open spec fn nil() -> i32 {
        0
    }

    open spec fn joined(self, other: i32) -> i32 {
        self.wrapping_add(other)
    }

    open spec fn exact() -> bool {
        true
    }

    proof fn lemma_nil(zero: i32) {
    }

    proof fn lemma_joined(self, other: i32) {
    }

    proof fn lemma_exact(self, other: i32, third: i32) {
    }

    fn plus(self, other: i32) -> (sum: i32) {
        self.wrapping_add(other)
    }
}

impl Summand for i64 {
    open spec fn nil() -> i64 {
        0
    }

    open spec fn joined(self, other: i64) -> i64 {
        self.wrapping_add(other)
    }

    open spec fn exact() -> bool {
        true
    }

    proof fn lemma_nil(zero: i64) {
    }

    proof fn lemma_joined(self, other: i64) {
    }

    proof fn lemma_exact(self, other: i64, third: i64) {
    }

    fn plus(self, other: i64) -> (sum: i64) {
        self.wrapping_add(other)
    }
}

impl Summand for i128 {
    open spec fn nil() -> i128 {
        0
    }

    open spec fn joined(self, other: i128) -> i128 {
        self.wrapping_add(other)
    }

    open spec fn exact() -> bool {
        true
    }

    proof fn lemma_nil(zero: i128) {
    }

    proof fn lemma_joined(self, other: i128) {
    }

    proof fn lemma_exact(self, other: i128, third: i128) {
    }

    fn plus(self, other: i128) -> (sum: i128) {
        self.wrapping_add(other)
    }
}

impl Summand for isize {
    open spec fn nil() -> isize {
        0
    }

    open spec fn joined(self, other: isize) -> isize {
        self.wrapping_add(other)
    }

    open spec fn exact() -> bool {
        true
    }

    proof fn lemma_nil(zero: isize) {
    }

    proof fn lemma_joined(self, other: isize) {
    }

    proof fn lemma_exact(self, other: isize, third: isize) {
    }

    fn plus(self, other: isize) -> (sum: isize) {
        self.wrapping_add(other)
    }
}

} // verus!
