//! The fixed-width integer types and their bit patterns.

use vstd::prelude::*;
use crate::bytes::pow256;

verus! {

/// A fixed-width integer type whose values correspond one to one with the
/// unsigned numbers below `256` to the power of its width in bytes.
pub trait Primitive: Sized + Copy {
    /// The number of bytes a value occupies.
    spec fn width() -> nat;

    /// The bit pattern of a value, read as an unsigned number.
    spec fn raw(self) -> nat;

    /// The value with the given bit pattern.
    spec fn of_raw(r: nat) -> Self;

    proof fn lemma_width()
        ensures
            1 <= Self::width() <= 8,
    ;

    proof fn lemma_raw(self)
        ensures
            self.raw() < pow256(Self::width()),
            Self::of_raw(self.raw()) == self,
    ;

    proof fn lemma_of_raw(r: nat)
        requires
            r < pow256(Self::width()),
        ensures
            Self::of_raw(r).raw() == r,
    ;

    /// The number of bytes a value occupies.
    fn byte_width() -> (n: usize)
        ensures
            n == Self::width(),
    ;

    /// The bit pattern of `self`, zero-extended to 64 bits.
    fn to_raw(self) -> (r: u64)
        ensures
            r == self.raw(),
    ;

    /// The value whose bit pattern is `r`.
    fn from_raw(r: u64) -> (v: Self)
        requires
            r < pow256(Self::width()),
        ensures
            v == Self::of_raw(r as nat),
    ;
}

impl Primitive for u8 {
    open spec fn width() -> nat {
        1
    }

    open spec fn raw(self) -> nat {
        self as nat
    }

    open spec fn of_raw(r: nat) -> u8 {
        r as u8
    }

    proof fn lemma_width() {
    }

    proof fn lemma_raw(self) {
        reveal_with_fuel(pow256, 2);
    }

    proof fn lemma_of_raw(r: nat) {
        reveal_with_fuel(pow256, 2);
    }

    fn byte_width() -> (n: usize) {
        1
    }

    fn to_raw(self) -> (r: u64) {
        self as u64
    }

    fn from_raw(r: u64) -> (v: u8) {
        proof {
            reveal_with_fuel(pow256, 2);
        }
        r as u8
    }
}

impl Primitive for u16 {
    open spec fn width() -> nat {
        2
    }

    open spec fn raw(self) -> nat {
        self as nat
    }

    open spec fn of_raw(r: nat) -> u16 {
        r as u16
    }

    proof fn lemma_width() {
    }

    proof fn lemma_raw(self) {
        reveal_with_fuel(pow256, 3);
    }

    proof fn lemma_of_raw(r: nat) {
        reveal_with_fuel(pow256, 3);
    }

    fn byte_width() -> (n: usize) {
        2
    }

    fn to_raw(self) -> (r: u64) {
        self as u64
    }

    fn from_raw(r: u64) -> (v: u16) {
        proof {
            reveal_with_fuel(pow256, 3);
        }
        r as u16
    }
}

impl Primitive for u32 {
    open spec fn width() -> nat {
        4
    }

    open spec fn raw(self) -> nat {
        self as nat
    }

    open spec fn of_raw(r: nat) -> u32 {
        r as u32
    }

    proof fn lemma_width() {
    }

    proof fn lemma_raw(self) {
        reveal_with_fuel(pow256, 5);
    }

    proof fn lemma_of_raw(r: nat) {
        reveal_with_fuel(pow256, 5);
    }

    fn byte_width() -> (n: usize) {
        4
    }

    fn to_raw(self) -> (r: u64) {
        self as u64
    }

    fn from_raw(r: u64) -> (v: u32) {
        proof {
            reveal_with_fuel(pow256, 5);
        }
        r as u32
    }
}

impl Primitive for u64 {
    open spec fn width() -> nat {
        8
    }

    open spec fn raw(self) -> nat {
        self as nat
    }

    open spec fn of_raw(r: nat) -> u64 {
        r as u64
    }

    proof fn lemma_width() {
    }

    proof fn lemma_raw(self) {
        reveal_with_fuel(pow256, 9);
    }

    proof fn lemma_of_raw(r: nat) {
        reveal_with_fuel(pow256, 9);
    }

    fn byte_width() -> (n: usize) {
        8
    }

    fn to_raw(self) -> (r: u64) {
        self as u64
    }

    fn from_raw(r: u64) -> (v: u64) {
        proof {
            reveal_with_fuel(pow256, 9);
        }
        r as u64
    }
}

impl Primitive for i8 {
    open spec fn width() -> nat {
        1
    }

    open spec fn raw(self) -> nat {
        if self >= 0 {
            self as nat
        } else {
            (self + 0x100) as nat
        }
    }

    open spec fn of_raw(r: nat) -> i8 {
        if r < 0x80 {
            r as i8
        } else {
            (r - 0x100) as i8
        }
    }

    proof fn lemma_width() {
    }

    proof fn lemma_raw(self) {
        reveal_with_fuel(pow256, 2);
    }

    proof fn lemma_of_raw(r: nat) {
        reveal_with_fuel(pow256, 2);
    }

    fn byte_width() -> (n: usize) {
        1
    }

    fn to_raw(self) -> (r: u64) {
        if self >= 0 {
            self as u64
        } else {
            (self as i64 + 0x100) as u64
        }
    }

    fn from_raw(r: u64) -> (v: i8) {
        proof {
            reveal_with_fuel(pow256, 2);
        }
        if r < 0x80 {
            r as i8
        } else {
            (r as i64 - 0x100) as i8
        }
    }
}

impl Primitive for i16 {
    open spec fn width() -> nat {
        2
    }

    open spec fn raw(self) -> nat {
        if self >= 0 {
            self as nat
        } else {
            (self + 0x1_0000) as nat
        }
    }

    open spec fn of_raw(r: nat) -> i16 {
        if r < 0x8000 {
            r as i16
        } else {
            (r - 0x1_0000) as i16
        }
    }

    proof fn lemma_width() {
    }

    proof fn lemma_raw(self) {
        reveal_with_fuel(pow256, 3);
    }

    proof fn lemma_of_raw(r: nat) {
        reveal_with_fuel(pow256, 3);
    }

    fn byte_width() -> (n: usize) {
        2
    }

    fn to_raw(self) -> (r: u64) {
        if self >= 0 {
            self as u64
        } else {
            (self as i64 + 0x1_0000) as u64
        }
    }

    fn from_raw(r: u64) -> (v: i16) {
        proof {
            reveal_with_fuel(pow256, 3);
        }
        if r < 0x8000 {
            r as i16
        } else {
            (r as i64 - 0x1_0000) as i16
        }
    }
}

impl Primitive for i32 {
    open spec fn width() -> nat {
        4
    }

    open spec fn raw(self) -> nat {
        if self >= 0 {
            self as nat
        } else {
            (self + 0x1_0000_0000) as nat
        }
    }

    open spec fn of_raw(r: nat) -> i32 {
        if r < 0x8000_0000 {
            r as i32
        } else {
            (r - 0x1_0000_0000) as i32
        }
    }

    proof fn lemma_width() {
    }

    proof fn lemma_raw(self) {
        reveal_with_fuel(pow256, 5);
    }

    proof fn lemma_of_raw(r: nat) {
        reveal_with_fuel(pow256, 5);
    }

    fn byte_width() -> (n: usize) {
        4
    }

    fn to_raw(self) -> (r: u64) {
        if self >= 0 {
            self as u64
        } else {
            (self as i64 + 0x1_0000_0000) as u64
        }
    }

    fn from_raw(r: u64) -> (v: i32) {
        proof {
            reveal_with_fuel(pow256, 5);
        }
        if r < 0x8000_0000 {
            r as i32
        } else {
            (r as i64 - 0x1_0000_0000) as i32
        }
    }
}

impl Primitive for i64 {
    open spec fn width() -> nat {
        8
    }

    open spec fn raw(self) -> nat {
        if self >= 0 {
            self as nat
        } else {
            (self + 0x1_0000_0000_0000_0000) as nat
        }
    }

    open spec fn of_raw(r: nat) -> i64 {
        if r < 0x8000_0000_0000_0000 {
            r as i64
        } else {
            (r - 0x1_0000_0000_0000_0000) as i64
        }
    }

    proof fn lemma_width() {
    }

    proof fn lemma_raw(self) {
        reveal_with_fuel(pow256, 9);
    }

    proof fn lemma_of_raw(r: nat) {
        reveal_with_fuel(pow256, 9);
    }

    fn byte_width() -> (n: usize) {
        8
    }

    fn to_raw(self) -> (r: u64) {
        if self >= 0 {
            self as u64
        } else {
            u64::MAX - (-(self + 1)) as u64
        }
    }

    fn from_raw(r: u64) -> (v: i64) {
        proof {
            reveal_with_fuel(pow256, 9);
        }
        if r < 0x8000_0000_0000_0000 {
            r as i64
        } else {
            -((u64::MAX - r) as i64) - 1
        }
    }
}

} // verus!
