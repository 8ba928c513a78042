use vstd::prelude::*;

verus! {

/// Rounds `x / 2` toward zero, as integer division of the machine types does.
pub open spec fn half_toward_zero(x: int) -> int {
    if x >= 0 {
        x / 2
    } else {
        -((-x) / 2)
    }
}

/// A totally ordered, copyable value that the median store can hold.
///
/// The order is given by `key`, an integer for each value; distinct values
/// have distinct keys.
pub trait MedianValue: Copy + Sized {
    /// The position of the value in the total order.
    spec fn key(self) -> int;

    /// The value halfway between `a` and `b`, rounded toward zero.
    spec fn mid(a: Self, b: Self) -> Self;

    proof fn lemma_key_injective(a: Self, b: Self)
        ensures
            (a.key() == b.key()) == (a == b),
    ;

    proof fn lemma_mid_key(a: Self, b: Self)
        ensures
            Self::mid(a, b).key() == half_toward_zero(a.key() + b.key()),
    ;

    fn less_than(&self, other: &Self) -> (r: bool)
        ensures
            r == (self.key() < other.key()),
    ;

    fn same_as(&self, other: &Self) -> (r: bool)
        ensures
            r == (*self == *other),
    ;

    fn midpoint(a: &Self, b: &Self) -> (r: Self)
        ensures
            r == Self::mid(*a, *b),
    ;
}

impl MedianValue for i8 {
    open spec fn key(self) -> int {
        self as int
    }

    open spec fn mid(a: i8, b: i8) -> i8 {
        half_toward_zero(a + b) as i8
    }

    proof fn lemma_key_injective(a: i8, b: i8) {
    }

    proof fn lemma_mid_key(a: i8, b: i8) {
    }

    fn less_than(&self, other: &i8) -> (r: bool) {
        *self < *other
    }

    fn same_as(&self, other: &i8) -> (r: bool) {
        *self == *other
    }

    fn midpoint(a: &i8, b: &i8) -> (r: i8) {
        let s: i16 = *a as i16 + *b as i16;
        let h: i16 = if s >= 0 {
            s / 2
        } else {
            -((-s) / 2)
        };
        h as i8
    }
}

impl MedianValue for i16 {
    open spec fn key(self) -> int {
        self as int
    }

    open spec fn mid(a: i16, b: i16) -> i16 {
        half_toward_zero(a + b) as i16
    }

    proof fn lemma_key_injective(a: i16, b: i16) {
    }

    proof fn lemma_mid_key(a: i16, b: i16) {
    }

    fn less_than(&self, other: &i16) -> (r: bool) {
        *self < *other
    }

    fn same_as(&self, other: &i16) -> (r: bool) {
        *self == *other
    }

    fn midpoint(a: &i16, b: &i16) -> (r: i16) {
        let s: i32 = *a as i32 + *b as i32;
        let h: i32 = if s >= 0 {
            s / 2
        } else {
            -((-s) / 2)
        };
        h as i16
    }
}

impl MedianValue for i32 {
    open spec fn key(self) -> int {
        self as int
    }

    open spec fn mid(a: i32, b: i32) -> i32 {
        half_toward_zero(a + b) as i32
    }

    proof fn lemma_key_injective(a: i32, b: i32) {
    }

    proof fn lemma_mid_key(a: i32, b: i32) {
    }

    fn less_than(&self, other: &i32) -> (r: bool) {
        *self < *other
    }

    fn same_as(&self, other: &i32) -> (r: bool) {
        *self == *other
    }

    fn midpoint(a: &i32, b: &i32) -> (r: i32) {
        let s: i64 = *a as i64 + *b as i64;
        let h: i64 = if s >= 0 {
            s / 2
        } else {
            -((-s) / 2)
        };
        h as i32
    }
}

impl MedianValue for i64 {
    open spec fn key(self) -> int {
        self as int
    }

    open spec fn mid(a: i64, b: i64) -> i64 {
        half_toward_zero(a + b) as i64
    }

    proof fn lemma_key_injective(a: i64, b: i64) {
    }

    proof fn lemma_mid_key(a: i64, b: i64) {
    }

    fn less_than(&self, other: &i64) -> (r: bool) {
        *self < *other
    }

    fn same_as(&self, other: &i64) -> (r: bool) {
        *self == *other
    }

    fn midpoint(a: &i64, b: &i64) -> (r: i64) {
        let s: i128 = *a as i128 + *b as i128;
        let h: i128 = if s >= 0 {
            s / 2
        } else {
            -((-s) / 2)
        };
        h as i64
    }
}

impl MedianValue for isize {
    open spec fn key(self) -> int {
        self as int
    }

    open spec fn mid(a: isize, b: isize) -> isize {
        half_toward_zero(a + b) as isize
    }

    proof fn lemma_key_injective(a: isize, b: isize) {
    }

    proof fn lemma_mid_key(a: isize, b: isize) {
    }

    fn less_than(&self, other: &isize) -> (r: bool) {
        *self < *other
    }

    fn same_as(&self, other: &isize) -> (r: bool) {
        *self == *other
    }

    fn midpoint(a: &isize, b: &isize) -> (r: isize) {
        let s: i128 = *a as i128 + *b as i128;
        let h: i128 = if s >= 0 {
            s / 2
        } else {
            -((-s) / 2)
        };
        h as isize
    }
}

impl MedianValue for u8 {
    open spec fn key(self) -> int {
        self as int
    }

    open spec fn mid(a: u8, b: u8) -> u8 {
        half_toward_zero(a + b) as u8
    }

    proof fn lemma_key_injective(a: u8, b: u8) {
    }

    proof fn lemma_mid_key(a: u8, b: u8) {
    }

    fn less_than(&self, other: &u8) -> (r: bool) {
        *self < *other
    }

    fn same_as(&self, other: &u8) -> (r: bool) {
        *self == *other
    }

    fn midpoint(a: &u8, b: &u8) -> (r: u8) {
        let s: u16 = *a as u16 + *b as u16;
        (s / 2) as u8
    }
}

impl MedianValue for u16 {
    open spec fn key(self) -> int {
        self as int
    }

    open spec fn mid(a: u16, b: u16) -> u16 {
        half_toward_zero(a + b) as u16
    }

    proof fn lemma_key_injective(a: u16, b: u16) {
    }

    proof fn lemma_mid_key(a: u16, b: u16) {
    }

    fn less_than(&self, other: &u16) -> (r: bool) {
        *self < *other
    }

    fn same_as(&self, other: &u16) -> (r: bool) {
        *self == *other
    }

    fn midpoint(a: &u16, b: &u16) -> (r: u16) {
        let s: u32 = *a as u32 + *b as u32;
        (s / 2) as u16
    }
}

impl MedianValue for u32 {
    open spec fn key(self) -> int {
        self as int
    }

    open spec fn mid(a: u32, b: u32) -> u32 {
        half_toward_zero(a + b) as u32
    }

    proof fn lemma_key_injective(a: u32, b: u32) {
    }

    proof fn lemma_mid_key(a: u32, b: u32) {
    }

    fn less_than(&self, other: &u32) -> (r: bool) {
        *self < *other
    }

    fn same_as(&self, other: &u32) -> (r: bool) {
        *self == *other
    }

    fn midpoint(a: &u32, b: &u32) -> (r: u32) {
        let s: u64 = *a as u64 + *b as u64;
        (s / 2) as u32
    }
}

impl MedianValue for u64 {
    open spec fn key(self) -> int {
        self as int
    }

    open spec fn mid(a: u64, b: u64) -> u64 {
        half_toward_zero(a + b) as u64
    }

    proof fn lemma_key_injective(a: u64, b: u64) {
    }

    proof fn lemma_mid_key(a: u64, b: u64) {
    }

    fn less_than(&self, other: &u64) -> (r: bool) {
        *self < *other
    }

    fn same_as(&self, other: &u64) -> (r: bool) {
        *self == *other
    }

    fn midpoint(a: &u64, b: &u64) -> (r: u64) {
        let s: u128 = *a as u128 + *b as u128;
        (s / 2) as u64
    }
}

impl MedianValue for usize {
    open spec fn key(self) -> int {
        self as int
    }

    open spec fn mid(a: usize, b: usize) -> usize {
        half_toward_zero(a + b) as usize
    }

    proof fn lemma_key_injective(a: usize, b: usize) {
    }

    proof fn lemma_mid_key(a: usize, b: usize) {
    }

    fn less_than(&self, other: &usize) -> (r: bool) {
        *self < *other
    }

    fn same_as(&self, other: &usize) -> (r: bool) {
        *self == *other
    }

    fn midpoint(a: &usize, b: &usize) -> (r: usize) {
        let s: u128 = *a as u128 + *b as u128;
        (s / 2) as usize
    }
}

} // verus!
