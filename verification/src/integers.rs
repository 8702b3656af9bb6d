//! The machine integers as exact numbers.

use crate::number::{Dividable, Exact, Identity};
use std::ops::Div;
use vstd::prelude::*;

verus! {

/// The quotient of two wide integers, rounded toward zero.
pub fn divide(x: i128, y: i128) -> (r: i128)
    requires
        y != 0,
        !(x == i128::MIN && y == -1),
    ensures
        r == crate::number::quotient(x as int, y as int),
{
    proof {
        crate::number::lemma_quotient_bounds(x as int, y as int);
    }
    x.div(y)
}

impl Exact for u8 {
    open spec fn val(self) -> int {
        self as int
    }

    open spec fn lo() -> int {
        u8::MIN as int
    }

    open spec fn hi() -> int {
        u8::MAX as int
    }

    fn checked_add(self, other: Self) -> Option<Self> {
        self.checked_add(other)
    }

    fn checked_sub(self, other: Self) -> Option<Self> {
        self.checked_sub(other)
    }

    fn checked_mul(self, other: Self) -> Option<Self> {
        self.checked_mul(other)
    }

    fn checked_div(self, other: Self) -> Option<Self> {
        if other == 0 {
            None
        } else {
            proof {
                crate::number::lemma_quotient_bounds(self as int, other as int);
            }
            Some(self / other)
        }
    }

    proof fn law_range(a: Self) {
    }

    proof fn law_distinct(a: Self, b: Self) {
    }

    proof fn law_add(a: Self, b: Self) {
    }

    proof fn law_sub(a: Self, b: Self) {
    }

    proof fn law_mul(a: Self, b: Self) {
    }

    proof fn law_div(a: Self, b: Self) {
        if b != 0 {
            crate::number::lemma_quotient_bounds(a as int, b as int);
        }
    }

    proof fn law_order(a: Self, b: Self) {
    }
}

impl Identity for u8 {
    fn zero() -> Self {
        0
    }

    fn one() -> Self {
        1
    }
}

impl Dividable for u8 {
    type Divider = u8;

    proof fn law_share(a: Self, d: Self::Divider) {
        Self::law_div(a, d);
    }
}

impl Exact for u16 {
    open spec fn val(self) -> int {
        self as int
    }

    open spec fn lo() -> int {
        u16::MIN as int
    }

    open spec fn hi() -> int {
        u16::MAX as int
    }

    fn checked_add(self, other: Self) -> Option<Self> {
        self.checked_add(other)
    }

    fn checked_sub(self, other: Self) -> Option<Self> {
        self.checked_sub(other)
    }

    fn checked_mul(self, other: Self) -> Option<Self> {
        self.checked_mul(other)
    }

    fn checked_div(self, other: Self) -> Option<Self> {
        if other == 0 {
            None
        } else {
            proof {
                crate::number::lemma_quotient_bounds(self as int, other as int);
            }
            Some(self / other)
        }
    }

    proof fn law_range(a: Self) {
    }

    proof fn law_distinct(a: Self, b: Self) {
    }

    proof fn law_add(a: Self, b: Self) {
    }

    proof fn law_sub(a: Self, b: Self) {
    }

    proof fn law_mul(a: Self, b: Self) {
    }

    proof fn law_div(a: Self, b: Self) {
        if b != 0 {
            crate::number::lemma_quotient_bounds(a as int, b as int);
        }
    }

    proof fn law_order(a: Self, b: Self) {
    }
}

impl Identity for u16 {
    fn zero() -> Self {
        0
    }

    fn one() -> Self {
        1
    }
}

impl Dividable for u16 {
    type Divider = u16;

    proof fn law_share(a: Self, d: Self::Divider) {
        Self::law_div(a, d);
    }
}

impl Exact for u32 {
    open spec fn val(self) -> int {
        self as int
    }

    open spec fn lo() -> int {
        u32::MIN as int
    }

    open spec fn hi() -> int {
        u32::MAX as int
    }

    fn checked_add(self, other: Self) -> Option<Self> {
        self.checked_add(other)
    }

    fn checked_sub(self, other: Self) -> Option<Self> {
        self.checked_sub(other)
    }

    fn checked_mul(self, other: Self) -> Option<Self> {
        self.checked_mul(other)
    }

    fn checked_div(self, other: Self) -> Option<Self> {
        if other == 0 {
            None
        } else {
            proof {
                crate::number::lemma_quotient_bounds(self as int, other as int);
            }
            Some(self / other)
        }
    }

    proof fn law_range(a: Self) {
    }

    proof fn law_distinct(a: Self, b: Self) {
    }

    proof fn law_add(a: Self, b: Self) {
    }

    proof fn law_sub(a: Self, b: Self) {
    }

    proof fn law_mul(a: Self, b: Self) {
    }

    proof fn law_div(a: Self, b: Self) {
        if b != 0 {
            crate::number::lemma_quotient_bounds(a as int, b as int);
        }
    }

    proof fn law_order(a: Self, b: Self) {
    }
}

impl Identity for u32 {
    fn zero() -> Self {
        0
    }

    fn one() -> Self {
        1
    }
}

impl Dividable for u32 {
    type Divider = u32;

    proof fn law_share(a: Self, d: Self::Divider) {
        Self::law_div(a, d);
    }
}

impl Exact for u64 {
    open spec fn val(self) -> int {
        self as int
    }

    open spec fn lo() -> int {
        u64::MIN as int
    }

    open spec fn hi() -> int {
        u64::MAX as int
    }

    fn checked_add(self, other: Self) -> Option<Self> {
        self.checked_add(other)
    }

    fn checked_sub(self, other: Self) -> Option<Self> {
        self.checked_sub(other)
    }

    fn checked_mul(self, other: Self) -> Option<Self> {
        self.checked_mul(other)
    }

    fn checked_div(self, other: Self) -> Option<Self> {
        if other == 0 {
            None
        } else {
            proof {
                crate::number::lemma_quotient_bounds(self as int, other as int);
            }
            Some(self / other)
        }
    }

    proof fn law_range(a: Self) {
    }

    proof fn law_distinct(a: Self, b: Self) {
    }

    proof fn law_add(a: Self, b: Self) {
    }

    proof fn law_sub(a: Self, b: Self) {
    }

    proof fn law_mul(a: Self, b: Self) {
    }

    proof fn law_div(a: Self, b: Self) {
        if b != 0 {
            crate::number::lemma_quotient_bounds(a as int, b as int);
        }
    }

    proof fn law_order(a: Self, b: Self) {
    }
}

impl Identity for u64 {
    fn zero() -> Self {
        0
    }

    fn one() -> Self {
        1
    }
}

impl Dividable for u64 {
    type Divider = u64;

    proof fn law_share(a: Self, d: Self::Divider) {
        Self::law_div(a, d);
    }
}

impl Exact for u128 {
    open spec fn val(self) -> int {
        self as int
    }

    open spec fn lo() -> int {
        u128::MIN as int
    }

    open spec fn hi() -> int {
        u128::MAX as int
    }

    fn checked_add(self, other: Self) -> Option<Self> {
        self.checked_add(other)
    }

    fn checked_sub(self, other: Self) -> Option<Self> {
        self.checked_sub(other)
    }

    fn checked_mul(self, other: Self) -> Option<Self> {
        self.checked_mul(other)
    }

    fn checked_div(self, other: Self) -> Option<Self> {
        if other == 0 {
            None
        } else {
            proof {
                crate::number::lemma_quotient_bounds(self as int, other as int);
            }
            Some(self / other)
        }
    }

    proof fn law_range(a: Self) {
    }

    proof fn law_distinct(a: Self, b: Self) {
    }

    proof fn law_add(a: Self, b: Self) {
    }

    proof fn law_sub(a: Self, b: Self) {
    }

    proof fn law_mul(a: Self, b: Self) {
    }

    proof fn law_div(a: Self, b: Self) {
        if b != 0 {
            crate::number::lemma_quotient_bounds(a as int, b as int);
        }
    }

    proof fn law_order(a: Self, b: Self) {
    }
}

impl Identity for u128 {
    fn zero() -> Self {
        0
    }

    fn one() -> Self {
        1
    }
}

impl Dividable for u128 {
    type Divider = u128;

    proof fn law_share(a: Self, d: Self::Divider) {
        Self::law_div(a, d);
    }
}

impl Exact for i8 {
    open spec fn val(self) -> int {
        self as int
    }

    open spec fn lo() -> int {
        i8::MIN as int
    }

    open spec fn hi() -> int {
        i8::MAX as int
    }

    fn checked_add(self, other: Self) -> Option<Self> {
        self.checked_add(other)
    }

    fn checked_sub(self, other: Self) -> Option<Self> {
        self.checked_sub(other)
    }

    fn checked_mul(self, other: Self) -> Option<Self> {
        self.checked_mul(other)
    }

    fn checked_div(self, other: Self) -> Option<Self> {
        if other == 0 || (self == i8::MIN && other == -1) {
            proof {
                if other != 0 {
                    crate::number::lemma_quotient_bounds(self as int, other as int);
                }
            }
            None
        } else {
            proof {
                crate::number::lemma_quotient_bounds(self as int, other as int);
            }
            Some(self.div(other))
        }
    }

    proof fn law_range(a: Self) {
    }

    proof fn law_distinct(a: Self, b: Self) {
    }

    proof fn law_add(a: Self, b: Self) {
    }

    proof fn law_sub(a: Self, b: Self) {
    }

    proof fn law_mul(a: Self, b: Self) {
    }

    proof fn law_div(a: Self, b: Self) {
        if b != 0 {
            crate::number::lemma_quotient_bounds(a as int, b as int);
        }
    }

    proof fn law_order(a: Self, b: Self) {
    }
}

impl Identity for i8 {
    fn zero() -> Self {
        0
    }

    fn one() -> Self {
        1
    }
}

impl Dividable for i8 {
    type Divider = i8;

    proof fn law_share(a: Self, d: Self::Divider) {
        Self::law_div(a, d);
    }
}

impl Exact for i16 {
    open spec fn val(self) -> int {
        self as int
    }

    open spec fn lo() -> int {
        i16::MIN as int
    }

    open spec fn hi() -> int {
        i16::MAX as int
    }

    fn checked_add(self, other: Self) -> Option<Self> {
        self.checked_add(other)
    }

    fn checked_sub(self, other: Self) -> Option<Self> {
        self.checked_sub(other)
    }

    fn checked_mul(self, other: Self) -> Option<Self> {
        self.checked_mul(other)
    }

    fn checked_div(self, other: Self) -> Option<Self> {
        if other == 0 || (self == i16::MIN && other == -1) {
            proof {
                if other != 0 {
                    crate::number::lemma_quotient_bounds(self as int, other as int);
                }
            }
            None
        } else {
            proof {
                crate::number::lemma_quotient_bounds(self as int, other as int);
            }
            Some(self.div(other))
        }
    }

    proof fn law_range(a: Self) {
    }

    proof fn law_distinct(a: Self, b: Self) {
    }

    proof fn law_add(a: Self, b: Self) {
    }

    proof fn law_sub(a: Self, b: Self) {
    }

    proof fn law_mul(a: Self, b: Self) {
    }

    proof fn law_div(a: Self, b: Self) {
        if b != 0 {
            crate::number::lemma_quotient_bounds(a as int, b as int);
        }
    }

    proof fn law_order(a: Self, b: Self) {
    }
}

impl Identity for i16 {
    fn zero() -> Self {
        0
    }

    fn one() -> Self {
        1
    }
}

impl Dividable for i16 {
    type Divider = i16;

    proof fn law_share(a: Self, d: Self::Divider) {
        Self::law_div(a, d);
    }
}

impl Exact for i32 {
    open spec fn val(self) -> int {
        self as int
    }

    open spec fn lo() -> int {
        i32::MIN as int
    }

    open spec fn hi() -> int {
        i32::MAX as int
    }

    fn checked_add(self, other: Self) -> Option<Self> {
        self.checked_add(other)
    }

    fn checked_sub(self, other: Self) -> Option<Self> {
        self.checked_sub(other)
    }

    fn checked_mul(self, other: Self) -> Option<Self> {
        self.checked_mul(other)
    }

    fn checked_div(self, other: Self) -> Option<Self> {
        if other == 0 || (self == i32::MIN && other == -1) {
            proof {
                if other != 0 {
                    crate::number::lemma_quotient_bounds(self as int, other as int);
                }
            }
            None
        } else {
            proof {
                crate::number::lemma_quotient_bounds(self as int, other as int);
            }
            Some(self.div(other))
        }
    }

    proof fn law_range(a: Self) {
    }

    proof fn law_distinct(a: Self, b: Self) {
    }

    proof fn law_add(a: Self, b: Self) {
    }

    proof fn law_sub(a: Self, b: Self) {
    }

    proof fn law_mul(a: Self, b: Self) {
    }

    proof fn law_div(a: Self, b: Self) {
        if b != 0 {
            crate::number::lemma_quotient_bounds(a as int, b as int);
        }
    }

    proof fn law_order(a: Self, b: Self) {
    }
}

impl Identity for i32 {
    fn zero() -> Self {
        0
    }

    fn one() -> Self {
        1
    }
}

impl Dividable for i32 {
    type Divider = i32;

    proof fn law_share(a: Self, d: Self::Divider) {
        Self::law_div(a, d);
    }
}

impl Exact for i64 {
    open spec fn val(self) -> int {
        self as int
    }

    open spec fn lo() -> int {
        i64::MIN as int
    }

    open spec fn hi() -> int {
        i64::MAX as int
    }

    fn checked_add(self, other: Self) -> Option<Self> {
        self.checked_add(other)
    }

    fn checked_sub(self, other: Self) -> Option<Self> {
        self.checked_sub(other)
    }

    fn checked_mul(self, other: Self) -> Option<Self> {
        self.checked_mul(other)
    }

    fn checked_div(self, other: Self) -> Option<Self> {
        if other == 0 || (self == i64::MIN && other == -1) {
            proof {
                if other != 0 {
                    crate::number::lemma_quotient_bounds(self as int, other as int);
                }
            }
            None
        } else {
            proof {
                crate::number::lemma_quotient_bounds(self as int, other as int);
            }
            Some(self.div(other))
        }
    }

    proof fn law_range(a: Self) {
    }

    proof fn law_distinct(a: Self, b: Self) {
    }

    proof fn law_add(a: Self, b: Self) {
    }

    proof fn law_sub(a: Self, b: Self) {
    }

    proof fn law_mul(a: Self, b: Self) {
    }

    proof fn law_div(a: Self, b: Self) {
        if b != 0 {
            crate::number::lemma_quotient_bounds(a as int, b as int);
        }
    }

    proof fn law_order(a: Self, b: Self) {
    }
}

impl Identity for i64 {
    fn zero() -> Self {
        0
    }

    fn one() -> Self {
        1
    }
}

impl Dividable for i64 {
    type Divider = i64;

    proof fn law_share(a: Self, d: Self::Divider) {
        Self::law_div(a, d);
    }
}

impl Exact for i128 {
    open spec fn val(self) -> int {
        self as int
    }

    open spec fn lo() -> int {
        i128::MIN as int
    }

    open spec fn hi() -> int {
        i128::MAX as int
    }

    fn checked_add(self, other: Self) -> Option<Self> {
        self.checked_add(other)
    }

    fn checked_sub(self, other: Self) -> Option<Self> {
        self.checked_sub(other)
    }

    fn checked_mul(self, other: Self) -> Option<Self> {
        self.checked_mul(other)
    }

    fn checked_div(self, other: Self) -> Option<Self> {
        if other == 0 || (self == i128::MIN && other == -1) {
            proof {
                if other != 0 {
                    crate::number::lemma_quotient_bounds(self as int, other as int);
                }
            }
            None
        } else {
            proof {
                crate::number::lemma_quotient_bounds(self as int, other as int);
            }
            Some(self.div(other))
        }
    }

    proof fn law_range(a: Self) {
    }

    proof fn law_distinct(a: Self, b: Self) {
    }

    proof fn law_add(a: Self, b: Self) {
    }

    proof fn law_sub(a: Self, b: Self) {
    }

    proof fn law_mul(a: Self, b: Self) {
    }

    proof fn law_div(a: Self, b: Self) {
        if b != 0 {
            crate::number::lemma_quotient_bounds(a as int, b as int);
        }
    }

    proof fn law_order(a: Self, b: Self) {
    }
}

impl Identity for i128 {
    fn zero() -> Self {
        0
    }

    fn one() -> Self {
        1
    }
}

impl Dividable for i128 {
    type Divider = i128;

    proof fn law_share(a: Self, d: Self::Divider) {
        Self::law_div(a, d);
    }
}

} // verus!
