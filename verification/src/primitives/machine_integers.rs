//! The machine integers that can carry a residue: the unsigned and signed
//! primitive types of up to 64 bits.

use crate::primitives::field_element::Number;
use vstd::prelude::*;

verus! {

impl Number for u8 {
    open spec fn value(self) -> int {
        self as int
    }

    open spec fn min_value() -> int {
        u8::MIN as int
    }

    open spec fn max_value() -> int {
        u8::MAX as int
    }

    proof fn lemma_range(self) {
    }

    proof fn lemma_value_injective(self, other: Self) {
    }

    fn zero() -> (r: Self) {
        0
    }

    fn one() -> (r: Self) {
        1
    }

    fn is_equal(&self, rhs: &Self) -> (b: bool) {
        *self == *rhs
    }

    fn is_less(&self, rhs: &Self) -> (b: bool) {
        *self < *rhs
    }

    fn add(self, rhs: Self) -> (r: Self) {
        self + rhs
    }

    fn sub(self, rhs: Self) -> (r: Self) {
        self - rhs
    }

    fn to_wide(self) -> (w: i128) {
        self as i128
    }

    fn from_wide(w: i128) -> (r: Self) {
        w as u8
    }
}

impl Number for u16 {
    open spec fn value(self) -> int {
        self as int
    }

    open spec fn min_value() -> int {
        u16::MIN as int
    }

    open spec fn max_value() -> int {
        u16::MAX as int
    }

    proof fn lemma_range(self) {
    }

    proof fn lemma_value_injective(self, other: Self) {
    }

    fn zero() -> (r: Self) {
        0
    }

    fn one() -> (r: Self) {
        1
    }

    fn is_equal(&self, rhs: &Self) -> (b: bool) {
        *self == *rhs
    }

    fn is_less(&self, rhs: &Self) -> (b: bool) {
        *self < *rhs
    }

    fn add(self, rhs: Self) -> (r: Self) {
        self + rhs
    }

    fn sub(self, rhs: Self) -> (r: Self) {
        self - rhs
    }

    fn to_wide(self) -> (w: i128) {
        self as i128
    }

    fn from_wide(w: i128) -> (r: Self) {
        w as u16
    }
}

impl Number for u32 {
    open spec fn value(self) -> int {
        self as int
    }

    open spec fn min_value() -> int {
        u32::MIN as int
    }

    open spec fn max_value() -> int {
        u32::MAX as int
    }

    proof fn lemma_range(self) {
    }

    proof fn lemma_value_injective(self, other: Self) {
    }

    fn zero() -> (r: Self) {
        0
    }

    fn one() -> (r: Self) {
        1
    }

    fn is_equal(&self, rhs: &Self) -> (b: bool) {
        *self == *rhs
    }

    fn is_less(&self, rhs: &Self) -> (b: bool) {
        *self < *rhs
    }

    fn add(self, rhs: Self) -> (r: Self) {
        self + rhs
    }

    fn sub(self, rhs: Self) -> (r: Self) {
        self - rhs
    }

    fn to_wide(self) -> (w: i128) {
        self as i128
    }

    fn from_wide(w: i128) -> (r: Self) {
        w as u32
    }
}

impl Number for u64 {
    open spec fn value(self) -> int {
        self as int
    }

    open spec fn min_value() -> int {
        u64::MIN as int
    }

    open spec fn max_value() -> int {
        u64::MAX as int
    }

    proof fn lemma_range(self) {
    }

    proof fn lemma_value_injective(self, other: Self) {
    }

    fn zero() -> (r: Self) {
        0
    }

    fn one() -> (r: Self) {
        1
    }

    fn is_equal(&self, rhs: &Self) -> (b: bool) {
        *self == *rhs
    }

    fn is_less(&self, rhs: &Self) -> (b: bool) {
        *self < *rhs
    }

    fn add(self, rhs: Self) -> (r: Self) {
        self + rhs
    }

    fn sub(self, rhs: Self) -> (r: Self) {
        self - rhs
    }

    fn to_wide(self) -> (w: i128) {
        self as i128
    }

    fn from_wide(w: i128) -> (r: Self) {
        w as u64
    }
}

impl Number for usize {
    open spec fn value(self) -> int {
        self as int
    }

    open spec fn min_value() -> int {
        usize::MIN as int
    }

    open spec fn max_value() -> int {
        usize::MAX as int
    }

    proof fn lemma_range(self) {
    }

    proof fn lemma_value_injective(self, other: Self) {
    }

    fn zero() -> (r: Self) {
        0
    }

    fn one() -> (r: Self) {
        1
    }

    fn is_equal(&self, rhs: &Self) -> (b: bool) {
        *self == *rhs
    }

    fn is_less(&self, rhs: &Self) -> (b: bool) {
        *self < *rhs
    }

    fn add(self, rhs: Self) -> (r: Self) {
        self + rhs
    }

    fn sub(self, rhs: Self) -> (r: Self) {
        self - rhs
    }

    fn to_wide(self) -> (w: i128) {
        self as i128
    }

    fn from_wide(w: i128) -> (r: Self) {
        w as usize
    }
}

impl Number for i8 {
    open spec fn value(self) -> int {
        self as int
    }

    open spec fn min_value() -> int {
        i8::MIN as int
    }

    open spec fn max_value() -> int {
        i8::MAX as int
    }

    proof fn lemma_range(self) {
    }

    proof fn lemma_value_injective(self, other: Self) {
    }

    fn zero() -> (r: Self) {
        0
    }

    fn one() -> (r: Self) {
        1
    }

    fn is_equal(&self, rhs: &Self) -> (b: bool) {
        *self == *rhs
    }

    fn is_less(&self, rhs: &Self) -> (b: bool) {
        *self < *rhs
    }

    fn add(self, rhs: Self) -> (r: Self) {
        self + rhs
    }

    fn sub(self, rhs: Self) -> (r: Self) {
        self - rhs
    }

    fn to_wide(self) -> (w: i128) {
        self as i128
    }

    fn from_wide(w: i128) -> (r: Self) {
        w as i8
    }
}

impl Number for i16 {
    open spec fn value(self) -> int {
        self as int
    }

    open spec fn min_value() -> int {
        i16::MIN as int
    }

    open spec fn max_value() -> int {
        i16::MAX as int
    }

    proof fn lemma_range(self) {
    }

    proof fn lemma_value_injective(self, other: Self) {
    }

    fn zero() -> (r: Self) {
        0
    }

    fn one() -> (r: Self) {
        1
    }

    fn is_equal(&self, rhs: &Self) -> (b: bool) {
        *self == *rhs
    }

    fn is_less(&self, rhs: &Self) -> (b: bool) {
        *self < *rhs
    }

    fn add(self, rhs: Self) -> (r: Self) {
        self + rhs
    }

    fn sub(self, rhs: Self) -> (r: Self) {
        self - rhs
    }

    fn to_wide(self) -> (w: i128) {
        self as i128
    }

    fn from_wide(w: i128) -> (r: Self) {
        w as i16
    }
}

impl Number for i32 {
    open spec fn value(self) -> int {
        self as int
    }

    open spec fn min_value() -> int {
        i32::MIN as int
    }

    open spec fn max_value() -> int {
        i32::MAX as int
    }

    proof fn lemma_range(self) {
    }

    proof fn lemma_value_injective(self, other: Self) {
    }

    fn zero() -> (r: Self) {
        0
    }

    fn one() -> (r: Self) {
        1
    }

    fn is_equal(&self, rhs: &Self) -> (b: bool) {
        *self == *rhs
    }

    fn is_less(&self, rhs: &Self) -> (b: bool) {
        *self < *rhs
    }

    fn add(self, rhs: Self) -> (r: Self) {
        self + rhs
    }

    fn sub(self, rhs: Self) -> (r: Self) {
        self - rhs
    }

    fn to_wide(self) -> (w: i128) {
        self as i128
    }

    fn from_wide(w: i128) -> (r: Self) {
        w as i32
    }
}

impl Number for i64 {
    open spec fn value(self) -> int {
        self as int
    }

    open spec fn min_value() -> int {
        i64::MIN as int
    }

    open spec fn max_value() -> int {
        i64::MAX as int
    }

    proof fn lemma_range(self) {
    }

    proof fn lemma_value_injective(self, other: Self) {
    }

    fn zero() -> (r: Self) {
        0
    }

    fn one() -> (r: Self) {
        1
    }

    fn is_equal(&self, rhs: &Self) -> (b: bool) {
        *self == *rhs
    }

    fn is_less(&self, rhs: &Self) -> (b: bool) {
        *self < *rhs
    }

    fn add(self, rhs: Self) -> (r: Self) {
        self + rhs
    }

    fn sub(self, rhs: Self) -> (r: Self) {
        self - rhs
    }

    fn to_wide(self) -> (w: i128) {
        self as i128
    }

    fn from_wide(w: i128) -> (r: Self) {
        w as i64
    }
}

impl Number for isize {
    open spec fn value(self) -> int {
        self as int
    }

    open spec fn min_value() -> int {
        isize::MIN as int
    }

    open spec fn max_value() -> int {
        isize::MAX as int
    }

    proof fn lemma_range(self) {
    }

    proof fn lemma_value_injective(self, other: Self) {
    }

    fn zero() -> (r: Self) {
        0
    }

    fn one() -> (r: Self) {
        1
    }

    fn is_equal(&self, rhs: &Self) -> (b: bool) {
        *self == *rhs
    }

    fn is_less(&self, rhs: &Self) -> (b: bool) {
        *self < *rhs
    }

    fn add(self, rhs: Self) -> (r: Self) {
        self + rhs
    }

    fn sub(self, rhs: Self) -> (r: Self) {
        self - rhs
    }

    fn to_wide(self) -> (w: i128) {
        self as i128
    }

    fn from_wide(w: i128) -> (r: Self) {
        w as isize
    }
}

} // verus!
