//! Element types: machine integers whose operations ask that the exact result fit, so
//! that none wraps or panics.

use vstd::prelude::*;

use crate::identities::Identity;

verus! {

/// The absolute value of an integer.
pub open spec fn abs(a: int) -> int {
    if a < 0 {
        -a
    } else {
        a
    }
}

/// Division rounded toward zero, as integer division does it.
pub open spec fn trunc_div(a: int, b: int) -> int {
    let q = abs(a) / abs(b);
    if (a < 0) == (b < 0) {
        q
    } else {
        -q
    }
}

/// A quotient rounded toward zero is no larger than the dividend, and at most half of it
/// when the divisor is not 1 or -1.
pub proof fn lemma_trunc_div_bound(a: int, b: int)
    requires
        b != 0,
    ensures
        abs(trunc_div(a, b)) <= abs(a),
        abs(b) >= 2 ==> 2 * abs(trunc_div(a, b)) <= abs(a),
        abs(b) == 1 ==> abs(trunc_div(a, b)) == abs(a),
{
    vstd::arithmetic::div_mod::lemma_div_is_ordered_by_denominator(abs(a), 1, abs(b));
    if abs(b) >= 2 {
        vstd::arithmetic::div_mod::lemma_div_is_ordered_by_denominator(abs(a), 2, abs(b));
        vstd::arithmetic::div_mod::lemma_fundamental_div_mod(abs(a), 2);
    }
}

/// The integers that a sequence of elements stands for.
pub open spec fn vals_of<T: Scalar>(s: Seq<T>) -> Seq<int> {
    s.map_values(|t: T| t.val())
}

/// An element type of a matrix: a machine integer, seen as the mathematical integer it
/// stands for. Each operation asks that its exact result be representable, so none of
/// them wraps or panics.
pub trait Scalar: Copy + Sized + Identity {
    /// The integer that this value stands for.
    spec fn val(self) -> int;

    /// Whether the integer `v` can be held by this type.
    spec fn fits(v: int) -> bool;

    proof fn lemma_val_fits(x: Self)
        ensures
            Self::fits(x.val()),
    ;

    proof fn lemma_has_identity()
        ensures
            Self::has_identity(),
    ;

    proof fn lemma_fits_zero()
        ensures
            Self::fits(0),
    ;

    proof fn lemma_identity_is_one(x: Self)
        requires
            x.is_identity(),
        ensures
            x.val() == 1,
    ;

    fn zero() -> (r: Self)
        ensures
            r.val() == 0,
    ;

    fn equals(&self, o: &Self) -> (r: bool)
        ensures
            r == (self.val() == o.val()),
    ;

    fn is_zero(&self) -> (r: bool)
        ensures
            r == (self.val() == 0),
    ;

    fn plus(self, o: Self) -> (r: Self)
        requires
            Self::fits(self.val() + o.val()),
        ensures
            r.val() == self.val() + o.val(),
    ;

    fn minus(self, o: Self) -> (r: Self)
        requires
            Self::fits(self.val() - o.val()),
        ensures
            r.val() == self.val() - o.val(),
    ;

    fn times(self, o: Self) -> (r: Self)
        requires
            Self::fits(self.val() * o.val()),
        ensures
            r.val() == self.val() * o.val(),
    ;

    fn checked_plus(self, o: Self) -> (r: Option<Self>)
        ensures
            r is Some <==> Self::fits(self.val() + o.val()),
            r matches Some(v) ==> v.val() == self.val() + o.val(),
    ;

    fn checked_minus(self, o: Self) -> (r: Option<Self>)
        ensures
            r is Some <==> Self::fits(self.val() - o.val()),
            r matches Some(v) ==> v.val() == self.val() - o.val(),
    ;

    fn checked_times(self, o: Self) -> (r: Option<Self>)
        ensures
            r is Some <==> Self::fits(self.val() * o.val()),
            r matches Some(v) ==> v.val() == self.val() * o.val(),
    ;

    fn checked_quot(self, o: Self) -> (r: Option<Self>)
        requires
            o.val() != 0,
        ensures
            r is Some <==> Self::fits(trunc_div(self.val(), o.val())),
            r matches Some(v) ==> v.val() == trunc_div(self.val(), o.val()),
    ;

    fn quot(self, o: Self) -> (r: Self)
        requires
            o.val() != 0,
            Self::fits(trunc_div(self.val(), o.val())),
        ensures
            r.val() == trunc_div(self.val(), o.val()),
    ;
}

impl Scalar for u8 {
    open spec fn val(self) -> int {
        self as int
    }

    open spec fn fits(v: int) -> bool {
        u8::MIN <= v <= u8::MAX
    }

    proof fn lemma_val_fits(x: Self) {
    }

    proof fn lemma_has_identity() {
    }

    proof fn lemma_fits_zero() {
    }

    proof fn lemma_identity_is_one(x: Self) {
    }

    fn zero() -> (r: Self) {
        0
    }

    fn equals(&self, o: &Self) -> (r: bool) {
        *self == *o
    }

    fn is_zero(&self) -> (r: bool) {
        *self == 0
    }

    fn plus(self, o: Self) -> (r: Self) {
        self + o
    }

    fn minus(self, o: Self) -> (r: Self) {
        self - o
    }

    fn times(self, o: Self) -> (r: Self) {
        self * o
    }

    fn checked_plus(self, o: Self) -> (r: Option<Self>) {
        self.checked_add(o)
    }

    fn checked_minus(self, o: Self) -> (r: Option<Self>) {
        self.checked_sub(o)
    }

    fn checked_times(self, o: Self) -> (r: Option<Self>) {
        self.checked_mul(o)
    }

    fn checked_quot(self, o: Self) -> (r: Option<Self>) {
        proof {
            lemma_trunc_div_bound(self as int, o as int);
        }
        Some(self / o)
    }

    fn quot(self, o: Self) -> (r: Self) {
        self / o
    }
}

impl Scalar for u16 {
    open spec fn val(self) -> int {
        self as int
    }

    open spec fn fits(v: int) -> bool {
        u16::MIN <= v <= u16::MAX
    }

    proof fn lemma_val_fits(x: Self) {
    }

    proof fn lemma_has_identity() {
    }

    proof fn lemma_fits_zero() {
    }

    proof fn lemma_identity_is_one(x: Self) {
    }

    fn zero() -> (r: Self) {
        0
    }

    fn equals(&self, o: &Self) -> (r: bool) {
        *self == *o
    }

    fn is_zero(&self) -> (r: bool) {
        *self == 0
    }

    fn plus(self, o: Self) -> (r: Self) {
        self + o
    }

    fn minus(self, o: Self) -> (r: Self) {
        self - o
    }

    fn times(self, o: Self) -> (r: Self) {
        self * o
    }

    fn checked_plus(self, o: Self) -> (r: Option<Self>) {
        self.checked_add(o)
    }

    fn checked_minus(self, o: Self) -> (r: Option<Self>) {
        self.checked_sub(o)
    }

    fn checked_times(self, o: Self) -> (r: Option<Self>) {
        self.checked_mul(o)
    }

    fn checked_quot(self, o: Self) -> (r: Option<Self>) {
        proof {
            lemma_trunc_div_bound(self as int, o as int);
        }
        Some(self / o)
    }

    fn quot(self, o: Self) -> (r: Self) {
        self / o
    }
}

impl Scalar for u32 {
    open spec fn val(self) -> int {
        self as int
    }

    open spec fn fits(v: int) -> bool {
        u32::MIN <= v <= u32::MAX
    }

    proof fn lemma_val_fits(x: Self) {
    }

    proof fn lemma_has_identity() {
    }

    proof fn lemma_fits_zero() {
    }

    proof fn lemma_identity_is_one(x: Self) {
    }

    fn zero() -> (r: Self) {
        0
    }

    fn equals(&self, o: &Self) -> (r: bool) {
        *self == *o
    }

    fn is_zero(&self) -> (r: bool) {
        *self == 0
    }

    fn plus(self, o: Self) -> (r: Self) {
        self + o
    }

    fn minus(self, o: Self) -> (r: Self) {
        self - o
    }

    fn times(self, o: Self) -> (r: Self) {
        self * o
    }

    fn checked_plus(self, o: Self) -> (r: Option<Self>) {
        self.checked_add(o)
    }

    fn checked_minus(self, o: Self) -> (r: Option<Self>) {
        self.checked_sub(o)
    }

    fn checked_times(self, o: Self) -> (r: Option<Self>) {
        self.checked_mul(o)
    }

    fn checked_quot(self, o: Self) -> (r: Option<Self>) {
        proof {
            lemma_trunc_div_bound(self as int, o as int);
        }
        Some(self / o)
    }

    fn quot(self, o: Self) -> (r: Self) {
        self / o
    }
}

impl Scalar for u64 {
    open spec fn val(self) -> int {
        self as int
    }

    open spec fn fits(v: int) -> bool {
        u64::MIN <= v <= u64::MAX
    }

    proof fn lemma_val_fits(x: Self) {
    }

    proof fn lemma_has_identity() {
    }

    proof fn lemma_fits_zero() {
    }

    proof fn lemma_identity_is_one(x: Self) {
    }

    fn zero() -> (r: Self) {
        0
    }

    fn equals(&self, o: &Self) -> (r: bool) {
        *self == *o
    }

    fn is_zero(&self) -> (r: bool) {
        *self == 0
    }

    fn plus(self, o: Self) -> (r: Self) {
        self + o
    }

    fn minus(self, o: Self) -> (r: Self) {
        self - o
    }

    fn times(self, o: Self) -> (r: Self) {
        self * o
    }

    fn checked_plus(self, o: Self) -> (r: Option<Self>) {
        self.checked_add(o)
    }

    fn checked_minus(self, o: Self) -> (r: Option<Self>) {
        self.checked_sub(o)
    }

    fn checked_times(self, o: Self) -> (r: Option<Self>) {
        self.checked_mul(o)
    }

    fn checked_quot(self, o: Self) -> (r: Option<Self>) {
        proof {
            lemma_trunc_div_bound(self as int, o as int);
        }
        Some(self / o)
    }

    fn quot(self, o: Self) -> (r: Self) {
        self / o
    }
}

impl Scalar for u128 {
    open spec fn val(self) -> int {
        self as int
    }

    open spec fn fits(v: int) -> bool {
        u128::MIN <= v <= u128::MAX
    }

    proof fn lemma_val_fits(x: Self) {
    }

    proof fn lemma_has_identity() {
    }

    proof fn lemma_fits_zero() {
    }

    proof fn lemma_identity_is_one(x: Self) {
    }

    fn zero() -> (r: Self) {
        0
    }

    fn equals(&self, o: &Self) -> (r: bool) {
        *self == *o
    }

    fn is_zero(&self) -> (r: bool) {
        *self == 0
    }

    fn plus(self, o: Self) -> (r: Self) {
        self + o
    }

    fn minus(self, o: Self) -> (r: Self) {
        self - o
    }

    fn times(self, o: Self) -> (r: Self) {
        self * o
    }

    fn checked_plus(self, o: Self) -> (r: Option<Self>) {
        self.checked_add(o)
    }

    fn checked_minus(self, o: Self) -> (r: Option<Self>) {
        self.checked_sub(o)
    }

    fn checked_times(self, o: Self) -> (r: Option<Self>) {
        self.checked_mul(o)
    }

    fn checked_quot(self, o: Self) -> (r: Option<Self>) {
        proof {
            lemma_trunc_div_bound(self as int, o as int);
        }
        Some(self / o)
    }

    fn quot(self, o: Self) -> (r: Self) {
        self / o
    }
}

impl Scalar for usize {
    open spec fn val(self) -> int {
        self as int
    }

    open spec fn fits(v: int) -> bool {
        usize::MIN <= v <= usize::MAX
    }

    proof fn lemma_val_fits(x: Self) {
    }

    proof fn lemma_has_identity() {
    }

    proof fn lemma_fits_zero() {
    }

    proof fn lemma_identity_is_one(x: Self) {
    }

    fn zero() -> (r: Self) {
        0
    }

    fn equals(&self, o: &Self) -> (r: bool) {
        *self == *o
    }

    fn is_zero(&self) -> (r: bool) {
        *self == 0
    }

    fn plus(self, o: Self) -> (r: Self) {
        self + o
    }

    fn minus(self, o: Self) -> (r: Self) {
        self - o
    }

    fn times(self, o: Self) -> (r: Self) {
        self * o
    }

    fn checked_plus(self, o: Self) -> (r: Option<Self>) {
        self.checked_add(o)
    }

    fn checked_minus(self, o: Self) -> (r: Option<Self>) {
        self.checked_sub(o)
    }

    fn checked_times(self, o: Self) -> (r: Option<Self>) {
        self.checked_mul(o)
    }

    fn checked_quot(self, o: Self) -> (r: Option<Self>) {
        proof {
            lemma_trunc_div_bound(self as int, o as int);
        }
        Some(self / o)
    }

    fn quot(self, o: Self) -> (r: Self) {
        self / o
    }
}

impl Scalar for i8 {
    open spec fn val(self) -> int {
        self as int
    }

    open spec fn fits(v: int) -> bool {
        i8::MIN <= v <= i8::MAX
    }

    proof fn lemma_val_fits(x: Self) {
    }

    proof fn lemma_has_identity() {
    }

    proof fn lemma_fits_zero() {
    }

    proof fn lemma_identity_is_one(x: Self) {
    }

    fn zero() -> (r: Self) {
        0
    }

    fn equals(&self, o: &Self) -> (r: bool) {
        *self == *o
    }

    fn is_zero(&self) -> (r: bool) {
        *self == 0
    }

    fn plus(self, o: Self) -> (r: Self) {
        self + o
    }

    fn minus(self, o: Self) -> (r: Self) {
        self - o
    }

    fn times(self, o: Self) -> (r: Self) {
        self * o
    }

    fn checked_plus(self, o: Self) -> (r: Option<Self>) {
        self.checked_add(o)
    }

    fn checked_minus(self, o: Self) -> (r: Option<Self>) {
        self.checked_sub(o)
    }

    fn checked_times(self, o: Self) -> (r: Option<Self>) {
        self.checked_mul(o)
    }

    fn checked_quot(self, o: Self) -> (r: Option<Self>) {
        proof {
            lemma_trunc_div_bound(self as int, o as int);
        }
        if self == i8::MIN && o == -1 {
            None
        } else {
            Some(self.quot(o))
        }
    }

    fn quot(self, o: Self) -> (r: Self) {
        let ua: u8 = magnitude_i8(self);
        let ub: u8 = magnitude_i8(o);
        let q: u8 = ua / ub;
        if (self < 0) == (o < 0) {
            q as i8
        } else if q == (i8::MAX as u8) + 1 {
            i8::MIN
        } else {
            -(q as i8)
        }
    }
}

fn magnitude_i8(a: i8) -> (r: u8)
    ensures
        r as int == abs(a as int),
{
    if a >= 0 {
        a as u8
    } else if a == i8::MIN {
        (i8::MAX as u8) + 1
    } else {
        (-a) as u8
    }
}

impl Scalar for i16 {
    open spec fn val(self) -> int {
        self as int
    }

    open spec fn fits(v: int) -> bool {
        i16::MIN <= v <= i16::MAX
    }

    proof fn lemma_val_fits(x: Self) {
    }

    proof fn lemma_has_identity() {
    }

    proof fn lemma_fits_zero() {
    }

    proof fn lemma_identity_is_one(x: Self) {
    }

    fn zero() -> (r: Self) {
        0
    }

    fn equals(&self, o: &Self) -> (r: bool) {
        *self == *o
    }

    fn is_zero(&self) -> (r: bool) {
        *self == 0
    }

    fn plus(self, o: Self) -> (r: Self) {
        self + o
    }

    fn minus(self, o: Self) -> (r: Self) {
        self - o
    }

    fn times(self, o: Self) -> (r: Self) {
        self * o
    }

    fn checked_plus(self, o: Self) -> (r: Option<Self>) {
        self.checked_add(o)
    }

    fn checked_minus(self, o: Self) -> (r: Option<Self>) {
        self.checked_sub(o)
    }

    fn checked_times(self, o: Self) -> (r: Option<Self>) {
        self.checked_mul(o)
    }

    fn checked_quot(self, o: Self) -> (r: Option<Self>) {
        proof {
            lemma_trunc_div_bound(self as int, o as int);
        }
        if self == i16::MIN && o == -1 {
            None
        } else {
            Some(self.quot(o))
        }
    }

    fn quot(self, o: Self) -> (r: Self) {
        let ua: u16 = magnitude_i16(self);
        let ub: u16 = magnitude_i16(o);
        let q: u16 = ua / ub;
        if (self < 0) == (o < 0) {
            q as i16
        } else if q == (i16::MAX as u16) + 1 {
            i16::MIN
        } else {
            -(q as i16)
        }
    }
}

fn magnitude_i16(a: i16) -> (r: u16)
    ensures
        r as int == abs(a as int),
{
    if a >= 0 {
        a as u16
    } else if a == i16::MIN {
        (i16::MAX as u16) + 1
    } else {
        (-a) as u16
    }
}

impl Scalar for i32 {
    open spec fn val(self) -> int {
        self as int
    }

    open spec fn fits(v: int) -> bool {
        i32::MIN <= v <= i32::MAX
    }

    proof fn lemma_val_fits(x: Self) {
    }

    proof fn lemma_has_identity() {
    }

    proof fn lemma_fits_zero() {
    }

    proof fn lemma_identity_is_one(x: Self) {
    }

    fn zero() -> (r: Self) {
        0
    }

    fn equals(&self, o: &Self) -> (r: bool) {
        *self == *o
    }

    fn is_zero(&self) -> (r: bool) {
        *self == 0
    }

    fn plus(self, o: Self) -> (r: Self) {
        self + o
    }

    fn minus(self, o: Self) -> (r: Self) {
        self - o
    }

    fn times(self, o: Self) -> (r: Self) {
        self * o
    }

    fn checked_plus(self, o: Self) -> (r: Option<Self>) {
        self.checked_add(o)
    }

    fn checked_minus(self, o: Self) -> (r: Option<Self>) {
        self.checked_sub(o)
    }

    fn checked_times(self, o: Self) -> (r: Option<Self>) {
        self.checked_mul(o)
    }

    fn checked_quot(self, o: Self) -> (r: Option<Self>) {
        proof {
            lemma_trunc_div_bound(self as int, o as int);
        }
        if self == i32::MIN && o == -1 {
            None
        } else {
            Some(self.quot(o))
        }
    }

    fn quot(self, o: Self) -> (r: Self) {
        let ua: u32 = magnitude_i32(self);
        let ub: u32 = magnitude_i32(o);
        let q: u32 = ua / ub;
        if (self < 0) == (o < 0) {
            q as i32
        } else if q == (i32::MAX as u32) + 1 {
            i32::MIN
        } else {
            -(q as i32)
        }
    }
}

fn magnitude_i32(a: i32) -> (r: u32)
    ensures
        r as int == abs(a as int),
{
    if a >= 0 {
        a as u32
    } else if a == i32::MIN {
        (i32::MAX as u32) + 1
    } else {
        (-a) as u32
    }
}

impl Scalar for i64 {
    open spec fn val(self) -> int {
        self as int
    }

    open spec fn fits(v: int) -> bool {
        i64::MIN <= v <= i64::MAX
    }

    proof fn lemma_val_fits(x: Self) {
    }

    proof fn lemma_has_identity() {
    }

    proof fn lemma_fits_zero() {
    }

    proof fn lemma_identity_is_one(x: Self) {
    }

    fn zero() -> (r: Self) {
        0
    }

    fn equals(&self, o: &Self) -> (r: bool) {
        *self == *o
    }

    fn is_zero(&self) -> (r: bool) {
        *self == 0
    }

    fn plus(self, o: Self) -> (r: Self) {
        self + o
    }

    fn minus(self, o: Self) -> (r: Self) {
        self - o
    }

    fn times(self, o: Self) -> (r: Self) {
        self * o
    }

    fn checked_plus(self, o: Self) -> (r: Option<Self>) {
        self.checked_add(o)
    }

    fn checked_minus(self, o: Self) -> (r: Option<Self>) {
        self.checked_sub(o)
    }

    fn checked_times(self, o: Self) -> (r: Option<Self>) {
        self.checked_mul(o)
    }

    fn checked_quot(self, o: Self) -> (r: Option<Self>) {
        proof {
            lemma_trunc_div_bound(self as int, o as int);
        }
        if self == i64::MIN && o == -1 {
            None
        } else {
            Some(self.quot(o))
        }
    }

    fn quot(self, o: Self) -> (r: Self) {
        let ua: u64 = magnitude_i64(self);
        let ub: u64 = magnitude_i64(o);
        let q: u64 = ua / ub;
        if (self < 0) == (o < 0) {
            q as i64
        } else if q == (i64::MAX as u64) + 1 {
            i64::MIN
        } else {
            -(q as i64)
        }
    }
}

fn magnitude_i64(a: i64) -> (r: u64)
    ensures
        r as int == abs(a as int),
{
    if a >= 0 {
        a as u64
    } else if a == i64::MIN {
        (i64::MAX as u64) + 1
    } else {
        (-a) as u64
    }
}

impl Scalar for i128 {
    open spec fn val(self) -> int {
        self as int
    }

    open spec fn fits(v: int) -> bool {
        i128::MIN <= v <= i128::MAX
    }

    proof fn lemma_val_fits(x: Self) {
    }

    proof fn lemma_has_identity() {
    }

    proof fn lemma_fits_zero() {
    }

    proof fn lemma_identity_is_one(x: Self) {
    }

    fn zero() -> (r: Self) {
        0
    }

    fn equals(&self, o: &Self) -> (r: bool) {
        *self == *o
    }

    fn is_zero(&self) -> (r: bool) {
        *self == 0
    }

    fn plus(self, o: Self) -> (r: Self) {
        self + o
    }

    fn minus(self, o: Self) -> (r: Self) {
        self - o
    }

    fn times(self, o: Self) -> (r: Self) {
        self * o
    }

    fn checked_plus(self, o: Self) -> (r: Option<Self>) {
        self.checked_add(o)
    }

    fn checked_minus(self, o: Self) -> (r: Option<Self>) {
        self.checked_sub(o)
    }

    fn checked_times(self, o: Self) -> (r: Option<Self>) {
        self.checked_mul(o)
    }

    fn checked_quot(self, o: Self) -> (r: Option<Self>) {
        proof {
            lemma_trunc_div_bound(self as int, o as int);
        }
        if self == i128::MIN && o == -1 {
            None
        } else {
            Some(self.quot(o))
        }
    }

    fn quot(self, o: Self) -> (r: Self) {
        let ua: u128 = magnitude_i128(self);
        let ub: u128 = magnitude_i128(o);
        let q: u128 = ua / ub;
        if (self < 0) == (o < 0) {
            q as i128
        } else if q == (i128::MAX as u128) + 1 {
            i128::MIN
        } else {
            -(q as i128)
        }
    }
}

fn magnitude_i128(a: i128) -> (r: u128)
    ensures
        r as int == abs(a as int),
{
    if a >= 0 {
        a as u128
    } else if a == i128::MIN {
        (i128::MAX as u128) + 1
    } else {
        (-a) as u128
    }
}

impl Scalar for isize {
    open spec fn val(self) -> int {
        self as int
    }

    open spec fn fits(v: int) -> bool {
        isize::MIN <= v <= isize::MAX
    }

    proof fn lemma_val_fits(x: Self) {
    }

    proof fn lemma_has_identity() {
    }

    proof fn lemma_fits_zero() {
    }

    proof fn lemma_identity_is_one(x: Self) {
    }

    fn zero() -> (r: Self) {
        0
    }

    fn equals(&self, o: &Self) -> (r: bool) {
        *self == *o
    }

    fn is_zero(&self) -> (r: bool) {
        *self == 0
    }

    fn plus(self, o: Self) -> (r: Self) {
        self + o
    }

    fn minus(self, o: Self) -> (r: Self) {
        self - o
    }

    fn times(self, o: Self) -> (r: Self) {
        self * o
    }

    fn checked_plus(self, o: Self) -> (r: Option<Self>) {
        self.checked_add(o)
    }

    fn checked_minus(self, o: Self) -> (r: Option<Self>) {
        self.checked_sub(o)
    }

    fn checked_times(self, o: Self) -> (r: Option<Self>) {
        self.checked_mul(o)
    }

    fn checked_quot(self, o: Self) -> (r: Option<Self>) {
        proof {
            lemma_trunc_div_bound(self as int, o as int);
        }
        if self == isize::MIN && o == -1 {
            None
        } else {
            Some(self.quot(o))
        }
    }

    fn quot(self, o: Self) -> (r: Self) {
        let ua: usize = magnitude_isize(self);
        let ub: usize = magnitude_isize(o);
        let q: usize = ua / ub;
        if (self < 0) == (o < 0) {
            q as isize
        } else if q == (isize::MAX as usize) + 1 {
            isize::MIN
        } else {
            -(q as isize)
        }
    }
}

fn magnitude_isize(a: isize) -> (r: usize)
    ensures
        r as int == abs(a as int),
{
    if a >= 0 {
        a as usize
    } else if a == isize::MIN {
        (isize::MAX as usize) + 1
    } else {
        (-a) as usize
    }
}

} // verus!
