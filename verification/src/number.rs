//! Numbers the indicators compute with.
//!
//! An indicator is generic in its element type. What it promises is stated
//! over the integers: every element stands for an integer, and the machine
//! operations on elements agree with integer arithmetic wherever their result
//! can be represented.

use std::ops::{Add, Div, Mul, Sub};
use vstd::prelude::*;
use vstd::std_specs::cmp::{PartialEqSpec, PartialOrdIs, PartialOrdSpec};
use vstd::std_specs::ops::{AddSpec, DivSpec, MulSpec, SubSpec};

verus! {

/// Division that rounds toward zero, as the machine integers divide.
pub open spec fn quotient(x: int, y: int) -> int {
    if x >= 0 {
        x / y
    } else {
        -((-x) / y)
    }
}

/// A quotient is no larger in magnitude than what was divided.
pub proof fn lemma_quotient_bounds(x: int, y: int)
    requires
        y != 0,
    ensures
        x >= 0 ==> -x <= quotient(x, y) <= x,
        x <= 0 ==> x <= quotient(x, y) <= -x,
        y == -1 ==> quotient(x, y) == -x,
        x < 0 && y != -1 ==> quotient(x, y) < -x,
        y > 0 && x >= 0 ==> 0 <= quotient(x, y),
        y > 0 && x <= 0 ==> quotient(x, y) <= 0,
{
    assert(y > 0 && x >= 0 ==> 0 <= x / y) by (nonlinear_arith);
    assert(y > 0 && x <= 0 ==> 0 <= (-x) / y) by (nonlinear_arith);
    assert(x >= 0 ==> -x <= x / y <= x) by (nonlinear_arith)
        requires
            y != 0,
    ;
    assert(x <= 0 ==> x <= (-x) / y <= -x) by (nonlinear_arith)
        requires
            y != 0,
    ;
    assert(y == -1 ==> x / y == -x && (-x) / y == x) by (nonlinear_arith);
    assert(x < 0 && y != -1 ==> (-x) / y > x) by (nonlinear_arith)
        requires
            y != 0,
    ;
}

/// A number type whose arithmetic is exact.
///
/// Each value stands for the integer `val()`, between `lo()` and `hi()`. An
/// operation is defined exactly when the integer result lies in that range,
/// and then yields the value that stands for it.
pub trait Exact: Copy + PartialOrd + Add<Output = Self> + Sub<Output = Self> + Mul<
    Output = Self,
> + Div<Output = Self> {
    /// The integer this value stands for.
    spec fn val(self) -> int;

    /// The least integer the type can hold.
    spec fn lo() -> int;

    /// The greatest integer the type can hold.
    spec fn hi() -> int;

    /// The sum, where it is in range.
    fn checked_add(self, other: Self) -> (r: Option<Self>)
        ensures
            r is Some <==> Self::lo() <= self.val() + other.val() <= Self::hi(),
            r is Some ==> r.unwrap().val() == self.val() + other.val(),
    ;

    /// The difference, where it is in range.
    fn checked_sub(self, other: Self) -> (r: Option<Self>)
        ensures
            r is Some <==> Self::lo() <= self.val() - other.val() <= Self::hi(),
            r is Some ==> r.unwrap().val() == self.val() - other.val(),
    ;

    /// The product, where it is in range.
    fn checked_mul(self, other: Self) -> (r: Option<Self>)
        ensures
            r is Some <==> Self::lo() <= self.val() * other.val() <= Self::hi(),
            r is Some ==> r.unwrap().val() == self.val() * other.val(),
    ;

    /// The quotient, rounded toward zero, where there is one and it is in
    /// range.
    fn checked_div(self, other: Self) -> (r: Option<Self>)
        ensures
            r is Some <==> other.val() != 0 && Self::lo() <= quotient(self.val(), other.val())
                <= Self::hi(),
            r is Some ==> r.unwrap().val() == quotient(self.val(), other.val()),
    ;

    /// Every value stands for an integer in the range of the type, and the
    /// range holds zero, one and two.
    proof fn law_range(a: Self)
        ensures
            Self::lo() <= 0,
            2 <= Self::hi(),
            Self::lo() <= a.val() <= Self::hi(),
    ;

    /// Values that stand for the same integer are the same.
    proof fn law_distinct(a: Self, b: Self)
        requires
            a.val() == b.val(),
        ensures
            a == b,
    ;

    /// `+` is defined exactly where the sum is in range, and yields it.
    proof fn law_add(a: Self, b: Self)
        ensures
            Self::obeys_add_spec(),
            a.add_req(b) <==> Self::lo() <= a.val() + b.val() <= Self::hi(),
            a.add_req(b) ==> a.add_spec(b).val() == a.val() + b.val(),
    ;

    /// `-` is defined exactly where the difference is in range, and yields
    /// it.
    proof fn law_sub(a: Self, b: Self)
        ensures
            Self::obeys_sub_spec(),
            a.sub_req(b) <==> Self::lo() <= a.val() - b.val() <= Self::hi(),
            a.sub_req(b) ==> a.sub_spec(b).val() == a.val() - b.val(),
    ;

    /// `*` is defined exactly where the product is in range, and yields it.
    proof fn law_mul(a: Self, b: Self)
        ensures
            Self::obeys_mul_spec(),
            a.mul_req(b) <==> Self::lo() <= a.val() * b.val() <= Self::hi(),
            a.mul_req(b) ==> a.mul_spec(b).val() == a.val() * b.val(),
    ;

    /// `/` is defined exactly where the divisor is not zero and the
    /// quotient, rounded toward zero, is in range, and yields it.
    proof fn law_div(a: Self, b: Self)
        ensures
            Self::obeys_div_spec(),
            a.div_req(b) <==> b.val() != 0 && Self::lo() <= quotient(a.val(), b.val())
                <= Self::hi(),
            a.div_req(b) ==> a.div_spec(b).val() == quotient(a.val(), b.val()),
    ;

    /// `==`, `<` and `>` compare the integers that the values stand for.
    proof fn law_order(a: Self, b: Self)
        ensures
            Self::obeys_eq_spec(),
            Self::obeys_partial_cmp_spec(),
            a.eq_spec(&b) <==> a.val() == b.val(),
            a.is_lt(&b) <==> a.val() < b.val(),
            a.is_gt(&b) <==> a.val() > b.val(),
    ;
}

/// The way from the integers back to an exact number type.
pub trait Bounded: Exact {
    /// Whether the type can hold `v`.
    spec fn fits(v: int) -> bool;

    /// The value that stands for `v`, where the type can hold `v`.
    spec fn of_int(v: int) -> Self;
}

impl<E: Exact> Bounded for E {
    open spec fn fits(v: int) -> bool {
        Self::lo() <= v <= Self::hi()
    }

    open spec fn of_int(v: int) -> Self {
        choose|e: Self| e.val() == v
    }
}

/// A value is the one that stands for its integer.
pub proof fn lemma_of_int<E: Exact>(e: E)
    ensures
        E::of_int(e.val()) == e,
{
    E::law_distinct(E::of_int(e.val()), e);
}

/// The neutral elements of addition and multiplication.
pub trait Identity: Exact {
    /// The number that changes nothing when it is added.
    fn zero() -> (r: Self)
        ensures
            r.val() == 0,
    ;

    /// The number that changes nothing when it is multiplied by.
    fn one() -> (r: Self)
        ensures
            r.val() == 1,
    ;
}

/// A number that can be divided by a count of type `Divider`.
pub trait Dividable: Exact where Self: Div<<Self as Dividable>::Divider, Output = Self> + Sized {
    /// The type of the counts that the number is divided by.
    type Divider: Exact;

    /// `/` by a divider is defined exactly where the divider is not zero
    /// and the quotient, rounded toward zero, is in range, and yields it.
    proof fn law_share(a: Self, d: Self::Divider)
        ensures
            <Self as DivSpec<Self::Divider>>::obeys_div_spec(),
            <Self as DivSpec<Self::Divider>>::div_req(a, d) <==> d.val() != 0 && Self::lo()
                <= quotient(a.val(), d.val()) <= Self::hi(),
            <Self as DivSpec<Self::Divider>>::div_req(a, d) ==> <Self as DivSpec<
                Self::Divider,
            >>::div_spec(a, d).val() == quotient(a.val(), d.val()),
    ;
}

} // verus!
