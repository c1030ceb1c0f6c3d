//! The numbers that prices, quantities and rates are made of.
use vstd::prelude::*;

verus! {

/// A text in contracts.
pub type Chars = Seq<char>;

/// A number type for prices, quantities and rates.
///
/// Every calculation of the library is written over this trait, and its
/// contract spells the calculation out in the operations that an
/// implementation names here. The order need not be total: a number that is
/// not at most itself takes no part in it, as a floating-point NaN does not.
pub trait Scalar: Copy {
    /// The sum.
    spec fn plus_spec(self, rhs: Self) -> Self;

    /// The difference.
    spec fn minus_spec(self, rhs: Self) -> Self;

    /// The product.
    spec fn times_spec(self, rhs: Self) -> Self;

    /// The quotient.
    spec fn over_spec(self, rhs: Self) -> Self;

    /// Strictly less.
    spec fn less_spec(self, rhs: Self) -> bool;

    /// Less or equal.
    spec fn at_most_spec(self, rhs: Self) -> bool;

    /// The smaller of two numbers.
    spec fn least_spec(self, rhs: Self) -> Self;

    /// Whether the number is finite.
    spec fn finite_spec(self) -> bool;

    /// The number that stands for an integer.
    spec fn of_int_spec(n: i128) -> Self;

    /// The nearest integer.
    spec fn round_spec(self) -> i64;

    /// The number that a text denotes, if it denotes one.
    spec fn parse_spec(text: Chars) -> Option<Self>;

    /// The number printed with four decimal places.
    spec fn fixed4_spec(self) -> Chars;

    /// What is less is at most, and the other way round it is not at most.
    proof fn less_is_strict(a: Self, b: Self)
        requires
            a.less_spec(b),
        ensures
            a.at_most_spec(b),
            !b.at_most_spec(a),
    ;

    /// Both sides of a comparison take part in the order.
    proof fn at_most_is_ordered(a: Self, b: Self)
        requires
            a.at_most_spec(b),
        ensures
            a.at_most_spec(a),
            b.at_most_spec(b),
    ;

    /// The order is transitive.
    proof fn at_most_is_transitive(a: Self, b: Self, c: Self)
        requires
            a.at_most_spec(b),
            b.at_most_spec(c),
        ensures
            a.at_most_spec(c),
    ;

    /// The order is total on the numbers that take part in it.
    proof fn at_most_is_total(a: Self, b: Self)
        requires
            a.at_most_spec(a),
            b.at_most_spec(b),
        ensures
            a.at_most_spec(b) || b.less_spec(a),
    ;

    /// The smaller of two ordered numbers is one of them and at most both.
    proof fn least_is_lower_bound(a: Self, b: Self)
        requires
            a.at_most_spec(a),
            b.at_most_spec(b),
        ensures
            a.least_spec(b) == a || a.least_spec(b) == b,
            a.least_spec(b).at_most_spec(a),
            a.least_spec(b).at_most_spec(b),
    ;

    fn plus(self, rhs: Self) -> (r: Self)
        ensures
            r == self.plus_spec(rhs),
    ;

    fn minus(self, rhs: Self) -> (r: Self)
        ensures
            r == self.minus_spec(rhs),
    ;

    fn times(self, rhs: Self) -> (r: Self)
        ensures
            r == self.times_spec(rhs),
    ;

    fn over(self, rhs: Self) -> (r: Self)
        ensures
            r == self.over_spec(rhs),
    ;

    fn less(self, rhs: Self) -> (r: bool)
        ensures
            r == self.less_spec(rhs),
    ;

    fn at_most(self, rhs: Self) -> (r: bool)
        ensures
            r == self.at_most_spec(rhs),
    ;

    fn least(self, rhs: Self) -> (r: Self)
        ensures
            r == self.least_spec(rhs),
    ;

    fn finite(self) -> (r: bool)
        ensures
            r == self.finite_spec(),
    ;

    fn of_int(n: i128) -> (r: Self)
        ensures
            r == Self::of_int_spec(n),
    ;

    fn round(self) -> (r: i64)
        ensures
            r == self.round_spec(),
    ;

    fn parse(text: &str) -> (r: Option<Self>)
        ensures
            r == Self::parse_spec(text@),
    ;

    fn fixed4(self) -> (r: String)
        ensures
            r@ == self.fixed4_spec(),
    ;
}

/// Zero.
pub open spec fn zero_spec<N: Scalar>() -> N {
    N::of_int_spec(0)
}

/// A decimal fraction: an integer over an integer.
pub open spec fn ratio_spec<N: Scalar>(num: i128, den: i128) -> N {
    N::of_int_spec(num).over_spec(N::of_int_spec(den))
}

/// Zero.
pub fn zero<N: Scalar>() -> (r: N)
    ensures
        r == zero_spec::<N>(),
{
    N::of_int(0)
}

/// An integer over an integer.
pub fn ratio<N: Scalar>(num: i128, den: i128) -> (r: N)
    ensures
        r == ratio_spec::<N>(num, den),
{
    N::of_int(num).over(N::of_int(den))
}

} // verus!
