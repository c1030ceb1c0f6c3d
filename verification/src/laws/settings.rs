//! Laws of what is read from settings, from requests and from the exchanges.
use crate::env::{number_setting, setting, signed_setting, text_setting, unsigned_setting};
use crate::exchanges::{best_amount, best_price, decimal_accepted, positive_spec, Level};
use crate::fixed::Fixed;
use crate::scalar::Scalar;
use crate::text::{decimal, digits, digits_denote_their_number, is_digit, signed_value, unsigned_value};
use crate::web::{integer_param, number_param, text_param};
use vstd::prelude::*;

verus! {

// ---------------------------------------------------------------------------
// Settings
// ---------------------------------------------------------------------------
/// The first value that a list gives under a name counts.
pub proof fn first_setting_counts(vars: Seq<(String, String)>, name: Seq<char>, i: int)
    requires
        0 <= i < vars.len(),
        vars[i].0@ == name,
        forall|j: int| 0 <= j < i ==> (#[trigger] vars[j]).0@ != name,
    ensures
        setting(vars, name) == Some(vars[i].1@),
    decreases vars.len(),
{
    if i > 0 {
        let rest = vars.skip(1);
        assert(vars[0].0@ != name);
        assert(rest[i - 1] == vars[i]);
        assert forall|j: int| 0 <= j < i - 1 implies (#[trigger] rest[j]).0@ != name by {
            assert(rest[j] == vars[j + 1]);
        }
        first_setting_counts(rest, name, i - 1);
    }
}

/// A name that a list does not give has no value.
pub proof fn missing_setting_has_no_value(vars: Seq<(String, String)>, name: Seq<char>)
    requires
        forall|j: int| 0 <= j < vars.len() ==> (#[trigger] vars[j]).0@ != name,
    ensures
        setting(vars, name) is None,
    decreases vars.len(),
{
    if vars.len() > 0 {
        let rest = vars.skip(1);
        assert(vars[0].0@ != name);
        assert forall|j: int| 0 <= j < rest.len() implies (#[trigger] rest[j]).0@ != name by {
            assert(rest[j] == vars[j + 1]);
        }
        missing_setting_has_no_value(rest, name);
    }
}

/// What is printed of an integer is read as that integer, where it fits; and
/// what does not fit is not read.
pub proof fn printed_integers_are_read_back(n: int, max: nat)
    ensures
        0 <= n <= max ==> unsigned_value(decimal(n), max) == Some(n as nat),
        n > max || n < 0 ==> unsigned_value(decimal(n), max) is None,
        i64::MIN <= n <= i64::MAX ==> signed_value(decimal(n)) == Some(n as i64),
        n > i64::MAX || n < i64::MIN ==> signed_value(decimal(n)) is None,
{
    let size = if n < 0 {
        (-n) as nat
    } else {
        n as nat
    };
    digits_denote_their_number(size);
    let d = digits(size);
    assert(is_digit(d[0]));
    if n < 0 {
        assert(decimal(n)[0] == '-');
        assert(decimal(n).skip(1) =~= d);
        assert(!is_digit('-'));
    }
}

/// A setting that is given and reads as what it should counts; otherwise the
/// default does.
pub proof fn settings_fall_back_on_defaults<N: Scalar>(
    vars: Seq<(String, String)>,
    name: Seq<char>,
    text: Seq<char>,
    unsigned: u64,
    max: u64,
    signed: i64,
    number: N,
)
    ensures
        setting(vars, name) is None ==> {
            &&& text_setting(vars, name, text) == text
            &&& unsigned_setting(vars, name, unsigned, max) == unsigned
            &&& signed_setting(vars, name, signed) == signed
            &&& number_setting(vars, name, number) == number
        },
        setting(vars, name) matches Some(v) ==> {
            &&& text_setting(vars, name, text) == v
            &&& unsigned_value(v, max as nat) matches Some(n) ==> unsigned_setting(vars, name, unsigned, max) == n
            &&& unsigned_value(v, max as nat) is None ==> unsigned_setting(vars, name, unsigned, max) == unsigned
            &&& signed_value(v) matches Some(n) ==> signed_setting(vars, name, signed) == n
            &&& signed_value(v) is None ==> signed_setting(vars, name, signed) == signed
            &&& N::parse_spec(v) matches Some(x) ==> number_setting(vars, name, number) == x
            &&& N::parse_spec(v) is None ==> number_setting(vars, name, number) == number
        },
{
}

/// A parameter of a request that is missing, or does not read as what it should,
/// filters nothing; an empty text does not either.
pub proof fn unreadable_parameters_are_left_out<N: Scalar>(q: Seq<(String, String)>, name: Seq<char>)
    ensures
        setting(q, name) is None ==> integer_param(q, name) is None && text_param(q, name) is None && number_param::<
            N,
        >(q, name) is None,
        setting(q, name) matches Some(v) ==> {
            &&& integer_param(q, name) == signed_value(v)
            &&& number_param::<N>(q, name) == N::parse_spec(v)
            &&& v.len() == 0 ==> text_param(q, name) is None
            &&& v.len() > 0 ==> text_param(q, name) == Some(v)
        },
{
}

// ---------------------------------------------------------------------------
// Exchanges
// ---------------------------------------------------------------------------
/// A price or a quantity is accepted exactly where its text denotes a number that
/// is not below zero and within the range.
pub proof fn accepted_decimals_are_not_negative(text: Seq<char>)
    ensures
        decimal_accepted::<Fixed>(text) <==> (Fixed::parse_spec(text) matches Some(x) && 0 <= x.units < i128::MAX),
{
}

/// A listed price is kept exactly where it is above zero and finite, and as it is.
pub proof fn listed_prices_are_positive<N: Scalar>(value: Option<N>)
    ensures
        positive_spec(value) matches Some(x) ==> value == Some(x) && N::of_int_spec(0).less_spec(x)
            && x.finite_spec(),
        value matches Some(x) ==> (N::of_int_spec(0).less_spec(x) && x.finite_spec() ==> positive_spec(value)
            == value),
{
}

/// The first level of a book is the best: its price and its amount count, and
/// what is given apart counts only where there is no level.
pub proof fn first_level_is_the_best<N: Scalar>(levels: Seq<Level<N>>, price: Option<N>, amount: Option<N>)
    ensures
        levels.len() > 0 ==> best_price(levels, price) == Some(levels[0].price) && best_amount(levels, amount)
            == levels[0].amount,
        levels.len() == 0 ==> best_price(levels, price) == price,
        levels.len() == 0 && amount is Some ==> Some(best_amount(levels, amount)) == amount,
        levels.len() == 0 && amount is None ==> best_amount(levels, amount) == N::of_int_spec(0),
{
}

} // verus!
