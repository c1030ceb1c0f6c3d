//! What a request asks for.
use crate::db::Filters;
use crate::env::{find_setting, setting};
use crate::scalar::Scalar;
use crate::text::{parse_signed, signed_value};
use vstd::prelude::*;
use vstd::string::*;

verus! {

/// The integer under a name, where it is given and denotes one.
pub open spec fn integer_param(q: Seq<(String, String)>, name: Seq<char>) -> Option<i64> {
    match setting(q, name) {
        Some(value) => signed_value(value),
        None => None,
    }
}

/// The text under a name, where it is given and not empty.
pub open spec fn text_param(q: Seq<(String, String)>, name: Seq<char>) -> Option<Seq<char>> {
    match setting(q, name) {
        Some(value) => if value.len() > 0 {
            Some(value)
        } else {
            None
        },
        None => None,
    }
}

/// The number under a name, where it is given and denotes one.
pub open spec fn number_param<N: Scalar>(q: Seq<(String, String)>, name: Seq<char>) -> Option<N> {
    match setting(q, name) {
        Some(value) => N::parse_spec(value),
        None => None,
    }
}

/// A text that was read is the one that is given.
pub open spec fn is_text_param(r: Option<String>, q: Seq<(String, String)>, name: Seq<char>) -> bool {
    match text_param(q, name) {
        Some(value) => r matches Some(s) && s@ == value,
        None => r is None,
    }
}

fn read_integer(q: &Vec<(String, String)>, name: &str) -> (r: Option<i64>)
    ensures
        r == integer_param(q@, name@),
{
    match find_setting(q, name) {
        Some(value) => parse_signed(value.as_str()),
        None => None,
    }
}

fn read_text(q: &Vec<(String, String)>, name: &str) -> (r: Option<String>)
    ensures
        is_text_param(r, q@, name@),
{
    match find_setting(q, name) {
        Some(value) => if value.as_str().unicode_len() > 0 {
            Some(value.clone())
        } else {
            None
        },
        None => None,
    }
}

fn read_number<N: Scalar>(q: &Vec<(String, String)>, name: &str) -> (r: Option<N>)
    ensures
        r == number_param::<N>(q@, name@),
{
    match find_setting(q, name) {
        Some(value) => N::parse(value.as_str()),
        None => None,
    }
}

/// The filters that the parameters of a request give. What is missing, empty or
/// does not parse is left out; 500 rows are asked for where no number is given.
pub fn parse_filters<N: Scalar>(q: &Vec<(String, String)>) -> (r: Filters<N>)
    ensures
        r.from == integer_param(q@, "from"@),
        r.to == integer_param(q@, "to"@),
        is_text_param(r.kind, q@, "kind"@),
        is_text_param(r.status, q@, "status"@),
        is_text_param(r.expiry, q@, "expiry"@),
        r.min_rate == number_param::<N>(q@, "min_rate"@),
        r.limit == (match integer_param(q@, "limit"@) {
            Some(n) => n,
            None => 500,
        }),
{
    Filters {
        from: read_integer(q, "from"),
        to: read_integer(q, "to"),
        kind: read_text(q, "kind"),
        status: read_text(q, "status"),
        expiry: read_text(q, "expiry"),
        min_rate: read_number(q, "min_rate"),
        limit: match read_integer(q, "limit") {
            Some(n) => n,
            None => 500,
        },
    }
}

} // verus!
