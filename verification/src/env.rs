//! Settings by name, as a process finds them in its environment.
use crate::scalar::Scalar;
use crate::text::{parse_signed, parse_unsigned, same_text, signed_value, unsigned_value};
use vstd::prelude::*;
use vstd::string::*;

verus! {

/// What a list of settings holds under a name: the first value that it gives.
pub open spec fn setting(vars: Seq<(String, String)>, name: Seq<char>) -> Option<Seq<char>>
    decreases vars.len(),
{
    if vars.len() == 0 {
        None
    } else if vars[0].0@ == name {
        Some(vars[0].1@)
    } else {
        setting(vars.skip(1), name)
    }
}

/// Looks a setting up.
pub fn find_setting<'a>(vars: &'a Vec<(String, String)>, name: &str) -> (r: Option<&'a String>)
    ensures
        match setting(vars@, name@) {
            Some(value) => r matches Some(s) && s@ == value,
            None => r is None,
        },
{
    let mut i: usize = 0;
    proof {
        assert(vars@.skip(0) =~= vars@);
    }
    while i < vars.len()
        invariant
            i <= vars@.len(),
            setting(vars@, name@) == setting(vars@.skip(i as int), name@),
        decreases vars@.len() - i,
    {
        proof {
            assert(vars@.skip(i as int)[0] == vars@[i as int]);
            assert(vars@.skip(i as int).skip(1) =~= vars@.skip(i + 1));
        }
        if same_text(vars[i].0.as_str(), name) {
            return Some(&vars[i].1);
        }
        i = i + 1;
    }
    None
}

/// A text setting, or its default.
pub open spec fn text_setting(vars: Seq<(String, String)>, name: Seq<char>, default: Seq<char>) -> Seq<char> {
    match setting(vars, name) {
        Some(value) => value,
        None => default,
    }
}

/// An unsigned setting of at most `max`, or its default where it is not given
/// or does not denote such a number.
pub open spec fn unsigned_setting(vars: Seq<(String, String)>, name: Seq<char>, default: u64, max: u64) -> u64 {
    match setting(vars, name) {
        Some(value) => match unsigned_value(value, max as nat) {
            Some(n) => n as u64,
            None => default,
        },
        None => default,
    }
}

/// A signed setting, or its default where it is not given or denotes no number.
pub open spec fn signed_setting(vars: Seq<(String, String)>, name: Seq<char>, default: i64) -> i64 {
    match setting(vars, name) {
        Some(value) => match signed_value(value) {
            Some(n) => n,
            None => default,
        },
        None => default,
    }
}

/// A numeric setting, or its default where it is not given or denotes no number.
pub open spec fn number_setting<N: Scalar>(vars: Seq<(String, String)>, name: Seq<char>, default: N) -> N {
    match setting(vars, name) {
        Some(value) => match N::parse_spec(value) {
            Some(x) => x,
            None => default,
        },
        None => default,
    }
}

/// Reads a text setting.
pub fn read_text(vars: &Vec<(String, String)>, name: &str, default: &str) -> (r: String)
    ensures
        r@ == text_setting(vars@, name@, default@),
{
    match find_setting(vars, name) {
        Some(value) => value.clone(),
        None => default.to_owned(),
    }
}

/// Reads an unsigned setting.
pub fn read_unsigned(vars: &Vec<(String, String)>, name: &str, default: u64, max: u64) -> (r: u64)
    requires
        default <= max,
    ensures
        r == unsigned_setting(vars@, name@, default, max),
        r <= max,
{
    match find_setting(vars, name) {
        Some(value) => match parse_unsigned(value.as_str(), max) {
            Some(n) => n,
            None => default,
        },
        None => default,
    }
}

/// Reads a signed setting.
pub fn read_signed(vars: &Vec<(String, String)>, name: &str, default: i64) -> (r: i64)
    ensures
        r == signed_setting(vars@, name@, default),
{
    match find_setting(vars, name) {
        Some(value) => match parse_signed(value.as_str()) {
            Some(n) => n,
            None => default,
        },
        None => default,
    }
}

/// Reads a numeric setting.
pub fn read_number<N: Scalar>(vars: &Vec<(String, String)>, name: &str, default: N) -> (r: N)
    ensures
        r == number_setting::<N>(vars@, name@, default),
{
    match find_setting(vars, name) {
        Some(value) => match N::parse(value.as_str()) {
            Some(x) => x,
            None => default,
        },
        None => default,
    }
}

} // verus!
