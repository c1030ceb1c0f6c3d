//! Laws of decimal texts: which numbers they denote, and how numbers are printed.
use crate::decimal::{before_mark, billionths, is_endless, is_mark, shifted, ten_to};
use crate::fixed::{four_digits, magnitude, Fixed, SCALE};
use crate::scalar::Scalar;
use crate::text::{
    all_digits, ascii_lower, decimal, digit_char, digits, digits_denote_their_number, digits_value, is_digit, pieces,
};
use vstd::prelude::*;
use vstd::string::*;

verus! {

proof fn lemma_no_mark(s: Seq<char>)
    requires
        forall|i: int| 0 <= i < s.len() ==> !is_mark(#[trigger] s[i]),
    ensures
        before_mark(s) == s.len(),
    decreases s.len(),
{
    if s.len() > 0 {
        let rest = s.drop_last();
        assert forall|i: int| 0 <= i < rest.len() implies !is_mark(#[trigger] rest[i]) by {
            assert(rest[i] == s[i]);
        }
        lemma_no_mark(rest);
        assert(!is_mark(s[s.len() - 1]));
    }
}

proof fn lemma_one_piece(s: Seq<char>)
    requires
        all_digits(s),
    ensures
        pieces(s, '.') == seq![s],
    decreases s.len(),
{
    if s.len() > 0 {
        let rest = s.drop_last();
        assert(all_digits(rest));
        lemma_one_piece(rest);
        assert(is_digit(s[s.len() - 1]));
        assert(rest.push(s.last()) =~= s);
        assert(pieces(s, '.') =~= seq![s]);
    } else {
        assert(s =~= Seq::<char>::empty());
    }
}

proof fn lemma_two_pieces(whole: Seq<char>, fraction: Seq<char>)
    requires
        all_digits(whole),
        all_digits(fraction),
    ensures
        pieces(whole + seq!['.'] + fraction, '.') == seq![whole, fraction],
    decreases fraction.len(),
{
    let s = whole + seq!['.'] + fraction;
    if fraction.len() == 0 {
        lemma_one_piece(whole);
        assert(s.drop_last() =~= whole);
        assert(s.last() == '.');
        assert(fraction =~= Seq::<char>::empty());
        assert(pieces(s, '.') =~= seq![whole, fraction]);
    } else {
        let rest = fraction.drop_last();
        assert(all_digits(rest));
        lemma_two_pieces(whole, rest);
        assert(s.drop_last() =~= whole + seq!['.'] + rest);
        assert(s.last() == fraction.last());
        assert(is_digit(fraction[fraction.len() - 1]));
        assert(rest.push(fraction.last()) =~= fraction);
        assert(pieces(s, '.') =~= seq![whole, fraction]);
    }
}

proof fn lemma_digits_join(a: Seq<char>, b: Seq<char>)
    requires
        all_digits(a),
        all_digits(b),
    ensures
        all_digits(a + b),
        digits_value(a + b) == digits_value(a) * ten_to(b.len()) + digits_value(b),
    decreases b.len(),
{
    if b.len() == 0 {
        assert(a + b =~= a);
        assert(ten_to(0) == 1);
        assert(digits_value(a) * 1 == digits_value(a));
    } else {
        let rest = b.drop_last();
        assert(all_digits(rest));
        lemma_digits_join(a, rest);
        assert((a + b).drop_last() =~= a + rest);
        assert((a + b).last() == b.last());
        assert(is_digit(b[b.len() - 1]));
        let v = digits_value(a);
        let t = ten_to(rest.len());
        assert(v * (10 * t) == (v * t) * 10) by (nonlinear_arith);
        assert forall|i: int| 0 <= i < (a + b).len() implies is_digit(#[trigger] (a + b)[i]) by {
            if i >= a.len() {
                assert((a + b)[i] == b[i - a.len()]);
            }
        }
    }
}

proof fn lemma_not_endless(s: Seq<char>)
    requires
        s.len() > 0,
        is_digit(s[0]) || s[0] == '.',
    ensures
        !is_endless(s),
{
    reveal_strlit("inf");
    reveal_strlit("infinity");
    let low = s.map_values(|c: char| ascii_lower(c));
    assert(low[0] == s[0]);
    assert("inf"@[0] == 'i');
    assert("infinity"@[0] == 'i');
}

/// Digits on both sides of a point denote what they say: the whole number in
/// front, and behind it as many tenths, hundredths and so on. A minus sign turns
/// the number round.
pub proof fn point_separates_whole_and_fraction(whole: Seq<char>, fraction: Seq<char>)
    requires
        all_digits(whole),
        all_digits(fraction),
        0 < whole.len(),
        fraction.len() <= 9,
        digits_value(whole) <= 1_000_000_000_000_000_000,
        digits_value(fraction) < 1_000_000_000,
    ensures
        ({
            let text = whole + seq!['.'] + fraction;
            let units = digits_value(whole) * SCALE + digits_value(fraction) * ten_to((9 - fraction.len()) as nat);
            &&& Fixed::parse_spec(text) matches Some(x) && x.units == units
            &&& Fixed::parse_spec(seq!['-'] + text) matches Some(x) && x.units == -units
        }),
{
    let text = whole + seq!['.'] + fraction;
    assert forall|i: int| 0 <= i < text.len() implies !is_mark(#[trigger] text[i]) by {
        if i < whole.len() {
            assert(is_digit(whole[i]));
        } else if i > whole.len() {
            assert(is_digit(fraction[i - whole.len() - 1]));
        }
    }
    lemma_no_mark(text);
    assert(text.take(text.len() as int) =~= text);
    lemma_two_pieces(whole, fraction);
    lemma_digits_join(whole, fraction);
    let n = fraction.len();
    let left = (9 - n) as nat;
    let v = digits_value(whole);
    let f = digits_value(fraction);
    let a = ten_to(n);
    let b = ten_to(left);
    lemma_powers(n);
    assert((v * a + f) * b == v * (a * b) + f * b) by (nonlinear_arith);
    assert(billionths(text) == Some(shifted(v * a + f, left as int)));
    assert(is_digit(whole[0]));
    assert(text[0] == whole[0]);
    lemma_not_endless(text);
    assert(f * b <= 1_000_000_000 * 1_000_000_000) by (nonlinear_arith)
        requires
            0 <= f < 1_000_000_000,
            0 <= b <= 1_000_000_000,
    ;
    let signed = seq!['-'] + text;
    assert(signed.skip(1) =~= text);
    assert(signed[0] == '-');
}

proof fn lemma_powers(n: nat)
    requires
        n <= 9,
    ensures
        ten_to(n) * ten_to((9 - n) as nat) == 1_000_000_000,
        ten_to((9 - n) as nat) <= 1_000_000_000,
{
    reveal_with_fuel(ten_to, 10);
    assert(ten_to(n) * ten_to((9 - n) as nat) == 1_000_000_000) by {
        if n == 0 {
            assert(1nat * 1_000_000_000nat == 1_000_000_000);
        } else if n == 1 {
            assert(10nat * 100_000_000nat == 1_000_000_000);
        } else if n == 2 {
            assert(100nat * 10_000_000nat == 1_000_000_000);
        } else if n == 3 {
            assert(1_000nat * 1_000_000nat == 1_000_000_000);
        } else if n == 4 {
            assert(10_000nat * 100_000nat == 1_000_000_000);
        } else if n == 5 {
            assert(100_000nat * 10_000nat == 1_000_000_000);
        } else if n == 6 {
            assert(1_000_000nat * 1_000nat == 1_000_000_000);
        } else if n == 7 {
            assert(10_000_000nat * 100nat == 1_000_000_000);
        } else if n == 8 {
            assert(100_000_000nat * 10nat == 1_000_000_000);
        } else {
            assert(1_000_000_000nat * 1nat == 1_000_000_000);
        }
    }
}

/// What is printed of an integer is read as that integer.
pub proof fn printed_integers_are_read_as_numbers(n: int)
    requires
        -1_000_000_000_000_000_000 < n < 1_000_000_000_000_000_000,
    ensures
        Fixed::parse_spec(decimal(n)) matches Some(x) && x.units == n * SCALE,
{
    let size = magnitude(n);
    let d = digits(size);
    digits_denote_their_number(size);
    assert forall|i: int| 0 <= i < d.len() implies !is_mark(#[trigger] d[i]) by {
        assert(is_digit(d[i]));
    }
    lemma_no_mark(d);
    lemma_one_piece(d);
    assert(d.take(d.len() as int) =~= d);
    assert(d + Seq::<char>::empty() =~= d);
    assert(ten_to(9) == 1_000_000_000) by {
        reveal_with_fuel(ten_to, 10);
    }
    assert(is_digit(d[0]));
    lemma_not_endless(d);
    assert(billionths(d) == Some(shifted(size, 9)));
    let t = ten_to(9);
    assert(size * t == size * 1_000_000_000) by (nonlinear_arith)
        requires
            t == 1_000_000_000,
    ;
    assert(shifted(size, 9) == size * 1_000_000_000);
    if n < 0 {
        assert(decimal(n).skip(1) =~= d);
        assert(decimal(n)[0] == '-');
    }
}

/// A number is printed to the nearest ten-thousandth: its sign, the whole number,
/// a point and four digits.
pub proof fn four_places_are_printed(x: Fixed)
    ensures
        exists|q: nat|
            {
                &&& 2 * magnitude(q * 100_000 - magnitude(x.units as int)) <= 100_000
                &&& x.fixed4_spec() == (if x.units < 0 {
                    seq!['-']
                } else {
                    Seq::<char>::empty()
                }) + #[trigger] digits(q / 10_000) + seq!['.'] + four_digits(q % 10_000)
            },
{
    let q = (magnitude(x.units as int) + 50_000) / 100_000;
    assert(2 * magnitude(q * 100_000 - magnitude(x.units as int)) <= 100_000);
    assert(x.fixed4_spec() == (if x.units < 0 {
        seq!['-']
    } else {
        Seq::<char>::empty()
    }) + digits(q / 10_000) + seq!['.'] + four_digits(q % 10_000));
}

/// Four digits denote the number that they stand for.
pub proof fn four_digits_denote_their_number(n: nat)
    requires
        n < 10_000,
    ensures
        four_digits(n).len() == 4,
        all_digits(four_digits(n)),
        digits_value(four_digits(n)) == n,
{
    let s = four_digits(n);
    let a = s.drop_last();
    let b = a.drop_last();
    let c = b.drop_last();
    let d = c.drop_last();
    assert(d.len() == 0);
    assert(digits_value(d) == 0);
    assert(c.last() == digit_char(n / 1000));
    assert(digits_value(c) == n / 1000);
    assert(b.last() == digit_char((n / 100) % 10));
    assert(digits_value(b) == n / 100);
    assert(a.last() == digit_char((n / 10) % 10));
    assert(digits_value(a) == n / 10);
    assert(s.last() == digit_char(n % 10));
}

} // verus!
