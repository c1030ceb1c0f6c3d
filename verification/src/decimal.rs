//! Decimal texts, with or without an exponent, counted in billionths.
//!
//! A text is digits, or digits on at least one side of a point, and may end in
//! `e` or `E` with an exponent behind it. What lies beyond the ninth decimal
//! place is cut off.
use crate::scalar::Chars;
use crate::text::{all_digits, ascii_lower, digits_value, is_digit, pieces, split_on, texts};
use vstd::arithmetic::div_mod::lemma_div_denominator;
use vstd::prelude::*;
use vstd::string::*;

verus! {

/// The size from which on sizes are told apart no longer: two to the 127th.
pub const TOP: u128 = 0x8000_0000_0000_0000_0000_0000_0000_0000;

/// A size, or `TOP` where it is larger.
pub open spec fn capped(n: nat) -> nat {
    if n > TOP {
        TOP as nat
    } else {
        n
    }
}

/// A power of ten.
pub open spec fn ten_to(n: nat) -> nat
    decreases n,
{
    if n == 0 {
        1
    } else {
        10 * ten_to((n - 1) as nat)
    }
}

/// A number with its decimal point moved, to the right where `places` is
/// positive, and cut off to a whole number.
pub open spec fn shifted(n: nat, places: int) -> nat {
    if places >= 0 {
        n * ten_to(places as nat)
    } else {
        n / ten_to((-places) as nat)
    }
}

/// Whether a character sets off an exponent.
pub open spec fn is_mark(c: char) -> bool {
    c == 'e' || c == 'E'
}

/// How many characters stand before the first mark, or in the whole text where
/// it has none.
pub open spec fn before_mark(s: Chars) -> nat
    decreases s.len(),
{
    if s.len() == 0 {
        0
    } else {
        let k = before_mark(s.drop_last());
        if k + 1 < s.len() || is_mark(s.last()) {
            k
        } else {
            s.len()
        }
    }
}

/// The integer that an optional sign and at least one digit denote.
pub open spec fn exponent_value(s: Chars) -> Option<int> {
    let signed = s.len() > 0 && (s[0] == '-' || s[0] == '+');
    let body = if signed {
        s.skip(1)
    } else {
        s
    };
    if body.len() == 0 || !all_digits(body) {
        None
    } else if signed && s[0] == '-' {
        Some(-(digits_value(body) as int))
    } else {
        Some(digits_value(body) as int)
    }
}

/// The billionths that an unsigned decimal text denotes.
pub open spec fn billionths(s: Chars) -> Option<nat> {
    let k = before_mark(s);
    let parts = pieces(s.take(k as int), '.');
    let fraction = if parts.len() == 2 {
        parts[1]
    } else {
        Seq::<char>::empty()
    };
    let all = parts[0] + fraction;
    let exponent = if k == s.len() {
        Some(0int)
    } else {
        exponent_value(s.skip(k as int + 1))
    };
    if parts.len() > 2 || all.len() == 0 || !all_digits(all) {
        None
    } else {
        match exponent {
            Some(e) => Some(shifted(digits_value(all), 9 - fraction.len() + e)),
            None => None,
        }
    }
}

/// Whether a text reads as a word, whatever the case of its letters.
pub open spec fn reads_as(s: Chars, word: Chars) -> bool {
    s.map_values(|c: char| ascii_lower(c)) == word
}

/// Whether a text names the number without end.
pub open spec fn is_endless(s: Chars) -> bool {
    reads_as(s, "inf"@) || reads_as(s, "infinity"@)
}

proof fn lemma_ten_to_positive(n: nat)
    ensures
        ten_to(n) >= 1,
    decreases n,
{
    if n > 0 {
        lemma_ten_to_positive((n - 1) as nat);
    }
}

proof fn lemma_ten_to_grows(a: nat, b: nat)
    requires
        a <= b,
    ensures
        ten_to(a) <= ten_to(b),
    decreases b,
{
    if a < b {
        lemma_ten_to_grows(a, (b - 1) as nat);
    }
}

/// Forty places raise every positive number to the top.
proof fn lemma_raised_to_the_top(n: nat, places: nat)
    requires
        n >= 1,
        places >= 40,
    ensures
        n * ten_to(places) >= TOP,
{
    lemma_ten_to_grows(40, places);
    assert(ten_to(40) >= TOP) by {
        reveal_with_fuel(ten_to, 41);
    }
    let t = ten_to(places);
    assert(n * t >= t) by (nonlinear_arith)
        requires
            n >= 1,
    ;
}

/// A product is capped alike whether or not its first factor was.
proof fn lemma_capped_product(n: nat, t: nat)
    requires
        t >= 1,
    ensures
        capped(n * t) == capped(capped(n) * t),
{
    if n > TOP {
        assert(n * t >= n) by (nonlinear_arith)
            requires
                t >= 1,
        ;
        assert(TOP * t >= TOP) by (nonlinear_arith)
            requires
                t >= 1,
        ;
    }
}

/// To divide by a power of ten is to drop digits.
proof fn lemma_dropped_digits(s: Chars, places: nat)
    requires
        all_digits(s),
    ensures
        digits_value(s) / ten_to(places) == digits_value(
            s.take(
                if places >= s.len() {
                    0
                } else {
                    s.len() - places
                },
            ),
        ),
    decreases places,
{
    let t = ten_to(places);
    lemma_ten_to_positive(places);
    if s.len() == 0 {
        assert(s.take(0) =~= s);
        assert(0nat / t == 0) by (nonlinear_arith)
            requires
                t >= 1,
        ;
    } else if places == 0 {
        assert(s.take(s.len() as int) =~= s);
    } else {
        let shorter = s.drop_last();
        let fewer = (places - 1) as nat;
        assert(all_digits(shorter));
        lemma_dropped_digits(shorter, fewer);
        lemma_ten_to_positive(fewer);
        assert(is_digit(s.last()));
        let x = digits_value(s);
        assert(x / 10 == digits_value(shorter));
        lemma_div_denominator(x as int, 10, ten_to(fewer) as int);
        let n: int = if fewer >= shorter.len() {
            0
        } else {
            shorter.len() - fewer
        };
        assert(shorter.take(n) =~= s.take(n));
    }
}

/// Where the first mark stands.
fn find_mark(s: &str) -> (r: usize)
    ensures
        r == before_mark(s@),
        r <= s@.len(),
{
    let n: usize = s.unicode_len();
    let mut i: usize = 0;
    proof {
        assert(s@.take(0).len() == 0);
    }
    while i < n
        invariant
            i <= n,
            n == s@.len(),
            before_mark(s@.take(i as int)) == i,
        decreases n - i,
    {
        let c: char = s.get_char(i);
        let ghost t = s@.take(i + 1);
        proof {
            assert(t.drop_last() =~= s@.take(i as int));
            assert(t.last() == c);
        }
        if c == 'e' || c == 'E' {
            proof {
                lemma_mark_stays(s@, i as nat);
            }
            return i;
        }
        i = i + 1;
    }
    proof {
        assert(s@.take(n as int) =~= s@);
    }
    n
}

/// A mark is the first one however the text goes on.
proof fn lemma_mark_stays(s: Chars, k: nat)
    requires
        k < s.len(),
        before_mark(s.take(k as int + 1)) == k,
    ensures
        before_mark(s) == k,
    decreases s.len(),
{
    if s.len() == k + 1 {
        assert(s.take(k as int + 1) =~= s);
    } else {
        assert(s.drop_last().take(k as int + 1) =~= s.take(k as int + 1));
        lemma_mark_stays(s.drop_last(), k);
    }
}

/// Whether a text consists of digits.
fn is_digits(s: &str) -> (r: bool)
    ensures
        r == all_digits(s@),
{
    let n: usize = s.unicode_len();
    let mut i: usize = 0;
    while i < n
        invariant
            i <= n,
            n == s@.len(),
            forall|j: int| 0 <= j < i ==> is_digit(#[trigger] s@[j]),
        decreases n - i,
    {
        let code: u32 = s.get_char(i) as u32;
        if code < 48 || code > 57 {
            assert(!is_digit(s@[i as int]));
            return false;
        }
        i = i + 1;
    }
    true
}

/// Ten times a capped size and one digit more.
fn next_size(size: u128, digit: u32) -> (r: u128)
    requires
        size <= TOP,
        digit <= 9,
    ensures
        r == capped((size * 10 + digit) as nat),
{
    if size > TOP / 10 {
        TOP
    } else {
        let next: u128 = size * 10 + digit as u128;
        if next > TOP {
            TOP
        } else {
            next
        }
    }
}

/// The number that the first `keep` digits of a text denote, capped.
fn read_digits(s: &str, keep: usize) -> (r: u128)
    requires
        all_digits(s@),
        keep <= s@.len(),
    ensures
        r == capped(digits_value(s@.take(keep as int))),
{
    let mut size: u128 = 0;
    let mut i: usize = 0;
    proof {
        assert(s@.take(0).len() == 0);
    }
    while i < keep
        invariant
            i <= keep <= s@.len(),
            all_digits(s@),
            size == capped(digits_value(s@.take(i as int))),
        decreases keep - i,
    {
        let c: char = s.get_char(i);
        proof {
            let t = s@.take(i + 1);
            assert(t.drop_last() =~= s@.take(i as int));
            assert(t.last() == c);
            assert(is_digit(s@[i as int]));
        }
        size = next_size(size, c as u32 - 48);
        i = i + 1;
    }
    size
}

/// A capped size with zeros appended, capped.
fn raise(size: u128, places: u128) -> (r: u128)
    requires
        size <= TOP,
    ensures
        r == capped(size as nat * ten_to(places as nat)),
{
    let mut r: u128 = size;
    let mut i: u128 = 0;
    while i < places && r != 0 && r != TOP
        invariant
            i <= places,
            r <= TOP,
            capped(size as nat * ten_to(places as nat)) == capped(
                r as nat * ten_to((places - i) as nat),
            ),
        decreases places - i,
    {
        let ghost before = r as nat;
        let ghost t = ten_to((places - i - 1) as nat);
        r = next_size(r, 0);
        proof {
            lemma_ten_to_positive((places - i - 1) as nat);
            assert(before * (10 * t) == (before * 10) * t) by (nonlinear_arith);
            lemma_capped_product(before * 10, t);
        }
        i = i + 1;
    }
    proof {
        let t = ten_to((places - i) as nat);
        lemma_ten_to_positive((places - i) as nat);
        assert(0 * t == 0);
        assert(TOP * t >= TOP) by (nonlinear_arith)
            requires
                t >= 1,
        ;
        if i == places {
            assert(ten_to(0) == 1);
            assert(r as nat * t == r) by (nonlinear_arith)
                requires
                    t == 1,
            ;
        }
    }
    r
}

/// An exponent as its sign and its size.
struct Exponent {
    below: bool,
    size: u128,
}

/// Reads an exponent. Its size is capped.
fn parse_exponent(s: &str) -> (r: Option<Exponent>)
    ensures
        match exponent_value(s@) {
            Some(e) => r matches Some(x) && x.size == capped(
                if e < 0 {
                    (-e) as nat
                } else {
                    e as nat
                },
            ) && (e < 0 ==> x.below) && (e > 0 ==> !x.below),
            None => r is None,
        },
{
    let n: usize = s.unicode_len();
    if n == 0 {
        return None;
    }
    let c: char = s.get_char(0);
    let from: usize = if c == '-' || c == '+' {
        1
    } else {
        0
    };
    let body = s.substring_char(from, n);
    let ghost tail = if from == 1 {
        s@.skip(1)
    } else {
        s@
    };
    proof {
        assert(body@ =~= tail);
    }
    if from == n || !is_digits(body) {
        return None;
    }
    let size = read_digits(body, n - from);
    proof {
        assert(body@.take(n - from) =~= body@);
    }
    Some(Exponent { below: c == '-', size })
}

/// Moves the decimal point of a run of digits, of which `behind` stand behind
/// it, by an exponent and nine places more.
fn shift_digits(all: &str, behind: usize, exponent: Exponent, e: Ghost<int>) -> (r: u128)
    requires
        all_digits(all@),
        behind <= all@.len(),
        exponent.size == capped(
            if e@ < 0 {
                (-e@) as nat
            } else {
                e@ as nat
            },
        ),
        e@ < 0 ==> exponent.below,
        e@ > 0 ==> !exponent.below,
    ensures
        r == capped(shifted(digits_value(all@), 9 - behind + e@)),
{
    let n: usize = all.unicode_len();
    let z: u128 = exponent.size;
    let f: u128 = behind as u128;
    let ghost v = digits_value(all@);
    let ghost places = 9 - behind + e@;
    let up: u128;
    let down: u128;
    if exponent.below {
        if f + z <= 9 {
            up = 9 - f - z;
            down = 0;
        } else {
            up = 0;
            down = f + z - 9;
        }
    } else {
        if f <= z + 9 {
            up = z + 9 - f;
            down = 0;
        } else {
            up = 0;
            down = f - z - 9;
        }
    }
    if down == 0 {
        let size = read_digits(all, n);
        proof {
            assert(all@.take(n as int) =~= all@);
            lemma_ten_to_positive(up as nat);
            lemma_capped_product(v, ten_to(up as nat));
            if places != up {
                if v == 0 {
                    assert(0 * ten_to(up as nat) == 0);
                    assert(0 * ten_to(places as nat) == 0);
                } else {
                    lemma_raised_to_the_top(v, up as nat);
                    lemma_raised_to_the_top(v, places as nat);
                }
            } else if up == 0 {
                assert(ten_to(0) == 1);
            }
        }
        return raise(size, up);
    }
    let keep: usize = if down >= n as u128 {
        0
    } else {
        n - down as usize
    };
    proof {
        lemma_dropped_digits(all@, (-places) as nat);
    }
    read_digits(all, keep)
}

/// Reads an unsigned decimal text. The result is capped.
pub fn parse_billionths(s: &str) -> (r: Option<u128>)
    ensures
        match billionths(s@) {
            Some(v) => r matches Some(u) && u == capped(v),
            None => r is None,
        },
{
    let n: usize = s.unicode_len();
    let k: usize = find_mark(s);
    let front = s.substring_char(0, k);
    proof {
        assert(front@ =~= s@.take(k as int));
    }
    let parts = split_on(front, '.');
    let ghost p = pieces(s@.take(k as int), '.');
    proof {
        crate::text::lemma_pieces_nonempty(s@.take(k as int), '.');
        assert(texts(parts@) == p);
        assert(forall|i: int| 0 <= i < parts@.len() ==> (#[trigger] parts@[i])@ == p[i]);
    }
    if parts.len() > 2 {
        return None;
    }
    let mut all = String::new();
    all.append(parts[0].as_str());
    let mut behind: usize = 0;
    if parts.len() == 2 {
        all.append(parts[1].as_str());
        behind = parts[1].as_str().unicode_len();
    }
    let ghost fraction = if p.len() == 2 {
        p[1]
    } else {
        Seq::<char>::empty()
    };
    proof {
        assert(all@ =~= p[0] + fraction);
    }
    if all.as_str().unicode_len() == 0 || !is_digits(all.as_str()) {
        return None;
    }
    if k == n {
        return Some(
            shift_digits(all.as_str(), behind, Exponent { below: false, size: 0 }, Ghost(0int)),
        );
    }
    let back = s.substring_char(k + 1, n);
    proof {
        assert(back@ =~= s@.skip(k + 1));
    }
    match parse_exponent(back) {
        Some(exponent) => Some(
            shift_digits(all.as_str(), behind, exponent, Ghost(exponent_value(back@)->0)),
        ),
        None => None,
    }
}

/// Whether a text reads as a word in lower case.
fn spells(s: &str, word: &str) -> (r: bool)
    ensures
        r == reads_as(s@, word@),
{
    let n: usize = s.unicode_len();
    let ghost low = s@.map_values(|c: char| ascii_lower(c));
    if n != word.unicode_len() {
        assert(low.len() != word@.len());
        return false;
    }
    let mut i: usize = 0;
    while i < n
        invariant
            i <= n,
            n == s@.len(),
            n == word@.len(),
            low == s@.map_values(|c: char| ascii_lower(c)),
            forall|j: int| 0 <= j < i ==> low[j] == word@[j],
        decreases n - i,
    {
        let c: u32 = s.get_char(i) as u32;
        let d: u32 = word.get_char(i) as u32;
        let lower: u32 = if 65 <= c && c <= 90 {
            c + 32
        } else {
            c
        };
        if lower != d {
            assert(low[i as int] != word@[i as int]);
            return false;
        }
        i = i + 1;
    }
    assert(low =~= word@);
    true
}

/// Whether a text names the number without end.
pub fn names_endless(s: &str) -> (r: bool)
    ensures
        r == is_endless(s@),
{
    spells(s, "inf") || spells(s, "infinity")
}

} // verus!
