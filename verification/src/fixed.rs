//! Decimal fixed-point numbers with nine decimal places.
//!
//! Sums and differences are exact until they leave the range; products and
//! quotients, and the numbers that texts denote, are cut off after the ninth
//! decimal place. What leaves the range becomes its nearest end, which is the
//! one sort of number here that is not finite.
use crate::decimal::{billionths, is_endless, names_endless, parse_billionths, TOP};
use crate::scalar::{Chars, Scalar};
use crate::text::{digit_char, digits, digits_text};
use vstd::prelude::*;
use vstd::string::*;

verus! {

/// How many units make one.
pub const SCALE: i128 = 1_000_000_000;

/// A decimal number, counted in units of a billionth.
#[derive(Clone, Copy, Debug, PartialEq, Eq, Structural)]
pub struct Fixed {
    pub units: i128,
}

/// The number of the range that is nearest to an integer.
pub open spec fn clamped(x: int) -> i128 {
    if x > i128::MAX {
        i128::MAX
    } else if x < i128::MIN {
        i128::MIN
    } else {
        x as i128
    }
}

/// A quotient cut off towards zero.
pub open spec fn quotient(n: int, d: int) -> int {
    if n >= 0 && d > 0 {
        n / d
    } else if n < 0 && d < 0 {
        (-n) / (-d)
    } else if n < 0 {
        -((-n) / d)
    } else {
        -(n / (-d))
    }
}

/// The size of an integer.
pub open spec fn magnitude(x: int) -> nat {
    if x < 0 {
        (-x) as nat
    } else {
        x as nat
    }
}

/// Four digits, with leading zeros.
pub open spec fn four_digits(n: nat) -> Chars {
    seq![
        digit_char(n / 1000),
        digit_char((n / 100) % 10),
        digit_char((n / 10) % 10),
        digit_char(n % 10),
    ]
}

/// The size of a number in ten-thousandths, rounded half up.
pub open spec fn ten_thousandths(units: int) -> nat {
    (magnitude(units) + 50_000) / 100_000
}

fn size_of(x: i128) -> (r: u128)
    ensures
        r == magnitude(x as int),
{
    if x < 0 {
        (-(x + 1)) as u128 + 1
    } else {
        x as u128
    }
}

impl Scalar for Fixed {
    open spec fn plus_spec(self, rhs: Self) -> Self {
        Fixed { units: clamped(self.units + rhs.units) }
    }

    open spec fn minus_spec(self, rhs: Self) -> Self {
        Fixed { units: clamped(self.units - rhs.units) }
    }

    /// The product of the units counts units of units, of which only what fits
    /// the range can be cut back.
    open spec fn times_spec(self, rhs: Self) -> Self {
        let p = self.units * rhs.units;
        if clamped(p) != p {
            Fixed { units: clamped(p) }
        } else {
            Fixed { units: quotient(p, SCALE as int) as i128 }
        }
    }

    open spec fn over_spec(self, rhs: Self) -> Self {
        let p = self.units * SCALE;
        if rhs.units == 0 {
            Fixed {
                units: if self.units > 0 {
                    i128::MAX
                } else if self.units < 0 {
                    i128::MIN
                } else {
                    0
                },
            }
        } else if clamped(p) != p {
            Fixed {
                units: if (p > 0) == (rhs.units > 0) {
                    i128::MAX
                } else {
                    i128::MIN
                },
            }
        } else {
            Fixed { units: clamped(quotient(p, rhs.units as int)) }
        }
    }

    open spec fn less_spec(self, rhs: Self) -> bool {
        self.units < rhs.units
    }

    open spec fn at_most_spec(self, rhs: Self) -> bool {
        self.units <= rhs.units
    }

    open spec fn least_spec(self, rhs: Self) -> Self {
        if rhs.units < self.units {
            rhs
        } else {
            self
        }
    }

    open spec fn finite_spec(self) -> bool {
        i128::MIN < self.units < i128::MAX
    }

    open spec fn of_int_spec(n: i128) -> Self {
        Fixed { units: clamped(n * SCALE) }
    }

    /// Half a unit is rounded away from zero.
    open spec fn round_spec(self) -> i64 {
        let whole = (magnitude(self.units as int) + 500_000_000) / 1_000_000_000;
        let signed = if self.units < 0 {
            -(whole as int)
        } else {
            whole as int
        };
        if signed > i64::MAX {
            i64::MAX
        } else if signed < i64::MIN {
            i64::MIN
        } else {
            signed as i64
        }
    }

    /// An optional sign and a decimal text. No number here stands for `nan`.
    open spec fn parse_spec(text: Chars) -> Option<Self> {
        let signed = text.len() > 0 && (text[0] == '-' || text[0] == '+');
        let below = signed && text[0] == '-';
        let body = if signed {
            text.skip(1)
        } else {
            text
        };
        if is_endless(body) {
            Some(
                Fixed {
                    units: if below {
                        i128::MIN
                    } else {
                        i128::MAX
                    },
                },
            )
        } else {
            match billionths(body) {
                Some(v) => Some(
                    Fixed {
                        units: clamped(
                            if below {
                                -(v as int)
                            } else {
                                v as int
                            },
                        ),
                    },
                ),
                None => None,
            }
        }
    }

    open spec fn fixed4_spec(self) -> Chars {
        let q = ten_thousandths(self.units as int);
        let sign = if self.units < 0 {
            seq!['-']
        } else {
            Seq::<char>::empty()
        };
        sign + digits(q / 10_000) + seq!['.'] + four_digits(q % 10_000)
    }

    proof fn less_is_strict(a: Self, b: Self) {
    }

    proof fn at_most_is_ordered(a: Self, b: Self) {
    }

    proof fn at_most_is_transitive(a: Self, b: Self, c: Self) {
    }

    proof fn at_most_is_total(a: Self, b: Self) {
    }

    proof fn least_is_lower_bound(a: Self, b: Self) {
    }

    fn plus(self, rhs: Self) -> (r: Self) {
        let units: i128 = match self.units.checked_add(rhs.units) {
            Some(v) => v,
            None => if self.units > 0 {
                i128::MAX
            } else {
                i128::MIN
            },
        };
        Fixed { units }
    }

    fn minus(self, rhs: Self) -> (r: Self) {
        let units: i128 = match self.units.checked_sub(rhs.units) {
            Some(v) => v,
            None => if self.units >= 0 {
                i128::MAX
            } else {
                i128::MIN
            },
        };
        Fixed { units }
    }

    fn times(self, rhs: Self) -> (r: Self) {
        match self.units.checked_mul(rhs.units) {
            Some(p) => {
                let units: i128 = match p.checked_div(SCALE) {
                    Some(q) => q,
                    None => p,
                };
                Fixed { units }
            },
            None => {
                let a: i128 = self.units;
                let b: i128 = rhs.units;
                proof {
                    assert((a > 0) == (b > 0) && a != 0 && b != 0 ==> a * b > 0) by (nonlinear_arith);
                    assert((a > 0) != (b > 0) && a != 0 && b != 0 ==> a * b < 0) by (nonlinear_arith);
                    assert(a == 0 || b == 0 ==> a * b == 0) by (nonlinear_arith);
                }
                if (a > 0) == (b > 0) {
                    Fixed { units: i128::MAX }
                } else {
                    Fixed { units: i128::MIN }
                }
            },
        }
    }

    fn over(self, rhs: Self) -> (r: Self) {
        if rhs.units == 0 {
            let units: i128 = if self.units > 0 {
                i128::MAX
            } else if self.units < 0 {
                i128::MIN
            } else {
                0
            };
            return Fixed { units };
        }
        match self.units.checked_mul(SCALE) {
            Some(p) => {
                let units: i128 = match p.checked_div(rhs.units) {
                    Some(q) => q,
                    None => i128::MAX,
                };
                proof {
                    let x = p as int;
                    let d = rhs.units as int;
                    lemma_quotient_bound(x, d);
                }
                Fixed { units }
            },
            None => if (self.units > 0) == (rhs.units > 0) {
                Fixed { units: i128::MAX }
            } else {
                Fixed { units: i128::MIN }
            },
        }
    }

    fn less(self, rhs: Self) -> (r: bool) {
        self.units < rhs.units
    }

    fn at_most(self, rhs: Self) -> (r: bool) {
        self.units <= rhs.units
    }

    fn least(self, rhs: Self) -> (r: Self) {
        if rhs.units < self.units {
            rhs
        } else {
            self
        }
    }

    fn finite(self) -> (r: bool) {
        i128::MIN < self.units && self.units < i128::MAX
    }

    fn of_int(n: i128) -> (r: Self) {
        let units: i128 = match n.checked_mul(SCALE) {
            Some(v) => v,
            None => if n > 0 {
                i128::MAX
            } else {
                i128::MIN
            },
        };
        Fixed { units }
    }

    fn round(self) -> (r: i64) {
        let whole: u128 = (size_of(self.units) + 500_000_000) / 1_000_000_000;
        if self.units < 0 {
            if whole > 0x8000_0000_0000_0000 {
                i64::MIN
            } else {
                (-(whole as i128)) as i64
            }
        } else {
            if whole > 0x7fff_ffff_ffff_ffff {
                i64::MAX
            } else {
                whole as i64
            }
        }
    }

    fn parse(text: &str) -> (r: Option<Self>) {
        let n: usize = text.unicode_len();
        let mut from: usize = 0;
        let mut below = false;
        if n > 0 {
            let c: char = text.get_char(0);
            if c == '-' || c == '+' {
                from = 1;
                below = c == '-';
            }
        }
        let body = text.substring_char(from, n);
        proof {
            assert(from == 0 ==> body@ =~= text@);
            assert(from == 1 ==> body@ =~= text@.skip(1));
        }
        let size: u128 = if names_endless(body) {
            TOP
        } else {
            match parse_billionths(body) {
                Some(v) => v,
                None => {
                    return None;
                },
            }
        };
        let units: i128 = if size >= TOP {
            if below {
                i128::MIN
            } else {
                i128::MAX
            }
        } else if below {
            -(size as i128)
        } else {
            size as i128
        };
        Some(Fixed { units })
    }

    fn fixed4(self) -> (r: String) {
        let q: u128 = (size_of(self.units) + 50_000) / 100_000;
        let mut out = String::new();
        if self.units < 0 {
            out.append("-");
        }
        proof {
            reveal_strlit("-");
            reveal_strlit(".");
            assert(self.units < 0 ==> out@ =~= seq!['-']);
        }
        let whole = digits_text(q / 10_000);
        out.append(whole.as_str());
        out.append(".");
        let rest: u128 = q % 10_000;
        let a = digits_text(rest / 1000);
        let b = digits_text((rest / 100) % 10);
        let c = digits_text((rest / 10) % 10);
        let d = digits_text(rest % 10);
        let ghost before = out@;
        out.append(a.as_str());
        out.append(b.as_str());
        out.append(c.as_str());
        out.append(d.as_str());
        proof {
            assert(out@ =~= before + four_digits(rest as nat));
            assert(out@ =~= self.fixed4_spec());
        }
        out
    }
}

/// A quotient is no larger than its dividend.
proof fn lemma_quotient_bound(n: int, d: int)
    requires
        d != 0,
    ensures
        magnitude(quotient(n, d)) <= magnitude(n),
{
    let a = magnitude(n) as int;
    let b = magnitude(d) as int;
    assert(0 <= a / b <= a) by (nonlinear_arith)
        requires
            a >= 0,
            b >= 1,
    ;
}

} // verus!
