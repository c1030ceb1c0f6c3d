//! Decimal fixed-point numbers, sorting, tables and texts.
use option_arb::fixed::{Fixed, SCALE};
use option_arb::model::{strike_key, BookTop};
use option_arb::rank::{sort_descending, Ranked};
use option_arb::scalar::{ratio, zero, Scalar};
use option_arb::scan::{close_legs, conversion_profit, open_legs, reversal_profit};
use option_arb::table::Table;
use option_arb::text::{decimal_text, is_blank, is_space, join, less_text, parse_signed, parse_unsigned, split_on, trim_trailing};

fn fixed(n: i128) -> Fixed {
    Fixed { units: n * SCALE }
}

#[test]
fn fixed_sums_are_exact() {
    assert_eq!(fixed(1).plus(fixed(2)), fixed(3));
    assert_eq!(fixed(1).minus(fixed(2)), fixed(-1));
    assert_eq!(ratio::<Fixed>(1, 10).plus(ratio(2, 10)), ratio(3, 10));
    assert_eq!(zero::<Fixed>(), fixed(0));
    let top = Fixed { units: i128::MAX };
    assert_eq!(top.plus(fixed(1)), top);
    assert!(!top.finite());
}

#[test]
fn fixed_products_are_cut_off() {
    assert_eq!(ratio::<Fixed>(3, 2).times(fixed(2)), fixed(3));
    assert_eq!(fixed(1).over(fixed(3)), Fixed { units: 333_333_333 });
    assert_eq!(fixed(-1).over(fixed(3)), Fixed { units: -333_333_333 });
    assert_eq!(Fixed { units: 1 }.times(ratio(1, 2)), fixed(0));
}

#[test]
fn fixed_texts_are_read_and_printed() {
    assert_eq!(Fixed::parse("12.5"), Some(Fixed { units: 12_500_000_000 }));
    assert_eq!(Fixed::parse("-0.000000001"), Some(Fixed { units: -1 }));
    assert_eq!(fixed(64_000).fixed4(), "64000.0000");
    assert_eq!(ratio::<Fixed>(-1, 8).fixed4(), "-0.1250");
    assert_eq!(ratio::<Fixed>(5, 2).round(), 3);
}

#[test]
fn fixed_texts_may_have_an_exponent_and_many_places() {
    let units = |text: &str| Fixed::parse(text).map(|x| x.units);
    assert_eq!(units("1e-4"), Some(100_000));
    assert_eq!(units("1E3"), Some(1_000 * SCALE));
    assert_eq!(units("-2.5e+2"), Some(-250 * SCALE));
    assert_eq!(units("1.23456789012"), Some(1_234_567_890));
    assert_eq!(units("-0.9999999999"), Some(-999_999_999));
    assert_eq!(units(".5"), Some(500_000_000));
    assert_eq!(units("5."), Some(5 * SCALE));
    assert_eq!(units("+7"), Some(7 * SCALE));
    assert_eq!(units("12345e-11"), Some(123));
    assert_eq!(units("0.00000000012345e12"), Some(123_450_000_000));
    assert_eq!(units("1e-99999999999999999999999999999999999999999999"), Some(0));
    assert_eq!(units("0e99999999999999999999999999999999999999999999"), Some(0));
    assert_eq!(units("000000000000000000000000000000000000000000001"), Some(SCALE));
    assert_eq!(units("100000000000000000000000000000000000000000000e-44"), Some(SCALE));
}

#[test]
fn fixed_texts_beyond_the_range_give_its_ends() {
    for text in ["1e30", "9e99999999999999999999999999999999999999999999", "inf", "Infinity", "+INF"] {
        assert_eq!(Fixed::parse(text), Some(Fixed { units: i128::MAX }));
        assert!(!Fixed::parse(text).unwrap().finite());
    }
    for text in ["-1e30", "-inf", "-infinity"] {
        assert_eq!(Fixed::parse(text), Some(Fixed { units: i128::MIN }));
    }
    let top = "170141183460469231731687303715.884105727";
    assert_eq!(Fixed::parse(top), Some(Fixed { units: i128::MAX }));
    let below = "170141183460469231731687303715.884105726";
    assert_eq!(Fixed::parse(below), Some(Fixed { units: i128::MAX - 1 }));
}

#[test]
fn fixed_refuses_what_is_no_number() {
    let refused = [
        "", "x", "+", "-", ".", "-.", "1.2.3", "1e", "e5", ".e5", "1e+", "1e1.5", "1e2e3", "--1", "+-1", " 1", "1 ",
        "1_000", "0x10", "infinit", "in", "1,5",
    ];
    for text in refused {
        assert_eq!(Fixed::parse(text), None, "{text}");
        assert!(text.parse::<f64>().is_err(), "{text}");
    }
    assert_eq!(Fixed::parse("nan"), None);
}

#[test]
fn fixed_texts_agree_with_floating_point_numbers() {
    let texts = ["0", "1", "-3.25", "6.5e4", "1e-3", "12.75E2", "0.5", "-.125", "4.", "1e9", "123456789.5"];
    for text in texts {
        let float: f64 = text.parse().unwrap();
        assert_eq!(Fixed::parse(text), Some(Fixed { units: (float * 1e9) as i128 }), "{text}");
    }
}

#[test]
fn white_space_is_that_of_unicode() {
    for c in '\u{0}'..=char::MAX {
        assert_eq!(is_space(c), c.is_whitespace(), "{c:?}");
    }
    assert!(is_blank("\u{3000} \t"));
    assert!(!is_blank(" \u{200b}"));
}

#[test]
fn fixed_strike_cancels_exactly() {
    for k in [1, 60_000, 1_000_000] {
        let opened = reversal_profit(fixed(60_000), fixed(1_200), fixed(1_000), fixed(k));
        let closed = conversion_profit(fixed(1_000), fixed(1_010), fixed(k), fixed(60_000));
        assert_eq!(opened.plus(closed), fixed(190));
    }
}

#[test]
fn fixed_round_trip_on_one_set_of_books_never_gains() {
    let book = |bid: i128, ask: i128| BookTop {
        bid: fixed(bid),
        bid_qty: fixed(1),
        ask: fixed(ask),
        ask_qty: fixed(1),
        ts_ms: 0,
    };
    let (call, put, spot) = (book(990, 1_000), book(1_195, 1_200), book(60_000, 60_003));
    for kind in ["reversal", "conversion"] {
        for k in [1, 60_000, 90_000] {
            let opened = open_legs(kind, &call, &put, &spot, fixed(k)).unwrap();
            let closed = close_legs(kind, &call, &put, &spot, fixed(k)).unwrap();
            assert_eq!(opened.gross.plus(closed.gross), fixed(-18));
        }
    }
}

#[test]
fn fixed_strike_keys_follow_and_tell_strikes_apart() {
    assert_eq!(strike_key(fixed(145_000)), 145_000_000);
    assert_eq!(strike_key(fixed(-7)), -7_000);
    assert_eq!(strike_key(Fixed { units: 1_000_000 }), 1);
    assert_eq!(strike_key(Fixed { units: 1_499_999 }), 1);
    assert_eq!(strike_key(Fixed { units: 1_500_000 }), 2);
    let strikes = [-2_500_000_i128, -1, 0, 1, 999_999, 2_000_000, 3_000_000_000, i128::MAX];
    for pair in strikes.windows(2) {
        assert!(strike_key(Fixed { units: pair[0] }) <= strike_key(Fixed { units: pair[1] }));
    }
}

struct Item(i128, u8);

impl Ranked<Fixed> for Item {
    fn rank(&self) -> Fixed {
        fixed(self.0)
    }

    fn rank_spec(&self) -> Fixed {
        self.rank()
    }
}

#[test]
fn items_are_sorted_by_falling_number_with_ties_in_order() {
    let mut items = vec![Item(1, 0), Item(3, 1), Item(2, 2), Item(3, 3), Item(1, 4)];
    sort_descending::<Fixed, Item>(&mut items);
    let order: Vec<u8> = items.iter().map(|i| i.1).collect();
    assert_eq!(order, vec![1, 3, 2, 0, 4]);
}

#[test]
fn tables_keep_their_keys_in_order() {
    let mut t: Table<String, u32> = Table::new();
    for (i, k) in ["m", "a", "z", "ab"].iter().enumerate() {
        t.insert(k.to_string(), i as u32);
    }
    let keys: Vec<&str> = t.entries.iter().map(|e| e.0.as_str()).collect();
    assert_eq!(keys, vec!["a", "ab", "m", "z"]);
    t.insert("m".to_string(), 9);
    assert_eq!((t.len(), t.get(&"m".to_string())), (4, Some(&9)));
    assert_eq!(t.remove(&"a".to_string()), Some(1));
    assert_eq!(t.remove(&"a".to_string()), None);
    assert!(!t.contains(&"a".to_string()));
    assert_eq!(t.len(), 3);
}

#[test]
fn integers_are_printed_and_parsed() {
    assert_eq!(decimal_text(-170), "-170");
    assert_eq!(decimal_text(i64::MIN as i128), "-9223372036854775808");
    assert_eq!(parse_signed("-9223372036854775808"), Some(i64::MIN));
    assert_eq!(parse_signed("9223372036854775808"), None);
    assert_eq!(parse_signed("+7"), Some(7));
    assert_eq!(parse_signed("-"), None);
    assert_eq!(parse_unsigned("65535", 65_535), Some(65_535));
    assert_eq!(parse_unsigned("65536", 65_535), None);
    assert_eq!(parse_unsigned("-1", 65_535), None);
    assert_eq!(parse_unsigned("", 65_535), None);
}

#[test]
fn texts_are_cut_joined_and_compared() {
    assert_eq!(split_on("a--b", '-'), vec!["a", "", "b"]);
    assert_eq!(split_on("", '-'), vec![""]);
    assert_eq!(join(&vec!["a".to_string(), "b".to_string()], ", "), "a, b");
    assert_eq!(trim_trailing("x//", '/'), "x");
    assert!(less_text("a", "ab") && less_text("Z", "a") && !less_text("b", "a") && !less_text("a", "a"));
}
