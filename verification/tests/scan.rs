//! The position scanner on floating-point numbers.
use option_arb::config::Config;
use option_arb::model::{
    clock_ms, now_ms, strike_key, BookTop, ExpiryEntry, Position, Quotes, StrikePair, Universe,
};
use option_arb::scalar::{Chars, Scalar};
use option_arb::scan::{
    annualize, annualize_over_days, close_legs, conversion_profit, days_between, fate_of, hms, open_conversion,
    open_legs, open_reversal, opening_of, pos_id, pos_key, reversal_profit, settle_position, settlement_price,
    trading_fee_per_btc, Fate, ScanRules,
};
use option_arb::scanner::{shows_summary, Scanner};
use option_arb::table::Table;

/// A floating-point number.
#[derive(Clone, Copy, Debug, PartialEq)]
struct F(f64);

impl Scalar for F {
    fn plus(self, rhs: F) -> F {
        F(self.0 + rhs.0)
    }

    fn minus(self, rhs: F) -> F {
        F(self.0 - rhs.0)
    }

    fn times(self, rhs: F) -> F {
        F(self.0 * rhs.0)
    }

    fn over(self, rhs: F) -> F {
        F(self.0 / rhs.0)
    }

    fn less(self, rhs: F) -> bool {
        self.0 < rhs.0
    }

    fn at_most(self, rhs: F) -> bool {
        self.0 <= rhs.0
    }

    fn least(self, rhs: F) -> F {
        F(self.0.min(rhs.0))
    }

    fn finite(self) -> bool {
        self.0.is_finite()
    }

    fn of_int(n: i128) -> F {
        F(n as f64)
    }

    fn round(self) -> i64 {
        self.0.round() as i64
    }

    fn parse(text: &str) -> Option<F> {
        text.parse().ok().map(F)
    }

    fn fixed4(self) -> String {
        format!("{:.4}", self.0)
    }

    fn plus_spec(self, rhs: F) -> F {
        self.plus(rhs)
    }

    fn minus_spec(self, rhs: F) -> F {
        self.minus(rhs)
    }

    fn times_spec(self, rhs: F) -> F {
        self.times(rhs)
    }

    fn over_spec(self, rhs: F) -> F {
        self.over(rhs)
    }

    fn less_spec(self, rhs: F) -> bool {
        self.less(rhs)
    }

    fn at_most_spec(self, rhs: F) -> bool {
        self.at_most(rhs)
    }

    fn least_spec(self, rhs: F) -> F {
        self.least(rhs)
    }

    fn finite_spec(self) -> bool {
        self.finite()
    }

    fn of_int_spec(n: i128) -> F {
        F::of_int(n)
    }

    fn round_spec(self) -> i64 {
        self.round()
    }

    fn parse_spec(_text: Chars) -> Option<F> {
        unreachable!("only contracts speak of it")
    }

    fn fixed4_spec(self) -> Chars {
        unreachable!("only contracts speak of it")
    }

    fn less_is_strict(_a: F, _b: F) {}

    fn at_most_is_ordered(_a: F, _b: F) {}

    fn at_most_is_transitive(_a: F, _b: F, _c: F) {}

    fn at_most_is_total(_a: F, _b: F) {}

    fn least_is_lower_bound(_a: F, _b: F) {}
}

fn book(bid: f64, bid_qty: f64, ask: f64, ask_qty: f64) -> BookTop<F> {
    BookTop {
        bid: F(bid),
        bid_qty: F(bid_qty),
        ask: F(ask),
        ask_qty: F(ask_qty),
        ts_ms: 0,
    }
}

#[test]
fn reversal_formula() {
    assert!((reversal_profit(F(60000.0), F(1200.0), F(1000.0), F(60000.0)).0 - 200.0).abs() < 1e-9);
}

#[test]
fn conversion_formula() {
    assert!((conversion_profit(F(1000.0), F(800.0), F(60000.0), F(60000.0)).0 - 200.0).abs() < 1e-9);
}

#[test]
fn open_reversal_picks_gross_and_qty() {
    let call = book(950.0, 5.0, 1000.0, 2.0);
    let put = book(1200.0, 3.0, 1250.0, 4.0);
    let spot = book(60000.0, 1.5, 60001.0, 1.0);
    let ol = open_reversal(&call, &put, &spot, F(60000.0)).unwrap();
    assert!((ol.gross.0 - 200.0).abs() < 1e-9);
    assert!((ol.qty.0 - 1.5).abs() < 1e-9);
}

#[test]
fn no_open_when_efficient() {
    let call = book(990.0, 1.0, 1010.0, 1.0);
    let put = book(990.0, 1.0, 1010.0, 1.0);
    let spot = book(60000.0, 1.0, 60001.0, 1.0);
    let (sf, of) = (F(0.00025), F(0.0025));
    let rev = open_reversal(&call, &put, &spot, F(60000.0)).unwrap();
    let conv = open_conversion(&call, &put, &spot, F(60000.0)).unwrap();
    assert!(rev.gross.0 - trading_fee_per_btc(rev.spot, rev.call, rev.put, sf, of).0 <= 0.0);
    assert!(conv.gross.0 - trading_fee_per_btc(conv.spot, conv.call, conv.put, sf, of).0 <= 0.0);
}

#[test]
fn open_fee_deducted() {
    let call = book(950.0, 5.0, 1000.0, 2.0);
    let put = book(1200.0, 3.0, 1250.0, 4.0);
    let spot = book(60000.0, 1.5, 60001.0, 1.0);
    let ol = open_reversal(&call, &put, &spot, F(60000.0)).unwrap();
    let (sf, of) = (0.00025, 0.0025);
    let fee = trading_fee_per_btc(ol.spot, ol.call, ol.put, F(sf), F(of)).0;
    let expected_fee = 60000.0 * sf + (1000.0 + 1200.0) * of;
    assert!((fee - expected_fee).abs() < 1e-9);
    assert!((ol.gross.0 - fee - (200.0 - expected_fee)).abs() < 1e-9);
}

#[test]
fn close_trigger_at_discount_with_six_fees() {
    let (sf, of) = (F(0.00025), F(0.0025));
    let k = F(60000.0);
    let o_call = book(950.0, 5.0, 1000.0, 2.0);
    let o_put = book(1200.0, 3.0, 1250.0, 4.0);
    let o_spot = book(60000.0, 1.5, 60001.0, 1.0);
    let ol = open_reversal(&o_call, &o_put, &o_spot, k).unwrap();
    let open_fee = trading_fee_per_btc(ol.spot, ol.call, ol.put, sf, of).0;
    let open_net = ol.gross.0 - open_fee;
    let open_rate = open_net / ol.spot.0;
    let target = 0.8 * open_rate;

    let c_call = book(1000.0, 5.0, 1050.0, 5.0);
    let c_put = book(950.0, 5.0, 1010.0, 5.0);
    let c_spot = book(59999.0, 5.0, 60000.0, 5.0);
    let cl = close_legs("reversal", &c_call, &c_put, &c_spot, k).unwrap();
    let close_fee = trading_fee_per_btc(cl.spot, cl.call, cl.put, sf, of).0;
    let roundtrip_net = ol.gross.0 + cl.gross.0 - open_fee - close_fee;
    let rate = roundtrip_net / ol.spot.0;

    assert!((cl.gross.0 - (-10.0)).abs() < 1e-9);
    assert!(rate >= target, "rate={rate} target={target}");
    let six_fees = open_fee + close_fee;
    assert!((roundtrip_net - (ol.gross.0 + cl.gross.0 - six_fees)).abs() < 1e-9);
}

fn open_position() -> Position<F> {
    let (sf, of) = (0.00025, 0.0025);
    let mut pos = Position {
        id: "x".to_string(),
        kind: "reversal",
        status: "open",
        expiry: "260925".to_string(),
        expiry_ms: 1_000,
        strike: F(60000.0),
        call_symbol: "C".to_string(),
        put_symbol: "P".to_string(),
        open_ts: 0,
        open_spot: F(60000.0),
        open_call: F(1000.0),
        open_put: F(1200.0),
        open_gross: F(200.0),
        open_fee: F(60000.0 * sf + (1000.0 + 1200.0) * of),
        open_net: F(200.0 - (60000.0 * sf + (1000.0 + 1200.0) * of)),
        open_rate: F(0.0),
        open_annual_rate: F(0.0),
        target_close_rate: F(0.0),
        close_ts: 0,
        close_spot: F(0.0),
        close_call: F(0.0),
        close_put: F(0.0),
        close_gross: F(0.0),
        close_fee: F(0.0),
        exec_qty: F(1.5),
        net_profit_per_btc: F(0.0),
        net_profit_rate: F(0.0),
        hold_annual_rate: F(0.0),
        est_profit: F(0.0),
    };
    pos.open_net = F(pos.open_gross.0 - pos.open_fee.0);
    pos
}

#[test]
fn settle_at_expiry_deducts_spot_and_exercise_fee() {
    let sf = 0.00025;
    let ex = 0.00015;
    let pos = open_position();
    let spot = book(60000.0, 1.0, 60002.0, 1.0);
    let settled = settle_position(&pos, &spot, 86_400_000, F(sf), F(ex));
    let p = 60001.0;
    let expected = pos.open_gross.0 - pos.open_fee.0 - sf * p - ex * p;
    assert_eq!(settled.status, "settled");
    assert!((settled.net_profit_per_btc.0 - expected).abs() < 1e-6);
    assert!((settled.est_profit.0 - expected * 1.5).abs() < 1e-6);
}

#[test]
fn settlement_price_takes_the_side_that_is_quoted() {
    assert_eq!(settlement_price(&book(100.0, 1.0, 102.0, 1.0)), F(101.0));
    assert_eq!(settlement_price(&book(100.0, 1.0, 0.0, 0.0)), F(100.0));
    assert_eq!(settlement_price(&book(0.0, 0.0, 102.0, 1.0)), F(102.0));
    assert_eq!(settlement_price(&book(100.0, 0.0, 102.0, 0.0)), F(0.0));
}

#[test]
fn rates_are_annualized_by_days() {
    assert_eq!(annualize_over_days(F(0.25), F(73.0)), F(1.25));
    assert_eq!(annualize_over_days(F(0.01), F(0.0)), F(0.0));
    assert_eq!(annualize_over_days(F(0.01), F(-1.0)), F(0.0));
    assert_eq!(days_between::<F>(0, 43_200_000), F(0.5));
    assert_eq!(annualize(F(0.25), 73 * 86_400_000, 0), F(1.25));
    assert_eq!(annualize(F(0.01), 0, 1), F(0.0));
}

#[test]
fn keys_and_names_spell_the_place_out() {
    assert_eq!(strike_key(F(60000.0)), 60_000_000);
    assert_eq!(strike_key(F(0.12345)), 123);
    assert_eq!(pos_key("reversal", "260925", F(60000.0)), "reversal|260925|60000000");
    assert_eq!(pos_id("conversion", "260925", F(0.5), 17), "conversion-260925-500-17");
    let keys = [
        pos_key("reversal", "2|60", F(1.0)),
        pos_key("reversal", "2", F(60.0)),
        pos_key("conversion", "2", F(60.0)),
        pos_key("reversal", "2", F(-60.0)),
    ];
    let ids = [
        pos_id("reversal", "2-60", F(1.0), 5),
        pos_id("reversal", "2", F(60.0), 15),
        pos_id("reversal", "2", F(60.0), 5),
        pos_id("conversion", "2", F(60.0), 5),
    ];
    for i in 0..4 {
        for j in 0..i {
            assert_ne!(keys[i], keys[j]);
            assert_ne!(ids[i], ids[j]);
        }
    }
}

#[test]
fn time_of_day_is_padded() {
    assert_eq!(hms(0), "00:00:00 UTC");
    assert_eq!(hms(1_700_000_000_000), "22:13:20 UTC");
    assert_eq!(hms(86_399_999), "23:59:59 UTC");
    assert_eq!(hms(-1_000), "00:00:-1 UTC");
}

#[test]
fn clock_readings_become_milliseconds() {
    assert_eq!(clock_ms(Some(1_700_000_000_123)), 1_700_000_000_123);
    assert_eq!(clock_ms(None), 0);
    assert!(now_ms() > 1_700_000_000_000);
}

#[test]
fn closing_is_the_opposite_of_opening() {
    let call = book(950.0, 5.0, 1000.0, 2.0);
    let put = book(1200.0, 3.0, 1250.0, 4.0);
    let spot = book(60000.0, 1.5, 60001.0, 1.0);
    let a = close_legs("reversal", &call, &put, &spot, F(60000.0)).unwrap();
    let b = open_legs("conversion", &call, &put, &spot, F(60000.0)).unwrap();
    assert_eq!(a.gross, b.gross);
    assert_eq!(a.spot, F(60001.0));
    let c = close_legs("conversion", &call, &put, &spot, F(60000.0)).unwrap();
    let d = open_legs("reversal", &call, &put, &spot, F(60000.0)).unwrap();
    assert_eq!(c.gross, d.gross);
    assert_eq!(c.spot, F(60000.0));
    assert!(open_reversal(&book(1.0, 1.0, 0.0, 0.0), &put, &spot, F(60000.0)).is_none());
    assert!(open_conversion(&book(0.0, 0.0, 1.0, 1.0), &put, &spot, F(60000.0)).is_none());
}

#[test]
fn strike_cancels_over_the_round_trip() {
    let o_call = book(950.0, 5.0, 1000.0, 2.0);
    let o_put = book(1200.0, 3.0, 1250.0, 4.0);
    let o_spot = book(60000.0, 1.5, 60001.0, 1.0);
    let c_call = book(1000.0, 5.0, 1050.0, 5.0);
    let c_put = book(950.0, 5.0, 1010.0, 5.0);
    let c_spot = book(59999.0, 5.0, 60000.0, 5.0);
    for k in [1.0, 60000.0, 250000.0] {
        let opened = open_reversal(&o_call, &o_put, &o_spot, F(k)).unwrap();
        let closed = close_legs("reversal", &c_call, &c_put, &c_spot, F(k)).unwrap();
        // 60000 - 60000 + 1200 - 1010 + 1000 - 1000
        assert!((opened.gross.0 + closed.gross.0 - 190.0).abs() < 1e-9);
    }
}

fn rules() -> ScanRules<F> {
    ScanRules {
        spot_fee_rate: F(0.00025),
        option_fee_rate: F(0.0025),
        exercise_fee_rate: F(0.00015),
        min_profit_rate: F(0.0),
        min_annual_rate: F(0.10),
        min_exec_qty: F(0.0),
        max_open_mark_loss: F(0.01),
        close_rate_discount: F(0.8),
        record_interval_ms: 5_000,
    }
}

#[test]
fn a_position_is_settled_closed_marked_or_held() {
    let mut pos = open_position();
    pos.expiry_ms = 1_000_000;
    pos.target_close_rate = F(0.002);
    let spot = book(59999.0, 5.0, 60000.0, 5.0);
    let call = book(1000.0, 0.5, 1050.0, 5.0);
    let put = book(950.0, 5.0, 1010.0, 5.0);

    match fate_of(&pos, &call, &put, &spot, &rules(), 1_000_000, None) {
        Fate::Settle(p) => assert_eq!(p.status, "settled"),
        _ => panic!("expired"),
    }
    // 200 - 10 - 20.5 - 20.025 = 149.475, above the target of 0.002 * 60000 = 120
    match fate_of(&pos, &call, &put, &spot, &rules(), 999_999, None) {
        Fate::Close(p) => {
            assert_eq!(p.status, "closed");
            assert_eq!(p.close_gross, F(-10.0));
            assert_eq!(p.exec_qty, F(0.5));
            assert!((p.net_profit_per_btc.0 - 149.475).abs() < 1e-9);
            assert_eq!(p.open_gross, pos.open_gross);
        }
        _ => panic!("target reached"),
    }
    pos.target_close_rate = F(0.003);
    match fate_of(&pos, &call, &put, &spot, &rules(), 999_999, Some(994_999)) {
        Fate::Mark(p) => {
            assert_eq!(p.status, "open");
            assert!((p.net_profit_per_btc.0 - 149.475).abs() < 1e-9);
            assert_eq!(p.exec_qty, F(1.5));
        }
        _ => panic!("record due"),
    }
    assert!(matches!(fate_of(&pos, &call, &put, &spot, &rules(), 999_999, Some(995_000)), Fate::Hold));
    let nothing = BookTop::default();
    assert!(matches!(fate_of(&pos, &nothing, &put, &spot, &rules(), 999_999, None), Fate::Hold));
}

fn opening(spot: &BookTop<F>, call: &BookTop<F>, put: &BookTop<F>, rules: &ScanRules<F>) -> Option<Position<F>> {
    opening_of(
        "reversal",
        &"260925".to_string(),
        86_400_000,
        F(60000.0),
        &"C".to_string(),
        &"P".to_string(),
        call,
        put,
        spot,
        rules,
        0,
    )
}

#[test]
fn a_position_opens_where_every_threshold_is_reached() {
    let call = book(995.0, 5.0, 1000.0, 2.0);
    let put = book(1200.0, 3.0, 1205.0, 4.0);
    let spot = book(60000.0, 1.5, 60001.0, 1.0);
    let p = opening(&spot, &call, &put, &rules()).unwrap();
    assert_eq!(p.id, "reversal-260925-60000000-0");
    assert_eq!(p.status, "open");
    assert_eq!(p.open_gross, F(200.0));
    assert!((p.open_fee.0 - 20.5).abs() < 1e-9);
    assert!((p.open_rate.0 - 179.5 / 60000.0).abs() < 1e-12);
    assert!((p.open_annual_rate.0 - 365.0 * 179.5 / 60000.0).abs() < 1e-9);
    assert!((p.target_close_rate.0 - 0.8 * 179.5 / 60000.0).abs() < 1e-12);
    // closing at once: 995 - 1205 + 60000 - 60001 = -211, less the fees of three more legs
    let close_fee = 60001.0 * 0.00025 + (995.0 + 1205.0) * 0.0025;
    assert!((p.net_profit_per_btc.0 - (200.0 - 211.0 - 20.5 - close_fee)).abs() < 1e-9);

    let mut strict = rules();
    strict.min_profit_rate = F(0.01);
    assert!(opening(&spot, &call, &put, &strict).is_none());
    strict = rules();
    strict.min_annual_rate = F(2.0);
    assert!(opening(&spot, &call, &put, &strict).is_none());
    strict = rules();
    strict.min_exec_qty = F(1.6);
    assert!(opening(&spot, &call, &put, &strict).is_none());
    strict = rules();
    strict.max_open_mark_loss = F(0.0);
    assert!(opening(&spot, &call, &put, &strict).is_none());
    assert!(opening(&spot, &book(995.0, 5.0, 1200.0, 2.0), &put, &rules()).is_none());
    // without opposite quotes the mark is what the position locked in
    let one_sided = book(60000.0, 1.5, 0.0, 0.0);
    let q = opening(&one_sided, &call, &put, &strict).unwrap();
    assert_eq!(q.net_profit_per_btc, q.open_net);
}

fn universe() -> Universe<F> {
    let mut strikes = Table::new();
    strikes.insert(
        60_000_000,
        StrikePair {
            strike: F(60000.0),
            call: Some("BTC-260925-60000-C".to_string()),
            put: Some("BTC-260925-60000-P".to_string()),
        },
    );
    strikes.insert(
        61_000_000,
        StrikePair {
            strike: F(61000.0),
            call: Some("BTC-260925-61000-C".to_string()),
            put: None,
        },
    );
    let mut expiries = Table::new();
    expiries.insert("260925".to_string(), ExpiryEntry { expiry_ms: 864_000_000, strikes });
    Universe { expiries }
}

#[test]
fn rounds_open_mark_close_and_rest() {
    let mut quotes: Quotes<F> = Quotes::new();
    let mut scanner: Scanner<F> = Scanner::new();
    let universe = universe();
    let rules = rules();

    assert!(scanner.scan(&universe, &quotes, &rules, 0).is_none());

    quotes.set_spot(book(60000.0, 1.5, 60001.0, 1.0));
    quotes.set_option("BTC-260925-60000-C".to_string(), book(995.0, 5.0, 1000.0, 2.0));
    quotes.set_option("BTC-260925-60000-P".to_string(), book(1200.0, 3.0, 1205.0, 4.0));
    assert_eq!(quotes.spot_snapshot().bid, F(60000.0));
    assert_eq!(quotes.option("BTC-260925-60000-C").ask, F(1000.0));
    assert_eq!(quotes.option("other").ask, F(0.0));

    let first = scanner.scan(&universe, &quotes, &rules, 1_000).unwrap();
    assert_eq!((first.opened, first.closed), (1, 0));
    assert_eq!(first.emitted.len(), 1);
    assert_eq!(first.emitted[0].id, "reversal-260925-60000000-1000");

    // one position per place, and no record before its time
    let second = scanner.scan(&universe, &quotes, &rules, 2_000).unwrap();
    assert_eq!((second.opened, second.closed, second.emitted.len()), (0, 0, 0));
    let third = scanner.scan(&universe, &quotes, &rules, 6_000).unwrap();
    assert_eq!((third.opened, third.closed, third.emitted.len()), (0, 0, 1));
    assert_eq!(third.emitted[0].status, "open");
    assert_eq!(third.emitted[0].open_ts, 1_000);

    let summary = scanner.summary(6_000, 0, 0).unwrap();
    assert_eq!(summary.time, "00:00:06 UTC");
    assert_eq!(summary.held, 1);
    assert_eq!(summary.top.len(), 1);

    // the books turn: the opposite action brings the target
    quotes.set_option("BTC-260925-60000-C".to_string(), book(1200.0, 5.0, 1210.0, 2.0));
    quotes.set_option("BTC-260925-60000-P".to_string(), book(1190.0, 3.0, 1000.0, 4.0));
    let fourth = scanner.scan(&universe, &quotes, &rules, 7_000).unwrap();
    assert_eq!(fourth.closed, 1);
    assert_eq!(fourth.emitted[0].status, "closed");
    assert_eq!(fourth.emitted[0].open_gross, F(200.0));

    // the place of the reversal rests; that of the conversion was free
    quotes.set_option("BTC-260925-60000-C".to_string(), book(995.0, 5.0, 1000.0, 2.0));
    quotes.set_option("BTC-260925-60000-P".to_string(), book(1200.0, 3.0, 1205.0, 4.0));
    let fifth = scanner.scan(&universe, &quotes, &rules, 11_999).unwrap();
    assert!(fifth.emitted.iter().all(|p| p.kind != "reversal" || p.open_ts == 1_000));
    let sixth = scanner.scan(&universe, &quotes, &rules, 12_000).unwrap();
    assert!(sixth.emitted.iter().any(|p| p.kind == "reversal" && p.open_ts == 12_000));

    // everything expires
    let last = scanner.scan(&universe, &quotes, &rules, 864_000_000).unwrap();
    assert!(last.closed >= 1);
    assert!(last.emitted.iter().any(|p| p.status == "settled"));
}

#[test]
fn a_list_of_options_is_copied() {
    let listed = universe();
    let copy = listed.clone();
    assert_eq!(format!("{:?}", copy), format!("{:?}", listed));
    assert_eq!(copy.expiries.entries[0].1.strikes.entries[1].1.put, None);
    assert_eq!(Universe::<F>::default().expiries.len(), 0);
    let expiry = ExpiryEntry::<F>::default();
    assert_eq!((expiry.expiry_ms, expiry.strikes.len()), (0, 0));
    let pair = StrikePair::<F>::default();
    assert_eq!((pair.strike, pair.call, pair.put), (F(0.0), None, None));
}

/// Every record with its time, over many rounds in which the books turn.
fn long_run(interval: i64) -> Vec<(i64, Position<F>)> {
    let mut quotes: Quotes<F> = Quotes::new();
    let mut scanner: Scanner<F> = Scanner::new();
    let universe = universe();
    let rules = ScanRules { record_interval_ms: interval, ..rules() };
    let mut log = Vec::new();
    for step in 0..400_i64 {
        let now = 1_000 + step * 700;
        let turn = (step / 9 % 3) as f64;
        quotes.set_spot(book(60000.0, 1.5, 60001.0, 1.0));
        quotes.set_option(
            "BTC-260925-60000-C".to_string(),
            book(995.0 + 110.0 * turn, 5.0, 1000.0 + 110.0 * turn, 2.0),
        );
        quotes.set_option(
            "BTC-260925-60000-P".to_string(),
            book(1200.0 - 110.0 * turn, 3.0, 1205.0 - 110.0 * turn, 4.0),
        );
        let report = scanner.scan(&universe, &quotes, &rules, now).unwrap();
        log.extend(report.emitted.into_iter().map(|p| (now, p)));
    }
    log
}

#[test]
fn records_of_a_run_are_in_order() {
    for interval in [5_000, 1, 0, -1_000] {
        check_order(&long_run(interval), interval);
    }
}

fn check_order(log: &[(i64, Position<F>)], interval: i64) {
    assert!(log.iter().filter(|(_, p)| p.status == "closed").count() > 3);
    assert!(log.iter().filter(|(_, p)| p.status == "open").count() > 20);
    for (k, (now, b)) in log.iter().enumerate() {
        for (i, (then, a)) in log[..k].iter().enumerate() {
            assert!(then <= now);
            let same_place = (a.kind, &a.expiry, strike_key(a.strike)) == (b.kind, &b.expiry, strike_key(b.strike));
            if a.id == b.id {
                assert_eq!(a.status, "open");
                assert!(b.status != "open" || now - then >= interval);
            } else if same_place {
                assert!(log[i..k].iter().any(|(_, e)| e.id == a.id && e.status != "open"));
                assert!(a.status == "open" || now - then >= interval);
            }
        }
    }
}

#[test]
fn figures_of_records_agree() {
    for (_, p) in long_run(5_000) {
        assert_eq!(p.open_net.0, p.open_gross.0 - p.open_fee.0);
        assert_eq!(p.open_rate.0, p.open_net.0 / p.open_spot.0);
        assert_eq!(p.target_close_rate.0, 0.8 * p.open_rate.0);
        assert_eq!(p.net_profit_rate.0, p.net_profit_per_btc.0 / p.open_spot.0);
        assert_eq!(p.est_profit.0, p.net_profit_per_btc.0 * p.exec_qty.0);
        if p.status == "open" {
            assert_eq!((p.close_ts, p.close_spot, p.close_gross, p.close_fee), (0, F(0.0), F(0.0), F(0.0)));
            assert_eq!(p.hold_annual_rate, p.open_annual_rate);
        } else {
            let net = p.open_gross.0 + p.close_gross.0 - p.open_fee.0 - p.close_fee.0;
            assert!((p.net_profit_per_btc.0 - net).abs() < 1e-9);
        }
    }
}

#[test]
fn both_kinds_open_at_different_places() {
    let mut quotes: Quotes<F> = Quotes::new();
    let mut scanner: Scanner<F> = Scanner::new();
    let mut generous = rules();
    generous.spot_fee_rate = F(0.0);
    generous.option_fee_rate = F(0.0);
    generous.min_annual_rate = F(0.001);
    // crossed books, in which both directions bring something
    quotes.set_spot(book(60010.0, 1.0, 60000.0, 1.0));
    quotes.set_option("BTC-260925-60000-C".to_string(), book(1000.0, 1.0, 990.0, 1.0));
    quotes.set_option("BTC-260925-60000-P".to_string(), book(1000.0, 1.0, 990.0, 1.0));
    let report = scanner.scan(&universe(), &quotes, &generous, 1).unwrap();
    assert_eq!(report.opened, 2);
    let kinds: Vec<&str> = report.emitted.iter().map(|p| p.kind).collect();
    assert_eq!(kinds, vec!["reversal", "conversion"]);
    let places: Vec<&str> = scanner.positions.entries.iter().map(|e| e.0.as_str()).collect();
    assert_eq!(places, vec!["conversion|260925|60000000", "reversal|260925|60000000"]);
}

#[test]
fn restored_positions_are_looked_after() {
    let mut pos = open_position();
    pos.expiry_ms = 10;
    let mut scanner = Scanner::restore(vec![pos]);
    assert_eq!(scanner.positions.len(), 1);
    let mut quotes: Quotes<F> = Quotes::new();
    quotes.set_spot(book(60000.0, 1.0, 60002.0, 1.0));
    let empty = Universe { expiries: Table::new() };
    let report = scanner.scan(&empty, &quotes, &rules(), 10).unwrap();
    assert_eq!((report.opened, report.closed), (0, 1));
    assert_eq!(report.emitted[0].close_spot, F(60001.0));
    assert_eq!(scanner.positions.len(), 0);
    assert!(scanner.summary(10, 0, 0).is_none());
    assert!(scanner.summary(10, 0, 1).is_some());
}

#[test]
fn summary_shows_the_largest_rates_first() {
    let mut open = Vec::new();
    for k in 0..10 {
        let mut p = open_position();
        p.strike = F(50000.0 + k as f64);
        p.open_rate = F(((k * 7) % 10) as f64);
        open.push(p);
    }
    let scanner = Scanner::restore(open);
    let summary = scanner.summary(0, 1, 2).unwrap();
    assert_eq!((summary.held, summary.opened, summary.closed), (10, 1, 2));
    let rates: Vec<f64> = summary.top.iter().map(|p| p.open_rate.0).collect();
    assert_eq!(rates, vec![9.0, 8.0, 7.0, 6.0, 5.0, 4.0, 3.0, 2.0]);
}

#[test]
fn summary_is_shown_about_every_two_seconds() {
    assert!(shows_summary(8, 250));
    assert!(!shows_summary(7, 250));
    assert!(shows_summary(7, 5_000));
    assert!(shows_summary(7, 2_000));
}

#[test]
fn scanner_settings_have_defaults() {
    let c: Config<F> = Config::from_env(&Vec::new());
    assert_eq!(c.underlying, "BTC");
    assert_eq!(c.spot_symbol(), "BTCUSDT");
    assert_eq!(c.eapi_base, "https://eapi.binance.com");
    assert_eq!(c.options_ws, "wss://fstream.binance.com/market");
    assert_eq!(c.spot_ws, "wss://stream.binance.com:9443");
    assert_eq!(c.min_profit_rate, F(0.0));
    assert_eq!(c.min_annual_rate, F(0.10));
    assert_eq!(c.min_exec_qty, F(0.0));
    assert_eq!(c.fee_rate, F(0.0001));
    assert_eq!(c.close_rate_discount, F(0.8));
    assert_eq!(c.exercise_fee_rate, F(0.00015));
    assert_eq!(c.scan_interval_ms, 250);
    assert_eq!(c.record_interval_ms, 5000);
    assert_eq!(c.info_poll_secs, 300);
    assert_eq!(c.web_port, 8080);
    assert_eq!(c.db_path, "data.db");
    let r = ScanRules::from_config(&c, F(0.02));
    assert_eq!(r.spot_fee_rate, F(0.0001));
    assert_eq!(r.option_fee_rate, F(0.0001));
    assert_eq!(r.max_open_mark_loss, F(0.02));
}

#[test]
fn scanner_settings_are_read_where_they_parse() {
    let vars: Vec<(String, String)> = [
        ("OA_UNDERLYING", "ETH"),
        ("OA_MIN_ANNUAL_RATE", "0.25"),
        ("OA_RECORD_INTERVAL_MS", "-7"),
        ("OA_SCAN_INTERVAL_MS", "abc"),
        ("OA_WEB_PORT", "65536"),
        ("OA_INFO_POLL_SECS", "+60"),
    ]
    .iter()
    .map(|(k, v)| (k.to_string(), v.to_string()))
    .collect();
    let c: Config<F> = Config::from_env(&vars);
    assert_eq!(c.spot_symbol(), "ETHUSDT");
    assert_eq!(c.min_annual_rate, F(0.25));
    assert_eq!(c.record_interval_ms, -7);
    assert_eq!(c.scan_interval_ms, 250);
    assert_eq!(c.web_port, 8080);
    assert_eq!(c.info_poll_secs, 60);
}
