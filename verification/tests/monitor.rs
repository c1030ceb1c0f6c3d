//! The monitor on floating-point numbers.
use option_arb::arb::{
    build_opportunity, deribit_option_fee_per_unit_usd, find_rough_candidates, instrument_of,
    parse_instrument_name, rank_candidates, rough_annualized_for, Candidate, OptionType, ParsedInstrument,
};
use option_arb::exchanges::{
    option_summaries, parse_decimal, positive_price, spot_book, top_of_book, BookStats, BookTicker, DecimalError,
    Level, ListedOption, OrderBook,
};
use option_arb::history::{holds_record, HistoryStore};
use option_arb::models::{
    Config, ConfigView, Opportunity, OpportunityRecord, OptionBookView, OptionSummary, OptionTopOfBook, OrderLeg,
    MarketView, Snapshot, SpotBook, Strategy,
};
use option_arb::monitor::{after_append, Collector, Request};
use option_arb::scalar::{Chars, Scalar};
use option_arb::time::{UtcTime, EARLIEST, LATEST};

/// A floating-point number.
#[derive(Clone, Copy, Debug, PartialEq)]
struct F(f64);

impl Scalar for F {
    fn plus(self, rhs: F) -> F {
        F(self.0 + rhs.0)
    }

    fn minus(self, rhs: F) -> F {
        F(self.0 - rhs.0)
    }

    fn times(self, rhs: F) -> F {
        F(self.0 * rhs.0)
    }

    fn over(self, rhs: F) -> F {
        F(self.0 / rhs.0)
    }

    fn less(self, rhs: F) -> bool {
        self.0 < rhs.0
    }

    fn at_most(self, rhs: F) -> bool {
        self.0 <= rhs.0
    }

    fn least(self, rhs: F) -> F {
        F(self.0.min(rhs.0))
    }

    fn finite(self) -> bool {
        self.0.is_finite()
    }

    fn of_int(n: i128) -> F {
        F(n as f64)
    }

    fn round(self) -> i64 {
        self.0.round() as i64
    }

    fn parse(text: &str) -> Option<F> {
        text.parse().ok().map(F)
    }

    fn fixed4(self) -> String {
        format!("{:.4}", self.0)
    }

    fn plus_spec(self, rhs: F) -> F {
        self.plus(rhs)
    }

    fn minus_spec(self, rhs: F) -> F {
        self.minus(rhs)
    }

    fn times_spec(self, rhs: F) -> F {
        self.times(rhs)
    }

    fn over_spec(self, rhs: F) -> F {
        self.over(rhs)
    }

    fn less_spec(self, rhs: F) -> bool {
        self.less(rhs)
    }

    fn at_most_spec(self, rhs: F) -> bool {
        self.at_most(rhs)
    }

    fn least_spec(self, rhs: F) -> F {
        self.least(rhs)
    }

    fn finite_spec(self) -> bool {
        self.finite()
    }

    fn of_int_spec(n: i128) -> F {
        F::of_int(n)
    }

    fn round_spec(self) -> i64 {
        self.round()
    }

    fn parse_spec(_text: Chars) -> Option<F> {
        unreachable!("only contracts speak of it")
    }

    fn fixed4_spec(self) -> Chars {
        unreachable!("only contracts speak of it")
    }

    fn less_is_strict(_a: F, _b: F) {}

    fn at_most_is_ordered(_a: F, _b: F) {}

    fn at_most_is_transitive(_a: F, _b: F, _c: F) {}

    fn at_most_is_total(_a: F, _b: F) {}

    fn least_is_lower_bound(_a: F, _b: F) {}
}

fn config() -> Config<F> {
    Config {
        host: "0.0.0.0".to_string(),
        port: 8080,
        poll_secs: 15,
        spot_fee_rate: F(0.00024),
        min_annualized: F(0.10),
        max_candidates: 40,
        history_path: "data/opportunities.jsonl".to_string(),
        history_max_records: 500,
    }
}

/// 2026-07-08 00:00:00 UTC.
const NOW: UtcTime = UtcTime { secs: 1_783_468_800, nanos: 0 };

/// 2026-09-25 08:00:00 UTC.
const EXPIRY: UtcTime = UtcTime { secs: 1_790_323_200, nanos: 0 };

#[test]
fn parses_deribit_option_name() {
    let parsed: ParsedInstrument<F> = parse_instrument_name("BTC-25SEP26-75000-C").unwrap();

    assert_eq!(parsed.underlying, "BTC");
    assert_eq!(parsed.expiry_code, "25SEP26");
    assert_eq!(parsed.strike, F(75_000.0));
    assert!(matches!(parsed.option_type, OptionType::Call));
    assert_eq!(parsed.expiry_utc.secs / 3600 % 24, 8);
    assert_eq!(parsed.expiry_utc, EXPIRY);
}

#[test]
fn names_of_other_forms_are_refused() {
    let lower: ParsedInstrument<F> = parse_instrument_name("BTC-25sep26-75000-P").unwrap();
    assert_eq!(lower.expiry_code, "25SEP26");
    assert_eq!(lower.option_type, OptionType::Put);
    for name in [
        "",
        "BTC-PERPETUAL",
        "BTC-25SEP26-75000",
        "BTC-25SEP26-75000-C-1",
        "BTC-25SEP26-75000-X",
        "BTC-25SEP26-many-C",
        "BTC-31FEB26-75000-C",
        "BTC-SEP26-75000-C",
    ] {
        assert!(parse_instrument_name::<F>(name).is_none(), "{name}");
    }
    let parts: Vec<String> = ["A", "b", "2.5", "P"].iter().map(|s| s.to_string()).collect();
    let read: ParsedInstrument<F> = instrument_of(&parts, "B".to_string(), Some(5)).unwrap();
    assert_eq!((read.underlying.as_str(), read.expiry_code.as_str(), read.strike), ("A", "B", F(2.5)));
    assert!(instrument_of::<F>(&parts, "B".to_string(), None).is_none());
}

fn spot() -> SpotBook<F> {
    SpotBook {
        underlying: "BTC".to_string(),
        symbol: "BTCUSDT".to_string(),
        bid_price: F(62_990.0),
        bid_qty: F(3.0),
        ask_price: F(63_000.0),
        ask_qty: F(2.0),
    }
}

fn summary(name: &str, bid: f64, ask: f64) -> OptionSummary<F> {
    OptionSummary {
        instrument_name: name.to_string(),
        bid_price: Some(F(bid)),
        ask_price: Some(F(ask)),
        open_interest: None,
        volume: None,
    }
}

fn top(name: &str, bid: f64, ask: f64, bid_amount: f64, ask_amount: f64) -> OptionTopOfBook<F> {
    OptionTopOfBook {
        instrument_name: name.to_string(),
        bid_price: Some(F(bid)),
        ask_price: Some(F(ask)),
        bid_amount: F(bid_amount),
        ask_amount: F(ask_amount),
        open_interest: None,
        volume: None,
    }
}

fn candidate(strategy: Strategy) -> Candidate<F> {
    Candidate {
        underlying: "BTC".to_string(),
        strategy,
        expiry_code: "25SEP26".to_string(),
        expiry_utc: EXPIRY,
        strike: F(64_000.0),
        call: summary("BTC-25SEP26-64000-C", 0.0400, 0.0410),
        put: summary("BTC-25SEP26-64000-P", 0.0020, 0.0030),
        rough_annualized: F(1.0),
    }
}

#[test]
fn computes_conversion_after_fees() {
    let cfg = config();
    let candidate = candidate(Strategy::Conversion);
    let call_book = top(&candidate.call.instrument_name, 0.0400, 0.0410, 1.5, 1.0);
    let put_book = top(&candidate.put.instrument_name, 0.0020, 0.0030, 1.0, 1.2);

    let opportunity = build_opportunity(&cfg, &candidate, &spot(), &call_book, &put_book, NOW).unwrap();

    assert_eq!(opportunity.quantity, F(1.2));
    assert!(opportunity.net_profit_per_unit_usd.0 > 0.0);
    assert!(opportunity.annualized_profit_rate.0 > cfg.min_annualized.0);

    assert_eq!(opportunity.id, "BTC-25SEP26-64000.0000-Conversion");
    assert_eq!(opportunity.expiry_utc, "2026-09-25T08:00:00+00:00");
    // 64000 - 63000 - 0.003 * 62995 + 0.04 * 62995
    let mid = 62_995.0;
    let gross = 64_000.0 - 63_000.0 - 0.003 * mid + 0.04 * mid;
    let fees = 63_000.0 * 0.00024 + 0.0003 * mid + 0.0003 * mid;
    assert!((opportunity.net_profit_per_unit_usd.0 - (gross - fees)).abs() < 1e-9);
    let rate = (gross - fees) / 63_000.0 * 365.0 / (79.0 + 8.0 / 24.0);
    assert!((opportunity.annualized_profit_rate.0 - rate).abs() < 1e-9);
    assert_eq!(opportunity.legs.len(), 3);
    assert_eq!(opportunity.legs[0].action, "BUY");
    assert_eq!(opportunity.legs[1].action, "BUY PUT");
    assert_eq!(opportunity.legs[1].price, F(0.0030));
    assert_eq!(opportunity.legs[2].action, "SELL CALL");
    assert_eq!(opportunity.legs[2].available_quantity, F(1.5));
    assert!(opportunity.legs.iter().all(|l| l.quantity == F(1.2)));
}

#[test]
fn computes_reversal_after_fees() {
    let mut cfg = config();
    cfg.min_annualized = F(-100.0);
    let candidate = candidate(Strategy::Reversal);
    let call_book = top("C", 0.0400, 0.0410, 1.5, 1.0);
    let mut put_book = top("P", 0.0020, 0.0030, 4.0, 1.2);
    put_book.volume = Some(F(9.0));
    let o = build_opportunity(&cfg, &candidate, &spot(), &call_book, &put_book, NOW).unwrap();
    let mid = 62_995.0;
    let gross = 62_990.0 + 0.002 * mid - 0.041 * mid - 64_000.0;
    let fees = 62_990.0 * 0.00024 + 0.0003 * mid + 0.125 * 0.002 * mid;
    assert!((o.net_profit_per_unit_usd.0 - (gross - fees)).abs() < 1e-9);
    assert_eq!(o.quantity, F(1.0));
    assert_eq!(o.notional_usd, F(62_990.0));
    assert_eq!(o.put.volume, Some(F(9.0)));
    assert_eq!(o.legs[0].action, "SELL / SHORT");
    assert_eq!(o.legs[1].action, "SELL PUT");
    assert_eq!(o.legs[2].action, "BUY CALL");
    assert!(o.id.ends_with("-Reversal"));
}

#[test]
fn a_return_that_is_no_number_does_not_reach_the_threshold() {
    let mut unclear = candidate(Strategy::Conversion);
    unclear.strike = F(f64::NAN);
    let call_book = top(&unclear.call.instrument_name, 0.0400, 0.0410, 1.5, 1.0);
    let put_book = top(&unclear.put.instrument_name, 0.0020, 0.0030, 1.0, 1.2);
    assert!(build_opportunity(&config(), &unclear, &spot(), &call_book, &put_book, NOW).is_none());
    let mut open = config();
    open.min_annualized = F(f64::NAN);
    let clear = candidate(Strategy::Conversion);
    assert!(build_opportunity(&open, &clear, &spot(), &call_book, &put_book, NOW).is_none());

    // the same names with a strike that is no number give no candidate either
    let listed = vec![
        summary("BTC-25SEP26-nan-C", 0.0400, 0.0410),
        summary("BTC-25SEP26-nan-P", 0.0020, 0.0030),
    ];
    assert!(find_rough_candidates(&config(), &spot(), &listed, NOW).is_empty());
}

#[test]
fn rough_and_final_returns_agree_at_unmoved_prices() {
    for strategy in [Strategy::Conversion, Strategy::Reversal] {
        for strike in [50_000.0, 62_000.0, 64_000.0, 70_000.0, f64::NAN] {
            let mut c = candidate(strategy);
            c.strike = F(strike);
            let call = top(&c.call.instrument_name, 0.0400, 0.0410, 1.0, 1.0);
            let put = top(&c.put.instrument_name, 0.0020, 0.0030, 1.0, 1.0);
            let rough =
                rough_annualized_for(EXPIRY, c.strike, &c.call, &c.put, &spot(), &config(), strategy, NOW).unwrap();
            let found = build_opportunity(&config(), &c, &spot(), &call, &put, NOW);
            assert_eq!(found.is_some(), rough.0 >= 0.10);
            if let Some(o) = found {
                assert_eq!(o.annualized_profit_rate, rough);
            }
        }
    }
}

#[test]
fn nothing_comes_of_a_candidate_below_the_threshold() {
    let candidate = candidate(Strategy::Conversion);
    let call = top("C", 0.0400, 0.0410, 1.5, 1.0);
    let put = top("P", 0.0020, 0.0030, 1.0, 1.2);
    let mut strict = config();
    strict.min_annualized = F(100.0);
    assert!(build_opportunity(&strict, &candidate, &spot(), &call, &put, NOW).is_none());
    assert!(build_opportunity(&config(), &candidate, &spot(), &call, &put, EXPIRY).is_none());
    let mut unpriced = top("C", 0.0400, 0.0410, 1.5, 1.0);
    unpriced.bid_price = None;
    assert!(build_opportunity(&config(), &candidate, &spot(), &unpriced, &put, NOW).is_none());
    let empty = top("C", 0.0400, 0.0410, 0.0, 1.0);
    assert!(build_opportunity(&config(), &candidate, &spot(), &empty, &put, NOW).is_none());
}

#[test]
fn deribit_option_fee_uses_premium_cap() {
    let spot_reference = F(100_000.0);

    assert!((deribit_option_fee_per_unit_usd(F(0.008), spot_reference).0 - 30.0).abs() < 1e-9);
    assert!((deribit_option_fee_per_unit_usd(F(0.002), spot_reference).0 - 25.0).abs() < 1e-9);
}

#[test]
fn candidates_are_paired_and_ranked() {
    let listed = vec![
        summary("BTC-25SEP26-64000-C", 0.0100, 0.0110),
        summary("BTC-25SEP26-64000-P", 0.0020, 0.0030),
        summary("ETH-25SEP26-64000-C", 0.0400, 0.0410),
        summary("BTC-25SEP26-66000-C", 0.0400, 0.0410),
        summary("nonsense", 1.0, 1.0),
        summary("BTC-25SEP26-66000-P", 0.0020, 0.0030),
        summary("BTC-25SEP26-65000-C", 0.0400, 0.0410),
        summary("BTC-1JUL26-60000-C", 0.0400, 0.0410),
        summary("BTC-1JUL26-60000-P", 0.0020, 0.0030),
        summary("BTC-25SEP26-64000-C", 0.0400, 0.0410),
    ];
    let found = find_rough_candidates(&config(), &spot(), &listed, NOW);
    let names: Vec<(&str, f64)> = found.iter().map(|c| (c.expiry_code.as_str(), c.strike.0)).collect();
    assert_eq!(names, vec![("25SEP26", 66_000.0), ("25SEP26", 64_000.0)]);
    assert!(found.iter().all(|c| c.strategy == Strategy::Conversion));
    assert!(found[0].rough_annualized.0 > found[1].rough_annualized.0);
    // the later listing of the call counts
    assert_eq!(found[1].call.bid_price, Some(F(0.0400)));

    // at unmoved prices the candidate is confirmed
    let c = &found[1];
    let call = top(&c.call.instrument_name, 0.0400, 0.0410, 1.0, 1.0);
    let put = top(&c.put.instrument_name, 0.0020, 0.0030, 1.0, 1.0);
    let o = build_opportunity(&config(), c, &spot(), &call, &put, NOW).unwrap();
    assert_eq!(o.annualized_profit_rate, c.rough_annualized);
    let again = rough_annualized_for(
        EXPIRY,
        F(64_000.0),
        &c.call,
        &c.put,
        &spot(),
        &config(),
        Strategy::Conversion,
        NOW,
    );
    assert_eq!(again, Some(c.rough_annualized));
    assert!(rough_annualized_for(NOW, F(1.0), &c.call, &c.put, &spot(), &config(), Strategy::Reversal, NOW).is_none());

    let unread: Vec<Option<ParsedInstrument<F>>> = listed.iter().map(|_| None).collect();
    assert!(rank_candidates(&config(), &spot(), &unread, &listed, NOW).is_empty());
}

#[test]
fn decimals_are_finite_and_not_negative() {
    assert_eq!(parse_decimal::<F>("1.5", "x").unwrap(), F(1.5));
    assert_eq!(parse_decimal::<F>("0", "x").unwrap(), F(0.0));
    match parse_decimal::<F>("abc", "x") {
        Err(DecimalError::Unreadable { label, text }) => assert_eq!((label, text.as_str()), ("x", "abc")),
        _ => panic!("no number"),
    }
    match parse_decimal::<F>("-1", "x") {
        Err(DecimalError::NotPositive { label, value }) => assert_eq!((label, value), ("x", F(-1.0))),
        _ => panic!("below zero"),
    }
    assert!(matches!(parse_decimal::<F>("inf", "x"), Err(DecimalError::NotPositive { .. })));
    assert_eq!(positive_price(Some(F(0.5))), Some(F(0.5)));
    assert_eq!(positive_price(Some(F(0.0))), None);
    assert_eq!(positive_price(Some(F(f64::NAN))), None);
    assert_eq!(positive_price::<F>(None), None);
}

fn ticker(bid_qty: &str) -> BookTicker {
    BookTicker {
        symbol: "BTCUSDT".to_string(),
        bid_price: "1".to_string(),
        bid_qty: bid_qty.to_string(),
        ask_price: "2".to_string(),
        ask_qty: "x".to_string(),
    }
}

#[test]
fn replies_become_books() {
    assert!(matches!(
        spot_book::<F>("BTC", ticker("-1")),
        Err(DecimalError::NotPositive { label: "Binance bidQty", .. })
    ));
    assert!(matches!(
        spot_book::<F>("BTC", ticker("1")),
        Err(DecimalError::Unreadable { label: "Binance askQty", .. })
    ));
    let mut good = ticker("1");
    good.ask_qty = "4".to_string();
    let book: SpotBook<F> = spot_book("BTC", good).unwrap();
    assert_eq!((book.underlying.as_str(), book.symbol.as_str(), book.ask_qty), ("BTC", "BTCUSDT", F(4.0)));

    let listed = vec![ListedOption {
        instrument_name: "A".to_string(),
        bid_price: Some(F(0.0)),
        ask_price: Some(F(0.1)),
        open_interest: Some(F(5.0)),
        volume: None,
    }];
    let s = option_summaries(&listed);
    assert_eq!((s[0].bid_price, s[0].ask_price, s[0].open_interest), (None, Some(F(0.1)), Some(F(5.0))));

    let t = top_of_book(OrderBook {
        instrument_name: "A".to_string(),
        bids: vec![Level { price: F(1.0), amount: F(2.0) }, Level { price: F(0.5), amount: F(9.0) }],
        asks: Vec::new(),
        best_bid_price: Some(F(7.0)),
        best_ask_price: Some(F(8.0)),
        best_bid_amount: None,
        best_ask_amount: None,
        open_interest: None,
        stats: Some(BookStats { volume: Some(F(3.0)) }),
    });
    assert_eq!((t.bid_price, t.bid_amount), (Some(F(1.0)), F(2.0)));
    assert_eq!((t.ask_price, t.ask_amount), (Some(F(8.0)), F(0.0)));
    assert_eq!(t.volume, Some(F(3.0)));
}

#[test]
fn times_are_compared_and_shown() {
    assert_eq!(NOW.to_rfc3339(), "2026-07-08T00:00:00+00:00");
    let half = UtcTime { secs: 1_783_468_800, nanos: 500_000_000 };
    assert_eq!(half.to_rfc3339(), "2026-07-08T00:00:00.500+00:00");
    assert_eq!(NOW.seconds_until(&EXPIRY), 6_854_400);
    assert_eq!(half.seconds_until(&EXPIRY), 6_854_399);
    assert_eq!(EXPIRY.seconds_until(&half), -6_854_399);
    assert!(NOW.not_after(&half) && !half.not_after(&NOW) && NOW.not_after(&NOW));
    let first = UtcTime { secs: EARLIEST, nanos: 0 };
    let last = UtcTime { secs: LATEST, nanos: 999_999_999 };
    assert_eq!(first.to_rfc3339(), "-262143-01-01T00:00:00+00:00");
    assert_eq!(last.to_rfc3339(), "+262142-12-31T23:59:59.999999999+00:00");
}

#[test]
fn monitor_settings_have_defaults() {
    let c: Config<F> = Config::from_env(&Vec::new());
    assert_eq!((c.host.as_str(), c.port, c.poll_secs), ("0.0.0.0", 8080, 15));
    assert_eq!((c.spot_fee_rate, c.min_annualized, c.max_candidates), (F(0.00024), F(0.10), 40));
    assert_eq!((c.history_path.as_str(), c.history_max_records), ("data/opportunities.jsonl", 500));
    let v = c.view();
    assert_eq!(v.deribit_option_fee_underlying, F(0.0003));
    assert_eq!(v.deribit_option_premium_cap_rate, F(0.125));
    assert_eq!((v.fee_rate, v.spot_fee_rate, v.poll_secs), (F(0.00024), F(0.00024), 15));
}

#[test]
fn monitor_settings_are_bounded_and_fall_back() {
    let vars: Vec<(String, String)> = [("OPTION_ARB_POLL_SECS", "2"), ("OPTION_ARB_FEE_RATE", "0.001")]
        .iter()
        .map(|(k, v)| (k.to_string(), v.to_string()))
        .collect();
    let c: Config<F> = Config::from_env(&vars);
    assert_eq!((c.poll_secs, c.spot_fee_rate), (5, F(0.001)));
    let mut both = vars;
    both.push(("OPTION_ARB_SPOT_FEE_RATE".to_string(), "0.002".to_string()));
    let c: Config<F> = Config::from_env(&both);
    assert_eq!(c.spot_fee_rate, F(0.002));
    let warming = Snapshot::warming(&c);
    assert_eq!((warming.status.as_str(), warming.generated_at.as_str()), ("warming_up", ""));
    assert!(warming.markets.is_empty() && warming.opportunities.is_empty() && warming.errors.is_empty());
}

#[test]
fn a_snapshot_is_collected_step_by_step() {
    let mut collector = Collector::new(&config(), NOW);
    assert!(matches!(collector.request(), Request::Spot { underlying: "BTC", symbol: "BTCUSDT" }));
    collector.on_spot(Ok(spot()));
    assert!(matches!(collector.request(), Request::Summaries { underlying: "BTC" }));
    collector.on_summaries(Ok(vec![
        summary("BTC-25SEP26-64000-C", 0.0400, 0.0410),
        summary("BTC-25SEP26-64000-P", 0.0020, 0.0030),
        summary("BTC-25SEP26-66000-C", 0.0400, 0.0410),
        summary("BTC-25SEP26-66000-P", 0.0020, 0.0030),
    ]));
    let mut asked = Vec::new();
    while let Request::Book { instrument } = collector.request() {
        asked.push(instrument.clone());
        if instrument == "BTC-25SEP26-66000-P" {
            collector.on_book(Err("timeout".to_string()));
        } else if instrument.ends_with("C") {
            collector.on_book(Ok(top(&instrument, 0.0400, 0.0410, 1.0, 1.0)));
        } else {
            collector.on_book(Ok(top(&instrument, 0.0020, 0.0030, 1.0, 1.0)));
        }
    }
    assert_eq!(
        asked,
        vec!["BTC-25SEP26-66000-C", "BTC-25SEP26-66000-P", "BTC-25SEP26-64000-C", "BTC-25SEP26-64000-P"]
    );
    assert!(matches!(collector.request(), Request::Spot { underlying: "ETH", symbol: "ETHUSDT" }));
    collector.on_spot(Err("refused".to_string()));
    assert!(matches!(collector.request(), Request::Finished));

    let snapshot = collector.finish();
    assert_eq!(snapshot.status, "partial");
    assert_eq!(snapshot.generated_at, "2026-07-08T00:00:00+00:00");
    assert_eq!(
        snapshot.errors,
        vec!["Deribit order book BTC-25SEP26-66000-P: timeout", "ETH Binance ETHUSDT: refused"]
    );
    assert_eq!(snapshot.markets.len(), 1);
    assert_eq!((snapshot.markets[0].option_summaries, snapshot.markets[0].rough_candidates), (4, 2));
    assert_eq!(snapshot.opportunities.len(), 1);
    assert_eq!(snapshot.opportunities[0].strike, F(64_000.0));
}

#[test]
fn a_market_without_options_is_shown_and_noted() {
    let mut collector = Collector::new(&config(), NOW);
    collector.on_spot(Ok(spot()));
    collector.on_summaries(Err("down".to_string()));
    collector.on_spot(Ok(spot()));
    collector.on_summaries(Ok(Vec::new()));
    let snapshot = collector.finish();
    assert_eq!(snapshot.errors, vec!["BTC Deribit summaries: down"]);
    assert_eq!(snapshot.markets.len(), 2);

    let mut quiet = Collector::new(&config(), NOW);
    quiet.on_spot(Ok(spot()));
    quiet.on_summaries(Ok(Vec::new()));
    quiet.on_spot(Ok(spot()));
    quiet.on_summaries(Ok(Vec::new()));
    assert_eq!(quiet.finish().status, "ok");
}

#[test]
fn candidates_beyond_the_limit_are_not_verified() {
    let mut cfg = config();
    cfg.max_candidates = 1;
    let mut collector = Collector::new(&cfg, NOW);
    collector.on_spot(Ok(spot()));
    collector.choose_candidates(spot(), 9, vec![candidate(Strategy::Conversion), candidate(Strategy::Reversal)]);
    let mut asked = 0;
    while let Request::Book { instrument } = collector.request() {
        asked += 1;
        collector.on_book(Ok(top(&instrument, 0.0400, 0.0410, 1.0, 1.0)));
    }
    assert_eq!(asked, 2);
    assert_eq!(collector.markets[0].rough_candidates, 2);
}

fn snapshot(opportunities: Vec<Opportunity<F>>) -> Snapshot<F> {
    Snapshot {
        generated_at: "2026-07-08T00:00:00Z".to_string(),
        status: "ok".to_string(),
        config: ConfigView {
            poll_secs: 15,
            fee_rate: F(0.00024),
            spot_fee_rate: F(0.00024),
            deribit_option_fee_underlying: F(0.0003),
            deribit_option_premium_cap_rate: F(0.125),
            min_annualized: F(0.1),
            max_candidates: 40,
            history_max_records: 1,
        },
        markets: Vec::new(),
        opportunities,
        errors: Vec::new(),
    }
}

fn opportunity(id: &str) -> Opportunity<F> {
    Opportunity {
        id: id.to_string(),
        underlying: "BTC".to_string(),
        strategy: Strategy::Conversion,
        expiry: "25SEP26".to_string(),
        expiry_utc: "2026-09-25T08:00:00Z".to_string(),
        days_to_expiry: F(80.0),
        strike: F(100_000.0),
        quantity: F(1.0),
        notional_usd: F(100_000.0),
        gross_profit_usd: F(150.0),
        fees_usd: F(30.0),
        net_profit_usd: F(120.0),
        net_profit_per_unit_usd: F(120.0),
        profit_rate: F(0.0012),
        annualized_profit_rate: F(0.21),
        spot_bid: F(99_990.0),
        spot_ask: F(100_000.0),
        call: option_book("BTC-25SEP26-100000-C"),
        put: option_book("BTC-25SEP26-100000-P"),
        legs: vec![OrderLeg {
            venue: "Binance Spot".to_string(),
            instrument: "BTCUSDT".to_string(),
            action: "BUY".to_string(),
            price: F(100_000.0),
            price_unit: "USDT".to_string(),
            quantity: F(1.0),
            available_quantity: F(1.0),
            notional_usd: F(100_000.0),
            fee_usd: F(24.0),
        }],
        note: "test".to_string(),
    }
}

fn option_book(instrument: &str) -> OptionBookView<F> {
    OptionBookView {
        instrument: instrument.to_string(),
        bid_price: Some(F(0.01)),
        ask_price: Some(F(0.011)),
        bid_amount: F(1.0),
        ask_amount: F(1.0),
        open_interest: None,
        volume: None,
    }
}

#[test]
fn appends_records_and_loads_recent_limit() {
    let mut cfg = config();
    cfg.history_path = "option-arb-history.jsonl".to_string();
    cfg.history_max_records = 1;
    let store = HistoryStore::from_config(&cfg);
    assert_eq!((store.path.as_str(), store.max_records), ("option-arb-history.jsonl", 1));

    let appended = store.append_snapshot(&snapshot(vec![opportunity("one"), opportunity("two")]), "2026-07-08T00:00:01Z");
    assert_eq!(appended.len(), 2);
    assert_eq!(appended[0].record_id, "2026-07-08T00:00:00Z:one");
    assert_eq!(appended[1].recorded_at, "2026-07-08T00:00:01Z");
    assert_eq!(appended[1].snapshot_generated_at, "2026-07-08T00:00:00Z");

    let records: Vec<OpportunityRecord<F>> = store.load_recent(appended);
    assert_eq!(records.len(), 1);
    assert_eq!(records[0].opportunity.id, "two");
    assert_eq!(records[0].min_annualized, F(0.1));
    assert_eq!(records[0].opportunity.legs.len(), 1);
}

#[test]
fn history_keeps_the_newest() {
    let store = HistoryStore { path: String::new(), max_records: 3 };
    let mut held = vec![1, 2];
    store.keep_records(&mut held, vec![3]);
    assert_eq!(held, vec![1, 2, 3]);
    store.keep_records(&mut held, vec![4, 5]);
    assert_eq!(held, vec![3, 4, 5]);
    store.trim_to_limit(&mut held);
    assert_eq!(held, vec![3, 4, 5]);
    // trimming as records come keeps what trimming at the end keeps
    let mut at_once = vec![1, 2, 3, 4, 5];
    store.trim_to_limit(&mut at_once);
    assert_eq!(held, at_once);
    assert!(holds_record("{}"));
    assert!(!holds_record(" \t\r"));
    assert!(!holds_record(""));
    assert!(!holds_record("\u{3000}"));
}

#[test]
fn a_failed_append_makes_the_snapshot_partial() {
    let store = HistoryStore { path: String::new(), max_records: 2 };
    let mut snap = snapshot(vec![opportunity("one")]);
    let mut history: Vec<OpportunityRecord<F>> = Vec::new();
    let records = store.append_snapshot(&snap, "now");
    after_append(&mut snap, &store, &mut history, Ok(records));
    assert_eq!((snap.status.as_str(), history.len()), ("ok", 1));
    after_append(&mut snap, &store, &mut history, Err("disk full".to_string()));
    assert_eq!((snap.status.as_str(), history.len()), ("partial", 1));
    assert_eq!(snap.errors, vec!["history append failed: disk full"]);
}

#[test]
fn a_snapshot_is_copied() {
    let mut snap = snapshot(vec![opportunity("one"), opportunity("two")]);
    snap.errors.push("late".to_string());
    snap.markets.push(MarketView {
        underlying: "BTC".to_string(),
        spot_symbol: "BTCUSDT".to_string(),
        spot_bid: F(1.0),
        spot_ask: F(2.0),
        spot_bid_qty: F(3.0),
        spot_ask_qty: F(4.0),
        option_summaries: 5,
        rough_candidates: 6,
    });
    assert_eq!(format!("{:?}", snap.clone()), format!("{:?}", snap));
}
