//! Listings, streams and subscriptions on floating-point numbers.
use option_arb::binance::rest::{build_universe, OptionSymbol};
use option_arb::binance::ws_options::{
    apply_message, apply_ticker, handle_msg, options_url, react, sub_frames, Reaction, SubCmd, Subscriptions,
};
use option_arb::binance::ws_spot::{apply_spot, handle_spot, handle_spot_at, spot_stream, spot_url};
use option_arb::model::{parse_f64, strike_key, Quotes, Universe};
use option_arb::poller::{option_mark_price_stream, plan_change, wanted_streams, Poller};
use option_arb::scalar::{Chars, Scalar};

/// A floating-point number.
#[derive(Clone, Copy, Debug, PartialEq)]
struct F(f64);

impl Scalar for F {
    fn plus(self, rhs: F) -> F {
        F(self.0 + rhs.0)
    }

    fn minus(self, rhs: F) -> F {
        F(self.0 - rhs.0)
    }

    fn times(self, rhs: F) -> F {
        F(self.0 * rhs.0)
    }

    fn over(self, rhs: F) -> F {
        F(self.0 / rhs.0)
    }

    fn less(self, rhs: F) -> bool {
        self.0 < rhs.0
    }

    fn at_most(self, rhs: F) -> bool {
        self.0 <= rhs.0
    }

    fn least(self, rhs: F) -> F {
        F(self.0.min(rhs.0))
    }

    fn finite(self) -> bool {
        self.0.is_finite()
    }

    fn of_int(n: i128) -> F {
        F(n as f64)
    }

    fn round(self) -> i64 {
        self.0.round() as i64
    }

    fn parse(text: &str) -> Option<F> {
        text.parse().ok().map(F)
    }

    fn fixed4(self) -> String {
        format!("{:.4}", self.0)
    }

    fn plus_spec(self, rhs: F) -> F {
        self.plus(rhs)
    }

    fn minus_spec(self, rhs: F) -> F {
        self.minus(rhs)
    }

    fn times_spec(self, rhs: F) -> F {
        self.times(rhs)
    }

    fn over_spec(self, rhs: F) -> F {
        self.over(rhs)
    }

    fn less_spec(self, rhs: F) -> bool {
        self.less(rhs)
    }

    fn at_most_spec(self, rhs: F) -> bool {
        self.at_most(rhs)
    }

    fn least_spec(self, rhs: F) -> F {
        self.least(rhs)
    }

    fn finite_spec(self) -> bool {
        self.finite()
    }

    fn of_int_spec(n: i128) -> F {
        F::of_int(n)
    }

    fn round_spec(self) -> i64 {
        self.round()
    }

    fn parse_spec(_text: Chars) -> Option<F> {
        unreachable!("only contracts speak of it")
    }

    fn fixed4_spec(self) -> Chars {
        unreachable!("only contracts speak of it")
    }

    fn less_is_strict(_a: F, _b: F) {}

    fn at_most_is_ordered(_a: F, _b: F) {}

    fn at_most_is_transitive(_a: F, _b: F, _c: F) {}

    fn at_most_is_total(_a: F, _b: F) {}

    fn least_is_lower_bound(_a: F, _b: F) {}
}

fn sym(symbol: &str, side: &str, strike: &str) -> OptionSymbol {
    OptionSymbol {
        symbol: symbol.to_string(),
        side: side.to_string(),
        strike_price: strike.to_string(),
        expiry_date: 1_790_000_000_000,
        status: "TRADING".to_string(),
    }
}

#[test]
fn pairs_call_and_put_filters_non_trading_and_other_underlying() {
    let mut symbols = vec![
        sym("BTC-260925-145000-C", "CALL", "145000"),
        sym("BTC-260925-145000-P", "PUT", "145000"),
        sym("ETH-260925-3000-C", "CALL", "3000"),
    ];
    let mut expired = sym("BTC-260925-150000-C", "CALL", "150000");
    expired.status = "EXPIRED".to_string();
    symbols.push(expired);

    let uni: Universe<F> = build_universe(&symbols, "BTC");
    assert_eq!(uni.expiries.len(), 1);
    let entry = uni.expiries.get(&"260925".to_string()).unwrap();
    assert_eq!(entry.strikes.len(), 1);
    let pair = entry.strikes.get(&strike_key(F(145000.0))).unwrap();
    assert_eq!(pair.call.as_deref(), Some("BTC-260925-145000-C"));
    assert_eq!(pair.put.as_deref(), Some("BTC-260925-145000-P"));
}

#[test]
fn listings_without_four_parts_or_a_strike_are_passed_over() {
    let symbols = vec![
        sym("BTC-260925-145000", "CALL", "145000"),
        sym("BTC-260925-145000-C-X", "CALL", "145000"),
        sym("BTC-260925-145000-C", "CALL", "many"),
        sym("BTC-260926-145000-X", "OTHER", "145000"),
        sym("BTC-260927-145000-C", "CALL", "145000"),
        sym("BTC-260927-145000.0-C", "CALL", "145000.0"),
    ];
    let uni: Universe<F> = build_universe(&symbols, "BTC");
    assert_eq!(uni.expiries.len(), 2);
    let other = uni.expiries.get(&"260926".to_string()).unwrap();
    assert_eq!(other.expiry_ms, 1_790_000_000_000);
    let pair = other.strikes.get(&145_000_000).unwrap();
    assert!(pair.call.is_none() && pair.put.is_none());
    let last = uni.expiries.get(&"260927".to_string()).unwrap();
    assert_eq!(last.strikes.len(), 1);
    assert_eq!(last.strikes.get(&145_000_000).unwrap().call.as_deref(), Some("BTC-260927-145000.0-C"));
}

#[test]
fn option_mark_price_stream_uses_lower_underlying_pair() {
    assert_eq!(option_mark_price_stream("BTCUSDT"), "btcusdt@optionMarkPrice");
}

#[test]
fn streams_follow_the_listing() {
    assert_eq!(wanted_streams(true, "ETHUSDT"), vec!["ethusdt@optionMarkPrice".to_string()]);
    assert!(wanted_streams(false, "ETHUSDT").is_empty());
}

fn texts(items: &[&str]) -> Vec<String> {
    items.iter().map(|s| s.to_string()).collect()
}

#[test]
fn change_leads_from_the_last_streams_to_the_wanted() {
    assert!(plan_change(&texts(&["a", "b"]), &texts(&["b", "a"])).is_none());
    let cmd = plan_change(&texts(&["a", "b"]), &texts(&["b", "c"])).unwrap();
    assert_eq!(cmd.subscribe, texts(&["c"]));
    assert_eq!(cmd.unsubscribe, texts(&["a"]));

    let mut subs = Subscriptions::new();
    assert!(subs.can_open() && subs.can_change(&cmd));
    let full = Subscriptions { streams: texts(&["a"]), next_id: u64::MAX };
    assert!(!full.can_open() && !full.can_change(&cmd));
    subs.change(&SubCmd { subscribe: texts(&["a", "b"]), unsubscribe: Vec::new() });
    let frames = subs.change(&cmd);
    assert_eq!(subs.streams, texts(&["b", "c"]));
    assert_eq!(
        frames,
        texts(&[
            "{\"id\":2,\"method\":\"SUBSCRIBE\",\"params\":[\"c\"]}",
            "{\"id\":3,\"method\":\"UNSUBSCRIBE\",\"params\":[\"a\"]}",
        ])
    );
    assert_eq!(subs.next_id, 4);
    assert_eq!(
        subs.opening_frames(),
        texts(&["{\"id\":4,\"method\":\"SUBSCRIBE\",\"params\":[\"b\",\"c\"]}"])
    );
    assert_eq!(subs.next_id, 5);
}

#[test]
fn changes_name_each_stream_once_and_in_order() {
    let cmd = plan_change(&texts(&["x", "a", "y", "b"]), &texts(&["c", "a", "d", "e"])).unwrap();
    assert_eq!(cmd.subscribe, texts(&["c", "d", "e"]));
    assert_eq!(cmd.unsubscribe, texts(&["x", "y", "b"]));
}

#[test]
fn the_stream_is_turned_on_and_off_with_the_listing() {
    let stream = texts(&["btcusdt@optionMarkPrice"]);
    let mut poller = Poller::new();
    assert!(poller.on_listing(false, "BTCUSDT").is_none());
    let on = poller.on_listing(true, "BTCUSDT").unwrap();
    assert_eq!((on.subscribe, on.unsubscribe), (stream.clone(), Vec::new()));
    assert_eq!(poller.streams, stream);
    assert!(poller.on_listing(true, "BTCUSDT").is_none());
    let off = poller.on_listing(false, "BTCUSDT").unwrap();
    assert_eq!((off.subscribe, off.unsubscribe), (Vec::new(), stream));
    assert!(poller.streams.is_empty());
    assert!(poller.on_listing(false, "BTCUSDT").is_none());
}

#[test]
fn frames_name_fifty_streams_at_most() {
    let names: Vec<String> = (0..120).map(|i| format!("s{i}")).collect();
    let mut id: u64 = 7;
    let frames = sub_frames("SUBSCRIBE", &names, &mut id);
    assert_eq!(frames.len(), 3);
    assert_eq!(id, 10);
    let mut seen: Vec<String> = Vec::new();
    for (k, frame) in frames.iter().enumerate() {
        let v: serde_json::Value = serde_json::from_str(frame).unwrap();
        assert_eq!(v["method"], "SUBSCRIBE");
        assert_eq!(v["id"], 7 + k as u64);
        let params = v["params"].as_array().unwrap();
        assert!(params.len() <= 50);
        for p in params {
            seen.push(p.as_str().unwrap().to_string());
        }
    }
    assert_eq!(seen, names);
    assert!(sub_frames("SUBSCRIBE", &Vec::new(), &mut id).is_empty());
    assert_eq!(id, 10);
}

#[test]
fn messages_are_answered_read_or_end_the_connection() {
    assert_eq!(react(true, true, true), Reaction::Pong);
    assert_eq!(react(false, true, true), Reaction::Reconnect);
    assert_eq!(react(false, false, true), Reaction::Read);
    assert_eq!(react(false, false, false), Reaction::Skip);
}

#[test]
fn addresses_have_one_slash() {
    assert_eq!(options_url("wss://fstream.binance.com/market//"), "wss://fstream.binance.com/market/ws");
    assert_eq!(spot_stream("BTCUSDT"), "btcusdt@bookTicker");
    assert_eq!(
        spot_url("wss://stream.binance.com:9443/", "btcusdt@bookTicker"),
        "wss://stream.binance.com:9443/ws/btcusdt@bookTicker"
    );
}

#[test]
fn quotes_come_in_arrays_in_wrappers_and_alone() {
    let mut quotes: Quotes<F> = Quotes::new();
    handle_msg(
        b"[{\"s\":\"A\",\"bo\":\"1.5\",\"bq\":2,\"ao\":\"x\",\"E\":17},{\"bo\":\"9\"},{\"s\":\"A\",\"bo\":\"2.5\"}]",
        &mut quotes,
    );
    let a = quotes.option("A");
    assert_eq!((a.bid, a.bid_qty, a.ask, a.ts_ms), (F(2.5), F(0.0), F(0.0), 0));

    handle_msg(b"{\"stream\":\"x\",\"data\":[{\"s\":\"B\",\"ao\":3.25,\"aq\":\"4\",\"E\":18}]}", &mut quotes);
    let b = quotes.option("B");
    assert_eq!((b.ask, b.ask_qty, b.ts_ms), (F(3.25), F(4.0), 18));
    assert!(b.has_ask() && !b.has_bid());

    handle_msg(b"{\"data\":{\"s\":\"C\",\"bo\":1,\"bq\":1}}", &mut quotes);
    assert!(quotes.option("C").has_bid());

    handle_msg(b"{\"e\":\"ticker\",\"s\":\"D\",\"bo\":\"7\"}", &mut quotes);
    assert_eq!(quotes.option("D").bid, F(7.0));

    handle_msg(b"{\"result\":null,\"id\":1,\"s\":\"E\",\"bo\":\"7\"}", &mut quotes);
    handle_msg(b"not json", &mut quotes);
    handle_msg(b"17", &mut quotes);
    assert_eq!(quotes.option("E").bid, F(0.0));
    assert_eq!(quotes.spot_snapshot().bid, F(0.0));

    let single: serde_json::Value = serde_json::from_str("{\"s\":\"G\",\"bo\":\"5\"}").unwrap();
    apply_ticker(&single, &mut quotes);
    assert_eq!(quotes.option("G").bid, F(5.0));
    let wrapped: serde_json::Value = serde_json::from_str("[{\"s\":\"G\",\"bo\":\"6\"}]").unwrap();
    apply_message(&wrapped, &mut quotes);
    assert_eq!(quotes.option("G").bid, F(6.0));
}

#[test]
fn spot_quotes_need_both_prices() {
    let mut quotes: Quotes<F> = Quotes::new();
    let message = b"{\"u\":1,\"s\":\"BTCUSDT\",\"b\":\"60000.5\",\"B\":\"2\",\"a\":\"60001\",\"A\":\"3\"}";
    handle_spot_at(message, &mut quotes, 42);
    let top = quotes.spot_snapshot();
    assert_eq!((top.bid, top.bid_qty, top.ask, top.ask_qty, top.ts_ms), (F(60000.5), F(2.0), F(60001.0), F(3.0), 42));
    handle_spot_at(b"{\"b\":\"1\"}", &mut quotes, 43);
    handle_spot_at(b"[1]", &mut quotes, 44);
    handle_spot_at(b"", &mut quotes, 45);
    assert_eq!(quotes.spot_snapshot().ts_ms, 42);
    let v: serde_json::Value = serde_json::from_str("{\"b\":1,\"a\":2}").unwrap();
    apply_spot(&v, &mut quotes, 46);
    assert_eq!(quotes.spot_snapshot().ask, F(2.0));
    handle_spot(message, &mut quotes);
    assert_eq!(quotes.spot_snapshot().bid, F(60000.5));
    assert!(quotes.spot_snapshot().ts_ms > 46);
}

#[test]
fn numbers_are_read_from_texts_and_numbers() {
    let v: serde_json::Value = serde_json::from_str("[\"1.25\",2.5,3,\"x\",null,true,-0.5]").unwrap();
    let read: Vec<F> = v.as_array().unwrap().iter().map(parse_f64).collect();
    assert_eq!(read, vec![F(1.25), F(2.5), F(3.0), F(0.0), F(0.0), F(0.0), F(-0.5)]);
}

#[test]
fn a_change_of_subscriptions_is_copied() {
    let change = SubCmd { subscribe: texts(&["a", "b"]), unsubscribe: texts(&["c"]) };
    let copy = change.clone();
    assert_eq!((copy.subscribe, copy.unsubscribe), (texts(&["a", "b"]), texts(&["c"])));
}
