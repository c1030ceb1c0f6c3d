//! What the scanner computes of one position: its legs, fees and rates, and
//! what becomes of it. Only the top of the books is used.
//!
//! At one expiry and strike, closing a reversal is doing a conversion, and the
//! other way round. The strike cancels out over the round trip, so the two
//! profit formulas serve both ways.
use crate::config::Config;
use crate::fixed::Fixed;
use crate::model::{strike_key, strike_key_spec, BookTop, Position, PositionView};
use crate::scalar::{zero, zero_spec, Scalar};
use crate::text::{
    decimal, decimal2, decimal2_text, decimal_is_injective, decimal_text, digits, digits_denote_their_number,
    first_separator_is_unique, is_digit, last_separator_is_unique, same_text,
};
use vstd::prelude::*;
use vstd::string::*;

verus! {

// ---------------------------------------------------------------------------
// Formulas
// ---------------------------------------------------------------------------
/// `spot_bid + put_bid - call_ask - strike`.
pub open spec fn reversal_spec<N: Scalar>(spot_bid: N, put_bid: N, call_ask: N, strike: N) -> N {
    spot_bid.plus_spec(put_bid).minus_spec(call_ask).minus_spec(strike)
}

/// `call_bid - put_ask + strike - spot_ask`.
pub open spec fn conversion_spec<N: Scalar>(call_bid: N, put_ask: N, strike: N, spot_ask: N) -> N {
    call_bid.minus_spec(put_ask).plus_spec(strike).minus_spec(spot_ask)
}

/// A rate over a year of 365 days; zero where no time passes.
pub open spec fn annual_rate_spec<N: Scalar>(rate: N, days: N) -> N {
    if zero_spec::<N>().less_spec(days) {
        rate.times_spec(N::of_int_spec(365)).over_spec(days)
    } else {
        zero_spec::<N>()
    }
}

/// The days between two timestamps in milliseconds.
pub open spec fn days_spec<N: Scalar>(from_ms: i64, to_ms: i64) -> N {
    N::of_int_spec((to_ms - from_ms) as i128).over_spec(N::of_int_spec(86_400_000))
}

/// The fees of the three legs: the spot leg at its rate, the option legs at theirs.
pub open spec fn leg_fees_spec<N: Scalar>(
    spot_price: N,
    call_price: N,
    put_price: N,
    spot_rate: N,
    option_rate: N,
) -> N {
    spot_rate.times_spec(spot_price).plus_spec(option_rate.times_spec(call_price.plus_spec(put_price)))
}

/// Reversal: buy the call, sell the put, sell the spot. Gross profit per coin.
pub fn reversal_profit<N: Scalar>(spot_bid: N, put_bid: N, call_ask: N, strike: N) -> (r: N)
    ensures
        r == reversal_spec(spot_bid, put_bid, call_ask, strike),
{
    spot_bid.plus(put_bid).minus(call_ask).minus(strike)
}

/// Conversion: sell the call, buy the put, buy the spot. Gross profit per coin.
pub fn conversion_profit<N: Scalar>(call_bid: N, put_ask: N, strike: N, spot_ask: N) -> (r: N)
    ensures
        r == conversion_spec(call_bid, put_ask, strike, spot_ask),
{
    call_bid.minus(put_ask).plus(strike).minus(spot_ask)
}

/// A rate over a year, by the days that it took.
pub fn annualize_over_days<N: Scalar>(rate: N, days: N) -> (r: N)
    ensures
        r == annual_rate_spec(rate, days),
{
    if zero::<N>().less(days) {
        rate.times(N::of_int(365)).over(days)
    } else {
        zero()
    }
}

/// The days between two timestamps in milliseconds.
pub fn days_between<N: Scalar>(from_ms: i64, to_ms: i64) -> (r: N)
    ensures
        r == days_spec::<N>(from_ms, to_ms),
{
    N::of_int(to_ms as i128 - from_ms as i128).over(N::of_int(86_400_000))
}

/// A rate over a year, by the days to expiry.
pub fn annualize<N: Scalar>(rate: N, expiry_ms: i64, now: i64) -> (r: N)
    ensures
        r == annual_rate_spec(rate, days_spec::<N>(now, expiry_ms)),
{
    annualize_over_days(rate, days_between(now, expiry_ms))
}

/// The fees of the three legs per coin.
pub fn trading_fee_per_btc<N: Scalar>(
    spot_price: N,
    call_price: N,
    put_price: N,
    spot_rate: N,
    option_rate: N,
) -> (r: N)
    ensures
        r == leg_fees_spec(spot_price, call_price, put_price, spot_rate, option_rate),
{
    spot_rate.times(spot_price).plus(option_rate.times(call_price.plus(put_price)))
}

// ---------------------------------------------------------------------------
// Legs
// ---------------------------------------------------------------------------
/// One side of a round trip at the top of the books: its gross profit, the
/// prices of its three legs and how much of it can be done.
#[derive(Debug)]
pub struct Legs<N> {
    pub gross: N,
    pub spot: N,
    pub call: N,
    pub put: N,
    pub qty: N,
}

impl<N: Copy> Clone for Legs<N> {
    fn clone(&self) -> (r: Self)
        ensures
            r == *self,
    {
        *self
    }
}

impl<N: Copy> Copy for Legs<N> {

}

/// The legs of a reversal, where all three sides are quoted.
pub open spec fn reversal_legs<N: Scalar>(
    call: BookTop<N>,
    put: BookTop<N>,
    spot: BookTop<N>,
    strike: N,
) -> Option<Legs<N>> {
    if call.ask_quoted() && put.bid_quoted() && spot.bid_quoted() {
        Some(
            Legs {
                gross: reversal_spec(spot.bid, put.bid, call.ask, strike),
                spot: spot.bid,
                call: call.ask,
                put: put.bid,
                qty: call.ask_qty.least_spec(put.bid_qty).least_spec(spot.bid_qty),
            },
        )
    } else {
        None
    }
}

/// The legs of a conversion, where all three sides are quoted.
pub open spec fn conversion_legs<N: Scalar>(
    call: BookTop<N>,
    put: BookTop<N>,
    spot: BookTop<N>,
    strike: N,
) -> Option<Legs<N>> {
    if call.bid_quoted() && put.ask_quoted() && spot.ask_quoted() {
        Some(
            Legs {
                gross: conversion_spec(call.bid, put.ask, strike, spot.ask),
                spot: spot.ask,
                call: call.bid,
                put: put.ask,
                qty: call.bid_qty.least_spec(put.ask_qty).least_spec(spot.ask_qty),
            },
        )
    } else {
        None
    }
}

/// The legs that open a position.
pub open spec fn opening_legs<N: Scalar>(
    kind: Seq<char>,
    call: BookTop<N>,
    put: BookTop<N>,
    spot: BookTop<N>,
    strike: N,
) -> Option<Legs<N>> {
    if kind == "reversal"@ {
        reversal_legs(call, put, spot, strike)
    } else {
        conversion_legs(call, put, spot, strike)
    }
}

/// The legs that close a position: those of the opposite action.
pub open spec fn closing_legs<N: Scalar>(
    kind: Seq<char>,
    call: BookTop<N>,
    put: BookTop<N>,
    spot: BookTop<N>,
    strike: N,
) -> Option<Legs<N>> {
    if kind == "reversal"@ {
        conversion_legs(call, put, spot, strike)
    } else {
        reversal_legs(call, put, spot, strike)
    }
}

/// The legs of a reversal: the call at its ask, the put and the spot at their bids.
pub fn open_reversal<N: Scalar>(call: &BookTop<N>, put: &BookTop<N>, spot: &BookTop<N>, strike: N) -> (r:
    Option<Legs<N>>)
    ensures
        r == reversal_legs(*call, *put, *spot, strike),
{
    if call.has_ask() && put.has_bid() && spot.has_bid() {
        Some(
            Legs {
                gross: reversal_profit(spot.bid, put.bid, call.ask, strike),
                spot: spot.bid,
                call: call.ask,
                put: put.bid,
                qty: call.ask_qty.least(put.bid_qty).least(spot.bid_qty),
            },
        )
    } else {
        None
    }
}

/// The legs of a conversion: the call at its bid, the put and the spot at their asks.
pub fn open_conversion<N: Scalar>(call: &BookTop<N>, put: &BookTop<N>, spot: &BookTop<N>, strike: N) -> (r:
    Option<Legs<N>>)
    ensures
        r == conversion_legs(*call, *put, *spot, strike),
{
    if call.has_bid() && put.has_ask() && spot.has_ask() {
        Some(
            Legs {
                gross: conversion_profit(call.bid, put.ask, strike, spot.ask),
                spot: spot.ask,
                call: call.bid,
                put: put.ask,
                qty: call.bid_qty.least(put.ask_qty).least(spot.ask_qty),
            },
        )
    } else {
        None
    }
}

/// The legs that open a position of a kind.
pub fn open_legs<N: Scalar>(
    kind: &str,
    call: &BookTop<N>,
    put: &BookTop<N>,
    spot: &BookTop<N>,
    strike: N,
) -> (r: Option<Legs<N>>)
    ensures
        r == opening_legs(kind@, *call, *put, *spot, strike),
{
    if same_text(kind, "reversal") {
        open_reversal(call, put, spot, strike)
    } else {
        open_conversion(call, put, spot, strike)
    }
}

/// The legs that close a position of a kind, where the books allow it.
pub fn close_legs<N: Scalar>(
    kind: &str,
    call: &BookTop<N>,
    put: &BookTop<N>,
    spot: &BookTop<N>,
    strike: N,
) -> (r: Option<Legs<N>>)
    ensures
        r == closing_legs(kind@, *call, *put, *spot, strike),
{
    if same_text(kind, "reversal") {
        open_conversion(call, put, spot, strike)
    } else {
        open_reversal(call, put, spot, strike)
    }
}

// ---------------------------------------------------------------------------
// Rules
// ---------------------------------------------------------------------------
/// The rates and thresholds that the scanner goes by.
#[derive(Debug)]
pub struct ScanRules<N> {
    pub spot_fee_rate: N,
    pub option_fee_rate: N,
    /// Charged at expiry on the option that is exercised.
    pub exercise_fee_rate: N,
    pub min_profit_rate: N,
    pub min_annual_rate: N,
    pub min_exec_qty: N,
    /// How much a position may lose if it were closed at once.
    pub max_open_mark_loss: N,
    /// A position is closed at this share of the rate that it locked in.
    pub close_rate_discount: N,
    /// The least time between two records of one position, and between the end
    /// of one and the next at the same place.
    pub record_interval_ms: i64,
}

impl<N: Copy> Clone for ScanRules<N> {
    fn clone(&self) -> (r: Self)
        ensures
            r == *self,
    {
        *self
    }
}

impl<N: Copy> Copy for ScanRules<N> {

}

impl<N: Scalar> ScanRules<N> {
    /// The rules of a configuration, which charges every leg at one rate.
    pub fn from_config(config: &Config<N>, max_open_mark_loss: N) -> (r: Self)
        ensures
            r == (ScanRules {
                spot_fee_rate: config.fee_rate,
                option_fee_rate: config.fee_rate,
                exercise_fee_rate: config.exercise_fee_rate,
                min_profit_rate: config.min_profit_rate,
                min_annual_rate: config.min_annual_rate,
                min_exec_qty: config.min_exec_qty,
                max_open_mark_loss,
                close_rate_discount: config.close_rate_discount,
                record_interval_ms: config.record_interval_ms,
            }),
    {
        ScanRules {
            spot_fee_rate: config.fee_rate,
            option_fee_rate: config.fee_rate,
            exercise_fee_rate: config.exercise_fee_rate,
            min_profit_rate: config.min_profit_rate,
            min_annual_rate: config.min_annual_rate,
            min_exec_qty: config.min_exec_qty,
            max_open_mark_loss,
            close_rate_discount: config.close_rate_discount,
            record_interval_ms: config.record_interval_ms,
        }
    }
}

/// The fees of one side of a round trip.
pub open spec fn side_fees<N: Scalar>(legs: Legs<N>, rules: ScanRules<N>) -> N {
    leg_fees_spec(legs.spot, legs.call, legs.put, rules.spot_fee_rate, rules.option_fee_rate)
}

fn fees_of<N: Scalar>(legs: &Legs<N>, rules: &ScanRules<N>) -> (r: N)
    ensures
        r == side_fees(*legs, *rules),
{
    trading_fee_per_btc(legs.spot, legs.call, legs.put, rules.spot_fee_rate, rules.option_fee_rate)
}

// ---------------------------------------------------------------------------
// Names
// ---------------------------------------------------------------------------
/// `{kind}|{expiry}|{strike_key}`.
pub open spec fn pos_key_spec<N: Scalar>(kind: Seq<char>, expiry: Seq<char>, strike: N) -> Seq<char> {
    kind + "|"@ + expiry + "|"@ + decimal(strike_key_spec(strike) as int)
}

/// `{kind}-{expiry}-{strike_key}-{open_ts}`.
pub open spec fn pos_id_spec<N: Scalar>(kind: Seq<char>, expiry: Seq<char>, strike: N, open_ts: i64) -> Seq<
    char,
> {
    kind + "-"@ + expiry + "-"@ + decimal(strike_key_spec(strike) as int) + "-"@ + decimal(open_ts as int)
}

/// The place of a position: its kind, expiry and strike.
pub fn pos_key<N: Scalar>(kind: &str, expiry: &str, strike: N) -> (r: String)
    ensures
        r@ == pos_key_spec(kind@, expiry@, strike),
{
    let mut s = kind.to_owned();
    s.append("|");
    s.append(expiry);
    s.append("|");
    let k = decimal_text(strike_key(strike) as i128);
    s.append(k.as_str());
    s
}

/// The name of a position: its place and when it was opened.
pub fn pos_id<N: Scalar>(kind: &str, expiry: &str, strike: N, open_ts: i64) -> (r: String)
    ensures
        r@ == pos_id_spec(kind@, expiry@, strike, open_ts),
{
    let mut s = kind.to_owned();
    s.append("-");
    s.append(expiry);
    s.append("-");
    let k = decimal_text(strike_key(strike) as i128);
    s.append(k.as_str());
    s.append("-");
    let t = decimal_text(open_ts as i128);
    s.append(t.as_str());
    s
}

/// A remainder with the sign of the dividend.
pub open spec fn signed_rem(n: int, d: int) -> int {
    if n >= 0 {
        n % d
    } else {
        -((-n) % d)
    }
}

/// A quotient cut off towards zero.
pub open spec fn signed_div(n: int, d: int) -> int {
    if n >= 0 {
        n / d
    } else {
        -((-n) / d)
    }
}

/// The time of day of a timestamp: `hh:mm:ss UTC`.
pub open spec fn hms_spec(now_ms: i64) -> Seq<char> {
    let secs = signed_rem(signed_div(now_ms as int, 1000), 86_400);
    decimal2(signed_div(secs, 3600)) + ":"@ + decimal2(signed_div(signed_rem(secs, 3600), 60)) + ":"@ + decimal2(
        signed_rem(secs, 60),
    ) + " UTC"@
}

fn div_towards_zero(n: i128, d: i128) -> (r: i128)
    requires
        0 < d,
        -0x1_0000_0000_0000_0000 < n < 0x1_0000_0000_0000_0000,
    ensures
        r == signed_div(n as int, d as int),
        -0x1_0000_0000_0000_0000 < r < 0x1_0000_0000_0000_0000,
{
    let size: i128 = if n >= 0 {
        n
    } else {
        -n
    };
    let q: i128 = size / d;
    proof {
        assert(0 <= q <= size) by (nonlinear_arith)
            requires
                q == size / d,
                size >= 0,
                d > 0,
        ;
    }
    if n >= 0 {
        q
    } else {
        -q
    }
}

fn rem_towards_zero(n: i128, d: i128) -> (r: i128)
    requires
        0 < d,
        -0x1_0000_0000_0000_0000 < n < 0x1_0000_0000_0000_0000,
    ensures
        r == signed_rem(n as int, d as int),
        -d < r < d,
{
    if n >= 0 {
        n % d
    } else {
        -((-n) % d)
    }
}

/// The time of day of a timestamp.
pub fn hms(now_ms: i64) -> (r: String)
    ensures
        r@ == hms_spec(now_ms),
{
    let secs: i128 = rem_towards_zero(div_towards_zero(now_ms as i128, 1000), 86_400);
    let mut s = decimal2_text(div_towards_zero(secs, 3600));
    s.append(":");
    let m = decimal2_text(div_towards_zero(rem_towards_zero(secs, 3600), 60));
    s.append(m.as_str());
    s.append(":");
    let t = decimal2_text(rem_towards_zero(secs, 60));
    s.append(t.as_str());
    s.append(" UTC");
    s
}

// ---------------------------------------------------------------------------
// The end of a position
// ---------------------------------------------------------------------------
/// The price that an expiry is settled at: the middle of the spot market, or
/// the side that is quoted.
pub open spec fn settlement_spec<N: Scalar>(spot: BookTop<N>) -> N {
    if spot.bid_quoted() && spot.ask_quoted() {
        spot.bid.plus_spec(spot.ask).over_spec(N::of_int_spec(2))
    } else if spot.bid_quoted() {
        spot.bid
    } else if spot.ask_quoted() {
        spot.ask
    } else {
        zero_spec::<N>()
    }
}

/// The price that an expiry is settled at.
pub fn settlement_price<N: Scalar>(spot: &BookTop<N>) -> (r: N)
    ensures
        r == settlement_spec(*spot),
{
    let bid: bool = spot.has_bid();
    let ask: bool = spot.has_ask();
    if bid && ask {
        spot.bid.plus(spot.ask).over(N::of_int(2))
    } else if bid {
        spot.bid
    } else if ask {
        spot.ask
    } else {
        zero()
    }
}

/// A position after its expiry: the spot leg is bought back at the settlement
/// price, and the one option that is in the money is exercised.
pub open spec fn settled_spec<N: Scalar>(
    pos: PositionView<N>,
    spot: BookTop<N>,
    now: i64,
    spot_fee_rate: N,
    exercise_rate: N,
) -> PositionView<N> {
    let p = settlement_spec(spot);
    let spot_close_fee = spot_fee_rate.times_spec(p);
    let exercise_fee = exercise_rate.times_spec(p);
    let net = pos.open_gross.minus_spec(pos.open_fee).minus_spec(spot_close_fee).minus_spec(exercise_fee);
    let rate = net.over_spec(pos.open_spot);
    PositionView {
        status: "settled"@,
        close_ts: now,
        close_spot: p,
        close_call: zero_spec::<N>(),
        close_put: zero_spec::<N>(),
        close_gross: zero_spec::<N>(),
        close_fee: spot_close_fee.plus_spec(exercise_fee),
        net_profit_per_btc: net,
        net_profit_rate: rate,
        hold_annual_rate: annual_rate_spec(rate, days_spec::<N>(pos.open_ts, now)),
        est_profit: net.times_spec(pos.exec_qty),
        ..pos
    }
}

/// Settles a position at its expiry.
pub fn settle_position<N: Scalar>(
    pos: &Position<N>,
    spot: &BookTop<N>,
    now: i64,
    spot_fee_rate: N,
    exercise_rate: N,
) -> (r: Position<N>)
    ensures
        r@ == settled_spec(pos@, *spot, now, spot_fee_rate, exercise_rate),
{
    let p: N = settlement_price(spot);
    let spot_close_fee: N = spot_fee_rate.times(p);
    let exercise_fee: N = exercise_rate.times(p);
    let net: N = pos.open_gross.minus(pos.open_fee).minus(spot_close_fee).minus(exercise_fee);
    let rate: N = net.over(pos.open_spot);
    let ann: N = annualize_over_days(rate, days_between(pos.open_ts, now));
    let mut out = pos.clone();
    out.status = "settled";
    out.close_ts = now;
    out.close_spot = p;
    out.close_call = zero();
    out.close_put = zero();
    out.close_gross = zero();
    out.close_fee = spot_close_fee.plus(exercise_fee);
    out.net_profit_per_btc = net;
    out.net_profit_rate = rate;
    out.hold_annual_rate = ann;
    out.est_profit = net.times(pos.exec_qty);
    out
}

/// The net profit per coin of a round trip: both sides, less six fees.
pub open spec fn roundtrip_net<N: Scalar>(open_gross: N, open_fee: N, closing: Legs<N>, rules: ScanRules<N>) -> N {
    open_gross.plus_spec(closing.gross).minus_spec(open_fee).minus_spec(side_fees(closing, rules))
}

/// A position that is closed early.
pub open spec fn closed_spec<N: Scalar>(
    pos: PositionView<N>,
    closing: Legs<N>,
    rules: ScanRules<N>,
    now: i64,
) -> PositionView<N> {
    let net = roundtrip_net(pos.open_gross, pos.open_fee, closing, rules);
    let rate = net.over_spec(pos.open_spot);
    let exec = pos.exec_qty.least_spec(closing.qty);
    PositionView {
        status: "closed"@,
        close_ts: now,
        close_spot: closing.spot,
        close_call: closing.call,
        close_put: closing.put,
        close_gross: closing.gross,
        close_fee: side_fees(closing, rules),
        exec_qty: exec,
        net_profit_per_btc: net,
        net_profit_rate: rate,
        hold_annual_rate: annual_rate_spec(rate, days_spec::<N>(pos.open_ts, now)),
        est_profit: net.times_spec(exec),
        ..pos
    }
}

/// An open position, valued as if it were closed now.
pub open spec fn marked_spec<N: Scalar>(
    pos: PositionView<N>,
    closing: Legs<N>,
    rules: ScanRules<N>,
) -> PositionView<N> {
    let net = roundtrip_net(pos.open_gross, pos.open_fee, closing, rules);
    PositionView {
        net_profit_per_btc: net,
        net_profit_rate: net.over_spec(pos.open_spot),
        est_profit: net.times_spec(pos.exec_qty),
        ..pos
    }
}

/// What becomes of an open position.
pub enum Fate<P> {
    /// It has expired.
    Settle(P),
    /// It has reached its target.
    Close(P),
    /// It stays open, and its value is recorded.
    Mark(P),
    /// It stays open.
    Hold,
}

impl<N> View for Fate<Position<N>> {
    type V = Fate<PositionView<N>>;

    open spec fn view(&self) -> Fate<PositionView<N>> {
        match *self {
            Fate::Settle(p) => Fate::Settle(p@),
            Fate::Close(p) => Fate::Close(p@),
            Fate::Mark(p) => Fate::Mark(p@),
            Fate::Hold => Fate::Hold,
        }
    }
}

/// Whether enough time has passed since the last record, if there was one.
pub open spec fn is_due(last: Option<i64>, now: i64, interval_ms: i64) -> bool {
    match last {
        Some(t) => now - t >= interval_ms,
        None => true,
    }
}

fn due(last: Option<i64>, now: i64, interval_ms: i64) -> (r: bool)
    ensures
        r == is_due(last, now, interval_ms),
{
    match last {
        Some(t) => now as i128 - t as i128 >= interval_ms as i128,
        None => true,
    }
}

/// What becomes of an open position: it is settled at its expiry, closed where
/// the rate of the round trip has reached its target, and otherwise recorded
/// where that is due. Where its opposite legs are not all quoted it is held.
pub open spec fn fate_spec<N: Scalar>(
    pos: PositionView<N>,
    call: BookTop<N>,
    put: BookTop<N>,
    spot: BookTop<N>,
    rules: ScanRules<N>,
    now: i64,
    last_emit: Option<i64>,
) -> Fate<PositionView<N>> {
    if now >= pos.expiry_ms {
        Fate::Settle(settled_spec(pos, spot, now, rules.spot_fee_rate, rules.exercise_fee_rate))
    } else {
        match closing_legs(pos.kind, call, put, spot, pos.strike) {
            None => Fate::Hold,
            Some(closing) => {
                let rate = roundtrip_net(pos.open_gross, pos.open_fee, closing, rules).over_spec(pos.open_spot);
                if pos.target_close_rate.at_most_spec(rate) {
                    Fate::Close(closed_spec(pos, closing, rules, now))
                } else if is_due(last_emit, now, rules.record_interval_ms) {
                    Fate::Mark(marked_spec(pos, closing, rules))
                } else {
                    Fate::Hold
                }
            },
        }
    }
}

/// Decides what becomes of an open position.
pub fn fate_of<N: Scalar>(
    pos: &Position<N>,
    call: &BookTop<N>,
    put: &BookTop<N>,
    spot: &BookTop<N>,
    rules: &ScanRules<N>,
    now: i64,
    last_emit: Option<i64>,
) -> (r: Fate<Position<N>>)
    ensures
        r@ == fate_spec(pos@, *call, *put, *spot, *rules, now, last_emit),
{
    if now >= pos.expiry_ms {
        return Fate::Settle(settle_position(pos, spot, now, rules.spot_fee_rate, rules.exercise_fee_rate));
    }
    let closing: Legs<N> = match close_legs(pos.kind, call, put, spot, pos.strike) {
        Some(legs) => legs,
        None => {
            return Fate::Hold;
        },
    };
    let close_fee: N = fees_of(&closing, rules);
    let net: N = pos.open_gross.plus(closing.gross).minus(pos.open_fee).minus(close_fee);
    let rate: N = net.over(pos.open_spot);
    if pos.target_close_rate.at_most(rate) {
        let exec: N = pos.exec_qty.least(closing.qty);
        let ann: N = annualize_over_days(rate, days_between(pos.open_ts, now));
        let mut done = pos.clone();
        done.status = "closed";
        done.close_ts = now;
        done.close_spot = closing.spot;
        done.close_call = closing.call;
        done.close_put = closing.put;
        done.close_gross = closing.gross;
        done.close_fee = close_fee;
        done.exec_qty = exec;
        done.net_profit_per_btc = net;
        done.net_profit_rate = rate;
        done.hold_annual_rate = ann;
        done.est_profit = net.times(exec);
        Fate::Close(done)
    } else if due(last_emit, now, rules.record_interval_ms) {
        let mut marked = pos.clone();
        marked.net_profit_per_btc = net;
        marked.net_profit_rate = rate;
        marked.est_profit = net.times(pos.exec_qty);
        Fate::Mark(marked)
    } else {
        Fate::Hold
    }
}

// ---------------------------------------------------------------------------
// The start of a position
// ---------------------------------------------------------------------------
/// Where a position can be opened: a strike with its call and put.
pub struct PlaceView<N> {
    pub expiry: Seq<char>,
    pub expiry_ms: i64,
    pub strike: N,
    pub call: Seq<char>,
    pub put: Seq<char>,
}

/// The position that would be opened with some legs.
pub open spec fn opened_spec<N: Scalar>(
    place: PlaceView<N>,
    kind: Seq<char>,
    legs: Legs<N>,
    mark_net: N,
    rules: ScanRules<N>,
    now: i64,
) -> PositionView<N> {
    let open_fee = side_fees(legs, rules);
    let open_net = legs.gross.minus_spec(open_fee);
    let open_rate = open_net.over_spec(legs.spot);
    let open_annual = annual_rate_spec(open_rate, days_spec::<N>(now, place.expiry_ms));
    PositionView {
        id: pos_id_spec(kind, place.expiry, place.strike, now),
        kind,
        status: "open"@,
        expiry: place.expiry,
        expiry_ms: place.expiry_ms,
        strike: place.strike,
        call_symbol: place.call,
        put_symbol: place.put,
        open_ts: now,
        open_spot: legs.spot,
        open_call: legs.call,
        open_put: legs.put,
        open_gross: legs.gross,
        open_fee,
        open_net,
        open_rate,
        open_annual_rate: open_annual,
        target_close_rate: rules.close_rate_discount.times_spec(open_rate),
        close_ts: 0,
        close_spot: zero_spec::<N>(),
        close_call: zero_spec::<N>(),
        close_put: zero_spec::<N>(),
        close_gross: zero_spec::<N>(),
        close_fee: zero_spec::<N>(),
        exec_qty: legs.qty,
        net_profit_per_btc: mark_net,
        net_profit_rate: mark_net.over_spec(legs.spot),
        hold_annual_rate: open_annual,
        est_profit: mark_net.times_spec(legs.qty),
    }
}

/// The position that opens at a place, if one does. Its legs have to be quoted
/// and to leave a net profit; its rates and its size have to reach the
/// thresholds; and where the opposite legs are quoted too, closing it at once
/// must not lose more than is allowed.
pub open spec fn opening_spec<N: Scalar>(
    place: PlaceView<N>,
    kind: Seq<char>,
    call: BookTop<N>,
    put: BookTop<N>,
    spot: BookTop<N>,
    rules: ScanRules<N>,
    now: i64,
) -> Option<PositionView<N>> {
    match opening_legs(kind, call, put, spot, place.strike) {
        None => None,
        Some(legs) => {
            let open_fee = side_fees(legs, rules);
            let open_net = legs.gross.minus_spec(open_fee);
            let open_rate = open_net.over_spec(legs.spot);
            let open_annual = annual_rate_spec(open_rate, days_spec::<N>(now, place.expiry_ms));
            if open_net.at_most_spec(zero_spec::<N>()) || open_rate.less_spec(rules.min_profit_rate)
                || open_annual.less_spec(rules.min_annual_rate) || legs.qty.less_spec(rules.min_exec_qty) {
                None
            } else {
                match closing_legs(kind, call, put, spot, place.strike) {
                    Some(closing) => {
                        let mark_net = roundtrip_net(legs.gross, open_fee, closing, rules);
                        let mark_rate = mark_net.over_spec(legs.spot);
                        if mark_rate.less_spec(zero_spec::<N>().minus_spec(rules.max_open_mark_loss)) {
                            None
                        } else {
                            Some(opened_spec(place, kind, legs, mark_net, rules, now))
                        }
                    },
                    None => Some(opened_spec(place, kind, legs, open_net, rules, now)),
                }
            }
        },
    }
}

/// Decides whether a position opens at a place, and with which figures.
pub fn opening_of<N: Scalar>(
    kind: &'static str,
    expiry: &String,
    expiry_ms: i64,
    strike: N,
    call_symbol: &String,
    put_symbol: &String,
    call: &BookTop<N>,
    put: &BookTop<N>,
    spot: &BookTop<N>,
    rules: &ScanRules<N>,
    now: i64,
) -> (r: Option<Position<N>>)
    ensures
        match opening_spec(
            (PlaceView { expiry: expiry@, expiry_ms, strike, call: call_symbol@, put: put_symbol@ }),
            kind@,
            *call,
            *put,
            *spot,
            *rules,
            now,
        ) {
            Some(p) => r matches Some(x) && x@ == p,
            None => r is None,
        },
{
    let legs: Legs<N> = match open_legs(kind, call, put, spot, strike) {
        Some(legs) => legs,
        None => {
            return None;
        },
    };
    let open_fee: N = fees_of(&legs, rules);
    let open_net: N = legs.gross.minus(open_fee);
    if open_net.at_most(zero()) {
        return None;
    }
    let open_rate: N = open_net.over(legs.spot);
    let open_annual: N = annualize(open_rate, expiry_ms, now);
    if open_rate.less(rules.min_profit_rate) || open_annual.less(rules.min_annual_rate) || legs.qty.less(
        rules.min_exec_qty,
    ) {
        return None;
    }
    let mark_net: N = match close_legs(kind, call, put, spot, strike) {
        Some(closing) => {
            let close_fee: N = fees_of(&closing, rules);
            let net: N = legs.gross.plus(closing.gross).minus(open_fee).minus(close_fee);
            if net.over(legs.spot).less(zero::<N>().minus(rules.max_open_mark_loss)) {
                return None;
            }
            net
        },
        None => open_net,
    };
    Some(
        Position {
            id: pos_id(kind, expiry.as_str(), strike, now),
            kind,
            status: "open",
            expiry: expiry.clone(),
            expiry_ms,
            strike,
            call_symbol: call_symbol.clone(),
            put_symbol: put_symbol.clone(),
            open_ts: now,
            open_spot: legs.spot,
            open_call: legs.call,
            open_put: legs.put,
            open_gross: legs.gross,
            open_fee,
            open_net,
            open_rate,
            open_annual_rate: open_annual,
            target_close_rate: rules.close_rate_discount.times(open_rate),
            close_ts: 0,
            close_spot: zero(),
            close_call: zero(),
            close_put: zero(),
            close_gross: zero(),
            close_fee: zero(),
            exec_qty: legs.qty,
            net_profit_per_btc: mark_net,
            net_profit_rate: mark_net.over(legs.spot),
            hold_annual_rate: open_annual,
            est_profit: mark_net.times(legs.qty),
        },
    )
}

// ---------------------------------------------------------------------------
// Laws
// ---------------------------------------------------------------------------
/// Closing a position is the opposite action: what closes a reversal opens a
/// conversion, and the other way round.
pub proof fn closing_is_the_opposite_action<N: Scalar>(
    call: BookTop<N>,
    put: BookTop<N>,
    spot: BookTop<N>,
    strike: N,
)
    ensures
        closing_legs("reversal"@, call, put, spot, strike) == opening_legs("conversion"@, call, put, spot, strike),
        closing_legs("conversion"@, call, put, spot, strike) == opening_legs("reversal"@, call, put, spot, strike),
{
    reveal_strlit("reversal");
    reveal_strlit("conversion");
    assert("reversal"@.len() != "conversion"@.len());
}

/// A number far enough from the ends of the range that a few sums are exact.
pub open spec fn is_moderate(x: Fixed) -> bool {
    -0x1_0000_0000_0000_0000_0000_0000_0000 < x.units < 0x1_0000_0000_0000_0000_0000_0000_0000
}

/// The strike cancels out over a round trip: what a reversal and a conversion
/// at one strike bring together is what the three spreads cost.
pub proof fn strike_cancels_over_round_trip(
    reversal: Legs<Fixed>,
    conversion: Legs<Fixed>,
    strike: Fixed,
)
    requires
        is_moderate(reversal.spot) && is_moderate(reversal.call) && is_moderate(reversal.put),
        is_moderate(conversion.spot) && is_moderate(conversion.call) && is_moderate(conversion.put),
        is_moderate(strike),
        reversal.gross == reversal_spec(reversal.spot, reversal.put, reversal.call, strike),
        conversion.gross == conversion_spec(conversion.call, conversion.put, strike, conversion.spot),
    ensures
        reversal.gross.plus_spec(conversion.gross).units == (reversal.spot.units - conversion.spot.units) + (
        reversal.put.units - conversion.put.units) + (conversion.call.units - reversal.call.units),
{
}

/// What the spread of a book is between its two sides.
pub open spec fn spread(book: BookTop<Fixed>) -> int {
    book.ask.units - book.bid.units
}

/// A book whose prices are far from the ends of the range, and whose bid is at
/// most its ask.
pub open spec fn is_uncrossed(book: BookTop<Fixed>) -> bool {
    is_moderate(book.bid) && is_moderate(book.ask) && book.bid.at_most_spec(book.ask)
}

/// Opening a position and closing it on the same books costs the three spreads,
/// at whatever strike, and so never gains. The legs that close it are those that
/// open the opposite kind.
pub proof fn round_trip_on_one_set_of_books_never_gains(
    kind: Seq<char>,
    call: BookTop<Fixed>,
    put: BookTop<Fixed>,
    spot: BookTop<Fixed>,
    strike: Fixed,
)
    requires
        is_kind(kind),
        is_uncrossed(call),
        is_uncrossed(put),
        is_uncrossed(spot),
        is_moderate(strike),
        opening_legs(kind, call, put, spot, strike) is Some,
        closing_legs(kind, call, put, spot, strike) is Some,
    ensures
        ({
            let opened = opening_legs(kind, call, put, spot, strike)->0;
            let closed = closing_legs(kind, call, put, spot, strike)->0;
            let gain = opened.gross.plus_spec(closed.gross);
            let other = if kind == "reversal"@ {
                "conversion"@
            } else {
                "reversal"@
            };
            &&& gain.units == -(spread(call) + spread(put) + spread(spot))
            &&& gain.at_most_spec(zero_spec::<Fixed>())
            &&& Some(closed) == opening_legs(other, call, put, spot, strike)
        }),
{
    closing_is_the_opposite_action(call, put, spot, strike);
}

/// The net profit of a round trip is what both sides bring, less the fees of
/// six legs: three on opening and three on closing.
pub proof fn round_trip_pays_six_fees(opening: Legs<Fixed>, closing: Legs<Fixed>, rules: ScanRules<Fixed>)
    requires
        is_moderate(opening.gross),
        is_moderate(closing.gross),
        is_moderate(side_fees(opening, rules)),
        is_moderate(side_fees(closing, rules)),
    ensures
        roundtrip_net(opening.gross, side_fees(opening, rules), closing, rules).units == opening.gross.units
            + closing.gross.units - side_fees(opening, rules).units - side_fees(closing, rules).units,
        side_fees(opening, rules) == rules.spot_fee_rate.times_spec(opening.spot).plus_spec(
            rules.option_fee_rate.times_spec(opening.call.plus_spec(opening.put)),
        ),
        side_fees(closing, rules) == rules.spot_fee_rate.times_spec(closing.spot).plus_spec(
            rules.option_fee_rate.times_spec(closing.call.plus_spec(closing.put)),
        ),
{
}

/// A position that is opened where its opposite legs are quoted does not lose
/// more than is allowed if it is closed at once; and one that is opened starts
/// without any closing figures.
pub proof fn opening_can_be_closed<N: Scalar>(
    place: PlaceView<N>,
    kind: Seq<char>,
    call: BookTop<N>,
    put: BookTop<N>,
    spot: BookTop<N>,
    rules: ScanRules<N>,
    now: i64,
)
    ensures
        opening_spec(place, kind, call, put, spot, rules, now) matches Some(p) ==> {
            &&& closing_legs(kind, call, put, spot, place.strike) is Some ==> !p.net_profit_rate.less_spec(
                zero_spec::<N>().minus_spec(rules.max_open_mark_loss),
            )
            &&& p.close_ts == 0
            &&& p.close_spot == zero_spec::<N>()
            &&& p.close_call == zero_spec::<N>()
            &&& p.close_put == zero_spec::<N>()
            &&& p.close_gross == zero_spec::<N>()
            &&& p.close_fee == zero_spec::<N>()
        },
{
}

/// One of the two kinds of positions.
pub open spec fn is_kind(kind: Seq<char>) -> bool {
    kind == "reversal"@ || kind == "conversion"@
}

proof fn lemma_kind_is_prefix(a: Seq<char>, b: Seq<char>, separator: char, x: Seq<char>, y: Seq<char>)
    requires
        is_kind(a),
        is_kind(b),
        separator == '|' || separator == '-',
        a + seq![separator] + x == b + seq![separator] + y,
    ensures
        a == b,
        x == y,
{
    reveal_strlit("reversal");
    reveal_strlit("conversion");
    let s = a + seq![separator] + x;
    let t = b + seq![separator] + y;
    if a != b {
        if a == "reversal"@ {
            assert(s[8] == separator);
            assert(t[8] == "conversion"@[8]);
        } else {
            assert(t[8] == separator);
            assert(s[8] == "conversion"@[8]);
        }
    }
    assert(x =~= s.skip((a.len() + 1) as int));
    assert(y =~= t.skip((b.len() + 1) as int));
}

/// The key of a place names it: no two places have the same key.
pub proof fn place_key_is_unique<N: Scalar>(
    kind_a: Seq<char>,
    expiry_a: Seq<char>,
    strike_a: N,
    kind_b: Seq<char>,
    expiry_b: Seq<char>,
    strike_b: N,
)
    requires
        is_kind(kind_a),
        is_kind(kind_b),
        pos_key_spec(kind_a, expiry_a, strike_a) == pos_key_spec(kind_b, expiry_b, strike_b),
    ensures
        kind_a == kind_b,
        expiry_a == expiry_b,
        strike_key_spec(strike_a) == strike_key_spec(strike_b),
{
    reveal_strlit("|");
    let bar = seq!['|'];
    assert("|"@ =~= bar);
    let da = decimal(strike_key_spec(strike_a) as int);
    let db = decimal(strike_key_spec(strike_b) as int);
    let xa = expiry_a + bar + da;
    let xb = expiry_b + bar + db;
    assert(kind_a + bar + xa =~= pos_key_spec(kind_a, expiry_a, strike_a));
    assert(kind_b + bar + xb =~= pos_key_spec(kind_b, expiry_b, strike_b));
    lemma_kind_is_prefix(kind_a, kind_b, '|', xa, xb);
    decimal_is_injective(strike_key_spec(strike_a) as int, strike_key_spec(strike_b) as int);
    decimal_is_injective(strike_key_spec(strike_b) as int, strike_key_spec(strike_a) as int);
    assert(!is_digit('|'));
    last_separator_is_unique(expiry_a, expiry_b, da, db, '|');
}

/// The name of a position names its place and when it was opened, where expiries
/// have no dash in their names: no two openings have the same name.
pub proof fn position_name_is_unique_without_dashes<N: Scalar>(
    kind_a: Seq<char>,
    expiry_a: Seq<char>,
    strike_a: N,
    open_ts_a: i64,
    kind_b: Seq<char>,
    expiry_b: Seq<char>,
    strike_b: N,
    open_ts_b: i64,
)
    requires
        is_kind(kind_a),
        is_kind(kind_b),
        !expiry_a.contains('-'),
        !expiry_b.contains('-'),
        pos_id_spec(kind_a, expiry_a, strike_a, open_ts_a) == pos_id_spec(kind_b, expiry_b, strike_b, open_ts_b),
    ensures
        kind_a == kind_b,
        expiry_a == expiry_b,
        strike_key_spec(strike_a) == strike_key_spec(strike_b),
        open_ts_a == open_ts_b,
{
    reveal_strlit("-");
    let dash = seq!['-'];
    assert("-"@ =~= dash);
    let ka = strike_key_spec(strike_a) as int;
    let kb = strike_key_spec(strike_b) as int;
    let ra = decimal(ka) + dash + decimal(open_ts_a as int);
    let rb = decimal(kb) + dash + decimal(open_ts_b as int);
    let xa = expiry_a + dash + ra;
    let xb = expiry_b + dash + rb;
    assert(kind_a + dash + xa =~= pos_id_spec(kind_a, expiry_a, strike_a, open_ts_a));
    assert(kind_b + dash + xb =~= pos_id_spec(kind_b, expiry_b, strike_b, open_ts_b));
    lemma_kind_is_prefix(kind_a, kind_b, '-', xa, xb);
    first_separator_is_unique(expiry_a, expiry_b, ra, rb, '-');
    assert(!is_digit('-'));
    let ma = if ka < 0 {
        -ka
    } else {
        ka
    };
    let mb = if kb < 0 {
        -kb
    } else {
        kb
    };
    digits_denote_their_number(ma as nat);
    digits_denote_their_number(mb as nat);
    let da = digits(ma as nat);
    let db = digits(mb as nat);
    let ya = da + dash + decimal(open_ts_a as int);
    let yb = db + dash + decimal(open_ts_b as int);
    if ka < 0 {
        assert(ra =~= dash + ya);
        assert(ra[0] == '-');
        assert(ya =~= ra.skip(1));
    } else {
        assert(ra =~= ya);
        assert(ra[0] == da[0]);
    }
    if kb < 0 {
        assert(rb =~= dash + yb);
        assert(rb[0] == '-');
        assert(yb =~= rb.skip(1));
    } else {
        assert(rb =~= yb);
        assert(rb[0] == db[0]);
    }
    assert((ka < 0) == (kb < 0));
    first_separator_is_unique(da, db, decimal(open_ts_a as int), decimal(open_ts_b as int), '-');
    decimal_is_injective(open_ts_a as int, open_ts_b as int);
}

/// The name of a position names its place and when it was opened: no two
/// openings have the same name. Strikes and times are not negative.
pub proof fn position_name_is_unique<N: Scalar>(
    kind_a: Seq<char>,
    expiry_a: Seq<char>,
    strike_a: N,
    open_ts_a: i64,
    kind_b: Seq<char>,
    expiry_b: Seq<char>,
    strike_b: N,
    open_ts_b: i64,
)
    requires
        is_kind(kind_a),
        is_kind(kind_b),
        0 <= strike_key_spec(strike_a),
        0 <= strike_key_spec(strike_b),
        0 <= open_ts_a,
        0 <= open_ts_b,
        pos_id_spec(kind_a, expiry_a, strike_a, open_ts_a) == pos_id_spec(kind_b, expiry_b, strike_b, open_ts_b),
    ensures
        kind_a == kind_b,
        expiry_a == expiry_b,
        strike_key_spec(strike_a) == strike_key_spec(strike_b),
        open_ts_a == open_ts_b,
{
    reveal_strlit("-");
    let dash = seq!['-'];
    assert("-"@ =~= dash);
    let ka = strike_key_spec(strike_a) as int;
    let kb = strike_key_spec(strike_b) as int;
    let pa = expiry_a + dash + decimal(ka);
    let pb = expiry_b + dash + decimal(kb);
    let xa = pa + dash + decimal(open_ts_a as int);
    let xb = pb + dash + decimal(open_ts_b as int);
    assert(kind_a + dash + xa =~= pos_id_spec(kind_a, expiry_a, strike_a, open_ts_a));
    assert(kind_b + dash + xb =~= pos_id_spec(kind_b, expiry_b, strike_b, open_ts_b));
    lemma_kind_is_prefix(kind_a, kind_b, '-', xa, xb);
    decimal_is_injective(ka, kb);
    decimal_is_injective(kb, ka);
    decimal_is_injective(open_ts_a as int, open_ts_b as int);
    decimal_is_injective(open_ts_b as int, open_ts_a as int);
    assert(!is_digit('-'));
    last_separator_is_unique(pa, pb, decimal(open_ts_a as int), decimal(open_ts_b as int), '-');
    last_separator_is_unique(expiry_a, expiry_b, decimal(ka), decimal(kb), '-');
}

} // verus!
