//! Laws of one position: what its legs trade, what it costs and brings, and
//! what becomes of it.
use crate::fixed::{magnitude, Fixed, SCALE};
use crate::laws::fixed::{is_amount, is_plain, products_are_cut_off, quotients_are_cut_off};
use crate::model::{BookTop, PositionView};
use crate::scalar::{zero_spec, Scalar};
use crate::scan::{
    annual_rate_spec, closing_legs, days_spec, fate_spec, hms_spec, is_kind, opening_legs, opening_spec,
    roundtrip_net, settlement_spec, side_fees, Fate, Legs, PlaceView, ScanRules,
};
use crate::text::decimal2;
use vstd::prelude::*;
use vstd::string::*;

verus! {

// ---------------------------------------------------------------------------
// Order
// ---------------------------------------------------------------------------
/// A quantity that is at most three ordered ones and equal to one of them.
pub open spec fn is_least_of<N: Scalar>(q: N, a: N, b: N, c: N) -> bool {
    &&& q.at_most_spec(a) && q.at_most_spec(b) && q.at_most_spec(c)
    &&& q == a || q == b || q == c
}

pub proof fn lemma_least_of_three<N: Scalar>(a: N, b: N, c: N)
    requires
        a.at_most_spec(a),
        b.at_most_spec(b),
        c.at_most_spec(c),
    ensures
        is_least_of(a.least_spec(b).least_spec(c), a, b, c),
{
    N::least_is_lower_bound(a, b);
    let ab = a.least_spec(b);
    N::at_most_is_ordered(ab, a);
    N::least_is_lower_bound(ab, c);
    let q = ab.least_spec(c);
    N::at_most_is_transitive(q, ab, a);
    N::at_most_is_transitive(q, ab, b);
}

// ---------------------------------------------------------------------------
// Legs
// ---------------------------------------------------------------------------
/// A side of a book on which somebody trades: there is a price, and something
/// on offer at it.
pub open spec fn trades<N: Scalar>(price: N, quantity: N) -> bool {
    N::of_int_spec(0).less_spec(price) && N::of_int_spec(0).less_spec(quantity)
}

/// The side of a book that somebody who sells at once meets.
pub open spec fn sells_at<N: Scalar>(book: BookTop<N>) -> (N, N) {
    (book.bid, book.bid_qty)
}

/// The side of a book that somebody who buys at once meets.
pub open spec fn buys_at<N: Scalar>(book: BookTop<N>) -> (N, N) {
    (book.ask, book.ask_qty)
}

/// The sides of the call, the put and the spot that a reversal meets: it buys
/// the call and sells the put and the spot.
pub open spec fn reversal_sides<N: Scalar>(call: BookTop<N>, put: BookTop<N>, spot: BookTop<N>) -> (
    (N, N),
    (N, N),
    (N, N),
) {
    (buys_at(call), sells_at(put), sells_at(spot))
}

/// The sides of the call, the put and the spot that a conversion meets: it sells
/// the call and buys the put and the spot.
pub open spec fn conversion_sides<N: Scalar>(call: BookTop<N>, put: BookTop<N>, spot: BookTop<N>) -> (
    (N, N),
    (N, N),
    (N, N),
) {
    (sells_at(call), buys_at(put), buys_at(spot))
}

/// Legs that meet three sides: they are there exactly where somebody trades on
/// each, they have the prices of these sides, and their quantity, where the
/// quantities are ordered, is on offer on each of them and is that of one.
pub open spec fn legs_meet<N: Scalar>(legs: Option<Legs<N>>, sides: ((N, N), (N, N), (N, N))) -> bool {
    let (call, put, spot) = sides;
    &&& legs is Some <==> trades(call.0, call.1) && trades(put.0, put.1) && trades(spot.0, spot.1)
    &&& legs matches Some(x) ==> {
        &&& x.call == call.0
        &&& x.put == put.0
        &&& x.spot == spot.0
        &&& call.1.at_most_spec(call.1) && put.1.at_most_spec(put.1) && spot.1.at_most_spec(spot.1) ==> is_least_of(
            x.qty,
            call.1,
            put.1,
            spot.1,
        )
    }
}

/// A reversal opens at the ask of the call and the bids of the put and the spot;
/// a conversion at the bid of the call and the asks of the put and the spot. Each
/// closes at the sides at which the other opens.
pub proof fn legs_meet_their_sides<N: Scalar>(call: BookTop<N>, put: BookTop<N>, spot: BookTop<N>, strike: N)
    ensures
        legs_meet(opening_legs("reversal"@, call, put, spot, strike), reversal_sides(call, put, spot)),
        legs_meet(opening_legs("conversion"@, call, put, spot, strike), conversion_sides(call, put, spot)),
        legs_meet(closing_legs("reversal"@, call, put, spot, strike), conversion_sides(call, put, spot)),
        legs_meet(closing_legs("conversion"@, call, put, spot, strike), reversal_sides(call, put, spot)),
{
    lemma_kinds_differ();
    let (a, b, c) = (call.ask_qty, put.bid_qty, spot.bid_qty);
    if a.at_most_spec(a) && b.at_most_spec(b) && c.at_most_spec(c) {
        lemma_least_of_three(a, b, c);
    }
    let (a, b, c) = (call.bid_qty, put.ask_qty, spot.ask_qty);
    if a.at_most_spec(a) && b.at_most_spec(b) && c.at_most_spec(c) {
        lemma_least_of_three(a, b, c);
    }
}

proof fn lemma_kinds_differ()
    ensures
        "reversal"@ != "conversion"@,
{
    reveal_strlit("reversal");
    reveal_strlit("conversion");
    assert("reversal"@.len() != "conversion"@.len());
}

/// Of a quantity that somebody offers, it can be said where it stands.
pub proof fn traded_quantities_are_ordered<N: Scalar>(price: N, quantity: N)
    requires
        trades(price, quantity),
    ensures
        quantity.at_most_spec(quantity),
        price.at_most_spec(price),
{
    N::less_is_strict(zero_spec::<N>(), price);
    N::less_is_strict(zero_spec::<N>(), quantity);
    N::at_most_is_ordered(zero_spec::<N>(), price);
    N::at_most_is_ordered(zero_spec::<N>(), quantity);
}

/// What is sold is taken in and what is bought is paid: a reversal takes in the
/// spot and the put and pays the call and, at expiry, the strike; a conversion
/// takes in the call and the strike and pays the put and the spot.
pub proof fn gross_is_what_is_sold_less_what_is_bought(
    call: BookTop<Fixed>,
    put: BookTop<Fixed>,
    spot: BookTop<Fixed>,
    strike: Fixed,
)
    requires
        is_plain(call.bid) && is_plain(call.ask),
        is_plain(put.bid) && is_plain(put.ask),
        is_plain(spot.bid) && is_plain(spot.ask),
        is_plain(strike),
    ensures
        opening_legs("reversal"@, call, put, spot, strike) matches Some(x) ==> x.gross.units == (spot.bid.units
            + put.bid.units) - (call.ask.units + strike.units),
        opening_legs("conversion"@, call, put, spot, strike) matches Some(x) ==> x.gross.units == (call.bid.units
            + strike.units) - (put.ask.units + spot.ask.units),
        closing_legs("reversal"@, call, put, spot, strike) matches Some(x) ==> x.gross.units == (call.bid.units
            + strike.units) - (put.ask.units + spot.ask.units),
        closing_legs("conversion"@, call, put, spot, strike) matches Some(x) ==> x.gross.units == (spot.bid.units
            + put.bid.units) - (call.ask.units + strike.units),
{
    lemma_kinds_differ();
}

/// The fees of a side are its spot price at the rate of the spot market and its
/// two option prices at the rate of options, cut off by less than two units.
pub proof fn fees_are_shares_of_the_prices(legs: Legs<Fixed>, rules: ScanRules<Fixed>)
    requires
        is_amount(legs.spot),
        0 <= legs.call.units < 100_000_000_000_000_000,
        0 <= legs.put.units < 100_000_000_000_000_000,
        0 <= rules.spot_fee_rate.units <= SCALE,
        0 <= rules.option_fee_rate.units <= SCALE,
    ensures
        ({
            let exact = rules.spot_fee_rate.units * legs.spot.units + rules.option_fee_rate.units * (
            legs.call.units + legs.put.units);
            let fees = side_fees(legs, rules).units;
            fees * SCALE <= exact && exact < (fees + 2) * SCALE && 0 <= fees < 4_000_000_000_000_000_000
        }),
{
    let options = legs.call.plus_spec(legs.put);
    products_are_cut_off(rules.spot_fee_rate, legs.spot);
    products_are_cut_off(rules.option_fee_rate, options);
    let a = rules.spot_fee_rate.units as int;
    let b = legs.spot.units as int;
    let c = rules.option_fee_rate.units as int;
    let d = options.units as int;
    assert(0 <= a * b <= 1_000_000_000 * b) by (nonlinear_arith)
        requires
            0 <= a <= 1_000_000_000,
            0 <= b,
    ;
    assert(0 <= c * d <= 1_000_000_000 * d) by (nonlinear_arith)
        requires
            0 <= c <= 1_000_000_000,
            0 <= d,
    ;
}

// ---------------------------------------------------------------------------
// Rates
// ---------------------------------------------------------------------------
/// A rate over a year is to the rate as 365 days are to the days that it took;
/// where no time passed it is zero.
pub proof fn annual_rate_is_in_proportion(rate: Fixed, days: Fixed)
    requires
        -1_000_000_000_000_000 < rate.units < 1_000_000_000_000_000,
        is_plain(days),
    ensures
        days.units > 0 ==> magnitude(annual_rate_spec(rate, days).units * days.units - rate.units * 365 * SCALE)
            < days.units,
        days.units <= 0 ==> annual_rate_spec(rate, days).units == 0,
{
    let year = Fixed::of_int_spec(365);
    products_are_cut_off(rate, year);
    let yearly = rate.times_spec(year);
    let u = rate.units as int;
    let y = year.units as int;
    assert(u * y == u * 365 * 1_000_000_000) by (nonlinear_arith)
        requires
            y == 365 * 1_000_000_000,
    ;
    assert(yearly.units == rate.units * 365);
    if days.units > 0 {
        quotients_are_cut_off(yearly, days);
    }
}

/// A day is 86 400 000 milliseconds.
pub proof fn days_are_counted_from_first_to_last(from_ms: i64, to_ms: i64)
    requires
        -1_000_000_000_000_000_000 < from_ms < 1_000_000_000_000_000_000,
        -1_000_000_000_000_000_000 < to_ms < 1_000_000_000_000_000_000,
    ensures
        magnitude(days_spec::<Fixed>(from_ms, to_ms).units * 86_400_000 - (to_ms - from_ms) * SCALE) < 86_400_000,
        from_ms < to_ms ==> days_spec::<Fixed>(from_ms, to_ms).units > 0,
        from_ms >= to_ms ==> days_spec::<Fixed>(from_ms, to_ms).units <= 0,
{
    let n = (to_ms - from_ms) * 1_000_000_000 * 1_000_000_000;
    let d = 86_400_000int * 1_000_000_000;
    let r = days_spec::<Fixed>(from_ms, to_ms).units as int;
    assert(Fixed::of_int_spec((to_ms - from_ms) as i128).units == (to_ms - from_ms) * 1_000_000_000);
    assert(Fixed::of_int_spec(86_400_000).units == d);
}

/// Two numbers of which the first is the second times a rate, cut off.
pub open spec fn is_share(x: Fixed, rate: Fixed, of: Fixed) -> bool {
    magnitude(x.units * SCALE - rate.units * of.units) < SCALE
}

/// A rate that a profit has on a price, cut off.
pub open spec fn is_rate(rate: Fixed, profit: Fixed, price: Fixed) -> bool {
    magnitude(rate.units * price.units - profit.units * SCALE) < price.units
}

/// A rate over a year that another has over the time between two points, cut
/// off: `days` counts that time.
pub open spec fn is_annual(annual: Fixed, rate: Fixed, from_ms: i64, to_ms: i64) -> bool {
    if from_ms < to_ms {
        exists|days: Fixed|
            {
                &&& days.units > 0
                &&& magnitude(#[trigger] days.units * 86_400_000 - (to_ms - from_ms) * SCALE) < 86_400_000
                &&& magnitude(annual.units * days.units - rate.units * 365 * SCALE) < days.units
            }
    } else {
        annual.units == 0
    }
}

/// A point in time that is not absurd.
pub open spec fn is_time(ms: i64) -> bool {
    -9_000_000_000_000_000 < ms < 9_000_000_000_000_000
}

proof fn lemma_annual(rate: Fixed, from_ms: i64, to_ms: i64)
    requires
        -1_000_000_000_000_000 < rate.units < 1_000_000_000_000_000,
        is_time(from_ms),
        is_time(to_ms),
    ensures
        is_annual(annual_rate_spec(rate, days_spec::<Fixed>(from_ms, to_ms)), rate, from_ms, to_ms),
{
    let days = days_spec::<Fixed>(from_ms, to_ms);
    days_are_counted_from_first_to_last(from_ms, to_ms);
    annual_rate_is_in_proportion(rate, days);
}

// ---------------------------------------------------------------------------
// What becomes of a position
// ---------------------------------------------------------------------------
/// The sides that closing a position of a kind meets.
pub open spec fn closing_sides<N: Scalar>(
    kind: Seq<char>,
    call: BookTop<N>,
    put: BookTop<N>,
    spot: BookTop<N>,
) -> ((N, N), (N, N), (N, N)) {
    if kind == "reversal"@ {
        conversion_sides(call, put, spot)
    } else {
        reversal_sides(call, put, spot)
    }
}

/// The sides that opening a position of a kind meets.
pub open spec fn opening_sides<N: Scalar>(
    kind: Seq<char>,
    call: BookTop<N>,
    put: BookTop<N>,
    spot: BookTop<N>,
) -> ((N, N), (N, N), (N, N)) {
    if kind == "reversal"@ {
        reversal_sides(call, put, spot)
    } else {
        conversion_sides(call, put, spot)
    }
}

/// Somebody trades on each of three sides.
pub open spec fn all_trade<N: Scalar>(sides: ((N, N), (N, N), (N, N))) -> bool {
    trades(sides.0.0, sides.0.1) && trades(sides.1.0, sides.1.1) && trades(sides.2.0, sides.2.1)
}

/// A closed record never has a larger quantity than the position held before,
/// nor than is on offer on each of the three sides that closing meets; and it is
/// one of these four quantities. A position that stays open or is settled keeps
/// its quantity.
pub proof fn closed_quantity_is_held_and_on_offer<N: Scalar>(
    pos: PositionView<N>,
    call: BookTop<N>,
    put: BookTop<N>,
    spot: BookTop<N>,
    rules: ScanRules<N>,
    now: i64,
    last_emit: Option<i64>,
)
    requires
        pos.exec_qty.at_most_spec(pos.exec_qty),
    ensures
        fate_spec(pos, call, put, spot, rules, now, last_emit) matches Fate::Close(p) ==> {
            let sides = closing_sides(pos.kind, call, put, spot);
            &&& p.exec_qty.at_most_spec(pos.exec_qty)
            &&& p.exec_qty.at_most_spec(sides.0.1)
            &&& p.exec_qty.at_most_spec(sides.1.1)
            &&& p.exec_qty.at_most_spec(sides.2.1)
            &&& p.exec_qty == pos.exec_qty || p.exec_qty == sides.0.1 || p.exec_qty == sides.1.1 || p.exec_qty
                == sides.2.1
        },
        fate_spec(pos, call, put, spot, rules, now, last_emit) matches Fate::Mark(p) ==> p.exec_qty == pos.exec_qty,
        fate_spec(pos, call, put, spot, rules, now, last_emit) matches Fate::Settle(p) ==> p.exec_qty
            == pos.exec_qty,
{
    let sides = closing_sides(pos.kind, call, put, spot);
    if all_trade(sides) {
        let (a, b, c) = (sides.0.1, sides.1.1, sides.2.1);
        traded_quantities_are_ordered(sides.0.0, a);
        traded_quantities_are_ordered(sides.1.0, b);
        traded_quantities_are_ordered(sides.2.0, c);
        lemma_least_of_three(a, b, c);
        let q = a.least_spec(b).least_spec(c);
        N::at_most_is_ordered(q, a);
        N::least_is_lower_bound(pos.exec_qty, q);
        let e = pos.exec_qty.least_spec(q);
        N::at_most_is_transitive(e, q, a);
        N::at_most_is_transitive(e, q, b);
        N::at_most_is_transitive(e, q, c);
    }
}

/// Whether the last record of a position, if there was one, is old enough.
pub open spec fn record_is_due(last: Option<i64>, now: i64, interval_ms: i64) -> bool {
    last matches Some(t) ==> now >= t + interval_ms
}

/// A position is settled exactly from its expiry on. Before, it is closed or
/// recorded only where somebody trades on every side that closing meets: closed
/// where the rate of the round trip reaches its target, recorded where it does
/// not and the last record is old enough. Where all sides trade and the record
/// is due, one of the two happens.
pub proof fn position_ends_when_it_should<N: Scalar>(
    pos: PositionView<N>,
    call: BookTop<N>,
    put: BookTop<N>,
    spot: BookTop<N>,
    rules: ScanRules<N>,
    now: i64,
    last_emit: Option<i64>,
)
    ensures
        ({
            let fate = fate_spec(pos, call, put, spot, rules, now, last_emit);
            let quoted = all_trade(closing_sides(pos.kind, call, put, spot));
            let due = record_is_due(last_emit, now, rules.record_interval_ms);
            &&& fate is Settle <==> pos.expiry_ms <= now
            &&& fate matches Fate::Settle(p) ==> p.status == "settled"@ && p.close_ts == now
            &&& fate matches Fate::Close(p) ==> {
                &&& quoted
                &&& pos.target_close_rate.at_most_spec(p.net_profit_rate)
                &&& p.status == "closed"@
                &&& p.close_ts == now
            }
            &&& fate matches Fate::Mark(p) ==> {
                &&& quoted
                &&& due
                &&& !pos.target_close_rate.at_most_spec(p.net_profit_rate)
                &&& p.status == pos.status
                &&& p.close_ts == pos.close_ts
                &&& p.hold_annual_rate == pos.hold_annual_rate
            }
            &&& now < pos.expiry_ms && !quoted ==> fate is Hold
            &&& now < pos.expiry_ms && quoted && due ==> fate is Close || fate is Mark
        }),
{
}

/// Of two positions that differ in their targets alone, on the same books, one
/// may be closed and the other stay open; but they are worth the same, the one
/// with the lower target is closed where the other is, and how long ago a
/// position was recorded does not decide whether it is closed.
pub proof fn target_decides_between_closing_and_holding<N: Scalar>(
    pos: PositionView<N>,
    lower: N,
    call: BookTop<N>,
    put: BookTop<N>,
    spot: BookTop<N>,
    rules: ScanRules<N>,
    now: i64,
    last_emit: Option<i64>,
    other_last_emit: Option<i64>,
)
    requires
        lower.at_most_spec(pos.target_close_rate),
    ensures
        ({
            let eager = PositionView { target_close_rate: lower, ..pos };
            let a = fate_spec(pos, call, put, spot, rules, now, last_emit);
            let b = fate_spec(eager, call, put, spot, rules, now, other_last_emit);
            &&& a matches Fate::Close(p) ==> (b matches Fate::Close(q) && q == (PositionView {
                target_close_rate: lower,
                ..p
            }))
            &&& a matches Fate::Mark(p) ==> (b matches Fate::Close(q) ==> p.net_profit_per_btc
                == q.net_profit_per_btc && p.net_profit_rate == q.net_profit_rate)
            &&& a matches Fate::Mark(p) ==> (b matches Fate::Mark(q) ==> q == (PositionView {
                target_close_rate: lower,
                ..p
            }))
        }),
{
    let sides = closing_sides(pos.kind, call, put, spot);
    if let Fate::Close(p) = fate_spec(pos, call, put, spot, rules, now, last_emit) {
        N::at_most_is_transitive(lower, pos.target_close_rate, p.net_profit_rate);
    }
}

/// What an expired position comes to depends on the spot market and on nothing
/// that is quoted of its options.
pub proof fn settlement_ignores_options<N: Scalar>(
    pos: PositionView<N>,
    call: BookTop<N>,
    put: BookTop<N>,
    other_call: BookTop<N>,
    other_put: BookTop<N>,
    spot: BookTop<N>,
    rules: ScanRules<N>,
    now: i64,
    last_emit: Option<i64>,
)
    requires
        pos.expiry_ms <= now,
    ensures
        fate_spec(pos, call, put, spot, rules, now, last_emit) == fate_spec(
            pos,
            other_call,
            other_put,
            spot,
            rules,
            now,
            None,
        ),
{
}

/// Books whose prices are below a hundred million.
pub open spec fn plain_book(book: BookTop<Fixed>) -> bool {
    &&& 0 <= book.bid.units < 100_000_000_000_000_000
    &&& 0 <= book.ask.units < 100_000_000_000_000_000
    &&& is_amount(book.bid_qty)
    &&& is_amount(book.ask_qty)
}

/// Rules whose rates are at most one.
pub open spec fn plain_rules(rules: ScanRules<Fixed>) -> bool {
    &&& 0 <= rules.spot_fee_rate.units <= SCALE
    &&& 0 <= rules.option_fee_rate.units <= SCALE
    &&& 0 <= rules.exercise_fee_rate.units <= SCALE
    &&& 0 <= rules.close_rate_discount.units <= SCALE
}

/// A position whose figures are below a hundred million, opened at a price that
/// is not below one.
pub open spec fn plain_position(pos: PositionView<Fixed>) -> bool {
    &&& is_kind(pos.kind)
    &&& 0 <= pos.strike.units < 100_000_000_000_000_000
    &&& -200_000_000_000_000_000 < pos.open_gross.units < 200_000_000_000_000_000
    &&& 0 <= pos.open_fee.units < 200_000_000_000_000_000
    &&& SCALE <= pos.open_spot.units < 100_000_000_000_000_000
    &&& is_amount(pos.exec_qty)
    &&& is_time(pos.open_ts)
}

/// What is taken in on three sides of given prices: a reversal sells the spot
/// and the put, buys the call and pays the strike.
pub open spec fn reversal_gain(call: Fixed, put: Fixed, spot: Fixed, strike: Fixed) -> int {
    spot.units + put.units - call.units - strike.units
}

/// What closing a position of a kind brings at given prices of its sides.
pub open spec fn closing_gain(kind: Seq<char>, call: Fixed, put: Fixed, spot: Fixed, strike: Fixed) -> int {
    if kind == "reversal"@ {
        -reversal_gain(call, put, spot, strike)
    } else {
        reversal_gain(call, put, spot, strike)
    }
}

/// The fees of three prices, cut off by less than two units.
pub open spec fn are_fees(fees: Fixed, call: Fixed, put: Fixed, spot: Fixed, rules: ScanRules<Fixed>) -> bool {
    let exact = rules.spot_fee_rate.units * spot.units + rules.option_fee_rate.units * (call.units + put.units);
    fees.units * SCALE <= exact && exact < (fees.units + 2) * SCALE
}

proof fn lemma_rate(net: Fixed, price: Fixed)
    requires
        -1_000_000_000_000_000_000 < net.units < 1_000_000_000_000_000_000,
        SCALE <= price.units < 1_000_000_000_000_000_000,
    ensures
        is_rate(net.over_spec(price), net, price),
        -1_000_000_000_000_000_001 < net.over_spec(price).units < 1_000_000_000_000_000_001,
{
    quotients_are_cut_off(net, price);
    let r = net.over_spec(price).units as int;
    let p = price.units as int;
    let n = net.units as int;
    assert(-1_000_000_000_000_000_001 < r < 1_000_000_000_000_000_001) by (nonlinear_arith)
        requires
            -1_000_000_000_000_000_000 * 1_000_000_000 < r * p < 1_000_000_000_000_000_000 * 1_000_000_000,
            p >= 1_000_000_000,
    ;
}

proof fn lemma_share(rate: Fixed, of: Fixed)
    requires
        is_plain(rate),
        is_plain(of),
    ensures
        is_share(rate.times_spec(of), rate, of),
{
    products_are_cut_off(rate, of);
}

/// A position is worth what it would bring if it were closed at given sides for
/// a given fee.
pub open spec fn is_worth(
    p: PositionView<Fixed>,
    pos: PositionView<Fixed>,
    sides: ((Fixed, Fixed), (Fixed, Fixed), (Fixed, Fixed)),
    rules: ScanRules<Fixed>,
    fee: Fixed,
) -> bool {
    let (call, put, spot) = (sides.0.0, sides.1.0, sides.2.0);
    &&& are_fees(fee, call, put, spot, rules)
    &&& p.net_profit_per_btc.units == pos.open_gross.units + closing_gain(pos.kind, call, put, spot, pos.strike)
        - pos.open_fee.units - fee.units
    &&& is_rate(p.net_profit_rate, p.net_profit_per_btc, pos.open_spot)
    &&& is_share(p.est_profit, p.net_profit_per_btc, pos.exec_qty)
}

/// A closed position brought what it took in on opening and on closing, less
/// the fees of both. The closing prices are those of the sides that closing
/// meets; the rate is what was brought on the price of the spot at opening, the
/// annual rate the same over the time that the position was open, and the
/// estimate the same over its quantity.
pub proof fn closed_position_brings_both_sides_less_fees(
    pos: PositionView<Fixed>,
    call: BookTop<Fixed>,
    put: BookTop<Fixed>,
    spot: BookTop<Fixed>,
    rules: ScanRules<Fixed>,
    now: i64,
    last_emit: Option<i64>,
)
    requires
        plain_position(pos),
        plain_book(call) && plain_book(put) && plain_book(spot),
        plain_rules(rules),
        is_time(now),
    ensures
        fate_spec(pos, call, put, spot, rules, now, last_emit) matches Fate::Close(p) ==> {
            let sides = closing_sides(pos.kind, call, put, spot);
            &&& p.close_call == sides.0.0
            &&& p.close_put == sides.1.0
            &&& p.close_spot == sides.2.0
            &&& p.close_gross.units == closing_gain(pos.kind, p.close_call, p.close_put, p.close_spot, pos.strike)
            &&& are_fees(p.close_fee, p.close_call, p.close_put, p.close_spot, rules)
            &&& p.net_profit_per_btc.units == pos.open_gross.units + p.close_gross.units - pos.open_fee.units
                - p.close_fee.units
            &&& is_rate(p.net_profit_rate, p.net_profit_per_btc, pos.open_spot)
            &&& is_share(p.est_profit, p.net_profit_per_btc, p.exec_qty)
            &&& -1_000_000_000_000_000 < p.net_profit_rate.units < 1_000_000_000_000_000 ==> is_annual(
                p.hold_annual_rate,
                p.net_profit_rate,
                pos.open_ts,
                now,
            )
        },
        fate_spec(pos, call, put, spot, rules, now, last_emit) matches Fate::Mark(p) ==> exists|fee: Fixed| #[trigger]
            is_worth(p, pos, closing_sides(pos.kind, call, put, spot), rules, fee),
{
    lemma_kinds_differ();
    if let Some(legs) = closing_legs(pos.kind, call, put, spot, pos.strike) {
        fees_are_shares_of_the_prices(legs, rules);
        let fees = side_fees(legs, rules);
        let net = roundtrip_net(pos.open_gross, pos.open_fee, legs, rules);
        lemma_fees_bound(legs, rules);
        lemma_rate(net, pos.open_spot);
        lemma_share(net, pos.exec_qty);
        lemma_share(net, legs.qty);
        let rate = net.over_spec(pos.open_spot);
        if -1_000_000_000_000_000 < rate.units < 1_000_000_000_000_000 {
            lemma_annual(rate, pos.open_ts, now);
        }
        assert(legs.gross.units == closing_gain(pos.kind, legs.call, legs.put, legs.spot, pos.strike));
        assert(are_fees(fees, legs.call, legs.put, legs.spot, rules));
        if let Fate::Mark(p) = fate_spec(pos, call, put, spot, rules, now, last_emit) {
            assert(is_worth(p, pos, closing_sides(pos.kind, call, put, spot), rules, fees));
        }
    }
}

proof fn lemma_fees_bound(legs: Legs<Fixed>, rules: ScanRules<Fixed>)
    requires
        0 <= legs.spot.units < 100_000_000_000_000_000,
        0 <= legs.call.units < 100_000_000_000_000_000,
        0 <= legs.put.units < 100_000_000_000_000_000,
        plain_rules(rules),
    ensures
        0 <= side_fees(legs, rules).units < 400_000_000_000_000_000,
{
    fees_are_shares_of_the_prices(legs, rules);
    let a = rules.spot_fee_rate.units as int;
    let b = legs.spot.units as int;
    let c = rules.option_fee_rate.units as int;
    let d = legs.call.units + legs.put.units;
    assert(0 <= a * b <= 1_000_000_000 * b) by (nonlinear_arith)
        requires
            0 <= a <= 1_000_000_000,
            0 <= b,
    ;
    assert(0 <= c * d <= 1_000_000_000 * d) by (nonlinear_arith)
        requires
            0 <= c <= 1_000_000_000,
            0 <= d,
    ;
}

/// An expiry is settled in the middle of the spot market, or at the one side on
/// which somebody trades.
pub proof fn settlement_is_in_the_middle(spot: BookTop<Fixed>)
    requires
        plain_book(spot),
    ensures
        ({
            let p = settlement_spec(spot).units;
            let bid = trades(spot.bid, spot.bid_qty);
            let ask = trades(spot.ask, spot.ask_qty);
            &&& bid && ask ==> spot.bid.units + spot.ask.units - 1 <= 2 * p <= spot.bid.units + spot.ask.units
            &&& bid && !ask ==> p == spot.bid.units
            &&& ask && !bid ==> p == spot.ask.units
            &&& !bid && !ask ==> p == 0
        }),
{
    let sum = spot.bid.plus_spec(spot.ask);
    quotients_are_cut_off(sum, Fixed::of_int_spec(2));
}

/// A settled position brought what it took in on opening, less its fees and the
/// fees of buying the spot back and of the exercise at the settlement price.
/// Nothing was traded in its options at the end.
pub proof fn settled_position_brings_its_opening_less_fees(
    pos: PositionView<Fixed>,
    call: BookTop<Fixed>,
    put: BookTop<Fixed>,
    spot: BookTop<Fixed>,
    rules: ScanRules<Fixed>,
    now: i64,
    last_emit: Option<i64>,
)
    requires
        plain_position(pos),
        plain_book(spot),
        plain_rules(rules),
        is_time(now),
    ensures
        fate_spec(pos, call, put, spot, rules, now, last_emit) matches Fate::Settle(p) ==> {
            let exact = (rules.spot_fee_rate.units + rules.exercise_fee_rate.units) * p.close_spot.units;
            &&& trades(spot.bid, spot.bid_qty) && trades(spot.ask, spot.ask_qty) ==> spot.bid.units
                + spot.ask.units - 1 <= 2 * p.close_spot.units <= spot.bid.units + spot.ask.units
            &&& p.close_call.units == 0 && p.close_put.units == 0 && p.close_gross.units == 0
            &&& p.close_fee.units * SCALE <= exact && exact < (p.close_fee.units + 2) * SCALE
            &&& p.net_profit_per_btc.units == pos.open_gross.units - pos.open_fee.units - p.close_fee.units
            &&& is_rate(p.net_profit_rate, p.net_profit_per_btc, pos.open_spot)
            &&& is_share(p.est_profit, p.net_profit_per_btc, pos.exec_qty)
            &&& -1_000_000_000_000_000 < p.net_profit_rate.units < 1_000_000_000_000_000 ==> is_annual(
                p.hold_annual_rate,
                p.net_profit_rate,
                pos.open_ts,
                now,
            )
        },
{
    settlement_is_in_the_middle(spot);
    let x = settlement_spec(spot);
    assert(0 <= x.units < 100_000_000_000_000_000);
    products_are_cut_off(rules.spot_fee_rate, x);
    products_are_cut_off(rules.exercise_fee_rate, x);
    let a = rules.spot_fee_rate.units as int;
    let b = rules.exercise_fee_rate.units as int;
    let u = x.units as int;
    assert((a + b) * u == a * u + b * u) by (nonlinear_arith);
    assert(0 <= a * u <= 1_000_000_000 * u) by (nonlinear_arith)
        requires
            0 <= a <= 1_000_000_000,
            0 <= u,
    ;
    assert(0 <= b * u <= 1_000_000_000 * u) by (nonlinear_arith)
        requires
            0 <= b <= 1_000_000_000,
            0 <= u,
    ;
    let net = pos.open_gross.minus_spec(pos.open_fee).minus_spec(rules.spot_fee_rate.times_spec(x)).minus_spec(
        rules.exercise_fee_rate.times_spec(x),
    );
    lemma_rate(net, pos.open_spot);
    lemma_share(net, pos.exec_qty);
    let rate = net.over_spec(pos.open_spot);
    if -1_000_000_000_000_000 < rate.units < 1_000_000_000_000_000 {
        lemma_annual(rate, pos.open_ts, now);
    }
}

// ---------------------------------------------------------------------------
// The opening of a position
// ---------------------------------------------------------------------------
/// A position opens only where somebody trades on every side that opening meets,
/// at the prices of these sides and with a quantity that is on offer on each and
/// is that of one. It leaves a net profit and reaches every threshold; and where
/// somebody trades on every side that closing would meet, closing it at once
/// loses no more than is allowed.
pub proof fn opening_meets_its_sides_and_thresholds<N: Scalar>(
    place: PlaceView<N>,
    kind: Seq<char>,
    call: BookTop<N>,
    put: BookTop<N>,
    spot: BookTop<N>,
    rules: ScanRules<N>,
    now: i64,
)
    ensures
        opening_spec(place, kind, call, put, spot, rules, now) matches Some(p) ==> {
            let sides = opening_sides(kind, call, put, spot);
            let nothing = N::of_int_spec(0);
            &&& all_trade(sides)
            &&& p.open_call == sides.0.0 && p.open_put == sides.1.0 && p.open_spot == sides.2.0
            &&& is_least_of(p.exec_qty, sides.0.1, sides.1.1, sides.2.1)
            &&& !p.open_net.at_most_spec(nothing)
            &&& !p.open_rate.less_spec(rules.min_profit_rate)
            &&& !p.open_annual_rate.less_spec(rules.min_annual_rate)
            &&& !p.exec_qty.less_spec(rules.min_exec_qty)
            &&& all_trade(closing_sides(kind, call, put, spot)) ==> !p.net_profit_rate.less_spec(
                nothing.minus_spec(rules.max_open_mark_loss),
            )
            &&& !all_trade(closing_sides(kind, call, put, spot)) ==> p.net_profit_per_btc == p.open_net
            &&& p.kind == kind && p.status == "open"@
            &&& p.expiry == place.expiry && p.expiry_ms == place.expiry_ms && p.strike == place.strike
            &&& p.call_symbol == place.call && p.put_symbol == place.put
            &&& p.open_ts == now && p.close_ts == 0
            &&& p.hold_annual_rate == p.open_annual_rate
        },
{
    let sides = opening_sides(kind, call, put, spot);
    if all_trade(sides) {
        traded_quantities_are_ordered(sides.0.0, sides.0.1);
        traded_quantities_are_ordered(sides.1.0, sides.1.1);
        traded_quantities_are_ordered(sides.2.0, sides.2.1);
        lemma_least_of_three(sides.0.1, sides.1.1, sides.2.1);
    }
}

/// Two sets of rules that charge the same fees and set the same targets.
pub open spec fn same_charges<N: Scalar>(a: ScanRules<N>, b: ScanRules<N>) -> bool {
    &&& a.spot_fee_rate == b.spot_fee_rate
    &&& a.option_fee_rate == b.option_fee_rate
    &&& a.close_rate_discount == b.close_rate_discount
}

/// The thresholds only decide whether a position opens, never what it looks
/// like: where one opens under some rules and reaches the thresholds of others
/// with the same charges, the same one opens under those.
pub proof fn thresholds_only_decide_whether<N: Scalar>(
    place: PlaceView<N>,
    kind: Seq<char>,
    call: BookTop<N>,
    put: BookTop<N>,
    spot: BookTop<N>,
    rules: ScanRules<N>,
    others: ScanRules<N>,
    now: i64,
)
    requires
        same_charges(rules, others),
        opening_spec(place, kind, call, put, spot, rules, now) is Some,
    ensures
        ({
            let p = opening_spec(place, kind, call, put, spot, rules, now)->0;
            let q = opening_spec(place, kind, call, put, spot, others, now);
            let closable = all_trade(closing_sides(kind, call, put, spot)) ==> !p.net_profit_rate.less_spec(
                N::of_int_spec(0).minus_spec(others.max_open_mark_loss),
            );
            &&& q is Some <==> !p.open_rate.less_spec(others.min_profit_rate) && !p.open_annual_rate.less_spec(
                others.min_annual_rate,
            ) && !p.exec_qty.less_spec(others.min_exec_qty) && closable
            &&& q is Some ==> q == Some(p)
        }),
{
}

/// Rules that turn nothing down but what leaves no profit.
pub open spec fn asks_for_nothing(rules: ScanRules<Fixed>) -> bool {
    &&& rules.min_profit_rate.units <= 0
    &&& rules.min_annual_rate.units <= 0
    &&& rules.min_exec_qty.units <= 0
    &&& rules.max_open_mark_loss.units >= 2_000_000_000_000_000_000_000
}

/// Where somebody trades on every side and what is taken in is more than the
/// fees, under rules that ask for nothing more, a position opens; where it is
/// not, none does, under whatever rules.
pub proof fn profit_opens_a_position(
    place: PlaceView<Fixed>,
    kind: Seq<char>,
    call: BookTop<Fixed>,
    put: BookTop<Fixed>,
    spot: BookTop<Fixed>,
    rules: ScanRules<Fixed>,
    now: i64,
    fees: Fixed,
)
    requires
        is_kind(kind),
        0 <= place.strike.units < 100_000_000_000_000_000,
        plain_book(call) && plain_book(put) && plain_book(spot),
        plain_rules(rules),
        is_time(now) && is_time(place.expiry_ms),
        all_trade(opening_sides(kind, call, put, spot)),
        opening_sides(kind, call, put, spot).2.0.units >= SCALE,
        ({
            let sides = opening_sides(kind, call, put, spot);
            are_fees(fees, sides.0.0, sides.1.0, sides.2.0, rules)
        }),
    ensures
        ({
            let sides = opening_sides(kind, call, put, spot);
            let gain = -closing_gain(kind, sides.0.0, sides.1.0, sides.2.0, place.strike);
            &&& asks_for_nothing(rules) && gain > fees.units + 1 ==> opening_spec(
                place,
                kind,
                call,
                put,
                spot,
                rules,
                now,
            ) is Some
            &&& gain < fees.units ==> opening_spec(place, kind, call, put, spot, rules, now) is None
        }),
{
    lemma_kinds_differ();
    let legs = opening_legs(kind, call, put, spot, place.strike)->0;
    lemma_fees_bound(legs, rules);
    fees_are_shares_of_the_prices(legs, rules);
    let charged = side_fees(legs, rules);
    assert(charged.units - 1 <= fees.units <= charged.units + 1);
    let net = legs.gross.minus_spec(charged);
    lemma_rate(net, legs.spot);
    let rate = net.over_spec(legs.spot);
    if net.units >= 0 {
        let n = net.units * SCALE;
        let d = legs.spot.units as int;
        assert(n / d >= 0) by (nonlinear_arith)
            requires
                n >= 0,
                d > 0,
        ;
        let days = days_spec::<Fixed>(now, place.expiry_ms);
        lemma_annual_sign(rate, days);
        if let Some(closing) = closing_legs(kind, call, put, spot, place.strike) {
            lemma_fees_bound(closing, rules);
            let mark = roundtrip_net(legs.gross, charged, closing, rules);
            lemma_rate(mark, legs.spot);
        }
    }
}

proof fn lemma_annual_sign(rate: Fixed, days: Fixed)
    requires
        0 <= rate.units < 2_000_000_000_000_000_000,
    ensures
        annual_rate_spec(rate, days).units >= 0,
{
    let year = Fixed::of_int_spec(365);
    let u = rate.units as int;
    let y = year.units as int;
    assert(u * y == u * 365 * 1_000_000_000) by (nonlinear_arith)
        requires
            y == 365 * 1_000_000_000,
    ;
    let yearly = rate.times_spec(year);
    assert(yearly.units == u * 365);
    let n = yearly.units * SCALE;
    let d = days.units as int;
    if d > 0 {
        assert(n / d >= 0) by (nonlinear_arith)
            requires
                n >= 0,
                d > 0,
        ;
    }
}

/// An opened position takes in what it sells less what it buys; its fees are
/// shares of its prices, its rate is what it leaves on the price of the spot,
/// its annual rate the same over the time to expiry, its target a share of its
/// rate. It is worth what closing it at once would leave, where that can be done.
pub proof fn opened_position_has_its_figures(
    place: PlaceView<Fixed>,
    kind: Seq<char>,
    call: BookTop<Fixed>,
    put: BookTop<Fixed>,
    spot: BookTop<Fixed>,
    rules: ScanRules<Fixed>,
    now: i64,
)
    requires
        is_kind(kind),
        0 <= place.strike.units < 100_000_000_000_000_000,
        plain_book(call) && plain_book(put) && plain_book(spot),
        plain_rules(rules),
        is_time(now) && is_time(place.expiry_ms),
        opening_sides(kind, call, put, spot).2.0.units >= SCALE,
    ensures
        opening_spec(place, kind, call, put, spot, rules, now) matches Some(p) ==> {
            &&& p.open_gross.units == -closing_gain(kind, p.open_call, p.open_put, p.open_spot, place.strike)
            &&& are_fees(p.open_fee, p.open_call, p.open_put, p.open_spot, rules)
            &&& p.open_net.units == p.open_gross.units - p.open_fee.units
            &&& p.open_net.units > 0
            &&& is_rate(p.open_rate, p.open_net, p.open_spot)
            &&& p.open_rate.units < 1_000_000_000_000_000 ==> is_annual(
                p.open_annual_rate,
                p.open_rate,
                now,
                place.expiry_ms,
            )
            &&& p.open_rate.units < 1_000_000_000_000_000_000 ==> is_share(
                p.target_close_rate,
                rules.close_rate_discount,
                p.open_rate,
            )
            &&& all_trade(closing_sides(kind, call, put, spot)) ==> exists|fee: Fixed| #[trigger]
                is_worth(p, p, closing_sides(kind, call, put, spot), rules, fee)
            &&& !all_trade(closing_sides(kind, call, put, spot)) ==> is_share(
                p.est_profit,
                p.open_net,
                p.exec_qty,
            ) && p.net_profit_rate == p.open_rate
        },
{
    lemma_kinds_differ();
    if let Some(p) = opening_spec(place, kind, call, put, spot, rules, now) {
        opening_meets_its_sides_and_thresholds(place, kind, call, put, spot, rules, now);
        let legs = opening_legs(kind, call, put, spot, place.strike)->0;
        lemma_fees_bound(legs, rules);
        fees_are_shares_of_the_prices(legs, rules);
        let net = legs.gross.minus_spec(side_fees(legs, rules));
        lemma_rate(net, legs.spot);
        let rate = net.over_spec(legs.spot);
        let n = net.units * SCALE;
        let d = legs.spot.units as int;
        assert(n / d >= 0) by (nonlinear_arith)
            requires
                n >= 0,
                d > 0,
        ;
        if rate.units < 1_000_000_000_000_000 {
            lemma_annual(rate, now, place.expiry_ms);
        }
        if rate.units < 1_000_000_000_000_000_000 {
            lemma_share(rules.close_rate_discount, rate);
        }
        lemma_share(net, legs.qty);
        if let Some(closing) = closing_legs(kind, call, put, spot, place.strike) {
            lemma_fees_bound(closing, rules);
            fees_are_shares_of_the_prices(closing, rules);
            let mark = roundtrip_net(legs.gross, side_fees(legs, rules), closing, rules);
            lemma_rate(mark, legs.spot);
            lemma_share(mark, legs.qty);
            assert(is_worth(p, p, closing_sides(kind, call, put, spot), rules, side_fees(closing, rules)));
        }
    }
}

// ---------------------------------------------------------------------------
// The time of day
// ---------------------------------------------------------------------------
/// A time of day is shown by hours, minutes and seconds that add up to what has
/// passed of the day.
pub proof fn time_of_day_adds_up(now_ms: i64)
    requires
        now_ms >= 0,
    ensures
        exists|h: int, m: int, s: int|
            {
                &&& 0 <= h < 24 && 0 <= m < 60 && 0 <= s < 60
                &&& h * 3600 + m * 60 + s == (now_ms as int / 1000) % 86_400
                &&& hms_spec(now_ms) == #[trigger] decimal2(h) + ":"@ + #[trigger] decimal2(m) + ":"@
                    + #[trigger] decimal2(s) + " UTC"@
            },
{
    let secs = (now_ms as int / 1000) % 86_400;
    let h = secs / 3600;
    let m = (secs % 3600) / 60;
    let s = secs % 60;
    assert(h * 3600 + m * 60 + s == secs);
    assert(hms_spec(now_ms) == decimal2(h) + ":"@ + decimal2(m) + ":"@ + decimal2(s) + " UTC"@);
}

} // verus!
