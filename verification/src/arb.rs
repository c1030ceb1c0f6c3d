//! Finding conversions and reversals between options and the spot market.
//!
//! Calls and puts are paired by underlying, expiry and strike. Premiums are
//! quoted in the underlying and turned into dollars at the middle of the spot
//! market.
use crate::models::{
    leg_views, option_fee, option_fee_spec, premium_cap, premium_cap_spec, strategy_name, BookViewView, Config,
    LegView, Opportunity, OpportunityView, OptionBookView, OptionSummary, OptionTopOfBook, OrderLeg, SpotBook,
    Strategy,
};
use crate::rank::{is_sorted, lemma_sorted_views, rank_number, sort_descending, sorted_is_falling, sorted_keeps_items, Ranked};
use crate::scalar::{zero, zero_spec, Scalar};
use crate::text::{pieces, same_text, split_on, texts, to_upper, uppercase};
use crate::time::{date_of, parse_date, seconds_spec, utc_at, utc_seconds, UtcTime};
use vstd::prelude::*;
use vstd::string::*;

verus! {

// ---------------------------------------------------------------------------
// Instrument names
// ---------------------------------------------------------------------------
/// The right to buy, or the right to sell.
#[derive(Clone, Copy, Debug, PartialEq, Eq, Structural)]
pub enum OptionType {
    Call,
    Put,
}

/// What the name of an option says, such as `BTC-25SEP26-75000-C`.
#[derive(Debug)]
pub struct ParsedInstrument<N> {
    pub underlying: String,
    pub expiry_code: String,
    pub expiry_utc: UtcTime,
    pub strike: N,
    pub strike_text: String,
    pub option_type: OptionType,
}

/// What the name of an option says, in contracts.
pub struct InstrumentView<N> {
    pub underlying: Seq<char>,
    pub expiry_code: Seq<char>,
    pub expiry_utc: UtcTime,
    pub strike: N,
    pub strike_text: Seq<char>,
    pub option_type: OptionType,
}

impl<N> View for ParsedInstrument<N> {
    type V = InstrumentView<N>;

    open spec fn view(&self) -> InstrumentView<N> {
        InstrumentView {
            underlying: self.underlying@,
            expiry_code: self.expiry_code@,
            expiry_utc: self.expiry_utc,
            strike: self.strike,
            strike_text: self.strike_text@,
            option_type: self.option_type,
        }
    }
}

/// What a name in four parts says: the underlying, the expiry, the strike, and
/// `C` or `P`. The expiry is given as its code and as the point in time that
/// the code stands for, if it stands for one.
pub open spec fn instrument_from<N: Scalar>(
    parts: Seq<Seq<char>>,
    expiry_code: Seq<char>,
    expiry: Option<i64>,
) -> Option<InstrumentView<N>> {
    if parts.len() != 4 || !(parts[3] == "C"@ || parts[3] == "P"@) {
        None
    } else {
        match (N::parse_spec(parts[2]), expiry) {
            (Some(strike), Some(secs)) => Some(
                InstrumentView {
                    underlying: parts[0],
                    expiry_code,
                    expiry_utc: UtcTime { secs, nanos: 0 },
                    strike,
                    strike_text: parts[2],
                    option_type: if parts[3] == "C"@ {
                        OptionType::Call
                    } else {
                        OptionType::Put
                    },
                },
            ),
            _ => None,
        }
    }
}

/// The point in time that an expiry code such as `25SEP26` stands for: eight
/// o'clock of that day.
pub open spec fn expiry_spec(code: Seq<char>) -> Option<i64> {
    match date_of(code, "%d%b%y"@) {
        Some((year, month, day)) => utc_seconds(year, month, day, 8, 0, 0),
        None => None,
    }
}

/// What the name of an option says, if it is one.
pub open spec fn instrument_spec<N: Scalar>(name: Seq<char>) -> Option<InstrumentView<N>> {
    let parts = pieces(name, '-');
    if parts.len() != 4 {
        None
    } else {
        instrument_from::<N>(parts, uppercase(parts[1]), expiry_spec(uppercase(parts[1])))
    }
}

/// The point in time that an expiry code stands for.
pub fn expiry_of(code: &str) -> (r: Option<i64>)
    ensures
        r == expiry_spec(code@),
        r matches Some(t) ==> (UtcTime { secs: t, nanos: 0 }).wf() && t as int % 86_400 == 8 * 3600,
{
    match parse_date(code, "%d%b%y") {
        Some((year, month, day)) => utc_at(year, month, day, 8, 0, 0),
        None => None,
    }
}

/// Reads a name that was cut into its parts.
pub fn instrument_of<N: Scalar>(parts: &Vec<String>, expiry_code: String, expiry: Option<i64>) -> (r: Option<
    ParsedInstrument<N>,
>)
    ensures
        match instrument_from::<N>(texts(parts@), expiry_code@, expiry) {
            Some(x) => r matches Some(p) && p@ == x,
            None => r is None,
        },
{
    if parts.len() != 4 {
        return None;
    }
    let option_type: OptionType = if same_text(parts[3].as_str(), "C") {
        OptionType::Call
    } else if same_text(parts[3].as_str(), "P") {
        OptionType::Put
    } else {
        return None;
    };
    let strike: N = match N::parse(parts[2].as_str()) {
        Some(x) => x,
        None => {
            return None;
        },
    };
    match expiry {
        Some(secs) => Some(
            ParsedInstrument {
                underlying: parts[0].clone(),
                expiry_code,
                expiry_utc: UtcTime { secs, nanos: 0 },
                strike,
                strike_text: parts[2].clone(),
                option_type,
            },
        ),
        None => None,
    }
}

/// Reads the name of an option. Options expire at eight o'clock in UTC.
pub fn parse_instrument_name<N: Scalar>(instrument: &str) -> (r: Option<ParsedInstrument<N>>)
    ensures
        match instrument_spec::<N>(instrument@) {
            Some(x) => r matches Some(p) && p@ == x,
            None => r is None,
        },
        r matches Some(p) ==> p.expiry_utc.wf() && p.expiry_utc.secs as int % 86_400 == 8 * 3600
            && p.expiry_utc.nanos == 0,
{
    let parts: Vec<String> = split_on(instrument, '-');
    if parts.len() != 4 {
        proof {
            assert(texts(parts@).len() != 4);
        }
        return None;
    }
    proof {
        assert(texts(parts@)[1] == parts@[1]@);
    }
    let code: String = to_upper(parts[1].as_str());
    let expiry: Option<i64> = expiry_of(code.as_str());
    instrument_of(&parts, code, expiry)
}

// ---------------------------------------------------------------------------
// Prices, fees and returns
// ---------------------------------------------------------------------------
/// The middle of the spot market.
pub open spec fn spot_mid<N: Scalar>(spot: SpotBook<N>) -> N {
    spot.bid_price.plus_spec(spot.ask_price).over_spec(N::of_int_spec(2))
}

/// The fee of an option leg in dollars per unit:
/// `min(0.0003, 0.125 * option_price) * spot_mid`.
pub open spec fn option_fee_usd<N: Scalar>(option_price: N, mid: N) -> N {
    option_fee_spec::<N>().least_spec(premium_cap_spec::<N>().times_spec(option_price)).times_spec(mid)
}

/// What one unit of a strategy costs and yields.
#[derive(Debug)]
pub struct Priced<N> {
    /// The price of the spot leg, which is the capital that is bound.
    pub capital: N,
    pub call_premium: N,
    pub put_premium: N,
    pub spot_fee: N,
    pub call_fee: N,
    pub put_fee: N,
    pub fees: N,
    pub gross: N,
    pub net: N,
}

impl<N: Copy> Clone for Priced<N> {
    fn clone(&self) -> (r: Self)
        ensures
            r == *self,
    {
        *self
    }
}

impl<N: Copy> Copy for Priced<N> {

}

/// One unit of a strategy at given option prices.
///
/// A conversion buys the spot at its ask, buys the put and sells the call:
/// `gross = strike - spot_ask - put + call`. A reversal sells the spot at its
/// bid, sells the put and buys the call: `gross = spot_bid + put - call - strike`.
pub open spec fn priced_spec<N: Scalar>(
    strategy: Strategy,
    strike: N,
    spot: SpotBook<N>,
    spot_fee_rate: N,
    call_price: N,
    put_price: N,
) -> Priced<N> {
    let mid = spot_mid(spot);
    let capital = match strategy {
        Strategy::Conversion => spot.ask_price,
        Strategy::Reversal => spot.bid_price,
    };
    let call_premium = call_price.times_spec(mid);
    let put_premium = put_price.times_spec(mid);
    let spot_fee = capital.times_spec(spot_fee_rate);
    let call_fee = option_fee_usd(call_price, mid);
    let put_fee = option_fee_usd(put_price, mid);
    let fees = spot_fee.plus_spec(call_fee).plus_spec(put_fee);
    let gross = match strategy {
        Strategy::Conversion => strike.minus_spec(capital).minus_spec(put_premium).plus_spec(call_premium),
        Strategy::Reversal => capital.plus_spec(put_premium).minus_spec(call_premium).minus_spec(strike),
    };
    Priced {
        capital,
        call_premium,
        put_premium,
        spot_fee,
        call_fee,
        put_fee,
        fees,
        gross,
        net: gross.minus_spec(fees),
    }
}

/// A return over a year of 365 days: `net / capital * seconds_per_year / seconds`.
pub open spec fn annual_return<N: Scalar>(net: N, capital: N, seconds: int) -> N {
    net.over_spec(capital).times_spec(N::of_int_spec(31_536_000)).over_spec(N::of_int_spec(seconds as i128))
}

/// The fee of an option leg in dollars per unit.
pub fn deribit_option_fee_per_unit_usd<N: Scalar>(option_price_underlying: N, spot_reference: N) -> (r: N)
    ensures
        r == option_fee_usd(option_price_underlying, spot_reference),
{
    option_fee::<N>().least(premium_cap::<N>().times(option_price_underlying)).times(spot_reference)
}

/// Prices one unit of a strategy.
pub fn price_unit<N: Scalar>(
    strategy: Strategy,
    strike: N,
    spot: &SpotBook<N>,
    spot_fee_rate: N,
    call_price: N,
    put_price: N,
) -> (r: Priced<N>)
    ensures
        r == priced_spec(strategy, strike, *spot, spot_fee_rate, call_price, put_price),
{
    let mid: N = spot.bid_price.plus(spot.ask_price).over(N::of_int(2));
    let capital: N = match strategy {
        Strategy::Conversion => spot.ask_price,
        Strategy::Reversal => spot.bid_price,
    };
    let call_premium: N = call_price.times(mid);
    let put_premium: N = put_price.times(mid);
    let spot_fee: N = capital.times(spot_fee_rate);
    let call_fee: N = deribit_option_fee_per_unit_usd(call_price, mid);
    let put_fee: N = deribit_option_fee_per_unit_usd(put_price, mid);
    let fees: N = spot_fee.plus(call_fee).plus(put_fee);
    let gross: N = match strategy {
        Strategy::Conversion => strike.minus(capital).minus(put_premium).plus(call_premium),
        Strategy::Reversal => capital.plus(put_premium).minus(call_premium).minus(strike),
    };
    Priced {
        capital,
        call_premium,
        put_premium,
        spot_fee,
        call_fee,
        put_fee,
        fees,
        gross,
        net: gross.minus(fees),
    }
}

// ---------------------------------------------------------------------------
// Rough candidates
// ---------------------------------------------------------------------------
/// The prices at which a strategy trades the call and the put: a conversion
/// sells the call and buys the put, a reversal the other way round.
pub open spec fn traded_prices<N>(
    strategy: Strategy,
    call_bid: Option<N>,
    call_ask: Option<N>,
    put_bid: Option<N>,
    put_ask: Option<N>,
) -> Option<(N, N)> {
    match strategy {
        Strategy::Conversion => match (call_bid, put_ask) {
            (Some(c), Some(p)) => Some((c, p)),
            _ => None,
        },
        Strategy::Reversal => match (call_ask, put_bid) {
            (Some(c), Some(p)) => Some((c, p)),
            _ => None,
        },
    }
}

fn prices_of<N: Scalar>(
    strategy: Strategy,
    call_bid: Option<N>,
    call_ask: Option<N>,
    put_bid: Option<N>,
    put_ask: Option<N>,
) -> (r: Option<(N, N)>)
    ensures
        r == traded_prices(strategy, call_bid, call_ask, put_bid, put_ask),
{
    match strategy {
        Strategy::Conversion => match (call_bid, put_ask) {
            (Some(c), Some(p)) => Some((c, p)),
            _ => None,
        },
        Strategy::Reversal => match (call_ask, put_bid) {
            (Some(c), Some(p)) => Some((c, p)),
            _ => None,
        },
    }
}

/// The annualized return of a strategy at the prices of two summaries. There is
/// none after the expiry, where a price is missing, or where no capital is bound.
pub open spec fn rough_spec<N: Scalar>(
    expiry_utc: UtcTime,
    strike: N,
    call: OptionSummary<N>,
    put: OptionSummary<N>,
    spot: SpotBook<N>,
    spot_fee_rate: N,
    strategy: Strategy,
    now: UtcTime,
) -> Option<N> {
    let seconds = seconds_spec(now, expiry_utc);
    if N::of_int_spec(seconds as i128).at_most_spec(zero_spec::<N>()) {
        None
    } else {
        match traded_prices(strategy, call.bid_price, call.ask_price, put.bid_price, put.ask_price) {
            None => None,
            Some((c, p)) => {
                let unit = priced_spec(strategy, strike, spot, spot_fee_rate, c, p);
                if unit.capital.at_most_spec(zero_spec::<N>()) {
                    None
                } else {
                    Some(annual_return(unit.net, unit.capital, seconds))
                }
            },
        }
    }
}

/// The annualized return of a strategy at the prices of two summaries.
pub fn rough_annualized_for<N: Scalar>(
    expiry_utc: UtcTime,
    strike: N,
    call: &OptionSummary<N>,
    put: &OptionSummary<N>,
    spot: &SpotBook<N>,
    config: &Config<N>,
    strategy: Strategy,
    now: UtcTime,
) -> (r: Option<N>)
    ensures
        r == rough_spec(expiry_utc, strike, *call, *put, *spot, config.spot_fee_rate, strategy, now),
{
    let seconds: N = N::of_int(now.seconds_until(&expiry_utc));
    if seconds.at_most(zero()) {
        return None;
    }
    let (c, p): (N, N) = match prices_of(strategy, call.bid_price, call.ask_price, put.bid_price, put.ask_price) {
        Some(prices) => prices,
        None => {
            return None;
        },
    };
    let unit: Priced<N> = price_unit(strategy, strike, spot, config.spot_fee_rate, c, p);
    if unit.capital.at_most(zero()) {
        return None;
    }
    Some(unit.net.over(unit.capital).times(N::of_int(31_536_000)).over(seconds))
}

/// A strategy at a strike that looks worth verifying.
#[derive(Debug)]
pub struct Candidate<N> {
    pub underlying: String,
    pub strategy: Strategy,
    pub expiry_code: String,
    pub expiry_utc: UtcTime,
    pub strike: N,
    pub call: OptionSummary<N>,
    pub put: OptionSummary<N>,
    pub rough_annualized: N,
}

impl<N: Scalar> Clone for Candidate<N> {
    fn clone(&self) -> (r: Self)
        ensures
            r == *self,
    {
        Candidate {
            underlying: self.underlying.clone(),
            strategy: self.strategy,
            expiry_code: self.expiry_code.clone(),
            expiry_utc: self.expiry_utc,
            strike: self.strike,
            call: self.call.clone(),
            put: self.put.clone(),
            rough_annualized: self.rough_annualized,
        }
    }
}

/// A candidate in contracts.
pub struct CandidateView<N> {
    pub underlying: Seq<char>,
    pub strategy: Strategy,
    pub expiry_code: Seq<char>,
    pub expiry_utc: UtcTime,
    pub strike: N,
    pub call: OptionSummary<N>,
    pub put: OptionSummary<N>,
    pub rough_annualized: N,
}

impl<N> View for Candidate<N> {
    type V = CandidateView<N>;

    open spec fn view(&self) -> CandidateView<N> {
        CandidateView {
            underlying: self.underlying@,
            strategy: self.strategy,
            expiry_code: self.expiry_code@,
            expiry_utc: self.expiry_utc,
            strike: self.strike,
            call: self.call,
            put: self.put,
            rough_annualized: self.rough_annualized,
        }
    }
}

/// The candidates of a vector.
pub open spec fn candidate_views<N>(v: Seq<Candidate<N>>) -> Seq<CandidateView<N>> {
    v.map_values(|c: Candidate<N>| c@)
}

/// The number that candidates are ordered by.
pub open spec fn rough_rate<N>() -> spec_fn(CandidateView<N>) -> N {
    |c: CandidateView<N>| c.rough_annualized
}

/// No candidate has a smaller return than one behind it.
pub open spec fn is_falling<N: Scalar>(v: Seq<CandidateView<N>>) -> bool {
    forall|i: int, j: int|
        0 <= i < j < v.len() ==> (#[trigger] v[j]).rough_annualized.at_most_spec(
            (#[trigger] v[i]).rough_annualized,
        )
}

impl<N: Scalar> Ranked<N> for Candidate<N> {
    open spec fn rank_spec(&self) -> N {
        self.rough_annualized
    }

    fn rank(&self) -> (r: N) {
        self.rough_annualized
    }
}

/// What the names of instruments say.
pub open spec fn instrument_views<N>(v: Seq<Option<ParsedInstrument<N>>>) -> Seq<Option<InstrumentView<N>>> {
    v.map_values(
        |p: Option<ParsedInstrument<N>>|
            match p {
                Some(x) => Some(x@),
                None => None,
            },
    )
}

/// An option of the underlying that has not expired, with a strike above zero.
pub open spec fn usable<N: Scalar>(x: Option<InstrumentView<N>>, underlying: Seq<char>, now: UtcTime) -> bool {
    match x {
        Some(p) => p.underlying == underlying && now.instant() < p.expiry_utc.instant() && !p.strike.at_most_spec(
            zero_spec::<N>(),
        ),
        None => false,
    }
}

/// Two options that belong together: of one underlying, expiry and strike.
pub open spec fn same_pair<N>(a: InstrumentView<N>, b: InstrumentView<N>) -> bool {
    a.underlying == b.underlying && a.expiry_code == b.expiry_code && a.strike_text == b.strike_text
}

/// Option `i` is usable and belongs together with option `with`.
pub open spec fn pairs_with<N: Scalar>(
    options: Seq<Option<InstrumentView<N>>>,
    i: int,
    with: int,
    underlying: Seq<char>,
    now: UtcTime,
) -> bool {
    usable(options[i], underlying, now) && same_pair(options[i]->0, options[with]->0)
}

/// Option `i` is usable, and no usable option before it belongs together with it.
pub open spec fn starts_pair<N: Scalar>(
    options: Seq<Option<InstrumentView<N>>>,
    i: int,
    underlying: Seq<char>,
    now: UtcTime,
) -> bool {
    usable(options[i], underlying, now) && forall|j: int|
        0 <= j < i ==> !#[trigger] pairs_with(options, j, i, underlying, now)
}

/// Among the first `n`, the last option of a type that belongs together with
/// option `with`.
pub open spec fn last_of_pair<N: Scalar>(
    options: Seq<Option<InstrumentView<N>>>,
    with: int,
    option_type: OptionType,
    underlying: Seq<char>,
    now: UtcTime,
    n: int,
) -> Option<int>
    decreases n,
{
    if n <= 0 {
        None
    } else if pairs_with(options, n - 1, with, underlying, now) && options[n - 1]->0.option_type == option_type {
        Some(n - 1)
    } else {
        last_of_pair(options, with, option_type, underlying, now, n - 1)
    }
}

/// The candidate of one strategy at a pair, where its return reaches the threshold.
pub open spec fn candidate_of<N: Scalar>(
    config: Config<N>,
    spot: SpotBook<N>,
    start: InstrumentView<N>,
    call: OptionSummary<N>,
    put: OptionSummary<N>,
    strategy: Strategy,
    now: UtcTime,
) -> Seq<CandidateView<N>> {
    match rough_spec(start.expiry_utc, start.strike, call, put, spot, config.spot_fee_rate, strategy, now) {
        Some(rate) => if config.min_annualized.at_most_spec(rate) {
            seq![
                CandidateView {
                    underlying: start.underlying,
                    strategy,
                    expiry_code: start.expiry_code,
                    expiry_utc: start.expiry_utc,
                    strike: start.strike,
                    call,
                    put,
                    rough_annualized: rate,
                },
            ]
        } else {
            Seq::empty()
        },
        None => Seq::empty(),
    }
}

/// The candidates of the pair that option `i` starts, if it starts one and the
/// pair has a call and a put: those listed last count.
pub open spec fn candidates_at<N: Scalar>(
    config: Config<N>,
    spot: SpotBook<N>,
    options: Seq<Option<InstrumentView<N>>>,
    summaries: Seq<OptionSummary<N>>,
    now: UtcTime,
    i: int,
) -> Seq<CandidateView<N>> {
    if !starts_pair(options, i, spot.underlying@, now) {
        Seq::empty()
    } else {
        let n = options.len() as int;
        let call = last_of_pair(options, i, OptionType::Call, spot.underlying@, now, n);
        let put = last_of_pair(options, i, OptionType::Put, spot.underlying@, now, n);
        match (call, put) {
            (Some(c), Some(p)) => candidate_of(
                config,
                spot,
                options[i]->0,
                summaries[c],
                summaries[p],
                Strategy::Conversion,
                now,
            ) + candidate_of(config, spot, options[i]->0, summaries[c], summaries[p], Strategy::Reversal, now),
            _ => Seq::empty(),
        }
    }
}

/// The candidates of the pairs that the first `n` options start, in order.
pub open spec fn candidates_up_to<N: Scalar>(
    config: Config<N>,
    spot: SpotBook<N>,
    options: Seq<Option<InstrumentView<N>>>,
    summaries: Seq<OptionSummary<N>>,
    now: UtcTime,
    n: int,
) -> Seq<CandidateView<N>>
    decreases n,
{
    if n <= 0 {
        Seq::empty()
    } else {
        candidates_up_to(config, spot, options, summaries, now, n - 1) + candidates_at(
            config,
            spot,
            options,
            summaries,
            now,
            n - 1,
        )
    }
}

/// What the names of summaries say.
pub open spec fn named_options<N: Scalar>(summaries: Seq<OptionSummary<N>>) -> Seq<Option<InstrumentView<N>>> {
    summaries.map_values(|s: OptionSummary<N>| instrument_spec::<N>(s.instrument_name@))
}

fn is_usable<N: Scalar>(x: &Option<ParsedInstrument<N>>, underlying: &str, now: UtcTime) -> (r: bool)
    ensures
        r == usable(
            (match *x {
                Some(p) => Some(p@),
                None => None,
            }),
            underlying@,
            now,
        ),
{
    match x {
        Some(p) => same_text(p.underlying.as_str(), underlying) && !p.expiry_utc.not_after(&now)
            && !p.strike.at_most(zero()),
        None => false,
    }
}

fn belongs<N: Scalar>(
    options: &Vec<Option<ParsedInstrument<N>>>,
    i: usize,
    with: usize,
    underlying: &str,
    now: UtcTime,
) -> (r: bool)
    requires
        i < options@.len(),
        with < options@.len(),
        options@[with as int] is Some,
    ensures
        r == pairs_with(instrument_views(options@), i as int, with as int, underlying@, now),
{
    proof {
        assert(instrument_views(options@)[i as int] == (match options@[i as int] {
            Some(x) => Some(x@),
            None => None,
        }));
        assert(instrument_views(options@)[with as int] == (match options@[with as int] {
            Some(x) => Some(x@),
            None => None,
        }));
    }
    if !is_usable(&options[i], underlying, now) {
        return false;
    }
    match (&options[i], &options[with]) {
        (Some(a), Some(b)) => same_text(a.underlying.as_str(), b.underlying.as_str()) && same_text(
            a.expiry_code.as_str(),
            b.expiry_code.as_str(),
        ) && same_text(a.strike_text.as_str(), b.strike_text.as_str()),
        _ => false,
    }
}

fn starts<N: Scalar>(options: &Vec<Option<ParsedInstrument<N>>>, i: usize, underlying: &str, now: UtcTime) -> (r:
    bool)
    requires
        i < options@.len(),
    ensures
        r == starts_pair(instrument_views(options@), i as int, underlying@, now),
{
    let ghost all = instrument_views(options@);
    proof {
        assert(all[i as int] == (match options@[i as int] {
            Some(x) => Some(x@),
            None => None,
        }));
    }
    if !is_usable(&options[i], underlying, now) {
        return false;
    }
    let mut j: usize = 0;
    while j < i
        invariant
            j <= i,
            i < options@.len(),
            options@[i as int] is Some,
            all == instrument_views(options@),
            forall|k: int| 0 <= k < j ==> !#[trigger] pairs_with(all, k, i as int, underlying@, now),
        decreases i - j,
    {
        if belongs(options, j, i, underlying, now) {
            return false;
        }
        j = j + 1;
    }
    true
}

fn last_of<N: Scalar>(
    options: &Vec<Option<ParsedInstrument<N>>>,
    with: usize,
    option_type: OptionType,
    underlying: &str,
    now: UtcTime,
) -> (r: Option<usize>)
    requires
        with < options@.len(),
        options@[with as int] is Some,
    ensures
        match last_of_pair(
            instrument_views(options@),
            with as int,
            option_type,
            underlying@,
            now,
            options@.len() as int,
        ) {
            Some(k) => r matches Some(x) && x == k && 0 <= k < options@.len(),
            None => r is None,
        },
{
    let ghost all = instrument_views(options@);
    let ghost whole = last_of_pair(all, with as int, option_type, underlying@, now, options@.len() as int);
    let mut n: usize = options.len();
    while n > 0
        invariant
            n <= options@.len(),
            with < options@.len(),
            options@[with as int] is Some,
            all == instrument_views(options@),
            whole == last_of_pair(all, with as int, option_type, underlying@, now, options@.len() as int),
            whole == last_of_pair(all, with as int, option_type, underlying@, now, n as int),
        decreases n,
    {
        n = n - 1;
        if belongs(options, n, with, underlying, now) {
            proof {
                assert(all[n as int] == (match options@[n as int] {
                    Some(x) => Some(x@),
                    None => None,
                }));
            }
            match &options[n] {
                Some(p) => {
                    if p.option_type == option_type {
                        return Some(n);
                    }
                },
                None => {},
            }
        }
    }
    None
}

fn push_candidate<N: Scalar>(
    config: &Config<N>,
    spot: &SpotBook<N>,
    start: &ParsedInstrument<N>,
    call: &OptionSummary<N>,
    put: &OptionSummary<N>,
    strategy: Strategy,
    now: UtcTime,
    out: &mut Vec<Candidate<N>>,
)
    ensures
        candidate_views(final(out)@) == candidate_views(old(out)@) + candidate_of(
            *config,
            *spot,
            start@,
            *call,
            *put,
            strategy,
            now,
        ),
{
    let ghost before = candidate_views(out@);
    proof {
        assert(before + Seq::<CandidateView<N>>::empty() =~= before);
    }
    match rough_annualized_for(start.expiry_utc, start.strike, call, put, spot, config, strategy, now) {
        Some(rate) => {
            if config.min_annualized.at_most(rate) {
                let c = Candidate {
                    underlying: start.underlying.clone(),
                    strategy,
                    expiry_code: start.expiry_code.clone(),
                    expiry_utc: start.expiry_utc,
                    strike: start.strike,
                    call: call.clone(),
                    put: put.clone(),
                    rough_annualized: rate,
                };
                out.push(c);
                proof {
                    assert(candidate_views(out@) =~= before + seq![c@]);
                }
            }
        },
        None => {},
    }
}

/// The candidates among options whose names were read, by falling return.
/// `options` says what the names of `summaries` say.
pub fn rank_candidates<N: Scalar>(
    config: &Config<N>,
    spot: &SpotBook<N>,
    options: &Vec<Option<ParsedInstrument<N>>>,
    summaries: &Vec<OptionSummary<N>>,
    now: UtcTime,
) -> (r: Vec<Candidate<N>>)
    requires
        options@.len() == summaries@.len(),
    ensures
        is_sorted(
            candidates_up_to(
                *config,
                *spot,
                instrument_views(options@),
                summaries@,
                now,
                summaries@.len() as int,
            ),
            candidate_views(r@),
            rough_rate::<N>(),
        ),
        is_falling(candidate_views(r@)),
{
    let ghost all = instrument_views(options@);
    let n: usize = options.len();
    let mut out: Vec<Candidate<N>> = Vec::new();
    let mut i: usize = 0;
    proof {
        assert(candidate_views(out@) =~= Seq::<CandidateView<N>>::empty());
    }
    while i < n
        invariant
            i <= n,
            n == options@.len(),
            n == summaries@.len(),
            all == instrument_views(options@),
            candidate_views(out@) == candidates_up_to(*config, *spot, all, summaries@, now, i as int),
        decreases n - i,
    {
        let ghost before = candidate_views(out@);
        let ghost found = candidates_at(*config, *spot, all, summaries@, now, i as int);
        proof {
            assert(all[i as int] == (match options@[i as int] {
                Some(x) => Some(x@),
                None => None,
            }));
            assert(before + Seq::<CandidateView<N>>::empty() =~= before);
        }
        let underlying: &str = spot.underlying.as_str();
        if starts(options, i, underlying, now) {
            let call: Option<usize> = last_of(options, i, OptionType::Call, underlying, now);
            let put: Option<usize> = last_of(options, i, OptionType::Put, underlying, now);
            match (call, put, &options[i]) {
                (Some(c), Some(p), Some(start)) => {
                    push_candidate(
                        config,
                        spot,
                        start,
                        &summaries[c],
                        &summaries[p],
                        Strategy::Conversion,
                        now,
                        &mut out,
                    );
                    push_candidate(
                        config,
                        spot,
                        start,
                        &summaries[c],
                        &summaries[p],
                        Strategy::Reversal,
                        now,
                        &mut out,
                    );
                    proof {
                        assert(candidate_views(out@) =~= before + found);
                    }
                },
                _ => {},
            }
        }
        i = i + 1;
    }
    let ghost unsorted = out@;
    sort_descending::<N, Candidate<N>>(&mut out);
    proof {
        lemma_sorted_views(
            unsorted,
            out@,
            rank_number::<N, Candidate<N>>(),
            |c: Candidate<N>| c@,
            rough_rate::<N>(),
        );
        candidates_are_falling(*config, *spot, all, summaries@, now, candidate_views(out@));
    }
    out
}

/// The candidates among all options, by falling return: the pairs of the
/// underlying that have not expired, with each strategy whose annualized return
/// at the listed prices reaches the threshold.
pub fn find_rough_candidates<N: Scalar>(
    config: &Config<N>,
    spot: &SpotBook<N>,
    summaries: &Vec<OptionSummary<N>>,
    now: UtcTime,
) -> (r: Vec<Candidate<N>>)
    ensures
        is_sorted(
            candidates_up_to(
                *config,
                *spot,
                named_options(summaries@),
                summaries@,
                now,
                summaries@.len() as int,
            ),
            candidate_views(r@),
            rough_rate::<N>(),
        ),
        is_falling(candidate_views(r@)),
        forall|i: int| 0 <= i < r@.len() ==> (#[trigger] r@[i]).expiry_utc.wf(),
{
    let n: usize = summaries.len();
    let mut options: Vec<Option<ParsedInstrument<N>>> = Vec::new();
    let mut i: usize = 0;
    while i < n
        invariant
            i <= n,
            n == summaries@.len(),
            options@.len() == i,
            instrument_views(options@) == named_options(summaries@).take(i as int),
            forall|k: int| 0 <= k < i ==> ((#[trigger] options@[k]) matches Some(p) ==> p.expiry_utc.wf()),
        decreases n - i,
    {
        let ghost before = options@;
        let parsed: Option<ParsedInstrument<N>> = parse_instrument_name(summaries[i].instrument_name.as_str());
        options.push(parsed);
        proof {
            let named = named_options(summaries@);
            assert(named.take(i + 1) =~= named.take(i as int).push(named[i as int]));
            assert(instrument_views(options@) =~= instrument_views(before).push(named[i as int]));
        }
        i = i + 1;
    }
    proof {
        assert(named_options(summaries@).take(n as int) =~= named_options(summaries@));
    }
    let r: Vec<Candidate<N>> = rank_candidates(config, spot, &options, summaries, now);
    proof {
        let named = named_options(summaries@);
        let raw = candidates_up_to(*config, *spot, named, summaries@, now, n as int);
        assert forall|i: int| 0 <= i < r@.len() implies (#[trigger] r@[i]).expiry_utc.wf() by {
            let c = candidate_views(r@)[i];
            sorted_keeps_items(raw, candidate_views(r@), rough_rate::<N>(), i);
            let k = choose|k: int| 0 <= k < raw.len() && raw[k] == c;
            candidate_comes_from_pair(*config, *spot, named, summaries@, now, n as int, k);
            let (start, call, put) = choose|start: int, call: int, put: int| #[trigger]
                is_from_pair(c, *config, *spot, named, summaries@, now, start, call, put);
            assert(instrument_views(options@)[start] == named[start]);
            assert(options@[start] is Some);
        }
    }
    r
}

// ---------------------------------------------------------------------------
// Opportunities
// ---------------------------------------------------------------------------
/// What is shown of the book of an option. Where the book does not say how much
/// is open or traded, the summary does.
pub open spec fn book_view_spec<N>(book: OptionTopOfBook<N>, summary: OptionSummary<N>) -> BookViewView<N> {
    BookViewView {
        instrument: book.instrument_name@,
        bid_price: book.bid_price,
        ask_price: book.ask_price,
        bid_amount: book.bid_amount,
        ask_amount: book.ask_amount,
        open_interest: if book.open_interest is Some {
            book.open_interest
        } else {
            summary.open_interest
        },
        volume: if book.volume is Some {
            book.volume
        } else {
            summary.volume
        },
    }
}

/// What is shown of the book of an option.
pub fn book_view<N: Scalar>(book: &OptionTopOfBook<N>, summary: &OptionSummary<N>) -> (r: OptionBookView<N>)
    ensures
        r@ == book_view_spec(*book, *summary),
{
    OptionBookView {
        instrument: book.instrument_name.clone(),
        bid_price: book.bid_price,
        ask_price: book.ask_price,
        bid_amount: book.bid_amount,
        ask_amount: book.ask_amount,
        open_interest: match book.open_interest {
            Some(x) => Some(x),
            None => summary.open_interest,
        },
        volume: match book.volume {
            Some(x) => Some(x),
            None => summary.volume,
        },
    }
}

/// What is on offer on each side of a strategy: of the spot, the call and the put.
pub open spec fn offered<N>(
    strategy: Strategy,
    spot: SpotBook<N>,
    call_book: OptionTopOfBook<N>,
    put_book: OptionTopOfBook<N>,
) -> (N, N, N) {
    match strategy {
        Strategy::Conversion => (spot.ask_qty, call_book.bid_amount, put_book.ask_amount),
        Strategy::Reversal => (spot.bid_qty, call_book.ask_amount, put_book.bid_amount),
    }
}

/// The orders of a strategy: the spot, the put, the call.
pub open spec fn legs_spec<N: Scalar>(
    candidate: CandidateView<N>,
    spot: SpotBook<N>,
    call_book: OptionTopOfBook<N>,
    put_book: OptionTopOfBook<N>,
    unit: Priced<N>,
    call_price: N,
    put_price: N,
    quantity: N,
) -> Seq<LegView<N>> {
    let (of_spot, of_call, of_put) = offered(candidate.strategy, spot, call_book, put_book);
    let actions = match candidate.strategy {
        Strategy::Conversion => ("BUY"@, "BUY PUT"@, "SELL CALL"@),
        Strategy::Reversal => ("SELL / SHORT"@, "SELL PUT"@, "BUY CALL"@),
    };
    seq![
        LegView {
            venue: "Binance Spot"@,
            instrument: spot.symbol@,
            action: actions.0,
            price: unit.capital,
            price_unit: "USDT"@,
            quantity,
            available_quantity: of_spot,
            notional_usd: unit.capital.times_spec(quantity),
            fee_usd: unit.spot_fee.times_spec(quantity),
        },
        LegView {
            venue: "Deribit Options"@,
            instrument: put_book.instrument_name@,
            action: actions.1,
            price: put_price,
            price_unit: candidate.underlying,
            quantity,
            available_quantity: of_put,
            notional_usd: unit.put_premium.times_spec(quantity),
            fee_usd: unit.put_fee.times_spec(quantity),
        },
        LegView {
            venue: "Deribit Options"@,
            instrument: call_book.instrument_name@,
            action: actions.2,
            price: call_price,
            price_unit: candidate.underlying,
            quantity,
            available_quantity: of_call,
            notional_usd: unit.call_premium.times_spec(quantity),
            fee_usd: unit.call_fee.times_spec(quantity),
        },
    ]
}

/// What is said of a strategy to whoever acts on it.
pub open spec fn note_spec(strategy: Strategy) -> Seq<char> {
    match strategy {
        Strategy::Conversion => "Conversion: buy spot, buy put, sell call; covered short call is hedged by spot."@,
        Strategy::Reversal =>
            "Reversal needs existing spot inventory or a borrow/margin route; Binance spot alone does not create a short."@,
    }
}

/// `{underlying}-{expiry_code}-{strike}-{strategy}`, the strike with four
/// decimal places.
pub open spec fn opportunity_id<N: Scalar>(candidate: CandidateView<N>) -> Seq<char> {
    candidate.underlying + "-"@ + candidate.expiry_code + "-"@ + candidate.strike.fixed4_spec() + "-"@
        + strategy_name(candidate.strategy)
}

/// What a candidate comes to at live books. Nothing comes of it after the
/// expiry, where a price is missing, where nothing is on offer, where no
/// capital is bound, or where the annualized return is not at least the
/// threshold.
pub open spec fn opportunity_spec<N: Scalar>(
    config: Config<N>,
    candidate: CandidateView<N>,
    spot: SpotBook<N>,
    call_book: OptionTopOfBook<N>,
    put_book: OptionTopOfBook<N>,
    now: UtcTime,
    expiry_text: Seq<char>,
) -> Option<OpportunityView<N>> {
    let seconds = seconds_spec(now, candidate.expiry_utc);
    let (of_spot, of_call, of_put) = offered(candidate.strategy, spot, call_book, put_book);
    let quantity = of_spot.least_spec(of_call).least_spec(of_put);
    match traded_prices(
        candidate.strategy,
        call_book.bid_price,
        call_book.ask_price,
        put_book.bid_price,
        put_book.ask_price,
    ) {
        None => None,
        Some((c, p)) => {
            let unit = priced_spec(candidate.strategy, candidate.strike, spot, config.spot_fee_rate, c, p);
            let annual = annual_return(unit.net, unit.capital, seconds);
            if N::of_int_spec(seconds as i128).at_most_spec(zero_spec::<N>()) || quantity.at_most_spec(
                zero_spec::<N>(),
            ) || unit.capital.at_most_spec(zero_spec::<N>()) || !config.min_annualized.at_most_spec(
                annual,
            ) {
                None
            } else {
                Some(
                    OpportunityView {
                        id: opportunity_id(candidate),
                        underlying: candidate.underlying,
                        strategy: candidate.strategy,
                        expiry: candidate.expiry_code,
                        expiry_utc: expiry_text,
                        days_to_expiry: N::of_int_spec(seconds as i128).over_spec(N::of_int_spec(86_400)),
                        strike: candidate.strike,
                        quantity,
                        notional_usd: unit.capital.times_spec(quantity),
                        gross_profit_usd: unit.gross.times_spec(quantity),
                        fees_usd: unit.fees.times_spec(quantity),
                        net_profit_usd: unit.net.times_spec(quantity),
                        net_profit_per_unit_usd: unit.net,
                        profit_rate: unit.net.over_spec(unit.capital),
                        annualized_profit_rate: annual,
                        spot_bid: spot.bid_price,
                        spot_ask: spot.ask_price,
                        call: book_view_spec(call_book, candidate.call),
                        put: book_view_spec(put_book, candidate.put),
                        legs: legs_spec(candidate, spot, call_book, put_book, unit, c, p, quantity),
                        note: note_spec(candidate.strategy),
                    },
                )
            }
        },
    }
}

fn order_leg<N: Scalar>(
    venue: &str,
    instrument: &String,
    action: &str,
    price: N,
    price_unit: &str,
    quantity: N,
    available_quantity: N,
    notional: N,
    fee: N,
) -> (r: OrderLeg<N>)
    ensures
        r@ == (LegView {
            venue: venue@,
            instrument: instrument@,
            action: action@,
            price,
            price_unit: price_unit@,
            quantity,
            available_quantity,
            notional_usd: notional.times_spec(quantity),
            fee_usd: fee.times_spec(quantity),
        }),
{
    OrderLeg {
        venue: venue.to_owned(),
        instrument: instrument.clone(),
        action: action.to_owned(),
        price,
        price_unit: price_unit.to_owned(),
        quantity,
        available_quantity,
        notional_usd: notional.times(quantity),
        fee_usd: fee.times(quantity),
    }
}

fn order_legs<N: Scalar>(
    candidate: &Candidate<N>,
    spot: &SpotBook<N>,
    call_book: &OptionTopOfBook<N>,
    put_book: &OptionTopOfBook<N>,
    unit: &Priced<N>,
    call_price: N,
    put_price: N,
    quantity: N,
) -> (r: Vec<OrderLeg<N>>)
    ensures
        leg_views(r@) == legs_spec(
            candidate@,
            *spot,
            *call_book,
            *put_book,
            *unit,
            call_price,
            put_price,
            quantity,
        ),
{
    let (of_spot, of_call, of_put): (N, N, N) = offers(candidate.strategy, spot, call_book, put_book);
    let (spot_action, put_action, call_action): (&str, &str, &str) = match candidate.strategy {
        Strategy::Conversion => ("BUY", "BUY PUT", "SELL CALL"),
        Strategy::Reversal => ("SELL / SHORT", "SELL PUT", "BUY CALL"),
    };
    let a = order_leg(
        "Binance Spot",
        &spot.symbol,
        spot_action,
        unit.capital,
        "USDT",
        quantity,
        of_spot,
        unit.capital,
        unit.spot_fee,
    );
    let b = order_leg(
        "Deribit Options",
        &put_book.instrument_name,
        put_action,
        put_price,
        candidate.underlying.as_str(),
        quantity,
        of_put,
        unit.put_premium,
        unit.put_fee,
    );
    let c = order_leg(
        "Deribit Options",
        &call_book.instrument_name,
        call_action,
        call_price,
        candidate.underlying.as_str(),
        quantity,
        of_call,
        unit.call_premium,
        unit.call_fee,
    );
    let mut legs: Vec<OrderLeg<N>> = Vec::new();
    legs.push(a);
    legs.push(b);
    legs.push(c);
    proof {
        assert(leg_views(legs@) =~= legs_spec(
            candidate@,
            *spot,
            *call_book,
            *put_book,
            *unit,
            call_price,
            put_price,
            quantity,
        ));
    }
    legs
}

fn offers<N: Scalar>(
    strategy: Strategy,
    spot: &SpotBook<N>,
    call_book: &OptionTopOfBook<N>,
    put_book: &OptionTopOfBook<N>,
) -> (r: (N, N, N))
    ensures
        r == offered(strategy, *spot, *call_book, *put_book),
{
    match strategy {
        Strategy::Conversion => (spot.ask_qty, call_book.bid_amount, put_book.ask_amount),
        Strategy::Reversal => (spot.bid_qty, call_book.ask_amount, put_book.bid_amount),
    }
}

fn id_of<N: Scalar>(candidate: &Candidate<N>) -> (r: String)
    ensures
        r@ == opportunity_id(candidate@),
{
    let mut id = candidate.underlying.clone();
    id.append("-");
    id.append(candidate.expiry_code.as_str());
    id.append("-");
    let strike: String = candidate.strike.fixed4();
    id.append(strike.as_str());
    id.append("-");
    id.append(candidate.strategy.name());
    id
}

/// Verifies a candidate at live books. `expiry_text` is the expiry as it is shown.
pub fn opportunity_at<N: Scalar>(
    config: &Config<N>,
    candidate: &Candidate<N>,
    spot: &SpotBook<N>,
    call_book: &OptionTopOfBook<N>,
    put_book: &OptionTopOfBook<N>,
    now: UtcTime,
    expiry_text: String,
) -> (r: Option<Opportunity<N>>)
    ensures
        match opportunity_spec(*config, candidate@, *spot, *call_book, *put_book, now, expiry_text@) {
            Some(x) => r matches Some(o) && o@ == x,
            None => r is None,
        },
{
    let seconds: N = N::of_int(now.seconds_until(&candidate.expiry_utc));
    if seconds.at_most(zero()) {
        return None;
    }
    let (c, p): (N, N) = match prices_of(
        candidate.strategy,
        call_book.bid_price,
        call_book.ask_price,
        put_book.bid_price,
        put_book.ask_price,
    ) {
        Some(prices) => prices,
        None => {
            return None;
        },
    };
    let (of_spot, of_call, of_put): (N, N, N) = offers(candidate.strategy, spot, call_book, put_book);
    let quantity: N = of_spot.least(of_call).least(of_put);
    if quantity.at_most(zero()) {
        return None;
    }
    let unit: Priced<N> = price_unit(candidate.strategy, candidate.strike, spot, config.spot_fee_rate, c, p);
    if unit.capital.at_most(zero()) {
        return None;
    }
    let profit_rate: N = unit.net.over(unit.capital);
    let annual: N = profit_rate.times(N::of_int(31_536_000)).over(seconds);
    if !config.min_annualized.at_most(annual) {
        return None;
    }
    let note: &str = match candidate.strategy {
        Strategy::Conversion => "Conversion: buy spot, buy put, sell call; covered short call is hedged by spot.",
        Strategy::Reversal =>
            "Reversal needs existing spot inventory or a borrow/margin route; Binance spot alone does not create a short.",
    };
    Some(
        Opportunity {
            id: id_of(candidate),
            underlying: candidate.underlying.clone(),
            strategy: candidate.strategy,
            expiry: candidate.expiry_code.clone(),
            expiry_utc: expiry_text,
            days_to_expiry: seconds.over(N::of_int(86_400)),
            strike: candidate.strike,
            quantity,
            notional_usd: unit.capital.times(quantity),
            gross_profit_usd: unit.gross.times(quantity),
            fees_usd: unit.fees.times(quantity),
            net_profit_usd: unit.net.times(quantity),
            net_profit_per_unit_usd: unit.net,
            profit_rate,
            annualized_profit_rate: annual,
            spot_bid: spot.bid_price,
            spot_ask: spot.ask_price,
            call: book_view(call_book, &candidate.call),
            put: book_view(put_book, &candidate.put),
            legs: order_legs(candidate, spot, call_book, put_book, &unit, c, p, quantity),
            note: note.to_owned(),
        },
    )
}

/// Verifies a candidate at live books.
pub fn build_opportunity<N: Scalar>(
    config: &Config<N>,
    candidate: &Candidate<N>,
    spot: &SpotBook<N>,
    call_book: &OptionTopOfBook<N>,
    put_book: &OptionTopOfBook<N>,
    now: UtcTime,
) -> (r: Option<Opportunity<N>>)
    requires
        candidate.expiry_utc.wf(),
    ensures
        match opportunity_spec(
            *config,
            candidate@,
            *spot,
            *call_book,
            *put_book,
            now,
            candidate.expiry_utc.text_spec(),
        ) {
            Some(x) => r matches Some(o) && o@ == x,
            None => r is None,
        },
{
    opportunity_at(config, candidate, spot, call_book, put_book, now, candidate.expiry_utc.to_rfc3339())
}

// ---------------------------------------------------------------------------
// Laws
// ---------------------------------------------------------------------------
/// A candidate comes from a pair of options: a call and a put of the underlying
/// with one expiry and one strike, not expired, whose return at the listed
/// prices is the candidate's and reaches the threshold.
pub open spec fn is_from_pair<N: Scalar>(
    c: CandidateView<N>,
    config: Config<N>,
    spot: SpotBook<N>,
    options: Seq<Option<InstrumentView<N>>>,
    summaries: Seq<OptionSummary<N>>,
    now: UtcTime,
    start: int,
    call: int,
    put: int,
) -> bool {
    &&& 0 <= start < options.len()
    &&& 0 <= call < options.len()
    &&& 0 <= put < options.len()
    &&& usable(options[start], spot.underlying@, now)
    &&& pairs_with(options, call, start, spot.underlying@, now)
    &&& options[call]->0.option_type == OptionType::Call
    &&& pairs_with(options, put, start, spot.underlying@, now)
    &&& options[put]->0.option_type == OptionType::Put
    &&& c.underlying == spot.underlying@
    &&& c.expiry_code == options[start]->0.expiry_code
    &&& c.expiry_utc == options[start]->0.expiry_utc
    &&& c.strike == options[start]->0.strike
    &&& c.call == summaries[call]
    &&& c.put == summaries[put]
    &&& rough_spec(c.expiry_utc, c.strike, c.call, c.put, spot, config.spot_fee_rate, c.strategy, now) == Some(
        c.rough_annualized,
    )
    &&& config.min_annualized.at_most_spec(c.rough_annualized)
}

proof fn lemma_last_of_pair<N: Scalar>(
    options: Seq<Option<InstrumentView<N>>>,
    with: int,
    option_type: OptionType,
    underlying: Seq<char>,
    now: UtcTime,
    n: int,
)
    ensures
        last_of_pair(options, with, option_type, underlying, now, n) matches Some(k) ==> 0 <= k < n && pairs_with(
            options,
            k,
            with,
            underlying,
            now,
        ) && options[k]->0.option_type == option_type,
    decreases n,
{
    if n > 0 {
        lemma_last_of_pair(options, with, option_type, underlying, now, n - 1);
    }
}

/// Every candidate comes from a pair of options.
pub proof fn candidate_comes_from_pair<N: Scalar>(
    config: Config<N>,
    spot: SpotBook<N>,
    options: Seq<Option<InstrumentView<N>>>,
    summaries: Seq<OptionSummary<N>>,
    now: UtcTime,
    n: int,
    i: int,
)
    requires
        n <= options.len(),
        0 <= i < candidates_up_to(config, spot, options, summaries, now, n).len(),
    ensures
        exists|start: int, call: int, put: int| #[trigger]
            is_from_pair(
                candidates_up_to(config, spot, options, summaries, now, n)[i],
                config,
                spot,
                options,
                summaries,
                now,
                start,
                call,
                put,
            ),
    decreases n,
{
    if n > 0 {
        let before = candidates_up_to(config, spot, options, summaries, now, n - 1);
        let found = candidates_at(config, spot, options, summaries, now, n - 1);
        if i < before.len() {
            assert((before + found)[i] == before[i]);
            candidate_comes_from_pair(config, spot, options, summaries, now, n - 1, i);
        } else {
            assert((before + found)[i] == found[i - before.len()]);
            let len = options.len() as int;
            lemma_last_of_pair(options, n - 1, OptionType::Call, spot.underlying@, now, len);
            lemma_last_of_pair(options, n - 1, OptionType::Put, spot.underlying@, now, len);
            let call = last_of_pair(options, n - 1, OptionType::Call, spot.underlying@, now, len)->0;
            let put = last_of_pair(options, n - 1, OptionType::Put, spot.underlying@, now, len)->0;
            let start = options[n - 1]->0;
            let a = candidate_of(config, spot, start, summaries[call], summaries[put], Strategy::Conversion, now);
            let b = candidate_of(config, spot, start, summaries[call], summaries[put], Strategy::Reversal, now);
            let j = i - before.len();
            if j < a.len() {
                assert((a + b)[j] == a[j]);
            } else {
                assert((a + b)[j] == b[j - a.len()]);
            }
            assert(is_from_pair((before + found)[i], config, spot, options, summaries, now, n - 1, call, put));
        }
    }
}

/// Every candidate reaches the threshold, so every return takes part in the
/// order, and sorting leaves them by falling return.
pub proof fn candidates_are_falling<N: Scalar>(
    config: Config<N>,
    spot: SpotBook<N>,
    options: Seq<Option<InstrumentView<N>>>,
    summaries: Seq<OptionSummary<N>>,
    now: UtcTime,
    sorted: Seq<CandidateView<N>>,
)
    requires
        is_sorted(
            candidates_up_to(config, spot, options, summaries, now, options.len() as int),
            sorted,
            rough_rate::<N>(),
        ),
    ensures
        is_falling(sorted),
{
    let n = options.len() as int;
    let raw = candidates_up_to(config, spot, options, summaries, now, n);
    let number = rough_rate::<N>();
    assert forall|k: int| 0 <= k < raw.len() implies number(#[trigger] raw[k]).at_most_spec(number(raw[k])) by {
        candidate_comes_from_pair(config, spot, options, summaries, now, n, k);
        N::at_most_is_ordered(config.min_annualized, raw[k].rough_annualized);
    }
    assert forall|i: int, j: int| 0 <= i < j < sorted.len() implies (#[trigger]
    sorted[j]).rough_annualized.at_most_spec((#[trigger] sorted[i]).rough_annualized) by {
        sorted_is_falling(raw, sorted, number, i, j);
    }
}

/// Every pair whose return at the listed prices reaches the threshold gives a
/// candidate, for each strategy.
pub proof fn qualifying_pair_is_a_candidate<N: Scalar>(
    config: Config<N>,
    spot: SpotBook<N>,
    options: Seq<Option<InstrumentView<N>>>,
    summaries: Seq<OptionSummary<N>>,
    now: UtcTime,
    strategy: Strategy,
    start: int,
    n: int,
)
    requires
        0 <= start < n <= options.len(),
        starts_pair(options, start, spot.underlying@, now),
        ({
            let len = options.len() as int;
            let call = last_of_pair(options, start, OptionType::Call, spot.underlying@, now, len);
            let put = last_of_pair(options, start, OptionType::Put, spot.underlying@, now, len);
            &&& call is Some
            &&& put is Some
            &&& rough_spec(
                options[start]->0.expiry_utc,
                options[start]->0.strike,
                summaries[call->0],
                summaries[put->0],
                spot,
                config.spot_fee_rate,
                strategy,
                now,
            ) matches Some(rate) && config.min_annualized.at_most_spec(rate)
        }),
    ensures
        exists|i: int|
            {
                &&& 0 <= i < candidates_up_to(config, spot, options, summaries, now, n).len()
                &&& (#[trigger] candidates_up_to(config, spot, options, summaries, now, n)[i]).strategy == strategy
                &&& candidates_up_to(config, spot, options, summaries, now, n)[i].strike == options[start]->0.strike
                &&& candidates_up_to(config, spot, options, summaries, now, n)[i].expiry_code
                    == options[start]->0.expiry_code
            },
    decreases n,
{
    let before = candidates_up_to(config, spot, options, summaries, now, n - 1);
    let all = candidates_up_to(config, spot, options, summaries, now, n);
    if start < n - 1 {
        qualifying_pair_is_a_candidate(config, spot, options, summaries, now, strategy, start, n - 1);
        let i = choose|i: int|
            {
                &&& 0 <= i < before.len()
                &&& (#[trigger] before[i]).strategy == strategy
                &&& before[i].strike == options[start]->0.strike
                &&& before[i].expiry_code == options[start]->0.expiry_code
            };
        assert(all[i] == before[i]);
    } else {
        let len = options.len() as int;
        let call = last_of_pair(options, start, OptionType::Call, spot.underlying@, now, len)->0;
        let put = last_of_pair(options, start, OptionType::Put, spot.underlying@, now, len)->0;
        let p = options[start]->0;
        let a = candidate_of(config, spot, p, summaries[call], summaries[put], Strategy::Conversion, now);
        let b = candidate_of(config, spot, p, summaries[call], summaries[put], Strategy::Reversal, now);
        match strategy {
            Strategy::Conversion => {
                assert(all[before.len() as int] == a[0]);
            },
            Strategy::Reversal => {
                assert(all[(before.len() + a.len()) as int] == b[0]);
            },
        }
    }
}

/// Only opportunities whose annualized return is at least the threshold are
/// returned. A return that takes no part in the order is none.
pub proof fn opportunity_reaches_threshold<N: Scalar>(
    config: Config<N>,
    candidate: CandidateView<N>,
    spot: SpotBook<N>,
    call_book: OptionTopOfBook<N>,
    put_book: OptionTopOfBook<N>,
    now: UtcTime,
    expiry_text: Seq<char>,
)
    ensures
        opportunity_spec(config, candidate, spot, call_book, put_book, now, expiry_text) matches Some(o)
            ==> config.min_annualized.at_most_spec(o.annualized_profit_rate),
{
}

/// The quantity of an opportunity is on offer in each of its legs, and it is
/// the quantity of each order.
pub proof fn quantity_is_on_offer<N: Scalar>(
    config: Config<N>,
    candidate: CandidateView<N>,
    spot: SpotBook<N>,
    call_book: OptionTopOfBook<N>,
    put_book: OptionTopOfBook<N>,
    now: UtcTime,
    expiry_text: Seq<char>,
    i: int,
)
    requires
        ({
            let (a, b, c) = offered(candidate.strategy, spot, call_book, put_book);
            a.at_most_spec(a) && b.at_most_spec(b) && c.at_most_spec(c)
        }),
        0 <= i < 3,
    ensures
        opportunity_spec(config, candidate, spot, call_book, put_book, now, expiry_text) matches Some(o) ==> {
            &&& o.legs.len() == 3
            &&& o.legs[i].quantity == o.quantity
            &&& o.quantity.at_most_spec(o.legs[i].available_quantity)
            &&& !o.quantity.at_most_spec(zero_spec::<N>())
        },
{
    let (a, b, c) = offered(candidate.strategy, spot, call_book, put_book);
    N::least_is_lower_bound(a, b);
    let ab = a.least_spec(b);
    N::at_most_is_ordered(ab, a);
    N::least_is_lower_bound(ab, c);
    let q = ab.least_spec(c);
    N::at_most_is_transitive(q, ab, a);
    N::at_most_is_transitive(q, ab, b);
}

/// The fee of an option leg is capped: in units of the underlying it is at most
/// 0.0003 and at most 0.125 of the premium, and it is one of the two.
pub proof fn option_fee_is_capped<N: Scalar>(option_price: N, mid: N)
    requires
        option_fee_spec::<N>().at_most_spec(option_fee_spec::<N>()),
        premium_cap_spec::<N>().times_spec(option_price).at_most_spec(
            premium_cap_spec::<N>().times_spec(option_price),
        ),
    ensures
        exists|fee: N|
            {
                &&& option_fee_usd(option_price, mid) == #[trigger] fee.times_spec(mid)
                &&& fee.at_most_spec(option_fee_spec::<N>())
                &&& fee.at_most_spec(premium_cap_spec::<N>().times_spec(option_price))
                &&& fee == option_fee_spec::<N>() || fee == premium_cap_spec::<N>().times_spec(option_price)
            },
{
    let flat = option_fee_spec::<N>();
    let cap = premium_cap_spec::<N>().times_spec(option_price);
    N::least_is_lower_bound(flat, cap);
    assert(option_fee_usd(option_price, mid) == flat.least_spec(cap).times_spec(mid));
}

/// At live prices that are the listed ones, with something on offer in every
/// leg, the rough return is the final one: an opportunity comes of a candidate
/// exactly where the rough return is at least the threshold, and has that return.
pub proof fn unmoved_prices_confirm_candidate<N: Scalar>(
    config: Config<N>,
    candidate: CandidateView<N>,
    spot: SpotBook<N>,
    call_book: OptionTopOfBook<N>,
    put_book: OptionTopOfBook<N>,
    now: UtcTime,
    expiry_text: Seq<char>,
)
    requires
        call_book.bid_price == candidate.call.bid_price,
        call_book.ask_price == candidate.call.ask_price,
        put_book.bid_price == candidate.put.bid_price,
        put_book.ask_price == candidate.put.ask_price,
        ({
            let (a, b, c) = offered(candidate.strategy, spot, call_book, put_book);
            let nothing = zero_spec::<N>();
            nothing.less_spec(a) && nothing.less_spec(b) && nothing.less_spec(c)
        }),
    ensures
        ({
            let rough = rough_spec(
                candidate.expiry_utc,
                candidate.strike,
                candidate.call,
                candidate.put,
                spot,
                config.spot_fee_rate,
                candidate.strategy,
                now,
            );
            let found = opportunity_spec(config, candidate, spot, call_book, put_book, now, expiry_text);
            &&& found is Some <==> rough is Some && config.min_annualized.at_most_spec(rough->0)
            &&& found matches Some(o) ==> rough == Some(o.annualized_profit_rate)
        }),
{
    let (a, b, c) = offered(candidate.strategy, spot, call_book, put_book);
    let nothing = zero_spec::<N>();
    N::less_is_strict(nothing, a);
    N::less_is_strict(nothing, b);
    N::less_is_strict(nothing, c);
    N::at_most_is_ordered(nothing, a);
    N::at_most_is_ordered(nothing, b);
    N::at_most_is_ordered(nothing, c);
    N::least_is_lower_bound(a, b);
    N::least_is_lower_bound(a.least_spec(b), c);
}

} // verus!
