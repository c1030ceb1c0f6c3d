//! The data of the monitor.
use crate::env::{
    number_setting, read_number, read_text, read_unsigned, text_setting, unsigned_setting,
};
use crate::scalar::{ratio, ratio_spec, Scalar};
use crate::text::copy_texts;
use vstd::prelude::*;
use vstd::string::*;

verus! {

/// How many underlyings are watched.
pub const UNDERLYING_COUNT: usize = 2;

/// A watched underlying with its pair on the spot market.
pub open spec fn underlying_spec(i: int) -> (Seq<char>, Seq<char>) {
    if i == 0 {
        ("BTC"@, "BTCUSDT"@)
    } else {
        ("ETH"@, "ETHUSDT"@)
    }
}

/// A watched underlying with its pair on the spot market.
pub fn underlying(i: usize) -> (r: (&'static str, &'static str))
    requires
        i < UNDERLYING_COUNT,
    ensures
        (r.0@, r.1@) == underlying_spec(i as int),
{
    if i == 0 {
        ("BTC", "BTCUSDT")
    } else {
        ("ETH", "ETHUSDT")
    }
}

/// The fee of an option leg in units of the underlying: 0.0003.
pub open spec fn option_fee_spec<N: Scalar>() -> N {
    ratio_spec(3, 10_000)
}

/// The share of the premium that the fee of an option leg is capped at: 0.125.
pub open spec fn premium_cap_spec<N: Scalar>() -> N {
    ratio_spec(125, 1000)
}

/// The fee of an option leg in units of the underlying.
pub fn option_fee<N: Scalar>() -> (r: N)
    ensures
        r == option_fee_spec::<N>(),
{
    ratio(3, 10_000)
}

/// The share of the premium that the fee of an option leg is capped at.
pub fn premium_cap<N: Scalar>() -> (r: N)
    ensures
        r == premium_cap_spec::<N>(),
{
    ratio(125, 1000)
}

// ---------------------------------------------------------------------------
// Configuration
// ---------------------------------------------------------------------------
/// What the monitor is run with.
#[derive(Debug)]
pub struct Config<N> {
    pub host: String,
    pub port: u16,
    /// The time between two refreshes, in seconds.
    pub poll_secs: u64,
    pub spot_fee_rate: N,
    /// The least annualized return that is shown.
    pub min_annualized: N,
    /// How many rough candidates of an underlying are verified.
    pub max_candidates: usize,
    pub history_path: String,
    pub history_max_records: usize,
}

/// The larger of two integers.
pub open spec fn larger(a: u64, b: u64) -> u64 {
    if a < b {
        b
    } else {
        a
    }
}

impl<N: Scalar> Config<N> {
    /// The configuration that a list of settings gives. What is missing or does
    /// not parse has a default. A refresh takes place every five seconds at most.
    /// The fee rate of the spot market falls back on the older setting.
    pub fn from_env(vars: &Vec<(String, String)>) -> (r: Self)
        ensures
            r.host@ == text_setting(vars@, "OPTION_ARB_HOST"@, "0.0.0.0"@),
            r.port == unsigned_setting(vars@, "OPTION_ARB_PORT"@, 8080, 65_535),
            r.poll_secs == larger(unsigned_setting(vars@, "OPTION_ARB_POLL_SECS"@, 15, u64::MAX), 5),
            r.spot_fee_rate == number_setting::<N>(
                vars@,
                "OPTION_ARB_SPOT_FEE_RATE"@,
                number_setting::<N>(vars@, "OPTION_ARB_FEE_RATE"@, ratio_spec::<N>(24, 100_000)),
            ),
            r.min_annualized == number_setting::<N>(
                vars@,
                "OPTION_ARB_MIN_ANNUALIZED"@,
                ratio_spec::<N>(10, 100),
            ),
            r.max_candidates == unsigned_setting(vars@, "OPTION_ARB_MAX_CANDIDATES"@, 40, usize::MAX as u64),
            r.history_path@ == text_setting(vars@, "OPTION_ARB_HISTORY_PATH"@, "data/opportunities.jsonl"@),
            r.history_max_records == unsigned_setting(
                vars@,
                "OPTION_ARB_HISTORY_MAX_RECORDS"@,
                500,
                usize::MAX as u64,
            ),
    {
        let poll_secs: u64 = read_unsigned(vars, "OPTION_ARB_POLL_SECS", 15, u64::MAX);
        let legacy_fee_rate: N = read_number(vars, "OPTION_ARB_FEE_RATE", ratio(24, 100_000));
        Config {
            host: read_text(vars, "OPTION_ARB_HOST", "0.0.0.0"),
            port: read_unsigned(vars, "OPTION_ARB_PORT", 8080, 65_535) as u16,
            poll_secs: if poll_secs < 5 {
                5
            } else {
                poll_secs
            },
            spot_fee_rate: read_number(vars, "OPTION_ARB_SPOT_FEE_RATE", legacy_fee_rate),
            min_annualized: read_number(vars, "OPTION_ARB_MIN_ANNUALIZED", ratio(10, 100)),
            max_candidates: read_unsigned(vars, "OPTION_ARB_MAX_CANDIDATES", 40, usize::MAX as u64) as usize,
            history_path: read_text(vars, "OPTION_ARB_HISTORY_PATH", "data/opportunities.jsonl"),
            history_max_records: read_unsigned(
                vars,
                "OPTION_ARB_HISTORY_MAX_RECORDS",
                500,
                usize::MAX as u64,
            ) as usize,
        }
    }

    /// What is shown of the configuration.
    pub open spec fn shown(&self) -> ConfigView<N> {
        ConfigView {
            poll_secs: self.poll_secs,
            fee_rate: self.spot_fee_rate,
            spot_fee_rate: self.spot_fee_rate,
            deribit_option_fee_underlying: option_fee_spec::<N>(),
            deribit_option_premium_cap_rate: premium_cap_spec::<N>(),
            min_annualized: self.min_annualized,
            max_candidates: self.max_candidates,
            history_max_records: self.history_max_records,
        }
    }

    /// What is shown of the configuration.
    pub fn view(&self) -> (r: ConfigView<N>)
        ensures
            r == self.shown(),
    {
        ConfigView {
            poll_secs: self.poll_secs,
            fee_rate: self.spot_fee_rate,
            spot_fee_rate: self.spot_fee_rate,
            deribit_option_fee_underlying: option_fee(),
            deribit_option_premium_cap_rate: premium_cap(),
            min_annualized: self.min_annualized,
            max_candidates: self.max_candidates,
            history_max_records: self.history_max_records,
        }
    }
}

impl<N: Scalar> Clone for Config<N> {
    fn clone(&self) -> (r: Self)
        ensures
            r == *self,
    {
        Config {
            host: self.host.clone(),
            port: self.port,
            poll_secs: self.poll_secs,
            spot_fee_rate: self.spot_fee_rate,
            min_annualized: self.min_annualized,
            max_candidates: self.max_candidates,
            history_path: self.history_path.clone(),
            history_max_records: self.history_max_records,
        }
    }
}

/// What is shown of a configuration.
#[derive(Debug)]
pub struct ConfigView<N> {
    pub poll_secs: u64,
    pub fee_rate: N,
    pub spot_fee_rate: N,
    pub deribit_option_fee_underlying: N,
    pub deribit_option_premium_cap_rate: N,
    pub min_annualized: N,
    pub max_candidates: usize,
    pub history_max_records: usize,
}

impl<N: Copy> Clone for ConfigView<N> {
    fn clone(&self) -> (r: Self)
        ensures
            r == *self,
    {
        *self
    }
}

impl<N: Copy> Copy for ConfigView<N> {

}

// ---------------------------------------------------------------------------
// Books
// ---------------------------------------------------------------------------
/// The top of the book of a pair on the spot market.
#[derive(Debug)]
pub struct SpotBook<N> {
    pub underlying: String,
    pub symbol: String,
    pub bid_price: N,
    pub bid_qty: N,
    pub ask_price: N,
    pub ask_qty: N,
}

impl<N: Scalar> Clone for SpotBook<N> {
    fn clone(&self) -> (r: Self)
        ensures
            r == *self,
    {
        SpotBook {
            underlying: self.underlying.clone(),
            symbol: self.symbol.clone(),
            bid_price: self.bid_price,
            bid_qty: self.bid_qty,
            ask_price: self.ask_price,
            ask_qty: self.ask_qty,
        }
    }
}

/// What a list of all options says of one. Prices are in the underlying.
#[derive(Debug)]
pub struct OptionSummary<N> {
    pub instrument_name: String,
    pub bid_price: Option<N>,
    pub ask_price: Option<N>,
    pub open_interest: Option<N>,
    pub volume: Option<N>,
}

impl<N: Scalar> Clone for OptionSummary<N> {
    fn clone(&self) -> (r: Self)
        ensures
            r == *self,
    {
        OptionSummary {
            instrument_name: self.instrument_name.clone(),
            bid_price: self.bid_price,
            ask_price: self.ask_price,
            open_interest: self.open_interest,
            volume: self.volume,
        }
    }
}

/// The top of the book of an option. Prices are in the underlying.
#[derive(Debug)]
pub struct OptionTopOfBook<N> {
    pub instrument_name: String,
    pub bid_price: Option<N>,
    pub ask_price: Option<N>,
    pub bid_amount: N,
    pub ask_amount: N,
    pub open_interest: Option<N>,
    pub volume: Option<N>,
}

impl<N: Scalar> Clone for OptionTopOfBook<N> {
    fn clone(&self) -> (r: Self)
        ensures
            r == *self,
    {
        OptionTopOfBook {
            instrument_name: self.instrument_name.clone(),
            bid_price: self.bid_price,
            ask_price: self.ask_price,
            bid_amount: self.bid_amount,
            ask_amount: self.ask_amount,
            open_interest: self.open_interest,
            volume: self.volume,
        }
    }
}

/// What is shown of the book of an option.
#[derive(Debug)]
pub struct OptionBookView<N> {
    pub instrument: String,
    pub bid_price: Option<N>,
    pub ask_price: Option<N>,
    pub bid_amount: N,
    pub ask_amount: N,
    pub open_interest: Option<N>,
    pub volume: Option<N>,
}

impl<N: Scalar> Clone for OptionBookView<N> {
    fn clone(&self) -> (r: Self)
        ensures
            r == *self,
    {
        OptionBookView {
            instrument: self.instrument.clone(),
            bid_price: self.bid_price,
            ask_price: self.ask_price,
            bid_amount: self.bid_amount,
            ask_amount: self.ask_amount,
            open_interest: self.open_interest,
            volume: self.volume,
        }
    }
}

// ---------------------------------------------------------------------------
// Opportunities
// ---------------------------------------------------------------------------
/// The two ways round: buy the spot and lock in a sale, or sell it and lock in
/// a purchase.
#[derive(Clone, Copy, Debug, PartialEq, Eq, Structural)]
pub enum Strategy {
    Conversion,
    Reversal,
}

/// The name of a strategy.
pub open spec fn strategy_name(s: Strategy) -> Seq<char> {
    match s {
        Strategy::Conversion => "Conversion"@,
        Strategy::Reversal => "Reversal"@,
    }
}

impl Strategy {
    /// The name of the strategy.
    pub fn name(self) -> (r: &'static str)
        ensures
            r@ == strategy_name(self),
    {
        match self {
            Strategy::Conversion => "Conversion",
            Strategy::Reversal => "Reversal",
        }
    }
}

/// One order of an opportunity.
#[derive(Debug)]
pub struct OrderLeg<N> {
    pub venue: String,
    pub instrument: String,
    pub action: String,
    pub price: N,
    pub price_unit: String,
    pub quantity: N,
    pub available_quantity: N,
    pub notional_usd: N,
    pub fee_usd: N,
}

impl<N: Scalar> Clone for OrderLeg<N> {
    fn clone(&self) -> (r: Self)
        ensures
            r == *self,
    {
        OrderLeg {
            venue: self.venue.clone(),
            instrument: self.instrument.clone(),
            action: self.action.clone(),
            price: self.price,
            price_unit: self.price_unit.clone(),
            quantity: self.quantity,
            available_quantity: self.available_quantity,
            notional_usd: self.notional_usd,
            fee_usd: self.fee_usd,
        }
    }
}

/// An order in contracts.
pub struct LegView<N> {
    pub venue: Seq<char>,
    pub instrument: Seq<char>,
    pub action: Seq<char>,
    pub price: N,
    pub price_unit: Seq<char>,
    pub quantity: N,
    pub available_quantity: N,
    pub notional_usd: N,
    pub fee_usd: N,
}

impl<N> View for OrderLeg<N> {
    type V = LegView<N>;

    open spec fn view(&self) -> LegView<N> {
        LegView {
            venue: self.venue@,
            instrument: self.instrument@,
            action: self.action@,
            price: self.price,
            price_unit: self.price_unit@,
            quantity: self.quantity,
            available_quantity: self.available_quantity,
            notional_usd: self.notional_usd,
            fee_usd: self.fee_usd,
        }
    }
}

/// The orders of a vector.
pub open spec fn leg_views<N>(legs: Seq<OrderLeg<N>>) -> Seq<LegView<N>> {
    legs.map_values(|l: OrderLeg<N>| l@)
}

/// An opportunity, with everything that it takes to act on it.
#[derive(Debug)]
pub struct Opportunity<N> {
    /// `{underlying}-{expiry}-{strike}-{strategy}`.
    pub id: String,
    pub underlying: String,
    pub strategy: Strategy,
    pub expiry: String,
    pub expiry_utc: String,
    pub days_to_expiry: N,
    pub strike: N,
    pub quantity: N,
    pub notional_usd: N,
    pub gross_profit_usd: N,
    pub fees_usd: N,
    pub net_profit_usd: N,
    pub net_profit_per_unit_usd: N,
    pub profit_rate: N,
    pub annualized_profit_rate: N,
    pub spot_bid: N,
    pub spot_ask: N,
    pub call: OptionBookView<N>,
    pub put: OptionBookView<N>,
    pub legs: Vec<OrderLeg<N>>,
    pub note: String,
}

/// The book of an option in contracts.
pub struct BookViewView<N> {
    pub instrument: Seq<char>,
    pub bid_price: Option<N>,
    pub ask_price: Option<N>,
    pub bid_amount: N,
    pub ask_amount: N,
    pub open_interest: Option<N>,
    pub volume: Option<N>,
}

impl<N> View for OptionBookView<N> {
    type V = BookViewView<N>;

    open spec fn view(&self) -> BookViewView<N> {
        BookViewView {
            instrument: self.instrument@,
            bid_price: self.bid_price,
            ask_price: self.ask_price,
            bid_amount: self.bid_amount,
            ask_amount: self.ask_amount,
            open_interest: self.open_interest,
            volume: self.volume,
        }
    }
}

/// An opportunity in contracts.
pub struct OpportunityView<N> {
    pub id: Seq<char>,
    pub underlying: Seq<char>,
    pub strategy: Strategy,
    pub expiry: Seq<char>,
    pub expiry_utc: Seq<char>,
    pub days_to_expiry: N,
    pub strike: N,
    pub quantity: N,
    pub notional_usd: N,
    pub gross_profit_usd: N,
    pub fees_usd: N,
    pub net_profit_usd: N,
    pub net_profit_per_unit_usd: N,
    pub profit_rate: N,
    pub annualized_profit_rate: N,
    pub spot_bid: N,
    pub spot_ask: N,
    pub call: BookViewView<N>,
    pub put: BookViewView<N>,
    pub legs: Seq<LegView<N>>,
    pub note: Seq<char>,
}

impl<N> View for Opportunity<N> {
    type V = OpportunityView<N>;

    open spec fn view(&self) -> OpportunityView<N> {
        OpportunityView {
            id: self.id@,
            underlying: self.underlying@,
            strategy: self.strategy,
            expiry: self.expiry@,
            expiry_utc: self.expiry_utc@,
            days_to_expiry: self.days_to_expiry,
            strike: self.strike,
            quantity: self.quantity,
            notional_usd: self.notional_usd,
            gross_profit_usd: self.gross_profit_usd,
            fees_usd: self.fees_usd,
            net_profit_usd: self.net_profit_usd,
            net_profit_per_unit_usd: self.net_profit_per_unit_usd,
            profit_rate: self.profit_rate,
            annualized_profit_rate: self.annualized_profit_rate,
            spot_bid: self.spot_bid,
            spot_ask: self.spot_ask,
            call: self.call@,
            put: self.put@,
            legs: leg_views(self.legs@),
            note: self.note@,
        }
    }
}

fn copy_legs<N: Scalar>(legs: &Vec<OrderLeg<N>>) -> (r: Vec<OrderLeg<N>>)
    ensures
        r@ == legs@,
{
    let mut out: Vec<OrderLeg<N>> = Vec::new();
    let n: usize = legs.len();
    let mut i: usize = 0;
    while i < n
        invariant
            i <= n,
            n == legs@.len(),
            out@ == legs@.take(i as int),
        decreases n - i,
    {
        let leg: OrderLeg<N> = legs[i].clone();
        out.push(leg);
        proof {
            assert(legs@.take(i + 1) =~= legs@.take(i as int).push(legs@[i as int]));
        }
        i = i + 1;
    }
    proof {
        assert(legs@.take(n as int) =~= legs@);
    }
    out
}

impl<N: Scalar> Clone for Opportunity<N> {
    fn clone(&self) -> (r: Self)
        ensures
            r@ == self@,
    {
        Opportunity {
            id: self.id.clone(),
            underlying: self.underlying.clone(),
            strategy: self.strategy,
            expiry: self.expiry.clone(),
            expiry_utc: self.expiry_utc.clone(),
            days_to_expiry: self.days_to_expiry,
            strike: self.strike,
            quantity: self.quantity,
            notional_usd: self.notional_usd,
            gross_profit_usd: self.gross_profit_usd,
            fees_usd: self.fees_usd,
            net_profit_usd: self.net_profit_usd,
            net_profit_per_unit_usd: self.net_profit_per_unit_usd,
            profit_rate: self.profit_rate,
            annualized_profit_rate: self.annualized_profit_rate,
            spot_bid: self.spot_bid,
            spot_ask: self.spot_ask,
            call: self.call.clone(),
            put: self.put.clone(),
            legs: copy_legs(&self.legs),
            note: self.note.clone(),
        }
    }
}

/// An opportunity in the history.
#[derive(Debug)]
pub struct OpportunityRecord<N> {
    /// `{snapshot_generated_at}:{opportunity.id}`.
    pub record_id: String,
    pub recorded_at: String,
    pub snapshot_generated_at: String,
    /// The threshold that the opportunity passed.
    pub min_annualized: N,
    pub opportunity: Opportunity<N>,
}

impl<N: Scalar> Clone for OpportunityRecord<N> {
    fn clone(&self) -> (r: Self)
        ensures
            r@ == self@,
    {
        OpportunityRecord {
            record_id: self.record_id.clone(),
            recorded_at: self.recorded_at.clone(),
            snapshot_generated_at: self.snapshot_generated_at.clone(),
            min_annualized: self.min_annualized,
            opportunity: self.opportunity.clone(),
        }
    }
}

/// A record in contracts.
pub struct RecordView<N> {
    pub record_id: Seq<char>,
    pub recorded_at: Seq<char>,
    pub snapshot_generated_at: Seq<char>,
    pub min_annualized: N,
    pub opportunity: OpportunityView<N>,
}

impl<N> View for OpportunityRecord<N> {
    type V = RecordView<N>;

    open spec fn view(&self) -> RecordView<N> {
        RecordView {
            record_id: self.record_id@,
            recorded_at: self.recorded_at@,
            snapshot_generated_at: self.snapshot_generated_at@,
            min_annualized: self.min_annualized,
            opportunity: self.opportunity@,
        }
    }
}

// ---------------------------------------------------------------------------
// Snapshots
// ---------------------------------------------------------------------------
/// What is shown of a market.
#[derive(Debug)]
pub struct MarketView<N> {
    pub underlying: String,
    pub spot_symbol: String,
    pub spot_bid: N,
    pub spot_ask: N,
    pub spot_bid_qty: N,
    pub spot_ask_qty: N,
    pub option_summaries: usize,
    pub rough_candidates: usize,
}

impl<N: Scalar> Clone for MarketView<N> {
    fn clone(&self) -> (r: Self)
        ensures
            r == *self,
    {
        MarketView {
            underlying: self.underlying.clone(),
            spot_symbol: self.spot_symbol.clone(),
            spot_bid: self.spot_bid,
            spot_ask: self.spot_ask,
            spot_bid_qty: self.spot_bid_qty,
            spot_ask_qty: self.spot_ask_qty,
            option_summaries: self.option_summaries,
            rough_candidates: self.rough_candidates,
        }
    }
}

/// Copies the markets of a vector.
fn copy_markets<N: Scalar>(markets: &Vec<MarketView<N>>) -> (r: Vec<MarketView<N>>)
    ensures
        r@ == markets@,
{
    let mut out: Vec<MarketView<N>> = Vec::new();
    let n: usize = markets.len();
    let mut i: usize = 0;
    while i < n
        invariant
            i <= n,
            n == markets@.len(),
            out@ == markets@.take(i as int),
        decreases n - i,
    {
        let market: MarketView<N> = markets[i].clone();
        out.push(market);
        proof {
            assert(markets@.take(i + 1) =~= markets@.take(i as int).push(markets@[i as int]));
        }
        i = i + 1;
    }
    proof {
        assert(markets@.take(n as int) =~= markets@);
    }
    out
}

/// Copies the opportunities of a vector.
fn copy_opportunities<N: Scalar>(opportunities: &Vec<Opportunity<N>>) -> (r: Vec<Opportunity<N>>)
    ensures
        r@.len() == opportunities@.len(),
        forall|i: int| 0 <= i < r@.len() ==> (#[trigger] r@[i])@ == opportunities@[i]@,
{
    let mut out: Vec<Opportunity<N>> = Vec::new();
    let n: usize = opportunities.len();
    let mut i: usize = 0;
    while i < n
        invariant
            i <= n,
            n == opportunities@.len(),
            out@.len() == i,
            forall|j: int| 0 <= j < i ==> (#[trigger] out@[j])@ == opportunities@[j]@,
        decreases n - i,
    {
        let opportunity: Opportunity<N> = opportunities[i].clone();
        out.push(opportunity);
        i = i + 1;
    }
    out
}

/// The state of the monitor after a refresh.
#[derive(Debug)]
pub struct Snapshot<N> {
    pub generated_at: String,
    /// `warming_up`, `ok` or `partial`.
    pub status: String,
    pub config: ConfigView<N>,
    pub markets: Vec<MarketView<N>>,
    pub opportunities: Vec<Opportunity<N>>,
    pub errors: Vec<String>,
}

impl<N: Scalar> Clone for Snapshot<N> {
    fn clone(&self) -> (r: Self)
        ensures
            r.generated_at == self.generated_at,
            r.status == self.status,
            r.config == self.config,
            r.markets@ == self.markets@,
            r.opportunities@.len() == self.opportunities@.len(),
            forall|i: int|
                0 <= i < r.opportunities@.len() ==> (#[trigger] r.opportunities@[i])@ == self.opportunities@[i]@,
            r.errors@ == self.errors@,
    {
        Snapshot {
            generated_at: self.generated_at.clone(),
            status: self.status.clone(),
            config: self.config,
            markets: copy_markets(&self.markets),
            opportunities: copy_opportunities(&self.opportunities),
            errors: copy_texts(&self.errors),
        }
    }
}

impl<N: Scalar> Snapshot<N> {
    /// The state before the first refresh.
    pub fn warming(config: &Config<N>) -> (r: Self)
        ensures
            r.generated_at@ == Seq::<char>::empty(),
            r.status@ == "warming_up"@,
            r.config == config.shown(),
            r.markets@.len() == 0,
            r.opportunities@.len() == 0,
            r.errors@.len() == 0,
    {
        Snapshot {
            generated_at: String::new(),
            status: "warming_up".to_owned(),
            config: config.view(),
            markets: Vec::new(),
            opportunities: Vec::new(),
            errors: Vec::new(),
        }
    }
}

} // verus!
