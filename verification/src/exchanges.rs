//! What the exchanges send, turned into books.
use crate::models::{OptionSummary, OptionTopOfBook, SpotBook};
use crate::scalar::{zero, zero_spec, Scalar};
use vstd::prelude::*;
use vstd::string::*;

verus! {

/// The top of a spot book as Binance sends it, with decimal texts.
#[derive(Debug)]
pub struct BookTicker {
    pub symbol: String,
    pub bid_price: String,
    pub bid_qty: String,
    pub ask_price: String,
    pub ask_qty: String,
}

/// An option in the list that Deribit sends.
#[derive(Debug)]
pub struct ListedOption<N> {
    pub instrument_name: String,
    pub bid_price: Option<N>,
    pub ask_price: Option<N>,
    pub open_interest: Option<N>,
    pub volume: Option<N>,
}

/// The statistics of an option that Deribit sends.
#[derive(Debug)]
pub struct BookStats<N> {
    pub volume: Option<N>,
}

/// A level of a book: a price and an amount.
#[derive(Debug)]
pub struct Level<N> {
    pub price: N,
    pub amount: N,
}

impl<N: Copy> Clone for Level<N> {
    fn clone(&self) -> (r: Self)
        ensures
            r == *self,
    {
        *self
    }
}

impl<N: Copy> Copy for Level<N> {

}

/// The book of an option that Deribit sends.
#[derive(Debug)]
pub struct OrderBook<N> {
    pub instrument_name: String,
    pub bids: Vec<Level<N>>,
    pub asks: Vec<Level<N>>,
    pub best_bid_price: Option<N>,
    pub best_ask_price: Option<N>,
    pub best_bid_amount: Option<N>,
    pub best_ask_amount: Option<N>,
    pub open_interest: Option<N>,
    pub stats: Option<BookStats<N>>,
}

/// Why a decimal text was refused.
#[derive(Debug)]
pub enum DecimalError<N> {
    /// The text under a label denotes no number.
    Unreadable { label: &'static str, text: String },
    /// The number under a label is not finite, or is below zero.
    NotPositive { label: &'static str, value: N },
}

/// A decimal text denotes a finite number that is not below zero.
pub open spec fn decimal_accepted<N: Scalar>(text: Seq<char>) -> bool {
    match N::parse_spec(text) {
        Some(value) => value.finite_spec() && zero_spec::<N>().at_most_spec(value),
        None => false,
    }
}

/// What `parse_decimal` returns.
pub open spec fn decimal_read<N: Scalar>(
    text: Seq<char>,
    label: Seq<char>,
    r: Result<N, DecimalError<N>>,
) -> bool {
    match N::parse_spec(text) {
        None => r matches Err(DecimalError::Unreadable { label: l, text: t }) && l@ == label && t@ == text,
        Some(value) => if value.finite_spec() && zero_spec::<N>().at_most_spec(value) {
            r == Ok::<N, DecimalError<N>>(value)
        } else {
            r matches Err(DecimalError::NotPositive { label: l, value: v }) && l@ == label && v == value
        },
    }
}

/// Reads a price or a quantity: a finite number that is not below zero.
pub fn parse_decimal<N: Scalar>(raw: &str, label: &'static str) -> (r: Result<N, DecimalError<N>>)
    ensures
        decimal_read(raw@, label@, r),
{
    match N::parse(raw) {
        None => Err(DecimalError::Unreadable { label, text: raw.to_owned() }),
        Some(value) => if value.finite() && zero::<N>().at_most(value) {
            Ok(value)
        } else {
            Err(DecimalError::NotPositive { label, value })
        },
    }
}

/// A price that is finite and above zero.
pub open spec fn positive_spec<N: Scalar>(value: Option<N>) -> Option<N> {
    match value {
        Some(price) => if price.finite_spec() && zero_spec::<N>().less_spec(price) {
            value
        } else {
            None
        },
        None => None,
    }
}

/// Keeps a price that is finite and above zero.
pub fn positive_price<N: Scalar>(value: Option<N>) -> (r: Option<N>)
    ensures
        r == positive_spec(value),
{
    match value {
        Some(price) => if price.finite() && zero::<N>().less(price) {
            Some(price)
        } else {
            None
        },
        None => None,
    }
}

/// The book of a pair. The first of the four texts that is refused, in the
/// order bid price, bid quantity, ask price, ask quantity, gives the error.
pub fn spot_book<N: Scalar>(underlying: &str, raw: BookTicker) -> (r: Result<SpotBook<N>, DecimalError<N>>)
    ensures
        r is Ok <==> decimal_accepted::<N>(raw.bid_price@) && decimal_accepted::<N>(raw.bid_qty@)
            && decimal_accepted::<N>(raw.ask_price@) && decimal_accepted::<N>(raw.ask_qty@),
        r matches Ok(book) ==> {
            &&& book.underlying@ == underlying@
            &&& book.symbol@ == raw.symbol@
            &&& N::parse_spec(raw.bid_price@) == Some(book.bid_price)
            &&& N::parse_spec(raw.bid_qty@) == Some(book.bid_qty)
            &&& N::parse_spec(raw.ask_price@) == Some(book.ask_price)
            &&& N::parse_spec(raw.ask_qty@) == Some(book.ask_qty)
        },
        r matches Err(e) ==> if !decimal_accepted::<N>(raw.bid_price@) {
            decimal_read(raw.bid_price@, "Binance bidPrice"@, Err::<N, DecimalError<N>>(e))
        } else if !decimal_accepted::<N>(raw.bid_qty@) {
            decimal_read(raw.bid_qty@, "Binance bidQty"@, Err::<N, DecimalError<N>>(e))
        } else if !decimal_accepted::<N>(raw.ask_price@) {
            decimal_read(raw.ask_price@, "Binance askPrice"@, Err::<N, DecimalError<N>>(e))
        } else {
            decimal_read(raw.ask_qty@, "Binance askQty"@, Err::<N, DecimalError<N>>(e))
        },
{
    let bid_price: N = match parse_decimal(raw.bid_price.as_str(), "Binance bidPrice") {
        Ok(x) => x,
        Err(e) => {
            return Err(e);
        },
    };
    let bid_qty: N = match parse_decimal(raw.bid_qty.as_str(), "Binance bidQty") {
        Ok(x) => x,
        Err(e) => {
            return Err(e);
        },
    };
    let ask_price: N = match parse_decimal(raw.ask_price.as_str(), "Binance askPrice") {
        Ok(x) => x,
        Err(e) => {
            return Err(e);
        },
    };
    let ask_qty: N = match parse_decimal(raw.ask_qty.as_str(), "Binance askQty") {
        Ok(x) => x,
        Err(e) => {
            return Err(e);
        },
    };
    Ok(SpotBook { underlying: underlying.to_owned(), symbol: raw.symbol, bid_price, bid_qty, ask_price, ask_qty })
}

/// An option as it is listed, without prices that are not finite and above zero.
pub open spec fn is_summary_of<N: Scalar>(s: OptionSummary<N>, raw: ListedOption<N>) -> bool {
    &&& s.instrument_name@ == raw.instrument_name@
    &&& s.bid_price == positive_spec(raw.bid_price)
    &&& s.ask_price == positive_spec(raw.ask_price)
    &&& s.open_interest == raw.open_interest
    &&& s.volume == raw.volume
}

/// The listed options, in order.
pub fn option_summaries<N: Scalar>(listed: &Vec<ListedOption<N>>) -> (r: Vec<OptionSummary<N>>)
    ensures
        r@.len() == listed@.len(),
        forall|i: int| 0 <= i < r@.len() ==> is_summary_of(#[trigger] r@[i], listed@[i]),
{
    let mut out: Vec<OptionSummary<N>> = Vec::new();
    let n: usize = listed.len();
    let mut i: usize = 0;
    while i < n
        invariant
            i <= n,
            n == listed@.len(),
            out@.len() == i,
            forall|k: int| 0 <= k < i ==> is_summary_of(#[trigger] out@[k], listed@[k]),
        decreases n - i,
    {
        let raw: &ListedOption<N> = &listed[i];
        out.push(
            OptionSummary {
                instrument_name: raw.instrument_name.clone(),
                bid_price: positive_price(raw.bid_price),
                ask_price: positive_price(raw.ask_price),
                open_interest: raw.open_interest,
                volume: raw.volume,
            },
        );
        i = i + 1;
    }
    out
}

/// The price of the best level, or else the best price that is given apart.
pub open spec fn best_price<N>(levels: Seq<Level<N>>, best: Option<N>) -> Option<N> {
    if levels.len() > 0 {
        Some(levels[0].price)
    } else {
        best
    }
}

/// The amount at the best level, or else the amount that is given apart, or zero.
pub open spec fn best_amount<N: Scalar>(levels: Seq<Level<N>>, best: Option<N>) -> N {
    if levels.len() > 0 {
        levels[0].amount
    } else {
        match best {
            Some(x) => x,
            None => zero_spec::<N>(),
        }
    }
}

fn price_at_best<N: Scalar>(levels: &Vec<Level<N>>, best: Option<N>) -> (r: Option<N>)
    ensures
        r == best_price(levels@, best),
{
    if levels.len() > 0 {
        Some(levels[0].price)
    } else {
        best
    }
}

fn amount_at_best<N: Scalar>(levels: &Vec<Level<N>>, best: Option<N>) -> (r: N)
    ensures
        r == best_amount(levels@, best),
{
    if levels.len() > 0 {
        levels[0].amount
    } else {
        match best {
            Some(x) => x,
            None => zero(),
        }
    }
}

/// The top of the book of an option.
pub fn top_of_book<N: Scalar>(raw: OrderBook<N>) -> (r: OptionTopOfBook<N>)
    ensures
        r.instrument_name@ == raw.instrument_name@,
        r.bid_price == best_price(raw.bids@, raw.best_bid_price),
        r.ask_price == best_price(raw.asks@, raw.best_ask_price),
        r.bid_amount == best_amount(raw.bids@, raw.best_bid_amount),
        r.ask_amount == best_amount(raw.asks@, raw.best_ask_amount),
        r.open_interest == raw.open_interest,
        r.volume == (match raw.stats {
            Some(stats) => stats.volume,
            None => None,
        }),
{
    OptionTopOfBook {
        bid_price: price_at_best(&raw.bids, raw.best_bid_price),
        ask_price: price_at_best(&raw.asks, raw.best_ask_price),
        bid_amount: amount_at_best(&raw.bids, raw.best_bid_amount),
        ask_amount: amount_at_best(&raw.asks, raw.best_ask_amount),
        open_interest: raw.open_interest,
        volume: match raw.stats {
            Some(stats) => stats.volume,
            None => None,
        },
        instrument_name: raw.instrument_name,
    }
}

} // verus!
