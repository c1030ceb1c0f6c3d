//! The data of the position scanner and its shared state.
use crate::fixed::{Fixed, SCALE};
use crate::json::{field, integer_of, json_field, json_of, number_text, text_of, Json};
use crate::scalar::{zero, zero_spec, Scalar};
use crate::table::{Table, TableKey};
use std::collections::hash_map::RandomState;
use std::time::{Duration, SystemTime, SystemTimeError};
use vstd::prelude::*;

verus! {

// ---------------------------------------------------------------------------
// Time
// ---------------------------------------------------------------------------
/// `std::time::SystemTime`, a reading of the clock.
#[verifier::external_type_specification]
#[verifier::external_body]
pub struct ExSystemTime(SystemTime);

/// `std::time::SystemTimeError`, for a clock that stands before the epoch.
#[verifier::external_type_specification]
#[verifier::external_body]
pub struct ExSystemTimeError(SystemTimeError);

/// `SystemTime::now`: the clock of the machine. Nothing is promised of it.
#[verifier::external_body]
fn system_now() -> SystemTime {
    SystemTime::now()
}

/// `SystemTime::duration_since` the Unix epoch. Nothing is promised of it.
#[verifier::external_body]
fn since_epoch(t: SystemTime) -> Result<Duration, SystemTimeError> {
    t.duration_since(std::time::UNIX_EPOCH)
}

/// `Duration::as_millis`. Nothing is promised of it.
#[verifier::external_body]
fn whole_millis(d: Duration) -> u128 {
    d.as_millis()
}

/// The Unix timestamp in milliseconds for what a clock said: zero where it
/// stands before the epoch, and the lower 64 bits where it does not.
pub open spec fn clock_ms_spec(since_epoch: Option<u128>) -> i64 {
    match since_epoch {
        Some(ms) => ms as i64,
        None => 0,
    }
}

/// The Unix timestamp in milliseconds for what a clock said.
pub fn clock_ms(since_epoch: Option<u128>) -> (r: i64)
    ensures
        r == clock_ms_spec(since_epoch),
{
    match since_epoch {
        Some(ms) => ms as i64,
        None => 0,
    }
}

/// The current Unix timestamp in milliseconds. Which reading of the machine's
/// clock it stands for is not said.
pub fn now_ms() -> (r: i64)
    ensures
        exists|reading: Option<u128>| r == #[trigger] clock_ms_spec(reading),
{
    let reading: Option<u128> = match since_epoch(system_now()) {
        Ok(d) => Some(whole_millis(d)),
        Err(_) => None,
    };
    clock_ms(reading)
}

// ---------------------------------------------------------------------------
// Numbers
// ---------------------------------------------------------------------------
/// The integer by which a strike is found again: thousandths, rounded.
pub open spec fn strike_key_spec<N: Scalar>(strike: N) -> i64 {
    strike.times_spec(N::of_int_spec(1000)).round_spec()
}

/// The integer by which a strike is found again, with three decimal places of
/// precision.
pub fn strike_key<N: Scalar>(strike: N) -> (r: i64)
    ensures
        r == strike_key_spec(strike),
{
    strike.times(N::of_int(1000)).round()
}

/// The number that a text denotes, or zero.
pub open spec fn number_or_zero<N: Scalar>(s: Seq<char>) -> N {
    match N::parse_spec(s) {
        Some(x) => x,
        None => zero_spec::<N>(),
    }
}

/// The number that a JSON value gives: a number, or a text that denotes one.
/// Zero stands for everything else.
pub open spec fn json_number<N: Scalar>(j: Json) -> N {
    match j {
        Json::Text(s) => number_or_zero::<N>(s),
        Json::Number { text, integer } => number_or_zero::<N>(text),
        _ => zero_spec::<N>(),
    }
}

/// The number under a key of a JSON value, or zero.
pub open spec fn json_number_at<N: Scalar>(j: Json, key: Seq<char>) -> N {
    match json_field(j, key) {
        Some(x) => json_number::<N>(x),
        None => zero_spec::<N>(),
    }
}

/// Reads a number from a JSON value, which holds it as a number or as a text.
pub fn parse_f64<N: Scalar>(v: &serde_json::Value) -> (r: N)
    ensures
        r == json_number::<N>(json_of(*v)),
{
    let parsed: Option<N> = match text_of(v) {
        Some(s) => N::parse(s),
        None => match number_text(v) {
            Some(s) => N::parse(s.as_str()),
            None => None,
        },
    };
    match parsed {
        Some(x) => x,
        None => zero(),
    }
}

/// Reads the number under a key of a JSON value, or zero.
pub fn number_at<N: Scalar>(v: &serde_json::Value, key: &str) -> (r: N)
    ensures
        r == json_number_at::<N>(json_of(*v), key@),
{
    match field(v, key) {
        Some(x) => parse_f64(x),
        None => zero(),
    }
}

/// The integer under a key of a JSON value, or zero.
pub open spec fn json_integer_at(j: Json, key: Seq<char>) -> i64 {
    match json_field(j, key) {
        Some(Json::Number { text, integer: Some(n) }) => n,
        _ => 0,
    }
}

/// Reads the integer under a key of a JSON value, or zero.
pub fn integer_at(v: &serde_json::Value, key: &str) -> (r: i64)
    ensures
        r == json_integer_at(json_of(*v), key@),
{
    match field(v, key) {
        Some(x) => match integer_of(x) {
            Some(n) => n,
            None => 0,
        },
        None => 0,
    }
}

// ---------------------------------------------------------------------------
// Books
// ---------------------------------------------------------------------------
/// The top of a book: the best prices and what is on offer at them.
#[derive(Debug)]
pub struct BookTop<N> {
    pub bid: N,
    pub bid_qty: N,
    pub ask: N,
    pub ask_qty: N,
    /// When the quote was made.
    pub ts_ms: i64,
}

impl<N: Copy> Clone for BookTop<N> {
    fn clone(&self) -> (r: Self)
        ensures
            r == *self,
    {
        *self
    }
}

impl<N: Copy> Copy for BookTop<N> {

}

impl<N: Scalar> BookTop<N> {
    /// The book of an instrument that was never quoted.
    pub open spec fn empty_spec() -> BookTop<N> {
        BookTop {
            bid: zero_spec::<N>(),
            bid_qty: zero_spec::<N>(),
            ask: zero_spec::<N>(),
            ask_qty: zero_spec::<N>(),
            ts_ms: 0,
        }
    }

    /// Somebody buys, at a price.
    pub open spec fn bid_quoted(&self) -> bool {
        zero_spec::<N>().less_spec(self.bid) && zero_spec::<N>().less_spec(self.bid_qty)
    }

    /// Somebody sells, at a price.
    pub open spec fn ask_quoted(&self) -> bool {
        zero_spec::<N>().less_spec(self.ask) && zero_spec::<N>().less_spec(self.ask_qty)
    }

    /// Whether somebody buys, at a price.
    pub fn has_bid(&self) -> (r: bool)
        ensures
            r == self.bid_quoted(),
    {
        zero::<N>().less(self.bid) && zero::<N>().less(self.bid_qty)
    }

    /// Whether somebody sells, at a price.
    pub fn has_ask(&self) -> (r: bool)
        ensures
            r == self.ask_quoted(),
    {
        zero::<N>().less(self.ask) && zero::<N>().less(self.ask_qty)
    }
}

impl<N: Scalar> Default for BookTop<N> {
    fn default() -> (r: Self)
        ensures
            r == BookTop::<N>::empty_spec(),
    {
        BookTop { bid: zero(), bid_qty: zero(), ask: zero(), ask_qty: zero(), ts_ms: 0 }
    }
}

/// The call and the put of one strike, by their symbols.
#[derive(Debug)]
pub struct StrikePair<N> {
    pub strike: N,
    pub call: Option<String>,
    pub put: Option<String>,
}

/// All strikes of one expiry.
#[derive(Debug)]
pub struct ExpiryEntry<N> {
    pub expiry_ms: i64,
    /// By `strike_key`.
    pub strikes: Table<i64, StrikePair<N>>,
}

/// All options that can be traded: from expiries (YYMMDD) to strikes.
#[derive(Debug)]
pub struct Universe<N> {
    pub expiries: Table<String, ExpiryEntry<N>>,
}

/// The strikes of an expiry are in order, each under its own key.
pub open spec fn well_keyed<N: Scalar>(e: ExpiryEntry<N>) -> bool {
    e.strikes.wf() && forall|key: i64| #[trigger]
        e.strikes.map().contains_key(key) ==> strike_key_spec(e.strikes.map()[key].strike) == key
}

impl<N: Scalar> Universe<N> {
    /// The tables are in order, every strike stands under its own key, and no
    /// expiry has a dash in its name.
    pub open spec fn wf(&self) -> bool {
        self.expiries.wf() && forall|k: Seq<char>| #[trigger]
            self.expiries.map().contains_key(k) ==> well_keyed(self.expiries.map()[k]) && !k.contains('-')
    }
}

impl<N: Scalar> Clone for StrikePair<N> {
    fn clone(&self) -> (r: Self)
        ensures
            r == *self,
    {
        let call: Option<String> = match &self.call {
            Some(symbol) => Some(symbol.clone()),
            None => None,
        };
        let put: Option<String> = match &self.put {
            Some(symbol) => Some(symbol.clone()),
            None => None,
        };
        StrikePair { strike: self.strike, call, put }
    }
}

impl<N: Scalar> Default for StrikePair<N> {
    fn default() -> (r: Self)
        ensures
            r == (StrikePair::<N> { strike: zero_spec(), call: None, put: None }),
    {
        StrikePair { strike: zero(), call: None, put: None }
    }
}

/// Two expiries with the same strikes.
pub open spec fn same_expiry<N>(a: ExpiryEntry<N>, b: ExpiryEntry<N>) -> bool {
    a.expiry_ms == b.expiry_ms && a.strikes.entries@ == b.strikes.entries@
}

impl<N: Scalar> Clone for ExpiryEntry<N> {
    fn clone(&self) -> (r: Self)
        ensures
            same_expiry(r, *self),
            r.strikes.map() == self.strikes.map(),
            well_keyed(*self) ==> well_keyed(r),
    {
        let mut entries: Vec<(i64, StrikePair<N>)> = Vec::new();
        let n: usize = self.strikes.entries.len();
        let mut i: usize = 0;
        while i < n
            invariant
                i <= n,
                n == self.strikes.entries@.len(),
                entries@ == self.strikes.entries@.take(i as int),
            decreases n - i,
        {
            let key: i64 = self.strikes.entries[i].0;
            let pair: StrikePair<N> = self.strikes.entries[i].1.clone();
            entries.push((key, pair));
            proof {
                let all = self.strikes.entries@;
                assert(all.take(i + 1) =~= all.take(i as int).push(all[i as int]));
            }
            i = i + 1;
        }
        let r = ExpiryEntry { expiry_ms: self.expiry_ms, strikes: Table { entries } };
        proof {
            assert(self.strikes.entries@.take(n as int) =~= self.strikes.entries@);
            assert(r.strikes.map() =~= self.strikes.map());
        }
        r
    }
}

impl<N: Scalar> Default for ExpiryEntry<N> {
    fn default() -> (r: Self)
        ensures
            r.expiry_ms == 0,
            r.strikes.entries@.len() == 0,
            well_keyed(r),
    {
        ExpiryEntry { expiry_ms: 0, strikes: Table::new() }
    }
}

impl<N: Scalar> Clone for Universe<N> {
    fn clone(&self) -> (r: Self)
        ensures
            r.expiries.entries@.len() == self.expiries.entries@.len(),
            forall|i: int|
                0 <= i < r.expiries.entries@.len() ==> (#[trigger] r.expiries.entries@[i]).0
                    == self.expiries.entries@[i].0 && same_expiry(r.expiries.entries@[i].1, self.expiries.entries@[i].1),
            self.wf() ==> r.wf(),
    {
        let mut entries: Vec<(String, ExpiryEntry<N>)> = Vec::new();
        let n: usize = self.expiries.entries.len();
        let mut i: usize = 0;
        while i < n
            invariant
                i <= n,
                n == self.expiries.entries@.len(),
                entries@.len() == i,
                forall|j: int|
                    0 <= j < i ==> (#[trigger] entries@[j]).0 == self.expiries.entries@[j].0 && same_expiry(
                        entries@[j].1,
                        self.expiries.entries@[j].1,
                    ) && (well_keyed(self.expiries.entries@[j].1) ==> well_keyed(entries@[j].1)),
            decreases n - i,
        {
            let name: String = self.expiries.entries[i].0.clone();
            let expiry: ExpiryEntry<N> = self.expiries.entries[i].1.clone();
            entries.push((name, expiry));
            i = i + 1;
        }
        let r = Universe { expiries: Table { entries } };
        proof {
            if self.wf() {
                let a = self.expiries;
                let b = r.expiries;
                assert(b.wf()) by {
                    assert forall|i: int, j: int| 0 <= i < j < b.entries@.len() implies String::precedes(
                        (#[trigger] b.entries@[i]).0.name(),
                        (#[trigger] b.entries@[j]).0.name(),
                    ) by {
                        assert(String::precedes(a.entries@[i].0.name(), a.entries@[j].0.name()));
                    }
                }
                assert forall|k: Seq<char>| #[trigger] b.map().contains_key(k) implies well_keyed(b.map()[k])
                    && !k.contains('-') by {
                    let i = b.lemma_named(k);
                    a.lemma_entry(i);
                }
            }
        }
        r
    }
}

impl<N: Scalar> Default for Universe<N> {
    fn default() -> (r: Self)
        ensures
            r.expiries.entries@.len() == 0,
            r.wf(),
    {
        Universe { expiries: Table::new() }
    }
}

// ---------------------------------------------------------------------------
// Quotes
// ---------------------------------------------------------------------------
/// `dashmap::DashMap`, a hash map.
#[verifier::external_type_specification]
#[verifier::external_body]
#[verifier::reject_recursive_types(K)]
#[verifier::reject_recursive_types(V)]
#[verifier::reject_recursive_types(S)]
pub struct ExDashMap<K, V, S>(dashmap::DashMap<K, V, S>);

/// What a `DashMap` from symbols to slots holds.
pub uninterp spec fn slots_of(m: dashmap::DashMap<String, usize, RandomState>) -> Map<Seq<char>, usize>;

/// `DashMap::new`: a map without entries.
#[verifier::external_body]
fn new_slots() -> (r: dashmap::DashMap<String, usize, RandomState>)
    ensures
        slots_of(r) == (Map::<Seq<char>, usize>::empty()),
{
    dashmap::DashMap::new()
}

/// `DashMap::get`: what the map holds under a symbol.
#[verifier::external_body]
fn slot_at(m: &dashmap::DashMap<String, usize, RandomState>, symbol: &str) -> (r: Option<usize>)
    ensures
        r == (if slots_of(*m).contains_key(symbol@) {
            Some(slots_of(*m)[symbol@])
        } else {
            None
        }),
{
    m.get(symbol).map(|slot| *slot)
}

/// `DashMap::insert`: puts a slot under a symbol.
#[verifier::external_body]
fn put_slot(m: &mut dashmap::DashMap<String, usize, RandomState>, symbol: String, slot: usize)
    ensures
        slots_of(*final(m)) == slots_of(*old(m)).insert(symbol@, slot),
{
    m.insert(symbol, slot);
}

/// The latest quotes: of the options by their symbols, and of the spot market.
pub struct Quotes<N> {
    slots: dashmap::DashMap<String, usize, RandomState>,
    tops: Vec<BookTop<N>>,
    spot: BookTop<N>,
}

/// The book under a symbol, or the book of an instrument that was never quoted.
pub open spec fn book_at<N: Scalar>(books: Map<Seq<char>, BookTop<N>>, symbol: Seq<char>) -> BookTop<N> {
    if books.contains_key(symbol) {
        books[symbol]
    } else {
        BookTop::<N>::empty_spec()
    }
}

impl<N: Scalar> Quotes<N> {
    /// Every symbol has a slot of its own.
    pub closed spec fn wf(&self) -> bool {
        let slots = slots_of(self.slots);
        &&& forall|k: Seq<char>| #[trigger] slots.contains_key(k) ==> slots[k] < self.tops@.len()
        &&& forall|j: Seq<char>, k: Seq<char>|
            #[trigger] slots.contains_key(j) && #[trigger] slots.contains_key(k) && slots[j] == slots[k] ==> j
                == k
    }

    /// The books of the options.
    pub closed spec fn books(&self) -> Map<Seq<char>, BookTop<N>> {
        slots_of(self.slots).map_values(|slot: usize| self.tops@[slot as int])
    }

    /// The book of the spot market.
    pub closed spec fn spot_book(&self) -> BookTop<N> {
        self.spot
    }

    /// Nothing was quoted yet.
    pub fn new() -> (r: Self)
        ensures
            r.wf(),
            r.books() == Map::<Seq<char>, BookTop<N>>::empty(),
            r.spot_book() == BookTop::<N>::empty_spec(),
    {
        let r = Quotes { slots: new_slots(), tops: Vec::new(), spot: BookTop::default() };
        proof {
            assert(r.books() =~= Map::<Seq<char>, BookTop<N>>::empty());
        }
        r
    }

    /// The latest quote of the spot market.
    pub fn spot_snapshot(&self) -> (r: BookTop<N>)
        ensures
            r == self.spot_book(),
    {
        self.spot
    }

    /// Takes in a quote of the spot market.
    pub fn set_spot(&mut self, top: BookTop<N>)
        requires
            old(self).wf(),
        ensures
            final(self).wf(),
            final(self).books() == old(self).books(),
            final(self).spot_book() == top,
    {
        self.spot = top;
    }

    /// The latest quote of an option.
    pub fn option(&self, symbol: &str) -> (r: BookTop<N>)
        requires
            self.wf(),
        ensures
            r == book_at(self.books(), symbol@),
    {
        match slot_at(&self.slots, symbol) {
            Some(slot) => self.tops[slot],
            None => BookTop::default(),
        }
    }

    /// Takes in a quote of an option.
    pub fn set_option(&mut self, symbol: String, top: BookTop<N>)
        requires
            old(self).wf(),
        ensures
            final(self).wf(),
            final(self).books() == old(self).books().insert(symbol@, top),
            final(self).spot_book() == old(self).spot_book(),
    {
        let ghost before = *self;
        match slot_at(&self.slots, symbol.as_str()) {
            Some(slot) => {
                self.tops.set(slot, top);
                proof {
                    assert(self.books() =~= before.books().insert(symbol@, top));
                }
            },
            None => {
                let slot: usize = self.tops.len();
                self.tops.push(top);
                let ghost name = symbol@;
                put_slot(&mut self.slots, symbol, slot);
                proof {
                    assert(self.books() =~= before.books().insert(name, top));
                }
            },
        }
    }
}

// ---------------------------------------------------------------------------
// Positions
// ---------------------------------------------------------------------------
/// The life of an arbitrage position: opened, then closed early or settled at
/// expiry.
///
/// `kind` is the direction in which it was opened. Closing it is the opposite
/// action at the same expiry and strike, so that the strike cancels out: the
/// net profit of the round trip is `open_gross + close_gross` less six fees.
#[derive(Debug)]
pub struct Position<N> {
    /// `{kind}-{expiry}-{strike_key}-{open_ts}`.
    pub id: String,
    /// `reversal` or `conversion`.
    pub kind: &'static str,
    /// `open`, `closed` or `settled`.
    pub status: &'static str,
    pub expiry: String,
    pub expiry_ms: i64,
    pub strike: N,
    pub call_symbol: String,
    pub put_symbol: String,
    pub open_ts: i64,
    pub open_spot: N,
    pub open_call: N,
    pub open_put: N,
    pub open_gross: N,
    pub open_fee: N,
    /// `open_gross - open_fee`.
    pub open_net: N,
    /// The rate that the position locks in: `open_net / open_spot`.
    pub open_rate: N,
    /// The same over a year, by the days to expiry.
    pub open_annual_rate: N,
    pub target_close_rate: N,
    pub close_ts: i64,
    pub close_spot: N,
    pub close_call: N,
    pub close_put: N,
    pub close_gross: N,
    pub close_fee: N,
    pub exec_qty: N,
    /// Of the round trip, or of closing at once while the position is open.
    pub net_profit_per_btc: N,
    pub net_profit_rate: N,
    /// Over a year, by the days that the position was held.
    pub hold_annual_rate: N,
    pub est_profit: N,
}

/// A position in contracts.
pub struct PositionView<N> {
    pub id: Seq<char>,
    pub kind: Seq<char>,
    pub status: Seq<char>,
    pub expiry: Seq<char>,
    pub expiry_ms: i64,
    pub strike: N,
    pub call_symbol: Seq<char>,
    pub put_symbol: Seq<char>,
    pub open_ts: i64,
    pub open_spot: N,
    pub open_call: N,
    pub open_put: N,
    pub open_gross: N,
    pub open_fee: N,
    pub open_net: N,
    pub open_rate: N,
    pub open_annual_rate: N,
    pub target_close_rate: N,
    pub close_ts: i64,
    pub close_spot: N,
    pub close_call: N,
    pub close_put: N,
    pub close_gross: N,
    pub close_fee: N,
    pub exec_qty: N,
    pub net_profit_per_btc: N,
    pub net_profit_rate: N,
    pub hold_annual_rate: N,
    pub est_profit: N,
}

impl<N> View for Position<N> {
    type V = PositionView<N>;

    open spec fn view(&self) -> PositionView<N> {
        PositionView {
            id: self.id@,
            kind: self.kind@,
            status: self.status@,
            expiry: self.expiry@,
            expiry_ms: self.expiry_ms,
            strike: self.strike,
            call_symbol: self.call_symbol@,
            put_symbol: self.put_symbol@,
            open_ts: self.open_ts,
            open_spot: self.open_spot,
            open_call: self.open_call,
            open_put: self.open_put,
            open_gross: self.open_gross,
            open_fee: self.open_fee,
            open_net: self.open_net,
            open_rate: self.open_rate,
            open_annual_rate: self.open_annual_rate,
            target_close_rate: self.target_close_rate,
            close_ts: self.close_ts,
            close_spot: self.close_spot,
            close_call: self.close_call,
            close_put: self.close_put,
            close_gross: self.close_gross,
            close_fee: self.close_fee,
            exec_qty: self.exec_qty,
            net_profit_per_btc: self.net_profit_per_btc,
            net_profit_rate: self.net_profit_rate,
            hold_annual_rate: self.hold_annual_rate,
            est_profit: self.est_profit,
        }
    }
}

impl<N: Scalar> Clone for Position<N> {
    fn clone(&self) -> (r: Self)
        ensures
            r == *self,
    {
        Position {
            id: self.id.clone(),
            kind: self.kind,
            status: self.status,
            expiry: self.expiry.clone(),
            expiry_ms: self.expiry_ms,
            strike: self.strike,
            call_symbol: self.call_symbol.clone(),
            put_symbol: self.put_symbol.clone(),
            open_ts: self.open_ts,
            open_spot: self.open_spot,
            open_call: self.open_call,
            open_put: self.open_put,
            open_gross: self.open_gross,
            open_fee: self.open_fee,
            open_net: self.open_net,
            open_rate: self.open_rate,
            open_annual_rate: self.open_annual_rate,
            target_close_rate: self.target_close_rate,
            close_ts: self.close_ts,
            close_spot: self.close_spot,
            close_call: self.close_call,
            close_put: self.close_put,
            close_gross: self.close_gross,
            close_fee: self.close_fee,
            exec_qty: self.exec_qty,
            net_profit_per_btc: self.net_profit_per_btc,
            net_profit_rate: self.net_profit_rate,
            hold_annual_rate: self.hold_annual_rate,
            est_profit: self.est_profit,
        }
    }
}

// ---------------------------------------------------------------------------
// Laws
// ---------------------------------------------------------------------------
/// A thousand times a number, or the end of the range that is nearer.
proof fn lemma_thousandfold(x: Fixed)
    ensures
        ({
            let t = x.times_spec(Fixed::of_int_spec(1000)).units;
            let p = x.units * 1_000_000_000_000;
            if p > i128::MAX {
                t == i128::MAX
            } else if p < i128::MIN {
                t == i128::MIN
            } else {
                t == x.units * 1000
            }
        }),
{
    let u = x.units as int;
    let k = Fixed::of_int_spec(1000).units as int;
    assert(k == 1_000_000_000_000);
    assert(u * k == u * 1_000_000_000_000) by (nonlinear_arith)
        requires
            k == 1_000_000_000_000,
    ;
    let p = u * 1_000_000_000_000;
    if u >= 0 {
        assert(p / 1_000_000_000 == u * 1000);
    } else {
        assert((-p) / 1_000_000_000 == -(u * 1000));
    }
}

/// The keys of strikes follow the order of the strikes.
pub proof fn strike_keys_follow_strikes(a: Fixed, b: Fixed)
    requires
        a.at_most_spec(b),
    ensures
        strike_key_spec(a) <= strike_key_spec(b),
{
    lemma_thousandfold(a);
    lemma_thousandfold(b);
}

/// A strike has at most three decimal places, and a thousand times it fits 64
/// bits.
pub open spec fn is_three_place(x: Fixed) -> bool {
    x.units as int % 1_000_000 == 0 && -9_000_000_000_000_000 * SCALE < x.units < 9_000_000_000_000_000 * SCALE
}

proof fn lemma_key_counts_thousandths(x: Fixed)
    requires
        is_three_place(x),
    ensures
        strike_key_spec(x) * 1_000_000 == x.units,
{
    lemma_thousandfold(x);
    let t = x.times_spec(Fixed::of_int_spec(1000)).units as int;
    let k = x.units as int / 1_000_000;
    assert(x.units == k * 1_000_000);
    assert(t == k * 1_000_000_000);
    if k >= 0 {
        assert((t + 500_000_000) / 1_000_000_000 == k);
    } else {
        assert((-t + 500_000_000) / 1_000_000_000 == -k);
    }
}

/// Strikes with three decimal places are told apart by their keys, which count
/// their thousandths.
pub proof fn strike_keys_tell_strikes_apart(a: Fixed, b: Fixed)
    requires
        is_three_place(a),
        is_three_place(b),
    ensures
        strike_key_spec(a) * 1_000_000 == a.units,
        strike_key_spec(a) == strike_key_spec(b) <==> a == b,
{
    lemma_key_counts_thousandths(a);
    lemma_key_counts_thousandths(b);
}

/// The key of a whole number is a thousand times the number.
pub proof fn strike_key_of_whole_number(n: i128)
    requires
        -9_000_000_000_000_000 < n < 9_000_000_000_000_000,
    ensures
        strike_key_spec(Fixed::of_int_spec(n)) == 1000 * n,
{
    let x = Fixed::of_int_spec(n);
    let k = 1000 * n as int;
    let u = x.units as int;
    assert(u == k * 1_000_000);
    assert(u % 1_000_000 == 0) by (nonlinear_arith)
        requires
            u == k * 1_000_000,
    ;
    lemma_key_counts_thousandths(x);
    let key = strike_key_spec(x) as int;
    assert(key == k) by (nonlinear_arith)
        requires
            key * 1_000_000 == k * 1_000_000,
    ;
}

} // verus!
