//! Collecting a snapshot: which data to ask the exchanges for, and what to make
//! of the replies.
//!
//! A `Collector` says what it wants next and takes the reply; whoever drives it
//! does the asking. It goes through the watched underlyings one by one: the spot
//! book, the list of options, then the live books of the options that matter.
use crate::arb::{
    build_opportunity, candidate_views, candidates_up_to, find_rough_candidates, named_options,
    opportunity_spec, rough_rate, Candidate, CandidateView,
};
use crate::history::{newest, HistoryStore};
use crate::models::{
    underlying, underlying_spec, Config, MarketView, Opportunity, OpportunityRecord,
    OpportunityView, OptionSummary, OptionTopOfBook, Snapshot, SpotBook, UNDERLYING_COUNT,
};
use crate::rank::{
    is_sorted, lemma_sorted_views, rank_number, sort_descending, sorted_is_falling, sorted_keeps_items,
    Ranked,
};
use crate::scalar::Scalar;
use crate::scanner::top_of;
use crate::text::{same_text, texts};
use crate::time::UtcTime;
use vstd::prelude::*;
use vstd::string::*;

verus! {

// ---------------------------------------------------------------------------
// Views
// ---------------------------------------------------------------------------
/// A market in contracts.
pub struct MarketSeen<N> {
    pub underlying: Seq<char>,
    pub spot_symbol: Seq<char>,
    pub spot_bid: N,
    pub spot_ask: N,
    pub spot_bid_qty: N,
    pub spot_ask_qty: N,
    pub option_summaries: usize,
    pub rough_candidates: usize,
}

impl<N> View for MarketView<N> {
    type V = MarketSeen<N>;

    open spec fn view(&self) -> MarketSeen<N> {
        MarketSeen {
            underlying: self.underlying@,
            spot_symbol: self.spot_symbol@,
            spot_bid: self.spot_bid,
            spot_ask: self.spot_ask,
            spot_bid_qty: self.spot_bid_qty,
            spot_ask_qty: self.spot_ask_qty,
            option_summaries: self.option_summaries,
            rough_candidates: self.rough_candidates,
        }
    }
}

/// The markets of a vector.
pub open spec fn market_views<N>(v: Seq<MarketView<N>>) -> Seq<MarketSeen<N>> {
    v.map_values(|m: MarketView<N>| m@)
}

/// The opportunities of a vector.
pub open spec fn opportunity_views<N>(v: Seq<Opportunity<N>>) -> Seq<OpportunityView<N>> {
    v.map_values(|o: Opportunity<N>| o@)
}

/// The number that opportunities are ordered by.
pub open spec fn annual_rate<N>() -> spec_fn(OpportunityView<N>) -> N {
    |o: OpportunityView<N>| o.annualized_profit_rate
}

impl<N: Scalar> Ranked<N> for Opportunity<N> {
    open spec fn rank_spec(&self) -> N {
        self.annualized_profit_rate
    }

    fn rank(&self) -> (r: N) {
        self.annualized_profit_rate
    }
}

// ---------------------------------------------------------------------------
// Requests and replies
// ---------------------------------------------------------------------------
/// What a collector wants next.
#[derive(Debug)]
pub enum Request {
    /// The spot book of an underlying, by its pair.
    Spot { underlying: &'static str, symbol: &'static str },
    /// The list of all options of an underlying.
    Summaries { underlying: &'static str },
    /// The live book of an option.
    Book { instrument: String },
    /// Nothing: the snapshot is complete.
    Finished,
}

/// A request in contracts.
pub enum RequestView {
    Spot { underlying: Seq<char>, symbol: Seq<char> },
    Summaries { underlying: Seq<char> },
    Book { instrument: Seq<char> },
    Finished,
}

impl View for Request {
    type V = RequestView;

    open spec fn view(&self) -> RequestView {
        match *self {
            Request::Spot { underlying, symbol } => RequestView::Spot { underlying: underlying@, symbol: symbol@ },
            Request::Summaries { underlying } => RequestView::Summaries { underlying: underlying@ },
            Request::Book { instrument } => RequestView::Book { instrument: instrument@ },
            Request::Finished => RequestView::Finished,
        }
    }
}

/// What a collector waits for in the market that it is at.
#[derive(Debug)]
pub enum Stage<N> {
    Spot,
    Summaries { spot: SpotBook<N> },
    Books {
        spot: SpotBook<N>,
        /// The candidates to verify.
        selected: Vec<Candidate<N>>,
        /// The options whose books are needed, each once.
        wanted: Vec<String>,
        /// The replies so far: the book, where there was one.
        books: Vec<Option<OptionTopOfBook<N>>>,
    },
}

/// A stage in contracts.
#[verifier::ext_equal]
pub enum StageView<N> {
    Spot,
    Summaries { spot: SpotBook<N> },
    Books {
        spot: SpotBook<N>,
        selected: Seq<CandidateView<N>>,
        wanted: Seq<Seq<char>>,
        books: Seq<Option<OptionTopOfBook<N>>>,
    },
}

impl<N> View for Stage<N> {
    type V = StageView<N>;

    open spec fn view(&self) -> StageView<N> {
        match *self {
            Stage::Spot => StageView::Spot,
            Stage::Summaries { spot } => StageView::Summaries { spot },
            Stage::Books { spot, selected, wanted, books } => StageView::Books {
                spot,
                selected: candidate_views(selected@),
                wanted: texts(wanted@),
                books: books@,
            },
        }
    }
}

/// A snapshot in the making.
#[derive(Debug)]
pub struct Collector<N> {
    pub config: Config<N>,
    pub now: UtcTime,
    /// Which of the watched underlyings comes next.
    pub market: usize,
    pub stage: Stage<N>,
    pub markets: Vec<MarketView<N>>,
    pub opportunities: Vec<Opportunity<N>>,
    pub errors: Vec<String>,
}

/// A collector in contracts.
#[verifier::ext_equal]
pub struct CollectView<N> {
    pub market: int,
    pub stage: StageView<N>,
    pub markets: Seq<MarketSeen<N>>,
    pub opportunities: Seq<OpportunityView<N>>,
    pub errors: Seq<Seq<char>>,
}

impl<N> View for Collector<N> {
    type V = CollectView<N>;

    open spec fn view(&self) -> CollectView<N> {
        CollectView {
            market: self.market as int,
            stage: self.stage@,
            markets: market_views(self.markets@),
            opportunities: opportunity_views(self.opportunities@),
            errors: texts(self.errors@),
        }
    }
}

// ---------------------------------------------------------------------------
// What the replies come to
// ---------------------------------------------------------------------------
/// What is shown of a market.
pub open spec fn market_seen<N>(spot: SpotBook<N>, option_summaries: usize, rough_candidates: usize) -> MarketSeen<N> {
    MarketSeen {
        underlying: spot.underlying@,
        spot_symbol: spot.symbol@,
        spot_bid: spot.bid_price,
        spot_ask: spot.ask_price,
        spot_bid_qty: spot.bid_qty,
        spot_ask_qty: spot.ask_qty,
        option_summaries,
        rough_candidates,
    }
}

/// What is shown of a market.
pub fn market_view<N: Scalar>(spot: &SpotBook<N>, option_summaries: usize, rough_candidates: usize) -> (r: MarketView<
    N,
>)
    ensures
        r@ == market_seen(*spot, option_summaries, rough_candidates),
{
    MarketView {
        underlying: spot.underlying.clone(),
        spot_symbol: spot.symbol.clone(),
        spot_bid: spot.bid_price,
        spot_ask: spot.ask_price,
        spot_bid_qty: spot.bid_qty,
        spot_ask_qty: spot.ask_qty,
        option_summaries,
        rough_candidates,
    }
}

/// The names of the options of some candidates: of each its call, then its put.
pub open spec fn option_names<N>(selected: Seq<CandidateView<N>>) -> Seq<Seq<char>>
    decreases selected.len(),
{
    if selected.len() == 0 {
        Seq::empty()
    } else {
        option_names(selected.drop_last()).push(selected.last().call.instrument_name@).push(
            selected.last().put.instrument_name@,
        )
    }
}

/// Texts without repetition, in the order of their first occurrence.
pub open spec fn distinct(names: Seq<Seq<char>>) -> Seq<Seq<char>>
    decreases names.len(),
{
    if names.len() == 0 {
        Seq::empty()
    } else {
        let before = distinct(names.drop_last());
        if before.contains(names.last()) {
            before
        } else {
            before.push(names.last())
        }
    }
}

/// The book that came for an option, if one was asked for and came.
pub open spec fn book_for<N>(
    wanted: Seq<Seq<char>>,
    books: Seq<Option<OptionTopOfBook<N>>>,
    name: Seq<char>,
) -> Option<OptionTopOfBook<N>> {
    if wanted.contains(name) && wanted.index_of(name) < books.len() {
        books[wanted.index_of(name)]
    } else {
        None
    }
}

/// What a candidate comes to, with the books that came for its options.
pub open spec fn verified_one<N: Scalar>(
    config: Config<N>,
    spot: SpotBook<N>,
    candidate: CandidateView<N>,
    wanted: Seq<Seq<char>>,
    books: Seq<Option<OptionTopOfBook<N>>>,
    now: UtcTime,
) -> Seq<OpportunityView<N>> {
    match (
        book_for(wanted, books, candidate.call.instrument_name@),
        book_for(wanted, books, candidate.put.instrument_name@),
    ) {
        (Some(call), Some(put)) => match opportunity_spec(
            config,
            candidate,
            spot,
            call,
            put,
            now,
            candidate.expiry_utc.text_spec(),
        ) {
            Some(o) => seq![o],
            None => Seq::empty(),
        },
        _ => Seq::empty(),
    }
}

/// What candidates come to, in their order.
pub open spec fn verified<N: Scalar>(
    config: Config<N>,
    spot: SpotBook<N>,
    selected: Seq<CandidateView<N>>,
    wanted: Seq<Seq<char>>,
    books: Seq<Option<OptionTopOfBook<N>>>,
    now: UtcTime,
) -> Seq<OpportunityView<N>>
    decreases selected.len(),
{
    if selected.len() == 0 {
        Seq::empty()
    } else {
        verified(config, spot, selected.drop_last(), wanted, books, now) + verified_one(
            config,
            spot,
            selected.last(),
            wanted,
            books,
            now,
        )
    }
}

/// The next market, with an error noted.
pub open spec fn given_up<N>(v: CollectView<N>, error: Seq<char>) -> CollectView<N> {
    CollectView { market: v.market + 1, stage: StageView::Spot, errors: v.errors.push(error), ..v }
}

/// The books are complete: the candidates are verified, and the next market follows.
pub open spec fn market_done<N: Scalar>(
    v: CollectView<N>,
    config: Config<N>,
    spot: SpotBook<N>,
    selected: Seq<CandidateView<N>>,
    wanted: Seq<Seq<char>>,
    books: Seq<Option<OptionTopOfBook<N>>>,
    now: UtcTime,
) -> CollectView<N> {
    CollectView {
        market: v.market + 1,
        stage: StageView::Spot,
        opportunities: v.opportunities + verified(config, spot, selected, wanted, books, now),
        ..v
    }
}

/// After the reply on the spot book.
pub open spec fn after_spot<N>(v: CollectView<N>, reply: Result<SpotBook<N>, String>) -> CollectView<N> {
    match reply {
        Ok(spot) => CollectView { stage: StageView::Summaries { spot }, ..v },
        Err(error) => {
            let (name, symbol) = underlying_spec(v.market);
            given_up(v, name + " Binance "@ + symbol + ": "@ + error@)
        },
    }
}

/// After the list of options did not come.
pub open spec fn after_no_summaries<N>(v: CollectView<N>, spot: SpotBook<N>, error: Seq<char>) -> CollectView<N> {
    let w = given_up(v, underlying_spec(v.market).0 + " Deribit summaries: "@ + error);
    CollectView { markets: v.markets.push(market_seen(spot, 0, 0)), ..w }
}

/// After the list of options came, with the candidates that were found in it.
pub open spec fn after_summaries<N: Scalar>(
    v: CollectView<N>,
    config: Config<N>,
    spot: SpotBook<N>,
    listed: usize,
    candidates: Seq<CandidateView<N>>,
    now: UtcTime,
) -> CollectView<N> {
    let selected = top_of(candidates, config.max_candidates as int);
    let wanted = distinct(option_names(selected));
    let w = CollectView { markets: v.markets.push(market_seen(spot, listed, candidates.len() as usize)), ..v };
    if wanted.len() == 0 {
        market_done(w, config, spot, selected, wanted, Seq::empty(), now)
    } else {
        CollectView { stage: StageView::Books { spot, selected, wanted, books: Seq::empty() }, ..w }
    }
}

/// After the reply on a live book.
pub open spec fn after_book<N: Scalar>(
    v: CollectView<N>,
    config: Config<N>,
    reply: Result<OptionTopOfBook<N>, String>,
    now: UtcTime,
) -> CollectView<N> {
    match v.stage {
        StageView::Books { spot, selected, wanted, books } => {
            let asked = wanted[books.len() as int];
            let w = match reply {
                Ok(_) => v,
                Err(error) => CollectView {
                    errors: v.errors.push("Deribit order book "@ + asked + ": "@ + error@),
                    ..v
                },
            };
            let all = books.push(
                match reply {
                    Ok(book) => Some(book),
                    Err(_) => None,
                },
            );
            if all.len() == wanted.len() {
                market_done(w, config, spot, selected, wanted, all, now)
            } else {
                CollectView { stage: StageView::Books { spot, selected, wanted, books: all }, ..w }
            }
        },
        _ => v,
    }
}

/// What is asked for next.
pub open spec fn request_spec<N>(v: CollectView<N>) -> RequestView {
    if v.market >= UNDERLYING_COUNT {
        RequestView::Finished
    } else {
        let (name, symbol) = underlying_spec(v.market);
        match v.stage {
            StageView::Spot => RequestView::Spot { underlying: name, symbol },
            StageView::Summaries { spot } => RequestView::Summaries { underlying: name },
            StageView::Books { spot, selected, wanted, books } => RequestView::Book {
                instrument: wanted[books.len() as int],
            },
        }
    }
}

/// Every opportunity has at least the threshold as its return.
pub open spec fn all_reach<N: Scalar>(opportunities: Seq<OpportunityView<N>>, threshold: N) -> bool {
    forall|i: int|
        0 <= i < opportunities.len() ==> threshold.at_most_spec(
            (#[trigger] opportunities[i]).annualized_profit_rate,
        )
}

// ---------------------------------------------------------------------------
// Steps
// ---------------------------------------------------------------------------
fn add_distinct(names: &mut Vec<String>, name: &String)
    ensures
        texts(final(names)@) == (if texts(old(names)@).contains(name@) {
            texts(old(names)@)
        } else {
            texts(old(names)@).push(name@)
        }),
{
    let ghost before = texts(names@);
    let n: usize = names.len();
    let mut i: usize = 0;
    while i < n
        invariant
            i <= n,
            n == names@.len(),
            before == texts(names@),
            texts(old(names)@) == before,
            forall|k: int| 0 <= k < i ==> before[k] != name@,
        decreases n - i,
    {
        if same_text(names[i].as_str(), name.as_str()) {
            proof {
                assert(before[i as int] == name@);
            }
            return;
        }
        i = i + 1;
    }
    names.push(name.clone());
    proof {
        assert(texts(names@) =~= before.push(name@));
    }
}

fn wanted_options<N: Scalar>(selected: &Vec<Candidate<N>>) -> (r: Vec<String>)
    ensures
        texts(r@) == distinct(option_names(candidate_views(selected@))),
{
    let ghost all = candidate_views(selected@);
    let mut names: Vec<String> = Vec::new();
    let n: usize = selected.len();
    let mut i: usize = 0;
    proof {
        assert(all.take(0) =~= Seq::<CandidateView<N>>::empty());
        assert(texts(names@) =~= Seq::<Seq<char>>::empty());
    }
    while i < n
        invariant
            i <= n,
            n == selected@.len(),
            all == candidate_views(selected@),
            texts(names@) == distinct(option_names(all.take(i as int))),
        decreases n - i,
    {
        let ghost before = option_names(all.take(i as int));
        let ghost once = before.push(selected@[i as int].call.instrument_name@);
        let ghost twice = once.push(selected@[i as int].put.instrument_name@);
        proof {
            let t = all.take(i + 1);
            assert(t.drop_last() =~= all.take(i as int));
            assert(t.last() == selected@[i as int]@);
            assert(once.drop_last() =~= before);
            assert(twice.drop_last() =~= once);
        }
        add_distinct(&mut names, &selected[i].call.instrument_name);
        proof {
            assert(texts(names@) == distinct(once));
        }
        add_distinct(&mut names, &selected[i].put.instrument_name);
        proof {
            assert(texts(names@) == distinct(twice));
            assert(option_names(all.take(i + 1)) == twice);
        }
        i = i + 1;
    }
    proof {
        assert(all.take(n as int) =~= all);
    }
    names
}

fn find_book<'a, N: Scalar>(
    wanted: &Vec<String>,
    books: &'a Vec<Option<OptionTopOfBook<N>>>,
    name: &String,
) -> (r: Option<&'a OptionTopOfBook<N>>)
    requires
        texts(wanted@).no_duplicates(),
    ensures
        match book_for(texts(wanted@), books@, name@) {
            Some(b) => r matches Some(x) && *x == b,
            None => r is None,
        },
{
    let ghost all = texts(wanted@);
    let n: usize = wanted.len();
    let mut i: usize = 0;
    while i < n
        invariant
            i <= n,
            n == wanted@.len(),
            all == texts(wanted@),
            all.no_duplicates(),
            forall|k: int| 0 <= k < i ==> all[k] != name@,
        decreases n - i,
    {
        if same_text(wanted[i].as_str(), name.as_str()) {
            proof {
                assert(all[i as int] == name@);
                let k = all.index_of(name@);
                assert(all.contains(name@));
                assert(0 <= k < all.len() && all[k] == name@);
            }
            if i < books.len() {
                return match &books[i] {
                    Some(b) => Some(b),
                    None => None,
                };
            }
            return None;
        }
        i = i + 1;
    }
    None
}

/// Texts without repetition do not repeat, and they are the same texts.
pub proof fn distinct_names_every_option_once(names: Seq<Seq<char>>)
    ensures
        distinct(names).no_duplicates(),
        forall|name: Seq<char>| #[trigger] distinct(names).contains(name) <==> names.contains(name),
    decreases names.len(),
{
    if names.len() > 0 {
        let rest = names.drop_last();
        let last = names.last();
        distinct_names_every_option_once(rest);
        let before = distinct(rest);
        let after = distinct(names);
        assert(names =~= rest.push(last));
        assert forall|name: Seq<char>| #[trigger] after.contains(name) <==> names.contains(name) by {
            if names.contains(name) {
                let i = choose|i: int| 0 <= i < names.len() && names[i] == name;
                if i < rest.len() {
                    assert(rest[i] == name);
                    assert(before.contains(name));
                    let k = choose|k: int| 0 <= k < before.len() && before[k] == name;
                    assert(after[k] == name);
                } else if !before.contains(last) {
                    assert(after[after.len() - 1] == name);
                }
            }
            if after.contains(name) {
                let k = choose|k: int| 0 <= k < after.len() && after[k] == name;
                if k < before.len() {
                    assert(before[k] == name);
                    assert(before.contains(name));
                    assert(rest.contains(name));
                    let i = choose|i: int| 0 <= i < rest.len() && rest[i] == name;
                    assert(names[i] == name);
                } else {
                    assert(names[names.len() - 1] == name);
                }
            }
        }
        if !before.contains(last) {
            assert forall|i: int, j: int| 0 <= i < j < after.len() implies after[i] != after[j] by {
                assert(before[i] == after[i]);
            }
        }
    }
}

fn verify_candidates<N: Scalar>(
    config: &Config<N>,
    spot: &SpotBook<N>,
    selected: &Vec<Candidate<N>>,
    wanted: &Vec<String>,
    books: &Vec<Option<OptionTopOfBook<N>>>,
    now: UtcTime,
    opportunities: &mut Vec<Opportunity<N>>,
)
    requires
        texts(wanted@).no_duplicates(),
        forall|i: int| 0 <= i < selected@.len() ==> (#[trigger] selected@[i]).expiry_utc.wf(),
    ensures
        opportunity_views(final(opportunities)@) == opportunity_views(old(opportunities)@) + verified(
            *config,
            *spot,
            candidate_views(selected@),
            texts(wanted@),
            books@,
            now,
        ),
{
    let ghost all = candidate_views(selected@);
    let ghost names = texts(wanted@);
    let ghost start = opportunity_views(opportunities@);
    let n: usize = selected.len();
    let mut i: usize = 0;
    proof {
        assert(all.take(0) =~= Seq::<CandidateView<N>>::empty());
        assert(start + Seq::<OpportunityView<N>>::empty() =~= start);
    }
    while i < n
        invariant
            i <= n,
            n == selected@.len(),
            all == candidate_views(selected@),
            names == texts(wanted@),
            names.no_duplicates(),
            forall|i: int| 0 <= i < selected@.len() ==> (#[trigger] selected@[i]).expiry_utc.wf(),
            opportunity_views(opportunities@) == start + verified(
                *config,
                *spot,
                all.take(i as int),
                names,
                books@,
                now,
            ),
        decreases n - i,
    {
        let ghost before = opportunity_views(opportunities@);
        let candidate: &Candidate<N> = &selected[i];
        let ghost found = verified_one(*config, *spot, candidate@, names, books@, now);
        let ghost so_far = verified(*config, *spot, all.take(i as int), names, books@, now);
        proof {
            let t = all.take(i + 1);
            assert(t.drop_last() =~= all.take(i as int));
            assert(t.last() == candidate@);
            assert(before + Seq::<OpportunityView<N>>::empty() =~= before);
            assert((start + so_far) + found =~= start + (so_far + found));
        }
        let call: Option<&OptionTopOfBook<N>> = find_book(wanted, books, &candidate.call.instrument_name);
        let put: Option<&OptionTopOfBook<N>> = find_book(wanted, books, &candidate.put.instrument_name);
        match (call, put) {
            (Some(call_book), Some(put_book)) => {
                match build_opportunity(config, candidate, spot, call_book, put_book, now) {
                    Some(o) => {
                        opportunities.push(o);
                        proof {
                            assert(opportunity_views(opportunities@) =~= before + seq![o@]);
                        }
                    },
                    None => {},
                }
            },
            _ => {},
        }
        i = i + 1;
    }
    proof {
        assert(all.take(n as int) =~= all);
    }
}

impl<N: Scalar> Collector<N> {
    /// The clock stood at a point that the calendar has. While live books are
    /// waited for, some are missing, none is asked for twice, and the candidates
    /// expire at points that the calendar has. After the last market nothing is
    /// waited for. Every opportunity reaches the threshold.
    pub open spec fn wf(&self) -> bool {
        &&& self.now.wf()
        &&& self.market <= UNDERLYING_COUNT
        &&& self.market == UNDERLYING_COUNT ==> self.stage is Spot
        &&& match self.stage {
            Stage::Books { spot, selected, wanted, books } => {
                &&& books@.len() < wanted@.len()
                &&& texts(wanted@).no_duplicates()
                &&& forall|i: int| 0 <= i < selected@.len() ==> (#[trigger] selected@[i]).expiry_utc.wf()
            },
            _ => true,
        }
        &&& all_reach(opportunity_views(self.opportunities@), self.config.min_annualized)
    }

    /// Nothing is asked for any more.
    pub open spec fn finished(&self) -> bool {
        self.market == UNDERLYING_COUNT
    }

    /// Begins a snapshot.
    pub fn new(config: &Config<N>, now: UtcTime) -> (r: Self)
        requires
            now.wf(),
        ensures
            r.wf(),
            r.config == *config,
            r.now == now,
            r@ == (CollectView::<N> {
                market: 0,
                stage: StageView::Spot,
                markets: Seq::empty(),
                opportunities: Seq::empty(),
                errors: Seq::empty(),
            }),
    {
        let r = Collector {
            config: config.clone(),
            now,
            market: 0,
            stage: Stage::Spot,
            markets: Vec::new(),
            opportunities: Vec::new(),
            errors: Vec::new(),
        };
        proof {
            assert(market_views(r.markets@) =~= Seq::<MarketSeen<N>>::empty());
            assert(opportunity_views(r.opportunities@) =~= Seq::<OpportunityView<N>>::empty());
            assert(texts(r.errors@) =~= Seq::<Seq<char>>::empty());
        }
        r
    }

    /// What is asked for next.
    pub fn request(&self) -> (r: Request)
        requires
            self.wf(),
        ensures
            r@ == request_spec(self@),
            r is Spot <==> !self.finished() && self.stage is Spot,
            r is Summaries <==> self.stage is Summaries,
            r is Book <==> self.stage is Books,
            r is Finished <==> self.finished(),
    {
        if self.market >= UNDERLYING_COUNT {
            return Request::Finished;
        }
        let (name, symbol): (&'static str, &'static str) = underlying(self.market);
        match &self.stage {
            Stage::Spot => Request::Spot { underlying: name, symbol },
            Stage::Summaries { .. } => Request::Summaries { underlying: name },
            Stage::Books { wanted, books, .. } => {
                let instrument: String = wanted[books.len()].clone();
                proof {
                    assert(texts(wanted@)[books@.len() as int] == instrument@);
                }
                Request::Book { instrument }
            },
        }
    }

    fn give_up(&mut self, error: String)
        requires
            old(self).wf(),
            !old(self).finished(),
        ensures
            final(self).wf(),
            final(self).config == old(self).config,
            final(self).now == old(self).now,
            final(self)@ == given_up(old(self)@, error@),
    {
        let ghost before = self@;
        self.errors.push(error);
        self.market = self.market + 1;
        self.stage = Stage::Spot;
        proof {
            assert(texts(self.errors@) =~= before.errors.push(error@));
        }
    }

    /// Takes the reply on the spot book.
    pub fn on_spot(&mut self, reply: Result<SpotBook<N>, String>)
        requires
            old(self).wf(),
            !old(self).finished(),
            old(self).stage is Spot,
        ensures
            final(self).wf(),
            final(self).config == old(self).config,
            final(self).now == old(self).now,
            final(self)@ == after_spot(old(self)@, reply),
    {
        match reply {
            Ok(spot) => {
                self.stage = Stage::Summaries { spot };
            },
            Err(error) => {
                let (name, symbol): (&'static str, &'static str) = underlying(self.market);
                let mut text = name.to_owned();
                text.append(" Binance ");
                text.append(symbol);
                text.append(": ");
                text.append(error.as_str());
                self.give_up(text);
            },
        }
    }

    /// Goes on to the next market, with the candidates of this one verified.
    fn close_market(
        &mut self,
        spot: SpotBook<N>,
        selected: Vec<Candidate<N>>,
        wanted: Vec<String>,
        books: Vec<Option<OptionTopOfBook<N>>>,
    )
        requires
            old(self).now.wf(),
            old(self).market < UNDERLYING_COUNT,
            all_reach(opportunity_views(old(self).opportunities@), old(self).config.min_annualized),
            texts(wanted@).no_duplicates(),
            forall|i: int| 0 <= i < selected@.len() ==> (#[trigger] selected@[i]).expiry_utc.wf(),
        ensures
            final(self).wf(),
            final(self).config == old(self).config,
            final(self).now == old(self).now,
            final(self)@ == market_done(
                old(self)@,
                old(self).config,
                spot,
                candidate_views(selected@),
                texts(wanted@),
                books@,
                old(self).now,
            ),
    {
        let ghost before = *self;
        verify_candidates(&self.config, &spot, &selected, &wanted, &books, self.now, &mut self.opportunities);
        self.market = self.market + 1;
        self.stage = Stage::Spot;
        proof {
            verified_reaches_threshold(
                before.config,
                spot,
                candidate_views(selected@),
                texts(wanted@),
                books@,
                before.now,
            );
            let a = before@.opportunities;
            let b = verified(
                before.config,
                spot,
                candidate_views(selected@),
                texts(wanted@),
                books@,
                before.now,
            );
            assert forall|i: int| 0 <= i < (a + b).len() implies before.config.min_annualized.at_most_spec(
                (#[trigger] (a + b)[i]).annualized_profit_rate,
            ) by {
                if i < a.len() {
                    assert((a + b)[i] == a[i]);
                } else {
                    assert((a + b)[i] == b[i - a.len()]);
                }
            }
        }
    }

    /// Takes the reply on the list of options: the candidates in it are found,
    /// and the best of them are chosen to be verified.
    pub fn on_summaries(&mut self, reply: Result<Vec<OptionSummary<N>>, String>)
        requires
            old(self).wf(),
            old(self).stage is Summaries,
        ensures
            final(self).wf(),
            final(self).config == old(self).config,
            final(self).now == old(self).now,
            reply matches Err(error) ==> final(self)@ == after_no_summaries(
                old(self)@,
                old(self).stage->Summaries_spot,
                error@,
            ),
            reply matches Ok(listed) ==> exists|candidates: Seq<CandidateView<N>>|
                {
                    &&& is_sorted(
                        candidates_up_to(
                            old(self).config,
                            old(self).stage->Summaries_spot,
                            named_options(listed@),
                            listed@,
                            old(self).now,
                            listed@.len() as int,
                        ),
                        candidates,
                        rough_rate::<N>(),
                    )
                    &&& final(self)@ == #[trigger] after_summaries(
                        old(self)@,
                        old(self).config,
                        old(self).stage->Summaries_spot,
                        listed@.len() as usize,
                        candidates,
                        old(self).now,
                    )
                },
    {
        let ghost before = *self;
        let mut stage: Stage<N> = Stage::Spot;
        std::mem::swap(&mut stage, &mut self.stage);
        let spot: SpotBook<N> = match stage {
            Stage::Summaries { spot } => spot,
            _ => {
                return;
            },
        };
        match reply {
            Err(error) => {
                let mut text = underlying(self.market).0.to_owned();
                text.append(" Deribit summaries: ");
                text.append(error.as_str());
                let shown: MarketView<N> = market_view(&spot, 0, 0);
                self.markets.push(shown);
                proof {
                    assert(market_views(self.markets@) =~= market_views(before.markets@).push(shown@));
                }
                self.give_up(text);
            },
            Ok(listed) => {
                let candidates: Vec<Candidate<N>> = find_rough_candidates(&self.config, &spot, &listed, self.now);
                let ghost mid = self@;
                let ghost found = candidate_views(candidates@);
                self.choose_candidates(spot, listed.len(), candidates);
                proof {
                    assert(after_summaries(mid, before.config, spot, listed@.len() as usize, found, before.now)
                        =~= after_summaries(
                        before@,
                        before.config,
                        spot,
                        listed@.len() as usize,
                        found,
                        before.now,
                    ));
                }
            },
        }
    }

    /// Chooses the first candidates to be verified, as many as the configuration
    /// allows. `listed` is how many options the list had.
    pub fn choose_candidates(&mut self, spot: SpotBook<N>, listed: usize, candidates: Vec<Candidate<N>>)
        requires
            old(self).wf(),
            !old(self).finished(),
            forall|i: int| 0 <= i < candidates@.len() ==> (#[trigger] candidates@[i]).expiry_utc.wf(),
        ensures
            final(self).wf(),
            final(self).config == old(self).config,
            final(self).now == old(self).now,
            final(self)@ == after_summaries(
                old(self)@,
                old(self).config,
                spot,
                listed,
                candidate_views(candidates@),
                old(self).now,
            ),
    {
        let ghost before = *self;
        let ghost found = candidate_views(candidates@);
        let mut selected: Vec<Candidate<N>> = candidates;
        let shown: MarketView<N> = market_view(&spot, listed, selected.len());
        self.markets.push(shown);
        if selected.len() > self.config.max_candidates {
            selected.truncate(self.config.max_candidates);
        }
        let wanted: Vec<String> = wanted_options(&selected);
        proof {
            assert(market_views(self.markets@) =~= market_views(before.markets@).push(shown@));
            assert(candidate_views(selected@) =~= top_of(found, before.config.max_candidates as int));
            distinct_names_every_option_once(option_names(candidate_views(selected@)));
        }
        let books: Vec<Option<OptionTopOfBook<N>>> = Vec::new();
        if wanted.len() == 0 {
            self.close_market(spot, selected, wanted, books);
        } else {
            self.stage = Stage::Books { spot, selected, wanted, books };
        }
    }

    /// Takes the reply on a live book.
    pub fn on_book(&mut self, reply: Result<OptionTopOfBook<N>, String>)
        requires
            old(self).wf(),
            old(self).stage is Books,
        ensures
            final(self).wf(),
            final(self).config == old(self).config,
            final(self).now == old(self).now,
            final(self)@ == after_book(old(self)@, old(self).config, reply, old(self).now),
    {
        let ghost before = *self;
        let mut stage: Stage<N> = Stage::Spot;
        std::mem::swap(&mut stage, &mut self.stage);
        match stage {
            Stage::Books { spot, selected, wanted, books } => {
                let mut books = books;
                let ghost asked = texts(wanted@)[books@.len() as int];
                match reply {
                    Ok(book) => {
                        books.push(Some(book));
                    },
                    Err(error) => {
                        let mut text = "Deribit order book ".to_owned();
                        text.append(wanted[books.len()].as_str());
                        text.append(": ");
                        text.append(error.as_str());
                        self.errors.push(text);
                        proof {
                            assert(texts(self.errors@) =~= texts(before.errors@).push(text@));
                            assert(text@ == "Deribit order book "@ + asked + ": "@ + error@);
                        }
                        books.push(None);
                    },
                }
                if books.len() == wanted.len() {
                    self.close_market(spot, selected, wanted, books);
                } else {
                    self.stage = Stage::Books { spot, selected, wanted, books };
                }
            },
            _ => {},
        }
    }

    /// The snapshot: the opportunities by falling return, and whether all data came.
    pub fn finish(self) -> (r: Snapshot<N>)
        requires
            self.wf(),
            self.finished(),
        ensures
            r.generated_at@ == self.now.text_spec(),
            r.status@ == (if self@.errors.len() == 0 {
                "ok"@
            } else {
                "partial"@
            }),
            r.config == self.config.shown(),
            market_views(r.markets@) == self@.markets,
            is_sorted(self@.opportunities, opportunity_views(r.opportunities@), annual_rate::<N>()),
            forall|i: int, j: int|
                0 <= i < j < r.opportunities@.len() ==> (#[trigger]
                r.opportunities@[j]).annualized_profit_rate.at_most_spec(
                    (#[trigger] r.opportunities@[i]).annualized_profit_rate,
                ),
            texts(r.errors@) == self@.errors,
            all_reach(opportunity_views(r.opportunities@), self.config.min_annualized),
    {
        proof {
            assert(texts(self.errors@).len() == self.errors@.len());
        }
        let mut opportunities: Vec<Opportunity<N>> = self.opportunities;
        sort_descending::<N, Opportunity<N>>(&mut opportunities);
        proof {
            lemma_sorted_views(
                self.opportunities@,
                opportunities@,
                rank_number::<N, Opportunity<N>>(),
                |o: Opportunity<N>| o@,
                annual_rate::<N>(),
            );
            let after = opportunity_views(opportunities@);
            assert forall|i: int| 0 <= i < after.len() implies self.config.min_annualized.at_most_spec(
                (#[trigger] after[i]).annualized_profit_rate,
            ) by {
                sorted_keeps_items(self@.opportunities, after, annual_rate::<N>(), i);
            }
            let number = annual_rate::<N>();
            let before = self@.opportunities;
            assert forall|k: int| 0 <= k < before.len() implies number(#[trigger] before[k]).at_most_spec(
                number(before[k]),
            ) by {
                N::at_most_is_ordered(self.config.min_annualized, before[k].annualized_profit_rate);
            }
            assert forall|i: int, j: int| 0 <= i < j < opportunities@.len() implies (#[trigger]
            opportunities@[j]).annualized_profit_rate.at_most_spec(
                (#[trigger] opportunities@[i]).annualized_profit_rate,
            ) by {
                sorted_is_falling(before, after, number, i, j);
                assert(after[i] == opportunities@[i]@ && after[j] == opportunities@[j]@);
            }
        }
        let status: &str = if self.errors.len() == 0 {
            "ok"
        } else {
            "partial"
        };
        Snapshot {
            generated_at: self.now.to_rfc3339(),
            status: status.to_owned(),
            config: self.config.view(),
            markets: self.markets,
            opportunities,
            errors: self.errors,
        }
    }
}

/// What candidates come to has at least the threshold as its return.
pub proof fn verified_reaches_threshold<N: Scalar>(
    config: Config<N>,
    spot: SpotBook<N>,
    selected: Seq<CandidateView<N>>,
    wanted: Seq<Seq<char>>,
    books: Seq<Option<OptionTopOfBook<N>>>,
    now: UtcTime,
)
    ensures
        all_reach(verified(config, spot, selected, wanted, books, now), config.min_annualized),
    decreases selected.len(),
{
    if selected.len() > 0 {
        verified_reaches_threshold(config, spot, selected.drop_last(), wanted, books, now);
        let a = verified(config, spot, selected.drop_last(), wanted, books, now);
        let b = verified_one(config, spot, selected.last(), wanted, books, now);
        assert forall|i: int| 0 <= i < (a + b).len() implies config.min_annualized.at_most_spec(
            (#[trigger] (a + b)[i]).annualized_profit_rate,
        ) by {
            if i < a.len() {
                assert((a + b)[i] == a[i]);
            } else {
                assert((a + b)[i] == b[i - a.len()]);
            }
        }
    }
}

// ---------------------------------------------------------------------------
// After a snapshot
// ---------------------------------------------------------------------------
/// Takes in what became of appending the records of a snapshot to the history:
/// the records are held with those before them, or the snapshot is partial.
pub fn after_append<N: Scalar>(
    snapshot: &mut Snapshot<N>,
    store: &HistoryStore,
    history: &mut Vec<OpportunityRecord<N>>,
    outcome: Result<Vec<OpportunityRecord<N>>, String>,
)
    ensures
        final(snapshot).generated_at == old(snapshot).generated_at,
        final(snapshot).config == old(snapshot).config,
        final(snapshot).markets == old(snapshot).markets,
        final(snapshot).opportunities == old(snapshot).opportunities,
        outcome matches Ok(records) ==> final(history)@ == newest(
            old(history)@ + records@,
            store.max_records as int,
        ) && *final(snapshot) == *old(snapshot),
        outcome matches Err(error) ==> final(history)@ == old(history)@ && final(snapshot).status@ == "partial"@
            && texts(final(snapshot).errors@) == texts(old(snapshot).errors@).push(
            "history append failed: "@ + error@,
        ),
{
    match outcome {
        Ok(records) => {
            store.keep_records(history, records);
        },
        Err(error) => {
            snapshot.status = "partial".to_owned();
            let mut text = "history append failed: ".to_owned();
            text.append(error.as_str());
            snapshot.errors.push(text);
            proof {
                assert(texts(snapshot.errors@) =~= texts(old(snapshot).errors@).push(text@));
            }
        },
    }
}

// ---------------------------------------------------------------------------
// Laws
// ---------------------------------------------------------------------------
/// How far a stage is: before the spot book, before the list, among the books.
pub open spec fn stage_rank<N>(stage: StageView<N>) -> int {
    match stage {
        StageView::Spot => 0,
        StageView::Summaries { spot } => 1,
        StageView::Books { spot, selected, wanted, books } => 2 + books.len() as int,
    }
}

/// One state of a collector is further than another.
pub open spec fn is_further<N>(a: CollectView<N>, b: CollectView<N>) -> bool {
    a.market < b.market || (a.market == b.market && stage_rank(a.stage) < stage_rank(b.stage))
}

/// Every reply takes a collector further, so that it finishes after finitely many.
pub proof fn replies_make_progress<N: Scalar>(
    v: CollectView<N>,
    config: Config<N>,
    spot_reply: Result<SpotBook<N>, String>,
    listed: usize,
    candidates: Seq<CandidateView<N>>,
    error: Seq<char>,
    book_reply: Result<OptionTopOfBook<N>, String>,
    now: UtcTime,
)
    ensures
        v.stage is Spot ==> is_further(v, after_spot(v, spot_reply)),
        v.stage matches StageView::Summaries { spot } ==> is_further(
            v,
            after_summaries(v, config, spot, listed, candidates, now),
        ) && is_further(v, after_no_summaries(v, spot, error)),
        v.stage is Books ==> is_further(v, after_book(v, config, book_reply, now)),
{
}

/// No more candidates are verified than the configuration allows, and no book
/// is asked for that no candidate needs.
pub proof fn verification_is_bounded<N: Scalar>(
    v: CollectView<N>,
    config: Config<N>,
    spot: SpotBook<N>,
    listed: usize,
    candidates: Seq<CandidateView<N>>,
    now: UtcTime,
)
    ensures
        after_summaries(v, config, spot, listed, candidates, now).stage matches StageView::Books {
            spot: s,
            selected,
            wanted,
            books,
        } ==> selected.len() <= config.max_candidates && wanted.no_duplicates() && (forall|name: Seq<char>| #[trigger]
            wanted.contains(name) <==> option_names(selected).contains(name)),
{
    let selected = top_of(candidates, config.max_candidates as int);
    distinct_names_every_option_once(option_names(selected));
}

} // verus!
