//! Laws of collecting a snapshot: nothing that was found is lost, every failure
//! is noted, and what is verified is what was asked for.
use crate::arb::{opportunity_spec, CandidateView};
use crate::models::{underlying_spec, Config, OpportunityView, OptionTopOfBook, SpotBook, UNDERLYING_COUNT};
use crate::monitor::{
    after_book, after_no_summaries, after_spot, after_summaries, annual_rate, distinct, distinct_names_every_option_once,
    option_names, request_spec, verified, verified_one, CollectView, RequestView, StageView,
};
use crate::rank::{is_sorted, sorted_loses_no_item};
use crate::scalar::Scalar;
use crate::scanner::top_of;
use crate::time::UtcTime;
use vstd::prelude::*;
use vstd::string::*;

verus! {

/// One sequence begins with another.
pub open spec fn begins_with<T>(longer: Seq<T>, shorter: Seq<T>) -> bool {
    shorter.len() <= longer.len() && forall|i: int| 0 <= i < shorter.len() ==> #[trigger] longer[i] == shorter[i]
}

/// A collector takes a reply: on the spot book, on the list of options with the
/// candidates in it, or on a live book.
pub open spec fn is_reply<N: Scalar>(v: CollectView<N>, w: CollectView<N>, config: Config<N>, now: UtcTime) -> bool {
    match v.stage {
        StageView::Spot => exists|reply: Result<SpotBook<N>, String>| w == #[trigger] after_spot(v, reply),
        StageView::Summaries { spot } => {
            ||| exists|error: Seq<char>| w == #[trigger] after_no_summaries(v, spot, error)
            ||| exists|listed: usize, candidates: Seq<CandidateView<N>>|
                w == #[trigger] after_summaries(v, config, spot, listed, candidates, now)
        },
        StageView::Books { spot, selected, wanted, books } => exists|reply: Result<OptionTopOfBook<N>, String>|
            w == #[trigger] after_book(v, config, reply, now),
    }
}

/// No reply loses an opportunity, a market or an error: those before are the
/// beginning of those after.
pub proof fn replies_lose_nothing<N: Scalar>(v: CollectView<N>, w: CollectView<N>, config: Config<N>, now: UtcTime)
    requires
        is_reply(v, w, config, now),
    ensures
        begins_with(w.opportunities, v.opportunities),
        begins_with(w.markets, v.markets),
        begins_with(w.errors, v.errors),
{
}

/// Whatever was found is still there after any number of further replies, and
/// is in the snapshot that is made in the end; and nothing else is.
pub proof fn snapshot_shows_every_opportunity<N: Scalar>(
    states: Seq<CollectView<N>>,
    config: Config<N>,
    now: UtcTime,
    shown: Seq<OpportunityView<N>>,
    i: int,
    k: int,
)
    requires
        states.len() > 0,
        forall|n: int| 0 < n < states.len() ==> is_reply(states[n - 1], #[trigger] states[n], config, now),
        is_sorted(states.last().opportunities, shown, annual_rate::<N>()),
        0 <= i < states.len(),
        0 <= k < states[i].opportunities.len(),
    ensures
        shown.contains(states[i].opportunities[k]),
        shown.len() == states.last().opportunities.len(),
{
    let n = states.len() - 1;
    lemma_kept(states, config, now, i, n);
    sorted_loses_no_item(states.last().opportunities, shown, annual_rate::<N>(), k);
    let order = choose|order: Seq<int>| #[trigger]
        crate::rank::is_rearranged(states.last().opportunities, shown, order);
    assert(states[n].opportunities[k] == states[i].opportunities[k]);
}

proof fn lemma_kept<N: Scalar>(states: Seq<CollectView<N>>, config: Config<N>, now: UtcTime, i: int, k: int)
    requires
        forall|n: int| 0 < n < states.len() ==> is_reply(states[n - 1], #[trigger] states[n], config, now),
        0 <= i <= k < states.len(),
    ensures
        begins_with(states[k].opportunities, states[i].opportunities),
    decreases k - i,
{
    if i < k {
        lemma_kept(states, config, now, i, k - 1);
        assert(is_reply(states[k - 1], states[k], config, now));
        replies_lose_nothing(states[k - 1], states[k], config, now);
    }
}

/// A reply that is an error is noted, by one error more that ends with what the
/// exchange said; a reply that is none is not.
pub proof fn failures_are_noted<N: Scalar>(
    v: CollectView<N>,
    config: Config<N>,
    spot: SpotBook<N>,
    spot_reply: Result<SpotBook<N>, String>,
    listed: usize,
    candidates: Seq<CandidateView<N>>,
    error: Seq<char>,
    book_reply: Result<OptionTopOfBook<N>, String>,
    now: UtcTime,
)
    ensures
        spot_reply is Ok ==> after_spot(v, spot_reply).errors == v.errors,
        spot_reply matches Err(e) ==> is_noted(after_spot(v, spot_reply).errors, v.errors, e@),
        is_noted(after_no_summaries(v, spot, error).errors, v.errors, error),
        after_summaries(v, config, spot, listed, candidates, now).errors == v.errors,
        v.stage is Books && book_reply is Ok ==> after_book(v, config, book_reply, now).errors == v.errors,
        v.stage is Books ==> (book_reply matches Err(e) ==> is_noted(
            after_book(v, config, book_reply, now).errors,
            v.errors,
            e@,
        )),
{
    if let Err(e) = spot_reply {
        let (name, symbol) = underlying_spec(v.market);
        lemma_noted(v.errors, name + " Binance "@ + symbol + ": "@, e@);
    }
    lemma_noted(v.errors, underlying_spec(v.market).0 + " Deribit summaries: "@, error);
    if let StageView::Books { spot, selected, wanted, books } = v.stage {
        if let Err(e) = book_reply {
            lemma_noted(v.errors, "Deribit order book "@ + wanted[books.len() as int] + ": "@, e@);
        }
    }
}

/// One error more, which ends with what was said.
pub open spec fn is_noted(after: Seq<Seq<char>>, before: Seq<Seq<char>>, error: Seq<char>) -> bool {
    &&& after.len() == before.len() + 1
    &&& begins_with(after, before)
    &&& after.last().len() >= error.len()
    &&& after.last().skip(after.last().len() - error.len()) == error
}

proof fn lemma_noted(before: Seq<Seq<char>>, lead: Seq<char>, error: Seq<char>)
    ensures
        is_noted(before.push(lead + error), before, error),
{
    let after = before.push(lead + error);
    assert(after.last().skip(lead.len() as int) =~= error);
}

/// A market is shown once its list of options came or failed, with its spot book,
/// how many options were listed and how many candidates were found among them. No
/// other reply shows one.
pub proof fn markets_are_shown_once<N: Scalar>(
    v: CollectView<N>,
    config: Config<N>,
    spot: SpotBook<N>,
    spot_reply: Result<SpotBook<N>, String>,
    listed: usize,
    candidates: Seq<CandidateView<N>>,
    error: Seq<char>,
    book_reply: Result<OptionTopOfBook<N>, String>,
    now: UtcTime,
)
    requires
        candidates.len() <= usize::MAX,
    ensures
        after_spot(v, spot_reply).markets == v.markets,
        v.stage is Books ==> after_book(v, config, book_reply, now).markets == v.markets,
        is_shown(after_no_summaries(v, spot, error), v, spot, 0, 0),
        is_shown(
            after_summaries(v, config, spot, listed, candidates, now),
            v,
            spot,
            listed as int,
            candidates.len() as int,
        ),
{
}

/// One market more, with what is known of it.
pub open spec fn is_shown<N>(
    after: CollectView<N>,
    before: CollectView<N>,
    spot: SpotBook<N>,
    listed: int,
    candidates: int,
) -> bool {
    let m = after.markets.last();
    &&& after.markets.len() == before.markets.len() + 1
    &&& begins_with(after.markets, before.markets)
    &&& m.underlying == spot.underlying@ && m.spot_symbol == spot.symbol@
    &&& m.spot_bid == spot.bid_price && m.spot_ask == spot.ask_price
    &&& m.spot_bid_qty == spot.bid_qty && m.spot_ask_qty == spot.ask_qty
    &&& m.option_summaries == listed && m.rough_candidates == candidates
}

/// The candidates to verify are the first of those found, as many as the
/// configuration allows, and the books that are asked for are those of their
/// calls and puts, each once. Where there is nothing to ask for, the next market
/// follows at once and no opportunity is added.
pub proof fn best_candidates_are_verified<N: Scalar>(
    v: CollectView<N>,
    config: Config<N>,
    spot: SpotBook<N>,
    listed: usize,
    candidates: Seq<CandidateView<N>>,
    now: UtcTime,
)
    ensures
        ({
            let w = after_summaries(v, config, spot, listed, candidates, now);
            let some = candidates.len() > 0 && config.max_candidates > 0;
            &&& !some ==> w.market == v.market + 1 && w.stage is Spot && w.opportunities == v.opportunities
            &&& some ==> w.market == v.market && w.opportunities == v.opportunities && (w.stage matches StageView::Books {
                spot: s,
                selected,
                wanted,
                books,
            } && {
                &&& s == spot
                &&& begins_with(candidates, selected)
                &&& selected.len() == candidates.len() || selected.len() == config.max_candidates
                &&& selected.len() <= config.max_candidates
                &&& books.len() == 0
                &&& wanted.no_duplicates()
                &&& forall|name: Seq<char>| #[trigger] wanted.contains(name) <==> is_option_of(selected, name)
            })
        }),
{
    let selected = top_of(candidates, config.max_candidates as int);
    let names = option_names(selected);
    let wanted = distinct(names);
    distinct_names_every_option_once(names);
    assert forall|name: Seq<char>| #[trigger] wanted.contains(name) <==> is_option_of(selected, name) by {
        lemma_names_are_options(selected, name);
    }
    if selected.len() > 0 {
        assert(is_option_of(selected, selected[0].call.instrument_name@));
        assert(wanted.contains(selected[0].call.instrument_name@));
    } else {
        assert(names.len() == 0);
        assert(wanted.len() == 0);
        assert(v.opportunities + verified(config, spot, selected, wanted, Seq::empty(), now) =~= v.opportunities);
    }
}

/// A name is that of the call or of the put of one of some candidates.
pub open spec fn is_option_of<N>(selected: Seq<CandidateView<N>>, name: Seq<char>) -> bool {
    exists|i: int|
        0 <= i < selected.len() && ((#[trigger] selected[i]).call.instrument_name@ == name
            || selected[i].put.instrument_name@ == name)
}

proof fn lemma_option_names<N>(selected: Seq<CandidateView<N>>, i: int)
    requires
        0 <= i < selected.len(),
    ensures
        option_names(selected).len() == 2 * selected.len(),
        option_names(selected)[2 * i] == selected[i].call.instrument_name@,
        option_names(selected)[2 * i + 1] == selected[i].put.instrument_name@,
    decreases selected.len(),
{
    let rest = selected.drop_last();
    let before = option_names(rest);
    let all = option_names(selected);
    if rest.len() > 0 {
        lemma_option_names(rest, if i < rest.len() { i } else { 0 });
    }
    if i < rest.len() {
        assert(rest[i] == selected[i]);
        assert(all[2 * i] == before[2 * i]);
        assert(all[2 * i + 1] == before[2 * i + 1]);
    }
}

proof fn lemma_names_are_options<N>(selected: Seq<CandidateView<N>>, name: Seq<char>)
    ensures
        option_names(selected).contains(name) <==> is_option_of(selected, name),
{
    let names = option_names(selected);
    if selected.len() > 0 {
        lemma_option_names(selected, 0);
    }
    if names.contains(name) {
        let x = choose|x: int| 0 <= x < names.len() && names[x] == name;
        let i = x / 2;
        lemma_option_names(selected, i);
        assert(x == 2 * i || x == 2 * i + 1);
    }
    if is_option_of(selected, name) {
        let i = choose|i: int|
            0 <= i < selected.len() && ((#[trigger] selected[i]).call.instrument_name@ == name
                || selected[i].put.instrument_name@ == name);
        lemma_option_names(selected, i);
    }
}

/// The book that was asked for under a name came.
pub open spec fn came_for<N>(
    wanted: Seq<Seq<char>>,
    books: Seq<Option<OptionTopOfBook<N>>>,
    name: Seq<char>,
    book: OptionTopOfBook<N>,
) -> bool {
    exists|i: int| 0 <= i < wanted.len() && i < books.len() && wanted[i] == name && #[trigger] books[i] == Some(book)
}

/// The replies so far and one more.
pub open spec fn with_reply<N>(
    books: Seq<Option<OptionTopOfBook<N>>>,
    reply: Result<OptionTopOfBook<N>, String>,
) -> Seq<Option<OptionTopOfBook<N>>> {
    books.push(reply.ok())
}

/// Where the last book that was asked for came or failed, every candidate whose
/// two books came and give an opportunity adds it; and whatever is added comes
/// from such a candidate. Then the next market follows. Before that nothing is
/// added, and the reply is kept with those before it.
pub proof fn candidates_are_verified_with_their_books<N: Scalar>(
    v: CollectView<N>,
    config: Config<N>,
    reply: Result<OptionTopOfBook<N>, String>,
    now: UtcTime,
    spot: SpotBook<N>,
    selected: Seq<CandidateView<N>>,
    wanted: Seq<Seq<char>>,
    books: Seq<Option<OptionTopOfBook<N>>>,
)
    requires
        v.stage == (StageView::Books { spot, selected, wanted, books }),
        wanted.no_duplicates(),
        books.len() < wanted.len(),
    ensures
        ({
            let w = after_book(v, config, reply, now);
            let all = with_reply(books, reply);
            &&& books.len() + 1 < wanted.len() ==> w.market == v.market && w.opportunities == v.opportunities && w.stage
                == (StageView::Books { spot, selected, wanted, books: all })
            &&& books.len() + 1 == wanted.len() ==> {
                &&& w.market == v.market + 1
                &&& w.stage is Spot
                &&& forall|i: int, call: OptionTopOfBook<N>, put: OptionTopOfBook<N>, o: OpportunityView<N>|
                    0 <= i < selected.len() && #[trigger] came_for(
                        wanted,
                        all,
                        selected[i].call.instrument_name@,
                        call,
                    ) && #[trigger] came_for(wanted, all, selected[i].put.instrument_name@, put)
                        && #[trigger] gives(config, selected[i], spot, call, put, now, o) ==> w.opportunities.contains(
                        o,
                    )
                &&& forall|k: int|
                    v.opportunities.len() <= k < w.opportunities.len() ==> comes_from_some(
                        #[trigger] w.opportunities[k],
                        config,
                        spot,
                        selected,
                        wanted,
                        all,
                        now,
                    )
            }
        }),
{
    let all = with_reply(books, reply);
    if books.len() + 1 == wanted.len() {
        let w = after_book(v, config, reply, now);
        let more = verified(config, spot, selected, wanted, all, now);
        assert(w.opportunities == v.opportunities + more);
        lemma_verified(config, spot, selected, wanted, all, now);
        assert forall|i: int, call: OptionTopOfBook<N>, put: OptionTopOfBook<N>, o: OpportunityView<N>|
            0 <= i < selected.len() && #[trigger] came_for(wanted, all, selected[i].call.instrument_name@, call)
                && #[trigger] came_for(wanted, all, selected[i].put.instrument_name@, put) && #[trigger] gives(
                config,
                selected[i],
                spot,
                call,
                put,
                now,
                o,
            ) implies w.opportunities.contains(o) by {
            lemma_verified_has(config, spot, selected, wanted, all, now, i, call, put, o);
            let x = choose|x: int| 0 <= x < more.len() && more[x] == o;
            assert(w.opportunities[v.opportunities.len() + x] == o);
        }
        assert forall|k: int| v.opportunities.len() <= k < w.opportunities.len() implies comes_from_some(
            #[trigger] w.opportunities[k],
            config,
            spot,
            selected,
            wanted,
            all,
            now,
        ) by {
            assert(w.opportunities[k] == more[k - v.opportunities.len()]);
        }
    }
}

/// A candidate gives an opportunity at live books.
pub open spec fn gives<N: Scalar>(
    config: Config<N>,
    candidate: CandidateView<N>,
    spot: SpotBook<N>,
    call: OptionTopOfBook<N>,
    put: OptionTopOfBook<N>,
    now: UtcTime,
    o: OpportunityView<N>,
) -> bool {
    opportunity_spec(config, candidate, spot, call, put, now, candidate.expiry_utc.text_spec()) == Some(o)
}

/// An opportunity comes from a candidate, with the books that were asked for
/// under the names of its options.
pub open spec fn comes_from<N: Scalar>(
    o: OpportunityView<N>,
    config: Config<N>,
    spot: SpotBook<N>,
    candidate: CandidateView<N>,
    wanted: Seq<Seq<char>>,
    books: Seq<Option<OptionTopOfBook<N>>>,
    now: UtcTime,
) -> bool {
    exists|call: OptionTopOfBook<N>, put: OptionTopOfBook<N>| #[trigger]
        came_for(wanted, books, candidate.call.instrument_name@, call) && #[trigger] came_for(
            wanted,
            books,
            candidate.put.instrument_name@,
            put,
        ) && gives(config, candidate, spot, call, put, now, o)
}

/// An opportunity comes from one of some candidates.
pub open spec fn comes_from_some<N: Scalar>(
    o: OpportunityView<N>,
    config: Config<N>,
    spot: SpotBook<N>,
    selected: Seq<CandidateView<N>>,
    wanted: Seq<Seq<char>>,
    books: Seq<Option<OptionTopOfBook<N>>>,
    now: UtcTime,
) -> bool {
    exists|i: int|
        0 <= i < selected.len() && comes_from(o, config, spot, #[trigger] selected[i], wanted, books, now)
}

proof fn lemma_verified<N: Scalar>(
    config: Config<N>,
    spot: SpotBook<N>,
    selected: Seq<CandidateView<N>>,
    wanted: Seq<Seq<char>>,
    books: Seq<Option<OptionTopOfBook<N>>>,
    now: UtcTime,
)
    requires
        wanted.len() == books.len(),
    ensures
        forall|k: int|
            0 <= k < verified(config, spot, selected, wanted, books, now).len() ==> comes_from_some(
                #[trigger] verified(config, spot, selected, wanted, books, now)[k],
                config,
                spot,
                selected,
                wanted,
                books,
                now,
            ),
    decreases selected.len(),
{
    if selected.len() > 0 {
        let rest = selected.drop_last();
        let last = selected.last();
        lemma_verified(config, spot, rest, wanted, books, now);
        let a = verified(config, spot, rest, wanted, books, now);
        let b = verified_one(config, spot, last, wanted, books, now);
        assert forall|k: int| 0 <= k < (a + b).len() implies comes_from_some(
            #[trigger] (a + b)[k],
            config,
            spot,
            selected,
            wanted,
            books,
            now,
        ) by {
            if k < a.len() {
                assert((a + b)[k] == a[k]);
                let i = choose|i: int|
                    0 <= i < rest.len() && comes_from(a[k], config, spot, #[trigger] rest[i], wanted, books, now);
                assert(selected[i] == rest[i]);
            } else {
                assert((a + b)[k] == b[0]);
                let x = wanted.index_of(last.call.instrument_name@);
                let y = wanted.index_of(last.put.instrument_name@);
                assert(wanted.contains(last.call.instrument_name@));
                assert(wanted.contains(last.put.instrument_name@));
                assert(0 <= x < wanted.len() && wanted[x] == last.call.instrument_name@);
                assert(0 <= y < wanted.len() && wanted[y] == last.put.instrument_name@);
                assert(came_for(wanted, books, last.call.instrument_name@, books[x]->0));
                assert(came_for(wanted, books, last.put.instrument_name@, books[y]->0));
                assert(comes_from(b[0], config, spot, last, wanted, books, now));
                assert(selected[selected.len() - 1] == last);
            }
        }
    }
}

proof fn lemma_verified_has<N: Scalar>(
    config: Config<N>,
    spot: SpotBook<N>,
    selected: Seq<CandidateView<N>>,
    wanted: Seq<Seq<char>>,
    books: Seq<Option<OptionTopOfBook<N>>>,
    now: UtcTime,
    i: int,
    call: OptionTopOfBook<N>,
    put: OptionTopOfBook<N>,
    o: OpportunityView<N>,
)
    requires
        wanted.no_duplicates(),
        0 <= i < selected.len(),
        came_for(wanted, books, selected[i].call.instrument_name@, call),
        came_for(wanted, books, selected[i].put.instrument_name@, put),
        gives(config, selected[i], spot, call, put, now, o),
    ensures
        verified(config, spot, selected, wanted, books, now).contains(o),
    decreases selected.len(),
{
    let rest = selected.drop_last();
    let a = verified(config, spot, rest, wanted, books, now);
    let b = verified_one(config, spot, selected.last(), wanted, books, now);
    if i < rest.len() {
        assert(rest[i] == selected[i]);
        lemma_verified_has(config, spot, rest, wanted, books, now, i, call, put, o);
        let x = choose|x: int| 0 <= x < a.len() && a[x] == o;
        assert((a + b)[x] == o);
    } else {
        lemma_book(wanted, books, selected[i].call.instrument_name@, call);
        lemma_book(wanted, books, selected[i].put.instrument_name@, put);
        assert(b == seq![o]);
        assert((a + b)[a.len() as int] == o);
    }
}

proof fn lemma_book<N>(
    wanted: Seq<Seq<char>>,
    books: Seq<Option<OptionTopOfBook<N>>>,
    name: Seq<char>,
    book: OptionTopOfBook<N>,
)
    requires
        wanted.no_duplicates(),
        came_for(wanted, books, name, book),
    ensures
        crate::monitor::book_for(wanted, books, name) == Some(book),
{
    let i = choose|i: int|
        0 <= i < wanted.len() && i < books.len() && wanted[i] == name && #[trigger] books[i] == Some(book);
    assert(wanted.contains(name));
    let x = wanted.index_of(name);
    assert(0 <= x < wanted.len() && wanted[x] == name);
}

/// A failed spot book or list gives the market up: the next one follows, and the
/// opportunities stay as they are. What is asked for next is always something
/// that has not come yet: the spot book of the market, its list, or the first
/// book that is missing; and nothing once all markets are done.
pub proof fn requests_follow_the_stages<N: Scalar>(
    v: CollectView<N>,
    spot: SpotBook<N>,
    spot_reply: Result<SpotBook<N>, String>,
    error: Seq<char>,
)
    ensures
        v.market >= UNDERLYING_COUNT <==> request_spec(v) is Finished,
        v.market < UNDERLYING_COUNT ==> (request_spec(v) is Spot <==> v.stage is Spot),
        v.market < UNDERLYING_COUNT ==> (request_spec(v) is Summaries <==> v.stage is Summaries),
        v.market < UNDERLYING_COUNT ==> (v.stage matches StageView::Books { spot, selected, wanted, books }
            ==> request_spec(v) == (RequestView::Book { instrument: wanted[books.len() as int] })),
        spot_reply matches Ok(s) ==> after_spot(v, spot_reply).market == v.market && after_spot(v, spot_reply).stage
            == (StageView::Summaries { spot: s }),
        spot_reply is Err ==> after_spot(v, spot_reply).market == v.market + 1 && after_spot(
            v,
            spot_reply,
        ).stage is Spot,
        after_no_summaries(v, spot, error).market == v.market + 1,
        after_no_summaries(v, spot, error).stage is Spot,
        after_spot(v, spot_reply).opportunities == v.opportunities,
        after_no_summaries(v, spot, error).opportunities == v.opportunities,
{
}

} // verus!
