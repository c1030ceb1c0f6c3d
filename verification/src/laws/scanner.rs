//! Laws of a round of the scanner: every open position meets its fate, every
//! place that is free and pays is taken, and nothing else happens.
use crate::laws::monitor::begins_with;
use crate::model::{book_at, BookTop, ExpiryEntry, Position, PositionView, StrikePair, Universe};
use crate::rank::{is_rearranged, is_sorted, rank_number, sorted_is_falling, sorted_loses_no_item};
use crate::scalar::Scalar;
use crate::scan::{fate_spec, is_kind, opening_spec, pos_key_spec, Fate, PlaceView};
use crate::scanner::{
    at, commit_all, every_opening_is_recorded, fate_keeps_opening, is_top, manage_all, manage_one,
    open_expiries, open_one, open_pair, open_strikes, openings_are_in_order, openings_take_distinct_places,
    opens_in_order, place_of, placed, scan_round, top_of, RoundView, ScanState,
};
use vstd::prelude::*;
use vstd::string::*;

verus! {

// ---------------------------------------------------------------------------
// Books
// ---------------------------------------------------------------------------
/// Of an option that was quoted the quote counts; of one that was not, nothing
/// is on offer.
pub proof fn quotes_count_by_symbol<N: Scalar>(books: Map<Seq<char>, BookTop<N>>, symbol: Seq<char>)
    ensures
        books.contains_key(symbol) ==> book_at(books, symbol) == books[symbol],
        !books.contains_key(symbol) ==> {
            let b = book_at(books, symbol);
            let nothing = N::of_int_spec(0);
            b.bid == nothing && b.ask == nothing && b.bid_qty == nothing && b.ask_qty == nothing
        },
{
}

// ---------------------------------------------------------------------------
// The open positions
// ---------------------------------------------------------------------------
/// No other place holds a position of the same name.
pub open spec fn is_only_of_its_name<N: Scalar>(s: ScanState<N>, key: Seq<char>) -> bool {
    forall|other: Seq<char>| #[trigger]
        s.positions.contains_key(other) && other != key ==> s.positions[other].id != s.positions[key].id
}

proof fn lemma_other_places<N: Scalar>(
    s: ScanState<N>,
    keys: Seq<Seq<char>>,
    round: RoundView<N>,
    key: Seq<char>,
)
    requires
        s.positions.contains_key(key),
        is_only_of_its_name(s, key),
        !keys.contains(key),
    ensures
        ({
            let t = manage_all(s, keys, round);
            &&& t.positions.contains_key(key)
            &&& t.positions[key] == s.positions[key]
            &&& is_only_of_its_name(t, key)
            &&& at(t.last_emit, s.positions[key].id) == at(s.last_emit, s.positions[key].id)
            &&& at(t.last_open, key) == at(s.last_open, key)
        }),
    decreases keys.len(),
{
    if keys.len() > 0 {
        let rest = keys.drop_last();
        let last = keys.last();
        assert(keys[keys.len() - 1] == last);
        assert forall|i: int| 0 <= i < rest.len() implies rest[i] != key by {
            assert(keys[i] == rest[i]);
        }
        lemma_other_places(s, rest, round, key);
        let before = manage_all(s, rest, round);
        if before.positions.contains_key(last) {
            lemma_fate_keeps_id(before, last, round);
        }
    }
}

proof fn lemma_fate_keeps_id<N: Scalar>(s: ScanState<N>, key: Seq<char>, round: RoundView<N>)
    requires
        s.positions.contains_key(key),
    ensures
        ({
            let t = manage_one(s, key, round);
            t.positions.contains_key(key) ==> t.positions[key].id == s.positions[key].id
        }),
{
    let pos = s.positions[key];
    fate_keeps_opening(
        pos,
        book_at(round.books, pos.call_symbol),
        book_at(round.books, pos.put_symbol),
        round.spot,
        round.rules,
        round.now,
        at(s.last_emit, pos.id),
    );
}

/// What became of the position at a place after the open positions were looked
/// after.
pub open spec fn met_its_fate<N: Scalar>(
    s: ScanState<N>,
    t: ScanState<N>,
    key: Seq<char>,
    fate: Fate<PositionView<N>>,
    now: i64,
) -> bool {
    let pos = s.positions[key];
    match fate {
        Fate::Settle(p) => {
            &&& !t.positions.contains_key(key)
            &&& t.emitted.contains(p)
            &&& at(t.last_open, key) == Some(now)
            &&& !t.last_emit.contains_key(pos.id)
        },
        Fate::Close(p) => {
            &&& !t.positions.contains_key(key)
            &&& t.emitted.contains(p)
            &&& at(t.last_open, key) == Some(now)
            &&& !t.last_emit.contains_key(pos.id)
        },
        Fate::Mark(p) => {
            &&& at(t.positions, key) == Some(p)
            &&& t.emitted.contains(p)
            &&& at(t.last_emit, pos.id) == Some(now)
            &&& at(t.last_open, key) == at(s.last_open, key)
        },
        Fate::Hold => {
            &&& at(t.positions, key) == Some(pos)
            &&& at(t.last_emit, pos.id) == at(s.last_emit, pos.id)
            &&& at(t.last_open, key) == at(s.last_open, key)
        },
    }
}

/// Every open position meets the fate that the quotes of its own call and put
/// and of the spot give it: it is recorded where it ends or is marked, its place
/// is left where it ends, and it stays as it is where nothing happens.
pub proof fn every_position_meets_its_fate<N: Scalar>(
    s: ScanState<N>,
    keys: Seq<Seq<char>>,
    round: RoundView<N>,
    key: Seq<char>,
)
    requires
        keys.no_duplicates(),
        keys.contains(key),
        s.positions.contains_key(key),
        is_only_of_its_name(s, key),
    ensures
        ({
            let pos = s.positions[key];
            let fate = fate_spec(
                pos,
                book_at(round.books, pos.call_symbol),
                book_at(round.books, pos.put_symbol),
                round.spot,
                round.rules,
                round.now,
                at(s.last_emit, pos.id),
            );
            met_its_fate(s, manage_all(s, keys, round), key, fate, round.now)
        }),
    decreases keys.len(),
{
    let rest = keys.drop_last();
    let last = keys.last();
    let before = manage_all(s, rest, round);
    let after = manage_all(s, keys, round);
    let pos = s.positions[key];
    let fate = fate_spec(
        pos,
        book_at(round.books, pos.call_symbol),
        book_at(round.books, pos.put_symbol),
        round.spot,
        round.rules,
        round.now,
        at(s.last_emit, pos.id),
    );
    assert(keys[keys.len() - 1] == last);
    if last == key {
        assert forall|i: int| 0 <= i < rest.len() implies rest[i] != key by {
            assert(keys[i] == rest[i]);
        }
        lemma_other_places(s, rest, round, key);
        if fate !is Hold {
            assert(after.emitted[before.emitted.len() as int] == after.emitted.last());
        }
    } else {
        let k = choose|k: int| 0 <= k < keys.len() && keys[k] == key;
        assert(rest[k] == key);
        every_position_meets_its_fate(s, rest, round, key);
        lemma_names_stay(s, rest, round, key);
        if before.positions.contains_key(last) {
            assert(before.positions[last].id != pos.id);
        }
        match fate {
            Fate::Settle(p) => {
                lemma_still_recorded(before, after, p);
            },
            Fate::Close(p) => {
                lemma_still_recorded(before, after, p);
            },
            Fate::Mark(p) => {
                lemma_still_recorded(before, after, p);
            },
            Fate::Hold => {},
        }
    }
}

/// The names of the other positions stay as they are.
proof fn lemma_names_stay<N: Scalar>(s: ScanState<N>, keys: Seq<Seq<char>>, round: RoundView<N>, key: Seq<char>)
    requires
        s.positions.contains_key(key),
        is_only_of_its_name(s, key),
    ensures
        forall|other: Seq<char>| #[trigger]
            manage_all(s, keys, round).positions.contains_key(other) ==> s.positions.contains_key(other) && manage_all(
                s,
                keys,
                round,
            ).positions[other].id == s.positions[other].id,
        begins_with(manage_all(s, keys, round).emitted, s.emitted),
    decreases keys.len(),
{
    if keys.len() > 0 {
        let rest = keys.drop_last();
        lemma_names_stay(s, rest, round, key);
        let before = manage_all(s, rest, round);
        if before.positions.contains_key(keys.last()) {
            lemma_fate_keeps_id(before, keys.last(), round);
        }
    }
}

proof fn lemma_still_recorded<N: Scalar>(before: ScanState<N>, after: ScanState<N>, p: PositionView<N>)
    requires
        before.emitted.contains(p),
        begins_with(after.emitted, before.emitted),
    ensures
        after.emitted.contains(p),
{
    let i = choose|i: int| 0 <= i < before.emitted.len() && before.emitted[i] == p;
    assert(after.emitted[i] == p);
}

/// How many of some records are the end of a position.
pub open spec fn count_ends<N>(records: Seq<PositionView<N>>) -> nat
    decreases records.len(),
{
    if records.len() == 0 {
        0
    } else {
        count_ends(records.drop_last()) + if records.last().status == "closed"@ || records.last().status
            == "settled"@ {
            1nat
        } else {
            0nat
        }
    }
}

proof fn lemma_count_push<N>(records: Seq<PositionView<N>>, p: PositionView<N>)
    ensures
        count_ends(records.push(p)) == count_ends(records) + if p.status == "closed"@ || p.status == "settled"@ {
            1nat
        } else {
            0nat
        },
{
    assert(records.push(p).drop_last() =~= records);
}

/// Every open position is open.
pub open spec fn all_open<N: Scalar>(s: ScanState<N>) -> bool {
    forall|key: Seq<char>| #[trigger] s.positions.contains_key(key) ==> s.positions[key].status == "open"@
}

proof fn lemma_open_is_no_end()
    ensures
        "open"@ != "closed"@,
        "open"@ != "settled"@,
{
    reveal_strlit("open");
    reveal_strlit("closed");
    reveal_strlit("settled");
    assert("open"@.len() != "closed"@.len());
    assert("open"@.len() != "settled"@.len());
}

proof fn lemma_manage_counts<N: Scalar>(s: ScanState<N>, keys: Seq<Seq<char>>, round: RoundView<N>)
    requires
        all_open(s),
    ensures
        all_open(manage_all(s, keys, round)),
        manage_all(s, keys, round).closed - s.closed == count_ends(manage_all(s, keys, round).emitted) - count_ends(
            s.emitted,
        ),
    decreases keys.len(),
{
    lemma_open_is_no_end();
    if keys.len() > 0 {
        let rest = keys.drop_last();
        let key = keys.last();
        lemma_manage_counts(s, rest, round);
        let before = manage_all(s, rest, round);
        if before.positions.contains_key(key) {
            let pos = before.positions[key];
            let fate = fate_spec(
                pos,
                book_at(round.books, pos.call_symbol),
                book_at(round.books, pos.put_symbol),
                round.spot,
                round.rules,
                round.now,
                at(before.last_emit, pos.id),
            );
            match fate {
                Fate::Settle(p) => {
                    lemma_count_push(before.emitted, p);
                },
                Fate::Close(p) => {
                    lemma_count_push(before.emitted, p);
                },
                Fate::Mark(p) => {
                    lemma_count_push(before.emitted, p);
                },
                Fate::Hold => {},
            }
        }
    }
}

proof fn lemma_commit_counts<N: Scalar>(s: ScanState<N>, opens: Seq<PositionView<N>>, now: i64)
    requires
        forall|i: int| 0 <= i < opens.len() ==> (#[trigger] opens[i]).status == "open"@,
    ensures
        commit_all(s, opens, now).closed == s.closed,
        count_ends(commit_all(s, opens, now).emitted) == count_ends(s.emitted),
    decreases opens.len(),
{
    lemma_open_is_no_end();
    if opens.len() > 0 {
        let rest = opens.drop_last();
        assert forall|i: int| 0 <= i < rest.len() implies (#[trigger] rest[i]).status == "open"@ by {
            assert(rest[i] == opens[i]);
        }
        lemma_commit_counts(s, rest, now);
        assert(opens[opens.len() - 1].status == "open"@);
        lemma_count_push(commit_all(s, rest, now).emitted, opens.last());
    }
}

/// As many positions are counted as ended in a round as are recorded as closed
/// or settled in it.
pub proof fn ends_are_counted<N: Scalar>(
    s: ScanState<N>,
    keys: Seq<Seq<char>>,
    expiries: Seq<(String, ExpiryEntry<N>)>,
    round: RoundView<N>,
)
    requires
        all_open(s),
    ensures
        ({
            let t = scan_round(s, keys, expiries, round);
            t.closed - s.closed == count_ends(t.emitted) - count_ends(s.emitted)
        }),
{
    let managed = manage_all(s, keys, round);
    let opens = open_expiries(managed, expiries, round);
    lemma_manage_counts(s, keys, round);
    openings_are_in_order(managed, expiries, round);
    assert forall|i: int| 0 <= i < opens.len() implies (#[trigger] opens[i]).status == "open"@ by {
        assert(opens_in_order(opens[i], managed, round));
    }
    lemma_commit_counts(managed, opens, round.now);
}

// ---------------------------------------------------------------------------
// Openings
// ---------------------------------------------------------------------------
/// A strike that is listed with both its options, as a place to open at.
pub open spec fn listed_place<N: Scalar>(
    expiries: Seq<(String, ExpiryEntry<N>)>,
    e: int,
    k: int,
) -> Option<PlaceView<N>> {
    let expiry = expiries[e];
    let pair = expiry.1.strikes.entries@[k].1;
    if pair.call is Some && pair.put is Some {
        Some(
            PlaceView {
                expiry: expiry.0@,
                expiry_ms: expiry.1.expiry_ms,
                strike: pair.strike,
                call: pair.call->0@,
                put: pair.put->0@,
            },
        )
    } else {
        None
    }
}

/// A place at which nothing is open and nothing changed for the interval.
pub open spec fn has_rested<N: Scalar>(s: ScanState<N>, key: Seq<char>, round: RoundView<N>) -> bool {
    &&& !s.positions.contains_key(key)
    &&& s.last_open.contains_key(key) ==> round.now >= s.last_open[key] + round.rules.record_interval_ms
}

/// What opens at a place, by the quotes of its call and its put and of the spot.
pub open spec fn pays<N: Scalar>(place: PlaceView<N>, kind: Seq<char>, round: RoundView<N>, p: PositionView<N>) -> bool {
    opening_spec(
        place,
        kind,
        book_at(round.books, place.call),
        book_at(round.books, place.put),
        round.spot,
        round.rules,
        round.now,
    ) == Some(p)
}

proof fn lemma_strikes_open<N: Scalar>(
    s: ScanState<N>,
    expiry: Seq<char>,
    expiry_ms: i64,
    strikes: Seq<(i64, StrikePair<N>)>,
    round: RoundView<N>,
    kind: Seq<char>,
    k: int,
    p: PositionView<N>,
)
    requires
        is_kind(kind),
        0 <= k < strikes.len(),
        strikes[k].1.call is Some,
        strikes[k].1.put is Some,
        has_rested(s, pos_key_spec(kind, expiry, strikes[k].1.strike), round),
        ({
            let pair = strikes[k].1;
            pays(
                PlaceView { expiry, expiry_ms, strike: pair.strike, call: pair.call->0@, put: pair.put->0@ },
                kind,
                round,
                p,
            )
        }),
    ensures
        open_strikes(s, expiry, expiry_ms, strikes, round).contains(p),
    decreases strikes.len(),
{
    let rest = strikes.drop_last();
    let a = open_strikes(s, expiry, expiry_ms, rest, round);
    let pair = strikes.last().1;
    let b = open_pair(s, expiry, expiry_ms, pair, round);
    if k < rest.len() {
        assert(rest[k] == strikes[k]);
        lemma_strikes_open(s, expiry, expiry_ms, rest, round, kind, k, p);
        let i = choose|i: int| 0 <= i < a.len() && a[i] == p;
        assert((a + b)[i] == p);
    } else {
        let place = PlaceView { expiry, expiry_ms, strike: pair.strike, call: pair.call->0@, put: pair.put->0@ };
        let x = open_one(s, "reversal"@, place, round);
        let y = open_one(s, "conversion"@, place, round);
        assert(b == x + y);
        if kind == "reversal"@ {
            assert(x == seq![p]);
            assert((x + y)[0] == p);
            assert((a + b)[a.len() as int] == p);
        } else {
            assert(y == seq![p]);
            assert((x + y)[x.len() as int] == p);
            assert((a + b)[(a.len() + x.len()) as int] == p);
        }
    }
}

proof fn lemma_expiries_open<N: Scalar>(
    s: ScanState<N>,
    expiries: Seq<(String, ExpiryEntry<N>)>,
    round: RoundView<N>,
    kind: Seq<char>,
    e: int,
    k: int,
    p: PositionView<N>,
)
    requires
        is_kind(kind),
        0 <= e < expiries.len(),
        0 <= k < expiries[e].1.strikes.entries@.len(),
        listed_place(expiries, e, k) is Some,
        has_rested(s, pos_key_spec(kind, expiries[e].0@, expiries[e].1.strikes.entries@[k].1.strike), round),
        pays(listed_place(expiries, e, k)->0, kind, round, p),
    ensures
        open_expiries(s, expiries, round).contains(p),
    decreases expiries.len(),
{
    let rest = expiries.drop_last();
    let last = expiries.last();
    let a = open_expiries(s, rest, round);
    let b = open_strikes(s, last.0@, last.1.expiry_ms, last.1.strikes.entries@, round);
    if e < rest.len() {
        assert(rest[e] == expiries[e]);
        lemma_expiries_open(s, rest, round, kind, e, k, p);
        let i = choose|i: int| 0 <= i < a.len() && a[i] == p;
        assert((a + b)[i] == p);
    } else {
        lemma_strikes_open(s, last.0@, last.1.expiry_ms, last.1.strikes.entries@, round, kind, k, p);
        let i = choose|i: int| 0 <= i < b.len() && b[i] == p;
        assert((a + b)[a.len() + i] == p);
    }
}

proof fn lemma_empty_places_stay<N: Scalar>(
    s: ScanState<N>,
    keys: Seq<Seq<char>>,
    round: RoundView<N>,
    key: Seq<char>,
)
    requires
        !s.positions.contains_key(key),
    ensures
        !manage_all(s, keys, round).positions.contains_key(key),
        at(manage_all(s, keys, round).last_open, key) == at(s.last_open, key),
    decreases keys.len(),
{
    if keys.len() > 0 {
        lemma_empty_places_stay(s, keys.drop_last(), round, key);
    }
}

proof fn lemma_commit_puts<N: Scalar>(s: ScanState<N>, opens: Seq<PositionView<N>>, now: i64, i: int)
    requires
        0 <= i < opens.len(),
        forall|j: int| i < j < opens.len() ==> place_of(#[trigger] opens[j]) != place_of(opens[i]),
    ensures
        at(commit_all(s, opens, now).positions, place_of(opens[i])) == Some(opens[i]),
        at(commit_all(s, opens, now).last_open, place_of(opens[i])) == Some(now),
    decreases opens.len(),
{
    if i < opens.len() - 1 {
        let rest = opens.drop_last();
        assert(rest[i] == opens[i]);
        assert forall|j: int| i < j < rest.len() implies place_of(#[trigger] rest[j]) != place_of(rest[i]) by {
            assert(rest[j] == opens[j]);
        }
        lemma_commit_puts(s, rest, now, i);
        assert(place_of(opens[opens.len() - 1]) != place_of(opens[i]));
    }
}

/// At every listed strike with both its options, for each kind: where nothing is
/// open and nothing changed for the interval, the position that the quotes of
/// its own options and of the spot give is open after the round, and recorded.
pub proof fn free_places_that_pay_are_taken<N: Scalar>(
    s: ScanState<N>,
    keys: Seq<Seq<char>>,
    universe: Universe<N>,
    round: RoundView<N>,
    kind: Seq<char>,
    e: int,
    k: int,
    p: PositionView<N>,
)
    requires
        universe.wf(),
        is_kind(kind),
        0 <= e < universe.expiries.entries@.len(),
        0 <= k < universe.expiries.entries@[e].1.strikes.entries@.len(),
        listed_place(universe.expiries.entries@, e, k) is Some,
        pays(listed_place(universe.expiries.entries@, e, k)->0, kind, round, p),
        has_rested(s, pos_key_spec(kind, p.expiry, p.strike), round),
    ensures
        ({
            let t = scan_round(s, keys, universe.expiries.entries@, round);
            let key = pos_key_spec(kind, p.expiry, p.strike);
            &&& at(t.positions, key) == Some(p)
            &&& at(t.last_open, key) == Some(round.now)
            &&& t.emitted.contains(p)
        }),
{
    let expiries = universe.expiries.entries@;
    let managed = manage_all(s, keys, round);
    let opens = open_expiries(managed, expiries, round);
    let key = pos_key_spec(kind, p.expiry, p.strike);
    lemma_empty_places_stay(s, keys, round, key);
    lemma_expiries_open(managed, expiries, round, kind, e, k, p);
    let i = choose|i: int| 0 <= i < opens.len() && opens[i] == p;
    openings_take_distinct_places(managed, universe, round);
    assert forall|j: int| i < j < opens.len() implies place_of(#[trigger] opens[j]) != place_of(opens[i]) by {
        assert(place_of(opens[i]) != place_of(opens[j]));
    }
    lemma_commit_puts(managed, opens, round.now, i);
    every_opening_is_recorded(managed, opens, round.now);
    let t = scan_round(s, keys, expiries, round);
    assert(t.emitted[managed.emitted.len() + i] == p);
}

/// A position opens at a listed strike.
pub open spec fn opens_at<N: Scalar>(
    p: PositionView<N>,
    expiries: Seq<(String, ExpiryEntry<N>)>,
    round: RoundView<N>,
    e: int,
    k: int,
) -> bool {
    &&& 0 <= e < expiries.len()
    &&& 0 <= k < expiries[e].1.strikes.entries@.len()
    &&& listed_place(expiries, e, k) is Some
    &&& is_kind(p.kind)
    &&& pays(listed_place(expiries, e, k)->0, p.kind, round, p)
}

/// Every position that opens in a round opens at a listed strike with both its
/// options, as the quotes of these and of the spot have it.
pub proof fn openings_are_at_listed_strikes<N: Scalar>(
    s: ScanState<N>,
    expiries: Seq<(String, ExpiryEntry<N>)>,
    round: RoundView<N>,
    i: int,
)
    requires
        0 <= i < open_expiries(s, expiries, round).len(),
    ensures
        exists|e: int, k: int| #[trigger] opens_at(open_expiries(s, expiries, round)[i], expiries, round, e, k),
        has_rested(s, place_of(open_expiries(s, expiries, round)[i]), round),
    decreases expiries.len(),
{
    openings_are_in_order(s, expiries, round);
    let rest = expiries.drop_last();
    let last = expiries.last();
    let n = rest.len() as int;
    let a = open_expiries(s, rest, round);
    let b = open_strikes(s, last.0@, last.1.expiry_ms, last.1.strikes.entries@, round);
    assert(opens_in_order((a + b)[i], s, round));
    if i < a.len() {
        assert((a + b)[i] == a[i]);
        openings_are_at_listed_strikes(s, rest, round, i);
        let (e, k) = choose|e: int, k: int| #[trigger] opens_at(a[i], rest, round, e, k);
        assert(rest[e] == expiries[e]);
        assert(opens_at(a[i], expiries, round, e, k));
    } else {
        let j = i - a.len();
        assert((a + b)[i] == b[j]);
        let k = lemma_opens_at_strike(s, last.0@, last.1.expiry_ms, last.1.strikes.entries@, round, j);
        assert(expiries[n] == last);
        assert(opens_at(b[j], expiries, round, n, k));
    }
}

proof fn lemma_opens_at_strike<N: Scalar>(
    s: ScanState<N>,
    expiry: Seq<char>,
    expiry_ms: i64,
    strikes: Seq<(i64, StrikePair<N>)>,
    round: RoundView<N>,
    j: int,
) -> (k: int)
    requires
        0 <= j < open_strikes(s, expiry, expiry_ms, strikes, round).len(),
    ensures
        0 <= k < strikes.len(),
        strikes[k].1.call is Some,
        strikes[k].1.put is Some,
        ({
            let p = open_strikes(s, expiry, expiry_ms, strikes, round)[j];
            let pair = strikes[k].1;
            is_kind(p.kind) && pays(
                PlaceView { expiry, expiry_ms, strike: pair.strike, call: pair.call->0@, put: pair.put->0@ },
                p.kind,
                round,
                p,
            )
        }),
    decreases strikes.len(),
{
    let rest = strikes.drop_last();
    let a = open_strikes(s, expiry, expiry_ms, rest, round);
    let pair = strikes.last().1;
    let b = open_pair(s, expiry, expiry_ms, pair, round);
    if j < a.len() {
        assert((a + b)[j] == a[j]);
        let k = lemma_opens_at_strike(s, expiry, expiry_ms, rest, round, j);
        assert(rest[k] == strikes[k]);
        k
    } else {
        let m = j - a.len();
        assert((a + b)[j] == b[m]);
        let place = PlaceView { expiry, expiry_ms, strike: pair.strike, call: pair.call->0@, put: pair.put->0@ };
        let x = open_one(s, "reversal"@, place, round);
        let y = open_one(s, "conversion"@, place, round);
        assert(b == x + y);
        if m < x.len() {
            assert((x + y)[m] == x[0]);
        } else {
            assert((x + y)[m] == y[0]);
        }
        strikes.len() - 1
    }
}

// ---------------------------------------------------------------------------
// Restart and summary
// ---------------------------------------------------------------------------
/// A scanner that starts again holds every position that was open, under its
/// kind, expiry and strike; where several share these, the one that comes last.
/// It holds nothing else.
pub proof fn restored_positions_are_those_that_were_open<N: Scalar>(open: Seq<PositionView<N>>, i: int)
    requires
        0 <= i < open.len(),
        forall|j: int| i < j < open.len() ==> place_of(#[trigger] open[j]) != place_of(open[i]),
    ensures
        at(placed(open), pos_key_spec(open[i].kind, open[i].expiry, open[i].strike)) == Some(open[i]),
    decreases open.len(),
{
    if i < open.len() - 1 {
        let rest = open.drop_last();
        assert(rest[i] == open[i]);
        assert forall|j: int| i < j < rest.len() implies place_of(#[trigger] rest[j]) != place_of(rest[i]) by {
            assert(rest[j] == open[j]);
        }
        restored_positions_are_those_that_were_open(rest, i);
        assert(place_of(open[open.len() - 1]) != place_of(open[i]));
    }
}

/// Whatever a scanner holds when it starts again was open before.
pub proof fn nothing_else_is_restored<N: Scalar>(open: Seq<PositionView<N>>, key: Seq<char>)
    requires
        placed(open).contains_key(key),
    ensures
        open.contains(placed(open)[key]),
        key == place_of(placed(open)[key]),
    decreases open.len(),
{
    let rest = open.drop_last();
    let last = open.last();
    assert(open[open.len() - 1] == last);
    if key != place_of(last) {
        nothing_else_is_restored(rest, key);
        let i = choose|i: int| 0 <= i < rest.len() && rest[i] == placed(rest)[key];
        assert(open[i] == rest[i]);
    }
}

/// The summary shows as many positions as it may, by falling rate, and none that
/// is not shown locked in a larger rate than one that is.
pub proof fn summary_shows_the_largest_rates<N: Scalar>(
    held: Seq<Position<N>>,
    top: Seq<Position<N>>,
    limit: int,
    i: int,
    j: int,
)
    requires
        is_top::<N, Position<N>>(held, top, limit),
        limit >= 0,
        forall|k: int| 0 <= k < held.len() ==> (#[trigger] held[k]).open_rate.at_most_spec(held[k].open_rate),
        0 <= i < top.len(),
        0 <= j < held.len(),
    ensures
        top.len() == held.len() || top.len() == limit,
        top.len() <= limit,
        held.contains(top[i]),
        i + 1 < top.len() ==> top[i + 1].open_rate.at_most_spec(top[i].open_rate),
        !top.contains(held[j]) ==> held[j].open_rate.at_most_spec(top[i].open_rate),
{
    let number = rank_number::<N, Position<N>>();
    let sorted = choose|sorted: Seq<Position<N>>|
        {
            &&& #[trigger] top_of(sorted, limit) == top
            &&& is_sorted(held, sorted, number)
        };
    let order = choose|order: Seq<int>| #[trigger] is_rearranged(held, sorted, order);
    assert(top[i] == sorted[i]);
    assert(sorted[i] == held[order[i]]);
    if i + 1 < top.len() {
        assert(top[i + 1] == sorted[i + 1]);
        sorted_is_falling(held, sorted, number, i, i + 1);
    }
    sorted_loses_no_item(held, sorted, number, j);
    let m = choose|m: int| 0 <= m < sorted.len() && sorted[m] == held[j];
    if m < top.len() {
        assert(top[m] == held[j]);
    } else {
        sorted_is_falling(held, sorted, number, i, m);
    }
}

} // verus!
