//! What a scanner records over time: the laws of a run of rounds.
use crate::fixed::Fixed;
use crate::model::{book_at, ExpiryEntry, PositionView, StrikePair, Universe};
use crate::scalar::{zero_spec, Scalar};
use crate::scan::{
    fate_spec, is_due, is_kind, is_moderate, pos_id_spec, position_name_is_unique_without_dashes, Fate, PlaceView,
    ScanRules,
};
use crate::scanner::{
    at, commit_all, commit_one, distinct_places, fate_keeps_opening, manage_all, manage_one, open_expiries,
    open_one, open_pair, open_strikes, openings_are_in_order, openings_take_distinct_places, opens_in_order, place_of,
    same_opening, scan_round, RoundView, ScanState, Scanner,
};
use vstd::prelude::*;
use vstd::string::*;

verus! {

// ---------------------------------------------------------------------------
// Runs
// ---------------------------------------------------------------------------
/// A position as it was recorded at a time.
pub struct Record<N> {
    pub at: i64,
    pub position: PositionView<N>,
}

/// A round of a run: what was listed, the places that were looked after, and
/// what the round went by.
pub struct Step<N> {
    pub universe: Universe<N>,
    pub keys: Seq<Seq<char>>,
    pub round: RoundView<N>,
}

/// Positions as they are recorded in one round.
pub open spec fn stamped<N>(emitted: Seq<PositionView<N>>, now: i64) -> Seq<Record<N>> {
    emitted.map_values(|p: PositionView<N>| Record { at: now, position: p })
}

/// What a scanner holds between two rounds: nothing is recorded yet.
pub open spec fn rested<N>(s: ScanState<N>) -> ScanState<N> {
    ScanState { emitted: Seq::empty(), closed: 0, ..s }
}

/// What a round of a run leaves.
pub open spec fn step_state<N: Scalar>(s: ScanState<N>, step: Step<N>) -> ScanState<N> {
    scan_round(s, step.keys, step.universe.expiries.entries@, step.round)
}

/// What a scanner holds after some rounds.
pub open spec fn run_state<N: Scalar>(s: ScanState<N>, steps: Seq<Step<N>>) -> ScanState<N>
    decreases steps.len(),
{
    if steps.len() == 0 {
        rested(s)
    } else {
        rested(step_state(run_state(s, steps.drop_last()), steps.last()))
    }
}

/// What a scanner has recorded in some rounds, in order.
pub open spec fn run_log<N: Scalar>(s: ScanState<N>, steps: Seq<Step<N>>) -> Seq<Record<N>>
    decreases steps.len(),
{
    if steps.len() == 0 {
        Seq::empty()
    } else {
        run_log(s, steps.drop_last()) + stamped(
            step_state(run_state(s, steps.drop_last()), steps.last()).emitted,
            steps.last().round.now,
        )
    }
}

/// Rounds that follow each other, from a time on: the lists are in order, the
/// rules stay, and the clock does not go back.
pub open spec fn is_run<N: Scalar>(steps: Seq<Step<N>>, start: i64, rules: ScanRules<N>) -> bool {
    &&& forall|i: int|
        0 <= i < steps.len() ==> {
            &&& (#[trigger] steps[i]).universe.wf()
            &&& steps[i].round.rules == rules
            &&& start <= steps[i].round.now
        }
    &&& forall|i: int, j: int|
        0 <= i < j < steps.len() ==> (#[trigger] steps[i]).round.now <= (#[trigger] steps[j]).round.now
}

/// Rounds at times that rise, the first of them later than the start.
pub open spec fn clock_rises<N: Scalar>(steps: Seq<Step<N>>, start: i64) -> bool {
    &&& forall|i: int| 0 <= i < steps.len() ==> start < (#[trigger] steps[i]).round.now
    &&& forall|i: int, j: int|
        0 <= i < j < steps.len() ==> (#[trigger] steps[i]).round.now < (#[trigger] steps[j]).round.now
}

// ---------------------------------------------------------------------------
// Order of the records
// ---------------------------------------------------------------------------
/// A record of the end of a position.
pub open spec fn is_last<N>(r: Record<N>) -> bool {
    r.position.status == "closed"@ || r.position.status == "settled"@
}

/// Two records at one place.
pub open spec fn same_place<N: Scalar>(a: Record<N>, b: Record<N>) -> bool {
    place_of(a.position) == place_of(b.position)
}

/// Two records of one position.
pub open spec fn same_life<N>(a: Record<N>, b: Record<N>) -> bool {
    a.position.id == b.position.id
}

/// The end of the position of record `i` is recorded from `i` on and before `k`.
pub open spec fn ends_before<N>(log: Seq<Record<N>>, i: int, k: int) -> bool {
    exists|j: int| i <= j < k && is_last(#[trigger] log[j]) && same_life(log[j], log[i])
}

/// Records in order. Before another position of a place is recorded, the end of
/// the one before it is, and at least the interval passes after that end. Between
/// two records of an open position at least the interval passes. After its end a
/// position is not recorded any more.
pub open spec fn is_orderly<N: Scalar>(log: Seq<Record<N>>, interval: i64) -> bool {
    forall|i: int, k: int|
        0 <= i < k < log.len() ==> is_orderly_pair(log, #[trigger] log[i], i, #[trigger] log[k], k, interval)
}

/// Two records in order, the first at `i` and the second at `k`.
pub open spec fn is_orderly_pair<N: Scalar>(
    log: Seq<Record<N>>,
    a: Record<N>,
    i: int,
    b: Record<N>,
    k: int,
    interval: i64,
) -> bool {
    &&& a.at <= b.at
    &&& same_place(a, b) && !same_life(a, b) ==> ends_before(log, i, k)
    &&& same_place(a, b) && !same_life(a, b) && is_last(a) ==> b.at - a.at >= interval
    &&& same_life(a, b) && !is_last(a) && !is_last(b) ==> b.at - a.at >= interval
    &&& is_last(a) ==> !same_life(a, b)
}

// ---------------------------------------------------------------------------
// What holds between rounds
// ---------------------------------------------------------------------------
/// A position has the name that its place and its opening give it.
pub open spec fn is_named<N: Scalar>(p: PositionView<N>) -> bool {
    is_kind(p.kind) && !p.expiry.contains('-') && p.id == pos_id_spec(p.kind, p.expiry, p.strike, p.open_ts)
}

/// The open positions stand under their places, have their names, and were
/// opened no later than now.
pub open spec fn holds_named<N: Scalar>(s: ScanState<N>, now: i64) -> bool {
    forall|key: Seq<char>| #[trigger]
        s.positions.contains_key(key) ==> {
            let p = s.positions[key];
            is_named(p) && key == place_of(p) && p.status == "open"@ && p.open_ts <= now
        }
}

/// The position of a record is open.
spec fn is_held<N: Scalar>(s: ScanState<N>, r: Record<N>) -> bool {
    s.positions.contains_key(place_of(r.position)) && s.positions[place_of(r.position)].id == r.position.id
}

/// What the scanner holds accounts for a record.
spec fn accounts_for<N: Scalar>(s: ScanState<N>, log: Seq<Record<N>>, i: int, now: i64, interval: i64) -> bool {
    let r = log[i];
    let place = place_of(r.position);
    &&& is_named(r.position)
    &&& r.position.open_ts <= r.at <= now
    &&& r.position.status == "open"@ || is_last(r)
    &&& is_last(r) ==> s.last_open.contains_key(place) && s.last_open[place] >= r.at
    &&& is_last(r) && s.positions.contains_key(place) ==> s.positions[place].id != r.position.id
        && s.positions[place].open_ts - r.at >= interval
    &&& !is_last(r) ==> is_held(s, r) || ends_before(log, i, log.len() as int)
    &&& !is_last(r) && is_held(s, r) ==> s.last_emit.contains_key(r.position.id)
        && s.last_emit[r.position.id] >= r.at
}

/// What the scanner holds accounts for all records, and they are in order.
spec fn is_kept<N: Scalar>(s: ScanState<N>, log: Seq<Record<N>>, now: i64, interval: i64) -> bool {
    &&& holds_named(s, now)
    &&& forall|i: int| 0 <= i < log.len() ==> #[trigger] accounts_for(s, log, i, now, interval)
    &&& is_orderly(log, interval)
}

/// Everything that is open or recorded was opened before now.
spec fn all_older<N: Scalar>(s: ScanState<N>, log: Seq<Record<N>>, now: i64) -> bool {
    &&& forall|key: Seq<char>| #[trigger] s.positions.contains_key(key) ==> s.positions[key].open_ts < now
    &&& forall|i: int| 0 <= i < log.len() ==> (#[trigger] log[i]).position.open_ts < now
}

/// Everything that was opened now is still open.
spec fn new_are_held<N: Scalar>(s: ScanState<N>, log: Seq<Record<N>>, now: i64) -> bool {
    forall|i: int| 0 <= i < log.len() && (#[trigger] log[i]).position.open_ts >= now ==> is_held(s, log[i])
}

proof fn lemma_statuses_differ()
    ensures
        "open"@ != "closed"@,
        "open"@ != "settled"@,
        "closed"@ != "settled"@,
{
    reveal_strlit("open");
    reveal_strlit("closed");
    reveal_strlit("settled");
    assert("open"@.len() != "closed"@.len());
    assert("open"@.len() != "settled"@.len());
    assert("closed"@.len() != "settled"@.len());
}

/// One name, one place and one opening.
proof fn lemma_name_gives_place<N: Scalar>(a: PositionView<N>, b: PositionView<N>)
    requires
        is_named(a),
        is_named(b),
        a.id == b.id,
    ensures
        place_of(a) == place_of(b),
        a.open_ts == b.open_ts,
{
    position_name_is_unique_without_dashes(
        a.kind,
        a.expiry,
        a.strike,
        a.open_ts,
        b.kind,
        b.expiry,
        b.strike,
        b.open_ts,
    );
}

proof fn lemma_ends_before_grows<N>(log: Seq<Record<N>>, r: Record<N>, i: int, k: int, m: int)
    requires
        0 <= i,
        i <= k <= m,
        k <= log.len(),
        ends_before(log, i, k),
    ensures
        ends_before(log.push(r), i, m),
{
    let j = choose|j: int| i <= j < k && is_last(#[trigger] log[j]) && same_life(log[j], log[i]);
    let more = log.push(r);
    assert(more[j] == log[j]);
    assert(more[i] == log[i]);
}

/// A record more keeps the order where it is in order with each before it.
proof fn lemma_orderly_grows<N: Scalar>(log: Seq<Record<N>>, r: Record<N>, interval: i64)
    requires
        is_orderly(log, interval),
        forall|i: int|
            0 <= i < log.len() ==> is_orderly_pair(
                log.push(r),
                #[trigger] log[i],
                i,
                r,
                log.len() as int,
                interval,
            ),
    ensures
        is_orderly(log.push(r), interval),
{
    let more = log.push(r);
    assert forall|i: int, k: int| 0 <= i < k < more.len() implies is_orderly_pair(
        more,
        #[trigger] more[i],
        i,
        #[trigger] more[k],
        k,
        interval,
    ) by {
        assert(more[i] == log[i]);
        if k < log.len() {
            assert(more[k] == log[k]);
            assert(is_orderly_pair(log, log[i], i, log[k], k, interval));
            if same_place(log[i], log[k]) && !same_life(log[i], log[k]) {
                lemma_ends_before_grows(log, r, i, k, k);
            }
        } else {
            assert(more[k] == r);
        }
    }
}

/// Time passes.
proof fn lemma_kept_later<N: Scalar>(s: ScanState<N>, log: Seq<Record<N>>, then: i64, now: i64, interval: i64)
    requires
        is_kept(s, log, then, interval),
        then <= now,
    ensures
        is_kept(s, log, now, interval),
{
    assert forall|i: int| 0 <= i < log.len() implies #[trigger] accounts_for(s, log, i, now, interval) by {
        assert(accounts_for(s, log, i, then, interval));
    }
}

/// Of a record before it, a record of the position that a place holds is in order.
proof fn lemma_held_pair<N: Scalar>(
    s: ScanState<N>,
    log: Seq<Record<N>>,
    r: Record<N>,
    i: int,
    interval: i64,
)
    requires
        is_kept(s, log, r.at, interval),
        0 <= i < log.len(),
        is_named(r.position),
        s.positions.contains_key(place_of(r.position)),
        s.positions[place_of(r.position)].id == r.position.id,
        s.positions[place_of(r.position)].open_ts <= r.at,
        !is_last(r) ==> is_due(at(s.last_emit, r.position.id), r.at, interval),
    ensures
        is_orderly_pair(log.push(r), log[i], i, r, log.len() as int, interval),
{
    let n = log.len() as int;
    let a = log[i];
    assert(accounts_for(s, log, i, r.at, interval));
    if same_life(a, r) {
        lemma_name_gives_place(a.position, r.position);
    }
    if same_place(a, r) && !same_life(a, r) {
        if is_last(a) {
            assert(log.push(r)[i] == a);
        } else {
            lemma_ends_before_grows(log, r, i, n, n);
        }
    }
}

/// A position is recorded while it stays open.
proof fn lemma_mark<N: Scalar>(
    s: ScanState<N>,
    s2: ScanState<N>,
    log: Seq<Record<N>>,
    key: Seq<char>,
    p: PositionView<N>,
    now: i64,
    interval: i64,
)
    requires
        is_kept(s, log, now, interval),
        s.positions.contains_key(key),
        same_opening(s.positions[key], p),
        p.status == "open"@,
        is_due(at(s.last_emit, p.id), now, interval),
        s2.positions == s.positions.insert(key, p),
        s2.last_open == s.last_open,
        s2.last_emit == s.last_emit.insert(p.id, now),
    ensures
        is_kept(s2, log.push(Record { at: now, position: p }), now, interval),
{
    lemma_statuses_differ();
    let r = Record { at: now, position: p };
    let more = log.push(r);
    let n = log.len() as int;
    assert(place_of(p) == key);
    assert forall|i: int| 0 <= i < n implies is_orderly_pair(more, #[trigger] log[i], i, r, n, interval) by {
        lemma_held_pair(s, log, r, i, interval);
    }
    lemma_orderly_grows(log, r, interval);
    assert forall|i: int| 0 <= i < more.len() implies #[trigger] accounts_for(s2, more, i, now, interval) by {
        if i < n {
            assert(more[i] == log[i]);
            assert(accounts_for(s, log, i, now, interval));
            if !is_last(log[i]) && !is_held(s, log[i]) {
                lemma_ends_before_grows(log, r, i, n, n + 1);
            }
        } else {
            assert(more[i] == r);
        }
    }
}

/// The end of a position is recorded.
proof fn lemma_end<N: Scalar>(
    s: ScanState<N>,
    s2: ScanState<N>,
    log: Seq<Record<N>>,
    key: Seq<char>,
    p: PositionView<N>,
    now: i64,
    interval: i64,
)
    requires
        is_kept(s, log, now, interval),
        s.positions.contains_key(key),
        same_opening(s.positions[key], p),
        p.status == "closed"@ || p.status == "settled"@,
        s2.positions == s.positions.remove(key),
        s2.last_open == s.last_open.insert(key, now),
        s2.last_emit == s.last_emit.remove(p.id),
    ensures
        is_kept(s2, log.push(Record { at: now, position: p }), now, interval),
{
    lemma_statuses_differ();
    let r = Record { at: now, position: p };
    let more = log.push(r);
    let n = log.len() as int;
    assert(place_of(p) == key);
    assert forall|i: int| 0 <= i < n implies is_orderly_pair(more, #[trigger] log[i], i, r, n, interval) by {
        lemma_held_pair(s, log, r, i, interval);
    }
    lemma_orderly_grows(log, r, interval);
    assert forall|i: int| 0 <= i < more.len() implies #[trigger] accounts_for(s2, more, i, now, interval) by {
        if i < n {
            let a = log[i];
            assert(more[i] == a);
            assert(accounts_for(s, log, i, now, interval));
            if !is_last(a) {
                if !is_held(s, a) {
                    lemma_ends_before_grows(log, r, i, n, n + 1);
                } else if place_of(a.position) == key {
                    assert(more[n] == r);
                    assert(ends_before(more, i, n + 1));
                }
                if is_held(s2, a) && a.position.id == p.id {
                    lemma_name_gives_place(a.position, p);
                }
            }
        } else {
            assert(more[i] == r);
        }
    }
}

/// A position opens at a free place and is recorded.
proof fn lemma_open<N: Scalar>(
    s: ScanState<N>,
    s2: ScanState<N>,
    log: Seq<Record<N>>,
    p: PositionView<N>,
    now: i64,
    interval: i64,
)
    requires
        is_kept(s, log, now, interval),
        interval > 0 || new_are_held(s, log, now),
        is_named(p),
        p.status == "open"@,
        p.open_ts == now,
        !s.positions.contains_key(place_of(p)),
        s.last_open.contains_key(place_of(p)) ==> now - s.last_open[place_of(p)] >= interval,
        s2.positions == s.positions.insert(place_of(p), p),
        s2.last_open == s.last_open.insert(place_of(p), now),
        s2.last_emit == s.last_emit.insert(p.id, now),
    ensures
        is_kept(s2, log.push(Record { at: now, position: p }), now, interval),
        new_are_held(s, log, now) ==> new_are_held(s2, log.push(Record { at: now, position: p }), now),
{
    lemma_statuses_differ();
    let r = Record { at: now, position: p };
    let more = log.push(r);
    let n = log.len() as int;
    let key = place_of(p);
    assert forall|i: int| 0 <= i < n && place_of((#[trigger] log[i]).position) == key implies {
        &&& now - log[i].at >= interval
        &&& is_last(log[i]) || ends_before(log, i, n)
    } by {
        let a = log[i];
        assert(accounts_for(s, log, i, now, interval));
        if !is_last(a) {
            assert(ends_before(log, i, n));
            let j = choose|j: int| i <= j < n && is_last(#[trigger] log[j]) && same_life(log[j], log[i]);
            assert(accounts_for(s, log, j, now, interval));
            lemma_name_gives_place(log[j].position, a.position);
            if i < j {
                assert(is_orderly_pair(log, log[i], i, log[j], j, interval));
            }
        }
    }
    assert forall|i: int| 0 <= i < n implies (#[trigger] log[i]).position.id != p.id by {
        assert(accounts_for(s, log, i, now, interval));
        if log[i].position.id == p.id {
            lemma_name_gives_place(log[i].position, p);
        }
    }
    assert forall|i: int| 0 <= i < n implies is_orderly_pair(more, #[trigger] log[i], i, r, n, interval) by {
        let a = log[i];
        assert(accounts_for(s, log, i, now, interval));
        if same_place(a, r) {
            if is_last(a) {
                assert(more[i] == a);
            } else {
                lemma_ends_before_grows(log, r, i, n, n);
            }
        }
    }
    lemma_orderly_grows(log, r, interval);
    assert forall|i: int| 0 <= i < more.len() implies #[trigger] accounts_for(s2, more, i, now, interval) by {
        if i < n {
            let a = log[i];
            assert(more[i] == a);
            assert(accounts_for(s, log, i, now, interval));
            if !is_last(a) && !is_held(s, a) {
                lemma_ends_before_grows(log, r, i, n, n + 1);
            }
        } else {
            assert(more[i] == r);
        }
    }
    if new_are_held(s, log, now) {
        assert forall|i: int|
            0 <= i < more.len() && (#[trigger] more[i]).position.open_ts >= now implies is_held(s2, more[i]) by {
            if i < n {
                assert(more[i] == log[i]);
            }
        }
    }
}

proof fn lemma_stamped_push<N>(base: Seq<Record<N>>, emitted: Seq<PositionView<N>>, p: PositionView<N>, now: i64)
    ensures
        base + stamped(emitted.push(p), now) == (base + stamped(emitted, now)).push(
            Record { at: now, position: p },
        ),
{
    assert(base + stamped(emitted.push(p), now) =~= (base + stamped(emitted, now)).push(
        Record { at: now, position: p },
    ));
}

proof fn lemma_manage_one<N: Scalar>(
    s: ScanState<N>,
    base: Seq<Record<N>>,
    key: Seq<char>,
    round: RoundView<N>,
)
    requires
        is_kept(s, base + stamped(s.emitted, round.now), round.now, round.rules.record_interval_ms),
    ensures
        ({
            let t = manage_one(s, key, round);
            &&& is_kept(t, base + stamped(t.emitted, round.now), round.now, round.rules.record_interval_ms)
            &&& all_older(s, base + stamped(s.emitted, round.now), round.now) ==> all_older(
                t,
                base + stamped(t.emitted, round.now),
                round.now,
            )
        }),
{
    let t = manage_one(s, key, round);
    let log = base + stamped(s.emitted, round.now);
    let interval = round.rules.record_interval_ms;
    if s.positions.contains_key(key) {
        let pos = s.positions[key];
        let call = book_at(round.books, pos.call_symbol);
        let put = book_at(round.books, pos.put_symbol);
        let last = at(s.last_emit, pos.id);
        fate_keeps_opening(pos, call, put, round.spot, round.rules, round.now, last);
        match fate_spec(pos, call, put, round.spot, round.rules, round.now, last) {
            Fate::Settle(p) => {
                lemma_stamped_push(base, s.emitted, p, round.now);
                lemma_end(s, t, log, key, p, round.now, interval);
            },
            Fate::Close(p) => {
                lemma_stamped_push(base, s.emitted, p, round.now);
                lemma_end(s, t, log, key, p, round.now, interval);
            },
            Fate::Mark(p) => {
                lemma_stamped_push(base, s.emitted, p, round.now);
                lemma_mark(s, t, log, key, p, round.now, interval);
            },
            Fate::Hold => {},
        }
    }
}

proof fn lemma_manage_all<N: Scalar>(
    s: ScanState<N>,
    base: Seq<Record<N>>,
    keys: Seq<Seq<char>>,
    round: RoundView<N>,
)
    requires
        is_kept(s, base + stamped(s.emitted, round.now), round.now, round.rules.record_interval_ms),
    ensures
        ({
            let t = manage_all(s, keys, round);
            &&& is_kept(t, base + stamped(t.emitted, round.now), round.now, round.rules.record_interval_ms)
            &&& all_older(s, base + stamped(s.emitted, round.now), round.now) ==> all_older(
                t,
                base + stamped(t.emitted, round.now),
                round.now,
            )
        }),
    decreases keys.len(),
{
    if keys.len() > 0 {
        lemma_manage_all(s, base, keys.drop_last(), round);
        lemma_manage_one(manage_all(s, keys.drop_last(), round), base, keys.last(), round);
    }
}

proof fn lemma_commit_untouched<N: Scalar>(
    s: ScanState<N>,
    opens: Seq<PositionView<N>>,
    now: i64,
    key: Seq<char>,
)
    requires
        forall|i: int| 0 <= i < opens.len() ==> place_of(#[trigger] opens[i]) != key,
    ensures
        commit_all(s, opens, now).positions.contains_key(key) == s.positions.contains_key(key),
        at(commit_all(s, opens, now).last_open, key) == at(s.last_open, key),
    decreases opens.len(),
{
    if opens.len() > 0 {
        let rest = opens.drop_last();
        assert forall|i: int| 0 <= i < rest.len() implies place_of(#[trigger] rest[i]) != key by {
            assert(rest[i] == opens[i]);
        }
        lemma_commit_untouched(s, rest, now, key);
        assert(place_of(opens[opens.len() - 1]) != key);
    }
}

proof fn lemma_commit_all<N: Scalar>(
    s: ScanState<N>,
    base: Seq<Record<N>>,
    opens: Seq<PositionView<N>>,
    round: RoundView<N>,
)
    requires
        is_kept(s, base + stamped(s.emitted, round.now), round.now, round.rules.record_interval_ms),
        round.rules.record_interval_ms > 0 || new_are_held(s, base + stamped(s.emitted, round.now), round.now),
        distinct_places(opens),
        forall|i: int|
            0 <= i < opens.len() ==> opens_in_order(#[trigger] opens[i], s, round) && !opens[i].expiry.contains('-'),
    ensures
        ({
            let t = commit_all(s, opens, round.now);
            &&& is_kept(t, base + stamped(t.emitted, round.now), round.now, round.rules.record_interval_ms)
            &&& new_are_held(s, base + stamped(s.emitted, round.now), round.now) ==> new_are_held(
                t,
                base + stamped(t.emitted, round.now),
                round.now,
            )
        }),
    decreases opens.len(),
{
    if opens.len() > 0 {
        let rest = opens.drop_last();
        let p = opens.last();
        let n = rest.len() as int;
        assert(opens[n] == p);
        assert forall|i: int| 0 <= i < rest.len() implies opens_in_order(#[trigger] rest[i], s, round)
            && !rest[i].expiry.contains('-') by {
            assert(rest[i] == opens[i]);
        }
        assert(distinct_places(rest)) by {
            assert forall|i: int, j: int| 0 <= i < j < rest.len() implies place_of(#[trigger] rest[i]) != place_of(
                #[trigger] rest[j],
            ) by {
                assert(rest[i] == opens[i] && rest[j] == opens[j]);
            }
        }
        lemma_commit_all(s, base, rest, round);
        assert forall|i: int| 0 <= i < rest.len() implies place_of(#[trigger] rest[i]) != place_of(p) by {
            assert(rest[i] == opens[i]);
            assert(place_of(opens[i]) != place_of(opens[n]));
        }
        lemma_commit_untouched(s, rest, round.now, place_of(p));
        let before = commit_all(s, rest, round.now);
        assert(opens_in_order(p, s, round));
        lemma_stamped_push(base, before.emitted, p, round.now);
        lemma_open(
            before,
            commit_one(before, p, round.now),
            base + stamped(before.emitted, round.now),
            p,
            round.now,
            round.rules.record_interval_ms,
        );
    }
}

proof fn lemma_run_kept<N: Scalar>(s: ScanState<N>, steps: Seq<Step<N>>, start: i64, rules: ScanRules<N>)
    requires
        holds_named(s, start),
        is_run(steps, start, rules),
        rules.record_interval_ms > 0 || clock_rises(steps, start),
    ensures
        is_kept(
            run_state(s, steps),
            run_log(s, steps),
            if steps.len() == 0 {
                start
            } else {
                steps.last().round.now
            },
            rules.record_interval_ms,
        ),
    decreases steps.len(),
{
    if steps.len() > 0 {
        let rest = steps.drop_last();
        let step = steps.last();
        let n = rest.len() as int;
        assert(steps[n] == step);
        assert(is_run(rest, start, rules)) by {
            assert forall|i: int| 0 <= i < rest.len() implies {
                &&& (#[trigger] rest[i]).universe.wf()
                &&& rest[i].round.rules == rules
                &&& start <= rest[i].round.now
            } by {
                assert(rest[i] == steps[i]);
            }
            assert forall|i: int, j: int| 0 <= i < j < rest.len() implies (#[trigger] rest[i]).round.now <= (
            #[trigger] rest[j]).round.now by {
                assert(rest[i] == steps[i] && rest[j] == steps[j]);
            }
        }
        if clock_rises(steps, start) {
            assert forall|i: int| 0 <= i < rest.len() implies start < (#[trigger] rest[i]).round.now by {
                assert(rest[i] == steps[i]);
            }
            assert forall|i: int, j: int| 0 <= i < j < rest.len() implies (#[trigger] rest[i]).round.now < (
            #[trigger] rest[j]).round.now by {
                assert(rest[i] == steps[i] && rest[j] == steps[j]);
            }
            assert(clock_rises(rest, start));
        }
        lemma_run_kept(s, rest, start, rules);
        let now = step.round.now;
        let interval = rules.record_interval_ms;
        let before = run_state(s, rest);
        let base = run_log(s, rest);
        let then = if rest.len() > 0 {
            rest.last().round.now
        } else {
            start
        };
        if rest.len() > 0 {
            assert(steps[n - 1] == rest.last());
        }
        if clock_rises(steps, start) {
            assert(then < now);
            assert forall|i: int| 0 <= i < base.len() implies (#[trigger] base[i]).position.open_ts < now by {
                assert(accounts_for(before, base, i, then, interval));
            }
            assert(all_older(before, base, now));
        }
        lemma_kept_later(before, base, then, now, interval);
        assert(base + stamped(before.emitted, now) =~= base);
        lemma_manage_all(before, base, step.keys, step.round);
        let managed = manage_all(before, step.keys, step.round);
        let expiries = step.universe.expiries.entries@;
        let opens = open_expiries(managed, expiries, step.round);
        openings_are_in_order(managed, expiries, step.round);
        openings_take_distinct_places(managed, step.universe, step.round);
        lemma_commit_all(managed, base, opens, step.round);
        let after = step_state(before, step);
        lemma_rested(after, base + stamped(after.emitted, now), now, interval);
    }
}

proof fn lemma_rested<N: Scalar>(s: ScanState<N>, log: Seq<Record<N>>, now: i64, interval: i64)
    requires
        is_kept(s, log, now, interval),
    ensures
        is_kept(rested(s), log, now, interval),
{
    assert forall|i: int| 0 <= i < log.len() implies #[trigger] accounts_for(
        rested(s),
        log,
        i,
        now,
        interval,
    ) by {
        assert(accounts_for(s, log, i, now, interval));
    }
}

/// What a scanner records in a run is in order: before another position of a
/// place is recorded, the end of the one before it is, and at least the recording
/// interval passes after that end; between two records of an open position at
/// least the interval passes; and nothing is recorded of a position after its
/// end. The interval is above zero, or no two rounds share a time: a position
/// that opens, ends and opens again within one time would keep its name.
pub proof fn run_is_orderly<N: Scalar>(s: ScanState<N>, steps: Seq<Step<N>>, start: i64, rules: ScanRules<N>)
    requires
        holds_named(s, start),
        is_run(steps, start, rules),
        rules.record_interval_ms > 0 || clock_rises(steps, start),
    ensures
        is_orderly(run_log(s, steps), rules.record_interval_ms),
{
    lemma_run_kept(s, steps, start, rules);
}

/// What a round of a scanner does is a step of a run: it leaves what the step
/// leaves, and records what the step records.
pub proof fn scan_is_a_step<N: Scalar>(
    before: Scanner<N>,
    after: Scanner<N>,
    emitted: Seq<PositionView<N>>,
    closed: nat,
    step: Step<N>,
)
    requires
        after.state_with(emitted, closed) == step_state(before.state(), step),
    ensures
        rested(before.state()) == before.state(),
        after.state() == rested(step_state(before.state(), step)),
        emitted == step_state(before.state(), step).emitted,
{
}

/// While a position is open, no other position of its place is recorded: between
/// any record of it and its end there is none of another.
pub proof fn no_other_position_before_the_end<N: Scalar>(log: Seq<Record<N>>, interval: i64, i: int, k: int, e: int)
    requires
        is_orderly(log, interval),
        0 <= i < k < e < log.len(),
        same_life(log[i], log[e]),
        same_place(log[i], log[k]),
    ensures
        same_life(log[i], log[k]),
{
    if !same_life(log[i], log[k]) {
        assert(is_orderly_pair(log, log[i], i, log[k], k, interval));
        let j = choose|j: int| i <= j < k && is_last(#[trigger] log[j]) && same_life(log[j], log[i]);
        assert(is_orderly_pair(log, log[j], j, log[e], e, interval));
    }
}

// ---------------------------------------------------------------------------
// Figures of the records
// ---------------------------------------------------------------------------
/// The figures of a position hang together: what it locked in, its target, what
/// it brings, and, by its state, what is known of its end. An open position has
/// no closing figures. A closed one brought both sides less the fees of both. A
/// settled one brought its opening less its fees, those of buying the spot back
/// and of the exercise.
pub open spec fn figures_agree<N: Scalar>(p: PositionView<N>, rules: ScanRules<N>) -> bool {
    let nothing = zero_spec::<N>();
    &&& p.open_net == p.open_gross.minus_spec(p.open_fee)
    &&& p.open_rate == p.open_net.over_spec(p.open_spot)
    &&& p.target_close_rate == rules.close_rate_discount.times_spec(p.open_rate)
    &&& p.net_profit_rate == p.net_profit_per_btc.over_spec(p.open_spot)
    &&& p.est_profit == p.net_profit_per_btc.times_spec(p.exec_qty)
    &&& p.status == "open"@ ==> {
        &&& p.close_ts == 0
        &&& p.close_spot == nothing && p.close_call == nothing && p.close_put == nothing
        &&& p.close_gross == nothing && p.close_fee == nothing
        &&& p.hold_annual_rate == p.open_annual_rate
    }
    &&& p.status == "closed"@ ==> p.net_profit_per_btc == p.open_gross.plus_spec(p.close_gross).minus_spec(
        p.open_fee,
    ).minus_spec(p.close_fee)
    &&& p.status == "settled"@ ==> {
        let spot_fee = rules.spot_fee_rate.times_spec(p.close_spot);
        let exercise_fee = rules.exercise_fee_rate.times_spec(p.close_spot);
        &&& p.close_gross == nothing
        &&& p.close_fee == spot_fee.plus_spec(exercise_fee)
        &&& p.net_profit_per_btc == p.open_gross.minus_spec(p.open_fee).minus_spec(spot_fee).minus_spec(
            exercise_fee,
        )
    }
}

/// The figures of all open positions, and of all that was recorded, agree.
pub open spec fn all_agree<N: Scalar>(s: ScanState<N>, rules: ScanRules<N>) -> bool {
    &&& forall|key: Seq<char>| #[trigger]
        s.positions.contains_key(key) ==> s.positions[key].status == "open"@ && figures_agree(
            s.positions[key],
            rules,
        )
    &&& forall|i: int| 0 <= i < s.emitted.len() ==> figures_agree(#[trigger] s.emitted[i], rules)
}

proof fn lemma_manage_agrees<N: Scalar>(s: ScanState<N>, keys: Seq<Seq<char>>, round: RoundView<N>)
    requires
        all_agree(s, round.rules),
    ensures
        all_agree(manage_all(s, keys, round), round.rules),
    decreases keys.len(),
{
    if keys.len() > 0 {
        lemma_manage_agrees(s, keys.drop_last(), round);
        let before = manage_all(s, keys.drop_last(), round);
        let after = manage_all(s, keys, round);
        let key = keys.last();
        lemma_statuses_differ();
        if before.positions.contains_key(key) {
            assert(figures_agree(before.positions[key], round.rules));
        }
        assert forall|i: int| 0 <= i < after.emitted.len() implies figures_agree(
            #[trigger] after.emitted[i],
            round.rules,
        ) by {
            if i < before.emitted.len() {
                assert(after.emitted[i] == before.emitted[i]);
            }
        }
    }
}

proof fn lemma_openings_agree<N: Scalar>(
    s: ScanState<N>,
    expiries: Seq<(String, ExpiryEntry<N>)>,
    round: RoundView<N>,
)
    ensures
        forall|i: int|
            0 <= i < open_expiries(s, expiries, round).len() ==> figures_agree(
                #[trigger] open_expiries(s, expiries, round)[i],
                round.rules,
            ),
    decreases expiries.len(),
{
    if expiries.len() > 0 {
        let e = expiries.last();
        lemma_openings_agree(s, expiries.drop_last(), round);
        lemma_strikes_agree(s, e.0@, e.1.expiry_ms, e.1.strikes.entries@, round);
        let a = open_expiries(s, expiries.drop_last(), round);
        let b = open_strikes(s, e.0@, e.1.expiry_ms, e.1.strikes.entries@, round);
        assert forall|i: int| 0 <= i < (a + b).len() implies figures_agree(#[trigger] (a + b)[i], round.rules) by {
            if i < a.len() {
                assert((a + b)[i] == a[i]);
            } else {
                assert((a + b)[i] == b[i - a.len()]);
            }
        }
    }
}

proof fn lemma_strikes_agree<N: Scalar>(
    s: ScanState<N>,
    expiry: Seq<char>,
    expiry_ms: i64,
    strikes: Seq<(i64, StrikePair<N>)>,
    round: RoundView<N>,
)
    ensures
        forall|i: int|
            0 <= i < open_strikes(s, expiry, expiry_ms, strikes, round).len() ==> figures_agree(
                #[trigger] open_strikes(s, expiry, expiry_ms, strikes, round)[i],
                round.rules,
            ),
    decreases strikes.len(),
{
    if strikes.len() > 0 {
        lemma_strikes_agree(s, expiry, expiry_ms, strikes.drop_last(), round);
        let a = open_strikes(s, expiry, expiry_ms, strikes.drop_last(), round);
        let pair = strikes.last().1;
        let b = open_pair(s, expiry, expiry_ms, pair, round);
        assert forall|i: int| 0 <= i < b.len() implies figures_agree(#[trigger] b[i], round.rules) by {
            let place = PlaceView {
                expiry,
                expiry_ms,
                strike: pair.strike,
                call: pair.call->0@,
                put: pair.put->0@,
            };
            let x = open_one(s, "reversal"@, place, round);
            let y = open_one(s, "conversion"@, place, round);
            lemma_statuses_differ();
            if i < x.len() {
                assert((x + y)[i] == x[0]);
            } else {
                assert((x + y)[i] == y[0]);
            }
        }
        assert forall|i: int| 0 <= i < (a + b).len() implies figures_agree(#[trigger] (a + b)[i], round.rules) by {
            if i < a.len() {
                assert((a + b)[i] == a[i]);
            } else {
                assert((a + b)[i] == b[i - a.len()]);
            }
        }
    }
}

proof fn lemma_commit_agrees<N: Scalar>(
    s: ScanState<N>,
    opens: Seq<PositionView<N>>,
    now: i64,
    rules: ScanRules<N>,
)
    requires
        all_agree(s, rules),
        forall|i: int|
            0 <= i < opens.len() ==> figures_agree(#[trigger] opens[i], rules) && opens[i].status == "open"@,
    ensures
        all_agree(commit_all(s, opens, now), rules),
    decreases opens.len(),
{
    if opens.len() > 0 {
        let rest = opens.drop_last();
        assert forall|i: int| 0 <= i < rest.len() implies figures_agree(#[trigger] rest[i], rules)
            && rest[i].status == "open"@ by {
            assert(rest[i] == opens[i]);
        }
        lemma_commit_agrees(s, rest, now, rules);
        let before = commit_all(s, rest, now);
        let after = commit_all(s, opens, now);
        assert(opens[opens.len() - 1] == opens.last());
        assert forall|i: int| 0 <= i < after.emitted.len() implies figures_agree(
            #[trigger] after.emitted[i],
            rules,
        ) by {
            if i < before.emitted.len() {
                assert(after.emitted[i] == before.emitted[i]);
            }
        }
    }
}

/// Opening, marking, closing and settling keep the figures of every position in
/// agreement.
pub proof fn round_keeps_figures<N: Scalar>(
    s: ScanState<N>,
    keys: Seq<Seq<char>>,
    expiries: Seq<(String, ExpiryEntry<N>)>,
    round: RoundView<N>,
)
    requires
        all_agree(s, round.rules),
    ensures
        all_agree(scan_round(s, keys, expiries, round), round.rules),
{
    let managed = manage_all(s, keys, round);
    lemma_manage_agrees(s, keys, round);
    lemma_openings_agree(managed, expiries, round);
    openings_are_in_order(managed, expiries, round);
    let opens = open_expiries(managed, expiries, round);
    assert forall|i: int| 0 <= i < opens.len() implies figures_agree(#[trigger] opens[i], round.rules)
        && opens[i].status == "open"@ by {
        assert(opens_in_order(opens[i], managed, round));
    }
    lemma_commit_agrees(managed, opens, round.now, round.rules);
}

/// The figures of everything that a scanner records in a run agree.
pub proof fn run_keeps_figures<N: Scalar>(s: ScanState<N>, steps: Seq<Step<N>>, rules: ScanRules<N>)
    requires
        all_agree(rested(s), rules),
        forall|i: int| 0 <= i < steps.len() ==> (#[trigger] steps[i]).round.rules == rules,
    ensures
        all_agree(run_state(s, steps), rules),
        forall|i: int|
            0 <= i < run_log(s, steps).len() ==> figures_agree((#[trigger] run_log(s, steps)[i]).position, rules),
    decreases steps.len(),
{
    if steps.len() > 0 {
        let rest = steps.drop_last();
        let step = steps.last();
        assert forall|i: int| 0 <= i < rest.len() implies (#[trigger] rest[i]).round.rules == rules by {
            assert(rest[i] == steps[i]);
        }
        assert(steps[steps.len() - 1] == step);
        run_keeps_figures(s, rest, rules);
        let before = run_state(s, rest);
        round_keeps_figures(before, step.keys, step.universe.expiries.entries@, step.round);
        let after = step_state(before, step);
        let base = run_log(s, rest);
        let log = run_log(s, steps);
        assert forall|i: int| 0 <= i < log.len() implies figures_agree((#[trigger] log[i]).position, rules) by {
            if i < base.len() {
                assert(log[i] == base[i]);
            } else {
                assert(log[i].position == after.emitted[i - base.len()]);
            }
        }
    }
}

/// What a position brought in the end is both sides less the fees of both, to
/// the unit.
pub proof fn ended_position_adds_up(p: PositionView<Fixed>, rules: ScanRules<Fixed>)
    requires
        figures_agree(p, rules),
        p.status == "closed"@ || p.status == "settled"@,
        is_moderate(p.open_gross) && is_moderate(p.open_fee),
        is_moderate(p.close_gross) && is_moderate(p.close_fee),
        is_moderate(rules.spot_fee_rate.times_spec(p.close_spot)),
        is_moderate(rules.exercise_fee_rate.times_spec(p.close_spot)),
    ensures
        p.net_profit_per_btc.units == p.open_gross.units + p.close_gross.units - p.open_fee.units
            - p.close_fee.units,
{
}

} // verus!
