//! The scanner: the positions that are open, and one round over them and over
//! the market.
use crate::model::{
    book_at, strike_key_spec, well_keyed, BookTop, ExpiryEntry, Position, PositionView, Quotes, StrikePair, Universe,
};
use crate::rank::{is_sorted, rank_number, sort_descending, Ranked};
use crate::scalar::{zero_spec, Scalar};
use crate::scan::{
    fate_of, fate_spec, hms, hms_spec, is_kind, opening_of, opening_spec, place_key_is_unique, pos_id_spec,
    pos_key, pos_key_spec, settled_spec, Fate, PlaceView, ScanRules,
};
use crate::table::Table;
use crate::text::{lemma_text_less_irreflexive, text_less, texts};
use vstd::prelude::*;
use vstd::string::*;

verus! {

/// The open positions by their places, when a place was last taken or left,
/// and when a position was last recorded.
pub struct Scanner<N> {
    pub positions: Table<String, Position<N>>,
    pub last_open: Table<String, i64>,
    pub last_emit: Table<String, i64>,
}

/// What a round did: the positions to record, in order, and how many opened
/// and ended.
pub struct ScanReport<N> {
    pub emitted: Vec<Position<N>>,
    pub opened: usize,
    pub closed: usize,
}

/// What is shown of the open positions: the time of day, how many there are,
/// how many opened and ended in the round, and those with the largest rates.
pub struct Summary<N> {
    pub time: String,
    pub held: usize,
    pub opened: usize,
    pub closed: usize,
    pub top: Vec<Position<N>>,
}

/// The scanner in contracts, with what it has recorded in a round.
#[verifier::ext_equal]
pub struct ScanState<N> {
    pub positions: Map<Seq<char>, PositionView<N>>,
    pub last_open: Map<Seq<char>, i64>,
    pub last_emit: Map<Seq<char>, i64>,
    pub emitted: Seq<PositionView<N>>,
    pub closed: nat,
}

/// What a round goes by.
pub struct RoundView<N> {
    pub books: Map<Seq<char>, BookTop<N>>,
    pub spot: BookTop<N>,
    pub rules: ScanRules<N>,
    pub now: i64,
}

/// The positions of a vector.
pub open spec fn views<N>(v: Seq<Position<N>>) -> Seq<PositionView<N>> {
    v.map_values(|p: Position<N>| p@)
}

/// What a map holds under a key.
pub open spec fn at<V>(m: Map<Seq<char>, V>, key: Seq<char>) -> Option<V> {
    if m.contains_key(key) {
        Some(m[key])
    } else {
        None
    }
}

// ---------------------------------------------------------------------------
// Looking after the open positions
// ---------------------------------------------------------------------------
/// Looks after the position at one place.
pub open spec fn manage_one<N: Scalar>(s: ScanState<N>, key: Seq<char>, round: RoundView<N>) -> ScanState<N> {
    if !s.positions.contains_key(key) {
        s
    } else {
        let pos = s.positions[key];
        match fate_spec(
            pos,
            book_at(round.books, pos.call_symbol),
            book_at(round.books, pos.put_symbol),
            round.spot,
            round.rules,
            round.now,
            at(s.last_emit, pos.id),
        ) {
            Fate::Settle(p) => ended(s, key, pos.id, p, round.now),
            Fate::Close(p) => ended(s, key, pos.id, p, round.now),
            Fate::Mark(p) => ScanState {
                positions: s.positions.insert(key, p),
                last_emit: s.last_emit.insert(pos.id, round.now),
                emitted: s.emitted.push(p),
                ..s
            },
            Fate::Hold => s,
        }
    }
}

/// A position ends: it is recorded, and its place is free from now on.
pub open spec fn ended<N: Scalar>(
    s: ScanState<N>,
    key: Seq<char>,
    id: Seq<char>,
    p: PositionView<N>,
    now: i64,
) -> ScanState<N> {
    ScanState {
        positions: s.positions.remove(key),
        last_open: s.last_open.insert(key, now),
        last_emit: s.last_emit.remove(id),
        emitted: s.emitted.push(p),
        closed: s.closed + 1,
    }
}

/// Looks after the positions at several places, one after the other.
pub open spec fn manage_all<N: Scalar>(s: ScanState<N>, keys: Seq<Seq<char>>, round: RoundView<N>) -> ScanState<N>
    decreases keys.len(),
{
    if keys.len() == 0 {
        s
    } else {
        manage_one(manage_all(s, keys.drop_last(), round), keys.last(), round)
    }
}

// ---------------------------------------------------------------------------
// Opening positions
// ---------------------------------------------------------------------------
/// Whether a position may open at a place: none is open there, and enough time
/// has passed since the last one opened or ended.
pub open spec fn is_free<N: Scalar>(s: ScanState<N>, key: Seq<char>, round: RoundView<N>) -> bool {
    !s.positions.contains_key(key) && !(s.last_open.contains_key(key) && round.now - s.last_open[key]
        < round.rules.record_interval_ms)
}

/// The position of one kind that opens at a strike, if any.
pub open spec fn open_one<N: Scalar>(
    s: ScanState<N>,
    kind: Seq<char>,
    place: PlaceView<N>,
    round: RoundView<N>,
) -> Seq<PositionView<N>> {
    if !is_free(s, pos_key_spec(kind, place.expiry, place.strike), round) {
        Seq::empty()
    } else {
        match opening_spec(
            place,
            kind,
            book_at(round.books, place.call),
            book_at(round.books, place.put),
            round.spot,
            round.rules,
            round.now,
        ) {
            Some(p) => seq![p],
            None => Seq::empty(),
        }
    }
}

/// The positions that open at a strike: a reversal, a conversion, or both.
/// A strike without a call or without a put is passed over.
pub open spec fn open_pair<N: Scalar>(
    s: ScanState<N>,
    expiry: Seq<char>,
    expiry_ms: i64,
    pair: StrikePair<N>,
    round: RoundView<N>,
) -> Seq<PositionView<N>> {
    match (pair.call, pair.put) {
        (Some(c), Some(p)) => {
            let place = PlaceView { expiry, expiry_ms, strike: pair.strike, call: c@, put: p@ };
            open_one(s, "reversal"@, place, round) + open_one(s, "conversion"@, place, round)
        },
        _ => Seq::empty(),
    }
}

/// The positions that open at the strikes of an expiry, in order.
pub open spec fn open_strikes<N: Scalar>(
    s: ScanState<N>,
    expiry: Seq<char>,
    expiry_ms: i64,
    strikes: Seq<(i64, StrikePair<N>)>,
    round: RoundView<N>,
) -> Seq<PositionView<N>>
    decreases strikes.len(),
{
    if strikes.len() == 0 {
        Seq::empty()
    } else {
        open_strikes(s, expiry, expiry_ms, strikes.drop_last(), round) + open_pair(
            s,
            expiry,
            expiry_ms,
            strikes.last().1,
            round,
        )
    }
}

/// The positions that open over all expiries, in order.
pub open spec fn open_expiries<N: Scalar>(
    s: ScanState<N>,
    expiries: Seq<(String, ExpiryEntry<N>)>,
    round: RoundView<N>,
) -> Seq<PositionView<N>>
    decreases expiries.len(),
{
    if expiries.len() == 0 {
        Seq::empty()
    } else {
        let e = expiries.last();
        open_expiries(s, expiries.drop_last(), round) + open_strikes(
            s,
            e.0@,
            e.1.expiry_ms,
            e.1.strikes.entries@,
            round,
        )
    }
}

/// A position takes its place and is recorded.
pub open spec fn commit_one<N: Scalar>(s: ScanState<N>, p: PositionView<N>, now: i64) -> ScanState<N> {
    let key = pos_key_spec(p.kind, p.expiry, p.strike);
    ScanState {
        positions: s.positions.insert(key, p),
        last_open: s.last_open.insert(key, now),
        last_emit: s.last_emit.insert(p.id, now),
        emitted: s.emitted.push(p),
        closed: s.closed,
    }
}

/// Positions take their places, one after the other.
pub open spec fn commit_all<N: Scalar>(s: ScanState<N>, opens: Seq<PositionView<N>>, now: i64) -> ScanState<N>
    decreases opens.len(),
{
    if opens.len() == 0 {
        s
    } else {
        commit_one(commit_all(s, opens.drop_last(), now), opens.last(), now)
    }
}

/// One round: the open positions are looked after in the order of their
/// places; then positions open where a place is free after that.
pub open spec fn scan_round<N: Scalar>(
    s: ScanState<N>,
    keys: Seq<Seq<char>>,
    expiries: Seq<(String, ExpiryEntry<N>)>,
    round: RoundView<N>,
) -> ScanState<N> {
    let managed = manage_all(s, keys, round);
    commit_all(managed, open_expiries(managed, expiries, round), round.now)
}

// ---------------------------------------------------------------------------
// The scanner
// ---------------------------------------------------------------------------
impl<N: Scalar> Scanner<N> {
    /// The three tables are in order.
    pub open spec fn wf(&self) -> bool {
        self.positions.wf() && self.last_open.wf() && self.last_emit.wf()
    }

    /// What the scanner holds, with nothing recorded yet.
    pub open spec fn state(&self) -> ScanState<N> {
        self.state_with(Seq::empty(), 0)
    }

    /// What the scanner holds, with what was recorded so far.
    pub open spec fn state_with(&self, emitted: Seq<PositionView<N>>, closed: nat) -> ScanState<N> {
        ScanState {
            positions: self.positions.map().map_values(|p: Position<N>| p@),
            last_open: self.last_open.map(),
            last_emit: self.last_emit.map(),
            emitted,
            closed,
        }
    }

    /// A scanner without positions.
    pub fn new() -> (r: Self)
        ensures
            r.wf(),
            r.state() == (ScanState::<N> {
                positions: Map::empty(),
                last_open: Map::empty(),
                last_emit: Map::empty(),
                emitted: Seq::empty(),
                closed: 0,
            }),
    {
        let r = Scanner { positions: Table::new(), last_open: Table::new(), last_emit: Table::new() };
        proof {
            assert(r.state().positions =~= Map::<Seq<char>, PositionView<N>>::empty());
        }
        r
    }

    /// Takes in the positions that were open when the scanner stopped.
    pub fn restore(open: Vec<Position<N>>) -> (r: Self)
        ensures
            r.wf(),
            r.state() == (ScanState::<N> {
                positions: placed(views(open@)),
                last_open: Map::empty(),
                last_emit: Map::empty(),
                emitted: Seq::empty(),
                closed: 0,
            }),
    {
        let mut r = Scanner::<N>::new();
        let n: usize = open.len();
        let mut i: usize = 0;
        proof {
            assert(views(open@).take(0) =~= Seq::<PositionView<N>>::empty());
        }
        while i < n
            invariant
                i <= n,
                n == open@.len(),
                r.wf(),
                r.state() == (ScanState::<N> {
                    positions: placed(views(open@).take(i as int)),
                    last_open: Map::empty(),
                    last_emit: Map::empty(),
                    emitted: Seq::empty(),
                    closed: 0,
                }),
            decreases n - i,
        {
            let p = open[i].clone();
            let key = pos_key(p.kind, p.expiry.as_str(), p.strike);
            let ghost before = r;
            r.positions.insert(key, p);
            proof {
                let t = views(open@).take(i + 1);
                assert(t.drop_last() =~= views(open@).take(i as int));
                assert(t.last() == open@[i as int]@);
                assert(r.state().positions =~= before.state().positions.insert(key@, p@));
            }
            i = i + 1;
        }
        proof {
            assert(views(open@).take(n as int) =~= views(open@));
        }
        r
    }

    /// Looks after the position at one place.
    fn manage(
        &mut self,
        key: &String,
        quotes: &Quotes<N>,
        spot: &BookTop<N>,
        rules: &ScanRules<N>,
        now: i64,
        emitted: &mut Vec<Position<N>>,
        closed: &mut usize,
    )
        requires
            old(self).wf(),
            quotes.wf(),
            *old(closed) < usize::MAX,
        ensures
            final(self).wf(),
            *old(closed) <= *final(closed) <= *old(closed) + 1,
            final(self).state_with(views(final(emitted)@), *final(closed) as nat) == manage_one(
                old(self).state_with(views(old(emitted)@), *old(closed) as nat),
                key@,
                (RoundView { books: quotes.books(), spot: *spot, rules: *rules, now }),
            ),
    {
        let ghost before = *self;
        let ghost emitted0 = emitted@;
        let ghost s0 = self.state_with(views(emitted@), *closed as nat);
        let pos: Position<N> = match self.positions.get(key) {
            Some(p) => p.clone(),
            None => {
                return;
            },
        };
        let call: BookTop<N> = quotes.option(pos.call_symbol.as_str());
        let put: BookTop<N> = quotes.option(pos.put_symbol.as_str());
        let last: Option<i64> = match self.last_emit.get(&pos.id) {
            Some(t) => Some(*t),
            None => None,
        };
        proof {
            assert(s0.positions[key@] == pos@);
        }
        match fate_of(&pos, &call, &put, spot, rules, now, last) {
            Fate::Settle(done) => {
                self.end(key, &pos.id, now);
                *closed = *closed + 1;
                emitted.push(done);
                proof {
                    assert(views(emitted@) =~= views(emitted0).push(done@));
                }
            },
            Fate::Close(done) => {
                self.end(key, &pos.id, now);
                *closed = *closed + 1;
                emitted.push(done);
                proof {
                    assert(views(emitted@) =~= views(emitted0).push(done@));
                }
            },
            Fate::Mark(marked) => {
                self.positions.insert(key.clone(), marked.clone());
                self.last_emit.insert(pos.id.clone(), now);
                emitted.push(marked);
                proof {
                    assert(views(emitted@) =~= views(emitted0).push(marked@));
                    assert(self.state().positions =~= before.state().positions.insert(key@, marked@));
                }
            },
            Fate::Hold => {},
        }
    }

    /// Frees a place.
    fn end(&mut self, key: &String, id: &String, now: i64)
        requires
            old(self).wf(),
        ensures
            final(self).wf(),
            final(self).state().positions == old(self).state().positions.remove(key@),
            final(self).state().last_open == old(self).state().last_open.insert(key@, now),
            final(self).state().last_emit == old(self).state().last_emit.remove(id@),
    {
        let ghost before = *self;
        let _ = self.positions.remove(key);
        self.last_open.insert(key.clone(), now);
        let _ = self.last_emit.remove(id);
        proof {
            assert(self.state().positions =~= before.state().positions.remove(key@));
        }
    }

    /// Whether a position may open at a place.
    fn free(&self, key: &String, rules: &ScanRules<N>, now: i64) -> (r: bool)
        requires
            self.wf(),
        ensures
            forall|round: RoundView<N>|
                round.rules == *rules && round.now == now ==> r == #[trigger] is_free(self.state(), key@, round),
    {
        if self.positions.contains(key) {
            return false;
        }
        match self.last_open.get(key) {
            Some(t) => now as i128 - *t as i128 >= rules.record_interval_ms as i128,
            None => true,
        }
    }

    /// Opens a position of one kind at a strike, if that is in order.
    fn open_kind(
        &self,
        kind: &'static str,
        expiry: &String,
        expiry_ms: i64,
        strike: N,
        call_symbol: &String,
        put_symbol: &String,
        quotes: &Quotes<N>,
        spot: &BookTop<N>,
        rules: &ScanRules<N>,
        now: i64,
        opens: &mut Vec<Position<N>>,
    )
        requires
            self.wf(),
            quotes.wf(),
        ensures
            views(final(opens)@) == views(old(opens)@) + open_one(
                self.state(),
                kind@,
                (PlaceView { expiry: expiry@, expiry_ms, strike, call: call_symbol@, put: put_symbol@ }),
                (RoundView { books: quotes.books(), spot: *spot, rules: *rules, now }),
            ),
    {
        let ghost opens0 = opens@;
        let ghost round = RoundView { books: quotes.books(), spot: *spot, rules: *rules, now };
        let key = pos_key(kind, expiry.as_str(), strike);
        let free: bool = self.free(&key, rules, now);
        proof {
            assert(free == is_free(self.state(), key@, round));
            assert(views(opens0) + Seq::<PositionView<N>>::empty() =~= views(opens0));
        }
        if !free {
            return;
        }
        let call: BookTop<N> = quotes.option(call_symbol.as_str());
        let put: BookTop<N> = quotes.option(put_symbol.as_str());
        match opening_of(
            kind,
            expiry,
            expiry_ms,
            strike,
            call_symbol,
            put_symbol,
            &call,
            &put,
            spot,
            rules,
            now,
        ) {
            Some(p) => {
                opens.push(p);
                proof {
                    assert(views(opens@) =~= views(opens0) + seq![p@]);
                }
            },
            None => {},
        }
    }

    /// Opens what can be opened at the strikes of an expiry.
    fn open_at(
        &self,
        expiry: &String,
        entry: &ExpiryEntry<N>,
        quotes: &Quotes<N>,
        spot: &BookTop<N>,
        rules: &ScanRules<N>,
        now: i64,
        opens: &mut Vec<Position<N>>,
    )
        requires
            self.wf(),
            quotes.wf(),
        ensures
            views(final(opens)@) == views(old(opens)@) + open_strikes(
                self.state(),
                expiry@,
                entry.expiry_ms,
                entry.strikes.entries@,
                (RoundView { books: quotes.books(), spot: *spot, rules: *rules, now }),
            ),
    {
        let ghost round = RoundView { books: quotes.books(), spot: *spot, rules: *rules, now };
        let ghost s = self.state();
        let ghost opens0 = views(opens@);
        let ghost all = entry.strikes.entries@;
        let n: usize = entry.strikes.len();
        let mut i: usize = 0;
        proof {
            assert(all.take(0) =~= Seq::<(i64, StrikePair<N>)>::empty());
            assert(opens0 + Seq::<PositionView<N>>::empty() =~= opens0);
        }
        while i < n
            invariant
                i <= n,
                n == all.len(),
                all == entry.strikes.entries@,
                self.wf(),
                quotes.wf(),
                s == self.state(),
                round == (RoundView { books: quotes.books(), spot: *spot, rules: *rules, now }),
                views(opens@) == opens0 + open_strikes(s, expiry@, entry.expiry_ms, all.take(i as int), round),
            decreases n - i,
        {
            let pair: &StrikePair<N> = &entry.strikes.entries[i].1;
            let ghost before = views(opens@);
            proof {
                assert(all.take(i + 1).drop_last() =~= all.take(i as int));
                assert(all.take(i + 1).last() == all[i as int]);
            }
            let ghost found = open_pair(s, expiry@, entry.expiry_ms, *pair, round);
            match (&pair.call, &pair.put) {
                (Some(c), Some(p)) => {
                    self.open_kind(
                        "reversal",
                        expiry,
                        entry.expiry_ms,
                        pair.strike,
                        c,
                        p,
                        quotes,
                        spot,
                        rules,
                        now,
                        opens,
                    );
                    self.open_kind(
                        "conversion",
                        expiry,
                        entry.expiry_ms,
                        pair.strike,
                        c,
                        p,
                        quotes,
                        spot,
                        rules,
                        now,
                        opens,
                    );
                },
                _ => {},
            }
            proof {
                assert(views(opens@) =~= before + found);
                assert(before + found =~= opens0 + (open_strikes(
                    s,
                    expiry@,
                    entry.expiry_ms,
                    all.take(i as int),
                    round,
                ) + found));
            }
            i = i + 1;
        }
        proof {
            assert(all.take(n as int) =~= all);
        }
    }

    /// Gives a position its place.
    fn commit(&mut self, p: Position<N>, now: i64, emitted: &mut Vec<Position<N>>)
        requires
            old(self).wf(),
        ensures
            final(self).wf(),
            forall|c: nat|
                final(self).state_with(views(final(emitted)@), c) == #[trigger] commit_one(
                    old(self).state_with(views(old(emitted)@), c),
                    p@,
                    now,
                ),
    {
        let ghost before = *self;
        let ghost emitted0 = emitted@;
        let key = pos_key(p.kind, p.expiry.as_str(), p.strike);
        self.last_open.insert(key.clone(), now);
        self.last_emit.insert(p.id.clone(), now);
        emitted.push(p.clone());
        let ghost name = key@;
        let ghost view = p@;
        self.positions.insert(key, p);
        proof {
            assert(views(emitted@) =~= views(emitted0).push(view));
            assert(self.state().positions =~= before.state().positions.insert(name, view));
            assert forall|c: nat|
                self.state_with(views(emitted@), c) == #[trigger] commit_one(
                    before.state_with(views(emitted0), c),
                    view,
                    now,
                ) by {
                assert(self.state_with(views(emitted@), c).positions == self.state().positions);
                assert(before.state_with(views(emitted0), c).positions == before.state().positions);
                assert(self.state_with(views(emitted@), c) =~= commit_one(
                    before.state_with(views(emitted0), c),
                    view,
                    now,
                ));
            }
        }
    }

    /// One round over the open positions and over the market. There is none
    /// while the spot market is not quoted on either side.
    pub fn scan(&mut self, universe: &Universe<N>, quotes: &Quotes<N>, rules: &ScanRules<N>, now: i64) -> (r:
        Option<ScanReport<N>>)
        requires
            old(self).wf(),
            quotes.wf(),
        ensures
            final(self).wf(),
            r is Some <==> quotes.spot_book().bid_quoted() || quotes.spot_book().ask_quoted(),
            r is None ==> *final(self) == *old(self),
            r matches Some(report) ==> {
                let round = RoundView {
                    books: quotes.books(),
                    spot: quotes.spot_book(),
                    rules: *rules,
                    now,
                };
                let managed = manage_all(old(self).state(), old(self).positions.names(), round);
                let opens = open_expiries(managed, universe.expiries.entries@, round);
                &&& final(self).state_with(views(report.emitted@), report.closed as nat) == scan_round(
                    old(self).state(),
                    old(self).positions.names(),
                    universe.expiries.entries@,
                    round,
                )
                &&& report.opened == opens.len()
            },
    {
        let spot: BookTop<N> = quotes.spot_snapshot();
        if !spot.has_bid() && !spot.has_ask() {
            return None;
        }
        let ghost round = RoundView { books: quotes.books(), spot, rules: *rules, now };
        let ghost s0 = self.state();
        let ghost names = self.positions.names();
        let mut emitted: Vec<Position<N>> = Vec::new();
        let mut closed: usize = 0;
        let keys: Vec<String> = self.places();
        let n: usize = keys.len();
        let mut i: usize = 0;
        proof {
            assert(views(emitted@) =~= Seq::<PositionView<N>>::empty());
            assert(names.take(0) =~= Seq::<Seq<char>>::empty());
        }
        while i < n
            invariant
                i <= n,
                n == keys@.len(),
                texts(keys@) == names,
                closed <= i,
                self.wf(),
                quotes.wf(),
                round == (RoundView { books: quotes.books(), spot, rules: *rules, now }),
                self.state_with(views(emitted@), closed as nat) == manage_all(s0, names.take(i as int), round),
            decreases n - i,
        {
            proof {
                assert(names.take(i + 1).drop_last() =~= names.take(i as int));
                assert(names.take(i + 1).last() == keys@[i as int]@);
            }
            self.manage(&keys[i], quotes, &spot, rules, now, &mut emitted, &mut closed);
            i = i + 1;
        }
        proof {
            assert(names.take(n as int) =~= names);
        }
        let ghost managed = manage_all(s0, names, round);
        let ghost emitted1 = views(emitted@);

        let mut opens: Vec<Position<N>> = Vec::new();
        let ghost all = universe.expiries.entries@;
        let m: usize = universe.expiries.len();
        let mut j: usize = 0;
        proof {
            assert(views(opens@) =~= Seq::<PositionView<N>>::empty());
            assert(all.take(0) =~= Seq::<(String, ExpiryEntry<N>)>::empty());
        }
        while j < m
            invariant
                j <= m,
                m == all.len(),
                all == universe.expiries.entries@,
                self.wf(),
                quotes.wf(),
                round == (RoundView { books: quotes.books(), spot, rules: *rules, now }),
                self.state_with(emitted1, closed as nat) == managed,
                views(opens@) == open_expiries(managed, all.take(j as int), round),
            decreases m - j,
        {
            let entry: &(String, ExpiryEntry<N>) = &universe.expiries.entries[j];
            proof {
                assert(all.take(j + 1).drop_last() =~= all.take(j as int));
                assert(all.take(j + 1).last() == all[j as int]);
                lemma_opens_ignore_records(self.state(), managed, entry.0@, entry.1.expiry_ms, entry.1.strikes.entries@, round);
            }
            self.open_at(&entry.0, &entry.1, quotes, &spot, rules, now, &mut opens);
            j = j + 1;
        }
        proof {
            assert(all.take(m as int) =~= all);
        }
        let ghost opened = views(opens@);

        let k_max: usize = opens.len();
        let mut k: usize = 0;
        proof {
            assert(opened.take(0) =~= Seq::<PositionView<N>>::empty());
        }
        while k < k_max
            invariant
                k <= k_max,
                k_max == opens@.len(),
                opened == views(opens@),
                self.wf(),
                self.state_with(views(emitted@), closed as nat) == commit_all(managed, opened.take(k as int), now),
            decreases k_max - k,
        {
            let ghost before = self.state_with(views(emitted@), closed as nat);
            let p = opens[k].clone();
            proof {
                assert(opened.take(k + 1).drop_last() =~= opened.take(k as int));
                assert(opened.take(k + 1).last() == p@);
            }
            self.commit(p, now, &mut emitted);
            proof {
                assert(self.state_with(views(emitted@), closed as nat) == commit_one(before, p@, now));
            }
            k = k + 1;
        }
        proof {
            assert(opened.take(k_max as int) =~= opened);
        }
        Some(ScanReport { emitted, opened: k_max, closed })
    }

    /// What to show after a round: the positions with the largest rates, at
    /// most eight of them. Nothing where there is nothing to say.
    pub fn summary(&self, now: i64, opened: usize, closed: usize) -> (r: Option<Summary<N>>)
        ensures
            r is None <==> self.positions.entries@.len() == 0 && opened == 0 && closed == 0,
            r matches Some(s) ==> {
                &&& s.time@ == hms_spec(now)
                &&& s.held == self.positions.entries@.len()
                &&& s.opened == opened
                &&& s.closed == closed
                &&& is_top(self.positions.values(), s.top@, 8)
            },
    {
        let held: usize = self.positions.len();
        if held == 0 && opened == 0 && closed == 0 {
            return None;
        }
        let mut all: Vec<Position<N>> = Vec::new();
        let ghost values = self.positions.values();
        let mut i: usize = 0;
        while i < held
            invariant
                i <= held,
                held == self.positions.entries@.len(),
                values == self.positions.values(),
                all@ == values.take(i as int),
            decreases held - i,
        {
            let p: Position<N> = self.positions.entries[i].1.clone();
            all.push(p);
            proof {
                assert(values[i as int] == p);
                assert(values.take(i + 1) =~= values.take(i as int).push(values[i as int]));
            }
            i = i + 1;
        }
        proof {
            assert(values.take(held as int) =~= values);
        }
        sort_descending::<N, Position<N>>(&mut all);
        let ghost sorted = all@;
        if all.len() > 8 {
            all.truncate(8);
        }
        proof {
            let most = if values.len() < 8 {
                values.len() as int
            } else {
                8
            };
            assert(all@ =~= sorted.take(most));
            assert(all@ == top_of(sorted, 8));
        }
        Some(Summary { time: hms(now), held, opened, closed, top: all })
    }

    /// The places that are taken, in order.
    fn places(&self) -> (r: Vec<String>)
        ensures
            texts(r@) == self.positions.names(),
    {
        let mut keys: Vec<String> = Vec::new();
        let n: usize = self.positions.len();
        let mut i: usize = 0;
        while i < n
            invariant
                i <= n,
                n == self.positions.entries@.len(),
                texts(keys@) == self.positions.names().take(i as int),
            decreases n - i,
        {
            let ghost before = keys@;
            let key: String = self.positions.entries[i].0.clone();
            keys.push(key);
            proof {
                let names = self.positions.names();
                assert(names[i as int] == key@);
                assert(texts(keys@) =~= texts(before).push(key@));
                assert(names.take(i + 1) =~= names.take(i as int).push(names[i as int]));
            }
            i = i + 1;
        }
        proof {
            assert(self.positions.names().take(n as int) =~= self.positions.names());
        }
        keys
    }
}

/// What opens does not depend on what was recorded in the round.
proof fn lemma_opens_ignore_records<N: Scalar>(
    s: ScanState<N>,
    t: ScanState<N>,
    expiry: Seq<char>,
    expiry_ms: i64,
    strikes: Seq<(i64, StrikePair<N>)>,
    round: RoundView<N>,
)
    requires
        s.positions == t.positions,
        s.last_open == t.last_open,
    ensures
        open_strikes(s, expiry, expiry_ms, strikes, round) == open_strikes(t, expiry, expiry_ms, strikes, round),
    decreases strikes.len(),
{
    if strikes.len() > 0 {
        lemma_opens_ignore_records(s, t, expiry, expiry_ms, strikes.drop_last(), round);
        let pair = strikes.last().1;
        if pair.call is Some && pair.put is Some {
            assert(is_free(s, pos_key_spec("reversal"@, expiry, pair.strike), round) == is_free(
                t,
                pos_key_spec("reversal"@, expiry, pair.strike),
                round,
            ));
        }
        assert(open_pair(s, expiry, expiry_ms, pair, round) == open_pair(t, expiry, expiry_ms, pair, round));
    }
}

/// `top` holds the items with the largest numbers, the largest first, and
/// `limit` of them at most. Ties keep their order.
pub open spec fn is_top<N: Scalar, T: Ranked<N>>(items: Seq<T>, top: Seq<T>, limit: int) -> bool {
    exists|sorted: Seq<T>|
        {
            &&& #[trigger] top_of(sorted, limit) == top
            &&& is_sorted(items, sorted, rank_number::<N, T>())
        }
}

/// The first items, `limit` of them at most.
pub open spec fn top_of<T>(items: Seq<T>, limit: int) -> Seq<T> {
    items.take(
        if items.len() < limit {
            items.len() as int
        } else {
            limit
        },
    )
}

/// Whether the summary is shown after a round: about every two seconds.
pub fn shows_summary(round: u64, scan_interval_ms: u64) -> (r: bool)
    requires
        scan_interval_ms > 0,
    ensures
        r <==> 2000u64 / scan_interval_ms == 0 || round % (2000u64 / scan_interval_ms) == 0,
{
    let every: u64 = 2000 / scan_interval_ms;
    if every == 0 {
        true
    } else {
        round % every == 0
    }
}

/// Positions by their places, the last one where several share a place.
pub open spec fn placed<N: Scalar>(positions: Seq<PositionView<N>>) -> Map<Seq<char>, PositionView<N>>
    decreases positions.len(),
{
    if positions.len() == 0 {
        Map::empty()
    } else {
        let p = positions.last();
        placed(positions.drop_last()).insert(pos_key_spec(p.kind, p.expiry, p.strike), p)
    }
}

/// The largest rates first.
impl<N: Scalar> Ranked<N> for Position<N> {
    open spec fn rank_spec(&self) -> N {
        self.open_rate
    }

    fn rank(&self) -> (r: N) {
        self.open_rate
    }
}

// ---------------------------------------------------------------------------
// Laws
// ---------------------------------------------------------------------------
/// Every position is open and stands under its own place.
pub open spec fn well_placed<N: Scalar>(s: ScanState<N>) -> bool {
    forall|key: Seq<char>| #[trigger]
        s.positions.contains_key(key) ==> {
            let p = s.positions[key];
            key == pos_key_spec(p.kind, p.expiry, p.strike) && p.status == "open"@
        }
}

/// What was fixed when a position opened is the same in two records of it.
pub open spec fn same_opening<N>(a: PositionView<N>, b: PositionView<N>) -> bool {
    &&& a.id == b.id
    &&& a.kind == b.kind
    &&& a.expiry == b.expiry
    &&& a.expiry_ms == b.expiry_ms
    &&& a.strike == b.strike
    &&& a.call_symbol == b.call_symbol
    &&& a.put_symbol == b.put_symbol
    &&& a.open_ts == b.open_ts
    &&& a.open_spot == b.open_spot
    &&& a.open_call == b.open_call
    &&& a.open_put == b.open_put
    &&& a.open_gross == b.open_gross
    &&& a.open_fee == b.open_fee
    &&& a.open_net == b.open_net
    &&& a.open_rate == b.open_rate
    &&& a.open_annual_rate == b.open_annual_rate
    &&& a.target_close_rate == b.target_close_rate
}

/// A position opens in order: its place is free, it leaves a net profit, and
/// its rates and its size reach the thresholds.
pub open spec fn opens_in_order<N: Scalar>(p: PositionView<N>, s: ScanState<N>, round: RoundView<N>) -> bool {
    &&& p.status == "open"@
    &&& p.id == pos_id_spec(p.kind, p.expiry, p.strike, p.open_ts)
    &&& p.open_ts == round.now
    &&& p.kind == "reversal"@ || p.kind == "conversion"@
    &&& is_free(s, pos_key_spec(p.kind, p.expiry, p.strike), round)
    &&& !p.open_net.at_most_spec(zero_spec::<N>())
    &&& !p.open_rate.less_spec(round.rules.min_profit_rate)
    &&& !p.open_annual_rate.less_spec(round.rules.min_annual_rate)
    &&& !p.exec_qty.less_spec(round.rules.min_exec_qty)
    &&& p.target_close_rate == round.rules.close_rate_discount.times_spec(p.open_rate)
}

/// Whatever becomes of a position, what was fixed when it opened stays.
pub proof fn fate_keeps_opening<N: Scalar>(
    pos: PositionView<N>,
    call: BookTop<N>,
    put: BookTop<N>,
    spot: BookTop<N>,
    rules: ScanRules<N>,
    now: i64,
    last_emit: Option<i64>,
)
    ensures
        match fate_spec(pos, call, put, spot, rules, now, last_emit) {
            Fate::Settle(p) => same_opening(pos, p) && p.status == "settled"@ && pos.expiry_ms <= now,
            Fate::Close(p) => same_opening(pos, p) && p.status == "closed"@ && now < pos.expiry_ms
                && pos.target_close_rate.at_most_spec(p.net_profit_rate),
            Fate::Mark(p) => same_opening(pos, p) && p.status == pos.status && now < pos.expiry_ms
                && !pos.target_close_rate.at_most_spec(p.net_profit_rate),
            Fate::Hold => now < pos.expiry_ms,
        },
{
}

/// Every position that a round opens opens in order.
pub proof fn openings_are_in_order<N: Scalar>(
    s: ScanState<N>,
    expiries: Seq<(String, ExpiryEntry<N>)>,
    round: RoundView<N>,
)
    ensures
        forall|i: int|
            0 <= i < open_expiries(s, expiries, round).len() ==> opens_in_order(
                #[trigger] open_expiries(s, expiries, round)[i],
                s,
                round,
            ),
    decreases expiries.len(),
{
    if expiries.len() > 0 {
        let e = expiries.last();
        openings_are_in_order(s, expiries.drop_last(), round);
        lemma_strikes_in_order(s, e.0@, e.1.expiry_ms, e.1.strikes.entries@, round);
        let a = open_expiries(s, expiries.drop_last(), round);
        let b = open_strikes(s, e.0@, e.1.expiry_ms, e.1.strikes.entries@, round);
        assert forall|i: int| 0 <= i < (a + b).len() implies opens_in_order(#[trigger] (a + b)[i], s, round) by {
            if i < a.len() {
                assert((a + b)[i] == a[i]);
            } else {
                assert((a + b)[i] == b[i - a.len()]);
            }
        }
    }
}

proof fn lemma_strikes_in_order<N: Scalar>(
    s: ScanState<N>,
    expiry: Seq<char>,
    expiry_ms: i64,
    strikes: Seq<(i64, StrikePair<N>)>,
    round: RoundView<N>,
)
    ensures
        forall|i: int|
            0 <= i < open_strikes(s, expiry, expiry_ms, strikes, round).len() ==> opens_in_order(
                #[trigger] open_strikes(s, expiry, expiry_ms, strikes, round)[i],
                s,
                round,
            ),
    decreases strikes.len(),
{
    if strikes.len() > 0 {
        lemma_strikes_in_order(s, expiry, expiry_ms, strikes.drop_last(), round);
        let a = open_strikes(s, expiry, expiry_ms, strikes.drop_last(), round);
        let b = open_pair(s, expiry, expiry_ms, strikes.last().1, round);
        assert forall|i: int| 0 <= i < b.len() implies opens_in_order(#[trigger] b[i], s, round) by {
            lemma_pair_in_order(s, expiry, expiry_ms, strikes.last().1, round, i);
        }
        assert forall|i: int| 0 <= i < (a + b).len() implies opens_in_order(#[trigger] (a + b)[i], s, round) by {
            if i < a.len() {
                assert((a + b)[i] == a[i]);
            } else {
                assert((a + b)[i] == b[i - a.len()]);
            }
        }
    }
}

proof fn lemma_pair_in_order<N: Scalar>(
    s: ScanState<N>,
    expiry: Seq<char>,
    expiry_ms: i64,
    pair: StrikePair<N>,
    round: RoundView<N>,
    i: int,
)
    requires
        0 <= i < open_pair(s, expiry, expiry_ms, pair, round).len(),
    ensures
        opens_in_order(open_pair(s, expiry, expiry_ms, pair, round)[i], s, round),
{
    let place = PlaceView {
        expiry,
        expiry_ms,
        strike: pair.strike,
        call: pair.call->0@,
        put: pair.put->0@,
    };
    let a = open_one(s, "reversal"@, place, round);
    let b = open_one(s, "conversion"@, place, round);
    if i < a.len() {
        assert((a + b)[i] == a[i]);
        assert(i == 0);
    } else {
        assert((a + b)[i] == b[i - a.len()]);
        assert(i - a.len() == 0);
    }
}

proof fn lemma_manage_keeps_places<N: Scalar>(s: ScanState<N>, keys: Seq<Seq<char>>, round: RoundView<N>)
    requires
        well_placed(s),
    ensures
        well_placed(manage_all(s, keys, round)),
    decreases keys.len(),
{
    if keys.len() > 0 {
        lemma_manage_keeps_places(s, keys.drop_last(), round);
    }
}

proof fn lemma_commit_keeps_places<N: Scalar>(s: ScanState<N>, opens: Seq<PositionView<N>>, now: i64)
    requires
        well_placed(s),
        forall|i: int| 0 <= i < opens.len() ==> (#[trigger] opens[i]).status == "open"@,
    ensures
        well_placed(commit_all(s, opens, now)),
    decreases opens.len(),
{
    if opens.len() > 0 {
        assert forall|i: int| 0 <= i < opens.drop_last().len() implies (#[trigger] opens.drop_last()[i]).status
            == "open"@ by {
            assert(opens.drop_last()[i] == opens[i]);
        }
        lemma_commit_keeps_places(s, opens.drop_last(), now);
        assert(opens[opens.len() - 1].status == "open"@);
    }
}

/// A round leaves every position open and under its own place, so that no
/// place ever holds two.
pub proof fn round_keeps_places<N: Scalar>(
    s: ScanState<N>,
    keys: Seq<Seq<char>>,
    expiries: Seq<(String, ExpiryEntry<N>)>,
    round: RoundView<N>,
)
    requires
        well_placed(s),
    ensures
        well_placed(scan_round(s, keys, expiries, round)),
{
    let managed = manage_all(s, keys, round);
    lemma_manage_keeps_places(s, keys, round);
    openings_are_in_order(managed, expiries, round);
    lemma_commit_keeps_places(managed, open_expiries(managed, expiries, round), round.now);
}

/// Positions that were open when the scanner stopped stand under their places
/// when it starts again.
pub proof fn restored_positions_are_placed<N: Scalar>(open: Seq<PositionView<N>>)
    requires
        forall|i: int| 0 <= i < open.len() ==> (#[trigger] open[i]).status == "open"@,
    ensures
        well_placed(
            (ScanState::<N> {
                positions: placed(open),
                last_open: Map::empty(),
                last_emit: Map::empty(),
                emitted: Seq::empty(),
                closed: 0,
            }),
        ),
    decreases open.len(),
{
    if open.len() > 0 {
        let rest = open.drop_last();
        assert forall|i: int| 0 <= i < rest.len() implies (#[trigger] rest[i]).status == "open"@ by {
            assert(rest[i] == open[i]);
        }
        restored_positions_are_placed(rest);
        let s = ScanState::<N> {
            positions: placed(rest),
            last_open: Map::empty(),
            last_emit: Map::empty(),
            emitted: Seq::empty(),
            closed: 0,
        };
        assert(open[open.len() - 1].status == "open"@);
        assert forall|key: Seq<char>| #[trigger] placed(open).contains_key(key) implies {
            let p = placed(open)[key];
            key == pos_key_spec(p.kind, p.expiry, p.strike) && p.status == "open"@
        } by {
            if s.positions.contains_key(key) {
                assert(s.positions[key].status == "open"@);
            }
        }
    }
}

proof fn lemma_manage_keeps_openings<N: Scalar>(
    s: ScanState<N>,
    keys: Seq<Seq<char>>,
    round: RoundView<N>,
    key: Seq<char>,
)
    ensures
        manage_all(s, keys, round).positions.contains_key(key) ==> s.positions.contains_key(key) && same_opening(
            s.positions[key],
            manage_all(s, keys, round).positions[key],
        ),
    decreases keys.len(),
{
    if keys.len() > 0 {
        lemma_manage_keeps_openings(s, keys.drop_last(), round, key);
    }
}

proof fn lemma_commit_adds<N: Scalar>(s: ScanState<N>, opens: Seq<PositionView<N>>, now: i64, key: Seq<char>)
    ensures
        commit_all(s, opens, now).positions.contains_key(key) ==> (s.positions.contains_key(key)
            && commit_all(s, opens, now).positions[key] == s.positions[key]) || opens.contains(
            commit_all(s, opens, now).positions[key],
        ),
    decreases opens.len(),
{
    if opens.len() > 0 {
        lemma_commit_adds(s, opens.drop_last(), now, key);
        let rest = opens.drop_last();
        let before = commit_all(s, rest, now);
        let last = opens.last();
        assert(opens[opens.len() - 1] == last);
        assert(opens.contains(last));
        if before.positions.contains_key(key) && rest.contains(before.positions[key]) {
            let i = choose|i: int| 0 <= i < rest.len() && rest[i] == before.positions[key];
            assert(opens[i] == before.positions[key]);
        }
    }
}

/// What was fixed when a position opened never changes: after a round a place
/// holds the position that it held, with the same opening, or one that opened
/// in this round.
pub proof fn round_keeps_openings<N: Scalar>(
    s: ScanState<N>,
    keys: Seq<Seq<char>>,
    expiries: Seq<(String, ExpiryEntry<N>)>,
    round: RoundView<N>,
    key: Seq<char>,
)
    requires
        scan_round(s, keys, expiries, round).positions.contains_key(key),
    ensures
        ({
            let after = scan_round(s, keys, expiries, round).positions[key];
            (s.positions.contains_key(key) && same_opening(s.positions[key], after)) || (opens_in_order(
                after,
                manage_all(s, keys, round),
                round,
            ))
        }),
{
    let managed = manage_all(s, keys, round);
    let opens = open_expiries(managed, expiries, round);
    lemma_manage_keeps_openings(s, keys, round, key);
    openings_are_in_order(managed, expiries, round);
    lemma_commit_adds(managed, opens, round.now, key);
}

proof fn lemma_manage_untouched<N: Scalar>(
    s: ScanState<N>,
    keys: Seq<Seq<char>>,
    round: RoundView<N>,
    key: Seq<char>,
)
    requires
        !keys.contains(key),
    ensures
        manage_all(s, keys, round).positions.contains_key(key) == s.positions.contains_key(key),
        s.positions.contains_key(key) ==> manage_all(s, keys, round).positions[key] == s.positions[key],
    decreases keys.len(),
{
    if keys.len() > 0 {
        let rest = keys.drop_last();
        assert forall|i: int| 0 <= i < rest.len() implies rest[i] != key by {
            assert(keys[i] == rest[i]);
        }
        assert(keys[keys.len() - 1] == keys.last());
        lemma_manage_untouched(s, rest, round, key);
    }
}

/// A position that has expired is settled in the next round that looks after
/// its place: it is recorded as settled, and its place is left.
pub proof fn expired_position_is_settled<N: Scalar>(
    s: ScanState<N>,
    keys: Seq<Seq<char>>,
    round: RoundView<N>,
    key: Seq<char>,
)
    requires
        keys.no_duplicates(),
        keys.contains(key),
        s.positions.contains_key(key),
        s.positions[key].expiry_ms <= round.now,
    ensures
        !manage_all(s, keys, round).positions.contains_key(key),
        at(manage_all(s, keys, round).last_open, key) == Some(round.now),
        manage_all(s, keys, round).emitted.contains(
            settled_spec(
                s.positions[key],
                round.spot,
                round.now,
                round.rules.spot_fee_rate,
                round.rules.exercise_fee_rate,
            ),
        ),
    decreases keys.len(),
{
    let rest = keys.drop_last();
    let before = manage_all(s, rest, round);
    let after = manage_all(s, keys, round);
    let done = settled_spec(
        s.positions[key],
        round.spot,
        round.now,
        round.rules.spot_fee_rate,
        round.rules.exercise_fee_rate,
    );
    if keys.last() == key {
        assert forall|i: int| 0 <= i < rest.len() implies rest[i] != key by {
            assert(keys[i] == rest[i]);
            assert(keys[keys.len() - 1] == key);
        }
        lemma_manage_untouched(s, rest, round, key);
        assert(after.emitted.last() == done);
    } else {
        let k = choose|k: int| 0 <= k < keys.len() && keys[k] == key;
        assert(rest[k] == key);
        expired_position_is_settled(s, rest, round, key);
        let i = choose|i: int| 0 <= i < before.emitted.len() && before.emitted[i] == done;
        assert(after.emitted[i] == done);
    }
}

/// A record of the end of a position.
pub open spec fn is_end_of<N: Scalar>(record: PositionView<N>, pos: PositionView<N>) -> bool {
    same_opening(pos, record) && (record.status == "closed"@ || record.status == "settled"@)
}

/// Every position that ends in a round is recorded, as closed or as settled.
pub proof fn every_end_is_recorded<N: Scalar>(
    s: ScanState<N>,
    keys: Seq<Seq<char>>,
    round: RoundView<N>,
    key: Seq<char>,
)
    requires
        s.positions.contains_key(key),
        !manage_all(s, keys, round).positions.contains_key(key),
    ensures
        exists|i: int|
            0 <= i < manage_all(s, keys, round).emitted.len() && is_end_of(
                #[trigger] manage_all(s, keys, round).emitted[i],
                s.positions[key],
            ),
    decreases keys.len(),
{
    let rest = keys.drop_last();
    let before = manage_all(s, rest, round);
    let after = manage_all(s, keys, round);
    if keys.len() > 0 {
        if before.positions.contains_key(key) {
            lemma_manage_keeps_openings(s, rest, round, key);
            assert(keys.last() == key);
            assert(is_end_of(after.emitted[before.emitted.len() as int], s.positions[key]));
        } else {
            every_end_is_recorded(s, rest, round, key);
            let i = choose|i: int|
                0 <= i < before.emitted.len() && is_end_of(#[trigger] before.emitted[i], s.positions[key]);
            assert(after.emitted[i] == before.emitted[i]);
        }
    }
}

/// Every position that opens in a round is recorded, behind what was recorded of
/// those before it.
pub proof fn every_opening_is_recorded<N: Scalar>(s: ScanState<N>, opens: Seq<PositionView<N>>, now: i64)
    ensures
        commit_all(s, opens, now).emitted == s.emitted + opens,
    decreases opens.len(),
{
    if opens.len() == 0 {
        assert(s.emitted + opens =~= s.emitted);
    } else {
        every_opening_is_recorded(s, opens.drop_last(), now);
        assert((s.emitted + opens.drop_last()).push(opens.last()) =~= s.emitted + opens);
    }
}

/// No position opens at a place before the recording interval has passed since
/// the last one opened or ended there.
pub proof fn place_rests_after_change<N: Scalar>(
    s: ScanState<N>,
    expiries: Seq<(String, ExpiryEntry<N>)>,
    round: RoundView<N>,
    i: int,
)
    requires
        0 <= i < open_expiries(s, expiries, round).len(),
    ensures
        ({
            let p = open_expiries(s, expiries, round)[i];
            let key = pos_key_spec(p.kind, p.expiry, p.strike);
            s.last_open.contains_key(key) ==> round.now - s.last_open[key] >= round.rules.record_interval_ms
        }),
{
    openings_are_in_order(s, expiries, round);
}

/// The place of a position.
pub open spec fn place_of<N: Scalar>(p: PositionView<N>) -> Seq<char> {
    pos_key_spec(p.kind, p.expiry, p.strike)
}

/// No two positions share a place.
pub open spec fn distinct_places<N: Scalar>(opens: Seq<PositionView<N>>) -> bool {
    forall|i: int, j: int|
        0 <= i < j < opens.len() ==> place_of(#[trigger] opens[i]) != place_of(#[trigger] opens[j])
}

proof fn lemma_pair_places<N: Scalar>(
    s: ScanState<N>,
    expiry: Seq<char>,
    expiry_ms: i64,
    pair: StrikePair<N>,
    round: RoundView<N>,
)
    ensures
        distinct_places(open_pair(s, expiry, expiry_ms, pair, round)),
        forall|i: int|
            0 <= i < open_pair(s, expiry, expiry_ms, pair, round).len() ==> {
                let p = #[trigger] open_pair(s, expiry, expiry_ms, pair, round)[i];
                is_kind(p.kind) && p.expiry == expiry && p.strike == pair.strike
            },
{
    let place = PlaceView {
        expiry,
        expiry_ms,
        strike: pair.strike,
        call: pair.call->0@,
        put: pair.put->0@,
    };
    if pair.call is Some && pair.put is Some {
        let a = open_one(s, "reversal"@, place, round);
        let b = open_one(s, "conversion"@, place, round);
        let all = a + b;
        assert(open_pair(s, expiry, expiry_ms, pair, round) == all);
        reveal_strlit("reversal");
        reveal_strlit("conversion");
        assert("reversal"@.len() != "conversion"@.len());
        assert forall|i: int| 0 <= i < all.len() implies {
            let p = #[trigger] all[i];
            is_kind(p.kind) && p.expiry == expiry && p.strike == pair.strike
        } by {
            if i < a.len() {
                assert(all[i] == a[i]);
            } else {
                assert(all[i] == b[i - a.len()]);
            }
        }
        assert forall|i: int, j: int| 0 <= i < j < all.len() implies place_of(#[trigger] all[i]) != place_of(
            #[trigger] all[j],
        ) by {
            assert(all[i] == a[0]);
            assert(all[j] == b[0]);
            if place_of(all[i]) == place_of(all[j]) {
                place_key_is_unique(
                    all[i].kind,
                    all[i].expiry,
                    all[i].strike,
                    all[j].kind,
                    all[j].expiry,
                    all[j].strike,
                );
            }
        }
    }
}

/// Strikes stand under their own keys, each under another one.
spec fn well_keyed_entries<N: Scalar>(strikes: Seq<(i64, StrikePair<N>)>) -> bool {
    &&& forall|i: int, j: int| 0 <= i < j < strikes.len() ==> (#[trigger] strikes[i]).0 < (#[trigger] strikes[j]).0
    &&& forall|i: int|
        0 <= i < strikes.len() ==> strike_key_spec((#[trigger] strikes[i]).1.strike) == strikes[i].0
}

proof fn lemma_strikes_places<N: Scalar>(
    s: ScanState<N>,
    expiry: Seq<char>,
    expiry_ms: i64,
    strikes: Seq<(i64, StrikePair<N>)>,
    round: RoundView<N>,
)
    requires
        well_keyed_entries(strikes),
    ensures
        distinct_places(open_strikes(s, expiry, expiry_ms, strikes, round)),
        forall|i: int|
            0 <= i < open_strikes(s, expiry, expiry_ms, strikes, round).len() ==> {
                let p = #[trigger] open_strikes(s, expiry, expiry_ms, strikes, round)[i];
                is_kind(p.kind) && p.expiry == expiry && strikes.len() > 0 && strike_key_spec(p.strike)
                    <= strikes.last().0
            },
    decreases strikes.len(),
{
    if strikes.len() > 0 {
        let rest = strikes.drop_last();
        assert(well_keyed_entries(rest)) by {
            assert forall|i: int, j: int| 0 <= i < j < rest.len() implies (#[trigger] rest[i]).0 < (#[trigger]
            rest[j]).0 by {
                assert(rest[i] == strikes[i]);
                assert(rest[j] == strikes[j]);
            }
            assert forall|i: int| 0 <= i < rest.len() implies strike_key_spec((#[trigger] rest[i]).1.strike)
                == rest[i].0 by {
                assert(rest[i] == strikes[i]);
            }
        }
        lemma_strikes_places(s, expiry, expiry_ms, rest, round);
        let last = strikes.last();
        assert(strikes[strikes.len() - 1] == last);
        lemma_pair_places(s, expiry, expiry_ms, last.1, round);
        let a = open_strikes(s, expiry, expiry_ms, rest, round);
        let b = open_pair(s, expiry, expiry_ms, last.1, round);
        let all = a + b;
        if rest.len() > 0 {
            assert(strikes[rest.len() - 1] == rest.last());
            assert(rest.last().0 < last.0);
        }
        assert forall|i: int| 0 <= i < all.len() implies {
            let p = #[trigger] all[i];
            is_kind(p.kind) && p.expiry == expiry && strike_key_spec(p.strike) <= last.0
        } by {
            if i < a.len() {
                assert(all[i] == a[i]);
            } else {
                assert(all[i] == b[i - a.len()]);
            }
        }
        assert forall|i: int, j: int| 0 <= i < j < all.len() implies place_of(#[trigger] all[i]) != place_of(
            #[trigger] all[j],
        ) by {
            if j < a.len() {
                assert(all[i] == a[i] && all[j] == a[j]);
            } else if i >= a.len() {
                assert(all[i] == b[i - a.len()] && all[j] == b[j - a.len()]);
            } else {
                assert(all[i] == a[i] && all[j] == b[j - a.len()]);
                assert(strike_key_spec(a[i].strike) <= rest.last().0);
                if place_of(all[i]) == place_of(all[j]) {
                    place_key_is_unique(
                        all[i].kind,
                        all[i].expiry,
                        all[i].strike,
                        all[j].kind,
                        all[j].expiry,
                        all[j].strike,
                    );
                }
            }
        }
    }
}

proof fn lemma_expiries_places<N: Scalar>(
    s: ScanState<N>,
    expiries: Seq<(String, ExpiryEntry<N>)>,
    round: RoundView<N>,
)
    requires
        forall|i: int, j: int|
            0 <= i < j < expiries.len() ==> (#[trigger] expiries[i]).0@ != (#[trigger] expiries[j]).0@,
        forall|i: int| 0 <= i < expiries.len() ==> well_keyed_entries((#[trigger] expiries[i]).1.strikes.entries@),
    ensures
        distinct_places(open_expiries(s, expiries, round)),
        forall|i: int|
            0 <= i < open_expiries(s, expiries, round).len() ==> is_kind(
                (#[trigger] open_expiries(s, expiries, round)[i]).kind,
            ) && exists|k: int|
                0 <= k < expiries.len() && open_expiries(s, expiries, round)[i].expiry == (
                #[trigger] expiries[k]).0@,
    decreases expiries.len(),
{
    if expiries.len() > 0 {
        let rest = expiries.drop_last();
        let n = expiries.len() - 1;
        assert forall|i: int, j: int| 0 <= i < j < rest.len() implies (#[trigger] rest[i]).0@ != (#[trigger]
        rest[j]).0@ by {
            assert(rest[i] == expiries[i]);
            assert(rest[j] == expiries[j]);
        }
        assert forall|i: int| 0 <= i < rest.len() implies well_keyed_entries(
            (#[trigger] rest[i]).1.strikes.entries@,
        ) by {
            assert(rest[i] == expiries[i]);
        }
        lemma_expiries_places(s, rest, round);
        let e = expiries[n];
        lemma_strikes_places(s, e.0@, e.1.expiry_ms, e.1.strikes.entries@, round);
        let a = open_expiries(s, rest, round);
        let b = open_strikes(s, e.0@, e.1.expiry_ms, e.1.strikes.entries@, round);
        let all = a + b;
        assert forall|i: int| 0 <= i < all.len() implies is_kind((#[trigger] all[i]).kind) && exists|k: int|
            0 <= k < expiries.len() && all[i].expiry == (#[trigger] expiries[k]).0@ by {
            if i < a.len() {
                assert(all[i] == a[i]);
                let k = choose|k: int| 0 <= k < rest.len() && a[i].expiry == (#[trigger] rest[k]).0@;
                assert(expiries[k] == rest[k]);
            } else {
                assert(all[i] == b[i - a.len()]);
                assert(all[i].expiry == expiries[n].0@);
            }
        }
        assert forall|i: int, j: int| 0 <= i < j < all.len() implies place_of(#[trigger] all[i]) != place_of(
            #[trigger] all[j],
        ) by {
            if j < a.len() {
                assert(all[i] == a[i] && all[j] == a[j]);
            } else if i >= a.len() {
                assert(all[i] == b[i - a.len()] && all[j] == b[j - a.len()]);
            } else {
                assert(all[i] == a[i] && all[j] == b[j - a.len()]);
                let k = choose|k: int| 0 <= k < rest.len() && a[i].expiry == (#[trigger] rest[k]).0@;
                assert(expiries[k] == rest[k]);
                assert(expiries[k].0@ != expiries[n].0@);
                if place_of(all[i]) == place_of(all[j]) {
                    place_key_is_unique(
                        all[i].kind,
                        all[i].expiry,
                        all[i].strike,
                        all[j].kind,
                        all[j].expiry,
                        all[j].strike,
                    );
                }
            }
        }
    }
}

/// The positions that a round opens take different places, at expiries that are
/// listed.
pub proof fn openings_take_distinct_places<N: Scalar>(s: ScanState<N>, universe: Universe<N>, round: RoundView<N>)
    requires
        universe.wf(),
    ensures
        distinct_places(open_expiries(s, universe.expiries.entries@, round)),
        forall|i: int|
            0 <= i < open_expiries(s, universe.expiries.entries@, round).len()
                ==> universe.expiries.map().contains_key(
                (#[trigger] open_expiries(s, universe.expiries.entries@, round)[i]).expiry,
            ),
{
    let expiries = universe.expiries.entries@;
    assert forall|i: int, j: int| 0 <= i < j < expiries.len() implies (#[trigger] expiries[i]).0@ != (#[trigger]
    expiries[j]).0@ by {
        lemma_text_less_irreflexive(expiries[i].0@);
        assert(text_less(expiries[i].0@, expiries[j].0@));
    }
    assert forall|i: int| 0 <= i < expiries.len() implies well_keyed_entries(
        (#[trigger] expiries[i]).1.strikes.entries@,
    ) by {
        universe.expiries.lemma_entry(i);
        let e = expiries[i].1;
        assert(well_keyed(e));
        let strikes = e.strikes.entries@;
        assert forall|a: int, b: int| 0 <= a < b < strikes.len() implies (#[trigger] strikes[a]).0 < (#[trigger]
        strikes[b]).0 by {
            assert(<i64 as crate::table::TableKey>::precedes(strikes[a].0, strikes[b].0));
        }
        assert forall|a: int| 0 <= a < strikes.len() implies strike_key_spec((#[trigger] strikes[a]).1.strike)
            == strikes[a].0 by {
            e.strikes.lemma_entry(a);
        }
    }
    lemma_expiries_places(s, expiries, round);
    let opens = open_expiries(s, expiries, round);
    assert forall|i: int| 0 <= i < opens.len() implies universe.expiries.map().contains_key(
        (#[trigger] opens[i]).expiry,
    ) by {
        let k = choose|k: int| 0 <= k < expiries.len() && opens[i].expiry == (#[trigger] expiries[k]).0@;
        universe.expiries.lemma_entry(k);
    }
}

} // verus!
