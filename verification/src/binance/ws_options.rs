//! The option quotes that Binance streams, and the subscriptions to them.
use crate::json::{
    array_value, elements, field, json_field, json_of, json_parse, json_text, jsons, number_value, object_value,
    parse_json, render, set_field, text_of, text_value, Json,
};
use crate::model::{
    integer_at, json_integer_at, json_number_at, number_at, BookTop, Quotes,
};
use crate::scalar::Scalar;
use crate::text::{copy_texts, digits, same_text, texts, trim_trailing, without_trailing};
use vstd::prelude::*;
use vstd::string::*;

verus! {

/// A change of the subscriptions.
#[derive(Debug)]
pub struct SubCmd {
    pub subscribe: Vec<String>,
    pub unsubscribe: Vec<String>,
}

impl Clone for SubCmd {
    fn clone(&self) -> (r: Self)
        ensures
            r.subscribe@ == self.subscribe@,
            r.unsubscribe@ == self.unsubscribe@,
    {
        SubCmd { subscribe: copy_texts(&self.subscribe), unsubscribe: copy_texts(&self.unsubscribe) }
    }
}

// ---------------------------------------------------------------------------
// Frames
// ---------------------------------------------------------------------------
/// How many streams a frame names at most.
pub const FRAME_STREAMS: usize = 50;

/// How many frames it takes to name some streams.
pub open spec fn frame_count(streams: int) -> int {
    (streams + FRAME_STREAMS - 1) / (FRAME_STREAMS as int)
}

/// The streams that frame `k` names: the next fifty, or what is left.
pub open spec fn frame_streams(streams: Seq<Seq<char>>, k: int) -> Seq<Seq<char>> {
    streams.subrange(
        k * FRAME_STREAMS,
        if (k + 1) * FRAME_STREAMS < streams.len() {
            (k + 1) * FRAME_STREAMS
        } else {
            streams.len() as int
        },
    )
}

/// A frame: `{"method":method,"params":[streams],"id":id}`.
pub open spec fn frame_json(method: Seq<char>, streams: Seq<Seq<char>>, id: nat) -> Json {
    Json::Object(
        Map::empty().insert("method"@, Json::Text(method)).insert(
            "params"@,
            Json::Array(streams.map_values(|s: Seq<char>| Json::Text(s))),
        ).insert(
            "id"@,
            Json::Number {
                text: digits(id),
                integer: if id <= 0x7fff_ffff_ffff_ffff {
                    Some(id as i64)
                } else {
                    None
                },
            },
        ),
    )
}

/// The frames that name some streams, with consecutive ids.
pub open spec fn frames_spec(method: Seq<char>, streams: Seq<Seq<char>>, id: nat) -> Seq<Seq<char>> {
    Seq::new(
        frame_count(streams.len() as int) as nat,
        |k: int| json_text(frame_json(method, frame_streams(streams, k), (id + k) as nat)),
    )
}

fn frame_text(method: &str, params: &Vec<String>, from: usize, to: usize, id: u64) -> (r: String)
    requires
        from <= to <= params@.len(),
    ensures
        r@ == json_text(frame_json(method@, texts(params@).subrange(from as int, to as int), id as nat)),
{
    let mut items: Vec<serde_json::Value> = Vec::new();
    let ghost chunk = texts(params@).subrange(from as int, to as int);
    let ghost named = chunk.map_values(|s: Seq<char>| Json::Text(s));
    let mut i: usize = from;
    proof {
        assert(jsons(items@) =~= named.take(0));
    }
    while i < to
        invariant
            from <= i <= to,
            to <= params@.len(),
            chunk == texts(params@).subrange(from as int, to as int),
            named == chunk.map_values(|s: Seq<char>| Json::Text(s)),
            jsons(items@) == named.take(i - from),
        decreases to - i,
    {
        let ghost before = items@;
        let item = text_value(params[i].as_str());
        items.push(item);
        proof {
            assert(chunk[i - from] == params@[i as int]@);
            assert(jsons(items@) =~= jsons(before).push(json_of(item)));
            assert(named.take(i - from + 1) =~= named.take(i - from).push(named[i - from]));
        }
        i = i + 1;
    }
    proof {
        assert(named.take(to - from) =~= named);
    }
    let mut frame = object_value();
    set_field(&mut frame, "method", text_value(method));
    set_field(&mut frame, "params", array_value(items));
    set_field(&mut frame, "id", number_value(id));
    render(&frame)
}

/// Cuts a request for some streams into frames of fifty streams at most. The
/// ids count on from `id`.
pub fn sub_frames(method: &str, params: &Vec<String>, id: &mut u64) -> (r: Vec<String>)
    requires
        *old(id) + frame_count(params@.len() as int) <= u64::MAX,
    ensures
        texts(r@) == frames_spec(method@, texts(params@), *old(id) as nat),
        *final(id) == *old(id) + frame_count(params@.len() as int),
{
    let ghost all = texts(params@);
    let ghost start = *id as nat;
    let ghost whole = frames_spec(method@, all, start);
    let n: usize = params.len();
    let mut frames: Vec<String> = Vec::new();
    let mut from: usize = 0;
    let ghost mut k: int = 0;
    proof {
        assert(texts(frames@) =~= whole.take(0));
    }
    while from < n
        invariant
            from <= n,
            n == params@.len(),
            all == texts(params@),
            whole == frames_spec(method@, all, start),
            0 <= k <= frame_count(n as int),
            from == (if k * FRAME_STREAMS < n {
                k * FRAME_STREAMS
            } else {
                n as int
            }),
            from == n ==> k == frame_count(n as int),
            start + frame_count(n as int) <= u64::MAX,
            *id == start + k,
            texts(frames@) == whole.take(k),
        decreases n - from,
    {
        let to: usize = if n - from > FRAME_STREAMS {
            from + FRAME_STREAMS
        } else {
            n
        };
        let ghost before = frames@;
        proof {
            assert(k < frame_count(n as int));
        }
        let frame: String = frame_text(method, params, from, to, *id);
        frames.push(frame);
        *id = *id + 1;
        from = to;
        proof {
            assert(frame@ == whole[k]);
            assert(texts(frames@) =~= texts(before).push(frame@));
            assert(whole.take(k + 1) =~= whole.take(k).push(whole[k]));
            k = k + 1;
        }
    }
    proof {
        assert(whole.take(k) =~= whole);
    }
    frames
}

// ---------------------------------------------------------------------------
// Subscriptions
// ---------------------------------------------------------------------------
/// The streams that are subscribed to, and the id of the next frame.
#[derive(Debug)]
pub struct Subscriptions {
    pub streams: Vec<String>,
    pub next_id: u64,
}

fn frames_for(streams: usize) -> (r: u128)
    ensures
        r == frame_count(streams as int),
        r <= streams,
{
    (streams as u128 + FRAME_STREAMS as u128 - 1) / FRAME_STREAMS as u128
}

fn position_of(streams: &Vec<String>, name: &str) -> (r: Option<usize>)
    ensures
        match r {
            Some(i) => i < streams@.len() && streams@[i as int]@ == name@,
            None => !texts(streams@).contains(name@),
        },
{
    let mut i: usize = 0;
    while i < streams.len()
        invariant
            i <= streams@.len(),
            forall|k: int| 0 <= k < i ==> (#[trigger] streams@[k])@ != name@,
        decreases streams@.len() - i,
    {
        if same_text(streams[i].as_str(), name) {
            return Some(i);
        }
        i = i + 1;
    }
    proof {
        assert forall|k: int| 0 <= k < texts(streams@).len() implies texts(streams@)[k] != name@ by {
            assert(streams@[k]@ != name@);
        }
    }
    None
}

/// The set of streams in a sequence.
pub open spec fn stream_set(streams: Seq<String>) -> Set<Seq<char>> {
    texts(streams).to_set()
}

impl Subscriptions {
    /// No stream occurs twice.
    pub open spec fn wf(&self) -> bool {
        texts(self.streams@).no_duplicates()
    }

    /// The streams that are subscribed to.
    pub open spec fn current(&self) -> Set<Seq<char>> {
        stream_set(self.streams@)
    }

    /// Nothing is subscribed to, and ids begin with one.
    pub fn new() -> (r: Self)
        ensures
            r.wf(),
            r.current() == Set::<Seq<char>>::empty(),
            r.next_id == 1,
    {
        let r = Subscriptions { streams: Vec::new(), next_id: 1 };
        proof {
            assert(r.current() =~= Set::<Seq<char>>::empty());
        }
        r
    }

    fn include_stream(&mut self, name: &String)
        requires
            old(self).wf(),
        ensures
            final(self).wf(),
            final(self).current() == old(self).current().insert(name@),
            final(self).next_id == old(self).next_id,
    {
        let ghost before = texts(self.streams@);
        match position_of(&self.streams, name.as_str()) {
            Some(i) => {
                proof {
                    assert(before[i as int] == name@);
                    assert(before.to_set().insert(name@) =~= before.to_set());
                }
            },
            None => {
                self.streams.push(name.clone());
                proof {
                    let after = texts(self.streams@);
                    assert(after =~= before.push(name@));
                    assert(after.no_duplicates());
                    assert(after.to_set() =~= before.to_set().insert(name@)) by {
                        assert forall|s: Seq<char>| before.to_set().insert(name@).contains(s) implies #[trigger]
                            after.to_set().contains(s) by {
                            if s == name@ {
                                assert(after[after.len() - 1] == s);
                            } else {
                                let k = choose|k: int| 0 <= k < before.len() && before[k] == s;
                                assert(after[k] == s);
                            }
                        }
                    }
                }
            },
        }
    }

    fn exclude_stream(&mut self, name: &String)
        requires
            old(self).wf(),
        ensures
            final(self).wf(),
            final(self).current() == old(self).current().remove(name@),
            final(self).next_id == old(self).next_id,
    {
        let ghost before = texts(self.streams@);
        match position_of(&self.streams, name.as_str()) {
            Some(i) => {
                let _ = self.streams.remove(i);
                proof {
                    let after = texts(self.streams@);
                    assert(before[i as int] == name@);
                    assert(after =~= before.remove(i as int));
                    assert forall|a: int, b: int| 0 <= a < b < after.len() implies after[a] != after[b] by {
                        let a0 = if a < i {
                            a
                        } else {
                            a + 1
                        };
                        let b0 = if b < i {
                            b
                        } else {
                            b + 1
                        };
                        assert(before[a0] != before[b0]);
                    }
                    assert(after.to_set() =~= before.to_set().remove(name@)) by {
                        assert forall|s: Seq<char>| before.to_set().remove(name@).contains(s) implies #[trigger]
                            after.to_set().contains(s) by {
                            let k = choose|k: int| 0 <= k < before.len() && before[k] == s;
                            if k < i {
                                assert(after[k] == s);
                            } else {
                                assert(after[k - 1] == s);
                            }
                        }
                        assert forall|s: Seq<char>| #[trigger]
                            after.to_set().contains(s) implies before.to_set().remove(name@).contains(s) by {
                            let k = choose|k: int| 0 <= k < after.len() && after[k] == s;
                            let k0 = if k < i {
                                k
                            } else {
                                k + 1
                            };
                            assert(before[k0] == s);
                            assert(before[k0] != before[i as int]);
                        }
                    }
                }
            },
            None => {
                proof {
                    assert(before.to_set().remove(name@) =~= before.to_set());
                }
            },
        }
    }

    /// Whether the ids suffice for the frames of a new connection.
    pub fn can_open(&self) -> (r: bool)
        ensures
            r == (self.next_id + frame_count(self.streams@.len() as int) <= u64::MAX),
    {
        frames_for(self.streams.len()) <= u64::MAX as u128 - self.next_id as u128
    }

    /// Whether the ids suffice for the frames of a change.
    pub fn can_change(&self, cmd: &SubCmd) -> (r: bool)
        ensures
            r == (self.next_id + frame_count(cmd.subscribe@.len() as int) + frame_count(
                cmd.unsubscribe@.len() as int,
            ) <= u64::MAX),
    {
        frames_for(cmd.subscribe.len()) + frames_for(cmd.unsubscribe.len()) <= u64::MAX as u128
            - self.next_id as u128
    }

    /// The frames that subscribe to all streams on a new connection.
    pub fn opening_frames(&mut self) -> (r: Vec<String>)
        requires
            old(self).next_id + frame_count(old(self).streams@.len() as int) <= u64::MAX,
        ensures
            texts(r@) == frames_spec("SUBSCRIBE"@, texts(old(self).streams@), old(self).next_id as nat),
            final(self).streams == old(self).streams,
            final(self).next_id == old(self).next_id + frame_count(old(self).streams@.len() as int),
    {
        let mut id: u64 = self.next_id;
        let frames: Vec<String> = sub_frames("SUBSCRIBE", &self.streams, &mut id);
        self.next_id = id;
        frames
    }

    /// Changes the subscriptions, and gives the frames that say so: those that
    /// subscribe, then those that unsubscribe.
    pub fn change(&mut self, cmd: &SubCmd) -> (r: Vec<String>)
        requires
            old(self).wf(),
            old(self).next_id + frame_count(cmd.subscribe@.len() as int) + frame_count(
                cmd.unsubscribe@.len() as int,
            ) <= u64::MAX,
        ensures
            final(self).wf(),
            final(self).current() == old(self).current().union(stream_set(cmd.subscribe@)).difference(
                stream_set(cmd.unsubscribe@),
            ),
            texts(r@) == frames_spec("SUBSCRIBE"@, texts(cmd.subscribe@), old(self).next_id as nat) + frames_spec(
                "UNSUBSCRIBE"@,
                texts(cmd.unsubscribe@),
                (old(self).next_id + frame_count(cmd.subscribe@.len() as int)) as nat,
            ),
            final(self).next_id == old(self).next_id + frame_count(cmd.subscribe@.len() as int) + frame_count(
                cmd.unsubscribe@.len() as int,
            ),
    {
        let ghost start = self.current();
        let ghost id0 = self.next_id;
        let n: usize = cmd.subscribe.len();
        let ghost added = texts(cmd.subscribe@);
        let mut i: usize = 0;
        proof {
            assert(start.union(added.take(0).to_set()) =~= start);
        }
        while i < n
            invariant
                i <= n,
                n == cmd.subscribe@.len(),
                added == texts(cmd.subscribe@),
                self.wf(),
                self.next_id == id0,
                self.current() == start.union(added.take(i as int).to_set()),
            decreases n - i,
        {
            self.include_stream(&cmd.subscribe[i]);
            proof {
                lemma_take_set(added, i as int);
                assert(start.union(added.take(i + 1).to_set()) =~= start.union(
                    added.take(i as int).to_set(),
                ).insert(added[i as int]));
            }
            i = i + 1;
        }
        let m: usize = cmd.unsubscribe.len();
        let ghost removed = texts(cmd.unsubscribe@);
        let ghost mid = start.union(added.to_set());
        let mut j: usize = 0;
        proof {
            assert(added.take(n as int) =~= added);
            assert(mid.difference(removed.take(0).to_set()) =~= mid);
        }
        while j < m
            invariant
                j <= m,
                m == cmd.unsubscribe@.len(),
                removed == texts(cmd.unsubscribe@),
                self.wf(),
                self.next_id == id0,
                self.current() == mid.difference(removed.take(j as int).to_set()),
            decreases m - j,
        {
            self.exclude_stream(&cmd.unsubscribe[j]);
            proof {
                lemma_take_set(removed, j as int);
                assert(mid.difference(removed.take(j + 1).to_set()) =~= mid.difference(
                    removed.take(j as int).to_set(),
                ).remove(removed[j as int]));
            }
            j = j + 1;
        }
        proof {
            assert(removed.take(m as int) =~= removed);
        }
        let mut id: u64 = self.next_id;
        let mut frames: Vec<String> = sub_frames("SUBSCRIBE", &cmd.subscribe, &mut id);
        let mut more: Vec<String> = sub_frames("UNSUBSCRIBE", &cmd.unsubscribe, &mut id);
        let ghost first = frames@;
        let ghost second = more@;
        frames.append(&mut more);
        self.next_id = id;
        proof {
            assert(texts(frames@) =~= texts(first) + texts(second));
        }
        frames
    }
}

/// One text more in a prefix is one text more in its set.
proof fn lemma_take_set(s: Seq<Seq<char>>, i: int)
    requires
        0 <= i < s.len(),
    ensures
        s.take(i + 1).to_set() == s.take(i).to_set().insert(s[i]),
{
    let a = s.take(i + 1);
    let b = s.take(i);
    assert forall|x: Seq<char>| #[trigger] a.to_set().contains(x) <==> b.to_set().insert(s[i]).contains(x) by {
        if a.contains(x) {
            let k = choose|k: int| 0 <= k < a.len() && a[k] == x;
            if k < i {
                assert(b[k] == x);
            }
        }
        if b.contains(x) {
            let k = choose|k: int| 0 <= k < b.len() && b[k] == x;
            assert(a[k] == x);
        }
        if x == s[i] {
            assert(a[i] == x);
        }
    }
    assert(a.to_set() =~= b.to_set().insert(s[i]));
}

/// What to do with a message of a stream.
#[derive(Clone, Copy, Debug, PartialEq, Eq, Structural)]
pub enum Reaction {
    /// Answer it with its own data.
    Pong,
    /// Connect again.
    Reconnect,
    /// Read quotes from it.
    Read,
    /// Pass it over.
    Skip,
}

/// What to do with a message: a ping is answered, a close ends the connection,
/// and text or bytes hold quotes.
pub fn react(is_ping: bool, is_close: bool, is_data: bool) -> (r: Reaction)
    ensures
        r == (if is_ping {
            Reaction::Pong
        } else if is_close {
            Reaction::Reconnect
        } else if is_data {
            Reaction::Read
        } else {
            Reaction::Skip
        }),
{
    if is_ping {
        Reaction::Pong
    } else if is_close {
        Reaction::Reconnect
    } else if is_data {
        Reaction::Read
    } else {
        Reaction::Skip
    }
}

/// Where option quotes are streamed from.
pub fn options_url(options_ws: &str) -> (r: String)
    ensures
        r@ == without_trailing(options_ws@, '/') + "/ws"@,
{
    let mut url: String = trim_trailing(options_ws, '/');
    url.append("/ws");
    url
}

// ---------------------------------------------------------------------------
// Quotes
// ---------------------------------------------------------------------------
/// The quote that a ticker gives: a symbol, and the top of its book. There is
/// none where the ticker has no symbol. What it does not give is zero.
pub open spec fn ticker_quote<N: Scalar>(t: Json) -> Option<(Seq<char>, BookTop<N>)> {
    match json_field(t, "s"@) {
        Some(Json::Text(symbol)) => Some(
            (
                symbol,
                BookTop {
                    bid: json_number_at::<N>(t, "bo"@),
                    bid_qty: json_number_at::<N>(t, "bq"@),
                    ask: json_number_at::<N>(t, "ao"@),
                    ask_qty: json_number_at::<N>(t, "aq"@),
                    ts_ms: json_integer_at(t, "E"@),
                },
            ),
        ),
        _ => None,
    }
}

/// The books after a ticker.
pub open spec fn with_ticker<N: Scalar>(books: Map<Seq<char>, BookTop<N>>, t: Json) -> Map<Seq<char>, BookTop<N>> {
    match ticker_quote::<N>(t) {
        Some((symbol, top)) => books.insert(symbol, top),
        None => books,
    }
}

/// The books after several tickers, in order.
pub open spec fn with_tickers<N: Scalar>(books: Map<Seq<char>, BookTop<N>>, tickers: Seq<Json>) -> Map<
    Seq<char>,
    BookTop<N>,
>
    decreases tickers.len(),
{
    if tickers.len() == 0 {
        books
    } else {
        with_ticker(with_tickers(books, tickers.drop_last()), tickers.last())
    }
}

/// The tickers of a message: an array of them, an array or a single one under
/// `data`, or a single one with an `e`. An acknowledgement has none.
pub open spec fn message_tickers(j: Json) -> Seq<Json> {
    match j {
        Json::Array(a) => a,
        Json::Object(m) => if m.contains_key("data"@) {
            match m["data"@] {
                Json::Array(a) => a,
                single => seq![single],
            }
        } else if m.contains_key("e"@) {
            seq![j]
        } else {
            Seq::empty()
        },
        _ => Seq::empty(),
    }
}

/// Takes in the quote of a ticker.
pub fn apply_ticker<N: Scalar>(t: &serde_json::Value, quotes: &mut Quotes<N>)
    requires
        old(quotes).wf(),
    ensures
        final(quotes).wf(),
        final(quotes).books() == with_ticker(old(quotes).books(), json_of(*t)),
        final(quotes).spot_book() == old(quotes).spot_book(),
{
    let symbol: String = match field(t, "s") {
        Some(x) => match text_of(x) {
            Some(s) => s.to_owned(),
            None => {
                return;
            },
        },
        None => {
            return;
        },
    };
    let top: BookTop<N> = BookTop {
        bid: number_at(t, "bo"),
        bid_qty: number_at(t, "bq"),
        ask: number_at(t, "ao"),
        ask_qty: number_at(t, "aq"),
        ts_ms: integer_at(t, "E"),
    };
    quotes.set_option(symbol, top);
}

fn apply_tickers<N: Scalar>(tickers: &Vec<serde_json::Value>, quotes: &mut Quotes<N>)
    requires
        old(quotes).wf(),
    ensures
        final(quotes).wf(),
        final(quotes).books() == with_tickers(old(quotes).books(), jsons(tickers@)),
        final(quotes).spot_book() == old(quotes).spot_book(),
{
    let ghost all = jsons(tickers@);
    let ghost start = quotes.books();
    let ghost spot = quotes.spot_book();
    let n: usize = tickers.len();
    let mut i: usize = 0;
    proof {
        assert(all.take(0) =~= Seq::<Json>::empty());
    }
    while i < n
        invariant
            i <= n,
            n == tickers@.len(),
            all == jsons(tickers@),
            quotes.wf(),
            quotes.books() == with_tickers(start, all.take(i as int)),
            quotes.spot_book() == spot,
        decreases n - i,
    {
        proof {
            assert(all.take(i + 1).drop_last() =~= all.take(i as int));
            assert(all.take(i + 1).last() == json_of(tickers@[i as int]));
        }
        apply_ticker(&tickers[i], quotes);
        i = i + 1;
    }
    proof {
        assert(all.take(n as int) =~= all);
    }
}

/// Takes in the quotes of a message.
pub fn apply_message<N: Scalar>(v: &serde_json::Value, quotes: &mut Quotes<N>)
    requires
        old(quotes).wf(),
    ensures
        final(quotes).wf(),
        final(quotes).books() == with_tickers(old(quotes).books(), message_tickers(json_of(*v))),
        final(quotes).spot_book() == old(quotes).spot_book(),
{
    let ghost start = quotes.books();
    match elements(v) {
        Some(tickers) => {
            apply_tickers(tickers, quotes);
            return;
        },
        None => {},
    }
    match field(v, "data") {
        Some(data) => match elements(data) {
            Some(tickers) => {
                apply_tickers(tickers, quotes);
            },
            None => {
                apply_ticker(data, quotes);
                proof {
                    lemma_single(start, json_of(*data));
                }
            },
        },
        None => match field(v, "e") {
            Some(_) => {
                apply_ticker(v, quotes);
                proof {
                    lemma_single(start, json_of(*v));
                }
            },
            None => {},
        },
    }
}

proof fn lemma_single<N: Scalar>(books: Map<Seq<char>, BookTop<N>>, t: Json)
    ensures
        with_tickers(books, seq![t]) == with_ticker(books, t),
{
    assert(seq![t].drop_last() =~= Seq::<Json>::empty());
    assert(with_tickers(books, Seq::<Json>::empty()) == books);
}

/// Takes in the quotes of a message as it was received. Bytes that hold no JSON
/// document change nothing.
pub fn handle_msg<N: Scalar>(data: &[u8], quotes: &mut Quotes<N>)
    requires
        old(quotes).wf(),
    ensures
        final(quotes).wf(),
        final(quotes).books() == (match json_parse(data@) {
            Some(j) => with_tickers(old(quotes).books(), message_tickers(j)),
            None => old(quotes).books(),
        }),
        final(quotes).spot_book() == old(quotes).spot_book(),
{
    match parse_json(data) {
        Some(v) => {
            apply_message(&v, quotes);
        },
        None => {},
    }
}

// ---------------------------------------------------------------------------
// Laws
// ---------------------------------------------------------------------------
/// The frames together name every stream once and in order, and no frame names
/// more than fifty.
pub proof fn frames_name_every_stream(streams: Seq<Seq<char>>, i: int)
    requires
        0 <= i < streams.len(),
    ensures
        ({
            let k = i / (FRAME_STREAMS as int);
            &&& 0 <= k < frame_count(streams.len() as int)
            &&& frame_streams(streams, k).len() <= FRAME_STREAMS
            &&& frame_streams(streams, k).len() > 0
            &&& frame_streams(streams, k)[i % (FRAME_STREAMS as int)] == streams[i]
        }),
{
}

/// The last quote of a symbol counts: a message with quotes of a symbol leaves
/// the one that stands last in it.
pub proof fn last_ticker_counts<N: Scalar>(books: Map<Seq<char>, BookTop<N>>, tickers: Seq<Json>, i: int)
    requires
        0 <= i < tickers.len(),
        ticker_quote::<N>(tickers[i]) is Some,
        forall|j: int|
            i < j < tickers.len() ==> (ticker_quote::<N>(#[trigger] tickers[j]) matches Some(q) ==> q.0
                != (ticker_quote::<N>(tickers[i])->0).0),
    ensures
        with_tickers(books, tickers).contains_key((ticker_quote::<N>(tickers[i])->0).0),
        with_tickers(books, tickers)[(ticker_quote::<N>(tickers[i])->0).0] == (ticker_quote::<N>(tickers[i])->0).1,
    decreases tickers.len(),
{
    if i < tickers.len() - 1 {
        let rest = tickers.drop_last();
        assert(rest[i] == tickers[i]);
        assert forall|j: int| i < j < rest.len() implies (ticker_quote::<N>(#[trigger] rest[j]) matches Some(q)
            ==> q.0 != (ticker_quote::<N>(rest[i])->0).0) by {
            assert(rest[j] == tickers[j]);
        }
        last_ticker_counts(books, rest, i);
        assert(tickers[tickers.len() - 1] == tickers.last());
    }
}

} // verus!
