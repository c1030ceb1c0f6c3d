//! Laws of what Binance lists and streams: which options are tradable, and
//! which quotes count.
use crate::binance::rest::{universe_spec, OptionSymbol, PairView};
use crate::binance::ws_options::{
    frame_streams, frames_spec, message_tickers, ticker_quote, with_tickers,
};
use crate::binance::ws_spot::spot_after;
use crate::json::{json_parse, json_text, Json};
use crate::model::{json_integer_at, json_number_at, strike_key_spec, BookTop};
use crate::scalar::Scalar;
use crate::text::{digits, pieces};
use vstd::prelude::*;
use vstd::string::*;

verus! {

// ---------------------------------------------------------------------------
// The list of options
// ---------------------------------------------------------------------------
/// A text begins with the name of an underlying and a dash.
pub open spec fn is_of(symbol: Seq<char>, underlying: Seq<char>) -> bool {
    symbol.len() > underlying.len() && symbol.take(underlying.len() as int) == underlying && symbol[underlying.len()
        as int] == '-'
}

/// An option that is traded, of an underlying, under an expiry and a strike: its
/// symbol has four parts, of which the second is the expiry, and its strike is a
/// number with that key.
pub open spec fn stands_under<N: Scalar>(s: OptionSymbol, underlying: Seq<char>, expiry: Seq<char>, key: i64) -> bool {
    &&& s.status@ == "TRADING"@
    &&& is_of(s.symbol@, underlying)
    &&& pieces(s.symbol@, '-').len() == 4
    &&& pieces(s.symbol@, '-')[1] == expiry
    &&& N::parse_spec(s.strike_price@) matches Some(strike) && strike_key_spec(strike) == key
}

/// An option that is traded, of an underlying, under an expiry.
pub open spec fn expires_at<N: Scalar>(s: OptionSymbol, underlying: Seq<char>, expiry: Seq<char>) -> bool {
    &&& N::parse_spec(s.strike_price@) is Some
    &&& stands_under::<N>(s, underlying, expiry, strike_key_spec(N::parse_spec(s.strike_price@)->0))
}

proof fn lemma_prefix(symbol: Seq<char>, underlying: Seq<char>)
    ensures
        crate::text::begins_with(symbol, underlying + "-"@) <==> is_of(symbol, underlying),
{
    reveal_strlit("-");
    let n = underlying.len() as int;
    let prefix = underlying + "-"@;
    assert(prefix.len() == n + 1);
    if crate::text::begins_with(symbol, prefix) {
        assert(symbol.take(n + 1) == prefix);
        assert(symbol[n] == symbol.take(n + 1)[n]);
        assert(symbol.take(n) =~= underlying) by {
            assert forall|i: int| 0 <= i < n implies symbol[i] == underlying[i] by {
                assert(symbol.take(n + 1)[i] == prefix[i]);
            }
        }
    }
    if is_of(symbol, underlying) {
        assert forall|i: int| 0 <= i < n + 1 implies symbol[i] == prefix[i] by {
            if i < n {
                assert(symbol.take(n)[i] == underlying[i]);
            }
        }
        assert(symbol.take(n + 1) =~= prefix);
    }
}

/// The last option of a list that stands under an expiry and a strike, on a side.
pub open spec fn is_last_on_side<N: Scalar>(
    symbols: Seq<OptionSymbol>,
    underlying: Seq<char>,
    expiry: Seq<char>,
    key: i64,
    side: Seq<char>,
    i: int,
) -> bool {
    &&& 0 <= i < symbols.len()
    &&& stands_under::<N>(symbols[i], underlying, expiry, key)
    &&& symbols[i].side@ == side
    &&& forall|k: int|
        i < k < symbols.len() ==> !(stands_under::<N>(#[trigger] symbols[k], underlying, expiry, key)
            && symbols[k].side@ == side)
}

/// The first option of a list that stands under an expiry and a strike.
pub open spec fn is_first_at<N: Scalar>(
    symbols: Seq<OptionSymbol>,
    underlying: Seq<char>,
    expiry: Seq<char>,
    key: i64,
    i: int,
) -> bool {
    &&& 0 <= i < symbols.len()
    &&& stands_under::<N>(symbols[i], underlying, expiry, key)
    &&& forall|k: int| 0 <= k < i ==> !stands_under::<N>(#[trigger] symbols[k], underlying, expiry, key)
}

/// The first option of a list that stands under an expiry.
pub open spec fn is_first_of<N: Scalar>(
    symbols: Seq<OptionSymbol>,
    underlying: Seq<char>,
    expiry: Seq<char>,
    i: int,
) -> bool {
    &&& 0 <= i < symbols.len()
    &&& expires_at::<N>(symbols[i], underlying, expiry)
    &&& forall|k: int| 0 <= k < i ==> !expires_at::<N>(#[trigger] symbols[k], underlying, expiry)
}

/// What the universe holds at a strike, on each side.
pub open spec fn pair_at<N: Scalar>(
    symbols: Seq<OptionSymbol>,
    underlying: Seq<char>,
    expiry: Seq<char>,
    key: i64,
) -> Option<PairView<N>> {
    let u = universe_spec::<N>(symbols, underlying);
    if u.contains_key(expiry) && u[expiry].strikes.contains_key(key) {
        Some(u[expiry].strikes[key])
    } else {
        None
    }
}

proof fn lemma_sides_differ()
    ensures
        "CALL"@ != "PUT"@,
{
    reveal_strlit("CALL");
    reveal_strlit("PUT");
    assert("CALL"@.len() != "PUT"@.len());
}

/// A traded option is in the universe, under its expiry and its strike and on its
/// side, where no later one of the list takes that place; the strike is that of
/// the first option there.
pub proof fn traded_options_are_found<N: Scalar>(
    symbols: Seq<OptionSymbol>,
    underlying: Seq<char>,
    expiry: Seq<char>,
    key: i64,
    i: int,
)
    ensures
        is_last_on_side::<N>(symbols, underlying, expiry, key, "CALL"@, i) ==> (pair_at::<N>(
            symbols,
            underlying,
            expiry,
            key,
        ) matches Some(p) && p.call == Some(symbols[i].symbol@)),
        is_last_on_side::<N>(symbols, underlying, expiry, key, "PUT"@, i) ==> (pair_at::<N>(
            symbols,
            underlying,
            expiry,
            key,
        ) matches Some(p) && p.put == Some(symbols[i].symbol@)),
        is_first_at::<N>(symbols, underlying, expiry, key, i) ==> (pair_at::<N>(
            symbols,
            underlying,
            expiry,
            key,
        ) matches Some(p) && N::parse_spec(symbols[i].strike_price@) == Some(p.strike)),
        is_first_of::<N>(symbols, underlying, expiry, i) ==> (universe_spec::<N>(symbols, underlying).contains_key(
            expiry,
        ) && universe_spec::<N>(symbols, underlying)[expiry].expiry_ms == symbols[i].expiry_date),
    decreases symbols.len(),
{
    lemma_sides_differ();
    if symbols.len() > 0 {
        let rest = symbols.drop_last();
        let s = symbols.last();
        lemma_prefix(s.symbol@, underlying);
        assert(symbols[symbols.len() - 1] == s);
        assert forall|k: int| 0 <= k < rest.len() implies rest[k] == symbols[k] by {}
        traded_options_are_found::<N>(rest, underlying, expiry, key, i);
        nothing_else_is_in_the_universe::<N>(rest, underlying, expiry, key);
        if 0 <= i < rest.len() {
            assert(rest[i] == symbols[i]);
            if is_last_on_side::<N>(symbols, underlying, expiry, key, "CALL"@, i) {
                assert(is_last_on_side::<N>(rest, underlying, expiry, key, "CALL"@, i));
                assert(!(stands_under::<N>(symbols[symbols.len() - 1], underlying, expiry, key)
                    && s.side@ == "CALL"@));
            }
            if is_last_on_side::<N>(symbols, underlying, expiry, key, "PUT"@, i) {
                assert(is_last_on_side::<N>(rest, underlying, expiry, key, "PUT"@, i));
                assert(!(stands_under::<N>(symbols[symbols.len() - 1], underlying, expiry, key)
                    && s.side@ == "PUT"@));
            }
            if is_first_at::<N>(symbols, underlying, expiry, key, i) {
                assert(is_first_at::<N>(rest, underlying, expiry, key, i));
            }
            if is_first_of::<N>(symbols, underlying, expiry, i) {
                assert(is_first_of::<N>(rest, underlying, expiry, i));
            }
        } else if i == rest.len() {
            if is_first_at::<N>(symbols, underlying, expiry, key, i) {
                assert forall|k: int| 0 <= k < rest.len() implies !stands_under::<N>(
                    #[trigger] rest[k],
                    underlying,
                    expiry,
                    key,
                ) by {
                    assert(symbols[k] == rest[k]);
                }
            }
            if is_first_of::<N>(symbols, underlying, expiry, i) {
                assert forall|k: int| 0 <= k < rest.len() implies !expires_at::<N>(
                    #[trigger] rest[k],
                    underlying,
                    expiry,
                ) by {
                    assert(symbols[k] == rest[k]);
                }
            }
        }
    }
}

/// The universe has a strike only where a traded option stands under it, and an
/// expiry only where one does; what it holds on a side is the symbol of such an
/// option of that side.
pub proof fn nothing_else_is_in_the_universe<N: Scalar>(
    symbols: Seq<OptionSymbol>,
    underlying: Seq<char>,
    expiry: Seq<char>,
    key: i64,
)
    ensures
        universe_spec::<N>(symbols, underlying).contains_key(expiry) ==> exists|i: int|
            0 <= i < symbols.len() && expires_at::<N>(#[trigger] symbols[i], underlying, expiry),
        pair_at::<N>(symbols, underlying, expiry, key) matches Some(p) ==> {
            &&& exists|i: int| 0 <= i < symbols.len() && stands_under::<N>(#[trigger] symbols[i], underlying, expiry, key)
            &&& p.call matches Some(name) ==> exists|i: int|
                0 <= i < symbols.len() && stands_under::<N>(#[trigger] symbols[i], underlying, expiry, key)
                    && symbols[i].side@ == "CALL"@ && symbols[i].symbol@ == name
            &&& p.put matches Some(name) ==> exists|i: int|
                0 <= i < symbols.len() && stands_under::<N>(#[trigger] symbols[i], underlying, expiry, key)
                    && symbols[i].side@ == "PUT"@ && symbols[i].symbol@ == name
        },
    decreases symbols.len(),
{
    lemma_sides_differ();
    if symbols.len() > 0 {
        let rest = symbols.drop_last();
        let s = symbols.last();
        let n = rest.len() as int;
        lemma_prefix(s.symbol@, underlying);
        assert(symbols[n] == s);
        nothing_else_is_in_the_universe::<N>(rest, underlying, expiry, key);
        assert forall|k: int| 0 <= k < n implies #[trigger] rest[k] == symbols[k] by {}
        if universe_spec::<N>(rest, underlying).contains_key(expiry) {
            let i = choose|i: int| 0 <= i < n && expires_at::<N>(#[trigger] rest[i], underlying, expiry);
            assert(expires_at::<N>(symbols[i], underlying, expiry));
        } else if universe_spec::<N>(symbols, underlying).contains_key(expiry) {
            assert(expires_at::<N>(symbols[n], underlying, expiry));
        }
        if let Some(p) = pair_at::<N>(symbols, underlying, expiry, key) {
            let here = stands_under::<N>(symbols[n], underlying, expiry, key);
            if let Some(q) = pair_at::<N>(rest, underlying, expiry, key) {
                let i = choose|i: int|
                    0 <= i < n && stands_under::<N>(#[trigger] rest[i], underlying, expiry, key);
                assert(stands_under::<N>(symbols[i], underlying, expiry, key));
                if let Some(name) = q.call {
                    let i = choose|i: int|
                        0 <= i < n && stands_under::<N>(#[trigger] rest[i], underlying, expiry, key)
                            && rest[i].side@ == "CALL"@ && rest[i].symbol@ == name;
                    assert(stands_under::<N>(symbols[i], underlying, expiry, key) && symbols[i].symbol@ == name);
                }
                if let Some(name) = q.put {
                    let i = choose|i: int|
                        0 <= i < n && stands_under::<N>(#[trigger] rest[i], underlying, expiry, key)
                            && rest[i].side@ == "PUT"@ && rest[i].symbol@ == name;
                    assert(stands_under::<N>(symbols[i], underlying, expiry, key) && symbols[i].symbol@ == name);
                }
            } else {
                assert(here);
            }
        }
    }
}

// ---------------------------------------------------------------------------
// Numbers in documents
// ---------------------------------------------------------------------------
/// The number that is printed under a key: as a text or as a number.
pub open spec fn is_printed_at(m: Map<Seq<char>, Json>, key: Seq<char>, text: Seq<char>) -> bool {
    m.contains_key(key) && (m[key] == Json::Text(text) || (m[key] matches Json::Number { text: t, integer } && t
        == text))
}

/// What is read under a key is the number that is printed there, and zero where
/// none is.
pub proof fn numbers_are_read_as_printed<N: Scalar>(m: Map<Seq<char>, Json>, key: Seq<char>, text: Seq<char>)
    ensures
        is_printed_at(m, key, text) && N::parse_spec(text) is Some ==> Some(
            json_number_at::<N>(Json::Object(m), key),
        ) == N::parse_spec(text),
        is_printed_at(m, key, text) && N::parse_spec(text) is None ==> json_number_at::<N>(Json::Object(m), key)
            == N::of_int_spec(0),
        !m.contains_key(key) ==> json_number_at::<N>(Json::Object(m), key) == N::of_int_spec(0),
        m.contains_key(key) && (m[key] is Null || m[key] is Flag || m[key] is Array || m[key] is Object)
            ==> json_number_at::<N>(Json::Object(m), key) == N::of_int_spec(0),
{
}

/// What is read under a key as an integer is the integer there, and zero where
/// there is none.
pub proof fn integers_are_read_as_they_are(m: Map<Seq<char>, Json>, key: Seq<char>)
    ensures
        m.contains_key(key) ==> (m[key] matches Json::Number { text, integer: Some(n) } ==> json_integer_at(
            Json::Object(m),
            key,
        ) == n),
        m.contains_key(key) ==> (m[key] matches Json::Number { text, integer: None } ==> json_integer_at(
            Json::Object(m),
            key,
        ) == 0),
        !m.contains_key(key) || !(m[key] is Number) ==> json_integer_at(Json::Object(m), key) == 0,
{
}

// ---------------------------------------------------------------------------
// Option quotes
// ---------------------------------------------------------------------------
/// A ticker quotes the option that it names under `s`: `bo` and `bq` are what
/// somebody buys at, `ao` and `aq` what somebody sells at, and `E` is when. A
/// ticker that names no option quotes none.
pub proof fn tickers_quote_the_option_they_name<N: Scalar>(m: Map<Seq<char>, Json>, symbol: Seq<char>)
    ensures
        m.contains_key("s"@) && m["s"@] == Json::Text(symbol) ==> (ticker_quote::<N>(Json::Object(m)) matches Some(
            q,
        ) && {
            &&& q.0 == symbol
            &&& q.1.bid == json_number_at::<N>(Json::Object(m), "bo"@)
            &&& q.1.bid_qty == json_number_at::<N>(Json::Object(m), "bq"@)
            &&& q.1.ask == json_number_at::<N>(Json::Object(m), "ao"@)
            &&& q.1.ask_qty == json_number_at::<N>(Json::Object(m), "aq"@)
            &&& q.1.ts_ms == json_integer_at(Json::Object(m), "E"@)
        }),
        !m.contains_key("s"@) || !(m["s"@] is Text) ==> ticker_quote::<N>(Json::Object(m)) is None,
{
}

/// A symbol that none of some tickers quotes keeps its quote, and one that
/// appears was quoted by one of them.
pub proof fn unquoted_options_keep_their_quotes<N: Scalar>(
    books: Map<Seq<char>, BookTop<N>>,
    tickers: Seq<Json>,
    symbol: Seq<char>,
)
    requires
        forall|i: int|
            0 <= i < tickers.len() ==> (ticker_quote::<N>(#[trigger] tickers[i]) matches Some(q) ==> q.0 != symbol),
    ensures
        with_tickers(books, tickers).contains_key(symbol) <==> books.contains_key(symbol),
        books.contains_key(symbol) ==> with_tickers(books, tickers)[symbol] == books[symbol],
    decreases tickers.len(),
{
    if tickers.len() > 0 {
        let rest = tickers.drop_last();
        assert forall|i: int| 0 <= i < rest.len() implies (ticker_quote::<N>(#[trigger] rest[i]) matches Some(q)
            ==> q.0 != symbol) by {
            assert(rest[i] == tickers[i]);
        }
        unquoted_options_keep_their_quotes(books, rest, symbol);
        assert(tickers[tickers.len() - 1] == tickers.last());
    }
}

/// The last ticker that names a symbol gives its quote.
pub proof fn last_quote_counts<N: Scalar>(
    books: Map<Seq<char>, BookTop<N>>,
    tickers: Seq<Json>,
    i: int,
    symbol: Seq<char>,
    top: BookTop<N>,
)
    requires
        0 <= i < tickers.len(),
        ticker_quote::<N>(tickers[i]) == Some((symbol, top)),
        forall|j: int|
            i < j < tickers.len() ==> (ticker_quote::<N>(#[trigger] tickers[j]) matches Some(q) ==> q.0 != symbol),
    ensures
        with_tickers(books, tickers).contains_key(symbol),
        with_tickers(books, tickers)[symbol] == top,
{
    crate::binance::ws_options::last_ticker_counts(books, tickers, i);
}

/// Whatever wraps them, the same tickers count the same: bare, under `data`, or
/// alone. A message with neither changes nothing.
pub proof fn messages_count_however_wrapped<N: Scalar>(
    books: Map<Seq<char>, BookTop<N>>,
    tickers: Seq<Json>,
    one: Map<Seq<char>, Json>,
    wrapped: Map<Seq<char>, Json>,
)
    ensures
        message_tickers(Json::Array(tickers)) == tickers,
        wrapped.contains_key("data"@) && wrapped["data"@] == Json::Array(tickers) ==> message_tickers(
            Json::Object(wrapped),
        ) == tickers,
        wrapped.contains_key("data"@) && wrapped["data"@] == Json::Object(one) ==> with_tickers(
            books,
            message_tickers(Json::Object(wrapped)),
        ) == with_tickers(books, message_tickers(Json::Array(seq![Json::Object(one)]))),
        one.contains_key("e"@) && !one.contains_key("data"@) ==> with_tickers(
            books,
            message_tickers(Json::Object(one)),
        ) == with_tickers(books, message_tickers(Json::Array(seq![Json::Object(one)]))),
        !one.contains_key("e"@) && !one.contains_key("data"@) ==> with_tickers(
            books,
            message_tickers(Json::Object(one)),
        ) == books,
        with_tickers(books, message_tickers(Json::Null)) == books,
{
}

// ---------------------------------------------------------------------------
// Spot quotes
// ---------------------------------------------------------------------------
/// A message quotes the spot where it has both `b` and `a`: `b` and `B` are what
/// somebody buys at, `a` and `A` what somebody sells at. Any other leaves the
/// quote as it was, and so do bytes that hold no document.
pub proof fn spot_messages_quote_both_sides<N: Scalar>(
    before: BookTop<N>,
    data: Seq<u8>,
    m: Map<Seq<char>, Json>,
    now: i64,
)
    ensures
        json_parse(data) == Some(Json::Object(m)) && m.contains_key("b"@) && m.contains_key("a"@) ==> {
            let top = spot_after(before, data, now);
            &&& top.bid == json_number_at::<N>(Json::Object(m), "b"@)
            &&& top.bid_qty == json_number_at::<N>(Json::Object(m), "B"@)
            &&& top.ask == json_number_at::<N>(Json::Object(m), "a"@)
            &&& top.ask_qty == json_number_at::<N>(Json::Object(m), "A"@)
            &&& top.ts_ms == now
        },
        json_parse(data) == Some(Json::Object(m)) && !(m.contains_key("b"@) && m.contains_key("a"@)) ==> spot_after(
            before,
            data,
            now,
        ) == before,
        json_parse(data) is None ==> spot_after(before, data, now) == before,
        json_parse(data) matches Some(j) ==> (!(j is Object) ==> spot_after(before, data, now) == before),
{
}

// ---------------------------------------------------------------------------
// Frames
// ---------------------------------------------------------------------------
/// The streams that a frame asks for.
pub open spec fn frame_fields(
    method: Seq<char>,
    streams: Seq<Seq<char>>,
    from: int,
    to: int,
    id: nat,
    m: Map<Seq<char>, Json>,
) -> bool {
    &&& m.dom() == set!["method"@, "params"@, "id"@]
    &&& m["method"@] == Json::Text(method)
    &&& m["params"@] matches Json::Array(a) && a.len() == to - from && forall|i: int|
        0 <= i < a.len() ==> #[trigger] a[i] == Json::Text(streams[from + i])
    &&& m["id"@] matches Json::Number { text, integer } && text == digits(id)
}

/// The frames of a request name its streams in their order, fifty in each but the
/// last, which names what is left. Each has the method and an id, and the ids
/// count on.
pub proof fn frames_hold_fifty_streams(method: Seq<char>, streams: Seq<Seq<char>>, id: nat, k: int)
    requires
        0 <= k,
    ensures
        k < frames_spec(method, streams, id).len() <==> 50 * k < streams.len(),
        50 * k < streams.len() ==> exists|m: Map<Seq<char>, Json>|
            {
                &&& frames_spec(method, streams, id)[k] == #[trigger] json_text(Json::Object(m))
                &&& frame_fields(
                    method,
                    streams,
                    50 * k,
                    if streams.len() < 50 * k + 50 {
                        streams.len() as int
                    } else {
                        50 * k + 50
                    },
                    id + k as nat,
                    m,
                )
            },
{
    reveal_strlit("method");
    reveal_strlit("params");
    reveal_strlit("id");
    assert("method"@[0] != "params"@[0]);
    assert("id"@.len() == 2);
    if 50 * k < streams.len() {
        let chunk = frame_streams(streams, k);
        let frame = crate::binance::ws_options::frame_json(method, chunk, (id + k) as nat);
        let m = frame->Object_0;
        assert(frames_spec(method, streams, id)[k] == json_text(Json::Object(m)));
        assert(m.dom() =~= set!["method"@, "params"@, "id"@]);
    }
}

} // verus!
