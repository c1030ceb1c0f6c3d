//! The quotes of the spot market that Binance streams.
use crate::json::{field, json_field, json_of, json_parse, parse_json, Json};
use crate::model::{json_number_at, now_ms, number_at, BookTop, Quotes};
use crate::scalar::Scalar;
use crate::text::{ascii_lower, is_ascii_text, lowercase, to_lower, trim_trailing, without_trailing};
use vstd::prelude::*;
use vstd::string::*;

verus! {

/// The quote that a message gives, read at a time. There is one where the
/// message is an object with both prices. A quantity that it does not give is
/// zero.
pub open spec fn spot_quote<N: Scalar>(j: Json, now: i64) -> Option<BookTop<N>> {
    if json_field(j, "b"@) is Some && json_field(j, "a"@) is Some {
        Some(
            BookTop {
                bid: json_number_at::<N>(j, "b"@),
                bid_qty: json_number_at::<N>(j, "B"@),
                ask: json_number_at::<N>(j, "a"@),
                ask_qty: json_number_at::<N>(j, "A"@),
                ts_ms: now,
            },
        )
    } else {
        None
    }
}

/// The quote after a message as it was received.
pub open spec fn spot_after<N: Scalar>(before: BookTop<N>, data: Seq<u8>, now: i64) -> BookTop<N> {
    match json_parse(data) {
        Some(j) => match spot_quote::<N>(j, now) {
            Some(top) => top,
            None => before,
        },
        None => before,
    }
}

/// Takes in the quote of a message.
pub fn apply_spot<N: Scalar>(v: &serde_json::Value, quotes: &mut Quotes<N>, now: i64)
    requires
        old(quotes).wf(),
    ensures
        final(quotes).wf(),
        final(quotes).books() == old(quotes).books(),
        final(quotes).spot_book() == (match spot_quote::<N>(json_of(*v), now) {
            Some(top) => top,
            None => old(quotes).spot_book(),
        }),
{
    if field(v, "b").is_none() || field(v, "a").is_none() {
        return;
    }
    let top: BookTop<N> = BookTop {
        bid: number_at(v, "b"),
        bid_qty: number_at(v, "B"),
        ask: number_at(v, "a"),
        ask_qty: number_at(v, "A"),
        ts_ms: now,
    };
    quotes.set_spot(top);
}

/// Takes in the quote of a message as it was received at a time.
pub fn handle_spot_at<N: Scalar>(data: &[u8], quotes: &mut Quotes<N>, now: i64)
    requires
        old(quotes).wf(),
    ensures
        final(quotes).wf(),
        final(quotes).books() == old(quotes).books(),
        final(quotes).spot_book() == spot_after(old(quotes).spot_book(), data@, now),
{
    match parse_json(data) {
        Some(v) => {
            apply_spot(&v, quotes, now);
        },
        None => {},
    }
}

/// Takes in the quote of a message as it was received, with the time that the
/// clock shows. Which time that is is not said.
pub fn handle_spot<N: Scalar>(data: &[u8], quotes: &mut Quotes<N>)
    requires
        old(quotes).wf(),
    ensures
        final(quotes).wf(),
        final(quotes).books() == old(quotes).books(),
        exists|now: i64| final(quotes).spot_book() == #[trigger] spot_after(old(quotes).spot_book(), data@, now),
{
    let now: i64 = now_ms();
    handle_spot_at(data, quotes, now);
}

/// The stream of a pair: `btcusdt@bookTicker`.
pub fn spot_stream(symbol: &str) -> (r: String)
    ensures
        r@ == lowercase(symbol@) + "@bookTicker"@,
        is_ascii_text(symbol@) ==> r@ == symbol@.map_values(|c: char| ascii_lower(c)) + "@bookTicker"@,
{
    let mut stream: String = to_lower(symbol);
    stream.append("@bookTicker");
    stream
}

/// Where a stream of the spot market is found.
pub fn spot_url(spot_ws: &str, stream: &str) -> (r: String)
    ensures
        r@ == without_trailing(spot_ws@, '/') + "/ws/"@ + stream@,
{
    let mut url: String = trim_trailing(spot_ws, '/');
    url.append("/ws/");
    url.append(stream);
    url
}

} // verus!
