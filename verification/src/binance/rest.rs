//! The options that Binance lists.
use crate::model::{strike_key, strike_key_spec, well_keyed, ExpiryEntry, StrikePair, Universe};
use crate::scalar::Scalar;
use crate::table::Table;
use crate::text::{begins_with, pieces, pieces_hold_no_separator, same_text, split_on, starts_with, texts};
use vstd::prelude::*;
use vstd::string::*;

verus! {

/// An option as it is listed.
#[derive(Debug)]
pub struct OptionSymbol {
    /// Such as `BTC-260925-145000-C`.
    pub symbol: String,
    /// `CALL` or `PUT`.
    pub side: String,
    pub strike_price: String,
    /// In milliseconds.
    pub expiry_date: i64,
    /// `TRADING` where the option can be traded.
    pub status: String,
}

/// The call and the put of one strike, in contracts.
pub struct PairView<N> {
    pub strike: N,
    pub call: Option<Seq<char>>,
    pub put: Option<Seq<char>>,
}

/// All strikes of one expiry, in contracts.
#[verifier::ext_equal]
pub struct ExpiryView<N> {
    pub expiry_ms: i64,
    pub strikes: Map<i64, PairView<N>>,
}

/// A text that may be missing.
pub open spec fn text_or_none(s: Option<String>) -> Option<Seq<char>> {
    match s {
        Some(x) => Some(x@),
        None => None,
    }
}

/// A pair in contracts.
pub open spec fn pair_view<N>(p: StrikePair<N>) -> PairView<N> {
    PairView { strike: p.strike, call: text_or_none(p.call), put: text_or_none(p.put) }
}

/// An expiry in contracts.
pub open spec fn expiry_view<N>(e: ExpiryEntry<N>) -> ExpiryView<N> {
    ExpiryView {
        expiry_ms: e.expiry_ms,
        strikes: e.strikes.map().map_values(|p: StrikePair<N>| pair_view(p)),
    }
}

impl<N: Scalar> Universe<N> {
    /// The expiries with their strikes.
    pub open spec fn listed(&self) -> Map<Seq<char>, ExpiryView<N>> {
        self.expiries.map().map_values(|e: ExpiryEntry<N>| expiry_view(e))
    }
}

/// An option that counts: of the underlying, traded, with a name in four parts
/// and a strike that is a number.
pub open spec fn is_listed<N: Scalar>(s: OptionSymbol, underlying: Seq<char>) -> bool {
    &&& begins_with(s.symbol@, underlying + "-"@)
    &&& s.status@ == "TRADING"@
    &&& pieces(s.symbol@, '-').len() == 4
    &&& N::parse_spec(s.strike_price@) is Some
}

/// The expiry that a symbol names.
pub open spec fn expiry_name(s: OptionSymbol) -> Seq<char> {
    pieces(s.symbol@, '-')[1]
}

/// An option takes its side of a pair. A later one takes the place of an earlier.
pub open spec fn with_side<N>(pair: PairView<N>, s: OptionSymbol) -> PairView<N> {
    if s.side@ == "CALL"@ {
        PairView { call: Some(s.symbol@), ..pair }
    } else if s.side@ == "PUT"@ {
        PairView { put: Some(s.symbol@), ..pair }
    } else {
        pair
    }
}

/// An option joins the strikes of an expiry.
pub open spec fn with_option<N: Scalar>(e: ExpiryView<N>, s: OptionSymbol) -> ExpiryView<N> {
    let strike = N::parse_spec(s.strike_price@)->0;
    let key = strike_key_spec(strike);
    let pair = if e.strikes.contains_key(key) {
        e.strikes[key]
    } else {
        PairView { strike, call: None, put: None }
    };
    ExpiryView { strikes: e.strikes.insert(key, with_side(pair, s)), ..e }
}

/// The expiries of the options that count, each with its strikes.
pub open spec fn universe_spec<N: Scalar>(symbols: Seq<OptionSymbol>, underlying: Seq<char>) -> Map<
    Seq<char>,
    ExpiryView<N>,
>
    decreases symbols.len(),
{
    if symbols.len() == 0 {
        Map::empty()
    } else {
        let before = universe_spec::<N>(symbols.drop_last(), underlying);
        let s = symbols.last();
        if !is_listed::<N>(s, underlying) {
            before
        } else {
            let entry = if before.contains_key(expiry_name(s)) {
                before[expiry_name(s)]
            } else {
                ExpiryView { expiry_ms: s.expiry_date, strikes: Map::empty() }
            };
            before.insert(expiry_name(s), with_option(entry, s))
        }
    }
}

fn add_option<N: Scalar>(entry: &mut ExpiryEntry<N>, strike: N, s: &OptionSymbol)
    requires
        well_keyed(*old(entry)),
        N::parse_spec(s.strike_price@) == Some(strike),
    ensures
        well_keyed(*final(entry)),
        expiry_view(*final(entry)) == with_option(expiry_view(*old(entry)), *s),
{
    let ghost before = *entry;
    let key: i64 = strike_key(strike);
    let mut pair: StrikePair<N> = match entry.strikes.remove(&key) {
        Some(p) => p,
        None => StrikePair { strike, call: None, put: None },
    };
    if same_text(s.side.as_str(), "CALL") {
        pair.call = Some(s.symbol.clone());
    } else if same_text(s.side.as_str(), "PUT") {
        pair.put = Some(s.symbol.clone());
    }
    entry.strikes.insert(key, pair);
    proof {
        assert(expiry_view(*entry).strikes =~= with_option(expiry_view(before), *s).strikes);
    }
}

/// Whether an option counts, and if so, with which expiry and strike.
fn listing<N: Scalar>(s: &OptionSymbol, prefix: &str) -> (r: Option<(String, N)>)
    ensures
        r is Some <==> begins_with(s.symbol@, prefix@) && s.status@ == "TRADING"@ && pieces(s.symbol@, '-').len()
            == 4 && N::parse_spec(s.strike_price@) is Some,
        r matches Some((expiry, strike)) ==> expiry@ == expiry_name(*s) && N::parse_spec(s.strike_price@) == Some(
            strike,
        ),
{
    if !starts_with(s.symbol.as_str(), prefix) || !same_text(s.status.as_str(), "TRADING") {
        return None;
    }
    let parts: Vec<String> = split_on(s.symbol.as_str(), '-');
    proof {
        assert(texts(parts@).len() == parts@.len());
    }
    if parts.len() != 4 {
        return None;
    }
    proof {
        assert(texts(parts@)[1] == parts@[1]@);
    }
    match N::parse(s.strike_price.as_str()) {
        Some(strike) => Some((parts[1].clone(), strike)),
        None => None,
    }
}

/// The options of an underlying that can be traded, by expiry and strike.
pub fn build_universe<N: Scalar>(option_symbols: &Vec<OptionSymbol>, underlying: &str) -> (r: Universe<N>)
    ensures
        r.wf(),
        r.listed() == universe_spec::<N>(option_symbols@, underlying@),
{
    let mut prefix = underlying.to_owned();
    prefix.append("-");
    let mut u: Universe<N> = Universe { expiries: Table::new() };
    let n: usize = option_symbols.len();
    let mut i: usize = 0;
    proof {
        assert(option_symbols@.take(0) =~= Seq::<OptionSymbol>::empty());
        assert(u.listed() =~= Map::<Seq<char>, ExpiryView<N>>::empty());
    }
    while i < n
        invariant
            i <= n,
            n == option_symbols@.len(),
            prefix@ == underlying@ + "-"@,
            u.wf(),
            u.listed() == universe_spec::<N>(option_symbols@.take(i as int), underlying@),
        decreases n - i,
    {
        let s: &OptionSymbol = &option_symbols[i];
        let ghost before = u;
        proof {
            let t = option_symbols@.take(i + 1);
            assert(t.drop_last() =~= option_symbols@.take(i as int));
            assert(t.last() == *s);
        }
        match listing::<N>(s, prefix.as_str()) {
            Some((expiry, strike)) => {
                let mut entry: ExpiryEntry<N> = match u.expiries.remove(&expiry) {
                    Some(e) => e,
                    None => ExpiryEntry { expiry_ms: s.expiry_date, strikes: Table::new() },
                };
                let ghost entry0 = entry;
                proof {
                    if !before.expiries.map().contains_key(expiry@) {
                        assert(expiry_view(entry0).strikes =~= Map::<i64, PairView<N>>::empty());
                    }
                }
                add_option(&mut entry, strike, s);
                let ghost name = expiry@;
                proof {
                    pieces_hold_no_separator(s.symbol@, '-', 1);
                }
                u.expiries.insert(expiry, entry);
                proof {
                    assert(u.listed() =~= before.listed().insert(name, expiry_view(entry)));
                }
            },
            None => {},
        }
        i = i + 1;
    }
    proof {
        assert(option_symbols@.take(n as int) =~= option_symbols@);
    }
    u
}

// ---------------------------------------------------------------------------
// Laws
// ---------------------------------------------------------------------------
/// Every symbol in the universe is that of a listed option: of the underlying,
/// traded, with the expiry, the strike and the side under which it stands.
pub proof fn universe_holds_listed_options<N: Scalar>(
    symbols: Seq<OptionSymbol>,
    underlying: Seq<char>,
    expiry: Seq<char>,
    key: i64,
)
    requires
        universe_spec::<N>(symbols, underlying).contains_key(expiry),
        universe_spec::<N>(symbols, underlying)[expiry].strikes.contains_key(key),
    ensures
        universe_spec::<N>(symbols, underlying)[expiry].strikes[key].call matches Some(name) ==> found_at::<N>(
            symbols,
            underlying,
            expiry,
            key,
            "CALL"@,
            name,
        ),
        universe_spec::<N>(symbols, underlying)[expiry].strikes[key].put matches Some(name) ==> found_at::<N>(
            symbols,
            underlying,
            expiry,
            key,
            "PUT"@,
            name,
        ),
    decreases symbols.len(),
{
    if symbols.len() > 0 {
        let rest = symbols.drop_last();
        let before = universe_spec::<N>(rest, underlying);
        let s = symbols.last();
        assert(symbols[symbols.len() - 1] == s);
        if before.contains_key(expiry) && before[expiry].strikes.contains_key(key) {
            universe_holds_listed_options::<N>(rest, underlying, expiry, key);
            assert forall|side: Seq<char>, name: Seq<char>| #[trigger]
                found_at::<N>(rest, underlying, expiry, key, side, name) implies found_at::<N>(
                symbols,
                underlying,
                expiry,
                key,
                side,
                name,
            ) by {
                let i = choose|i: int|
                    0 <= i < rest.len() && is_at::<N>(#[trigger] rest[i], underlying, expiry, key, side, name);
                assert(symbols[i] == rest[i]);
            }
        }
        if is_listed::<N>(s, underlying) && expiry_name(s) == expiry && strike_key_spec(
            N::parse_spec(s.strike_price@)->0,
        ) == key {
            assert(is_at::<N>(symbols[symbols.len() - 1], underlying, expiry, key, s.side@, s.symbol@));
            assert(found_at::<N>(symbols, underlying, expiry, key, s.side@, s.symbol@));
        }
    }
}

/// Some option of a list stands under an expiry, a strike and a side.
pub open spec fn found_at<N: Scalar>(
    symbols: Seq<OptionSymbol>,
    underlying: Seq<char>,
    expiry: Seq<char>,
    key: i64,
    side: Seq<char>,
    name: Seq<char>,
) -> bool {
    exists|i: int| 0 <= i < symbols.len() && is_at::<N>(#[trigger] symbols[i], underlying, expiry, key, side, name)
}

/// A listed option stands under an expiry, a strike and a side.
pub open spec fn is_at<N: Scalar>(
    s: OptionSymbol,
    underlying: Seq<char>,
    expiry: Seq<char>,
    key: i64,
    side: Seq<char>,
    name: Seq<char>,
) -> bool {
    &&& is_listed::<N>(s, underlying)
    &&& expiry_name(s) == expiry
    &&& strike_key_spec(N::parse_spec(s.strike_price@)->0) == key
    &&& s.side@ == side
    &&& s.symbol@ == name
}

/// Every listed option is in the universe: its expiry and its strike are there,
/// with a symbol on its side.
pub proof fn listed_option_is_in_universe<N: Scalar>(symbols: Seq<OptionSymbol>, underlying: Seq<char>, i: int)
    requires
        0 <= i < symbols.len(),
        is_listed::<N>(symbols[i], underlying),
    ensures
        ({
            let u = universe_spec::<N>(symbols, underlying);
            let expiry = expiry_name(symbols[i]);
            let key = strike_key_spec(N::parse_spec(symbols[i].strike_price@)->0);
            &&& u.contains_key(expiry)
            &&& u[expiry].strikes.contains_key(key)
            &&& symbols[i].side@ == "CALL"@ ==> u[expiry].strikes[key].call is Some
            &&& symbols[i].side@ == "PUT"@ ==> u[expiry].strikes[key].put is Some
        }),
    decreases symbols.len(),
{
    reveal_strlit("CALL");
    reveal_strlit("PUT");
    assert("CALL"@.len() != "PUT"@.len());
    if i < symbols.len() - 1 {
        assert(symbols.drop_last()[i] == symbols[i]);
        listed_option_is_in_universe::<N>(symbols.drop_last(), underlying, i);
    }
}

} // verus!
