//! Laws of candidates and opportunities: which options are paired, what a
//! strategy costs and brings, and how the figures of an opportunity hang together.
use crate::arb::{
    annual_return, candidate_comes_from_pair, candidate_of, candidates_at, candidates_up_to, expiry_spec,
    instrument_spec, is_from_pair, last_of_pair, named_options, opportunity_spec, option_fee_usd, pairs_with,
    priced_spec, rough_rate, rough_spec, spot_mid, starts_pair, usable, CandidateView, InstrumentView,
    OptionType, Priced,
};
use crate::fixed::{magnitude, Fixed, SCALE};
use crate::laws::fixed::{is_amount, products_are_cut_off, quotients_are_cut_off};
use crate::laws::scan::{is_least_of, is_rate, is_share, lemma_least_of_three};
use crate::laws::text::four_pieces_join_to_the_text;
use crate::models::{Config, LegView, OpportunityView, OptionSummary, OptionTopOfBook, SpotBook, Strategy};
use crate::rank::{is_sorted, sorted_keeps_items, sorted_loses_no_item};
use crate::scalar::{zero_spec, Scalar};
use crate::text::{pieces, uppercase};
use crate::time::{seconds_spec, UtcTime};
use vstd::prelude::*;
use vstd::string::*;

verus! {

// ---------------------------------------------------------------------------
// Names
// ---------------------------------------------------------------------------
/// The name of an option is its underlying, its expiry, its strike and `C` or
/// `P`, between dashes. The expiry code is the expiry in upper case, and stands
/// for eight o'clock of that day; the strike is the number that its text denotes.
pub proof fn name_spells_the_option<N: Scalar>(name: Seq<char>)
    ensures
        instrument_spec::<N>(name) matches Some(x) ==> exists|code: Seq<char>|
            {
                &&& x.expiry_code == #[trigger] uppercase(code)
                &&& name == x.underlying + "-"@ + code + "-"@ + x.strike_text + "-"@ + (match x.option_type {
                    OptionType::Call => "C"@,
                    OptionType::Put => "P"@,
                })
                &&& N::parse_spec(x.strike_text) == Some(x.strike)
                &&& expiry_spec(x.expiry_code) == Some(x.expiry_utc.secs)
                &&& x.expiry_utc.nanos == 0
            },
{
    if instrument_spec::<N>(name) is Some {
        reveal_strlit("-");
        reveal_strlit("C");
        reveal_strlit("P");
        assert("-"@ =~= seq!['-']);
        assert("C"@[0] != "P"@[0]);
        four_pieces_join_to_the_text(name, '-');
        let code = pieces(name, '-')[1];
        assert(instrument_spec::<N>(name)->0.expiry_code == uppercase(code));
    }
}

/// Two names with the same expiry code and the same text of the strike have the
/// same expiry and the same strike.
pub proof fn name_fixes_expiry_and_strike<N: Scalar>(a: Seq<char>, b: Seq<char>)
    requires
        instrument_spec::<N>(a) is Some,
        instrument_spec::<N>(b) is Some,
        instrument_spec::<N>(a)->0.expiry_code == instrument_spec::<N>(b)->0.expiry_code,
        instrument_spec::<N>(a)->0.strike_text == instrument_spec::<N>(b)->0.strike_text,
    ensures
        instrument_spec::<N>(a)->0.expiry_utc == instrument_spec::<N>(b)->0.expiry_utc,
        instrument_spec::<N>(a)->0.strike == instrument_spec::<N>(b)->0.strike,
{
    name_spells_the_option::<N>(a);
    name_spells_the_option::<N>(b);
}

// ---------------------------------------------------------------------------
// Pairs
// ---------------------------------------------------------------------------
/// An option by what its name says: its underlying, its expiry code, the text of
/// its strike, and whether it is a call or a put.
pub open spec fn reads<N: Scalar>(
    option: OptionSummary<N>,
    underlying: Seq<char>,
    expiry_code: Seq<char>,
    strike_text: Seq<char>,
    option_type: OptionType,
) -> bool {
    instrument_spec::<N>(option.instrument_name@) matches Some(x) && x.underlying == underlying && x.expiry_code
        == expiry_code && x.strike_text == strike_text && x.option_type == option_type
}

/// A candidate is made of a call and a put of the underlying whose names say the
/// same expiry and the same strike, which are the candidate's; they are listed,
/// and they expire later than now.
pub open spec fn is_one_pair<N: Scalar>(
    c: CandidateView<N>,
    underlying: Seq<char>,
    strike_text: Seq<char>,
    summaries: Seq<OptionSummary<N>>,
    now: UtcTime,
) -> bool {
    &&& c.underlying == underlying
    &&& reads(c.call, underlying, c.expiry_code, strike_text, OptionType::Call)
    &&& reads(c.put, underlying, c.expiry_code, strike_text, OptionType::Put)
    &&& summaries.contains(c.call)
    &&& summaries.contains(c.put)
    &&& N::parse_spec(strike_text) == Some(c.strike)
    &&& !c.strike.at_most_spec(N::of_int_spec(0))
    &&& expiry_spec(c.expiry_code) == Some(c.expiry_utc.secs)
    &&& c.expiry_utc.nanos == 0
    &&& now.secs * 1_000_000_000 + now.nanos < c.expiry_utc.secs * 1_000_000_000
}

/// Every candidate that is found is made of a call and a put of one underlying,
/// one expiry and one strike, and reaches the threshold.
pub proof fn candidates_pair_options_of_one_strike<N: Scalar>(
    config: Config<N>,
    spot: SpotBook<N>,
    summaries: Seq<OptionSummary<N>>,
    now: UtcTime,
    found: Seq<CandidateView<N>>,
    i: int,
)
    requires
        is_sorted(
            candidates_up_to(config, spot, named_options(summaries), summaries, now, summaries.len() as int),
            found,
            rough_rate::<N>(),
        ),
        0 <= i < found.len(),
    ensures
        exists|strike_text: Seq<char>| #[trigger]
            is_one_pair(found[i], spot.underlying@, strike_text, summaries, now),
        config.min_annualized.at_most_spec(found[i].rough_annualized),
{
    let options = named_options(summaries);
    let n = summaries.len() as int;
    let raw = candidates_up_to(config, spot, options, summaries, now, n);
    sorted_keeps_items(raw, found, rough_rate::<N>(), i);
    let k = choose|k: int| 0 <= k < raw.len() && raw[k] == found[i];
    candidate_comes_from_pair(config, spot, options, summaries, now, n, k);
    let c = found[i];
    let (start, call, put) = choose|start: int, call: int, put: int| #[trigger]
        is_from_pair(c, config, spot, options, summaries, now, start, call, put);
    lemma_pair(c, config, spot, summaries, now, start, call, put);
}

proof fn lemma_pair<N: Scalar>(
    c: CandidateView<N>,
    config: Config<N>,
    spot: SpotBook<N>,
    summaries: Seq<OptionSummary<N>>,
    now: UtcTime,
    start: int,
    call: int,
    put: int,
)
    requires
        is_from_pair(c, config, spot, named_options(summaries), summaries, now, start, call, put),
    ensures
        is_one_pair(c, spot.underlying@, named_options(summaries)[start]->0.strike_text, summaries, now),
{
    let options = named_options(summaries);
    name_spells_the_option::<N>(summaries[start].instrument_name@);
    assert(summaries[call] == c.call);
    assert(summaries[put] == c.put);
    assert(options[call] == instrument_spec::<N>(summaries[call].instrument_name@));
    assert(options[put] == instrument_spec::<N>(summaries[put].instrument_name@));
    assert(options[start] == instrument_spec::<N>(summaries[start].instrument_name@));
}

/// Options that differ in their underlying, their expiry code or the text of
/// their strike never share a candidate.
pub proof fn different_options_share_no_candidate<N: Scalar>(
    config: Config<N>,
    spot: SpotBook<N>,
    summaries: Seq<OptionSummary<N>>,
    now: UtcTime,
    found: Seq<CandidateView<N>>,
    i: int,
    a: InstrumentView<N>,
    b: InstrumentView<N>,
)
    requires
        is_sorted(
            candidates_up_to(config, spot, named_options(summaries), summaries, now, summaries.len() as int),
            found,
            rough_rate::<N>(),
        ),
        0 <= i < found.len(),
        instrument_spec::<N>(found[i].call.instrument_name@) == Some(a),
        instrument_spec::<N>(found[i].put.instrument_name@) == Some(b),
    ensures
        a.underlying == b.underlying,
        a.expiry_code == b.expiry_code,
        a.strike_text == b.strike_text,
        a.expiry_utc == b.expiry_utc,
        a.strike == b.strike,
        a.option_type == OptionType::Call,
        b.option_type == OptionType::Put,
{
    candidates_pair_options_of_one_strike(config, spot, summaries, now, found, i);
    name_fixes_expiry_and_strike::<N>(found[i].call.instrument_name@, found[i].put.instrument_name@);
}

/// Option `i` starts a pair, and a candidate is one of that pair.
spec fn is_found_at<N: Scalar>(
    c: CandidateView<N>,
    config: Config<N>,
    spot: SpotBook<N>,
    summaries: Seq<OptionSummary<N>>,
    now: UtcTime,
    i: int,
) -> bool {
    &&& starts_pair(named_options(summaries), i, spot.underlying@, now)
    &&& candidates_at(config, spot, named_options(summaries), summaries, now, i).contains(c)
}

proof fn lemma_origin<N: Scalar>(
    config: Config<N>,
    spot: SpotBook<N>,
    summaries: Seq<OptionSummary<N>>,
    now: UtcTime,
    n: int,
    k: int,
) -> (start: int)
    requires
        n <= summaries.len(),
        0 <= k < candidates_up_to(config, spot, named_options(summaries), summaries, now, n).len(),
    ensures
        0 <= start < n,
        is_found_at(
            candidates_up_to(config, spot, named_options(summaries), summaries, now, n)[k],
            config,
            spot,
            summaries,
            now,
            start,
        ),
    decreases n,
{
    let options = named_options(summaries);
    let before = candidates_up_to(config, spot, options, summaries, now, n - 1);
    let more = candidates_at(config, spot, options, summaries, now, n - 1);
    if k < before.len() {
        assert((before + more)[k] == before[k]);
        lemma_origin(config, spot, summaries, now, n - 1, k)
    } else {
        assert((before + more)[k] == more[k - before.len()]);
        assert(more.contains(more[k - before.len()]));
        n - 1
    }
}

proof fn lemma_last_is_last<N: Scalar>(
    options: Seq<Option<InstrumentView<N>>>,
    with: int,
    option_type: OptionType,
    underlying: Seq<char>,
    now: UtcTime,
    n: int,
)
    ensures
        ({
            let last = last_of_pair(options, with, option_type, underlying, now, n);
            &&& last matches Some(k) ==> 0 <= k < n && pairs_with(options, k, with, underlying, now)
                && options[k]->0.option_type == option_type
            &&& forall|m: int|
                0 <= m < n && (last matches Some(k) ==> k < m) ==> !(#[trigger] pairs_with(
                    options,
                    m,
                    with,
                    underlying,
                    now,
                ) && options[m]->0.option_type == option_type)
        }),
    decreases n,
{
    if n > 0 {
        lemma_last_is_last(options, with, option_type, underlying, now, n - 1);
    }
}

/// What a summary reads as, next to one that starts a pair.
proof fn lemma_reads<N: Scalar>(
    summaries: Seq<OptionSummary<N>>,
    underlying: Seq<char>,
    now: UtcTime,
    start: int,
    m: int,
    option_type: OptionType,
)
    requires
        0 <= start < summaries.len(),
        0 <= m < summaries.len(),
        usable(named_options(summaries)[start], underlying, now),
    ensures
        ({
            let options = named_options(summaries);
            let s = options[start]->0;
            reads(summaries[m], underlying, s.expiry_code, s.strike_text, option_type) <==> pairs_with(
                options,
                m,
                start,
                underlying,
                now,
            ) && options[m]->0.option_type == option_type
        }),
{
    let options = named_options(summaries);
    assert(options[m] == instrument_spec::<N>(summaries[m].instrument_name@));
    assert(options[start] == instrument_spec::<N>(summaries[start].instrument_name@));
    let s = options[start]->0;
    if reads(summaries[m], underlying, s.expiry_code, s.strike_text, option_type) {
        name_fixes_expiry_and_strike::<N>(summaries[m].instrument_name@, summaries[start].instrument_name@);
    }
}

/// The option at `i` reads as said, and none listed behind it does.
pub open spec fn is_last_listed<N: Scalar>(
    summaries: Seq<OptionSummary<N>>,
    i: int,
    underlying: Seq<char>,
    expiry_code: Seq<char>,
    strike_text: Seq<char>,
    option_type: OptionType,
) -> bool {
    &&& 0 <= i < summaries.len()
    &&& reads(summaries[i], underlying, expiry_code, strike_text, option_type)
    &&& forall|k: int|
        i < k < summaries.len() ==> !reads(#[trigger] summaries[k], underlying, expiry_code, strike_text, option_type)
}

/// Of several options that read the same, a candidate has the one listed last.
pub proof fn options_listed_last_count<N: Scalar>(
    config: Config<N>,
    spot: SpotBook<N>,
    summaries: Seq<OptionSummary<N>>,
    now: UtcTime,
    found: Seq<CandidateView<N>>,
    i: int,
)
    requires
        is_sorted(
            candidates_up_to(config, spot, named_options(summaries), summaries, now, summaries.len() as int),
            found,
            rough_rate::<N>(),
        ),
        0 <= i < found.len(),
    ensures
        exists|call: int, put: int, strike_text: Seq<char>|
            {
                &&& #[trigger] is_last_listed(
                    summaries,
                    call,
                    spot.underlying@,
                    found[i].expiry_code,
                    strike_text,
                    OptionType::Call,
                )
                &&& #[trigger] is_last_listed(
                    summaries,
                    put,
                    spot.underlying@,
                    found[i].expiry_code,
                    strike_text,
                    OptionType::Put,
                )
                &&& found[i].call == summaries[call]
                &&& found[i].put == summaries[put]
            },
{
    let options = named_options(summaries);
    let n = summaries.len() as int;
    let u = spot.underlying@;
    let raw = candidates_up_to(config, spot, options, summaries, now, n);
    sorted_keeps_items(raw, found, rough_rate::<N>(), i);
    let k = choose|k: int| 0 <= k < raw.len() && raw[k] == found[i];
    let start = lemma_origin(config, spot, summaries, now, n, k);
    lemma_found(found[i], config, spot, summaries, now, start);
    let call = last_of_pair(options, start, OptionType::Call, u, now, n)->0;
    let put = last_of_pair(options, start, OptionType::Put, u, now, n)->0;
    let t = options[start]->0.strike_text;
    let e = options[start]->0.expiry_code;
    lemma_last_is_last(options, start, OptionType::Call, u, now, n);
    lemma_last_is_last(options, start, OptionType::Put, u, now, n);
    lemma_reads(summaries, u, now, start, call, OptionType::Call);
    lemma_reads(summaries, u, now, start, put, OptionType::Put);
    assert forall|m: int| call < m < n implies !reads(#[trigger] summaries[m], u, e, t, OptionType::Call) by {
        lemma_reads(summaries, u, now, start, m, OptionType::Call);
    }
    assert forall|m: int| put < m < n implies !reads(#[trigger] summaries[m], u, e, t, OptionType::Put) by {
        lemma_reads(summaries, u, now, start, m, OptionType::Put);
    }
    assert(is_last_listed(summaries, call, u, found[i].expiry_code, t, OptionType::Call));
    assert(is_last_listed(summaries, put, u, found[i].expiry_code, t, OptionType::Put));
}

/// What a candidate of a pair is made of.
proof fn lemma_found<N: Scalar>(
    c: CandidateView<N>,
    config: Config<N>,
    spot: SpotBook<N>,
    summaries: Seq<OptionSummary<N>>,
    now: UtcTime,
    start: int,
)
    requires
        0 <= start < summaries.len(),
        is_found_at(c, config, spot, summaries, now, start),
    ensures
        ({
            let options = named_options(summaries);
            let n = summaries.len() as int;
            let call = last_of_pair(options, start, OptionType::Call, spot.underlying@, now, n);
            let put = last_of_pair(options, start, OptionType::Put, spot.underlying@, now, n);
            &&& call is Some
            &&& put is Some
            &&& c.call == summaries[call->0]
            &&& c.put == summaries[put->0]
            &&& c.expiry_code == options[start]->0.expiry_code
            &&& is_from_pair(c, config, spot, options, summaries, now, start, call->0, put->0)
        }),
{
    let options = named_options(summaries);
    let n = summaries.len() as int;
    let u = spot.underlying@;
    lemma_last_is_last(options, start, OptionType::Call, u, now, n);
    lemma_last_is_last(options, start, OptionType::Put, u, now, n);
    let found = candidates_at(config, spot, options, summaries, now, start);
    let j = choose|j: int| 0 <= j < found.len() && found[j] == c;
    let call = last_of_pair(options, start, OptionType::Call, u, now, n)->0;
    let put = last_of_pair(options, start, OptionType::Put, u, now, n)->0;
    let s = options[start]->0;
    let a = candidate_of(config, spot, s, summaries[call], summaries[put], Strategy::Conversion, now);
    let b = candidate_of(config, spot, s, summaries[call], summaries[put], Strategy::Reversal, now);
    if j < a.len() {
        assert((a + b)[j] == a[j]);
    } else {
        assert((a + b)[j] == b[j - a.len()]);
    }
}

/// A call and a put of the underlying with one expiry and one strike, each the
/// last that reads so, not expired, at a strike above zero, give a candidate of
/// each strategy whose return at their listed prices reaches the threshold; and
/// the candidate has that return.
pub proof fn qualifying_options_are_a_candidate<N: Scalar>(
    config: Config<N>,
    spot: SpotBook<N>,
    summaries: Seq<OptionSummary<N>>,
    now: UtcTime,
    found: Seq<CandidateView<N>>,
    strategy: Strategy,
    expiry_code: Seq<char>,
    strike_text: Seq<char>,
    call: int,
    put: int,
)
    requires
        is_sorted(
            candidates_up_to(config, spot, named_options(summaries), summaries, now, summaries.len() as int),
            found,
            rough_rate::<N>(),
        ),
        is_last_listed(summaries, call, spot.underlying@, expiry_code, strike_text, OptionType::Call),
        is_last_listed(summaries, put, spot.underlying@, expiry_code, strike_text, OptionType::Put),
        ({
            let x = instrument_spec::<N>(summaries[call].instrument_name@)->0;
            &&& now.secs * 1_000_000_000 + now.nanos < x.expiry_utc.secs * 1_000_000_000
            &&& !x.strike.at_most_spec(N::of_int_spec(0))
            &&& rough_spec(
                x.expiry_utc,
                x.strike,
                summaries[call],
                summaries[put],
                spot,
                config.spot_fee_rate,
                strategy,
                now,
            ) matches Some(rate) && config.min_annualized.at_most_spec(rate)
        }),
    ensures
        exists|i: int|
            {
                let x = instrument_spec::<N>(summaries[call].instrument_name@)->0;
                &&& 0 <= i < found.len()
                &&& (#[trigger] found[i]).call == summaries[call]
                &&& found[i].put == summaries[put]
                &&& found[i].strategy == strategy
                &&& found[i].expiry_code == expiry_code
                &&& Some(found[i].rough_annualized) == rough_spec(
                    x.expiry_utc,
                    x.strike,
                    summaries[call],
                    summaries[put],
                    spot,
                    config.spot_fee_rate,
                    strategy,
                    now,
                )
            },
{
    let options = named_options(summaries);
    let n = summaries.len() as int;
    let u = spot.underlying@;
    assert(options[call] == instrument_spec::<N>(summaries[call].instrument_name@));
    name_spells_the_option::<N>(summaries[call].instrument_name@);
    assert(usable(options[call], u, now));
    assert(pairs_with(options, call, call, u, now));
    let start = lemma_first_of_pair(options, call, u, now, call);
    let s = options[start]->0;
    assert(options[start] == instrument_spec::<N>(summaries[start].instrument_name@));
    name_fixes_expiry_and_strike::<N>(summaries[call].instrument_name@, summaries[start].instrument_name@);
    lemma_last_is_last(options, start, OptionType::Call, u, now, n);
    lemma_last_is_last(options, start, OptionType::Put, u, now, n);
    lemma_reads(summaries, u, now, start, call, OptionType::Call);
    lemma_reads(summaries, u, now, start, put, OptionType::Put);
    let c = last_of_pair(options, start, OptionType::Call, u, now, n);
    let p = last_of_pair(options, start, OptionType::Put, u, now, n);
    if let Some(k) = c {
        lemma_reads(summaries, u, now, start, k, OptionType::Call);
        assert(reads(summaries[k], u, expiry_code, strike_text, OptionType::Call));
    }
    if let Some(k) = p {
        lemma_reads(summaries, u, now, start, k, OptionType::Put);
        assert(reads(summaries[k], u, expiry_code, strike_text, OptionType::Put));
    }
    assert(c == Some(call));
    assert(p == Some(put));
    let a = candidate_of(config, spot, s, summaries[call], summaries[put], Strategy::Conversion, now);
    let b = candidate_of(config, spot, s, summaries[call], summaries[put], Strategy::Reversal, now);
    let here = candidates_at(config, spot, options, summaries, now, start);
    assert(here == a + b);
    let j: int = match strategy {
        Strategy::Conversion => 0,
        Strategy::Reversal => a.len() as int,
    };
    match strategy {
        Strategy::Conversion => {
            assert((a + b)[j] == a[0]);
        },
        Strategy::Reversal => {
            assert((a + b)[j] == b[0]);
        },
    }
    lemma_kept_in_list(config, spot, summaries, now, n, start, j);
    let raw = candidates_up_to(config, spot, options, summaries, now, n);
    let k = choose|k: int| 0 <= k < raw.len() && raw[k] == here[j];
    sorted_loses_no_item(raw, found, rough_rate::<N>(), k);
    let i = choose|i: int| 0 <= i < found.len() && found[i] == raw[k];
    assert(found[i].call == summaries[call]);
}

proof fn lemma_first_of_pair<N: Scalar>(
    options: Seq<Option<InstrumentView<N>>>,
    with: int,
    underlying: Seq<char>,
    now: UtcTime,
    i: int,
) -> (start: int)
    requires
        0 <= i <= with,
        usable(options[with], underlying, now),
        pairs_with(options, i, with, underlying, now),
    ensures
        0 <= start <= i,
        pairs_with(options, start, with, underlying, now),
        starts_pair(options, start, underlying, now),
    decreases i,
{
    if forall|j: int| 0 <= j < i ==> !#[trigger] pairs_with(options, j, i, underlying, now) {
        i
    } else {
        let j = choose|j: int| 0 <= j < i && #[trigger] pairs_with(options, j, i, underlying, now);
        assert(pairs_with(options, j, with, underlying, now));
        lemma_first_of_pair(options, with, underlying, now, j)
    }
}

proof fn lemma_kept_in_list<N: Scalar>(
    config: Config<N>,
    spot: SpotBook<N>,
    summaries: Seq<OptionSummary<N>>,
    now: UtcTime,
    n: int,
    start: int,
    j: int,
)
    requires
        0 <= start < n,
        0 <= j < candidates_at(config, spot, named_options(summaries), summaries, now, start).len(),
    ensures
        candidates_up_to(config, spot, named_options(summaries), summaries, now, n).contains(
            candidates_at(config, spot, named_options(summaries), summaries, now, start)[j],
        ),
    decreases n,
{
    let options = named_options(summaries);
    let before = candidates_up_to(config, spot, options, summaries, now, n - 1);
    let more = candidates_at(config, spot, options, summaries, now, n - 1);
    if start < n - 1 {
        lemma_kept_in_list(config, spot, summaries, now, n - 1, start, j);
        let c = candidates_at(config, spot, options, summaries, now, start)[j];
        let k = choose|k: int| 0 <= k < before.len() && before[k] == c;
        assert((before + more)[k] == c);
    } else {
        assert((before + more)[before.len() + j] == more[j]);
    }
}

/// No pair gives two candidates of one strategy: two candidates differ in their
/// strategy, their expiry or the text of their strike.
pub proof fn pairs_give_one_candidate_each<N: Scalar>(
    config: Config<N>,
    spot: SpotBook<N>,
    summaries: Seq<OptionSummary<N>>,
    now: UtcTime,
    n: int,
    i: int,
    k: int,
)
    requires
        n <= summaries.len(),
        0 <= i < k < candidates_up_to(config, spot, named_options(summaries), summaries, now, n).len(),
    ensures
        ({
            let all = candidates_up_to(config, spot, named_options(summaries), summaries, now, n);
            let a = instrument_spec::<N>(all[i].call.instrument_name@)->0;
            let b = instrument_spec::<N>(all[k].call.instrument_name@)->0;
            all[i].strategy != all[k].strategy || a.expiry_code != b.expiry_code || a.strike_text != b.strike_text
        }),
    decreases n,
{
    let options = named_options(summaries);
    let u = spot.underlying@;
    let len = summaries.len() as int;
    let all = candidates_up_to(config, spot, options, summaries, now, n);
    let before = candidates_up_to(config, spot, options, summaries, now, n - 1);
    let more = candidates_at(config, spot, options, summaries, now, n - 1);
    assert(all == before + more);
    if k < before.len() {
        assert(all[i] == before[i] && all[k] == before[k]);
        pairs_give_one_candidate_each(config, spot, summaries, now, n - 1, i, k);
    } else if i < before.len() {
        assert(all[i] == before[i] && all[k] == more[k - before.len()]);
        assert(more.contains(more[k - before.len()]));
        let start = lemma_origin(config, spot, summaries, now, n - 1, i);
        lemma_found(all[i], config, spot, summaries, now, start);
        lemma_found(all[k], config, spot, summaries, now, n - 1);
        lemma_pair_name(all[i], config, spot, summaries, now, start);
        lemma_pair_name(all[k], config, spot, summaries, now, n - 1);
        assert(!pairs_with(options, start, n - 1, u, now));
    } else {
        let x = i - before.len();
        let y = k - before.len();
        assert(all[i] == more[x] && all[k] == more[y]);
        let call = last_of_pair(options, n - 1, OptionType::Call, u, now, len)->0;
        let put = last_of_pair(options, n - 1, OptionType::Put, u, now, len)->0;
        let s = options[n - 1]->0;
        let a = candidate_of(config, spot, s, summaries[call], summaries[put], Strategy::Conversion, now);
        let b = candidate_of(config, spot, s, summaries[call], summaries[put], Strategy::Reversal, now);
        assert(more == a + b);
        assert((a + b)[x] == a[0]);
        assert((a + b)[y] == b[0]);
    }
}

proof fn lemma_pair_name<N: Scalar>(
    c: CandidateView<N>,
    config: Config<N>,
    spot: SpotBook<N>,
    summaries: Seq<OptionSummary<N>>,
    now: UtcTime,
    start: int,
)
    requires
        0 <= start < summaries.len(),
        is_found_at(c, config, spot, summaries, now, start),
    ensures
        ({
            let a = instrument_spec::<N>(c.call.instrument_name@)->0;
            let s = named_options(summaries)[start]->0;
            a.underlying == s.underlying && a.expiry_code == s.expiry_code && a.strike_text == s.strike_text
        }),
{
    let options = named_options(summaries);
    lemma_found(c, config, spot, summaries, now, start);
    let call = last_of_pair(options, start, OptionType::Call, spot.underlying@, now, summaries.len() as int)->0;
    lemma_last_is_last(options, start, OptionType::Call, spot.underlying@, now, summaries.len() as int);
    assert(options[call] == instrument_spec::<N>(summaries[call].instrument_name@));
}

// ---------------------------------------------------------------------------
// Costs and returns
// ---------------------------------------------------------------------------
/// Spot prices from one to ten million, quantities below a billion.
pub open spec fn plain_spot(spot: SpotBook<Fixed>) -> bool {
    &&& SCALE <= spot.bid_price.units < 10_000_000_000_000_000
    &&& SCALE <= spot.ask_price.units < 10_000_000_000_000_000
    &&& is_amount(spot.bid_qty)
    &&& is_amount(spot.ask_qty)
}

/// A strike below ten million.
pub open spec fn plain_strike(strike: Fixed) -> bool {
    0 <= strike.units < 10_000_000_000_000_000
}

/// An option price in the underlying, below ten.
pub open spec fn plain_premium(price: Fixed) -> bool {
    0 <= price.units < 10_000_000_000
}

/// A rate of at most one.
pub open spec fn plain_rate(rate: Fixed) -> bool {
    0 <= rate.units <= SCALE
}

/// Half of what the two sides of the spot market come to.
pub open spec fn middle(spot: SpotBook<Fixed>) -> Fixed {
    Fixed { units: ((spot.bid_price.units + spot.ask_price.units) / 2) as i128 }
}

/// The fee of an option leg in the underlying: three ten-thousandths, or an
/// eighth of the price where that is less.
pub open spec fn fee_in_underlying(price: Fixed) -> Fixed {
    Fixed {
        units: if price.units as int / 8 < 300_000 {
            (price.units as int / 8) as i128
        } else {
            300_000
        },
    }
}

/// One unit of a strategy is priced as it should be. Premiums and the fees of
/// options are turned into dollars in the middle of the spot market. A conversion
/// buys the spot at its ask, pays the put and takes in the call and the strike; a
/// reversal sells the spot at its bid, takes in the put, and pays the call and
/// the strike. What is left is the gross profit less three fees.
pub open spec fn is_priced(
    unit: Priced<Fixed>,
    strategy: Strategy,
    strike: Fixed,
    spot: SpotBook<Fixed>,
    fee_rate: Fixed,
    call_price: Fixed,
    put_price: Fixed,
) -> bool {
    &&& is_share(unit.call_premium, call_price, middle(spot))
    &&& is_share(unit.put_premium, put_price, middle(spot))
    &&& is_share(unit.spot_fee, fee_rate, unit.capital)
    &&& is_share(unit.call_fee, fee_in_underlying(call_price), middle(spot))
    &&& is_share(unit.put_fee, fee_in_underlying(put_price), middle(spot))
    &&& unit.fees.units == unit.spot_fee.units + unit.call_fee.units + unit.put_fee.units
    &&& unit.net.units == unit.gross.units - unit.fees.units
    &&& match strategy {
        Strategy::Conversion => {
            &&& unit.capital == spot.ask_price
            &&& unit.gross.units == strike.units + unit.call_premium.units - unit.put_premium.units
                - spot.ask_price.units
        },
        Strategy::Reversal => {
            &&& unit.capital == spot.bid_price
            &&& unit.gross.units == spot.bid_price.units + unit.put_premium.units - unit.call_premium.units
                - strike.units
        },
    }
}

/// The fee of an option leg.
pub proof fn option_fee_is_the_lesser(price: Fixed, mid: Fixed)
    requires
        plain_premium(price),
        0 <= mid.units < 10_000_000_000_000_000,
    ensures
        is_share(option_fee_usd(price, mid), fee_in_underlying(price), mid),
        0 <= option_fee_usd(price, mid).units <= 3_000_000_000_000,
{
    let flat = crate::models::option_fee_spec::<Fixed>();
    let cap = crate::models::premium_cap_spec::<Fixed>();
    assert(flat.units == 300_000);
    assert(cap.units == 125_000_000);
    let share = cap.times_spec(price);
    let u = price.units as int;
    let c = cap.units as int;
    assert(c * u == 125_000_000 * u) by (nonlinear_arith)
        requires
            c == 125_000_000,
    ;
    assert(share.units == (125_000_000 * u) / 1_000_000_000);
    assert(share.units == u / 8);
    let f = flat.least_spec(share);
    assert(f == fee_in_underlying(price));
    products_are_cut_off(f, mid);
    let x = f.units as int;
    let m = mid.units as int;
    assert(0 <= x * m <= 300_000 * m) by (nonlinear_arith)
        requires
            0 <= x <= 300_000,
            0 <= m,
    ;
}

/// A strategy is priced as it should be, and its figures are of a moderate size.
pub proof fn units_are_priced(
    strategy: Strategy,
    strike: Fixed,
    spot: SpotBook<Fixed>,
    fee_rate: Fixed,
    call_price: Fixed,
    put_price: Fixed,
)
    requires
        plain_strike(strike),
        plain_spot(spot),
        plain_rate(fee_rate),
        plain_premium(call_price),
        plain_premium(put_price),
    ensures
        ({
            let unit = priced_spec(strategy, strike, spot, fee_rate, call_price, put_price);
            &&& is_priced(unit, strategy, strike, spot, fee_rate, call_price, put_price)
            &&& -200_000_000_000_000_000 < unit.net.units < 200_000_000_000_000_000
            &&& -200_000_000_000_000_000 < unit.gross.units < 200_000_000_000_000_000
            &&& 0 <= unit.fees.units < 200_000_000_000_000_000
            &&& 0 <= unit.call_premium.units < 200_000_000_000_000_000
            &&& 0 <= unit.put_premium.units < 200_000_000_000_000_000
            &&& 0 <= unit.spot_fee.units < 200_000_000_000_000_000
            &&& 0 <= unit.call_fee.units < 200_000_000_000_000_000
            &&& 0 <= unit.put_fee.units < 200_000_000_000_000_000
        }),
{
    let unit = priced_spec(strategy, strike, spot, fee_rate, call_price, put_price);
    let sum = spot.bid_price.plus_spec(spot.ask_price);
    let two = Fixed::of_int_spec(2);
    assert(two.units == 2_000_000_000);
    let mid = spot_mid(spot);
    let total = sum.units as int;
    assert((total * 1_000_000_000) / 2_000_000_000 == total / 2);
    assert(mid == middle(spot));
    products_are_cut_off(call_price, mid);
    products_are_cut_off(put_price, mid);
    products_are_cut_off(unit.capital, fee_rate);
    lemma_commutes(unit.capital, fee_rate);
    option_fee_is_the_lesser(call_price, mid);
    option_fee_is_the_lesser(put_price, mid);
    let c = call_price.units as int;
    let p = put_price.units as int;
    let m = mid.units as int;
    let k = unit.capital.units as int;
    let r = fee_rate.units as int;
    assert(0 <= c * m <= 10_000_000_000 * m) by (nonlinear_arith)
        requires
            0 <= c <= 10_000_000_000,
            0 <= m,
    ;
    assert(0 <= p * m <= 10_000_000_000 * m) by (nonlinear_arith)
        requires
            0 <= p <= 10_000_000_000,
            0 <= m,
    ;
    assert(0 <= k * r <= k * 1_000_000_000) by (nonlinear_arith)
        requires
            0 <= r <= 1_000_000_000,
            0 <= k,
    ;
}

proof fn lemma_commutes(a: Fixed, b: Fixed)
    ensures
        a.units * b.units == b.units * a.units,
{
    let x = a.units as int;
    let y = b.units as int;
    assert(x * y == y * x) by (nonlinear_arith);
}

/// A return over a year of 365 days: the rate that a profit has on the capital
/// is to it as the seconds that it takes are to those of a year.
pub open spec fn is_annual_return(annual: Fixed, net: Fixed, capital: Fixed, seconds: int) -> bool {
    exists|rate: Fixed| #[trigger]
        is_rate(rate, net, capital) && magnitude(annual.units * seconds - rate.units * (365 * 86_400)) < seconds
}

/// Returns are in proportion to the profit and to the time.
pub proof fn returns_are_in_proportion(net: Fixed, capital: Fixed, seconds: int)
    requires
        -200_000_000_000_000_000 < net.units < 200_000_000_000_000_000,
        SCALE <= capital.units < 10_000_000_000_000_000,
        0 < seconds < 100_000_000_000_000_000,
    ensures
        is_annual_return(annual_return(net, capital, seconds), net, capital, seconds),
        is_rate(net.over_spec(capital), net, capital),
{
    quotients_are_cut_off(net, capital);
    let rate = net.over_spec(capital);
    let q = rate.units as int;
    let k = capital.units as int;
    assert(-200_000_000_000_000_001 < q < 200_000_000_000_000_001) by (nonlinear_arith)
        requires
            -200_000_000_000_000_000 * 1_000_000_000 < q * k < 200_000_000_000_000_000 * 1_000_000_000,
            k >= 1_000_000_000,
    ;
    let year = Fixed::of_int_spec(31_536_000);
    let y = year.units as int;
    assert(y == 31_536_000 * 1_000_000_000);
    products_are_cut_off(rate, year);
    let yearly = rate.times_spec(year);
    assert(q * y == (q * 31_536_000) * 1_000_000_000) by (nonlinear_arith)
        requires
            y == 31_536_000 * 1_000_000_000,
    ;
    assert(yearly.units == q * 31_536_000);
    let span = Fixed::of_int_spec(seconds as i128);
    assert(span.units == seconds * 1_000_000_000);
    quotients_are_cut_off(yearly, span);
    let annual = annual_return(net, capital, seconds);
    assert(annual == yearly.over_spec(span));
    let a = annual.units as int;
    assert(a * (seconds * 1_000_000_000) == (a * seconds) * 1_000_000_000) by (nonlinear_arith);
    assert(is_rate(rate, net, capital));
}

/// The whole seconds from one point in time to a later one.
pub open spec fn whole_seconds(from: UtcTime, to: UtcTime) -> int {
    ((to.secs - from.secs) * 1_000_000_000 + (to.nanos - from.nanos)) / 1_000_000_000
}

/// A point in time that is not absurd.
pub open spec fn plain_time(t: UtcTime) -> bool {
    -10_000_000_000_000 < t.secs < 10_000_000_000_000 && t.nanos < 1_000_000_000
}

/// The price of the call that a strategy trades at: a conversion sells it, a
/// reversal buys it.
pub open spec fn call_side<T>(strategy: Strategy, bid: T, ask: T) -> T {
    if strategy == Strategy::Conversion {
        bid
    } else {
        ask
    }
}

/// The price of the put that a strategy trades at: a conversion buys it, a
/// reversal sells it. The same holds of the spot.
pub open spec fn put_side<T>(strategy: Strategy, bid: T, ask: T) -> T {
    if strategy == Strategy::Conversion {
        ask
    } else {
        bid
    }
}

/// A return is that of one unit of a strategy, priced as it should be.
pub open spec fn is_return_of(
    r: Fixed,
    strategy: Strategy,
    strike: Fixed,
    spot: SpotBook<Fixed>,
    fee_rate: Fixed,
    call_price: Fixed,
    put_price: Fixed,
    seconds: int,
) -> bool {
    exists|unit: Priced<Fixed>|
        {
            &&& #[trigger] is_priced(unit, strategy, strike, spot, fee_rate, call_price, put_price)
            &&& is_annual_return(r, unit.net, unit.capital, seconds)
        }
}

/// The rough return of a strategy is there exactly where its two option prices
/// are listed, on the sides that it trades, and at least a second is left. It is
/// the annual return of one unit, priced as it should be.
pub proof fn rough_return_is_that_of_a_unit(
    expiry_utc: UtcTime,
    strike: Fixed,
    call: OptionSummary<Fixed>,
    put: OptionSummary<Fixed>,
    spot: SpotBook<Fixed>,
    fee_rate: Fixed,
    strategy: Strategy,
    now: UtcTime,
)
    requires
        plain_strike(strike),
        plain_spot(spot),
        plain_rate(fee_rate),
        plain_time(now) && plain_time(expiry_utc),
        call.bid_price matches Some(x) ==> plain_premium(x),
        call.ask_price matches Some(x) ==> plain_premium(x),
        put.bid_price matches Some(x) ==> plain_premium(x),
        put.ask_price matches Some(x) ==> plain_premium(x),
    ensures
        ({
            let rough = rough_spec(expiry_utc, strike, call, put, spot, fee_rate, strategy, now);
            let seconds = whole_seconds(now, expiry_utc);
            let c = call_side(strategy, call.bid_price, call.ask_price);
            let p = put_side(strategy, put.bid_price, put.ask_price);
            &&& rough is Some <==> c is Some && p is Some && seconds >= 1
            &&& rough matches Some(r) ==> is_return_of(r, strategy, strike, spot, fee_rate, c->0, p->0, seconds)
        }),
{
    let c = call_side(strategy, call.bid_price, call.ask_price);
    let p = put_side(strategy, put.bid_price, put.ask_price);
    lemma_whole_seconds(now, expiry_utc);
    if c is Some && p is Some {
        units_are_priced(strategy, strike, spot, fee_rate, c->0, p->0);
        let unit = priced_spec(strategy, strike, spot, fee_rate, c->0, p->0);
        let seconds = seconds_spec(now, expiry_utc);
        if seconds > 0 {
            returns_are_in_proportion(unit.net, unit.capital, seconds);
        }
    }
}

proof fn lemma_whole_seconds(now: UtcTime, expiry_utc: UtcTime)
    requires
        plain_time(now),
        plain_time(expiry_utc),
    ensures
        ({
            let seconds = seconds_spec(now, expiry_utc);
            &&& -100_000_000_000_000 < seconds < 100_000_000_000_000
            &&& seconds >= 1 <==> whole_seconds(now, expiry_utc) >= 1
            &&& seconds >= 1 ==> seconds == whole_seconds(now, expiry_utc)
            &&& Fixed::of_int_spec(seconds as i128).at_most_spec(zero_spec::<Fixed>()) <==> seconds <= 0
        }),
{
}

// ---------------------------------------------------------------------------
// Opportunities
// ---------------------------------------------------------------------------
/// The totals of an opportunity hang together: each is a figure of one unit times
/// the quantity. What is bound is the price at which the spot is traded, and the
/// rate is what one unit leaves on it. The quantity is on offer on each side that
/// the strategy trades and is that of one; something of it is there.
pub proof fn totals_are_those_of_units_times_quantity<N: Scalar>(
    config: Config<N>,
    candidate: CandidateView<N>,
    spot: SpotBook<N>,
    call_book: OptionTopOfBook<N>,
    put_book: OptionTopOfBook<N>,
    now: UtcTime,
    expiry_text: Seq<char>,
)
    ensures
        opportunity_spec(config, candidate, spot, call_book, put_book, now, expiry_text) matches Some(o) ==> {
            let strategy = candidate.strategy;
            let capital = put_side(strategy, spot.bid_price, spot.ask_price);
            let of_spot = put_side(strategy, spot.bid_qty, spot.ask_qty);
            let of_call = call_side(strategy, call_book.bid_amount, call_book.ask_amount);
            let of_put = put_side(strategy, put_book.bid_amount, put_book.ask_amount);
            &&& o.net_profit_usd == o.net_profit_per_unit_usd.times_spec(o.quantity)
            &&& o.notional_usd == capital.times_spec(o.quantity)
            &&& o.profit_rate == o.net_profit_per_unit_usd.over_spec(capital)
            &&& !capital.at_most_spec(N::of_int_spec(0))
            &&& !o.quantity.at_most_spec(N::of_int_spec(0))
            &&& of_spot.at_most_spec(of_spot) && of_call.at_most_spec(of_call) && of_put.at_most_spec(of_put)
                ==> is_least_of(o.quantity, of_spot, of_call, of_put)
            &&& config.min_annualized.at_most_spec(o.annualized_profit_rate)
            &&& o.underlying == candidate.underlying && o.strategy == strategy && o.strike == candidate.strike
            &&& o.expiry == candidate.expiry_code && o.expiry_utc == expiry_text
            &&& o.spot_bid == spot.bid_price && o.spot_ask == spot.ask_price
        },
{
    let strategy = candidate.strategy;
    let of_spot = put_side(strategy, spot.bid_qty, spot.ask_qty);
    let of_call = call_side(strategy, call_book.bid_amount, call_book.ask_amount);
    let of_put = put_side(strategy, put_book.bid_amount, put_book.ask_amount);
    if of_spot.at_most_spec(of_spot) && of_call.at_most_spec(of_call) && of_put.at_most_spec(of_put) {
        lemma_least_of_three(of_spot, of_call, of_put);
    }
}

/// An order of an option: at its price, on its side, of what is on offer there.
pub open spec fn is_order<N: Scalar>(
    leg: LegView<N>,
    instrument: Seq<char>,
    price: N,
    available: N,
    quantity: N,
    unit: Seq<char>,
) -> bool {
    &&& leg.instrument == instrument
    &&& leg.price == price
    &&& leg.price_unit == unit
    &&& leg.available_quantity == available
    &&& leg.quantity == quantity
}

/// The orders of an opportunity trade the spot, the put and the call, each at
/// the side that the strategy meets. Who buys meets an ask, and who sells a bid:
/// a conversion buys the spot and the put and sells the call, a reversal does the
/// opposite.
pub proof fn orders_meet_their_sides<N: Scalar>(
    config: Config<N>,
    candidate: CandidateView<N>,
    spot: SpotBook<N>,
    call_book: OptionTopOfBook<N>,
    put_book: OptionTopOfBook<N>,
    now: UtcTime,
    expiry_text: Seq<char>,
)
    ensures
        opportunity_spec(config, candidate, spot, call_book, put_book, now, expiry_text) matches Some(o) ==> {
            let strategy = candidate.strategy;
            let capital = put_side(strategy, spot.bid_price, spot.ask_price);
            let c = call_side(strategy, call_book.bid_price, call_book.ask_price);
            let p = put_side(strategy, put_book.bid_price, put_book.ask_price);
            let of_spot = put_side(strategy, spot.bid_qty, spot.ask_qty);
            let of_call = call_side(strategy, call_book.bid_amount, call_book.ask_amount);
            let of_put = put_side(strategy, put_book.bid_amount, put_book.ask_amount);
            &&& o.legs.len() == 3
            &&& c is Some && p is Some
            &&& is_order(o.legs[0], spot.symbol@, capital, of_spot, o.quantity, "USDT"@)
            &&& is_order(o.legs[1], put_book.instrument_name@, p->0, of_put, o.quantity, candidate.underlying)
            &&& is_order(o.legs[2], call_book.instrument_name@, c->0, of_call, o.quantity, candidate.underlying)
            &&& o.legs[0].notional_usd == o.notional_usd
            &&& strategy == Strategy::Conversion ==> o.legs[0].action == "BUY"@ && o.legs[1].action == "BUY PUT"@
                && o.legs[2].action == "SELL CALL"@
            &&& strategy == Strategy::Reversal ==> o.legs[0].action == "SELL / SHORT"@ && o.legs[1].action
                == "SELL PUT"@ && o.legs[2].action == "BUY CALL"@
        },
{
}

/// What is shown of the two books: their names, prices and amounts; and where a
/// book does not say how much is open or traded, what the list said.
pub proof fn books_are_shown_as_they_are<N: Scalar>(
    config: Config<N>,
    candidate: CandidateView<N>,
    spot: SpotBook<N>,
    call_book: OptionTopOfBook<N>,
    put_book: OptionTopOfBook<N>,
    now: UtcTime,
    expiry_text: Seq<char>,
)
    ensures
        opportunity_spec(config, candidate, spot, call_book, put_book, now, expiry_text) matches Some(o) ==> {
            &&& o.call.instrument == call_book.instrument_name@ && o.put.instrument == put_book.instrument_name@
            &&& o.call.bid_price == call_book.bid_price && o.call.ask_price == call_book.ask_price
            &&& o.put.bid_price == put_book.bid_price && o.put.ask_price == put_book.ask_price
            &&& o.call.bid_amount == call_book.bid_amount && o.call.ask_amount == call_book.ask_amount
            &&& o.put.bid_amount == put_book.bid_amount && o.put.ask_amount == put_book.ask_amount
            &&& call_book.open_interest is Some ==> o.call.open_interest == call_book.open_interest
            &&& call_book.open_interest is None ==> o.call.open_interest == candidate.call.open_interest
            &&& put_book.open_interest is Some ==> o.put.open_interest == put_book.open_interest
            &&& put_book.open_interest is None ==> o.put.open_interest == candidate.put.open_interest
            &&& call_book.volume is Some ==> o.call.volume == call_book.volume
            &&& call_book.volume is None ==> o.call.volume == candidate.call.volume
            &&& put_book.volume is Some ==> o.put.volume == put_book.volume
            &&& put_book.volume is None ==> o.put.volume == candidate.put.volume
        },
{
}

/// The figures of an opportunity are those of one unit that is priced as it
/// should be.
pub open spec fn has_figures_of(
    o: OpportunityView<Fixed>,
    unit: Priced<Fixed>,
    seconds: int,
) -> bool {
    &&& o.net_profit_per_unit_usd == unit.net
    &&& is_share(o.gross_profit_usd, unit.gross, o.quantity)
    &&& is_share(o.fees_usd, unit.fees, o.quantity)
    &&& is_share(o.net_profit_usd, unit.net, o.quantity)
    &&& is_share(o.notional_usd, unit.capital, o.quantity)
    &&& is_rate(o.profit_rate, unit.net, unit.capital)
    &&& is_annual_return(o.annualized_profit_rate, unit.net, unit.capital, seconds)
    &&& magnitude(o.days_to_expiry.units * 86_400 - seconds * SCALE) < 86_400
    &&& is_share(o.legs[0].notional_usd, unit.capital, o.quantity)
    &&& is_share(o.legs[1].notional_usd, unit.put_premium, o.quantity)
    &&& is_share(o.legs[2].notional_usd, unit.call_premium, o.quantity)
    &&& is_share(o.legs[0].fee_usd, unit.spot_fee, o.quantity)
    &&& is_share(o.legs[1].fee_usd, unit.put_fee, o.quantity)
    &&& is_share(o.legs[2].fee_usd, unit.call_fee, o.quantity)
}

/// Books of options with prices below ten and amounts below a billion.
pub open spec fn plain_option_book(book: OptionTopOfBook<Fixed>) -> bool {
    &&& book.bid_price matches Some(x) ==> plain_premium(x)
    &&& book.ask_price matches Some(x) ==> plain_premium(x)
    &&& is_amount(book.bid_amount)
    &&& is_amount(book.ask_amount)
}

/// An opportunity has the figures of one unit that is priced as it should be: the
/// gross profit, three fees, and what is left of the one after the others.
pub proof fn opportunity_has_the_figures_of_a_unit(
    config: Config<Fixed>,
    candidate: CandidateView<Fixed>,
    spot: SpotBook<Fixed>,
    call_book: OptionTopOfBook<Fixed>,
    put_book: OptionTopOfBook<Fixed>,
    now: UtcTime,
    expiry_text: Seq<char>,
)
    requires
        plain_strike(candidate.strike),
        plain_spot(spot),
        plain_rate(config.spot_fee_rate),
        plain_option_book(call_book) && plain_option_book(put_book),
        plain_time(now) && plain_time(candidate.expiry_utc),
    ensures
        opportunity_spec(config, candidate, spot, call_book, put_book, now, expiry_text) matches Some(o) ==> {
            let c = call_side(candidate.strategy, call_book.bid_price, call_book.ask_price);
            let p = put_side(candidate.strategy, put_book.bid_price, put_book.ask_price);
            let seconds = whole_seconds(now, candidate.expiry_utc);
            &&& c is Some && p is Some && seconds >= 1
            &&& exists|unit: Priced<Fixed>|
                is_priced(
                    unit,
                    candidate.strategy,
                    candidate.strike,
                    spot,
                    config.spot_fee_rate,
                    c->0,
                    p->0,
                ) && #[trigger] has_figures_of(o, unit, seconds)
        },
{
    let c = call_side(candidate.strategy, call_book.bid_price, call_book.ask_price);
    let p = put_side(candidate.strategy, put_book.bid_price, put_book.ask_price);
    lemma_whole_seconds(now, candidate.expiry_utc);
    if let Some(o) = opportunity_spec(config, candidate, spot, call_book, put_book, now, expiry_text) {
        let seconds = seconds_spec(now, candidate.expiry_utc);
        units_are_priced(candidate.strategy, candidate.strike, spot, config.spot_fee_rate, c->0, p->0);
        let unit = priced_spec(candidate.strategy, candidate.strike, spot, config.spot_fee_rate, c->0, p->0);
        returns_are_in_proportion(unit.net, unit.capital, seconds);
        let of_spot = put_side(candidate.strategy, spot.bid_qty, spot.ask_qty);
        let of_call = call_side(candidate.strategy, call_book.bid_amount, call_book.ask_amount);
        let of_put = put_side(candidate.strategy, put_book.bid_amount, put_book.ask_amount);
        lemma_least_of_three(of_spot, of_call, of_put);
        let q = o.quantity;
        products_are_cut_off(unit.gross, q);
        products_are_cut_off(unit.fees, q);
        products_are_cut_off(unit.net, q);
        products_are_cut_off(unit.capital, q);
        products_are_cut_off(unit.put_premium, q);
        products_are_cut_off(unit.call_premium, q);
        products_are_cut_off(unit.spot_fee, q);
        products_are_cut_off(unit.put_fee, q);
        products_are_cut_off(unit.call_fee, q);
        let span = Fixed::of_int_spec(seconds as i128);
        let day = Fixed::of_int_spec(86_400);
        quotients_are_cut_off(span, day);
        let d = o.days_to_expiry.units as int;
        let y = day.units as int;
        assert(d * y == (d * 86_400) * 1_000_000_000) by (nonlinear_arith)
            requires
                y == 86_400 * 1_000_000_000,
        ;
        assert(has_figures_of(o, unit, seconds));
    }
}

/// The threshold only decides whether there is an opportunity, never what it
/// looks like.
pub proof fn threshold_only_decides_whether<N: Scalar>(
    config: Config<N>,
    other: Config<N>,
    candidate: CandidateView<N>,
    spot: SpotBook<N>,
    call_book: OptionTopOfBook<N>,
    put_book: OptionTopOfBook<N>,
    now: UtcTime,
    expiry_text: Seq<char>,
)
    requires
        config.spot_fee_rate == other.spot_fee_rate,
        opportunity_spec(config, candidate, spot, call_book, put_book, now, expiry_text) is Some,
    ensures
        ({
            let o = opportunity_spec(config, candidate, spot, call_book, put_book, now, expiry_text)->0;
            opportunity_spec(other, candidate, spot, call_book, put_book, now, expiry_text) == (
            if other.min_annualized.at_most_spec(o.annualized_profit_rate) {
                Some(o)
            } else {
                None
            })
        }),
{
}

/// Where the prices that a strategy trades are quoted, something is on offer on
/// each of its sides and at least a second is left, there is an opportunity for
/// a threshold that is low enough; where one of these fails there is none for
/// any threshold.
pub proof fn quoted_sides_give_an_opportunity(
    config: Config<Fixed>,
    candidate: CandidateView<Fixed>,
    spot: SpotBook<Fixed>,
    call_book: OptionTopOfBook<Fixed>,
    put_book: OptionTopOfBook<Fixed>,
    now: UtcTime,
    expiry_text: Seq<char>,
)
    requires
        plain_strike(candidate.strike),
        plain_spot(spot),
        plain_rate(config.spot_fee_rate),
        plain_option_book(call_book) && plain_option_book(put_book),
        plain_time(now) && plain_time(candidate.expiry_utc),
    ensures
        ({
            let strategy = candidate.strategy;
            let found = opportunity_spec(config, candidate, spot, call_book, put_book, now, expiry_text);
            let quoted = {
                &&& call_side(strategy, call_book.bid_price, call_book.ask_price) is Some
                &&& put_side(strategy, put_book.bid_price, put_book.ask_price) is Some
                &&& put_side(strategy, spot.bid_qty, spot.ask_qty).units > 0
                &&& call_side(strategy, call_book.bid_amount, call_book.ask_amount).units > 0
                &&& put_side(strategy, put_book.bid_amount, put_book.ask_amount).units > 0
                &&& whole_seconds(now, candidate.expiry_utc) >= 1
            };
            &&& found is Some ==> quoted
            &&& quoted && config.min_annualized.units == i128::MIN ==> found is Some
        }),
{
    lemma_whole_seconds(now, candidate.expiry_utc);
}

} // verus!
