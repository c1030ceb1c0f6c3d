//! Which streams of option quotes to subscribe to, as the list of options changes.
use crate::binance::ws_options::{stream_set, SubCmd};
use crate::text::{ascii_lower, is_ascii_text, lowercase, same_text, texts, to_lower};
use vstd::prelude::*;
use vstd::string::*;

verus! {

/// The stream of the option quotes of a pair: `btcusdt@optionMarkPrice`.
pub fn option_mark_price_stream(spot_symbol: &str) -> (r: String)
    ensures
        r@ == lowercase(spot_symbol@) + "@optionMarkPrice"@,
        is_ascii_text(spot_symbol@) ==> r@ == spot_symbol@.map_values(|c: char| ascii_lower(c))
            + "@optionMarkPrice"@,
{
    let mut stream: String = to_lower(spot_symbol);
    stream.append("@optionMarkPrice");
    stream
}

/// The streams that are wanted: none where nothing is listed, otherwise that of
/// the pair.
pub open spec fn wanted_spec(listed: bool, spot_symbol: Seq<char>) -> Seq<Seq<char>> {
    if listed {
        seq![lowercase(spot_symbol) + "@optionMarkPrice"@]
    } else {
        Seq::empty()
    }
}

/// The streams that are wanted.
pub fn wanted_streams(listed: bool, spot_symbol: &str) -> (r: Vec<String>)
    ensures
        texts(r@) == wanted_spec(listed, spot_symbol@),
{
    let mut streams: Vec<String> = Vec::new();
    proof {
        assert(texts(streams@) =~= Seq::<Seq<char>>::empty());
    }
    if listed {
        let stream: String = option_mark_price_stream(spot_symbol);
        streams.push(stream);
        proof {
            assert(texts(streams@) =~= seq![stream@]);
        }
    }
    streams
}

fn holds(streams: &Vec<String>, name: &str) -> (r: bool)
    ensures
        r == stream_set(streams@).contains(name@),
{
    let ghost all = texts(streams@);
    let mut i: usize = 0;
    while i < streams.len()
        invariant
            i <= streams@.len(),
            all == texts(streams@),
            forall|k: int| 0 <= k < i ==> all[k] != name@,
        decreases streams@.len() - i,
    {
        if same_text(streams[i].as_str(), name) {
            proof {
                assert(all[i as int] == name@);
            }
            return true;
        }
        i = i + 1;
    }
    false
}

/// The streams of the first that are not among the second, in their order.
pub open spec fn only_in(streams: Seq<Seq<char>>, among: Seq<Seq<char>>) -> Seq<Seq<char>> {
    streams.filter(|s: Seq<char>| !among.contains(s))
}

fn missing(streams: &Vec<String>, among: &Vec<String>) -> (r: Vec<String>)
    ensures
        texts(r@) == only_in(texts(streams@), texts(among@)),
{
    let ghost all = texts(streams@);
    let ghost others = texts(among@);
    let mut out: Vec<String> = Vec::new();
    let n: usize = streams.len();
    let mut i: usize = 0;
    proof {
        reveal(Seq::filter);
        assert(texts(out@) =~= only_in(all.take(0), others));
    }
    while i < n
        invariant
            i <= n,
            n == streams@.len(),
            all == texts(streams@),
            others == texts(among@),
            texts(out@) == only_in(all.take(i as int), others),
        decreases n - i,
    {
        let ghost before = texts(out@);
        proof {
            reveal(Seq::filter);
            assert(all.take(i + 1).drop_last() =~= all.take(i as int));
            assert(all.take(i + 1).last() == all[i as int]);
        }
        if !holds(among, streams[i].as_str()) {
            out.push(streams[i].clone());
            proof {
                assert(texts(out@) =~= before.push(all[i as int]));
            }
        }
        i = i + 1;
    }
    proof {
        assert(all.take(n as int) =~= all);
    }
    out
}

/// The change from the streams of the last round to those that are wanted now:
/// what is new is subscribed to, and what is gone is unsubscribed from, each in
/// its order. Where nothing changes there is none.
pub fn plan_change(previous: &Vec<String>, wanted: &Vec<String>) -> (r: Option<SubCmd>)
    ensures
        r is None <==> stream_set(previous@) == stream_set(wanted@),
        r matches Some(cmd) ==> {
            &&& texts(cmd.subscribe@) == only_in(texts(wanted@), texts(previous@))
            &&& texts(cmd.unsubscribe@) == only_in(texts(previous@), texts(wanted@))
        },
{
    let subscribe: Vec<String> = missing(wanted, previous);
    let unsubscribe: Vec<String> = missing(previous, wanted);
    proof {
        let p = stream_set(previous@);
        let w = stream_set(wanted@);
        lemma_only_in(texts(wanted@), texts(previous@));
        lemma_only_in(texts(previous@), texts(wanted@));
        assert(texts(subscribe@).len() == subscribe@.len());
        assert(texts(unsubscribe@).len() == unsubscribe@.len());
        if subscribe@.len() > 0 {
            assert(w.difference(p).contains(texts(subscribe@)[0]));
        }
        if unsubscribe@.len() > 0 {
            assert(p.difference(w).contains(texts(unsubscribe@)[0]));
        }
        if subscribe@.len() == 0 && unsubscribe@.len() == 0 {
            assert forall|x: Seq<char>| #[trigger] p.contains(x) <==> w.contains(x) by {
                assert(!w.difference(p).contains(x));
                assert(!p.difference(w).contains(x));
            }
            assert(p =~= w);
        }
    }
    if subscribe.len() == 0 && unsubscribe.len() == 0 {
        None
    } else {
        Some(SubCmd { subscribe, unsubscribe })
    }
}

/// What is left out of the first is the difference of the two as sets, and no
/// stream is named twice that was named once.
proof fn lemma_only_in(streams: Seq<Seq<char>>, among: Seq<Seq<char>>)
    ensures
        only_in(streams, among).to_set() == streams.to_set().difference(among.to_set()),
        streams.no_duplicates() ==> only_in(streams, among).no_duplicates(),
    decreases streams.len(),
{
    reveal(Seq::filter);
    let r = only_in(streams, among);
    if streams.len() == 0 {
        assert(r.to_set() =~= streams.to_set().difference(among.to_set()));
    } else {
        let rest = streams.drop_last();
        let last = streams.last();
        lemma_only_in(rest, among);
        let before = only_in(rest, among);
        assert(streams[streams.len() - 1] == last);
        assert forall|x: Seq<char>| #[trigger] r.to_set().contains(x) <==> streams.to_set().difference(
            among.to_set(),
        ).contains(x) by {
            assert(before.to_set().contains(x) == rest.to_set().difference(among.to_set()).contains(x));
            if streams.contains(x) {
                let k = choose|k: int| 0 <= k < streams.len() && streams[k] == x;
                if k < rest.len() {
                    assert(rest[k] == x);
                }
            }
            if rest.contains(x) {
                let k = choose|k: int| 0 <= k < rest.len() && rest[k] == x;
                assert(streams[k] == x);
            }
            if r.contains(x) {
                let k = choose|k: int| 0 <= k < r.len() && r[k] == x;
                if k < before.len() {
                    assert(before[k] == x);
                }
            }
            if before.contains(x) {
                let k = choose|k: int| 0 <= k < before.len() && before[k] == x;
                assert(r[k] == x);
            }
            if x == last && !among.contains(last) {
                assert(r[r.len() - 1] == x);
            }
        }
        assert(r.to_set() =~= streams.to_set().difference(among.to_set()));
        if streams.no_duplicates() {
            assert forall|i: int, j: int| 0 <= i < j < rest.len() implies rest[i] != rest[j] by {
                assert(streams[i] == rest[i] && streams[j] == rest[j]);
            }
            assert(rest.no_duplicates());
            assert forall|i: int, j: int| 0 <= i < j < r.len() implies r[i] != r[j] by {
                assert(before[i] == r[i]);
                if j < before.len() {
                    assert(before[j] == r[j]);
                } else {
                    assert(before.to_set().contains(r[i]));
                    assert(rest.contains(r[i]));
                    let k = choose|k: int| 0 <= k < rest.len() && rest[k] == r[i];
                    assert(streams[k] == r[i]);
                }
            }
        }
    }
}

/// The streams that the last list of options asked for.
#[derive(Debug)]
pub struct Poller {
    pub streams: Vec<String>,
}

impl Poller {
    /// No list has come yet: nothing is subscribed to.
    pub fn new() -> (r: Self)
        ensures
            texts(r.streams@) == Seq::<Seq<char>>::empty(),
    {
        let r = Poller { streams: Vec::new() };
        proof {
            assert(texts(r.streams@) =~= Seq::<Seq<char>>::empty());
        }
        r
    }

    /// Takes in whether a list of options that came lists any, and gives the
    /// change of the subscriptions, where there is one.
    pub fn on_listing(&mut self, listed: bool, spot_symbol: &str) -> (r: Option<SubCmd>)
        ensures
            r is None <==> stream_set(old(self).streams@) == wanted_spec(listed, spot_symbol@).to_set(),
            r matches Some(cmd) ==> {
                &&& texts(cmd.subscribe@) == only_in(
                    wanted_spec(listed, spot_symbol@),
                    texts(old(self).streams@),
                )
                &&& texts(cmd.unsubscribe@) == only_in(
                    texts(old(self).streams@),
                    wanted_spec(listed, spot_symbol@),
                )
            },
            r is Some ==> texts(final(self).streams@) == wanted_spec(listed, spot_symbol@),
            r is None ==> *final(self) == *old(self),
    {
        let wanted: Vec<String> = wanted_streams(listed, spot_symbol);
        let change: Option<SubCmd> = plan_change(&self.streams, &wanted);
        if change.is_some() {
            self.streams = wanted;
        }
        change
    }
}

// ---------------------------------------------------------------------------
// Laws
// ---------------------------------------------------------------------------
/// A change names no stream twice, where neither list did.
pub proof fn change_names_streams_once(previous: Seq<Seq<char>>, wanted: Seq<Seq<char>>)
    requires
        previous.no_duplicates(),
        wanted.no_duplicates(),
    ensures
        only_in(wanted, previous).no_duplicates(),
        only_in(previous, wanted).no_duplicates(),
{
    lemma_only_in(wanted, previous);
    lemma_only_in(previous, wanted);
}

/// After a change exactly the wanted streams are subscribed to, where those of
/// the last round were before it.
pub proof fn change_leads_to_wanted(
    current: Set<Seq<char>>,
    previous: Seq<String>,
    wanted: Seq<String>,
    cmd: SubCmd,
)
    requires
        current == stream_set(previous),
        texts(cmd.subscribe@) == only_in(texts(wanted), texts(previous)),
        texts(cmd.unsubscribe@) == only_in(texts(previous), texts(wanted)),
    ensures
        current.union(stream_set(cmd.subscribe@)).difference(stream_set(cmd.unsubscribe@)) == stream_set(wanted),
{
    lemma_only_in(texts(wanted), texts(previous));
    lemma_only_in(texts(previous), texts(wanted));
    assert(current.union(stream_set(cmd.subscribe@)).difference(stream_set(cmd.unsubscribe@)) =~= stream_set(
        wanted,
    ));
}

/// The one stream of a pair is subscribed to when options are listed after none
/// were, and unsubscribed from when none are listed after some were. Otherwise
/// nothing changes.
pub proof fn listing_turns_the_stream_on_and_off(was_listed: bool, listed: bool, spot_symbol: Seq<char>)
    ensures
        ({
            let stream = lowercase(spot_symbol) + "@optionMarkPrice"@;
            let before = wanted_spec(was_listed, spot_symbol);
            let after = wanted_spec(listed, spot_symbol);
            let none = Seq::<Seq<char>>::empty();
            &&& before.to_set() == after.to_set() <==> was_listed == listed
            &&& listed && !was_listed ==> only_in(after, before) == seq![stream] && only_in(before, after) == none
            &&& !listed && was_listed ==> only_in(after, before) == none && only_in(before, after) == seq![stream]
        }),
{
    reveal(Seq::filter);
    let stream = lowercase(spot_symbol) + "@optionMarkPrice"@;
    let one = seq![stream];
    let none = Seq::<Seq<char>>::empty();
    assert(one.drop_last() =~= none);
    assert(only_in(none, one) =~= none);
    assert(only_in(none, none) =~= none);
    assert(!none.contains(stream));
    assert(only_in(one.drop_last(), none) == none);
    assert(only_in(one, none) =~= one);
    assert(one[0] == stream);
    assert(one.to_set().contains(stream));
    assert(!none.to_set().contains(stream));
}

} // verus!
