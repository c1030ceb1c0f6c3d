//! Laws of texts that are cut, joined and printed.
use crate::text::{joined, lemma_pieces_nonempty, pieces, without_trailing};
use vstd::prelude::*;

verus! {

/// What a text is cut into joins to the text again.
pub proof fn pieces_join_to_the_text(s: Seq<char>, separator: char)
    ensures
        joined(pieces(s, separator), seq![separator]) == s,
    decreases s.len(),
{
    if s.len() > 0 {
        let shorter = s.drop_last();
        let before = pieces(shorter, separator);
        lemma_pieces_nonempty(shorter, separator);
        pieces_join_to_the_text(shorter, separator);
        let all = pieces(s, separator);
        if s.last() == separator {
            assert(all.drop_last() =~= before);
            assert(joined(all, seq![separator]) =~= s);
        } else {
            let grown = before.last().push(s.last());
            assert(all.drop_last() =~= before.drop_last());
            if before.len() == 1 {
                assert(joined(all, seq![separator]) =~= s);
            } else {
                let cut = seq![separator];
                let rest = joined(before.drop_last(), cut);
                assert(joined(before, cut) == rest + cut + before.last());
                assert(all.last() == grown);
                assert(joined(all, cut) == rest + cut + grown);
                assert(rest + cut + grown =~= (rest + cut + before.last()).push(s.last()));
                assert(s =~= shorter.push(s.last()));
            }
        }
    } else {
        assert(joined(pieces(s, separator), seq![separator]) =~= s);
    }
}

/// A text of four pieces.
pub proof fn four_pieces_join_to_the_text(s: Seq<char>, separator: char)
    requires
        pieces(s, separator).len() == 4,
    ensures
        ({
            let p = pieces(s, separator);
            let cut = seq![separator];
            s == p[0] + cut + p[1] + cut + p[2] + cut + p[3]
        }),
{
    pieces_join_to_the_text(s, separator);
    let p = pieces(s, separator);
    reveal_with_fuel(joined, 5);
    assert(p.drop_last().drop_last().drop_last() =~= seq![p[0]]);
}

/// What is left of a text whose end is trimmed does not end with the character,
/// and what was cut off is that character alone.
pub proof fn trimming_cuts_the_end_only(s: Seq<char>, c: char)
    ensures
        ({
            let t = without_trailing(s, c);
            &&& t.len() <= s.len()
            &&& s.take(t.len() as int) == t
            &&& t.len() > 0 ==> t.last() != c
            &&& forall|i: int| t.len() <= i < s.len() ==> #[trigger] s[i] == c
        }),
    decreases s.len(),
{
    let t = without_trailing(s, c);
    if s.len() > 0 && s.last() == c {
        let shorter = s.drop_last();
        trimming_cuts_the_end_only(shorter, c);
        assert(shorter.take(t.len() as int) =~= s.take(t.len() as int));
        assert forall|i: int| t.len() <= i < s.len() implies #[trigger] s[i] == c by {
            if i < shorter.len() {
                assert(shorter[i] == s[i]);
            }
        }
    } else {
        assert(s.take(t.len() as int) =~= t);
    }
}

} // verus!
