//! Ordering by a number, the largest first.
use crate::scalar::Scalar;
use vstd::prelude::*;
use vstd::set_lib::*;

verus! {

/// What has a number to be ordered by.
pub trait Ranked<N: Scalar> {
    /// The number to order by.
    spec fn rank_spec(&self) -> N;

    fn rank(&self) -> (r: N)
        ensures
            r == self.rank_spec(),
    ;
}

/// `order` lists the positions of the items of `before` in the order in which
/// they stand in `after`, each once.
pub open spec fn is_rearranged<T>(before: Seq<T>, after: Seq<T>, order: Seq<int>) -> bool {
    &&& after.len() == before.len()
    &&& order.len() == before.len()
    &&& forall|i: int| 0 <= i < order.len() ==> 0 <= #[trigger] order[i] < before.len()
    &&& forall|i: int, j: int| 0 <= i < j < order.len() ==> order[i] != order[j]
    &&& forall|i: int| 0 <= i < after.len() ==> #[trigger] after[i] == before[order[i]]
}

/// Of two items the one with the larger number comes first, and of two with
/// the same number the one that stood first.
pub open spec fn comes_first<N: Scalar>(a: N, a_was: int, b: N, b_was: int) -> bool {
    b.less_spec(a) || (!a.less_spec(b) && a_was < b_was)
}

/// `after` holds the items of `before` by falling number, with ties in the
/// order in which they stood.
pub open spec fn is_ranked<N: Scalar, T>(
    before: Seq<T>,
    after: Seq<T>,
    order: Seq<int>,
    number: spec_fn(T) -> N,
) -> bool {
    &&& is_rearranged(before, after, order)
    &&& forall|i: int, j: int|
        0 <= i < j < after.len() ==> comes_first(
            number(#[trigger] after[i]),
            order[i],
            number(#[trigger] after[j]),
            order[j],
        )
}

/// The numbers of all items take part in the order.
pub open spec fn all_ordered<N: Scalar, T>(items: Seq<T>, number: spec_fn(T) -> N) -> bool {
    forall|i: int| 0 <= i < items.len() ==> number(#[trigger] items[i]).at_most_spec(number(items[i]))
}

/// `after` is `before`, sorted by falling number with ties in their order.
/// Where a number takes no part in the order, only that no item is lost or
/// added is said.
pub open spec fn is_sorted<N: Scalar, T>(before: Seq<T>, after: Seq<T>, number: spec_fn(T) -> N) -> bool {
    &&& exists|order: Seq<int>| #[trigger] is_rearranged(before, after, order)
    &&& all_ordered(before, number) ==> exists|order: Seq<int>| #[trigger]
        is_ranked(before, after, order, number)
}

/// The number that items are ordered by.
pub open spec fn rank_number<N: Scalar, T: Ranked<N>>() -> spec_fn(T) -> N {
    |item: T| item.rank_spec()
}

/// What is sorted stays so when each item is seen as what it stands for.
pub proof fn lemma_sorted_views<N: Scalar, T, V>(
    before: Seq<T>,
    after: Seq<T>,
    number: spec_fn(T) -> N,
    seen: spec_fn(T) -> V,
    number_seen: spec_fn(V) -> N,
)
    requires
        is_sorted(before, after, number),
        forall|item: T| number_seen(#[trigger] seen(item)) == number(item),
    ensures
        is_sorted(before.map_values(seen), after.map_values(seen), number_seen),
{
    let b = before.map_values(seen);
    let a = after.map_values(seen);
    let order = choose|order: Seq<int>| #[trigger] is_rearranged(before, after, order);
    assert(is_rearranged(b, a, order)) by {
        assert forall|i: int| 0 <= i < a.len() implies #[trigger] a[i] == b[order[i]] by {
            assert(after[i] == before[order[i]]);
        }
    }
    if all_ordered(b, number_seen) {
        assert(all_ordered(before, number)) by {
            assert forall|i: int| 0 <= i < before.len() implies number(#[trigger] before[i]).at_most_spec(
                number(before[i]),
            ) by {
                assert(b[i] == seen(before[i]));
            }
        }
        let ranked = choose|order: Seq<int>| #[trigger] is_ranked(before, after, order, number);
        assert(is_ranked(b, a, ranked, number_seen)) by {
            assert forall|i: int| 0 <= i < a.len() implies #[trigger] a[i] == b[ranked[i]] by {
                assert(after[i] == before[ranked[i]]);
            }
            assert forall|i: int, j: int| 0 <= i < j < a.len() implies comes_first(
                number_seen(#[trigger] a[i]),
                ranked[i],
                number_seen(#[trigger] a[j]),
                ranked[j],
            ) by {
                assert(a[i] == seen(after[i]));
                assert(a[j] == seen(after[j]));
            }
        }
    }
}

/// Sorted by falling number, no item has a smaller number than one behind it.
pub proof fn sorted_is_falling<N: Scalar, T>(before: Seq<T>, after: Seq<T>, number: spec_fn(T) -> N, i: int, j: int)
    requires
        is_sorted(before, after, number),
        all_ordered(before, number),
        0 <= i < j < after.len(),
    ensures
        number(after[j]).at_most_spec(number(after[i])),
{
    let order = choose|order: Seq<int>| #[trigger] is_ranked(before, after, order, number);
    let x = number(after[i]);
    let y = number(after[j]);
    assert(after[i] == before[order[i]]);
    assert(after[j] == before[order[j]]);
    assert(comes_first(x, order[i], y, order[j]));
    N::at_most_is_total(y, x);
    if y.less_spec(x) {
        N::less_is_strict(y, x);
    }
}

/// Every item of a sorted sequence was there before.
pub proof fn sorted_keeps_items<N: Scalar, T>(before: Seq<T>, after: Seq<T>, number: spec_fn(T) -> N, i: int)
    requires
        is_sorted(before, after, number),
        0 <= i < after.len(),
    ensures
        after.len() == before.len(),
        before.contains(after[i]),
{
    let order = choose|order: Seq<int>| #[trigger] is_rearranged(before, after, order);
    assert(after[i] == before[order[i]]);
}

/// Every item that was there before is in the sorted sequence.
pub proof fn sorted_loses_no_item<N: Scalar, T>(before: Seq<T>, after: Seq<T>, number: spec_fn(T) -> N, i: int)
    requires
        is_sorted(before, after, number),
        0 <= i < before.len(),
    ensures
        after.contains(before[i]),
{
    let order = choose|order: Seq<int>| #[trigger] is_rearranged(before, after, order);
    let all = set_int_range(0, before.len() as int);
    let used = order.to_set();
    order.unique_seq_to_set();
    lemma_int_range(0, before.len() as int);
    assert(used.subset_of(all));
    lemma_subset_equality(used, all);
    assert(used.contains(i));
    let k = choose|k: int| 0 <= k < order.len() && order[k] == i;
    assert(after[k] == before[order[k]]);
}

proof fn lemma_not_less_transitive<N: Scalar>(a: N, b: N, c: N)
    requires
        a.at_most_spec(a),
        b.at_most_spec(b),
        c.at_most_spec(c),
        !a.less_spec(b),
        !b.less_spec(c),
    ensures
        !a.less_spec(c),
{
    N::at_most_is_total(b, a);
    N::at_most_is_total(c, b);
    N::at_most_is_transitive(c, b, a);
    if a.less_spec(c) {
        N::less_is_strict(a, c);
    }
}

/// Sorts items by falling number. Ties keep their order. Where a number takes
/// no part in the order, the items are kept and their order is not said.
pub fn sort_descending<N: Scalar, T: Ranked<N>>(items: &mut Vec<T>)
    ensures
        is_sorted(old(items)@, final(items)@, rank_number::<N, T>()),
{
    let ghost before = items@;
    let ghost mut order: Seq<int> = Seq::new(before.len(), |k: int| k);
    let n: usize = items.len();
    let mut i: usize = 0;
    while i < n
        invariant
            i <= n,
            n == before.len(),
            before == old(items)@,
            is_rearranged(before, items@, order),
            forall|k: int| 0 <= k < i ==> 0 <= #[trigger] order[k] < i,
            forall|k: int| i <= k < n ==> #[trigger] order[k] == k,
            all_ordered(before, rank_number::<N, T>()) ==> forall|a: int, b: int|
                0 <= a < b < i ==> comes_first(
                    (#[trigger] items@[a]).rank_spec(),
                    order[a],
                    (#[trigger] items@[b]).rank_spec(),
                    order[b],
                ),
        decreases n - i,
    {
        let x: N = items[i].rank();
        let mut j: usize = i;
        while j > 0 && items[j - 1].rank().less(x)
            invariant
                j <= i,
                i < n,
                n == items@.len(),
                forall|k: int| j <= k < i ==> (#[trigger] items@[k]).rank_spec().less_spec(x),
            decreases j,
        {
            j = j - 1;
        }
        let ghost was = items@;
        let ghost order_was = order;
        let item = items.remove(i);
        items.insert(j, item);
        proof {
            order = order_was.remove(i as int).insert(j as int, i as int);
            let at = |k: int|
                if k < j || k > i {
                    k
                } else if k == j {
                    i as int
                } else {
                    k - 1
                };
            assert forall|k: int| 0 <= k < n implies #[trigger] items@[k] == was[at(k)] && order[k]
                == order_was[at(k)] by {}
            assert(is_rearranged(before, items@, order)) by {
                assert forall|a: int, b: int| 0 <= a < b < order.len() implies order[a] != order[b] by {
                    assert(items@[a] == was[at(a)]);
                    assert(items@[b] == was[at(b)]);
                    assert(at(a) != at(b));
                    if at(a) < at(b) {
                        assert(order_was[at(a)] != order_was[at(b)]);
                    } else {
                        assert(order_was[at(b)] != order_was[at(a)]);
                    }
                }
                assert forall|k: int| 0 <= k < order.len() implies 0 <= #[trigger] order[k] < before.len() by {
                    assert(items@[k] == was[at(k)]);
                    assert(0 <= order_was[at(k)] < before.len());
                }
                assert forall|k: int| 0 <= k < items@.len() implies #[trigger] items@[k] == before[order[k]] by {
                    assert(was[at(k)] == before[order_was[at(k)]]);
                }
            }
            assert forall|k: int| 0 <= k < i + 1 implies 0 <= #[trigger] order[k] < i + 1 by {
                assert(items@[k] == was[at(k)]);
                if k != j {
                    assert(0 <= order_was[at(k)] < i);
                }
            }
            assert forall|k: int| i + 1 <= k < n implies #[trigger] order[k] == k by {
                assert(items@[k] == was[at(k)]);
                assert(order_was[k] == k);
            }
            if all_ordered(before, rank_number::<N, T>()) {
                assert forall|k: int| 0 <= k < n implies (#[trigger] was[k]).rank_spec().at_most_spec(
                    was[k].rank_spec(),
                ) by {
                    assert(was[k] == before[order_was[k]]);
                }
                assert forall|a: int, b: int| 0 <= a < b < i + 1 implies comes_first(
                    (#[trigger] items@[a]).rank_spec(),
                    order[a],
                    (#[trigger] items@[b]).rank_spec(),
                    order[b],
                ) by {
                    assert(items@[a] == was[at(a)]);
                    assert(items@[b] == was[at(b)]);
                    if a != j && b != j {
                        assert(comes_first(
                            was[at(a)].rank_spec(),
                            order_was[at(a)],
                            was[at(b)].rank_spec(),
                            order_was[at(b)],
                        ));
                    } else if a == j {
                        assert(was[b - 1].rank_spec().less_spec(x));
                    } else {
                        let near = was[j - 1].rank_spec();
                        assert(!near.less_spec(x));
                        if a < j - 1 {
                            assert(comes_first(was[a].rank_spec(), order_was[a], near, order_was[j - 1]));
                            if near.less_spec(was[a].rank_spec()) {
                                N::less_is_strict(near, was[a].rank_spec());
                                if was[a].rank_spec().less_spec(near) {
                                    N::less_is_strict(was[a].rank_spec(), near);
                                }
                            }
                            lemma_not_less_transitive(was[a].rank_spec(), near, x);
                        }
                        assert(0 <= order_was[a] < i);
                    }
                }
            }
        }
        i = i + 1;
    }
    proof {
        if all_ordered(before, rank_number::<N, T>()) {
            assert(is_ranked(before, items@, order, rank_number::<N, T>()));
        }
    }
}

} // verus!
