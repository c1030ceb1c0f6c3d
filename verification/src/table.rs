//! Tables: maps that keep their entries in the order of their keys.
use crate::text::{
    less_text, lemma_text_less_irreflexive, lemma_text_less_total, lemma_text_less_transitive, same_text,
    text_less,
};
use vstd::prelude::*;
use vstd::string::*;

verus! {

/// What can be the key of a table: a value with a name, and a total order of
/// the names.
pub trait TableKey: Sized {
    /// What a key stands for.
    type Name;

    /// The name of a key.
    spec fn name(&self) -> Self::Name;

    /// The order of the names.
    spec fn precedes(a: Self::Name, b: Self::Name) -> bool;

    proof fn precedes_is_irreflexive(a: Self::Name)
        ensures
            !Self::precedes(a, a),
    ;

    proof fn precedes_is_transitive(a: Self::Name, b: Self::Name, c: Self::Name)
        requires
            Self::precedes(a, b),
            Self::precedes(b, c),
        ensures
            Self::precedes(a, c),
    ;

    proof fn precedes_is_total(a: Self::Name, b: Self::Name)
        ensures
            a == b || Self::precedes(a, b) || Self::precedes(b, a),
    ;

    fn is_before(&self, other: &Self) -> (r: bool)
        ensures
            r == Self::precedes(self.name(), other.name()),
    ;

    fn is_same(&self, other: &Self) -> (r: bool)
        ensures
            r == (self.name() == other.name()),
    ;
}

impl TableKey for String {
    type Name = Seq<char>;

    open spec fn name(&self) -> Seq<char> {
        self@
    }

    open spec fn precedes(a: Seq<char>, b: Seq<char>) -> bool {
        text_less(a, b)
    }

    proof fn precedes_is_irreflexive(a: Seq<char>) {
        lemma_text_less_irreflexive(a);
    }

    proof fn precedes_is_transitive(a: Seq<char>, b: Seq<char>, c: Seq<char>) {
        lemma_text_less_transitive(a, b, c);
    }

    proof fn precedes_is_total(a: Seq<char>, b: Seq<char>) {
        lemma_text_less_total(a, b);
    }

    fn is_before(&self, other: &Self) -> (r: bool) {
        less_text(self.as_str(), other.as_str())
    }

    fn is_same(&self, other: &Self) -> (r: bool) {
        same_text(self.as_str(), other.as_str())
    }
}

impl TableKey for i64 {
    type Name = i64;

    open spec fn name(&self) -> i64 {
        *self
    }

    open spec fn precedes(a: i64, b: i64) -> bool {
        a < b
    }

    proof fn precedes_is_irreflexive(a: i64) {
    }

    proof fn precedes_is_transitive(a: i64, b: i64, c: i64) {
    }

    proof fn precedes_is_total(a: i64, b: i64) {
    }

    fn is_before(&self, other: &Self) -> (r: bool) {
        *self < *other
    }

    fn is_same(&self, other: &Self) -> (r: bool) {
        *self == *other
    }
}

/// A map from keys to values, in the order of the keys.
#[derive(Debug)]
pub struct Table<K, V> {
    pub entries: Vec<(K, V)>,
}

impl<K: TableKey, V> Table<K, V> {
    /// The names of the keys, in order.
    pub open spec fn names(&self) -> Seq<K::Name> {
        self.entries@.map_values(|e: (K, V)| e.0.name())
    }

    /// The values, in the order of their keys.
    pub open spec fn values(&self) -> Seq<V> {
        self.entries@.map_values(|e: (K, V)| e.1)
    }

    /// The keys stand in order, and none occurs twice.
    pub open spec fn wf(&self) -> bool {
        forall|i: int, j: int|
            0 <= i < j < self.entries@.len() ==> K::precedes(
                (#[trigger] self.entries@[i]).0.name(),
                (#[trigger] self.entries@[j]).0.name(),
            )
    }

    /// The map that the table stands for.
    pub open spec fn map(&self) -> Map<K::Name, V> {
        Map::new(
            |n: K::Name| self.names().contains(n),
            |n: K::Name| self.entries@[self.names().index_of(n)].1,
        )
    }

    /// The entry at a position is what the map holds under its name.
    pub proof fn lemma_entry(&self, i: int)
        requires
            self.wf(),
            0 <= i < self.entries@.len(),
        ensures
            self.map().contains_key(self.entries@[i].0.name()),
            self.map()[self.entries@[i].0.name()] == self.entries@[i].1,
    {
        let n = self.entries@[i].0.name();
        assert(self.names()[i] == n);
        let k = self.names().index_of(n);
        assert(self.names().contains(n));
        assert(0 <= k < self.names().len() && self.names()[k] == n);
        if k != i {
            K::precedes_is_irreflexive(n);
            if k < i {
                assert(K::precedes(self.entries@[k].0.name(), self.entries@[i].0.name()));
            } else {
                assert(K::precedes(self.entries@[i].0.name(), self.entries@[k].0.name()));
            }
        }
    }

    /// A name of the map is that of an entry.
    pub proof fn lemma_named(&self, n: K::Name) -> (i: int)
        requires
            self.wf(),
            self.map().contains_key(n),
        ensures
            0 <= i < self.entries@.len(),
            self.entries@[i].0.name() == n,
            self.map()[n] == self.entries@[i].1,
    {
        let i = self.names().index_of(n);
        assert(self.names().contains(n));
        assert(0 <= i < self.names().len() && self.names()[i] == n);
        self.lemma_entry(i);
        i
    }

    /// A table without entries.
    pub fn new() -> (r: Self)
        ensures
            r.wf(),
            r.entries@.len() == 0,
            r.map() == Map::<K::Name, V>::empty(),
    {
        let r = Table { entries: Vec::new() };
        proof {
            assert(r.map() =~= Map::<K::Name, V>::empty());
        }
        r
    }

    /// How many entries there are.
    pub fn len(&self) -> (r: usize)
        ensures
            r == self.entries@.len(),
    {
        self.entries.len()
    }

    /// Where a key stands, or where it would have to be put in.
    fn find(&self, key: &K) -> (r: (usize, bool))
        requires
            self.wf(),
        ensures
            r.0 <= self.entries@.len(),
            r.1 ==> r.0 < self.entries@.len() && self.entries@[r.0 as int].0.name() == key.name(),
            r.1 == self.map().contains_key(key.name()),
            forall|i: int|
                0 <= i < r.0 ==> K::precedes((#[trigger] self.entries@[i]).0.name(), key.name()),
            !r.1 ==> forall|i: int|
                r.0 <= i < self.entries@.len() ==> K::precedes(
                    key.name(),
                    (#[trigger] self.entries@[i]).0.name(),
                ),
    {
        let mut i: usize = 0;
        while i < self.entries.len()
            invariant
                i <= self.entries@.len(),
                self.wf(),
                forall|j: int|
                    0 <= j < i ==> K::precedes((#[trigger] self.entries@[j]).0.name(), key.name()),
            decreases self.entries@.len() - i,
        {
            if self.entries[i].0.is_same(key) {
                proof {
                    self.lemma_entry(i as int);
                }
                return (i, true);
            }
            if key.is_before(&self.entries[i].0) {
                proof {
                    assert forall|j: int| i <= j < self.entries@.len() implies K::precedes(
                        key.name(),
                        (#[trigger] self.entries@[j]).0.name(),
                    ) by {
                        if j > i {
                            K::precedes_is_transitive(
                                key.name(),
                                self.entries@[i as int].0.name(),
                                self.entries@[j].0.name(),
                            );
                        }
                    }
                    self.lemma_absent(key.name(), i as int);
                }
                return (i, false);
            }
            proof {
                K::precedes_is_total(self.entries@[i as int].0.name(), key.name());
            }
            i = i + 1;
        }
        proof {
            self.lemma_absent(key.name(), i as int);
        }
        (i, false)
    }

    /// A name between two neighbours is not in the map.
    proof fn lemma_absent(&self, n: K::Name, k: int)
        requires
            self.wf(),
            0 <= k <= self.entries@.len(),
            forall|i: int| 0 <= i < k ==> K::precedes((#[trigger] self.entries@[i]).0.name(), n),
            forall|i: int|
                k <= i < self.entries@.len() ==> K::precedes(n, (#[trigger] self.entries@[i]).0.name()),
        ensures
            !self.map().contains_key(n),
    {
        if self.map().contains_key(n) {
            let i = self.lemma_named(n);
            K::precedes_is_irreflexive(n);
        }
    }

    /// Whether the table holds a key.
    pub fn contains(&self, key: &K) -> (r: bool)
        requires
            self.wf(),
        ensures
            r == self.map().contains_key(key.name()),
    {
        self.find(key).1
    }

    /// The value under a key.
    pub fn get(&self, key: &K) -> (r: Option<&V>)
        requires
            self.wf(),
        ensures
            r is Some <==> self.map().contains_key(key.name()),
            r matches Some(v) ==> *v == self.map()[key.name()],
    {
        let (i, found) = self.find(key);
        if found {
            proof {
                self.lemma_entry(i as int);
            }
            Some(&self.entries[i].1)
        } else {
            None
        }
    }

    /// Puts a value under a key, in place of the one that stood there.
    pub fn insert(&mut self, key: K, value: V)
        requires
            old(self).wf(),
        ensures
            final(self).wf(),
            final(self).map() == old(self).map().insert(key.name(), value),
    {
        let ghost before = *self;
        let ghost n = key.name();
        let (i, found) = self.find(&key);
        if found {
            let _ = self.entries.remove(i);
            self.entries.insert(i, (key, value));
            proof {
                assert(self.entries@ =~= before.entries@.update(i as int, (key, value)));
                assert(self.names() =~= before.names()) by {
                    assert forall|j: int| 0 <= j < self.entries@.len() implies #[trigger] self.names()[j]
                        == before.names()[j] by {
                        assert(before.names()[j] == before.entries@[j].0.name());
                    }
                }
                assert(self.wf()) by {
                    assert forall|a: int, b: int| 0 <= a < b < self.entries@.len() implies K::precedes(
                        (#[trigger] self.entries@[a]).0.name(),
                        (#[trigger] self.entries@[b]).0.name(),
                    ) by {
                        assert(self.names()[a] == before.names()[a]);
                        assert(self.names()[b] == before.names()[b]);
                        assert(K::precedes(before.entries@[a].0.name(), before.entries@[b].0.name()));
                    }
                }
                assert(self.map() =~= before.map().insert(n, value)) by {
                    self.lemma_entry(i as int);
                    assert forall|m: K::Name| #[trigger] self.map().contains_key(m) implies self.map()[m]
                        == before.map().insert(n, value)[m] by {
                        let j = self.lemma_named(m);
                        if m != n {
                            assert(j != i);
                            before.lemma_entry(j);
                            assert(self.entries@[j] == before.entries@[j]);
                        }
                    }
                }
            }
        } else {
            self.entries.insert(i, (key, value));
            proof {
                assert(self.entries@ =~= before.entries@.insert(i as int, (key, value)));
                assert(self.wf()) by {
                    assert forall|a: int, b: int| 0 <= a < b < self.entries@.len() implies K::precedes(
                        (#[trigger] self.entries@[a]).0.name(),
                        (#[trigger] self.entries@[b]).0.name(),
                    ) by {
                        let a0 = if a < i {
                            a
                        } else {
                            a - 1
                        };
                        let b0 = if b < i {
                            b
                        } else {
                            b - 1
                        };
                        if a != i {
                            assert(self.entries@[a] == before.entries@[a0]);
                        }
                        if b != i {
                            assert(self.entries@[b] == before.entries@[b0]);
                        }
                        if a != i && b != i {
                            assert(K::precedes(before.entries@[a0].0.name(), before.entries@[b0].0.name()));
                        }
                    }
                }
                assert(self.map() =~= before.map().insert(n, value)) by {
                    self.lemma_entry(i as int);
                    assert(self.entries@[i as int].0.name() == n);
                    assert forall|m: K::Name| #[trigger] self.map().contains_key(m) implies before.map().insert(
                        n,
                        value,
                    ).contains_key(m) && self.map()[m] == before.map().insert(n, value)[m] by {
                        let j = self.lemma_named(m);
                        if m != n {
                            let j0 = if j < i {
                                j
                            } else {
                                j - 1
                            };
                            assert(self.entries@[j] == before.entries@[j0]);
                            before.lemma_entry(j0);
                        }
                    }
                    assert forall|m: K::Name| #[trigger]
                        before.map().contains_key(m) implies self.map().contains_key(m) by {
                        let j = before.lemma_named(m);
                        let j1 = if j < i {
                            j
                        } else {
                            j + 1
                        };
                        assert(self.entries@[j1] == before.entries@[j]);
                        self.lemma_entry(j1);
                    }
                }
            }
        }
    }

    /// Takes the entry of a key out, and gives its value.
    pub fn remove(&mut self, key: &K) -> (r: Option<V>)
        requires
            old(self).wf(),
        ensures
            final(self).wf(),
            final(self).map() == old(self).map().remove(key.name()),
            r is Some <==> old(self).map().contains_key(key.name()),
            r matches Some(v) ==> v == old(self).map()[key.name()],
    {
        let ghost before = *self;
        let ghost n = key.name();
        let (i, found) = self.find(key);
        if found {
            proof {
                before.lemma_entry(i as int);
            }
            let (_, value) = self.entries.remove(i);
            proof {
                assert(self.entries@ =~= before.entries@.remove(i as int));
                assert(self.wf()) by {
                    assert forall|a: int, b: int| 0 <= a < b < self.entries@.len() implies K::precedes(
                        (#[trigger] self.entries@[a]).0.name(),
                        (#[trigger] self.entries@[b]).0.name(),
                    ) by {
                        let a0 = if a < i {
                            a
                        } else {
                            a + 1
                        };
                        let b0 = if b < i {
                            b
                        } else {
                            b + 1
                        };
                        assert(K::precedes(before.entries@[a0].0.name(), before.entries@[b0].0.name()));
                    }
                }
                assert(self.map() =~= before.map().remove(n)) by {
                    assert forall|m: K::Name| #[trigger] self.map().contains_key(m) implies before.map().remove(
                        n,
                    ).contains_key(m) && self.map()[m] == before.map()[m] by {
                        let j = self.lemma_named(m);
                        let j0 = if j < i {
                            j
                        } else {
                            j + 1
                        };
                        assert(self.entries@[j] == before.entries@[j0]);
                        before.lemma_entry(j0);
                        K::precedes_is_irreflexive(n);
                        if j0 < i {
                            assert(K::precedes(before.entries@[j0].0.name(), before.entries@[i as int].0.name()));
                        } else {
                            assert(K::precedes(before.entries@[i as int].0.name(), before.entries@[j0].0.name()));
                        }
                    }
                    assert forall|m: K::Name| #[trigger]
                        before.map().remove(n).contains_key(m) implies self.map().contains_key(m) by {
                        let j = before.lemma_named(m);
                        let j1 = if j < i {
                            j
                        } else {
                            j - 1
                        };
                        assert(self.entries@[j1] == before.entries@[j]);
                        self.lemma_entry(j1);
                    }
                }
            }
            Some(value)
        } else {
            proof {
                assert(before.map().remove(n) =~= before.map());
            }
            None
        }
    }
}

} // verus!
