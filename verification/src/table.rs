//! Association tables and sets that keep their entries in the order in which
//! the keys were first put in.

use vstd::prelude::*;
use vstd::string::*;

use crate::text::same;

verus! {

/// What can be looked up in a table: two keys are the same when their views are.
pub trait Key: View + Sized {
    /// Whether two keys are the same.
    fn same_key(&self, other: &Self) -> (r: bool)
        ensures
            r == (self@ == other@),
    ;
}

impl Key for String {
    fn same_key(&self, other: &Self) -> (r: bool) {
        same(self.as_str(), other.as_str())
    }
}

impl Key for u64 {
    fn same_key(&self, other: &Self) -> (r: bool) {
        *self == *other
    }
}

impl Key for u16 {
    fn same_key(&self, other: &Self) -> (r: bool) {
        *self == *other
    }
}

/// What can be copied: the copy has the same view.
pub trait Dup: View + Sized {
    /// A copy.
    fn dup(&self) -> (r: Self)
        ensures
            r@ == self@,
    ;
}

impl Dup for String {
    fn dup(&self) -> (r: Self) {
        self.as_str().to_owned()
    }
}

/// The position of a key among entries.
pub open spec fn place<K: Key, V: View>(s: Seq<(K, V)>, k: K::V) -> int {
    choose|i: int| 0 <= i < s.len() && #[trigger] s[i].0@ == k
}

/// No two entries have the same key.
pub open spec fn distinct_keys<K: Key, V: View>(s: Seq<(K, V)>) -> bool {
    forall|i: int, j: int|
        0 <= i < j < s.len() ==> #[trigger] s[i].0@ != #[trigger] s[j].0@
}

/// Entries as a map.
pub open spec fn entries_map<K: Key, V: View>(s: Seq<(K, V)>) -> Map<K::V, V::V> {
    Map::new(
        |k: K::V| exists|i: int| 0 <= i < s.len() && #[trigger] s[i].0@ == k,
        |k: K::V| s[place(s, k)].1@,
    )
}

proof fn lemma_entry<K: Key, V: View>(s: Seq<(K, V)>, i: int)
    requires
        distinct_keys(s),
        0 <= i < s.len(),
    ensures
        entries_map(s).dom().contains(s[i].0@),
        entries_map(s)[s[i].0@] == s[i].1@,
        place(s, s[i].0@) == i,
{
}

/// A map from keys to values.
pub struct Table<K: Key, V: View> {
    entries: Vec<(K, V)>,
}

impl<K: Key, V: View> View for Table<K, V> {
    type V = Map<K::V, V::V>;

    closed spec fn view(&self) -> Map<K::V, V::V> {
        entries_map(self.entries@)
    }
}

impl<K: Key, V: View> Table<K, V> {
    #[verifier::type_invariant]
    spec fn wf(self) -> bool {
        distinct_keys(self.entries@)
    }

    /// The entries in the order in which their keys were first put in.
    pub closed spec fn items(&self) -> Seq<(K::V, V::V)> {
        Seq::new(self.entries@.len(), |i: int| (self.entries@[i].0@, self.entries@[i].1@))
    }

    /// The table without entries.
    pub fn new() -> (r: Self)
        ensures
            r@ == Map::<K::V, V::V>::empty(),
            r.items() == Seq::<(K::V, V::V)>::empty(),
    {
        let r = Table { entries: Vec::new() };
        assert(r@ =~= Map::<K::V, V::V>::empty());
        assert(r.items() =~= Seq::<(K::V, V::V)>::empty());
        r
    }

    /// The number of entries. The entries are those of the map, each key once.
    pub fn len(&self) -> (r: usize)
        ensures
            r == self.items().len(),
            r == self@.dom().len(),
            self@.dom().finite(),
            forall|i: int|
                0 <= i < self.items().len() ==> self@.dom().contains(
                    (#[trigger] self.items()[i]).0,
                ) && self@[self.items()[i].0] == self.items()[i].1,
            forall|i: int, j: int|
                0 <= i < j < self.items().len() ==> (#[trigger] self.items()[i]).0 != (
                #[trigger] self.items()[j]).0,
            forall|k: K::V|
                self@.dom().contains(k) ==> exists|i: int|
                    0 <= i < self.items().len() && (#[trigger] self.items()[i]).0 == k,
    {
        proof {
            use_type_invariant(self);
            let keys = Seq::new(self.entries@.len(), |i: int| self.entries@[i].0@);
            assert(keys.no_duplicates()) by {
                assert forall|i: int, j: int| 0 <= i < j < keys.len() implies keys[i] != keys[j] by {
                    assert(self.entries@[i].0@ != self.entries@[j].0@);
                }
            }
            keys.unique_seq_to_set();
            vstd::seq_lib::seq_to_set_is_finite(keys);
            assert(keys.to_set() =~= self@.dom()) by {
                assert forall|k: K::V| keys.to_set().contains(k) == self@.dom().contains(k) by {
                    if keys.to_set().contains(k) {
                        let i = choose|i: int| 0 <= i < keys.len() && keys[i] == k;
                        assert(self.entries@[i].0@ == k);
                    }
                    if self@.dom().contains(k) {
                        assert(keys[place(self.entries@, k)] == k);
                    }
                }
            }
            assert forall|k: K::V| self@.dom().contains(k) implies exists|i: int|
                0 <= i < self.items().len() && (#[trigger] self.items()[i]).0 == k by {
                let i = place(self.entries@, k);
                assert(self.items()[i].0 == k);
            }
            assert forall|i: int| 0 <= i < self.items().len() implies self@.dom().contains(
                (#[trigger] self.items()[i]).0,
            ) && self@[self.items()[i].0] == self.items()[i].1 by {
                lemma_entry(self.entries@, i);
            }
        }
        self.entries.len()
    }

    fn position(&self, k: &K) -> (r: Option<usize>)
        ensures
            match r {
                Some(i) => i < self.entries@.len() && self.entries@[i as int].0@ == k@,
                None => !self@.dom().contains(k@),
            },
    {
        let n: usize = self.entries.len();
        for i in 0..n
            invariant
                n == self.entries@.len(),
                forall|j: int| 0 <= j < i ==> (#[trigger] self.entries@[j]).0@ != k@,
        {
            if self.entries[i].0.same_key(k) {
                return Some(i);
            }
        }
        None
    }

    /// The value at a key.
    pub fn get(&self, k: &K) -> (r: Option<&V>)
        ensures
            match r {
                Some(v) => self@.dom().contains(k@) && v@ == self@[k@],
                None => !self@.dom().contains(k@),
            },
    {
        match self.position(k) {
            Some(i) => {
                proof {
                    use_type_invariant(self);
                    lemma_entry(self.entries@, i as int);
                }
                Some(&self.entries[i].1)
            },
            None => None,
        }
    }

    /// Whether there is a value at a key.
    pub fn contains_key(&self, k: &K) -> (r: bool)
        ensures
            r == self@.dom().contains(k@),
    {
        self.get(k).is_some()
    }

    /// The entry at a position.
    pub fn entry(&self, i: usize) -> (r: (&K, &V))
        requires
            i < self.items().len(),
        ensures
            self.items()[i as int] == (r.0@, r.1@),
            self@.dom().contains(r.0@),
            self@[r.0@] == r.1@,
    {
        proof {
            use_type_invariant(self);
            lemma_entry(self.entries@, i as int);
        }
        let e = &self.entries[i];
        (&e.0, &e.1)
    }

    /// Puts a value at a key, in place of the one that was there.
    pub fn insert(&mut self, k: K, v: V)
        ensures
            final(self)@ == old(self)@.insert(k@, v@),
            !old(self)@.dom().contains(k@) ==> final(self).items() == old(self).items().push(
                (k@, v@),
            ),
    {
        let ghost before = self.entries@;
        proof {
            use_type_invariant(&*self);
        }
        match self.position(&k) {
            Some(i) => {
                let mut e: Vec<(K, V)> = Vec::new();
                std::mem::swap(&mut e, &mut self.entries);
                proof {
                    lemma_entry(before, i as int);
                }
                e.set(i, (k, v));
                assert(distinct_keys(e@));
                self.entries = e;
                proof {
                    assert forall|q: K::V| self@.dom().contains(q) == before_map(before, k@, v@).dom().contains(q) by {
                        if self@.dom().contains(q) {
                            let j = place(self.entries@, q);
                            assert(before[j].0@ == q);
                        }
                        if entries_map(before).dom().contains(q) {
                            let j = place(before, q);
                            assert(self.entries@[j].0@ == q);
                        }
                        if q == k@ {
                            assert(self.entries@[i as int].0@ == q);
                        }
                    }
                    assert forall|q: K::V| self@.dom().contains(q) implies self@[q] == before_map(
                        before,
                        k@,
                        v@,
                    )[q] by {
                        let j = place(self.entries@, q);
                        lemma_entry(self.entries@, j);
                        lemma_entry(before, j);
                        lemma_entry(self.entries@, i as int);
                    }
                    assert(self@ =~= before_map(before, k@, v@));
                }
            },
            None => {
                let mut e: Vec<(K, V)> = Vec::new();
                std::mem::swap(&mut e, &mut self.entries);
                e.push((k, v));
                assert(distinct_keys(e@)) by {
                    assert forall|i: int, j: int| 0 <= i < j < e@.len() implies #[trigger] e@[i].0@
                        != #[trigger] e@[j].0@ by {
                        if j == before.len() {
                            assert(before[i].0@ != k@) by {
                                if before[i].0@ == k@ {
                                    assert(entries_map(before).dom().contains(k@));
                                }
                            }
                        }
                    }
                }
                self.entries = e;
                proof {
                    assert forall|q: K::V| self@.dom().contains(q) == before_map(before, k@, v@).dom().contains(q) by {
                        if self@.dom().contains(q) {
                            let j = place(self.entries@, q);
                            if j < before.len() {
                                assert(before[j].0@ == q);
                            }
                        }
                        if entries_map(before).dom().contains(q) {
                            let j = place(before, q);
                            assert(self.entries@[j].0@ == q);
                        }
                        if q == k@ {
                            assert(self.entries@[before.len() as int].0@ == q);
                        }
                    }
                    assert forall|q: K::V| self@.dom().contains(q) implies self@[q] == before_map(
                        before,
                        k@,
                        v@,
                    )[q] by {
                        let j = place(self.entries@, q);
                        lemma_entry(self.entries@, j);
                        if j < before.len() {
                            lemma_entry(before, j);
                        }
                        lemma_entry(self.entries@, before.len() as int);
                    }
                    assert(self@ =~= before_map(before, k@, v@));
                    assert(self.items() =~= old(self).items().push((k@, v@)));
                }
            },
        }
    }
}

impl<K: Key, V: View> Table<K, V> {
    /// Takes the value at a key away.
    pub fn remove(&mut self, k: &K)
        ensures
            final(self)@ == old(self)@.remove(k@),
    {
        let ghost before = self.entries@;
        proof {
            use_type_invariant(&*self);
        }
        match self.position(k) {
            Some(i) => {
                let mut e: Vec<(K, V)> = Vec::new();
                std::mem::swap(&mut e, &mut self.entries);
                let gone = e.remove(i);
                assert(distinct_keys(e@)) by {
                    assert forall|a: int, b: int| 0 <= a < b < e@.len() implies #[trigger] e@[a].0@
                        != #[trigger] e@[b].0@ by {
                        let a0 = if a < i { a } else { a + 1 };
                        let b0 = if b < i { b } else { b + 1 };
                        assert(before[a0].0@ != before[b0].0@);
                    }
                }
                self.entries = e;
                proof {
                    let now = self.entries@;
                    assert(now =~= before.remove(i as int));
                    lemma_entry(before, i as int);
                    assert forall|q: K::V| entries_map(now).dom().contains(q) == entries_map(
                        before,
                    ).remove(k@).dom().contains(q) by {
                        if entries_map(now).dom().contains(q) {
                            let j = place(now, q);
                            let j0 = if j < i { j } else { j + 1 };
                            assert(before[j0].0@ == q);
                            lemma_entry(before, j0);
                        }
                        if entries_map(before).dom().contains(q) && q != k@ {
                            let j = place(before, q);
                            let j1 = if j < i { j } else { j - 1 };
                            assert(now[j1].0@ == q);
                        }
                    }
                    assert forall|q: K::V| entries_map(now).dom().contains(q) implies entries_map(
                        now,
                    )[q] == entries_map(before).remove(k@)[q] by {
                        let j = place(now, q);
                        let j0 = if j < i { j } else { j + 1 };
                        lemma_entry(now, j);
                        lemma_entry(before, j0);
                    }
                    assert(entries_map(now) =~= entries_map(before).remove(k@));
                }
            },
            None => {
                assert(entries_map(before) =~= entries_map(before).remove(k@));
            },
        }
    }
}

impl<K: Key + Dup, V: Dup> Dup for Table<K, V> {
    fn dup(&self) -> (r: Self) {
        let mut e: Vec<(K, V)> = Vec::new();
        let n: usize = self.entries.len();
        for i in 0..n
            invariant
                n == self.entries@.len(),
                e@.len() == i,
                forall|j: int|
                    0 <= j < i ==> (#[trigger] e@[j]).0@ == self.entries@[j].0@ && e@[j].1@
                        == self.entries@[j].1@,
        {
            let x = &self.entries[i];
            e.push((x.0.dup(), x.1.dup()));
        }
        proof {
            use_type_invariant(self);
            let a = self.entries@;
            let b = e@;
            assert(distinct_keys(b)) by {
                assert forall|i: int, j: int| 0 <= i < j < b.len() implies #[trigger] b[i].0@
                    != #[trigger] b[j].0@ by {
                    assert(a[i].0@ != a[j].0@);
                }
            }
            assert forall|q: K::V| entries_map(a).dom().contains(q) == entries_map(b).dom().contains(
                q,
            ) by {
                if entries_map(a).dom().contains(q) {
                    assert(b[place(a, q)].0@ == q);
                }
                if entries_map(b).dom().contains(q) {
                    assert(a[place(b, q)].0@ == q);
                }
            }
            assert forall|q: K::V| entries_map(a).dom().contains(q) implies entries_map(a)[q]
                == entries_map(b)[q] by {
                let j = place(a, q);
                lemma_entry(a, j);
                lemma_entry(b, j);
            }
            assert(entries_map(a) =~= entries_map(b));
        }
        Table { entries: e }
    }
}

spec fn before_map<K: Key, V: View>(s: Seq<(K, V)>, k: K::V, v: V::V) -> Map<K::V, V::V> {
    entries_map(s).insert(k, v)
}

/// A set of keys.
pub struct KeySet<K: Key> {
    keys: Vec<K>,
}

/// The views of keys.
pub open spec fn key_views<K: Key>(s: Seq<K>) -> Seq<K::V> {
    Seq::new(s.len(), |i: int| s[i]@)
}

impl<K: Key> View for KeySet<K> {
    type V = Set<K::V>;

    closed spec fn view(&self) -> Set<K::V> {
        key_views(self.keys@).to_set()
    }
}

impl<K: Key> KeySet<K> {
    #[verifier::type_invariant]
    spec fn wf(self) -> bool {
        key_views(self.keys@).no_duplicates()
    }

    /// The keys in the order in which they were put in.
    pub closed spec fn list(&self) -> Seq<K::V> {
        key_views(self.keys@)
    }

    /// The set without keys.
    pub fn new() -> (r: Self)
        ensures
            r@ == Set::<K::V>::empty(),
            r.list() == Seq::<K::V>::empty(),
    {
        let r = KeySet { keys: Vec::new() };
        assert(r.list() =~= Seq::<K::V>::empty());
        assert(r@ =~= Set::<K::V>::empty());
        r
    }

    /// The number of keys.
    pub fn len(&self) -> (r: usize)
        ensures
            r == self@.len(),
            r == self.list().len(),
            self@ == self.list().to_set(),
            self.list().no_duplicates(),
            self@.finite(),
    {
        proof {
            use_type_invariant(self);
            key_views(self.keys@).unique_seq_to_set();
            vstd::seq_lib::seq_to_set_is_finite(key_views(self.keys@));
        }
        self.keys.len()
    }

    /// The key at a position.
    pub fn at(&self, i: usize) -> (r: &K)
        requires
            i < self.list().len(),
        ensures
            r@ == self.list()[i as int],
            self@.contains(r@),
    {
        assert(self.list()[i as int] == self.keys@[i as int]@);
        &self.keys[i]
    }

    /// Whether a key is in the set.
    pub fn contains(&self, k: &K) -> (r: bool)
        ensures
            r == self@.contains(k@),
    {
        let n: usize = self.keys.len();
        for i in 0..n
            invariant
                n == self.keys@.len(),
                forall|j: int| 0 <= j < i ==> (#[trigger] key_views(self.keys@)[j]) != k@,
        {
            if self.keys[i].same_key(k) {
                assert(key_views(self.keys@)[i as int] == k@);
                return true;
            }
        }
        false
    }

    /// Puts a key in.
    pub fn insert(&mut self, k: K)
        ensures
            final(self)@ == old(self)@.insert(k@),
            final(self).list() == (if old(self)@.contains(k@) {
                old(self).list()
            } else {
                old(self).list().push(k@)
            }),
    {
        proof {
            use_type_invariant(&*self);
        }
        if self.contains(&k) {
            assert(self@.insert(k@) =~= self@);
            return;
        }
        let ghost before = key_views(self.keys@);
        let mut e: Vec<K> = Vec::new();
        std::mem::swap(&mut e, &mut self.keys);
        e.push(k);
        proof {
            assert(key_views(e@) =~= before.push(k@));
            assert(key_views(e@).no_duplicates());
            before.lemma_push_to_set_commute(k@);
        }
        self.keys = e;
    }
}

impl<K: Key + Dup> Dup for KeySet<K> {
    fn dup(&self) -> (r: Self) {
        let mut e: Vec<K> = Vec::new();
        let n: usize = self.keys.len();
        for i in 0..n
            invariant
                n == self.keys@.len(),
                e@.len() == i,
                forall|j: int| 0 <= j < i ==> (#[trigger] e@[j])@ == self.keys@[j]@,
        {
            e.push(self.keys[i].dup());
        }
        proof {
            use_type_invariant(self);
            assert(key_views(e@) =~= key_views(self.keys@));
        }
        KeySet { keys: e }
    }
}

} // verus!
