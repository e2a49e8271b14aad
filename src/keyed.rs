//! A map stored as a vector of entries with distinct keys.

use vstd::prelude::*;

verus! {

/// Keys that can be compared for equality in executable code.
pub trait SameKey: Sized {
    /// Whether the two keys are equal.
    fn same_key(&self, other: &Self) -> (r: bool)
        ensures
            r == (*self == *other),
    ;
}

/// Whether no two entries share a key.
pub open spec fn keys_distinct<K, V>(s: Seq<(K, V)>) -> bool {
    forall|i: int, j: int| 0 <= i < s.len() && 0 <= j < s.len() && i != j ==> s[i].0 != s[j].0
}

/// Whether some entry has key `k`.
pub open spec fn has_key<K, V>(s: Seq<(K, V)>, k: K) -> bool {
    exists|i: int| 0 <= i < s.len() && s[i].0 == k
}

/// The entries as a map.
pub open spec fn entry_map<K, V>(s: Seq<(K, V)>) -> Map<K, V> {
    Map::new(
        |k: K| has_key(s, k),
        |k: K| s[choose|i: int| 0 <= i < s.len() && s[i].0 == k].1,
    )
}

/// Entry `i` is what the map holds for its key.
pub proof fn lemma_entry_at<K, V>(s: Seq<(K, V)>, i: int)
    requires
        keys_distinct(s),
        0 <= i < s.len(),
    ensures
        entry_map(s).contains_key(s[i].0),
        entry_map(s)[s[i].0] == s[i].1,
{
    assert(has_key(s, s[i].0));
    let j = choose|j: int| 0 <= j < s.len() && s[j].0 == s[i].0;
    assert(j == i);
}

/// Inserting a new key at any position adds it to the map.
pub proof fn lemma_entry_map_insert_at<K, V>(s: Seq<(K, V)>, pos: int, k: K, v: V)
    requires
        keys_distinct(s),
        !has_key(s, k),
        0 <= pos <= s.len(),
    ensures
        keys_distinct(s.insert(pos, (k, v))),
        entry_map(s.insert(pos, (k, v))) == entry_map(s).insert(k, v),
{
    let t = s.insert(pos, (k, v));
    assert forall|i: int, j: int|
        0 <= i < t.len() && 0 <= j < t.len() && i != j implies t[i].0 != t[j].0 by {
        if i == pos {
            assert(s[if j < pos { j } else { j - 1 }].0 == t[j].0);
        } else if j == pos {
            assert(s[if i < pos { i } else { i - 1 }].0 == t[i].0);
        } else {
            assert(s[if i < pos { i } else { i - 1 }].0 == t[i].0);
            assert(s[if j < pos { j } else { j - 1 }].0 == t[j].0);
        }
    }
    assert forall|x: K| has_key(t, x) == (has_key(s, x) || x == k) by {
        if x == k {
            assert(t[pos].0 == x);
        }
        if has_key(s, x) {
            let j = choose|j: int| 0 <= j < s.len() && s[j].0 == x;
            if j < pos {
                assert(t[j].0 == x);
            } else {
                assert(t[j + 1].0 == x);
            }
        }
        if has_key(t, x) && x != k {
            let j = choose|j: int| 0 <= j < t.len() && t[j].0 == x;
            if j < pos {
                assert(s[j].0 == x);
            } else {
                assert(s[j - 1].0 == x);
            }
        }
    }
    assert forall|x: K| #[trigger] entry_map(t).contains_key(x) implies entry_map(t)[x]
        == entry_map(s).insert(k, v)[x] by {
        let j = choose|j: int| 0 <= j < t.len() && t[j].0 == x;
        lemma_entry_at(t, j);
        if j < pos {
            lemma_entry_at(s, j);
        } else if j > pos {
            lemma_entry_at(s, j - 1);
        }
    }
    assert(entry_map(t) =~= entry_map(s).insert(k, v));
}

/// Replacing the value of entry `i` replaces the value of its key.
pub proof fn lemma_entry_map_update<K, V>(s: Seq<(K, V)>, i: int, v: V)
    requires
        keys_distinct(s),
        0 <= i < s.len(),
    ensures
        keys_distinct(s.update(i, (s[i].0, v))),
        entry_map(s.update(i, (s[i].0, v))) == entry_map(s).insert(s[i].0, v),
{
    let k = s[i].0;
    let t = s.update(i, (k, v));
    assert forall|x: K| has_key(t, x) == has_key(s, x) by {
        if has_key(s, x) {
            let j = choose|j: int| 0 <= j < s.len() && s[j].0 == x;
            assert(t[j].0 == x);
        }
        if has_key(t, x) {
            let j = choose|j: int| 0 <= j < t.len() && t[j].0 == x;
            assert(s[j].0 == x);
        }
    }
    assert forall|x: K| #[trigger] entry_map(t).contains_key(x) implies entry_map(t)[x]
        == entry_map(s).insert(k, v)[x] by {
        let j = choose|j: int| 0 <= j < t.len() && t[j].0 == x;
        lemma_entry_at(t, j);
        if j != i {
            lemma_entry_at(s, j);
        }
    }
    assert(entry_map(t) =~= entry_map(s).insert(k, v));
}

/// The lists of a map of lists.
pub open spec fn lists<K, T>(m: Map<K, Vec<T>>) -> Map<K, Seq<T>> {
    m.map_values(|v: Vec<T>| v@)
}

/// The list of `k`, or the empty list.
pub open spec fn list_of<K, T>(m: Map<K, Seq<T>>, k: K) -> Seq<T> {
    if m.contains_key(k) {
        m[k]
    } else {
        Seq::empty()
    }
}

proof fn lemma_entry_count<K, V>(s: Seq<(K, V)>)
    requires
        keys_distinct(s),
    ensures
        entry_map(s).dom().finite(),
        entry_map(s).len() == s.len(),
    decreases s.len(),
{
    let m = entry_map(s);
    if s.len() == 0 {
        assert(m.dom() =~= Set::<K>::empty());
    } else {
        let t = s.drop_last();
        let k = s.last().0;
        lemma_entry_count(t);
        assert forall|x: K| has_key(s, x) == (has_key(t, x) || x == k) by {
            if has_key(s, x) && x != k {
                let j = choose|j: int| 0 <= j < s.len() && s[j].0 == x;
                assert(t[j].0 == x);
            }
            if has_key(t, x) {
                let j = choose|j: int| 0 <= j < t.len() && t[j].0 == x;
                assert(s[j].0 == x);
            }
            if x == k {
                assert(s[s.len() - 1].0 == x);
            }
        }
        if has_key(t, k) {
            let j = choose|j: int| 0 <= j < t.len() && t[j].0 == k;
            assert(s[j].0 == s[s.len() - 1].0);
        }
        assert(m.dom() =~= entry_map(t).dom().insert(k));
    }
}

/// A finite map kept as a vector of entries with distinct keys.
#[derive(Clone, Debug)]
pub struct KeyedMap<K, V> {
    pub entries: Vec<(K, V)>,
}

impl<K, V> View for KeyedMap<K, V> {
    type V = Map<K, V>;

    open spec fn view(&self) -> Map<K, V> {
        entry_map(self.entries@)
    }
}

impl<K: SameKey, V> KeyedMap<K, V> {
    /// Keys are distinct.
    pub open spec fn wf(&self) -> bool {
        keys_distinct(self.entries@)
    }

    /// An empty map.
    pub fn new() -> (r: KeyedMap<K, V>)
        ensures
            r.wf(),
            r@ == Map::<K, V>::empty(),
            r.entries@.len() == 0,
    {
        let r = KeyedMap { entries: Vec::new() };
        assert(r@ =~= Map::<K, V>::empty());
        r
    }

    /// Position of the entry for `k`, if any.
    pub fn find(&self, k: &K) -> (r: Option<usize>)
        requires
            self.wf(),
        ensures
            r.is_some() == self@.contains_key(*k),
            r matches Some(i) ==> i < self.entries@.len() && self.entries@[i as int].0 == *k,
    {
        let mut i: usize = 0;
        while i < self.entries.len()
            invariant
                0 <= i <= self.entries@.len(),
                forall|j: int| 0 <= j < i ==> self.entries@[j].0 != *k,
            decreases self.entries@.len() - i,
        {
            if self.entries[i].0.same_key(k) {
                return Some(i);
            }
            i = i + 1;
        }
        None
    }

    /// The value stored for `k`, if any.
    pub fn get(&self, k: &K) -> (r: Option<&V>)
        requires
            self.wf(),
        ensures
            r.is_some() == self@.contains_key(*k),
            r matches Some(v) ==> *v == self@[*k],
    {
        match self.find(k) {
            Some(i) => {
                proof {
                    lemma_entry_at(self.entries@, i as int);
                }
                Some(&self.entries[i].1)
            },
            None => None,
        }
    }

    /// Stores `v` for `k`, replacing any earlier value.
    pub fn insert(&mut self, k: K, v: V)
        requires
            old(self).wf(),
        ensures
            final(self).wf(),
            final(self)@ == old(self)@.insert(k, v),
    {
        let ghost s = self.entries@;
        match self.find(&k) {
            Some(i) => {
                proof {
                    lemma_entry_map_update(s, i as int, v);
                }
                self.entries.set(i, (k, v));
            },
            None => {
                proof {
                    lemma_entry_map_insert_at(s, s.len() as int, k, v);
                    assert(s.insert(s.len() as int, (k, v)) =~= s.push((k, v)));
                }
                self.entries.push((k, v));
            },
        }
    }

    /// Removes the entry for `k`; returns whether there was one.
    pub fn remove(&mut self, k: &K) -> (r: bool)
        requires
            old(self).wf(),
        ensures
            final(self).wf(),
            final(self)@ == old(self)@.remove(*k),
            r == old(self)@.contains_key(*k),
    {
        let ghost s = self.entries@;
        match self.find(k) {
            Some(i) => {
                self.entries.remove(i);
                proof {
                    let t = self.entries@;
                    assert(t == s.remove(i as int));
                    assert forall|x: K| has_key(t, x) == (has_key(s, x) && x != *k) by {
                        if has_key(s, x) && x != *k {
                            let j = choose|j: int| 0 <= j < s.len() && s[j].0 == x;
                            if j < i {
                                assert(t[j].0 == x);
                            } else {
                                assert(t[j - 1].0 == x);
                            }
                        }
                        if has_key(t, x) {
                            let j = choose|j: int| 0 <= j < t.len() && t[j].0 == x;
                            if j < i {
                                assert(s[j].0 == x);
                            } else {
                                assert(s[j + 1].0 == x);
                            }
                        }
                    }
                    assert forall|x: K| #[trigger] entry_map(t).contains_key(x) implies entry_map(
                        t,
                    )[x] == entry_map(s)[x] by {
                        let j = choose|j: int| 0 <= j < t.len() && t[j].0 == x;
                        lemma_entry_at(t, j);
                        if j < i {
                            lemma_entry_at(s, j);
                        } else {
                            lemma_entry_at(s, j + 1);
                        }
                    }
                    assert(entry_map(t) =~= entry_map(s).remove(*k));
                }
                true
            },
            None => {
                assert(entry_map(s) =~= entry_map(s).remove(*k));
                false
            },
        }
    }

    /// Removes every entry.
    pub fn clear(&mut self)
        ensures
            final(self).wf(),
            final(self)@ == Map::<K, V>::empty(),
            final(self).entries@.len() == 0,
    {
        self.entries.clear();
        assert(self@ =~= Map::<K, V>::empty());
    }

    /// Number of entries.
    pub fn len(&self) -> (r: usize)
        requires
            self.wf(),
        ensures
            r == self@.len(),
    {
        proof {
            lemma_entry_count(self.entries@);
        }
        self.entries.len()
    }
}

impl<K: SameKey, T> KeyedMap<K, Vec<T>> {
    /// Appends `x` to the list of `k`, starting the list if `k` has none.
    pub fn append(&mut self, k: K, x: T)
        requires
            old(self).wf(),
        ensures
            final(self).wf(),
            lists(final(self)@) == lists(old(self)@).insert(k, list_of(lists(old(self)@), k).push(x)),
    {
        let ghost s = self.entries@;
        match self.find(&k) {
            Some(i) => {
                let mut list: Vec<T> = Vec::new();
                std::mem::swap(&mut list, &mut self.entries[i].1);
                proof {
                    lemma_entry_at(s, i as int);
                    assert(list@ == entry_map(s)[k]@);
                    assert(self.entries@.len() == s.len());
                }
                list.push(x);
                proof {
                    lemma_entry_map_update(s, i as int, list);
                }
                self.entries.set(i, (k, list));
                proof {
                    assert(self.entries@ == s.update(i as int, (k, list)));
                    assert(lists(self@) =~= lists(entry_map(s)).insert(k, list_of(lists(entry_map(s)), k).push(x)));
                }
            },
            None => {
                let mut list: Vec<T> = Vec::new();
                list.push(x);
                proof {
                    lemma_entry_map_insert_at(s, s.len() as int, k, list);
                    assert(s.insert(s.len() as int, (k, list)) =~= s.push((k, list)));
                }
                self.entries.push((k, list));
                proof {
                    assert(list@ =~= Seq::<T>::empty().push(x));
                    assert(lists(self@) =~= lists(entry_map(s)).insert(k, list_of(lists(entry_map(s)), k).push(x)));
                }
            },
        }
    }
}

/// Whether the keys of `s` are strictly ascending.
pub open spec fn keys_ascending<V>(s: Seq<(u64, V)>) -> bool {
    forall|i: int, j: int| 0 <= i < j < s.len() ==> s[i].0 < s[j].0
}

impl<T> KeyedMap<u64, Vec<T>> {
    /// Appends `x` to the list of `k`, keeping the keys ascending.
    pub fn append_sorted(&mut self, k: u64, x: T)
        requires
            old(self).wf(),
            keys_ascending(old(self).entries@),
        ensures
            final(self).wf(),
            keys_ascending(final(self).entries@),
            lists(final(self)@) == lists(old(self)@).insert(k, list_of(lists(old(self)@), k).push(x)),
    {
        let ghost s = self.entries@;
        let n = self.entries.len();
        let mut pos: usize = 0;
        while pos < n && self.entries[pos].0 < k
            invariant
                n == self.entries@.len(),
                0 <= pos <= n,
                forall|j: int| 0 <= j < pos ==> #[trigger] self.entries@[j].0 < k,
            decreases n - pos,
        {
            pos = pos + 1;
        }
        if pos < n && self.entries[pos].0 == k {
            let mut list: Vec<T> = Vec::new();
            std::mem::swap(&mut list, &mut self.entries[pos].1);
            proof {
                lemma_entry_at(s, pos as int);
            }
            list.push(x);
            proof {
                lemma_entry_map_update(s, pos as int, list);
            }
            self.entries.set(pos, (k, list));
            proof {
                assert(self.entries@ == s.update(pos as int, (k, list)));
                assert(lists(self@) =~= lists(entry_map(s)).insert(k, list_of(lists(entry_map(s)), k).push(x)));
            }
        } else {
            let mut list: Vec<T> = Vec::new();
            list.push(x);
            proof {
                assert forall|j: int| pos <= j < n implies #[trigger] s[j].0 > k by {
                    assert(s[pos as int].0 <= s[j].0);
                }
                if has_key(s, k) {
                    let j = choose|j: int| 0 <= j < s.len() && s[j].0 == k;
                    assert(false);
                }
                lemma_entry_map_insert_at(s, pos as int, k, list);
            }
            self.entries.insert(pos, (k, list));
            proof {
                assert(list@ =~= Seq::<T>::empty().push(x));
                assert(lists(self@) =~= lists(entry_map(s)).insert(k, list_of(lists(entry_map(s)), k).push(x)));
            }
        }
    }
}

impl SameKey for u64 {
    fn same_key(&self, other: &u64) -> (r: bool) {
        *self == *other
    }
}

} // verus!
