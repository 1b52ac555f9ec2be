//! A small map that keeps its entries in insertion order.
use vstd::prelude::*;

verus! {

/// A type whose values can be told apart, and so can serve as keys of a `VecMap`.
pub trait Key: Sized {
    /// What a key stands for: two keys are the same when their identities are equal.
    type Id;

    /// The identity of a key.
    spec fn id(self) -> Self::Id;

    /// Whether two keys have the same identity.
    fn same(&self, other: &Self) -> (r: bool)
        ensures
            r == (self.id() == other.id()),
    ;
}

impl Key for String {
    type Id = Seq<char>;

    open spec fn id(self) -> Seq<char> {
        self@
    }

    fn same(&self, other: &Self) -> (r: bool) {
        *self == *other
    }
}

/// Whether `k` is the identity of one of the keys in `s`.
pub open spec fn has_key<K: Key, V>(s: Seq<(K, V)>, k: K::Id) -> bool {
    exists|i: int| 0 <= i < s.len() && (#[trigger] s[i]).0.id() == k
}

/// The position of the entry for `k` in `s`.
pub open spec fn key_pos<K: Key, V>(s: Seq<(K, V)>, k: K::Id) -> int {
    choose|i: int| 0 <= i < s.len() && (#[trigger] s[i]).0.id() == k
}

/// Whether no key occurs twice in `s`.
pub open spec fn distinct_keys<K: Key, V>(s: Seq<(K, V)>) -> bool {
    forall|i: int, j: int|
        0 <= i < j < s.len() ==> (#[trigger] s[i]).0.id() != (#[trigger] s[j]).0.id()
}

/// The map that the entries of `s` make up.
pub open spec fn map_of<K: Key, V>(s: Seq<(K, V)>) -> Map<K::Id, V> {
    Map::new(|k: K::Id| has_key(s, k), |k: K::Id| s[key_pos(s, k)].1)
}

/// A map from keys to values, kept as a list of entries in which no key occurs twice.
pub struct VecMap<K, V> {
    /// The entries, in the order in which their keys came in.
    pub entries: Vec<(K, V)>,
}

/// The entry at `i` is what the map holds for its key.
pub proof fn lemma_entry<K: Key, V>(s: Seq<(K, V)>, i: int)
    requires
        distinct_keys(s),
        0 <= i < s.len(),
    ensures
        has_key(s, s[i].0.id()),
        key_pos(s, s[i].0.id()) == i,
        map_of(s).contains_key(s[i].0.id()),
        map_of(s)[s[i].0.id()] == s[i].1,
{
    let k = s[i].0.id();
    let j = key_pos(s, k);
    assert(0 <= j < s.len() && s[j].0.id() == k);
    if i < j {
        assert(s[i].0.id() != s[j].0.id());
    }
    if j < i {
        assert(s[j].0.id() != s[i].0.id());
    }
}

/// Every key of the map has an entry.
pub proof fn lemma_key<K: Key, V>(s: Seq<(K, V)>, k: K::Id)
    requires
        map_of(s).contains_key(k),
    ensures
        0 <= key_pos(s, k) < s.len(),
        s[key_pos(s, k)].0.id() == k,
        map_of(s)[k] == s[key_pos(s, k)].1,
{
}

/// Giving the entry at `i` another value changes the map at its key only.
pub proof fn lemma_update<K: Key, V>(s: Seq<(K, V)>, i: int, v: V)
    requires
        distinct_keys(s),
        0 <= i < s.len(),
    ensures
        distinct_keys(s.update(i, (s[i].0, v))),
        map_of(s.update(i, (s[i].0, v))) == map_of(s).insert(s[i].0.id(), v),
{
    let t = s.update(i, (s[i].0, v));
    assert forall|a: int, b: int| 0 <= a < b < t.len() implies (#[trigger] t[a]).0.id() != (
    #[trigger] t[b]).0.id() by {
        assert(t[a].0 == s[a].0 && t[b].0 == s[b].0);
    }
    lemma_entry(t, i);
    assert forall|k: K::Id| #[trigger] has_key(t, k) == has_key(s, k) by {
        if has_key(t, k) {
            let a = key_pos(t, k);
            assert(s[a].0.id() == k);
        }
        if has_key(s, k) {
            let a = key_pos(s, k);
            assert(t[a].0.id() == k);
        }
    }
    lemma_entry(s, i);
    assert forall|k: K::Id| map_of(s).contains_key(k) && k != s[i].0.id() implies map_of(t)[k]
        == map_of(s)[k] by {
        lemma_key(s, k);
        let a = key_pos(s, k);
        assert(t[a] == s[a]);
        lemma_entry(t, a);
    }
    assert(map_of(t) =~= map_of(s).insert(s[i].0.id(), v));
}

/// Adding an entry under a new key adds it to the map.
pub proof fn lemma_push<K: Key, V>(s: Seq<(K, V)>, e: (K, V))
    requires
        distinct_keys(s),
        !has_key(s, e.0.id()),
    ensures
        distinct_keys(s.push(e)),
        map_of(s.push(e)) == map_of(s).insert(e.0.id(), e.1),
{
    let t = s.push(e);
    assert forall|a: int, b: int| 0 <= a < b < t.len() implies (#[trigger] t[a]).0.id() != (
    #[trigger] t[b]).0.id() by {
        assert(t[a] == s[a]);
        if b < s.len() {
            assert(t[b] == s[b]);
        }
    }
    lemma_entry(t, s.len() as int);
    assert forall|k: K::Id| #[trigger] has_key(t, k) == (has_key(s, k) || k == e.0.id()) by {
        if has_key(t, k) {
            let a = key_pos(t, k);
            if a < s.len() {
                assert(s[a].0.id() == k);
            }
        }
        if has_key(s, k) {
            let a = key_pos(s, k);
            assert(t[a].0.id() == k);
        }
        if k == e.0.id() {
            assert(t[s.len() as int].0.id() == k);
        }
    }
    assert forall|k: K::Id| map_of(s).contains_key(k) implies map_of(t)[k] == map_of(s)[k] by {
        lemma_key(s, k);
        let a = key_pos(s, k);
        assert(t[a] == s[a]);
        lemma_entry(t, a);
    }
    assert(map_of(t) =~= map_of(s).insert(e.0.id(), e.1));
}

/// Taking the entry at `i` out takes its key out of the map.
pub proof fn lemma_remove<K: Key, V>(s: Seq<(K, V)>, i: int)
    requires
        distinct_keys(s),
        0 <= i < s.len(),
    ensures
        distinct_keys(s.remove(i)),
        map_of(s.remove(i)) == map_of(s).remove(s[i].0.id()),
{
    let t = s.remove(i);
    assert forall|a: int, b: int| 0 <= a < b < t.len() implies (#[trigger] t[a]).0.id() != (
    #[trigger] t[b]).0.id() by {
        let a0 = if a < i { a } else { a + 1 };
        let b0 = if b < i { b } else { b + 1 };
        assert(t[a] == s[a0] && t[b] == s[b0]);
    }
    assert forall|k: K::Id| #[trigger] has_key(t, k) == (has_key(s, k) && k != s[i].0.id()) by {
        if has_key(t, k) {
            let a = key_pos(t, k);
            let a0 = if a < i { a } else { a + 1 };
            assert(t[a] == s[a0]);
            if a0 < i {
                assert(s[a0].0.id() != s[i].0.id());
            } else {
                assert(s[i].0.id() != s[a0].0.id());
            }
        }
        if has_key(s, k) && k != s[i].0.id() {
            let a = key_pos(s, k);
            let a1 = if a < i { a } else { a - 1 };
            assert(t[a1] == s[a]);
        }
    }
    assert forall|k: K::Id| map_of(s).contains_key(k) && k != s[i].0.id() implies map_of(t)[k]
        == map_of(s)[k] by {
        lemma_key(s, k);
        let a = key_pos(s, k);
        let a1 = if a < i { a } else { a - 1 };
        assert(t[a1] == s[a]);
        lemma_entry(t, a1);
    }
    assert(map_of(t) =~= map_of(s).remove(s[i].0.id()));
}

/// Two lists of entries with the same keys in the same order make up maps with the same keys, and
/// both hold at each key what stands beside it.
pub proof fn lemma_same_keys<K: Key, V, W>(s: Seq<(K, V)>, t: Seq<(K, W)>)
    requires
        distinct_keys(s),
        s.len() == t.len(),
        forall|i: int| 0 <= i < s.len() ==> (#[trigger] s[i]).0 == t[i].0,
    ensures
        distinct_keys(t),
        map_of(t).dom() == map_of(s).dom(),
        forall|k: K::Id| #[trigger]
            map_of(s).contains_key(k) ==> map_of(s)[k] == s[key_pos(s, k)].1 && map_of(t)[k]
                == t[key_pos(s, k)].1,
{
    assert forall|i: int, j: int| 0 <= i < j < t.len() implies (#[trigger] t[i]).0.id() != (
    #[trigger] t[j]).0.id() by {
        assert(s[i].0 == t[i].0 && s[j].0 == t[j].0);
    }
    assert forall|k: K::Id| #[trigger] has_key(t, k) == has_key(s, k) by {
        if has_key(s, k) {
            let i = key_pos(s, k);
            assert(s[i].0 == t[i].0);
        }
        if has_key(t, k) {
            let i = key_pos(t, k);
            assert(s[i].0 == t[i].0);
        }
    }
    assert(map_of(t).dom() =~= map_of(s).dom());
    assert forall|k: K::Id| #[trigger] map_of(s).contains_key(k) implies map_of(s)[k]
        == s[key_pos(s, k)].1 && map_of(t)[k] == t[key_pos(s, k)].1 by {
        lemma_key(s, k);
        let i = key_pos(s, k);
        assert(s[i].0 == t[i].0);
        lemma_entry(t, i);
    }
}

/// The map has as many keys as there are entries.
pub proof fn lemma_len<K: Key, V>(s: Seq<(K, V)>)
    requires
        distinct_keys(s),
    ensures
        map_of(s).dom().finite(),
        map_of(s).dom().len() == s.len(),
    decreases s.len(),
{
    if s.len() == 0 {
        assert(map_of(s).dom() =~= Set::<K::Id>::empty());
    } else {
        let i = s.len() - 1;
        lemma_remove(s, i);
        lemma_len(s.remove(i));
        lemma_entry(s, i);
        assert(map_of(s).dom() =~= map_of(s.remove(i)).dom().insert(s[i].0.id()));
    }
}

impl<K: Key, V> View for VecMap<K, V> {
    type V = Map<K::Id, V>;

    open spec fn view(&self) -> Map<K::Id, V> {
        map_of(self.entries@)
    }
}

impl<K: Key, V> VecMap<K, V> {
    /// No key occurs twice.
    pub open spec fn wf(self) -> bool {
        distinct_keys(self.entries@)
    }

    /// An empty map.
    pub fn new() -> (r: Self)
        ensures
            r.wf(),
            r@ == Map::<K::Id, V>::empty(),
            r.entries@.len() == 0,
    {
        let r = VecMap { entries: Vec::new() };
        assert(r@ =~= Map::<K::Id, V>::empty());
        r
    }

    /// The number of entries.
    pub fn len(&self) -> (r: usize)
        requires
            self.wf(),
        ensures
            r == self@.dom().len(),
            r == self.entries@.len(),
    {
        proof {
            lemma_len(self.entries@);
        }
        self.entries.len()
    }

    /// The position of the entry for `k`.
    pub fn find(&self, k: &K) -> (r: Option<usize>)
        requires
            self.wf(),
        ensures
            match r {
                Some(i) => i < self.entries@.len() && self.entries@[i as int].0.id() == k.id()
                    && self@.contains_key(k.id()) && self@[k.id()] == self.entries@[i as int].1,
                None => !self@.contains_key(k.id()),
            },
    {
        let mut i: usize = 0;
        while i < self.entries.len()
            invariant
                i <= self.entries@.len(),
                self.wf(),
                forall|j: int| 0 <= j < i ==> (#[trigger] self.entries@[j]).0.id() != k.id(),
            decreases self.entries@.len() - i,
        {
            if self.entries[i].0.same(k) {
                proof {
                    lemma_entry(self.entries@, i as int);
                }
                return Some(i);
            }
            i += 1;
        }
        None
    }

    /// Whether the map holds a value for `k`.
    pub fn contains_key(&self, k: &K) -> (r: bool)
        requires
            self.wf(),
        ensures
            r == self@.contains_key(k.id()),
    {
        self.find(k).is_some()
    }

    /// The value for `k`.
    pub fn get(&self, k: &K) -> (r: Option<&V>)
        requires
            self.wf(),
        ensures
            match r {
                Some(v) => self@.contains_key(k.id()) && *v == self@[k.id()],
                None => !self@.contains_key(k.id()),
            },
    {
        match self.find(k) {
            Some(i) => Some(&self.entries[i].1),
            None => None,
        }
    }

    /// The value for `k`, to be changed in place.
    pub fn get_mut(&mut self, k: &K) -> (r: Option<&mut V>)
        requires
            old(self).wf(),
        ensures
            final(self).wf(),
            match r {
                Some(v) => old(self)@.contains_key(k.id()) && *v == old(self)@[k.id()]
                    && final(self)@ == old(self)@.insert(k.id(), *final(v)),
                None => !old(self)@.contains_key(k.id()) && *final(self) == *old(self),
            },
    {
        match self.find(k) {
            Some(i) => {
                proof {
                    let s = self.entries@;
                    assert forall|v: V|
                        distinct_keys(#[trigger] s.update(i as int, (s[i as int].0, v))) && map_of(
                            s.update(i as int, (s[i as int].0, v)),
                        ) == map_of(s).insert(k.id(), v) by {
                        lemma_update(s, i as int, v);
                    }
                }
                Some(&mut self.entries[i].1)
            },
            None => None,
        }
    }

    /// Makes the map hold `v` for `k`, and gives back the value it held before.
    pub fn insert(&mut self, k: K, v: V) -> (r: Option<V>)
        requires
            old(self).wf(),
        ensures
            final(self).wf(),
            final(self)@ == old(self)@.insert(k.id(), v),
            match r {
                Some(w) => old(self)@.contains_key(k.id()) && w == old(self)@[k.id()],
                None => !old(self)@.contains_key(k.id()),
            },
    {
        match self.find(&k) {
            Some(i) => {
                proof {
                    lemma_update(self.entries@, i as int, v);
                }
                let mut before = v;
                std::mem::swap(&mut self.entries[i].1, &mut before);
                Some(before)
            },
            None => {
                proof {
                    lemma_push(self.entries@, (k, v));
                }
                self.entries.push((k, v));
                None
            },
        }
    }

    /// Takes `k` out of the map, and gives back the value it held.
    pub fn remove(&mut self, k: &K) -> (r: Option<V>)
        requires
            old(self).wf(),
        ensures
            final(self).wf(),
            final(self)@ == old(self)@.remove(k.id()),
            match r {
                Some(w) => old(self)@.contains_key(k.id()) && w == old(self)@[k.id()],
                None => !old(self)@.contains_key(k.id()),
            },
    {
        match self.find(k) {
            Some(i) => {
                let e = self.entries.remove(i);
                proof {
                    lemma_remove(old(self).entries@, i as int);
                }
                Some(e.1)
            },
            None => {
                assert(old(self)@.remove(k.id()) =~= old(self)@);
                None
            },
        }
    }
}

} // verus!
