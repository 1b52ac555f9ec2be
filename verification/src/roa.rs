//! Route origin authorizations: which AS may announce which prefix.
use std::sync::Arc;
use patricia_tree::PatriciaMap;
use vstd::prelude::*;
use crate::addr;
use crate::addr::{IpAddr, IpNet};
use crate::bgp::Family;
use crate::lists;
use crate::path::Source;

verus! {

/// An authorization, as a source has announced it.
#[derive(PartialEq, Eq, Debug)]
pub struct Roa {
    pub max_length: u8,
    pub as_number: u32,
    pub source: Arc<Source>,
}

impl Clone for Roa {
    fn clone(&self) -> (r: Self)
        ensures
            r == *self,
    {
        Roa {
            max_length: self.max_length,
            as_number: self.as_number,
            source: self.source.clone(),
        }
    }
}

/// The map of the `patricia_tree` crate, from octets to values.
#[verifier::external_type_specification]
#[verifier::external_body]
#[verifier::reject_recursive_types(V)]
pub struct ExPatriciaMap<V>(PatriciaMap<V>);

/// The entries of a `PatriciaMap` of authorizations: for each key, the list under it.
pub uninterp spec fn roa_entries(m: PatriciaMap<Vec<Roa>>) -> Map<Seq<u8>, Seq<Roa>>;

/// No entries.
pub open spec fn no_roas() -> Map<Seq<u8>, Seq<Roa>> {
    Map::empty()
}

/// Whether the octets `a` come before the octets `b` in the order of a dictionary.
pub open spec fn octets_before(a: Seq<u8>, b: Seq<u8>) -> bool
    decreases a.len(),
{
    if b.len() == 0 {
        false
    } else if a.len() == 0 {
        true
    } else if a[0] != b[0] {
        a[0] < b[0]
    } else {
        octets_before(a.drop_first(), b.drop_first())
    }
}

/// Whether `s` lists the entries of `m` whose keys begin with `prefix`, each once, sorted by key.
pub open spec fn lists_prefix(
    s: Seq<(Seq<u8>, Seq<Roa>)>,
    m: Map<Seq<u8>, Seq<Roa>>,
    prefix: Seq<u8>,
) -> bool {
    &&& forall|i: int, j: int|
        0 <= i < j < s.len() ==> octets_before((#[trigger] s[i]).0, (#[trigger] s[j]).0)
    &&& forall|i: int|
        0 <= i < s.len() ==> m.contains_key((#[trigger] s[i]).0) && prefix.is_prefix_of(s[i].0)
            && s[i].1 == m[s[i].0]
    &&& forall|k: Seq<u8>|
        m.contains_key(k) && #[trigger] prefix.is_prefix_of(k) ==> exists|i: int|
            0 <= i < s.len() && (#[trigger] s[i]).0 == k
}

/// The entries of `m` whose keys begin with `prefix`, sorted by key.
pub open spec fn sorted_entries(m: Map<Seq<u8>, Seq<Roa>>, prefix: Seq<u8>) -> Seq<
    (Seq<u8>, Seq<Roa>),
> {
    choose|s: Seq<(Seq<u8>, Seq<Roa>)>| lists_prefix(s, m, prefix)
}

/// What a listing that hands out references shows.
pub open spec fn shown(v: Seq<(Vec<u8>, &Vec<Roa>)>) -> Seq<(Seq<u8>, Seq<Roa>)> {
    v.map_values(|e: (Vec<u8>, &Vec<Roa>)| (e.0@, e.1@))
}

/// `PatriciaMap::new`. The contract claims that the map it makes has no entries.
#[verifier::external_body]
fn roa_map_new() -> (r: PatriciaMap<Vec<Roa>>)
    ensures
        roa_entries(r) == no_roas(),
{
    PatriciaMap::new()
}

/// `PatriciaMap::clone`. The contract claims that the copy has the same lists under the same keys.
/// The authorizations in the lists are copied by the `clone` of `Roa`.
#[verifier::external_body]
fn roa_map_clone(m: &PatriciaMap<Vec<Roa>>) -> (r: PatriciaMap<Vec<Roa>>)
    ensures
        roa_entries(r) == roa_entries(*m),
{
    m.clone()
}

/// `PatriciaMap::len`. The contract claims that it counts the keys, and that it is zero exactly
/// when there are no entries.
#[verifier::external_body]
fn roa_map_len(m: &PatriciaMap<Vec<Roa>>) -> (r: usize)
    ensures
        r == roa_entries(*m).dom().len(),
        (r == 0) == (roa_entries(*m) == no_roas()),
{
    m.len()
}

/// `PatriciaMap::get_mut`. The contract claims that it gives access to the list under the key,
/// through which that list, and no other, can be changed, and that it gives none exactly when
/// there is no such list.
#[verifier::external_body]
fn roa_map_get_mut<'a>(m: &'a mut PatriciaMap<Vec<Roa>>, key: &Vec<u8>) -> (r: Option<
    &'a mut Vec<Roa>,
>)
    ensures
        match r {
            Some(e) => roa_entries(*old(m)).contains_key(key@) && e@ == roa_entries(*old(m))[key@]
                && roa_entries(*final(m)) == roa_entries(*old(m)).insert(key@, final(e)@),
            None => !roa_entries(*old(m)).contains_key(key@) && roa_entries(*final(m))
                == roa_entries(*old(m)),
        },
{
    m.get_mut(key)
}

/// `PatriciaMap::insert`. The contract claims that the map then has the list `e` under the key,
/// and its other entries as before.
#[verifier::external_body]
fn roa_map_insert(m: &mut PatriciaMap<Vec<Roa>>, key: &Vec<u8>, e: Vec<Roa>)
    ensures
        roa_entries(*final(m)) == roa_entries(*old(m)).insert(key@, e@),
{
    m.insert(key, e);
}

/// `PatriciaMap::remove`. The contract claims that the map then has no entry under the key, and
/// its other entries as before.
#[verifier::external_body]
fn roa_map_remove(m: &mut PatriciaMap<Vec<Roa>>, key: &Vec<u8>)
    ensures
        roa_entries(*final(m)) == roa_entries(*old(m)).remove(key@),
{
    m.remove(key);
}

/// `PatriciaMap::keys`. The contract claims that it hands out the keys of the entries, each once.
#[verifier::external_body]
fn roa_map_keys(m: &PatriciaMap<Vec<Roa>>) -> (r: Vec<Vec<u8>>)
    ensures
        forall|i: int| 0 <= i < r@.len() ==> roa_entries(*m).contains_key((#[trigger] r@[i])@),
        forall|k: Seq<u8>|
            #[trigger] roa_entries(*m).contains_key(k) ==> exists|i: int|
                0 <= i < r@.len() && (#[trigger] r@[i])@ == k,
        forall|i: int, j: int| 0 <= i < j < r@.len() ==> (#[trigger] r@[i])@ != (#[trigger] r@[j])@,
{
    m.keys().collect()
}

/// `PatriciaMap::iter_prefix`. The contract claims that it hands out the entries whose keys begin
/// with `prefix`, each once, sorted by key.
#[verifier::external_body]
fn roa_map_iter_prefix<'a>(m: &'a PatriciaMap<Vec<Roa>>, prefix: &'a Vec<u8>) -> (r: Vec<
    (Vec<u8>, &'a Vec<Roa>),
>)
    ensures
        lists_prefix(shown(r@), roa_entries(*m), prefix@),
{
    m.iter_prefix(prefix).collect()
}

proof fn lemma_octets_before_one_way(a: Seq<u8>, b: Seq<u8>)
    requires
        octets_before(a, b),
    ensures
        !octets_before(b, a),
    decreases a.len(),
{
    if a.len() > 0 && a[0] == b[0] {
        lemma_octets_before_one_way(a.drop_first(), b.drop_first());
    }
}

/// There is one sorted listing only.
proof fn lemma_listing_unique(
    s: Seq<(Seq<u8>, Seq<Roa>)>,
    t: Seq<(Seq<u8>, Seq<Roa>)>,
    m: Map<Seq<u8>, Seq<Roa>>,
    prefix: Seq<u8>,
)
    requires
        lists_prefix(s, m, prefix),
        lists_prefix(t, m, prefix),
    ensures
        s == t,
{
    lemma_listing_agrees(s, t, m, prefix, s.len());
    lemma_listing_agrees(t, s, m, prefix, t.len());
    assert(s =~= t);
}

proof fn lemma_listing_agrees(
    s: Seq<(Seq<u8>, Seq<Roa>)>,
    t: Seq<(Seq<u8>, Seq<Roa>)>,
    m: Map<Seq<u8>, Seq<Roa>>,
    prefix: Seq<u8>,
    n: nat,
)
    requires
        lists_prefix(s, m, prefix),
        lists_prefix(t, m, prefix),
        n <= s.len(),
    ensures
        n <= t.len(),
        forall|i: int| 0 <= i < n ==> s[i] == t[i],
    decreases n,
{
    if n > 0 {
        lemma_listing_agrees(s, t, m, prefix, (n - 1) as nat);
        let last = n - 1;
        let k = s[last].0;
        assert(prefix.is_prefix_of(k));
        let j = choose|j: int| 0 <= j < t.len() && (#[trigger] t[j]).0 == k;
        if j < last {
            assert(s[j] == t[j]);
            assert(octets_before(s[j].0, s[last].0));
            lemma_octets_before_one_way(k, k);
        }
        if j > last {
            let l = t[last].0;
            assert(octets_before(t[last].0, t[j].0));
            assert(prefix.is_prefix_of(l));
            let p = choose|p: int| 0 <= p < s.len() && (#[trigger] s[p]).0 == l;
            if p < last {
                assert(s[p] == t[p]);
                assert(octets_before(t[p].0, t[last].0));
                lemma_octets_before_one_way(l, l);
            }
            if p == last {
                lemma_octets_before_one_way(l, k);
            }
            if p > last {
                assert(octets_before(s[last].0, s[p].0));
                lemma_octets_before_one_way(l, k);
            }
        }
        assert(s[last].1 == m[k] && t[j].1 == m[k]);
    }
}

/// A sorted listing is the one that `sorted_entries` stands for.
pub proof fn lemma_sorted_entries(
    s: Seq<(Seq<u8>, Seq<Roa>)>,
    m: Map<Seq<u8>, Seq<Roa>>,
    prefix: Seq<u8>,
)
    requires
        lists_prefix(s, m, prefix),
    ensures
        sorted_entries(m, prefix) == s,
        lists_prefix(sorted_entries(m, prefix), m, prefix),
{
    lemma_listing_unique(s, sorted_entries(m, prefix), m, prefix);
}

proof fn lemma_octets_before_total(a: Seq<u8>, b: Seq<u8>)
    ensures
        a == b || octets_before(a, b) || octets_before(b, a),
    decreases a.len(),
{
    if a.len() == 0 && b.len() == 0 {
        assert(a =~= b);
    } else if a.len() > 0 && b.len() > 0 && a[0] == b[0] {
        lemma_octets_before_total(a.drop_first(), b.drop_first());
        assert(a =~= seq![a[0]] + a.drop_first());
        assert(b =~= seq![b[0]] + b.drop_first());
    }
}

proof fn lemma_octets_before_chain(a: Seq<u8>, b: Seq<u8>, c: Seq<u8>)
    requires
        octets_before(a, b),
        octets_before(b, c),
    ensures
        octets_before(a, c),
    decreases a.len(),
{
    if a.len() > 0 && a[0] == b[0] && b[0] == c[0] {
        lemma_octets_before_chain(a.drop_first(), b.drop_first(), c.drop_first());
    }
}

/// The sorted listing `s` with the entry `e` at its place.
pub open spec fn with_entry(s: Seq<(Seq<u8>, Seq<Roa>)>, e: (Seq<u8>, Seq<Roa>)) -> Seq<
    (Seq<u8>, Seq<Roa>),
>
    decreases s.len(),
{
    if s.len() == 0 || octets_before(s.last().0, e.0) {
        s.push(e)
    } else {
        with_entry(s.drop_last(), e).push(s.last())
    }
}

proof fn lemma_with_entry(s: Seq<(Seq<u8>, Seq<Roa>)>, e: (Seq<u8>, Seq<Roa>))
    requires
        forall|i: int, j: int|
            0 <= i < j < s.len() ==> octets_before((#[trigger] s[i]).0, (#[trigger] s[j]).0),
        forall|i: int| 0 <= i < s.len() ==> (#[trigger] s[i]).0 != e.0,
    ensures
        forall|i: int, j: int|
            0 <= i < j < with_entry(s, e).len() ==> octets_before(
                (#[trigger] with_entry(s, e)[i]).0,
                (#[trigger] with_entry(s, e)[j]).0,
            ),
        forall|x: (Seq<u8>, Seq<Roa>)| #[trigger]
            with_entry(s, e).contains(x) <==> s.contains(x) || x == e,
    decreases s.len(),
{
    let w = with_entry(s, e);
    if s.len() == 0 || octets_before(s.last().0, e.0) {
        assert forall|i: int, j: int| 0 <= i < j < w.len() implies octets_before(
            (#[trigger] w[i]).0,
            (#[trigger] w[j]).0,
        ) by {
            assert(w[i] == s[i]);
            if j == s.len() && i < s.len() - 1 {
                assert(octets_before(s[i].0, s[s.len() - 1].0));
                lemma_octets_before_chain(s[i].0, s.last().0, e.0);
            }
        }
        assert(w[s.len() as int] == e);
        assert forall|x: (Seq<u8>, Seq<Roa>)| s.contains(x) implies w.contains(x) by {
            let i = choose|i: int| 0 <= i < s.len() && s[i] == x;
            assert(w[i] == x);
        }
    } else {
        let t = s.drop_last();
        let last = s.last();
        lemma_with_entry(t, e);
        lemma_octets_before_total(last.0, e.0);
        assert(s[s.len() - 1].0 != e.0);
        let v = with_entry(t, e);
        assert(w == v.push(last));
        assert forall|i: int, j: int| 0 <= i < j < w.len() implies octets_before(
            (#[trigger] w[i]).0,
            (#[trigger] w[j]).0,
        ) by {
            assert(w[i] == v[i]);
            if j < v.len() {
                assert(w[j] == v[j]);
            } else {
                assert(v.contains(v[i]));
                if t.contains(v[i]) {
                    let l = choose|l: int| 0 <= l < t.len() && t[l] == v[i];
                    assert(s[l] == v[i] && s[s.len() - 1] == last);
                }
            }
        }
        assert(w[v.len() as int] == last);
        assert forall|x: (Seq<u8>, Seq<Roa>)| #[trigger] w.contains(x) <==> s.contains(x) || x
            == e by {
            if w.contains(x) {
                let i = choose|i: int| 0 <= i < w.len() && w[i] == x;
                if i < v.len() {
                    assert(v[i] == x);
                    assert(v.contains(x));
                    if t.contains(x) {
                        let l = choose|l: int| 0 <= l < t.len() && t[l] == x;
                        assert(s[l] == x);
                    }
                } else {
                    assert(s[s.len() - 1] == x);
                }
            }
            if s.contains(x) || x == e {
                if x != last {
                    if s.contains(x) {
                        let i = choose|i: int| 0 <= i < s.len() && s[i] == x;
                        assert(t[i] == x);
                    }
                    assert(v.contains(x));
                    let i = choose|i: int| 0 <= i < v.len() && v[i] == x;
                    assert(w[i] == x);
                }
            }
        }
    }
}

/// A new entry takes its place in the listing.
pub proof fn lemma_listing_with_entry(
    s: Seq<(Seq<u8>, Seq<Roa>)>,
    m: Map<Seq<u8>, Seq<Roa>>,
    prefix: Seq<u8>,
    key: Seq<u8>,
    e: Seq<Roa>,
)
    requires
        lists_prefix(s, m, prefix),
        !m.contains_key(key),
        prefix.is_prefix_of(key),
    ensures
        lists_prefix(with_entry(s, (key, e)), m.insert(key, e), prefix),
{
    let w = with_entry(s, (key, e));
    let n = m.insert(key, e);
    lemma_with_entry(s, (key, e));
    assert forall|i: int| 0 <= i < w.len() implies n.contains_key((#[trigger] w[i]).0)
        && prefix.is_prefix_of(w[i].0) && w[i].1 == n[w[i].0] by {
        assert(w.contains(w[i]));
        if s.contains(w[i]) {
            let l = choose|l: int| 0 <= l < s.len() && s[l] == w[i];
            assert(m.contains_key(s[l].0));
        }
    }
    assert forall|k: Seq<u8>| n.contains_key(k) && #[trigger] prefix.is_prefix_of(
        k,
    ) implies exists|i: int| 0 <= i < w.len() && (#[trigger] w[i]).0 == k by {
        let x = if k == key {
            (key, e)
        } else {
            let l = choose|l: int| 0 <= l < s.len() && (#[trigger] s[l]).0 == k;
            assert(s.contains(s[l]));
            s[l]
        };
        assert(w.contains(x));
        let i = choose|i: int| 0 <= i < w.len() && w[i] == x;
        assert(w[i].0 == k);
    }
}

/// A list that changes stays where it is in the listing.
pub proof fn lemma_listing_update(
    s: Seq<(Seq<u8>, Seq<Roa>)>,
    m: Map<Seq<u8>, Seq<Roa>>,
    prefix: Seq<u8>,
    i: int,
    e: Seq<Roa>,
)
    requires
        lists_prefix(s, m, prefix),
        0 <= i < s.len(),
    ensures
        lists_prefix(s.update(i, (s[i].0, e)), m.insert(s[i].0, e), prefix),
{
    let key = s[i].0;
    let w = s.update(i, (key, e));
    let n = m.insert(key, e);
    assert forall|j: int| 0 <= j < w.len() implies n.contains_key((#[trigger] w[j]).0)
        && prefix.is_prefix_of(w[j].0) && w[j].1 == n[w[j].0] by {
        assert(m.contains_key(s[j].0));
        if j < i {
            assert(octets_before(s[j].0, s[i].0));
            if s[j].0 == key {
                lemma_octets_before_one_way(key, key);
            }
        } else if j > i {
            assert(octets_before(s[i].0, s[j].0));
            if s[j].0 == key {
                lemma_octets_before_one_way(key, key);
            }
        }
    }
    assert forall|k: Seq<u8>| n.contains_key(k) && #[trigger] prefix.is_prefix_of(
        k,
    ) implies exists|j: int| 0 <= j < w.len() && (#[trigger] w[j]).0 == k by {
        assert(m.contains_key(s[i].0));
        let l = choose|l: int| 0 <= l < s.len() && (#[trigger] s[l]).0 == k;
        assert(w[l].0 == k);
    }
}

/// Finitely many entries have a sorted listing, whatever the prefix is, and `sorted_entries` is it.
pub proof fn law_sorted_entries(m: Map<Seq<u8>, Seq<Roa>>, prefix: Seq<u8>)
    requires
        m.dom().finite(),
    ensures
        lists_prefix(sorted_entries(m, prefix), m, prefix),
    decreases m.dom().len(),
{
    if m.dom().is_empty() {
        let none = Seq::<(Seq<u8>, Seq<Roa>)>::empty();
        assert forall|k: Seq<u8>| !m.contains_key(k) by {
            assert(!m.dom().contains(k));
        }
        assert(lists_prefix(none, m, prefix));
    } else {
        let key = m.dom().choose();
        let rest = m.remove(key);
        law_sorted_entries(rest, prefix);
        let s = sorted_entries(rest, prefix);
        assert(m.contains_key(key));
        assert(rest.insert(key, m[key]) =~= m);
        if prefix.is_prefix_of(key) {
            lemma_listing_with_entry(s, rest, prefix, key, m[key]);
        } else {
            assert forall|i: int| 0 <= i < s.len() implies m.contains_key((#[trigger] s[i]).0)
                && prefix.is_prefix_of(s[i].0) && s[i].1 == m[s[i].0] by {
                assert(rest.contains_key(s[i].0));
            }
            assert forall|k: Seq<u8>| m.contains_key(k) && #[trigger] prefix.is_prefix_of(
                k,
            ) implies exists|i: int| 0 <= i < s.len() && (#[trigger] s[i]).0 == k by {
                assert(rest.contains_key(k));
            }
            assert(lists_prefix(s, m, prefix));
        }
    }
}

/// The entries of `m` whose keys begin with `prefix`, sorted by key.
pub fn entries_under<'a>(m: &'a PatriciaMap<Vec<Roa>>, prefix: &'a Vec<u8>) -> (r: Vec<
    (Vec<u8>, &'a Vec<Roa>),
>)
    ensures
        shown(r@) == sorted_entries(roa_entries(*m), prefix@),
        lists_prefix(shown(r@), roa_entries(*m), prefix@),
{
    let r = roa_map_iter_prefix(m, prefix);
    proof {
        lemma_sorted_entries(shown(r@), roa_entries(*m), prefix@);
    }
    r
}

/// Whether the map has no entries.
pub fn no_entries(m: &PatriciaMap<Vec<Roa>>) -> (r: bool)
    ensures
        r == (roa_entries(*m) == no_roas()),
{
    roa_map_len(m) == 0
}

/// The authorizations that `address` has not announced.
pub open spec fn not_from(address: IpAddr) -> spec_fn(Roa) -> bool {
    |r: Roa| r.source.address != address
}

/// The entries that are left of `m` when all that `address` has announced is taken out. No empty
/// list is left.
pub open spec fn without_address(m: Map<Seq<u8>, Seq<Roa>>, address: IpAddr) -> Map<
    Seq<u8>,
    Seq<Roa>,
> {
    Map::new(
        |k: Seq<u8>| m.contains_key(k) && m[k].filter(not_from(address)).len() > 0,
        |k: Seq<u8>| m[k].filter(not_from(address)),
    )
}

/// Whether two authorizations say the same, and by the same source.
pub open spec fn same_roa(a: Roa, b: Roa) -> bool {
    a.source.address == b.source.address && a.max_length == b.max_length && a.as_number
        == b.as_number
}

/// Whether the list `e` holds an authorization that says the same as `roa`.
pub open spec fn knows(e: Seq<Roa>, roa: Roa) -> bool {
    exists|i: int| 0 <= i < e.len() && same_roa(#[trigger] e[i], roa)
}

/// The list under `key`, empty where there is none.
pub open spec fn list_at(m: Map<Seq<u8>, Seq<Roa>>, key: Seq<u8>) -> Seq<Roa> {
    if m.contains_key(key) {
        m[key]
    } else {
        Seq::empty()
    }
}

/// The entries of `m` with `roa` under `key`, added to the end of the list if it is new there.
pub open spec fn with_roa(m: Map<Seq<u8>, Seq<Roa>>, key: Seq<u8>, roa: Roa) -> Map<
    Seq<u8>,
    Seq<Roa>,
> {
    if knows(list_at(m, key), roa) {
        m
    } else {
        m.insert(key, list_at(m, key).push(roa))
    }
}

/// The key of a prefix: the octets of its address, then its mask.
pub open spec fn roa_key(net: IpNet) -> Seq<u8> {
    net.addr.spec_octets().push(net.mask)
}

/// The key of a prefix.
pub fn key_of(net: &IpNet) -> (r: Vec<u8>)
    ensures
        r@ == roa_key(*net),
{
    let mut key: Vec<u8> = net.addr.octets();
    key.push(net.mask);
    key
}

fn clear_entry(e: &mut Vec<Roa>, address: IpAddr)
    ensures
        final(e)@ == old(e)@.filter(not_from(address)),
{
    let ghost all = e@;
    let ghost mut done: int = 0;
    let mut i: usize = 0;
    proof {
        lists::lemma_filter_empty(all.take(0), not_from(address));
        assert(e@ =~= all.take(0).filter(not_from(address)) + all.skip(0));
    }
    while i != e.len()
        invariant
            0 <= done <= all.len(),
            i == all.take(done).filter(not_from(address)).len(),
            e@ == all.take(done).filter(not_from(address)) + all.skip(done),
        decreases all.len() - done,
    {
        proof {
            lists::lemma_filter_take(all, not_from(address), done);
            assert(e@[i as int] == all[done]);
        }
        if e[i].source.address == address {
            e.remove(i);
            assert(e@ =~= all.take(done).filter(not_from(address)) + all.skip(done + 1));
        } else {
            i += 1;
            assert(e@ =~= all.take(done + 1).filter(not_from(address)) + all.skip(done + 1));
        }
        proof {
            done = done + 1;
        }
    }
    proof {
        assert(all.skip(done).len() == 0);
        assert(all.take(done) =~= all);
        assert(e@ =~= all.filter(not_from(address)));
    }
}

fn clear_map(m: &mut PatriciaMap<Vec<Roa>>, address: IpAddr)
    ensures
        roa_entries(*final(m)) == without_address(roa_entries(*old(m)), address),
{
    let keys = roa_map_keys(m);
    let ghost before = roa_entries(*m);
    let ghost after = without_address(before, address);
    let mut i: usize = 0;
    while i < keys.len()
        invariant
            i <= keys@.len(),
            after == without_address(before, address),
            forall|j: int| 0 <= j < keys@.len() ==> before.contains_key((#[trigger] keys@[j])@),
            forall|j: int, l: int|
                0 <= j < l < keys@.len() ==> (#[trigger] keys@[j])@ != (#[trigger] keys@[l])@,
            forall|j: int|
                0 <= j < i ==> roa_entries(*m).contains_key((#[trigger] keys@[j])@)
                    == after.contains_key(keys@[j]@) && (after.contains_key(keys@[j]@)
                    ==> roa_entries(*m)[keys@[j]@] == after[keys@[j]@]),
            forall|j: int|
                i <= j < keys@.len() ==> roa_entries(*m).contains_key((#[trigger] keys@[j])@)
                    && roa_entries(*m)[keys@[j]@] == before[keys@[j]@],
            forall|k: Seq<u8>|
                #[trigger] roa_entries(*m).contains_key(k) ==> before.contains_key(k),
        decreases keys@.len() - i,
    {
        let ghost now = roa_entries(*m);
        let ghost key = keys@[i as int]@;
        let mut empty = false;
        match roa_map_get_mut(m, &keys[i]) {
            Some(e) => {
                clear_entry(e, address);
                empty = e.len() == 0;
            },
            None => {},
        }
        assert(roa_entries(*m) == now.insert(key, before[key].filter(not_from(address))));
        if empty {
            roa_map_remove(m, &keys[i]);
        }
        proof {
            assert forall|j: int| 0 <= j < i + 1 implies roa_entries(*m).contains_key(
                (#[trigger] keys@[j])@,
            ) == after.contains_key(keys@[j]@) && (after.contains_key(keys@[j]@) ==> roa_entries(
                *m,
            )[keys@[j]@] == after[keys@[j]@]) by {
                if j < i {
                    assert(keys@[j]@ != keys@[i as int]@);
                }
            }
            assert forall|j: int| i + 1 <= j < keys@.len() implies roa_entries(*m).contains_key(
                (#[trigger] keys@[j])@,
            ) && roa_entries(*m)[keys@[j]@] == before[keys@[j]@] by {
                assert(keys@[i as int]@ != keys@[j]@);
            }
        }
        i += 1;
    }
    proof {
        assert forall|k: Seq<u8>| #[trigger]
            roa_entries(*m).contains_key(k) == after.contains_key(k) by {
            if before.contains_key(k) {
                let j = choose|j: int| 0 <= j < keys@.len() && (#[trigger] keys@[j])@ == k;
                assert(keys@[j]@ == k);
            }
        }
        assert forall|k: Seq<u8>| after.contains_key(k) implies roa_entries(*m)[k] == after[k] by {
            assert(before.contains_key(k));
            let j = choose|j: int| 0 <= j < keys@.len() && (#[trigger] keys@[j])@ == k;
            assert(keys@[j]@ == k);
        }
        assert(roa_entries(*m) =~= after);
    }
}

fn find_roa(e: &Vec<Roa>, roa: &Roa) -> (r: bool)
    ensures
        r == knows(e@, *roa),
{
    let mut i: usize = 0;
    while i < e.len()
        invariant
            i <= e@.len(),
            forall|j: int| 0 <= j < i ==> !same_roa(#[trigger] e@[j], *roa),
        decreases e@.len() - i,
    {
        if e[i].source.address == roa.source.address && e[i].max_length == roa.max_length
            && e[i].as_number == roa.as_number {
            assert(same_roa(e@[i as int], *roa));
            return true;
        }
        i += 1;
    }
    false
}

fn insert_into(m: &mut PatriciaMap<Vec<Roa>>, key: &Vec<u8>, roa: Roa)
    ensures
        roa_entries(*final(m)) == with_roa(roa_entries(*old(m)), key@, roa),
{
    let ghost before = roa_entries(*m);
    match roa_map_get_mut(m, key) {
        Some(entry) => {
            if !find_roa(entry, &roa) {
                entry.push(roa);
            } else {
                assert(before.insert(key@, entry@) =~= before);
            }
        },
        None => {
            let mut e: Vec<Roa> = Vec::new();
            e.push(roa);
            assert(e@ =~= list_at(before, key@).push(roa));
            roa_map_insert(m, key, e);
        },
    }
}

/// The authorizations that have been announced, those of IPv4 and those of IPv6 prefixes.
pub struct RoaTable {
    pub v4: PatriciaMap<Vec<Roa>>,
    pub v6: PatriciaMap<Vec<Roa>>,
}

impl Clone for RoaTable {
    fn clone(&self) -> (r: Self)
        ensures
            roa_entries(r.v4) == roa_entries(self.v4),
            roa_entries(r.v6) == roa_entries(self.v6),
            self.wf() == r.wf(),
    {
        RoaTable { v4: roa_map_clone(&self.v4), v6: roa_map_clone(&self.v6) }
    }
}

/// Whether no two authorizations in `e` say the same.
pub open spec fn told_once(e: Seq<Roa>) -> bool {
    forall|i: int, j: int| 0 <= i < j < e.len() ==> !same_roa(#[trigger] e[i], #[trigger] e[j])
}

/// Whether `m` has finitely many keys, all of them of `n` octets, no list is empty, and no list
/// says a thing twice.
pub open spec fn well_keyed(m: Map<Seq<u8>, Seq<Roa>>, n: nat) -> bool {
    &&& m.dom().finite()
    &&& forall|k: Seq<u8>| #[trigger]
        m.contains_key(k) ==> k.len() == n && m[k].len() > 0 && told_once(m[k])
}

/// What is left of a list that says nothing twice says nothing twice.
proof fn lemma_told_once_filter(e: Seq<Roa>, pred: spec_fn(Roa) -> bool)
    requires
        told_once(e),
    ensures
        told_once(e.filter(pred)),
    decreases e.len(),
{
    if e.len() == 0 {
        lists::lemma_filter_empty(e, pred);
    } else {
        let t = e.drop_last();
        let x = e.last();
        assert(e =~= t.push(x));
        assert forall|i: int, j: int| 0 <= i < j < t.len() implies !same_roa(
            #[trigger] t[i],
            #[trigger] t[j],
        ) by {
            assert(t[i] == e[i] && t[j] == e[j]);
        }
        lemma_told_once_filter(t, pred);
        lists::lemma_filter_push(t, pred, x);
        let f = t.filter(pred);
        let g = e.filter(pred);
        assert forall|i: int, j: int| 0 <= i < j < g.len() implies !same_roa(
            #[trigger] g[i],
            #[trigger] g[j],
        ) by {
            assert(g[i] == f[i]);
            if j == f.len() {
                lists::lemma_filter_contains(t, pred, f[i]);
                assert(f.contains(f[i]));
                let l = choose|l: int| 0 <= l < t.len() && t[l] == f[i];
                assert(e[l] == f[i] && e[e.len() - 1] == x);
            } else {
                assert(g[j] == f[j]);
            }
        }
    }
}

/// Taking out what an address has announced leaves the entries well keyed.
proof fn lemma_well_keyed_without(m: Map<Seq<u8>, Seq<Roa>>, n: nat, address: IpAddr)
    requires
        well_keyed(m, n),
    ensures
        well_keyed(without_address(m, address), n),
{
    let t = without_address(m, address);
    assert forall|k: Seq<u8>| #[trigger] t.contains_key(k) implies k.len() == n && t[k].len() > 0
        && told_once(t[k]) by {
        assert(m.contains_key(k));
        lemma_told_once_filter(m[k], not_from(address));
    }
    vstd::set_lib::lemma_set_subset_finite(m.dom(), t.dom());
}

/// Adding an authorization under a key of `n` octets leaves the entries well keyed.
proof fn lemma_well_keyed_with(m: Map<Seq<u8>, Seq<Roa>>, n: nat, key: Seq<u8>, roa: Roa)
    requires
        well_keyed(m, n),
        key.len() == n,
    ensures
        well_keyed(with_roa(m, key, roa), n),
{
    let t = with_roa(m, key, roa);
    let e = list_at(m, key);
    if !knows(e, roa) {
        assert forall|i: int, j: int| 0 <= i < j < t[key].len() implies !same_roa(
            #[trigger] t[key][i],
            #[trigger] t[key][j],
        ) by {
            assert(t[key][i] == e[i]);
            if j < e.len() {
                assert(m.contains_key(key));
                assert(t[key][j] == e[j]);
            }
        }
    }
}

impl RoaTable {
    /// There are finitely many keys, prefixes of the kind that the map is for, no list is empty, and
    /// no list says a thing twice.
    pub open spec fn wf(self) -> bool {
        well_keyed(roa_entries(self.v4), 5) && well_keyed(roa_entries(self.v6), 17)
    }

    /// A table without authorizations.
    pub fn new() -> (r: RoaTable)
        ensures
            r.wf(),
            roa_entries(r.v4) == no_roas(),
            roa_entries(r.v6) == no_roas(),
    {
        RoaTable { v4: roa_map_new(), v6: roa_map_new() }
    }

    /// The authorizations of a family.
    pub open spec fn spec_t(self, family: Family) -> PatriciaMap<Vec<Roa>> {
        if family == Family::Ipv4Uc {
            self.v4
        } else {
            self.v6
        }
    }

    /// The authorizations of a family: those of IPv4 prefixes for `Family::Ipv4Uc`, those of IPv6
    /// prefixes for any other.
    pub fn t(&self, family: Family) -> (r: &PatriciaMap<Vec<Roa>>)
        ensures
            *r == self.spec_t(family),
    {
        if family == Family::Ipv4Uc {
            return &self.v4;
        }
        &self.v6
    }

    /// Takes out all that the address of `source` has announced.
    pub fn clear(&mut self, source: Arc<Source>)
        ensures
            old(self).wf() ==> final(self).wf(),
            roa_entries(final(self).v4) == without_address(
                roa_entries(old(self).v4),
                source.address,
            ),
            roa_entries(final(self).v6) == without_address(
                roa_entries(old(self).v6),
                source.address,
            ),
    {
        proof {
            if self.wf() {
                lemma_well_keyed_without(roa_entries(self.v4), 5, source.address);
                lemma_well_keyed_without(roa_entries(self.v6), 17, source.address);
            }
        }
        clear_map(&mut self.v4, source.address);
        clear_map(&mut self.v6, source.address);
    }

    /// Adds the authorization `roa` for the prefix `net`, if it is new there.
    pub fn insert(&mut self, net: IpNet, roa: Roa)
        ensures
            old(self).wf() ==> final(self).wf(),
            net.spec_is_v6() ==> final(self).v4 == old(self).v4 && roa_entries(final(self).v6)
                == with_roa(roa_entries(old(self).v6), roa_key(net), roa),
            !net.spec_is_v6() ==> final(self).v6 == old(self).v6 && roa_entries(final(self).v4)
                == with_roa(roa_entries(old(self).v4), roa_key(net), roa),
    {
        let key = key_of(&net);
        proof {
            addr::lemma_octets_len(net.addr.value(), net.addr.width());
            if self.wf() && net.spec_is_v6() {
                lemma_well_keyed_with(roa_entries(self.v6), 17, key@, roa);
            } else if self.wf() {
                lemma_well_keyed_with(roa_entries(self.v4), 5, key@, roa);
            }
        }
        if net.is_v6() {
            insert_into(&mut self.v6, &key, roa);
        } else {
            insert_into(&mut self.v4, &key, roa);
        }
    }
}

/// The prefix that a key stands for.
pub open spec fn net_of_key(key: Seq<u8>) -> IpNet {
    if key.len() == 17 {
        IpNet { addr: IpAddr::V6(addr::be_value(key.take(16)) as u128), mask: key[16] }
    } else {
        IpNet { addr: IpAddr::V4(addr::be_value(key.take(4)) as u32), mask: key[4] }
    }
}

/// The prefix that a key stands for.
pub fn to_net(key: &Vec<u8>) -> (r: IpNet)
    requires
        key@.len() == 5 || key@.len() == 17,
    ensures
        r == net_of_key(key@),
{
    if key.len() == 17 {
        IpNet { addr: IpAddr::from_v6_octets(key), mask: key[16] }
    } else {
        IpNet { addr: IpAddr::from_v4_octets(key), mask: key[4] }
    }
}

/// The key of a prefix stands for that prefix.
pub proof fn law_key_stands_for_prefix(net: IpNet)
    ensures
        net_of_key(roa_key(net)) == net,
{
    let n = net.addr.width();
    addr::lemma_octets_len(net.addr.value(), n);
    addr::lemma_pow256();
    addr::lemma_octets_value(net.addr.value(), n);
    assert(roa_key(net).take(n as int) =~= net.addr.spec_octets());
}

/// An authorization that is announced again changes nothing.
pub proof fn law_announced_again(m: Map<Seq<u8>, Seq<Roa>>, key: Seq<u8>, roa: Roa)
    ensures
        with_roa(with_roa(m, key, roa), key, roa) == with_roa(m, key, roa),
        knows(list_at(with_roa(m, key, roa), key), roa),
{
    let t = with_roa(m, key, roa);
    if !knows(list_at(m, key), roa) {
        let e = list_at(t, key);
        assert(same_roa(e[e.len() - 1], roa));
    }
}

/// An announcement leaves the lists of other prefixes as they are, and adds at most to the end of
/// its own.
pub proof fn law_announcement_adds(
    m: Map<Seq<u8>, Seq<Roa>>,
    key: Seq<u8>,
    roa: Roa,
    other: Seq<u8>,
)
    ensures
        list_at(with_roa(m, key, roa), other) == if other == key && !knows(list_at(m, key), roa) {
            list_at(m, key).push(roa)
        } else {
            list_at(m, other)
        },
{
}

/// When an address is cleared, each list keeps what others have announced, in the order it had,
/// and nothing else. Clearing it again changes nothing.
pub proof fn law_clear_keeps_others(m: Map<Seq<u8>, Seq<Roa>>, address: IpAddr, key: Seq<u8>)
    ensures
        list_at(without_address(m, address), key) == list_at(m, key).filter(not_from(address)),
        without_address(without_address(m, address), address) == without_address(m, address),
{
    let t = without_address(m, address);
    lists::lemma_filter_empty(Seq::<Roa>::empty(), not_from(address));
    if m.contains_key(key) && !t.contains_key(key) {
        assert(m[key].filter(not_from(address)) =~= Seq::<Roa>::empty());
    }
    assert forall|k: Seq<u8>| #[trigger] t.contains_key(k) implies t[k].filter(not_from(address))
        == t[k] by {
        let s = t[k];
        assert forall|i: int| 0 <= i < s.len() implies not_from(address)(#[trigger] s[i]) by {
            lists::lemma_filter_contains(m[k], not_from(address), s[i]);
            assert(s.contains(s[i]));
        }
        lists::lemma_filter_all(s, not_from(address));
    }
    assert(without_address(t, address) =~= t);
}

/// An authorization is added to the end of the list of its prefix, unless its source has already
/// announced one there with the same length and AS number. Then nothing changes. Another source,
/// length or AS number makes another authorization.
pub proof fn law_what_is_new(m: Map<Seq<u8>, Seq<Roa>>, key: Seq<u8>, roa: Roa)
    ensures
        ({
            let e = list_at(m, key);
            let known = exists|i: int|
                0 <= i < e.len() && (#[trigger] e[i]).source.address == roa.source.address
                    && e[i].max_length == roa.max_length && e[i].as_number == roa.as_number;
            &&& known ==> with_roa(m, key, roa) == m
            &&& !known ==> list_at(with_roa(m, key, roa), key) == e.push(roa)
            &&& m.contains_key(key) ==> e == m[key]
            &&& !m.contains_key(key) ==> e.len() == 0
        }),
{
    let e = list_at(m, key);
    if knows(e, roa) {
        let i = choose|i: int| 0 <= i < e.len() && same_roa(#[trigger] e[i], roa);
        assert(e[i].source.address == roa.source.address);
    }
    if exists|i: int|
        0 <= i < e.len() && (#[trigger] e[i]).source.address == roa.source.address
            && e[i].max_length == roa.max_length && e[i].as_number == roa.as_number {
        let i = choose|i: int|
            0 <= i < e.len() && (#[trigger] e[i]).source.address == roa.source.address
                && e[i].max_length == roa.max_length && e[i].as_number == roa.as_number;
        assert(same_roa(e[i], roa));
    }
}

/// When an address is cleared, an authorization stays exactly when another address has announced
/// it, and a prefix exactly when one of its authorizations does.
pub proof fn law_what_is_cleared(m: Map<Seq<u8>, Seq<Roa>>, a: IpAddr, key: Seq<u8>, r: Roa)
    ensures
        ({
            let after = without_address(m, a);
            &&& list_at(after, key).contains(r) == (list_at(m, key).contains(r) && r.source.address
                != a)
            &&& after.contains_key(key) == (m.contains_key(key) && exists|i: int|
                0 <= i < m[key].len() && (#[trigger] m[key][i]).source.address != a)
            &&& list_at(after, key).len() <= list_at(m, key).len()
        }),
{
    law_clear_keeps_others(m, a, key);
    let e = list_at(m, key);
    lists::lemma_filter_contains(e, not_from(a), r);
    e.lemma_filter_len(not_from(a));
    if m.contains_key(key) {
        let f = m[key].filter(not_from(a));
        if f.len() > 0 {
            assert(f.contains(f[0]));
            lists::lemma_filter_contains(m[key], not_from(a), f[0]);
            let i = choose|i: int| 0 <= i < m[key].len() && m[key][i] == f[0];
            assert(m[key][i].source.address != a);
        }
        if exists|i: int| 0 <= i < m[key].len() && (#[trigger] m[key][i]).source.address != a {
            let i = choose|i: int|
                0 <= i < m[key].len() && (#[trigger] m[key][i]).source.address != a;
            assert(m[key].contains(m[key][i]));
            lists::lemma_filter_contains(m[key], not_from(a), m[key][i]);
        }
    }
}

/// The key of a prefix is made of the octets of its address and of its mask behind them.
pub proof fn law_key_of_a_prefix(net: IpNet, i: int)
    ensures
        roa_key(net).len() == net.addr.width() + 1,
        0 <= i < net.addr.width() ==> roa_key(net)[i] == net.addr.spec_octets()[i],
        roa_key(net)[net.addr.width() as int] == net.mask,
{
    addr::lemma_octets_len(net.addr.value(), net.addr.width());
}

/// IPv4 unicast routes are held against the authorizations of IPv4 prefixes, and all others against
/// those of IPv6 prefixes.
pub proof fn law_table_of_a_family(t: RoaTable, f: Family)
    ensures
        f == Family::Ipv4Uc ==> t.spec_t(f) == t.v4,
        f != Family::Ipv4Uc ==> t.spec_t(f) == t.v6,
{
}

/// Keys are sorted like the words of a dictionary: what two keys begin with alike does not count,
/// the smaller of the first octets that differ comes first, and so does a key that ends there.
pub proof fn law_octets_before(p: Seq<u8>, a: Seq<u8>, b: Seq<u8>)
    ensures
        octets_before(p + a, p + b) == octets_before(a, b),
        a.len() == 0 ==> octets_before(a, b) == (b.len() > 0),
        b.len() == 0 ==> !octets_before(a, b),
        a.len() > 0 && b.len() > 0 && a[0] != b[0] ==> octets_before(a, b) == (a[0] < b[0]),
        !octets_before(a, a),
    decreases p.len(),
{
    if octets_before(a, a) {
        lemma_octets_before_one_way(a, a);
    }
    if p.len() == 0 {
        assert(p + a =~= a && p + b =~= b);
    } else {
        let q = p.drop_first();
        assert((p + a).drop_first() =~= q + a);
        assert((p + b).drop_first() =~= q + b);
        law_octets_before(q, a, b);
    }
}

} // verus!
