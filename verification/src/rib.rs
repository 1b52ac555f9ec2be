//! The routes to the destinations of one family.
use std::sync::Arc;
use vstd::prelude::*;
use crate::addr::IpAddr;
use crate::bgp::{Family, Nlri};
use crate::lists;
use crate::vecmap;
use crate::vecmap::{Key, VecMap};
use crate::path;
use crate::path::{Destination, Path, PathAttr, Source, TableUpdate};

verus! {

/// The routes to the destinations of one family.
pub type Rib = VecMap<Nlri, Destination>;

/// The routes to each destination, the best one first.
pub open spec fn rib_map(s: Seq<(Nlri, Destination)>) -> Map<Nlri, Seq<Path>> {
    vecmap::map_of(s).map_values(|d: Destination| d.entry@)
}

/// The destinations and their routes, in the order in which they are walked.
pub open spec fn rib_list(s: Seq<(Nlri, Destination)>) -> Seq<(Nlri, Seq<Path>)> {
    s.map_values(|e: (Nlri, Destination)| (e.0, e.1.entry@))
}

/// Whether no two routes in `s` come from the same address.
pub open spec fn one_per_source(s: Seq<Path>) -> bool {
    forall|i: int, j: int|
        0 <= i < j < s.len() ==> (#[trigger] s[i]).source.address != (
        #[trigger] s[j]).source.address
}

/// Every destination has a route, and at most one from each source.
pub open spec fn rib_ok(m: Map<Nlri, Seq<Path>>) -> bool {
    forall|n: Nlri| #[trigger] m.contains_key(n) ==> m[n].len() > 0 && one_per_source(m[n])
}

/// The position of the first route in `s` that comes from `a`; the length of `s` if there is none.
pub open spec fn first_from(s: Seq<Path>, a: IpAddr) -> int
    decreases s.len(),
{
    if s.len() == 0 || s[0].source.address == a {
        0
    } else {
        1 + first_from(s.drop_first(), a)
    }
}

/// The position of the first route in `s` that a route with the attributes `b` goes before; the
/// length of `s` if there is none.
pub open spec fn first_after(s: Seq<Path>, b: Arc<PathAttr>) -> int
    decreases s.len(),
{
    if s.len() == 0 || path::goes_before(b, s[0].attrs) {
        0
    } else {
        1 + first_after(s.drop_first(), b)
    }
}

pub proof fn lemma_first_from(s: Seq<Path>, a: IpAddr, i: int)
    requires
        0 <= i <= s.len(),
        forall|j: int| 0 <= j < i ==> (#[trigger] s[j]).source.address != a,
        i < s.len() ==> s[i].source.address == a,
    ensures
        first_from(s, a) == i,
    decreases s.len(),
{
    if i > 0 {
        let t = s.drop_first();
        assert forall|j: int| 0 <= j < i - 1 implies (#[trigger] t[j]).source.address != a by {
            assert(t[j] == s[j + 1]);
        }
        lemma_first_from(t, a, i - 1);
    }
}

pub proof fn lemma_first_from_is_first(s: Seq<Path>, a: IpAddr)
    ensures
        0 <= first_from(s, a) <= s.len(),
        forall|j: int| 0 <= j < first_from(s, a) ==> (#[trigger] s[j]).source.address != a,
        first_from(s, a) < s.len() ==> s[first_from(s, a)].source.address == a,
    decreases s.len(),
{
    if s.len() > 0 && s[0].source.address != a {
        let t = s.drop_first();
        lemma_first_from_is_first(t, a);
        assert forall|j: int| 0 <= j < first_from(s, a) implies (#[trigger] s[j]).source.address
            != a by {
            if j > 0 {
                assert(t[j - 1] == s[j]);
            }
        }
    }
}

pub proof fn lemma_first_after(s: Seq<Path>, b: Arc<PathAttr>, i: int)
    requires
        0 <= i <= s.len(),
        forall|j: int| 0 <= j < i ==> !path::goes_before(b, (#[trigger] s[j]).attrs),
        i < s.len() ==> path::goes_before(b, s[i].attrs),
    ensures
        first_after(s, b) == i,
    decreases s.len(),
{
    if i > 0 {
        let t = s.drop_first();
        assert forall|j: int| 0 <= j < i - 1 implies !path::goes_before(
            b,
            (#[trigger] t[j]).attrs,
        ) by {
            assert(t[j] == s[j + 1]);
        }
        lemma_first_after(t, b, i - 1);
    }
}

pub proof fn lemma_first_after_is_first(s: Seq<Path>, b: Arc<PathAttr>)
    ensures
        0 <= first_after(s, b) <= s.len(),
        forall|j: int|
            0 <= j < first_after(s, b) ==> !path::goes_before(b, (#[trigger] s[j]).attrs),
        first_after(s, b) < s.len() ==> path::goes_before(b, s[first_after(s, b)].attrs),
    decreases s.len(),
{
    if s.len() > 0 && !path::goes_before(b, s[0].attrs) {
        let t = s.drop_first();
        lemma_first_after_is_first(t, b);
        assert forall|j: int| 0 <= j < first_after(s, b) implies !path::goes_before(
            b,
            (#[trigger] s[j]).attrs,
        ) by {
            if j > 0 {
                assert(t[j - 1] == s[j]);
            }
        }
    }
}

pub proof fn lemma_first_after_bound(s: Seq<Path>, b: Arc<PathAttr>)
    ensures
        0 <= first_after(s, b) <= s.len(),
    decreases s.len(),
{
    if s.len() > 0 {
        lemma_first_after_bound(s.drop_first(), b);
    }
}

/// Whether a route in `s` comes from `a`.
pub open spec fn has_source(s: Seq<Path>, a: IpAddr) -> bool {
    first_from(s, a) < s.len()
}

/// The routes that are left of `s` when the first one from `a` is taken out.
pub open spec fn without_source(s: Seq<Path>, a: IpAddr) -> Seq<Path> {
    if has_source(s, a) {
        s.remove(first_from(s, a))
    } else {
        s
    }
}

/// The position of a new route with the attributes `b` among the routes `s`: in front where the
/// best route is not looked for, else before the first route that it goes before.
pub open spec fn place(s: Seq<Path>, b: Arc<PathAttr>, unsorted: bool) -> int {
    if unsorted {
        0
    } else {
        first_after(s, b)
    }
}

/// The routes `s` after the route `p` has taken the place of the one from its source.
pub open spec fn with_path(s: Seq<Path>, p: Path, unsorted: bool) -> Seq<Path> {
    let rest = without_source(s, p.source.address);
    rest.insert(place(rest, p.attrs, unsorted), p)
}

/// Whether the best route to a destination has to be looked at again when `p` comes in: when it
/// was the route from the source of `p`, or is `p`.
pub open spec fn best_changes(s: Seq<Path>, p: Path, unsorted: bool) -> bool {
    let rest = without_source(s, p.source.address);
    has_source(s, p.source.address) && first_from(s, p.source.address) == 0 || place(
        rest,
        p.attrs,
        unsorted,
    ) == 0
}

/// The routes to `n`, none where there is no such destination.
pub open spec fn routes_to(m: Map<Nlri, Seq<Path>>, n: Nlri) -> Seq<Path> {
    if m.contains_key(n) {
        m[n]
    } else {
        Seq::empty()
    }
}

/// The destinations after the routes to `n` have become `s`. A destination without routes is
/// dropped.
pub open spec fn set_routes(m: Map<Nlri, Seq<Path>>, n: Nlri, s: Seq<Path>) -> Map<
    Nlri,
    Seq<Path>,
> {
    if s.len() == 0 {
        m.remove(n)
    } else {
        m.insert(n, s)
    }
}

/// The update that taking the route from `source` out of the routes `s` to `n` calls for.
pub open spec fn removal_update(n: Nlri, s: Seq<Path>, source: Arc<Source>) -> Option<
    TableUpdate,
> {
    let rest = without_source(s, source.address);
    if !has_source(s, source.address) {
        None
    } else if rest.len() == 0 {
        Some(TableUpdate::Withdrawn(n, source))
    } else if first_from(s, source.address) == 0 {
        Some(TableUpdate::NewBest(n, rest[0].nexthop, rest[0].attrs, rest[0].source))
    } else {
        None
    }
}

/// The update that the loss of `source` calls for at the destination `n` with the routes `s`.
pub open spec fn loss_update(n: Nlri, s: Seq<Path>, source: Arc<Source>) -> Option<TableUpdate> {
    let rest = without_source(s, source.address);
    if !has_source(s, source.address) {
        None
    } else if rest.len() == 0 {
        Some(TableUpdate::Withdrawn(n, source))
    } else if first_from(s, source.address) == 0 {
        Some(TableUpdate::NewBest(n, rest[0].nexthop, rest[0].attrs, source))
    } else {
        None
    }
}

/// The updates that the loss of `source` calls for at the destinations `l` of the family `f`.
pub open spec fn loss_updates(f: Family, l: Seq<(Nlri, Seq<Path>)>, source: Arc<Source>) -> Seq<
    (Family, TableUpdate),
>
    decreases l.len(),
{
    if l.len() == 0 {
        Seq::empty()
    } else {
        let before = loss_updates(f, l.drop_last(), source);
        match loss_update(l.last().0, l.last().1, source) {
            Some(u) => before.push((f, u)),
            None => before,
        }
    }
}

/// The destinations after all routes from `a` are gone.
pub open spec fn without_source_all(m: Map<Nlri, Seq<Path>>, a: IpAddr) -> Map<Nlri, Seq<Path>> {
    Map::new(
        |n: Nlri| m.contains_key(n) && without_source(m[n], a).len() > 0,
        |n: Nlri| without_source(m[n], a),
    )
}

/// The position of the first route in `s` that comes from `a`.
pub fn find_source(s: &Vec<Path>, a: &IpAddr) -> (r: Option<usize>)
    ensures
        match r {
            Some(i) => i == first_from(s@, *a) && i < s@.len(),
            None => first_from(s@, *a) == s@.len(),
        },
{
    let mut i: usize = 0;
    while i < s.len()
        invariant
            i <= s@.len(),
            forall|j: int| 0 <= j < i ==> (#[trigger] s@[j]).source.address != *a,
        decreases s@.len() - i,
    {
        if s[i].source.address == *a {
            proof {
                lemma_first_from(s@, *a, i as int);
            }
            return Some(i);
        }
        i += 1;
    }
    proof {
        lemma_first_from(s@, *a, i as int);
    }
    None
}

fn find_place(s: &Vec<Path>, b: &Path) -> (r: usize)
    ensures
        r == first_after(s@, b.attrs),
        r <= s@.len(),
{
    let mut i: usize = 0;
    while i < s.len()
        invariant
            i <= s@.len(),
            forall|j: int| 0 <= j < i ==> !path::goes_before(b.attrs, (#[trigger] s@[j]).attrs),
        decreases s@.len() - i,
    {
        if b.is_before(&s[i]) {
            proof {
                lemma_first_after(s@, b.attrs, i as int);
            }
            return i;
        }
        i += 1;
    }
    proof {
        lemma_first_after(s@, b.attrs, i as int);
    }
    i
}

/// Puts the route `p` among the routes `s`. Gives back whether the best route has to be looked at
/// again, and whether a route has made room for `p`.
pub fn put_path(s: &mut Vec<Path>, p: Path, unsorted: bool) -> (r: (bool, bool))
    ensures
        final(s)@ == with_path(old(s)@, p, unsorted),
        r.0 == best_changes(old(s)@, p, unsorted),
        r.1 == has_source(old(s)@, p.source.address),
{
    let mut replaced = false;
    let mut new_best = false;
    match find_source(s, &p.source.address) {
        Some(i) => {
            s.remove(i);
            replaced = true;
            if i == 0 {
                new_best = true;
            }
        },
        None => {},
    }
    let idx: usize = if unsorted {
        0
    } else {
        find_place(s, &p)
    };
    if idx == 0 {
        new_best = true;
    }
    s.insert(idx, p);
    (new_best, replaced)
}

proof fn lemma_one_per_source_remove(s: Seq<Path>, i: int)
    requires
        one_per_source(s),
        0 <= i < s.len(),
    ensures
        one_per_source(s.remove(i)),
{
    let t = s.remove(i);
    assert forall|a: int, b: int| 0 <= a < b < t.len() implies (#[trigger] t[a]).source.address != (
    #[trigger] t[b]).source.address by {
        let a0 = if a < i { a } else { a + 1 };
        let b0 = if b < i { b } else { b + 1 };
        assert(t[a] == s[a0] && t[b] == s[b0]);
    }
}

/// Taking out the route from `a` leaves none from `a`, and at most one from each other source.
pub proof fn lemma_without_source(s: Seq<Path>, a: IpAddr)
    requires
        one_per_source(s),
    ensures
        one_per_source(without_source(s, a)),
        forall|j: int|
            0 <= j < without_source(s, a).len() ==> (#[trigger] without_source(
                s,
                a,
            )[j]).source.address != a,
{
    lemma_first_from_is_first(s, a);
    let i = first_from(s, a);
    if has_source(s, a) {
        lemma_one_per_source_remove(s, i);
        let t = s.remove(i);
        assert forall|j: int| 0 <= j < t.len() implies (#[trigger] t[j]).source.address != a by {
            let j0 = if j < i { j } else { j + 1 };
            assert(t[j] == s[j0]);
            if j0 < i {
                assert(s[j0].source.address != s[i].source.address);
            } else {
                assert(s[i].source.address != s[j0].source.address);
            }
        }
    } else {
        assert forall|j: int| 0 <= j < s.len() implies (#[trigger] s[j]).source.address != a by {}
    }
}

/// Whether a source has a route among `s` shows at any route of it.
proof fn lemma_has_source(s: Seq<Path>, a: IpAddr)
    ensures
        has_source(s, a) == exists|i: int|
            0 <= i < s.len() && (#[trigger] s[i]).source.address == a,
{
    lemma_first_from_is_first(s, a);
    if has_source(s, a) {
        assert(s[first_from(s, a)].source.address == a);
    }
}

/// Taking out a route of `b` leaves every other source as it is.
pub proof fn lemma_without_source_keeps(s: Seq<Path>, b: IpAddr, a: IpAddr)
    requires
        a != b,
    ensures
        has_source(without_source(s, b), a) == has_source(s, a),
{
    let t = without_source(s, b);
    lemma_has_source(s, a);
    lemma_has_source(t, a);
    lemma_first_from_is_first(s, b);
    let k = first_from(s, b);
    if has_source(s, b) {
        if has_source(s, a) {
            let i = choose|i: int| 0 <= i < s.len() && (#[trigger] s[i]).source.address == a;
            let j = if i < k { i } else { i - 1 };
            assert(t[j] == s[i]);
        }
        if has_source(t, a) {
            let j = choose|j: int| 0 <= j < t.len() && (#[trigger] t[j]).source.address == a;
            let i = if j < k { j } else { j + 1 };
            assert(t[j] == s[i]);
        }
    }
}

/// Putting in a route leaves every other source as it is.
pub proof fn lemma_with_path_keeps(s: Seq<Path>, p: Path, unsorted: bool, a: IpAddr)
    requires
        a != p.source.address,
    ensures
        has_source(with_path(s, p, unsorted), a) == has_source(s, a),
{
    let rest = without_source(s, p.source.address);
    let t = with_path(s, p, unsorted);
    lemma_without_source_keeps(s, p.source.address, a);
    lemma_first_after_bound(rest, p.attrs);
    let k = place(rest, p.attrs, unsorted);
    lemma_has_source(rest, a);
    lemma_has_source(t, a);
    if has_source(rest, a) {
        let i = choose|i: int| 0 <= i < rest.len() && (#[trigger] rest[i]).source.address == a;
        let j = if i < k { i } else { i + 1 };
        assert(t[j] == rest[i]);
    }
    if has_source(t, a) {
        let j = choose|j: int| 0 <= j < t.len() && (#[trigger] t[j]).source.address == a;
        let i = if j < k { j } else { j - 1 };
        assert(t[j] == rest[i]);
    }
}

/// The routes that are announced from elsewhere than `a`.
pub open spec fn not_by(a: IpAddr) -> spec_fn(Path) -> bool {
    |p: Path| p.source.address != a
}

/// Taking out the route of a source leaves exactly the routes of all others, in the order they
/// had.
pub proof fn law_others_are_left(s: Seq<Path>, a: IpAddr)
    requires
        one_per_source(s),
    ensures
        without_source(s, a) == s.filter(not_by(a)),
        has_source(s, a) == exists|i: int|
            0 <= i < s.len() && (#[trigger] s[i]).source.address == a,
{
    lemma_has_source(s, a);
    lemma_first_from_is_first(s, a);
    let k = first_from(s, a);
    if has_source(s, a) {
        let head = s.take(k);
        let tail = s.skip(k + 1);
        assert(s =~= head.push(s[k]) + tail);
        Seq::filter_distributes_over_add(head.push(s[k]), tail, not_by(a));
        lists::lemma_filter_push(head, not_by(a), s[k]);
        lists::lemma_filter_all(head, not_by(a));
        assert forall|j: int| 0 <= j < tail.len() implies not_by(a)(#[trigger] tail[j]) by {
            assert(tail[j] == s[k + 1 + j]);
            assert(s[k].source.address != s[k + 1 + j].source.address);
        }
        lists::lemma_filter_all(tail, not_by(a));
        assert(s.remove(k) =~= head + tail);
    } else {
        lists::lemma_filter_all(s, not_by(a));
    }
}

/// The source of a route that is put in has a route.
pub proof fn lemma_with_path_has(s: Seq<Path>, p: Path, unsorted: bool)
    ensures
        has_source(with_path(s, p, unsorted), p.source.address),
{
    let rest = without_source(s, p.source.address);
    let t = with_path(s, p, unsorted);
    lemma_first_after_bound(rest, p.attrs);
    lemma_has_source(t, p.source.address);
    assert(t[place(rest, p.attrs, unsorted)] == p);
}

/// Putting in a route leaves at most one from each source.
pub proof fn lemma_with_path(s: Seq<Path>, p: Path, unsorted: bool)
    requires
        one_per_source(s),
    ensures
        one_per_source(with_path(s, p, unsorted)),
        with_path(s, p, unsorted).len() > 0,
{
    let a = p.source.address;
    let rest = without_source(s, a);
    lemma_without_source(s, a);
    lemma_first_after_bound(rest, p.attrs);
    let k = place(rest, p.attrs, unsorted);
    let t = rest.insert(k, p);
    assert forall|i: int, j: int| 0 <= i < j < t.len() implies (#[trigger] t[i]).source.address != (
    #[trigger] t[j]).source.address by {
        if i == k {
            assert(t[j] == rest[j - 1]);
        } else if j == k {
            assert(t[i] == rest[i]);
        } else {
            let i0 = if i < k { i } else { i - 1 };
            let j0 = if j < k { j } else { j - 1 };
            assert(t[i] == rest[i0] && t[j] == rest[j0]);
        }
    }
}

pub proof fn lemma_rib_map_insert(
    s: Seq<(Nlri, Destination)>,
    t: Seq<(Nlri, Destination)>,
    n: Nlri,
    d: Destination,
)
    requires
        vecmap::map_of(t) == vecmap::map_of(s).insert(n, d),
    ensures
        rib_map(t) == rib_map(s).insert(n, d.entry@),
{
    assert(rib_map(t) =~= rib_map(s).insert(n, d.entry@));
}

pub proof fn lemma_rib_map_remove(s: Seq<(Nlri, Destination)>, t: Seq<(Nlri, Destination)>, n: Nlri)
    requires
        vecmap::map_of(t) == vecmap::map_of(s).remove(n),
    ensures
        rib_map(t) == rib_map(s).remove(n),
{
    assert(rib_map(t) =~= rib_map(s).remove(n));
}

/// Puts the route `p` to `net` into the table. Gives back whether the best route has to be looked
/// at again, whether a route has made room for `p`, and the best route's attributes and source.
pub fn rib_insert(t: &mut Rib, net: Nlri, p: Path, unsorted: bool) -> (r: (
    bool,
    bool,
    Arc<PathAttr>,
    Arc<Source>,
))
    requires
        old(t).wf(),
        rib_ok(rib_map(old(t).entries@)),
    ensures
        final(t).wf(),
        rib_ok(rib_map(final(t).entries@)),
        rib_map(final(t).entries@) == rib_map(old(t).entries@).insert(
            net,
            with_path(routes_to(rib_map(old(t).entries@), net), p, unsorted),
        ),
        r.0 == best_changes(routes_to(rib_map(old(t).entries@), net), p, unsorted),
        r.1 == has_source(routes_to(rib_map(old(t).entries@), net), p.source.address),
        r.2 == with_path(routes_to(rib_map(old(t).entries@), net), p, unsorted)[0].attrs,
        r.3 == with_path(routes_to(rib_map(old(t).entries@), net), p, unsorted)[0].source,
{
    let ghost before = t.entries@;
    let ghost s = routes_to(rib_map(before), net);
    proof {
        assert(one_per_source(s));
        lemma_with_path(s, p, unsorted);
    }
    match t.get_mut(&net) {
        Some(d) => {
            let r = put_path(&mut d.entry, p, unsorted);
            let attrs = d.entry[0].attrs.clone();
            let source = d.entry[0].source.clone();
            proof {
                lemma_rib_map_insert(before, t.entries@, net, *d);
            }
            (r.0, r.1, attrs, source)
        },
        None => {
            let attrs = p.attrs.clone();
            let source = p.source.clone();
            let mut v: Vec<Path> = Vec::new();
            let r = put_path(&mut v, p, unsorted);
            let d = Destination::new(v);
            t.insert(net, d);
            proof {
                assert(s =~= Seq::<Path>::empty());
                lemma_rib_map_insert(before, t.entries@, net, d);
            }
            (r.0, r.1, attrs, source)
        },
    }
}

/// Takes the route from `source` to `net` out of the table. Gives back the update that this calls
/// for, and whether there was such a route.
pub fn rib_remove(t: &mut Rib, net: Nlri, source: &Arc<Source>) -> (r: (Option<TableUpdate>, bool))
    requires
        old(t).wf(),
        rib_ok(rib_map(old(t).entries@)),
    ensures
        final(t).wf(),
        rib_ok(rib_map(final(t).entries@)),
        rib_map(final(t).entries@) == if r.1 {
            set_routes(
                rib_map(old(t).entries@),
                net,
                without_source(routes_to(rib_map(old(t).entries@), net), source.address),
            )
        } else {
            rib_map(old(t).entries@)
        },
        r.0 == removal_update(net, routes_to(rib_map(old(t).entries@), net), *source),
        r.1 == has_source(routes_to(rib_map(old(t).entries@), net), source.address),
{
    let ghost before = t.entries@;
    let ghost s = routes_to(rib_map(before), net);
    let mut emptied = false;
    let mut update: Option<TableUpdate> = None;
    let mut found = false;
    proof {
        lemma_without_source(s, source.address);
    }
    match t.get_mut(&net) {
        Some(d) => {
            match find_source(&d.entry, &source.address) {
                Some(i) => {
                    d.entry.remove(i);
                    found = true;
                    if d.entry.len() == 0 {
                        emptied = true;
                        update = Some(TableUpdate::Withdrawn(net, source.clone()));
                    } else if i == 0 {
                        update = Some(
                            TableUpdate::NewBest(
                                net,
                                d.entry[0].nexthop,
                                d.entry[0].attrs.clone(),
                                d.entry[0].source.clone(),
                            ),
                        );
                    }
                },
                None => {},
            }
            proof {
                lemma_rib_map_insert(before, t.entries@, net, *d);
                if !found {
                    assert(rib_map(before).insert(net, d.entry@) =~= rib_map(before));
                }
            }
        },
        None => {},
    }
    if emptied {
        let ghost mid = t.entries@;
        t.remove(&net);
        proof {
            lemma_rib_map_remove(mid, t.entries@, net);
            assert(rib_map(mid).remove(net) =~= rib_map(before).remove(net));
        }
    }
    (update, found)
}

/// Takes the route from `source` out of the routes of one destination.
fn lose_source(net: Nlri, d: &mut Destination, source: &Arc<Source>) -> (r: Option<TableUpdate>)
    ensures
        final(d).entry@ == without_source(old(d).entry@, source.address),
        r == loss_update(net, old(d).entry@, *source),
{
    match find_source(&d.entry, &source.address) {
        Some(i) => {
            d.entry.remove(i);
            if d.entry.len() == 0 {
                Some(TableUpdate::Withdrawn(net, source.clone()))
            } else if i == 0 {
                Some(
                    TableUpdate::NewBest(
                        net,
                        d.entry[0].nexthop,
                        d.entry[0].attrs.clone(),
                        source.clone(),
                    ),
                )
            } else {
                None
            }
        },
        None => None,
    }
}

/// Whether `x` holds what the loss of `a` leaves of the destinations `s`.
spec fn is_left_of(x: Seq<(Nlri, Destination)>, s: Seq<(Nlri, Destination)>, a: IpAddr) -> bool {
    &&& vecmap::distinct_keys(x)
    &&& rib_map(x) == without_source_all(rib_map(s), a)
}

proof fn lemma_left_step(
    x: Seq<(Nlri, Destination)>,
    s: Seq<(Nlri, Destination)>,
    i: int,
    d: Destination,
    a: IpAddr,
)
    requires
        vecmap::distinct_keys(s),
        0 <= i < s.len(),
        is_left_of(x, s.take(i), a),
        d.entry@ == without_source(s[i].1.entry@, a),
    ensures
        d.entry@.len() > 0 ==> is_left_of(x.push((s[i].0, d)), s.take(i + 1), a),
        d.entry@.len() == 0 ==> is_left_of(x, s.take(i + 1), a),
{
    let head = s.take(i);
    let n = s[i].0;
    assert(vecmap::distinct_keys(head)) by {
        assert forall|p: int, q: int| 0 <= p < q < head.len() implies (#[trigger] head[p]).0.id()
            != (#[trigger] head[q]).0.id() by {
            assert(head[p] == s[p] && head[q] == s[q]);
        }
    }
    assert(!vecmap::has_key(head, n)) by {
        if vecmap::has_key(head, n) {
            let p = vecmap::key_pos(head, n);
            assert(s[p] == head[p]);
            assert(s[p].0.id() != s[i].0.id());
        }
    }
    assert(s.take(i + 1) =~= head.push(s[i]));
    vecmap::lemma_push(head, s[i]);
    lemma_rib_map_insert(head, s.take(i + 1), n, s[i].1);
    let m = rib_map(head);
    assert(!m.contains_key(n));
    assert(rib_map(s.take(i + 1)) == m.insert(n, s[i].1.entry@));
    assert(!rib_map(x).contains_key(n));
    assert(!vecmap::has_key(x, n)) by {
        assert(vecmap::map_of(x).contains_key(n) == rib_map(x).contains_key(n));
    }
    if d.entry@.len() > 0 {
        vecmap::lemma_push(x, (n, d));
        lemma_rib_map_insert(x, x.push((n, d)), n, d);
        assert(rib_map(x.push((n, d))) =~= without_source_all(rib_map(s.take(i + 1)), a));
    } else {
        assert(rib_map(x) =~= without_source_all(rib_map(s.take(i + 1)), a));
    }
}

/// Takes all routes from `source` out of the table of the family `f`, and adds the updates that
/// this calls for to `updates`.
pub fn rib_clear(
    t: &mut Rib,
    f: Family,
    source: &Arc<Source>,
    updates: &mut Vec<(Family, TableUpdate)>,
)
    requires
        old(t).wf(),
        rib_ok(rib_map(old(t).entries@)),
    ensures
        final(t).wf(),
        rib_ok(rib_map(final(t).entries@)),
        rib_map(final(t).entries@) == without_source_all(
            rib_map(old(t).entries@),
            source.address,
        ),
        final(updates)@ == old(updates)@ + loss_updates(f, rib_list(old(t).entries@), *source),
{
    let ghost all = t.entries@;
    let ghost first = updates@;
    let ghost a = source.address;
    let ghost mut done: int = 0;
    let ghost mut x: Seq<(Nlri, Destination)> = Seq::empty();
    let mut j: usize = 0;
    proof {
        assert(rib_map(x) =~= without_source_all(rib_map(all.take(0)), a));
        assert(t.entries@ =~= x + all.skip(0));
        assert(rib_list(all).take(0).len() == 0);
        assert(updates@ =~= first + loss_updates(f, rib_list(all).take(0), *source));
    }
    while j < t.entries.len()
        invariant
            0 <= done <= all.len(),
            vecmap::distinct_keys(all),
            a == source.address,
            j == x.len(),
            t.entries@ == x + all.skip(done),
            is_left_of(x, all.take(done), a),
            updates@ == first + loss_updates(f, rib_list(all).take(done), *source),
        decreases all.len() - done,
    {
        let n: Nlri = t.entries[j].0;
        assert(t.entries@[j as int] == all[done]);
        let u = lose_source(n, &mut t.entries[j].1, source);
        proof {
            let l = rib_list(all);
            assert(l.take(done + 1).drop_last() =~= l.take(done));
            assert(l.take(done + 1).last() == (all[done].0, all[done].1.entry@));
            lemma_left_step(x, all, done, t.entries@[j as int].1, a);
        }
        let ghost mid = t.entries@;
        match u {
            Some(u) => {
                updates.push((f, u));
            },
            None => {},
        }
        assert(updates@ =~= first + loss_updates(f, rib_list(all).take(done + 1), *source));
        if t.entries[j].1.entry.len() == 0 {
            t.entries.remove(j);
            proof {
                assert(t.entries@ =~= x + all.skip(done + 1));
            }
        } else {
            proof {
                x = x.push(mid[j as int]);
                assert(t.entries@ =~= x + all.skip(done + 1));
            }
            j += 1;
        }
        proof {
            done = done + 1;
        }
    }
    proof {
        assert(all.skip(done).len() == 0);
        assert(t.entries@ =~= x);
        assert(all.take(done) =~= all);
        assert(rib_list(all).take(done) =~= rib_list(all));
        let m = rib_map(all);
        assert forall|n: Nlri| #[trigger] rib_map(t.entries@).contains_key(n) implies rib_map(
            t.entries@,
        )[n].len() > 0 && one_per_source(rib_map(t.entries@)[n]) by {
            assert(m.contains_key(n));
            lemma_without_source(m[n], a);
        }
    }
}

} // verus!
