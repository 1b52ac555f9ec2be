//! What peers are told about routes.
use vstd::prelude::*;
use crate::addr::IpAddr;
use crate::bgp;
use crate::bgp::{
    Attribute, AttributeView, Family, Nlri, Segment, SegmentView, UpdatePdu, UpdatePduView,
};
use crate::lists;
use crate::path::{Path, Source, TableUpdate};

verus! {

/// Whether a route from one peer is passed on to another: not back to where it came from, and not
/// between two peers of the same AS.
pub open spec fn advertised(
    source_addr: IpAddr,
    source_ibgp: bool,
    target_addr: IpAddr,
    target_ibgp: bool,
) -> bool {
    !(source_ibgp && target_ibgp) && source_addr != target_addr
}

/// Whether a route from one peer is passed on to another.
pub fn need_to_advertise(
    source_addr: IpAddr,
    source_ibgp: bool,
    target_addr: IpAddr,
    target_ibgp: bool,
) -> (r: bool)
    ensures
        r == advertised(source_addr, source_ibgp, target_addr, target_ibgp),
{
    if (source_ibgp && target_ibgp) || source_addr == target_addr {
        return false;
    }
    true
}

/// The position behind the last of the leading attributes in `s` whose codes are at most `c`.
pub open spec fn code_pos(s: Seq<AttributeView>, c: u8) -> int
    decreases s.len(),
{
    if s.len() == 0 || s[0].code() > c {
        0
    } else {
        1 + code_pos(s.drop_first(), c)
    }
}

/// The attributes `s` in the order of their codes, those with equal codes in the order they had.
pub open spec fn by_code(s: Seq<AttributeView>) -> Seq<AttributeView>
    decreases s.len(),
{
    if s.len() == 0 {
        Seq::empty()
    } else {
        let rest = by_code(s.drop_last());
        rest.insert(code_pos(rest, s.last().code()), s.last())
    }
}

/// Whether the codes in `s` never fall.
pub open spec fn ascending(s: Seq<AttributeView>) -> bool {
    forall|i: int, j: int| 0 <= i < j < s.len() ==> (#[trigger] s[i]).code() <= (#[trigger] s[j]).code()
}

/// The attributes with the code `c`.
pub open spec fn has_code(c: u8) -> spec_fn(AttributeView) -> bool {
    |a: AttributeView| a.code() == c
}

proof fn lemma_code_pos(s: Seq<AttributeView>, c: u8, i: int)
    requires
        0 <= i <= s.len(),
        forall|j: int| 0 <= j < i ==> (#[trigger] s[j]).code() <= c,
        i < s.len() ==> s[i].code() > c,
    ensures
        code_pos(s, c) == i,
    decreases s.len(),
{
    if i > 0 {
        let t = s.drop_first();
        assert forall|j: int| 0 <= j < i - 1 implies (#[trigger] t[j]).code() <= c by {
            assert(t[j] == s[j + 1]);
        }
        lemma_code_pos(t, c, i - 1);
    }
}

proof fn lemma_code_pos_is_pos(s: Seq<AttributeView>, c: u8)
    ensures
        0 <= code_pos(s, c) <= s.len(),
        forall|j: int| 0 <= j < code_pos(s, c) ==> (#[trigger] s[j]).code() <= c,
        code_pos(s, c) < s.len() ==> s[code_pos(s, c)].code() > c,
    decreases s.len(),
{
    if s.len() > 0 && s[0].code() <= c {
        let t = s.drop_first();
        lemma_code_pos_is_pos(t, c);
        assert forall|j: int| 0 <= j < code_pos(s, c) implies (#[trigger] s[j]).code() <= c by {
            if j > 0 {
                assert(t[j - 1] == s[j]);
            }
        }
    }
}

/// Sorting by code puts no higher code before a lower one, and keeps the attributes of each code
/// in the order they had.
pub proof fn law_by_code_is_a_stable_sort(s: Seq<AttributeView>, c: u8)
    ensures
        ascending(by_code(s)),
        by_code(s).len() == s.len(),
        by_code(s).filter(has_code(c)) == s.filter(has_code(c)),
    decreases s.len(),
{
    if s.len() > 0 {
        let t = s.drop_last();
        let x = s.last();
        let rest = by_code(t);
        law_by_code_is_a_stable_sort(t, c);
        lemma_code_pos_is_pos(rest, x.code());
        let k = code_pos(rest, x.code());
        let r = by_code(s);
        assert(r == rest.insert(k, x));
        assert forall|i: int, j: int| 0 <= i < j < r.len() implies (#[trigger] r[i]).code() <= (
        #[trigger] r[j]).code() by {
            let i0 = if i < k { i } else { i - 1 };
            let j0 = if j < k { j } else { j - 1 };
            if i == k {
                assert(r[j] == rest[j0]);
                if k < j0 {
                    assert(rest[k].code() <= rest[j0].code());
                }
            } else if j == k {
                assert(r[i] == rest[i]);
            } else {
                assert(r[i] == rest[i0] && r[j] == rest[j0]);
            }
        }
        let head = rest.take(k);
        let tail = rest.skip(k);
        assert(r =~= head.push(x) + tail);
        assert(rest =~= head + tail);
        Seq::filter_distributes_over_add(head.push(x), tail, has_code(c));
        Seq::filter_distributes_over_add(head, tail, has_code(c));
        lists::lemma_filter_push(head, has_code(c), x);
        assert(s =~= t.push(x));
        lists::lemma_filter_push(t, has_code(c), x);
        if x.code() == c {
            assert forall|j: int| 0 <= j < tail.len() implies !has_code(c)(#[trigger] tail[j]) by {
                assert(tail[j] == rest[k + j]);
                if j > 0 {
                    assert(rest[k].code() <= rest[k + j].code());
                }
            }
            tail.lemma_all_neg_filter_empty(has_code(c));
            assert(r.filter(has_code(c)) =~= rest.filter(has_code(c)).push(x));
        } else {
            assert(r.filter(has_code(c)) =~= rest.filter(has_code(c)));
        }
    } else {
        assert(by_code(s) =~= s);
    }
}

/// Sorts attributes by their codes, those with equal codes in the order they had.
pub fn sort_attrs(v: &mut Vec<Attribute>)
    ensures
        bgp::attr_views(final(v)@) == by_code(bgp::attr_views(old(v)@)),
{
    let ghost all = v@;
    let ghost views = bgp::attr_views(all);
    let n: usize = v.len();
    let mut i: usize = 0;
    proof {
        assert(bgp::attr_views(v@.take(0)) =~= by_code(views.take(0)));
    }
    while i < n
        invariant
            i <= n,
            n == all.len(),
            v@.len() == n,
            views == bgp::attr_views(all),
            bgp::attr_views(v@.take(i as int)) == by_code(views.take(i as int)),
            v@.skip(i as int) == all.skip(i as int),
        decreases n - i,
    {
        let ghost sorted = bgp::attr_views(v@.take(i as int));
        let ghost before = v@;
        assert(v@[i as int] == v@.skip(i as int)[0]);
        assert(v@[i as int] == all[i as int]);
        let c: u8 = v[i].attr();
        let mut k: usize = 0;
        while k < i && v[k].attr() <= c
            invariant
                k <= i < n,
                v@ == before,
                v@.len() == n,
                sorted == bgp::attr_views(v@.take(i as int)),
                forall|j: int| 0 <= j < k ==> (#[trigger] sorted[j]).code() <= c,
            decreases i - k,
        {
            assert(sorted[k as int] == v@[k as int]@);
            k += 1;
        }
        proof {
            if k < i {
                assert(sorted[k as int] == v@[k as int]@);
            }
            lemma_code_pos(sorted, c, k as int);
            assert(views.take(i + 1).drop_last() =~= views.take(i as int));
            assert(views.take(i + 1).last() == all[i as int]@);
        }
        let a = v.remove(i);
        v.insert(k, a);
        proof {
            assert(bgp::attr_views(v@.take(i + 1)) =~= sorted.insert(k as int, a@));
            assert(v@.skip(i + 1) =~= before.skip(i as int).skip(1));
            assert(all.skip(i + 1) =~= all.skip(i as int).skip(1));
        }
        i += 1;
    }
    proof {
        assert(v@.take(i as int) =~= v@);
        assert(views.take(i as int) =~= views);
    }
}

/// The attributes of a route that are passed on as they are: the transitive ones, and to a peer of
/// another AS neither the AS path nor the exit discriminator.
pub open spec fn passed_on(is_ibgp: bool) -> spec_fn(AttributeView) -> bool {
    |a: AttributeView|
        a.transitive() && (is_ibgp || !(a is AsPath || a is MultiExitDesc))
}

/// The same of references to attributes.
pub open spec fn passed_on_ref<'a>(is_ibgp: bool) -> spec_fn(&'a Attribute) -> bool {
    |a: &'a Attribute| passed_on(is_ibgp)(a@)
}

/// A segment with the one AS number `local_as`.
pub open spec fn own_segment(local_as: u32) -> SegmentView {
    SegmentView { segment_type: bgp::SEGMENT_SEQ, number: seq![local_as] }
}

/// The AS path `segments`, turned round, with `local_as` in front: in the first segment if that is
/// a sequence with room, else in a segment of its own.
pub open spec fn prepended(segments: Seq<SegmentView>, local_as: u32) -> Seq<SegmentView> {
    let s = segments.reverse();
    if s.len() == 0 || s[0].segment_type != bgp::SEGMENT_SEQ || s[0].number.len() == 255 {
        seq![own_segment(local_as)] + s
    } else {
        s.update(
            0,
            SegmentView {
                segment_type: s[0].segment_type,
                number: seq![local_as] + s[0].number,
            },
        )
    }
}

/// The AS paths, each with `local_as` in front.
pub open spec fn lengthened(local_as: u32) -> spec_fn(AttributeView) -> Option<AttributeView> {
    |a: AttributeView|
        match a {
            AttributeView::AsPath { segments } => Some(
                AttributeView::AsPath { segments: prepended(segments, local_as) },
            ),
            _ => None,
        }
}

/// Whether an attribute with the code `c` is among `s`.
pub open spec fn carries(s: Seq<AttributeView>, c: u8) -> bool {
    exists|i: int| 0 <= i < s.len() && (#[trigger] s[i]).code() == c
}

/// How a route to `nlri` says what its next hop is.
pub open spec fn reach(is_mp: bool, nlri: Nlri, nexthop: IpAddr) -> AttributeView {
    if is_mp {
        AttributeView::MpReach { family: Family::Ipv6Uc, nexthop, nlri: seq![nlri] }
    } else {
        AttributeView::Nexthop { nexthop }
    }
}

/// The attributes that are made anew when a route is passed on.
pub open spec fn new_attrs(
    is_ibgp: bool,
    is_mp: bool,
    local_as: u32,
    nlri: Nlri,
    original_nexthop: IpAddr,
    local_addr: IpAddr,
    attrs: Seq<AttributeView>,
) -> Seq<AttributeView> {
    let paths = if is_ibgp {
        Seq::empty()
    } else {
        attrs.filter_map(lengthened(local_as))
    };
    let nexthop = if is_ibgp {
        original_nexthop
    } else {
        local_addr
    };
    let path = if carries(attrs, bgp::AS_PATH) {
        Seq::empty()
    } else if is_ibgp {
        seq![AttributeView::AsPath { segments: Seq::empty() }]
    } else {
        seq![AttributeView::AsPath { segments: seq![own_segment(local_as)] }]
    };
    let preference = if carries(attrs, bgp::LOCAL_PREF) || !is_ibgp {
        Seq::empty()
    } else {
        seq![AttributeView::LocalPref { preference: bgp::DEFAULT_LOCAL_PREF }]
    };
    paths + seq![reach(is_mp, nlri, nexthop)] + path + preference
}

fn prepend(segs: &Vec<Segment>, local_as: u32) -> (r: Vec<Segment>)
    ensures
        bgp::segment_views(r@) == prepended(bgp::segment_views(segs@), local_as),
{
    let ghost views = bgp::segment_views(segs@);
    let mut segments: Vec<Segment> = Vec::new();
    let mut i: usize = 0;
    while i < segs.len()
        invariant
            i <= segs@.len(),
            views == bgp::segment_views(segs@),
            bgp::segment_views(segments@) == views.take(i as int).reverse(),
        decreases segs@.len() - i,
    {
        let ghost before = bgp::segment_views(segments@);
        segments.insert(0, segs[i].clone());
        proof {
            assert(bgp::segment_views(segments@) =~= seq![segs@[i as int]@] + before);
            assert(views.take(i + 1).reverse() =~= seq![views[i as int]] + views.take(
                i as int,
            ).reverse());
        }
        i += 1;
    }
    let ghost turned = views.reverse();
    proof {
        assert(views.take(i as int) =~= views);
        assert(turned.len() == segments@.len());
        if turned.len() > 0 {
            assert(turned[0] == segments@[0]@);
        }
    }
    if segments.len() == 0 || segments[0].segment_type != bgp::SEGMENT_SEQ
        || segments[0].number.len() == 255 {
        let mut number: Vec<u32> = Vec::new();
        number.push(local_as);
        segments.insert(0, Segment { segment_type: bgp::SEGMENT_SEQ, number });
        proof {
            assert(segments@[0]@ =~= own_segment(local_as));
            assert(bgp::segment_views(segments@) =~= seq![own_segment(local_as)] + turned);
        }
    } else {
        let ghost before = segments@;
        segments[0].number.insert(0, local_as);
        proof {
            assert(segments@[0]@.number =~= seq![local_as] + turned[0].number);
            assert(bgp::segment_views(segments@) =~= prepended(views, local_as));
        }
    }
    segments
}

fn own_path(local_as: u32) -> (r: Attribute)
    ensures
        r@ == (AttributeView::AsPath { segments: seq![own_segment(local_as)] }),
{
    let mut number: Vec<u32> = Vec::new();
    number.push(local_as);
    let mut segments: Vec<Segment> = Vec::new();
    segments.push(Segment { segment_type: bgp::SEGMENT_SEQ, number });
    proof {
        assert(segments@[0]@ =~= own_segment(local_as));
        assert(bgp::segment_views(segments@) =~= seq![own_segment(local_as)]);
    }
    Attribute::AsPath { segments }
}

fn reach_attr(is_mp: bool, nlri: Nlri, nexthop: IpAddr) -> (r: Attribute)
    ensures
        r@ == reach(is_mp, nlri, nexthop),
{
    if is_mp {
        let mut v: Vec<Nlri> = Vec::new();
        v.push(nlri);
        assert(v@ =~= seq![nlri]);
        Attribute::MpReach { family: Family::Ipv6Uc, nexthop, nlri: v }
    } else {
        Attribute::Nexthop { nexthop }
    }
}

/// The attributes with which a route is passed on: those that stay as they are, and those that are
/// made anew.
pub fn update_attrs<'a>(
    is_ibgp: bool,
    is_mp: bool,
    local_as: u32,
    nlri: Nlri,
    original_nexthop: IpAddr,
    local_addr: IpAddr,
    attrs: Vec<&'a Attribute>,
) -> (r: (Vec<&'a Attribute>, Vec<Attribute>))
    ensures
        r.0@ == attrs@.filter(passed_on_ref(is_ibgp)),
        bgp::attr_views(r.1@) == new_attrs(
            is_ibgp,
            is_mp,
            local_as,
            nlri,
            original_nexthop,
            local_addr,
            bgp::attr_ref_views(attrs@),
        ),
{
    let ghost views = bgp::attr_ref_views(attrs@);
    let ghost paths = if is_ibgp {
        Seq::<AttributeView>::empty()
    } else {
        views.filter_map(lengthened(local_as))
    };
    let mut seen_path = false;
    let mut seen_preference = false;
    let mut v: Vec<&'a Attribute> = Vec::new();
    let mut n: Vec<Attribute> = Vec::new();
    let mut i: usize = 0;
    proof {
        lists::lemma_filter_empty(attrs@.take(0), passed_on_ref(is_ibgp));
        lists::lemma_filter_map_empty(views.take(0), lengthened(local_as));
        assert(v@ =~= attrs@.take(0).filter(passed_on_ref(is_ibgp)));
        assert(bgp::attr_views(n@) =~= views.take(0).filter_map(lengthened(local_as)));
    }
    while i < attrs.len()
        invariant
            i <= attrs@.len(),
            views == bgp::attr_ref_views(attrs@),
            seen_path == carries(views.take(i as int), bgp::AS_PATH),
            seen_preference == carries(views.take(i as int), bgp::LOCAL_PREF),
            v@ == attrs@.take(i as int).filter(passed_on_ref(is_ibgp)),
            is_ibgp ==> n@.len() == 0,
            !is_ibgp ==> bgp::attr_views(n@) == views.take(i as int).filter_map(
                lengthened(local_as),
            ),
        decreases attrs@.len() - i,
    {
        let attr = attrs[i];
        let ghost before = n@;
        proof {
            lists::lemma_filter_take(attrs@, passed_on_ref(is_ibgp), i as int);
            lists::lemma_filter_map_take(views, lengthened(local_as), i as int);
            lemma_carries_step(views, i as int, bgp::AS_PATH);
            lemma_carries_step(views, i as int, bgp::LOCAL_PREF);
            assert(views[i as int] == attr@);
        }
        let c: u8 = attr.attr();
        if c == bgp::AS_PATH {
            seen_path = true;
        }
        if c == bgp::LOCAL_PREF {
            seen_preference = true;
        }
        if attr.is_transitive() {
            if is_ibgp {
                v.push(attr);
            } else {
                match attr {
                    Attribute::AsPath { segments } => {
                        n.push(Attribute::AsPath { segments: prepend(segments, local_as) });
                        proof {
                            assert(bgp::attr_views(n@) =~= bgp::attr_views(before).push(
                                n@.last()@,
                            ));
                        }
                    },
                    Attribute::MultiExitDesc { .. } => {},
                    _ => {
                        v.push(attr);
                    },
                }
            }
        }
        i += 1;
    }
    proof {
        assert(attrs@.take(i as int) =~= attrs@);
        assert(views.take(i as int) =~= views);
        assert(bgp::attr_views(n@) =~= paths);
    }
    let ghost before = n@;
    let nexthop = if is_ibgp {
        original_nexthop
    } else {
        local_addr
    };
    n.push(reach_attr(is_mp, nlri, nexthop));
    if !seen_path {
        if is_ibgp {
            n.push(Attribute::AsPath { segments: Vec::new() });
            assert(n@.last()@ =~= AttributeView::AsPath { segments: Seq::empty() });
        } else {
            n.push(own_path(local_as));
        }
    }
    if !seen_preference {
        if is_ibgp {
            n.push(Attribute::LocalPref { preference: bgp::DEFAULT_LOCAL_PREF });
        }
    }
    proof {
        assert(bgp::attr_views(n@) =~= new_attrs(
            is_ibgp,
            is_mp,
            local_as,
            nlri,
            original_nexthop,
            local_addr,
            views,
        ));
    }
    (v, n)
}

proof fn lemma_carries_step(s: Seq<AttributeView>, i: int, c: u8)
    requires
        0 <= i < s.len(),
    ensures
        carries(s.take(i + 1), c) == (carries(s.take(i), c) || s[i].code() == c),
{
    let t = s.take(i + 1);
    if carries(s.take(i), c) {
        let j = choose|j: int| 0 <= j < i && (#[trigger] s.take(i)[j]).code() == c;
        assert(t[j].code() == c);
    }
    if s[i].code() == c {
        assert(t[i].code() == c);
    }
    if carries(t, c) {
        let j = choose|j: int| 0 <= j < t.len() && (#[trigger] t[j]).code() == c;
        if j < i {
            assert(s.take(i)[j].code() == c);
        }
    }
}

/// The attributes with which a route to `nlri` is passed on, in the order of their codes.
pub open spec fn outgoing(
    is_ibgp: bool,
    local_as: u32,
    nlri: Nlri,
    original_nexthop: IpAddr,
    local_addr: IpAddr,
    attrs: Seq<AttributeView>,
) -> Seq<AttributeView> {
    by_code(
        attrs.filter(passed_on(is_ibgp)) + new_attrs(
            is_ibgp,
            nlri.net().spec_is_v6(),
            local_as,
            nlri,
            original_nexthop,
            local_addr,
            attrs,
        ),
    )
}

/// References to the attributes in `v`.
pub fn references<'a>(v: &'a Vec<Attribute>) -> (r: Vec<&'a Attribute>)
    ensures
        bgp::attr_ref_views(r@) == bgp::attr_views(v@),
{
    let mut r: Vec<&'a Attribute> = Vec::new();
    let mut i: usize = 0;
    let ghost views = bgp::attr_views(v@);
    while i < v.len()
        invariant
            i <= v@.len(),
            views == bgp::attr_views(v@),
            bgp::attr_ref_views(r@) == views.take(i as int),
        decreases v@.len() - i,
    {
        let ghost before = r@;
        r.push(&v[i]);
        proof {
            assert(bgp::attr_ref_views(r@) =~= bgp::attr_ref_views(before).push(views[i as int]));
            assert(views.take(i + 1) =~= views.take(i as int).push(views[i as int]));
        }
        i += 1;
    }
    assert(views.take(i as int) =~= views);
    r
}

/// Copies of the attributes that `v` refers to.
fn clone_refs(v: &Vec<&Attribute>) -> (r: Vec<Attribute>)
    ensures
        bgp::attr_views(r@) == bgp::attr_ref_views(v@),
{
    let mut r: Vec<Attribute> = Vec::new();
    let mut i: usize = 0;
    let ghost views = bgp::attr_ref_views(v@);
    while i < v.len()
        invariant
            i <= v@.len(),
            views == bgp::attr_ref_views(v@),
            bgp::attr_views(r@) == views.take(i as int),
        decreases v@.len() - i,
    {
        let ghost before = r@;
        let a: &Attribute = v[i];
        r.push(a.clone());
        proof {
            assert(bgp::attr_views(r@) =~= bgp::attr_views(before).push(views[i as int]));
            assert(views.take(i + 1) =~= views.take(i as int).push(views[i as int]));
        }
        i += 1;
    }
    assert(views.take(i as int) =~= views);
    r
}

/// The attributes with which a route is passed on, in the order of their codes.
pub fn outgoing_attrs(
    is_ibgp: bool,
    local_as: u32,
    nlri: Nlri,
    original_nexthop: IpAddr,
    local_addr: IpAddr,
    attrs: &Vec<Attribute>,
) -> (r: Vec<Attribute>)
    ensures
        bgp::attr_views(r@) == outgoing(
            is_ibgp,
            local_as,
            nlri,
            original_nexthop,
            local_addr,
            bgp::attr_views(attrs@),
        ),
{
    let refs = references(attrs);
    let ghost all = refs@;
    let (v, mut n) = update_attrs(
        is_ibgp,
        nlri.is_mp(),
        local_as,
        nlri,
        original_nexthop,
        local_addr,
        refs,
    );
    proof {
        lists::lemma_filter_map_values(
            all,
            |a: &Attribute| a@,
            passed_on_ref(is_ibgp),
            passed_on(is_ibgp),
        );
    }
    let mut r = clone_refs(&v);
    let ghost kept = r@;
    let ghost made = n@;
    r.append(&mut n);
    proof {
        assert(bgp::attr_views(r@) =~= bgp::attr_views(kept) + bgp::attr_views(made));
    }
    sort_attrs(&mut r);
    r
}

/// The message that tells the peer of `my` about `update`.
pub open spec fn update_pdu(my: Source, update: TableUpdate) -> UpdatePduView {
    match update {
        TableUpdate::NewBest(nlri, nexthop, attrs, _) => UpdatePduView {
            routes: if nlri.net().spec_is_v6() {
                Seq::empty()
            } else {
                seq![nlri]
            },
            withdrawns: Seq::empty(),
            attrs: outgoing(
                my.ibgp,
                my.local_as,
                nlri,
                nexthop,
                my.local_addr,
                bgp::attr_views(attrs.entry@),
            ),
        },
        TableUpdate::Withdrawn(nlri, _) => UpdatePduView {
            routes: Seq::empty(),
            withdrawns: seq![nlri],
            attrs: Seq::empty(),
        },
    }
}

/// What the messages in `v` hold.
pub open spec fn pdu_views(v: Seq<UpdatePdu>) -> Seq<UpdatePduView> {
    v.map_values(|p: UpdatePdu| p@)
}

/// The messages that tell the peer of `my` about `updates`.
pub open spec fn update_pdus(my: Source, updates: Seq<TableUpdate>) -> Seq<UpdatePduView> {
    updates.map_values(|u: TableUpdate| update_pdu(my, u))
}

/// The updates that withdraw a route.
pub open spec fn withdraws() -> spec_fn(TableUpdate) -> bool {
    |u: TableUpdate| u is Withdrawn
}

fn one(nlri: Nlri) -> (r: Vec<Nlri>)
    ensures
        r@ == seq![nlri],
{
    let mut r: Vec<Nlri> = Vec::new();
    r.push(nlri);
    assert(r@ =~= seq![nlri]);
    r
}

/// The message that tells the peer of `my` about one update.
pub fn to_update_pdu(my: &Source, update: &TableUpdate) -> (r: UpdatePdu)
    ensures
        r@ == update_pdu(*my, *update),
{
    match update {
        TableUpdate::NewBest(nlri, nexthop, attrs, _) => {
            let routes = if nlri.is_mp() {
                Vec::new()
            } else {
                one(*nlri)
            };
            let attrs = outgoing_attrs(
                my.ibgp,
                my.local_as,
                *nlri,
                *nexthop,
                my.local_addr,
                &attrs.entry,
            );
            let r = UpdatePdu { routes, withdrawns: Vec::new(), attrs };
            assert(r@ =~= update_pdu(*my, *update));
            r
        },
        TableUpdate::Withdrawn(nlri, _) => {
            let r = UpdatePdu { routes: Vec::new(), withdrawns: one(*nlri), attrs: Vec::new() };
            assert(r@ =~= update_pdu(*my, *update));
            r
        },
    }
}

/// The messages that tell the peer of `my` about the updates, and how many messages and how many
/// prefixes of them are withdrawals.
pub fn send_update(my: &Source, updates: &Vec<TableUpdate>) -> (r: (Vec<UpdatePdu>, (u64, u64)))
    ensures
        pdu_views(r.0@) == update_pdus(*my, updates@),
        r.1.0 == updates@.filter(withdraws()).len(),
        r.1.1 == updates@.filter(withdraws()).len(),
{
    let mut pdus: Vec<UpdatePdu> = Vec::new();
    let mut withdraw: u64 = 0;
    let mut i: usize = 0;
    let ghost all = update_pdus(*my, updates@);
    proof {
        lists::lemma_filter_empty(updates@.take(0), withdraws());
    }
    while i < updates.len()
        invariant
            i <= updates@.len(),
            all == update_pdus(*my, updates@),
            pdu_views(pdus@) == all.take(i as int),
            withdraw == updates@.take(i as int).filter(withdraws()).len(),
            withdraw <= i,
        decreases updates@.len() - i,
    {
        let ghost before = pdus@;
        proof {
            lists::lemma_filter_take(updates@, withdraws(), i as int);
        }
        pdus.push(to_update_pdu(my, &updates[i]));
        proof {
            assert(pdu_views(pdus@) =~= pdu_views(before).push(all[i as int]));
            assert(all.take(i + 1) =~= all.take(i as int).push(all[i as int]));
        }
        match &updates[i] {
            TableUpdate::Withdrawn(_, _) => {
                withdraw = withdraw + 1;
            },
            _ => {},
        }
        i += 1;
    }
    proof {
        assert(updates@.take(i as int) =~= updates@);
        assert(all.take(i as int) =~= all);
    }
    (pdus, (withdraw, withdraw))
}

/// The message that shows the route `p` to `nlri` as it came in.
pub open spec fn path_pdu(p: Path, nlri: Nlri) -> UpdatePduView {
    UpdatePduView {
        routes: if nlri.net().spec_is_v6() {
            Seq::empty()
        } else {
            seq![nlri]
        },
        withdrawns: Seq::empty(),
        attrs: bgp::attr_views(p.attrs.entry@).push(
            reach(nlri.net().spec_is_v6(), nlri, p.nexthop),
        ),
    }
}

/// The message that withdraws the route to `nlri`.
pub open spec fn withdrawal_pdu(nlri: Nlri) -> UpdatePduView {
    UpdatePduView { routes: Seq::empty(), withdrawns: seq![nlri], attrs: Seq::empty() }
}

/// The message that withdraws the route to `nlri`.
pub fn to_withdrawal(nlri: Nlri) -> (r: UpdatePdu)
    ensures
        r@ == withdrawal_pdu(nlri),
{
    let r = UpdatePdu { routes: Vec::new(), withdrawns: one(nlri), attrs: Vec::new() };
    assert(r@ =~= withdrawal_pdu(nlri));
    r
}

impl Path {
    /// The message that shows the route to `nlri` as it came in.
    pub fn to_payload(&self, nlri: Nlri) -> (r: UpdatePdu)
        ensures
            r@ == path_pdu(*self, nlri),
    {
        let is_mp = nlri.is_mp();
        let routes = if is_mp {
            Vec::new()
        } else {
            one(nlri)
        };
        let mut attrs = bgp::clone_attrs(&self.attrs.entry);
        let ghost before = attrs@;
        attrs.push(reach_attr(is_mp, nlri, self.nexthop));
        proof {
            assert(bgp::attr_views(attrs@) =~= bgp::attr_views(before).push(attrs@.last()@));
        }
        let r = UpdatePdu { routes, withdrawns: Vec::new(), attrs };
        assert(r@ =~= path_pdu(*self, nlri));
        r
    }
}

proof fn lemma_by_code_contains(s: Seq<AttributeView>, x: AttributeView)
    ensures
        by_code(s).contains(x) == s.contains(x),
{
    law_by_code_is_a_stable_sort(s, x.code());
    lists::lemma_filter_contains(s, has_code(x.code()), x);
    lists::lemma_filter_contains(by_code(s), has_code(x.code()), x);
}

/// Only what is passed on and what is made anew goes out, and all of it does.
pub proof fn lemma_outgoing_contains(
    is_ibgp: bool,
    local_as: u32,
    nlri: Nlri,
    nexthop: IpAddr,
    local_addr: IpAddr,
    attrs: Seq<AttributeView>,
    x: AttributeView,
)
    ensures
        outgoing(is_ibgp, local_as, nlri, nexthop, local_addr, attrs).contains(x) == ((
        attrs.contains(x) && passed_on(is_ibgp)(x)) || new_attrs(
            is_ibgp,
            nlri.net().spec_is_v6(),
            local_as,
            nlri,
            nexthop,
            local_addr,
            attrs,
        ).contains(x)),
{
    let kept = attrs.filter(passed_on(is_ibgp));
    let made = new_attrs(
        is_ibgp,
        nlri.net().spec_is_v6(),
        local_as,
        nlri,
        nexthop,
        local_addr,
        attrs,
    );
    lemma_by_code_contains(kept + made, x);
    lists::lemma_filter_contains(attrs, passed_on(is_ibgp), x);
    if kept.contains(x) {
        let i = choose|i: int| 0 <= i < kept.len() && kept[i] == x;
        assert((kept + made)[i] == x);
    }
    if made.contains(x) {
        let i = choose|i: int| 0 <= i < made.len() && made[i] == x;
        assert((kept + made)[kept.len() + i] == x);
    }
    if (kept + made).contains(x) {
        let i = choose|i: int| 0 <= i < (kept + made).len() && (kept + made)[i] == x;
        if i < kept.len() {
            assert(kept[i] == x);
        } else {
            assert(made[i - kept.len()] == x);
        }
    }
}

/// What is selected comes from something that it is selected from.
pub proof fn lemma_selected(
    s: Seq<AttributeView>,
    f: spec_fn(AttributeView) -> Option<AttributeView>,
    i: int,
)
    requires
        0 <= i < s.filter_map(f).len(),
    ensures
        exists|j: int| 0 <= j < s.len() && f(#[trigger] s[j]) == Some(s.filter_map(f)[i]),
    decreases s.len(),
{
    if s.len() == 0 {
        lists::lemma_filter_map_empty(s, f);
    } else {
        let n = s.len() - 1;
        lists::lemma_filter_map_take(s, f, n);
        assert(s.take(n + 1) =~= s);
        let t = s.take(n);
        if i < t.filter_map(f).len() {
            lemma_selected(t, f, i);
            let j = choose|j: int| 0 <= j < t.len() && f(#[trigger] t[j]) == Some(t.filter_map(f)[i]);
            assert(s[j] == t[j]);
        } else {
            assert(f(s[n]) == Some(s.filter_map(f)[i]));
        }
    }
}

/// What is selected from one of the attributes is among what is selected.
proof fn lemma_selects(
    s: Seq<AttributeView>,
    f: spec_fn(AttributeView) -> Option<AttributeView>,
    j: int,
)
    requires
        0 <= j < s.len(),
        f(s[j]) is Some,
    ensures
        s.filter_map(f).contains(f(s[j])->0),
    decreases s.len(),
{
    let n = s.len() - 1;
    lists::lemma_filter_map_take(s, f, n);
    assert(s.take(n + 1) =~= s);
    let t = s.take(n);
    if j < n {
        lemma_selects(t, f, j);
        let x = f(s[j])->0;
        let i = choose|i: int| 0 <= i < t.filter_map(f).len() && t.filter_map(f)[i] == x;
        assert(s.filter_map(f)[i] == x);
    } else {
        assert(s.filter_map(f).last() == f(s[j])->0);
    }
}

/// Every AS path that goes to a peer of another AS starts with the own AS number.
pub proof fn law_own_as_comes_first(
    local_as: u32,
    nlri: Nlri,
    nexthop: IpAddr,
    local_addr: IpAddr,
    attrs: Seq<AttributeView>,
    i: int,
)
    requires
        0 <= i < outgoing(false, local_as, nlri, nexthop, local_addr, attrs).len(),
        outgoing(false, local_as, nlri, nexthop, local_addr, attrs)[i] is AsPath,
    ensures
        ({
            let segments = outgoing(
                false,
                local_as,
                nlri,
                nexthop,
                local_addr,
                attrs,
            )[i]->segments;
            &&& segments.len() > 0
            &&& segments[0].segment_type == bgp::SEGMENT_SEQ
            &&& segments[0].number.len() > 0
            &&& segments[0].number[0] == local_as
        }),
{
    let out = outgoing(false, local_as, nlri, nexthop, local_addr, attrs);
    let x = out[i];
    assert(out.contains(x));
    lemma_outgoing_contains(false, local_as, nlri, nexthop, local_addr, attrs, x);
    let made = new_attrs(
        false,
        nlri.net().spec_is_v6(),
        local_as,
        nlri,
        nexthop,
        local_addr,
        attrs,
    );
    assert(made.contains(x));
    let k = choose|k: int| 0 <= k < made.len() && made[k] == x;
    let paths = attrs.filter_map(lengthened(local_as));
    if k < paths.len() {
        assert(made[k] == paths[k]);
        lemma_selected(attrs, lengthened(local_as), k);
    }
}

/// A route always goes out with an AS path.
pub proof fn law_as_path_is_present(
    is_ibgp: bool,
    local_as: u32,
    nlri: Nlri,
    nexthop: IpAddr,
    local_addr: IpAddr,
    attrs: Seq<AttributeView>,
)
    requires
        forall|i: int| 0 <= i < attrs.len() ==> (#[trigger] attrs[i]).wf(),
    ensures
        exists|x: AttributeView|
            #![trigger outgoing(is_ibgp, local_as, nlri, nexthop, local_addr, attrs).contains(x)]
            x is AsPath && outgoing(
                is_ibgp,
                local_as,
                nlri,
                nexthop,
                local_addr,
                attrs,
            ).contains(x),
{
    let is_mp = nlri.net().spec_is_v6();
    let made = new_attrs(is_ibgp, is_mp, local_as, nlri, nexthop, local_addr, attrs);
    let paths = if is_ibgp {
        Seq::empty()
    } else {
        attrs.filter_map(lengthened(local_as))
    };
    if carries(attrs, bgp::AS_PATH) {
        let j = choose|j: int| 0 <= j < attrs.len() && (#[trigger] attrs[j]).code() == bgp::AS_PATH;
        assert(attrs[j] is AsPath);
        if is_ibgp {
            assert(attrs.contains(attrs[j]));
            lemma_outgoing_contains(
                is_ibgp,
                local_as,
                nlri,
                nexthop,
                local_addr,
                attrs,
                attrs[j],
            );
        } else {
            lemma_selects(attrs, lengthened(local_as), j);
            let x = lengthened(local_as)(attrs[j])->0;
            let i = choose|i: int| 0 <= i < paths.len() && paths[i] == x;
            assert(made[i] == x);
            lemma_outgoing_contains(is_ibgp, local_as, nlri, nexthop, local_addr, attrs, x);
        }
    } else {
        let x = made[paths.len() as int + 1];
        assert(x is AsPath);
        assert(made.contains(x));
        lemma_outgoing_contains(is_ibgp, local_as, nlri, nexthop, local_addr, attrs, x);
    }
}

/// No exit discriminator goes to a peer of another AS.
pub proof fn law_no_exit_discriminator(
    local_as: u32,
    nlri: Nlri,
    nexthop: IpAddr,
    local_addr: IpAddr,
    attrs: Seq<AttributeView>,
    x: AttributeView,
)
    requires
        outgoing(false, local_as, nlri, nexthop, local_addr, attrs).contains(x),
    ensures
        !(x is MultiExitDesc),
{
    lemma_outgoing_contains(false, local_as, nlri, nexthop, local_addr, attrs, x);
    let is_mp = nlri.net().spec_is_v6();
    let made = new_attrs(false, is_mp, local_as, nlri, nexthop, local_addr, attrs);
    if made.contains(x) {
        let k = choose|k: int| 0 <= k < made.len() && made[k] == x;
        let paths = attrs.filter_map(lengthened(local_as));
        if k < paths.len() {
            assert(made[k] == paths[k]);
            lemma_selected(attrs, lengthened(local_as), k);
        }
    }
}

/// A route that carries no next hop among its attributes goes out with one: the one it has to a
/// peer of the own AS, and the own address to any other.
pub proof fn law_next_hop(
    is_ibgp: bool,
    local_as: u32,
    nlri: Nlri,
    nexthop: IpAddr,
    local_addr: IpAddr,
    attrs: Seq<AttributeView>,
    x: AttributeView,
)
    requires
        forall|i: int| 0 <= i < attrs.len() ==> !((#[trigger] attrs[i]) is Nexthop),
        x is Nexthop || x is MpReach,
    ensures
        outgoing(is_ibgp, local_as, nlri, nexthop, local_addr, attrs).contains(x) == (x == reach(
            nlri.net().spec_is_v6(),
            nlri,
            if is_ibgp {
                nexthop
            } else {
                local_addr
            },
        )),
{
    lemma_outgoing_contains(is_ibgp, local_as, nlri, nexthop, local_addr, attrs, x);
    let is_mp = nlri.net().spec_is_v6();
    let made = new_attrs(is_ibgp, is_mp, local_as, nlri, nexthop, local_addr, attrs);
    let paths = if is_ibgp {
        Seq::empty()
    } else {
        attrs.filter_map(lengthened(local_as))
    };
    if made.contains(x) {
        let k = choose|k: int| 0 <= k < made.len() && made[k] == x;
        if k < paths.len() {
            assert(made[k] == paths[k]);
            lemma_selected(attrs, lengthened(local_as), k);
        }
    }
    let hop = reach(
        is_mp,
        nlri,
        if is_ibgp {
            nexthop
        } else {
            local_addr
        },
    );
    assert(made[paths.len() as int] == hop);
}

/// A route goes to a peer of the own AS with a preference: the one it carries, or the default.
pub proof fn law_preference_within_the_as(
    local_as: u32,
    nlri: Nlri,
    nexthop: IpAddr,
    local_addr: IpAddr,
    attrs: Seq<AttributeView>,
    preference: u32,
)
    ensures
        outgoing(true, local_as, nlri, nexthop, local_addr, attrs).contains(
            AttributeView::LocalPref { preference },
        ) == if carries(attrs, bgp::LOCAL_PREF) {
            attrs.contains(AttributeView::LocalPref { preference })
        } else {
            preference == bgp::DEFAULT_LOCAL_PREF
        },
{
    let x = AttributeView::LocalPref { preference };
    lemma_outgoing_contains(true, local_as, nlri, nexthop, local_addr, attrs, x);
    let is_mp = nlri.net().spec_is_v6();
    let made = new_attrs(true, is_mp, local_as, nlri, nexthop, local_addr, attrs);
    if made.contains(x) {
        let k = choose|k: int| 0 <= k < made.len() && made[k] == x;
    }
    if attrs.contains(x) {
        let i = choose|i: int| 0 <= i < attrs.len() && attrs[i] == x;
        assert(attrs[i].code() == bgp::LOCAL_PREF);
    }
    if !carries(attrs, bgp::LOCAL_PREF) {
        assert(made.last() == (AttributeView::LocalPref { preference: bgp::DEFAULT_LOCAL_PREF }));
        assert(made.contains(made.last()));
    }
}

} // verus!
