//! What holds of the messages that routes go out with.
use vstd::prelude::*;
use crate::addr::IpAddr;
use crate::bgp;
use crate::bgp::{Attribute, AttributeView, Family, Nlri, SegmentView};
use crate::lists;
use crate::path::{Path, Source, TableUpdate};
use crate::update;

verus! {

/// A route is passed on exactly when it does not go back where it came from, and not both ends are
/// of the own AS.
pub proof fn law_advertised(a: IpAddr, a_ibgp: bool, b: IpAddr, b_ibgp: bool)
    ensures
        a == b ==> !update::advertised(a, a_ibgp, b, b_ibgp),
        a_ibgp && b_ibgp ==> !update::advertised(a, a_ibgp, b, b_ibgp),
        a != b && (!a_ibgp || !b_ibgp) ==> update::advertised(a, a_ibgp, b, b_ibgp),
{
}

/// Which attributes go from one AS to the next: all but the exit discriminator, what reflectors
/// leave behind and the multiprotocol attribute, and of those without a form of their own the ones
/// that are flagged for it.
pub proof fn law_transitive(x: AttributeView)
    ensures
        x is Origin || x is AsPath || x is Nexthop || x is LocalPref || x is AtomicAggregate
            || x is Aggregator || x is Community ==> x.transitive(),
        x is MultiExitDesc || x is OriginatorId || x is ClusterList || x is MpReach
            ==> !x.transitive(),
        x is Other ==> x.transitive() == (x->Other_flags & 64 != 0),
{
}

/// Every attribute of a route that goes from one AS to the next, but for the AS path and the exit
/// discriminator, goes out as it is, to peers of the own AS and of others alike.
pub proof fn law_transitive_attributes_go_out(
    is_ibgp: bool,
    local_as: u32,
    nlri: Nlri,
    nexthop: IpAddr,
    local_addr: IpAddr,
    attrs: Seq<AttributeView>,
    i: int,
)
    requires
        0 <= i < attrs.len(),
        attrs[i].transitive(),
        !(attrs[i] is AsPath),
        !(attrs[i] is MultiExitDesc),
    ensures
        update::outgoing(is_ibgp, local_as, nlri, nexthop, local_addr, attrs).contains(attrs[i]),
{
    assert(attrs.contains(attrs[i]));
    update::lemma_outgoing_contains(is_ibgp, local_as, nlri, nexthop, local_addr, attrs, attrs[i]);
}

/// The attributes with the code `c` that go from one AS to the next.
pub open spec fn of_code(c: u8) -> spec_fn(AttributeView) -> bool {
    |a: AttributeView| a.code() == c && a.transitive()
}

/// Of an attribute code that has to do neither with the way, nor with the next hop, the preference
/// or the exit, exactly the attributes of the route that go from one AS to the next go out, as
/// often and in the order that they came. In particular nothing is made up.
pub proof fn law_other_attributes(
    is_ibgp: bool,
    local_as: u32,
    nlri: Nlri,
    nexthop: IpAddr,
    local_addr: IpAddr,
    attrs: Seq<AttributeView>,
    c: u8,
)
    requires
        forall|i: int| 0 <= i < attrs.len() ==> (#[trigger] attrs[i]).wf(),
        c != 2 && c != 3 && c != 4 && c != 5 && c != 14,
    ensures
        update::outgoing(is_ibgp, local_as, nlri, nexthop, local_addr, attrs).filter(update::has_code(c))
            == attrs.filter(of_code(c)),
{
    lemma_outgoing_of_code(is_ibgp, local_as, nlri, nexthop, local_addr, attrs, c);
    lemma_filter_twice(attrs, update::passed_on(is_ibgp), update::has_code(c), of_code(c));
}

/// Filtering by two tests is filtering by a third that agrees with both wherever it matters.
proof fn lemma_filter_twice(
    s: Seq<AttributeView>,
    p: spec_fn(AttributeView) -> bool,
    q: spec_fn(AttributeView) -> bool,
    r: spec_fn(AttributeView) -> bool,
)
    requires
        forall|i: int| 0 <= i < s.len() ==> (p(#[trigger] s[i]) && q(s[i])) == r(s[i]),
    ensures
        s.filter(p).filter(q) == s.filter(r),
    decreases s.len(),
{
    if s.len() == 0 {
        lists::lemma_filter_empty(s, p);
        lists::lemma_filter_empty(s.filter(p), q);
        lists::lemma_filter_empty(s, r);
    } else {
        let t = s.drop_last();
        let x = s.last();
        assert(s =~= t.push(x));
        assert(s[s.len() - 1] == x);
        assert forall|i: int| 0 <= i < t.len() implies (p(#[trigger] t[i]) && q(t[i])) == r(
            t[i],
        ) by {
            assert(t[i] == s[i]);
        }
        lemma_filter_twice(t, p, q, r);
        lists::lemma_filter_push(t, p, x);
        lists::lemma_filter_push(t, r, x);
        lists::lemma_filter_push(t.filter(p), q, x);
    }
}

/// What a filter leaves of at most one attribute.
proof fn lemma_filter_one(s: Seq<AttributeView>, p: spec_fn(AttributeView) -> bool)
    requires
        s.len() <= 1,
    ensures
        s.len() == 1 && p(s[0]) ==> s.filter(p) == s,
        s.len() == 0 || !p(s[0]) ==> s.filter(p) == Seq::<AttributeView>::empty(),
{
    if s.len() == 1 {
        let none = Seq::<AttributeView>::empty();
        lists::lemma_filter_empty(none, p);
        lists::lemma_filter_push(none, p, s[0]);
        assert(s =~= none.push(s[0]));
    } else {
        lists::lemma_filter_empty(s, p);
    }
}

/// The AS paths that go out lengthened.
spec fn longer_paths(is_ibgp: bool, local_as: u32, attrs: Seq<AttributeView>) -> Seq<
    AttributeView,
> {
    if is_ibgp {
        Seq::empty()
    } else {
        attrs.filter_map(update::lengthened(local_as))
    }
}

/// The AS path that is made up where there is none.
spec fn made_up_path(is_ibgp: bool, local_as: u32, attrs: Seq<AttributeView>) -> Seq<
    AttributeView,
> {
    if update::carries(attrs, 2) {
        Seq::empty()
    } else if is_ibgp {
        seq![AttributeView::AsPath { segments: Seq::empty() }]
    } else {
        seq![AttributeView::AsPath { segments: seq![update::own_segment(local_as)] }]
    }
}

/// The preference that is made up where there is none.
spec fn made_up_preference(is_ibgp: bool, attrs: Seq<AttributeView>) -> Seq<AttributeView> {
    if update::carries(attrs, 5) || !is_ibgp {
        Seq::empty()
    } else {
        seq![AttributeView::LocalPref { preference: 100 }]
    }
}

/// The attributes of a code that go out, part by part.
proof fn lemma_outgoing_filter(
    is_ibgp: bool,
    local_as: u32,
    nlri: Nlri,
    nexthop: IpAddr,
    local_addr: IpAddr,
    attrs: Seq<AttributeView>,
    c: u8,
)
    ensures
        update::outgoing(is_ibgp, local_as, nlri, nexthop, local_addr, attrs).filter(update::has_code(c))
            == attrs.filter(update::passed_on(is_ibgp)).filter(update::has_code(c)) + (longer_paths(
            is_ibgp,
            local_as,
            attrs,
        ).filter(update::has_code(c)) + seq![
            update::reach(
                nlri.net().spec_is_v6(),
                nlri,
                if is_ibgp {
                    nexthop
                } else {
                    local_addr
                },
            ),
        ].filter(update::has_code(c)) + made_up_path(is_ibgp, local_as, attrs).filter(update::has_code(c))
            + made_up_preference(is_ibgp, attrs).filter(update::has_code(c))),
{
    let a = longer_paths(is_ibgp, local_as, attrs);
    let b = seq![
        update::reach(
            nlri.net().spec_is_v6(),
            nlri,
            if is_ibgp {
                nexthop
            } else {
                local_addr
            },
        ),
    ];
    let d = made_up_path(is_ibgp, local_as, attrs);
    let e = made_up_preference(is_ibgp, attrs);
    let is_mp = nlri.net().spec_is_v6();
    let made = update::new_attrs(is_ibgp, is_mp, local_as, nlri, nexthop, local_addr, attrs);
    let kept = attrs.filter(update::passed_on(is_ibgp));
    assert(made == a + b + d + e);
    update::law_by_code_is_a_stable_sort(kept + made, c);
    Seq::filter_distributes_over_add(kept, made, update::has_code(c));
    Seq::filter_distributes_over_add(a + b + d, e, update::has_code(c));
    Seq::filter_distributes_over_add(a + b, d, update::has_code(c));
    Seq::filter_distributes_over_add(a, b, update::has_code(c));
}

/// Only AS paths are lengthened.
proof fn lemma_longer_paths(is_ibgp: bool, local_as: u32, attrs: Seq<AttributeView>, c: u8)
    ensures
        c == 2 ==> longer_paths(is_ibgp, local_as, attrs).filter(update::has_code(c)) == longer_paths(
            is_ibgp,
            local_as,
            attrs,
        ),
        c != 2 ==> longer_paths(is_ibgp, local_as, attrs).filter(update::has_code(c)).len() == 0,
{
    let a = longer_paths(is_ibgp, local_as, attrs);
    assert forall|j: int| 0 <= j < a.len() implies #[trigger] a[j] is AsPath by {
        update::lemma_selected(attrs, update::lengthened(local_as), j);
    }
    if c == 2 {
        lists::lemma_filter_all(a, update::has_code(c));
    } else {
        a.lemma_all_neg_filter_empty(update::has_code(c));
    }
}

/// Which of the parts that are made anew have a code.
proof fn lemma_parts_of_code(
    is_ibgp: bool,
    local_as: u32,
    hop: AttributeView,
    attrs: Seq<AttributeView>,
    c: u8,
)
    requires
        hop is Nexthop || hop is MpReach,
    ensures
        longer_paths(is_ibgp, local_as, attrs).filter(update::has_code(c)) == if c == 2 {
            longer_paths(is_ibgp, local_as, attrs)
        } else {
            Seq::empty()
        },
        seq![hop].filter(update::has_code(c)) == if c == hop.code() {
            seq![hop]
        } else {
            Seq::empty()
        },
        made_up_path(is_ibgp, local_as, attrs).filter(update::has_code(c)) == if c == 2 {
            made_up_path(is_ibgp, local_as, attrs)
        } else {
            Seq::empty()
        },
        made_up_preference(is_ibgp, attrs).filter(update::has_code(c)) == if c == 5 {
            made_up_preference(is_ibgp, attrs)
        } else {
            Seq::empty()
        },
{
    lemma_longer_paths(is_ibgp, local_as, attrs, c);
    if c != 2 {
        assert(longer_paths(is_ibgp, local_as, attrs).filter(update::has_code(c)) =~= Seq::<
            AttributeView,
        >::empty());
    }
    lemma_filter_one(seq![hop], update::has_code(c));
    lemma_filter_one(made_up_path(is_ibgp, local_as, attrs), update::has_code(c));
    lemma_filter_one(made_up_preference(is_ibgp, attrs), update::has_code(c));
    if made_up_path(is_ibgp, local_as, attrs).len() == 0 {
        assert(made_up_path(is_ibgp, local_as, attrs) =~= Seq::<AttributeView>::empty());
    }
    if made_up_preference(is_ibgp, attrs).len() == 0 {
        assert(made_up_preference(is_ibgp, attrs) =~= Seq::<AttributeView>::empty());
    }
}

/// The attributes of a code that go out, where the code says which part they come from.
#[verifier::spinoff_prover]
#[verifier::rlimit(40)]
proof fn lemma_outgoing_of_code(
    is_ibgp: bool,
    local_as: u32,
    nlri: Nlri,
    nexthop: IpAddr,
    local_addr: IpAddr,
    attrs: Seq<AttributeView>,
    c: u8,
)
    ensures
        ({
            let out = update::outgoing(is_ibgp, local_as, nlri, nexthop, local_addr, attrs);
            let kept = attrs.filter(update::passed_on(is_ibgp)).filter(update::has_code(c));
            let hop = update::reach(
                nlri.net().spec_is_v6(),
                nlri,
                if is_ibgp {
                    nexthop
                } else {
                    local_addr
                },
            );
            &&& c == 2 ==> out.filter(update::has_code(c)) == kept + longer_paths(
                is_ibgp,
                local_as,
                attrs,
            ) + made_up_path(is_ibgp, local_as, attrs)
            &&& c == 5 ==> out.filter(update::has_code(c)) == kept + made_up_preference(
                is_ibgp,
                attrs,
            )
            &&& c == hop.code() ==> out.filter(update::has_code(c)) == kept.push(hop)
            &&& c != 2 && c != 5 && c != hop.code() ==> out.filter(update::has_code(c)) == kept
        }),
{
    let out = update::outgoing(is_ibgp, local_as, nlri, nexthop, local_addr, attrs).filter(
        update::has_code(c),
    );
    let hop = update::reach(
        nlri.net().spec_is_v6(),
        nlri,
        if is_ibgp {
            nexthop
        } else {
            local_addr
        },
    );
    let k = attrs.filter(update::passed_on(is_ibgp)).filter(update::has_code(c));
    let b = seq![hop];
    let a = longer_paths(is_ibgp, local_as, attrs);
    let d = made_up_path(is_ibgp, local_as, attrs);
    let e = made_up_preference(is_ibgp, attrs);
    lemma_outgoing_filter(is_ibgp, local_as, nlri, nexthop, local_addr, attrs, c);
    lemma_parts_of_code(is_ibgp, local_as, hop, attrs, c);
    lemma_join(
        out,
        k,
        a.filter(update::has_code(c)),
        b.filter(update::has_code(c)),
        d.filter(update::has_code(c)),
        e.filter(update::has_code(c)),
    );
    assert(k + b =~= k.push(hop));
}

proof fn lemma_join(
    x: Seq<AttributeView>,
    k: Seq<AttributeView>,
    a: Seq<AttributeView>,
    b: Seq<AttributeView>,
    d: Seq<AttributeView>,
    e: Seq<AttributeView>,
)
    requires
        x == k + (a + b + d + e),
    ensures
        b.len() == 0 && e.len() == 0 ==> x == k + a + d,
        a.len() == 0 && b.len() == 0 && d.len() == 0 ==> x == k + e,
        a.len() == 0 && d.len() == 0 && e.len() == 0 ==> x == k + b,
        a.len() == 0 && b.len() == 0 && d.len() == 0 && e.len() == 0 ==> x == k,
{
    if b.len() == 0 && e.len() == 0 {
        assert(x =~= k + a + d);
    }
    if a.len() == 0 && b.len() == 0 && d.len() == 0 {
        assert(x =~= k + e);
    }
    if a.len() == 0 && d.len() == 0 && e.len() == 0 {
        assert(x =~= k + b);
    }
    if a.len() == 0 && b.len() == 0 && d.len() == 0 && e.len() == 0 {
        assert(x =~= k);
    }
}

/// Where a test keeps nothing that another test keeps of `s`, nothing is left of it.
proof fn lemma_nothing_left(
    s: Seq<AttributeView>,
    p: spec_fn(AttributeView) -> bool,
    q: spec_fn(AttributeView) -> bool,
)
    requires
        forall|i: int| 0 <= i < s.len() ==> !(p(#[trigger] s[i]) && q(s[i])),
    ensures
        s.filter(p).filter(q).len() == 0,
{
    let t = s.filter(p);
    assert forall|i: int| 0 <= i < t.len() implies !q(#[trigger] t[i]) by {
        assert(t.contains(t[i]));
        lists::lemma_filter_contains(s, p, t[i]);
        let j = choose|j: int| 0 <= j < s.len() && s[j] == t[i];
        assert(!(p(s[j]) && q(s[j])));
    }
    t.lemma_all_neg_filter_empty(q);
}

proof fn lemma_carries_filter(s: Seq<AttributeView>, c: u8)
    ensures
        update::carries(s, c) == (s.filter(update::has_code(c)).len() > 0),
{
    let f = s.filter(update::has_code(c));
    if f.len() > 0 {
        assert(f.contains(f[0]));
        lists::lemma_filter_contains(s, update::has_code(c), f[0]);
        let j = choose|j: int| 0 <= j < s.len() && s[j] == f[0];
        assert(s[j].code() == c);
    }
    if update::carries(s, c) {
        let j = choose|j: int| 0 <= j < s.len() && (#[trigger] s[j]).code() == c;
        assert(s.contains(s[j]));
        lists::lemma_filter_contains(s, update::has_code(c), s[j]);
    }
}

/// To a peer of the own AS the AS paths of a route go out as they are, and an empty one where it
/// has none.
pub proof fn law_as_path_within_the_as(
    local_as: u32,
    nlri: Nlri,
    nexthop: IpAddr,
    local_addr: IpAddr,
    attrs: Seq<AttributeView>,
)
    requires
        forall|i: int| 0 <= i < attrs.len() ==> (#[trigger] attrs[i]).wf(),
    ensures
        update::outgoing(true, local_as, nlri, nexthop, local_addr, attrs).filter(update::has_code(2))
            == if attrs.filter(update::has_code(2)).len() > 0 {
            attrs.filter(update::has_code(2))
        } else {
            seq![AttributeView::AsPath { segments: Seq::empty() }]
        },
{
    lemma_outgoing_of_code(true, local_as, nlri, nexthop, local_addr, attrs, 2);
    lemma_filter_twice(attrs, update::passed_on(true), update::has_code(2), update::has_code(2));
    lemma_carries_filter(attrs, 2);
    let k = attrs.filter(update::has_code(2));
    let none = Seq::<AttributeView>::empty();
    let d = made_up_path(true, local_as, attrs);
    if k.len() > 0 {
        assert(k + none + none =~= k);
    } else {
        assert(k + none + d =~= d);
    }
}

/// The preferences of a route go out as they are. To a peer of the own AS 100 goes out where the
/// route has none, and to any other none does.
pub proof fn law_preference_goes_out(
    is_ibgp: bool,
    local_as: u32,
    nlri: Nlri,
    nexthop: IpAddr,
    local_addr: IpAddr,
    attrs: Seq<AttributeView>,
)
    requires
        forall|i: int| 0 <= i < attrs.len() ==> (#[trigger] attrs[i]).wf(),
    ensures
        update::outgoing(is_ibgp, local_as, nlri, nexthop, local_addr, attrs).filter(update::has_code(5))
            == if attrs.filter(update::has_code(5)).len() > 0 || !is_ibgp {
            attrs.filter(update::has_code(5))
        } else {
            seq![AttributeView::LocalPref { preference: 100 }]
        },
{
    lemma_outgoing_of_code(is_ibgp, local_as, nlri, nexthop, local_addr, attrs, 5);
    lemma_filter_twice(
        attrs,
        update::passed_on(is_ibgp),
        update::has_code(5),
        update::has_code(5),
    );
    lemma_carries_filter(attrs, 5);
    let k = attrs.filter(update::has_code(5));
    let e = made_up_preference(is_ibgp, attrs);
    if k.len() > 0 || !is_ibgp {
        assert(k + e =~= k);
    } else {
        assert(k + e =~= e);
    }
}

/// No exit discriminator is passed on, to whomever.
pub proof fn law_exit_stays(
    is_ibgp: bool,
    local_as: u32,
    nlri: Nlri,
    nexthop: IpAddr,
    local_addr: IpAddr,
    attrs: Seq<AttributeView>,
)
    requires
        forall|i: int| 0 <= i < attrs.len() ==> (#[trigger] attrs[i]).wf(),
    ensures
        update::outgoing(is_ibgp, local_as, nlri, nexthop, local_addr, attrs).filter(update::has_code(4)).len()
            == 0,
{
    lemma_outgoing_of_code(is_ibgp, local_as, nlri, nexthop, local_addr, attrs, 4);
    lemma_nothing_left(attrs, update::passed_on(is_ibgp), update::has_code(4));
}

/// To a peer of another AS there goes out one AS path for each that the route has, in their order,
/// or one with the own AS alone where it has none.
pub proof fn law_as_path_to_another_as(
    local_as: u32,
    nlri: Nlri,
    nexthop: IpAddr,
    local_addr: IpAddr,
    attrs: Seq<AttributeView>,
    i: int,
)
    requires
        forall|i: int| 0 <= i < attrs.len() ==> (#[trigger] attrs[i]).wf(),
    ensures
        ({
            let out = update::outgoing(false, local_as, nlri, nexthop, local_addr, attrs).filter(
                update::has_code(2),
            );
            let paths = attrs.filter(update::has_code(2));
            &&& paths.len() == 0 ==> out == seq![
                AttributeView::AsPath {
                    segments: seq![SegmentView { segment_type: 2, number: seq![local_as] }],
                },
            ]
            &&& paths.len() > 0 ==> out.len() == paths.len()
            &&& 0 <= i < paths.len() ==> paths[i] is AsPath && out[i] == (AttributeView::AsPath {
                segments: update::prepended(paths[i]->segments, local_as),
            })
        }),
{
    lemma_outgoing_of_code(false, local_as, nlri, nexthop, local_addr, attrs, 2);
    lemma_nothing_left(attrs, update::passed_on(false), update::has_code(2));
    lemma_carries_filter(attrs, 2);
    lemma_lengthened(attrs, local_as);
    let k = attrs.filter(update::passed_on(false)).filter(update::has_code(2));
    let a = longer_paths(false, local_as, attrs);
    let d = made_up_path(false, local_as, attrs);
    if attrs.filter(update::has_code(2)).len() > 0 {
        assert(k + a + d =~= a);
    } else {
        assert(k + a + d =~= d);
    }
}

/// The AS paths of a route are lengthened one by one.
proof fn lemma_lengthened(s: Seq<AttributeView>, local_as: u32)
    requires
        forall|i: int| 0 <= i < s.len() ==> (#[trigger] s[i]).wf(),
    ensures
        ({
            let paths = s.filter(update::has_code(2));
            let longer = s.filter_map(update::lengthened(local_as));
            &&& longer.len() == paths.len()
            &&& forall|i: int|
                0 <= i < paths.len() ==> (#[trigger] paths[i]) is AsPath && longer[i]
                    == (AttributeView::AsPath { segments: update::prepended(paths[i]->segments, local_as) })
        }),
    decreases s.len(),
{
    if s.len() == 0 {
        lists::lemma_filter_empty(s, update::has_code(2));
        lists::lemma_filter_map_empty(s, update::lengthened(local_as));
    } else {
        let t = s.drop_last();
        let x = s.last();
        assert(s =~= t.push(x));
        assert(s[s.len() - 1] == x);
        assert forall|i: int| 0 <= i < t.len() implies (#[trigger] t[i]).wf() by {
            assert(t[i] == s[i]);
        }
        lemma_lengthened(t, local_as);
        lists::lemma_filter_push(t, update::has_code(2), x);
        lists::lemma_filter_map_push(t, update::lengthened(local_as), x);
    }
}

/// An AS path that goes to another AS is turned round segment by segment, and has the own AS
/// number in front and is otherwise as it was: in front of what is now the first segment where
/// that is a sequence that is not full with 255 numbers, and in a segment of its own before it
/// otherwise.
pub proof fn law_own_as_is_prepended(s: Seq<SegmentView>, local_as: u32, i: int)
    ensures
        ({
            let r = update::prepended(s, local_as);
            let fits = s.len() > 0 && s.last().segment_type == 2 && s.last().number.len() != 255;
            &&& fits ==> r.len() == s.len() && r[0].segment_type == 2 && r[0].number == seq![
                local_as,
            ] + s.last().number
            &&& fits && 1 <= i < s.len() ==> r[i] == s[s.len() - 1 - i]
            &&& !fits ==> r.len() == s.len() + 1 && r[0].segment_type == 2 && r[0].number == seq![
                local_as,
            ]
            &&& !fits && 1 <= i <= s.len() ==> r[i] == s[s.len() - i]
        }),
{
}

/// The next hop of a route goes out once more than the route itself carries it: the one that the
/// route has to a peer of the own AS, the own address to any other. For an IPv6 route it stands in
/// the multiprotocol attribute, together with the destination.
pub proof fn law_next_hop_goes_out(
    is_ibgp: bool,
    local_as: u32,
    nlri: Nlri,
    nexthop: IpAddr,
    local_addr: IpAddr,
    attrs: Seq<AttributeView>,
)
    requires
        forall|i: int| 0 <= i < attrs.len() ==> (#[trigger] attrs[i]).wf(),
    ensures
        ({
            let out = update::outgoing(is_ibgp, local_as, nlri, nexthop, local_addr, attrs);
            let hop = if is_ibgp {
                nexthop
            } else {
                local_addr
            };
            match nlri {
                Nlri::Ip(net) => match net.addr {
                    IpAddr::V4(_) => out.filter(update::has_code(3)) == attrs.filter(update::has_code(3)).push(
                        AttributeView::Nexthop { nexthop: hop },
                    ) && out.filter(update::has_code(14)).len() == 0,
                    IpAddr::V6(_) => out.filter(update::has_code(3)) == attrs.filter(update::has_code(3))
                        && out.filter(update::has_code(14)) == seq![
                        AttributeView::MpReach {
                            family: Family::Ipv6Uc,
                            nexthop: hop,
                            nlri: seq![nlri],
                        },
                    ],
                },
            }
        }),
{
    lemma_outgoing_of_code(is_ibgp, local_as, nlri, nexthop, local_addr, attrs, 3);
    lemma_outgoing_of_code(is_ibgp, local_as, nlri, nexthop, local_addr, attrs, 14);
    lemma_filter_twice(
        attrs,
        update::passed_on(is_ibgp),
        update::has_code(3),
        update::has_code(3),
    );
    lemma_nothing_left(attrs, update::passed_on(is_ibgp), update::has_code(14));
    let k = attrs.filter(update::passed_on(is_ibgp)).filter(update::has_code(14));
    let hop = update::reach(
        nlri.net().spec_is_v6(),
        nlri,
        if is_ibgp {
            nexthop
        } else {
            local_addr
        },
    );
    assert(k.push(hop) =~= seq![hop]);
}

/// A new best route goes out as an announcement of its destination and of nothing else, in the
/// message itself for IPv4 and among the attributes for IPv6, with the attributes that go to such
/// a peer. A loss goes out as a withdrawal of its destination and nothing else.
pub proof fn law_message_of_an_update(my: Source, u: TableUpdate)
    ensures
        ({
            let m = update::update_pdu(my, u);
            match u {
                TableUpdate::NewBest(n, nexthop, attrs, _) => {
                    &&& m.withdrawns.len() == 0
                    &&& m.attrs == update::outgoing(
                        my.ibgp,
                        my.local_as,
                        n,
                        nexthop,
                        my.local_addr,
                        bgp::attr_views(attrs.entry@),
                    )
                    &&& (match n {
                        Nlri::Ip(net) => match net.addr {
                            IpAddr::V4(_) => m.routes == seq![n],
                            IpAddr::V6(_) => m.routes.len() == 0,
                        },
                    })
                },
                TableUpdate::Withdrawn(n, _) => m.routes.len() == 0 && m.withdrawns == seq![n]
                    && m.attrs.len() == 0,
            }
        }),
{
}

/// Updates go out one message each, in their order.
pub proof fn law_messages_of_updates(my: Source, s: Seq<TableUpdate>, i: int)
    ensures
        update::update_pdus(my, s).len() == s.len(),
        0 <= i < s.len() ==> update::update_pdus(my, s)[i] == update::update_pdu(my, s[i]),
{
}

/// A monitoring station sees a route as it came in: all its attributes in the order they have, and
/// behind them its own next hop, in the multiprotocol attribute for IPv6. It sees a withdrawal as
/// one of the destination alone.
pub proof fn law_monitored_route(p: Path, n: Nlri)
    ensures
        ({
            let m = update::path_pdu(p, n);
            let attrs = bgp::attr_views(p.attrs.entry@);
            &&& m.withdrawns.len() == 0
            &&& (match n {
                Nlri::Ip(net) => match net.addr {
                    IpAddr::V4(_) => m.routes == seq![n] && m.attrs == attrs.push(
                        AttributeView::Nexthop { nexthop: p.nexthop },
                    ),
                    IpAddr::V6(_) => m.routes.len() == 0 && m.attrs == attrs.push(
                        AttributeView::MpReach {
                            family: Family::Ipv6Uc,
                            nexthop: p.nexthop,
                            nlri: seq![n],
                        },
                    ),
                },
            })
            &&& update::withdrawal_pdu(n).withdrawns == seq![n]
            &&& update::withdrawal_pdu(n).routes.len() == 0
            &&& update::withdrawal_pdu(n).attrs.len() == 0
        }),
{
}

/// Of the references that a route is passed on with, exactly those go out as they are that go out
/// of the attributes themselves.
pub proof fn law_passed_on_ref<'a>(is_ibgp: bool, a: &'a Attribute)
    ensures
        update::passed_on_ref(is_ibgp)(a) == (a@.transitive() && (is_ibgp || !(a@ is AsPath))),
{
}

} // verus!
