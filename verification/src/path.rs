//! Routes, and which of two routes is to be preferred.
use std::sync::Arc;
use vstd::prelude::*;
use crate::addr::IpAddr;
use crate::bgp;
use crate::bgp::{Attribute, Nlri, State};
use crate::time::Timestamp;

verus! {

/// Where routes come from: a peer, or the speaker itself.
#[derive(Clone, Copy, PartialEq, Eq, Structural, Debug)]
pub struct Source {
    pub address: IpAddr,
    /// Whether the peer is in the same AS.
    pub ibgp: bool,
    pub local_as: u32,
    pub local_addr: IpAddr,
    pub state: State,
}

/// The attributes of a route.
#[derive(PartialEq, Eq, Debug)]
pub struct PathAttr {
    pub entry: Vec<Attribute>,
}

/// A route, as a source has announced it.
pub struct Path {
    pub source: Arc<Source>,
    pub timestamp: Timestamp,
    pub as_number: u32,
    pub nexthop: IpAddr,
    pub attrs: Arc<PathAttr>,
}

/// The routes to one destination, the best one first.
pub struct Destination {
    pub entry: Vec<Path>,
}

impl Clone for PathAttr {
    fn clone(&self) -> (r: Self)
        ensures
            bgp::attr_views(r.entry@) == bgp::attr_views(self.entry@),
    {
        PathAttr { entry: bgp::clone_attrs(&self.entry) }
    }
}

impl Clone for Path {
    fn clone(&self) -> (r: Self)
        ensures
            r == *self,
    {
        Path {
            source: self.source.clone(),
            timestamp: self.timestamp,
            as_number: self.as_number,
            nexthop: self.nexthop,
            attrs: self.attrs.clone(),
        }
    }
}

impl Clone for Destination {
    fn clone(&self) -> (r: Self)
        ensures
            r.entry@ == self.entry@,
    {
        let mut entry: Vec<Path> = Vec::new();
        let mut i: usize = 0;
        while i < self.entry.len()
            invariant
                i <= self.entry@.len(),
                entry@ == self.entry@.take(i as int),
            decreases self.entry@.len() - i,
        {
            entry.push(self.entry[i].clone());
            assert(self.entry@.take(i + 1) =~= self.entry@.take(i as int).push(
                self.entry@[i as int],
            ));
            i += 1;
        }
        assert(self.entry@.take(i as int) =~= self.entry@);
        Destination { entry }
    }
}

impl Destination {
    /// A destination with the routes `entry`.
    pub fn new(entry: Vec<Path>) -> (r: Destination)
        ensures
            r.entry == entry,
    {
        Destination { entry }
    }
}

/// A change of the best route to a destination.
pub enum TableUpdate {
    NewBest(Nlri, IpAddr, Arc<PathAttr>, Arc<Source>),
    Withdrawn(Nlri, Arc<Source>),
}

impl TableUpdate {
    /// The destination whose best route has changed.
    pub open spec fn nlri(self) -> Nlri {
        match self {
            TableUpdate::NewBest(nlri, _, _, _) => nlri,
            TableUpdate::Withdrawn(nlri, _) => nlri,
        }
    }
}

impl Clone for TableUpdate {
    fn clone(&self) -> (r: Self)
        ensures
            r == *self,
    {
        match self {
            TableUpdate::NewBest(nlri, nexthop, attrs, source) => TableUpdate::NewBest(
                *nlri,
                *nexthop,
                attrs.clone(),
                source.clone(),
            ),
            TableUpdate::Withdrawn(nlri, source) => TableUpdate::Withdrawn(*nlri, source.clone()),
        }
    }
}

/// The preference of the first attribute in `s` that carries one, or the default.
pub open spec fn local_preference(s: Seq<Attribute>) -> u32
    decreases s.len(),
{
    if s.len() == 0 {
        bgp::DEFAULT_LOCAL_PREF
    } else {
        match s[0] {
            Attribute::LocalPref { preference } => preference,
            _ => local_preference(s.drop_first()),
        }
    }
}

/// What the segments in `s` add up to, as parts of an AS path.
pub open spec fn segments_len(s: Seq<bgp::SegmentView>) -> nat
    decreases s.len(),
{
    if s.len() == 0 {
        0
    } else {
        segments_len(s.drop_last()) + s.last().as_len()
    }
}

/// The length of the first AS path in `s`, in 32 bits.
pub open spec fn as_path_len(s: Seq<Attribute>) -> u32
    decreases s.len(),
{
    if s.len() == 0 {
        0
    } else {
        match s[0] {
            Attribute::AsPath { segments } => (segments_len(bgp::segment_views(segments@))
                % 0x1_0000_0000) as u32,
            _ => as_path_len(s.drop_first()),
        }
    }
}

/// The origin that the first attribute in `s` with one carries, or zero.
pub open spec fn origin(s: Seq<Attribute>) -> u8
    decreases s.len(),
{
    if s.len() == 0 {
        0
    } else {
        match s[0] {
            Attribute::Origin { origin } => origin,
            _ => origin(s.drop_first()),
        }
    }
}

/// The exit discriminator that the first attribute in `s` with one carries, or zero.
pub open spec fn med(s: Seq<Attribute>) -> u32
    decreases s.len(),
{
    if s.len() == 0 {
        0
    } else {
        match s[0] {
            Attribute::MultiExitDesc { descriptor } => descriptor,
            _ => med(s.drop_first()),
        }
    }
}

impl PathAttr {
    /// The preference of a route with these attributes.
    pub open spec fn spec_local_preference(self) -> u32 {
        local_preference(self.entry@)
    }

    /// The length of the AS path of a route with these attributes.
    pub open spec fn spec_as_len(self) -> u32 {
        as_path_len(self.entry@)
    }

    /// The origin of a route with these attributes.
    pub open spec fn spec_origin(self) -> u8 {
        origin(self.entry@)
    }

    /// The exit discriminator of a route with these attributes.
    pub open spec fn spec_med(self) -> u32 {
        med(self.entry@)
    }
}

/// Whether a route with the attributes `b` goes before one with the attributes `a`: it does when
/// it is better in any one respect.
pub open spec fn goes_before(b: Arc<PathAttr>, a: Arc<PathAttr>) -> bool {
    ||| b.spec_local_preference() > a.spec_local_preference()
    ||| b.spec_as_len() < a.spec_as_len()
    ||| b.spec_origin() < a.spec_origin()
    ||| b.spec_med() < a.spec_med()
}

impl Path {
    /// The route that `source` announces at the time `timestamp`.
    pub open spec fn spec_at(
        source: Arc<Source>,
        nexthop: IpAddr,
        attrs: Arc<PathAttr>,
        timestamp: Timestamp,
    ) -> Path {
        Path { source, timestamp, as_number: 0, nexthop, attrs }
    }

    /// The route that `source` announces at the time `timestamp`.
    pub fn at(
        source: Arc<Source>,
        nexthop: IpAddr,
        attrs: Arc<PathAttr>,
        timestamp: Timestamp,
    ) -> (r: Path)
        ensures
            r == Path::spec_at(source, nexthop, attrs, timestamp),
    {
        Path { source, timestamp, as_number: 0, nexthop, attrs }
    }

    /// The route that `source` announces now.
    pub fn new(source: Arc<Source>, nexthop: IpAddr, attrs: Arc<PathAttr>) -> (r: Path)
        ensures
            r == Path::spec_at(source, nexthop, attrs, r.timestamp),
    {
        Path::at(source, nexthop, attrs, Timestamp::now())
    }

    /// The preference of the route.
    pub fn get_local_preference(&self) -> (r: u32)
        ensures
            r == self.attrs.spec_local_preference(),
    {
        let mut i: usize = 0;
        assert(self.attrs.entry@.skip(0) =~= self.attrs.entry@);
        while i < self.attrs.entry.len()
            invariant
                i <= self.attrs.entry@.len(),
                local_preference(self.attrs.entry@.skip(i as int)) == local_preference(
                    self.attrs.entry@,
                ),
            decreases self.attrs.entry@.len() - i,
        {
            assert(self.attrs.entry@.skip(i as int).drop_first() =~= self.attrs.entry@.skip(i + 1));
            match &self.attrs.entry[i] {
                Attribute::LocalPref { preference } => {
                    return *preference;
                },
                _ => {},
            }
            i += 1;
        }
        bgp::DEFAULT_LOCAL_PREF
    }

    /// The length of the AS path of the route.
    pub fn get_as_len(&self) -> (r: u32)
        ensures
            r == self.attrs.spec_as_len(),
    {
        let mut i: usize = 0;
        assert(self.attrs.entry@.skip(0) =~= self.attrs.entry@);
        while i < self.attrs.entry.len()
            invariant
                i <= self.attrs.entry@.len(),
                as_path_len(self.attrs.entry@.skip(i as int)) == as_path_len(self.attrs.entry@),
            decreases self.attrs.entry@.len() - i,
        {
            assert(self.attrs.entry@.skip(i as int).drop_first() =~= self.attrs.entry@.skip(i + 1));
            match &self.attrs.entry[i] {
                Attribute::AsPath { segments } => {
                    return sum_segments(segments);
                },
                _ => {},
            }
            i += 1;
        }
        0
    }

    /// The origin of the route.
    pub fn get_origin(&self) -> (r: u8)
        ensures
            r == self.attrs.spec_origin(),
    {
        let mut i: usize = 0;
        assert(self.attrs.entry@.skip(0) =~= self.attrs.entry@);
        while i < self.attrs.entry.len()
            invariant
                i <= self.attrs.entry@.len(),
                origin(self.attrs.entry@.skip(i as int)) == origin(self.attrs.entry@),
            decreases self.attrs.entry@.len() - i,
        {
            assert(self.attrs.entry@.skip(i as int).drop_first() =~= self.attrs.entry@.skip(i + 1));
            match &self.attrs.entry[i] {
                Attribute::Origin { origin } => {
                    return *origin;
                },
                _ => {},
            }
            i += 1;
        }
        0
    }

    /// The exit discriminator of the route.
    pub fn get_med(&self) -> (r: u32)
        ensures
            r == self.attrs.spec_med(),
    {
        let mut i: usize = 0;
        assert(self.attrs.entry@.skip(0) =~= self.attrs.entry@);
        while i < self.attrs.entry.len()
            invariant
                i <= self.attrs.entry@.len(),
                med(self.attrs.entry@.skip(i as int)) == med(self.attrs.entry@),
            decreases self.attrs.entry@.len() - i,
        {
            assert(self.attrs.entry@.skip(i as int).drop_first() =~= self.attrs.entry@.skip(i + 1));
            match &self.attrs.entry[i] {
                Attribute::MultiExitDesc { descriptor } => {
                    return *descriptor;
                },
                _ => {},
            }
            i += 1;
        }
        0
    }

    /// Whether this route goes before `other`.
    pub fn is_before(&self, other: &Path) -> (r: bool)
        ensures
            r == goes_before(self.attrs, other.attrs),
    {
        self.get_local_preference() > other.get_local_preference() || self.get_as_len()
            < other.get_as_len() || self.get_origin() < other.get_origin() || self.get_med()
            < other.get_med()
    }
}

fn sum_segments(segments: &Vec<bgp::Segment>) -> (r: u32)
    ensures
        r == segments_len(bgp::segment_views(segments@)) % 0x1_0000_0000,
{
    let mut l: u32 = 0;
    let mut i: usize = 0;
    let ghost views = bgp::segment_views(segments@);
    while i < segments.len()
        invariant
            i <= segments@.len(),
            views == bgp::segment_views(segments@),
            l == segments_len(views.take(i as int)) % 0x1_0000_0000,
        decreases segments@.len() - i,
    {
        let n: usize = segments[i].as_len();
        proof {
            assert(views.take(i + 1).drop_last() =~= views.take(i as int));
            assert(views.take(i + 1).last() == segments@[i as int]@);
            let s = segments_len(views.take(i as int));
            assert((n as u32) as int == n as int % 0x1_0000_0000) by (bit_vector);
            assert((s % 0x1_0000_0000 + n as int % 0x1_0000_0000) % 0x1_0000_0000 == (s + n)
                % 0x1_0000_0000);
        }
        l = l.wrapping_add(n as u32);
        i += 1;
    }
    assert(views.take(i as int) =~= views);
    l
}

/// A route has the preference of its first attribute that carries one, and 100 where none does.
pub proof fn law_preference_of_a_route(s: Seq<Attribute>, i: int)
    requires
        0 <= i <= s.len(),
        forall|j: int| 0 <= j < i ==> !(#[trigger] s[j] is LocalPref),
        i < s.len() ==> s[i] is LocalPref,
    ensures
        local_preference(s) == if i < s.len() {
            s[i]->preference
        } else {
            100
        },
    decreases s.len(),
{
    if i > 0 {
        let t = s.drop_first();
        assert(!(s[0] is LocalPref));
        assert forall|j: int| 0 <= j < i - 1 implies !(#[trigger] t[j] is LocalPref) by {
            assert(t[j] == s[j + 1]);
        }
        law_preference_of_a_route(t, i - 1);
    }
}

/// The length of the AS path of a route is that of its first AS path, in 32 bits, and zero where it
/// has none.
pub proof fn law_as_len_of_a_route(s: Seq<Attribute>, i: int)
    requires
        0 <= i <= s.len(),
        forall|j: int| 0 <= j < i ==> !(#[trigger] s[j] is AsPath),
        i < s.len() ==> s[i] is AsPath,
    ensures
        as_path_len(s) == if i < s.len() {
            segments_len(bgp::segment_views(s[i]->segments@)) % 0x1_0000_0000
        } else {
            0
        },
    decreases s.len(),
{
    if i > 0 {
        let t = s.drop_first();
        assert(!(s[0] is AsPath));
        assert forall|j: int| 0 <= j < i - 1 implies !(#[trigger] t[j] is AsPath) by {
            assert(t[j] == s[j + 1]);
        }
        law_as_len_of_a_route(t, i - 1);
    }
}

/// The length of an AS path is made up of its segments: each number of a sequence counts, a set
/// counts as one however many numbers it holds, and segments of other types do not count. Parts of
/// a path add up.
pub proof fn law_as_len(s: Seq<bgp::SegmentView>, t: Seq<bgp::SegmentView>, x: bgp::SegmentView)
    ensures
        segments_len(Seq::<bgp::SegmentView>::empty()) == 0,
        x.segment_type == 2 ==> segments_len(seq![x]) == x.number.len(),
        x.segment_type == 1 ==> segments_len(seq![x]) == 1,
        x.segment_type != 1 && x.segment_type != 2 ==> segments_len(seq![x]) == 0,
        segments_len(s + t) == segments_len(s) + segments_len(t),
    decreases t.len(),
{
    assert(seq![x].drop_last() =~= Seq::<bgp::SegmentView>::empty());
    assert(segments_len(seq![x].drop_last()) == 0);
    if t.len() == 0 {
        assert(s + t =~= s);
    } else {
        law_as_len(s, t.drop_last(), x);
        assert((s + t).drop_last() =~= s + t.drop_last());
    }
}

/// A route has the origin of its first attribute that carries one, and zero where none does.
pub proof fn law_origin_of_a_route(s: Seq<Attribute>, i: int)
    requires
        0 <= i <= s.len(),
        forall|j: int| 0 <= j < i ==> !(#[trigger] s[j] is Origin),
        i < s.len() ==> s[i] is Origin,
    ensures
        origin(s) == if i < s.len() {
            s[i]->origin
        } else {
            0
        },
    decreases s.len(),
{
    if i > 0 {
        let t = s.drop_first();
        assert(!(s[0] is Origin));
        assert forall|j: int| 0 <= j < i - 1 implies !(#[trigger] t[j] is Origin) by {
            assert(t[j] == s[j + 1]);
        }
        law_origin_of_a_route(t, i - 1);
    }
}

/// A route has the exit discriminator of its first attribute that carries one, and zero where none
/// does.
pub proof fn law_med_of_a_route(s: Seq<Attribute>, i: int)
    requires
        0 <= i <= s.len(),
        forall|j: int| 0 <= j < i ==> !(#[trigger] s[j] is MultiExitDesc),
        i < s.len() ==> s[i] is MultiExitDesc,
    ensures
        med(s) == if i < s.len() {
            s[i]->descriptor
        } else {
            0
        },
    decreases s.len(),
{
    if i > 0 {
        let t = s.drop_first();
        assert(!(s[0] is MultiExitDesc));
        assert forall|j: int| 0 <= j < i - 1 implies !(#[trigger] t[j] is MultiExitDesc) by {
            assert(t[j] == s[j + 1]);
        }
        law_med_of_a_route(t, i - 1);
    }
}

/// A route goes before another as soon as it has a higher preference, a shorter AS path, a lower
/// origin or a lower exit discriminator, whatever the other three are. It never goes before one
/// that it is no better than in any of the four, and so never before one that equals it in all.
pub proof fn law_better_in_one_respect(b: Arc<PathAttr>, a: Arc<PathAttr>)
    ensures
        local_preference(b.entry@) > local_preference(a.entry@) ==> goes_before(b, a),
        as_path_len(b.entry@) < as_path_len(a.entry@) ==> goes_before(b, a),
        origin(b.entry@) < origin(a.entry@) ==> goes_before(b, a),
        med(b.entry@) < med(a.entry@) ==> goes_before(b, a),
        local_preference(b.entry@) <= local_preference(a.entry@) && as_path_len(b.entry@)
            >= as_path_len(a.entry@) && origin(b.entry@) >= origin(a.entry@) && med(b.entry@)
            >= med(a.entry@) ==> !goes_before(b, a),
{
}

/// A new route carries what it was announced with.
pub proof fn law_route_keeps_what_it_came_with(
    source: Arc<Source>,
    nexthop: IpAddr,
    attrs: Arc<PathAttr>,
    timestamp: Timestamp,
)
    ensures
        Path::spec_at(source, nexthop, attrs, timestamp).source == source,
        Path::spec_at(source, nexthop, attrs, timestamp).nexthop == nexthop,
        Path::spec_at(source, nexthop, attrs, timestamp).attrs == attrs,
        Path::spec_at(source, nexthop, attrs, timestamp).timestamp == timestamp,
        Path::spec_at(source, nexthop, attrs, timestamp).as_number == 0,
{
}

} // verus!
