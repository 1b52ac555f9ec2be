//! Facts about sequences.
use vstd::prelude::*;

verus! {

/// Filtering one more item keeps it or leaves it out.
pub proof fn lemma_filter_push<A>(s: Seq<A>, pred: spec_fn(A) -> bool, x: A)
    ensures
        s.push(x).filter(pred) == if pred(x) {
            s.filter(pred).push(x)
        } else {
            s.filter(pred)
        },
{
    reveal(Seq::filter);
    assert(s.push(x).drop_last() =~= s);
}

/// Filtering the first `i + 1` items, from filtering the first `i`.
pub proof fn lemma_filter_take<A>(s: Seq<A>, pred: spec_fn(A) -> bool, i: int)
    requires
        0 <= i < s.len(),
    ensures
        s.take(i + 1).filter(pred) == if pred(s[i]) {
            s.take(i).filter(pred).push(s[i])
        } else {
            s.take(i).filter(pred)
        },
{
    assert(s.take(i + 1) =~= s.take(i).push(s[i]));
    lemma_filter_push(s.take(i), pred, s[i]);
}

/// Nothing is left of an empty sequence.
pub proof fn lemma_filter_empty<A>(s: Seq<A>, pred: spec_fn(A) -> bool)
    requires
        s.len() == 0,
    ensures
        s.filter(pred) == Seq::<A>::empty(),
{
    reveal(Seq::filter);
    assert(s.filter(pred) =~= Seq::<A>::empty());
}

/// An item is left exactly when it was there and is to be kept.
pub proof fn lemma_filter_contains<A>(s: Seq<A>, pred: spec_fn(A) -> bool, x: A)
    ensures
        s.filter(pred).contains(x) <==> s.contains(x) && pred(x),
    decreases s.len(),
{
    if s.len() == 0 {
        lemma_filter_empty(s, pred);
    } else {
        let t = s.drop_last();
        assert(s =~= t.push(s.last()));
        lemma_filter_push(t, pred, s.last());
        lemma_filter_contains(t, pred, x);
        let f = t.filter(pred);
        if s.contains(x) {
            let i = choose|i: int| 0 <= i < s.len() && s[i] == x;
            if i < t.len() {
                assert(t[i] == x);
            }
        }
        if t.contains(x) {
            let i = choose|i: int| 0 <= i < t.len() && t[i] == x;
            assert(s[i] == x);
        }
        if pred(s.last()) {
            assert(s.filter(pred) == f.push(s.last()));
            if f.contains(x) {
                let i = choose|i: int| 0 <= i < f.len() && f[i] == x;
                assert(f.push(s.last())[i] == x);
            }
            if x == s.last() {
                assert(f.push(s.last())[f.len() as int] == x);
            }
            if f.push(s.last()).contains(x) {
                let i = choose|i: int|
                    0 <= i < f.push(s.last()).len() && f.push(s.last())[i] == x;
                if i < f.len() {
                    assert(f[i] == x);
                }
            }
        }
    }
}

/// Filtering before and after a mapping is the same, when the tests agree.
pub proof fn lemma_filter_map_values<A, B>(
    s: Seq<A>,
    f: spec_fn(A) -> B,
    p: spec_fn(A) -> bool,
    q: spec_fn(B) -> bool,
)
    requires
        forall|a: A| #[trigger] p(a) == q(f(a)),
    ensures
        s.filter(p).map_values(f) == s.map_values(f).filter(q),
    decreases s.len(),
{
    if s.len() == 0 {
        lemma_filter_empty(s, p);
        lemma_filter_empty(s.map_values(f), q);
        assert(s.filter(p).map_values(f) =~= s.map_values(f).filter(q));
    } else {
        let t = s.drop_last();
        let x = s.last();
        lemma_filter_map_values(t, f, p, q);
        assert(s =~= t.push(x));
        assert(s.map_values(f) =~= t.map_values(f).push(f(x)));
        lemma_filter_push(t, p, x);
        lemma_filter_push(t.map_values(f), q, f(x));
        assert(p(x) == q(f(x)));
        assert(t.filter(p).push(x).map_values(f) =~= t.filter(p).map_values(f).push(f(x)));
    }
}

/// Selecting from one more item.
pub proof fn lemma_filter_map_take<A, B>(s: Seq<A>, f: spec_fn(A) -> Option<B>, i: int)
    requires
        0 <= i < s.len(),
    ensures
        s.take(i + 1).filter_map(f) == match f(s[i]) {
            Some(b) => s.take(i).filter_map(f).push(b),
            None => s.take(i).filter_map(f),
        },
{
    reveal(Seq::filter_map);
    assert(s.take(i + 1).drop_last() =~= s.take(i));
    if let Some(b) = f(s[i]) {
        assert(s.take(i).filter_map(f) + seq![b] =~= s.take(i).filter_map(f).push(b));
    }
}

/// Selecting from a sequence with one more item at its end.
pub proof fn lemma_filter_map_push<A, B>(s: Seq<A>, f: spec_fn(A) -> Option<B>, x: A)
    ensures
        s.push(x).filter_map(f) == match f(x) {
            Some(b) => s.filter_map(f).push(b),
            None => s.filter_map(f),
        },
{
    let t = s.push(x);
    lemma_filter_map_take(t, f, s.len() as int);
    assert(t.take(s.len() as int) =~= s);
    assert(t.take(s.len() as int + 1) =~= t);
}

/// Nothing is selected from an empty sequence.
pub proof fn lemma_filter_map_empty<A, B>(s: Seq<A>, f: spec_fn(A) -> Option<B>)
    requires
        s.len() == 0,
    ensures
        s.filter_map(f) == Seq::<B>::empty(),
{
    reveal(Seq::filter_map);
    assert(s.filter_map(f) =~= Seq::<B>::empty());
}

/// A filter that everything passes changes nothing.
pub proof fn lemma_filter_all<A>(s: Seq<A>, pred: spec_fn(A) -> bool)
    requires
        forall|i: int| 0 <= i < s.len() ==> pred(#[trigger] s[i]),
    ensures
        s.filter(pred) == s,
    decreases s.len(),
{
    if s.len() == 0 {
        lemma_filter_empty(s, pred);
        assert(s.filter(pred) =~= s);
    } else {
        let n = s.len() - 1;
        assert(s.take(n + 1) =~= s);
        lemma_filter_take(s, pred, n);
        assert forall|i: int| 0 <= i < s.take(n).len() implies pred(#[trigger] s.take(n)[i]) by {
            assert(s.take(n)[i] == s[i]);
        }
        lemma_filter_all(s.take(n), pred);
        assert(s.take(n).push(s[n]) =~= s);
    }
}

/// An item is selected exactly when one of the items gives it.
pub proof fn lemma_filter_map_contains<A, B>(s: Seq<A>, f: spec_fn(A) -> Option<B>, b: B)
    ensures
        s.filter_map(f).contains(b) <==> exists|i: int|
            0 <= i < s.len() && f(#[trigger] s[i]) == Some(b),
    decreases s.len(),
{
    if s.len() == 0 {
        lemma_filter_map_empty(s, f);
    } else {
        let t = s.drop_last();
        let x = s.last();
        assert(s =~= t.push(x));
        lemma_filter_map_push(t, f, x);
        lemma_filter_map_contains(t, f, b);
        let g = t.filter_map(f);
        if s.filter_map(f).contains(b) {
            if g.contains(b) {
                let i = choose|i: int| 0 <= i < t.len() && f(#[trigger] t[i]) == Some(b);
                assert(f(s[i]) == Some(b));
            } else {
                assert(f(s[s.len() - 1]) == Some(b));
            }
        }
        if exists|i: int| 0 <= i < s.len() && f(#[trigger] s[i]) == Some(b) {
            let i = choose|i: int| 0 <= i < s.len() && f(#[trigger] s[i]) == Some(b);
            if i < t.len() {
                assert(f(t[i]) == Some(b));
                let j = choose|j: int| 0 <= j < g.len() && g[j] == b;
                assert(s.filter_map(f)[j] == b);
            } else {
                assert(s.filter_map(f)[g.len() as int] == b);
            }
        }
    }
}

} // verus!
