//! Facts about sequences that the other modules share.
use vstd::prelude::*;

verus! {

/// The elements of `s`, each where it first occurs.
pub open spec fn distinct<A>(s: Seq<A>) -> Seq<A>
    decreases s.len(),
{
    if s.len() == 0 {
        s
    } else {
        let d = distinct(s.drop_last());
        if d.contains(s.last()) {
            d
        } else {
            d.push(s.last())
        }
    }
}

/// `distinct` keeps every element, adds none, and has none twice.
pub proof fn lemma_distinct<A>(s: Seq<A>)
    ensures
        distinct(s).no_duplicates(),
        forall|x: A| #[trigger] distinct(s).contains(x) <==> s.contains(x),
    decreases s.len(),
{
    if s.len() > 0 {
        let t = s.drop_last();
        let d = distinct(t);
        lemma_distinct(t);
        assert forall|x: A| #[trigger] distinct(s).contains(x) <==> s.contains(x) by {
            lemma_push_contains(t, s.last(), x);
            lemma_push_contains(d, s.last(), x);
            assert(s == t.push(s.last()));
        }
    }
}

/// `distinct` changes nothing where nothing occurs twice.
pub proof fn lemma_distinct_fixed<A>(s: Seq<A>)
    requires
        s.no_duplicates(),
    ensures
        distinct(s) == s,
    decreases s.len(),
{
    if s.len() > 0 {
        lemma_distinct_fixed(s.drop_last());
        assert(s == s.drop_last().push(s.last()));
    }
}

/// `distinct`, one element further.
pub proof fn lemma_distinct_take<A>(s: Seq<A>, i: int)
    requires
        0 <= i < s.len(),
    ensures
        distinct(s.take(i + 1)) == if distinct(s.take(i)).contains(s[i]) {
            distinct(s.take(i))
        } else {
            distinct(s.take(i)).push(s[i])
        },
{
    assert(s.take(i + 1).drop_last() == s.take(i));
}

/// What a sequence contains after one element more.
pub proof fn lemma_push_contains<A>(s: Seq<A>, a: A, x: A)
    ensures
        s.push(a).contains(x) <==> s.contains(x) || x == a,
{
    if s.contains(x) {
        let i = choose|i: int| 0 <= i < s.len() && s[i] == x;
        assert(s.push(a)[i] == x);
    }
    if x == a {
        assert(s.push(a)[s.len() as int] == x);
    }
}

/// `filter` of a sequence with one element more.
pub proof fn lemma_filter_push<A>(s: Seq<A>, keep: spec_fn(A) -> bool, a: A)
    ensures
        s.push(a).filter(keep) == if keep(a) {
            s.filter(keep).push(a)
        } else {
            s.filter(keep)
        },
{
    reveal(Seq::filter);
    assert(s.push(a).drop_last() == s);
}

/// `filter`, one element further.
pub proof fn lemma_filter_take<A>(s: Seq<A>, keep: spec_fn(A) -> bool, i: int)
    requires
        0 <= i < s.len(),
    ensures
        s.take(i + 1).filter(keep) == if keep(s[i]) {
            s.take(i).filter(keep).push(s[i])
        } else {
            s.take(i).filter(keep)
        },
{
    reveal(Seq::filter);
    assert(s.take(i + 1).drop_last() == s.take(i));
}

/// What a filtered sequence contains.
pub proof fn lemma_filter_contains<A>(s: Seq<A>, keep: spec_fn(A) -> bool, x: A)
    ensures
        s.filter(keep).contains(x) <==> s.contains(x) && keep(x),
    decreases s.len(),
{
    reveal(Seq::filter);
    if s.len() > 0 {
        let t = s.drop_last();
        lemma_filter_contains(t, keep, x);
        lemma_push_contains(t, s.last(), x);
        lemma_push_contains(t.filter(keep), s.last(), x);
        assert(s == t.push(s.last()));
    }
}

/// Filters that agree on the elements of a sequence make the same of it.
pub proof fn lemma_filter_agree<A>(
    s: Seq<A>,
    keep1: spec_fn(A) -> bool,
    keep2: spec_fn(A) -> bool,
)
    requires
        forall|i: int| 0 <= i < s.len() ==> keep1(#[trigger] s[i]) == keep2(s[i]),
    ensures
        s.filter(keep1) == s.filter(keep2),
    decreases s.len(),
{
    reveal(Seq::filter);
    if s.len() > 0 {
        let t = s.drop_last();
        assert forall|i: int| 0 <= i < t.len() implies keep1(#[trigger] t[i]) == keep2(t[i]) by {
            assert(t[i] == s[i]);
        }
        lemma_filter_agree(t, keep1, keep2);
        assert(keep1(s[s.len() - 1]) == keep2(s[s.len() - 1]));
    }
}

/// A filter that accepts every element changes nothing.
pub proof fn lemma_filter_all<A>(s: Seq<A>, keep: spec_fn(A) -> bool)
    requires
        forall|i: int| 0 <= i < s.len() ==> keep(#[trigger] s[i]),
    ensures
        s.filter(keep) == s,
    decreases s.len(),
{
    reveal(Seq::filter);
    if s.len() > 0 {
        let t = s.drop_last();
        assert forall|i: int| 0 <= i < t.len() implies keep(#[trigger] t[i]) by {
            assert(t[i] == s[i]);
        }
        lemma_filter_all(t, keep);
        assert(keep(s[s.len() - 1]));
        assert(s == t.push(s.last()));
    }
}

/// A filter that accepts no element leaves nothing.
pub proof fn lemma_filter_none<A>(s: Seq<A>, keep: spec_fn(A) -> bool)
    requires
        forall|i: int| 0 <= i < s.len() ==> !keep(#[trigger] s[i]),
    ensures
        s.filter(keep) == Seq::<A>::empty(),
    decreases s.len(),
{
    reveal(Seq::filter);
    if s.len() > 0 {
        let t = s.drop_last();
        assert forall|i: int| 0 <= i < t.len() implies !keep(#[trigger] t[i]) by {
            assert(t[i] == s[i]);
        }
        lemma_filter_none(t, keep);
        assert(!keep(s[s.len() - 1]));
    }
}

/// Two filters in a row are one that accepts what both accept.
pub proof fn lemma_filter_twice<A>(
    s: Seq<A>,
    keep1: spec_fn(A) -> bool,
    keep2: spec_fn(A) -> bool,
    both: spec_fn(A) -> bool,
)
    requires
        forall|i: int|
            0 <= i < s.len() ==> both(#[trigger] s[i]) == (keep1(s[i]) && keep2(s[i])),
    ensures
        s.filter(keep1).filter(keep2) == s.filter(both),
    decreases s.len(),
{
    reveal(Seq::filter);
    if s.len() > 0 {
        let t = s.drop_last();
        assert forall|i: int| 0 <= i < t.len() implies both(#[trigger] t[i]) == (keep1(t[i])
            && keep2(t[i])) by {
            assert(t[i] == s[i]);
        }
        lemma_filter_twice(t, keep1, keep2, both);
        assert(both(s[s.len() - 1]) == (keep1(s[s.len() - 1]) && keep2(s[s.len() - 1])));
        if keep1(s.last()) {
            assert(s.filter(keep1).drop_last() == t.filter(keep1));
        }
    }
}

/// A filter leaves nothing twice where nothing was twice.
pub proof fn lemma_filter_no_duplicates<A>(s: Seq<A>, keep: spec_fn(A) -> bool)
    requires
        s.no_duplicates(),
    ensures
        s.filter(keep).no_duplicates(),
    decreases s.len(),
{
    reveal(Seq::filter);
    if s.len() > 0 {
        let t = s.drop_last();
        lemma_filter_no_duplicates(t, keep);
        lemma_filter_contains(t, keep, s.last());
    }
}

/// `distinct` keeps the order in which the elements first occur.
pub proof fn lemma_distinct_order<A>(s: Seq<A>, a: int, b: int)
    requires
        0 <= a < b < distinct(s).len(),
    ensures
        exists|i: int|
            0 <= i < s.len() && #[trigger] s[i] == distinct(s)[a] && (forall|j: int|
                0 <= j <= i ==> #[trigger] s[j] != distinct(s)[b]),
    decreases s.len(),
{
    let t = s.drop_last();
    let d = distinct(t);
    lemma_distinct(t);
    if b < d.len() {
        lemma_distinct_order(t, a, b);
        let i = choose|i: int|
            0 <= i < t.len() && #[trigger] t[i] == d[a] && (forall|j: int|
                0 <= j <= i ==> #[trigger] t[j] != d[b]);
        assert(s[i] == distinct(s)[a]);
        assert forall|j: int| 0 <= j <= i implies #[trigger] s[j] != distinct(s)[b] by {
            assert(t[j] != d[b]);
        }
    } else {
        assert(d.contains(d[a]));
        let i = choose|i: int| 0 <= i < t.len() && t[i] == d[a];
        assert(s[i] == distinct(s)[a]);
        assert forall|j: int| 0 <= j <= i implies #[trigger] s[j] != distinct(s)[b] by {
            assert(t.contains(t[j]));
        }
    }
}

/// `filter` keeps the order of the elements.
pub proof fn lemma_filter_order<A>(s: Seq<A>, keep: spec_fn(A) -> bool, a: int, b: int)
    requires
        0 <= a < b < s.filter(keep).len(),
    ensures
        exists|i: int, j: int|
            0 <= i < j < s.len() && #[trigger] s[i] == s.filter(keep)[a] && #[trigger] s[j]
                == s.filter(keep)[b],
    decreases s.len(),
{
    reveal(Seq::filter);
    let t = s.drop_last();
    let f = t.filter(keep);
    if b < f.len() {
        lemma_filter_order(t, keep, a, b);
        let (i, j) = choose|i: int, j: int|
            0 <= i < j < t.len() && #[trigger] t[i] == f[a] && #[trigger] t[j] == f[b];
        assert(s[i] == t[i] && s[j] == t[j]);
    } else {
        assert(f.contains(f[a]));
        lemma_filter_contains(t, keep, f[a]);
        let i = choose|i: int| 0 <= i < t.len() && t[i] == f[a];
        assert(s[i] == t[i]);
        assert(s[s.len() - 1] == s.filter(keep)[b]);
    }
}

/// Filtering what is distinct keeps the order in which the elements first occur.
pub proof fn lemma_distinct_filter_order<A>(s: Seq<A>, keep: spec_fn(A) -> bool, a: int, b: int)
    requires
        0 <= a < b < distinct(s).filter(keep).len(),
    ensures
        exists|i: int|
            0 <= i < s.len() && #[trigger] s[i] == distinct(s).filter(keep)[a] && (forall|j: int|
                0 <= j <= i ==> #[trigger] s[j] != distinct(s).filter(keep)[b]),
{
    let d = distinct(s);
    lemma_filter_order(d, keep, a, b);
    let (x, y) = choose|x: int, y: int|
        0 <= x < y < d.len() && #[trigger] d[x] == d.filter(keep)[a] && #[trigger] d[y]
            == d.filter(keep)[b];
    lemma_distinct_order(s, x, y);
}

} // verus!
