//! Facts about sequences that searches and filters rest on.
use vstd::prelude::*;

verus! {

/// The first position of `s` whose item satisfies `p`.
pub open spec fn first_where<A>(s: Seq<A>, p: spec_fn(A) -> bool) -> Option<int>
    decreases s.len(),
{
    if s.len() == 0 {
        None
    } else {
        match first_where(s.drop_last(), p) {
            Some(k) => Some(k),
            None => if p(s.last()) {
                Some(s.len() - 1)
            } else {
                None
            },
        }
    }
}

/// What `first_where` finds satisfies the predicate and nothing before it does.
pub proof fn lemma_first_where<A>(s: Seq<A>, p: spec_fn(A) -> bool)
    ensures
        match first_where(s, p) {
            Some(k) => 0 <= k < s.len() && p(s[k]) && (forall|j: int|
                0 <= j < k ==> !p(#[trigger] s[j])),
            None => forall|j: int| 0 <= j < s.len() ==> !p(#[trigger] s[j]),
        },
    decreases s.len(),
{
    if s.len() > 0 {
        let t = s.drop_last();
        lemma_first_where(t, p);
        assert(forall|j: int| 0 <= j < t.len() ==> t[j] == s[j]);
        match first_where(t, p) {
            Some(k) => {
                assert forall|j: int| 0 <= j < k implies !p(#[trigger] s[j]) by {
                    assert(!p(t[j]));
                }
            },
            None => {
                assert forall|j: int| 0 <= j < s.len() - 1 implies !p(#[trigger] s[j]) by {
                    assert(!p(t[j]));
                }
            },
        }
    }
}

/// A position that satisfies the predicate, with none before it, is the first.
pub proof fn lemma_first_where_is<A>(s: Seq<A>, p: spec_fn(A) -> bool, k: int)
    requires
        0 <= k < s.len(),
        p(s[k]),
        forall|j: int| 0 <= j < k ==> !p(#[trigger] s[j]),
    ensures
        first_where(s, p) == Some(k),
{
    lemma_first_where(s, p);
    match first_where(s, p) {
        Some(m) => {
            if m < k {
                assert(!p(s[m]));
            } else if k < m {
                assert(!p(s[k]));
            }
        },
        None => {
            assert(!p(s[k]));
        },
    }
}

/// Where nothing satisfies the predicate nothing is found.
pub proof fn lemma_first_where_none<A>(s: Seq<A>, p: spec_fn(A) -> bool)
    requires
        forall|j: int| 0 <= j < s.len() ==> !p(#[trigger] s[j]),
    ensures
        first_where(s, p) is None,
{
    lemma_first_where(s, p);
    if let Some(k) = first_where(s, p) {
        assert(!p(s[k]));
    }
}

/// Filtering one more item.
pub proof fn lemma_filter_step<A>(s: Seq<A>, p: spec_fn(A) -> bool, i: int)
    requires
        0 <= i < s.len(),
    ensures
        s.take(i + 1).filter(p) == (if p(s[i]) {
            s.take(i).filter(p).push(s[i])
        } else {
            s.take(i).filter(p)
        }),
{
    reveal(Seq::filter);
    assert(s.take(i + 1).drop_last() =~= s.take(i));
}

/// Replacing an item that satisfies the predicate by one that does not takes one
/// away from those that do; by one that does, none.
pub proof fn lemma_filter_update<A>(s: Seq<A>, p: spec_fn(A) -> bool, j: int, x: A)
    requires
        0 <= j < s.len(),
        p(s[j]),
    ensures
        s.update(j, x).filter(p).len() == s.filter(p).len() - (if p(x) {
            0int
        } else {
            1
        }),
    decreases s.len(),
{
    reveal(Seq::filter);
    let t = s.update(j, x);
    if j < s.len() - 1 {
        lemma_filter_update(s.drop_last(), p, j, x);
        assert(t.drop_last() =~= s.drop_last().update(j, x));
    } else {
        assert(t.drop_last() =~= s.drop_last());
    }
}

/// A filter keeps what satisfies it.
pub proof fn lemma_filter_contains<A>(s: Seq<A>, p: spec_fn(A) -> bool, j: int)
    requires
        0 <= j < s.len(),
        p(s[j]),
    ensures
        exists|n: int| 0 <= n < s.filter(p).len() && #[trigger] s.filter(p)[n] == s[j],
    decreases s.len(),
{
    reveal(Seq::filter);
    let rest = s.drop_last();
    if j < rest.len() {
        lemma_filter_contains(rest, p, j);
        let n = choose|n: int| 0 <= n < rest.filter(p).len() && #[trigger] rest.filter(p)[n] == s[j];
        assert(s.filter(p)[n] == s[j]);
    } else {
        assert(s.filter(p)[rest.filter(p).len() as int] == s[j]);
    }
}

/// What a filter keeps satisfies it.
pub proof fn lemma_filter_satisfies<A>(s: Seq<A>, p: spec_fn(A) -> bool)
    ensures
        forall|n: int| 0 <= n < s.filter(p).len() ==> p(#[trigger] s.filter(p)[n]),
    decreases s.len(),
{
    reveal(Seq::filter);
    if s.len() > 0 {
        lemma_filter_satisfies(s.drop_last(), p);
    }
}

/// What a filter keeps stands in the sequence.
pub proof fn lemma_filter_comes_from<A>(s: Seq<A>, p: spec_fn(A) -> bool, n: int)
    requires
        0 <= n < s.filter(p).len(),
    ensures
        exists|j: int| 0 <= j < s.len() && #[trigger] s[j] == s.filter(p)[n],
    decreases s.len(),
{
    reveal(Seq::filter);
    let rest = s.drop_last();
    if n < rest.filter(p).len() {
        lemma_filter_comes_from(rest, p, n);
        let j = choose|j: int| 0 <= j < rest.len() && #[trigger] rest[j] == rest.filter(p)[n];
        assert(s[j] == s.filter(p)[n]);
    } else {
        assert(s[s.len() - 1] == s.filter(p)[n]);
    }
}

} // verus!
