//! Facts about filtered sequences that the table operations share.

use vstd::prelude::*;

verus! {

/// Filtering one more element either appends it or changes nothing.
pub proof fn lemma_filter_take_next<A>(s: Seq<A>, p: spec_fn(A) -> bool, i: int)
    requires
        0 <= i < s.len(),
    ensures
        s.take(i + 1).filter(p) == if p(s[i]) {
            s.take(i).filter(p).push(s[i])
        } else {
            s.take(i).filter(p)
        },
{
    reveal(Seq::filter);
    assert(s.take(i + 1).drop_last() =~= s.take(i));
}

/// Every element of a filtered sequence satisfies the filter and stood in the
/// sequence.
pub proof fn lemma_filter_member<A>(s: Seq<A>, p: spec_fn(A) -> bool, a: int)
    requires
        0 <= a < s.filter(p).len(),
    ensures
        p(s.filter(p)[a]),
        exists|k: int| 0 <= k < s.len() && #[trigger] s[k] == s.filter(p)[a],
    decreases s.len(),
{
    reveal(Seq::filter);
    if s.len() > 0 {
        let rest = s.drop_last();
        if a < rest.filter(p).len() {
            lemma_filter_member(rest, p, a);
            let k = choose|k: int| 0 <= k < rest.len() && #[trigger] rest[k] == rest.filter(p)[a];
            assert(s[k] == s.filter(p)[a]);
        } else {
            assert(s[s.len() - 1] == s.filter(p)[a]);
        }
    }
}

/// An element that satisfies the filter stands in the filtered sequence.
pub proof fn lemma_filter_keeps<A>(s: Seq<A>, p: spec_fn(A) -> bool, k: int)
    requires
        0 <= k < s.len(),
        p(s[k]),
    ensures
        exists|a: int| 0 <= a < s.filter(p).len() && #[trigger] s.filter(p)[a] == s[k],
    decreases s.len(),
{
    reveal(Seq::filter);
    let rest = s.drop_last();
    if k < s.len() - 1 {
        lemma_filter_keeps(rest, p, k);
        let a = choose|a: int| 0 <= a < rest.filter(p).len() && #[trigger] rest.filter(p)[a] == rest[k];
        assert(s.filter(p)[a] == s[k]);
    } else {
        assert(s.filter(p)[s.filter(p).len() - 1] == s[k]);
    }
}

/// What holds of every element holds of every element that a filter keeps.
pub proof fn lemma_filter_keeps_all<A>(s: Seq<A>, p: spec_fn(A) -> bool, q: spec_fn(A) -> bool)
    requires
        forall|i: int| 0 <= i < s.len() ==> #[trigger] q(s[i]),
    ensures
        forall|a: int| 0 <= a < s.filter(p).len() ==> #[trigger] q(s.filter(p)[a]),
{
    assert forall|a: int| 0 <= a < s.filter(p).len() implies #[trigger] q(s.filter(p)[a]) by {
        lemma_filter_member(s, p, a);
        let k = choose|k: int| 0 <= k < s.len() && #[trigger] s[k] == s.filter(p)[a];
        assert(q(s[k]));
    }
}

/// What holds of every earlier and later element holds of every such pair that
/// a filter keeps.
pub proof fn lemma_filter_keeps_pairwise<A>(
    s: Seq<A>,
    p: spec_fn(A) -> bool, rel: spec_fn(A,
    A) -> bool,
)
    requires
        forall|i: int, j: int| 0 <= i < j < s.len() ==> #[trigger] rel(s[i], s[j]),
    ensures
        forall|a: int, b: int|
            0 <= a < b < s.filter(p).len() ==> #[trigger] rel(s.filter(p)[a], s.filter(p)[b]),
    decreases s.len(),
{
    reveal(Seq::filter);
    if s.len() > 0 {
        let rest = s.drop_last();
        let f = s.filter(p);
        let g = rest.filter(p);
        assert forall|i: int, j: int| 0 <= i < j < rest.len() implies #[trigger] rel(rest[i], rest[j]) by {
            assert(rel(s[i], s[j]));
        }
        lemma_filter_keeps_pairwise(rest, p, rel);
        assert forall|a: int, b: int| 0 <= a < b < f.len() implies #[trigger] rel(f[a], f[b]) by {
            if b < g.len() {
                assert(rel(g[a], g[b]));
            } else {
                lemma_filter_member(rest, p, a);
                let k = choose|k: int| 0 <= k < rest.len() && #[trigger] rest[k] == g[a];
                assert(rel(s[k], s[s.len() - 1]));
            }
        }
    }
}

/// An element that the filter refuses leaves what the filter keeps unchanged.
pub proof fn lemma_filter_push_refused<A>(s: Seq<A>, p: spec_fn(A) -> bool, x: A)
    requires
        !p(x),
    ensures
        s.push(x).filter(p) == s.filter(p),
{
    reveal(Seq::filter);
    assert(s.push(x).drop_last() =~= s);
}

/// Filtering by `q` what a filter by `p` kept is filtering by `q`, where
/// everything that satisfies `q` satisfies `p`.
pub proof fn lemma_filter_twice<A>(s: Seq<A>, p: spec_fn(A) -> bool, q: spec_fn(A) -> bool)
    requires
        forall|x: A| #[trigger] q(x) ==> p(x),
    ensures
        s.filter(p).filter(q) == s.filter(q),
    decreases s.len(),
{
    reveal(Seq::filter);
    if s.len() > 0 {
        let rest = s.drop_last();
        lemma_filter_twice(rest, p, q);
        if p(s.last()) {
            assert(rest.filter(p).push(s.last()).drop_last() =~= rest.filter(p));
        }
    }
}

/// A filter that refuses every element keeps nothing.
pub proof fn lemma_filter_none<A>(s: Seq<A>, p: spec_fn(A) -> bool)
    requires
        forall|i: int| 0 <= i < s.len() ==> !p(#[trigger] s[i]),
    ensures
        s.filter(p).len() == 0,
{
    if s.filter(p).len() > 0 {
        lemma_filter_member(s, p, 0);
    }
}

} // verus!
