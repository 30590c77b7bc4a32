//! Small general sequence lemmas used by the row-table loops.

use vstd::prelude::*;

verus! {

/// Filtering after a push keeps the element exactly when the predicate
/// accepts it.
pub broadcast proof fn lemma_filter_push<A>(s: Seq<A>, x: A, p: spec_fn(A) -> bool)
    ensures
        #[trigger] s.push(x).filter(p) == if p(x) {
            s.filter(p).push(x)
        } else {
            s.filter(p)
        },
{
    reveal(Seq::filter);
    assert(s.push(x).drop_last() =~= s);
    assert(s.push(x).last() == x);
}

/// A filter that accepts every row changes nothing.
pub broadcast proof fn lemma_filter_all<A>(s: Seq<A>, p: spec_fn(A) -> bool)
    ensures
        #![trigger s.filter(p)]
        (forall|i: int| 0 <= i < s.len() ==> p(#[trigger] s[i])) ==> s.filter(p) == s,
    decreases s.len(),
{
    reveal(Seq::filter);
    if s.len() > 0 {
        lemma_filter_all(s.drop_last(), p);
        if forall|i: int| 0 <= i < s.len() ==> p(#[trigger] s[i]) {
            assert forall|i: int| 0 <= i < s.drop_last().len() implies p(
                #[trigger] s.drop_last()[i],
            ) by {
                assert(s.drop_last()[i] == s[i]);
            }
            assert(s.filter(p) =~= s);
        }
    }
}

/// Filtering twice by a stronger test is filtering once by it.
pub broadcast proof fn lemma_filter_absorb<A>(s: Seq<A>, p1: spec_fn(A) -> bool, p2: spec_fn(
    A,
) -> bool)
    ensures
        #![trigger s.filter(p1).filter(p2)]
        (forall|a: A| #[trigger] p2(a) ==> p1(a)) ==> s.filter(p1).filter(p2) == s.filter(p2),
    decreases s.len(),
{
    reveal(Seq::filter);
    if s.len() > 0 && (forall|a: A| #[trigger] p2(a) ==> p1(a)) {
        let t = s.drop_last();
        lemma_filter_absorb(t, p1, p2);
        let x = s.last();
        assert(s.filter(p1) == if p1(x) {
            t.filter(p1).push(x)
        } else {
            t.filter(p1)
        });
        if p1(x) {
            lemma_filter_push(t.filter(p1), x, p2);
        }
        assert(s.filter(p2) == if p2(x) {
            t.filter(p2).push(x)
        } else {
            t.filter(p2)
        });
    }
}

/// Every row of a filtered sequence comes from a row of the original.
pub broadcast proof fn lemma_filter_elem_source<A>(s: Seq<A>, p: spec_fn(A) -> bool)
    ensures
        #![trigger s.filter(p)]
        forall|i: int|
            0 <= i < s.filter(p).len() ==> exists|k: int|
                0 <= k < s.len() && s[k] == #[trigger] s.filter(p)[i],
    decreases s.len(),
{
    reveal(Seq::filter);
    if s.len() > 0 {
        let t = s.drop_last();
        lemma_filter_elem_source(t, p);
        let f = s.filter(p);
        let ft = t.filter(p);
        assert forall|i: int| 0 <= i < f.len() implies exists|k: int|
            0 <= k < s.len() && s[k] == #[trigger] f[i] by {
            if i < ft.len() {
                assert(f[i] == ft[i]);
                let k = choose|k: int| 0 <= k < t.len() && t[k] == ft[i];
                assert(s[k] == f[i]);
            } else {
                assert(f[i] == s.last());
                assert(s[s.len() - 1] == f[i]);
            }
        }
    }
}

/// Two rows of a filtered sequence come from two rows of the original, in
/// the same order: any pairwise property of the rows, such as distinctness
/// of a key, survives filtering.
pub broadcast proof fn lemma_filter_pair_source<A>(s: Seq<A>, p: spec_fn(A) -> bool)
    ensures
        #![trigger s.filter(p)]
        forall|i: int, j: int|
            0 <= i < j < s.filter(p).len() ==> exists|k: int, l: int|
                0 <= k < l < s.len() && s[k] == #[trigger] s.filter(p)[i] && s[l] == #[trigger] s.filter(p)[j],
    decreases s.len(),
{
    reveal(Seq::filter);
    lemma_filter_elem_source(s, p);
    if s.len() > 0 {
        let t = s.drop_last();
        lemma_filter_pair_source(t, p);
        lemma_filter_elem_source(t, p);
        let f = s.filter(p);
        let ft = t.filter(p);
        assert forall|i: int, j: int| 0 <= i < j < f.len() implies exists|k: int, l: int|
            0 <= k < l < s.len() && s[k] == #[trigger] f[i] && s[l] == #[trigger] f[j] by {
            if j < ft.len() {
                assert(f[i] == ft[i] && f[j] == ft[j]);
                let (k, l) = choose|k: int, l: int|
                    0 <= k < l < t.len() && t[k] == ft[i] && t[l] == ft[j];
                assert(s[k] == f[i] && s[l] == f[j]);
            } else {
                assert(f[j] == s.last());
                assert(f[i] == ft[i]);
                let k = choose|k: int| 0 <= k < t.len() && t[k] == ft[i];
                assert(s[k] == f[i] && s[s.len() - 1] == f[j]);
            }
        }
    }
}

/// Taking one more element appends exactly the element at that index.
pub proof fn lemma_take_succ<A>(s: Seq<A>, i: int)
    requires
        0 <= i < s.len(),
    ensures
        s.take(i + 1) == s.take(i).push(s[i]),
{
    assert(s.take(i + 1) =~= s.take(i).push(s[i]));
}

} // verus!
