//! Ordering rows as reads hand them out: documents by their `position`
//! rank, projects by recency, templates by name.

use vstd::prelude::*;
use vstd::seq_lib::group_to_multiset_ensures;
use vstd::string::StrSliceExecFns;
use crate::types::{Document, Project, ProjectTemplate, TemplateDocument};

verus! {

/// Lexicographic order on character sequences, by code point: the order the
/// underlying store's text comparison gives, under which the fixed-width
/// timestamps sort chronologically.
pub open spec fn str_le(a: Seq<char>, b: Seq<char>) -> bool
    decreases a.len(),
{
    if a.len() == 0 {
        true
    } else if b.len() == 0 {
        false
    } else if (a.first() as int) == (b.first() as int) {
        str_le(a.drop_first(), b.drop_first())
    } else {
        (a.first() as int) < (b.first() as int)
    }
}

/// The order is total: of any two strings, one is no greater.
pub proof fn lemma_str_le_total(a: Seq<char>, b: Seq<char>)
    ensures
        str_le(a, b) || str_le(b, a),
    decreases a.len(),
{
    if a.len() > 0 && b.len() > 0 && (a.first() as int) == (b.first() as int) {
        lemma_str_le_total(a.drop_first(), b.drop_first());
    }
}

/// The order is transitive.
pub proof fn lemma_str_le_trans(a: Seq<char>, b: Seq<char>, c: Seq<char>)
    requires
        str_le(a, b),
        str_le(b, c),
    ensures
        str_le(a, c),
    decreases a.len(),
{
    if a.len() > 0 && b.len() > 0 && c.len() > 0 {
        if (a.first() as int) == (b.first() as int) && (b.first() as int) == (
        c.first() as int) {
            lemma_str_le_trans(a.drop_first(), b.drop_first(), c.drop_first());
        }
    }
}

/// Compares two strings in the lexicographic order.
pub fn str_le_exec(a: &String, b: &String) -> (r: bool)
    ensures
        r == str_le(a@, b@),
{
    let la = a.as_str().unicode_len();
    let lb = b.as_str().unicode_len();
    proof {
        assert(a@.skip(0) =~= a@);
        assert(b@.skip(0) =~= b@);
    }
    let mut i: usize = 0;
    loop
        invariant
            i <= la && i <= lb,
            la as nat == a@.len() && lb as nat == b@.len(),
            str_le(a@, b@) == str_le(a@.skip(i as int), b@.skip(i as int)),
        decreases la - i,
    {
        if i >= la {
            proof {
                assert(a@.skip(i as int).len() == 0);
            }
            return true;
        }
        if i >= lb {
            proof {
                assert(b@.skip(i as int).len() == 0 && a@.skip(i as int).len() > 0);
            }
            return false;
        }
        let ca = a.as_str().get_char(i);
        let cb = b.as_str().get_char(i);
        proof {
            assert(a@.skip(i as int).first() == a@[i as int]);
            assert(b@.skip(i as int).first() == b@[i as int]);
        }
        if (ca as u32) == (cb as u32) {
            proof {
                assert(a@.skip(i as int).drop_first() =~= a@.skip(i + 1));
                assert(b@.skip(i as int).drop_first() =~= b@.skip(i + 1));
            }
            i = i + 1;
        } else {
            return (ca as u32) < (cb as u32);
        }
    }
}

/// Whether the project rows stand most recently modified first.
pub open spec fn projects_by_recency(s: Seq<Project>) -> bool {
    forall|i: int, j: int|
        0 <= i < j < s.len() ==> str_le((#[trigger] s[j]).last_modified@, (
        #[trigger] s[i]).last_modified@)
}

/// Whether the template rows stand in ascending name order.
pub open spec fn templates_by_name(s: Seq<ProjectTemplate>) -> bool {
    forall|i: int, j: int|
        0 <= i < j < s.len() ==> str_le((#[trigger] s[i]).name@, (#[trigger] s[j]).name@)
}

/// Sorts project rows most recently modified first, keeping exactly the
/// given rows.
#[verifier::rlimit(100)]
#[verifier::spinoff_prover]
pub fn sort_projects_by_recency(v: Vec<Project>) -> (r: Vec<Project>)
    ensures
        r@.to_multiset() == v@.to_multiset(),
        projects_by_recency(r@),
{
    broadcast use group_to_multiset_ensures;

    let mut out: Vec<Project> = Vec::new();
    let mut i: usize = 0;
    while i < v.len()
        invariant
            i <= v.len(),
            projects_by_recency(out@),
            out@.to_multiset() == v@.take(i as int).to_multiset(),
        decreases v.len() - i,
    {
        let mut k: usize = 0;
        while k < out.len() && str_le_exec(&v[i].last_modified, &out[k].last_modified)
            invariant
                i < v.len(),
                k <= out.len(),
                forall|t: int|
                    0 <= t < k ==> str_le(v@[i as int].last_modified@, (
                    #[trigger] out@[t]).last_modified@),
            decreases out.len() - k,
        {
            k = k + 1;
        }
        let ghost prev = out@;
        let d = v[i].clone();
        out.insert(k, d);
        proof {
            broadcast use group_to_multiset_ensures;
            broadcast use vstd::multiset::group_multiset_axioms;

            let ghost d0 = v@[i as int];
            crate::seqs::lemma_take_succ(v@, i as int);
            assert(v@.take(i + 1) == v@.take(i as int).push(d0));
            assert(v@.take(i as int).push(d0).to_multiset() =~= v@.take(
                i as int,
            ).to_multiset().insert(d0));
            assert(out@.remove(k as int) =~= prev);
            assert(out@[k as int] == d0);
            assert(out@.remove(k as int).to_multiset() =~= out@.to_multiset().remove(d0));
            assert(out@.contains(d0));
            assert(out@.to_multiset().count(d0) > 0);
            assert forall|a| out@.to_multiset().count(a) == prev.to_multiset().insert(d0).count(
                a,
            ) by {
                if a == d0 {
                    assert(out@.to_multiset().remove(d0).count(d0) == out@.to_multiset().count(
                        d0,
                    ) - 1);
                } else {
                    assert(out@.to_multiset().remove(d0).count(a) == out@.to_multiset().count(a));
                }
            }
            assert(out@.to_multiset() =~= prev.to_multiset().insert(d0));
            if (k as int) < prev.len() {
                lemma_str_le_total(d0.last_modified@, prev[k as int].last_modified@);
            }
            assert forall|a: int, b: int| 0 <= a < b < out@.len() implies str_le(
                out@[b].last_modified@,
                out@[a].last_modified@,
            ) by {
                if a < k && b < k {
                    assert(out@[a] == prev[a] && out@[b] == prev[b]);
                } else if a < k && b == k {
                    assert(out@[a] == prev[a]);
                } else if a < k && b > k {
                    assert(out@[a] == prev[a] && out@[b] == prev[b - 1]);
                } else if a == k && b > k {
                    assert(out@[b] == prev[b - 1]);
                    if (b - 1) > k {
                        lemma_str_le_trans(
                            prev[b - 1].last_modified@,
                            prev[k as int].last_modified@,
                            d0.last_modified@,
                        );
                    }
                } else {
                    assert(out@[a] == prev[a - 1] && out@[b] == prev[b - 1]);
                }
            }
        }
        i = i + 1;
    }
    proof {
        assert(v@.take(v@.len() as int) =~= v@);
    }
    out
}

/// Sorts template rows by name ascending, keeping exactly the given rows.
#[verifier::rlimit(100)]
#[verifier::spinoff_prover]
pub fn sort_templates_by_name(v: Vec<ProjectTemplate>) -> (r: Vec<ProjectTemplate>)
    ensures
        r@.to_multiset() == v@.to_multiset(),
        templates_by_name(r@),
{
    broadcast use group_to_multiset_ensures;

    let mut out: Vec<ProjectTemplate> = Vec::new();
    let mut i: usize = 0;
    while i < v.len()
        invariant
            i <= v.len(),
            templates_by_name(out@),
            out@.to_multiset() == v@.take(i as int).to_multiset(),
        decreases v.len() - i,
    {
        let mut k: usize = 0;
        while k < out.len() && str_le_exec(&out[k].name, &v[i].name)
            invariant
                i < v.len(),
                k <= out.len(),
                forall|t: int|
                    0 <= t < k ==> str_le((#[trigger] out@[t]).name@, v@[i as int].name@),
            decreases out.len() - k,
        {
            k = k + 1;
        }
        let ghost prev = out@;
        let d = v[i].clone();
        out.insert(k, d);
        proof {
            broadcast use group_to_multiset_ensures;
            broadcast use vstd::multiset::group_multiset_axioms;

            let ghost d0 = v@[i as int];
            crate::seqs::lemma_take_succ(v@, i as int);
            assert(v@.take(i + 1) == v@.take(i as int).push(d0));
            assert(v@.take(i as int).push(d0).to_multiset() =~= v@.take(
                i as int,
            ).to_multiset().insert(d0));
            assert(out@.remove(k as int) =~= prev);
            assert(out@[k as int] == d0);
            assert(out@.remove(k as int).to_multiset() =~= out@.to_multiset().remove(d0));
            assert(out@.contains(d0));
            assert(out@.to_multiset().count(d0) > 0);
            assert forall|a| out@.to_multiset().count(a) == prev.to_multiset().insert(d0).count(
                a,
            ) by {
                if a == d0 {
                    assert(out@.to_multiset().remove(d0).count(d0) == out@.to_multiset().count(
                        d0,
                    ) - 1);
                } else {
                    assert(out@.to_multiset().remove(d0).count(a) == out@.to_multiset().count(a));
                }
            }
            assert(out@.to_multiset() =~= prev.to_multiset().insert(d0));
            if (k as int) < prev.len() {
                lemma_str_le_total(prev[k as int].name@, d0.name@);
            }
            assert forall|a: int, b: int| 0 <= a < b < out@.len() implies str_le(
                out@[a].name@,
                out@[b].name@,
            ) by {
                if a < k && b < k {
                    assert(out@[a] == prev[a] && out@[b] == prev[b]);
                } else if a < k && b == k {
                    assert(out@[a] == prev[a]);
                } else if a < k && b > k {
                    assert(out@[a] == prev[a] && out@[b] == prev[b - 1]);
                } else if a == k && b > k {
                    assert(out@[b] == prev[b - 1]);
                    if (b - 1) > k {
                        lemma_str_le_trans(
                            d0.name@,
                            prev[k as int].name@,
                            prev[b - 1].name@,
                        );
                    }
                } else {
                    assert(out@[a] == prev[a - 1] && out@[b] == prev[b - 1]);
                }
            }
        }
        i = i + 1;
    }
    proof {
        assert(v@.take(v@.len() as int) =~= v@);
    }
    out
}

/// Whether the rows stand in non-decreasing `position` order.
pub open spec fn docs_sorted(s: Seq<Document>) -> bool {
    forall|i: int, j: int| 0 <= i < j < s.len() ==> s[i].position <= s[j].position
}

/// Whether the template rows stand in non-decreasing `position` order.
pub open spec fn tdocs_sorted(s: Seq<TemplateDocument>) -> bool {
    forall|i: int, j: int| 0 <= i < j < s.len() ==> s[i].position <= s[j].position
}

/// Sorts document rows by `position`, keeping exactly the given rows.
pub fn sort_docs(v: Vec<Document>) -> (r: Vec<Document>)
    ensures
        r@.to_multiset() == v@.to_multiset(),
        docs_sorted(r@),
{
    broadcast use group_to_multiset_ensures;

    let mut out: Vec<Document> = Vec::new();
    let mut i: usize = 0;
    while i < v.len()
        invariant
            i <= v.len(),
            docs_sorted(out@),
            out@.to_multiset() == v@.take(i as int).to_multiset(),
        decreases v.len() - i,
    {
        let mut k: usize = 0;
        while k < out.len() && out[k].position <= v[i].position
            invariant
                i < v.len(),
                k <= out.len(),
                forall|t: int| 0 <= t < k ==> out@[t].position <= v@[i as int].position,
            decreases out.len() - k,
        {
            k = k + 1;
        }
        let ghost prev = out@;
        let d = v[i].clone();
        out.insert(k, d);
        proof {
            broadcast use group_to_multiset_ensures;
            broadcast use vstd::multiset::group_multiset_axioms;

            let ghost d0 = v@[i as int];
            crate::seqs::lemma_take_succ(v@, i as int);
            assert(v@.take(i + 1) == v@.take(i as int).push(d0));
            assert(v@.take(i as int).push(d0).to_multiset() =~= v@.take(
                i as int,
            ).to_multiset().insert(d0));
            assert(out@.remove(k as int) =~= prev);
            assert(out@[k as int] == d0);
            assert(out@.remove(k as int).to_multiset() =~= out@.to_multiset().remove(d0));
            assert(out@.contains(d0));
            assert(out@.to_multiset().count(d0) > 0);
            assert forall|a| out@.to_multiset().count(a) == prev.to_multiset().insert(d0).count(
                a,
            ) by {
                if a == d0 {
                    assert(out@.to_multiset().remove(d0).count(d0) == out@.to_multiset().count(
                        d0,
                    ) - 1);
                } else {
                    assert(out@.to_multiset().remove(d0).count(a) == out@.to_multiset().count(a));
                }
            }
            assert(out@.to_multiset() =~= prev.to_multiset().insert(d0));
            assert forall|a: int, b: int| 0 <= a < b < out@.len() implies out@[a].position
                <= out@[b].position by {
                if a < k && b < k {
                    assert(out@[a] == prev[a] && out@[b] == prev[b]);
                } else if a < k && b == k {
                    assert(out@[a] == prev[a]);
                } else if a < k && b > k {
                    assert(out@[a] == prev[a] && out@[b] == prev[b - 1]);
                } else if a == k && b > k {
                    assert(out@[b] == prev[b - 1]);
                    assert(prev[b - 1].position >= prev[k as int].position);
                } else {
                    assert(out@[a] == prev[a - 1] && out@[b] == prev[b - 1]);
                }
            }
        }
        i = i + 1;
    }
    proof {
        assert(v@.take(v@.len() as int) =~= v@);
    }
    out
}

/// Sorts template document rows by `position`, keeping exactly the given
/// rows.
pub fn sort_tdocs(v: Vec<TemplateDocument>) -> (r: Vec<TemplateDocument>)
    ensures
        r@.to_multiset() == v@.to_multiset(),
        tdocs_sorted(r@),
{
    broadcast use group_to_multiset_ensures;

    let mut out: Vec<TemplateDocument> = Vec::new();
    let mut i: usize = 0;
    while i < v.len()
        invariant
            i <= v.len(),
            tdocs_sorted(out@),
            out@.to_multiset() == v@.take(i as int).to_multiset(),
        decreases v.len() - i,
    {
        let mut k: usize = 0;
        while k < out.len() && out[k].position <= v[i].position
            invariant
                i < v.len(),
                k <= out.len(),
                forall|t: int| 0 <= t < k ==> out@[t].position <= v@[i as int].position,
            decreases out.len() - k,
        {
            k = k + 1;
        }
        let ghost prev = out@;
        let d = v[i].clone();
        out.insert(k, d);
        proof {
            broadcast use group_to_multiset_ensures;
            broadcast use vstd::multiset::group_multiset_axioms;

            let ghost d0 = v@[i as int];
            crate::seqs::lemma_take_succ(v@, i as int);
            assert(v@.take(i + 1) == v@.take(i as int).push(d0));
            assert(v@.take(i as int).push(d0).to_multiset() =~= v@.take(
                i as int,
            ).to_multiset().insert(d0));
            assert(out@.remove(k as int) =~= prev);
            assert(out@[k as int] == d0);
            assert(out@.remove(k as int).to_multiset() =~= out@.to_multiset().remove(d0));
            assert(out@.contains(d0));
            assert(out@.to_multiset().count(d0) > 0);
            assert forall|a| out@.to_multiset().count(a) == prev.to_multiset().insert(d0).count(
                a,
            ) by {
                if a == d0 {
                    assert(out@.to_multiset().remove(d0).count(d0) == out@.to_multiset().count(
                        d0,
                    ) - 1);
                } else {
                    assert(out@.to_multiset().remove(d0).count(a) == out@.to_multiset().count(a));
                }
            }
            assert(out@.to_multiset() =~= prev.to_multiset().insert(d0));
            assert forall|a: int, b: int| 0 <= a < b < out@.len() implies out@[a].position
                <= out@[b].position by {
                if a < k && b < k {
                    assert(out@[a] == prev[a] && out@[b] == prev[b]);
                } else if a < k && b == k {
                    assert(out@[a] == prev[a]);
                } else if a < k && b > k {
                    assert(out@[a] == prev[a] && out@[b] == prev[b - 1]);
                } else if a == k && b > k {
                    assert(out@[b] == prev[b - 1]);
                    assert(prev[b - 1].position >= prev[k as int].position);
                } else {
                    assert(out@[a] == prev[a - 1] && out@[b] == prev[b - 1]);
                }
            }
        }
        i = i + 1;
    }
    proof {
        assert(v@.take(v@.len() as int) =~= v@);
    }
    out
}

} // verus!
