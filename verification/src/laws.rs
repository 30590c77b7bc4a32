//! The laws of the tree mutator, stated and proved over the operations'
//! relations: sibling contiguity, the exact shape of a move, and the
//! create/read round trip.

use vstd::prelude::*;
use crate::docmodel::{group_max_pos, in_group, lemma_docs_moved_props, lemma_group_max_pos_props, moved_doc, shifted_doc};
use crate::docops::{rel_create_document, rel_move_document, spec_create_document_pre_err, spec_move_document_err};
use crate::sat::lemma_spec_replace_values;
use crate::types::{doc_row_of, opt_sv, Document, NewDocument, DocumentWithMetadata};
use crate::view::StoreView;

verus! {

/// How many documents stand in the sibling group of `(pid, parent)`.
pub open spec fn group_count(ds: Seq<Document>, pid: Seq<char>, parent: Option<String>) -> int
    decreases ds.len(),
{
    if ds.len() == 0 {
        0
    } else {
        group_count(ds.drop_last(), pid, parent) + (if in_group(ds.last(), pid, parent) {
            1int
        } else {
            0int
        })
    }
}

/// Whether some member of the sibling group holds position `q`.
pub open spec fn group_has_pos(
    ds: Seq<Document>,
    pid: Seq<char>,
    parent: Option<String>,
    q: int,
) -> bool {
    exists|i: int|
        0 <= i < ds.len() && in_group(#[trigger] ds[i], pid, parent) && ds[i].position == q
}

/// The sibling group's positions are a contiguous permutation of
/// `0 .. n-1`: no duplicates, none out of range, and every rank taken.
pub open spec fn group_contiguous(ds: Seq<Document>, pid: Seq<char>, parent: Option<String>) -> bool {
    &&& forall|i: int, j: int|
        0 <= i < j < ds.len() && in_group(#[trigger] ds[i], pid, parent) && in_group(
            #[trigger] ds[j],
            pid,
            parent,
        ) ==> ds[i].position != ds[j].position
    &&& forall|i: int|
        0 <= i < ds.len() && in_group(#[trigger] ds[i], pid, parent) ==> 0 <= ds[i].position
            < group_count(ds, pid, parent)
    &&& forall|q: int|
        0 <= q < group_count(ds, pid, parent) ==> #[trigger] group_has_pos(ds, pid, parent, q)
}

/// One more row raises the count exactly when it is a group member.
pub proof fn lemma_group_count_push(
    ds: Seq<Document>,
    pid: Seq<char>,
    parent: Option<String>,
    x: Document,
)
    ensures
        group_count(ds.push(x), pid, parent) == group_count(ds, pid, parent) + (if in_group(
            x,
            pid,
            parent,
        ) {
            1int
        } else {
            0int
        }),
{
    assert(ds.push(x).drop_last() =~= ds);
    assert(ds.push(x).last() == x);
}

/// The count never drops below zero.
pub proof fn lemma_group_count_bounds(ds: Seq<Document>, pid: Seq<char>, parent: Option<String>)
    ensures
        0 <= group_count(ds, pid, parent) <= ds.len(),
    decreases ds.len(),
{
    if ds.len() > 0 {
        lemma_group_count_bounds(ds.drop_last(), pid, parent);
    }
}

/// In a contiguous group, the greatest held position is the count less one,
/// so a create that defaults its position places the new node exactly at
/// the end of its sibling group.
pub proof fn lemma_contiguous_max(ds: Seq<Document>, pid: Seq<char>, parent: Option<String>)
    requires
        group_contiguous(ds, pid, parent),
    ensures
        group_max_pos(ds, pid, parent) == group_count(ds, pid, parent) - 1,
{
    lemma_group_max_pos_props(ds, pid, parent);
    lemma_group_count_bounds(ds, pid, parent);
    let n = group_count(ds, pid, parent);
    if n > 0 {
        assert(group_has_pos(ds, pid, parent, n - 1));
        let i = choose|i: int|
            0 <= i < ds.len() && in_group(#[trigger] ds[i], pid, parent) && ds[i].position == n
                - 1;
        assert(group_max_pos(ds, pid, parent) >= n - 1);
        if group_max_pos(ds, pid, parent) >= n {
            let j = choose|j: int|
                0 <= j < ds.len() && in_group(#[trigger] ds[j], pid, parent) && ds[j].position
                    == group_max_pos(ds, pid, parent);
            assert(ds[j].position < n);
        }
    } else {
        if group_max_pos(ds, pid, parent) >= 0 {
            let j = choose|j: int|
                0 <= j < ds.len() && in_group(#[trigger] ds[j], pid, parent) && ds[j].position
                    == group_max_pos(ds, pid, parent);
            assert(ds[j].position < 0);
        }
    }
}

/// After any create whose position was left to the policy, the target
/// sibling group's positions are again a contiguous permutation: the new
/// node takes the next rank and no gap or duplicate appears.
pub proof fn lemma_add_keeps_group_contiguous(
    pre: StoreView,
    post: StoreView,
    doc: NewDocument,
    dw: DocumentWithMetadata,
)
    requires
        rel_create_document(pre, post, doc, dw),
        doc.position is None,
        group_contiguous(pre.documents, doc.project_id@, doc.parent_id),
    ensures
        group_contiguous(post.documents, doc.project_id@, doc.parent_id),
        group_count(post.documents, doc.project_id@, doc.parent_id) == group_count(
            pre.documents,
            doc.project_id@,
            doc.parent_id,
        ) + 1,
{
    let pid = doc.project_id@;
    let parent = doc.parent_id;
    let d = doc_row_of(dw);
    let n = group_count(pre.documents, pid, parent);
    lemma_group_count_bounds(pre.documents, pid, parent);
    lemma_contiguous_max(pre.documents, pid, parent);
    assert(d.position as int == n);
    assert(in_group(d, pid, parent)) by {
        assert(d.project_id@ == doc.project_id@);
        assert(opt_sv(d.parent_id) == opt_sv(doc.parent_id));
    }
    assert(post.documents == pre.documents.push(d));
    lemma_group_count_push(pre.documents, pid, parent, d);
    let m = group_count(post.documents, pid, parent);
    assert(m == n + 1);
    assert forall|i: int, j: int|
        0 <= i < j < post.documents.len() && in_group(#[trigger] post.documents[i], pid, parent)
            && in_group(#[trigger] post.documents[j], pid, parent) implies post.documents[i].position
        != post.documents[j].position by {
        if j == post.documents.len() - 1 {
            assert(post.documents[i] == pre.documents[i]);
            assert(pre.documents[i].position < n);
        } else {
            assert(post.documents[i] == pre.documents[i] && post.documents[j]
                == pre.documents[j]);
        }
    }
    assert forall|i: int|
        0 <= i < post.documents.len() && in_group(#[trigger] post.documents[i], pid, parent) implies 0
        <= post.documents[i].position < m by {
        if i < post.documents.len() - 1 {
            assert(post.documents[i] == pre.documents[i]);
        } else {
            assert(post.documents[i] == d);
            assert(d.position as int == n && 0 <= n < m);
        }
    }
    assert forall|q: int| 0 <= q < m implies #[trigger] group_has_pos(
        post.documents,
        pid,
        parent,
        q,
    ) by {
        if q < n {
            assert(group_has_pos(pre.documents, pid, parent, q));
            let i = choose|i: int|
                0 <= i < pre.documents.len() && in_group(#[trigger] pre.documents[i], pid, parent)
                    && pre.documents[i].position == q;
            assert(post.documents[i] == pre.documents[i]);
            assert(in_group(post.documents[i], pid, parent) && post.documents[i].position == q);
        } else {
            assert(post.documents[post.documents.len() - 1] == d);
            assert(in_group(d, pid, parent) && d.position == q);
        }
    }
}

/// What a move leaves, row by row: the moved node re-seated at the target
/// parent and position; every other member of the target group at or above
/// the target position one rank higher; every other row — the vacated
/// group's members included — exactly as it was, so the gap the node left
/// behind is not compacted.
pub proof fn lemma_move_shift(
    pre: StoreView,
    post: StoreView,
    id: Seq<char>,
    parent: Option<String>,
    pos: i32,
    ts: String,
)
    requires
        rel_move_document(pre, post, id, parent, pos, ts),
    ensures
        post.documents.len() == pre.documents.len(),
        forall|i: int|
            0 <= i < pre.documents.len() ==> #[trigger] post.documents[i] == (if (
            pre.documents[i]).id@ == id {
                moved_doc(pre.documents[i], parent, pos, ts)
            } else if in_group(pre.documents[i], pre.doc_named(id).project_id@, parent)
                && pre.documents[i].position >= pos {
                shifted_doc(pre.documents[i])
            } else {
                pre.documents[i]
            }),
{
    lemma_docs_moved_props(pre.documents, id, parent, pos, pre.doc_named(id).project_id@, ts);
}

/// After a move into a sibling group the node did not come from, at a
/// position no greater than the group's size, the target group's positions
/// are again a contiguous permutation — in particular exactly one node, the
/// moved one, stands at the target position.
#[verifier::rlimit(100)]
#[verifier::spinoff_prover]
pub proof fn lemma_move_makes_target_contiguous(
    pre: StoreView,
    post: StoreView,
    id: Seq<char>,
    parent: Option<String>,
    pos: i32,
    ts: String,
)
    requires
        pre.wf(),
        rel_move_document(pre, post, id, parent, pos, ts),
        spec_move_document_err(pre, id, parent) is None,
        pre.has_doc(id),
        !in_group(pre.doc_named(id), pre.doc_named(id).project_id@, parent),
        group_contiguous(pre.documents, pre.doc_named(id).project_id@, parent),
        0 <= pos as int <= group_count(pre.documents, pre.doc_named(id).project_id@, parent),
    ensures
        group_contiguous(post.documents, pre.doc_named(id).project_id@, parent),
{
    let pid = pre.doc_named(id).project_id@;
    let n = group_count(pre.documents, pid, parent);
    lemma_move_shift(pre, post, id, parent, pos, ts);
    lemma_group_count_bounds(pre.documents, pid, parent);
    lemma_move_group_count(pre, post, id, parent, pos, ts, pre.documents.len() as int);
    assert(pre.documents.take(pre.documents.len() as int) =~= pre.documents);
    assert(post.documents.take(pre.documents.len() as int) =~= post.documents);
    assert(exists|t: int|
        0 <= t < pre.documents.len() && (#[trigger] pre.documents[t]).id@ == id) by {
        let w = choose|w: int| 0 <= w < pre.documents.len() && pre.documents[w].id@ == id;
        assert(pre.documents[w].id@ == id);
    }
    let m = group_count(post.documents, pid, parent);
    assert(m == n + 1);
    assert forall|i: int, j: int|
        0 <= i < j < post.documents.len() && in_group(#[trigger] post.documents[i], pid, parent)
            && in_group(#[trigger] post.documents[j], pid, parent) implies post.documents[i].position
        != post.documents[j].position by {
        lemma_move_member_shape(pre, post, id, parent, pos, ts, i);
        lemma_move_member_shape(pre, post, id, parent, pos, ts, j);
    }
    assert forall|i: int|
        0 <= i < post.documents.len() && in_group(#[trigger] post.documents[i], pid, parent) implies 0
        <= post.documents[i].position < m by {
        lemma_move_member_shape(pre, post, id, parent, pos, ts, i);
    }
    assert forall|q: int| 0 <= q < m implies #[trigger] group_has_pos(
        post.documents,
        pid,
        parent,
        q,
    ) by {
        let mi = choose|mi: int|
            0 <= mi < pre.documents.len() && pre.documents[mi].id@ == id;
        pre.lemma_doc_at(mi);
        if q == pos as int {
            assert(post.documents[mi] == moved_doc(pre.documents[mi], parent, pos, ts));
            assert(in_group(post.documents[mi], pid, parent) && post.documents[mi].position
                == q);
        } else if q < pos as int {
            assert(group_has_pos(pre.documents, pid, parent, q));
            let i = choose|i: int|
                0 <= i < pre.documents.len() && in_group(#[trigger] pre.documents[i], pid, parent)
                    && pre.documents[i].position == q;
            pre.lemma_doc_at(i);
            assert(pre.documents[i].id@ != id);
            assert(post.documents[i] == pre.documents[i]);
            assert(in_group(post.documents[i], pid, parent) && post.documents[i].position == q);
        } else {
            assert(group_has_pos(pre.documents, pid, parent, q - 1));
            let i = choose|i: int|
                0 <= i < pre.documents.len() && in_group(#[trigger] pre.documents[i], pid, parent)
                    && pre.documents[i].position == q - 1;
            pre.lemma_doc_at(i);
            assert(pre.documents[i].id@ != id);
            assert(post.documents[i] == shifted_doc(pre.documents[i]));
            assert(in_group(post.documents[i], pid, parent) && post.documents[i].position == q);
        }
    }
}

/// What one row of the target group looks like after the move: a rank in
/// `0 .. n` that no other member shares.
proof fn lemma_move_member_shape(
    pre: StoreView,
    post: StoreView,
    id: Seq<char>,
    parent: Option<String>,
    pos: i32,
    ts: String,
    i: int,
)
    requires
        pre.wf(),
        rel_move_document(pre, post, id, parent, pos, ts),
        spec_move_document_err(pre, id, parent) is None,
        pre.has_doc(id),
        !in_group(pre.doc_named(id), pre.doc_named(id).project_id@, parent),
        group_contiguous(pre.documents, pre.doc_named(id).project_id@, parent),
        0 <= pos as int <= group_count(pre.documents, pre.doc_named(id).project_id@, parent),
        0 <= i < post.documents.len(),
        in_group(post.documents[i], pre.doc_named(id).project_id@, parent),
    ensures
        0 <= post.documents[i].position <= group_count(
            pre.documents,
            pre.doc_named(id).project_id@,
            parent,
        ),
        pre.documents[i].id@ == id ==> post.documents[i].position == pos,
        pre.documents[i].id@ != id ==> (in_group(
            pre.documents[i],
            pre.doc_named(id).project_id@,
            parent,
        ) && (pre.documents[i].position >= pos ==> post.documents[i].position as int
            == pre.documents[i].position + 1) && (pre.documents[i].position < pos
            ==> post.documents[i].position == pre.documents[i].position)
            && post.documents[i].position != pos),
{
    let pid = pre.doc_named(id).project_id@;
    let n = group_count(pre.documents, pid, parent);
    lemma_move_shift(pre, post, id, parent, pos, ts);
    lemma_group_count_bounds(pre.documents, pid, parent);
    if pre.documents[i].id@ == id {
        pre.lemma_doc_at(i);
        assert(post.documents[i] == moved_doc(pre.documents[i], parent, pos, ts));
        assert(post.documents[i].position == pos);
    } else {
        if in_group(pre.documents[i], pid, parent) && pre.documents[i].position >= pos {
            assert(post.documents[i] == shifted_doc(pre.documents[i]));
            assert(in_group(pre.documents[i], pid, parent));
            assert(0 <= pre.documents[i].position < n);
            pre.lemma_doc_at(i);
            assert(pre.documents[i].id@ != id);
            assert(pre.documents[i].position != i32::MAX);
            assert(post.documents[i].position as int == pre.documents[i].position + 1);
            assert(post.documents[i].position != pos);
        } else {
            assert(post.documents[i] == pre.documents[i]);
            assert(in_group(pre.documents[i], pid, parent));
            assert(0 <= pre.documents[i].position < n);
            assert(pre.documents[i].position < pos);
            assert(post.documents[i].position != pos);
        }
    }
}

/// The vacated group is not compacted, and its members' positions survive a
/// move unchanged: the gap the node left behind stays.
pub proof fn lemma_move_leaves_vacated_gap(
    pre: StoreView,
    post: StoreView,
    id: Seq<char>,
    parent: Option<String>,
    pos: i32,
    ts: String,
    i: int,
)
    requires
        rel_move_document(pre, post, id, parent, pos, ts),
        0 <= i < pre.documents.len(),
        pre.documents[i].id@ != id,
        !in_group(pre.documents[i], pre.doc_named(id).project_id@, parent),
    ensures
        post.documents[i] == pre.documents[i],
{
    lemma_move_shift(pre, post, id, parent, pos, ts);
}

/// How the count of the target group changes under a move from another
/// group: the moved node joins, every shifted or untouched member stays, so
/// the count grows by exactly one.
proof fn lemma_move_group_count(
    pre: StoreView,
    post: StoreView,
    id: Seq<char>,
    parent: Option<String>,
    pos: i32,
    ts: String,
    upto: int,
)
    requires
        pre.wf(),
        rel_move_document(pre, post, id, parent, pos, ts),
        pre.has_doc(id),
        !in_group(pre.doc_named(id), pre.doc_named(id).project_id@, parent),
        0 <= upto <= pre.documents.len(),
    ensures
        group_count(post.documents.take(upto), pre.doc_named(id).project_id@, parent)
            == group_count(pre.documents.take(upto), pre.doc_named(id).project_id@, parent) + (
        if exists|t: int| 0 <= t < upto && (#[trigger] pre.documents[t]).id@ == id {
            1int
        } else {
            0int
        }),
    decreases upto,
{
    let pid = pre.doc_named(id).project_id@;
    lemma_move_shift(pre, post, id, parent, pos, ts);
    if upto > 0 {
        lemma_move_group_count(pre, post, id, parent, pos, ts, upto - 1);
        assert(pre.documents.take(upto).drop_last() =~= pre.documents.take(upto - 1));
        assert(post.documents.take(upto).drop_last() =~= post.documents.take(upto - 1));
        assert(pre.documents.take(upto).last() == pre.documents[upto - 1]);
        assert(post.documents.take(upto).last() == post.documents[upto - 1]);
        let d = pre.documents[upto - 1];
        if d.id@ == id {
            pre.lemma_doc_at(upto - 1);
            assert(post.documents[upto - 1] == moved_doc(d, parent, pos, ts));
            assert(in_group(moved_doc(d, parent, pos, ts), pid, parent));
            assert(!in_group(d, pid, parent));
            assert forall|t: int|
                0 <= t < upto - 1 implies (#[trigger] pre.documents[t]).id@ != id by {
                pre.lemma_doc_at(t);
            }
        } else {
            assert(in_group(post.documents[upto - 1], pid, parent) == in_group(d, pid, parent));
            assert((exists|t: int|
                0 <= t < upto && (#[trigger] pre.documents[t]).id@ == id) == (exists|t: int|
                0 <= t < upto - 1 && (#[trigger] pre.documents[t]).id@ == id)) by {
                if exists|t: int| 0 <= t < upto && (#[trigger] pre.documents[t]).id@ == id {
                    let t = choose|t: int|
                        0 <= t < upto && (#[trigger] pre.documents[t]).id@ == id;
                    assert(t < upto - 1);
                }
            }
        }
    } else {
        assert(pre.documents.take(0) =~= Seq::<Document>::empty());
        assert(post.documents.take(0) =~= Seq::<Document>::empty());
    }
}

/// Reading a node straight after a successful create hands back exactly the
/// value the create returned: the stored row hydrates, field for field, to
/// the supplied values with the documented defaults applied.
pub proof fn lemma_create_then_read(
    pre: StoreView,
    post: StoreView,
    doc: NewDocument,
    dw: DocumentWithMetadata,
)
    requires
        pre.wf(),
        post.wf(),
        rel_create_document(pre, post, doc, dw),
        !pre.has_doc(dw.id@),
        spec_create_document_pre_err(pre, doc) is None,
    ensures
        post.has_doc(dw.id@),
        post.doc_named(dw.id@) == doc_row_of(dw),
        post.is_hydrated(doc_row_of(dw), dw),
{
    broadcast use vstd::seq_lib::group_filter_ensures;
    broadcast use crate::seqs::lemma_filter_elem_source;

    let d = doc_row_of(dw);
    assert(post.documents == pre.documents.push(d));
    assert(post.documents[post.documents.len() - 1] == d);
    post.lemma_doc_at(post.documents.len() - 1);

    // The label set reads back as supplied.
    match doc.labels {
        Option::Some(l) => {
            lemma_spec_replace_values(pre.labels, dw.id, l@);
            assert(dw.labels@ == crate::sat::values_of(post.labels, d.id@));
        },
        Option::None => {
            assert(crate::sat::values_of(pre.labels, d.id@).len() == 0) by {
                if crate::sat::values_of(pre.labels, d.id@).len() > 0 {
                    let x = crate::sat::rows_of(pre.labels, d.id@)[0];
                    assert(crate::sat::rows_of(pre.labels, d.id@).contains(x));
                    let k = pre.labels.lemma_contains_to_index(x);
                    assert(pre.has_doc(pre.labels[k].owner@));
                }
            }
            assert(dw.labels@ =~= crate::sat::values_of(post.labels, d.id@));
        },
    }

    // The metadata reads back as stored.
    let ghost md = dw.metadata;
    match md {
        Option::Some(dm) => {
            let row = crate::docops::meta_row_of(dm, dw.id);
            assert(post.metadata == pre.metadata.push(row));
            assert(post.metadata[post.metadata.len() - 1].document_id@ == d.id@);
            assert(post.has_meta(d.id@));
            post.lemma_meta_at(post.metadata.len() - 1);
            lemma_spec_replace_values(pre.characters, dw.id, dm.characters@);
            lemma_spec_replace_values(pre.keywords, dw.id, dm.keywords@);
        },
        Option::None => {
            assert(!post.has_meta(d.id@)) by {
                if post.has_meta(d.id@) {
                    let k = choose|k: int|
                        0 <= k < post.metadata.len() && post.metadata[k].document_id@ == d.id@;
                    assert(pre.metadata[k].document_id@ == d.id@);
                    assert(pre.has_doc(pre.metadata[k].document_id@));
                }
            }
        },
    }
}

} // verus!
