//! What each tree mutation makes of the document and metadata tables, row by
//! row, and why each keeps the store well formed.

use vstd::prelude::*;
use crate::sat::{lemma_spec_replace_values, sat_without_owner, spec_replace};
use crate::types::{
    opt_sv, strs_sv, Document, MetadataRow, UpdateDocument, UpdateDocumentMetadata,
};
use crate::view::StoreView;

verus! {

/// Whether a document stands in the sibling group of `(pid, parent)`.
pub open spec fn in_group(d: Document, pid: Seq<char>, parent: Option<String>) -> bool {
    d.project_id@ == pid && opt_sv(d.parent_id) == opt_sv(parent)
}

/// The largest position held in a sibling group, `-1` if the group is empty.
pub open spec fn group_max_pos(ds: Seq<Document>, pid: Seq<char>, parent: Option<String>) -> int
    decreases ds.len(),
{
    if ds.len() == 0 {
        -1
    } else {
        let m = group_max_pos(ds.drop_last(), pid, parent);
        if in_group(ds.last(), pid, parent) && ds.last().position > m {
            ds.last().position as int
        } else {
            m
        }
    }
}

/// One more row raises the maximum exactly when it is a higher group member.
pub proof fn lemma_group_max_pos_push(
    ds: Seq<Document>,
    pid: Seq<char>,
    parent: Option<String>,
    x: Document,
)
    ensures
        group_max_pos(ds.push(x), pid, parent) == if in_group(x, pid, parent) && x.position
            > group_max_pos(ds, pid, parent) {
            x.position as int
        } else {
            group_max_pos(ds, pid, parent)
        },
{
    assert(ds.push(x).drop_last() =~= ds);
    assert(ds.push(x).last() == x);
}

/// The maximum is no smaller than any group member's position, and is held
/// by a member when the group is not empty.
pub proof fn lemma_group_max_pos_props(ds: Seq<Document>, pid: Seq<char>, parent: Option<String>)
    ensures
        group_max_pos(ds, pid, parent) >= -1,
        forall|i: int|
            0 <= i < ds.len() && in_group(#[trigger] ds[i], pid, parent) ==> ds[i].position
                <= group_max_pos(ds, pid, parent),
        group_max_pos(ds, pid, parent) >= 0 ==> exists|i: int|
            0 <= i < ds.len() && in_group(#[trigger] ds[i], pid, parent) && ds[i].position
                == group_max_pos(ds, pid, parent),
    decreases ds.len(),
{
    if ds.len() > 0 {
        let t = ds.drop_last();
        lemma_group_max_pos_props(t, pid, parent);
        assert forall|i: int|
            0 <= i < ds.len() && in_group(#[trigger] ds[i], pid, parent) implies ds[i].position
            <= group_max_pos(ds, pid, parent) by {
            if i < ds.len() - 1 {
                assert(t[i] == ds[i]);
            }
        }
        if group_max_pos(ds, pid, parent) >= 0 {
            if in_group(ds.last(), pid, parent) && ds.last().position > group_max_pos(
                t,
                pid,
                parent,
            ) {
                assert(ds[ds.len() - 1].position == group_max_pos(ds, pid, parent));
            } else {
                let i = choose|i: int|
                    0 <= i < t.len() && in_group(#[trigger] t[i], pid, parent) && t[i].position
                        == group_max_pos(t, pid, parent);
                assert(ds[i] == t[i]);
            }
        }
    }
}

/// The moved row: new parent, new position, fresh timestamp.
pub open spec fn moved_doc(d: Document, parent: Option<String>, pos: i32, ts: String) -> Document {
    Document { parent_id: parent, position: pos, last_modified: ts, ..d }
}

/// A sibling pushed one rank up to make room.
pub open spec fn shifted_doc(d: Document) -> Document {
    Document { position: (d.position + 1) as i32, ..d }
}

/// What a move leaves in the document table: the moved row re-seated, every
/// other member of the target group at or above the target position moved up
/// one rank, everything else, the vacated group included, untouched.
pub open spec fn docs_moved(
    ds: Seq<Document>,
    id: Seq<char>,
    parent: Option<String>,
    pos: i32,
    pid: Seq<char>,
    ts: String,
) -> Seq<Document>
    decreases ds.len(),
{
    if ds.len() == 0 {
        Seq::empty()
    } else {
        let rest = docs_moved(ds.drop_last(), id, parent, pos, pid, ts);
        let d = ds.last();
        if d.id@ == id {
            rest.push(moved_doc(d, parent, pos, ts))
        } else if in_group(d, pid, parent) && d.position >= pos {
            rest.push(shifted_doc(d))
        } else {
            rest.push(d)
        }
    }
}

/// What the move does to each row.
pub proof fn lemma_docs_moved_props(
    ds: Seq<Document>,
    id: Seq<char>,
    parent: Option<String>,
    pos: i32,
    pid: Seq<char>,
    ts: String,
)
    ensures
        docs_moved(ds, id, parent, pos, pid, ts).len() == ds.len(),
        forall|i: int|
            0 <= i < ds.len() ==> docs_moved(ds, id, parent, pos, pid, ts)[i] == (if (
            #[trigger] ds[i]).id@ == id {
                moved_doc(ds[i], parent, pos, ts)
            } else if in_group(ds[i], pid, parent) && ds[i].position >= pos {
                shifted_doc(ds[i])
            } else {
                ds[i]
            }),
    decreases ds.len(),
{
    if ds.len() > 0 {
        lemma_docs_moved_props(ds.drop_last(), id, parent, pos, pid, ts);
        assert forall|i: int| 0 <= i < ds.len() implies docs_moved(ds, id, parent, pos, pid, ts)[i]
            == (if (#[trigger] ds[i]).id@ == id {
            moved_doc(ds[i], parent, pos, ts)
        } else if in_group(ds[i], pid, parent) && ds[i].position >= pos {
            shifted_doc(ds[i])
        } else {
            ds[i]
        }) by {
            if i < ds.len() - 1 {
                assert(ds.drop_last()[i] == ds[i]);
            }
        }
    }
}

/// What one partial document patch makes of the matching row. An absent
/// field keeps the stored value; `parent_id` and the other nullable fields
/// can be set but not cleared.
pub open spec fn patched_document(d: Document, u: UpdateDocument, ts: String) -> Document {
    Document {
        id: d.id,
        project_id: d.project_id,
        parent_id: (match u.parent_id {
            Option::Some(p) => Option::Some(p),
            Option::None => d.parent_id,
        }),
        title: (match u.title {
            Option::Some(t) => t,
            Option::None => d.title,
        }),
        content: (match u.content {
            Option::Some(c) => Option::Some(c),
            Option::None => d.content,
        }),
        synopsis: (match u.synopsis {
            Option::Some(s) => Option::Some(s),
            Option::None => d.synopsis,
        }),
        doc_type: (match u.doc_type {
            Option::Some(t) => t,
            Option::None => d.doc_type,
        }),
        status: (match u.status {
            Option::Some(s) => s,
            Option::None => d.status,
        }),
        word_count: (match u.word_count {
            Option::Some(w) => w,
            Option::None => d.word_count,
        }),
        target_word_count: (match u.target_word_count {
            Option::Some(w) => Option::Some(w),
            Option::None => d.target_word_count,
        }),
        position: (match u.position {
            Option::Some(p) => p,
            Option::None => d.position,
        }),
        created_at: d.created_at,
        last_modified: ts,
    }
}

/// The document table with the matching row patched.
pub open spec fn docs_patched(ds: Seq<Document>, u: UpdateDocument, ts: String) -> Seq<Document>
    decreases ds.len(),
{
    if ds.len() == 0 {
        Seq::empty()
    } else {
        let rest = docs_patched(ds.drop_last(), u, ts);
        if ds.last().id@ == u.id@ {
            rest.push(patched_document(ds.last(), u, ts))
        } else {
            rest.push(ds.last())
        }
    }
}

/// What the patch does to each row.
pub proof fn lemma_docs_patched_props(ds: Seq<Document>, u: UpdateDocument, ts: String)
    ensures
        docs_patched(ds, u, ts).len() == ds.len(),
        forall|i: int|
            0 <= i < ds.len() ==> docs_patched(ds, u, ts)[i] == (if (#[trigger] ds[i]).id@
                == u.id@ {
                patched_document(ds[i], u, ts)
            } else {
                ds[i]
            }),
    decreases ds.len(),
{
    if ds.len() > 0 {
        lemma_docs_patched_props(ds.drop_last(), u, ts);
        assert forall|i: int| 0 <= i < ds.len() implies docs_patched(ds, u, ts)[i] == (if (
        #[trigger] ds[i]).id@ == u.id@ {
            patched_document(ds[i], u, ts)
        } else {
            ds[i]
        }) by {
            if i < ds.len() - 1 {
                assert(ds.drop_last()[i] == ds[i]);
            }
        }
    }
}

/// What one metadata patch makes of the stored row. An absent `version`
/// means one more than the stored version.
pub open spec fn patched_meta(m: MetadataRow, um: UpdateDocumentMetadata) -> MetadataRow {
    MetadataRow {
        document_id: m.document_id,
        pov: (match um.pov {
            Option::Some(p) => Option::Some(p),
            Option::None => m.pov,
        }),
        setting: (match um.setting {
            Option::Some(s) => Option::Some(s),
            Option::None => m.setting,
        }),
        event_date: (match um.event_date {
            Option::Some(e) => Option::Some(e),
            Option::None => m.event_date,
        }),
        importance: (match um.importance {
            Option::Some(v) => Option::Some(v),
            Option::None => m.importance,
        }),
        content_format: (match um.content_format {
            Option::Some(c) => Option::Some(c),
            Option::None => m.content_format,
        }),
        visibility: (match um.visibility {
            Option::Some(v) => Option::Some(v),
            Option::None => m.visibility,
        }),
        ai_assisted: (match um.ai_assisted {
            Option::Some(a) => a,
            Option::None => m.ai_assisted,
        }),
        version: (match um.version {
            Option::Some(v) => v,
            Option::None => (m.version + 1) as i32,
        }),
        custom_fields: (match um.custom_fields {
            Option::Some(c) => Option::Some(c),
            Option::None => m.custom_fields,
        }),
    }
}

/// The metadata table with the named document's row patched.
pub open spec fn metas_patched(
    ms: Seq<MetadataRow>,
    doc_id: Seq<char>,
    um: UpdateDocumentMetadata,
) -> Seq<MetadataRow>
    decreases ms.len(),
{
    if ms.len() == 0 {
        Seq::empty()
    } else {
        let rest = metas_patched(ms.drop_last(), doc_id, um);
        if ms.last().document_id@ == doc_id {
            rest.push(patched_meta(ms.last(), um))
        } else {
            rest.push(ms.last())
        }
    }
}

/// What the metadata patch does to each row.
pub proof fn lemma_metas_patched_props(
    ms: Seq<MetadataRow>,
    doc_id: Seq<char>,
    um: UpdateDocumentMetadata,
)
    ensures
        metas_patched(ms, doc_id, um).len() == ms.len(),
        forall|i: int|
            0 <= i < ms.len() ==> metas_patched(ms, doc_id, um)[i] == (if (
            #[trigger] ms[i]).document_id@ == doc_id {
                patched_meta(ms[i], um)
            } else {
                ms[i]
            }),
    decreases ms.len(),
{
    if ms.len() > 0 {
        lemma_metas_patched_props(ms.drop_last(), doc_id, um);
        assert forall|i: int| 0 <= i < ms.len() implies metas_patched(ms, doc_id, um)[i] == (if (
        #[trigger] ms[i]).document_id@ == doc_id {
            patched_meta(ms[i], um)
        } else {
            ms[i]
        }) by {
            if i < ms.len() - 1 {
                assert(ms.drop_last()[i] == ms[i]);
            }
        }
    }
}

/// The document table without the named row.
pub open spec fn docs_without_id(ds: Seq<Document>, id: Seq<char>) -> Seq<Document>
    decreases ds.len(),
{
    if ds.len() == 0 {
        Seq::empty()
    } else {
        let rest = docs_without_id(ds.drop_last(), id);
        if ds.last().id@ != id {
            rest.push(ds.last())
        } else {
            rest
        }
    }
}

/// One more row survives exactly when it is another document.
pub proof fn lemma_docs_without_id_push(ds: Seq<Document>, id: Seq<char>, x: Document)
    ensures
        docs_without_id(ds.push(x), id) == if x.id@ != id {
            docs_without_id(ds, id).push(x)
        } else {
            docs_without_id(ds, id)
        },
{
    assert(ds.push(x).drop_last() =~= ds);
    assert(ds.push(x).last() == x);
}

/// What the surviving document rows are.
pub proof fn lemma_docs_without_id_props(ds: Seq<Document>, id: Seq<char>)
    ensures
        forall|i: int|
            0 <= i < docs_without_id(ds, id).len() ==> (#[trigger] docs_without_id(ds, id)[i]).id@
                != id && ds.contains(docs_without_id(ds, id)[i]),
        forall|i: int|
            0 <= i < ds.len() && (#[trigger] ds[i]).id@ != id ==> docs_without_id(
                ds,
                id,
            ).contains(ds[i]),
        (forall|i: int, j: int| 0 <= i < j < ds.len() ==> ds[i].id@ != ds[j].id@) ==> (forall|
            i: int,
            j: int,
        |
            0 <= i < j < docs_without_id(ds, id).len() ==> docs_without_id(ds, id)[i].id@
                != docs_without_id(ds, id)[j].id@),
    decreases ds.len(),
{
    if ds.len() > 0 {
        let t = ds.drop_last();
        lemma_docs_without_id_props(t, id);
        let f = docs_without_id(ds, id);
        let ft = docs_without_id(t, id);
        assert forall|i: int| 0 <= i < f.len() implies (#[trigger] f[i]).id@ != id && ds.contains(
            f[i],
        ) by {
            if i < ft.len() {
                assert(f[i] == ft[i]);
                assert(t.contains(ft[i]));
                let k = t.lemma_contains_to_index(ft[i]);
                assert(ds[k] == f[i]);
            } else {
                assert(f[i] == ds.last());
                assert(ds[ds.len() - 1] == f[i]);
            }
        }
        assert forall|i: int| 0 <= i < ds.len() && (#[trigger] ds[i]).id@ != id implies f.contains(
            ds[i],
        ) by {
            if i < ds.len() - 1 {
                assert(t[i] == ds[i]);
                assert(ft.contains(ds[i]));
                let k = ft.lemma_contains_to_index(ds[i]);
                assert(f[k] == ds[i]);
            } else {
                assert(f[f.len() - 1] == ds[i]);
            }
        }
        if forall|i: int, j: int| 0 <= i < j < ds.len() ==> ds[i].id@ != ds[j].id@ {
            assert forall|i: int, j: int| 0 <= i < j < t.len() implies t[i].id@ != t[j].id@ by {
                assert(t[i] == ds[i] && t[j] == ds[j]);
            }
            assert forall|i: int, j: int| 0 <= i < j < f.len() implies f[i].id@ != f[j].id@ by {
                if j < ft.len() {
                    assert(f[i] == ft[i] && f[j] == ft[j]);
                } else {
                    assert(f[i] == ft[i] && f[j] == ds.last());
                    assert(t.contains(ft[i]));
                    let k = t.lemma_contains_to_index(ft[i]);
                    assert(ds[k] == f[i]);
                    assert(ds[k].id@ != ds[ds.len() - 1].id@);
                }
            }
        }
    }
}

/// The metadata table without the named document's row.
pub open spec fn meta_without_doc(ms: Seq<MetadataRow>, doc_id: Seq<char>) -> Seq<MetadataRow>
    decreases ms.len(),
{
    if ms.len() == 0 {
        Seq::empty()
    } else {
        let rest = meta_without_doc(ms.drop_last(), doc_id);
        if ms.last().document_id@ != doc_id {
            rest.push(ms.last())
        } else {
            rest
        }
    }
}

/// One more row survives exactly when it belongs to another document.
pub proof fn lemma_meta_without_doc_push(ms: Seq<MetadataRow>, doc_id: Seq<char>, x: MetadataRow)
    ensures
        meta_without_doc(ms.push(x), doc_id) == if x.document_id@ != doc_id {
            meta_without_doc(ms, doc_id).push(x)
        } else {
            meta_without_doc(ms, doc_id)
        },
{
    assert(ms.push(x).drop_last() =~= ms);
    assert(ms.push(x).last() == x);
}

/// What the surviving metadata rows are.
pub proof fn lemma_meta_without_doc_props(ms: Seq<MetadataRow>, doc_id: Seq<char>)
    ensures
        forall|i: int|
            0 <= i < meta_without_doc(ms, doc_id).len() ==> (#[trigger] meta_without_doc(
                ms,
                doc_id,
            )[i]).document_id@ != doc_id && ms.contains(meta_without_doc(ms, doc_id)[i]),
        forall|i: int|
            0 <= i < ms.len() && (#[trigger] ms[i]).document_id@ != doc_id ==> meta_without_doc(
                ms,
                doc_id,
            ).contains(ms[i]),
        (forall|i: int, j: int|
            0 <= i < j < ms.len() ==> ms[i].document_id@ != ms[j].document_id@) ==> (forall|
            i: int,
            j: int,
        |
            0 <= i < j < meta_without_doc(ms, doc_id).len() ==> meta_without_doc(
                ms,
                doc_id,
            )[i].document_id@ != meta_without_doc(ms, doc_id)[j].document_id@),
    decreases ms.len(),
{
    if ms.len() > 0 {
        let t = ms.drop_last();
        lemma_meta_without_doc_props(t, doc_id);
        let f = meta_without_doc(ms, doc_id);
        let ft = meta_without_doc(t, doc_id);
        assert forall|i: int| 0 <= i < f.len() implies (#[trigger] f[i]).document_id@ != doc_id
            && ms.contains(f[i]) by {
            if i < ft.len() {
                assert(f[i] == ft[i]);
                assert(t.contains(ft[i]));
                let k = t.lemma_contains_to_index(ft[i]);
                assert(ms[k] == f[i]);
            } else {
                assert(f[i] == ms.last());
                assert(ms[ms.len() - 1] == f[i]);
            }
        }
        assert forall|i: int|
            0 <= i < ms.len() && (#[trigger] ms[i]).document_id@ != doc_id implies f.contains(
            ms[i],
        ) by {
            if i < ms.len() - 1 {
                assert(t[i] == ms[i]);
                assert(ft.contains(ms[i]));
                let k = ft.lemma_contains_to_index(ms[i]);
                assert(f[k] == ms[i]);
            } else {
                assert(f[f.len() - 1] == ms[i]);
            }
        }
        if forall|i: int, j: int| 0 <= i < j < ms.len() ==> ms[i].document_id@
            != ms[j].document_id@ {
            assert forall|i: int, j: int| 0 <= i < j < t.len() implies t[i].document_id@
                != t[j].document_id@ by {
                assert(t[i] == ms[i] && t[j] == ms[j]);
            }
            assert forall|i: int, j: int| 0 <= i < j < f.len() implies f[i].document_id@
                != f[j].document_id@ by {
                if j < ft.len() {
                    assert(f[i] == ft[i] && f[j] == ft[j]);
                } else {
                    assert(f[i] == ft[i] && f[j] == ms.last());
                    assert(t.contains(ft[i]));
                    let k = t.lemma_contains_to_index(ft[i]);
                    assert(ms[k] == f[i]);
                    assert(ms[k].document_id@ != ms[ms.len() - 1].document_id@);
                }
            }
        }
    }
}

impl StoreView {
    /// Adding a document row under a fresh id, an existing project and a
    /// valid parent keeps the store well formed; lookups of other documents
    /// are untouched.
    pub proof fn lemma_add_document_wf(self, d: Document)
        requires
            self.wf(),
            !self.has_doc(d.id@),
            self.has_project(d.project_id@),
            match d.parent_id {
                Option::Some(p) => self.has_doc(p@) && self.doc_named(p@).project_id@
                    == d.project_id@,
                Option::None => true,
            },
        ensures
            (StoreView { documents: self.documents.push(d), ..self }).wf(),
            forall|x: Seq<char>|
                (StoreView { documents: self.documents.push(d), ..self }).has_doc(x) == (
                self.has_doc(x) || x == d.id@),
            forall|x: Seq<char>|
                self.has_doc(x) ==> (StoreView { documents: self.documents.push(d), ..self }).doc_named(
                    x,
                ) == self.doc_named(x),
            (StoreView { documents: self.documents.push(d), ..self }).doc_named(d.id@) == d,
    {
        let t = StoreView { documents: self.documents.push(d), ..self };
        assert forall|i: int, j: int| 0 <= i < j < t.documents.len() implies t.documents[i].id@
            != t.documents[j].id@ by {
            if j == t.documents.len() - 1 {
                assert(t.documents[i] == self.documents[i]);
                assert(self.documents[i].id@ != d.id@);
            }
        }
        assert forall|x: Seq<char>| t.has_doc(x) == (self.has_doc(x) || x == d.id@) by {
            if self.has_doc(x) {
                let i = choose|i: int|
                    0 <= i < self.documents.len() && self.documents[i].id@ == x;
                assert(t.documents[i].id@ == x);
            }
            if x == d.id@ {
                assert(t.documents[t.documents.len() - 1].id@ == x);
            }
            if t.has_doc(x) && !self.has_doc(x) && x != d.id@ {
                let i = choose|i: int| 0 <= i < t.documents.len() && t.documents[i].id@ == x;
                assert(i < self.documents.len() ==> self.documents[i].id@ == x);
            }
        }
        assert forall|x: Seq<char>| self.has_doc(x) implies t.doc_named(x) == self.doc_named(
            x,
        ) by {
            let i = choose|i: int| 0 <= i < self.documents.len() && self.documents[i].id@ == x;
            assert(t.documents[i].id@ == x);
            t.lemma_doc_at(i);
            self.lemma_doc_at(i);
        }
        t.lemma_doc_at(t.documents.len() - 1);
        assert forall|i: int| 0 <= i < t.documents.len() implies t.has_project(
            #[trigger] t.documents[i].project_id@,
        ) && (match t.documents[i].parent_id {
            Option::Some(p) => t.has_doc(p@) && t.doc_named(p@).project_id@
                == t.documents[i].project_id@,
            Option::None => true,
        }) by {
            if i < self.documents.len() {
                assert(t.documents[i] == self.documents[i]);
                assert(self.has_project(self.documents[i].project_id@));
                match self.documents[i].parent_id {
                    Option::Some(p) => {
                        assert(self.has_doc(p@));
                    },
                    Option::None => {},
                }
            } else {
                assert(t.documents[i] == d);
            }
        }
        assert forall|i: int| 0 <= i < t.metadata.len() implies t.has_doc(
            #[trigger] t.metadata[i].document_id@,
        ) by {
            assert(self.has_doc(self.metadata[i].document_id@));
        }
        assert forall|i: int| 0 <= i < t.labels.len() implies t.has_doc(
            #[trigger] t.labels[i].owner@,
        ) by {
            assert(self.has_doc(self.labels[i].owner@));
        }
    }

    /// Replacing the label set of an existing document with a
    /// duplicate-free one keeps the store well formed.
    pub proof fn lemma_replace_labels_wf(self, owner: String, values: Seq<String>)
        requires
            self.wf(),
            self.has_doc(owner@),
            strs_sv(values).no_duplicates(),
        ensures
            (StoreView { labels: spec_replace(self.labels, owner, values), ..self }).wf(),
    {
        lemma_spec_replace_values(self.labels, owner, values);
        let t = StoreView { labels: spec_replace(self.labels, owner, values), ..self };
        assert forall|i: int| 0 <= i < t.labels.len() implies t.has_doc(
            #[trigger] t.labels[i].owner@,
        ) by {
            if t.labels[i].owner@ != owner@ {
                assert(self.labels.contains(t.labels[i]));
                let k = self.labels.lemma_contains_to_index(t.labels[i]);
                assert(self.has_doc(self.labels[k].owner@));
            }
        }
    }

    /// Adding a metadata row for an existing document that has none keeps
    /// the store well formed.
    pub proof fn lemma_add_meta_wf(self, m: MetadataRow)
        requires
            self.wf(),
            self.has_doc(m.document_id@),
            !self.has_meta(m.document_id@),
        ensures
            (StoreView { metadata: self.metadata.push(m), ..self }).wf(),
            forall|x: Seq<char>|
                (StoreView { metadata: self.metadata.push(m), ..self }).has_meta(x) == (
                self.has_meta(x) || x == m.document_id@),
            forall|x: Seq<char>|
                self.has_meta(x) ==> (StoreView { metadata: self.metadata.push(m), ..self }).meta_named(
                    x,
                ) == self.meta_named(x),
            (StoreView { metadata: self.metadata.push(m), ..self }).meta_named(m.document_id@)
                == m,
    {
        let t = StoreView { metadata: self.metadata.push(m), ..self };
        assert forall|i: int, j: int| 0 <= i < j < t.metadata.len() implies t.metadata[i].document_id@
            != t.metadata[j].document_id@ by {
            if j == t.metadata.len() - 1 {
                assert(t.metadata[i] == self.metadata[i]);
                assert(self.metadata[i].document_id@ != m.document_id@);
            }
        }
        assert forall|x: Seq<char>| t.has_meta(x) == (self.has_meta(x) || x == m.document_id@) by {
            if self.has_meta(x) {
                let i = choose|i: int|
                    0 <= i < self.metadata.len() && self.metadata[i].document_id@ == x;
                assert(t.metadata[i].document_id@ == x);
            }
            if x == m.document_id@ {
                assert(t.metadata[t.metadata.len() - 1].document_id@ == x);
            }
            if t.has_meta(x) && !self.has_meta(x) && x != m.document_id@ {
                let i = choose|i: int|
                    0 <= i < t.metadata.len() && t.metadata[i].document_id@ == x;
                assert(i < self.metadata.len() ==> self.metadata[i].document_id@ == x);
            }
        }
        assert forall|x: Seq<char>| self.has_meta(x) implies t.meta_named(x) == self.meta_named(
            x,
        ) by {
            let i = choose|i: int|
                0 <= i < self.metadata.len() && self.metadata[i].document_id@ == x;
            assert(t.metadata[i].document_id@ == x);
            t.lemma_meta_at(i);
            self.lemma_meta_at(i);
        }
        t.lemma_meta_at(t.metadata.len() - 1);
        assert forall|i: int| 0 <= i < t.metadata.len() implies t.has_doc(
            #[trigger] t.metadata[i].document_id@,
        ) by {
            if i < self.metadata.len() {
                assert(t.metadata[i] == self.metadata[i]);
                assert(self.has_doc(self.metadata[i].document_id@));
            }
        }
        assert forall|i: int| 0 <= i < t.characters.len() implies t.has_meta(
            #[trigger] t.characters[i].owner@,
        ) by {
            assert(self.has_meta(self.characters[i].owner@));
        }
        assert forall|i: int| 0 <= i < t.keywords.len() implies t.has_meta(
            #[trigger] t.keywords[i].owner@,
        ) by {
            assert(self.has_meta(self.keywords[i].owner@));
        }
    }

    /// Replacing the character set of a document that has a metadata row
    /// keeps the store well formed.
    pub proof fn lemma_replace_characters_wf(self, owner: String, values: Seq<String>)
        requires
            self.wf(),
            self.has_meta(owner@),
            strs_sv(values).no_duplicates(),
        ensures
            (StoreView { characters: spec_replace(self.characters, owner, values), ..self }).wf(),
    {
        lemma_spec_replace_values(self.characters, owner, values);
        let t = StoreView { characters: spec_replace(self.characters, owner, values), ..self };
        assert forall|i: int| 0 <= i < t.characters.len() implies t.has_meta(
            #[trigger] t.characters[i].owner@,
        ) by {
            if t.characters[i].owner@ != owner@ {
                assert(self.characters.contains(t.characters[i]));
                let k = self.characters.lemma_contains_to_index(t.characters[i]);
                assert(self.has_meta(self.characters[k].owner@));
            }
        }
    }

    /// Replacing the keyword set of a document that has a metadata row keeps
    /// the store well formed.
    pub proof fn lemma_replace_keywords_wf(self, owner: String, values: Seq<String>)
        requires
            self.wf(),
            self.has_meta(owner@),
            strs_sv(values).no_duplicates(),
        ensures
            (StoreView { keywords: spec_replace(self.keywords, owner, values), ..self }).wf(),
    {
        lemma_spec_replace_values(self.keywords, owner, values);
        let t = StoreView { keywords: spec_replace(self.keywords, owner, values), ..self };
        assert forall|i: int| 0 <= i < t.keywords.len() implies t.has_meta(
            #[trigger] t.keywords[i].owner@,
        ) by {
            if t.keywords[i].owner@ != owner@ {
                assert(self.keywords.contains(t.keywords[i]));
                let k = self.keywords.lemma_contains_to_index(t.keywords[i]);
                assert(self.has_meta(self.keywords[k].owner@));
            }
        }
    }

    /// Rewriting document rows without touching ids or owning projects, and
    /// leaving every row's parent either unchanged or valid, keeps the store
    /// well formed. The new rows are given pointwise.
    pub proof fn lemma_docs_pointwise_preserves(self, qs: Seq<Document>)
        requires
            self.wf(),
            qs.len() == self.documents.len(),
            forall|i: int|
                0 <= i < qs.len() ==> (#[trigger] qs[i]).id@ == self.documents[i].id@ && qs[i].project_id@
                    == self.documents[i].project_id@,
            forall|i: int|
                0 <= i < qs.len() ==> match (#[trigger] qs[i]).parent_id {
                    Option::Some(p) => self.has_doc(p@) && self.doc_named(p@).project_id@
                        == qs[i].project_id@,
                    Option::None => true,
                },
        ensures
            (StoreView { documents: qs, ..self }).wf(),
            forall|x: Seq<char>|
                (StoreView { documents: qs, ..self }).has_doc(x) == self.has_doc(x),
            forall|x: Seq<char>|
                self.has_doc(x) ==> ((StoreView { documents: qs, ..self }).doc_named(x).id@ == x
                    && (StoreView { documents: qs, ..self }).doc_named(x).project_id@
                    == self.doc_named(x).project_id@),
    {
        let t = StoreView { documents: qs, ..self };
        assert forall|i: int, j: int| 0 <= i < j < t.documents.len() implies t.documents[i].id@
            != t.documents[j].id@ by {
            assert(t.documents[i].id@ == self.documents[i].id@);
            assert(t.documents[j].id@ == self.documents[j].id@);
        }
        assert forall|x: Seq<char>| t.has_doc(x) == self.has_doc(x) by {
            if self.has_doc(x) {
                let i = choose|i: int|
                    0 <= i < self.documents.len() && self.documents[i].id@ == x;
                assert(t.documents[i].id@ == x);
            }
            if t.has_doc(x) {
                let i = choose|i: int| 0 <= i < t.documents.len() && t.documents[i].id@ == x;
                assert(self.documents[i].id@ == x);
            }
        }
        assert forall|x: Seq<char>| self.has_doc(x) implies (t.doc_named(x).id@ == x
            && t.doc_named(x).project_id@ == self.doc_named(x).project_id@) by {
            let i = choose|i: int| 0 <= i < self.documents.len() && self.documents[i].id@ == x;
            assert(t.documents[i].id@ == x);
            t.lemma_doc_at(i);
            self.lemma_doc_at(i);
        }
        assert forall|i: int| 0 <= i < t.documents.len() implies t.has_project(
            #[trigger] t.documents[i].project_id@,
        ) && (match t.documents[i].parent_id {
            Option::Some(p) => t.has_doc(p@) && t.doc_named(p@).project_id@
                == t.documents[i].project_id@,
            Option::None => true,
        }) by {
            assert(self.has_project(self.documents[i].project_id@));
            match t.documents[i].parent_id {
                Option::Some(p) => {
                    assert(self.has_doc(p@) && self.doc_named(p@).project_id@
                        == t.documents[i].project_id@);
                },
                Option::None => {},
            }
        }
        assert forall|i: int| 0 <= i < t.metadata.len() implies t.has_doc(
            #[trigger] t.metadata[i].document_id@,
        ) by {
            assert(self.has_doc(self.metadata[i].document_id@));
        }
        assert forall|i: int| 0 <= i < t.labels.len() implies t.has_doc(
            #[trigger] t.labels[i].owner@,
        ) by {
            assert(self.has_doc(self.labels[i].owner@));
        }
    }

    /// Rewriting metadata rows without touching their document ids keeps the
    /// store well formed.
    pub proof fn lemma_metas_pointwise_preserves(self, qs: Seq<MetadataRow>)
        requires
            self.wf(),
            qs.len() == self.metadata.len(),
            forall|i: int|
                0 <= i < qs.len() ==> (#[trigger] qs[i]).document_id@
                    == self.metadata[i].document_id@,
        ensures
            (StoreView { metadata: qs, ..self }).wf(),
            forall|x: Seq<char>|
                (StoreView { metadata: qs, ..self }).has_meta(x) == self.has_meta(x),
    {
        let t = StoreView { metadata: qs, ..self };
        assert forall|i: int, j: int| 0 <= i < j < t.metadata.len() implies t.metadata[i].document_id@
            != t.metadata[j].document_id@ by {
            assert(t.metadata[i].document_id@ == self.metadata[i].document_id@);
            assert(t.metadata[j].document_id@ == self.metadata[j].document_id@);
        }
        assert forall|x: Seq<char>| t.has_meta(x) == self.has_meta(x) by {
            if self.has_meta(x) {
                let i = choose|i: int|
                    0 <= i < self.metadata.len() && self.metadata[i].document_id@ == x;
                assert(t.metadata[i].document_id@ == x);
            }
            if t.has_meta(x) {
                let i = choose|i: int|
                    0 <= i < t.metadata.len() && t.metadata[i].document_id@ == x;
                assert(self.metadata[i].document_id@ == x);
            }
        }
        assert forall|i: int| 0 <= i < t.metadata.len() implies t.has_doc(
            #[trigger] t.metadata[i].document_id@,
        ) by {
            assert(self.has_doc(self.metadata[i].document_id@));
        }
        assert forall|i: int| 0 <= i < t.characters.len() implies t.has_meta(
            #[trigger] t.characters[i].owner@,
        ) by {
            assert(self.has_meta(self.characters[i].owner@));
        }
        assert forall|i: int| 0 <= i < t.keywords.len() implies t.has_meta(
            #[trigger] t.keywords[i].owner@,
        ) by {
            assert(self.has_meta(self.keywords[i].owner@));
        }
    }

    /// Deleting a childless document and everything it owns keeps the store
    /// well formed.
    pub proof fn lemma_delete_document_wf(self, id: Seq<char>)
        requires
            self.wf(),
            forall|i: int|
                0 <= i < self.documents.len() ==> match (#[trigger] self.documents[i]).parent_id {
                    Option::Some(p) => p@ != id,
                    Option::None => true,
                },
        ensures
            (StoreView {
                documents: docs_without_id(self.documents, id),
                labels: sat_without_owner(self.labels, id),
                metadata: meta_without_doc(self.metadata, id),
                characters: sat_without_owner(self.characters, id),
                keywords: sat_without_owner(self.keywords, id),
                ..self
            }).wf(),
    {
        let t = StoreView {
            documents: docs_without_id(self.documents, id),
            labels: sat_without_owner(self.labels, id),
            metadata: meta_without_doc(self.metadata, id),
            characters: sat_without_owner(self.characters, id),
            keywords: sat_without_owner(self.keywords, id),
            ..self
        };
        lemma_docs_without_id_props(self.documents, id);
        lemma_meta_without_doc_props(self.metadata, id);
        crate::sat::lemma_sat_without_owner_props(self.labels, id);
        crate::sat::lemma_sat_without_owner_props(self.characters, id);
        crate::sat::lemma_sat_without_owner_props(self.keywords, id);

        // A surviving document id is still found, naming the same row.
        assert forall|x: Seq<char>| self.has_doc(x) && x != id implies t.has_doc(x)
            && t.doc_named(x) == self.doc_named(x) by {
            let i = choose|i: int| 0 <= i < self.documents.len() && self.documents[i].id@ == x;
            assert(t.documents.contains(self.documents[i]));
            let k = t.documents.lemma_contains_to_index(self.documents[i]);
            assert(t.documents[k].id@ == x);
            t.lemma_doc_at(k);
            self.lemma_doc_at(i);
        }
        // A surviving metadata row is still found.
        assert forall|x: Seq<char>| self.has_meta(x) && x != id implies t.has_meta(x) by {
            let i = choose|i: int|
                0 <= i < self.metadata.len() && self.metadata[i].document_id@ == x;
            assert(t.metadata.contains(self.metadata[i]));
            let k = t.metadata.lemma_contains_to_index(self.metadata[i]);
            assert(t.metadata[k].document_id@ == x);
        }

        assert forall|i: int| 0 <= i < t.documents.len() implies t.has_project(
            #[trigger] t.documents[i].project_id@,
        ) && (match t.documents[i].parent_id {
            Option::Some(p) => t.has_doc(p@) && t.doc_named(p@).project_id@
                == t.documents[i].project_id@,
            Option::None => true,
        }) by {
            let d = t.documents[i];
            assert(self.documents.contains(d) && d.id@ != id);
            let k = self.documents.lemma_contains_to_index(d);
            assert(self.has_project(self.documents[k].project_id@));
            match d.parent_id {
                Option::Some(p) => {
                    assert(p@ != id);
                    assert(self.has_doc(p@) && self.doc_named(p@).project_id@ == d.project_id@);
                },
                Option::None => {},
            }
        }
        assert forall|i: int| 0 <= i < t.metadata.len() implies t.has_doc(
            #[trigger] t.metadata[i].document_id@,
        ) by {
            let m = t.metadata[i];
            assert(self.metadata.contains(m) && m.document_id@ != id);
            let k = self.metadata.lemma_contains_to_index(m);
            assert(self.has_doc(self.metadata[k].document_id@));
        }
        assert forall|i: int| 0 <= i < t.labels.len() implies t.has_doc(
            #[trigger] t.labels[i].owner@,
        ) by {
            let r = t.labels[i];
            assert(self.labels.contains(r) && r.owner@ != id);
            let k = self.labels.lemma_contains_to_index(r);
            assert(self.has_doc(self.labels[k].owner@));
        }
        assert forall|i: int| 0 <= i < t.characters.len() implies t.has_meta(
            #[trigger] t.characters[i].owner@,
        ) by {
            let r = t.characters[i];
            assert(self.characters.contains(r) && r.owner@ != id);
            let k = self.characters.lemma_contains_to_index(r);
            assert(self.has_meta(self.characters[k].owner@));
        }
        assert forall|i: int| 0 <= i < t.keywords.len() implies t.has_meta(
            #[trigger] t.keywords[i].owner@,
        ) by {
            let r = t.keywords[i];
            assert(self.keywords.contains(r) && r.owner@ != id);
            let k = self.keywords.lemma_contains_to_index(r);
            assert(self.has_meta(self.keywords[k].owner@));
        }
    }
}

} // verus!
