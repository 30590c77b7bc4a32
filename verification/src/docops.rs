//! The tree mutator: creating, patching, deleting and moving document nodes,
//! each as one atomic transaction.
//!
//! Every check runs before the first write, so an `Err` leaves the store
//! exactly as it was.

use vstd::prelude::*;
use crate::docmodel::{
    docs_moved, docs_patched, docs_without_id, group_max_pos, in_group, lemma_docs_moved_props,
    lemma_docs_patched_props, lemma_docs_without_id_props, lemma_docs_without_id_push,
    lemma_group_max_pos_push, lemma_meta_without_doc_push, lemma_metas_patched_props,
    meta_without_doc, metas_patched, moved_doc, patched_document, patched_meta, shifted_doc,
};
use crate::sat::sat_without_owner;
use crate::error::Error;
use crate::ident::{fresh_id, get_current_timestamp};
use crate::sat::{spec_replace, values_unique};
use crate::seqs::lemma_take_succ;
use crate::store::Store;
use crate::types::{
    clone_opt_string, doc_row_of, opt_str_eq, str_eq, strs_sv, Document, DocumentMetadata,
    DocumentTreeOperation, DocumentWithMetadata, MetadataRow, NewDocument, UpdateDocument,
};
use crate::view::{projects_touched, StoreView};

verus! {

/// The first reason a patch must fail: an unknown document or parent, a
/// parent of another project, a duplicated satellite value, or a version
/// counter that cannot be incremented.
pub open spec fn spec_update_document_err(pre: StoreView, u: UpdateDocument) -> Option<Error> {
    if !pre.has_doc(u.id@) {
        Option::Some(Error::NotFound)
    } else if (match u.parent_id {
        Option::Some(p) => !pre.has_doc(p@),
        Option::None => false,
    }) {
        Option::Some(Error::NotFound)
    } else if (match u.parent_id {
        Option::Some(p) => pre.doc_named(p@).project_id@ != pre.doc_named(u.id@).project_id@,
        Option::None => false,
    }) {
        Option::Some(Error::StorageFault)
    } else if (match u.labels {
        Option::Some(ls) => !strs_sv(ls@).no_duplicates(),
        Option::None => false,
    }) {
        Option::Some(Error::StorageFault)
    } else if (match u.metadata {
        Option::Some(um) => (match um.characters {
            Option::Some(c) => !strs_sv(c@).no_duplicates(),
            Option::None => false,
        }) || (match um.keywords {
            Option::Some(k) => !strs_sv(k@).no_duplicates(),
            Option::None => false,
        }),
        Option::None => false,
    }) {
        Option::Some(Error::StorageFault)
    } else if (match u.metadata {
        Option::Some(um) => um.version is None && pre.has_meta(u.id@) && pre.meta_named(
            u.id@,
        ).version == i32::MAX,
        Option::None => false,
    }) {
        Option::Some(Error::StorageFault)
    } else {
        Option::None
    }
}

/// The metadata row inserted when a patch supplies metadata for a document
/// that has none yet. Unlike a create, nothing is defaulted but the flag and
/// the version.
pub open spec fn inserted_meta_row(
    um: crate::types::UpdateDocumentMetadata,
    doc_id: String,
) -> MetadataRow {
    MetadataRow {
        document_id: doc_id,
        pov: um.pov,
        setting: um.setting,
        event_date: um.event_date,
        importance: um.importance,
        content_format: um.content_format,
        visibility: um.visibility,
        ai_assisted: (match um.ai_assisted {
            Option::Some(a) => a,
            Option::None => false,
        }),
        version: (match um.version {
            Option::Some(v) => v,
            Option::None => 1i32,
        }),
        custom_fields: um.custom_fields,
    }
}

/// How a successful patch relates the store before and after, the request,
/// and the returned re-read of the node. The returned value carries the
/// timestamp the transaction used.
#[verifier::opaque]
pub open spec fn rel_update_document(
    pre: StoreView,
    post: StoreView,
    u: UpdateDocument,
    dw: DocumentWithMetadata,
) -> bool {
    &&& dw.id@ == u.id@
    &&& post == (StoreView {
        documents: docs_patched(pre.documents, u, dw.last_modified),
        labels: (match u.labels {
            Option::Some(l) => spec_replace(pre.labels, u.id, l@),
            Option::None => pre.labels,
        }),
        metadata: (match u.metadata {
            Option::Some(um) => if pre.has_meta(u.id@) {
                metas_patched(pre.metadata, u.id@, um)
            } else {
                pre.metadata.push(inserted_meta_row(um, u.id))
            },
            Option::None => pre.metadata,
        }),
        characters: (match u.metadata {
            Option::Some(um) => (match um.characters {
                Option::Some(c) => spec_replace(pre.characters, u.id, c@),
                Option::None => pre.characters,
            }),
            Option::None => pre.characters,
        }),
        keywords: (match u.metadata {
            Option::Some(um) => (match um.keywords {
                Option::Some(k) => spec_replace(pre.keywords, u.id, k@),
                Option::None => pre.keywords,
            }),
            Option::None => pre.keywords,
        }),
        projects: projects_touched(
            pre.projects,
            pre.doc_named(u.id@).project_id@,
            dw.last_modified,
        ),
        ..pre
    })
    &&& post.is_hydrated(post.doc_named(u.id@), dw)
}

/// Why a delete must fail: an unknown document, or one that still has
/// children. A node with children is never deleted: the caller must first
/// re-parent or delete them, which keeps every stored parent reference
/// valid.
pub open spec fn spec_delete_document_err(pre: StoreView, id: Seq<char>) -> Option<Error> {
    if !pre.has_doc(id) {
        Option::Some(Error::NotFound)
    } else if exists|i: int|
        0 <= i < pre.documents.len() && ((#[trigger] pre.documents[i]).parent_id matches Option::Some(p)
            && p@ == id) {
        Option::Some(Error::StorageFault)
    } else {
        Option::None
    }
}

/// How a successful delete relates the store before and after: the node
/// row, its metadata and its satellite sets all go in one unit, and the
/// owning project is touched. No sibling positions are compacted.
pub open spec fn rel_delete_document(
    pre: StoreView,
    post: StoreView,
    id: Seq<char>,
    ts: String,
) -> bool {
    post == (StoreView {
        documents: docs_without_id(pre.documents, id),
        labels: sat_without_owner(pre.labels, id),
        metadata: meta_without_doc(pre.metadata, id),
        characters: sat_without_owner(pre.characters, id),
        keywords: sat_without_owner(pre.keywords, id),
        projects: projects_touched(pre.projects, pre.doc_named(id).project_id@, ts),
        ..pre
    })
}

/// Why a move must fail: an unknown document or parent, a parent of another
/// project, or a sibling that cannot be shifted one rank higher.
pub open spec fn spec_move_document_err(
    pre: StoreView,
    id: Seq<char>,
    parent: Option<String>,
) -> Option<Error> {
    if !pre.has_doc(id) {
        Option::Some(Error::NotFound)
    } else if (match parent {
        Option::Some(p) => !pre.has_doc(p@),
        Option::None => false,
    }) {
        Option::Some(Error::NotFound)
    } else if (match parent {
        Option::Some(p) => pre.doc_named(p@).project_id@ != pre.doc_named(id).project_id@,
        Option::None => false,
    }) {
        Option::Some(Error::StorageFault)
    } else if exists|i: int|
        0 <= i < pre.documents.len() && (#[trigger] pre.documents[i]).id@ != id && in_group(
            pre.documents[i],
            pre.doc_named(id).project_id@,
            parent,
        ) && pre.documents[i].position == i32::MAX {
        Option::Some(Error::StorageFault)
    } else {
        Option::None
    }
}

/// How a successful move relates the store before and after: the node
/// re-seated, the target group's members at or above the target position
/// shifted up one rank, the vacated group left with its gap, and the owning
/// project touched.
pub open spec fn rel_move_document(
    pre: StoreView,
    post: StoreView,
    id: Seq<char>,
    parent: Option<String>,
    pos: i32,
    ts: String,
) -> bool {
    post == (StoreView {
        documents: docs_moved(pre.documents, id, parent, pos, pre.doc_named(id).project_id@, ts),
        projects: projects_touched(pre.projects, pre.doc_named(id).project_id@, ts),
        ..pre
    })
}

/// The stored row behind a hydrated metadata value.
pub open spec fn meta_row_of(dm: DocumentMetadata, doc_id: String) -> MetadataRow {
    MetadataRow {
        document_id: doc_id,
        pov: dm.pov,
        setting: dm.setting,
        event_date: dm.event_date,
        importance: dm.importance,
        content_format: dm.content_format,
        visibility: dm.visibility,
        ai_assisted: dm.ai_assisted,
        version: dm.version,
        custom_fields: dm.custom_fields,
    }
}

/// The first reason a create must fail, before the generated id is even
/// considered: an unknown project or parent, a parent of another project, a
/// full sibling group, or a duplicated satellite value.
pub open spec fn spec_create_document_pre_err(pre: StoreView, doc: NewDocument) -> Option<Error> {
    if !pre.has_project(doc.project_id@) {
        Option::Some(Error::NotFound)
    } else if (match doc.parent_id {
        Option::Some(p) => !pre.has_doc(p@),
        Option::None => false,
    }) {
        Option::Some(Error::NotFound)
    } else if (match doc.parent_id {
        Option::Some(p) => pre.doc_named(p@).project_id@ != doc.project_id@,
        Option::None => false,
    }) {
        Option::Some(Error::StorageFault)
    } else if doc.position is None && group_max_pos(
        pre.documents,
        doc.project_id@,
        doc.parent_id,
    ) == i32::MAX as int {
        Option::Some(Error::StorageFault)
    } else if (match doc.labels {
        Option::Some(ls) => !strs_sv(ls@).no_duplicates(),
        Option::None => false,
    }) {
        Option::Some(Error::StorageFault)
    } else if (match doc.metadata {
        Option::Some(m) => (match m.characters {
            Option::Some(c) => !strs_sv(c@).no_duplicates(),
            Option::None => false,
        }) || (match m.keywords {
            Option::Some(k) => !strs_sv(k@).no_duplicates(),
            Option::None => false,
        }),
        Option::None => false,
    }) {
        Option::Some(Error::StorageFault)
    } else {
        Option::None
    }
}

/// How a successful create relates the store before and after, the request,
/// and the returned hydrated document. The returned value itself carries the
/// generated id and timestamp.
pub open spec fn rel_create_document(
    pre: StoreView,
    post: StoreView,
    doc: NewDocument,
    dw: DocumentWithMetadata,
) -> bool {
    &&& dw.project_id == doc.project_id
    &&& dw.parent_id == doc.parent_id
    &&& dw.title == doc.title
    &&& dw.content == doc.content
    &&& dw.synopsis == doc.synopsis
    &&& dw.doc_type == doc.doc_type
    &&& (match doc.status {
        Option::Some(s) => dw.status == s,
        Option::None => dw.status@ == "not-started"@,
    })
    &&& dw.word_count == (match doc.word_count {
        Option::Some(w) => w,
        Option::None => 0i32,
    })
    &&& dw.target_word_count == doc.target_word_count
    &&& (match doc.position {
        Option::Some(p) => dw.position == p,
        Option::None => dw.position as int == group_max_pos(
            pre.documents,
            doc.project_id@,
            doc.parent_id,
        ) + 1,
    })
    &&& dw.created_at == dw.last_modified
    &&& dw.labels@ == (match doc.labels {
        Option::Some(l) => l@,
        Option::None => Seq::<String>::empty(),
    })
    &&& (match (doc.metadata, dw.metadata) {
        (Option::Some(nm), Option::Some(dm)) => {
            &&& dm.pov == nm.pov
            &&& dm.setting == nm.setting
            &&& dm.characters@ == (match nm.characters {
                Option::Some(c) => c@,
                Option::None => Seq::<String>::empty(),
            })
            &&& dm.keywords@ == (match nm.keywords {
                Option::Some(k) => k@,
                Option::None => Seq::<String>::empty(),
            })
            &&& dm.event_date == nm.event_date
            &&& dm.importance == nm.importance
            &&& (match nm.content_format {
                Option::Some(c) => dm.content_format == Option::Some(c),
                Option::None => dm.content_format matches Option::Some(cf) && cf@
                    == "rich_text"@,
            })
            &&& (match nm.visibility {
                Option::Some(v) => dm.visibility == Option::Some(v),
                Option::None => dm.visibility matches Option::Some(vv) && vv@ == "private"@,
            })
            &&& dm.ai_assisted == (match nm.ai_assisted {
                Option::Some(a) => a,
                Option::None => false,
            })
            &&& dm.version == 1i32
            &&& dm.custom_fields == nm.custom_fields
        },
        (Option::None, Option::None) => true,
        _ => false,
    })
    &&& post == (StoreView {
        documents: pre.documents.push(doc_row_of(dw)),
        labels: (match doc.labels {
            Option::Some(l) => spec_replace(pre.labels, dw.id, l@),
            Option::None => pre.labels,
        }),
        metadata: (match dw.metadata {
            Option::Some(dm) => pre.metadata.push(meta_row_of(dm, dw.id)),
            Option::None => pre.metadata,
        }),
        characters: (match dw.metadata {
            Option::Some(dm) => spec_replace(pre.characters, dw.id, dm.characters@),
            Option::None => pre.characters,
        }),
        keywords: (match dw.metadata {
            Option::Some(dm) => spec_replace(pre.keywords, dw.id, dm.keywords@),
            Option::None => pre.keywords,
        }),
        projects: projects_touched(pre.projects, doc.project_id@, dw.last_modified),
        ..pre
    })
}

impl Store {
    /// The largest position held in a sibling group, `-1` if it is empty.
    pub(crate) fn group_max(&self, pid: &String, parent: &Option<String>) -> (r: i32)
        ensures
            r as int == group_max_pos(self@.documents, pid@, *parent),
    {
        let mut m: i32 = -1;
        let mut i: usize = 0;
        while i < self.documents.len()
            invariant
                i <= self.documents.len(),
                m as int == group_max_pos(self@.documents.take(i as int), pid@, *parent),
            decreases self.documents.len() - i,
        {
            proof {
                lemma_take_succ(self@.documents, i as int);
                lemma_group_max_pos_push(
                    self@.documents.take(i as int),
                    pid@,
                    *parent,
                    self@.documents[i as int],
                );
            }
            let d = &self.documents[i];
            if str_eq(&d.project_id, pid) && opt_str_eq(&d.parent_id, parent) && d.position > m {
                m = d.position;
            }
            i = i + 1;
        }
        proof {
            assert(self@.documents.take(self@.documents.len() as int) =~= self@.documents);
        }
        m
    }

    /// Creates a document under the given identity and timestamp: the node
    /// row, its label set, and its metadata with character and keyword sets,
    /// all as one unit, with the owning project's timestamp touched. An
    /// explicit `position` is stored as given, with no re-ordering of
    /// siblings; an absent one places the node at the end of its sibling
    /// group.
    pub fn create_document_with(&mut self, document: NewDocument, id: String, now: String) -> (r:
        Result<DocumentWithMetadata, Error>)
        requires
            old(self)@.wf(),
        ensures
            final(self)@.wf(),
            r is Ok <==> (spec_create_document_pre_err(old(self)@, document) is None && !old(
                self,
            )@.has_doc(id@)),
            r matches Err(e) ==> final(self)@ == old(self)@ && Option::Some(e) == (
            match spec_create_document_pre_err(old(self)@, document) {
                Option::Some(e0) => Option::Some(e0),
                Option::None => Option::Some(Error::StorageFault),
            }),
            r matches Ok(dw) ==> dw.id == id && dw.created_at == now && rel_create_document(
                old(self)@,
                final(self)@,
                document,
                dw,
            ),
    {
        let ghost pre = self@;
        // Referential checks: the project, then the parent.
        match self.find_project(&document.project_id) {
            Option::Some(i) => {
                proof {
                    self@.lemma_project_at(i as int);
                }
            },
            Option::None => {
                return Err(Error::NotFound);
            },
        }
        match &document.parent_id {
            Option::Some(p) => {
                match self.find_doc(p) {
                    Option::Some(pi) => {
                        proof {
                            self@.lemma_doc_at(pi as int);
                        }
                        if !str_eq(&self.documents[pi].project_id, &document.project_id) {
                            return Err(Error::StorageFault);
                        }
                    },
                    Option::None => {
                        return Err(Error::NotFound);
                    },
                }
            },
            Option::None => {},
        }
        // Placement.
        let position: i32 = match &document.position {
            Option::Some(p) => *p,
            Option::None => {
                let m = self.group_max(&document.project_id, &document.parent_id);
                if m == i32::MAX {
                    return Err(Error::StorageFault);
                }
                m + 1
            },
        };
        // Uniqueness of the satellite sets.
        match &document.labels {
            Option::Some(ls) => {
                if !values_unique(ls) {
                    return Err(Error::StorageFault);
                }
            },
            Option::None => {},
        }
        match &document.metadata {
            Option::Some(nm) => {
                match &nm.characters {
                    Option::Some(c) => {
                        if !values_unique(c) {
                            return Err(Error::StorageFault);
                        }
                    },
                    Option::None => {},
                }
                match &nm.keywords {
                    Option::Some(k) => {
                        if !values_unique(k) {
                            return Err(Error::StorageFault);
                        }
                    },
                    Option::None => {},
                }
            },
            Option::None => {},
        }
        proof {
            assert(spec_create_document_pre_err(pre, document) is None);
        }
        // The generated identity itself.
        match self.find_doc(&id) {
            Option::Some(di) => {
                proof {
                    self@.lemma_doc_at(di as int);
                }
                return Err(Error::StorageFault);
            },
            Option::None => {},
        }

        // All checks passed: write the node row.
        let pid = document.project_id.clone();
        let row = Document {
            id: id.clone(),
            project_id: document.project_id,
            parent_id: clone_opt_string(&document.parent_id),
            title: document.title.clone(),
            content: clone_opt_string(&document.content),
            synopsis: clone_opt_string(&document.synopsis),
            doc_type: document.doc_type.clone(),
            status: (match &document.status {
                Option::Some(s) => s.clone(),
                Option::None => "not-started".to_owned(),
            }),
            word_count: (match document.word_count {
                Option::Some(w) => w,
                Option::None => 0,
            }),
            target_word_count: document.target_word_count,
            position,
            created_at: now.clone(),
            last_modified: now.clone(),
        };
        proof {
            pre.lemma_add_document_wf(row);
        }
        self.documents.push(row.clone());
        let ghost v1 = self@;

        // The label set.
        let labels: Vec<String> = match document.labels {
            Option::Some(ls) => {
                proof {
                    v1.lemma_replace_labels_wf(id, ls@);
                }
                match self.labels.replace_all(&id, &ls) {
                    Ok(()) => ls,
                    Err(e) => {
                        proof {
                            assert(false);
                        }
                        return Err(e);
                    },
                }
            },
            Option::None => Vec::new(),
        };
        let ghost v2 = self@;

        // The metadata row with its character and keyword sets.
        let metadata: Option<DocumentMetadata> = match document.metadata {
            Option::Some(nm) => {
                let characters: Vec<String> = match nm.characters {
                    Option::Some(c) => c,
                    Option::None => Vec::new(),
                };
                let keywords: Vec<String> = match nm.keywords {
                    Option::Some(k) => k,
                    Option::None => Vec::new(),
                };
                let mrow = MetadataRow {
                    document_id: id.clone(),
                    pov: nm.pov,
                    setting: nm.setting,
                    event_date: nm.event_date,
                    importance: nm.importance,
                    content_format: Option::Some(
                        match nm.content_format {
                            Option::Some(c) => c,
                            Option::None => "rich_text".to_owned(),
                        },
                    ),
                    visibility: Option::Some(
                        match nm.visibility {
                            Option::Some(v) => v,
                            Option::None => "private".to_owned(),
                        },
                    ),
                    ai_assisted: (match nm.ai_assisted {
                        Option::Some(a) => a,
                        Option::None => false,
                    }),
                    version: 1,
                    custom_fields: nm.custom_fields,
                };
                proof {
                    assert(!v2.has_meta(id@)) by {
                        if v2.has_meta(id@) {
                            let mi = choose|mi: int|
                                0 <= mi < pre.metadata.len() && pre.metadata[mi].document_id@
                                    == id@;
                            assert(pre.has_doc(pre.metadata[mi].document_id@));
                        }
                    }
                    v2.lemma_add_meta_wf(mrow);
                }
                let dm = DocumentMetadata {
                    pov: clone_opt_string(&mrow.pov),
                    setting: clone_opt_string(&mrow.setting),
                    characters,
                    keywords,
                    event_date: clone_opt_string(&mrow.event_date),
                    importance: clone_opt_string(&mrow.importance),
                    content_format: clone_opt_string(&mrow.content_format),
                    visibility: clone_opt_string(&mrow.visibility),
                    ai_assisted: mrow.ai_assisted,
                    version: 1,
                    custom_fields: clone_opt_string(&mrow.custom_fields),
                };
                self.metadata.push(mrow);
                let ghost v3 = self@;
                proof {
                    v3.lemma_replace_characters_wf(id, dm.characters@);
                }
                match self.characters.replace_all(&id, &dm.characters) {
                    Ok(()) => {},
                    Err(e) => {
                        proof {
                            assert(false);
                        }
                        return Err(e);
                    },
                }
                let ghost v4 = self@;
                proof {
                    v4.lemma_replace_keywords_wf(id, dm.keywords@);
                }
                match self.keywords.replace_all(&id, &dm.keywords) {
                    Ok(()) => {},
                    Err(e) => {
                        proof {
                            assert(false);
                        }
                        return Err(e);
                    },
                }
                Option::Some(dm)
            },
            Option::None => Option::None,
        };

        // The owning project's timestamp.
        let ghost v5 = self@;
        self.touch_project_row(&pid, &now);
        proof {
            crate::view::lemma_projects_touched_props(v5.projects, pid@, now);
            v5.lemma_projects_pointwise_preserves(
                crate::view::projects_touched(v5.projects, pid@, now),
            );
            assert(self@ == (StoreView {
                projects: crate::view::projects_touched(v5.projects, pid@, now),
                ..v5
            }));
        }

        let dw = DocumentWithMetadata {
            id,
            project_id: pid,
            parent_id: document.parent_id,
            title: document.title,
            content: document.content,
            synopsis: document.synopsis,
            doc_type: document.doc_type,
            status: row.status.clone(),
            word_count: row.word_count,
            target_word_count: document.target_word_count,
            position,
            created_at: now.clone(),
            last_modified: now,
            labels,
            metadata,
        };
        proof {
            assert(doc_row_of(dw) =~= row);
            let ghost md = dw.metadata;
            match md {
                Option::Some(dm) => {
                    assert(final(self)@.metadata =~= pre.metadata.push(meta_row_of(dm, dw.id)));
                },
                Option::None => {},
            }
            assert(final(self)@ =~= (StoreView {
                documents: pre.documents.push(doc_row_of(dw)),
                labels: (match document.labels {
                    Option::Some(l) => spec_replace(pre.labels, dw.id, l@),
                    Option::None => pre.labels,
                }),
                metadata: (match dw.metadata {
                    Option::Some(dm) => pre.metadata.push(meta_row_of(dm, dw.id)),
                    Option::None => pre.metadata,
                }),
                characters: (match dw.metadata {
                    Option::Some(dm) => spec_replace(pre.characters, dw.id, dm.characters@),
                    Option::None => pre.characters,
                }),
                keywords: (match dw.metadata {
                    Option::Some(dm) => spec_replace(pre.keywords, dw.id, dm.keywords@),
                    Option::None => pre.keywords,
                }),
                projects: projects_touched(pre.projects, document.project_id@, dw.last_modified),
                ..pre
            }));
        }
        Ok(dw)
    }

    /// Creates a document under a fresh identity, stamped with the current
    /// time. The generated id is random, so the one failure it can force,
    /// `StorageFault` on a collision, cannot be ruled out; on every valid
    /// request whose id is fresh the create succeeds, and the whole outcome
    /// is pinned down by `rel_create_document`.
    pub fn create_document(&mut self, document: NewDocument) -> (r: Result<
        DocumentWithMetadata,
        Error,
    >)
        requires
            old(self)@.wf(),
        ensures
            final(self)@.wf(),
            r matches Ok(dw) ==> !old(self)@.has_doc(dw.id@) && rel_create_document(
                old(self)@,
                final(self)@,
                document,
                dw,
            ),
            r matches Err(e) ==> final(self)@ == old(self)@ && Option::Some(e) == (
            match spec_create_document_pre_err(old(self)@, document) {
                Option::Some(e0) => Option::Some(e0),
                Option::None => Option::Some(Error::StorageFault),
            }),
            spec_create_document_pre_err(old(self)@, document) is Some ==> r is Err,
    {
        let id = fresh_id();
        let now = get_current_timestamp();
        self.create_document_with(document, id, now)
    }

    /// Rewrites the document row at index `i`.
    pub(crate) fn set_document_row(&mut self, i: usize, row: Document)
        requires
            i < old(self)@.documents.len(),
        ensures
            final(self)@ == (StoreView {
                documents: old(self)@.documents.update(i as int, row),
                ..old(self)@
            }),
    {
        let ghost target = self@.documents.update(i as int, row);
        let mut out: Vec<Document> = Vec::new();
        let mut k: usize = 0;
        while k < self.documents.len()
            invariant
                k <= self.documents.len(),
                i < self.documents.len(),
                out@.len() == k,
                forall|t: int| 0 <= t < k ==> out@[t] == target[t],
                target == self@.documents.update(i as int, row),
            decreases self.documents.len() - k,
        {
            if k == i {
                out.push(row.clone());
            } else {
                out.push(self.documents[k].clone());
            }
            k = k + 1;
        }
        proof {
            assert(out@ =~= target);
        }
        self.documents = out;
    }

    /// Rewrites the metadata row at index `i`.
    pub(crate) fn set_meta_row(&mut self, i: usize, row: MetadataRow)
        requires
            i < old(self)@.metadata.len(),
        ensures
            final(self)@ == (StoreView {
                metadata: old(self)@.metadata.update(i as int, row),
                ..old(self)@
            }),
    {
        let ghost target = self@.metadata.update(i as int, row);
        let mut out: Vec<MetadataRow> = Vec::new();
        let mut k: usize = 0;
        while k < self.metadata.len()
            invariant
                k <= self.metadata.len(),
                i < self.metadata.len(),
                out@.len() == k,
                forall|t: int| 0 <= t < k ==> out@[t] == target[t],
                target == self@.metadata.update(i as int, row),
            decreases self.metadata.len() - k,
        {
            if k == i {
                out.push(row.clone());
            } else {
                out.push(self.metadata[k].clone());
            }
            k = k + 1;
        }
        proof {
            assert(out@ =~= target);
        }
        self.metadata = out;
    }

    /// Applies the metadata part of a document patch: the stored row is
    /// patched, or inserted if the document has none, and a supplied
    /// character or keyword set replaces the stored one as a unit.
    #[verifier::rlimit(100)]
    #[verifier::spinoff_prover]
    fn apply_meta_update(
        &mut self,
        id: &String,
        um: crate::types::UpdateDocumentMetadata,
        meta_idx: Option<usize>,
    )
        requires
            old(self)@.wf(),
            old(self)@.has_doc(id@),
            match meta_idx {
                Option::Some(mi) => mi < old(self)@.metadata.len() && old(
                    self,
                )@.metadata[mi as int].document_id@ == id@ && (um.version is None ==> old(
                    self,
                )@.metadata[mi as int].version < i32::MAX),
                Option::None => !old(self)@.has_meta(id@),
            },
            match um.characters {
                Option::Some(c) => strs_sv(c@).no_duplicates(),
                Option::None => true,
            },
            match um.keywords {
                Option::Some(k) => strs_sv(k@).no_duplicates(),
                Option::None => true,
            },
        ensures
            final(self)@.wf(),
            final(self)@ == (StoreView {
                metadata: (if old(self)@.has_meta(id@) {
                    metas_patched(old(self)@.metadata, id@, um)
                } else {
                    old(self)@.metadata.push(inserted_meta_row(um, *id))
                }),
                characters: (match um.characters {
                    Option::Some(c) => spec_replace(old(self)@.characters, *id, c@),
                    Option::None => old(self)@.characters,
                }),
                keywords: (match um.keywords {
                    Option::Some(k) => spec_replace(old(self)@.keywords, *id, k@),
                    Option::None => old(self)@.keywords,
                }),
                ..old(self)@
            }),
    {
        let ghost pre = self@;
        let ghost um0 = um;
        let characters_opt = um.characters;
        let keywords_opt = um.keywords;
        match meta_idx {
            Option::Some(mi) => {
                proof {
                    self@.lemma_meta_at(mi as int);
                }
                let m0 = &self.metadata[mi];
                let mrow = MetadataRow {
                    document_id: m0.document_id.clone(),
                    pov: (match um.pov {
                        Option::Some(p) => Option::Some(p),
                        Option::None => clone_opt_string(&m0.pov),
                    }),
                    setting: (match um.setting {
                        Option::Some(s) => Option::Some(s),
                        Option::None => clone_opt_string(&m0.setting),
                    }),
                    event_date: (match um.event_date {
                        Option::Some(e) => Option::Some(e),
                        Option::None => clone_opt_string(&m0.event_date),
                    }),
                    importance: (match um.importance {
                        Option::Some(v) => Option::Some(v),
                        Option::None => clone_opt_string(&m0.importance),
                    }),
                    content_format: (match um.content_format {
                        Option::Some(c) => Option::Some(c),
                        Option::None => clone_opt_string(&m0.content_format),
                    }),
                    visibility: (match um.visibility {
                        Option::Some(v) => Option::Some(v),
                        Option::None => clone_opt_string(&m0.visibility),
                    }),
                    ai_assisted: (match um.ai_assisted {
                        Option::Some(a) => a,
                        Option::None => m0.ai_assisted,
                    }),
                    version: (match um.version {
                        Option::Some(v) => v,
                        Option::None => m0.version + 1,
                    }),
                    custom_fields: (match um.custom_fields {
                        Option::Some(c) => Option::Some(c),
                        Option::None => clone_opt_string(&m0.custom_fields),
                    }),
                };
                proof {
                    assert(mrow =~= patched_meta(pre.metadata[mi as int], um0));
                    lemma_metas_patched_props(pre.metadata, id@, um0);
                    assert(metas_patched(pre.metadata, id@, um0) =~= pre.metadata.update(
                        mi as int,
                        mrow,
                    ));
                    pre.lemma_metas_pointwise_preserves(metas_patched(pre.metadata, id@, um0));
                }
                self.set_meta_row(mi, mrow);
                proof {
                    assert(self@.metadata[mi as int].document_id@ == id@);
                    assert(self@.has_meta(id@));
                }
            },
            Option::None => {
                let mrow = MetadataRow {
                    document_id: id.clone(),
                    pov: um.pov,
                    setting: um.setting,
                    event_date: um.event_date,
                    importance: um.importance,
                    content_format: um.content_format,
                    visibility: um.visibility,
                    ai_assisted: (match um.ai_assisted {
                        Option::Some(a) => a,
                        Option::None => false,
                    }),
                    version: (match um.version {
                        Option::Some(v) => v,
                        Option::None => 1,
                    }),
                    custom_fields: um.custom_fields,
                };
                proof {
                    assert(mrow =~= inserted_meta_row(um0, *id));
                    pre.lemma_add_meta_wf(mrow);
                }
                self.metadata.push(mrow);
                proof {
                    assert(self@ =~= (StoreView { metadata: pre.metadata.push(mrow), ..pre }));
                    assert(self@.metadata[self@.metadata.len() - 1].document_id@ == id@);
                    assert(self@.has_meta(id@));
                }
            },
        }
        let ghost v3 = self@;
        match characters_opt {
            Option::Some(c) => {
                proof {
                    v3.lemma_replace_characters_wf(*id, c@);
                }
                match self.characters.replace_all(id, &c) {
                    Ok(()) => {},
                    Err(_) => {
                        proof {
                            assert(false);
                        }
                    },
                }
            },
            Option::None => {},
        }
        let ghost v4 = self@;
        match keywords_opt {
            Option::Some(k) => {
                proof {
                    v4.lemma_replace_keywords_wf(*id, k@);
                }
                match self.keywords.replace_all(id, &k) {
                    Ok(()) => {},
                    Err(_) => {
                        proof {
                            assert(false);
                        }
                    },
                }
            },
            Option::None => {},
        }
    }

    /// Checks a document patch without touching any table: the row and
    /// parent must exist, the parent must share the project, supplied sets
    /// must be duplicate-free, and the version counter must be
    /// incrementable. Hands back the document's index and its metadata
    /// row's, if any.
    fn check_update(&self, document: &UpdateDocument) -> (r: Result<(usize, Option<usize>), Error>)
        requires
            self@.wf(),
        ensures
            match r {
                Ok((i, mi)) => {
                    &&& spec_update_document_err(self@, *document) is None
                    &&& i < self@.documents.len()
                    &&& self@.documents[i as int].id@ == document.id@
                    &&& (match mi {
                        Option::Some(m) => m < self@.metadata.len()
                            && self@.metadata[m as int].document_id@ == document.id@ && (
                        match document.metadata {
                            Option::Some(um) => um.version is None
                                ==> self@.metadata[m as int].version < i32::MAX,
                            Option::None => true,
                        }),
                        Option::None => !self@.has_meta(document.id@),
                    })
                    &&& (match document.parent_id {
                        Option::Some(p) => self@.has_doc(p@) && self@.doc_named(p@).project_id@
                            == self@.documents[i as int].project_id@,
                        Option::None => true,
                    })
                },
                Err(e) => Option::Some(e) == spec_update_document_err(self@, *document),
            },
    {
        let ghost pre = self@;
        let i = match self.find_doc(&document.id) {
            Option::None => {
                return Err(Error::NotFound);
            },
            Option::Some(i) => i,
        };
        proof {
            self@.lemma_doc_at(i as int);
        }
        // The parent, when it is being set, must be a document of the same
        // project.
        match &document.parent_id {
            Option::Some(p) => {
                match self.find_doc(p) {
                    Option::Some(pi) => {
                        proof {
                            self@.lemma_doc_at(pi as int);
                        }
                        if !str_eq(&self.documents[pi].project_id, &self.documents[i].project_id) {
                            return Err(Error::StorageFault);
                        }
                    },
                    Option::None => {
                        return Err(Error::NotFound);
                    },
                }
            },
            Option::None => {},
        }
        // Uniqueness of the supplied satellite sets.
        match &document.labels {
            Option::Some(ls) => {
                if !values_unique(ls) {
                    return Err(Error::StorageFault);
                }
            },
            Option::None => {},
        }
        match &document.metadata {
            Option::Some(um) => {
                match &um.characters {
                    Option::Some(c) => {
                        if !values_unique(c) {
                            return Err(Error::StorageFault);
                        }
                    },
                    Option::None => {},
                }
                match &um.keywords {
                    Option::Some(k) => {
                        if !values_unique(k) {
                            return Err(Error::StorageFault);
                        }
                    },
                    Option::None => {},
                }
            },
            Option::None => {},
        }
        // The version counter must still be incrementable.
        let meta_idx = self.find_meta(&document.id);
        match (&document.metadata, meta_idx) {
            (Option::Some(um), Option::Some(mi)) => {
                proof {
                    self@.lemma_meta_at(mi as int);
                }
                if um.version.is_none() && self.metadata[mi].version == i32::MAX {
                    return Err(Error::StorageFault);
                }
            },
            _ => {
                proof {
                    if pre.has_meta(document.id@) {
                        let mi = choose|mi: int|
                            0 <= mi < pre.metadata.len() && pre.metadata[mi].document_id@
                                == document.id@;
                        pre.lemma_meta_at(mi);
                    }
                }
            },
        }
        proof {
            assert(spec_update_document_err(pre, *document) is None);
        }
        Ok((i, meta_idx))
    }

    /// Applies a checked document patch: the row, the label set, the
    /// metadata, and the owning project's timestamp.
    #[verifier::rlimit(100)]
    #[verifier::spinoff_prover]
    fn apply_update(&mut self, document: UpdateDocument, now: String, i: usize, meta_idx: Option<
        usize,
    >)
        requires
            old(self)@.wf(),
            spec_update_document_err(old(self)@, document) is None,
            i < old(self)@.documents.len(),
            old(self)@.documents[i as int].id@ == document.id@,
            match meta_idx {
                Option::Some(m) => m < old(self)@.metadata.len() && old(
                    self,
                )@.metadata[m as int].document_id@ == document.id@ && (match document.metadata {
                    Option::Some(um) => um.version is None ==> old(
                        self,
                    )@.metadata[m as int].version < i32::MAX,
                    Option::None => true,
                }),
                Option::None => !old(self)@.has_meta(document.id@),
            },
            match document.parent_id {
                Option::Some(p) => old(self)@.has_doc(p@) && old(self)@.doc_named(p@).project_id@
                    == old(self)@.documents[i as int].project_id@,
                Option::None => true,
            },
        ensures
            final(self)@.wf(),
            final(self)@ == (StoreView {
                documents: docs_patched(old(self)@.documents, document, now),
                labels: (match document.labels {
                    Option::Some(l) => spec_replace(old(self)@.labels, document.id, l@),
                    Option::None => old(self)@.labels,
                }),
                metadata: (match document.metadata {
                    Option::Some(um) => if old(self)@.has_meta(document.id@) {
                        metas_patched(old(self)@.metadata, document.id@, um)
                    } else {
                        old(self)@.metadata.push(inserted_meta_row(um, document.id))
                    },
                    Option::None => old(self)@.metadata,
                }),
                characters: (match document.metadata {
                    Option::Some(um) => (match um.characters {
                        Option::Some(c) => spec_replace(old(self)@.characters, document.id, c@),
                        Option::None => old(self)@.characters,
                    }),
                    Option::None => old(self)@.characters,
                }),
                keywords: (match document.metadata {
                    Option::Some(um) => (match um.keywords {
                        Option::Some(k) => spec_replace(old(self)@.keywords, document.id, k@),
                        Option::None => old(self)@.keywords,
                    }),
                    Option::None => old(self)@.keywords,
                }),
                projects: projects_touched(
                    old(self)@.projects,
                    old(self)@.documents[i as int].project_id@,
                    now,
                ),
                ..old(self)@
            }),
            final(self)@.documents.len() == old(self)@.documents.len(),
            final(self)@.documents[i as int] == crate::docmodel::patched_document(
                old(self)@.documents[i as int],
                document,
                now,
            ),
    {
        let ghost pre = self@;
        let ghost u = document;
        // All checks passed: patch the node row.
        let pid = self.documents[i].project_id.clone();
        let p0 = &self.documents[i];
        let row = Document {
            id: p0.id.clone(),
            project_id: p0.project_id.clone(),
            parent_id: (match document.parent_id {
                Option::Some(p) => Option::Some(p),
                Option::None => clone_opt_string(&p0.parent_id),
            }),
            title: (match document.title {
                Option::Some(t) => t,
                Option::None => p0.title.clone(),
            }),
            content: (match document.content {
                Option::Some(c) => Option::Some(c),
                Option::None => clone_opt_string(&p0.content),
            }),
            synopsis: (match document.synopsis {
                Option::Some(s) => Option::Some(s),
                Option::None => clone_opt_string(&p0.synopsis),
            }),
            doc_type: (match document.doc_type {
                Option::Some(t) => t,
                Option::None => p0.doc_type.clone(),
            }),
            status: (match document.status {
                Option::Some(s) => s,
                Option::None => p0.status.clone(),
            }),
            word_count: (match document.word_count {
                Option::Some(w) => w,
                Option::None => p0.word_count,
            }),
            target_word_count: (match document.target_word_count {
                Option::Some(w) => Option::Some(w),
                Option::None => p0.target_word_count,
            }),
            position: (match document.position {
                Option::Some(p) => p,
                Option::None => p0.position,
            }),
            created_at: p0.created_at.clone(),
            last_modified: now.clone(),
        };
        proof {
            assert(row =~= patched_document(pre.documents[i as int], u, now));
            lemma_docs_patched_props(pre.documents, u, now);
            assert(docs_patched(pre.documents, u, now) =~= pre.documents.update(i as int, row));
            let qs = docs_patched(pre.documents, u, now);
            assert forall|t: int| 0 <= t < qs.len() implies match (#[trigger] qs[t]).parent_id {
                Option::Some(p) => pre.has_doc(p@) && pre.doc_named(p@).project_id@
                    == qs[t].project_id@,
                Option::None => true,
            } by {
                if t != i {
                    assert(qs[t] == pre.documents[t]);
                }
            }
            pre.lemma_docs_pointwise_preserves(qs);
        }
        self.set_document_row(i, row);
        let ghost v1 = self@;

        // The label set, when supplied, replaced as a unit.
        match document.labels {
            Option::Some(ls) => {
                proof {
                    v1.lemma_replace_labels_wf(document.id, ls@);
                }
                match self.labels.replace_all(&document.id, &ls) {
                    Ok(()) => {},
                    Err(_) => {
                        proof {
                            assert(false);
                        }
                    },
                }
            },
            Option::None => {},
        }
        let ghost v2 = self@;

        // The metadata, when supplied: patch the stored row or insert one.
        match document.metadata {
            Option::Some(um) => {
                self.apply_meta_update(&document.id, um, meta_idx);
                proof {
                    assert(pre.metadata == v2.metadata && pre.characters == v2.characters
                        && pre.keywords == v2.keywords);
                }
            },
            Option::None => {},
        }

        // The owning project's timestamp.
        let ghost v5 = self@;
        self.touch_project_row(&pid, &now);
        proof {
            crate::view::lemma_projects_touched_props(v5.projects, pid@, now);
            v5.lemma_projects_pointwise_preserves(
                crate::view::projects_touched(v5.projects, pid@, now),
            );
        }
        proof {
            assert(final(self)@.documents[i as int] == crate::docmodel::patched_document(
                pre.documents[i as int],
                u,
                now,
            ));
        }
    }

    /// Patches a document under the given timestamp: supplied row fields
    /// overwrite, absent fields are kept; a supplied label, character or
    /// keyword set replaces the stored one as a unit; supplied metadata
    /// patches the stored row, or inserts one if the document had none, with
    /// an absent `version` meaning one more than the stored value. Returns
    /// the node re-read after the commit.
    #[verifier::rlimit(100)]
    #[verifier::spinoff_prover]
    pub fn update_document_with(&mut self, document: UpdateDocument, now: String) -> (r: Result<
        DocumentWithMetadata,
        Error,
    >)
        requires
            old(self)@.wf(),
        ensures
            final(self)@.wf(),
            r is Ok <==> spec_update_document_err(old(self)@, document) is None,
            r matches Err(e) ==> final(self)@ == old(self)@ && Option::Some(e)
                == spec_update_document_err(old(self)@, document),
            r matches Ok(dw) ==> dw.last_modified == now && rel_update_document(
                old(self)@,
                final(self)@,
                document,
                dw,
            ),
    {
        let ghost pre = self@;
        let ghost u = document;
        let (i, meta_idx) = match self.check_update(&document) {
            Err(e) => {
                return Err(e);
            },
            Ok(x) => x,
        };

        self.apply_update(document, now.clone(), i, meta_idx);

        // Hand back the node as re-read after the commit.
        let dw = self.hydrate_doc(&self.documents[i]);
        proof {
            self@.lemma_doc_at(i as int);
            assert(self@.documents == docs_patched(pre.documents, u, dw.last_modified));
            assert(self@.projects == projects_touched(
                pre.projects,
                pre.doc_named(u.id@).project_id@,
                now,
            ));
            assert(self@ =~= (StoreView {
                documents: docs_patched(pre.documents, u, dw.last_modified),
                labels: (match u.labels {
                    Option::Some(l) => spec_replace(pre.labels, u.id, l@),
                    Option::None => pre.labels,
                }),
                metadata: (match u.metadata {
                    Option::Some(um) => if pre.has_meta(u.id@) {
                        metas_patched(pre.metadata, u.id@, um)
                    } else {
                        pre.metadata.push(inserted_meta_row(um, u.id))
                    },
                    Option::None => pre.metadata,
                }),
                characters: (match u.metadata {
                    Option::Some(um) => (match um.characters {
                        Option::Some(c) => spec_replace(pre.characters, u.id, c@),
                        Option::None => pre.characters,
                    }),
                    Option::None => pre.characters,
                }),
                keywords: (match u.metadata {
                    Option::Some(um) => (match um.keywords {
                        Option::Some(k) => spec_replace(pre.keywords, u.id, k@),
                        Option::None => pre.keywords,
                    }),
                    Option::None => pre.keywords,
                }),
                projects: projects_touched(pre.projects, pre.doc_named(u.id@).project_id@, now),
                ..pre
            }));
            reveal(rel_update_document);
            assert(rel_update_document(pre, self@, u, dw));
        }
        Ok(dw)
    }

    /// Whether any document names `id` as its parent.
    fn has_child(&self, id: &String) -> (r: bool)
        ensures
            r == exists|i: int|
                0 <= i < self@.documents.len() && ((#[trigger] self@.documents[i]).parent_id matches Option::Some(
                    p,
                ) && p@ == id@),
    {
        let mut i: usize = 0;
        while i < self.documents.len()
            invariant
                i <= self.documents.len(),
                forall|k: int|
                    0 <= k < i ==> !((#[trigger] self@.documents[k]).parent_id matches Option::Some(
                        p,
                    ) && p@ == id@),
            decreases self.documents.len() - i,
        {
            match &self.documents[i].parent_id {
                Option::Some(p) => {
                    if str_eq(p, id) {
                        return true;
                    }
                },
                Option::None => {},
            }
            i = i + 1;
        }
        false
    }

    /// Deletes a childless document under the given timestamp: the node row,
    /// its metadata and its satellite sets go as one unit, and the owning
    /// project's timestamp is touched.
    #[verifier::rlimit(100)]
    #[verifier::spinoff_prover]
    pub fn delete_document_with(&mut self, id: &String, now: String) -> (r: Result<(), Error>)
        requires
            old(self)@.wf(),
        ensures
            final(self)@.wf(),
            r is Ok <==> spec_delete_document_err(old(self)@, id@) is None,
            r matches Err(e) ==> final(self)@ == old(self)@ && Option::Some(e)
                == spec_delete_document_err(old(self)@, id@),
            r matches Ok(()) ==> rel_delete_document(old(self)@, final(self)@, id@, now),
    {
        let ghost pre = self@;
        let di = match self.find_doc(id) {
            Option::None => {
                return Err(Error::NotFound);
            },
            Option::Some(di) => di,
        };
        proof {
            self@.lemma_doc_at(di as int);
        }
        if self.has_child(id) {
            return Err(Error::StorageFault);
        }
        proof {
            pre.lemma_delete_document_wf(id@);
        }
        let pid = self.documents[di].project_id.clone();

        // The satellite sets and the metadata row.
        self.labels.remove_owner(id);
        self.characters.remove_owner(id);
        self.keywords.remove_owner(id);
        let mut ms: Vec<MetadataRow> = Vec::new();
        let mut k: usize = 0;
        while k < self.metadata.len()
            invariant
                k <= self.metadata.len(),
                ms@ == meta_without_doc(self@.metadata.take(k as int), id@),
            decreases self.metadata.len() - k,
        {
            proof {
                lemma_take_succ(self@.metadata, k as int);
                lemma_meta_without_doc_push(
                    self@.metadata.take(k as int),
                    id@,
                    self@.metadata[k as int],
                );
            }
            if !str_eq(&self.metadata[k].document_id, id) {
                ms.push(self.metadata[k].clone());
            }
            k = k + 1;
        }
        proof {
            assert(self@.metadata.take(self@.metadata.len() as int) =~= self@.metadata);
        }
        self.metadata = ms;

        // The node row.
        let mut ds: Vec<Document> = Vec::new();
        let mut n: usize = 0;
        while n < self.documents.len()
            invariant
                n <= self.documents.len(),
                ds@ == docs_without_id(self@.documents.take(n as int), id@),
            decreases self.documents.len() - n,
        {
            proof {
                lemma_take_succ(self@.documents, n as int);
                lemma_docs_without_id_push(
                    self@.documents.take(n as int),
                    id@,
                    self@.documents[n as int],
                );
            }
            if !str_eq(&self.documents[n].id, id) {
                ds.push(self.documents[n].clone());
            }
            n = n + 1;
        }
        proof {
            assert(self@.documents.take(self@.documents.len() as int) =~= self@.documents);
        }
        self.documents = ds;

        // The owning project's timestamp.
        let ghost v5 = self@;
        self.touch_project_row(&pid, &now);
        proof {
            crate::view::lemma_projects_touched_props(v5.projects, pid@, now);
            v5.lemma_projects_pointwise_preserves(
                crate::view::projects_touched(v5.projects, pid@, now),
            );
        }
        Ok(())
    }

    /// Deletes a childless document, stamped with the current time.
    pub fn delete_document(&mut self, id: &String) -> (r: Result<(), Error>)
        requires
            old(self)@.wf(),
        ensures
            final(self)@.wf(),
            r is Ok <==> spec_delete_document_err(old(self)@, id@) is None,
            r matches Err(e) ==> final(self)@ == old(self)@ && Option::Some(e)
                == spec_delete_document_err(old(self)@, id@),
            r matches Ok(()) ==> exists|ts: String|
                #[trigger] rel_delete_document(old(self)@, final(self)@, id@, ts),
    {
        let now = get_current_timestamp();
        let ghost ts = now;
        let r = self.delete_document_with(id, now);
        proof {
            if r is Ok {
                assert(rel_delete_document(old(self)@, self@, id@, ts));
            }
        }
        r
    }

    /// Whether shifting the target group up one rank would overflow a
    /// sibling's position.
    fn shift_overflows(&self, id: &String, pid: &String, parent: &Option<String>) -> (r: bool)
        ensures
            r == exists|i: int|
                0 <= i < self@.documents.len() && (#[trigger] self@.documents[i]).id@ != id@
                    && in_group(self@.documents[i], pid@, *parent) && self@.documents[i].position
                    == i32::MAX,
    {
        let mut i: usize = 0;
        while i < self.documents.len()
            invariant
                i <= self.documents.len(),
                forall|k: int|
                    0 <= k < i ==> !((#[trigger] self@.documents[k]).id@ != id@ && in_group(
                        self@.documents[k],
                        pid@,
                        *parent,
                    ) && self@.documents[k].position == i32::MAX),
            decreases self.documents.len() - i,
        {
            let d = &self.documents[i];
            if !str_eq(&d.id, id) && str_eq(&d.project_id, pid) && opt_str_eq(&d.parent_id, parent)
                && d.position == i32::MAX {
                return true;
            }
            i = i + 1;
        }
        false
    }

    /// Moves a document under the given timestamp: the node takes the target
    /// parent and position; every other member of the target sibling group
    /// at or above the target position is shifted one rank up. The group the
    /// node left keeps its gap: positions there are not compacted.
    #[verifier::rlimit(100)]
    #[verifier::spinoff_prover]
    pub fn move_document_with(
        &mut self,
        id: &String,
        new_parent_id: Option<String>,
        new_position: i32,
        now: String,
    ) -> (r: Result<(), Error>)
        requires
            old(self)@.wf(),
        ensures
            final(self)@.wf(),
            r is Ok <==> spec_move_document_err(old(self)@, id@, new_parent_id) is None,
            r matches Err(e) ==> final(self)@ == old(self)@ && Option::Some(e)
                == spec_move_document_err(old(self)@, id@, new_parent_id),
            r matches Ok(()) ==> rel_move_document(
                old(self)@,
                final(self)@,
                id@,
                new_parent_id,
                new_position,
                now,
            ),
    {
        let ghost pre = self@;
        let di = match self.find_doc(id) {
            Option::None => {
                return Err(Error::NotFound);
            },
            Option::Some(di) => di,
        };
        proof {
            self@.lemma_doc_at(di as int);
        }
        let pid = self.documents[di].project_id.clone();
        match &new_parent_id {
            Option::Some(p) => {
                match self.find_doc(p) {
                    Option::Some(pi) => {
                        proof {
                            self@.lemma_doc_at(pi as int);
                        }
                        if !str_eq(&self.documents[pi].project_id, &pid) {
                            return Err(Error::StorageFault);
                        }
                    },
                    Option::None => {
                        return Err(Error::NotFound);
                    },
                }
            },
            Option::None => {},
        }
        if self.shift_overflows(id, &pid, &new_parent_id) {
            return Err(Error::StorageFault);
        }
        proof {
            assert(spec_move_document_err(pre, id@, new_parent_id) is None);
        }

        // Re-seat the node and shift the target group.
        let ghost target = docs_moved(pre.documents, id@, new_parent_id, new_position, pid@, now);
        proof {
            lemma_docs_moved_props(pre.documents, id@, new_parent_id, new_position, pid@, now);
        }
        let mut out: Vec<Document> = Vec::new();
        let mut n: usize = 0;
        while n < self.documents.len()
            invariant
                n <= self.documents.len(),
                out@.len() == n,
                forall|t: int| 0 <= t < n ==> out@[t] == target[t],
                target == docs_moved(
                    self@.documents,
                    id@,
                    new_parent_id,
                    new_position,
                    pid@,
                    now,
                ),
                target.len() == self@.documents.len(),
                forall|t: int|
                    0 <= t < self@.documents.len() ==> target[t] == (if (
                    #[trigger] self@.documents[t]).id@ == id@ {
                        moved_doc(self@.documents[t], new_parent_id, new_position, now)
                    } else if in_group(self@.documents[t], pid@, new_parent_id)
                        && self@.documents[t].position >= new_position {
                        shifted_doc(self@.documents[t])
                    } else {
                        self@.documents[t]
                    }),
                forall|t: int|
                    0 <= t < self@.documents.len() ==> !((#[trigger] self@.documents[t]).id@
                        != id@ && in_group(self@.documents[t], pid@, new_parent_id)
                        && self@.documents[t].position == i32::MAX),
                self@.documents[di as int].id@ == id@,
                di < self@.documents.len(),
                pre == self@,
            decreases self.documents.len() - n,
        {
            let d = &self.documents[n];
            if str_eq(&d.id, id) {
                out.push(
                    Document {
                        id: d.id.clone(),
                        project_id: d.project_id.clone(),
                        parent_id: clone_opt_string(&new_parent_id),
                        title: d.title.clone(),
                        content: clone_opt_string(&d.content),
                        synopsis: clone_opt_string(&d.synopsis),
                        doc_type: d.doc_type.clone(),
                        status: d.status.clone(),
                        word_count: d.word_count,
                        target_word_count: d.target_word_count,
                        position: new_position,
                        created_at: d.created_at.clone(),
                        last_modified: now.clone(),
                    },
                );
                proof {
                    assert(out@[n as int] =~= moved_doc(
                        self@.documents[n as int],
                        new_parent_id,
                        new_position,
                        now,
                    ));
                }
            } else if str_eq(&d.project_id, &pid) && opt_str_eq(&d.parent_id, &new_parent_id)
                && d.position >= new_position {
                proof {
                    assert(self@.documents[n as int].position < i32::MAX);
                }
                out.push(
                    Document {
                        id: d.id.clone(),
                        project_id: d.project_id.clone(),
                        parent_id: clone_opt_string(&d.parent_id),
                        title: d.title.clone(),
                        content: clone_opt_string(&d.content),
                        synopsis: clone_opt_string(&d.synopsis),
                        doc_type: d.doc_type.clone(),
                        status: d.status.clone(),
                        word_count: d.word_count,
                        target_word_count: d.target_word_count,
                        position: d.position + 1,
                        created_at: d.created_at.clone(),
                        last_modified: d.last_modified.clone(),
                    },
                );
                proof {
                    assert(out@[n as int] =~= shifted_doc(self@.documents[n as int]));
                }
            } else {
                out.push(self.documents[n].clone());
            }
            n = n + 1;
        }
        proof {
            assert(out@ =~= target);
            let qs = target;
            assert forall|t: int| 0 <= t < qs.len() implies match (#[trigger] qs[t]).parent_id {
                Option::Some(p) => pre.has_doc(p@) && pre.doc_named(p@).project_id@
                    == qs[t].project_id@,
                Option::None => true,
            } by {
                if pre.documents[t].id@ == id@ {
                    assert(qs[t] == moved_doc(pre.documents[t], new_parent_id, new_position, now));
                } else {
                    assert(qs[t].parent_id == pre.documents[t].parent_id && qs[t].project_id
                        == pre.documents[t].project_id);
                }
            }
            pre.lemma_docs_pointwise_preserves(qs);
        }
        self.documents = out;

        // The owning project's timestamp.
        let ghost v5 = self@;
        self.touch_project_row(&pid, &now);
        proof {
            crate::view::lemma_projects_touched_props(v5.projects, pid@, now);
            v5.lemma_projects_pointwise_preserves(
                crate::view::projects_touched(v5.projects, pid@, now),
            );
        }
        Ok(())
    }

    /// Moves a document, stamped with the current time.
    pub fn move_document(&mut self, id: &String, new_parent_id: Option<String>, new_position: i32)
        -> (r: Result<(), Error>)
        requires
            old(self)@.wf(),
        ensures
            final(self)@.wf(),
            r is Ok <==> spec_move_document_err(old(self)@, id@, new_parent_id) is None,
            r matches Err(e) ==> final(self)@ == old(self)@ && Option::Some(e)
                == spec_move_document_err(old(self)@, id@, new_parent_id),
            r matches Ok(()) ==> exists|ts: String|
                #[trigger] rel_move_document(
                    old(self)@,
                    final(self)@,
                    id@,
                    new_parent_id,
                    new_position,
                    ts,
                ),
    {
        let now = get_current_timestamp();
        let ghost ts = now;
        let r = self.move_document_with(id, clone_opt_string(&new_parent_id), new_position, now);
        proof {
            if r is Ok {
                assert(rel_move_document(
                    old(self)@,
                    self@,
                    id@,
                    new_parent_id,
                    new_position,
                    ts,
                ));
            }
        }
        r
    }

    /// Patches a document, stamped with the current time. See
    /// `update_document_with` for the transaction's shape; the returned
    /// re-read carries the timestamp the transaction used.
    pub fn update_document(&mut self, document: UpdateDocument) -> (r: Result<
        DocumentWithMetadata,
        Error,
    >)
        requires
            old(self)@.wf(),
        ensures
            final(self)@.wf(),
            r is Ok <==> spec_update_document_err(old(self)@, document) is None,
            r matches Err(e) ==> final(self)@ == old(self)@ && Option::Some(e)
                == spec_update_document_err(old(self)@, document),
            r matches Ok(dw) ==> rel_update_document(old(self)@, final(self)@, document, dw),
    {
        let now = get_current_timestamp();
        self.update_document_with(document, now)
    }

    /// Performs one tree mutation: the closed sum over add, update, delete
    /// and move, each running as its own atomic transaction with the same
    /// success condition and error kind as the operation it dispatches to.
    pub fn document_tree_operation(&mut self, operation: DocumentTreeOperation) -> (r: Result<
        (),
        Error,
    >)
        requires
            old(self)@.wf(),
        ensures
            final(self)@.wf(),
            r matches Err(_) ==> final(self)@ == old(self)@,
            (match operation {
                DocumentTreeOperation::Add { document, parent_id } => {
                    &&& (spec_create_document_pre_err(
                        old(self)@,
                        (NewDocument { parent_id: parent_id, ..document }),
                    ) is Some ==> r is Err)
                    &&& (r matches Err(e) ==> Option::Some(e) == (
                    match spec_create_document_pre_err(
                        old(self)@,
                        (NewDocument { parent_id: parent_id, ..document }),
                    ) {
                        Option::Some(e0) => Option::Some(e0),
                        Option::None => Option::Some(Error::StorageFault),
                    }))
                },
                DocumentTreeOperation::Update { id, updates } => {
                    &&& (r is Ok <==> spec_update_document_err(
                        old(self)@,
                        (UpdateDocument { id: id, ..updates }),
                    ) is None)
                    &&& (r matches Err(e) ==> Option::Some(e) == spec_update_document_err(
                        old(self)@,
                        (UpdateDocument { id: id, ..updates }),
                    ))
                },
                DocumentTreeOperation::Delete { id } => {
                    &&& (r is Ok <==> spec_delete_document_err(old(self)@, id@) is None)
                    &&& (r matches Err(e) ==> Option::Some(e) == spec_delete_document_err(
                        old(self)@,
                        id@,
                    ))
                },
                DocumentTreeOperation::Move { id, new_parent_id, new_position } => {
                    &&& (r is Ok <==> spec_move_document_err(old(self)@, id@, new_parent_id) is None)
                    &&& (r matches Err(e) ==> Option::Some(e) == spec_move_document_err(
                        old(self)@,
                        id@,
                        new_parent_id,
                    ))
                },
            }),
            r matches Ok(()) ==> (match operation {
                DocumentTreeOperation::Add { document, parent_id } => exists|
                    dw: DocumentWithMetadata,
                |
                    #[trigger] rel_create_document(
                        old(self)@,
                        final(self)@,
                        (NewDocument { parent_id: parent_id, ..document }),
                        dw,
                    ),
                DocumentTreeOperation::Update { id, updates } => exists|dw: DocumentWithMetadata|
                    #[trigger] rel_update_document(
                        old(self)@,
                        final(self)@,
                        (UpdateDocument { id: id, ..updates }),
                        dw,
                    ),
                DocumentTreeOperation::Delete { id } => exists|ts: String|
                    #[trigger] rel_delete_document(old(self)@, final(self)@, id@, ts),
                DocumentTreeOperation::Move { id, new_parent_id, new_position } => exists|
                    ts: String,
                |
                    #[trigger] rel_move_document(
                        old(self)@,
                        final(self)@,
                        id@,
                        new_parent_id,
                        new_position,
                        ts,
                    ),
            }),
    {
        match operation {
            DocumentTreeOperation::Add { document, parent_id } => {
                let mut doc = document;
                doc.parent_id = clone_opt_string(&parent_id);
                let ghost doc_g = doc;
                proof {
                    assert(doc_g =~= (NewDocument { parent_id: parent_id, ..document }));
                }
                let r = self.create_document(doc);
                match r {
                    Ok(dw) => {
                        proof {
                            assert(rel_create_document(
                                old(self)@,
                                self@,
                                (NewDocument { parent_id: parent_id, ..document }),
                                dw,
                            ));
                        }
                        Ok(())
                    },
                    Err(e) => Err(e),
                }
            },
            DocumentTreeOperation::Update { id, updates } => {
                let mut u = updates;
                u.id = id.clone();
                let ghost u_g = u;
                proof {
                    assert(u_g =~= (UpdateDocument { id: id, ..updates }));
                }
                let r = self.update_document(u);
                match r {
                    Ok(dw) => {
                        proof {
                            assert(rel_update_document(
                                old(self)@,
                                self@,
                                (UpdateDocument { id: id, ..updates }),
                                dw,
                            ));
                        }
                        Ok(())
                    },
                    Err(e) => Err(e),
                }
            },
            DocumentTreeOperation::Delete { id } => {
                self.delete_document(&id)
            },
            DocumentTreeOperation::Move { id, new_parent_id, new_position } => {
                self.move_document(&id, new_parent_id, new_position)
            },
        }
    }
}

} // verus!
