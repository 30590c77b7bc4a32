//! Installing template forests and instantiating them: the template cloner
//! deep-copies a template's document forest under a new project, remapping
//! every identity while preserving the parent/child shape and the relative
//! ordering.

use vstd::prelude::*;
use crate::error::Error;
use crate::ident::{fresh_id, get_current_timestamp};
use crate::sat::{spec_replace, values_of};
use crate::seqs::lemma_take_succ;
use crate::store::Store;
use crate::templmodel::{lemma_tdocs_of_props, lemma_tdocs_of_push, tdocs_of};
use crate::types::{
    clone_opt_string, opt_sv, str_eq, Document, MetadataRow, NewTemplateDocument, Project,
    ProjectTemplate, TemplateDocument,
};
use crate::view::StoreView;

verus! {

/// Whether a template forest can be installed as given: a fresh template
/// id, every row of the template, fresh and mutually distinct row ids, and
/// every parent an earlier row of the batch, so that the stored forest keeps
/// parents before children.
pub open spec fn installable(
    pre: StoreView,
    t: ProjectTemplate,
    docs: Seq<TemplateDocument>,
) -> bool {
    &&& !pre.has_template(t.id@)
    &&& forall|k: int| 0 <= k < docs.len() ==> (#[trigger] docs[k]).template_id@ == t.id@
    &&& forall|k: int| 0 <= k < docs.len() ==> !pre.has_tdoc((#[trigger] docs[k]).id@)
    &&& forall|k: int, l: int| 0 <= k < l < docs.len() ==> docs[k].id@ != docs[l].id@
    &&& forall|k: int|
        0 <= k < docs.len() ==> match (#[trigger] docs[k]).parent_id {
            Option::Some(p) => exists|j: int| 0 <= j < k && docs[j].id@ == p@,
            Option::None => true,
        }
}


/// The template row a create stores: the supplied presentation fields under
/// the generated identity, both timestamps set to now.
pub open spec fn created_template_row(
    t: crate::types::NewProjectTemplate,
    id: String,
    now: String,
) -> ProjectTemplate {
    ProjectTemplate {
        id: id,
        name: t.name,
        description: t.description,
        structure: t.structure,
        author_name: t.author_name,
        author_email: t.author_email,
        preview_image: t.preview_image,
        category: t.category,
        difficulty: t.difficulty,
        estimated_time: t.estimated_time,
        created_at: now,
        last_modified: now,
    }
}

/// What the `k`-th ingested template document row looks like: the payload's
/// fields under its generated identity, status defaulted, the parent
/// remapped to the earlier batch entry it references, and an absent
/// position defaulted to the next rank of its sibling group within the
/// batch.
pub open spec fn ctpl_doc_ok(
    rows: Seq<TemplateDocument>,
    ds: Seq<crate::types::NewTemplateDocument>,
    ids: Seq<String>,
    tid: String,
    k: int,
) -> bool {
    let d = rows[k];
    &&& d.id == ids[k]
    &&& d.template_id == tid
    &&& d.title == ds[k].title
    &&& d.content == ds[k].content
    &&& d.synopsis == ds[k].synopsis
    &&& d.doc_type == ds[k].doc_type
    &&& (match ds[k].status {
        Option::Some(st) => d.status == st,
        Option::None => d.status@ == "not-started"@,
    })
    &&& (match ds[k].parent_id {
        Option::Some(p) => exists|j: int|
            0 <= j < k && (#[trigger] ids[j])@ == p@ && crate::types::opt_sv(d.parent_id)
                == Option::Some(ids[j]@),
        Option::None => d.parent_id is None,
    })
    &&& (match ds[k].position {
        Option::Some(p) => d.position == p,
        Option::None => d.position as int == crate::templmodel::tgroup_max_pos(
            rows.take(k),
            d.parent_id,
        ) + 1,
    })
}

/// What the `k`-th ingested document's satellite content looks like: the
/// supplied label set, and, when metadata was supplied, a metadata row with
/// the documented defaults and the supplied character and keyword sets.
pub open spec fn ctpl_sat_ok(
    post: StoreView,
    ds: Seq<crate::types::NewTemplateDocument>,
    ids: Seq<String>,
    k: int,
) -> bool {
    &&& values_of(post.template_labels, (ids[k])@) == (match ds[k].labels {
        Option::Some(l) => l@,
        Option::None => Seq::<String>::empty(),
    })
    &&& (match ds[k].metadata {
        Option::Some(m) => post.has_tmeta(ids[k]@) && {
            let row = post.tmeta_named(ids[k]@);
            &&& row.document_id == ids[k]
            &&& row.pov == m.pov
            &&& row.setting == m.setting
            &&& row.event_date == m.event_date
            &&& row.importance == m.importance
            &&& (match m.content_format {
                Option::Some(c) => row.content_format == Option::Some(c),
                Option::None => row.content_format matches Option::Some(cf) && cf@
                    == "rich_text"@,
            })
            &&& (match m.visibility {
                Option::Some(v) => row.visibility == Option::Some(v),
                Option::None => row.visibility matches Option::Some(vv) && vv@ == "private"@,
            })
            &&& row.ai_assisted == (match m.ai_assisted {
                Option::Some(a) => a,
                Option::None => false,
            })
            &&& row.custom_fields == m.custom_fields
            &&& values_of(post.template_characters, ids[k]@) == (match m.characters {
                Option::Some(c) => c@,
                Option::None => Seq::<String>::empty(),
            })
            &&& values_of(post.template_keywords, ids[k]@) == (match m.keywords {
                Option::Some(kw) => kw@,
                Option::None => Seq::<String>::empty(),
            })
        },
        Option::None => !post.has_tmeta(ids[k]@),
    })
}

impl Store {
    /// Finds the index of the template document with this id.
    pub(crate) fn find_tdoc(&self, id: &String) -> (r: Option<usize>)
        ensures
            match r {
                Option::Some(i) => i < self@.template_documents.len()
                    && self@.template_documents[i as int].id@ == id@,
                Option::None => !self@.has_tdoc(id@),
            },
    {
        let mut i: usize = 0;
        while i < self.template_documents.len()
            invariant
                i <= self.template_documents.len(),
                forall|k: int| 0 <= k < i ==> self@.template_documents[k].id@ != id@,
            decreases self.template_documents.len() - i,
        {
            if str_eq(&self.template_documents[i].id, id) {
                return Some(i);
            }
            i = i + 1;
        }
        None
    }

    /// Installs a template forest as one unit: the template row and its
    /// document rows, stored parent before child. This is the ingress for
    /// externally authored template data; a forest that is not well formed
    /// as given is refused whole.
    pub fn install_template(&mut self, template: ProjectTemplate, documents: Vec<
        TemplateDocument,
    >) -> (r: Result<(), Error>)
        requires
            old(self)@.wf(),
        ensures
            final(self)@.wf(),
            r is Ok <==> installable(old(self)@, template, documents@),
            r matches Err(e) ==> final(self)@ == old(self)@ && e == Error::StorageFault,
            r matches Ok(()) ==> final(self)@ == (StoreView {
                templates: old(self)@.templates.push(template),
                template_documents: old(self)@.template_documents + documents@,
                ..old(self)@
            }),
    {
        let ghost pre = self@;
        // A fresh template id.
        match self.find_template(&template.id) {
            Option::Some(ti) => {
                proof {
                    self@.lemma_template_at(ti as int);
                }
                return Err(Error::StorageFault);
            },
            Option::None => {},
        }
        // Every row of this template, under a fresh, distinct id, with any
        // parent an earlier row of the batch.
        let mut k: usize = 0;
        while k < documents.len()
            invariant
                k <= documents.len(),
                self@ == pre,
                pre.wf(),
                !pre.has_template(template.id@),
                forall|t: int| 0 <= t < k ==> (#[trigger] documents@[t]).template_id@
                    == template.id@,
                forall|t: int| 0 <= t < k ==> !pre.has_tdoc((#[trigger] documents@[t]).id@),
                forall|t: int, l: int| 0 <= t < l < k ==> documents@[t].id@ != documents@[l].id@,
                forall|t: int|
                    0 <= t < k ==> match (#[trigger] documents@[t]).parent_id {
                        Option::Some(p) => exists|j: int| 0 <= j < t && documents@[j].id@ == p@,
                        Option::None => true,
                    },
            decreases documents.len() - k,
        {
            let d = &documents[k];
            if !str_eq(&d.template_id, &template.id) {
                return Err(Error::StorageFault);
            }
            match self.find_tdoc(&d.id) {
                Option::Some(di) => {
                    proof {
                        self@.lemma_tdoc_at(di as int);
                    }
                    return Err(Error::StorageFault);
                },
                Option::None => {},
            }
            let mut t: usize = 0;
            while t < k
                invariant
                    old(self)@.wf(),
                    self@ == old(self)@,
                    t <= k,
                    k < documents.len(),
                    forall|l: int| 0 <= l < t ==> documents@[l].id@ != documents@[k as int].id@,
                decreases k - t,
            {
                if str_eq(&documents[t].id, &documents[k].id) {
                    return Err(Error::StorageFault);
                }
                t = t + 1;
            }
            match &d.parent_id {
                Option::Some(p) => {
                    let mut j: usize = 0;
                    let mut found: bool = false;
                    while j < k
                        invariant
                            old(self)@.wf(),
                            self@ == old(self)@,
                            j <= k,
                            k < documents.len(),
                            documents@[k as int].parent_id == Option::Some(*p),
                            found ==> exists|l: int|
                                0 <= l < k && documents@[l].id@ == p@,
                            !found ==> forall|l: int| 0 <= l < j ==> documents@[l].id@ != p@,
                        decreases k - j,
                    {
                        if str_eq(&documents[j].id, p) {
                            found = true;
                            proof {
                                assert(documents@[j as int].id@ == p@);
                            }
                            j = k;
                        } else {
                            j = j + 1;
                        }
                    }
                    if !found {
                        return Err(Error::StorageFault);
                    }
                },
                Option::None => {},
            }
            k = k + 1;
        }
        proof {
            assert(installable(pre, template, documents@));
        }

        // Write the template row, then each document row in order.
        proof {
            pre.lemma_with_template_preserves(template);
        }
        let ghost tmpl = template;
        self.templates.push(template);
        let mut n: usize = 0;
        while n < documents.len()
            invariant
                n <= documents.len(),
                installable(pre, tmpl, documents@),
                self@.wf(),
                self@ == (StoreView {
                    templates: pre.templates.push(tmpl),
                    template_documents: pre.template_documents + documents@.take(n as int),
                    ..pre
                }),
            decreases documents.len() - n,
        {
            let d = documents[n].clone();
            proof {
                let v = self@;
                assert(!v.has_tdoc(d.id@)) by {
                    if v.has_tdoc(d.id@) {
                        let i = choose|i: int|
                            0 <= i < v.template_documents.len() && v.template_documents[i].id@
                                == d.id@;
                        if i < pre.template_documents.len() {
                            assert(pre.template_documents[i].id@ == d.id@);
                            assert(pre.has_tdoc(documents@[n as int].id@));
                        } else {
                            assert(v.template_documents[i] == documents@[i
                                - pre.template_documents.len()]);
                        }
                    }
                }
                assert(v.has_template(d.template_id@)) by {
                    assert(v.templates[v.templates.len() - 1].id@ == tmpl.id@);
                }
                assert(match d.parent_id {
                    Option::Some(p) => exists|j: int|
                        0 <= j < v.template_documents.len()
                            && (#[trigger] v.template_documents[j]).id@ == p@
                            && v.template_documents[j].template_id@ == d.template_id@,
                    Option::None => true,
                }) by {
                    match documents@[n as int].parent_id {
                        Option::Some(p) => {
                            let j = choose|j: int|
                                0 <= j < n && documents@[j].id@ == p@;
                            assert(v.template_documents[pre.template_documents.len() + j]
                                == documents@[j]);
                        },
                        Option::None => {},
                    }
                }
                v.lemma_add_tdoc_wf(d);
            }
            self.template_documents.push(d);
            proof {
                assert(pre.template_documents + documents@.take(n + 1)
                    =~= (pre.template_documents + documents@.take(n as int)).push(
                    documents@[n as int],
                ));
            }
            n = n + 1;
        }
        proof {
            assert(documents@.take(documents@.len() as int) =~= documents@);
        }
        Ok(())
    }

    /// Clones one template document under a new identity: the node row with
    /// the template's fields, its label set copied, and its metadata row
    /// with character and keyword sets copied, the version re-initialized.
    #[verifier::rlimit(100)]
    #[verifier::spinoff_prover]
    fn clone_one_doc(
        &mut self,
        row: &TemplateDocument,
        new_id: String,
        pid: &String,
        parent: Option<String>,
        now: &String,
    ) -> (d: Document)
        requires
            old(self)@.wf(),
            !old(self)@.has_doc(new_id@),
            old(self)@.has_project(pid@),
            match parent {
                Option::Some(p) => old(self)@.has_doc(p@) && old(self)@.doc_named(p@).project_id@
                    == pid@,
                Option::None => true,
            },
        ensures
            final(self)@.wf(),
            d.id == new_id && d.project_id == *pid && d.parent_id == parent,
            d.title == row.title && d.content == row.content && d.synopsis == row.synopsis,
            d.doc_type == row.doc_type && d.status == row.status && d.position == row.position,
            d.word_count == 0i32 && d.target_word_count is None,
            d.created_at == *now && d.last_modified == *now,
            final(self)@ == (StoreView {
                documents: old(self)@.documents.push(d),
                labels: spec_replace(
                    old(self)@.labels,
                    new_id,
                    values_of(old(self)@.template_labels, row.id@),
                ),
                metadata: (if old(self)@.has_tmeta(row.id@) {
                    old(self)@.metadata.push(
                        cloned_meta_row(old(self)@.tmeta_named(row.id@), new_id),
                    )
                } else {
                    old(self)@.metadata
                }),
                characters: (if old(self)@.has_tmeta(row.id@) {
                    spec_replace(
                        old(self)@.characters,
                        new_id,
                        values_of(old(self)@.template_characters, row.id@),
                    )
                } else {
                    old(self)@.characters
                }),
                keywords: (if old(self)@.has_tmeta(row.id@) {
                    spec_replace(
                        old(self)@.keywords,
                        new_id,
                        values_of(old(self)@.template_keywords, row.id@),
                    )
                } else {
                    old(self)@.keywords
                }),
                ..old(self)@
            }),
            forall|x: Seq<char>|
                #[trigger] final(self)@.has_doc(x) == (old(self)@.has_doc(x) || x == new_id@),
            forall|x: Seq<char>|
                x != new_id@ ==> (#[trigger] final(self)@.has_meta(x) == old(self)@.has_meta(x)
                    && (old(self)@.has_meta(x) ==> final(self)@.meta_named(x) == old(
                    self,
                )@.meta_named(x))),
            final(self)@.has_meta(new_id@) == old(self)@.has_tmeta(row.id@),
            old(self)@.has_tmeta(row.id@) ==> final(self)@.meta_named(new_id@)
                == cloned_meta_row(old(self)@.tmeta_named(row.id@), new_id),
            forall|x: Seq<char>|
                x != new_id@ ==> #[trigger] values_of(final(self)@.labels, x) == values_of(
                    old(self)@.labels,
                    x,
                ),
            values_of(final(self)@.labels, new_id@) == values_of(
                old(self)@.template_labels,
                row.id@,
            ),
            forall|x: Seq<char>|
                x != new_id@ ==> #[trigger] values_of(final(self)@.characters, x) == values_of(
                    old(self)@.characters,
                    x,
                ),
            forall|x: Seq<char>|
                x != new_id@ ==> #[trigger] values_of(final(self)@.keywords, x) == values_of(
                    old(self)@.keywords,
                    x,
                ),
            old(self)@.has_tmeta(row.id@) ==> (values_of(final(self)@.characters, new_id@)
                == values_of(old(self)@.template_characters, row.id@) && values_of(
                final(self)@.keywords,
                new_id@,
            ) == values_of(old(self)@.template_keywords, row.id@)),
    {
        let ghost pre = self@;
        let d = Document {
            id: new_id.clone(),
            project_id: pid.clone(),
            parent_id: parent,
            title: row.title.clone(),
            content: clone_opt_string(&row.content),
            synopsis: clone_opt_string(&row.synopsis),
            doc_type: row.doc_type.clone(),
            status: row.status.clone(),
            word_count: 0,
            target_word_count: Option::None,
            position: row.position,
            created_at: now.clone(),
            last_modified: now.clone(),
        };
        let out = d.clone();
        proof {
            pre.lemma_add_document_wf(d);
        }
        self.documents.push(d);
        let ghost v1 = self@;

        // The label set, copied from the template document.
        let lv = self.template_labels.read(&row.id);
        proof {
            crate::sat::lemma_values_of_unique(pre.template_labels, row.id@);
            v1.lemma_replace_labels_wf(new_id, lv@);
        }
        match self.labels.replace_all(&new_id, &lv) {
            Ok(()) => {},
            Err(_) => {
                proof {
                    assert(false);
                }
            },
        }
        let ghost v2 = self@;

        // The metadata row, when the template document has one, with its
        // character and keyword sets copied and the version re-initialized.
        match self.find_tmeta(&row.id) {
            Option::Some(mi) => {
                proof {
                    self@.lemma_tmeta_at(mi as int);
                }
                let m0 = &self.template_metadata[mi];
                let mrow = MetadataRow {
                    document_id: new_id.clone(),
                    pov: clone_opt_string(&m0.pov),
                    setting: clone_opt_string(&m0.setting),
                    event_date: clone_opt_string(&m0.event_date),
                    importance: clone_opt_string(&m0.importance),
                    content_format: clone_opt_string(&m0.content_format),
                    visibility: clone_opt_string(&m0.visibility),
                    ai_assisted: m0.ai_assisted,
                    version: 1,
                    custom_fields: clone_opt_string(&m0.custom_fields),
                };
                proof {
                    assert(mrow =~= cloned_meta_row(pre.tmeta_named(row.id@), new_id));
                    assert(!v2.has_meta(new_id@)) by {
                        if v2.has_meta(new_id@) {
                            let x = choose|x: int|
                                0 <= x < pre.metadata.len() && pre.metadata[x].document_id@
                                    == new_id@;
                            assert(pre.has_doc(pre.metadata[x].document_id@));
                        }
                    }
                    v2.lemma_add_meta_wf(mrow);
                }
                self.metadata.push(mrow);
                let ghost v3 = self@;
                proof {
                    assert(v3 =~= (StoreView { metadata: v2.metadata.push(mrow), ..v2 }));
                    assert(v3.metadata[v3.metadata.len() - 1].document_id@ == new_id@);
                    assert(v3.has_meta(new_id@));
                }
                let cv = self.template_characters.read(&row.id);
                proof {
                    crate::sat::lemma_values_of_unique(pre.template_characters, row.id@);
                    v3.lemma_replace_characters_wf(new_id, cv@);
                }
                match self.characters.replace_all(&new_id, &cv) {
                    Ok(()) => {},
                    Err(_) => {
                        proof {
                            assert(false);
                        }
                    },
                }
                let ghost v4 = self@;
                let kv = self.template_keywords.read(&row.id);
                proof {
                    crate::sat::lemma_values_of_unique(pre.template_keywords, row.id@);
                    v4.lemma_replace_keywords_wf(new_id, kv@);
                }
                match self.keywords.replace_all(&new_id, &kv) {
                    Ok(()) => {},
                    Err(_) => {
                        proof {
                            assert(false);
                        }
                    },
                }
            },
            Option::None => {},
        }
        proof {
            crate::sat::lemma_spec_replace_values(
                pre.labels,
                new_id,
                values_of(pre.template_labels, row.id@),
            );
            if pre.has_tmeta(row.id@) {
                crate::sat::lemma_spec_replace_values(
                    pre.characters,
                    new_id,
                    values_of(pre.template_characters, row.id@),
                );
                crate::sat::lemma_spec_replace_values(
                    pre.keywords,
                    new_id,
                    values_of(pre.template_keywords, row.id@),
                );
            }
            assert forall|x: Seq<char>| #[trigger] self@.has_doc(x) == (pre.has_doc(x) || x
                == new_id@) by {
                if pre.has_doc(x) {
                    let ix = choose|ix: int|
                        0 <= ix < pre.documents.len() && pre.documents[ix].id@ == x;
                    assert(self@.documents[ix].id@ == x);
                }
                if x == new_id@ {
                    assert(self@.documents[self@.documents.len() - 1].id@ == x);
                }
                if self@.has_doc(x) && !pre.has_doc(x) && x != new_id@ {
                    let ix = choose|ix: int|
                        0 <= ix < self@.documents.len() && self@.documents[ix].id@ == x;
                    assert(ix < pre.documents.len() ==> pre.documents[ix].id@ == x);
                }
            }
            assert forall|x: Seq<char>| x != new_id@ implies (#[trigger] self@.has_meta(x)
                == pre.has_meta(x) && (pre.has_meta(x) ==> self@.meta_named(x) == pre.meta_named(
                x,
            ))) by {
                if pre.has_tmeta(row.id@) {
                    if pre.has_meta(x) {
                        let ix = choose|ix: int|
                            0 <= ix < pre.metadata.len() && pre.metadata[ix].document_id@ == x;
                        assert(self@.metadata[ix].document_id@ == x);
                        self@.lemma_meta_at(ix);
                        pre.lemma_meta_at(ix);
                    }
                    if self@.has_meta(x) && !pre.has_meta(x) {
                        let ix = choose|ix: int|
                            0 <= ix < self@.metadata.len() && self@.metadata[ix].document_id@
                                == x;
                        assert(ix < pre.metadata.len() ==> pre.metadata[ix].document_id@ == x);
                    }
                }
            }
            if pre.has_tmeta(row.id@) {
                assert(self@.metadata[self@.metadata.len() - 1].document_id@ == new_id@);
                assert(self@.has_meta(new_id@));
                self@.lemma_meta_at(self@.metadata.len() - 1);
            } else {
                assert(!self@.has_meta(new_id@)) by {
                    if self@.has_meta(new_id@) {
                        let ix = choose|ix: int|
                            0 <= ix < self@.metadata.len() && self@.metadata[ix].document_id@
                                == new_id@;
                        assert(pre.has_doc(pre.metadata[ix].document_id@));
                    }
                }
            }
        }
        out
    }
}

/// Why an instantiation must fail: an unknown template, or a collision of
/// one of the supplied identities.
pub open spec fn spec_clone_err(
    pre: StoreView,
    template_id: Seq<char>,
    project_id: Seq<char>,
    ids: Seq<String>,
) -> Option<Error> {
    if !pre.has_template(template_id) {
        Option::Some(Error::NotFound)
    } else if pre.has_project(project_id) {
        Option::Some(Error::StorageFault)
    } else if exists|k: int| 0 <= k < ids.len() && pre.has_doc((#[trigger] ids[k])@) {
        Option::Some(Error::StorageFault)
    } else if exists|k: int, l: int|
        0 <= k < l < ids.len() && (#[trigger] ids[k])@ == (#[trigger] ids[l])@ {
        Option::Some(Error::StorageFault)
    } else {
        Option::None
    }
}

/// How a successful instantiation relates the store before and after: a new
/// project row, and one new document per template document, in template
/// storage order, carrying the template's fields, a fresh identity, and a
/// parent remapped through the same correspondence — never null for a
/// template child, never crossing into the template.
pub open spec fn rel_clone_template(
    pre: StoreView,
    post: StoreView,
    template_id: Seq<char>,
    name: String,
    description: Option<String>,
    project_id: String,
    ids: Seq<String>,
    now: String,
) -> bool {
    let rows = tdocs_of(pre.template_documents, template_id);
    &&& ids.len() == rows.len()
    &&& post.documents.len() == pre.documents.len() + rows.len()
    &&& forall|t: int|
        0 <= t < pre.documents.len() ==> #[trigger] post.documents[t] == pre.documents[t]
    &&& forall|k: int|
        0 <= k < rows.len() ==> #[trigger] clone_doc_ok(pre, post, rows, ids, project_id, now, k)
    &&& (exists|np: Project|
        {
            &&& post.projects == #[trigger] pre.projects.push(np)
            &&& np.id == project_id
            &&& np.name == name
            &&& np.description == description
            &&& np.status@ == "active"@
            &&& np.created_at == now && np.last_modified == now
        })
    &&& post.templates == pre.templates
    &&& post.template_tags == pre.template_tags
    &&& post.template_documents == pre.template_documents
    &&& post.template_labels == pre.template_labels
    &&& post.template_metadata == pre.template_metadata
    &&& post.template_characters == pre.template_characters
    &&& post.template_keywords == pre.template_keywords
    &&& (forall|x: Seq<char>|
        pre.has_doc(x) ==> #[trigger] values_of(post.labels, x) == values_of(pre.labels, x))
    &&& (forall|x: Seq<char>|
        pre.has_doc(x) ==> (#[trigger] post.has_meta(x) == pre.has_meta(x) && (pre.has_meta(x)
            ==> post.meta_named(x) == pre.meta_named(x))))
    &&& (forall|x: Seq<char>|
        pre.has_doc(x) ==> #[trigger] values_of(post.characters, x) == values_of(
            pre.characters,
            x,
        ))
    &&& (forall|x: Seq<char>|
        pre.has_doc(x) ==> #[trigger] values_of(post.keywords, x) == values_of(
            pre.keywords,
            x,
        ))
}

/// What the clone of one template document looks like in the new store: the
/// row's fields under its fresh identity, the parent remapped through the
/// batch correspondence, and the label, metadata, character and keyword
/// content copied.
pub open spec fn clone_doc_ok(
    pre: StoreView,
    cur: StoreView,
    rows: Seq<TemplateDocument>,
    ids: Seq<String>,
    pid: String,
    now: String,
    t: int,
) -> bool {
    let d = cur.documents[pre.documents.len() + t];
    &&& d.id == ids[t]
    &&& d.project_id == pid
    &&& d.title == rows[t].title
    &&& d.content == rows[t].content
    &&& d.synopsis == rows[t].synopsis
    &&& d.doc_type == rows[t].doc_type
    &&& d.status == rows[t].status
    &&& d.position == rows[t].position
    &&& d.word_count == 0i32
    &&& d.target_word_count is None
    &&& d.created_at == now && d.last_modified == now
    &&& (match rows[t].parent_id {
        Option::Some(p) => exists|j: int|
            0 <= j < t && rows[j].id@ == p@ && opt_sv(d.parent_id) == Option::Some(ids[j]@),
        Option::None => d.parent_id is None,
    })
    &&& values_of(cur.labels, ids[t]@) == values_of(pre.template_labels, rows[t].id@)
    &&& (if pre.has_tmeta(rows[t].id@) {
        cur.has_meta(ids[t]@) && cur.meta_named(ids[t]@) == cloned_meta_row(
            pre.tmeta_named(rows[t].id@),
            ids[t],
        ) && values_of(cur.characters, ids[t]@) == values_of(
            pre.template_characters,
            rows[t].id@,
        ) && values_of(cur.keywords, ids[t]@) == values_of(pre.template_keywords, rows[t].id@)
    } else {
        !cur.has_meta(ids[t]@)
    })
}

/// The unchanging facts of one instantiation batch: fresh, distinct
/// identities, distinct template rows, and parents stored before children.
pub open spec fn clone_batch_ok(
    pre: StoreView,
    rows: Seq<TemplateDocument>,
    ids: Seq<String>,
) -> bool {
    &&& pre.wf()
    &&& ids.len() == rows.len()
    &&& forall|t: int| 0 <= t < ids.len() ==> !pre.has_doc((#[trigger] ids[t])@)
    &&& forall|t: int, l: int|
        0 <= t < l < ids.len() ==> (#[trigger] ids[t])@ != (#[trigger] ids[l])@
    &&& forall|t: int, l: int|
        0 <= t < l < rows.len() ==> (#[trigger] rows[t]).id@ != (#[trigger] rows[l]).id@
    &&& forall|t: int|
        0 <= t < rows.len() ==> match (#[trigger] rows[t]).parent_id {
            Option::Some(p) => exists|j: int| 0 <= j < t && rows[j].id@ == p@,
            Option::None => true,
        }
}

/// What holds after the first `k` template documents are cloned.
pub open spec fn clone_loop_inv(
    pre: StoreView,
    cur: StoreView,
    rows: Seq<TemplateDocument>,
    ids: Seq<String>,
    np: Project,
    now: String,
    k: int,
) -> bool {
    &&& 0 <= k <= rows.len()
    &&& cur.wf()
    &&& cur.projects == pre.projects.push(np)
    &&& cur.templates == pre.templates
    &&& cur.template_tags == pre.template_tags
    &&& cur.template_documents == pre.template_documents
    &&& cur.template_labels == pre.template_labels
    &&& cur.template_metadata == pre.template_metadata
    &&& cur.template_characters == pre.template_characters
    &&& cur.template_keywords == pre.template_keywords
    &&& cur.documents.len() == pre.documents.len() + k
    &&& forall|t: int|
        0 <= t < pre.documents.len() ==> #[trigger] cur.documents[t] == pre.documents[t]
    &&& forall|x: Seq<char>|
        #[trigger] cur.has_doc(x) == (pre.has_doc(x) || exists|t: int|
            0 <= t < k && ids[t]@ == x)
    &&& forall|t: int| 0 <= t < k ==> #[trigger] clone_doc_ok(pre, cur, rows, ids, np.id, now, t)
    &&& (forall|x: Seq<char>|
        pre.has_doc(x) ==> #[trigger] values_of(cur.labels, x) == values_of(pre.labels, x))
    &&& (forall|x: Seq<char>|
        pre.has_doc(x) ==> (#[trigger] cur.has_meta(x) == pre.has_meta(x) && (pre.has_meta(x)
            ==> cur.meta_named(x) == pre.meta_named(x))))
    &&& (forall|x: Seq<char>|
        pre.has_doc(x) ==> #[trigger] values_of(cur.characters, x) == values_of(
            pre.characters,
            x,
        ))
    &&& (forall|x: Seq<char>|
        pre.has_doc(x) ==> #[trigger] values_of(cur.keywords, x) == values_of(pre.keywords, x))
}

/// The document metadata row cloned from a template metadata row: the same
/// fields under the new document's id, with the version counter starting
/// over.
pub open spec fn cloned_meta_row(
    m: crate::types::TemplateMetadataRow,
    doc_id: String,
) -> MetadataRow {
    MetadataRow {
        document_id: doc_id,
        pov: m.pov,
        setting: m.setting,
        event_date: m.event_date,
        importance: m.importance,
        content_format: m.content_format,
        visibility: m.visibility,
        ai_assisted: m.ai_assisted,
        version: 1i32,
        custom_fields: m.custom_fields,
    }
}

impl Store {
    /// Clones the `k`-th template document of the batch, keeping the whole
    /// loop invariant of the instantiation.
    #[verifier::rlimit(100)]
    #[verifier::spinoff_prover]
    fn clone_step(
        &mut self,
        rows: &Vec<TemplateDocument>,
        doc_ids: &Vec<String>,
        project_id: &String,
        now: &String,
        k: usize,
        Ghost(pre): Ghost<StoreView>,
        Ghost(npg): Ghost<Project>,
    )
        requires
            clone_batch_ok(pre, rows@, doc_ids@),
            clone_loop_inv(pre, old(self)@, rows@, doc_ids@, npg, *now, k as int),
            k < rows@.len(),
            npg.id == *project_id,
        ensures
            clone_loop_inv(pre, final(self)@, rows@, doc_ids@, npg, *now, k + 1),
    {
        let ghost base = pre.documents.len() as int;
        let row = rows[k].clone();
        // Resolve the parent through the correspondence built so far.
        let mut parent: Option<String> = Option::None;
        match &row.parent_id {
            Option::Some(p) => {
                let mut j: usize = 0;
                let mut found: bool = false;
                while j < k
                    invariant
                        clone_batch_ok(pre, rows@, doc_ids@),
                        clone_loop_inv(pre, self@, rows@, doc_ids@, npg, *now, k as int),
                        self@ == old(self)@,
                        j <= k,
                        k < rows@.len(),
                        rows@[k as int].parent_id == Option::Some(*p),
                        row == rows@[k as int],
                        !found ==> parent is None,
                        !found ==> forall|l: int| 0 <= l < j ==> rows@[l].id@ != p@,
                        found ==> exists|l: int|
                            0 <= l < k && rows@[l].id@ == p@ && opt_sv(parent) == Option::Some(
                                doc_ids@[l]@,
                            ),
                    decreases k - j,
                {
                    if str_eq(&rows[j].id, p) {
                        parent = Option::Some(doc_ids[j].clone());
                        found = true;
                        proof {
                            assert(rows@[j as int].id@ == p@);
                            assert(opt_sv(parent) == Option::Some(doc_ids@[j as int]@));
                        }
                        j = k;
                    } else {
                        j = j + 1;
                    }
                }
                proof {
                    if !found {
                        let l = choose|l: int| 0 <= l < k && rows@[l].id@ == p@;
                        assert(false);
                    }
                    let l = choose|l: int|
                        0 <= l < k && rows@[l].id@ == p@ && opt_sv(parent) == Option::Some(
                            doc_ids@[l]@,
                        );
                    assert(clone_doc_ok(pre, self@, rows@, doc_ids@, npg.id, *now, l));
                    assert(self@.documents[base + l].id == doc_ids@[l]);
                    assert(self@.has_doc(doc_ids@[l]@));
                    self@.lemma_doc_at(base + l);
                    assert(self@.doc_named(doc_ids@[l]@).project_id@ == project_id@);
                }
            },
            Option::None => {},
        }
        let ghost parent_g = parent;
        proof {
            assert(!self@.has_doc(doc_ids@[k as int]@));
            assert(self@.has_project(project_id@)) by {
                assert(self@.projects[self@.projects.len() - 1] == npg);
            }
        }
        let ghost vpre = self@;
        let d = self.clone_one_doc(&row, doc_ids[k].clone(), project_id, parent, now);
        proof {
            assert(d.id@ == doc_ids@[k as int]@);
            assert(self@.documents == vpre.documents.push(d));
            assert forall|x: Seq<char>| #[trigger] self@.has_doc(x) == (pre.has_doc(x) || exists|
                t: int,
            |
                0 <= t < k + 1 && doc_ids@[t]@ == x) by {
                if x == d.id@ {
                    assert(doc_ids@[k as int]@ == x);
                }
            }
            assert forall|t: int| 0 <= t < k + 1 implies #[trigger] clone_doc_ok(
                pre,
                self@,
                rows@,
                doc_ids@,
                npg.id,
                *now,
                t,
            ) by {
                if t < k {
                    assert(clone_doc_ok(pre, vpre, rows@, doc_ids@, npg.id, *now, t));
                    assert(self@.documents[base + t] == vpre.documents[base + t]);
                    assert(doc_ids@[t]@ != d.id@);
                    assert(values_of(self@.labels, doc_ids@[t]@) == values_of(
                        vpre.labels,
                        doc_ids@[t]@,
                    ));
                    assert(values_of(self@.characters, doc_ids@[t]@) == values_of(
                        vpre.characters,
                        doc_ids@[t]@,
                    ));
                    assert(values_of(self@.keywords, doc_ids@[t]@) == values_of(
                        vpre.keywords,
                        doc_ids@[t]@,
                    ));
                } else {
                    assert(self@.documents[base + t] == d);
                    assert(d.parent_id == parent_g);
                    assert(doc_ids@[t] == d.id);
                    assert(vpre.template_labels == pre.template_labels);
                    assert(vpre.template_characters == pre.template_characters);
                    assert(vpre.template_keywords == pre.template_keywords);
                }
            }
            assert forall|x: Seq<char>| pre.has_doc(x) implies #[trigger] values_of(
                self@.labels,
                x,
            ) == values_of(pre.labels, x) by {
                assert(x != d.id@);
            }
            assert forall|x: Seq<char>| pre.has_doc(x) implies (#[trigger] self@.has_meta(x)
                == pre.has_meta(x) && (pre.has_meta(x) ==> self@.meta_named(x) == pre.meta_named(
                x,
            ))) by {
                assert(x != d.id@);
            }
            assert forall|x: Seq<char>| pre.has_doc(x) implies #[trigger] values_of(
                self@.characters,
                x,
            ) == values_of(pre.characters, x) by {
                assert(x != d.id@);
            }
            assert forall|x: Seq<char>| pre.has_doc(x) implies #[trigger] values_of(
                self@.keywords,
                x,
            ) == values_of(pre.keywords, x) by {
                assert(x != d.id@);
            }
        }
    }

    /// Instantiates a template under the given identities: a new project
    /// row, then one document per template document, walked in stored order
    /// — which keeps every parent before its children — with each parent
    /// remapped through the freshly built correspondence. The whole clone is
    /// one unit.
    #[verifier::rlimit(100)]
    #[verifier::spinoff_prover]
    pub fn create_project_from_template_with(
        &mut self,
        template_id: &String,
        name: String,
        description: Option<String>,
        project_id: String,
        doc_ids: Vec<String>,
        now: String,
    ) -> (r: Result<String, Error>)
        requires
            old(self)@.wf(),
            doc_ids@.len() == tdocs_of(old(self)@.template_documents, template_id@).len(),
        ensures
            final(self)@.wf(),
            r is Ok <==> spec_clone_err(old(self)@, template_id@, project_id@, doc_ids@) is None,
            r matches Err(e) ==> final(self)@ == old(self)@ && Option::Some(e) == spec_clone_err(
                old(self)@,
                template_id@,
                project_id@,
                doc_ids@,
            ),
            r matches Ok(pid) ==> pid == project_id && rel_clone_template(
                old(self)@,
                final(self)@,
                template_id@,
                name,
                description,
                project_id,
                doc_ids@,
                now,
            ),
    {
        let ghost pre = self@;
        let ghost rows_g = tdocs_of(pre.template_documents, template_id@);
        // The template must exist; the supplied identities must be free.
        match self.find_template(template_id) {
            Option::Some(ti) => {
                proof {
                    self@.lemma_template_at(ti as int);
                }
            },
            Option::None => {
                return Err(Error::NotFound);
            },
        }
        match self.find_project(&project_id) {
            Option::Some(pi) => {
                proof {
                    self@.lemma_project_at(pi as int);
                }
                return Err(Error::StorageFault);
            },
            Option::None => {},
        }
        let mut c: usize = 0;
        while c < doc_ids.len()
            invariant
                old(self)@.wf(),
                self@ == old(self)@,
                pre == old(self)@,
                pre.has_template(template_id@),
                !pre.has_project(project_id@),
                c <= doc_ids.len(),
                forall|t: int| 0 <= t < c ==> !self@.has_doc((#[trigger] doc_ids@[t])@),
                forall|t: int, l: int| 0 <= t < l < c ==> doc_ids@[t]@ != doc_ids@[l]@,
            decreases doc_ids.len() - c,
        {
            match self.find_doc(&doc_ids[c]) {
                Option::Some(di) => {
                    proof {
                        self@.lemma_doc_at(di as int);
                    }
                    return Err(Error::StorageFault);
                },
                Option::None => {},
            }
            let mut t: usize = 0;
            while t < c
                invariant
                    old(self)@.wf(),
                    self@ == old(self)@,
                    pre == old(self)@,
                    pre.has_template(template_id@),
                    !pre.has_project(project_id@),
                    t <= c,
                    c < doc_ids.len(),
                    forall|l: int| 0 <= l < c ==> !self@.has_doc((#[trigger] doc_ids@[l])@),
                    forall|l: int, m: int|
                        0 <= l < m < c ==> doc_ids@[l]@ != doc_ids@[m]@,
                    !self@.has_doc(doc_ids@[c as int]@),
                    forall|l: int| 0 <= l < t ==> doc_ids@[l]@ != doc_ids@[c as int]@,
                decreases c - t,
            {
                if str_eq(&doc_ids[t], &doc_ids[c]) {
                    return Err(Error::StorageFault);
                }
                t = t + 1;
            }
            c = c + 1;
        }
        proof {
            assert(spec_clone_err(pre, template_id@, project_id@, doc_ids@) is None);
        }

        // The template's document rows, in stored order.
        let mut rows: Vec<TemplateDocument> = Vec::new();
        let mut i: usize = 0;
        while i < self.template_documents.len()
            invariant
                old(self)@.wf(),
                self@ == old(self)@,
                i <= self.template_documents.len(),
                rows@ == tdocs_of(self@.template_documents.take(i as int), template_id@),
            decreases self.template_documents.len() - i,
        {
            proof {
                lemma_take_succ(self@.template_documents, i as int);
                lemma_tdocs_of_push(
                    self@.template_documents.take(i as int),
                    template_id@,
                    self@.template_documents[i as int],
                );
            }
            if str_eq(&self.template_documents[i].template_id, template_id) {
                rows.push(self.template_documents[i].clone());
            }
            i = i + 1;
        }
        proof {
            assert(self@.template_documents.take(self@.template_documents.len() as int)
                =~= self@.template_documents);
            assert(rows@ == rows_g);
            lemma_tdocs_of_props(pre.template_documents, template_id@);
        }

        // The new project row.
        let np = Project {
            id: project_id.clone(),
            name,
            description,
            status: "active".to_owned(),
            created_at: now.clone(),
            last_modified: now.clone(),
        };
        let ghost npg = np;
        proof {
            pre.lemma_with_project_preserves(np);
        }
        self.projects.push(np);
        proof {
            crate::templmodel::lemma_tdocs_of_unique(pre.template_documents, template_id@);
            assert(clone_batch_ok(pre, rows@, doc_ids@));
            assert forall|x: Seq<char>| #[trigger] self@.has_doc(x) == (pre.has_doc(x) || exists|
                t: int,
            |
                0 <= t < 0 && doc_ids@[t]@ == x) by {}
            assert(clone_loop_inv(pre, self@, rows@, doc_ids@, npg, now, 0));
        }

        // Each template document, cloned in stored order under its fresh
        // identity, parents remapped through the batch built so far.
        let mut k: usize = 0;
        while k < rows.len()
            invariant
                k <= rows.len(),
                rows@ == tdocs_of(pre.template_documents, template_id@),
                clone_batch_ok(pre, rows@, doc_ids@),
                clone_loop_inv(pre, self@, rows@, doc_ids@, npg, now, k as int),
                npg.id == project_id,
            decreases rows.len() - k,
        {
            self.clone_step(&rows, &doc_ids, &project_id, &now, k, Ghost(pre), Ghost(npg));
            k = k + 1;
        }
        proof {
            assert(rel_clone_template(
                pre,
                self@,
                template_id@,
                name,
                description,
                project_id,
                doc_ids@,
                now,
            )) by {
                assert(pre.projects.push(npg) == self@.projects);
                assert(npg.id == project_id && npg.name == name && npg.description == description
                    && npg.status@ == "active"@ && npg.created_at == now && npg.last_modified
                    == now);
            }
        }
        Ok(project_id)
    }

    /// Instantiates a template under fresh identities, stamped with the
    /// current time. The generated ids are random, so the one failure they
    /// can force, `StorageFault` on a collision, cannot be ruled out; on a
    /// known template with free identities the clone succeeds, and the whole
    /// outcome is pinned down by `rel_clone_template`.
    pub fn create_project_from_template(
        &mut self,
        template_id: &String,
        name: String,
        description: Option<String>,
    ) -> (r: Result<String, Error>)
        requires
            old(self)@.wf(),
        ensures
            final(self)@.wf(),
            !old(self)@.has_template(template_id@) <==> (r matches Err(e) && e
                == Error::NotFound),
            r matches Err(_) ==> final(self)@ == old(self)@,
            r matches Ok(pid) ==> exists|ids: Seq<String>, ts: String|
                #[trigger] rel_clone_template(
                    old(self)@,
                    final(self)@,
                    template_id@,
                    name,
                    description,
                    pid,
                    ids,
                    ts,
                ),
    {
        let now = get_current_timestamp();
        let project_id = fresh_id();
        let mut n: usize = 0;
        let mut count: usize = 0;
        while n < self.template_documents.len()
            invariant
                old(self)@.wf(),
                self@ == old(self)@,
                n <= self.template_documents.len(),
                count as int == tdocs_of(
                    self@.template_documents.take(n as int),
                    template_id@,
                ).len(),
                count <= n,
            decreases self.template_documents.len() - n,
        {
            proof {
                lemma_take_succ(self@.template_documents, n as int);
                lemma_tdocs_of_push(
                    self@.template_documents.take(n as int),
                    template_id@,
                    self@.template_documents[n as int],
                );
            }
            if str_eq(&self.template_documents[n].template_id, template_id) {
                count = count + 1;
            }
            n = n + 1;
        }
        proof {
            assert(self@.template_documents.take(self@.template_documents.len() as int)
                =~= self@.template_documents);
        }
        let mut doc_ids: Vec<String> = Vec::new();
        let mut m: usize = 0;
        while m < count
            invariant
                m <= count,
                doc_ids@.len() == m,
            decreases count - m,
        {
            doc_ids.push(fresh_id());
            m = m + 1;
        }
        let ghost ids_g = doc_ids@;
        let ghost now_g = now;
        let r = self.create_project_from_template_with(
            template_id,
            name,
            description,
            project_id,
            doc_ids,
            now,
        );
        proof {
            if r is Ok {
                assert(rel_clone_template(
                    old(self)@,
                    self@,
                    template_id@,
                    name,
                    description,
                    r->Ok_0,
                    ids_g,
                    now_g,
                ));
            }
        }
        r
    }
}

impl Store {
    /// Rewrites the template row at index `i`.
    fn set_template_row(&mut self, i: usize, row: ProjectTemplate)
        requires
            i < old(self)@.templates.len(),
        ensures
            final(self)@ == (StoreView {
                templates: old(self)@.templates.update(i as int, row),
                ..old(self)@
            }),
    {
        let ghost target = self@.templates.update(i as int, row);
        let mut out: Vec<ProjectTemplate> = Vec::new();
        let mut k: usize = 0;
        while k < self.templates.len()
            invariant
                k <= self.templates.len(),
                i < self.templates.len(),
                out@.len() == k,
                forall|t: int| 0 <= t < k ==> out@[t] == target[t],
                target == self@.templates.update(i as int, row),
            decreases self.templates.len() - k,
        {
            if k == i {
                out.push(row.clone());
            } else {
                out.push(self.templates[k].clone());
            }
            k = k + 1;
        }
        proof {
            assert(out@ =~= target);
        }
        self.templates = out;
    }

    /// Patches a template: supplied fields overwrite, absent fields are
    /// kept, `last_modified` is set to the given time, and a supplied tag
    /// set replaces the stored one as a unit. Fails with `NotFound` exactly
    /// when the id does not exist, and with `StorageFault` when a supplied
    /// tag set holds a duplicate.
    #[verifier::rlimit(100)]
    #[verifier::spinoff_prover]
    pub fn update_template_with(
        &mut self,
        template: crate::types::UpdateProjectTemplate,
        now: String,
    ) -> (r: Result<ProjectTemplate, Error>)
        requires
            old(self)@.wf(),
        ensures
            final(self)@.wf(),
            r is Ok <==> (old(self)@.has_template(template.id@) && (match template.tags {
                Option::Some(tg) => crate::types::strs_sv(tg@).no_duplicates(),
                Option::None => true,
            })),
            r matches Err(e) ==> final(self)@ == old(self)@ && (if !old(self)@.has_template(
                template.id@,
            ) {
                e == Error::NotFound
            } else {
                e == Error::StorageFault
            }),
            r matches Ok(t) ==> {
                &&& t == crate::templmodel::patched_template(
                    old(self)@.template_named(template.id@),
                    template,
                    now,
                )
                &&& final(self)@ == (StoreView {
                    templates: crate::templmodel::templates_patched(
                        old(self)@.templates,
                        template,
                        now,
                    ),
                    template_tags: (match template.tags {
                        Option::Some(tg) => spec_replace(
                            old(self)@.template_tags,
                            template.id,
                            tg@,
                        ),
                        Option::None => old(self)@.template_tags,
                    }),
                    ..old(self)@
                })
            },
    {
        let ghost pre = self@;
        let ghost u = template;
        let i = match self.find_template(&template.id) {
            Option::None => {
                return Err(Error::NotFound);
            },
            Option::Some(i) => i,
        };
        proof {
            self@.lemma_template_at(i as int);
        }
        match &template.tags {
            Option::Some(tg) => {
                if !crate::sat::values_unique(tg) {
                    return Err(Error::StorageFault);
                }
            },
            Option::None => {},
        }
        let t0 = &self.templates[i];
        let row = ProjectTemplate {
            id: t0.id.clone(),
            name: (match template.name {
                Option::Some(n) => n,
                Option::None => t0.name.clone(),
            }),
            description: (match template.description {
                Option::Some(d) => Option::Some(d),
                Option::None => clone_opt_string(&t0.description),
            }),
            structure: (match template.structure {
                Option::Some(v) => v,
                Option::None => t0.structure.clone(),
            }),
            author_name: (match template.author_name {
                Option::Some(v) => Option::Some(v),
                Option::None => clone_opt_string(&t0.author_name),
            }),
            author_email: (match template.author_email {
                Option::Some(v) => Option::Some(v),
                Option::None => clone_opt_string(&t0.author_email),
            }),
            preview_image: (match template.preview_image {
                Option::Some(v) => Option::Some(v),
                Option::None => clone_opt_string(&t0.preview_image),
            }),
            category: (match template.category {
                Option::Some(v) => Option::Some(v),
                Option::None => clone_opt_string(&t0.category),
            }),
            difficulty: (match template.difficulty {
                Option::Some(v) => Option::Some(v),
                Option::None => clone_opt_string(&t0.difficulty),
            }),
            estimated_time: (match template.estimated_time {
                Option::Some(v) => Option::Some(v),
                Option::None => clone_opt_string(&t0.estimated_time),
            }),
            created_at: t0.created_at.clone(),
            last_modified: now,
        };
        proof {
            assert(row =~= crate::templmodel::patched_template(
                pre.templates[i as int],
                u,
                row.last_modified,
            ));
            crate::templmodel::lemma_templates_patched_props(pre.templates, u, row.last_modified);
            assert(crate::templmodel::templates_patched(pre.templates, u, row.last_modified)
                =~= pre.templates.update(i as int, row));
            pre.lemma_templates_pointwise_preserves(
                crate::templmodel::templates_patched(pre.templates, u, row.last_modified),
            );
        }
        let out = row.clone();
        self.set_template_row(i, row);
        match template.tags {
            Option::Some(tg) => {
                proof {
                    self@.lemma_replace_tags_wf(template.id, tg@);
                }
                match self.template_tags.replace_all(&template.id, &tg) {
                    Ok(()) => {},
                    Err(_) => {
                        proof {
                            assert(false);
                        }
                    },
                }
            },
            Option::None => {},
        }
        Ok(out)
    }

    /// Patches a template, stamped with the current time.
    pub fn update_template(&mut self, template: crate::types::UpdateProjectTemplate) -> (r:
        Result<ProjectTemplate, Error>)
        requires
            old(self)@.wf(),
        ensures
            final(self)@.wf(),
            r is Ok <==> (old(self)@.has_template(template.id@) && (match template.tags {
                Option::Some(tg) => crate::types::strs_sv(tg@).no_duplicates(),
                Option::None => true,
            })),
            r matches Err(e) ==> final(self)@ == old(self)@ && (if !old(self)@.has_template(
                template.id@,
            ) {
                e == Error::NotFound
            } else {
                e == Error::StorageFault
            }),
            r matches Ok(t) ==> t == crate::templmodel::patched_template(
                old(self)@.template_named(template.id@),
                template,
                t.last_modified,
            ) && final(self)@ == (StoreView {
                templates: crate::templmodel::templates_patched(
                    old(self)@.templates,
                    template,
                    t.last_modified,
                ),
                template_tags: (match template.tags {
                    Option::Some(tg) => spec_replace(old(self)@.template_tags, template.id, tg@),
                    Option::None => old(self)@.template_tags,
                }),
                ..old(self)@
            }),
    {
        let now = get_current_timestamp();
        self.update_template_with(template, now)
    }
}



/// The parent a payload entry resolves to, as a character sequence: the
/// referenced earlier entry's assigned identity (which equals the reference
/// itself), or none for a root.
pub open spec fn ctpl_parent_of(ds: Seq<NewTemplateDocument>, k: int) -> Option<Seq<char>> {
    match ds[k].parent_id {
        Option::Some(p) => Option::Some(p@),
        Option::None => Option::<Seq<char>>::None,
    }
}

/// The largest position held among the first `k` payload entries whose
/// resolved parent is `parent`, `-1` if none.
pub open spec fn ctpl_group_max(
    ds: Seq<NewTemplateDocument>,
    k: int,
    parent: Option<Seq<char>>,
) -> int
    decreases k, 0int,
{
    if k <= 0 {
        -1
    } else {
        let m = ctpl_group_max(ds, k - 1, parent);
        if ctpl_parent_of(ds, k - 1) == parent && ctpl_pos(ds, k - 1) > m {
            ctpl_pos(ds, k - 1)
        } else {
            m
        }
    }
}

/// The position the `k`-th payload entry is stored at: the supplied rank,
/// or the next rank of its sibling group within the batch.
pub open spec fn ctpl_pos(ds: Seq<NewTemplateDocument>, k: int) -> int
    decreases k, 1int,
{
    match ds[k].position {
        Option::Some(p) => p as int,
        Option::None => ctpl_group_max(ds, k, ctpl_parent_of(ds, k)) + 1,
    }
}

/// Whether a payload entry carries a duplicated label, character or keyword
/// set.
pub open spec fn ctpl_sets_dup(nd: NewTemplateDocument) -> bool {
    ||| (match nd.labels {
        Option::Some(l) => !crate::types::strs_sv(l@).no_duplicates(),
        Option::None => false,
    })
    ||| (match nd.metadata {
        Option::Some(m) => (match m.characters {
            Option::Some(c) => !crate::types::strs_sv(c@).no_duplicates(),
            Option::None => false,
        }) || (match m.keywords {
            Option::Some(kw) => !crate::types::strs_sv(kw@).no_duplicates(),
            Option::None => false,
        }),
        Option::None => false,
    })
}

/// Why the `k`-th payload entry of a template creation must be refused: a
/// taken or repeated identity, a duplicated satellite set, a parent that
/// names no earlier entry, or a sibling group whose next rank cannot be
/// represented.
pub open spec fn ctpl_entry_bad(
    pre: StoreView,
    ds: Seq<NewTemplateDocument>,
    ids: Seq<String>,
    k: int,
) -> bool {
    ||| pre.has_tdoc(ids[k]@)
    ||| exists|l: int| 0 <= l < k && (#[trigger] ids[l])@ == ids[k]@
    ||| ctpl_sets_dup(ds[k])
    ||| (match ds[k].parent_id {
        Option::Some(p) => !exists|j: int| 0 <= j < k && (#[trigger] ids[j])@ == p@,
        Option::None => false,
    })
    ||| (ds[k].position is None && ctpl_group_max(ds, k, ctpl_parent_of(ds, k)) == i32::MAX as int)
}

/// Why a template creation must fail: a taken template id, a duplicated tag
/// set, or a bad payload entry. Every kind is a constraint violation.
pub open spec fn spec_create_template_err(
    pre: StoreView,
    tags: Option<Vec<String>>,
    ds: Seq<NewTemplateDocument>,
    id: Seq<char>,
    ids: Seq<String>,
) -> Option<Error> {
    if pre.has_template(id) {
        Option::Some(Error::StorageFault)
    } else if (match tags {
        Option::Some(tg) => !crate::types::strs_sv(tg@).no_duplicates(),
        Option::None => false,
    }) {
        Option::Some(Error::StorageFault)
    } else if exists|k: int| 0 <= k < ds.len() && #[trigger] ctpl_entry_bad(pre, ds, ids, k) {
        Option::Some(Error::StorageFault)
    } else {
        Option::None
    }
}

/// The positions and parents of the built rows match the payload's
/// placement computation, so the batch's group maxima agree with it too.
pub proof fn lemma_ctpl_group_bridge(
    rows: Seq<TemplateDocument>,
    ds: Seq<NewTemplateDocument>,
    k: int,
    parent: Option<String>,
)
    requires
        0 <= k <= rows.len(),
        rows.len() <= ds.len(),
        forall|t: int|
            0 <= t < k ==> ((#[trigger] rows[t]).position as int == ctpl_pos(ds, t) && opt_sv(
                rows[t].parent_id,
            ) == ctpl_parent_of(ds, t)),
    ensures
        crate::templmodel::tgroup_max_pos(rows.take(k), parent) == ctpl_group_max(
            ds,
            k,
            opt_sv(parent),
        ),
    decreases k,
{
    if k > 0 {
        lemma_ctpl_group_bridge(rows, ds, k - 1, parent);
        assert(rows.take(k).drop_last() =~= rows.take(k - 1));
        assert(rows.take(k).last() == rows[k - 1]);
        assert(crate::templmodel::in_tgroup(rows[k - 1], parent) == (opt_sv(rows[k
            - 1].parent_id) == opt_sv(parent)));
    }
}

/// The unchanging facts of one template-creation batch: fresh, distinct
/// identities, duplicate-free satellite payloads, and the built rows'
/// shape.
pub open spec fn ctpl_static(
    pre: StoreView,
    dsv: Seq<NewTemplateDocument>,
    ids: Seq<String>,
    rows: Seq<TemplateDocument>,
    tid: String,
) -> bool {
    &&& pre.wf()
    &&& ids.len() == dsv.len()
    &&& rows.len() == dsv.len()
    &&& forall|t: int| 0 <= t < ids.len() ==> !pre.has_tdoc((#[trigger] ids[t])@)
    &&& forall|t: int, l: int|
        0 <= t < l < ids.len() ==> (#[trigger] ids[t])@ != (#[trigger] ids[l])@
    &&& forall|t: int| 0 <= t < rows.len() ==> #[trigger] ctpl_doc_ok(rows, dsv, ids, tid, t)
    &&& forall|t: int|
        0 <= t < dsv.len() ==> (match (#[trigger] dsv[t]).labels {
            Option::Some(l) => crate::types::strs_sv(l@).no_duplicates(),
            Option::None => true,
        })
    &&& forall|t: int|
        0 <= t < dsv.len() ==> (match (#[trigger] dsv[t]).metadata {
            Option::Some(m) => (match m.characters {
                Option::Some(c) => crate::types::strs_sv(c@).no_duplicates(),
                Option::None => true,
            }) && (match m.keywords {
                Option::Some(kw) => crate::types::strs_sv(kw@).no_duplicates(),
                Option::None => true,
            }),
            Option::None => true,
        })
}

/// What holds once the first `k` entries' satellite content is ingested.
pub open spec fn ctpl_inv(
    pre: StoreView,
    cur: StoreView,
    dsv: Seq<NewTemplateDocument>,
    ids: Seq<String>,
    trow: ProjectTemplate,
    rows: Seq<TemplateDocument>,
    tags: Option<Vec<String>>,
    k: int,
) -> bool {
    &&& 0 <= k <= dsv.len()
    &&& cur.wf()
    &&& cur.projects == pre.projects
    &&& cur.documents == pre.documents
    &&& cur.labels == pre.labels
    &&& cur.metadata == pre.metadata
    &&& cur.characters == pre.characters
    &&& cur.keywords == pre.keywords
    &&& cur.templates == pre.templates.push(trow)
    &&& cur.template_documents == pre.template_documents + rows
    &&& values_of(cur.template_tags, trow.id@) == (match tags {
        Option::Some(tg) => tg@,
        Option::None => Seq::<String>::empty(),
    })
    &&& forall|x: Seq<char>|
        pre.has_template(x) ==> #[trigger] values_of(cur.template_tags, x) == values_of(
            pre.template_tags,
            x,
        )
    &&& forall|x: Seq<char>|
        #[trigger] cur.has_tmeta(x) == (pre.has_tmeta(x) || exists|t: int|
            0 <= t < k && (#[trigger] ids[t])@ == x && dsv[t].metadata is Some)
    &&& forall|t: int| 0 <= t < k ==> #[trigger] ctpl_sat_ok(cur, dsv, ids, t)
    &&& forall|t: int|
        k <= t < dsv.len() ==> (values_of(cur.template_labels, (#[trigger] ids[t])@)
            == Seq::<String>::empty() && values_of(cur.template_characters, ids[t]@)
            == Seq::<String>::empty() && values_of(cur.template_keywords, ids[t]@)
            == Seq::<String>::empty())
    &&& forall|x: Seq<char>|
        pre.has_tdoc(x) ==> #[trigger] values_of(cur.template_labels, x) == values_of(
            pre.template_labels,
            x,
        )
    &&& forall|x: Seq<char>|
        pre.has_tdoc(x) ==> (#[trigger] cur.has_tmeta(x) == pre.has_tmeta(x) && (pre.has_tmeta(
            x,
        ) ==> cur.tmeta_named(x) == pre.tmeta_named(x)))
    &&& forall|x: Seq<char>|
        pre.has_tdoc(x) ==> #[trigger] values_of(cur.template_characters, x) == values_of(
            pre.template_characters,
            x,
        )
    &&& forall|x: Seq<char>|
        pre.has_tdoc(x) ==> #[trigger] values_of(cur.template_keywords, x) == values_of(
            pre.template_keywords,
            x,
        )
}

/// The largest position held among the given rows' siblings of `parent`.
fn tgroup_max(rows: &Vec<TemplateDocument>, parent: &Option<String>) -> (r: i32)
    ensures
        r as int == crate::templmodel::tgroup_max_pos(rows@, *parent),
{
    let mut m: i32 = -1;
    let mut i: usize = 0;
    while i < rows.len()
        invariant
            i <= rows.len(),
            m as int == crate::templmodel::tgroup_max_pos(rows@.take(i as int), *parent),
        decreases rows.len() - i,
    {
        proof {
            lemma_take_succ(rows@, i as int);
            crate::templmodel::lemma_tgroup_max_pos_push(
                rows@.take(i as int),
                *parent,
                rows@[i as int],
            );
        }
        let d = &rows[i];
        if crate::types::opt_str_eq(&d.parent_id, parent) && d.position > m {
            m = d.position;
        }
        i = i + 1;
    }
    proof {
        assert(rows@.take(rows@.len() as int) =~= rows@);
    }
    m
}

impl Store {
    /// Builds the stored rows of a new template's document batch, checking
    /// everything before anything is written: fresh, mutually distinct
    /// identities, duplicate-free satellite sets, parents that reference
    /// earlier batch entries by their assigned identity, statuses defaulted
    /// to not-started, and absent positions placed at the end of the
    /// entry's sibling group within the batch.
    #[verifier::rlimit(100)]
    #[verifier::spinoff_prover]
    fn build_template_docs(
        &self,
        tid: &String,
        ds: &Vec<NewTemplateDocument>,
        ids: &Vec<String>,
    ) -> (r: Result<Vec<TemplateDocument>, Error>)
        requires
            self@.wf(),
            ids@.len() == ds@.len(),
        ensures
            r matches Err(e) ==> e == Error::StorageFault && (exists|k: int|
                0 <= k < ds@.len() && #[trigger] ctpl_entry_bad(self@, ds@, ids@, k)),
            r matches Ok(rows) ==> {
                &&& rows@.len() == ds@.len()
                &&& forall|k: int|
                    0 <= k < ds@.len() ==> !(#[trigger] ctpl_entry_bad(self@, ds@, ids@, k))
                &&& forall|k: int|
                    0 <= k < ids@.len() ==> !self@.has_tdoc((#[trigger] ids@[k])@)
                &&& forall|k: int, l: int|
                    0 <= k < l < ids@.len() ==> (#[trigger] ids@[k])@ != (#[trigger] ids@[l])@
                &&& forall|k: int|
                    0 <= k < rows@.len() ==> #[trigger] ctpl_doc_ok(rows@, ds@, ids@, *tid, k)
                &&& forall|k: int|
                    0 <= k < ds@.len() ==> (match (#[trigger] ds@[k]).labels {
                        Option::Some(l) => crate::types::strs_sv(l@).no_duplicates(),
                        Option::None => true,
                    })
                &&& forall|k: int|
                    0 <= k < ds@.len() ==> (match (#[trigger] ds@[k]).metadata {
                        Option::Some(m) => (match m.characters {
                            Option::Some(c) => crate::types::strs_sv(c@).no_duplicates(),
                            Option::None => true,
                        }) && (match m.keywords {
                            Option::Some(kw) => crate::types::strs_sv(kw@).no_duplicates(),
                            Option::None => true,
                        }),
                        Option::None => true,
                    })
            },
    {
        let mut rows: Vec<TemplateDocument> = Vec::new();
        let mut k: usize = 0;
        while k < ds.len()
            invariant
                self@.wf(),
                ids@.len() == ds@.len(),
                k <= ds@.len(),
                rows@.len() == k,
                forall|t: int| 0 <= t < k ==> !self@.has_tdoc((#[trigger] ids@[t])@),
                forall|t: int, l: int|
                    0 <= t < l < k ==> (#[trigger] ids@[t])@ != (#[trigger] ids@[l])@,
                forall|t: int|
                    0 <= t < k ==> #[trigger] ctpl_doc_ok(rows@, ds@, ids@, *tid, t),
                forall|t: int| 0 <= t < k ==> !(#[trigger] ctpl_entry_bad(self@, ds@, ids@, t)),
                forall|t: int|
                    0 <= t < k ==> ((#[trigger] rows@[t]).position as int == ctpl_pos(ds@, t)
                        && opt_sv(rows@[t].parent_id) == ctpl_parent_of(ds@, t)),
                forall|t: int|
                    0 <= t < k ==> (match (#[trigger] ds@[t]).labels {
                        Option::Some(l) => crate::types::strs_sv(l@).no_duplicates(),
                        Option::None => true,
                    }),
                forall|t: int|
                    0 <= t < k ==> (match (#[trigger] ds@[t]).metadata {
                        Option::Some(m) => (match m.characters {
                            Option::Some(c) => crate::types::strs_sv(c@).no_duplicates(),
                            Option::None => true,
                        }) && (match m.keywords {
                            Option::Some(kw) => crate::types::strs_sv(kw@).no_duplicates(),
                            Option::None => true,
                        }),
                        Option::None => true,
                    }),
            decreases ds.len() - k,
        {
            // A fresh, distinct identity.
            match self.find_tdoc(&ids[k]) {
                Option::Some(di) => {
                    proof {
                        self@.lemma_tdoc_at(di as int);
                        assert(ctpl_entry_bad(self@, ds@, ids@, k as int));
                    }
                    return Err(Error::StorageFault);
                },
                Option::None => {},
            }
            let mut t: usize = 0;
            while t < k
                invariant
                    t <= k,
                    k < ds@.len(),
                    ids@.len() == ds@.len(),
                    forall|l: int| 0 <= l < t ==> (#[trigger] ids@[l])@ != ids@[k as int]@,
                decreases k - t,
            {
                if str_eq(&ids[t], &ids[k]) {
                    proof {
                        assert(ctpl_entry_bad(self@, ds@, ids@, k as int));
                    }
                    return Err(Error::StorageFault);
                }
                t = t + 1;
            }
            // Duplicate-free satellite sets.
            let nd = &ds[k];
            match &nd.labels {
                Option::Some(l) => {
                    if !crate::sat::values_unique(l) {
                        proof {
                            assert(ctpl_sets_dup(ds@[k as int]));
                            assert(ctpl_entry_bad(self@, ds@, ids@, k as int));
                        }
                        return Err(Error::StorageFault);
                    }
                },
                Option::None => {},
            }
            match &nd.metadata {
                Option::Some(m) => {
                    match &m.characters {
                        Option::Some(c) => {
                            if !crate::sat::values_unique(c) {
                                proof {
                                    assert(ctpl_sets_dup(ds@[k as int]));
                                    assert(ctpl_entry_bad(self@, ds@, ids@, k as int));
                                }
                                return Err(Error::StorageFault);
                            }
                        },
                        Option::None => {},
                    }
                    match &m.keywords {
                        Option::Some(kw) => {
                            if !crate::sat::values_unique(kw) {
                                proof {
                                    assert(ctpl_sets_dup(ds@[k as int]));
                                    assert(ctpl_entry_bad(self@, ds@, ids@, k as int));
                                }
                                return Err(Error::StorageFault);
                            }
                        },
                        Option::None => {},
                    }
                },
                Option::None => {},
            }
            // The parent must reference an earlier batch entry; a dangling
            // reference refuses the whole batch rather than silently
            // becoming a root.
            let mut parent: Option<String> = Option::None;
            match &nd.parent_id {
                Option::Some(p) => {
                    let mut j: usize = 0;
                    let mut found: bool = false;
                    while j < k
                        invariant
                            j <= k,
                            k < ds@.len(),
                            ids@.len() == ds@.len(),
                            ds@[k as int].parent_id == Option::Some(*p),
                            !found ==> parent is None,
                            !found ==> forall|l: int| 0 <= l < j ==> (#[trigger] ids@[l])@ != p@,
                            found ==> exists|l: int|
                                0 <= l < k && (#[trigger] ids@[l])@ == p@ && opt_sv(parent)
                                    == Option::Some(ids@[l]@),
                        decreases k - j,
                    {
                        if str_eq(&ids[j], p) {
                            parent = Option::Some(ids[j].clone());
                            found = true;
                            proof {
                                assert((ids@[j as int])@ == p@);
                                assert(opt_sv(parent) == Option::Some(ids@[j as int]@));
                            }
                            j = k;
                        } else {
                            j = j + 1;
                        }
                    }
                    if !found {
                        proof {
                            assert(ctpl_entry_bad(self@, ds@, ids@, k as int));
                        }
                        return Err(Error::StorageFault);
                    }
                },
                Option::None => {},
            }
            // Placement within the batch's sibling group.
            proof {
                assert(opt_sv(parent) == ctpl_parent_of(ds@, k as int)) by {
                    match ds@[k as int].parent_id {
                        Option::Some(p0) => {
                            let l = choose|l: int|
                                0 <= l < k && (#[trigger] ids@[l])@ == p0@ && opt_sv(parent)
                                    == Option::Some(ids@[l]@);
                        },
                        Option::None => {},
                    }
                }
                assert(rows@.take(k as int) =~= rows@);
                lemma_ctpl_group_bridge(rows@, ds@, k as int, parent);
            }
            let pos: i32 = match &nd.position {
                Option::Some(p) => *p,
                Option::None => {
                    let m = tgroup_max(&rows, &parent);
                    if m == i32::MAX {
                        proof {
                            assert(ctpl_group_max(ds@, k as int, ctpl_parent_of(ds@, k as int))
                                == i32::MAX as int);
                            assert(ctpl_entry_bad(self@, ds@, ids@, k as int));
                        }
                        return Err(Error::StorageFault);
                    }
                    m + 1
                },
            };
            proof {
                assert(pos as int == ctpl_pos(ds@, k as int));
            }
            let row = TemplateDocument {
                id: ids[k].clone(),
                template_id: tid.clone(),
                parent_id: parent,
                title: nd.title.clone(),
                content: clone_opt_string(&nd.content),
                synopsis: clone_opt_string(&nd.synopsis),
                doc_type: nd.doc_type.clone(),
                status: (match &nd.status {
                    Option::Some(st) => st.clone(),
                    Option::None => "not-started".to_owned(),
                }),
                position: pos,
            };
            let ghost prev = rows@;
            rows.push(row);
            proof {
                assert(rows@.take(k as int) =~= prev);
                assert forall|t0: int| 0 <= t0 < k + 1 implies #[trigger] ctpl_doc_ok(
                    rows@,
                    ds@,
                    ids@,
                    *tid,
                    t0,
                ) by {
                    if t0 < k {
                        assert(ctpl_doc_ok(prev, ds@, ids@, *tid, t0));
                        assert(rows@[t0] == prev[t0]);
                        assert(rows@.take(t0) =~= prev.take(t0));
                    } else {
                        assert(rows@[t0] == row);
                    }
                }
                assert(rows@[k as int].position as int == ctpl_pos(ds@, k as int));
                assert(opt_sv(rows@[k as int].parent_id) == ctpl_parent_of(ds@, k as int));
                assert(!ctpl_entry_bad(self@, ds@, ids@, k as int)) by {
                    match ds@[k as int].parent_id {
                        Option::Some(p0) => {
                            assert(exists|j: int|
                                0 <= j < k && (#[trigger] ids@[j])@ == p0@);
                        },
                        Option::None => {},
                    }
                    if ds@[k as int].position is None {
                        assert(ctpl_group_max(ds@, k as int, ctpl_parent_of(ds@, k as int))
                            != i32::MAX as int);
                    }
                }
            }
            k = k + 1;
        }
        Ok(rows)
    }

    /// Ingests one payload entry's satellite content onto its freshly
    /// installed template document: the label set and, when supplied, a
    /// metadata row carrying the documented defaults, with its character and
    /// keyword sets.
    #[verifier::rlimit(100)]
    #[verifier::spinoff_prover]
    fn ctpl_sat_step(&mut self, nd: &NewTemplateDocument, id_k: &String)
        requires
            old(self)@.wf(),
            old(self)@.has_tdoc(id_k@),
            !old(self)@.has_tmeta(id_k@),
            match nd.labels {
                Option::Some(l) => crate::types::strs_sv(l@).no_duplicates(),
                Option::None => true,
            },
            match nd.metadata {
                Option::Some(m) => (match m.characters {
                    Option::Some(c) => crate::types::strs_sv(c@).no_duplicates(),
                    Option::None => true,
                }) && (match m.keywords {
                    Option::Some(kw) => crate::types::strs_sv(kw@).no_duplicates(),
                    Option::None => true,
                }),
                Option::None => true,
            },
        ensures
            final(self)@.wf(),
            final(self)@.projects == old(self)@.projects,
            final(self)@.documents == old(self)@.documents,
            final(self)@.labels == old(self)@.labels,
            final(self)@.metadata == old(self)@.metadata,
            final(self)@.characters == old(self)@.characters,
            final(self)@.keywords == old(self)@.keywords,
            final(self)@.templates == old(self)@.templates,
            final(self)@.template_tags == old(self)@.template_tags,
            final(self)@.template_documents == old(self)@.template_documents,
            values_of(final(self)@.template_labels, id_k@) == (match nd.labels {
                Option::Some(l) => l@,
                Option::None => values_of(old(self)@.template_labels, id_k@),
            }),
            forall|x: Seq<char>|
                x != id_k@ ==> #[trigger] values_of(final(self)@.template_labels, x)
                    == values_of(old(self)@.template_labels, x),
            forall|x: Seq<char>|
                x != id_k@ ==> (#[trigger] final(self)@.has_tmeta(x) == old(self)@.has_tmeta(x)
                    && (old(self)@.has_tmeta(x) ==> final(self)@.tmeta_named(x) == old(
                    self,
                )@.tmeta_named(x))),
            forall|x: Seq<char>|
                x != id_k@ ==> #[trigger] values_of(final(self)@.template_characters, x)
                    == values_of(old(self)@.template_characters, x),
            forall|x: Seq<char>|
                x != id_k@ ==> #[trigger] values_of(final(self)@.template_keywords, x)
                    == values_of(old(self)@.template_keywords, x),
            (match nd.metadata {
                Option::Some(m) => final(self)@.has_tmeta(id_k@) && ({
                    let row = final(self)@.tmeta_named(id_k@);
                    &&& row.document_id == *id_k
                    &&& row.pov == m.pov
                    &&& row.setting == m.setting
                    &&& row.event_date == m.event_date
                    &&& row.importance == m.importance
                    &&& (match m.content_format {
                        Option::Some(c) => row.content_format == Option::Some(c),
                        Option::None => row.content_format matches Option::Some(cf) && cf@
                            == "rich_text"@,
                    })
                    &&& (match m.visibility {
                        Option::Some(v) => row.visibility == Option::Some(v),
                        Option::None => row.visibility matches Option::Some(vv) && vv@
                            == "private"@,
                    })
                    &&& row.ai_assisted == (match m.ai_assisted {
                        Option::Some(a) => a,
                        Option::None => false,
                    })
                    &&& row.custom_fields == m.custom_fields
                    &&& values_of(final(self)@.template_characters, id_k@) == (
                    match m.characters {
                        Option::Some(c) => c@,
                        Option::None => values_of(old(self)@.template_characters, id_k@),
                    })
                    &&& values_of(final(self)@.template_keywords, id_k@) == (match m.keywords {
                        Option::Some(kw) => kw@,
                        Option::None => values_of(old(self)@.template_keywords, id_k@),
                    })
                }),
                Option::None => !final(self)@.has_tmeta(id_k@)
                    && final(self)@.template_metadata == old(self)@.template_metadata
                    && final(self)@.template_characters == old(self)@.template_characters
                    && final(self)@.template_keywords == old(self)@.template_keywords,
            }),
    {
        let ghost pre = self@;
        match &nd.labels {
            Option::Some(l) => {
                proof {
                    pre.lemma_replace_tlabels_wf(*id_k, l@);
                    crate::sat::lemma_spec_replace_values(pre.template_labels, *id_k, l@);
                }
                match self.template_labels.replace_all(id_k, l) {
                    Ok(()) => {},
                    Err(_) => {
                        proof {
                            assert(false);
                        }
                    },
                }
            },
            Option::None => {},
        }
        let ghost v1 = self@;
        match &nd.metadata {
            Option::Some(m) => {
                let mrow = crate::types::TemplateMetadataRow {
                    document_id: id_k.clone(),
                    pov: clone_opt_string(&m.pov),
                    setting: clone_opt_string(&m.setting),
                    event_date: clone_opt_string(&m.event_date),
                    importance: clone_opt_string(&m.importance),
                    content_format: Option::Some(
                        match &m.content_format {
                            Option::Some(c) => c.clone(),
                            Option::None => "rich_text".to_owned(),
                        },
                    ),
                    visibility: Option::Some(
                        match &m.visibility {
                            Option::Some(v) => v.clone(),
                            Option::None => "private".to_owned(),
                        },
                    ),
                    ai_assisted: (match m.ai_assisted {
                        Option::Some(a) => a,
                        Option::None => false,
                    }),
                    custom_fields: clone_opt_string(&m.custom_fields),
                };
                proof {
                    v1.lemma_add_tmeta_wf(mrow);
                }
                self.template_metadata.push(mrow);
                let ghost v2 = self@;
                proof {
                    assert(v2 =~= (StoreView {
                        template_metadata: v1.template_metadata.push(mrow),
                        ..v1
                    }));
                    assert(v2.template_metadata[v2.template_metadata.len() - 1].document_id@
                        == id_k@);
                    assert(v2.has_tmeta(id_k@));
                    v2.lemma_tmeta_at(v2.template_metadata.len() - 1);
                }
                match &m.characters {
                    Option::Some(c) => {
                        proof {
                            v2.lemma_replace_tchars_wf(*id_k, c@);
                            crate::sat::lemma_spec_replace_values(
                                v2.template_characters,
                                *id_k,
                                c@,
                            );
                        }
                        match self.template_characters.replace_all(id_k, c) {
                            Ok(()) => {},
                            Err(_) => {
                                proof {
                                    assert(false);
                                }
                            },
                        }
                    },
                    Option::None => {},
                }
                let ghost v3 = self@;
                match &m.keywords {
                    Option::Some(kw) => {
                        proof {
                            v3.lemma_replace_tkeys_wf(*id_k, kw@);
                            crate::sat::lemma_spec_replace_values(
                                v3.template_keywords,
                                *id_k,
                                kw@,
                            );
                        }
                        match self.template_keywords.replace_all(id_k, kw) {
                            Ok(()) => {},
                            Err(_) => {
                                proof {
                                    assert(false);
                                }
                            },
                        }
                    },
                    Option::None => {},
                }
                proof {
                    assert forall|x: Seq<char>| x != id_k@ implies (#[trigger] self@.has_tmeta(x)
                        == pre.has_tmeta(x) && (pre.has_tmeta(x) ==> self@.tmeta_named(x)
                        == pre.tmeta_named(x))) by {
                        if pre.has_tmeta(x) {
                            let ix = choose|ix: int|
                                0 <= ix < pre.template_metadata.len()
                                    && pre.template_metadata[ix].document_id@ == x;
                            assert(self@.template_metadata[ix].document_id@ == x);
                            self@.lemma_tmeta_at(ix);
                            pre.lemma_tmeta_at(ix);
                        }
                        if self@.has_tmeta(x) && !pre.has_tmeta(x) {
                            let ix = choose|ix: int|
                                0 <= ix < self@.template_metadata.len()
                                    && self@.template_metadata[ix].document_id@ == x;
                            assert(ix < pre.template_metadata.len()
                                ==> pre.template_metadata[ix].document_id@ == x);
                        }
                    }
                }
            },
            Option::None => {},
        }
    }
}

impl Store {
    /// Ingests the `k`-th entry's satellite content, keeping the whole
    /// creation invariant.
    #[verifier::rlimit(100)]
    #[verifier::spinoff_prover]
    fn ctpl_step(
        &mut self,
        ds: &Vec<NewTemplateDocument>,
        doc_ids: &Vec<String>,
        k: usize,
        Ghost(pre): Ghost<StoreView>,
        Ghost(trow): Ghost<ProjectTemplate>,
        Ghost(rows): Ghost<Seq<TemplateDocument>>,
        Ghost(tags): Ghost<Option<Vec<String>>>,
    )
        requires
            ctpl_static(pre, ds@, doc_ids@, rows, trow.id),
            ctpl_inv(pre, old(self)@, ds@, doc_ids@, trow, rows, tags, k as int),
            k < ds@.len(),
        ensures
            ctpl_inv(pre, final(self)@, ds@, doc_ids@, trow, rows, tags, k + 1),
    {
        let ghost base = pre.template_documents.len() as int;
        proof {
            assert(ctpl_doc_ok(rows, ds@, doc_ids@, trow.id, k as int));
            assert(self@.template_documents[base + k] == rows[k as int]);
            assert(self@.template_documents[base + k].id@ == doc_ids@[k as int]@);
            assert(self@.has_tdoc(doc_ids@[k as int]@));
            assert(!self@.has_tmeta(doc_ids@[k as int]@)) by {
                if pre.has_tmeta(doc_ids@[k as int]@) {
                    let ix = choose|ix: int|
                        0 <= ix < pre.template_metadata.len()
                            && pre.template_metadata[ix].document_id@ == doc_ids@[k as int]@;
                    assert(pre.has_tdoc(pre.template_metadata[ix].document_id@));
                }
            }
        }
        let ghost vpre = self@;
        self.ctpl_sat_step(&ds[k], &doc_ids[k]);
        proof {
            let ghost idk = doc_ids@[k as int];
            assert forall|x: Seq<char>| #[trigger] self@.has_tmeta(x) == (pre.has_tmeta(x)
                || exists|t: int|
                0 <= t < k + 1 && (#[trigger] doc_ids@[t])@ == x && ds@[t].metadata is Some) by {
                if x == idk@ {
                    match ds@[k as int].metadata {
                        Option::Some(_) => {
                            assert(self@.has_tmeta(x));
                            assert(doc_ids@[k as int]@ == x && ds@[k as int].metadata is Some);
                        },
                        Option::None => {
                            assert(!self@.has_tmeta(x)) by {
                                if self@.has_tmeta(x) {
                                    let ix = choose|ix: int|
                                        0 <= ix < self@.template_metadata.len()
                                            && self@.template_metadata[ix].document_id@ == x;
                                    assert(vpre.template_metadata[ix].document_id@ == x);
                                }
                            }
                            assert(!pre.has_tmeta(x));
                            if exists|t: int|
                                0 <= t < k + 1 && (#[trigger] doc_ids@[t])@ == x
                                    && ds@[t].metadata is Some {
                                let t = choose|t: int|
                                    0 <= t < k + 1 && (#[trigger] doc_ids@[t])@ == x
                                        && ds@[t].metadata is Some;
                                assert(t < k ==> doc_ids@[t]@ != idk@);
                            }
                        },
                    }
                } else {
                    if exists|t: int|
                        0 <= t < k && (#[trigger] doc_ids@[t])@ == x && ds@[t].metadata is Some {
                        let t = choose|t: int|
                            0 <= t < k && (#[trigger] doc_ids@[t])@ == x
                                && ds@[t].metadata is Some;
                        assert(0 <= t < k + 1 && doc_ids@[t]@ == x && ds@[t].metadata is Some);
                    }
                    if exists|t: int|
                        0 <= t < k + 1 && (#[trigger] doc_ids@[t])@ == x
                            && ds@[t].metadata is Some {
                        let t = choose|t: int|
                            0 <= t < k + 1 && (#[trigger] doc_ids@[t])@ == x
                                && ds@[t].metadata is Some;
                        assert(t != k);
                    }
                }
            }
            assert forall|t: int| 0 <= t < k + 1 implies #[trigger] ctpl_sat_ok(
                self@,
                ds@,
                doc_ids@,
                t,
            ) by {
                if t < k {
                    assert(ctpl_sat_ok(vpre, ds@, doc_ids@, t));
                    assert(doc_ids@[t]@ != idk@);
                    assert(values_of(self@.template_labels, doc_ids@[t]@) == values_of(
                        vpre.template_labels,
                        doc_ids@[t]@,
                    ));
                    assert(self@.has_tmeta(doc_ids@[t]@) == vpre.has_tmeta(doc_ids@[t]@));
                    if vpre.has_tmeta(doc_ids@[t]@) {
                        assert(self@.tmeta_named(doc_ids@[t]@) == vpre.tmeta_named(
                            doc_ids@[t]@,
                        ));
                    }
                    assert(values_of(self@.template_characters, doc_ids@[t]@) == values_of(
                        vpre.template_characters,
                        doc_ids@[t]@,
                    ));
                    assert(values_of(self@.template_keywords, doc_ids@[t]@) == values_of(
                        vpre.template_keywords,
                        doc_ids@[t]@,
                    ));
                } else {
                    assert(values_of(vpre.template_labels, idk@) == Seq::<String>::empty());
                    assert(values_of(vpre.template_characters, idk@) == Seq::<String>::empty());
                    assert(values_of(vpre.template_keywords, idk@) == Seq::<String>::empty());
                    assert(values_of(self@.template_labels, idk@) == (match ds@[k as int].labels {
                        Option::Some(l) => l@,
                        Option::None => Seq::<String>::empty(),
                    }));
                }
            }
            assert forall|t: int|
                k + 1 <= t < ds@.len() implies (values_of(
                self@.template_labels,
                (#[trigger] doc_ids@[t])@,
            ) == Seq::<String>::empty() && values_of(self@.template_characters, doc_ids@[t]@)
                == Seq::<String>::empty() && values_of(self@.template_keywords, doc_ids@[t]@)
                == Seq::<String>::empty()) by {
                assert(doc_ids@[t]@ != idk@);
            }
            assert forall|x: Seq<char>| pre.has_tdoc(x) implies (#[trigger] values_of(
                self@.template_labels,
                x,
            ) == values_of(pre.template_labels, x) && values_of(self@.template_characters, x)
                == values_of(pre.template_characters, x) && values_of(
                self@.template_keywords,
                x,
            ) == values_of(pre.template_keywords, x)) by {
                assert(x != idk@);
            }
            assert forall|x: Seq<char>| pre.has_tdoc(x) implies (#[trigger] self@.has_tmeta(x)
                == pre.has_tmeta(x) && (pre.has_tmeta(x) ==> self@.tmeta_named(x)
                == pre.tmeta_named(x))) by {
                assert(x != idk@);
            }
        }
    }

    /// Creates a project template as one unit under the given identities:
    /// the template row with both timestamps set to now, the supplied tag
    /// set, and the ingested document batch — fields copied, statuses and
    /// positions defaulted, parents remapped to the earlier batch entries
    /// they reference — together with each entry's label set and metadata.
    /// A dangling parent reference, a duplicated set value or a colliding
    /// identity refuses the whole creation.
    #[verifier::rlimit(100)]
    #[verifier::spinoff_prover]
    pub fn create_template_with(
        &mut self,
        template: crate::types::NewProjectTemplate,
        id: String,
        doc_ids: Vec<String>,
        now: String,
    ) -> (r: Result<ProjectTemplate, Error>)
        requires
            old(self)@.wf(),
            doc_ids@.len() == (match template.documents {
                Option::Some(d0) => d0@.len(),
                Option::None => 0,
            }),
        ensures
            final(self)@.wf(),
            r matches Err(e) ==> final(self)@ == old(self)@ && e == Error::StorageFault,
            r is Ok <==> spec_create_template_err(
                old(self)@,
                template.tags,
                (match template.documents {
                    Option::Some(d0) => d0@,
                    Option::None => Seq::<NewTemplateDocument>::empty(),
                }),
                id@,
                doc_ids@,
            ) is None,
            r matches Ok(t) ==> ({
                let dsv = (match template.documents {
                    Option::Some(d0) => d0@,
                    Option::None => Seq::<NewTemplateDocument>::empty(),
                });
                let base = old(self)@.template_documents.len() as int;
                &&& t == created_template_row(template, id, now)
                &&& final(self)@.templates == old(self)@.templates.push(t)
                &&& final(self)@.template_documents.len() == base + dsv.len()
                &&& forall|i: int|
                    0 <= i < base ==> #[trigger] final(self)@.template_documents[i] == old(
                    self,
                )@.template_documents[i]
                &&& forall|k: int|
                    0 <= k < dsv.len() ==> #[trigger] ctpl_doc_ok(
                        final(self)@.template_documents.subrange(base, base + dsv.len()),
                        dsv,
                        doc_ids@,
                        t.id,
                        k,
                    )
                &&& values_of(final(self)@.template_tags, id@) == (match template.tags {
                    Option::Some(tg) => tg@,
                    Option::None => Seq::<String>::empty(),
                })
                &&& forall|x: Seq<char>|
                    old(self)@.has_template(x) ==> #[trigger] values_of(
                        final(self)@.template_tags,
                        x,
                    ) == values_of(old(self)@.template_tags, x)
                &&& forall|k: int|
                    0 <= k < dsv.len() ==> #[trigger] ctpl_sat_ok(final(self)@, dsv, doc_ids@, k)
                &&& forall|x: Seq<char>|
                    old(self)@.has_tdoc(x) ==> #[trigger] values_of(
                        final(self)@.template_labels,
                        x,
                    ) == values_of(old(self)@.template_labels, x)
                &&& forall|x: Seq<char>|
                    old(self)@.has_tdoc(x) ==> (#[trigger] final(self)@.has_tmeta(x) == old(
                    self,
                )@.has_tmeta(x) && (old(self)@.has_tmeta(x) ==> final(self)@.tmeta_named(x)
                    == old(self)@.tmeta_named(x)))
                &&& forall|x: Seq<char>|
                    old(self)@.has_tdoc(x) ==> #[trigger] values_of(
                        final(self)@.template_characters,
                        x,
                    ) == values_of(old(self)@.template_characters, x)
                &&& forall|x: Seq<char>|
                    old(self)@.has_tdoc(x) ==> #[trigger] values_of(
                        final(self)@.template_keywords,
                        x,
                    ) == values_of(old(self)@.template_keywords, x)
                &&& final(self)@.projects == old(self)@.projects
                &&& final(self)@.documents == old(self)@.documents
                &&& final(self)@.labels == old(self)@.labels
                &&& final(self)@.metadata == old(self)@.metadata
                &&& final(self)@.characters == old(self)@.characters
                &&& final(self)@.keywords == old(self)@.keywords
                &&& ctpl_created(old(self)@, final(self)@, template, t, doc_ids@)
            }),
    {
        let ghost pre = self@;
        // A fresh identity and a duplicate-free tag set.
        match self.find_template(&id) {
            Option::Some(ti) => {
                proof {
                    self@.lemma_template_at(ti as int);
                }
                return Err(Error::StorageFault);
            },
            Option::None => {},
        }
        match &template.tags {
            Option::Some(tg) => {
                if !crate::sat::values_unique(tg) {
                    return Err(Error::StorageFault);
                }
            },
            Option::None => {},
        }
        // The document batch, fully checked before anything is written.
        let documents_opt = template.documents;
        let ds_store: Vec<NewTemplateDocument> = match documents_opt {
            Option::Some(d0) => d0,
            Option::None => Vec::new(),
        };
        let ghost dsv = ds_store@;
        proof {
            assert(dsv =~= (match template.documents {
                Option::Some(d0) => d0@,
                Option::None => Seq::<NewTemplateDocument>::empty(),
            }));
        }
        let rows = match self.build_template_docs(&id, &ds_store, &doc_ids) {
            Ok(rows) => rows,
            Err(e) => {
                proof {
                    assert(spec_create_template_err(pre, template.tags, dsv, id@, doc_ids@)
                        is Some);
                }
                return Err(e);
            },
        };
        proof {
            assert(spec_create_template_err(pre, template.tags, dsv, id@, doc_ids@) is None);
        }
        let ghost rows_g = rows@;
        let tags_opt = template.tags;
        let trow = ProjectTemplate {
            id: id.clone(),
            name: template.name,
            description: template.description,
            structure: template.structure,
            author_name: template.author_name,
            author_email: template.author_email,
            preview_image: template.preview_image,
            category: template.category,
            difficulty: template.difficulty,
            estimated_time: template.estimated_time,
            created_at: now.clone(),
            last_modified: now,
        };
        let ghost trow_g = trow;
        let out = trow.clone();
        proof {
            assert(trow_g =~= created_template_row(template, id, trow_g.last_modified));
            assert(installable(pre, trow_g, rows_g)) by {
                assert forall|k: int| 0 <= k < rows_g.len() implies (
                #[trigger] rows_g[k]).template_id@ == trow_g.id@ by {
                    assert(ctpl_doc_ok(rows_g, dsv, doc_ids@, id, k));
                }
                assert forall|k: int| 0 <= k < rows_g.len() implies !pre.has_tdoc(
                    (#[trigger] rows_g[k]).id@,
                ) by {
                    assert(ctpl_doc_ok(rows_g, dsv, doc_ids@, id, k));
                    assert(rows_g[k].id@ == doc_ids@[k]@);
                }
                assert forall|k: int, l: int| 0 <= k < l < rows_g.len() implies rows_g[k].id@
                    != rows_g[l].id@ by {
                    assert(ctpl_doc_ok(rows_g, dsv, doc_ids@, id, k));
                    assert(ctpl_doc_ok(rows_g, dsv, doc_ids@, id, l));
                }
                assert forall|k: int| 0 <= k < rows_g.len() implies match (
                #[trigger] rows_g[k]).parent_id {
                    Option::Some(p) => exists|j: int| 0 <= j < k && rows_g[j].id@ == p@,
                    Option::None => true,
                } by {
                    assert(ctpl_doc_ok(rows_g, dsv, doc_ids@, id, k));
                    match rows_g[k].parent_id {
                        Option::Some(p) => {
                            match dsv[k].parent_id {
                                Option::Some(_) => {
                                    let j = choose|j: int|
                                        0 <= j < k && (#[trigger] doc_ids@[j])@
                                            == dsv[k].parent_id->0@ && opt_sv(
                                            rows_g[k].parent_id,
                                        ) == Option::Some(doc_ids@[j]@);
                                    assert(ctpl_doc_ok(rows_g, dsv, doc_ids@, id, j));
                                    assert(rows_g[j].id@ == p@);
                                },
                                Option::None => {
                                    assert(false);
                                },
                            }
                        },
                        Option::None => {},
                    }
                }
            }
        }
        match self.install_template(trow, rows) {
            Ok(()) => {},
            Err(_) => {
                proof {
                    assert(false);
                }
                return Err(Error::StorageFault);
            },
        }
        let ghost v_inst = self@;

        // The tag set.
        match &tags_opt {
            Option::Some(tg) => {
                proof {
                    assert(self@.has_template(id@)) by {
                        assert(self@.templates[self@.templates.len() - 1].id@ == id@);
                    }
                    self@.lemma_replace_tags_wf(id, tg@);
                    crate::sat::lemma_spec_replace_values(self@.template_tags, id, tg@);
                }
                match self.template_tags.replace_all(&id, tg) {
                    Ok(()) => {},
                    Err(_) => {
                        proof {
                            assert(false);
                        }
                    },
                }
            },
            Option::None => {
                proof {
                    crate::sat::lemma_values_of_absent(pre.template_tags, id@);
                }
            },
        }
        proof {
            assert(ctpl_static(pre, dsv, doc_ids@, rows_g, trow_g.id)) by {
                assert forall|k: int| 0 <= k < rows_g.len() implies #[trigger] ctpl_doc_ok(
                    rows_g,
                    dsv,
                    doc_ids@,
                    trow_g.id,
                    k,
                ) by {
                    assert(ctpl_doc_ok(rows_g, dsv, doc_ids@, id, k));
                    assert(trow_g.id == id);
                }
            }
            assert(ctpl_inv(pre, self@, dsv, doc_ids@, trow_g, rows_g, tags_opt, 0)) by {
                assert forall|x: Seq<char>| #[trigger] self@.has_tmeta(x) == (pre.has_tmeta(x)
                    || exists|t: int|
                    0 <= t < 0 && (#[trigger] doc_ids@[t])@ == x && dsv[t].metadata is Some) by {}
                assert forall|t: int| 0 <= t < dsv.len() implies (values_of(
                    self@.template_labels,
                    (#[trigger] doc_ids@[t])@,
                ) == Seq::<String>::empty() && values_of(
                    self@.template_characters,
                    doc_ids@[t]@,
                ) == Seq::<String>::empty() && values_of(self@.template_keywords, doc_ids@[t]@)
                    == Seq::<String>::empty()) by {
                    assert forall|i: int|
                        0 <= i < pre.template_labels.len() implies (
                    #[trigger] pre.template_labels[i]).owner@ != doc_ids@[t]@ by {
                        assert(pre.has_tdoc(pre.template_labels[i].owner@));
                    }
                    crate::sat::lemma_values_of_absent(pre.template_labels, doc_ids@[t]@);
                    assert forall|i: int|
                        0 <= i < pre.template_characters.len() implies (
                    #[trigger] pre.template_characters[i]).owner@ != doc_ids@[t]@ by {
                        assert(pre.has_tmeta(pre.template_characters[i].owner@));
                        if pre.has_tmeta(doc_ids@[t]@) {
                            let ix = choose|ix: int|
                                0 <= ix < pre.template_metadata.len()
                                    && pre.template_metadata[ix].document_id@ == doc_ids@[t]@;
                            assert(pre.has_tdoc(pre.template_metadata[ix].document_id@));
                        }
                    }
                    crate::sat::lemma_values_of_absent(pre.template_characters, doc_ids@[t]@);
                    assert forall|i: int|
                        0 <= i < pre.template_keywords.len() implies (
                    #[trigger] pre.template_keywords[i]).owner@ != doc_ids@[t]@ by {
                        assert(pre.has_tmeta(pre.template_keywords[i].owner@));
                        if pre.has_tmeta(doc_ids@[t]@) {
                            let ix = choose|ix: int|
                                0 <= ix < pre.template_metadata.len()
                                    && pre.template_metadata[ix].document_id@ == doc_ids@[t]@;
                            assert(pre.has_tdoc(pre.template_metadata[ix].document_id@));
                        }
                    }
                    crate::sat::lemma_values_of_absent(pre.template_keywords, doc_ids@[t]@);
                }
            }
        }

        // Each entry's satellite content.
        let mut k: usize = 0;
        while k < ds_store.len()
            invariant
                k <= ds_store@.len(),
                dsv == ds_store@,
                ctpl_static(pre, dsv, doc_ids@, rows_g, trow_g.id),
                ctpl_inv(pre, self@, dsv, doc_ids@, trow_g, rows_g, tags_opt, k as int),
            decreases ds_store.len() - k,
        {
            self.ctpl_step(
                &ds_store,
                &doc_ids,
                k,
                Ghost(pre),
                Ghost(trow_g),
                Ghost(rows_g),
                Ghost(tags_opt),
            );
            k = k + 1;
        }
        proof {
            let base = pre.template_documents.len() as int;
            assert(self@.template_documents.subrange(base, base + dsv.len() as int) =~= rows_g);
            assert forall|k0: int| 0 <= k0 < dsv.len() implies #[trigger] ctpl_doc_ok(
                self@.template_documents.subrange(base, base + dsv.len() as int),
                dsv,
                doc_ids@,
                out.id,
                k0,
            ) by {
                assert(ctpl_doc_ok(rows_g, dsv, doc_ids@, trow_g.id, k0));
                assert(out.id == trow_g.id);
            }
            assert(ctpl_created(pre, self@, template, out, doc_ids@));
        }
        Ok(out)
    }

    /// Creates a project template under fresh identities, stamped with the
    /// current time. The generated ids are random, so the one failure they
    /// can force, a collision, cannot be ruled out; on a valid request with
    /// free identities the creation succeeds as one unit.
    pub fn create_template(&mut self, template: crate::types::NewProjectTemplate) -> (r: Result<
        ProjectTemplate,
        Error,
    >)
        requires
            old(self)@.wf(),
        ensures
            final(self)@.wf(),
            r matches Err(e) ==> final(self)@ == old(self)@ && e == Error::StorageFault,
            (match template.tags {
                Option::Some(tg) => !crate::types::strs_sv(tg@).no_duplicates() ==> r is Err,
                Option::None => true,
            }),
            (match template.documents {
                Option::Some(d0) => (exists|k: int|
                    0 <= k < d0@.len() && #[trigger] ctpl_sets_dup(d0@[k])) ==> r is Err,
                Option::None => true,
            }),
            r matches Ok(t) ==> t == created_template_row(template, t.id, t.created_at)
                && final(self)@.templates == old(self)@.templates.push(t) && exists|
                ids: Seq<String>,
            |
                #[trigger] ctpl_created(old(self)@, final(self)@, template, t, ids),
    {
        let n = match &template.documents {
            Option::Some(d0) => d0.len(),
            Option::None => 0,
        };
        let mut doc_ids: Vec<String> = Vec::new();
        let mut m: usize = 0;
        while m < n
            invariant
                m <= n,
                doc_ids@.len() == m,
            decreases n - m,
        {
            doc_ids.push(fresh_id());
            m = m + 1;
        }
        let id = fresh_id();
        let now = get_current_timestamp();
        let ghost ids_g = doc_ids@;
        let ghost template_g = template;
        let ghost id_g = id;
        let r = self.create_template_with(template, id, doc_ids, now);
        proof {
            if r is Ok {
                assert(ctpl_created(old(self)@, self@, template_g, r->Ok_0, ids_g));
                assert(spec_create_template_err(
                    old(self)@,
                    template_g.tags,
                    (match template_g.documents {
                        Option::Some(d0) => d0@,
                        Option::None => Seq::<NewTemplateDocument>::empty(),
                    }),
                    id_g@,
                    ids_g,
                ) is None);
                match template_g.documents {
                    Option::Some(d0) => {
                        if exists|k: int| 0 <= k < d0@.len() && #[trigger] ctpl_sets_dup(d0@[k]) {
                            let kb = choose|k: int|
                                0 <= k < d0@.len() && #[trigger] ctpl_sets_dup(d0@[k]);
                            assert(ctpl_entry_bad(old(self)@, d0@, ids_g, kb));
                            assert(false);
                        }
                    },
                    Option::None => {},
                }
            }
        }
        r
    }
}

/// How a successful creation relates the store before and after, the
/// request, the returned template row and the batch identities: the
/// document rows, their satellite content, and the untouched remainder.
pub open spec fn ctpl_created(
    pre: StoreView,
    post: StoreView,
    template: crate::types::NewProjectTemplate,
    t: ProjectTemplate,
    ids: Seq<String>,
) -> bool {
    let dsv = (match template.documents {
        Option::Some(d0) => d0@,
        Option::None => Seq::<NewTemplateDocument>::empty(),
    });
    let base = pre.template_documents.len() as int;
    &&& ids.len() == dsv.len()
    &&& post.template_documents.len() == base + dsv.len()
    &&& forall|i: int|
        0 <= i < base ==> #[trigger] post.template_documents[i] == pre.template_documents[i]
    &&& forall|k: int|
        0 <= k < dsv.len() ==> #[trigger] ctpl_doc_ok(
            post.template_documents.subrange(base, base + dsv.len()),
            dsv,
            ids,
            t.id,
            k,
        )
    &&& values_of(post.template_tags, t.id@) == (match template.tags {
        Option::Some(tg) => tg@,
        Option::None => Seq::<String>::empty(),
    })
    &&& forall|k: int| 0 <= k < dsv.len() ==> #[trigger] ctpl_sat_ok(post, dsv, ids, k)
    &&& post.projects == pre.projects
    &&& post.documents == pre.documents
}

impl Store {
    /// Deletes a template: its row, its tag set, its document rows, and
    /// every metadata, label, character and keyword row those documents
    /// owned, as one unit. Deleting an unknown id is a no-op, as the
    /// underlying delete statement simply matches no row.
    #[verifier::rlimit(100)]
    #[verifier::spinoff_prover]
    pub fn delete_template(&mut self, id: &String) -> (r: Result<(), Error>)
        requires
            old(self)@.wf(),
        ensures
            final(self)@.wf(),
            r matches Ok(()) && final(self)@ == old(self)@.spec_delete_template(id@),
    {
        let ghost pre = self@;
        // The ids of the document rows being deleted.
        let mut dead: Vec<String> = Vec::new();
        let mut i: usize = 0;
        while i < self.template_documents.len()
            invariant
                i <= self.template_documents.len(),
                crate::types::strs_sv(dead@) == crate::templmodel::tdoc_ids(
                    tdocs_of(self@.template_documents.take(i as int), id@),
                ),
            decreases self.template_documents.len() - i,
        {
            proof {
                lemma_take_succ(self@.template_documents, i as int);
                lemma_tdocs_of_push(
                    self@.template_documents.take(i as int),
                    id@,
                    self@.template_documents[i as int],
                );
            }
            let ghost pd = tdocs_of(self@.template_documents.take(i as int), id@);
            if str_eq(&self.template_documents[i].template_id, id) {
                dead.push(self.template_documents[i].id.clone());
                proof {
                    assert(pd.push(self@.template_documents[i as int]).drop_last() =~= pd);
                    assert(crate::templmodel::tdoc_ids(
                        pd.push(self@.template_documents[i as int]),
                    ) == crate::templmodel::tdoc_ids(pd).push(
                        self@.template_documents[i as int].id@,
                    ));
                    assert(crate::types::strs_sv(dead@) =~= crate::templmodel::tdoc_ids(
                        tdocs_of(self@.template_documents.take(i + 1), id@),
                    ));
                }
            }
            i = i + 1;
        }
        proof {
            assert(self@.template_documents.take(self@.template_documents.len() as int)
                =~= self@.template_documents);
            assert(crate::types::strs_sv(dead@) == pre.template_tdoc_ids(id@));
        }
        let ghost deadv = crate::types::strs_sv(dead@);

        // Satellite rows of the dead documents, and the template's tag set.
        self.template_labels.retain_not_in(&dead);
        self.template_characters.retain_not_in(&dead);
        self.template_keywords.retain_not_in(&dead);
        self.template_tags.remove_owner(id);

        // Metadata rows of the dead documents.
        let mut ms: Vec<crate::types::TemplateMetadataRow> = Vec::new();
        let mut k: usize = 0;
        while k < self.template_metadata.len()
            invariant
                k <= self.template_metadata.len(),
                ms@ == crate::templmodel::tmeta_keep_alive(
                    self@.template_metadata.take(k as int),
                    deadv,
                ),
                deadv == crate::types::strs_sv(dead@),
            decreases self.template_metadata.len() - k,
        {
            proof {
                lemma_take_succ(self@.template_metadata, k as int);
                crate::templmodel::lemma_tmeta_keep_alive_push(
                    self@.template_metadata.take(k as int),
                    deadv,
                    self@.template_metadata[k as int],
                );
            }
            if !crate::types::vec_contains_string(&dead, &self.template_metadata[k].document_id) {
                ms.push(self.template_metadata[k].clone());
            }
            k = k + 1;
        }
        proof {
            assert(self@.template_metadata.take(self@.template_metadata.len() as int)
                =~= self@.template_metadata);
        }
        self.template_metadata = ms;

        // The document rows of the template.
        let mut ds: Vec<TemplateDocument> = Vec::new();
        let mut n: usize = 0;
        while n < self.template_documents.len()
            invariant
                n <= self.template_documents.len(),
                ds@ == crate::templmodel::tdocs_without_template(
                    self@.template_documents.take(n as int),
                    id@,
                ),
            decreases self.template_documents.len() - n,
        {
            proof {
                lemma_take_succ(self@.template_documents, n as int);
                crate::templmodel::lemma_tdocs_without_template_push(
                    self@.template_documents.take(n as int),
                    id@,
                    self@.template_documents[n as int],
                );
            }
            if !str_eq(&self.template_documents[n].template_id, id) {
                ds.push(self.template_documents[n].clone());
            }
            n = n + 1;
        }
        proof {
            assert(self@.template_documents.take(self@.template_documents.len() as int)
                =~= self@.template_documents);
        }
        self.template_documents = ds;

        // The template row itself.
        let mut ts: Vec<ProjectTemplate> = Vec::new();
        let mut m: usize = 0;
        while m < self.templates.len()
            invariant
                m <= self.templates.len(),
                ts@ == crate::templmodel::templates_without(self@.templates.take(m as int), id@),
            decreases self.templates.len() - m,
        {
            proof {
                lemma_take_succ(self@.templates, m as int);
                crate::templmodel::lemma_templates_without_push(
                    self@.templates.take(m as int),
                    id@,
                    self@.templates[m as int],
                );
            }
            if !str_eq(&self.templates[m].id, id) {
                ts.push(self.templates[m].clone());
            }
            m = m + 1;
        }
        proof {
            assert(self@.templates.take(self@.templates.len() as int) =~= self@.templates);
        }
        self.templates = ts;
        proof {
            assert(final(self)@ == pre.spec_delete_template(id@));
            pre.lemma_delete_template_wf(id@);
        }
        Ok(())
    }
}

} // verus!
