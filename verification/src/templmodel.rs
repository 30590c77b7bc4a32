//! What the template operations make of the template tables, row by row,
//! and why each keeps the store well formed.

use vstd::prelude::*;
use crate::sat::{spec_replace, lemma_spec_replace_values};
use crate::types::{strs_sv, ProjectTemplate, TemplateDocument, TemplateMetadataRow};
use crate::view::StoreView;

verus! {

/// The document rows of one template, in storage order.
pub open spec fn tdocs_of(ds: Seq<TemplateDocument>, tid: Seq<char>) -> Seq<TemplateDocument>
    decreases ds.len(),
{
    if ds.len() == 0 {
        Seq::empty()
    } else {
        let rest = tdocs_of(ds.drop_last(), tid);
        if ds.last().template_id@ == tid {
            rest.push(ds.last())
        } else {
            rest
        }
    }
}

/// One more row is selected exactly when it belongs to the template.
pub proof fn lemma_tdocs_of_push(ds: Seq<TemplateDocument>, tid: Seq<char>, x: TemplateDocument)
    ensures
        tdocs_of(ds.push(x), tid) == if x.template_id@ == tid {
            tdocs_of(ds, tid).push(x)
        } else {
            tdocs_of(ds, tid)
        },
{
    assert(ds.push(x).drop_last() =~= ds);
    assert(ds.push(x).last() == x);
}

/// What the selected rows of a template are: rows of the table that belong
/// to the template, all of them, in order; and, when the table stores every
/// parent before its child within the template, so does the selection.
#[verifier::rlimit(100)]
#[verifier::spinoff_prover]
pub proof fn lemma_tdocs_of_props(ds: Seq<TemplateDocument>, tid: Seq<char>)
    ensures
        forall|i: int|
            0 <= i < tdocs_of(ds, tid).len() ==> (#[trigger] tdocs_of(ds, tid)[i]).template_id@
                == tid && ds.contains(tdocs_of(ds, tid)[i]),
        forall|i: int|
            0 <= i < ds.len() && (#[trigger] ds[i]).template_id@ == tid ==> tdocs_of(
                ds,
                tid,
            ).contains(ds[i]),
        (forall|i: int|
            0 <= i < ds.len() ==> match (#[trigger] ds[i]).parent_id {
                Option::Some(p) => exists|j: int|
                    0 <= j < i && ds[j].id@ == p@ && ds[j].template_id@ == ds[i].template_id@,
                Option::None => true,
            }) ==> (forall|t: int|
            0 <= t < tdocs_of(ds, tid).len() ==> match (#[trigger] tdocs_of(ds, tid)[t]).parent_id {
                Option::Some(p) => exists|j: int| 0 <= j < t && tdocs_of(ds, tid)[j].id@ == p@,
                Option::None => true,
            }),
    decreases ds.len(),
{
    if ds.len() > 0 {
        let t0 = ds.drop_last();
        lemma_tdocs_of_props(t0, tid);
        let f = tdocs_of(ds, tid);
        let ft = tdocs_of(t0, tid);
        assert forall|i: int| 0 <= i < f.len() implies (#[trigger] f[i]).template_id@ == tid
            && ds.contains(f[i]) by {
            if i < ft.len() {
                assert(f[i] == ft[i]);
                assert(t0.contains(ft[i]));
                let k = t0.lemma_contains_to_index(ft[i]);
                assert(ds[k] == f[i]);
            } else {
                assert(f[i] == ds.last());
                assert(ds[ds.len() - 1] == f[i]);
            }
        }
        assert forall|i: int|
            0 <= i < ds.len() && (#[trigger] ds[i]).template_id@ == tid implies f.contains(
            ds[i],
        ) by {
            if i < ds.len() - 1 {
                assert(t0[i] == ds[i]);
                assert(ft.contains(ds[i]));
                let k = ft.lemma_contains_to_index(ds[i]);
                assert(f[k] == ds[i]);
            } else {
                assert(f[f.len() - 1] == ds[i]);
            }
        }
        if forall|i: int|
            0 <= i < ds.len() ==> match (#[trigger] ds[i]).parent_id {
                Option::Some(p) => exists|j: int|
                    0 <= j < i && ds[j].id@ == p@ && ds[j].template_id@ == ds[i].template_id@,
                Option::None => true,
            } {
            assert forall|i: int|
                0 <= i < t0.len() implies match (#[trigger] t0[i]).parent_id {
                Option::Some(p) => exists|j: int|
                    0 <= j < i && t0[j].id@ == p@ && t0[j].template_id@ == t0[i].template_id@,
                Option::None => true,
            } by {
                assert(t0[i] == ds[i]);
                match ds[i].parent_id {
                    Option::Some(p) => {
                        let j = choose|j: int|
                            0 <= j < i && ds[j].id@ == p@ && ds[j].template_id@
                                == ds[i].template_id@;
                        assert(t0[j] == ds[j]);
                    },
                    Option::None => {},
                }
            }
            assert forall|t: int|
                0 <= t < f.len() implies match (#[trigger] f[t]).parent_id {
                Option::Some(p) => exists|j: int| 0 <= j < t && f[j].id@ == p@,
                Option::None => true,
            } by {
                if t < ft.len() {
                    assert(f[t] == ft[t]);
                    match ft[t].parent_id {
                        Option::Some(p) => {
                            let j = choose|j: int| 0 <= j < t && ft[j].id@ == p@;
                            assert(f[j] == ft[j]);
                        },
                        Option::None => {},
                    }
                } else {
                    assert(f[t] == ds.last());
                    match ds.last().parent_id {
                        Option::Some(p) => {
                            let j0 = choose|j: int|
                                0 <= j < ds.len() - 1 && ds[j].id@ == p@ && ds[j].template_id@
                                    == ds[ds.len() - 1].template_id@;
                            assert(t0[j0] == ds[j0]);
                            assert(ft.contains(ds[j0]));
                            let j = ft.lemma_contains_to_index(ds[j0]);
                            assert(f[j].id@ == p@);
                        },
                        Option::None => {},
                    }
                }
            }
        }
    }
}

/// When the table's row ids are unique, so are the selected rows'.
pub proof fn lemma_tdocs_of_unique(ds: Seq<TemplateDocument>, tid: Seq<char>)
    requires
        forall|i: int, j: int| 0 <= i < j < ds.len() ==> ds[i].id@ != ds[j].id@,
    ensures
        forall|t: int, l: int|
            0 <= t < l < tdocs_of(ds, tid).len() ==> (#[trigger] tdocs_of(ds, tid)[t]).id@ != (
            #[trigger] tdocs_of(ds, tid)[l]).id@,
    decreases ds.len(),
{
    if ds.len() > 0 {
        let t0 = ds.drop_last();
        assert forall|i: int, j: int| 0 <= i < j < t0.len() implies t0[i].id@ != t0[j].id@ by {
            assert(t0[i] == ds[i] && t0[j] == ds[j]);
        }
        lemma_tdocs_of_unique(t0, tid);
        let f = tdocs_of(ds, tid);
        let ft = tdocs_of(t0, tid);
        assert forall|t: int, l: int| 0 <= t < l < f.len() implies (#[trigger] f[t]).id@ != (
        #[trigger] f[l]).id@ by {
            if l < ft.len() {
                assert(f[t] == ft[t] && f[l] == ft[l]);
            } else {
                assert(f[t] == ft[t] && f[l] == ds.last());
                lemma_tdocs_of_props(t0, tid);
                assert(t0.contains(ft[t]));
                let k = t0.lemma_contains_to_index(ft[t]);
                assert(ds[k] == f[t]);
                assert(ds[k].id@ != ds[ds.len() - 1].id@);
            }
        }
    }
}

impl StoreView {
    /// Adding a template row under a fresh id keeps the store well formed.
    pub proof fn lemma_with_template_preserves(self, t: ProjectTemplate)
        requires
            self.wf(),
            !self.has_template(t.id@),
        ensures
            (StoreView { templates: self.templates.push(t), ..self }).wf(),
            forall|x: Seq<char>|
                (StoreView { templates: self.templates.push(t), ..self }).has_template(x) == (
                self.has_template(x) || x == t.id@),
    {
        let s1 = StoreView { templates: self.templates.push(t), ..self };
        assert forall|i: int, j: int| 0 <= i < j < s1.templates.len() implies s1.templates[i].id@
            != s1.templates[j].id@ by {
            if j == s1.templates.len() - 1 {
                assert(s1.templates[i] == self.templates[i]);
                assert(self.templates[i].id@ != t.id@);
            }
        }
        assert forall|x: Seq<char>| s1.has_template(x) == (self.has_template(x) || x == t.id@) by {
            if self.has_template(x) {
                let i = choose|i: int|
                    0 <= i < self.templates.len() && self.templates[i].id@ == x;
                assert(s1.templates[i].id@ == x);
            }
            if x == t.id@ {
                assert(s1.templates[s1.templates.len() - 1].id@ == x);
            }
            if s1.has_template(x) && !self.has_template(x) && x != t.id@ {
                let i = choose|i: int| 0 <= i < s1.templates.len() && s1.templates[i].id@ == x;
                assert(i < self.templates.len() ==> self.templates[i].id@ == x);
            }
        }
        assert forall|i: int| 0 <= i < s1.template_documents.len() implies s1.has_template(
            #[trigger] s1.template_documents[i].template_id@,
        ) by {
            assert(self.has_template(self.template_documents[i].template_id@));
        }
        assert forall|i: int| 0 <= i < s1.template_tags.len() implies s1.has_template(
            #[trigger] s1.template_tags[i].owner@,
        ) by {
            assert(self.has_template(self.template_tags[i].owner@));
        }
    }

    /// Adding a template document row under a fresh id, for an existing
    /// template, whose parent (if any) is an already-stored row of the same
    /// template, keeps the store well formed.
    pub proof fn lemma_add_tdoc_wf(self, d: TemplateDocument)
        requires
            self.wf(),
            !self.has_tdoc(d.id@),
            self.has_template(d.template_id@),
            match d.parent_id {
                Option::Some(p) => exists|j: int|
                    0 <= j < self.template_documents.len()
                        && (#[trigger] self.template_documents[j]).id@ == p@
                        && self.template_documents[j].template_id@ == d.template_id@,
                Option::None => true,
            },
        ensures
            (StoreView { template_documents: self.template_documents.push(d), ..self }).wf(),
            forall|x: Seq<char>|
                (StoreView { template_documents: self.template_documents.push(d), ..self }).has_tdoc(
                    x,
                ) == (self.has_tdoc(x) || x == d.id@),
    {
        let s1 = StoreView { template_documents: self.template_documents.push(d), ..self };
        assert forall|i: int, j: int|
            0 <= i < j < s1.template_documents.len() implies s1.template_documents[i].id@
            != s1.template_documents[j].id@ by {
            if j == s1.template_documents.len() - 1 {
                assert(s1.template_documents[i] == self.template_documents[i]);
                assert(self.template_documents[i].id@ != d.id@);
            }
        }
        assert forall|x: Seq<char>| s1.has_tdoc(x) == (self.has_tdoc(x) || x == d.id@) by {
            if self.has_tdoc(x) {
                let i = choose|i: int|
                    0 <= i < self.template_documents.len() && self.template_documents[i].id@
                        == x;
                assert(s1.template_documents[i].id@ == x);
            }
            if x == d.id@ {
                assert(s1.template_documents[s1.template_documents.len() - 1].id@ == x);
            }
            if s1.has_tdoc(x) && !self.has_tdoc(x) && x != d.id@ {
                let i = choose|i: int|
                    0 <= i < s1.template_documents.len() && s1.template_documents[i].id@ == x;
                assert(i < self.template_documents.len() ==> self.template_documents[i].id@
                    == x);
            }
        }
        assert forall|i: int| 0 <= i < s1.template_documents.len() implies s1.has_template(
            #[trigger] s1.template_documents[i].template_id@,
        ) && (match s1.template_documents[i].parent_id {
            Option::Some(p) => exists|j: int|
                0 <= j < i && s1.template_documents[j].id@ == p@
                    && s1.template_documents[j].template_id@
                    == s1.template_documents[i].template_id@,
            Option::None => true,
        }) by {
            if i < self.template_documents.len() {
                assert(s1.template_documents[i] == self.template_documents[i]);
                assert(self.has_template(self.template_documents[i].template_id@));
                match self.template_documents[i].parent_id {
                    Option::Some(p) => {
                        let j = choose|j: int|
                            0 <= j < i && self.template_documents[j].id@ == p@
                                && self.template_documents[j].template_id@
                                == self.template_documents[i].template_id@;
                        assert(s1.template_documents[j] == self.template_documents[j]);
                    },
                    Option::None => {},
                }
            } else {
                assert(s1.template_documents[i] == d);
                match d.parent_id {
                    Option::Some(p) => {
                        let j = choose|j: int|
                            0 <= j < self.template_documents.len()
                                && self.template_documents[j].id@ == p@
                                && self.template_documents[j].template_id@ == d.template_id@;
                        assert(s1.template_documents[j] == self.template_documents[j]);
                    },
                    Option::None => {},
                }
            }
        }
        assert forall|i: int| 0 <= i < s1.template_labels.len() implies s1.has_tdoc(
            #[trigger] s1.template_labels[i].owner@,
        ) by {
            assert(self.has_tdoc(self.template_labels[i].owner@));
        }
        assert forall|i: int| 0 <= i < s1.template_metadata.len() implies s1.has_tdoc(
            #[trigger] s1.template_metadata[i].document_id@,
        ) by {
            assert(self.has_tdoc(self.template_metadata[i].document_id@));
        }
    }

    /// Replacing the tag set of an existing template with a duplicate-free
    /// one keeps the store well formed.
    pub proof fn lemma_replace_tags_wf(self, owner: String, values: Seq<String>)
        requires
            self.wf(),
            self.has_template(owner@),
            strs_sv(values).no_duplicates(),
        ensures
            (StoreView { template_tags: spec_replace(self.template_tags, owner, values), ..self }).wf(),
    {
        lemma_spec_replace_values(self.template_tags, owner, values);
        let t = StoreView {
            template_tags: spec_replace(self.template_tags, owner, values),
            ..self
        };
        assert forall|i: int| 0 <= i < t.template_tags.len() implies t.has_template(
            #[trigger] t.template_tags[i].owner@,
        ) by {
            if t.template_tags[i].owner@ != owner@ {
                assert(self.template_tags.contains(t.template_tags[i]));
                let k = self.template_tags.lemma_contains_to_index(t.template_tags[i]);
                assert(self.has_template(self.template_tags[k].owner@));
            }
        }
    }

    /// Replacing the label set of an existing template document keeps the
    /// store well formed.
    pub proof fn lemma_replace_tlabels_wf(self, owner: String, values: Seq<String>)
        requires
            self.wf(),
            self.has_tdoc(owner@),
            strs_sv(values).no_duplicates(),
        ensures
            (StoreView {
                template_labels: spec_replace(self.template_labels, owner, values),
                ..self
            }).wf(),
    {
        lemma_spec_replace_values(self.template_labels, owner, values);
        let t = StoreView {
            template_labels: spec_replace(self.template_labels, owner, values),
            ..self
        };
        assert forall|i: int| 0 <= i < t.template_labels.len() implies t.has_tdoc(
            #[trigger] t.template_labels[i].owner@,
        ) by {
            if t.template_labels[i].owner@ != owner@ {
                assert(self.template_labels.contains(t.template_labels[i]));
                let k = self.template_labels.lemma_contains_to_index(t.template_labels[i]);
                assert(self.has_tdoc(self.template_labels[k].owner@));
            }
        }
    }

    /// Adding a template metadata row for an existing template document that
    /// has none keeps the store well formed.
    pub proof fn lemma_add_tmeta_wf(self, m: TemplateMetadataRow)
        requires
            self.wf(),
            self.has_tdoc(m.document_id@),
            !self.has_tmeta(m.document_id@),
        ensures
            (StoreView { template_metadata: self.template_metadata.push(m), ..self }).wf(),
            forall|x: Seq<char>|
                (StoreView { template_metadata: self.template_metadata.push(m), ..self }).has_tmeta(
                    x,
                ) == (self.has_tmeta(x) || x == m.document_id@),
    {
        let t = StoreView { template_metadata: self.template_metadata.push(m), ..self };
        assert forall|i: int, j: int|
            0 <= i < j < t.template_metadata.len() implies t.template_metadata[i].document_id@
            != t.template_metadata[j].document_id@ by {
            if j == t.template_metadata.len() - 1 {
                assert(t.template_metadata[i] == self.template_metadata[i]);
                assert(self.template_metadata[i].document_id@ != m.document_id@);
            }
        }
        assert forall|x: Seq<char>| t.has_tmeta(x) == (self.has_tmeta(x) || x
            == m.document_id@) by {
            if self.has_tmeta(x) {
                let i = choose|i: int|
                    0 <= i < self.template_metadata.len()
                        && self.template_metadata[i].document_id@ == x;
                assert(t.template_metadata[i].document_id@ == x);
            }
            if x == m.document_id@ {
                assert(t.template_metadata[t.template_metadata.len() - 1].document_id@ == x);
            }
            if t.has_tmeta(x) && !self.has_tmeta(x) && x != m.document_id@ {
                let i = choose|i: int|
                    0 <= i < t.template_metadata.len() && t.template_metadata[i].document_id@
                        == x;
                assert(i < self.template_metadata.len()
                    ==> self.template_metadata[i].document_id@ == x);
            }
        }
        assert forall|i: int| 0 <= i < t.template_metadata.len() implies t.has_tdoc(
            #[trigger] t.template_metadata[i].document_id@,
        ) by {
            if i < self.template_metadata.len() {
                assert(t.template_metadata[i] == self.template_metadata[i]);
                assert(self.has_tdoc(self.template_metadata[i].document_id@));
            }
        }
        assert forall|i: int| 0 <= i < t.template_characters.len() implies t.has_tmeta(
            #[trigger] t.template_characters[i].owner@,
        ) by {
            assert(self.has_tmeta(self.template_characters[i].owner@));
        }
        assert forall|i: int| 0 <= i < t.template_keywords.len() implies t.has_tmeta(
            #[trigger] t.template_keywords[i].owner@,
        ) by {
            assert(self.has_tmeta(self.template_keywords[i].owner@));
        }
    }

    /// Replacing the character set of a template document that has a
    /// metadata row keeps the store well formed.
    pub proof fn lemma_replace_tchars_wf(self, owner: String, values: Seq<String>)
        requires
            self.wf(),
            self.has_tmeta(owner@),
            strs_sv(values).no_duplicates(),
        ensures
            (StoreView {
                template_characters: spec_replace(self.template_characters, owner, values),
                ..self
            }).wf(),
    {
        lemma_spec_replace_values(self.template_characters, owner, values);
        let t = StoreView {
            template_characters: spec_replace(self.template_characters, owner, values),
            ..self
        };
        assert forall|i: int| 0 <= i < t.template_characters.len() implies t.has_tmeta(
            #[trigger] t.template_characters[i].owner@,
        ) by {
            if t.template_characters[i].owner@ != owner@ {
                assert(self.template_characters.contains(t.template_characters[i]));
                let k = self.template_characters.lemma_contains_to_index(
                    t.template_characters[i],
                );
                assert(self.has_tmeta(self.template_characters[k].owner@));
            }
        }
    }

    /// Replacing the keyword set of a template document that has a metadata
    /// row keeps the store well formed.
    pub proof fn lemma_replace_tkeys_wf(self, owner: String, values: Seq<String>)
        requires
            self.wf(),
            self.has_tmeta(owner@),
            strs_sv(values).no_duplicates(),
        ensures
            (StoreView {
                template_keywords: spec_replace(self.template_keywords, owner, values),
                ..self
            }).wf(),
    {
        lemma_spec_replace_values(self.template_keywords, owner, values);
        let t = StoreView {
            template_keywords: spec_replace(self.template_keywords, owner, values),
            ..self
        };
        assert forall|i: int| 0 <= i < t.template_keywords.len() implies t.has_tmeta(
            #[trigger] t.template_keywords[i].owner@,
        ) by {
            if t.template_keywords[i].owner@ != owner@ {
                assert(self.template_keywords.contains(t.template_keywords[i]));
                let k = self.template_keywords.lemma_contains_to_index(t.template_keywords[i]);
                assert(self.has_tmeta(self.template_keywords[k].owner@));
            }
        }
    }
}

/// What one partial template patch makes of the matching row.
pub open spec fn patched_template(
    t: ProjectTemplate,
    u: crate::types::UpdateProjectTemplate,
    ts: String,
) -> ProjectTemplate {
    ProjectTemplate {
        id: t.id,
        name: (match u.name {
            Option::Some(n) => n,
            Option::None => t.name,
        }),
        description: (match u.description {
            Option::Some(d) => Option::Some(d),
            Option::None => t.description,
        }),
        structure: (match u.structure {
            Option::Some(v) => v,
            Option::None => t.structure,
        }),
        author_name: (match u.author_name {
            Option::Some(v) => Option::Some(v),
            Option::None => t.author_name,
        }),
        author_email: (match u.author_email {
            Option::Some(v) => Option::Some(v),
            Option::None => t.author_email,
        }),
        preview_image: (match u.preview_image {
            Option::Some(v) => Option::Some(v),
            Option::None => t.preview_image,
        }),
        category: (match u.category {
            Option::Some(v) => Option::Some(v),
            Option::None => t.category,
        }),
        difficulty: (match u.difficulty {
            Option::Some(v) => Option::Some(v),
            Option::None => t.difficulty,
        }),
        estimated_time: (match u.estimated_time {
            Option::Some(v) => Option::Some(v),
            Option::None => t.estimated_time,
        }),
        created_at: t.created_at,
        last_modified: ts,
    }
}

/// The template rows with the matching row patched.
pub open spec fn templates_patched(
    ts0: Seq<ProjectTemplate>,
    u: crate::types::UpdateProjectTemplate,
    ts: String,
) -> Seq<ProjectTemplate>
    decreases ts0.len(),
{
    if ts0.len() == 0 {
        Seq::empty()
    } else {
        let rest = templates_patched(ts0.drop_last(), u, ts);
        if ts0.last().id@ == u.id@ {
            rest.push(patched_template(ts0.last(), u, ts))
        } else {
            rest.push(ts0.last())
        }
    }
}

/// What the template patch does to each row.
pub proof fn lemma_templates_patched_props(
    ts0: Seq<ProjectTemplate>,
    u: crate::types::UpdateProjectTemplate,
    ts: String,
)
    ensures
        templates_patched(ts0, u, ts).len() == ts0.len(),
        forall|i: int|
            0 <= i < ts0.len() ==> templates_patched(ts0, u, ts)[i] == (if (
            #[trigger] ts0[i]).id@ == u.id@ {
                patched_template(ts0[i], u, ts)
            } else {
                ts0[i]
            }),
    decreases ts0.len(),
{
    if ts0.len() > 0 {
        lemma_templates_patched_props(ts0.drop_last(), u, ts);
        assert forall|i: int| 0 <= i < ts0.len() implies templates_patched(ts0, u, ts)[i] == (if (
        #[trigger] ts0[i]).id@ == u.id@ {
            patched_template(ts0[i], u, ts)
        } else {
            ts0[i]
        }) by {
            if i < ts0.len() - 1 {
                assert(ts0.drop_last()[i] == ts0[i]);
            }
        }
    }
}

impl StoreView {
    /// Any change that rewrites template rows without touching their ids
    /// keeps the store well formed and the template lookups unchanged.
    pub proof fn lemma_templates_pointwise_preserves(self, qs: Seq<ProjectTemplate>)
        requires
            self.wf(),
            qs.len() == self.templates.len(),
            forall|i: int| 0 <= i < qs.len() ==> (#[trigger] qs[i]).id@ == self.templates[i].id@,
        ensures
            (StoreView { templates: qs, ..self }).wf(),
            forall|x: Seq<char>|
                (StoreView { templates: qs, ..self }).has_template(x) == self.has_template(x),
    {
        let t = StoreView { templates: qs, ..self };
        assert forall|x: Seq<char>| t.has_template(x) == self.has_template(x) by {
            if self.has_template(x) {
                let i = choose|i: int|
                    0 <= i < self.templates.len() && self.templates[i].id@ == x;
                assert(t.templates[i].id@ == x);
            }
            if t.has_template(x) {
                let i = choose|i: int| 0 <= i < t.templates.len() && t.templates[i].id@ == x;
                assert(self.templates[i].id@ == x);
            }
        }
        assert forall|i: int, j: int| 0 <= i < j < t.templates.len() implies t.templates[i].id@
            != t.templates[j].id@ by {
            assert(t.templates[i].id@ == self.templates[i].id@);
            assert(t.templates[j].id@ == self.templates[j].id@);
        }
        assert forall|i: int| 0 <= i < t.template_documents.len() implies t.has_template(
            #[trigger] t.template_documents[i].template_id@,
        ) by {
            assert(self.has_template(self.template_documents[i].template_id@));
        }
        assert forall|i: int| 0 <= i < t.template_tags.len() implies t.has_template(
            #[trigger] t.template_tags[i].owner@,
        ) by {
            assert(self.has_template(self.template_tags[i].owner@));
        }
    }
}

/// Whether a template document stands in the sibling group of `parent`
/// (within one template, the group is keyed by the parent alone).
pub open spec fn in_tgroup(d: TemplateDocument, parent: Option<String>) -> bool {
    crate::types::opt_sv(d.parent_id) == crate::types::opt_sv(parent)
}

/// The largest position held in a template sibling group, `-1` if empty.
pub open spec fn tgroup_max_pos(ds: Seq<TemplateDocument>, parent: Option<String>) -> int
    decreases ds.len(),
{
    if ds.len() == 0 {
        -1
    } else {
        let m = tgroup_max_pos(ds.drop_last(), parent);
        if in_tgroup(ds.last(), parent) && ds.last().position > m {
            ds.last().position as int
        } else {
            m
        }
    }
}

/// One more row raises the maximum exactly when it is a higher group member.
pub proof fn lemma_tgroup_max_pos_push(
    ds: Seq<TemplateDocument>,
    parent: Option<String>,
    x: TemplateDocument,
)
    ensures
        tgroup_max_pos(ds.push(x), parent) == if in_tgroup(x, parent) && x.position
            > tgroup_max_pos(ds, parent) {
            x.position as int
        } else {
            tgroup_max_pos(ds, parent)
        },
{
    assert(ds.push(x).drop_last() =~= ds);
    assert(ds.push(x).last() == x);
}

/// The maximum never drops below `-1` and is bounded by the positions held.
pub proof fn lemma_tgroup_max_pos_bounds(ds: Seq<TemplateDocument>, parent: Option<String>)
    ensures
        tgroup_max_pos(ds, parent) >= -1,
        tgroup_max_pos(ds, parent) <= i32::MAX as int,
    decreases ds.len(),
{
    if ds.len() > 0 {
        lemma_tgroup_max_pos_bounds(ds.drop_last(), parent);
    }
}

/// The template rows that survive deleting one template.
pub open spec fn templates_without(ts: Seq<ProjectTemplate>, tid: Seq<char>) -> Seq<
    ProjectTemplate,
>
    decreases ts.len(),
{
    if ts.len() == 0 {
        Seq::empty()
    } else {
        let rest = templates_without(ts.drop_last(), tid);
        if ts.last().id@ != tid {
            rest.push(ts.last())
        } else {
            rest
        }
    }
}

/// The template document rows that survive deleting one template.
pub open spec fn tdocs_without_template(ds: Seq<TemplateDocument>, tid: Seq<char>) -> Seq<
    TemplateDocument,
>
    decreases ds.len(),
{
    if ds.len() == 0 {
        Seq::empty()
    } else {
        let rest = tdocs_without_template(ds.drop_last(), tid);
        if ds.last().template_id@ != tid {
            rest.push(ds.last())
        } else {
            rest
        }
    }
}

/// The template metadata rows that survive removing every template document
/// named in `dead`.
pub open spec fn tmeta_keep_alive(ms: Seq<TemplateMetadataRow>, dead: Seq<Seq<char>>) -> Seq<
    TemplateMetadataRow,
>
    decreases ms.len(),
{
    if ms.len() == 0 {
        Seq::empty()
    } else {
        let rest = tmeta_keep_alive(ms.drop_last(), dead);
        if !dead.contains(ms.last().document_id@) {
            rest.push(ms.last())
        } else {
            rest
        }
    }
}

/// The ids of the template document rows, in order.
pub open spec fn tdoc_ids(ds: Seq<TemplateDocument>) -> Seq<Seq<char>>
    decreases ds.len(),
{
    if ds.len() == 0 {
        Seq::empty()
    } else {
        tdoc_ids(ds.drop_last()).push(ds.last().id@)
    }
}

/// `tdoc_ids` lists exactly the id of each row, in order.
pub proof fn lemma_tdoc_ids(ds: Seq<TemplateDocument>)
    ensures
        tdoc_ids(ds).len() == ds.len(),
        forall|i: int| 0 <= i < ds.len() ==> tdoc_ids(ds)[i] == (#[trigger] ds[i]).id@,
    decreases ds.len(),
{
    if ds.len() > 0 {
        lemma_tdoc_ids(ds.drop_last());
        assert forall|i: int| 0 <= i < ds.len() implies tdoc_ids(ds)[i] == (
        #[trigger] ds[i]).id@ by {
            if i < ds.len() - 1 {
                assert(ds.drop_last()[i] == ds[i]);
            }
        }
    }
}

/// One more row survives exactly when it is another template.
pub proof fn lemma_templates_without_push(ts: Seq<ProjectTemplate>, tid: Seq<char>, x: ProjectTemplate)
    ensures
        templates_without(ts.push(x), tid) == if x.id@ != tid {
            templates_without(ts, tid).push(x)
        } else {
            templates_without(ts, tid)
        },
{
    assert(ts.push(x).drop_last() =~= ts);
    assert(ts.push(x).last() == x);
}

/// One more row survives exactly when it belongs to another template.
pub proof fn lemma_tdocs_without_template_push(
    ds: Seq<TemplateDocument>,
    tid: Seq<char>,
    x: TemplateDocument,
)
    ensures
        tdocs_without_template(ds.push(x), tid) == if x.template_id@ != tid {
            tdocs_without_template(ds, tid).push(x)
        } else {
            tdocs_without_template(ds, tid)
        },
{
    assert(ds.push(x).drop_last() =~= ds);
    assert(ds.push(x).last() == x);
}

/// One more row survives exactly when its document is not dead.
pub proof fn lemma_tmeta_keep_alive_push(
    ms: Seq<TemplateMetadataRow>,
    dead: Seq<Seq<char>>,
    x: TemplateMetadataRow,
)
    ensures
        tmeta_keep_alive(ms.push(x), dead) == if !dead.contains(x.document_id@) {
            tmeta_keep_alive(ms, dead).push(x)
        } else {
            tmeta_keep_alive(ms, dead)
        },
{
    assert(ms.push(x).drop_last() =~= ms);
    assert(ms.push(x).last() == x);
}

/// What the surviving template rows are: the other templates, all of them,
/// ids still unique.
pub proof fn lemma_templates_without_props(ts: Seq<ProjectTemplate>, tid: Seq<char>)
    ensures
        forall|i: int|
            0 <= i < templates_without(ts, tid).len() ==> (#[trigger] templates_without(
                ts,
                tid,
            )[i]).id@ != tid && ts.contains(templates_without(ts, tid)[i]),
        forall|i: int|
            0 <= i < ts.len() && (#[trigger] ts[i]).id@ != tid ==> templates_without(
                ts,
                tid,
            ).contains(ts[i]),
        (forall|i: int, j: int| 0 <= i < j < ts.len() ==> ts[i].id@ != ts[j].id@) ==> (forall|
            i: int,
            j: int,
        |
            0 <= i < j < templates_without(ts, tid).len() ==> templates_without(ts, tid)[i].id@
                != templates_without(ts, tid)[j].id@),
    decreases ts.len(),
{
    if ts.len() > 0 {
        let t0 = ts.drop_last();
        lemma_templates_without_props(t0, tid);
        let f = templates_without(ts, tid);
        let ft = templates_without(t0, tid);
        assert forall|i: int| 0 <= i < f.len() implies (#[trigger] f[i]).id@ != tid
            && ts.contains(f[i]) by {
            if i < ft.len() {
                assert(f[i] == ft[i]);
                assert(t0.contains(ft[i]));
                let k = t0.lemma_contains_to_index(ft[i]);
                assert(ts[k] == f[i]);
            } else {
                assert(f[i] == ts.last());
                assert(ts[ts.len() - 1] == f[i]);
            }
        }
        assert forall|i: int| 0 <= i < ts.len() && (#[trigger] ts[i]).id@ != tid implies f.contains(
            ts[i],
        ) by {
            if i < ts.len() - 1 {
                assert(t0[i] == ts[i]);
                assert(ft.contains(ts[i]));
                let k = ft.lemma_contains_to_index(ts[i]);
                assert(f[k] == ts[i]);
            } else {
                assert(f[f.len() - 1] == ts[i]);
            }
        }
        if forall|i: int, j: int| 0 <= i < j < ts.len() ==> ts[i].id@ != ts[j].id@ {
            assert forall|i: int, j: int| 0 <= i < j < t0.len() implies t0[i].id@ != t0[j].id@ by {
                assert(t0[i] == ts[i] && t0[j] == ts[j]);
            }
            assert forall|i: int, j: int| 0 <= i < j < f.len() implies f[i].id@ != f[j].id@ by {
                if j < ft.len() {
                    assert(f[i] == ft[i] && f[j] == ft[j]);
                } else {
                    assert(f[i] == ft[i] && f[j] == ts.last());
                    assert(ft.contains(ft[i]));
                    let k = t0.lemma_contains_to_index(ft[i]);
                    assert(ts[k] == f[i]);
                    assert(ts[k].id@ != ts[ts.len() - 1].id@);
                }
            }
        }
    }
}

/// What the surviving template document rows are: rows of other templates,
/// all of them, ids still unique, and parents still stored earlier within
/// their template.
#[verifier::rlimit(100)]
#[verifier::spinoff_prover]
pub proof fn lemma_tdocs_without_template_props(ds: Seq<TemplateDocument>, tid: Seq<char>)
    ensures
        forall|i: int|
            0 <= i < tdocs_without_template(ds, tid).len() ==> (#[trigger] tdocs_without_template(
                ds,
                tid,
            )[i]).template_id@ != tid && ds.contains(tdocs_without_template(ds, tid)[i]),
        forall|i: int|
            0 <= i < ds.len() && (#[trigger] ds[i]).template_id@ != tid
                ==> tdocs_without_template(ds, tid).contains(ds[i]),
        (forall|i: int, j: int| 0 <= i < j < ds.len() ==> ds[i].id@ != ds[j].id@) ==> (forall|
            i: int,
            j: int,
        |
            0 <= i < j < tdocs_without_template(ds, tid).len() ==> tdocs_without_template(
                ds,
                tid,
            )[i].id@ != tdocs_without_template(ds, tid)[j].id@),
        (forall|i: int|
            0 <= i < ds.len() ==> match (#[trigger] ds[i]).parent_id {
                Option::Some(p) => exists|j: int|
                    0 <= j < i && ds[j].id@ == p@ && ds[j].template_id@ == ds[i].template_id@,
                Option::None => true,
            }) ==> (forall|t: int|
            0 <= t < tdocs_without_template(ds, tid).len() ==> match (
            #[trigger] tdocs_without_template(ds, tid)[t]).parent_id {
                Option::Some(p) => exists|j: int|
                    0 <= j < t && tdocs_without_template(ds, tid)[j].id@ == p@
                        && tdocs_without_template(ds, tid)[j].template_id@
                        == tdocs_without_template(ds, tid)[t].template_id@,
                Option::None => true,
            }),
    decreases ds.len(),
{
    if ds.len() > 0 {
        let t0 = ds.drop_last();
        lemma_tdocs_without_template_props(t0, tid);
        let f = tdocs_without_template(ds, tid);
        let ft = tdocs_without_template(t0, tid);
        assert forall|i: int| 0 <= i < f.len() implies (#[trigger] f[i]).template_id@ != tid
            && ds.contains(f[i]) by {
            if i < ft.len() {
                assert(f[i] == ft[i]);
                assert(t0.contains(ft[i]));
                let k = t0.lemma_contains_to_index(ft[i]);
                assert(ds[k] == f[i]);
            } else {
                assert(f[i] == ds.last());
                assert(ds[ds.len() - 1] == f[i]);
            }
        }
        assert forall|i: int|
            0 <= i < ds.len() && (#[trigger] ds[i]).template_id@ != tid implies f.contains(
            ds[i],
        ) by {
            if i < ds.len() - 1 {
                assert(t0[i] == ds[i]);
                assert(ft.contains(ds[i]));
                let k = ft.lemma_contains_to_index(ds[i]);
                assert(f[k] == ds[i]);
            } else {
                assert(f[f.len() - 1] == ds[i]);
            }
        }
        if forall|i: int, j: int| 0 <= i < j < ds.len() ==> ds[i].id@ != ds[j].id@ {
            assert forall|i: int, j: int| 0 <= i < j < t0.len() implies t0[i].id@ != t0[j].id@ by {
                assert(t0[i] == ds[i] && t0[j] == ds[j]);
            }
            assert forall|i: int, j: int| 0 <= i < j < f.len() implies f[i].id@ != f[j].id@ by {
                if j < ft.len() {
                    assert(f[i] == ft[i] && f[j] == ft[j]);
                } else {
                    assert(f[i] == ft[i] && f[j] == ds.last());
                    assert(ft.contains(ft[i]));
                    let k = t0.lemma_contains_to_index(ft[i]);
                    assert(ds[k] == f[i]);
                    assert(ds[k].id@ != ds[ds.len() - 1].id@);
                }
            }
        }
        if forall|i: int|
            0 <= i < ds.len() ==> match (#[trigger] ds[i]).parent_id {
                Option::Some(p) => exists|j: int|
                    0 <= j < i && ds[j].id@ == p@ && ds[j].template_id@ == ds[i].template_id@,
                Option::None => true,
            } {
            assert forall|i: int|
                0 <= i < t0.len() implies match (#[trigger] t0[i]).parent_id {
                Option::Some(p) => exists|j: int|
                    0 <= j < i && t0[j].id@ == p@ && t0[j].template_id@ == t0[i].template_id@,
                Option::None => true,
            } by {
                assert(t0[i] == ds[i]);
                match ds[i].parent_id {
                    Option::Some(p) => {
                        let j = choose|j: int|
                            0 <= j < i && ds[j].id@ == p@ && ds[j].template_id@
                                == ds[i].template_id@;
                        assert(t0[j] == ds[j]);
                    },
                    Option::None => {},
                }
            }
            assert forall|t: int|
                0 <= t < f.len() implies match (#[trigger] f[t]).parent_id {
                Option::Some(p) => exists|j: int|
                    0 <= j < t && f[j].id@ == p@ && f[j].template_id@ == f[t].template_id@,
                Option::None => true,
            } by {
                if t < ft.len() {
                    assert(f[t] == ft[t]);
                    match ft[t].parent_id {
                        Option::Some(p) => {
                            let j = choose|j: int|
                                0 <= j < t && ft[j].id@ == p@ && ft[j].template_id@
                                    == ft[t].template_id@;
                            assert(f[j] == ft[j]);
                        },
                        Option::None => {},
                    }
                } else {
                    assert(f[t] == ds.last());
                    match ds.last().parent_id {
                        Option::Some(p) => {
                            let j0 = choose|j: int|
                                0 <= j < ds.len() - 1 && ds[j].id@ == p@ && ds[j].template_id@
                                    == ds[ds.len() - 1].template_id@;
                            assert(t0[j0] == ds[j0]);
                            assert(t0[j0].template_id@ != tid);
                            assert(ft.contains(ds[j0]));
                            let j = ft.lemma_contains_to_index(ds[j0]);
                            assert(f[j].id@ == p@ && f[j].template_id@ == f[t].template_id@);
                        },
                        Option::None => {},
                    }
                }
            }
        }
    }
}

/// What the surviving template metadata rows are: rows of live template
/// documents, all of them, document ids still unique.
pub proof fn lemma_tmeta_keep_alive_props(ms: Seq<TemplateMetadataRow>, dead: Seq<Seq<char>>)
    ensures
        forall|i: int|
            0 <= i < tmeta_keep_alive(ms, dead).len() ==> !dead.contains(
                (#[trigger] tmeta_keep_alive(ms, dead)[i]).document_id@,
            ) && ms.contains(tmeta_keep_alive(ms, dead)[i]),
        forall|i: int|
            0 <= i < ms.len() && !dead.contains((#[trigger] ms[i]).document_id@)
                ==> tmeta_keep_alive(ms, dead).contains(ms[i]),
        (forall|i: int, j: int|
            0 <= i < j < ms.len() ==> ms[i].document_id@ != ms[j].document_id@) ==> (forall|
            i: int,
            j: int,
        |
            0 <= i < j < tmeta_keep_alive(ms, dead).len() ==> tmeta_keep_alive(
                ms,
                dead,
            )[i].document_id@ != tmeta_keep_alive(ms, dead)[j].document_id@),
    decreases ms.len(),
{
    if ms.len() > 0 {
        let t0 = ms.drop_last();
        lemma_tmeta_keep_alive_props(t0, dead);
        let f = tmeta_keep_alive(ms, dead);
        let ft = tmeta_keep_alive(t0, dead);
        assert forall|i: int| 0 <= i < f.len() implies !dead.contains(
            (#[trigger] f[i]).document_id@,
        ) && ms.contains(f[i]) by {
            if i < ft.len() {
                assert(f[i] == ft[i]);
                assert(t0.contains(ft[i]));
                let k = t0.lemma_contains_to_index(ft[i]);
                assert(ms[k] == f[i]);
            } else {
                assert(f[i] == ms.last());
                assert(ms[ms.len() - 1] == f[i]);
            }
        }
        assert forall|i: int|
            0 <= i < ms.len() && !dead.contains((#[trigger] ms[i]).document_id@) implies f.contains(
            ms[i],
        ) by {
            if i < ms.len() - 1 {
                assert(t0[i] == ms[i]);
                assert(ft.contains(ms[i]));
                let k = ft.lemma_contains_to_index(ms[i]);
                assert(f[k] == ms[i]);
            } else {
                assert(f[f.len() - 1] == ms[i]);
            }
        }
        if forall|i: int, j: int| 0 <= i < j < ms.len() ==> ms[i].document_id@
            != ms[j].document_id@ {
            assert forall|i: int, j: int| 0 <= i < j < t0.len() implies t0[i].document_id@
                != t0[j].document_id@ by {
                assert(t0[i] == ms[i] && t0[j] == ms[j]);
            }
            assert forall|i: int, j: int| 0 <= i < j < f.len() implies f[i].document_id@
                != f[j].document_id@ by {
                if j < ft.len() {
                    assert(f[i] == ft[i] && f[j] == ft[j]);
                } else {
                    assert(f[i] == ft[i] && f[j] == ms.last());
                    assert(ft.contains(ft[i]));
                    let k = t0.lemma_contains_to_index(ft[i]);
                    assert(ms[k] == f[i]);
                    assert(ms[k].document_id@ != ms[ms.len() - 1].document_id@);
                }
            }
        }
    }
}

impl StoreView {
    /// The document rows of one template, as selected by the delete.
    pub open spec fn template_tdoc_ids(self, tid: Seq<char>) -> Seq<Seq<char>> {
        tdoc_ids(tdocs_of(self.template_documents, tid))
    }

    /// The state after deleting a template: its row, its tag set, its
    /// document rows, and every metadata, label, character and keyword row
    /// those documents owned.
    pub open spec fn spec_delete_template(self, tid: Seq<char>) -> StoreView {
        let dead = self.template_tdoc_ids(tid);
        StoreView {
            templates: templates_without(self.templates, tid),
            template_tags: crate::sat::sat_without_owner(self.template_tags, tid),
            template_documents: tdocs_without_template(self.template_documents, tid),
            template_labels: crate::sat::sat_keep_alive(self.template_labels, dead),
            template_metadata: tmeta_keep_alive(self.template_metadata, dead),
            template_characters: crate::sat::sat_keep_alive(self.template_characters, dead),
            template_keywords: crate::sat::sat_keep_alive(self.template_keywords, dead),
            ..self
        }
    }

    /// An id in the dead list names a document of the template being
    /// deleted.
    pub proof fn lemma_tdead_id(self, tid: Seq<char>, x: Seq<char>)
        requires
            self.tdoc_ids_unique(),
            self.template_tdoc_ids(tid).contains(x),
        ensures
            self.has_tdoc(x),
            self.tdoc_named(x).template_id@ == tid,
    {
        let pd = tdocs_of(self.template_documents, tid);
        lemma_tdoc_ids(pd);
        lemma_tdocs_of_props(self.template_documents, tid);
        let k = self.template_tdoc_ids(tid).lemma_contains_to_index(x);
        assert(pd[k].id@ == x);
        assert(self.template_documents.contains(pd[k]) && pd[k].template_id@ == tid);
        let l = self.template_documents.lemma_contains_to_index(pd[k]);
        self.lemma_tdoc_at(l);
    }

    /// A document of the template being deleted has its id in the dead
    /// list.
    pub proof fn lemma_tdoc_of_template_dead(self, tid: Seq<char>, i: int)
        requires
            0 <= i < self.template_documents.len(),
            self.template_documents[i].template_id@ == tid,
        ensures
            self.template_tdoc_ids(tid).contains(self.template_documents[i].id@),
    {
        lemma_tdocs_of_props(self.template_documents, tid);
        let pd = tdocs_of(self.template_documents, tid);
        assert(pd.contains(self.template_documents[i]));
        let k = pd.lemma_contains_to_index(self.template_documents[i]);
        lemma_tdoc_ids(pd);
        assert(self.template_tdoc_ids(tid)[k] == self.template_documents[i].id@);
        assert(self.template_tdoc_ids(tid).contains(self.template_documents[i].id@));
    }

    /// Deleting a template and everything it owns keeps the store well
    /// formed.
    #[verifier::rlimit(100)]
    #[verifier::spinoff_prover]
    pub proof fn lemma_delete_template_wf(self, tid: Seq<char>)
        requires
            self.wf(),
        ensures
            self.spec_delete_template(tid).wf(),
    {
        let t = self.spec_delete_template(tid);
        let dead = self.template_tdoc_ids(tid);
        lemma_templates_without_props(self.templates, tid);
        lemma_tdocs_without_template_props(self.template_documents, tid);
        crate::sat::lemma_sat_without_owner_props(self.template_tags, tid);
        crate::sat::lemma_sat_keep_alive_props(self.template_labels, dead);
        lemma_tmeta_keep_alive_props(self.template_metadata, dead);
        crate::sat::lemma_sat_keep_alive_props(self.template_characters, dead);
        crate::sat::lemma_sat_keep_alive_props(self.template_keywords, dead);

        // A surviving template id is still found.
        assert forall|x: Seq<char>| self.has_template(x) && x != tid implies t.has_template(
            x,
        ) by {
            let i = choose|i: int|
                0 <= i < self.templates.len() && self.templates[i].id@ == x;
            assert(t.templates.contains(self.templates[i]));
            let k = t.templates.lemma_contains_to_index(self.templates[i]);
            assert(t.templates[k].id@ == x);
        }
        // A surviving template document id is still found.
        assert forall|x: Seq<char>| self.has_tdoc(x) && !dead.contains(x) implies t.has_tdoc(
            x,
        ) by {
            let i = choose|i: int|
                0 <= i < self.template_documents.len() && self.template_documents[i].id@ == x;
            if self.template_documents[i].template_id@ == tid {
                self.lemma_tdoc_of_template_dead(tid, i);
                assert(false);
            }
            assert(t.template_documents.contains(self.template_documents[i]));
            let k = t.template_documents.lemma_contains_to_index(self.template_documents[i]);
            assert(t.template_documents[k].id@ == x);
        }
        // A surviving template metadata row is still found.
        assert forall|x: Seq<char>| self.has_tmeta(x) && !dead.contains(x) implies t.has_tmeta(
            x,
        ) by {
            let i = choose|i: int|
                0 <= i < self.template_metadata.len() && self.template_metadata[i].document_id@
                    == x;
            assert(t.template_metadata.contains(self.template_metadata[i]));
            let k = t.template_metadata.lemma_contains_to_index(self.template_metadata[i]);
            assert(t.template_metadata[k].document_id@ == x);
        }

        // Surviving template documents still point at live templates, and
        // the parent-before-child order within a template survives.
        assert forall|i: int| 0 <= i < t.template_documents.len() implies t.has_template(
            #[trigger] t.template_documents[i].template_id@,
        ) by {
            let d = t.template_documents[i];
            assert(self.template_documents.contains(d) && d.template_id@ != tid);
            let k = self.template_documents.lemma_contains_to_index(d);
            assert(self.has_template(self.template_documents[k].template_id@));
        }

        // Tags, labels, metadata, characters and keywords all keep live
        // owners.
        assert forall|i: int| 0 <= i < t.template_tags.len() implies t.has_template(
            #[trigger] t.template_tags[i].owner@,
        ) by {
            let r = t.template_tags[i];
            assert(self.template_tags.contains(r) && r.owner@ != tid);
            let k = self.template_tags.lemma_contains_to_index(r);
            assert(self.has_template(self.template_tags[k].owner@));
        }
        assert forall|i: int| 0 <= i < t.template_labels.len() implies t.has_tdoc(
            #[trigger] t.template_labels[i].owner@,
        ) by {
            let r = t.template_labels[i];
            assert(self.template_labels.contains(r) && !dead.contains(r.owner@));
            let k = self.template_labels.lemma_contains_to_index(r);
            assert(self.has_tdoc(self.template_labels[k].owner@));
        }
        assert forall|i: int| 0 <= i < t.template_metadata.len() implies t.has_tdoc(
            #[trigger] t.template_metadata[i].document_id@,
        ) by {
            let m = t.template_metadata[i];
            assert(self.template_metadata.contains(m) && !dead.contains(m.document_id@));
            let k = self.template_metadata.lemma_contains_to_index(m);
            assert(self.has_tdoc(self.template_metadata[k].document_id@));
        }
        assert forall|i: int| 0 <= i < t.template_characters.len() implies t.has_tmeta(
            #[trigger] t.template_characters[i].owner@,
        ) by {
            let r = t.template_characters[i];
            assert(self.template_characters.contains(r) && !dead.contains(r.owner@));
            let k = self.template_characters.lemma_contains_to_index(r);
            assert(self.has_tmeta(self.template_characters[k].owner@));
        }
        assert forall|i: int| 0 <= i < t.template_keywords.len() implies t.has_tmeta(
            #[trigger] t.template_keywords[i].owner@,
        ) by {
            let r = t.template_keywords[i];
            assert(self.template_keywords.contains(r) && !dead.contains(r.owner@));
            let k = self.template_keywords.lemma_contains_to_index(r);
            assert(self.has_tmeta(self.template_keywords[k].owner@));
        }

        // The document side is untouched.
        assert(t.projects == self.projects);
        assert(t.documents == self.documents);
        assert(t.metadata == self.metadata);
        assert forall|x: Seq<char>| t.has_project(x) == self.has_project(x) by {}
        assert forall|x: Seq<char>| t.has_doc(x) == self.has_doc(x) by {}
        assert forall|x: Seq<char>| t.has_meta(x) == self.has_meta(x) by {}
    }
}

} // verus!
