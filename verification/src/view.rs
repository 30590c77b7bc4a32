//! The mathematical state of the store: one sequence of rows per table, with
//! the well-formedness invariant every operation preserves.

use vstd::prelude::*;
use crate::sat::{sat_keep_alive, sat_rows_unique, values_of, SatRow};
use crate::types::{
    UpdateProject,
    Document, DocumentMetadata, DocumentWithMetadata, MetadataRow, Project, ProjectTemplate,
    TemplateDocument, TemplateDocumentMetadata, TemplateDocumentWithMetadata, TemplateMetadataRow,
};

verus! {

/// The abstract contents of the store, table by table.
#[verifier::ext_equal]
pub ghost struct StoreView {
    pub projects: Seq<Project>,
    pub documents: Seq<Document>,
    pub labels: Seq<SatRow>,
    pub metadata: Seq<MetadataRow>,
    pub characters: Seq<SatRow>,
    pub keywords: Seq<SatRow>,
    pub templates: Seq<ProjectTemplate>,
    pub template_tags: Seq<SatRow>,
    pub template_documents: Seq<TemplateDocument>,
    pub template_labels: Seq<SatRow>,
    pub template_metadata: Seq<TemplateMetadataRow>,
    pub template_characters: Seq<SatRow>,
    pub template_keywords: Seq<SatRow>,
}

impl StoreView {
    /// The state with no rows at all.
    pub open spec fn empty() -> StoreView {
        StoreView {
            projects: Seq::empty(),
            documents: Seq::empty(),
            labels: Seq::empty(),
            metadata: Seq::empty(),
            characters: Seq::empty(),
            keywords: Seq::empty(),
            templates: Seq::empty(),
            template_tags: Seq::empty(),
            template_documents: Seq::empty(),
            template_labels: Seq::empty(),
            template_metadata: Seq::empty(),
            template_characters: Seq::empty(),
            template_keywords: Seq::empty(),
        }
    }

    /// Whether a project row with this id exists.
    pub open spec fn has_project(self, id: Seq<char>) -> bool {
        exists|i: int| 0 <= i < self.projects.len() && self.projects[i].id@ == id
    }

    /// The project row with this id (meaningful when it exists and ids are
    /// unique).
    pub open spec fn project_named(self, id: Seq<char>) -> Project {
        self.projects[choose|i: int| 0 <= i < self.projects.len() && self.projects[i].id@ == id]
    }

    /// Whether a document row with this id exists.
    pub open spec fn has_doc(self, id: Seq<char>) -> bool {
        exists|i: int| 0 <= i < self.documents.len() && self.documents[i].id@ == id
    }

    /// The document row with this id.
    pub open spec fn doc_named(self, id: Seq<char>) -> Document {
        self.documents[choose|i: int| 0 <= i < self.documents.len() && self.documents[i].id@ == id]
    }

    /// Whether a metadata row for this document exists.
    pub open spec fn has_meta(self, doc_id: Seq<char>) -> bool {
        exists|i: int| 0 <= i < self.metadata.len() && self.metadata[i].document_id@ == doc_id
    }

    /// The metadata row of this document.
    pub open spec fn meta_named(self, doc_id: Seq<char>) -> MetadataRow {
        self.metadata[choose|i: int|
            0 <= i < self.metadata.len() && self.metadata[i].document_id@ == doc_id]
    }

    /// Whether a template row with this id exists.
    pub open spec fn has_template(self, id: Seq<char>) -> bool {
        exists|i: int| 0 <= i < self.templates.len() && self.templates[i].id@ == id
    }

    /// The template row with this id.
    pub open spec fn template_named(self, id: Seq<char>) -> ProjectTemplate {
        self.templates[choose|i: int|
            0 <= i < self.templates.len() && self.templates[i].id@ == id]
    }

    /// Whether a template document row with this id exists.
    pub open spec fn has_tdoc(self, id: Seq<char>) -> bool {
        exists|i: int|
            0 <= i < self.template_documents.len() && self.template_documents[i].id@ == id
    }

    /// The template document row with this id.
    pub open spec fn tdoc_named(self, id: Seq<char>) -> TemplateDocument {
        self.template_documents[choose|i: int|
            0 <= i < self.template_documents.len() && self.template_documents[i].id@ == id]
    }

    /// Whether a template metadata row for this template document exists.
    pub open spec fn has_tmeta(self, doc_id: Seq<char>) -> bool {
        exists|i: int|
            0 <= i < self.template_metadata.len() && self.template_metadata[i].document_id@
                == doc_id
    }

    /// The template metadata row of this template document.
    pub open spec fn tmeta_named(self, doc_id: Seq<char>) -> TemplateMetadataRow {
        self.template_metadata[choose|i: int|
            0 <= i < self.template_metadata.len() && self.template_metadata[i].document_id@
                == doc_id]
    }

    /// Project ids are unique.
    pub open spec fn project_ids_unique(self) -> bool {
        forall|i: int, j: int|
            0 <= i < j < self.projects.len() ==> self.projects[i].id@ != self.projects[j].id@
    }

    /// Document ids are unique.
    pub open spec fn doc_ids_unique(self) -> bool {
        forall|i: int, j: int|
            0 <= i < j < self.documents.len() ==> self.documents[i].id@ != self.documents[j].id@
    }

    /// At most one metadata row per document.
    pub open spec fn meta_ids_unique(self) -> bool {
        forall|i: int, j: int|
            0 <= i < j < self.metadata.len() ==> self.metadata[i].document_id@
                != self.metadata[j].document_id@
    }

    /// Template ids are unique.
    pub open spec fn template_ids_unique(self) -> bool {
        forall|i: int, j: int|
            0 <= i < j < self.templates.len() ==> self.templates[i].id@ != self.templates[j].id@
    }

    /// Template document ids are unique.
    pub open spec fn tdoc_ids_unique(self) -> bool {
        forall|i: int, j: int|
            0 <= i < j < self.template_documents.len() ==> self.template_documents[i].id@
                != self.template_documents[j].id@
    }

    /// At most one template metadata row per template document.
    pub open spec fn tmeta_ids_unique(self) -> bool {
        forall|i: int, j: int|
            0 <= i < j < self.template_metadata.len() ==> self.template_metadata[i].document_id@
                != self.template_metadata[j].document_id@
    }

    /// Project rows are well formed.
    pub open spec fn projects_wf(self) -> bool {
        self.project_ids_unique()
    }

    /// Document ids are unique, every document belongs to an existing
    /// project, and a parent, if set, is a document of the same project.
    pub open spec fn documents_wf(self) -> bool {
        &&& self.doc_ids_unique()
        &&& forall|i: int|
            0 <= i < self.documents.len() ==> self.has_project(
                #[trigger] self.documents[i].project_id@,
            )
        &&& forall|i: int|
            0 <= i < self.documents.len() ==> match #[trigger] self.documents[i].parent_id {
                Option::Some(p) => self.has_doc(p@) && self.doc_named(p@).project_id@
                    == self.documents[i].project_id@,
                Option::None => true,
            }
    }

    /// At most one metadata row per document, each owned by an existing
    /// document.
    pub open spec fn metadata_wf(self) -> bool {
        &&& self.meta_ids_unique()
        &&& forall|i: int|
            0 <= i < self.metadata.len() ==> self.has_doc(
                #[trigger] self.metadata[i].document_id@,
            )
    }

    /// Labels are unique pairs owned by existing documents.
    pub open spec fn labels_wf(self) -> bool {
        &&& sat_rows_unique(self.labels)
        &&& forall|i: int|
            0 <= i < self.labels.len() ==> self.has_doc(#[trigger] self.labels[i].owner@)
    }

    /// Characters and keywords are unique pairs owned by documents that have
    /// a metadata row.
    pub open spec fn meta_sets_wf(self) -> bool {
        &&& sat_rows_unique(self.characters)
        &&& forall|i: int|
            0 <= i < self.characters.len() ==> self.has_meta(#[trigger] self.characters[i].owner@)
        &&& sat_rows_unique(self.keywords)
        &&& forall|i: int|
            0 <= i < self.keywords.len() ==> self.has_meta(#[trigger] self.keywords[i].owner@)
    }

    /// Template rows are well formed.
    pub open spec fn templates_wf(self) -> bool {
        self.template_ids_unique()
    }

    /// Template tags are unique pairs owned by existing templates.
    pub open spec fn template_tags_wf(self) -> bool {
        &&& sat_rows_unique(self.template_tags)
        &&& forall|i: int|
            0 <= i < self.template_tags.len() ==> self.has_template(
                #[trigger] self.template_tags[i].owner@,
            )
    }

    /// Template document ids are unique, each row belongs to an existing
    /// template, and a parent, if set, is an *earlier* row of the same
    /// template: template forests are stored parent before child, which rules
    /// out cycles and lets one linear pass clone a forest top-down.
    pub open spec fn template_documents_wf(self) -> bool {
        &&& self.tdoc_ids_unique()
        &&& forall|i: int|
            0 <= i < self.template_documents.len() ==> self.has_template(
                #[trigger] self.template_documents[i].template_id@,
            )
        &&& forall|i: int|
            0 <= i < self.template_documents.len() ==> match #[trigger] self.template_documents[i].parent_id {
                Option::Some(p) => exists|j: int|
                    0 <= j < i && self.template_documents[j].id@ == p@
                        && self.template_documents[j].template_id@
                        == self.template_documents[i].template_id@,
                Option::None => true,
            }
    }

    /// Template labels and metadata are owned by existing template
    /// documents; template characters and keywords by existing template
    /// metadata rows.
    pub open spec fn template_satellites_wf(self) -> bool {
        &&& sat_rows_unique(self.template_labels)
        &&& forall|i: int|
            0 <= i < self.template_labels.len() ==> self.has_tdoc(
                #[trigger] self.template_labels[i].owner@,
            )
        &&& self.tmeta_ids_unique()
        &&& forall|i: int|
            0 <= i < self.template_metadata.len() ==> self.has_tdoc(
                #[trigger] self.template_metadata[i].document_id@,
            )
        &&& sat_rows_unique(self.template_characters)
        &&& forall|i: int|
            0 <= i < self.template_characters.len() ==> self.has_tmeta(
                #[trigger] self.template_characters[i].owner@,
            )
        &&& sat_rows_unique(self.template_keywords)
        &&& forall|i: int|
            0 <= i < self.template_keywords.len() ==> self.has_tmeta(
                #[trigger] self.template_keywords[i].owner@,
            )
    }

    /// The well-formedness of the whole store: the referential and
    /// uniqueness constraints of the schema, established by the constructor
    /// and preserved by every operation.
    pub open spec fn wf(self) -> bool {
        &&& self.projects_wf()
        &&& self.documents_wf()
        &&& self.metadata_wf()
        &&& self.labels_wf()
        &&& self.meta_sets_wf()
        &&& self.templates_wf()
        &&& self.template_tags_wf()
        &&& self.template_documents_wf()
        &&& self.template_satellites_wf()
    }

    /// A project row found at index `i` is the project of that id.
    pub proof fn lemma_project_at(self, i: int)
        requires
            self.project_ids_unique(),
            0 <= i < self.projects.len(),
        ensures
            self.has_project(self.projects[i].id@),
            self.project_named(self.projects[i].id@) == self.projects[i],
    {
        let id = self.projects[i].id@;
        assert(self.has_project(id));
        let j = choose|j: int| 0 <= j < self.projects.len() && self.projects[j].id@ == id;
        if i < j {
            assert(self.projects[i].id@ != self.projects[j].id@);
        } else if j < i {
            assert(self.projects[j].id@ != self.projects[i].id@);
        }
    }

    /// A document row found at index `i` is the document of that id.
    pub proof fn lemma_doc_at(self, i: int)
        requires
            self.doc_ids_unique(),
            0 <= i < self.documents.len(),
        ensures
            self.has_doc(self.documents[i].id@),
            self.doc_named(self.documents[i].id@) == self.documents[i],
    {
        let id = self.documents[i].id@;
        assert(self.has_doc(id));
        let j = choose|j: int| 0 <= j < self.documents.len() && self.documents[j].id@ == id;
        if i < j {
            assert(self.documents[i].id@ != self.documents[j].id@);
        } else if j < i {
            assert(self.documents[j].id@ != self.documents[i].id@);
        }
    }

    /// A metadata row found at index `i` is the metadata of its document.
    pub proof fn lemma_meta_at(self, i: int)
        requires
            self.meta_ids_unique(),
            0 <= i < self.metadata.len(),
        ensures
            self.has_meta(self.metadata[i].document_id@),
            self.meta_named(self.metadata[i].document_id@) == self.metadata[i],
    {
        let id = self.metadata[i].document_id@;
        assert(self.has_meta(id));
        let j = choose|j: int|
            0 <= j < self.metadata.len() && self.metadata[j].document_id@ == id;
        if i < j {
            assert(self.metadata[i].document_id@ != self.metadata[j].document_id@);
        } else if j < i {
            assert(self.metadata[j].document_id@ != self.metadata[i].document_id@);
        }
    }

    /// A template row found at index `i` is the template of that id.
    pub proof fn lemma_template_at(self, i: int)
        requires
            self.template_ids_unique(),
            0 <= i < self.templates.len(),
        ensures
            self.has_template(self.templates[i].id@),
            self.template_named(self.templates[i].id@) == self.templates[i],
    {
        let id = self.templates[i].id@;
        assert(self.has_template(id));
        let j = choose|j: int| 0 <= j < self.templates.len() && self.templates[j].id@ == id;
        if i < j {
            assert(self.templates[i].id@ != self.templates[j].id@);
        } else if j < i {
            assert(self.templates[j].id@ != self.templates[i].id@);
        }
    }

    /// A template document row found at index `i` is the row of that id.
    pub proof fn lemma_tdoc_at(self, i: int)
        requires
            self.tdoc_ids_unique(),
            0 <= i < self.template_documents.len(),
        ensures
            self.has_tdoc(self.template_documents[i].id@),
            self.tdoc_named(self.template_documents[i].id@) == self.template_documents[i],
    {
        let id = self.template_documents[i].id@;
        assert(self.has_tdoc(id));
        let j = choose|j: int|
            0 <= j < self.template_documents.len() && self.template_documents[j].id@ == id;
        if i < j {
            assert(self.template_documents[i].id@ != self.template_documents[j].id@);
        } else if j < i {
            assert(self.template_documents[j].id@ != self.template_documents[i].id@);
        }
    }

    /// A template metadata row found at index `i` is the metadata of its
    /// template document.
    pub proof fn lemma_tmeta_at(self, i: int)
        requires
            self.tmeta_ids_unique(),
            0 <= i < self.template_metadata.len(),
        ensures
            self.has_tmeta(self.template_metadata[i].document_id@),
            self.tmeta_named(self.template_metadata[i].document_id@)
                == self.template_metadata[i],
    {
        let id = self.template_metadata[i].document_id@;
        assert(self.has_tmeta(id));
        let j = choose|j: int|
            0 <= j < self.template_metadata.len() && self.template_metadata[j].document_id@ == id;
        if i < j {
            assert(self.template_metadata[i].document_id@
                != self.template_metadata[j].document_id@);
        } else if j < i {
            assert(self.template_metadata[j].document_id@
                != self.template_metadata[i].document_id@);
        }
    }

    /// The state with one more project row.
    pub open spec fn with_project(self, p: Project) -> StoreView {
        StoreView { projects: self.projects.push(p), ..self }
    }

    /// The state with the named project's `last_modified` set to `ts`.
    pub open spec fn touch_project(self, pid: Seq<char>, ts: String) -> StoreView {
        StoreView { projects: projects_touched(self.projects, pid, ts), ..self }
    }

    /// What one partial project patch makes of the matching row.
    pub open spec fn patched_project(p: Project, u: UpdateProject, ts: String) -> Project {
        Project {
            id: p.id,
            name: (match u.name {
                Option::Some(n) => n,
                Option::None => p.name,
            }),
            description: (match u.description {
                Option::Some(d) => Option::Some(d),
                Option::None => p.description,
            }),
            status: (match u.status {
                Option::Some(s) => s,
                Option::None => p.status,
            }),
            created_at: p.created_at,
            last_modified: ts,
        }
    }

    /// The state with the named project's row patched.
    pub open spec fn spec_update_project(self, u: UpdateProject, ts: String) -> StoreView {
        StoreView { projects: projects_patched(self.projects, u, ts), ..self }
    }

    /// The document rows of this project, in storage order.
    pub open spec fn project_docs(self, pid: Seq<char>) -> Seq<Document> {
        docs_of_project(self.documents, pid)
    }

    /// The ids of every document of this project.
    pub open spec fn project_doc_ids(self, pid: Seq<char>) -> Seq<Seq<char>> {
        doc_ids(self.project_docs(pid))
    }

    /// The state after deleting a project: its row, its documents, and every
    /// metadata and satellite row those documents owned.
    pub open spec fn spec_delete_project(self, pid: Seq<char>) -> StoreView {
        let dead = self.project_doc_ids(pid);
        StoreView {
            projects: projects_without(self.projects, pid),
            documents: docs_without_project(self.documents, pid),
            labels: sat_keep_alive(self.labels, dead),
            metadata: meta_keep_alive(self.metadata, dead),
            characters: sat_keep_alive(self.characters, dead),
            keywords: sat_keep_alive(self.keywords, dead),
            ..self
        }
    }

    /// One step of the bulk import: a project row is inserted unless its id
    /// is already taken.
    pub open spec fn migrate_step(self, p: Project) -> StoreView {
        if self.has_project(p.id@) {
            self
        } else {
            self.with_project(p)
        }
    }

    /// The state after importing the rows in order, each inserted or
    /// ignored.
    pub open spec fn spec_migrate(self, ps: Seq<Project>) -> StoreView
        decreases ps.len(),
    {
        if ps.len() == 0 {
            self
        } else {
            self.migrate_step(ps.first()).spec_migrate(ps.drop_first())
        }
    }

    /// Importing one more row applies one more step.
    pub proof fn lemma_migrate_push(self, ps: Seq<Project>, p: Project)
        ensures
            self.spec_migrate(ps.push(p)) == self.spec_migrate(ps).migrate_step(p),
        decreases ps.len(),
    {
        if ps.len() == 0 {
            assert(ps.push(p).first() == p);
            assert(ps.push(p).drop_first() =~= Seq::<Project>::empty());
            assert(self.spec_migrate(ps) == self);
            assert(self.migrate_step(p).spec_migrate(ps.push(p).drop_first())
                == self.migrate_step(p));
        } else {
            assert(ps.push(p).first() == ps.first());
            assert(ps.push(p).drop_first() =~= ps.drop_first().push(p));
            self.migrate_step(ps.first()).lemma_migrate_push(ps.drop_first(), p);
            assert(self.spec_migrate(ps.push(p)) == self.migrate_step(
                ps.first(),
            ).spec_migrate(ps.drop_first().push(p)));
            assert(self.spec_migrate(ps) == self.migrate_step(ps.first()).spec_migrate(
                ps.drop_first(),
            ));
        }
    }

    /// Any change that rewrites project rows without touching their ids
    /// keeps the store well formed and the project lookups unchanged.
    pub proof fn lemma_projects_pointwise_preserves(self, qs: Seq<Project>)
        requires
            self.wf(),
            qs.len() == self.projects.len(),
            forall|i: int| 0 <= i < qs.len() ==> (#[trigger] qs[i]).id@ == self.projects[i].id@,
        ensures
            (StoreView { projects: qs, ..self }).wf(),
            forall|x: Seq<char>|
                (StoreView { projects: qs, ..self }).has_project(x) == self.has_project(x),
    {
        let t = StoreView { projects: qs, ..self };
        assert forall|x: Seq<char>| t.has_project(x) == self.has_project(x) by {
            if self.has_project(x) {
                let i = choose|i: int|
                    0 <= i < self.projects.len() && self.projects[i].id@ == x;
                assert(t.projects[i].id@ == x);
            }
            if t.has_project(x) {
                let i = choose|i: int| 0 <= i < t.projects.len() && t.projects[i].id@ == x;
                assert(self.projects[i].id@ == x);
            }
        }
        assert forall|i: int, j: int| 0 <= i < j < t.projects.len() implies t.projects[i].id@
            != t.projects[j].id@ by {
            assert(t.projects[i].id@ == self.projects[i].id@);
            assert(t.projects[j].id@ == self.projects[j].id@);
        }
    }

    /// Adding a project under a fresh id keeps the store well formed; the
    /// other lookups are untouched.
    pub proof fn lemma_with_project_preserves(self, p: Project)
        requires
            self.wf(),
            !self.has_project(p.id@),
        ensures
            self.with_project(p).wf(),
            forall|x: Seq<char>|
                self.with_project(p).has_project(x) == (self.has_project(x) || x == p.id@),
    {
        let t = self.with_project(p);
        assert forall|x: Seq<char>| t.has_project(x) == (self.has_project(x) || x == p.id@) by {
            if self.has_project(x) {
                let i = choose|i: int|
                    0 <= i < self.projects.len() && self.projects[i].id@ == x;
                assert(t.projects[i].id@ == x);
            }
            if x == p.id@ {
                assert(t.projects[t.projects.len() - 1].id@ == x);
            }
            if t.has_project(x) && !self.has_project(x) && x != p.id@ {
                let i = choose|i: int| 0 <= i < t.projects.len() && t.projects[i].id@ == x;
                assert(i < self.projects.len() ==> self.projects[i].id@ == x);
            }
        }
        assert forall|i: int, j: int| 0 <= i < j < t.projects.len() implies t.projects[i].id@
            != t.projects[j].id@ by {
            if j == t.projects.len() - 1 {
                assert(t.projects[i] == self.projects[i]);
                assert(!self.has_project(p.id@));
                assert(self.projects[i].id@ != p.id@);
            }
        }
    }

    /// An id in the dead list names a document of the project being deleted.
    pub proof fn lemma_dead_id(self, pid: Seq<char>, x: Seq<char>)
        requires
            self.doc_ids_unique(),
            self.project_doc_ids(pid).contains(x),
        ensures
            self.has_doc(x),
            self.doc_named(x).project_id@ == pid,
    {
        let pd = self.project_docs(pid);
        lemma_doc_ids(pd);
        lemma_docs_of_project_props(self.documents, pid);
        let k = self.project_doc_ids(pid).lemma_contains_to_index(x);
        assert(pd[k].id@ == x);
        assert(self.documents.contains(pd[k]) && pd[k].project_id@ == pid);
        let l = self.documents.lemma_contains_to_index(pd[k]);
        self.lemma_doc_at(l);
    }

    /// A document of the project being deleted has its id in the dead list.
    pub proof fn lemma_doc_of_project_dead(self, pid: Seq<char>, i: int)
        requires
            0 <= i < self.documents.len(),
            self.documents[i].project_id@ == pid,
        ensures
            self.project_doc_ids(pid).contains(self.documents[i].id@),
    {
        lemma_docs_of_project_props(self.documents, pid);
        let pd = self.project_docs(pid);
        assert(pd.contains(self.documents[i]));
        let k = pd.lemma_contains_to_index(self.documents[i]);
        lemma_doc_ids(pd);
        assert(self.project_doc_ids(pid)[k] == self.documents[i].id@);
        assert(self.project_doc_ids(pid).contains(self.documents[i].id@));
    }

    /// Deleting a project and everything it owns keeps the store well
    /// formed.
    pub proof fn lemma_delete_project_wf(self, pid: Seq<char>)
        requires
            self.wf(),
        ensures
            self.spec_delete_project(pid).wf(),
    {
        let t = self.spec_delete_project(pid);
        let dead = self.project_doc_ids(pid);
        lemma_projects_without_props(self.projects, pid);
        lemma_docs_without_project_props(self.documents, pid);
        crate::sat::lemma_sat_keep_alive_props(self.labels, dead);
        crate::sat::lemma_sat_keep_alive_props(self.characters, dead);
        crate::sat::lemma_sat_keep_alive_props(self.keywords, dead);
        lemma_meta_keep_alive_props(self.metadata, dead);

        // A surviving project id is still found.
        assert forall|x: Seq<char>| self.has_project(x) && x != pid implies t.has_project(
            x,
        ) by {
            let i = choose|i: int| 0 <= i < self.projects.len() && self.projects[i].id@ == x;
            assert(t.projects.contains(self.projects[i]));
            let k = t.projects.lemma_contains_to_index(self.projects[i]);
        }

        // A surviving document id is still found, naming the same row.
        assert forall|x: Seq<char>| self.has_doc(x) && !dead.contains(x) implies t.has_doc(x)
            && t.doc_named(x) == self.doc_named(x) by {
            let i = choose|i: int| 0 <= i < self.documents.len() && self.documents[i].id@ == x;
            if self.documents[i].project_id@ == pid {
                self.lemma_doc_of_project_dead(pid, i);
                assert(false);
            }
            assert(t.documents.contains(self.documents[i]));
            let k = t.documents.lemma_contains_to_index(self.documents[i]);
            assert(t.documents[k].id@ == x);
            assert(t.has_doc(x));
            t.lemma_doc_at(k);
            self.lemma_doc_at(i);
        }

        // A surviving metadata row is still found.
        assert forall|x: Seq<char>| self.has_meta(x) && !dead.contains(x) implies t.has_meta(
            x,
        ) by {
            let i = choose|i: int|
                0 <= i < self.metadata.len() && self.metadata[i].document_id@ == x;
            assert(t.metadata.contains(self.metadata[i]));
            let k = t.metadata.lemma_contains_to_index(self.metadata[i]);
            assert(t.metadata[k].document_id@ == x);
        }

        // Documents: live projects and live parents.
        assert forall|i: int| 0 <= i < t.documents.len() implies t.has_project(
            #[trigger] t.documents[i].project_id@,
        ) && (match t.documents[i].parent_id {
            Option::Some(p) => t.has_doc(p@) && t.doc_named(p@).project_id@
                == t.documents[i].project_id@,
            Option::None => true,
        }) by {
            let d = t.documents[i];
            assert(self.documents.contains(d) && d.project_id@ != pid);
            let k = self.documents.lemma_contains_to_index(d);
            assert(self.has_project(self.documents[k].project_id@));
            match d.parent_id {
                Option::Some(p) => {
                    assert(self.has_doc(p@) && self.doc_named(p@).project_id@ == d.project_id@);
                    if dead.contains(p@) {
                        self.lemma_dead_id(pid, p@);
                        assert(false);
                    }
                },
                Option::None => {},
            }
        }

        // Metadata rows and labels belong to surviving documents.
        assert forall|i: int| 0 <= i < t.metadata.len() implies t.has_doc(
            #[trigger] t.metadata[i].document_id@,
        ) by {
            let m = t.metadata[i];
            assert(self.metadata.contains(m) && !dead.contains(m.document_id@));
            let k = self.metadata.lemma_contains_to_index(m);
            assert(self.has_doc(self.metadata[k].document_id@));
        }
        assert forall|i: int| 0 <= i < t.labels.len() implies t.has_doc(
            #[trigger] t.labels[i].owner@,
        ) by {
            let r = t.labels[i];
            assert(self.labels.contains(r) && !dead.contains(r.owner@));
            let k = self.labels.lemma_contains_to_index(r);
            assert(self.has_doc(self.labels[k].owner@));
        }

        // Characters and keywords belong to surviving metadata rows.
        assert forall|i: int| 0 <= i < t.characters.len() implies t.has_meta(
            #[trigger] t.characters[i].owner@,
        ) by {
            let r = t.characters[i];
            assert(self.characters.contains(r) && !dead.contains(r.owner@));
            let k = self.characters.lemma_contains_to_index(r);
            assert(self.has_meta(self.characters[k].owner@));
        }
        assert forall|i: int| 0 <= i < t.keywords.len() implies t.has_meta(
            #[trigger] t.keywords[i].owner@,
        ) by {
            let r = t.keywords[i];
            assert(self.keywords.contains(r) && !dead.contains(r.owner@));
            let k = self.keywords.lemma_contains_to_index(r);
            assert(self.has_meta(self.keywords[k].owner@));
        }

        // The template side is untouched, and its lookups are over unchanged
        // tables.
        assert(t.templates == self.templates);
        assert(t.template_documents == self.template_documents);
        assert(t.template_metadata == self.template_metadata);
        assert forall|x: Seq<char>| t.has_template(x) == self.has_template(x) by {}
        assert forall|x: Seq<char>| t.has_tdoc(x) == self.has_tdoc(x) by {}
        assert forall|x: Seq<char>| t.has_tmeta(x) == self.has_tmeta(x) by {}
    }

    /// Each import step keeps the store well formed.
    pub proof fn lemma_migrate_wf(self, ps: Seq<Project>)
        requires
            self.wf(),
        ensures
            self.spec_migrate(ps).wf(),
        decreases ps.len(),
    {
        if ps.len() > 0 {
            let s1 = self.migrate_step(ps.first());
            if !self.has_project(ps.first().id@) {
                self.lemma_with_project_preserves(ps.first());
            }
            s1.lemma_migrate_wf(ps.drop_first());
        }
    }

    /// How a hydrated metadata value relates to a stored metadata row and
    /// the character and keyword sets of its document.
    pub open spec fn is_hydrated_meta(
        self,
        doc_id: Seq<char>,
        m: MetadataRow,
        dm: DocumentMetadata,
    ) -> bool {
        &&& dm.pov == m.pov
        &&& dm.setting == m.setting
        &&& dm.characters@ == values_of(self.characters, doc_id)
        &&& dm.keywords@ == values_of(self.keywords, doc_id)
        &&& dm.event_date == m.event_date
        &&& dm.importance == m.importance
        &&& dm.content_format == m.content_format
        &&& dm.visibility == m.visibility
        &&& dm.ai_assisted == m.ai_assisted
        &&& dm.version == m.version
        &&& dm.custom_fields == m.custom_fields
    }

    /// How a hydrated document relates to its stored row, label set and
    /// metadata.
    pub open spec fn is_hydrated(self, d: Document, dw: DocumentWithMetadata) -> bool {
        &&& dw.id == d.id
        &&& dw.project_id == d.project_id
        &&& dw.parent_id == d.parent_id
        &&& dw.title == d.title
        &&& dw.content == d.content
        &&& dw.synopsis == d.synopsis
        &&& dw.doc_type == d.doc_type
        &&& dw.status == d.status
        &&& dw.word_count == d.word_count
        &&& dw.target_word_count == d.target_word_count
        &&& dw.position == d.position
        &&& dw.created_at == d.created_at
        &&& dw.last_modified == d.last_modified
        &&& dw.labels@ == values_of(self.labels, d.id@)
        &&& match dw.metadata {
            Option::Some(dm) => self.has_meta(d.id@) && self.is_hydrated_meta(
                d.id@,
                self.meta_named(d.id@),
                dm,
            ),
            Option::None => !self.has_meta(d.id@),
        }
    }

    /// How a hydrated template document relates to its stored row, label set
    /// and metadata.
    pub open spec fn is_tdoc_hydrated(
        self,
        d: TemplateDocument,
        dw: TemplateDocumentWithMetadata,
    ) -> bool {
        &&& dw.id == d.id
        &&& dw.template_id == d.template_id
        &&& dw.parent_id == d.parent_id
        &&& dw.title == d.title
        &&& dw.content == d.content
        &&& dw.synopsis == d.synopsis
        &&& dw.doc_type == d.doc_type
        &&& dw.status == d.status
        &&& dw.position == d.position
        &&& dw.labels@ == values_of(self.template_labels, d.id@)
        &&& match dw.metadata {
            Option::Some(dm) => self.has_tmeta(d.id@) && self.is_tmeta_hydrated(
                d.id@,
                self.tmeta_named(d.id@),
                dm,
            ),
            Option::None => !self.has_tmeta(d.id@),
        }
    }

    /// How a hydrated template metadata value relates to a stored row.
    pub open spec fn is_tmeta_hydrated(
        self,
        doc_id: Seq<char>,
        m: TemplateMetadataRow,
        dm: TemplateDocumentMetadata,
    ) -> bool {
        &&& dm.pov == m.pov
        &&& dm.setting == m.setting
        &&& dm.characters@ == values_of(self.template_characters, doc_id)
        &&& dm.keywords@ == values_of(self.template_keywords, doc_id)
        &&& dm.event_date == m.event_date
        &&& dm.importance == m.importance
        &&& dm.content_format == m.content_format
        &&& dm.visibility == m.visibility
        &&& dm.ai_assisted == m.ai_assisted
        &&& dm.custom_fields == m.custom_fields
    }
}

/// The document rows of one project, in storage order.
pub open spec fn docs_of_project(ds: Seq<Document>, pid: Seq<char>) -> Seq<Document>
    decreases ds.len(),
{
    if ds.len() == 0 {
        Seq::empty()
    } else {
        let rest = docs_of_project(ds.drop_last(), pid);
        if ds.last().project_id@ == pid {
            rest.push(ds.last())
        } else {
            rest
        }
    }
}

/// The document rows that survive deleting one project.
pub open spec fn docs_without_project(ds: Seq<Document>, pid: Seq<char>) -> Seq<Document>
    decreases ds.len(),
{
    if ds.len() == 0 {
        Seq::empty()
    } else {
        let rest = docs_without_project(ds.drop_last(), pid);
        if ds.last().project_id@ != pid {
            rest.push(ds.last())
        } else {
            rest
        }
    }
}

/// The project rows that survive deleting one project.
pub open spec fn projects_without(ps: Seq<Project>, pid: Seq<char>) -> Seq<Project>
    decreases ps.len(),
{
    if ps.len() == 0 {
        Seq::empty()
    } else {
        let rest = projects_without(ps.drop_last(), pid);
        if ps.last().id@ != pid {
            rest.push(ps.last())
        } else {
            rest
        }
    }
}

/// The ids of the rows, in order.
pub open spec fn doc_ids(ds: Seq<Document>) -> Seq<Seq<char>>
    decreases ds.len(),
{
    if ds.len() == 0 {
        Seq::empty()
    } else {
        doc_ids(ds.drop_last()).push(ds.last().id@)
    }
}

/// The metadata rows that survive removing every document named in `dead`.
pub open spec fn meta_keep_alive(ms: Seq<MetadataRow>, dead: Seq<Seq<char>>) -> Seq<MetadataRow>
    decreases ms.len(),
{
    if ms.len() == 0 {
        Seq::empty()
    } else {
        let rest = meta_keep_alive(ms.drop_last(), dead);
        if !dead.contains(ms.last().document_id@) {
            rest.push(ms.last())
        } else {
            rest
        }
    }
}

/// `doc_ids` lists exactly the id of each row, in order.
pub proof fn lemma_doc_ids(ds: Seq<Document>)
    ensures
        doc_ids(ds).len() == ds.len(),
        forall|i: int| 0 <= i < ds.len() ==> doc_ids(ds)[i] == (#[trigger] ds[i]).id@,
    decreases ds.len(),
{
    if ds.len() > 0 {
        lemma_doc_ids(ds.drop_last());
        assert forall|i: int| 0 <= i < ds.len() implies doc_ids(ds)[i] == (
        #[trigger] ds[i]).id@ by {
            if i < ds.len() - 1 {
                assert(ds.drop_last()[i] == ds[i]);
            }
        }
    }
}

/// One more document row is selected exactly when it belongs to the project.
pub proof fn lemma_docs_of_project_push(ds: Seq<Document>, pid: Seq<char>, x: Document)
    ensures
        docs_of_project(ds.push(x), pid) == if x.project_id@ == pid {
            docs_of_project(ds, pid).push(x)
        } else {
            docs_of_project(ds, pid)
        },
{
    assert(ds.push(x).drop_last() =~= ds);
    assert(ds.push(x).last() == x);
}

/// One more document row survives exactly when it is of another project.
pub proof fn lemma_docs_without_project_push(ds: Seq<Document>, pid: Seq<char>, x: Document)
    ensures
        docs_without_project(ds.push(x), pid) == if x.project_id@ != pid {
            docs_without_project(ds, pid).push(x)
        } else {
            docs_without_project(ds, pid)
        },
{
    assert(ds.push(x).drop_last() =~= ds);
    assert(ds.push(x).last() == x);
}

/// One more project row survives exactly when it is another project.
pub proof fn lemma_projects_without_push(ps: Seq<Project>, pid: Seq<char>, x: Project)
    ensures
        projects_without(ps.push(x), pid) == if x.id@ != pid {
            projects_without(ps, pid).push(x)
        } else {
            projects_without(ps, pid)
        },
{
    assert(ps.push(x).drop_last() =~= ps);
    assert(ps.push(x).last() == x);
}

/// One more metadata row survives exactly when its document is not dead.
pub proof fn lemma_meta_keep_alive_push(ms: Seq<MetadataRow>, dead: Seq<Seq<char>>, x: MetadataRow)
    ensures
        meta_keep_alive(ms.push(x), dead) == if !dead.contains(x.document_id@) {
            meta_keep_alive(ms, dead).push(x)
        } else {
            meta_keep_alive(ms, dead)
        },
{
    assert(ms.push(x).drop_last() =~= ms);
    assert(ms.push(x).last() == x);
}

/// What the selected rows of a project are: rows of the table that belong to
/// the project, all of them, in order.
pub proof fn lemma_docs_of_project_props(ds: Seq<Document>, pid: Seq<char>)
    ensures
        forall|i: int|
            0 <= i < docs_of_project(ds, pid).len() ==> (#[trigger] docs_of_project(ds, pid)[i]).project_id@
                == pid && ds.contains(docs_of_project(ds, pid)[i]),
        forall|i: int|
            0 <= i < ds.len() && (#[trigger] ds[i]).project_id@ == pid ==> docs_of_project(
                ds,
                pid,
            ).contains(ds[i]),
    decreases ds.len(),
{
    if ds.len() > 0 {
        let t = ds.drop_last();
        lemma_docs_of_project_props(t, pid);
        let f = docs_of_project(ds, pid);
        let ft = docs_of_project(t, pid);
        assert forall|i: int| 0 <= i < f.len() implies (#[trigger] f[i]).project_id@ == pid
            && ds.contains(f[i]) by {
            if i < ft.len() {
                assert(f[i] == ft[i]);
                assert(t.contains(ft[i]));
                let k = t.lemma_contains_to_index(ft[i]);
                assert(ds[k] == f[i]);
            } else {
                assert(f[i] == ds.last());
                assert(ds[ds.len() - 1] == f[i]);
            }
        }
        assert forall|i: int|
            0 <= i < ds.len() && (#[trigger] ds[i]).project_id@ == pid implies f.contains(
            ds[i],
        ) by {
            if i < ds.len() - 1 {
                assert(t[i] == ds[i]);
                assert(ft.contains(ds[i]));
                let k = ft.lemma_contains_to_index(ds[i]);
                assert(f[k] == ds[i]);
            } else {
                assert(f[f.len() - 1] == ds[i]);
            }
        }
    }
}

/// What the surviving document rows are after a project delete: rows of
/// other projects, all of them, ids still unique.
pub proof fn lemma_docs_without_project_props(ds: Seq<Document>, pid: Seq<char>)
    ensures
        forall|i: int|
            0 <= i < docs_without_project(ds, pid).len() ==> (#[trigger] docs_without_project(
                ds,
                pid,
            )[i]).project_id@ != pid && ds.contains(docs_without_project(ds, pid)[i]),
        forall|i: int|
            0 <= i < ds.len() && (#[trigger] ds[i]).project_id@ != pid ==> docs_without_project(
                ds,
                pid,
            ).contains(ds[i]),
        (forall|i: int, j: int| 0 <= i < j < ds.len() ==> ds[i].id@ != ds[j].id@) ==> (forall|
            i: int,
            j: int,
        |
            0 <= i < j < docs_without_project(ds, pid).len() ==> docs_without_project(ds, pid)[i].id@
                != docs_without_project(ds, pid)[j].id@),
    decreases ds.len(),
{
    if ds.len() > 0 {
        let t = ds.drop_last();
        lemma_docs_without_project_props(t, pid);
        let f = docs_without_project(ds, pid);
        let ft = docs_without_project(t, pid);
        assert forall|i: int| 0 <= i < f.len() implies (#[trigger] f[i]).project_id@ != pid
            && ds.contains(f[i]) by {
            if i < ft.len() {
                assert(f[i] == ft[i]);
                assert(t.contains(ft[i]));
                let k = t.lemma_contains_to_index(ft[i]);
                assert(ds[k] == f[i]);
            } else {
                assert(f[i] == ds.last());
                assert(ds[ds.len() - 1] == f[i]);
            }
        }
        assert forall|i: int|
            0 <= i < ds.len() && (#[trigger] ds[i]).project_id@ != pid implies f.contains(
            ds[i],
        ) by {
            if i < ds.len() - 1 {
                assert(t[i] == ds[i]);
                assert(ft.contains(ds[i]));
                let k = ft.lemma_contains_to_index(ds[i]);
                assert(f[k] == ds[i]);
            } else {
                assert(f[f.len() - 1] == ds[i]);
            }
        }
        if forall|i: int, j: int| 0 <= i < j < ds.len() ==> ds[i].id@ != ds[j].id@ {
            assert forall|i: int, j: int| 0 <= i < j < t.len() implies t[i].id@ != t[j].id@ by {
                assert(t[i] == ds[i] && t[j] == ds[j]);
            }
            assert forall|i: int, j: int| 0 <= i < j < f.len() implies f[i].id@ != f[j].id@ by {
                if j < ft.len() {
                    assert(f[i] == ft[i] && f[j] == ft[j]);
                } else {
                    assert(f[i] == ft[i] && f[j] == ds.last());
                    assert(t.contains(ft[i]));
                    let k = t.lemma_contains_to_index(ft[i]);
                    assert(ds[k] == f[i]);
                    assert(ds[k].id@ != ds[ds.len() - 1].id@);
                }
            }
        }
    }
}

/// What the surviving project rows are after a project delete: the other
/// projects, all of them, ids still unique.
pub proof fn lemma_projects_without_props(ps: Seq<Project>, pid: Seq<char>)
    ensures
        forall|i: int|
            0 <= i < projects_without(ps, pid).len() ==> (#[trigger] projects_without(ps, pid)[i]).id@
                != pid && ps.contains(projects_without(ps, pid)[i]),
        forall|i: int|
            0 <= i < ps.len() && (#[trigger] ps[i]).id@ != pid ==> projects_without(
                ps,
                pid,
            ).contains(ps[i]),
        (forall|i: int, j: int| 0 <= i < j < ps.len() ==> ps[i].id@ != ps[j].id@) ==> (forall|
            i: int,
            j: int,
        |
            0 <= i < j < projects_without(ps, pid).len() ==> projects_without(ps, pid)[i].id@
                != projects_without(ps, pid)[j].id@),
    decreases ps.len(),
{
    if ps.len() > 0 {
        let t = ps.drop_last();
        lemma_projects_without_props(t, pid);
        let f = projects_without(ps, pid);
        let ft = projects_without(t, pid);
        assert forall|i: int| 0 <= i < f.len() implies (#[trigger] f[i]).id@ != pid
            && ps.contains(f[i]) by {
            if i < ft.len() {
                assert(f[i] == ft[i]);
                assert(t.contains(ft[i]));
                let k = t.lemma_contains_to_index(ft[i]);
                assert(ps[k] == f[i]);
            } else {
                assert(f[i] == ps.last());
                assert(ps[ps.len() - 1] == f[i]);
            }
        }
        assert forall|i: int| 0 <= i < ps.len() && (#[trigger] ps[i]).id@ != pid implies f.contains(
            ps[i],
        ) by {
            if i < ps.len() - 1 {
                assert(t[i] == ps[i]);
                assert(ft.contains(ps[i]));
                let k = ft.lemma_contains_to_index(ps[i]);
                assert(f[k] == ps[i]);
            } else {
                assert(f[f.len() - 1] == ps[i]);
            }
        }
        if forall|i: int, j: int| 0 <= i < j < ps.len() ==> ps[i].id@ != ps[j].id@ {
            assert forall|i: int, j: int| 0 <= i < j < t.len() implies t[i].id@ != t[j].id@ by {
                assert(t[i] == ps[i] && t[j] == ps[j]);
            }
            assert forall|i: int, j: int| 0 <= i < j < f.len() implies f[i].id@ != f[j].id@ by {
                if j < ft.len() {
                    assert(f[i] == ft[i] && f[j] == ft[j]);
                } else {
                    assert(f[i] == ft[i] && f[j] == ps.last());
                    assert(t.contains(ft[i]));
                    let k = t.lemma_contains_to_index(ft[i]);
                    assert(ps[k] == f[i]);
                    assert(ps[k].id@ != ps[ps.len() - 1].id@);
                }
            }
        }
    }
}

/// What the surviving metadata rows are: rows of live documents, all of
/// them, document ids still unique.
pub proof fn lemma_meta_keep_alive_props(ms: Seq<MetadataRow>, dead: Seq<Seq<char>>)
    ensures
        forall|i: int|
            0 <= i < meta_keep_alive(ms, dead).len() ==> !dead.contains(
                (#[trigger] meta_keep_alive(ms, dead)[i]).document_id@,
            ) && ms.contains(meta_keep_alive(ms, dead)[i]),
        forall|i: int|
            0 <= i < ms.len() && !dead.contains((#[trigger] ms[i]).document_id@)
                ==> meta_keep_alive(ms, dead).contains(ms[i]),
        (forall|i: int, j: int|
            0 <= i < j < ms.len() ==> ms[i].document_id@ != ms[j].document_id@) ==> (forall|
            i: int,
            j: int,
        |
            0 <= i < j < meta_keep_alive(ms, dead).len() ==> meta_keep_alive(
                ms,
                dead,
            )[i].document_id@ != meta_keep_alive(ms, dead)[j].document_id@),
    decreases ms.len(),
{
    if ms.len() > 0 {
        let t = ms.drop_last();
        lemma_meta_keep_alive_props(t, dead);
        let f = meta_keep_alive(ms, dead);
        let ft = meta_keep_alive(t, dead);
        assert forall|i: int| 0 <= i < f.len() implies !dead.contains(
            (#[trigger] f[i]).document_id@,
        ) && ms.contains(f[i]) by {
            if i < ft.len() {
                assert(f[i] == ft[i]);
                assert(t.contains(ft[i]));
                let k = t.lemma_contains_to_index(ft[i]);
                assert(ms[k] == f[i]);
            } else {
                assert(f[i] == ms.last());
                assert(ms[ms.len() - 1] == f[i]);
            }
        }
        assert forall|i: int|
            0 <= i < ms.len() && !dead.contains((#[trigger] ms[i]).document_id@) implies f.contains(
            ms[i],
        ) by {
            if i < ms.len() - 1 {
                assert(t[i] == ms[i]);
                assert(ft.contains(ms[i]));
                let k = ft.lemma_contains_to_index(ms[i]);
                assert(f[k] == ms[i]);
            } else {
                assert(f[f.len() - 1] == ms[i]);
            }
        }
        if forall|i: int, j: int| 0 <= i < j < ms.len() ==> ms[i].document_id@
            != ms[j].document_id@ {
            assert forall|i: int, j: int| 0 <= i < j < t.len() implies t[i].document_id@
                != t[j].document_id@ by {
                assert(t[i] == ms[i] && t[j] == ms[j]);
            }
            assert forall|i: int, j: int| 0 <= i < j < f.len() implies f[i].document_id@
                != f[j].document_id@ by {
                if j < ft.len() {
                    assert(f[i] == ft[i] && f[j] == ft[j]);
                } else {
                    assert(f[i] == ft[i] && f[j] == ms.last());
                    assert(t.contains(ft[i]));
                    let k = t.lemma_contains_to_index(ft[i]);
                    assert(ms[k] == f[i]);
                    assert(ms[k].document_id@ != ms[ms.len() - 1].document_id@);
                }
            }
        }
    }
}


/// The project rows with the named project's `last_modified` set to `ts`.
pub open spec fn projects_touched(ps: Seq<Project>, pid: Seq<char>, ts: String) -> Seq<Project>
    decreases ps.len(),
{
    if ps.len() == 0 {
        Seq::empty()
    } else {
        let rest = projects_touched(ps.drop_last(), pid, ts);
        if ps.last().id@ == pid {
            rest.push(Project { last_modified: ts, ..ps.last() })
        } else {
            rest.push(ps.last())
        }
    }
}

/// The project rows with the matching row patched.
pub open spec fn projects_patched(ps: Seq<Project>, u: UpdateProject, ts: String) -> Seq<Project>
    decreases ps.len(),
{
    if ps.len() == 0 {
        Seq::empty()
    } else {
        let rest = projects_patched(ps.drop_last(), u, ts);
        if ps.last().id@ == u.id@ {
            rest.push(StoreView::patched_project(ps.last(), u, ts))
        } else {
            rest.push(ps.last())
        }
    }
}

/// What touching does to each row.
pub proof fn lemma_projects_touched_props(ps: Seq<Project>, pid: Seq<char>, ts: String)
    ensures
        projects_touched(ps, pid, ts).len() == ps.len(),
        forall|i: int|
            0 <= i < ps.len() ==> projects_touched(ps, pid, ts)[i] == (if (
            #[trigger] ps[i]).id@ == pid {
                Project { last_modified: ts, ..ps[i] }
            } else {
                ps[i]
            }),
    decreases ps.len(),
{
    if ps.len() > 0 {
        lemma_projects_touched_props(ps.drop_last(), pid, ts);
        assert forall|i: int| 0 <= i < ps.len() implies projects_touched(ps, pid, ts)[i] == (if (
        #[trigger] ps[i]).id@ == pid {
            Project { last_modified: ts, ..ps[i] }
        } else {
            ps[i]
        }) by {
            if i < ps.len() - 1 {
                assert(ps.drop_last()[i] == ps[i]);
            }
        }
    }
}

/// What patching does to each row.
pub proof fn lemma_projects_patched_props(ps: Seq<Project>, u: UpdateProject, ts: String)
    ensures
        projects_patched(ps, u, ts).len() == ps.len(),
        forall|i: int|
            0 <= i < ps.len() ==> projects_patched(ps, u, ts)[i] == (if (#[trigger] ps[i]).id@
                == u.id@ {
                StoreView::patched_project(ps[i], u, ts)
            } else {
                ps[i]
            }),
    decreases ps.len(),
{
    if ps.len() > 0 {
        lemma_projects_patched_props(ps.drop_last(), u, ts);
        assert forall|i: int| 0 <= i < ps.len() implies projects_patched(ps, u, ts)[i] == (if (
        #[trigger] ps[i]).id@ == u.id@ {
            StoreView::patched_project(ps[i], u, ts)
        } else {
            ps[i]
        }) by {
            if i < ps.len() - 1 {
                assert(ps.drop_last()[i] == ps[i]);
            }
        }
    }
}

} // verus!
