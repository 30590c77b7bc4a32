//! The store itself: every table as in-memory rows, with the read
//! operations. Mutations live in the neighbouring modules.

use vstd::prelude::*;
use crate::error::Error;
use crate::sat::SatTable;
use crate::seqs::{lemma_filter_push, lemma_take_succ};
use crate::sort::{docs_sorted, sort_docs, sort_tdocs, tdocs_sorted};
use crate::types::{
    clone_opt_string, doc_row_of, str_eq, tdoc_row_of, Document, DocumentMetadata,
    DocumentWithMetadata, MetadataRow, Project, ProjectTemplate, TemplateDocument,
    TemplateDocumentMetadata, TemplateDocumentWithMetadata, TemplateMetadataRow,
};
use crate::view::StoreView;

verus! {

/// The document store: one serialized owner of all rows. Each public
/// mutation is one atomic transaction; a failed call leaves every table
/// untouched.
pub struct Store {
    pub(crate) projects: Vec<Project>,
    pub(crate) documents: Vec<Document>,
    pub(crate) labels: SatTable,
    pub(crate) metadata: Vec<MetadataRow>,
    pub(crate) characters: SatTable,
    pub(crate) keywords: SatTable,
    pub(crate) templates: Vec<ProjectTemplate>,
    pub(crate) template_tags: SatTable,
    pub(crate) template_documents: Vec<TemplateDocument>,
    pub(crate) template_labels: SatTable,
    pub(crate) template_metadata: Vec<TemplateMetadataRow>,
    pub(crate) template_characters: SatTable,
    pub(crate) template_keywords: SatTable,
}

impl View for Store {
    type V = StoreView;

    open(crate) spec fn view(&self) -> StoreView {
        StoreView {
            projects: self.projects@,
            documents: self.documents@,
            labels: self.labels@,
            metadata: self.metadata@,
            characters: self.characters@,
            keywords: self.keywords@,
            templates: self.templates@,
            template_tags: self.template_tags@,
            template_documents: self.template_documents@,
            template_labels: self.template_labels@,
            template_metadata: self.template_metadata@,
            template_characters: self.template_characters@,
            template_keywords: self.template_keywords@,
        }
    }
}

impl Store {
    /// An empty, well-formed store.
    pub fn new() -> (r: Store)
        ensures
            r@ == StoreView::empty(),
            r@.wf(),
    {
        Store {
            projects: Vec::new(),
            documents: Vec::new(),
            labels: SatTable::new(),
            metadata: Vec::new(),
            characters: SatTable::new(),
            keywords: SatTable::new(),
            templates: Vec::new(),
            template_tags: SatTable::new(),
            template_documents: Vec::new(),
            template_labels: SatTable::new(),
            template_metadata: Vec::new(),
            template_characters: SatTable::new(),
            template_keywords: SatTable::new(),
        }
    }

    /// Finds the index of the project with this id.
    pub(crate) fn find_project(&self, id: &String) -> (r: Option<usize>)
        ensures
            match r {
                Option::Some(i) => i < self@.projects.len() && self@.projects[i as int].id@
                    == id@,
                Option::None => !self@.has_project(id@),
            },
    {
        let mut i: usize = 0;
        while i < self.projects.len()
            invariant
                i <= self.projects.len(),
                forall|k: int| 0 <= k < i ==> self@.projects[k].id@ != id@,
            decreases self.projects.len() - i,
        {
            if str_eq(&self.projects[i].id, id) {
                return Some(i);
            }
            i = i + 1;
        }
        None
    }

    /// Finds the index of the document with this id.
    pub(crate) fn find_doc(&self, id: &String) -> (r: Option<usize>)
        ensures
            match r {
                Option::Some(i) => i < self@.documents.len() && self@.documents[i as int].id@
                    == id@,
                Option::None => !self@.has_doc(id@),
            },
    {
        let mut i: usize = 0;
        while i < self.documents.len()
            invariant
                i <= self.documents.len(),
                forall|k: int| 0 <= k < i ==> self@.documents[k].id@ != id@,
            decreases self.documents.len() - i,
        {
            if str_eq(&self.documents[i].id, id) {
                return Some(i);
            }
            i = i + 1;
        }
        None
    }

    /// Finds the index of the metadata row of this document.
    pub(crate) fn find_meta(&self, doc_id: &String) -> (r: Option<usize>)
        ensures
            match r {
                Option::Some(i) => i < self@.metadata.len()
                    && self@.metadata[i as int].document_id@ == doc_id@,
                Option::None => !self@.has_meta(doc_id@),
            },
    {
        let mut i: usize = 0;
        while i < self.metadata.len()
            invariant
                i <= self.metadata.len(),
                forall|k: int| 0 <= k < i ==> self@.metadata[k].document_id@ != doc_id@,
            decreases self.metadata.len() - i,
        {
            if str_eq(&self.metadata[i].document_id, doc_id) {
                return Some(i);
            }
            i = i + 1;
        }
        None
    }

    /// Finds the index of the template with this id.
    pub(crate) fn find_template(&self, id: &String) -> (r: Option<usize>)
        ensures
            match r {
                Option::Some(i) => i < self@.templates.len() && self@.templates[i as int].id@
                    == id@,
                Option::None => !self@.has_template(id@),
            },
    {
        let mut i: usize = 0;
        while i < self.templates.len()
            invariant
                i <= self.templates.len(),
                forall|k: int| 0 <= k < i ==> self@.templates[k].id@ != id@,
            decreases self.templates.len() - i,
        {
            if str_eq(&self.templates[i].id, id) {
                return Some(i);
            }
            i = i + 1;
        }
        None
    }

    /// Finds the index of the template metadata row of this template
    /// document.
    pub(crate) fn find_tmeta(&self, doc_id: &String) -> (r: Option<usize>)
        ensures
            match r {
                Option::Some(i) => i < self@.template_metadata.len()
                    && self@.template_metadata[i as int].document_id@ == doc_id@,
                Option::None => !self@.has_tmeta(doc_id@),
            },
    {
        let mut i: usize = 0;
        while i < self.template_metadata.len()
            invariant
                i <= self.template_metadata.len(),
                forall|k: int| 0 <= k < i ==> self@.template_metadata[k].document_id@ != doc_id@,
            decreases self.template_metadata.len() - i,
        {
            if str_eq(&self.template_metadata[i].document_id, doc_id) {
                return Some(i);
            }
            i = i + 1;
        }
        None
    }

    /// Reads every project row, most recently modified first: exactly the
    /// stored rows, ordered descending by `last_modified` in the store's
    /// lexicographic text order.
    pub fn get_all_projects(&self) -> (r: Result<Vec<Project>, Error>)
        ensures
            r matches Ok(v) && v@.to_multiset() == self@.projects.to_multiset()
                && crate::sort::projects_by_recency(v@),
    {
        let mut out: Vec<Project> = Vec::new();
        let mut i: usize = 0;
        while i < self.projects.len()
            invariant
                i <= self.projects.len(),
                out@ =~= self@.projects.take(i as int),
            decreases self.projects.len() - i,
        {
            out.push(self.projects[i].clone());
            i = i + 1;
        }
        proof {
            assert(out@ =~= self@.projects);
        }
        Ok(crate::sort::sort_projects_by_recency(out))
    }

    /// Builds the hydrated form of a document row: the row's fields with its
    /// label set and, when present, its metadata with the character and
    /// keyword sets.
    pub(crate) fn hydrate_doc(&self, d: &Document) -> (dw: DocumentWithMetadata)
        requires
            self@.wf(),
        ensures
            self@.is_hydrated(*d, dw),
            doc_row_of(dw) == *d,
    {
        let labels = self.labels.read(&d.id);
        let metadata: Option<DocumentMetadata> = match self.find_meta(&d.id) {
            Option::Some(mi) => {
                let m = &self.metadata[mi];
                proof {
                    self@.lemma_meta_at(mi as int);
                }
                Option::Some(
                    DocumentMetadata {
                        pov: clone_opt_string(&m.pov),
                        setting: clone_opt_string(&m.setting),
                        characters: self.characters.read(&d.id),
                        keywords: self.keywords.read(&d.id),
                        event_date: clone_opt_string(&m.event_date),
                        importance: clone_opt_string(&m.importance),
                        content_format: clone_opt_string(&m.content_format),
                        visibility: clone_opt_string(&m.visibility),
                        ai_assisted: m.ai_assisted,
                        version: m.version,
                        custom_fields: clone_opt_string(&m.custom_fields),
                    },
                )
            },
            Option::None => Option::None,
        };
        let dw = DocumentWithMetadata {
            id: d.id.clone(),
            project_id: d.project_id.clone(),
            parent_id: clone_opt_string(&d.parent_id),
            title: d.title.clone(),
            content: clone_opt_string(&d.content),
            synopsis: clone_opt_string(&d.synopsis),
            doc_type: d.doc_type.clone(),
            status: d.status.clone(),
            word_count: d.word_count,
            target_word_count: d.target_word_count,
            position: d.position,
            created_at: d.created_at.clone(),
            last_modified: d.last_modified.clone(),
            labels,
            metadata,
        };
        proof {
            assert(doc_row_of(dw) =~= *d);
        }
        dw
    }

    /// Reads one document, hydrated. Fails with `NotFound` exactly when no
    /// document of that id exists.
    pub fn get_document(&self, id: &String) -> (r: Result<DocumentWithMetadata, Error>)
        requires
            self@.wf(),
        ensures
            r matches Ok(dw) ==> self@.has_doc(id@) && self@.is_hydrated(
                self@.doc_named(id@),
                dw,
            ),
            r matches Err(e) ==> e == Error::NotFound && !self@.has_doc(id@),
    {
        match self.find_doc(id) {
            Option::Some(i) => {
                proof {
                    self@.lemma_doc_at(i as int);
                }
                Ok(self.hydrate_doc(&self.documents[i]))
            },
            Option::None => Err(Error::NotFound),
        }
    }

    /// Reads every template row, in ascending name order: exactly the
    /// stored rows, ordered by `name` in the store's lexicographic text
    /// order.
    pub fn get_all_templates(&self) -> (r: Result<Vec<ProjectTemplate>, Error>)
        ensures
            r matches Ok(v) && v@.to_multiset() == self@.templates.to_multiset()
                && crate::sort::templates_by_name(v@),
    {
        let mut out: Vec<ProjectTemplate> = Vec::new();
        let mut i: usize = 0;
        while i < self.templates.len()
            invariant
                i <= self.templates.len(),
                out@ =~= self@.templates.take(i as int),
            decreases self.templates.len() - i,
        {
            out.push(self.templates[i].clone());
            i = i + 1;
        }
        proof {
            assert(out@ =~= self@.templates);
        }
        Ok(crate::sort::sort_templates_by_name(out))
    }

    /// Reads one template row. Fails with `NotFound` exactly when no
    /// template of that id exists.
    pub fn get_template_by_id(&self, id: &String) -> (r: Result<ProjectTemplate, Error>)
        requires
            self@.wf(),
        ensures
            r matches Ok(t) ==> self@.has_template(id@) && t == self@.template_named(id@),
            r matches Err(e) ==> e == Error::NotFound && !self@.has_template(id@),
    {
        match self.find_template(id) {
            Option::Some(i) => {
                proof {
                    self@.lemma_template_at(i as int);
                }
                Ok(self.templates[i].clone())
            },
            Option::None => Err(Error::NotFound),
        }
    }

    /// Reads the tag set of a template, in storage order; an unknown
    /// template simply has no tags.
    pub fn get_template_tags(&self, template_id: &String) -> (r: Result<Vec<String>, Error>)
        ensures
            r matches Ok(v) && v@ == crate::sat::values_of(self@.template_tags, template_id@),
    {
        Ok(self.template_tags.read(template_id))
    }

    /// Builds the hydrated form of a template document row.
    pub(crate) fn hydrate_tdoc(&self, d: &TemplateDocument) -> (dw: TemplateDocumentWithMetadata)
        requires
            self@.wf(),
        ensures
            self@.is_tdoc_hydrated(*d, dw),
            tdoc_row_of(dw) == *d,
    {
        let labels = self.template_labels.read(&d.id);
        let metadata: Option<TemplateDocumentMetadata> = match self.find_tmeta(&d.id) {
            Option::Some(mi) => {
                let m = &self.template_metadata[mi];
                proof {
                    self@.lemma_tmeta_at(mi as int);
                }
                Option::Some(
                    TemplateDocumentMetadata {
                        pov: clone_opt_string(&m.pov),
                        setting: clone_opt_string(&m.setting),
                        characters: self.template_characters.read(&d.id),
                        keywords: self.template_keywords.read(&d.id),
                        event_date: clone_opt_string(&m.event_date),
                        importance: clone_opt_string(&m.importance),
                        content_format: clone_opt_string(&m.content_format),
                        visibility: clone_opt_string(&m.visibility),
                        ai_assisted: m.ai_assisted,
                        custom_fields: clone_opt_string(&m.custom_fields),
                    },
                )
            },
            Option::None => Option::None,
        };
        let dw = TemplateDocumentWithMetadata {
            id: d.id.clone(),
            template_id: d.template_id.clone(),
            parent_id: clone_opt_string(&d.parent_id),
            title: d.title.clone(),
            content: clone_opt_string(&d.content),
            synopsis: clone_opt_string(&d.synopsis),
            doc_type: d.doc_type.clone(),
            status: d.status.clone(),
            position: d.position,
            labels,
            metadata,
        };
        proof {
            assert(tdoc_row_of(dw) =~= *d);
        }
        dw
    }

    /// Reads every document of a project, hydrated, ordered by `position`.
    /// An unknown project simply has no documents.
    pub fn get_project_documents(&self, project_id: &String) -> (r: Result<
        Vec<DocumentWithMetadata>,
        Error,
    >)
        requires
            self@.wf(),
        ensures
            r matches Ok(v) && {
                &&& v@.map_values(|dw: DocumentWithMetadata| doc_row_of(dw)).to_multiset()
                    == self@.documents.filter(
                    |d: Document| d.project_id@ == project_id@,
                ).to_multiset()
                &&& docs_sorted(v@.map_values(|dw: DocumentWithMetadata| doc_row_of(dw)))
                &&& forall|i: int|
                    0 <= i < v@.len() ==> self@.is_hydrated(doc_row_of(#[trigger] v@[i]), v@[i])
            },
    {
        let mut rows: Vec<Document> = Vec::new();
        let mut i: usize = 0;
        while i < self.documents.len()
            invariant
                i <= self.documents.len(),
                rows@ == self@.documents.take(i as int).filter(
                    |d: Document| d.project_id@ == project_id@,
                ),
            decreases self.documents.len() - i,
        {
            proof {
                lemma_take_succ(self@.documents, i as int);
                lemma_filter_push(
                    self@.documents.take(i as int),
                    self@.documents[i as int],
                    |d: Document| d.project_id@ == project_id@,
                );
            }
            if str_eq(&self.documents[i].project_id, project_id) {
                rows.push(self.documents[i].clone());
            }
            i = i + 1;
        }
        proof {
            assert(self@.documents.take(self@.documents.len() as int) =~= self@.documents);
        }
        let sorted = sort_docs(rows);
        let mut out: Vec<DocumentWithMetadata> = Vec::new();
        let mut j: usize = 0;
        while j < sorted.len()
            invariant
                self@.wf(),
                j <= sorted.len(),
                out@.len() == j,
                forall|t: int|
                    0 <= t < j ==> self@.is_hydrated(doc_row_of(#[trigger] out@[t]), out@[t]),
                forall|t: int| 0 <= t < j ==> doc_row_of(#[trigger] out@[t]) == sorted@[t],
            decreases sorted.len() - j,
        {
            out.push(self.hydrate_doc(&sorted[j]));
            j = j + 1;
        }
        proof {
            assert(out@.map_values(|dw: DocumentWithMetadata| doc_row_of(dw)) =~= sorted@);
        }
        Ok(out)
    }

    /// Reads every document of a template, hydrated, ordered by `position`.
    /// An unknown template simply has no documents.
    pub fn get_template_documents(&self, template_id: &String) -> (r: Result<
        Vec<TemplateDocumentWithMetadata>,
        Error,
    >)
        requires
            self@.wf(),
        ensures
            r matches Ok(v) && {
                &&& v@.map_values(|dw: TemplateDocumentWithMetadata| tdoc_row_of(dw)).to_multiset()
                    == self@.template_documents.filter(
                    |d: TemplateDocument| d.template_id@ == template_id@,
                ).to_multiset()
                &&& tdocs_sorted(
                    v@.map_values(|dw: TemplateDocumentWithMetadata| tdoc_row_of(dw)),
                )
                &&& forall|i: int|
                    0 <= i < v@.len() ==> self@.is_tdoc_hydrated(
                        tdoc_row_of(#[trigger] v@[i]),
                        v@[i],
                    )
            },
    {
        let mut rows: Vec<TemplateDocument> = Vec::new();
        let mut i: usize = 0;
        while i < self.template_documents.len()
            invariant
                i <= self.template_documents.len(),
                rows@ == self@.template_documents.take(i as int).filter(
                    |d: TemplateDocument| d.template_id@ == template_id@,
                ),
            decreases self.template_documents.len() - i,
        {
            proof {
                lemma_take_succ(self@.template_documents, i as int);
                lemma_filter_push(
                    self@.template_documents.take(i as int),
                    self@.template_documents[i as int],
                    |d: TemplateDocument| d.template_id@ == template_id@,
                );
            }
            if str_eq(&self.template_documents[i].template_id, template_id) {
                rows.push(self.template_documents[i].clone());
            }
            i = i + 1;
        }
        proof {
            assert(self@.template_documents.take(self@.template_documents.len() as int)
                =~= self@.template_documents);
        }
        let sorted = sort_tdocs(rows);
        let mut out: Vec<TemplateDocumentWithMetadata> = Vec::new();
        let mut j: usize = 0;
        while j < sorted.len()
            invariant
                self@.wf(),
                j <= sorted.len(),
                out@.len() == j,
                forall|t: int|
                    0 <= t < j ==> self@.is_tdoc_hydrated(
                        tdoc_row_of(#[trigger] out@[t]),
                        out@[t],
                    ),
                forall|t: int| 0 <= t < j ==> tdoc_row_of(#[trigger] out@[t]) == sorted@[t],
            decreases sorted.len() - j,
        {
            out.push(self.hydrate_tdoc(&sorted[j]));
            j = j + 1;
        }
        proof {
            assert(out@.map_values(|dw: TemplateDocumentWithMetadata| tdoc_row_of(dw))
                =~= sorted@);
        }
        Ok(out)
    }
}

} // verus!
