//! The data model: projects, documents, their metadata, satellite rows, and
//! the request shapes consumed by the store operations.
//!
//! Optional fields of the `Update*` shapes follow the structured-patch
//! reading: an absent field means "leave unchanged", never "set to empty".

use vstd::prelude::*;

verus! {

/// The view of an optional string: its character sequence, if present.
pub open spec fn opt_sv(o: Option<String>) -> Option<Seq<char>> {
    match o {
        Option::None => Option::<Seq<char>>::None,
        Option::Some(s) => Option::Some(s@),
    }
}

/// The views of a sequence of strings.
pub open spec fn strs_sv(v: Seq<String>) -> Seq<Seq<char>> {
    v.map_values(|s: String| s@)
}

/// Compares two strings by content.
pub fn str_eq(a: &String, b: &String) -> (r: bool)
    ensures
        r == (a@ == b@),
{
    *a == *b
}

/// Compares two optional strings by content.
pub fn opt_str_eq(a: &Option<String>, b: &Option<String>) -> (r: bool)
    ensures
        r == (opt_sv(*a) == opt_sv(*b)),
{
    match (a, b) {
        (Option::None, Option::None) => true,
        (Option::Some(x), Option::Some(y)) => {
            proof {
                if x@ == y@ {
                    assert(opt_sv(*a) == opt_sv(*b));
                }
            }
            *x == *y
        },
        _ => {
            proof {
                assert(opt_sv(*a) != opt_sv(*b));
            }
            false
        },
    }
}

/// Whether `needle`'s content stands in `hay`.
pub fn vec_contains_string(hay: &Vec<String>, needle: &String) -> (r: bool)
    ensures
        r == strs_sv(hay@).contains(needle@),
{
    let mut i: usize = 0;
    while i < hay.len()
        invariant
            i <= hay.len(),
            forall|k: int| 0 <= k < i ==> strs_sv(hay@)[k] != needle@,
        decreases hay.len() - i,
    {
        if str_eq(&hay[i], needle) {
            assert(strs_sv(hay@)[i as int] == needle@);
            return true;
        }
        i = i + 1;
    }
    false
}

/// Copies an optional string.
pub fn clone_opt_string(o: &Option<String>) -> (r: Option<String>)
    ensures
        r == *o,
{
    match o {
        Option::None => Option::None,
        Option::Some(s) => Option::Some(s.clone()),
    }
}

/// A project: the root of one document forest.
#[derive(Debug, PartialEq, Eq)]
#[verifier::ext_equal]
pub struct Project {
    pub id: String,
    pub name: String,
    pub description: Option<String>,
    pub status: String,
    pub created_at: String,
    pub last_modified: String,
}

impl Clone for Project {
    fn clone(&self) -> (r: Self)
        ensures
            r == *self,
    {
        Project {
            id: self.id.clone(),
            name: self.name.clone(),
            description: clone_opt_string(&self.description),
            status: self.status.clone(),
            created_at: self.created_at.clone(),
            last_modified: self.last_modified.clone(),
        }
    }
}

/// Fields for creating a new project.
#[derive(Debug, PartialEq, Eq)]
#[verifier::ext_equal]
pub struct NewProject {
    pub name: String,
    pub description: Option<String>,
}

/// A partial patch for a project: absent fields are left unchanged.
#[derive(Debug, PartialEq, Eq)]
#[verifier::ext_equal]
pub struct UpdateProject {
    pub id: String,
    pub name: Option<String>,
    pub description: Option<String>,
    pub status: Option<String>,
}

/// One document row: a node of a project's forest. `parent_id` of `None`
/// makes it a root; `position` is its rank within its sibling group.
#[derive(Debug, PartialEq, Eq)]
#[verifier::ext_equal]
pub struct Document {
    pub id: String,
    pub project_id: String,
    pub parent_id: Option<String>,
    pub title: String,
    pub content: Option<String>,
    pub synopsis: Option<String>,
    pub doc_type: String,
    pub status: String,
    pub word_count: i32,
    pub target_word_count: Option<i32>,
    pub position: i32,
    pub created_at: String,
    pub last_modified: String,
}

impl Clone for Document {
    fn clone(&self) -> (r: Self)
        ensures
            r == *self,
    {
        Document {
            id: self.id.clone(),
            project_id: self.project_id.clone(),
            parent_id: clone_opt_string(&self.parent_id),
            title: self.title.clone(),
            content: clone_opt_string(&self.content),
            synopsis: clone_opt_string(&self.synopsis),
            doc_type: self.doc_type.clone(),
            status: self.status.clone(),
            word_count: self.word_count,
            target_word_count: self.target_word_count,
            position: self.position,
            created_at: self.created_at.clone(),
            last_modified: self.last_modified.clone(),
        }
    }
}

/// A document hydrated with its label set and metadata, as handed to callers.
#[derive(Debug, PartialEq, Eq)]
#[verifier::ext_equal]
pub struct DocumentWithMetadata {
    pub id: String,
    pub project_id: String,
    pub parent_id: Option<String>,
    pub title: String,
    pub content: Option<String>,
    pub synopsis: Option<String>,
    pub doc_type: String,
    pub status: String,
    pub word_count: i32,
    pub target_word_count: Option<i32>,
    pub position: i32,
    pub created_at: String,
    pub last_modified: String,
    pub labels: Vec<String>,
    pub metadata: Option<DocumentMetadata>,
}

/// A document's structured metadata, hydrated with its character and keyword
/// sets.
#[derive(Debug, PartialEq, Eq)]
#[verifier::ext_equal]
pub struct DocumentMetadata {
    pub pov: Option<String>,
    pub setting: Option<String>,
    pub characters: Vec<String>,
    pub keywords: Vec<String>,
    pub event_date: Option<String>,
    pub importance: Option<String>,
    pub content_format: Option<String>,
    pub visibility: Option<String>,
    pub ai_assisted: bool,
    pub version: i32,
    pub custom_fields: Option<String>,
}

/// Fields for creating a new document.
#[derive(Debug, PartialEq, Eq)]
#[verifier::ext_equal]
pub struct NewDocument {
    pub project_id: String,
    pub parent_id: Option<String>,
    pub title: String,
    pub content: Option<String>,
    pub synopsis: Option<String>,
    pub doc_type: String,
    pub status: Option<String>,
    pub word_count: Option<i32>,
    pub target_word_count: Option<i32>,
    pub position: Option<i32>,
    pub labels: Option<Vec<String>>,
    pub metadata: Option<NewDocumentMetadata>,
}

/// Metadata fields for a newly created document.
#[derive(Debug, PartialEq, Eq)]
#[verifier::ext_equal]
pub struct NewDocumentMetadata {
    pub pov: Option<String>,
    pub setting: Option<String>,
    pub characters: Option<Vec<String>>,
    pub keywords: Option<Vec<String>>,
    pub event_date: Option<String>,
    pub importance: Option<String>,
    pub content_format: Option<String>,
    pub visibility: Option<String>,
    pub ai_assisted: Option<bool>,
    pub custom_fields: Option<String>,
}

/// A partial patch for a document: absent fields are left unchanged.
#[derive(Debug, PartialEq, Eq)]
#[verifier::ext_equal]
pub struct UpdateDocument {
    pub id: String,
    pub project_id: Option<String>,
    pub parent_id: Option<String>,
    pub title: Option<String>,
    pub content: Option<String>,
    pub synopsis: Option<String>,
    pub doc_type: Option<String>,
    pub status: Option<String>,
    pub word_count: Option<i32>,
    pub target_word_count: Option<i32>,
    pub position: Option<i32>,
    pub labels: Option<Vec<String>>,
    pub metadata: Option<UpdateDocumentMetadata>,
}

/// A partial patch for a document's metadata. An absent `version` means
/// "increment the stored version by one".
#[derive(Debug, PartialEq, Eq)]
#[verifier::ext_equal]
pub struct UpdateDocumentMetadata {
    pub pov: Option<String>,
    pub setting: Option<String>,
    pub characters: Option<Vec<String>>,
    pub keywords: Option<Vec<String>>,
    pub event_date: Option<String>,
    pub importance: Option<String>,
    pub content_format: Option<String>,
    pub visibility: Option<String>,
    pub ai_assisted: Option<bool>,
    pub version: Option<i32>,
    pub custom_fields: Option<String>,
}

/// One tree mutation request: a closed sum over the four atomic operations.
#[derive(Debug, PartialEq, Eq)]
#[verifier::ext_equal]
pub enum DocumentTreeOperation {
    Add { document: NewDocument, parent_id: Option<String> },
    Update { id: String, updates: UpdateDocument },
    Delete { id: String },
    Move { id: String, new_parent_id: Option<String>, new_position: i32 },
}

/// The row fields of a hydrated document.
pub open spec fn doc_row_of(dw: DocumentWithMetadata) -> Document {
    Document {
        id: dw.id,
        project_id: dw.project_id,
        parent_id: dw.parent_id,
        title: dw.title,
        content: dw.content,
        synopsis: dw.synopsis,
        doc_type: dw.doc_type,
        status: dw.status,
        word_count: dw.word_count,
        target_word_count: dw.target_word_count,
        position: dw.position,
        created_at: dw.created_at,
        last_modified: dw.last_modified,
    }
}

/// The row fields of a hydrated template document.
pub open spec fn tdoc_row_of(dw: TemplateDocumentWithMetadata) -> TemplateDocument {
    TemplateDocument {
        id: dw.id,
        template_id: dw.template_id,
        parent_id: dw.parent_id,
        title: dw.title,
        content: dw.content,
        synopsis: dw.synopsis,
        doc_type: dw.doc_type,
        status: dw.status,
        position: dw.position,
    }
}

/// The stored metadata row of one document, without its character and keyword
/// sets, which are satellite rows of their own.
#[derive(Debug, PartialEq, Eq)]
#[verifier::ext_equal]
pub struct MetadataRow {
    pub document_id: String,
    pub pov: Option<String>,
    pub setting: Option<String>,
    pub event_date: Option<String>,
    pub importance: Option<String>,
    pub content_format: Option<String>,
    pub visibility: Option<String>,
    pub ai_assisted: bool,
    pub version: i32,
    pub custom_fields: Option<String>,
}

impl Clone for MetadataRow {
    fn clone(&self) -> (r: Self)
        ensures
            r == *self,
    {
        MetadataRow {
            document_id: self.document_id.clone(),
            pov: clone_opt_string(&self.pov),
            setting: clone_opt_string(&self.setting),
            event_date: clone_opt_string(&self.event_date),
            importance: clone_opt_string(&self.importance),
            content_format: clone_opt_string(&self.content_format),
            visibility: clone_opt_string(&self.visibility),
            ai_assisted: self.ai_assisted,
            version: self.version,
            custom_fields: clone_opt_string(&self.custom_fields),
        }
    }
}

/// A reusable project template: a named document forest that can be cloned
/// under a new project.
#[derive(Debug, PartialEq, Eq)]
#[verifier::ext_equal]
pub struct ProjectTemplate {
    pub id: String,
    pub name: String,
    pub description: Option<String>,
    pub structure: String,
    pub author_name: Option<String>,
    pub author_email: Option<String>,
    pub preview_image: Option<String>,
    pub category: Option<String>,
    pub difficulty: Option<String>,
    pub estimated_time: Option<String>,
    pub created_at: String,
    pub last_modified: String,
}

impl Clone for ProjectTemplate {
    fn clone(&self) -> (r: Self)
        ensures
            r == *self,
    {
        ProjectTemplate {
            id: self.id.clone(),
            name: self.name.clone(),
            description: clone_opt_string(&self.description),
            structure: self.structure.clone(),
            author_name: clone_opt_string(&self.author_name),
            author_email: clone_opt_string(&self.author_email),
            preview_image: clone_opt_string(&self.preview_image),
            category: clone_opt_string(&self.category),
            difficulty: clone_opt_string(&self.difficulty),
            estimated_time: clone_opt_string(&self.estimated_time),
            created_at: self.created_at.clone(),
            last_modified: self.last_modified.clone(),
        }
    }
}

/// One document row of a template forest.
#[derive(Debug, PartialEq, Eq)]
#[verifier::ext_equal]
pub struct TemplateDocument {
    pub id: String,
    pub template_id: String,
    pub parent_id: Option<String>,
    pub title: String,
    pub content: Option<String>,
    pub synopsis: Option<String>,
    pub doc_type: String,
    pub status: String,
    pub position: i32,
}

impl Clone for TemplateDocument {
    fn clone(&self) -> (r: Self)
        ensures
            r == *self,
    {
        TemplateDocument {
            id: self.id.clone(),
            template_id: self.template_id.clone(),
            parent_id: clone_opt_string(&self.parent_id),
            title: self.title.clone(),
            content: clone_opt_string(&self.content),
            synopsis: clone_opt_string(&self.synopsis),
            doc_type: self.doc_type.clone(),
            status: self.status.clone(),
            position: self.position,
        }
    }
}

/// A template document hydrated with its label set and metadata.
#[derive(Debug, PartialEq, Eq)]
#[verifier::ext_equal]
pub struct TemplateDocumentWithMetadata {
    pub id: String,
    pub template_id: String,
    pub parent_id: Option<String>,
    pub title: String,
    pub content: Option<String>,
    pub synopsis: Option<String>,
    pub doc_type: String,
    pub status: String,
    pub position: i32,
    pub labels: Vec<String>,
    pub metadata: Option<TemplateDocumentMetadata>,
}

/// A template document's structured metadata, hydrated with its character and
/// keyword sets. Template metadata carries no version counter.
#[derive(Debug, PartialEq, Eq)]
#[verifier::ext_equal]
pub struct TemplateDocumentMetadata {
    pub pov: Option<String>,
    pub setting: Option<String>,
    pub characters: Vec<String>,
    pub keywords: Vec<String>,
    pub event_date: Option<String>,
    pub importance: Option<String>,
    pub content_format: Option<String>,
    pub visibility: Option<String>,
    pub ai_assisted: bool,
    pub custom_fields: Option<String>,
}

/// Fields for creating a new project template.
#[derive(Debug, PartialEq, Eq)]
#[verifier::ext_equal]
pub struct NewProjectTemplate {
    pub name: String,
    pub description: Option<String>,
    pub structure: String,
    pub author_name: Option<String>,
    pub author_email: Option<String>,
    pub preview_image: Option<String>,
    pub category: Option<String>,
    pub difficulty: Option<String>,
    pub estimated_time: Option<String>,
    pub tags: Option<Vec<String>>,
    pub documents: Option<Vec<NewTemplateDocument>>,
}

/// Fields for creating one document of a new template.
#[derive(Debug, PartialEq, Eq)]
#[verifier::ext_equal]
pub struct NewTemplateDocument {
    pub parent_id: Option<String>,
    pub title: String,
    pub content: Option<String>,
    pub synopsis: Option<String>,
    pub doc_type: String,
    pub status: Option<String>,
    pub position: Option<i32>,
    pub labels: Option<Vec<String>>,
    pub metadata: Option<NewTemplateDocumentMetadata>,
}

/// Metadata fields for a newly created template document.
#[derive(Debug, PartialEq, Eq)]
#[verifier::ext_equal]
pub struct NewTemplateDocumentMetadata {
    pub pov: Option<String>,
    pub setting: Option<String>,
    pub characters: Option<Vec<String>>,
    pub keywords: Option<Vec<String>>,
    pub event_date: Option<String>,
    pub importance: Option<String>,
    pub content_format: Option<String>,
    pub visibility: Option<String>,
    pub ai_assisted: Option<bool>,
    pub custom_fields: Option<String>,
}

/// A partial patch for a project template: absent fields are left unchanged.
#[derive(Debug, PartialEq, Eq)]
#[verifier::ext_equal]
pub struct UpdateProjectTemplate {
    pub id: String,
    pub name: Option<String>,
    pub description: Option<String>,
    pub structure: Option<String>,
    pub author_name: Option<String>,
    pub author_email: Option<String>,
    pub preview_image: Option<String>,
    pub category: Option<String>,
    pub difficulty: Option<String>,
    pub estimated_time: Option<String>,
    pub tags: Option<Vec<String>>,
}

/// The stored metadata row of one template document.
#[derive(Debug, PartialEq, Eq)]
#[verifier::ext_equal]
pub struct TemplateMetadataRow {
    pub document_id: String,
    pub pov: Option<String>,
    pub setting: Option<String>,
    pub event_date: Option<String>,
    pub importance: Option<String>,
    pub content_format: Option<String>,
    pub visibility: Option<String>,
    pub ai_assisted: bool,
    pub custom_fields: Option<String>,
}

impl Clone for TemplateMetadataRow {
    fn clone(&self) -> (r: Self)
        ensures
            r == *self,
    {
        TemplateMetadataRow {
            document_id: self.document_id.clone(),
            pov: clone_opt_string(&self.pov),
            setting: clone_opt_string(&self.setting),
            event_date: clone_opt_string(&self.event_date),
            importance: clone_opt_string(&self.importance),
            content_format: clone_opt_string(&self.content_format),
            visibility: clone_opt_string(&self.visibility),
            ai_assisted: self.ai_assisted,
            custom_fields: clone_opt_string(&self.custom_fields),
        }
    }
}

} // verus!
