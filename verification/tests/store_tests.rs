use inkwell_core::error::Error;
use inkwell_core::ident::{get_current_timestamp, u64_to_fixed_string, u64_to_string};
use inkwell_core::store::Store;
use inkwell_core::types::{
    DocumentTreeOperation, NewDocument, NewDocumentMetadata, NewProject, NewProjectTemplate,
    NewTemplateDocument, NewTemplateDocumentMetadata, Project, ProjectTemplate, TemplateDocument,
    UpdateDocument, UpdateDocumentMetadata, UpdateProject, UpdateProjectTemplate,
};

fn s(v: &str) -> String {
    v.to_owned()
}

fn new_doc(project_id: &str, title: &str, parent: Option<&str>) -> NewDocument {
    NewDocument {
        project_id: s(project_id),
        parent_id: parent.map(s),
        title: s(title),
        content: None,
        synopsis: None,
        doc_type: s("chapter"),
        status: None,
        word_count: None,
        target_word_count: None,
        position: None,
        labels: None,
        metadata: None,
    }
}

fn empty_update(id: &str) -> UpdateDocument {
    UpdateDocument {
        id: s(id),
        project_id: None,
        parent_id: None,
        title: None,
        content: None,
        synopsis: None,
        doc_type: None,
        status: None,
        word_count: None,
        target_word_count: None,
        position: None,
        labels: None,
        metadata: None,
    }
}

fn empty_meta_update() -> UpdateDocumentMetadata {
    UpdateDocumentMetadata {
        pov: None,
        setting: None,
        characters: None,
        keywords: None,
        event_date: None,
        importance: None,
        content_format: None,
        visibility: None,
        ai_assisted: None,
        version: None,
        custom_fields: None,
    }
}

fn store_with_project(pid: &str) -> Store {
    let mut st = Store::new();
    let p = NewProject { name: s("novel"), description: None };
    st.create_project_with(p, s(pid), s("100")).unwrap();
    st
}

#[test]
fn decimal_rendering_is_exact() {
    assert_eq!(u64_to_string(0), "0");
    assert_eq!(u64_to_string(7), "7");
    assert_eq!(u64_to_string(1234567890), "1234567890");
    assert_eq!(u64_to_string(u64::MAX), "18446744073709551615");
}

#[test]
fn timestamp_is_a_decimal_numeral() {
    let t = get_current_timestamp();
    assert!(!t.is_empty());
    assert!(t.chars().all(|c| c.is_ascii_digit()));
}

#[test]
fn error_messages() {
    assert_eq!(Error::NotFound.message(), "not found");
    assert_eq!(Error::StorageFault.message(), "storage fault");
    assert_eq!(Error::Conflict.message(), "conflict");
    assert_eq!(Error::SerializationFault.message(), "serialization fault");
}

#[test]
fn create_project_defaults_and_duplicate_id() {
    let mut st = Store::new();
    let p = st
        .create_project_with(
            NewProject { name: s("book"), description: Some(s("d")) },
            s("p1"),
            s("5"),
        )
        .unwrap();
    assert_eq!(p.id, "p1");
    assert_eq!(p.name, "book");
    assert_eq!(p.description, Some(s("d")));
    assert_eq!(p.status, "active");
    assert_eq!(p.created_at, "5");
    assert_eq!(p.last_modified, "5");
    let e = st
        .create_project_with(NewProject { name: s("x"), description: None }, s("p1"), s("6"))
        .unwrap_err();
    assert_eq!(e, Error::StorageFault);
    assert_eq!(st.get_all_projects().unwrap().len(), 1);
}

#[test]
fn update_project_patches_and_touches() {
    let mut st = store_with_project("p1");
    let u = UpdateProject { id: s("p1"), name: Some(s("renamed")), description: None, status: None };
    let p = st.update_project(u).unwrap();
    assert_eq!(p.name, "renamed");
    assert_eq!(p.status, "active");
    assert_eq!(p.created_at, "100");
    let missing = UpdateProject { id: s("nope"), name: None, description: None, status: None };
    assert_eq!(st.update_project(missing).unwrap_err(), Error::NotFound);
}

#[test]
fn migrate_inserts_or_ignores() {
    let mut st = store_with_project("p1");
    let rows = vec![
        Project {
            id: s("p1"),
            name: s("ignored"),
            description: None,
            status: s("active"),
            created_at: s("1"),
            last_modified: s("1"),
        },
        Project {
            id: s("p2"),
            name: s("kept"),
            description: None,
            status: s("active"),
            created_at: s("2"),
            last_modified: s("2"),
        },
        Project {
            id: s("p2"),
            name: s("second copy ignored"),
            description: None,
            status: s("active"),
            created_at: s("3"),
            last_modified: s("3"),
        },
    ];
    st.migrate_projects(rows).unwrap();
    let all = st.get_all_projects().unwrap();
    assert_eq!(all.len(), 2);
    // Most recently modified first, in the store's text order: "2" > "100".
    assert_eq!(all[0].name, "kept");
    assert_eq!(all[1].name, "novel");
}

#[test]
fn delete_project_cascades() {
    let mut st = store_with_project("p1");
    st.create_document_with(new_doc("p1", "a", None), s("d1"), s("101")).unwrap();
    st.delete_project(&s("p1")).unwrap();
    assert_eq!(st.get_all_projects().unwrap().len(), 0);
    assert_eq!(st.get_document(&s("d1")).unwrap_err(), Error::NotFound);
}

// Round-trip: a created node reads back field for field, with the
// documented defaults applied for the omitted fields.
#[test]
fn add_then_read_round_trip() {
    let mut st = store_with_project("p1");
    let mut doc = new_doc("p1", "opening", None);
    doc.content = Some(s("text"));
    doc.labels = Some(vec![s("draft"), s("act-one")]);
    doc.metadata = Some(NewDocumentMetadata {
        pov: Some(s("first-person")),
        setting: None,
        characters: Some(vec![s("ada")]),
        keywords: None,
        event_date: None,
        importance: None,
        content_format: None,
        visibility: None,
        ai_assisted: None,
        custom_fields: None,
    });
    let created = st.create_document_with(doc, s("d1"), s("101")).unwrap();
    assert_eq!(created.id, "d1");
    assert_eq!(created.status, "not-started");
    assert_eq!(created.word_count, 0);
    assert_eq!(created.position, 0);
    let read = st.get_document(&s("d1")).unwrap();
    assert_eq!(read, created);
    let meta = read.metadata.unwrap();
    assert_eq!(meta.version, 1);
    assert_eq!(meta.content_format, Some(s("rich_text")));
    assert_eq!(meta.visibility, Some(s("private")));
    assert_eq!(meta.characters, vec![s("ada")]);
    assert!(meta.keywords.is_empty());
}

// Positions are a contiguous 0..n-1 permutation after adds with defaulted
// positions.
#[test]
fn add_positions_are_contiguous() {
    let mut st = store_with_project("p1");
    for (i, (title, id)) in [("a", "d1"), ("b", "d2"), ("c", "d3")].iter().enumerate() {
        let d = st
            .create_document_with(new_doc("p1", title, None), s(id), s("101"))
            .unwrap();
        assert_eq!(d.position, i as i32);
    }
    let mut positions: Vec<i32> = st
        .get_project_documents(&s("p1"))
        .unwrap()
        .iter()
        .map(|d| d.position)
        .collect();
    positions.sort();
    assert_eq!(positions, vec![0, 1, 2]);
}

// The end-to-end scenario: two roots, a move, then a delete.
#[test]
fn end_to_end_scenario() {
    let mut st = store_with_project("p1");
    let a = st.create_document_with(new_doc("p1", "A", None), s("a"), s("101")).unwrap();
    assert_eq!(a.position, 0);
    let b = st.create_document_with(new_doc("p1", "B", None), s("b"), s("102")).unwrap();
    assert_eq!(b.position, 1);
    st.move_document_with(&s("b"), None, 0, s("103")).unwrap();
    let docs = st.get_project_documents(&s("p1")).unwrap();
    assert_eq!(docs.len(), 2);
    assert_eq!(docs[0].id, "b");
    assert_eq!(docs[0].position, 0);
    assert_eq!(docs[1].id, "a");
    assert_eq!(docs[1].position, 1);
    st.delete_document_with(&s("a"), s("104")).unwrap();
    let docs = st.get_project_documents(&s("p1")).unwrap();
    assert_eq!(docs.len(), 1);
    assert_eq!(docs[0].id, "b");
    assert_eq!(docs[0].position, 0);
}

// Move shifts the occupying-or-after siblings by one and leaves the vacated
// group's gap alone: the documented behavior, pinned.
#[test]
fn move_shifts_target_and_leaves_vacated_gap() {
    let mut st = store_with_project("p1");
    st.create_document_with(new_doc("p1", "root1", None), s("r1"), s("101")).unwrap();
    st.create_document_with(new_doc("p1", "root2", None), s("r2"), s("101")).unwrap();
    for (t, id) in [("c0", "c0"), ("c1", "c1"), ("c2", "c2")] {
        st.create_document_with(new_doc("p1", t, Some("r1")), s(id), s("102")).unwrap();
    }
    // Move c1 out of r1's group into r2's group at position 0.
    st.move_document_with(&s("c1"), Some(s("r2")), 0, s("103")).unwrap();
    let all = st.get_project_documents(&s("p1")).unwrap();
    let c0 = all.iter().find(|d| d.id == "c0").unwrap();
    let c1 = all.iter().find(|d| d.id == "c1").unwrap();
    let c2 = all.iter().find(|d| d.id == "c2").unwrap();
    assert_eq!(c1.parent_id, Some(s("r2")));
    assert_eq!(c1.position, 0);
    // The vacated group keeps its gap: c0 stays at 0, c2 stays at 2.
    assert_eq!(c0.position, 0);
    assert_eq!(c2.position, 2);
}

// A failed delete leaves the node, its metadata and its satellite rows all
// untouched.
#[test]
fn delete_is_atomic() {
    let mut st = store_with_project("p1");
    let mut doc = new_doc("p1", "parent", None);
    doc.labels = Some(vec![s("keep")]);
    st.create_document_with(doc, s("d1"), s("101")).unwrap();
    st.create_document_with(new_doc("p1", "child", Some("d1")), s("d2"), s("102")).unwrap();
    // The node still has a child: the delete is refused whole.
    let e = st.delete_document_with(&s("d1"), s("103")).unwrap_err();
    assert_eq!(e, Error::StorageFault);
    let read = st.get_document(&s("d1")).unwrap();
    assert_eq!(read.labels, vec![s("keep")]);
    // After the child goes, the delete removes the row and its satellites.
    st.delete_document_with(&s("d2"), s("104")).unwrap();
    st.delete_document_with(&s("d1"), s("105")).unwrap();
    assert_eq!(st.get_document(&s("d1")).unwrap_err(), Error::NotFound);
}

#[test]
fn delete_unknown_document_is_not_found() {
    let mut st = store_with_project("p1");
    assert_eq!(st.delete_document_with(&s("ghost"), s("101")).unwrap_err(), Error::NotFound);
}

// An omitted version increments by exactly one; a supplied version
// overrides the increment.
#[test]
fn update_version_semantics() {
    let mut st = store_with_project("p1");
    let mut doc = new_doc("p1", "x", None);
    doc.metadata = Some(NewDocumentMetadata {
        pov: None,
        setting: None,
        characters: None,
        keywords: None,
        event_date: None,
        importance: None,
        content_format: None,
        visibility: None,
        ai_assisted: None,
        custom_fields: None,
    });
    st.create_document_with(doc, s("d1"), s("101")).unwrap();

    let mut u = empty_update("d1");
    u.metadata = Some(empty_meta_update());
    let r = st.update_document_with(u, s("102")).unwrap();
    assert_eq!(r.metadata.as_ref().unwrap().version, 2);

    let mut u = empty_update("d1");
    u.metadata = Some(empty_meta_update());
    let r = st.update_document_with(u, s("103")).unwrap();
    assert_eq!(r.metadata.as_ref().unwrap().version, 3);

    let mut u = empty_update("d1");
    let mut m = empty_meta_update();
    m.version = Some(42);
    u.metadata = Some(m);
    let r = st.update_document_with(u, s("104")).unwrap();
    assert_eq!(r.metadata.as_ref().unwrap().version, 42);
}

#[test]
fn update_preserves_absent_fields() {
    let mut st = store_with_project("p1");
    let mut doc = new_doc("p1", "old title", None);
    doc.content = Some(s("body"));
    st.create_document_with(doc, s("d1"), s("101")).unwrap();
    let mut u = empty_update("d1");
    u.title = Some(s("new title"));
    let r = st.update_document_with(u, s("102")).unwrap();
    assert_eq!(r.title, "new title");
    assert_eq!(r.content, Some(s("body")));
    assert_eq!(r.created_at, "101");
    assert_eq!(r.last_modified, "102");
}

#[test]
fn duplicate_labels_are_refused_whole() {
    let mut st = store_with_project("p1");
    let mut doc = new_doc("p1", "x", None);
    doc.labels = Some(vec![s("dup"), s("dup")]);
    let e = st.create_document_with(doc, s("d1"), s("101")).unwrap_err();
    assert_eq!(e, Error::StorageFault);
    assert_eq!(st.get_document(&s("d1")).unwrap_err(), Error::NotFound);
}

#[test]
fn create_document_checks_references() {
    let mut st = store_with_project("p1");
    let e = st
        .create_document_with(new_doc("ghost", "x", None), s("d1"), s("101"))
        .unwrap_err();
    assert_eq!(e, Error::NotFound);
    let e = st
        .create_document_with(new_doc("p1", "x", Some("ghost")), s("d1"), s("101"))
        .unwrap_err();
    assert_eq!(e, Error::NotFound);
}

#[test]
fn tree_operation_dispatch() {
    let mut st = store_with_project("p1");
    st.document_tree_operation(DocumentTreeOperation::Add {
        document: new_doc("p1", "via op", None),
        parent_id: None,
    })
    .unwrap();
    let docs = st.get_project_documents(&s("p1")).unwrap();
    assert_eq!(docs.len(), 1);
    assert_eq!(docs[0].title, "via op");
    let id = docs[0].id.clone();
    st.document_tree_operation(DocumentTreeOperation::Delete { id }).unwrap();
    assert_eq!(st.get_project_documents(&s("p1")).unwrap().len(), 0);
}

fn template_doc(id: &str, tid: &str, parent: Option<&str>, title: &str, pos: i32) -> TemplateDocument {
    TemplateDocument {
        id: s(id),
        template_id: s(tid),
        parent_id: parent.map(s),
        title: s(title),
        content: None,
        synopsis: None,
        doc_type: s("chapter"),
        status: s("not-started"),
        position: pos,
    }
}

fn sample_template() -> (ProjectTemplate, Vec<TemplateDocument>) {
    let t = ProjectTemplate {
        id: s("t1"),
        name: s("three-act"),
        description: None,
        structure: s("novel"),
        author_name: None,
        author_email: None,
        preview_image: None,
        category: None,
        difficulty: None,
        estimated_time: None,
        created_at: s("1"),
        last_modified: s("1"),
    };
    let docs = vec![
        template_doc("root", "t1", None, "root", 0),
        template_doc("childA", "t1", Some("root"), "child a", 0),
        template_doc("childB", "t1", Some("root"), "child b", 1),
        template_doc("grandchild", "t1", Some("childB"), "grandchild", 0),
    ];
    (t, docs)
}

#[test]
fn install_template_and_read_back() {
    let mut st = Store::new();
    let (t, docs) = sample_template();
    st.install_template(t, docs).unwrap();
    let read = st.get_template_by_id(&s("t1")).unwrap();
    assert_eq!(read.name, "three-act");
    let tdocs = st.get_template_documents(&s("t1")).unwrap();
    assert_eq!(tdocs.len(), 4);
}

#[test]
fn install_template_rejects_dangling_parent() {
    let mut st = Store::new();
    let (t, _) = sample_template();
    let docs = vec![template_doc("lone", "t1", Some("missing"), "x", 0)];
    assert_eq!(st.install_template(t, docs).unwrap_err(), Error::StorageFault);
    assert_eq!(st.get_template_by_id(&s("t1")).unwrap_err(), Error::NotFound);
}

// Template clone of root -> {childA, childB -> grandchild}: same shape,
// distinct ids, grandchild's new parent is childB's new id.
#[test]
fn clone_preserves_forest_shape() {
    let mut st = Store::new();
    let (t, docs) = sample_template();
    st.install_template(t, docs).unwrap();
    let ids = vec![s("n-root"), s("n-a"), s("n-b"), s("n-g")];
    let pid = st
        .create_project_from_template_with(&s("t1"), s("cloned"), None, s("p9"), ids, s("50"))
        .unwrap();
    assert_eq!(pid, "p9");
    let docs = st.get_project_documents(&s("p9")).unwrap();
    assert_eq!(docs.len(), 4);
    let by_title = |t: &str| docs.iter().find(|d| d.title == t).unwrap();
    let root = by_title("root");
    let a = by_title("child a");
    let b = by_title("child b");
    let g = by_title("grandchild");
    assert_eq!(root.parent_id, None);
    assert_eq!(a.parent_id, Some(root.id.clone()));
    assert_eq!(b.parent_id, Some(root.id.clone()));
    assert_eq!(g.parent_id, Some(b.id.clone()));
    assert_ne!(root.id, "root");
    assert_ne!(g.id, "grandchild");
    assert_eq!(b.position, 1);
    // The template itself is untouched.
    assert_eq!(st.get_template_documents(&s("t1")).unwrap().len(), 4);
}

#[test]
fn clone_unknown_template_is_not_found() {
    let mut st = Store::new();
    let e = st
        .create_project_from_template_with(&s("nope"), s("x"), None, s("p9"), vec![], s("50"))
        .unwrap_err();
    assert_eq!(e, Error::NotFound);
}

#[test]
fn generated_identities_are_usable() {
    let mut st = Store::new();
    let p = st.create_project(NewProject { name: s("auto"), description: None }).unwrap();
    assert_eq!(p.id.len(), 36);
    let d = st.create_document(new_doc(&p.id, "auto doc", None)).unwrap();
    assert_eq!(d.id.len(), 36);
    assert_eq!(d.position, 0);
    let read = st.get_document(&d.id).unwrap();
    assert_eq!(read, d);
}

#[test]
fn template_tags_default_empty() {
    let st = Store::new();
    assert!(st.get_template_tags(&s("t1")).unwrap().is_empty());
}

#[test]
fn update_template_patches_and_replaces_tags() {
    let mut st = Store::new();
    let (t, docs) = sample_template();
    st.install_template(t, docs).unwrap();
    let u = UpdateProjectTemplate {
        id: s("t1"),
        name: Some(s("renamed")),
        description: None,
        structure: None,
        author_name: Some(s("someone")),
        author_email: None,
        preview_image: None,
        category: None,
        difficulty: None,
        estimated_time: None,
        tags: Some(vec![s("fiction"), s("long-form")]),
    };
    let out = st.update_template_with(u, s("9")).unwrap();
    assert_eq!(out.name, "renamed");
    assert_eq!(out.structure, "novel");
    assert_eq!(out.author_name, Some(s("someone")));
    assert_eq!(out.created_at, "1");
    assert_eq!(out.last_modified, "9");
    assert_eq!(st.get_template_tags(&s("t1")).unwrap(), vec![s("fiction"), s("long-form")]);
    let missing = UpdateProjectTemplate {
        id: s("ghost"),
        name: None,
        description: None,
        structure: None,
        author_name: None,
        author_email: None,
        preview_image: None,
        category: None,
        difficulty: None,
        estimated_time: None,
        tags: None,
    };
    assert_eq!(st.update_template(missing).unwrap_err(), Error::NotFound);
}

#[test]
fn update_rejects_cross_project_parent() {
    let mut st = store_with_project("p1");
    st.create_project_with(NewProject { name: s("other"), description: None }, s("p2"), s("1"))
        .unwrap();
    st.create_document_with(new_doc("p1", "a", None), s("d1"), s("101")).unwrap();
    st.create_document_with(new_doc("p2", "b", None), s("d2"), s("101")).unwrap();
    let mut u = empty_update("d1");
    u.parent_id = Some(s("d2"));
    assert_eq!(st.update_document_with(u, s("102")).unwrap_err(), Error::StorageFault);
    // The failed patch left everything untouched.
    assert_eq!(st.get_document(&s("d1")).unwrap().last_modified, "101");
}

#[test]
fn timestamp_is_fixed_width() {
    let t = get_current_timestamp();
    assert_eq!(t.len(), 20);
    assert!(t.chars().all(|c| c.is_ascii_digit()));
}

#[test]
fn fixed_rendering_pads_and_sorts() {
    assert_eq!(u64_to_fixed_string(0), "00000000000000000000");
    assert_eq!(u64_to_fixed_string(42), "00000000000000000042");
    assert_eq!(u64_to_fixed_string(u64::MAX), "18446744073709551615");
    // Lexicographic order equals numeric order at a digit-count rollover.
    assert!(u64_to_fixed_string(9) < u64_to_fixed_string(10));
}

#[test]
fn project_listing_is_most_recent_first() {
    let mut st = Store::new();
    // Fixed-width stamps, as the timestamp source provides.
    st.create_project_with(
        NewProject { name: s("old"), description: None },
        s("p1"),
        s("00000000000000000010"),
    )
    .unwrap();
    st.create_project_with(
        NewProject { name: s("new"), description: None },
        s("p2"),
        s("00000000000000000020"),
    )
    .unwrap();
    let all = st.get_all_projects().unwrap();
    assert_eq!(all[0].name, "new");
    assert_eq!(all[1].name, "old");
    // An update stamps the current time, which moves the project first.
    let u = UpdateProject { id: s("p1"), name: None, description: None, status: None };
    st.update_project(u).unwrap();
    let all = st.get_all_projects().unwrap();
    assert_eq!(all[0].name, "old");
}

#[test]
fn template_listing_is_name_ascending() {
    let mut st = Store::new();
    let (mut t1, _) = sample_template();
    t1.id = s("tb");
    t1.name = s("beta");
    st.install_template(t1, vec![]).unwrap();
    let (mut t2, _) = sample_template();
    t2.id = s("ta");
    t2.name = s("alpha");
    st.install_template(t2, vec![]).unwrap();
    let all = st.get_all_templates().unwrap();
    assert_eq!(all[0].name, "alpha");
    assert_eq!(all[1].name, "beta");
}

fn new_template_payload() -> NewProjectTemplate {
    NewProjectTemplate {
        name: s("hero's journey"),
        description: Some(s("three acts")),
        structure: s("novel"),
        author_name: None,
        author_email: None,
        preview_image: None,
        category: Some(s("fiction")),
        difficulty: None,
        estimated_time: None,
        tags: Some(vec![s("classic"), s("outline")]),
        documents: Some(vec![
            NewTemplateDocument {
                parent_id: None,
                title: s("act one"),
                content: None,
                synopsis: None,
                doc_type: s("part"),
                status: None,
                position: None,
                labels: Some(vec![s("setup")]),
                metadata: Some(NewTemplateDocumentMetadata {
                    pov: Some(s("third-person")),
                    setting: None,
                    characters: Some(vec![s("hero")]),
                    keywords: None,
                    event_date: None,
                    importance: None,
                    content_format: None,
                    visibility: None,
                    ai_assisted: None,
                    custom_fields: None,
                }),
            },
            NewTemplateDocument {
                parent_id: Some(s("d-act")),
                title: s("opening scene"),
                content: None,
                synopsis: None,
                doc_type: s("scene"),
                status: Some(s("outlined")),
                position: None,
                labels: None,
                metadata: None,
            },
        ]),
    }
}

// The full template creation: generated identities, tags at creation,
// defaulted status and position, the parent remapped to the earlier batch
// entry it references, and per-document labels and metadata ingested.
#[test]
fn create_template_ingests_everything() {
    let mut st = Store::new();
    let t = st
        .create_template_with(
            new_template_payload(),
            s("t1"),
            vec![s("d-act"), s("d-scene")],
            s("7"),
        )
        .unwrap();
    assert_eq!(t.id, "t1");
    assert_eq!(t.name, "hero's journey");
    assert_eq!(t.created_at, "7");
    assert_eq!(t.last_modified, "7");
    assert_eq!(st.get_template_tags(&s("t1")).unwrap(), vec![s("classic"), s("outline")]);
    let docs = st.get_template_documents(&s("t1")).unwrap();
    assert_eq!(docs.len(), 2);
    let act = docs.iter().find(|d| d.title == "act one").unwrap();
    let scene = docs.iter().find(|d| d.title == "opening scene").unwrap();
    assert_eq!(act.id, "d-act");
    assert_eq!(act.parent_id, None);
    assert_eq!(act.status, "not-started");
    assert_eq!(act.position, 0);
    assert_eq!(act.labels, vec![s("setup")]);
    let meta = act.metadata.as_ref().unwrap();
    assert_eq!(meta.pov, Some(s("third-person")));
    assert_eq!(meta.content_format, Some(s("rich_text")));
    assert_eq!(meta.visibility, Some(s("private")));
    assert_eq!(meta.characters, vec![s("hero")]);
    // The scene references the act by its assigned identity.
    assert_eq!(scene.parent_id, Some(s("d-act")));
    assert_eq!(scene.status, "outlined");
    assert_eq!(scene.position, 0);
    assert!(scene.metadata.is_none());
}

#[test]
fn create_template_refuses_dangling_parent() {
    let mut st = Store::new();
    let mut payload = new_template_payload();
    if let Some(docs) = payload.documents.as_mut() {
        docs[1].parent_id = Some(s("nonexistent"));
    }
    let e = st
        .create_template_with(payload, s("t1"), vec![s("d-act"), s("d-scene")], s("7"))
        .unwrap_err();
    assert_eq!(e, Error::StorageFault);
    assert_eq!(st.get_template_by_id(&s("t1")).unwrap_err(), Error::NotFound);
}

#[test]
fn create_template_generates_identities() {
    let mut st = Store::new();
    let mut payload = new_template_payload();
    // Parents cannot reference generated identities the caller has not
    // seen, so keep the batch flat for the convenience path.
    if let Some(docs) = payload.documents.as_mut() {
        docs[1].parent_id = None;
    }
    let t = st.create_template(payload).unwrap();
    assert_eq!(t.id.len(), 36);
    assert_eq!(st.get_template_documents(&t.id).unwrap().len(), 2);
}

#[test]
fn delete_template_cascades() {
    let mut st = Store::new();
    st.create_template_with(
        new_template_payload(),
        s("t1"),
        vec![s("d-act"), s("d-scene")],
        s("7"),
    )
    .unwrap();
    st.delete_template(&s("t1")).unwrap();
    assert_eq!(st.get_template_by_id(&s("t1")).unwrap_err(), Error::NotFound);
    assert!(st.get_template_tags(&s("t1")).unwrap().is_empty());
    assert!(st.get_template_documents(&s("t1")).unwrap().is_empty());
    // Deleting an unknown template is a silent no-op.
    st.delete_template(&s("ghost")).unwrap();
}

// The dispatcher fails and succeeds exactly as the operation it dispatches
// to, with the same error kind.
#[test]
fn tree_operation_error_kinds() {
    let mut st = store_with_project("p1");
    let e = st
        .document_tree_operation(DocumentTreeOperation::Delete { id: s("ghost") })
        .unwrap_err();
    assert_eq!(e, Error::NotFound);
    let e = st
        .document_tree_operation(DocumentTreeOperation::Move {
            id: s("ghost"),
            new_parent_id: None,
            new_position: 0,
        })
        .unwrap_err();
    assert_eq!(e, Error::NotFound);
    let e = st
        .document_tree_operation(DocumentTreeOperation::Update {
            id: s("ignored"),
            updates: empty_update("ghost"),
        })
        .unwrap_err();
    assert_eq!(e, Error::NotFound);
    let e = st
        .document_tree_operation(DocumentTreeOperation::Add {
            document: new_doc("no-such-project", "x", None),
            parent_id: None,
        })
        .unwrap_err();
    assert_eq!(e, Error::NotFound);
}

// The dispatcher's Update variant overrides the payload's id; its Move
// variant succeeds on a valid request.
#[test]
fn tree_operation_overrides_and_moves() {
    let mut st = store_with_project("p1");
    st.create_document_with(new_doc("p1", "a", None), s("a"), s("101")).unwrap();
    st.create_document_with(new_doc("p1", "b", None), s("b"), s("102")).unwrap();
    let mut u = empty_update("wrong-id");
    u.title = Some(s("renamed"));
    st.document_tree_operation(DocumentTreeOperation::Update { id: s("a"), updates: u })
        .unwrap();
    assert_eq!(st.get_document(&s("a")).unwrap().title, "renamed");
    st.document_tree_operation(DocumentTreeOperation::Move {
        id: s("b"),
        new_parent_id: None,
        new_position: 0,
    })
    .unwrap();
    let docs = st.get_project_documents(&s("p1")).unwrap();
    assert_eq!(docs[0].id, "b");
    assert_eq!(docs[1].id, "a");
}

#[test]
fn create_template_refuses_duplicate_sets() {
    let mut st = Store::new();
    let mut payload = new_template_payload();
    payload.tags = Some(vec![s("dup"), s("dup")]);
    assert_eq!(st.create_template(payload).unwrap_err(), Error::StorageFault);
    let mut payload = new_template_payload();
    if let Some(docs) = payload.documents.as_mut() {
        docs[0].labels = Some(vec![s("x"), s("x")]);
        docs[1].parent_id = None;
    }
    assert_eq!(st.create_template(payload).unwrap_err(), Error::StorageFault);
    assert!(st.get_all_templates().unwrap().is_empty());
}
