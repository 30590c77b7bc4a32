//! Project rows: create, partial update, cascading delete, bulk import.
//!
//! Each operation is one atomic transaction: every check runs before the
//! first write, so an `Err` leaves the store exactly as it was.

use vstd::prelude::*;
use crate::error::Error;
use crate::ident::{fresh_id, get_current_timestamp};
use crate::store::Store;
use crate::types::{clone_opt_string, str_eq, NewProject, Project, UpdateProject};
use crate::view::{
    docs_of_project, doc_ids, lemma_doc_ids, lemma_docs_of_project_props,
    lemma_docs_of_project_push, lemma_docs_without_project_push, lemma_projects_patched_props,
    lemma_projects_touched_props, lemma_projects_without_push, lemma_meta_keep_alive_push,
    meta_keep_alive, docs_without_project, projects_without, StoreView,
};
use crate::seqs::lemma_take_succ;
use crate::types::strs_sv;

verus! {

impl Store {
    /// Rewrites the project row at index `i`.
    pub(crate) fn set_project_row(&mut self, i: usize, row: Project)
        requires
            i < old(self)@.projects.len(),
        ensures
            final(self)@ == (StoreView {
                projects: old(self)@.projects.update(i as int, row),
                ..old(self)@
            }),
    {
        let ghost target = self@.projects.update(i as int, row);
        let mut out: Vec<Project> = Vec::new();
        let mut k: usize = 0;
        while k < self.projects.len()
            invariant
                k <= self.projects.len(),
                i < self.projects.len(),
                out@.len() == k,
                forall|t: int| 0 <= t < k ==> out@[t] == target[t],
                target == self@.projects.update(i as int, row),
            decreases self.projects.len() - k,
        {
            if k == i {
                out.push(row.clone());
            } else {
                out.push(self.projects[k].clone());
            }
            k = k + 1;
        }
        proof {
            assert(out@ =~= target);
        }
        self.projects = out;
    }

    /// Sets the named project's `last_modified`, if it exists.
    pub(crate) fn touch_project_row(&mut self, pid: &String, ts: &String)
        requires
            old(self)@.project_ids_unique(),
        ensures
            final(self)@ == old(self)@.touch_project(pid@, *ts),
    {
        proof {
            lemma_projects_touched_props(self@.projects, pid@, *ts);
        }
        match self.find_project(pid) {
            Option::Some(i) => {
                let p = &self.projects[i];
                let row = Project {
                    id: p.id.clone(),
                    name: p.name.clone(),
                    description: clone_opt_string(&p.description),
                    status: p.status.clone(),
                    created_at: p.created_at.clone(),
                    last_modified: ts.clone(),
                };
                proof {
                    assert(row =~= (Project { last_modified: *ts, ..self@.projects[i as int] }));
                }
                self.set_project_row(i, row);
                proof {
                    assert(self@.projects =~= old(self)@.touch_project(pid@, *ts).projects);
                }
            },
            Option::None => {
                proof {
                    assert(self@.projects =~= old(self)@.touch_project(pid@, *ts).projects);
                }
            },
        }
    }

    /// Creates a project under the given identity and timestamp. Fails with
    /// `StorageFault` exactly when the id is already taken.
    pub fn create_project_with(&mut self, project: NewProject, id: String, now: String) -> (r:
        Result<Project, Error>)
        requires
            old(self)@.wf(),
        ensures
            final(self)@.wf(),
            r is Ok <==> !old(self)@.has_project(id@),
            r matches Ok(p) ==> {
                &&& p.id == id
                &&& p.name == project.name
                &&& p.description == project.description
                &&& p.status@ == "active"@
                &&& p.created_at == now
                &&& p.last_modified == now
                &&& final(self)@ == old(self)@.with_project(p)
            },
            r matches Err(e) ==> e == Error::StorageFault && final(self)@ == old(self)@,
    {
        match self.find_project(&id) {
            Option::Some(i) => {
                proof {
                    self@.lemma_project_at(i as int);
                }
                Err(Error::StorageFault)
            },
            Option::None => {
                let p = Project {
                    id,
                    name: project.name,
                    description: project.description,
                    status: "active".to_owned(),
                    created_at: now.clone(),
                    last_modified: now,
                };
                let out = p.clone();
                proof {
                    self@.lemma_with_project_preserves(p);
                }
                self.projects.push(p);
                Ok(out)
            },
        }
    }

    /// Creates a project under a fresh identity, stamped with the current
    /// time. The generated id is random, so the one failure, `StorageFault`
    /// on an id collision, cannot be ruled out; everything else about the
    /// outcome is pinned down.
    pub fn create_project(&mut self, project: NewProject) -> (r: Result<Project, Error>)
        requires
            old(self)@.wf(),
        ensures
            final(self)@.wf(),
            r matches Ok(p) ==> {
                &&& !old(self)@.has_project(p.id@)
                &&& p.name == project.name
                &&& p.description == project.description
                &&& p.status@ == "active"@
                &&& p.created_at == p.last_modified
                &&& final(self)@ == old(self)@.with_project(p)
            },
            r matches Err(e) ==> e == Error::StorageFault && final(self)@ == old(self)@,
    {
        let id = fresh_id();
        let now = get_current_timestamp();
        self.create_project_with(project, id, now)
    }

    /// Patches a project: supplied fields overwrite, absent fields are kept,
    /// and `last_modified` is set to the current time. Fails with `NotFound`
    /// exactly when the id does not exist.
    pub fn update_project(&mut self, project: UpdateProject) -> (r: Result<Project, Error>)
        requires
            old(self)@.wf(),
        ensures
            final(self)@.wf(),
            r is Ok <==> old(self)@.has_project(project.id@),
            r matches Ok(p) ==> {
                &&& p == StoreView::patched_project(
                    old(self)@.project_named(project.id@),
                    project,
                    p.last_modified,
                )
                &&& final(self)@ == old(self)@.spec_update_project(project, p.last_modified)
            },
            r matches Err(e) ==> e == Error::NotFound && final(self)@ == old(self)@,
    {
        let i = match self.find_project(&project.id) {
            Option::None => {
                return Err(Error::NotFound);
            },
            Option::Some(i) => i,
        };
        proof {
            self@.lemma_project_at(i as int);
        }
        let now = get_current_timestamp();
        let p = &self.projects[i];
        let ghost u = project;
        let row = Project {
            id: p.id.clone(),
            name: (match project.name {
                Option::Some(n) => n,
                Option::None => p.name.clone(),
            }),
            description: (match project.description {
                Option::Some(d) => Option::Some(d),
                Option::None => clone_opt_string(&p.description),
            }),
            status: (match project.status {
                Option::Some(s) => s,
                Option::None => p.status.clone(),
            }),
            created_at: p.created_at.clone(),
            last_modified: now,
        };
        proof {
            assert(row =~= StoreView::patched_project(self@.projects[i as int], u, row.last_modified));
        }
        let out = row.clone();
        proof {
            lemma_projects_patched_props(self@.projects, u, row.last_modified);
        }
        self.set_project_row(i, row);
        proof {
            assert(self@.projects =~= old(self)@.spec_update_project(u, out.last_modified).projects);
            let patched = self@.projects;
            assert forall|t: int| 0 <= t < patched.len() implies (#[trigger] patched[t]).id@
                == old(self)@.projects[t].id@ by {}
            old(self)@.lemma_projects_pointwise_preserves(patched);
            assert(final(self)@ == (StoreView { projects: patched, ..old(self)@ }));
        }
        Ok(out)
    }

    /// Deletes a project: its row, every document of it, and every metadata,
    /// label, character and keyword row those documents owned, as one unit.
    /// Deleting an unknown id is a no-op, as the underlying delete statement
    /// simply matches no row.
    pub fn delete_project(&mut self, id: &String) -> (r: Result<(), Error>)
        requires
            old(self)@.wf(),
        ensures
            final(self)@.wf(),
            r matches Ok(()) && final(self)@ == old(self)@.spec_delete_project(id@),
    {
        // The ids of the documents being deleted.
        let mut dead: Vec<String> = Vec::new();
        let mut i: usize = 0;
        while i < self.documents.len()
            invariant
                i <= self.documents.len(),
                strs_sv(dead@) == doc_ids(docs_of_project(self@.documents.take(i as int), id@)),
            decreases self.documents.len() - i,
        {
            proof {
                lemma_take_succ(self@.documents, i as int);
                lemma_docs_of_project_push(
                    self@.documents.take(i as int),
                    id@,
                    self@.documents[i as int],
                );
            }
            let ghost pd = docs_of_project(self@.documents.take(i as int), id@);
            if str_eq(&self.documents[i].project_id, id) {
                dead.push(self.documents[i].id.clone());
                proof {
                    assert(pd.push(self@.documents[i as int]).drop_last() =~= pd);
                    assert(doc_ids(pd.push(self@.documents[i as int])) == doc_ids(pd).push(
                        self@.documents[i as int].id@,
                    ));
                    assert(strs_sv(dead@) =~= doc_ids(
                        docs_of_project(self@.documents.take(i + 1), id@),
                    ));
                }
            }
            i = i + 1;
        }
        proof {
            assert(self@.documents.take(self@.documents.len() as int) =~= self@.documents);
            assert(strs_sv(dead@) == old(self)@.project_doc_ids(id@));
        }
        let ghost deadv = strs_sv(dead@);

        // Satellite rows of the dead documents.
        self.labels.retain_not_in(&dead);
        self.characters.retain_not_in(&dead);
        self.keywords.retain_not_in(&dead);

        // Metadata rows of the dead documents.
        let mut ms: Vec<crate::types::MetadataRow> = Vec::new();
        let mut k: usize = 0;
        while k < self.metadata.len()
            invariant
                k <= self.metadata.len(),
                ms@ == meta_keep_alive(self@.metadata.take(k as int), deadv),
                deadv == strs_sv(dead@),
            decreases self.metadata.len() - k,
        {
            proof {
                lemma_take_succ(self@.metadata, k as int);
                lemma_meta_keep_alive_push(
                    self@.metadata.take(k as int),
                    deadv,
                    self@.metadata[k as int],
                );
            }
            if !crate::types::vec_contains_string(&dead, &self.metadata[k].document_id) {
                ms.push(self.metadata[k].clone());
            }
            k = k + 1;
        }
        proof {
            assert(self@.metadata.take(self@.metadata.len() as int) =~= self@.metadata);
        }
        self.metadata = ms;

        // The documents of the project.
        let mut ds: Vec<crate::types::Document> = Vec::new();
        let mut n: usize = 0;
        while n < self.documents.len()
            invariant
                n <= self.documents.len(),
                ds@ == docs_without_project(self@.documents.take(n as int), id@),
            decreases self.documents.len() - n,
        {
            proof {
                lemma_take_succ(self@.documents, n as int);
                lemma_docs_without_project_push(
                    self@.documents.take(n as int),
                    id@,
                    self@.documents[n as int],
                );
            }
            if !str_eq(&self.documents[n].project_id, id) {
                ds.push(self.documents[n].clone());
            }
            n = n + 1;
        }
        proof {
            assert(self@.documents.take(self@.documents.len() as int) =~= self@.documents);
        }
        self.documents = ds;

        // The project row itself.
        let mut ps: Vec<Project> = Vec::new();
        let mut m: usize = 0;
        while m < self.projects.len()
            invariant
                m <= self.projects.len(),
                ps@ == projects_without(self@.projects.take(m as int), id@),
            decreases self.projects.len() - m,
        {
            proof {
                lemma_take_succ(self@.projects, m as int);
                lemma_projects_without_push(
                    self@.projects.take(m as int),
                    id@,
                    self@.projects[m as int],
                );
            }
            if !str_eq(&self.projects[m].id, id) {
                ps.push(self.projects[m].clone());
            }
            m = m + 1;
        }
        proof {
            assert(self@.projects.take(self@.projects.len() as int) =~= self@.projects);
        }
        self.projects = ps;
        proof {
            assert(final(self)@ == old(self)@.spec_delete_project(id@));
            old(self)@.lemma_delete_project_wf(id@);
        }
        Ok(())
    }

    /// Imports project rows in bulk: each row is inserted, or silently
    /// ignored when its id is already taken, earlier rows of the batch
    /// included.
    pub fn migrate_projects(&mut self, projects: Vec<Project>) -> (r: Result<(), Error>)
        requires
            old(self)@.wf(),
        ensures
            final(self)@.wf(),
            r matches Ok(()) && final(self)@ == old(self)@.spec_migrate(projects@),
    {
        let mut i: usize = 0;
        while i < projects.len()
            invariant
                i <= projects.len(),
                self@ == old(self)@.spec_migrate(projects@.take(i as int)),
                self@.wf(),
            decreases projects.len() - i,
        {
            proof {
                lemma_take_succ(projects@, i as int);
                old(self)@.lemma_migrate_push(projects@.take(i as int), projects@[i as int]);
            }
            let p = projects[i].clone();
            match self.find_project(&p.id) {
                Option::Some(j) => {
                    proof {
                        self@.lemma_project_at(j as int);
                    }
                },
                Option::None => {
                    proof {
                        self@.lemma_with_project_preserves(p);
                    }
                    self.projects.push(p);
                },
            }
            i = i + 1;
        }
        proof {
            assert(projects@.take(projects@.len() as int) =~= projects@);
        }
        Ok(())
    }
}

} // verus!
