//! A per-project forest of hierarchical, ordered content nodes backed by a
//! serialized transactional store, together with a template-instantiation
//! mechanism that clones an entire template forest under a new project.
//!
//! The store state is held in memory as plain rows; every mutation validates
//! its inputs first and changes the state only when the whole operation can
//! succeed, so each public operation is atomic: on an `Err` the store is
//! exactly as it was.

pub mod docmodel;
pub mod docops;
pub mod error;
pub mod ident;
pub mod laws;
pub mod projops;
pub mod sat;
pub mod seqs;
pub mod sort;
pub mod store;
pub mod templmodel;
pub mod templops;
pub mod types;
pub mod view;
