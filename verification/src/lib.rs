//! An interactive question/answer/outcome workflow engine.
//!
//! The crate is organised around two components:
//!
//! * [`querylist::QueryList`] — the graph store that owns all queries,
//!   answers and outcomes, keyed by identifiers, and enforces referential
//!   integrity on every mutation.
//! * [`querier::Querier`] — the traversal engine that repeatedly selects a
//!   query, resolves the chosen answer, and decides which query comes next.
//!
//! Everything that talks to the terminal, spawns processes or performs any
//! other side effect lives outside this crate; the library only makes the
//! decisions and keeps the data consistent.

pub mod cli;
pub mod error;
pub mod outcome;
pub mod qa;
pub mod querier;
pub mod querylist;
