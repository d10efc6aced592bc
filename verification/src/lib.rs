//! The symbol table of a schema definition language.
//!
//! A compilation unit declares tables with their columns, enums with their
//! values, aliases for tables, and groups of tables. The [`Indexer`] collects
//! these declarations into a symbol table, rejects names that are declared
//! twice and group members that name nothing, and answers the questions of
//! later passes: is there such a table, such an enum, such a column, and
//! which table does an alias stand for.
//!
//! - [`ast`] holds the declarations that the indexer reads.
//! - [`model`] defines the symbol table as a mathematical value and says what
//!   indexing and the lookups compute on it.
//! - [`indexer`] holds the executable symbol table; each of its operations is
//!   proved to compute what the model says.
//! - [`laws`] proves what holds of the model for all declarations: when
//!   indexing succeeds and what it adds, that the order of declarations does
//!   not matter where it succeeds, and what the lookups answer.
//! - [`collections`] holds the sets and maps that the indexer is built on.
//! - [`error`] holds what indexing and the lookups report when they fail.
pub mod ast;
pub mod collections;
pub mod error;
pub mod indexer;
pub mod laws;
pub mod model;

pub use crate::error::{ErrorKind, IndexError, LookupError};
pub use crate::indexer::{IndexedSchemaBlock, Indexer};
