//! Laws of the symbol table: what holds of indexing and of the lookups for
//! all declarations, proved from the definitions of the model.
pub mod enums;
pub mod groups;
pub mod lookups;
pub mod passes;
pub mod sequences;
pub mod tables;
