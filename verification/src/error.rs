//! What the indexer and the lookups report when they fail.
use crate::ast::{Ident, IdentView, Span};
use vstd::prelude::*;

verus! {

/// The ways in which indexing a declaration can fail.
#[derive(Clone, Copy, Debug, PartialEq, Eq, Structural)]
pub enum ErrorKind {
    /// A table of that name is already indexed in the schema.
    DuplicatedTableName,
    /// A table declares two columns of one name.
    DuplicatedColumnName,
    /// An alias is already in use, for whatever table.
    DuplicatedAlias,
    /// An enum of that name is already indexed in the schema.
    DuplicatedEnumName,
    /// An enum declares one value twice.
    DuplicatedEnumValue,
    /// A table group of that name is already indexed.
    DuplicatedTableGroupName,
    /// A member of a table group names neither an alias nor a table of the
    /// default schema.
    TableNotFound,
    /// Two members of a table group stand for the same table.
    DuplicatedTableGroupItem,
}

/// A failure of the indexing pass: what went wrong, and where in the source.
#[derive(Clone, Copy, Debug, PartialEq, Eq, Structural)]
pub struct IndexError {
    pub kind: ErrorKind,
    pub span: Span,
}

/// A failure of a lookup.
#[derive(Debug, PartialEq, Eq)]
pub enum LookupError {
    /// Nothing is indexed under the schema.
    SchemaNotFound,
    /// The schema has no table of that name.
    TableNotFound,
    /// The schema has no enum of that name.
    EnumNotFound,
    /// The table lacks these fields: every requested field that is not a
    /// column of the table, in the order of the request.
    FieldNotFound(Vec<Ident>),
    /// The enum lacks these values: every requested value that is not a
    /// value of the enum, in the order of the request.
    ValueNotFound(Vec<String>),
}

/// The view of a `LookupError`.
#[verifier::ext_equal]
pub enum LookupErrorView {
    SchemaNotFound,
    TableNotFound,
    EnumNotFound,
    FieldNotFound(Seq<IdentView>),
    ValueNotFound(Seq<Seq<char>>),
}

impl View for LookupError {
    type V = LookupErrorView;

    open spec fn view(&self) -> LookupErrorView {
        match self {
            LookupError::SchemaNotFound => LookupErrorView::SchemaNotFound,
            LookupError::TableNotFound => LookupErrorView::TableNotFound,
            LookupError::EnumNotFound => LookupErrorView::EnumNotFound,
            LookupError::FieldNotFound(fields) => LookupErrorView::FieldNotFound(
                fields.deep_view(),
            ),
            LookupError::ValueNotFound(values) => LookupErrorView::ValueNotFound(
                values.deep_view(),
            ),
        }
    }
}

impl Clone for LookupError {
    fn clone(&self) -> (r: Self)
        ensures
            r@ == self@,
    {
        match self {
            LookupError::SchemaNotFound => LookupError::SchemaNotFound,
            LookupError::TableNotFound => LookupError::TableNotFound,
            LookupError::EnumNotFound => LookupError::EnumNotFound,
            LookupError::FieldNotFound(fields) => {
                let copy = fields.clone();
                assert(copy.deep_view() =~= fields.deep_view());
                LookupError::FieldNotFound(copy)
            },
            LookupError::ValueNotFound(values) => {
                let copy = values.clone();
                assert(copy.deep_view() =~= values.deep_view());
                LookupError::ValueNotFound(copy)
            },
        }
    }
}

/// The view of a lookup's result.
pub open spec fn lookup_result_view(r: Result<(), LookupError>) -> Result<(), LookupErrorView> {
    match r {
        Ok(()) => Ok(()),
        Err(e) => Err(e@),
    }
}

} // verus!
