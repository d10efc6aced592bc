//! Laws of the lookups and of the resolution of references.
use crate::ast::{IdentView, RefIdentView};
use crate::error::LookupErrorView;
use crate::model::{schema_name, schema_or_default, Name, SymbolTable};
use vstd::prelude::*;

verus! {

/// Whether `missing` holds nothing but elements of `wanted` that fail `found`,
/// and every element of `wanted` that fails it.
pub open spec fn lists_what_is_not_found<A>(
    wanted: Seq<A>,
    found: spec_fn(A) -> bool,
    missing: Seq<A>,
) -> bool {
    &&& forall|i: int|
        0 <= i < missing.len() ==> wanted.contains(#[trigger] missing[i]) && !found(missing[i])
    &&& forall|i: int|
        0 <= i < wanted.len() && !found(wanted[i]) ==> missing.contains(#[trigger] wanted[i])
}

/// What fails `found` is listed by the elements of `wanted` for which
/// `found` does not hold.
proof fn lemma_filter_lists_what_is_not_found<A>(wanted: Seq<A>, found: spec_fn(A) -> bool)
    ensures
        lists_what_is_not_found(wanted, found, wanted.filter(|a: A| !found(a))),
        wanted.filter(|a: A| !found(a)).len() == 0 <==> forall|i: int|
            0 <= i < wanted.len() ==> found(#[trigger] wanted[i]),
{
    let absent = |a: A| !found(a);
    let missing = wanted.filter(absent);
    assert forall|i: int| 0 <= i < missing.len() implies wanted.contains(#[trigger] missing[i])
        && !found(missing[i]) by {
        wanted.lemma_filter_pred(absent, i);
        wanted.lemma_filter_contains_rev(absent, missing[i]);
    }
    assert forall|i: int| 0 <= i < wanted.len() && !found(wanted[i]) implies missing.contains(
        #[trigger] wanted[i],
    ) by {
        wanted.lemma_filter_contains(absent, i);
    }
    if missing.len() == 0 {
        assert forall|i: int| 0 <= i < wanted.len() implies found(#[trigger] wanted[i]) by {
            if !found(wanted[i]) {
                assert(missing.contains(wanted[i]));
            }
        }
    } else {
        assert(wanted.contains(missing[0]));
    }
}

/// A lookup of fields succeeds if and only if the table is indexed and every
/// one of the fields is a column of it. The fields that a failing lookup
/// lists are fields of the request that are not columns, and every such
/// field is among them.
pub proof fn lemma_lookup_table_fields(
    st: SymbolTable,
    schema: Option<IdentView>,
    table: IdentView,
    fields: Seq<IdentView>,
)
    ensures
        st.lookup_table_fields(schema, table, fields) is Ok <==> st.has_columns(
            schema_name(schema),
            table.normalized,
            fields,
        ),
        st.lookup_table_fields(schema, table, fields) matches Err(
            LookupErrorView::FieldNotFound(missing),
        ) ==> st.contains_table(schema_name(schema), table.normalized) && missing.len() > 0
            && lists_what_is_not_found(
            fields,
            |f: IdentView| st.columns(schema_name(schema), table.normalized).contains(f.normalized),
            missing,
        ),
{
    let cols = st.columns(schema_name(schema), table.normalized);
    let found = |f: IdentView| cols.contains(f.normalized);
    lemma_filter_lists_what_is_not_found(fields, found);
    assert(fields.filter(|f: IdentView| !found(f)) =~= fields.filter(
        |f: IdentView| !cols.contains(f.normalized),
    )) by {
        assert((|f: IdentView| !found(f)) =~= (|f: IdentView| !cols.contains(f.normalized)));
    }
}

/// A lookup of enum values succeeds if and only if the enum is indexed and
/// every one of the values is a value of it. The values that a failing lookup
/// lists are values of the request that the enum lacks, and every such value
/// is among them.
pub proof fn lemma_lookup_enum_values(
    st: SymbolTable,
    schema: Option<Name>,
    enum_name: Name,
    values: Seq<Name>,
)
    ensures
        st.lookup_enum_values(schema, enum_name, values) is Ok <==> st.has_values(
            schema_or_default(schema),
            enum_name,
            values,
        ),
        st.lookup_enum_values(schema, enum_name, values) matches Err(
            LookupErrorView::ValueNotFound(missing),
        ) ==> st.contains_enum(schema_or_default(schema), enum_name) && missing.len() > 0
            && lists_what_is_not_found(
            values,
            |v: Name| st.values(schema_or_default(schema), enum_name).contains(v),
            missing,
        ),
{
    let known = st.values(schema_or_default(schema), enum_name);
    let found = |v: Name| known.contains(v);
    lemma_filter_lists_what_is_not_found(values, found);
    assert(values.filter(|v: Name| !found(v)) =~= values.filter(|v: Name| !known.contains(v))) by {
        assert((|v: Name| !found(v)) =~= (|v: Name| !known.contains(v)));
    }
}

/// A reference whose table is not a registered alias is resolved to itself.
pub proof fn lemma_resolve_ref_alias_keeps_other_references(st: SymbolTable, r: RefIdentView)
    requires
        !st.aliases.contains_key(r.table.normalized),
    ensures
        st.resolve_ref_alias(r) == r,
{
}

/// Resolving a resolved reference once more changes nothing, provided that
/// the name of the table that the alias stands for is not itself a registered
/// alias.
pub proof fn lemma_resolve_ref_alias_twice(st: SymbolTable, r: RefIdentView)
    requires
        st.aliases.contains_key(r.table.normalized) ==> !st.aliases.contains_key(
            st.aliases[r.table.normalized].1,
        ),
    ensures
        st.resolve_ref_alias(st.resolve_ref_alias(r)) == st.resolve_ref_alias(r),
{
}

} // verus!
