//! The declarations that the indexer reads: identifiers with their source
//! spans, tables, enums, table groups and references.
//!
//! Each type has a view that holds its strings as sequences of characters and
//! its vectors as sequences; the contracts of the library speak of views only.
//! Identifiers are compared by their normalized text.
use vstd::prelude::*;

verus! {

/// The schema of a table or enum whose declaration names none.
pub const DEFAULT_SCHEMA: &'static str = "public";

/// A range of offsets into the source text, from `start` up to `end`.
#[derive(Clone, Copy, Debug, PartialEq, Eq, Structural)]
pub struct Span {
    pub start: usize,
    pub end: usize,
}

/// An identifier: where it stands, its text as written, and its normalized
/// text, by which it is compared.
#[derive(Debug, PartialEq, Eq)]
pub struct Ident {
    pub span: Span,
    pub raw: String,
    pub normalized: String,
}

/// The view of an `Ident`.
pub struct IdentView {
    pub span: Span,
    pub raw: Seq<char>,
    pub normalized: Seq<char>,
}

impl View for Ident {
    type V = IdentView;

    open spec fn view(&self) -> IdentView {
        IdentView { span: self.span, raw: self.raw@, normalized: self.normalized@ }
    }
}

impl DeepView for Ident {
    type V = IdentView;

    open spec fn deep_view(&self) -> IdentView {
        self@
    }
}

impl Clone for Ident {
    fn clone(&self) -> (r: Self)
        ensures
            r == *self,
    {
        Ident { span: self.span, raw: self.raw.clone(), normalized: self.normalized.clone() }
    }
}

/// A copy of an optional identifier.
fn clone_optional(ident: &Option<Ident>) -> (r: Option<Ident>)
    ensures
        r == *ident,
{
    match ident {
        Some(i) => Some(i.clone()),
        None => None,
    }
}

/// The name of a table: an optional schema, the table's name and an optional
/// alias.
#[derive(Debug, PartialEq, Eq)]
pub struct TableIdent {
    pub span: Span,
    pub schema: Option<Ident>,
    pub name: Ident,
    pub alias: Option<Ident>,
}

/// The view of a `TableIdent`.
pub struct TableIdentView {
    pub span: Span,
    pub schema: Option<IdentView>,
    pub name: IdentView,
    pub alias: Option<IdentView>,
}

impl View for TableIdent {
    type V = TableIdentView;

    open spec fn view(&self) -> TableIdentView {
        TableIdentView {
            span: self.span,
            schema: self.schema.deep_view(),
            name: self.name@,
            alias: self.alias.deep_view(),
        }
    }
}

impl DeepView for TableIdent {
    type V = TableIdentView;

    open spec fn deep_view(&self) -> TableIdentView {
        self@
    }
}

impl Clone for TableIdent {
    fn clone(&self) -> (r: Self)
        ensures
            r@ == self@,
    {
        TableIdent {
            span: self.span,
            schema: clone_optional(&self.schema),
            name: self.name.clone(),
            alias: clone_optional(&self.alias),
        }
    }
}

/// A column of a table.
#[derive(Debug, PartialEq, Eq)]
pub struct TableColumn {
    pub span: Span,
    pub name: Ident,
}

/// The view of a `TableColumn`.
pub struct TableColumnView {
    pub span: Span,
    pub name: IdentView,
}

impl View for TableColumn {
    type V = TableColumnView;

    open spec fn view(&self) -> TableColumnView {
        TableColumnView { span: self.span, name: self.name@ }
    }
}

impl DeepView for TableColumn {
    type V = TableColumnView;

    open spec fn deep_view(&self) -> TableColumnView {
        self@
    }
}

impl Clone for TableColumn {
    fn clone(&self) -> (r: Self)
        ensures
            r@ == self@,
    {
        TableColumn { span: self.span, name: self.name.clone() }
    }
}

/// A table declaration: its name and its columns, in source order.
#[derive(Debug, PartialEq, Eq)]
pub struct TableBlock {
    pub ident: TableIdent,
    pub cols: Vec<TableColumn>,
}

/// The view of a `TableBlock`.
#[verifier::ext_equal]
pub struct TableBlockView {
    pub ident: TableIdentView,
    pub cols: Seq<TableColumnView>,
}

impl View for TableBlock {
    type V = TableBlockView;

    open spec fn view(&self) -> TableBlockView {
        TableBlockView { ident: self.ident@, cols: self.cols.deep_view() }
    }
}

impl DeepView for TableBlock {
    type V = TableBlockView;

    open spec fn deep_view(&self) -> TableBlockView {
        self@
    }
}

impl Clone for TableBlock {
    fn clone(&self) -> (r: Self)
        ensures
            r@ == self@,
    {
        let cols = self.cols.clone();
        assert(cols.deep_view() =~= self.cols.deep_view());
        TableBlock { ident: self.ident.clone(), cols }
    }
}

/// The name of an enum: an optional schema and the enum's name.
#[derive(Debug, PartialEq, Eq)]
pub struct EnumIdent {
    pub span: Span,
    pub schema: Option<Ident>,
    pub name: Ident,
}

/// The view of an `EnumIdent`.
pub struct EnumIdentView {
    pub span: Span,
    pub schema: Option<IdentView>,
    pub name: IdentView,
}

impl View for EnumIdent {
    type V = EnumIdentView;

    open spec fn view(&self) -> EnumIdentView {
        EnumIdentView { span: self.span, schema: self.schema.deep_view(), name: self.name@ }
    }
}

impl DeepView for EnumIdent {
    type V = EnumIdentView;

    open spec fn deep_view(&self) -> EnumIdentView {
        self@
    }
}

impl Clone for EnumIdent {
    fn clone(&self) -> (r: Self)
        ensures
            r@ == self@,
    {
        EnumIdent {
            span: self.span,
            schema: clone_optional(&self.schema),
            name: self.name.clone(),
        }
    }
}

/// A value of an enum.
#[derive(Debug, PartialEq, Eq)]
pub struct EnumValue {
    pub span: Span,
    pub value: Ident,
}

/// The view of an `EnumValue`.
pub struct EnumValueView {
    pub span: Span,
    pub value: IdentView,
}

impl View for EnumValue {
    type V = EnumValueView;

    open spec fn view(&self) -> EnumValueView {
        EnumValueView { span: self.span, value: self.value@ }
    }
}

impl DeepView for EnumValue {
    type V = EnumValueView;

    open spec fn deep_view(&self) -> EnumValueView {
        self@
    }
}

impl Clone for EnumValue {
    fn clone(&self) -> (r: Self)
        ensures
            r@ == self@,
    {
        EnumValue { span: self.span, value: self.value.clone() }
    }
}

/// An enum declaration: its name and its values, in source order.
#[derive(Debug, PartialEq, Eq)]
pub struct EnumBlock {
    pub ident: EnumIdent,
    pub values: Vec<EnumValue>,
}

/// The view of an `EnumBlock`.
#[verifier::ext_equal]
pub struct EnumBlockView {
    pub ident: EnumIdentView,
    pub values: Seq<EnumValueView>,
}

impl View for EnumBlock {
    type V = EnumBlockView;

    open spec fn view(&self) -> EnumBlockView {
        EnumBlockView { ident: self.ident@, values: self.values.deep_view() }
    }
}

impl DeepView for EnumBlock {
    type V = EnumBlockView;

    open spec fn deep_view(&self) -> EnumBlockView {
        self@
    }
}

impl Clone for EnumBlock {
    fn clone(&self) -> (r: Self)
        ensures
            r@ == self@,
    {
        let values = self.values.clone();
        assert(values.deep_view() =~= self.values.deep_view());
        EnumBlock { ident: self.ident.clone(), values }
    }
}

/// A member of a table group: an optional schema and an identifier that is
/// either a table's name or an alias.
#[derive(Debug, PartialEq, Eq)]
pub struct TableGroupItem {
    pub span: Span,
    pub schema: Option<Ident>,
    pub ident_alias: Ident,
}

/// The view of a `TableGroupItem`.
pub struct TableGroupItemView {
    pub span: Span,
    pub schema: Option<IdentView>,
    pub ident_alias: IdentView,
}

impl View for TableGroupItem {
    type V = TableGroupItemView;

    open spec fn view(&self) -> TableGroupItemView {
        TableGroupItemView {
            span: self.span,
            schema: self.schema.deep_view(),
            ident_alias: self.ident_alias@,
        }
    }
}

impl DeepView for TableGroupItem {
    type V = TableGroupItemView;

    open spec fn deep_view(&self) -> TableGroupItemView {
        self@
    }
}

impl Clone for TableGroupItem {
    fn clone(&self) -> (r: Self)
        ensures
            r@ == self@,
    {
        TableGroupItem {
            span: self.span,
            schema: clone_optional(&self.schema),
            ident_alias: self.ident_alias.clone(),
        }
    }
}

/// A table group declaration: its name and its members, in source order.
#[derive(Debug, PartialEq, Eq)]
pub struct TableGroupBlock {
    pub ident: Ident,
    pub items: Vec<TableGroupItem>,
}

/// The view of a `TableGroupBlock`.
#[verifier::ext_equal]
pub struct TableGroupBlockView {
    pub ident: IdentView,
    pub items: Seq<TableGroupItemView>,
}

impl View for TableGroupBlock {
    type V = TableGroupBlockView;

    open spec fn view(&self) -> TableGroupBlockView {
        TableGroupBlockView { ident: self.ident@, items: self.items.deep_view() }
    }
}

impl DeepView for TableGroupBlock {
    type V = TableGroupBlockView;

    open spec fn deep_view(&self) -> TableGroupBlockView {
        self@
    }
}

impl Clone for TableGroupBlock {
    fn clone(&self) -> (r: Self)
        ensures
            r@ == self@,
    {
        let items = self.items.clone();
        assert(items.deep_view() =~= self.items.deep_view());
        TableGroupBlock { ident: self.ident.clone(), items }
    }
}

/// A reference to a table or to something inside it: an optional schema, the
/// table's name or alias, and the path that follows.
#[derive(Debug, PartialEq, Eq)]
pub struct RefIdent {
    pub span: Span,
    pub schema: Option<Ident>,
    pub table: Ident,
    pub compositions: Vec<Ident>,
}

/// The view of a `RefIdent`.
#[verifier::ext_equal]
pub struct RefIdentView {
    pub span: Span,
    pub schema: Option<IdentView>,
    pub table: IdentView,
    pub compositions: Seq<IdentView>,
}

impl View for RefIdent {
    type V = RefIdentView;

    open spec fn view(&self) -> RefIdentView {
        RefIdentView {
            span: self.span,
            schema: self.schema.deep_view(),
            table: self.table@,
            compositions: self.compositions.deep_view(),
        }
    }
}

impl DeepView for RefIdent {
    type V = RefIdentView;

    open spec fn deep_view(&self) -> RefIdentView {
        self@
    }
}

impl Clone for RefIdent {
    fn clone(&self) -> (r: Self)
        ensures
            r@ == self@,
    {
        let compositions = self.compositions.clone();
        assert(compositions.deep_view() =~= self.compositions.deep_view());
        RefIdent {
            span: self.span,
            schema: clone_optional(&self.schema),
            table: self.table.clone(),
            compositions,
        }
    }
}

} // verus!
