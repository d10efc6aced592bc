//! The symbol table as a mathematical value, and what indexing does to it.
//!
//! A `SymbolTable` is what an `Indexer` stands for. The functions here say,
//! declaration by declaration, which symbol table results from indexing and
//! which error, if any, stops it; the executable indexer is proved to compute
//! exactly these.
use crate::ast::{
    EnumBlockView, IdentView, RefIdentView, Span, TableBlockView, TableColumnView,
    TableGroupBlockView, TableGroupItemView, EnumValueView, DEFAULT_SCHEMA,
};
use crate::error::{ErrorKind, IndexError, LookupErrorView};
use vstd::prelude::*;

verus! {

/// A name, as the sequence of characters of an identifier's normalized text.
pub type Name = Seq<char>;

/// A table's identity: its schema's name and its own.
pub type TableId = (Seq<char>, Seq<char>);

/// What is indexed under one schema.
#[verifier::ext_equal]
pub struct SchemaIndex {
    /// The columns of each table, by the table's name.
    pub tables: Map<Name, Set<Name>>,
    /// The values of each enum, by the enum's name.
    pub enums: Map<Name, Set<Name>>,
}

/// Everything that is indexed.
#[verifier::ext_equal]
pub struct SymbolTable {
    /// The index of each schema that a table or an enum was declared in.
    pub schemas: Map<Name, SchemaIndex>,
    /// The table that each alias stands for. Aliases are not scoped by schema.
    pub aliases: Map<Name, TableId>,
    /// The members of each table group.
    pub table_groups: Map<Name, Set<TableId>>,
}

/// Where indexing ended: the symbol table it left, and the error that stopped
/// it, if one did.
pub struct Outcome {
    pub symbols: SymbolTable,
    pub result: Result<(), IndexError>,
}

/// The name of the schema that a declaration belongs to.
pub open spec fn schema_name(schema: Option<IdentView>) -> Name {
    match schema {
        Some(s) => s.normalized,
        None => DEFAULT_SCHEMA@,
    }
}

/// The schema that is meant by an optional name of a schema.
pub open spec fn schema_or_default(schema: Option<Name>) -> Name {
    match schema {
        Some(s) => s,
        None => DEFAULT_SCHEMA@,
    }
}

/// The identity of the table that `t` declares.
pub open spec fn table_id(t: TableBlockView) -> TableId {
    (schema_name(t.ident.schema), t.ident.name.normalized)
}

/// The alias that `t` declares, if it declares one.
pub open spec fn table_alias(t: TableBlockView) -> Option<Name> {
    match t.ident.alias {
        Some(alias) => Some(alias.normalized),
        None => None,
    }
}

/// The names of the columns of `t`, in source order.
pub open spec fn column_names(t: TableBlockView) -> Seq<Name> {
    t.cols.map_values(|c: TableColumnView| c.name.normalized)
}

/// The identity of the enum that `e` declares.
pub open spec fn enum_id(e: EnumBlockView) -> (Name, Name) {
    (schema_name(e.ident.schema), e.ident.name.normalized)
}

/// The values of `e`, in source order.
pub open spec fn enum_values(e: EnumBlockView) -> Seq<Name> {
    e.values.map_values(|v: EnumValueView| v.value.normalized)
}

/// The name of the table group that `g` declares.
pub open spec fn group_name(g: TableGroupBlockView) -> Name {
    g.ident.normalized
}

/// The first position of `s` whose element already occurs before it.
pub open spec fn first_repeat<A>(s: Seq<A>) -> Option<int>
    decreases s.len(),
{
    if s.len() == 0 {
        None
    } else {
        match first_repeat(s.drop_last()) {
            Some(i) => Some(i),
            None => if s.drop_last().contains(s.last()) {
                Some(s.len() - 1)
            } else {
                None
            },
        }
    }
}

/// Indexing of declarations in source order, up to the first that fails;
/// `step` is the indexing of one declaration.
pub open spec fn index_each<D>(
    symbols: SymbolTable,
    decls: Seq<D>,
    step: spec_fn(SymbolTable, D) -> Outcome,
) -> Outcome
    decreases decls.len(),
{
    if decls.len() == 0 {
        Outcome::done(symbols)
    } else {
        let before = index_each(symbols, decls.drop_last(), step);
        match before.result {
            Ok(()) => step(before.symbols, decls.last()),
            Err(_) => before,
        }
    }
}

impl SchemaIndex {
    /// The index of a schema in which nothing is declared.
    pub open spec fn empty() -> Self {
        SchemaIndex { tables: Map::empty(), enums: Map::empty() }
    }
}

impl Outcome {
    /// Indexing went through and left `symbols`.
    pub open spec fn done(symbols: SymbolTable) -> Self {
        Outcome { symbols, result: Ok(()) }
    }

    /// Indexing stopped at `span` and left `symbols`.
    pub open spec fn failed(symbols: SymbolTable, kind: ErrorKind, span: Span) -> Self {
        Outcome { symbols, result: Err(IndexError { kind, span }) }
    }
}

impl SymbolTable {
    /// The symbol table in which nothing is indexed.
    pub open spec fn empty() -> Self {
        SymbolTable { schemas: Map::empty(), aliases: Map::empty(), table_groups: Map::empty() }
    }

    /// The index of `schema`; it is empty for a schema that nothing was
    /// declared in.
    pub open spec fn schema(self, schema: Name) -> SchemaIndex {
        if self.schemas.contains_key(schema) {
            self.schemas[schema]
        } else {
            SchemaIndex::empty()
        }
    }

    /// Whether `schema` has a table `name`.
    pub open spec fn contains_table(self, schema: Name, name: Name) -> bool {
        self.schemas.contains_key(schema) && self.schemas[schema].tables.contains_key(name)
    }

    /// Whether `schema` has an enum `name`.
    pub open spec fn contains_enum(self, schema: Name, name: Name) -> bool {
        self.schemas.contains_key(schema) && self.schemas[schema].enums.contains_key(name)
    }

    /// The columns of the table `name` of `schema`.
    pub open spec fn columns(self, schema: Name, name: Name) -> Set<Name> {
        self.schemas[schema].tables[name]
    }

    /// The values of the enum `name` of `schema`.
    pub open spec fn values(self, schema: Name, name: Name) -> Set<Name> {
        self.schemas[schema].enums[name]
    }

    /// Whether `schema` has a table `name` of which every one of `fields` is
    /// a column.
    pub open spec fn has_columns(self, schema: Name, name: Name, fields: Seq<IdentView>) -> bool {
        &&& self.contains_table(schema, name)
        &&& forall|i: int|
            0 <= i < fields.len() ==> self.columns(schema, name).contains(
                (#[trigger] fields[i]).normalized,
            )
    }

    /// Whether `schema` has an enum `name` of which every one of `values` is
    /// a value.
    pub open spec fn has_values(self, schema: Name, name: Name, values: Seq<Name>) -> bool {
        &&& self.contains_enum(schema, name)
        &&& forall|i: int|
            0 <= i < values.len() ==> self.values(schema, name).contains(#[trigger] values[i])
    }

    /// This symbol table with the table `name` of `schema` set to have the
    /// columns `cols`.
    pub open spec fn with_table(self, schema: Name, name: Name, cols: Set<Name>) -> Self {
        let index = self.schema(schema);
        SymbolTable {
            schemas: self.schemas.insert(
                schema,
                SchemaIndex { tables: index.tables.insert(name, cols), enums: index.enums },
            ),
            aliases: self.aliases,
            table_groups: self.table_groups,
        }
    }

    /// This symbol table with the enum `name` of `schema` set to have the
    /// values `values`.
    pub open spec fn with_enum(self, schema: Name, name: Name, values: Set<Name>) -> Self {
        let index = self.schema(schema);
        SymbolTable {
            schemas: self.schemas.insert(
                schema,
                SchemaIndex { tables: index.tables, enums: index.enums.insert(name, values) },
            ),
            aliases: self.aliases,
            table_groups: self.table_groups,
        }
    }

    /// This symbol table with `alias` standing for `table`.
    pub open spec fn with_alias(self, alias: Name, table: TableId) -> Self {
        SymbolTable {
            schemas: self.schemas,
            aliases: self.aliases.insert(alias, table),
            table_groups: self.table_groups,
        }
    }

    /// This symbol table with the group `name` set to have the members
    /// `items`.
    pub open spec fn with_table_group(self, name: Name, items: Set<TableId>) -> Self {
        SymbolTable {
            schemas: self.schemas,
            aliases: self.aliases,
            table_groups: self.table_groups.insert(name, items),
        }
    }

    /// Indexing of one table declaration.
    ///
    /// The table's name must be new in its schema and its columns must differ
    /// in name; then the table is indexed. After that its alias, if it has
    /// one, must be new, and is registered. A failure on the alias leaves the
    /// table indexed.
    pub open spec fn index_table_block(self, t: TableBlockView) -> Outcome {
        let (schema, name) = table_id(t);
        if self.contains_table(schema, name) {
            Outcome::failed(self, ErrorKind::DuplicatedTableName, t.ident.span)
        } else {
            match first_repeat(column_names(t)) {
                Some(i) => Outcome::failed(self, ErrorKind::DuplicatedColumnName, t.cols[i].span),
                None => {
                    let indexed = self.with_table(schema, name, column_names(t).to_set());
                    match t.ident.alias {
                        None => Outcome::done(indexed),
                        Some(alias) => if indexed.aliases.contains_key(alias.normalized) {
                            Outcome::failed(indexed, ErrorKind::DuplicatedAlias, alias.span)
                        } else {
                            Outcome::done(indexed.with_alias(alias.normalized, (schema, name)))
                        },
                    }
                },
            }
        }
    }

    /// Indexing of table declarations in source order, up to the first that
    /// fails.
    pub open spec fn index_tables(self, tables: Seq<TableBlockView>) -> Outcome {
        index_each(self, tables, |st: SymbolTable, t: TableBlockView| st.index_table_block(t))
    }

    /// Indexing of one enum declaration.
    ///
    /// The enum's name must be new in its schema and its values must differ;
    /// then the enum is indexed.
    pub open spec fn index_enum_block(self, e: EnumBlockView) -> Outcome {
        let (schema, name) = enum_id(e);
        if self.contains_enum(schema, name) {
            Outcome::failed(self, ErrorKind::DuplicatedEnumName, e.ident.span)
        } else {
            match first_repeat(enum_values(e)) {
                Some(i) => Outcome::failed(self, ErrorKind::DuplicatedEnumValue, e.values[i].span),
                None => Outcome::done(self.with_enum(schema, name, enum_values(e).to_set())),
            }
        }
    }

    /// Indexing of enum declarations in source order, up to the first that
    /// fails.
    pub open spec fn index_enums(self, enums: Seq<EnumBlockView>) -> Outcome {
        index_each(self, enums, |st: SymbolTable, e: EnumBlockView| st.index_enum_block(e))
    }

    /// The table that `alias` stands for, if it is registered.
    pub open spec fn resolve_alias(self, alias: Name) -> Option<TableId> {
        if self.aliases.contains_key(alias) {
            Some(self.aliases[alias])
        } else {
            None
        }
    }

    /// The table that a member of a table group stands for.
    ///
    /// With a schema, the member names that schema's table, whether or not it
    /// is indexed. Without one, it is an alias if it is registered as one, and
    /// else a table of the default schema, which must be indexed.
    pub open spec fn resolve_group_item(self, item: TableGroupItemView) -> Option<TableId> {
        let name = item.ident_alias.normalized;
        match item.schema {
            Some(schema) => Some((schema.normalized, name)),
            None => if self.aliases.contains_key(name) {
                Some(self.aliases[name])
            } else if self.contains_table(DEFAULT_SCHEMA@, name) {
                Some((DEFAULT_SCHEMA@, name))
            } else {
                None
            },
        }
    }

    /// The tables that the members of a group stand for, taken in source
    /// order: each must resolve, to a table that no member before it
    /// resolved to.
    pub open spec fn group_items(self, items: Seq<TableGroupItemView>) -> Result<
        Set<TableId>,
        IndexError,
    >
        decreases items.len(),
    {
        if items.len() == 0 {
            Ok(Set::empty())
        } else {
            match self.group_items(items.drop_last()) {
                Err(e) => Err(e),
                Ok(before) => match self.resolve_group_item(items.last()) {
                    None => Err(
                        IndexError { kind: ErrorKind::TableNotFound, span: items.last().span },
                    ),
                    Some(table) => if before.contains(table) {
                        Err(
                            IndexError {
                                kind: ErrorKind::DuplicatedTableGroupItem,
                                span: items.last().span,
                            },
                        )
                    } else {
                        Ok(before.insert(table))
                    },
                },
            }
        }
    }

    /// Indexing of one table group declaration.
    ///
    /// The group's name must be new and its members must resolve to tables
    /// that differ; then the group is indexed with those tables as members.
    pub open spec fn index_table_group_block(self, g: TableGroupBlockView) -> Outcome {
        if self.table_groups.contains_key(group_name(g)) {
            Outcome::failed(self, ErrorKind::DuplicatedTableGroupName, g.ident.span)
        } else {
            match self.group_items(g.items) {
                Err(e) => Outcome { symbols: self, result: Err(e) },
                Ok(items) => Outcome::done(self.with_table_group(group_name(g), items)),
            }
        }
    }

    /// Indexing of table group declarations in source order, up to the first
    /// that fails.
    pub open spec fn index_table_groups(self, groups: Seq<TableGroupBlockView>) -> Outcome {
        index_each(
            self,
            groups,
            |st: SymbolTable, g: TableGroupBlockView| st.index_table_group_block(g),
        )
    }

    /// Whether the enum `enum_name` of the schema has all of `values`; if
    /// not, what is missing.
    pub open spec fn lookup_enum_values(
        self,
        schema: Option<Name>,
        enum_name: Name,
        values: Seq<Name>,
    ) -> Result<(), LookupErrorView> {
        let schema = schema_or_default(schema);
        if !self.schemas.contains_key(schema) {
            Err(LookupErrorView::SchemaNotFound)
        } else if !self.schemas[schema].enums.contains_key(enum_name) {
            Err(LookupErrorView::EnumNotFound)
        } else {
            let known = self.schemas[schema].enums[enum_name];
            let missing = values.filter(|v: Name| !known.contains(v));
            if missing.len() == 0 {
                Ok(())
            } else {
                Err(LookupErrorView::ValueNotFound(missing))
            }
        }
    }

    /// Whether the table `table` of the schema has all of `fields` as
    /// columns; if not, what is missing.
    pub open spec fn lookup_table_fields(
        self,
        schema: Option<IdentView>,
        table: IdentView,
        fields: Seq<IdentView>,
    ) -> Result<(), LookupErrorView> {
        let schema = schema_name(schema);
        if !self.schemas.contains_key(schema) {
            Err(LookupErrorView::SchemaNotFound)
        } else if !self.schemas[schema].tables.contains_key(table.normalized) {
            Err(LookupErrorView::TableNotFound)
        } else {
            let cols = self.schemas[schema].tables[table.normalized];
            let missing = fields.filter(|f: IdentView| !cols.contains(f.normalized));
            if missing.len() == 0 {
                Ok(())
            } else {
                Err(LookupErrorView::FieldNotFound(missing))
            }
        }
    }

    /// The reference `r` with an alias in place of its table resolved.
    ///
    /// If the table of `r` is a registered alias, the schema and the table of
    /// the result name the table that the alias stands for; the span of the
    /// reference, the span of its table and its path are those of `r`, and
    /// the schema's span is empty. Any other reference is returned as it is.
    pub open spec fn resolve_ref_alias(self, r: RefIdentView) -> RefIdentView {
        match self.resolve_alias(r.table.normalized) {
            Some((schema, table)) => RefIdentView {
                span: r.span,
                schema: Some(
                    IdentView { span: Span { start: 0, end: 0 }, raw: schema, normalized: schema },
                ),
                table: IdentView { span: r.table.span, raw: table, normalized: table },
                compositions: r.compositions,
            },
            None => r,
        }
    }
}

/// Whether one of `tables` declares the table `name` of `schema`.
pub open spec fn declares_table(tables: Seq<TableBlockView>, schema: Name, name: Name) -> bool {
    exists|i: int| 0 <= i < tables.len() && #[trigger] table_id(tables[i]) == (schema, name)
}

/// Whether one of `tables` declares a table of `schema`.
pub open spec fn declares_table_in(tables: Seq<TableBlockView>, schema: Name) -> bool {
    exists|i: int| 0 <= i < tables.len() && (#[trigger] table_id(tables[i])).0 == schema
}

/// Whether one of `tables` declares `alias`.
pub open spec fn declares_alias(tables: Seq<TableBlockView>, alias: Name) -> bool {
    exists|i: int| 0 <= i < tables.len() && #[trigger] table_alias(tables[i]) == Some(alias)
}

/// Whether `tables` hold no duplicate at any scope, among themselves or
/// with what `st` has indexed: the tables are new and differ from each other,
/// the columns of each differ in name, and the aliases are new and differ
/// from each other.
pub open spec fn tables_fit(st: SymbolTable, tables: Seq<TableBlockView>) -> bool {
    &&& forall|i: int|
        0 <= i < tables.len() ==> {
            let id = #[trigger] table_id(tables[i]);
            &&& !st.contains_table(id.0, id.1)
            &&& column_names(tables[i]).no_duplicates()
        }
    &&& forall|i: int|
        0 <= i < tables.len() ==> (#[trigger] table_alias(tables[i]) matches Some(alias)
            ==> !st.aliases.contains_key(alias))
    &&& forall|i: int, j: int|
        0 <= i < j < tables.len() ==> #[trigger] table_id(tables[i]) != #[trigger] table_id(
            tables[j],
        )
    &&& forall|i: int, j: int|
        0 <= i < j < tables.len() && table_alias(tables[i]) is Some ==> #[trigger] table_alias(
            tables[i],
        ) != #[trigger] table_alias(tables[j])
}

/// Whether `after` is `st` with `tables` added: every table with its columns
/// under its schema, every alias with its table, and nothing else changed.
pub open spec fn tables_added(
    st: SymbolTable,
    tables: Seq<TableBlockView>,
    after: SymbolTable,
) -> bool {
    &&& after.table_groups == st.table_groups
    &&& forall|s: Name| #[trigger]
        after.schemas.contains_key(s) <==> st.schemas.contains_key(s) || declares_table_in(
            tables,
            s,
        )
    &&& forall|s: Name| (#[trigger] after.schema(s)).enums == st.schema(s).enums
    &&& forall|s: Name, n: Name| #[trigger]
        after.contains_table(s, n) <==> st.contains_table(s, n) || declares_table(tables, s, n)
    &&& forall|s: Name, n: Name|
        st.contains_table(s, n) ==> #[trigger] after.columns(s, n) == st.columns(s, n)
    &&& forall|i: int|
        0 <= i < tables.len() ==> {
            let id = #[trigger] table_id(tables[i]);
            after.columns(id.0, id.1) == column_names(tables[i]).to_set()
        }
    &&& forall|a: Name| #[trigger]
        after.aliases.contains_key(a) <==> st.aliases.contains_key(a) || declares_alias(tables, a)
    &&& forall|a: Name| st.aliases.contains_key(a) ==> #[trigger] after.aliases[a] == st.aliases[a]
    &&& forall|i: int|
        0 <= i < tables.len() ==> (#[trigger] table_alias(tables[i]) matches Some(alias)
            ==> after.aliases[alias] == table_id(tables[i]))
}

/// Whether one of `enums` declares the enum `name` of `schema`.
pub open spec fn declares_enum(enums: Seq<EnumBlockView>, schema: Name, name: Name) -> bool {
    exists|i: int| 0 <= i < enums.len() && #[trigger] enum_id(enums[i]) == (schema, name)
}

/// Whether one of `enums` declares an enum of `schema`.
pub open spec fn declares_enum_in(enums: Seq<EnumBlockView>, schema: Name) -> bool {
    exists|i: int| 0 <= i < enums.len() && (#[trigger] enum_id(enums[i])).0 == schema
}

/// Whether `enums` hold no duplicate at any scope, among themselves or with
/// what `st` has indexed: the enums are new and differ from each other, and
/// the values of each differ.
pub open spec fn enums_fit(st: SymbolTable, enums: Seq<EnumBlockView>) -> bool {
    &&& forall|i: int|
        0 <= i < enums.len() ==> {
            let id = #[trigger] enum_id(enums[i]);
            &&& !st.contains_enum(id.0, id.1)
            &&& enum_values(enums[i]).no_duplicates()
        }
    &&& forall|i: int, j: int|
        0 <= i < j < enums.len() ==> #[trigger] enum_id(enums[i]) != #[trigger] enum_id(enums[j])
}

/// Whether `after` is `st` with `enums` added: every enum with its values
/// under its schema, and nothing else changed.
pub open spec fn enums_added(st: SymbolTable, enums: Seq<EnumBlockView>, after: SymbolTable) -> bool {
    &&& after.table_groups == st.table_groups
    &&& after.aliases == st.aliases
    &&& forall|s: Name| #[trigger]
        after.schemas.contains_key(s) <==> st.schemas.contains_key(s) || declares_enum_in(enums, s)
    &&& forall|s: Name| (#[trigger] after.schema(s)).tables == st.schema(s).tables
    &&& forall|s: Name, n: Name| #[trigger]
        after.contains_enum(s, n) <==> st.contains_enum(s, n) || declares_enum(enums, s, n)
    &&& forall|s: Name, n: Name|
        st.contains_enum(s, n) ==> #[trigger] after.values(s, n) == st.values(s, n)
    &&& forall|i: int|
        0 <= i < enums.len() ==> {
            let id = #[trigger] enum_id(enums[i]);
            after.values(id.0, id.1) == enum_values(enums[i]).to_set()
        }
}

/// Whether every one of `items` stands for a table, and no two of them for
/// the same.
pub open spec fn items_resolve_apart(st: SymbolTable, items: Seq<TableGroupItemView>) -> bool {
    &&& forall|i: int|
        0 <= i < items.len() ==> (#[trigger] st.resolve_group_item(items[i])) is Some
    &&& forall|i: int, j: int|
        0 <= i < j < items.len() ==> #[trigger] st.resolve_group_item(items[i])
            != #[trigger] st.resolve_group_item(items[j])
}

/// Whether one of `groups` declares the table group `name`.
pub open spec fn declares_group(groups: Seq<TableGroupBlockView>, name: Name) -> bool {
    exists|i: int| 0 <= i < groups.len() && #[trigger] group_name(groups[i]) == name
}

/// Whether `groups` can all be indexed into `st`: their names are new and
/// differ from each other, and the items of each stand for tables that
/// differ.
pub open spec fn groups_fit(st: SymbolTable, groups: Seq<TableGroupBlockView>) -> bool {
    &&& forall|i: int|
        0 <= i < groups.len() ==> {
            &&& !st.table_groups.contains_key(#[trigger] group_name(groups[i]))
            &&& items_resolve_apart(st, groups[i].items)
        }
    &&& forall|i: int, j: int|
        0 <= i < j < groups.len() ==> #[trigger] group_name(groups[i]) != #[trigger] group_name(
            groups[j],
        )
}

/// Whether `after` is `st` with `groups` added: every group with the tables
/// that its items stand for as members, and nothing else changed.
pub open spec fn groups_added(
    st: SymbolTable,
    groups: Seq<TableGroupBlockView>,
    after: SymbolTable,
) -> bool {
    &&& after.schemas == st.schemas
    &&& after.aliases == st.aliases
    &&& forall|g: Name| #[trigger]
        after.table_groups.contains_key(g) <==> st.table_groups.contains_key(g) || declares_group(
            groups,
            g,
        )
    &&& forall|g: Name|
        st.table_groups.contains_key(g) ==> #[trigger] after.table_groups[g] == st.table_groups[g]
    &&& forall|i: int|
        0 <= i < groups.len() ==> st.group_items(groups[i].items) == Ok::<Set<TableId>, IndexError>(
            after.table_groups[#[trigger] group_name(groups[i])],
        )
}

/// Whether every alias stands for a table that is indexed.
pub open spec fn aliases_resolve(st: SymbolTable) -> bool {
    forall|a: Name| #[trigger]
        st.aliases.contains_key(a) ==> st.contains_table(st.aliases[a].0, st.aliases[a].1)
}

} // verus!
