//! The indexer: the executable symbol table and the pass that fills it.
use crate::ast::{
    EnumBlock, EnumBlockView, Ident, IdentView, RefIdent, Span, TableBlock, TableBlockView,
    TableGroupBlock, TableGroupBlockView, TableGroupItem, DEFAULT_SCHEMA,
};
use crate::collections::{VecMap, VecSet, ViewEq};
use crate::error::{lookup_result_view, ErrorKind, IndexError, LookupError};
use crate::laws::enums::{lemma_index_enums, lemma_index_enums_keeps_aliases_resolved};
use crate::laws::groups::{
    lemma_group_items_stops, lemma_index_table_groups, lemma_index_table_groups_keeps_tables,
};
use crate::laws::lookups::{lemma_lookup_enum_values, lemma_lookup_table_fields};
use crate::laws::passes::lemma_index_each_stops;
use crate::laws::sequences::lemma_first_repeat_prefix;
use crate::laws::tables::{lemma_index_tables, lemma_index_tables_keeps_aliases_resolved};
use crate::model::{
    aliases_resolve, column_names, enum_values, enums_added, enums_fit, first_repeat, groups_added, groups_fit,
    schema_name, schema_or_default, tables_added, tables_fit, Name, Outcome, SchemaIndex,
    SymbolTable,
};
use vstd::prelude::*;
use vstd::std_specs::cmp::PartialEqSpecImpl;

verus! {

/// What is indexed under one schema: its tables with their columns, and its
/// enums with their values.
///
/// Two blocks are equal when they index the same tables and enums.
#[derive(Debug)]
pub struct IndexedSchemaBlock {
    /// Indexed table names and associated columns.
    table_map: VecMap<String, VecSet<String>>,
    /// Indexed enum names and associated values.
    enum_map: VecMap<String, VecSet<String>>,
}

impl View for IndexedSchemaBlock {
    type V = SchemaIndex;

    closed spec fn view(&self) -> SchemaIndex {
        SchemaIndex { tables: self.table_map@, enums: self.enum_map@ }
    }
}

impl Default for IndexedSchemaBlock {
    fn default() -> (r: Self)
        ensures
            r@ == SchemaIndex::empty(),
    {
        let r = IndexedSchemaBlock { table_map: VecMap::new(), enum_map: VecMap::new() };
        assert(r@ =~~= SchemaIndex::empty());
        r
    }
}

impl ViewEq for IndexedSchemaBlock {
    fn view_eq(&self, other: &Self) -> (r: bool) {
        let r = self.table_map.view_eq(&other.table_map) && self.enum_map.view_eq(&other.enum_map);
        assert(r ==> self@ =~= other@);
        r
    }

    fn view_clone(&self) -> (r: Self) {
        let r = IndexedSchemaBlock {
            table_map: self.table_map.view_clone(),
            enum_map: self.enum_map.view_clone(),
        };
        assert(r@ =~= self@);
        r
    }
}

impl Clone for IndexedSchemaBlock {
    fn clone(&self) -> (r: Self)
        ensures
            r@ == self@,
    {
        self.view_clone()
    }
}

impl PartialEq for IndexedSchemaBlock {
    fn eq(&self, other: &Self) -> (r: bool) {
        self.view_eq(other)
    }
}

impl PartialEqSpecImpl for IndexedSchemaBlock {
    open spec fn obeys_eq_spec() -> bool {
        true
    }

    open spec fn eq_spec(&self, other: &Self) -> bool {
        self@ == other@
    }
}

/// The symbol table of one compilation unit.
///
/// It starts out empty and is filled by one pass over the declarations:
/// tables and enums first, in either order, then table groups, whose members
/// are resolved against the tables and aliases indexed by then. After that it
/// is only read.
///
/// Two indexers are equal when they stand for the same symbol table.
#[derive(Debug)]
pub struct Indexer {
    /// Indexed table groups map.
    table_group_map: VecMap<String, VecSet<(String, String)>>,
    /// Indexed schema map.
    schema_map: VecMap<String, IndexedSchemaBlock>,
    /// Indexed alias map to the schema and table name.
    table_alias_map: VecMap<String, (String, String)>,
}

impl View for Indexer {
    type V = SymbolTable;

    closed spec fn view(&self) -> SymbolTable {
        SymbolTable {
            schemas: self.schema_map@,
            aliases: self.table_alias_map@,
            table_groups: self.table_group_map@,
        }
    }
}

impl Default for Indexer {
    fn default() -> (r: Self)
        ensures
            r@ == SymbolTable::empty(),
    {
        let r = Indexer {
            table_group_map: VecMap::new(),
            schema_map: VecMap::new(),
            table_alias_map: VecMap::new(),
        };
        assert(r@ =~~= SymbolTable::empty());
        r
    }
}

impl ViewEq for Indexer {
    fn view_eq(&self, other: &Self) -> (r: bool) {
        let r = self.table_group_map.view_eq(&other.table_group_map) && self.schema_map.view_eq(
            &other.schema_map,
        ) && self.table_alias_map.view_eq(&other.table_alias_map);
        assert(r ==> self@ =~= other@);
        r
    }

    fn view_clone(&self) -> (r: Self) {
        let r = Indexer {
            table_group_map: self.table_group_map.view_clone(),
            schema_map: self.schema_map.view_clone(),
            table_alias_map: self.table_alias_map.view_clone(),
        };
        assert(r@ =~= self@);
        r
    }
}

impl Clone for Indexer {
    fn clone(&self) -> (r: Self)
        ensures
            r@ == self@,
    {
        self.view_clone()
    }
}

impl PartialEq for Indexer {
    fn eq(&self, other: &Self) -> (r: bool) {
        self.view_eq(other)
    }
}

impl PartialEqSpecImpl for Indexer {
    open spec fn obeys_eq_spec() -> bool {
        true
    }

    open spec fn eq_spec(&self, other: &Self) -> bool {
        self@ == other@
    }
}

/// The name of the schema that a declaration belongs to.
fn schema_of(schema: &Option<Ident>) -> (r: String)
    ensures
        r@ == schema_name(schema.deep_view()),
{
    match schema {
        Some(s) => s.normalized.clone(),
        None => DEFAULT_SCHEMA.to_owned(),
    }
}

impl Indexer {
    /// Collects and validates table identifiers and their fields, in source
    /// order. The first declaration that fails ends the pass; what was
    /// indexed until then stays indexed.
    ///
    /// The pass succeeds if and only if the tables hold no duplicate at any
    /// scope: no table that is indexed already or declared twice, no column
    /// twice in a table, no alias that is registered already or declared
    /// twice. It then adds every table with its columns and its alias.
    /// However it ends, every alias stands for an indexed table afterwards
    /// if every alias did before.
    pub fn index_table(&mut self, tables: &Vec<&TableBlock>) -> (r: Result<(), IndexError>)
        ensures
            final(self)@ == old(self)@.index_tables(tables.deep_view()).symbols,
            r == old(self)@.index_tables(tables.deep_view()).result,
            r is Ok <==> tables_fit(old(self)@, tables.deep_view()),
            r is Ok ==> tables_added(old(self)@, tables.deep_view(), final(self)@),
            aliases_resolve(old(self)@) ==> aliases_resolve(final(self)@),
    {
        let ghost start = self@;
        let ghost decls = tables.deep_view();
        let mut i: usize = 0;
        while i < tables.len()
            invariant
                i <= tables.len(),
                start == old(self)@,
                decls == tables.deep_view(),
                start.index_tables(decls.take(i as int)) == Outcome::done(self@),
            decreases tables.len() - i,
        {
            let r = self.index_table_block(tables[i]);
            proof {
                assert(decls.take(i + 1).drop_last() =~= decls.take(i as int));
                assert(decls.take(i + 1).last() == tables[i as int]@);
            }
            if let Err(e) = r {
                proof {
                    lemma_index_each_stops(
                        start,
                        decls,
                        |st: SymbolTable, t: TableBlockView| st.index_table_block(t),
                        i + 1,
                    );
                    lemma_index_tables(start, decls);
                    if aliases_resolve(start) {
                        lemma_index_tables_keeps_aliases_resolved(start, decls);
                    }
                }
                return Err(e);
            }
            i += 1;
        }
        proof {
            assert(decls.take(i as int) =~= decls);
            lemma_index_tables(start, decls);
            if aliases_resolve(start) {
                lemma_index_tables_keeps_aliases_resolved(start, decls);
            }
        }
        Ok(())
    }

    /// Indexes one table declaration.
    fn index_table_block(&mut self, table: &TableBlock) -> (r: Result<(), IndexError>)
        ensures
            final(self)@ == old(self)@.index_table_block(table@).symbols,
            r == old(self)@.index_table_block(table@).result,
    {
        let ghost start = self@;
        let schema = schema_of(&table.ident.schema);
        if self.contains_table(&schema, &table.ident.name.normalized) {
            return Err(IndexError { kind: ErrorKind::DuplicatedTableName, span: table.ident.span });
        }
        let ghost names = column_names(table@);
        let mut indexed_cols: VecSet<String> = VecSet::new();
        let mut i: usize = 0;
        while i < table.cols.len()
            invariant
                i <= table.cols.len(),
                self@ == start,
                start == old(self)@,
                schema@ == schema_name(table@.ident.schema),
                !start.contains_table(schema@, table@.ident.name.normalized),
                names == column_names(table@),
                names.len() == table.cols.len(),
                first_repeat(names.take(i as int)) is None,
                indexed_cols@ == names.take(i as int).to_set(),
            decreases table.cols.len() - i,
        {
            let col = &table.cols[i];
            proof {
                assert(names.take(i + 1).drop_last() =~= names.take(i as int));
                assert(names.take(i + 1).last() == col.name.normalized@);
            }
            if !indexed_cols.insert(col.name.normalized.clone()) {
                proof {
                    assert(first_repeat(names.take(i + 1)) == Some(i as int));
                    lemma_first_repeat_prefix(names, i + 1);
                    assert(table@.cols[i as int].span == col.span);
                }
                return Err(IndexError { kind: ErrorKind::DuplicatedColumnName, span: col.span });
            }
            proof {
                assert(names.take(i + 1) =~= names.take(i as int).push(col.name.normalized@));
                names.take(i as int).lemma_push_to_set_commute(col.name.normalized@);
            }
            i += 1;
        }
        proof {
            assert(names.take(i as int) =~= names);
        }
        let mut block = match self.schema_map.remove(&schema) {
            Some(block) => block,
            None => IndexedSchemaBlock::default(),
        };
        assert(block@ == start.schema(schema@));
        block.table_map.insert(table.ident.name.normalized.clone(), indexed_cols);
        self.schema_map.insert(schema.clone(), block);
        proof {
            assert(self@ =~~= start.with_table(
                schema@,
                table.ident.name.normalized@,
                names.to_set(),
            ));
        }
        match &table.ident.alias {
            None => Ok(()),
            Some(alias) => {
                if self.table_alias_map.contains_key(&alias.normalized) {
                    return Err(IndexError { kind: ErrorKind::DuplicatedAlias, span: alias.span });
                }
                let ghost indexed = self@;
                self.table_alias_map.insert(
                    alias.normalized.clone(),
                    (schema, table.ident.name.normalized.clone()),
                );
                proof {
                    assert(self@ =~~= indexed.with_alias(
                        alias.normalized@,
                        (schema@, table.ident.name.normalized@),
                    ));
                }
                Ok(())
            },
        }
    }

    /// Collects and validates enum identifiers and their values, in source
    /// order. The first declaration that fails ends the pass; what was
    /// indexed until then stays indexed.
    ///
    /// The pass succeeds if and only if the enums hold no duplicate at any
    /// scope: no enum that is indexed already or declared twice, no value
    /// twice in an enum. It then adds every enum with its values. However it
    /// ends, every alias stands for an indexed table afterwards if every
    /// alias did before.
    pub fn index_enums(&mut self, enums: &Vec<&EnumBlock>) -> (r: Result<(), IndexError>)
        ensures
            final(self)@ == old(self)@.index_enums(enums.deep_view()).symbols,
            r == old(self)@.index_enums(enums.deep_view()).result,
            r is Ok <==> enums_fit(old(self)@, enums.deep_view()),
            r is Ok ==> enums_added(old(self)@, enums.deep_view(), final(self)@),
            aliases_resolve(old(self)@) ==> aliases_resolve(final(self)@),
    {
        let ghost start = self@;
        let ghost decls = enums.deep_view();
        let mut i: usize = 0;
        while i < enums.len()
            invariant
                i <= enums.len(),
                start == old(self)@,
                decls == enums.deep_view(),
                start.index_enums(decls.take(i as int)) == Outcome::done(self@),
            decreases enums.len() - i,
        {
            let r = self.index_enum_block(enums[i]);
            proof {
                assert(decls.take(i + 1).drop_last() =~= decls.take(i as int));
                assert(decls.take(i + 1).last() == enums[i as int]@);
            }
            if let Err(e) = r {
                proof {
                    lemma_index_each_stops(
                        start,
                        decls,
                        |st: SymbolTable, e: EnumBlockView| st.index_enum_block(e),
                        i + 1,
                    );
                    lemma_index_enums(start, decls);
                    if aliases_resolve(start) {
                        lemma_index_enums_keeps_aliases_resolved(start, decls);
                    }
                }
                return Err(e);
            }
            i += 1;
        }
        proof {
            assert(decls.take(i as int) =~= decls);
            lemma_index_enums(start, decls);
            if aliases_resolve(start) {
                lemma_index_enums_keeps_aliases_resolved(start, decls);
            }
        }
        Ok(())
    }

    /// Indexes one enum declaration.
    fn index_enum_block(&mut self, decl: &EnumBlock) -> (r: Result<(), IndexError>)
        ensures
            final(self)@ == old(self)@.index_enum_block(decl@).symbols,
            r == old(self)@.index_enum_block(decl@).result,
    {
        let ghost start = self@;
        let schema = schema_of(&decl.ident.schema);
        if self.contains_enum(&schema, &decl.ident.name.normalized) {
            return Err(IndexError { kind: ErrorKind::DuplicatedEnumName, span: decl.ident.span });
        }
        let ghost names = enum_values(decl@);
        let mut value_set: VecSet<String> = VecSet::new();
        let mut i: usize = 0;
        while i < decl.values.len()
            invariant
                i <= decl.values.len(),
                self@ == start,
                start == old(self)@,
                schema@ == schema_name(decl@.ident.schema),
                !start.contains_enum(schema@, decl@.ident.name.normalized),
                names == enum_values(decl@),
                names.len() == decl.values.len(),
                first_repeat(names.take(i as int)) is None,
                value_set@ == names.take(i as int).to_set(),
            decreases decl.values.len() - i,
        {
            let value = &decl.values[i];
            proof {
                assert(names.take(i + 1).drop_last() =~= names.take(i as int));
                assert(names.take(i + 1).last() == value.value.normalized@);
            }
            if !value_set.insert(value.value.normalized.clone()) {
                proof {
                    assert(first_repeat(names.take(i + 1)) == Some(i as int));
                    lemma_first_repeat_prefix(names, i + 1);
                    assert(decl@.values[i as int].span == value.span);
                }
                return Err(IndexError { kind: ErrorKind::DuplicatedEnumValue, span: value.span });
            }
            proof {
                assert(names.take(i + 1) =~= names.take(i as int).push(value.value.normalized@));
                names.take(i as int).lemma_push_to_set_commute(value.value.normalized@);
            }
            i += 1;
        }
        proof {
            assert(names.take(i as int) =~= names);
        }
        let mut block = match self.schema_map.remove(&schema) {
            Some(block) => block,
            None => IndexedSchemaBlock::default(),
        };
        assert(block@ == start.schema(schema@));
        block.enum_map.insert(decl.ident.name.normalized.clone(), value_set);
        self.schema_map.insert(schema, block);
        proof {
            assert(self@ =~~= start.with_enum(schema@, decl.ident.name.normalized@, names.to_set()));
        }
        Ok(())
    }

    /// Collects and validates table group identifiers and their items, in
    /// source order. The first declaration that fails ends the pass; the
    /// groups indexed until then stay indexed.
    ///
    /// The members are resolved against the tables and aliases that are
    /// indexed when this is called: index the tables first.
    ///
    /// The pass succeeds if and only if no group is indexed already or
    /// declared twice, and the items of each group stand for tables that
    /// differ. It then adds every group, with the tables that its items
    /// stand for as members. However it ends, it leaves the schemas and the
    /// aliases as they were.
    pub fn index_table_groups(&mut self, table_groups: &Vec<&TableGroupBlock>) -> (r: Result<
        (),
        IndexError,
    >)
        ensures
            final(self)@ == old(self)@.index_table_groups(table_groups.deep_view()).symbols,
            r == old(self)@.index_table_groups(table_groups.deep_view()).result,
            r is Ok <==> groups_fit(old(self)@, table_groups.deep_view()),
            r is Ok ==> groups_added(old(self)@, table_groups.deep_view(), final(self)@),
            final(self)@.schemas == old(self)@.schemas,
            final(self)@.aliases == old(self)@.aliases,
    {
        let ghost start = self@;
        let ghost decls = table_groups.deep_view();
        let mut i: usize = 0;
        while i < table_groups.len()
            invariant
                i <= table_groups.len(),
                start == old(self)@,
                decls == table_groups.deep_view(),
                start.index_table_groups(decls.take(i as int)) == Outcome::done(self@),
            decreases table_groups.len() - i,
        {
            let r = self.index_table_group_block(table_groups[i]);
            proof {
                assert(decls.take(i + 1).drop_last() =~= decls.take(i as int));
                assert(decls.take(i + 1).last() == table_groups[i as int]@);
            }
            if let Err(e) = r {
                proof {
                    lemma_index_each_stops(
                        start,
                        decls,
                        |st: SymbolTable, g: TableGroupBlockView| st.index_table_group_block(g),
                        i + 1,
                    );
                    lemma_index_table_groups(start, decls);
                    lemma_index_table_groups_keeps_tables(start, decls);
                }
                return Err(e);
            }
            i += 1;
        }
        proof {
            assert(decls.take(i as int) =~= decls);
            lemma_index_table_groups(start, decls);
            lemma_index_table_groups_keeps_tables(start, decls);
        }
        Ok(())
    }

    /// Indexes one table group declaration.
    fn index_table_group_block(&mut self, group: &TableGroupBlock) -> (r: Result<(), IndexError>)
        ensures
            final(self)@ == old(self)@.index_table_group_block(group@).symbols,
            r == old(self)@.index_table_group_block(group@).result,
    {
        let ghost start = self@;
        if self.table_group_map.contains_key(&group.ident.normalized) {
            return Err(
                IndexError { kind: ErrorKind::DuplicatedTableGroupName, span: group.ident.span },
            );
        }
        let ghost items = group@.items;
        let mut indexed_items: VecSet<(String, String)> = VecSet::new();
        let mut i: usize = 0;
        while i < group.items.len()
            invariant
                i <= group.items.len(),
                self@ == start,
                start == old(self)@,
                !start.table_groups.contains_key(group@.ident.normalized),
                items == group@.items,
                items.len() == group.items.len(),
                start.group_items(items.take(i as int)) == Ok::<Set<(Name, Name)>, IndexError>(
                    indexed_items@,
                ),
            decreases group.items.len() - i,
        {
            let item = &group.items[i];
            proof {
                assert(items.take(i + 1).drop_last() =~= items.take(i as int));
                assert(items.take(i + 1).last() == item@);
            }
            let ident = match self.resolve_group_item(item) {
                Some(ident) => ident,
                None => {
                    proof {
                        lemma_group_items_stops(start, items, i + 1);
                    }
                    return Err(IndexError { kind: ErrorKind::TableNotFound, span: item.span });
                },
            };
            if !indexed_items.insert(ident) {
                proof {
                    lemma_group_items_stops(start, items, i + 1);
                }
                return Err(
                    IndexError { kind: ErrorKind::DuplicatedTableGroupItem, span: item.span },
                );
            }
            i += 1;
        }
        proof {
            assert(items.take(i as int) =~= items);
        }
        self.table_group_map.insert(group.ident.normalized.clone(), indexed_items);
        proof {
            assert(self@ =~~= start.with_table_group(group.ident.normalized@, indexed_items@));
        }
        Ok(())
    }

    /// The table that a member of a table group stands for, if it stands for
    /// one.
    fn resolve_group_item(&self, item: &TableGroupItem) -> (r: Option<(String, String)>)
        ensures
            r.deep_view() == self@.resolve_group_item(item@),
    {
        match &item.schema {
            Some(schema) => Some((schema.normalized.clone(), item.ident_alias.normalized.clone())),
            None => match self.resolve_alias(&item.ident_alias.normalized) {
                Some(table) => Some((table.0.clone(), table.1.clone())),
                None => {
                    let schema = DEFAULT_SCHEMA.to_owned();
                    if self.contains_table(&schema, &item.ident_alias.normalized) {
                        Some((schema, item.ident_alias.normalized.clone()))
                    } else {
                        None
                    }
                },
            },
        }
    }

    /// Checks if the specified table identifier exists.
    pub fn contains_table(&self, schema: &String, name: &String) -> (r: bool)
        ensures
            r == self@.contains_table(schema@, name@),
    {
        match self.schema_map.get(schema) {
            Some(block) => block.table_map.contains_key(name),
            None => false,
        }
    }

    /// Checks if the specified enum identifier exists.
    pub fn contains_enum(&self, schema: &String, name: &String) -> (r: bool)
        ensures
            r == self@.contains_enum(schema@, name@),
    {
        match self.schema_map.get(schema) {
            Some(block) => block.enum_map.contains_key(name),
            None => false,
        }
    }

    /// Checks if the enum contains the specified values.
    ///
    /// Without a schema the enum is looked for in the default schema. The
    /// lookup fails if nothing is indexed under the schema, if the schema has
    /// no such enum, or if the enum lacks any of the values; in that case the
    /// error lists the values it lacks, in the order of the request.
    pub fn lookup_enum_values(
        &self,
        schema: &Option<String>,
        enum_name: &String,
        values: &Vec<String>,
    ) -> (r: Result<(), LookupError>)
        ensures
            lookup_result_view(r) == self@.lookup_enum_values(
                schema.deep_view(),
                enum_name@,
                values.deep_view(),
            ),
            r is Ok <==> self@.has_values(
                schema_or_default(schema.deep_view()),
                enum_name@,
                values.deep_view(),
            ),
    {
        proof {
            lemma_lookup_enum_values(self@, schema.deep_view(), enum_name@, values.deep_view());
        }
        let schema = match schema {
            Some(s) => s.clone(),
            None => DEFAULT_SCHEMA.to_owned(),
        };
        match self.schema_map.get(&schema) {
            None => Err(LookupError::SchemaNotFound),
            Some(block) => match block.enum_map.get(enum_name) {
                None => Err(LookupError::EnumNotFound),
                Some(value_set) => {
                    let ghost known = value_set@;
                    let ghost wanted = values.deep_view();
                    let ghost absent = |v: Name| !known.contains(v);
                    let mut missing: Vec<String> = Vec::new();
                    let mut i: usize = 0;
                    while i < values.len()
                        invariant
                            i <= values.len(),
                            known == value_set@,
                            wanted == values.deep_view(),
                            absent == |v: Name| !known.contains(v),
                            missing.deep_view() == wanted.take(i as int).filter(absent),
                        decreases values.len() - i,
                    {
                        proof {
                            assert(wanted.take(i + 1).drop_last() =~= wanted.take(i as int));
                            reveal(Seq::filter);
                        }
                        if !value_set.contains(&values[i]) {
                            missing.push(values[i].clone());
                            assert(missing.deep_view() =~= wanted.take(i as int).filter(absent).push(
                                values[i as int]@,
                            ));
                        }
                        i += 1;
                    }
                    assert(wanted.take(i as int) =~= wanted);
                    if missing.is_empty() {
                        Ok(())
                    } else {
                        Err(LookupError::ValueNotFound(missing))
                    }
                },
            },
        }
    }

    /// Checks if the table contains the specified fields.
    ///
    /// Without a schema the table is looked for in the default schema. The
    /// lookup fails if nothing is indexed under the schema, if the schema has
    /// no such table, or if any of the fields is not a column of the table;
    /// in that case the error lists the fields that are not, in the order of
    /// the request.
    pub fn lookup_table_fields(
        &self,
        schema: &Option<Ident>,
        table: &Ident,
        fields: &Vec<Ident>,
    ) -> (r: Result<(), LookupError>)
        ensures
            lookup_result_view(r) == self@.lookup_table_fields(
                schema.deep_view(),
                table@,
                fields.deep_view(),
            ),
            r is Ok <==> self@.has_columns(
                schema_name(schema.deep_view()),
                table@.normalized,
                fields.deep_view(),
            ),
    {
        proof {
            lemma_lookup_table_fields(self@, schema.deep_view(), table@, fields.deep_view());
        }
        let schema = schema_of(schema);
        match self.schema_map.get(&schema) {
            None => Err(LookupError::SchemaNotFound),
            Some(block) => match block.table_map.get(&table.normalized) {
                None => Err(LookupError::TableNotFound),
                Some(col_set) => {
                    let ghost cols = col_set@;
                    let ghost wanted = fields.deep_view();
                    let ghost absent = |f: IdentView| !cols.contains(f.normalized);
                    let mut unlisted_fields: Vec<Ident> = Vec::new();
                    let mut i: usize = 0;
                    while i < fields.len()
                        invariant
                            i <= fields.len(),
                            cols == col_set@,
                            wanted == fields.deep_view(),
                            absent == |f: IdentView| !cols.contains(f.normalized),
                            unlisted_fields.deep_view() == wanted.take(i as int).filter(absent),
                        decreases fields.len() - i,
                    {
                        proof {
                            assert(wanted.take(i + 1).drop_last() =~= wanted.take(i as int));
                            reveal(Seq::filter);
                        }
                        if !col_set.contains(&fields[i].normalized) {
                            unlisted_fields.push(fields[i].clone());
                            assert(unlisted_fields.deep_view() =~= wanted.take(i as int).filter(
                                absent,
                            ).push(fields[i as int]@));
                        }
                        i += 1;
                    }
                    assert(wanted.take(i as int) =~= wanted);
                    if unlisted_fields.is_empty() {
                        Ok(())
                    } else {
                        Err(LookupError::FieldNotFound(unlisted_fields))
                    }
                },
            },
        }
    }

    /// Gets the schema and table name from the given alias.
    pub fn resolve_alias(&self, table_alias: &String) -> (r: Option<&(String, String)>)
        ensures
            r.deep_view() == self@.resolve_alias(table_alias@),
    {
        self.table_alias_map.get(table_alias)
    }

    /// Gets a new ref block if it is pointing to an alias.
    ///
    /// A reference whose table is a registered alias is returned with the
    /// schema and the table that the alias stands for in their place; any
    /// other reference is returned as a copy.
    pub fn resolve_ref_alias(&self, ident: &RefIdent) -> (r: RefIdent)
        ensures
            r@ == self@.resolve_ref_alias(ident@),
    {
        match self.resolve_alias(&ident.table.normalized) {
            Some(target) => {
                let compositions = ident.compositions.clone();
                assert(compositions.deep_view() =~= ident.compositions.deep_view());
                RefIdent {
                    span: ident.span,
                    schema: Some(
                        Ident {
                            span: Span { start: 0, end: 0 },
                            raw: target.0.clone(),
                            normalized: target.0.clone(),
                        },
                    ),
                    table: Ident {
                        span: ident.table.span,
                        raw: target.1.clone(),
                        normalized: target.1.clone(),
                    },
                    compositions,
                }
            },
            None => ident.clone(),
        }
    }
}

} // verus!
