//! Laws of the indexing of table groups.
use crate::ast::{TableGroupBlockView, TableGroupItemView, DEFAULT_SCHEMA};
use crate::error::{ErrorKind, IndexError};
use crate::laws::passes::lemma_index_each_keeps;
use crate::model::{
    aliases_resolve, declares_group, group_name, groups_added, groups_fit, items_resolve_apart, Name, Outcome,
    SymbolTable, TableId,
};
use vstd::prelude::*;

verus! {

/// A member of a table group that is given by an alias stands for the same
/// table as a member that names that table together with its schema.
pub proof fn lemma_group_item_by_alias_or_by_name(
    st: SymbolTable,
    by_alias: TableGroupItemView,
    by_name: TableGroupItemView,
)
    requires
        by_alias.schema is None,
        st.aliases.contains_key(by_alias.ident_alias.normalized),
        by_name.schema is Some,
        (by_name.schema.unwrap().normalized, by_name.ident_alias.normalized)
            == st.aliases[by_alias.ident_alias.normalized],
    ensures
        st.resolve_group_item(by_alias) == Some(st.aliases[by_alias.ident_alias.normalized]),
        st.resolve_group_item(by_name) == st.resolve_group_item(by_alias),
{
}

/// A member of a table group that is given by an alias of a table of the
/// default schema stands for the same table as a member that names that table
/// without a schema, provided that the table is indexed and its name is not
/// itself a registered alias.
pub proof fn lemma_group_item_by_alias_or_by_bare_name(
    st: SymbolTable,
    by_alias: TableGroupItemView,
    by_name: TableGroupItemView,
)
    requires
        by_alias.schema is None,
        st.aliases.contains_key(by_alias.ident_alias.normalized),
        by_name.schema is None,
        (DEFAULT_SCHEMA@, by_name.ident_alias.normalized)
            == st.aliases[by_alias.ident_alias.normalized],
        st.contains_table(DEFAULT_SCHEMA@, by_name.ident_alias.normalized),
        !st.aliases.contains_key(by_name.ident_alias.normalized),
    ensures
        st.resolve_group_item(by_name) == st.resolve_group_item(by_alias),
{
}

/// A member that fails makes the group's members fail, whatever follows it.
pub proof fn lemma_group_items_stops(st: SymbolTable, items: Seq<TableGroupItemView>, n: int)
    requires
        0 <= n <= items.len(),
        st.group_items(items.take(n)) is Err,
    ensures
        st.group_items(items) == st.group_items(items.take(n)),
    decreases items.len() - n,
{
    if n < items.len() {
        assert(items.take(n + 1).drop_last() =~= items.take(n));
        lemma_group_items_stops(st, items, n + 1);
    } else {
        assert(items.take(n) =~= items);
    }
}

/// The items of a group are accepted if and only if each stands for a table
/// and no two stand for the same; the members are then the tables that the
/// items stand for.
pub proof fn lemma_group_items(st: SymbolTable, items: Seq<TableGroupItemView>)
    ensures
        st.group_items(items) is Ok <==> items_resolve_apart(st, items),
        st.group_items(items) matches Ok(members) ==> forall|t: TableId|
            members.contains(t) <==> exists|i: int|
                0 <= i < items.len() && #[trigger] st.resolve_group_item(items[i]) == Some(t),
    decreases items.len(),
{
    if items.len() > 0 {
        let init = items.drop_last();
        let n = init.len() as int;
        lemma_group_items(st, init);
        assert(forall|i: int| 0 <= i < n ==> init[i] == items[i]);
        assert(items[n] == items.last());
        if items_resolve_apart(st, items) {
            assert(items_resolve_apart(st, init));
            let before = st.group_items(init)->Ok_0;
            let table = st.resolve_group_item(items[n])->Some_0;
            if before.contains(table) {
                let i = choose|i: int|
                    0 <= i < n && #[trigger] st.resolve_group_item(init[i]) == Some(table);
                assert(st.resolve_group_item(items[i]) != st.resolve_group_item(items[n]));
            }
        }
        if st.group_items(items) is Ok {
            let before = st.group_items(init)->Ok_0;
            let table = st.resolve_group_item(items.last())->Some_0;
            assert forall|t: TableId|
                st.group_items(items)->Ok_0.contains(t) <==> exists|i: int|
                    0 <= i < items.len() && #[trigger] st.resolve_group_item(items[i]) == Some(
                        t,
                    ) by {
                if before.contains(t) {
                    let i = choose|i: int|
                        0 <= i < n && #[trigger] st.resolve_group_item(init[i]) == Some(t);
                    assert(st.resolve_group_item(items[i]) == Some(t));
                }
                if t == table {
                    assert(st.resolve_group_item(items[n]) == Some(t));
                }
                if exists|i: int|
                    0 <= i < items.len() && #[trigger] st.resolve_group_item(items[i]) == Some(
                        t,
                    ) {
                    let i = choose|i: int|
                        0 <= i < items.len() && #[trigger] st.resolve_group_item(items[i])
                            == Some(t);
                    if i < n {
                        assert(st.resolve_group_item(init[i]) == Some(t));
                    }
                }
            }
            assert forall|i: int, j: int|
                0 <= i < j < items.len() implies #[trigger] st.resolve_group_item(items[i])
                != #[trigger] st.resolve_group_item(items[j]) by {
                if j < n {
                    assert(st.resolve_group_item(init[i]) != st.resolve_group_item(init[j]));
                } else {
                    assert(st.resolve_group_item(init[i]) is Some);
                }
            }
            assert forall|i: int| 0 <= i < items.len() implies (#[trigger] st.resolve_group_item(
                items[i],
            )) is Some by {
                if i < n {
                    assert(st.resolve_group_item(init[i]) is Some);
                }
            }
        }
    }
}

/// A group in which two items stand for one table is rejected. It is rejected
/// at the second of the two items with `DuplicatedTableGroupItem`, the symbol
/// table left as it was, if the group's name is new and nothing before that
/// item fails.
pub proof fn lemma_group_rejects_repeated_table(
    st: SymbolTable,
    g: TableGroupBlockView,
    i: int,
    j: int,
)
    requires
        0 <= i < j < g.items.len(),
        st.resolve_group_item(g.items[i]) is Some,
        st.resolve_group_item(g.items[i]) == st.resolve_group_item(g.items[j]),
    ensures
        st.index_table_group_block(g).result is Err,
        !st.table_groups.contains_key(group_name(g)) && st.group_items(g.items.take(j)) is Ok
            ==> st.index_table_group_block(g) == Outcome::failed(
            st,
            ErrorKind::DuplicatedTableGroupItem,
            g.items[j].span,
        ),
{
    let items = g.items;
    assert(items.take(j + 1).drop_last() =~= items.take(j));
    if st.group_items(items.take(j)) is Ok {
        lemma_group_items(st, items.take(j));
        assert(st.resolve_group_item(items.take(j)[i]) == st.resolve_group_item(items[j]));
    }
    lemma_group_items_stops(st, items, j + 1);
}

/// A group with an item that has no schema and names neither a registered
/// alias nor an indexed table of the default schema is rejected. It is
/// rejected at that item with `TableNotFound`, the symbol table left as it
/// was, if the group's name is new and nothing before that item fails.
pub proof fn lemma_group_rejects_unknown_table(st: SymbolTable, g: TableGroupBlockView, j: int)
    requires
        0 <= j < g.items.len(),
        g.items[j].schema is None,
        !st.aliases.contains_key(g.items[j].ident_alias.normalized),
        !st.contains_table(DEFAULT_SCHEMA@, g.items[j].ident_alias.normalized),
    ensures
        st.index_table_group_block(g).result is Err,
        !st.table_groups.contains_key(group_name(g)) && st.group_items(g.items.take(j)) is Ok
            ==> st.index_table_group_block(g) == Outcome::failed(
            st,
            ErrorKind::TableNotFound,
            g.items[j].span,
        ),
{
    let items = g.items;
    assert(items.take(j + 1).drop_last() =~= items.take(j));
    lemma_group_items_stops(st, items, j + 1);
}

/// An item without a schema stands for an indexed table, where every alias
/// does.
pub proof fn lemma_bare_group_item_is_indexed(st: SymbolTable, item: TableGroupItemView)
    requires
        aliases_resolve(st),
        item.schema is None,
        st.resolve_group_item(item) is Some,
    ensures
        st.contains_table(
            st.resolve_group_item(item).unwrap().0,
            st.resolve_group_item(item).unwrap().1,
        ),
{
    if st.aliases.contains_key(item.ident_alias.normalized) {
        assert(st.contains_table(
            st.aliases[item.ident_alias.normalized].0,
            st.aliases[item.ident_alias.normalized].1,
        ));
    }
}

/// Which tables the items of a group stand for depends on the schemas and
/// the aliases only.
pub proof fn lemma_group_items_read_tables(
    st: SymbolTable,
    other: SymbolTable,
    items: Seq<TableGroupItemView>,
)
    requires
        st.schemas == other.schemas,
        st.aliases == other.aliases,
    ensures
        st.group_items(items) == other.group_items(items),
    decreases items.len(),
{
    if items.len() > 0 {
        lemma_group_items_read_tables(st, other, items.drop_last());
    }
}

/// Indexing of table groups succeeds if and only if the groups fit, and then
/// adds every group with the tables that its items stand for.
pub proof fn lemma_index_table_groups(st: SymbolTable, groups: Seq<TableGroupBlockView>)
    ensures
        st.index_table_groups(groups).result is Ok <==> groups_fit(st, groups),
        st.index_table_groups(groups).result is Ok ==> groups_added(
            st,
            groups,
            st.index_table_groups(groups).symbols,
        ),
    decreases groups.len(),
{
    if groups.len() > 0 {
        let init = groups.drop_last();
        let last = groups.last();
        let n = init.len() as int;
        lemma_index_table_groups(st, init);
        lemma_group_items(st, last.items);
        assert(forall|i: int| 0 <= i < n ==> init[i] == groups[i]);
        assert(groups[n] == last);
        let before = st.index_table_groups(init);
        if groups_fit(st, groups) {
            assert(groups_fit(st, init));
            if declares_group(init, group_name(last)) {
                let i = choose|i: int|
                    0 <= i < n && #[trigger] group_name(init[i]) == group_name(last);
                assert(group_name(groups[i]) != group_name(groups[n]));
            }
            lemma_group_items_read_tables(st, before.symbols, last.items);
        }
        if before.result is Ok {
            let mid = before.symbols;
            lemma_group_items_read_tables(st, mid, last.items);
            let out = mid.index_table_group_block(last);
            if out.result is Ok {
                let after = out.symbols;
                assert forall|i: int| 0 <= i < groups.len() implies {
                    &&& !st.table_groups.contains_key(#[trigger] group_name(groups[i]))
                    &&& items_resolve_apart(st, groups[i].items)
                } by {
                    if i < n {
                        assert(!st.table_groups.contains_key(group_name(init[i])));
                    }
                }
                assert forall|i: int, j: int|
                    0 <= i < j < groups.len() implies #[trigger] group_name(groups[i])
                    != #[trigger] group_name(groups[j]) by {
                    if j < n {
                        assert(group_name(init[i]) != group_name(init[j]));
                    } else {
                        assert(declares_group(init, group_name(init[i])));
                    }
                }
                assert forall|g: Name| #[trigger]
                    after.table_groups.contains_key(g) <==> st.table_groups.contains_key(g)
                        || declares_group(groups, g) by {
                    assert(mid.table_groups.contains_key(g) <==> st.table_groups.contains_key(g)
                        || declares_group(init, g));
                    if declares_group(init, g) {
                        let i = choose|i: int| 0 <= i < n && #[trigger] group_name(init[i]) == g;
                        assert(group_name(groups[i]) == g);
                    }
                    if declares_group(groups, g) {
                        let i = choose|i: int|
                            0 <= i < groups.len() && #[trigger] group_name(groups[i]) == g;
                        if i < n {
                            assert(group_name(init[i]) == g);
                        }
                    }
                    if g == group_name(last) {
                        assert(group_name(groups[n]) == g);
                    }
                }
                assert forall|g: Name|
                    st.table_groups.contains_key(g) implies #[trigger] after.table_groups[g]
                    == st.table_groups[g] by {
                    assert(mid.table_groups[g] == st.table_groups[g]);
                    assert(mid.table_groups.contains_key(g));
                }
                assert forall|i: int| 0 <= i < groups.len() implies st.group_items(
                    groups[i].items,
                ) == Ok::<Set<TableId>, IndexError>(
                    after.table_groups[#[trigger] group_name(groups[i])],
                ) by {
                    if i < n {
                        assert(st.group_items(init[i].items) == Ok::<Set<TableId>, IndexError>(
                            mid.table_groups[group_name(init[i])],
                        ));
                        assert(declares_group(init, group_name(init[i])));
                    }
                }
            }
        }
    }
}

/// Indexing of table groups changes neither the schemas nor the aliases,
/// whether it succeeds or fails.
pub proof fn lemma_index_table_groups_keeps_tables(
    st: SymbolTable,
    groups: Seq<TableGroupBlockView>,
)
    ensures
        st.index_table_groups(groups).symbols.schemas == st.schemas,
        st.index_table_groups(groups).symbols.aliases == st.aliases,
{
    let step = |s: SymbolTable, g: TableGroupBlockView| s.index_table_group_block(g);
    let kept = |s: SymbolTable| s.schemas == st.schemas && s.aliases == st.aliases;
    assert forall|s: SymbolTable, g: TableGroupBlockView| kept(s) implies kept(
        #[trigger] step(s, g).symbols,
    ) by {}
    lemma_index_each_keeps(st, groups, step, kept);
}

} // verus!
