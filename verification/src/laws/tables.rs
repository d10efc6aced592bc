//! Laws of the indexing of tables.
use crate::ast::{IdentView, TableBlockView};
use crate::error::ErrorKind;
use crate::laws::lookups::lemma_lookup_table_fields;
use crate::laws::passes::{lemma_index_each_keeps, lemma_index_each_stops};
use crate::laws::sequences::{lemma_first_repeat_none, lemma_permutation_contains};
use crate::model::{
    aliases_resolve, column_names, declares_alias, declares_table, declares_table_in,
    table_alias, table_id, tables_added, tables_fit, Name, Outcome, SymbolTable,
};
use vstd::prelude::*;

verus! {

/// Whether `last` can follow `init`: what `tables_fit` asks of the last of the
/// tables.
spec fn table_fits(st: SymbolTable, init: Seq<TableBlockView>, last: TableBlockView) -> bool {
    let id = table_id(last);
    &&& !st.contains_table(id.0, id.1)
    &&& !declares_table(init, id.0, id.1)
    &&& column_names(last).no_duplicates()
    &&& table_alias(last) matches Some(alias) ==> !st.aliases.contains_key(alias)
        && !declares_alias(init, alias)
}

/// The tables fit if and only if all but the last fit and the last can follow
/// them.
proof fn lemma_tables_fit_split(st: SymbolTable, tables: Seq<TableBlockView>)
    requires
        tables.len() > 0,
    ensures
        tables_fit(st, tables) <==> tables_fit(st, tables.drop_last()) && table_fits(
            st,
            tables.drop_last(),
            tables.last(),
        ),
{
    let init = tables.drop_last();
    let last = tables.last();
    let n = init.len() as int;
    assert(forall|i: int| 0 <= i < n ==> init[i] == tables[i]);
    if tables_fit(st, tables) {
        assert(tables_fit(st, init));
        assert(table_id(tables[n]) == table_id(last));
        assert(table_alias(tables[n]) == table_alias(last));
        if declares_table(init, table_id(last).0, table_id(last).1) {
            let i = choose|i: int| 0 <= i < n && #[trigger] table_id(init[i]) == table_id(last);
            assert(table_id(tables[i]) != table_id(tables[n]));
        }
        if table_alias(last) is Some {
            let alias = table_alias(last).unwrap();
            if declares_alias(init, alias) {
                let i = choose|i: int|
                    0 <= i < n && #[trigger] table_alias(init[i]) == Some(alias);
                assert(table_alias(tables[i]) != table_alias(tables[n]));
            }
        }
        assert(table_fits(st, init, last));
    }
    if tables_fit(st, init) && table_fits(st, init, last) {
        assert forall|i: int| 0 <= i < tables.len() implies {
            let id = #[trigger] table_id(tables[i]);
            &&& !st.contains_table(id.0, id.1)
            &&& column_names(tables[i]).no_duplicates()
        } by {
            if i < n {
                assert(table_id(init[i]) == table_id(tables[i]));
            }
        }
        assert forall|i: int| 0 <= i < tables.len() implies (#[trigger] table_alias(
            tables[i],
        ) matches Some(alias) ==> !st.aliases.contains_key(alias)) by {
            if i < n {
                assert(table_alias(init[i]) == table_alias(tables[i]));
            }
        }
        assert forall|i: int, j: int| 0 <= i < j < tables.len() implies #[trigger] table_id(
            tables[i],
        ) != #[trigger] table_id(tables[j]) by {
            if j < n {
                assert(table_id(init[i]) != table_id(init[j]));
            } else {
                assert(table_id(init[i]) == table_id(tables[i]));
            }
        }
        assert forall|i: int, j: int|
            0 <= i < j < tables.len() && table_alias(tables[i]) is Some implies #[trigger] table_alias(
            tables[i],
        ) != #[trigger] table_alias(tables[j]) by {
            if j < n {
                assert(table_alias(init[i]) != table_alias(init[j]));
            } else {
                assert(table_alias(init[i]) == table_alias(tables[i]));
            }
        }
    }
}

/// What `tables` declare is what all but the last declare, and what the last
/// declares.
proof fn lemma_declares_split(tables: Seq<TableBlockView>)
    requires
        tables.len() > 0,
    ensures
        forall|s: Name, n: Name|
            declares_table(tables, s, n) <==> declares_table(tables.drop_last(), s, n) || table_id(
                tables.last(),
            ) == (s, n),
        forall|s: Name|
            declares_table_in(tables, s) <==> declares_table_in(tables.drop_last(), s) || table_id(
                tables.last(),
            ).0 == s,
        forall|a: Name|
            declares_alias(tables, a) <==> declares_alias(tables.drop_last(), a) || table_alias(
                tables.last(),
            ) == Some(a),
{
    let init = tables.drop_last();
    let last = tables.last();
    let n = init.len() as int;
    assert(forall|i: int| 0 <= i < n ==> init[i] == tables[i]);
    assert(tables[n] == last);
    assert forall|s: Name, n: Name|
        declares_table(tables, s, n) <==> declares_table(init, s, n) || table_id(last) == (
            s,
            n,
        ) by {
        if declares_table(tables, s, n) {
            let i = choose|i: int|
                0 <= i < tables.len() && #[trigger] table_id(tables[i]) == (s, n);
            if i < init.len() {
                assert(table_id(init[i]) == (s, n));
            }
        }
        if declares_table(init, s, n) {
            let i = choose|i: int| 0 <= i < init.len() && #[trigger] table_id(init[i]) == (s, n);
            assert(table_id(tables[i]) == (s, n));
        }
        if table_id(last) == (s, n) {
            assert(table_id(tables[init.len() as int]) == (s, n));
        }
    }
    assert forall|s: Name|
        declares_table_in(tables, s) <==> declares_table_in(init, s) || table_id(last).0 == s by {
        if declares_table_in(tables, s) {
            let i = choose|i: int|
                0 <= i < tables.len() && (#[trigger] table_id(tables[i])).0 == s;
            if i < init.len() {
                assert(table_id(init[i]).0 == s);
            }
        }
        if declares_table_in(init, s) {
            let i = choose|i: int| 0 <= i < init.len() && (#[trigger] table_id(init[i])).0 == s;
            assert(table_id(tables[i]).0 == s);
        }
        if table_id(last).0 == s {
            assert(table_id(tables[init.len() as int]).0 == s);
        }
    }
    assert forall|a: Name|
        declares_alias(tables, a) <==> declares_alias(init, a) || table_alias(last) == Some(
            a,
        ) by {
        if declares_alias(tables, a) {
            let i = choose|i: int|
                0 <= i < tables.len() && #[trigger] table_alias(tables[i]) == Some(a);
            if i < init.len() {
                assert(table_alias(init[i]) == Some(a));
            }
        }
        if declares_alias(init, a) {
            let i = choose|i: int|
                0 <= i < init.len() && #[trigger] table_alias(init[i]) == Some(a);
            assert(table_alias(tables[i]) == Some(a));
        }
        if table_alias(last) == Some(a) {
            assert(table_alias(tables[init.len() as int]) == Some(a));
        }
    }
}

/// Indexing one more table succeeds exactly if the table fits, and then adds
/// it.
proof fn lemma_index_table_block(
    st: SymbolTable,
    tables: Seq<TableBlockView>,
    mid: SymbolTable,
)
    requires
        tables.len() > 0,
        tables_added(st, tables.drop_last(), mid),
    ensures
        mid.index_table_block(tables.last()).result is Ok <==> table_fits(
            st,
            tables.drop_last(),
            tables.last(),
        ),
        mid.index_table_block(tables.last()).result is Ok ==> tables_added(
            st,
            tables,
            mid.index_table_block(tables.last()).symbols,
        ),
{
    let init = tables.drop_last();
    let last = tables.last();
    let (schema, name) = table_id(last);
    let out = mid.index_table_block(last);
    lemma_first_repeat_none(column_names(last));
    lemma_declares_split(tables);
    assert(mid.contains_table(schema, name) <==> st.contains_table(schema, name) || declares_table(
        init,
        schema,
        name,
    ));
    let indexed = mid.with_table(schema, name, column_names(last).to_set());
    if table_alias(last) is Some {
        let alias = table_alias(last).unwrap();
        assert(indexed.aliases.contains_key(alias) <==> st.aliases.contains_key(alias)
            || declares_alias(init, alias));
    }
    if out.result is Ok {
        let after = out.symbols;
        assert(table_fits(st, init, last));
        assert(forall|i: int| 0 <= i < init.len() ==> init[i] == tables[i]);
        assert(after.schemas =~= indexed.schemas);
        assert forall|s: Name| #[trigger]
            after.schemas.contains_key(s) <==> st.schemas.contains_key(s) || declares_table_in(
                tables,
                s,
            ) by {
            assert(mid.schemas.contains_key(s) <==> st.schemas.contains_key(s)
                || declares_table_in(init, s));
        }
        assert forall|s: Name| (#[trigger] after.schema(s)).enums == st.schema(s).enums by {
            assert(mid.schema(s).enums == st.schema(s).enums);
        }
        assert forall|s: Name, n: Name| #[trigger]
            after.contains_table(s, n) <==> st.contains_table(s, n) || declares_table(
                tables,
                s,
                n,
            ) by {
            assert(mid.contains_table(s, n) <==> st.contains_table(s, n) || declares_table(
                init,
                s,
                n,
            ));
        }
        assert forall|s: Name, n: Name| st.contains_table(s, n) implies #[trigger] after.columns(
            s,
            n,
        ) == st.columns(s, n) by {
            assert(mid.columns(s, n) == st.columns(s, n));
            assert(mid.contains_table(s, n));
        }
        assert forall|i: int| 0 <= i < tables.len() implies {
            let id = #[trigger] table_id(tables[i]);
            after.columns(id.0, id.1) == column_names(tables[i]).to_set()
        } by {
            if i < init.len() {
                let id = table_id(init[i]);
                assert(mid.columns(id.0, id.1) == column_names(init[i]).to_set());
                assert(declares_table(init, id.0, id.1));
                assert(mid.contains_table(id.0, id.1));
            }
        }
        assert forall|a: Name| #[trigger]
            after.aliases.contains_key(a) <==> st.aliases.contains_key(a) || declares_alias(
                tables,
                a,
            ) by {
            assert(mid.aliases.contains_key(a) <==> st.aliases.contains_key(a) || declares_alias(
                init,
                a,
            ));
        }
        assert forall|a: Name| st.aliases.contains_key(a) implies #[trigger] after.aliases[a]
            == st.aliases[a] by {
            assert(mid.aliases[a] == st.aliases[a]);
            assert(mid.aliases.contains_key(a));
        }
        assert forall|i: int| 0 <= i < tables.len() implies (#[trigger] table_alias(
            tables[i],
        ) matches Some(alias) ==> after.aliases[alias] == table_id(tables[i])) by {
            if i < init.len() && table_alias(tables[i]) is Some {
                let alias = table_alias(init[i]).unwrap();
                assert(mid.aliases[alias] == table_id(init[i]));
                assert(declares_alias(init, alias));
            }
        }
    }
}

/// Indexing of tables succeeds if and only if the tables hold no duplicate at
/// any scope, and then adds every table with its columns and its alias.
pub proof fn lemma_index_tables(st: SymbolTable, tables: Seq<TableBlockView>)
    ensures
        st.index_tables(tables).result is Ok <==> tables_fit(st, tables),
        st.index_tables(tables).result is Ok ==> tables_added(
            st,
            tables,
            st.index_tables(tables).symbols,
        ),
    decreases tables.len(),
{
    if tables.len() > 0 {
        let init = tables.drop_last();
        lemma_index_tables(st, init);
        lemma_tables_fit_split(st, tables);
        if st.index_tables(init).result is Ok {
            lemma_index_table_block(st, tables, st.index_tables(init).symbols);
        }
    }
}

/// Tables that hold no duplicate at any scope are all indexed: indexing
/// succeeds, every declared table is found afterwards, and so is every table
/// that was indexed before.
pub proof fn lemma_tables_without_duplicates_are_indexed(
    st: SymbolTable,
    tables: Seq<TableBlockView>,
)
    requires
        tables_fit(st, tables),
    ensures
        st.index_tables(tables).result is Ok,
        forall|i: int|
            0 <= i < tables.len() ==> st.index_tables(tables).symbols.contains_table(
                (#[trigger] table_id(tables[i])).0,
                table_id(tables[i]).1,
            ),
        forall|s: Name, n: Name|
            st.contains_table(s, n) ==> #[trigger] st.index_tables(tables).symbols.contains_table(
                s,
                n,
            ),
{
    lemma_index_tables(st, tables);
    let after = st.index_tables(tables).symbols;
    assert forall|i: int| 0 <= i < tables.len() implies {
        let id = #[trigger] table_id(tables[i]);
        after.contains_table(id.0, id.1)
    } by {
        let id = table_id(tables[i]);
        assert(declares_table(tables, id.0, id.1));
    }
}

/// An alias that two of the tables declare is rejected: indexing fails, and
/// it fails at the second of the two with `DuplicatedAlias`, its table
/// indexed, if nothing before that table fails and the table itself is new
/// and has columns that differ in name.
pub proof fn lemma_repeated_alias_is_rejected(
    st: SymbolTable,
    tables: Seq<TableBlockView>,
    i: int,
    j: int,
)
    requires
        0 <= i < j < tables.len(),
        table_alias(tables[i]) is Some,
        table_alias(tables[i]) == table_alias(tables[j]),
    ensures
        st.index_tables(tables).result is Err,
        st.index_tables(tables.take(j)).result is Ok && !st.index_tables(
            tables.take(j),
        ).symbols.contains_table(table_id(tables[j]).0, table_id(tables[j]).1) && column_names(
            tables[j],
        ).no_duplicates() ==> st.index_tables(tables) == Outcome::failed(
            st.index_tables(tables.take(j)).symbols.with_table(
                table_id(tables[j]).0,
                table_id(tables[j]).1,
                column_names(tables[j]).to_set(),
            ),
            ErrorKind::DuplicatedAlias,
            tables[j].ident.alias.unwrap().span,
        ),
{
    lemma_index_tables(st, tables);
    let before = st.index_tables(tables.take(j));
    let id = table_id(tables[j]);
    if before.result is Ok && !before.symbols.contains_table(id.0, id.1) && column_names(
        tables[j],
    ).no_duplicates() {
        lemma_index_tables(st, tables.take(j));
        lemma_first_repeat_none(column_names(tables[j]));
        let alias = table_alias(tables[j]).unwrap();
        assert(table_alias(tables.take(j)[i]) == Some(alias));
        assert(declares_alias(tables.take(j), alias));
        assert(tables.take(j + 1).drop_last() =~= tables.take(j));
        assert(st.index_tables(tables.take(j + 1)) == before.symbols.index_table_block(tables[j]));
        lemma_index_each_stops(
            st,
            tables,
            |st: SymbolTable, t: TableBlockView| st.index_table_block(t),
            j + 1,
        );
    }
}

/// Tables that fit are pairwise different declarations.
proof fn lemma_fitting_tables_differ(st: SymbolTable, tables: Seq<TableBlockView>)
    requires
        tables_fit(st, tables),
    ensures
        tables.no_duplicates(),
{
    assert forall|i: int, j: int|
        0 <= i < tables.len() && 0 <= j < tables.len() && i != j implies tables[i]
        != tables[j] by {
        if i < j {
            assert(table_id(tables[i]) != table_id(tables[j]));
        } else {
            assert(table_id(tables[j]) != table_id(tables[i]));
        }
    }
}

/// Whether tables fit does not depend on their order.
proof fn lemma_permuted_tables_fit(
    st: SymbolTable,
    tables: Seq<TableBlockView>,
    permuted: Seq<TableBlockView>,
)
    requires
        tables.to_multiset() == permuted.to_multiset(),
        tables_fit(st, tables),
    ensures
        tables_fit(st, permuted),
{
    lemma_fitting_tables_differ(st, tables);
    lemma_permutation_contains(tables, permuted);
    assert forall|i: int| 0 <= i < permuted.len() implies {
        let id = #[trigger] table_id(permuted[i]);
        &&& !st.contains_table(id.0, id.1)
        &&& column_names(permuted[i]).no_duplicates()
    } by {
        assert(permuted.contains(permuted[i]));
        let k = tables.index_of(permuted[i]);
        assert(table_id(tables[k]) == table_id(permuted[i]));
    }
    assert forall|i: int| 0 <= i < permuted.len() implies (#[trigger] table_alias(
        permuted[i],
    ) matches Some(alias) ==> !st.aliases.contains_key(alias)) by {
        assert(permuted.contains(permuted[i]));
        let k = tables.index_of(permuted[i]);
        assert(table_alias(tables[k]) == table_alias(permuted[i]));
    }
    assert forall|i: int, j: int| 0 <= i < j < permuted.len() implies #[trigger] table_id(
        permuted[i],
    ) != #[trigger] table_id(permuted[j]) by {
        assert(permuted.contains(permuted[i]));
        assert(permuted.contains(permuted[j]));
        let p = tables.index_of(permuted[i]);
        let q = tables.index_of(permuted[j]);
        if p < q {
            assert(table_id(tables[p]) != table_id(tables[q]));
        } else {
            assert(table_id(tables[q]) != table_id(tables[p]));
        }
    }
    assert forall|i: int, j: int|
        0 <= i < j < permuted.len() && table_alias(permuted[i]) is Some implies #[trigger] table_alias(
        permuted[i],
    ) != #[trigger] table_alias(permuted[j]) by {
        assert(permuted.contains(permuted[i]));
        assert(permuted.contains(permuted[j]));
        let p = tables.index_of(permuted[i]);
        let q = tables.index_of(permuted[j]);
        if p < q {
            assert(table_alias(tables[p]) != table_alias(tables[q]));
        } else if table_alias(tables[q]) is Some {
            assert(table_alias(tables[q]) != table_alias(tables[p]));
        }
    }
}

/// If each of `tables` is among `others`, then `others` declare what
/// `tables` declare.
proof fn lemma_declares_more(tables: Seq<TableBlockView>, others: Seq<TableBlockView>)
    requires
        forall|t: TableBlockView| tables.contains(t) ==> others.contains(t),
    ensures
        forall|s: Name, n: Name| declares_table(tables, s, n) ==> declares_table(others, s, n),
        forall|s: Name| declares_table_in(tables, s) ==> declares_table_in(others, s),
        forall|a: Name| declares_alias(tables, a) ==> declares_alias(others, a),
{
    assert forall|s: Name, n: Name| declares_table(tables, s, n) implies declares_table(
        others,
        s,
        n,
    ) by {
        let i = choose|i: int| 0 <= i < tables.len() && #[trigger] table_id(tables[i]) == (s, n);
        assert(tables.contains(tables[i]));
        let k = others.index_of(tables[i]);
        assert(table_id(others[k]) == (s, n));
    }
    assert forall|s: Name| declares_table_in(tables, s) implies declares_table_in(others, s) by {
        let i = choose|i: int| 0 <= i < tables.len() && (#[trigger] table_id(tables[i])).0 == s;
        assert(tables.contains(tables[i]));
        let k = others.index_of(tables[i]);
        assert(table_id(others[k]).0 == s);
    }
    assert forall|a: Name| declares_alias(tables, a) implies declares_alias(others, a) by {
        let i = choose|i: int|
            0 <= i < tables.len() && #[trigger] table_alias(tables[i]) == Some(a);
        assert(tables.contains(tables[i]));
        let k = others.index_of(tables[i]);
        assert(table_alias(others[k]) == Some(a));
    }
}

/// Two symbol tables that are `st` with tables added are the same symbol
/// table if the same tables were added, in whatever order.
proof fn lemma_tables_added_once(
    st: SymbolTable,
    tables: Seq<TableBlockView>,
    permuted: Seq<TableBlockView>,
    a: SymbolTable,
    b: SymbolTable,
)
    requires
        forall|t: TableBlockView| tables.contains(t) <==> permuted.contains(t),
        tables_fit(st, tables),
        tables_fit(st, permuted),
        tables_added(st, tables, a),
        tables_added(st, permuted, b),
    ensures
        a == b,
{
    lemma_declares_more(tables, permuted);
    lemma_declares_more(permuted, tables);
    assert forall|s: Name| a.schemas.contains_key(s) implies a.schemas[s] == b.schemas[s] by {
        assert(b.schemas.contains_key(s));
        assert(a.schema(s).enums == st.schema(s).enums);
        assert(b.schema(s).enums == st.schema(s).enums);
        assert forall|n: Name| a.schemas[s].tables.contains_key(n) implies a.schemas[s].tables[n]
            == b.schemas[s].tables[n] by {
            assert(a.contains_table(s, n));
            assert(b.contains_table(s, n));
            if st.contains_table(s, n) {
                assert(a.columns(s, n) == st.columns(s, n));
                assert(b.columns(s, n) == st.columns(s, n));
            } else {
                let i = choose|i: int|
                    0 <= i < tables.len() && #[trigger] table_id(tables[i]) == (s, n);
                assert(tables.contains(tables[i]));
                let k = permuted.index_of(tables[i]);
                assert(table_id(permuted[k]) == (s, n));
                assert(a.columns(s, n) == column_names(tables[i]).to_set());
                assert(b.columns(s, n) == column_names(permuted[k]).to_set());
            }
        }
        assert forall|n: Name|
            a.schemas[s].tables.contains_key(n) <==> b.schemas[s].tables.contains_key(n) by {
            assert(a.contains_table(s, n) <==> b.contains_table(s, n));
        }
        assert(a.schemas[s].tables =~= b.schemas[s].tables);
        assert(a.schemas[s] =~= b.schemas[s]);
    }
    assert(a.schemas =~= b.schemas);
    assert forall|x: Name| a.aliases.contains_key(x) implies a.aliases[x] == b.aliases[x] by {
        assert(b.aliases.contains_key(x));
        if st.aliases.contains_key(x) {
            assert(a.aliases[x] == st.aliases[x]);
            assert(b.aliases[x] == st.aliases[x]);
        } else {
            let i = choose|i: int|
                0 <= i < tables.len() && #[trigger] table_alias(tables[i]) == Some(x);
            assert(tables.contains(tables[i]));
            let k = permuted.index_of(tables[i]);
            assert(table_alias(permuted[k]) == Some(x));
            assert(a.aliases[x] == table_id(tables[i]));
            assert(b.aliases[x] == table_id(permuted[k]));
        }
    }
    assert(a.aliases =~= b.aliases);
    assert(a =~= b);
}

/// Tables that are indexed in one order are indexed in any other, with the
/// same result.
proof fn lemma_index_permuted_tables(
    st: SymbolTable,
    tables: Seq<TableBlockView>,
    permuted: Seq<TableBlockView>,
)
    requires
        tables.to_multiset() == permuted.to_multiset(),
        st.index_tables(tables).result is Ok,
    ensures
        st.index_tables(permuted) == st.index_tables(tables),
{
    lemma_index_tables(st, tables);
    lemma_permuted_tables_fit(st, tables, permuted);
    lemma_index_tables(st, permuted);
    lemma_permutation_contains(tables, permuted);
    lemma_tables_added_once(
        st,
        tables,
        permuted,
        st.index_tables(tables).symbols,
        st.index_tables(permuted).symbols,
    );
}

/// The order of table declarations does not matter where indexing succeeds:
/// tables that are indexed in one order are indexed in any other, and the
/// symbol table that results is the same. Where indexing fails in one order,
/// it fails in any other.
pub proof fn lemma_index_tables_in_any_order(
    st: SymbolTable,
    tables: Seq<TableBlockView>,
    permuted: Seq<TableBlockView>,
)
    requires
        tables.to_multiset() == permuted.to_multiset(),
    ensures
        st.index_tables(permuted).result is Ok <==> st.index_tables(tables).result is Ok,
        st.index_tables(tables).result is Ok ==> st.index_tables(permuted) == st.index_tables(
            tables,
        ),
{
    if st.index_tables(tables).result is Ok {
        lemma_index_permuted_tables(st, tables, permuted);
    }
    if st.index_tables(permuted).result is Ok {
        lemma_index_permuted_tables(st, permuted, tables);
    }
}

/// What indexing of tables adds leaves the enums as they were.
pub proof fn lemma_tables_added_keep_enums(
    st: SymbolTable,
    tables: Seq<TableBlockView>,
    after: SymbolTable,
)
    requires
        tables_added(st, tables, after),
    ensures
        forall|s: Name, n: Name| #[trigger] after.contains_enum(s, n) <==> st.contains_enum(s, n),
        forall|s: Name, n: Name|
            st.contains_enum(s, n) ==> #[trigger] after.values(s, n) == st.values(s, n),
{
    assert forall|s: Name, n: Name| #[trigger]
        after.contains_enum(s, n) <==> st.contains_enum(s, n) by {
        assert(after.schema(s).enums == st.schema(s).enums);
    }
    assert forall|s: Name, n: Name| st.contains_enum(s, n) implies #[trigger] after.values(s, n)
        == st.values(s, n) by {
        assert(after.schema(s).enums == st.schema(s).enums);
        assert(after.contains_enum(s, n));
    }
}

/// Indexing of tables keeps every alias standing for an indexed table,
/// whether it succeeds or fails.
pub proof fn lemma_index_tables_keeps_aliases_resolved(
    st: SymbolTable,
    tables: Seq<TableBlockView>,
)
    requires
        aliases_resolve(st),
    ensures
        aliases_resolve(st.index_tables(tables).symbols),
{
    let step = |s: SymbolTable, t: TableBlockView| s.index_table_block(t);
    assert forall|s: SymbolTable, t: TableBlockView| aliases_resolve(s) implies aliases_resolve(
        #[trigger] step(s, t).symbols,
    ) by {
        let after = s.index_table_block(t).symbols;
        assert forall|a: Name| #[trigger] after.aliases.contains_key(a) implies after.contains_table(
            after.aliases[a].0,
            after.aliases[a].1,
        ) by {
            if s.aliases.contains_key(a) {
                assert(s.contains_table(s.aliases[a].0, s.aliases[a].1));
            }
        }
    }
    lemma_index_each_keeps(st, tables, step, |s: SymbolTable| aliases_resolve(s));
}

/// The columns of an indexed table are found: after tables were indexed, a
/// lookup in one of them of fields that are all among its columns succeeds.
pub proof fn lemma_declared_columns_are_found(
    st: SymbolTable,
    tables: Seq<TableBlockView>,
    i: int,
    fields: Seq<IdentView>,
)
    requires
        st.index_tables(tables).result is Ok,
        0 <= i < tables.len(),
        forall|k: int|
            0 <= k < fields.len() ==> column_names(tables[i]).contains(
                (#[trigger] fields[k]).normalized,
            ),
    ensures
        st.index_tables(tables).symbols.lookup_table_fields(
            tables[i].ident.schema,
            tables[i].ident.name,
            fields,
        ) is Ok,
{
    let after = st.index_tables(tables).symbols;
    lemma_index_tables(st, tables);
    let id = table_id(tables[i]);
    assert(declares_table(tables, id.0, id.1));
    assert(after.contains_table(id.0, id.1));
    assert(after.columns(id.0, id.1) == column_names(tables[i]).to_set());
    lemma_lookup_table_fields(after, tables[i].ident.schema, tables[i].ident.name, fields);
}

} // verus!
