//! Laws of the indexing of enums, alone and together with tables.
use crate::ast::{EnumBlockView, TableBlockView};
use crate::laws::passes::lemma_index_each_keeps;
use crate::laws::sequences::{lemma_first_repeat_none, lemma_permutation_contains};
use crate::laws::tables::{lemma_index_tables, lemma_tables_added_keep_enums};
use crate::model::{
    aliases_resolve, column_names, declares_alias, declares_enum, declares_enum_in,
    declares_table, declares_table_in, enum_id, enum_values, enums_added, enums_fit,
    table_alias, table_id, tables_fit, Name, SymbolTable,
};
use vstd::prelude::*;

verus! {

/// Whether `last` can follow `init`: what `enums_fit` asks of the last of the
/// enums.
spec fn enum_fits(st: SymbolTable, init: Seq<EnumBlockView>, last: EnumBlockView) -> bool {
    let id = enum_id(last);
    &&& !st.contains_enum(id.0, id.1)
    &&& !declares_enum(init, id.0, id.1)
    &&& enum_values(last).no_duplicates()
}

/// The enums fit if and only if all but the last fit and the last can follow
/// them.
proof fn lemma_enums_fit_split(st: SymbolTable, enums: Seq<EnumBlockView>)
    requires
        enums.len() > 0,
    ensures
        enums_fit(st, enums) <==> enums_fit(st, enums.drop_last()) && enum_fits(
            st,
            enums.drop_last(),
            enums.last(),
        ),
{
    let init = enums.drop_last();
    let last = enums.last();
    let n = init.len() as int;
    assert(forall|i: int| 0 <= i < n ==> init[i] == enums[i]);
    if enums_fit(st, enums) {
        assert(enums_fit(st, init));
        assert(enum_id(enums[n]) == enum_id(last));
        if declares_enum(init, enum_id(last).0, enum_id(last).1) {
            let i = choose|i: int| 0 <= i < n && #[trigger] enum_id(init[i]) == enum_id(last);
            assert(enum_id(enums[i]) != enum_id(enums[n]));
        }
        assert(enum_fits(st, init, last));
    }
    if enums_fit(st, init) && enum_fits(st, init, last) {
        assert forall|i: int| 0 <= i < enums.len() implies {
            let id = #[trigger] enum_id(enums[i]);
            &&& !st.contains_enum(id.0, id.1)
            &&& enum_values(enums[i]).no_duplicates()
        } by {
            if i < n {
                assert(enum_id(init[i]) == enum_id(enums[i]));
            }
        }
        assert forall|i: int, j: int| 0 <= i < j < enums.len() implies #[trigger] enum_id(
            enums[i],
        ) != #[trigger] enum_id(enums[j]) by {
            if j < n {
                assert(enum_id(init[i]) != enum_id(init[j]));
            } else {
                assert(enum_id(init[i]) == enum_id(enums[i]));
            }
        }
    }
}

/// What `enums` declare is what all but the last declare, and what the last
/// declares.
proof fn lemma_declares_enum_split(enums: Seq<EnumBlockView>)
    requires
        enums.len() > 0,
    ensures
        forall|s: Name, n: Name|
            declares_enum(enums, s, n) <==> declares_enum(enums.drop_last(), s, n) || enum_id(
                enums.last(),
            ) == (s, n),
        forall|s: Name|
            declares_enum_in(enums, s) <==> declares_enum_in(enums.drop_last(), s) || enum_id(
                enums.last(),
            ).0 == s,
{
    let init = enums.drop_last();
    let last = enums.last();
    assert(forall|i: int| 0 <= i < init.len() ==> init[i] == enums[i]);
    assert(enums[init.len() as int] == last);
    assert forall|s: Name, n: Name|
        declares_enum(enums, s, n) <==> declares_enum(init, s, n) || enum_id(last) == (s, n) by {
        if declares_enum(enums, s, n) {
            let i = choose|i: int| 0 <= i < enums.len() && #[trigger] enum_id(enums[i]) == (s, n);
            if i < init.len() {
                assert(enum_id(init[i]) == (s, n));
            }
        }
        if declares_enum(init, s, n) {
            let i = choose|i: int| 0 <= i < init.len() && #[trigger] enum_id(init[i]) == (s, n);
            assert(enum_id(enums[i]) == (s, n));
        }
        if enum_id(last) == (s, n) {
            assert(enum_id(enums[init.len() as int]) == (s, n));
        }
    }
    assert forall|s: Name|
        declares_enum_in(enums, s) <==> declares_enum_in(init, s) || enum_id(last).0 == s by {
        if declares_enum_in(enums, s) {
            let i = choose|i: int| 0 <= i < enums.len() && (#[trigger] enum_id(enums[i])).0 == s;
            if i < init.len() {
                assert(enum_id(init[i]).0 == s);
            }
        }
        if declares_enum_in(init, s) {
            let i = choose|i: int| 0 <= i < init.len() && (#[trigger] enum_id(init[i])).0 == s;
            assert(enum_id(enums[i]).0 == s);
        }
        if enum_id(last).0 == s {
            assert(enum_id(enums[init.len() as int]).0 == s);
        }
    }
}

/// Indexing one more enum succeeds exactly if the enum fits, and then adds
/// it.
proof fn lemma_index_enum_block(st: SymbolTable, enums: Seq<EnumBlockView>, mid: SymbolTable)
    requires
        enums.len() > 0,
        enums_added(st, enums.drop_last(), mid),
    ensures
        mid.index_enum_block(enums.last()).result is Ok <==> enum_fits(
            st,
            enums.drop_last(),
            enums.last(),
        ),
        mid.index_enum_block(enums.last()).result is Ok ==> enums_added(
            st,
            enums,
            mid.index_enum_block(enums.last()).symbols,
        ),
{
    let init = enums.drop_last();
    let last = enums.last();
    let (schema, name) = enum_id(last);
    let out = mid.index_enum_block(last);
    lemma_first_repeat_none(enum_values(last));
    lemma_declares_enum_split(enums);
    assert(mid.contains_enum(schema, name) <==> st.contains_enum(schema, name) || declares_enum(
        init,
        schema,
        name,
    ));
    if out.result is Ok {
        let after = out.symbols;
        assert(forall|i: int| 0 <= i < init.len() ==> init[i] == enums[i]);
        assert forall|s: Name| #[trigger]
            after.schemas.contains_key(s) <==> st.schemas.contains_key(s) || declares_enum_in(
                enums,
                s,
            ) by {
            assert(mid.schemas.contains_key(s) <==> st.schemas.contains_key(s)
                || declares_enum_in(init, s));
        }
        assert forall|s: Name| (#[trigger] after.schema(s)).tables == st.schema(s).tables by {
            assert(mid.schema(s).tables == st.schema(s).tables);
        }
        assert forall|s: Name, n: Name| #[trigger]
            after.contains_enum(s, n) <==> st.contains_enum(s, n) || declares_enum(enums, s, n) by {
            assert(mid.contains_enum(s, n) <==> st.contains_enum(s, n) || declares_enum(
                init,
                s,
                n,
            ));
        }
        assert forall|s: Name, n: Name| st.contains_enum(s, n) implies #[trigger] after.values(
            s,
            n,
        ) == st.values(s, n) by {
            assert(mid.values(s, n) == st.values(s, n));
            assert(mid.contains_enum(s, n));
        }
        assert forall|i: int| 0 <= i < enums.len() implies {
            let id = #[trigger] enum_id(enums[i]);
            after.values(id.0, id.1) == enum_values(enums[i]).to_set()
        } by {
            if i < init.len() {
                let id = enum_id(init[i]);
                assert(mid.values(id.0, id.1) == enum_values(init[i]).to_set());
                assert(declares_enum(init, id.0, id.1));
                assert(mid.contains_enum(id.0, id.1));
            }
        }
    }
}

/// Indexing of enums succeeds if and only if the enums hold no duplicate at
/// any scope, and then adds every enum with its values.
pub proof fn lemma_index_enums(st: SymbolTable, enums: Seq<EnumBlockView>)
    ensures
        st.index_enums(enums).result is Ok <==> enums_fit(st, enums),
        st.index_enums(enums).result is Ok ==> enums_added(
            st,
            enums,
            st.index_enums(enums).symbols,
        ),
    decreases enums.len(),
{
    if enums.len() > 0 {
        let init = enums.drop_last();
        lemma_index_enums(st, init);
        lemma_enums_fit_split(st, enums);
        if st.index_enums(init).result is Ok {
            lemma_index_enum_block(st, enums, st.index_enums(init).symbols);
        }
    }
}

/// Enums that hold no duplicate at any scope are all indexed: indexing
/// succeeds, every declared enum is found afterwards, and so is every enum
/// that was indexed before.
pub proof fn lemma_enums_without_duplicates_are_indexed(st: SymbolTable, enums: Seq<EnumBlockView>)
    requires
        enums_fit(st, enums),
    ensures
        st.index_enums(enums).result is Ok,
        forall|i: int|
            0 <= i < enums.len() ==> st.index_enums(enums).symbols.contains_enum(
                (#[trigger] enum_id(enums[i])).0,
                enum_id(enums[i]).1,
            ),
        forall|s: Name, n: Name|
            st.contains_enum(s, n) ==> #[trigger] st.index_enums(enums).symbols.contains_enum(s, n),
{
    lemma_index_enums(st, enums);
    let after = st.index_enums(enums).symbols;
    assert forall|i: int| 0 <= i < enums.len() implies {
        let id = #[trigger] enum_id(enums[i]);
        after.contains_enum(id.0, id.1)
    } by {
        let id = enum_id(enums[i]);
        assert(declares_enum(enums, id.0, id.1));
    }
}

/// Whether enums fit does not depend on their order.
proof fn lemma_permuted_enums_fit(
    st: SymbolTable,
    enums: Seq<EnumBlockView>,
    permuted: Seq<EnumBlockView>,
)
    requires
        enums.to_multiset() == permuted.to_multiset(),
        enums_fit(st, enums),
    ensures
        enums_fit(st, permuted),
{
    assert forall|i: int, j: int|
        0 <= i < enums.len() && 0 <= j < enums.len() && i != j implies enums[i] != enums[j] by {
        if i < j {
            assert(enum_id(enums[i]) != enum_id(enums[j]));
        } else {
            assert(enum_id(enums[j]) != enum_id(enums[i]));
        }
    }
    lemma_permutation_contains(enums, permuted);
    assert forall|i: int| 0 <= i < permuted.len() implies {
        let id = #[trigger] enum_id(permuted[i]);
        &&& !st.contains_enum(id.0, id.1)
        &&& enum_values(permuted[i]).no_duplicates()
    } by {
        assert(permuted.contains(permuted[i]));
        let k = enums.index_of(permuted[i]);
        assert(enum_id(enums[k]) == enum_id(permuted[i]));
    }
    assert forall|i: int, j: int| 0 <= i < j < permuted.len() implies #[trigger] enum_id(
        permuted[i],
    ) != #[trigger] enum_id(permuted[j]) by {
        assert(permuted.contains(permuted[i]));
        assert(permuted.contains(permuted[j]));
        let p = enums.index_of(permuted[i]);
        let q = enums.index_of(permuted[j]);
        if p < q {
            assert(enum_id(enums[p]) != enum_id(enums[q]));
        } else {
            assert(enum_id(enums[q]) != enum_id(enums[p]));
        }
    }
}

/// If each of `enums` is among `others`, then `others` declare what `enums`
/// declare.
proof fn lemma_declares_more_enums(enums: Seq<EnumBlockView>, others: Seq<EnumBlockView>)
    requires
        forall|e: EnumBlockView| enums.contains(e) ==> others.contains(e),
    ensures
        forall|s: Name, n: Name| declares_enum(enums, s, n) ==> declares_enum(others, s, n),
        forall|s: Name| declares_enum_in(enums, s) ==> declares_enum_in(others, s),
{
    assert forall|s: Name, n: Name| declares_enum(enums, s, n) implies declares_enum(
        others,
        s,
        n,
    ) by {
        let i = choose|i: int| 0 <= i < enums.len() && #[trigger] enum_id(enums[i]) == (s, n);
        assert(enums.contains(enums[i]));
        let k = others.index_of(enums[i]);
        assert(enum_id(others[k]) == (s, n));
    }
    assert forall|s: Name| declares_enum_in(enums, s) implies declares_enum_in(others, s) by {
        let i = choose|i: int| 0 <= i < enums.len() && (#[trigger] enum_id(enums[i])).0 == s;
        assert(enums.contains(enums[i]));
        let k = others.index_of(enums[i]);
        assert(enum_id(others[k]).0 == s);
    }
}

/// Two symbol tables that are `st` with enums added are the same symbol table
/// if the same enums were added, in whatever order.
proof fn lemma_enums_added_once(
    st: SymbolTable,
    enums: Seq<EnumBlockView>,
    permuted: Seq<EnumBlockView>,
    a: SymbolTable,
    b: SymbolTable,
)
    requires
        forall|e: EnumBlockView| enums.contains(e) <==> permuted.contains(e),
        enums_fit(st, enums),
        enums_fit(st, permuted),
        enums_added(st, enums, a),
        enums_added(st, permuted, b),
    ensures
        a == b,
{
    lemma_declares_more_enums(enums, permuted);
    lemma_declares_more_enums(permuted, enums);
    assert forall|s: Name| a.schemas.contains_key(s) implies a.schemas[s] == b.schemas[s] by {
        assert(b.schemas.contains_key(s));
        assert(a.schema(s).tables == st.schema(s).tables);
        assert(b.schema(s).tables == st.schema(s).tables);
        assert forall|n: Name| a.schemas[s].enums.contains_key(n) implies a.schemas[s].enums[n]
            == b.schemas[s].enums[n] by {
            assert(a.contains_enum(s, n));
            assert(b.contains_enum(s, n));
            if st.contains_enum(s, n) {
                assert(a.values(s, n) == st.values(s, n));
                assert(b.values(s, n) == st.values(s, n));
            } else {
                let i = choose|i: int|
                    0 <= i < enums.len() && #[trigger] enum_id(enums[i]) == (s, n);
                assert(enums.contains(enums[i]));
                let k = permuted.index_of(enums[i]);
                assert(enum_id(permuted[k]) == (s, n));
                assert(a.values(s, n) == enum_values(enums[i]).to_set());
                assert(b.values(s, n) == enum_values(permuted[k]).to_set());
            }
        }
        assert forall|n: Name|
            a.schemas[s].enums.contains_key(n) <==> b.schemas[s].enums.contains_key(n) by {
            assert(a.contains_enum(s, n) <==> b.contains_enum(s, n));
        }
        assert(a.schemas[s].enums =~= b.schemas[s].enums);
        assert(a.schemas[s] =~= b.schemas[s]);
    }
    assert(a.schemas =~= b.schemas);
    assert(a =~= b);
}

/// Enums that are indexed in one order are indexed in any other, with the
/// same result.
proof fn lemma_index_permuted_enums(
    st: SymbolTable,
    enums: Seq<EnumBlockView>,
    permuted: Seq<EnumBlockView>,
)
    requires
        enums.to_multiset() == permuted.to_multiset(),
        st.index_enums(enums).result is Ok,
    ensures
        st.index_enums(permuted) == st.index_enums(enums),
{
    lemma_index_enums(st, enums);
    lemma_permuted_enums_fit(st, enums, permuted);
    lemma_index_enums(st, permuted);
    lemma_permutation_contains(enums, permuted);
    lemma_enums_added_once(
        st,
        enums,
        permuted,
        st.index_enums(enums).symbols,
        st.index_enums(permuted).symbols,
    );
}

/// The order of enum declarations does not matter where indexing succeeds:
/// enums that are indexed in one order are indexed in any other, and the
/// symbol table that results is the same. Where indexing fails in one order,
/// it fails in any other.
pub proof fn lemma_index_enums_in_any_order(
    st: SymbolTable,
    enums: Seq<EnumBlockView>,
    permuted: Seq<EnumBlockView>,
)
    requires
        enums.to_multiset() == permuted.to_multiset(),
    ensures
        st.index_enums(permuted).result is Ok <==> st.index_enums(enums).result is Ok,
        st.index_enums(enums).result is Ok ==> st.index_enums(permuted) == st.index_enums(enums),
{
    if st.index_enums(enums).result is Ok {
        lemma_index_permuted_enums(st, enums, permuted);
    }
    if st.index_enums(permuted).result is Ok {
        lemma_index_permuted_enums(st, permuted, enums);
    }
}

/// What indexing of enums adds leaves the tables as they were.
pub proof fn lemma_enums_added_keep_tables(
    st: SymbolTable,
    enums: Seq<EnumBlockView>,
    after: SymbolTable,
)
    requires
        enums_added(st, enums, after),
    ensures
        forall|s: Name, n: Name| #[trigger] after.contains_table(s, n) <==> st.contains_table(s, n),
        forall|s: Name, n: Name|
            st.contains_table(s, n) ==> #[trigger] after.columns(s, n) == st.columns(s, n),
{
    assert forall|s: Name, n: Name| #[trigger]
        after.contains_table(s, n) <==> st.contains_table(s, n) by {
        assert(after.schema(s).tables == st.schema(s).tables);
    }
    assert forall|s: Name, n: Name| st.contains_table(s, n) implies #[trigger] after.columns(s, n)
        == st.columns(s, n) by {
        assert(after.schema(s).tables == st.schema(s).tables);
        assert(after.contains_table(s, n));
    }
}

/// Indexing of enums keeps every alias standing for an indexed table,
/// whether it succeeds or fails.
pub proof fn lemma_index_enums_keeps_aliases_resolved(st: SymbolTable, enums: Seq<EnumBlockView>)
    requires
        aliases_resolve(st),
    ensures
        aliases_resolve(st.index_enums(enums).symbols),
{
    let step = |s: SymbolTable, e: EnumBlockView| s.index_enum_block(e);
    assert forall|s: SymbolTable, e: EnumBlockView| aliases_resolve(s) implies aliases_resolve(
        #[trigger] step(s, e).symbols,
    ) by {
        let after = s.index_enum_block(e).symbols;
        assert forall|a: Name| #[trigger] after.aliases.contains_key(a) implies after.contains_table(
            after.aliases[a].0,
            after.aliases[a].1,
        ) by {
            assert(s.contains_table(s.aliases[a].0, s.aliases[a].1));
        }
    }
    lemma_index_each_keeps(st, enums, step, |s: SymbolTable| aliases_resolve(s));
}

/// Tables and enums can be indexed in either order: where tables first and
/// enums second succeeds, enums first and tables second succeeds too, and
/// the symbol table that results is the same.
pub proof fn lemma_tables_and_enums_in_either_order(
    st: SymbolTable,
    tables: Seq<TableBlockView>,
    enums: Seq<EnumBlockView>,
)
    requires
        st.index_tables(tables).result is Ok,
        st.index_tables(tables).symbols.index_enums(enums).result is Ok,
    ensures
        st.index_enums(enums).result is Ok,
        st.index_enums(enums).symbols.index_tables(tables) == st.index_tables(
            tables,
        ).symbols.index_enums(enums),
{
    let t1 = st.index_tables(tables).symbols;
    lemma_index_tables(st, tables);
    lemma_tables_added_keep_enums(st, tables, t1);
    let a = t1.index_enums(enums).symbols;
    lemma_index_enums(t1, enums);
    lemma_enums_added_keep_tables(t1, enums, a);
    assert(enums_fit(st, enums)) by {
        assert forall|i: int| 0 <= i < enums.len() implies {
            let id = #[trigger] enum_id(enums[i]);
            &&& !st.contains_enum(id.0, id.1)
            &&& enum_values(enums[i]).no_duplicates()
        } by {
            let id = enum_id(enums[i]);
            assert(t1.contains_enum(id.0, id.1) <==> st.contains_enum(id.0, id.1));
        }
    }
    let e1 = st.index_enums(enums).symbols;
    lemma_index_enums(st, enums);
    lemma_enums_added_keep_tables(st, enums, e1);
    assert(tables_fit(e1, tables)) by {
        assert forall|i: int| 0 <= i < tables.len() implies {
            let id = #[trigger] table_id(tables[i]);
            &&& !e1.contains_table(id.0, id.1)
            &&& column_names(tables[i]).no_duplicates()
        } by {
            let id = table_id(tables[i]);
            assert(e1.contains_table(id.0, id.1) <==> st.contains_table(id.0, id.1));
        }
    }
    let b = e1.index_tables(tables).symbols;
    lemma_index_tables(e1, tables);
    lemma_tables_added_keep_enums(e1, tables, b);
    assert forall|s: Name| a.schemas.contains_key(s) <==> b.schemas.contains_key(s) by {
        assert(t1.schemas.contains_key(s) <==> st.schemas.contains_key(s) || declares_table_in(
            tables,
            s,
        ));
        assert(e1.schemas.contains_key(s) <==> st.schemas.contains_key(s) || declares_enum_in(
            enums,
            s,
        ));
    }
    assert forall|s: Name| a.schemas.contains_key(s) implies a.schemas[s] == b.schemas[s] by {
        assert forall|n: Name|
            a.schemas[s].tables.contains_key(n) <==> b.schemas[s].tables.contains_key(n) by {
            assert(a.contains_table(s, n) <==> t1.contains_table(s, n));
            assert(t1.contains_table(s, n) <==> st.contains_table(s, n) || declares_table(
                tables,
                s,
                n,
            ));
            assert(b.contains_table(s, n) <==> e1.contains_table(s, n) || declares_table(
                tables,
                s,
                n,
            ));
            assert(e1.contains_table(s, n) <==> st.contains_table(s, n));
        }
        assert forall|n: Name| a.schemas[s].tables.contains_key(n) implies a.schemas[s].tables[n]
            == b.schemas[s].tables[n] by {
            assert(a.contains_table(s, n));
            assert(t1.contains_table(s, n));
            assert(a.columns(s, n) == t1.columns(s, n));
            if st.contains_table(s, n) {
                assert(t1.columns(s, n) == st.columns(s, n));
                assert(e1.contains_table(s, n));
                assert(e1.columns(s, n) == st.columns(s, n));
                assert(b.columns(s, n) == e1.columns(s, n));
            } else {
                let i = choose|i: int|
                    0 <= i < tables.len() && #[trigger] table_id(tables[i]) == (s, n);
                assert(t1.columns(s, n) == column_names(tables[i]).to_set());
                assert(b.columns(s, n) == column_names(tables[i]).to_set());
            }
        }
        assert(a.schemas[s].tables =~= b.schemas[s].tables);
        assert forall|n: Name|
            a.schemas[s].enums.contains_key(n) <==> b.schemas[s].enums.contains_key(n) by {
            assert(b.contains_enum(s, n) <==> e1.contains_enum(s, n));
            assert(e1.contains_enum(s, n) <==> st.contains_enum(s, n) || declares_enum(
                enums,
                s,
                n,
            ));
            assert(a.contains_enum(s, n) <==> t1.contains_enum(s, n) || declares_enum(
                enums,
                s,
                n,
            ));
            assert(t1.contains_enum(s, n) <==> st.contains_enum(s, n));
        }
        assert forall|n: Name| a.schemas[s].enums.contains_key(n) implies a.schemas[s].enums[n]
            == b.schemas[s].enums[n] by {
            assert(a.contains_enum(s, n));
            assert(b.contains_enum(s, n));
            assert(e1.contains_enum(s, n));
            assert(b.values(s, n) == e1.values(s, n));
            if st.contains_enum(s, n) {
                assert(e1.values(s, n) == st.values(s, n));
                assert(t1.contains_enum(s, n));
                assert(t1.values(s, n) == st.values(s, n));
                assert(a.values(s, n) == t1.values(s, n));
            } else {
                let i = choose|i: int|
                    0 <= i < enums.len() && #[trigger] enum_id(enums[i]) == (s, n);
                assert(e1.values(s, n) == enum_values(enums[i]).to_set());
                assert(a.values(s, n) == enum_values(enums[i]).to_set());
            }
        }
        assert(a.schemas[s].enums =~= b.schemas[s].enums);
        assert(a.schemas[s] =~= b.schemas[s]);
    }
    assert(a.schemas =~= b.schemas);
    assert forall|x: Name| a.aliases.contains_key(x) <==> b.aliases.contains_key(x) by {
        assert(t1.aliases.contains_key(x) <==> st.aliases.contains_key(x) || declares_alias(
            tables,
            x,
        ));
        assert(b.aliases.contains_key(x) <==> e1.aliases.contains_key(x) || declares_alias(
            tables,
            x,
        ));
    }
    assert forall|x: Name| a.aliases.contains_key(x) implies a.aliases[x] == b.aliases[x] by {
        assert(t1.aliases.contains_key(x));
        if st.aliases.contains_key(x) {
            assert(t1.aliases[x] == st.aliases[x]);
            assert(b.aliases[x] == e1.aliases[x]);
        } else {
            assert(declares_alias(tables, x));
            let i = choose|i: int|
                0 <= i < tables.len() && #[trigger] table_alias(tables[i]) == Some(x);
            assert(t1.aliases[x] == table_id(tables[i]));
            assert(b.aliases[x] == table_id(tables[i]));
        }
    }
    assert(a.aliases =~= b.aliases);
    assert(a =~= b);
}

} // verus!
