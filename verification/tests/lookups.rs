use schema_indexer::ast::{Ident, RefIdent, Span, TableBlock, TableColumn, TableIdent};
use schema_indexer::error::LookupError;
use schema_indexer::indexer::Indexer;

fn span(start: usize, end: usize) -> Span {
    Span { start, end }
}

fn ident(text: &str, start: usize) -> Ident {
    Ident { span: span(start, start + text.len()), raw: text.to_string(), normalized: text.to_string() }
}

fn table(schema: Option<&str>, name: &str, alias: Option<&str>, cols: &[&str], start: usize) -> TableBlock {
    let mut columns = Vec::new();
    for (k, col) in cols.iter().enumerate() {
        let at = start + 20 + 10 * k;
        columns.push(TableColumn { span: span(at, at + 10), name: ident(col, at) });
    }
    TableBlock {
        ident: TableIdent {
            span: span(start, start + 20),
            schema: schema.map(|s| ident(s, start)),
            name: ident(name, start + 7),
            alias: alias.map(|a| ident(a, start + 14)),
        },
        cols: columns,
    }
}

fn s(text: &str) -> String {
    text.to_string()
}

/// An indexer with `public.users` (alias `u`; columns `id`, `name`) and
/// `shop.orders` (alias `o`; columns `id`, `total`, `buyer`).
fn indexed() -> Indexer {
    let users = table(None, "users", Some("u"), &["id", "name"], 0);
    let orders = table(Some("shop"), "orders", Some("o"), &["id", "total", "buyer"], 100);
    let mut indexer = Indexer::default();
    assert_eq!(indexer.index_table(&vec![&users, &orders]), Ok(()));
    indexer
}

#[test]
fn an_empty_symbol_table_contains_nothing() {
    let indexer = Indexer::default();
    assert!(!indexer.contains_table(&s("public"), &s("users")));
    assert!(!indexer.contains_enum(&s("public"), &s("status")));
    assert_eq!(indexer.resolve_alias(&s("u")), None);
}

#[test]
fn a_registered_alias_resolves_to_its_table() {
    let indexer = indexed();
    assert_eq!(indexer.resolve_alias(&s("u")), Some(&(s("public"), s("users"))));
    assert_eq!(indexer.resolve_alias(&s("o")), Some(&(s("shop"), s("orders"))));
}

#[test]
fn a_name_that_is_no_alias_does_not_resolve() {
    let indexer = indexed();
    assert_eq!(indexer.resolve_alias(&s("users")), None);
    assert_eq!(indexer.resolve_alias(&s("x")), None);
    assert_eq!(indexer.resolve_alias(&s("")), None);
}

#[test]
fn a_lookup_of_columns_succeeds() {
    let indexer = indexed();
    assert_eq!(
        indexer.lookup_table_fields(&None, &ident("users", 0), &vec![ident("name", 0), ident("id", 5)]),
        Ok(())
    );
    assert_eq!(
        indexer.lookup_table_fields(&Some(ident("public", 0)), &ident("users", 7), &vec![ident("id", 13)]),
        Ok(())
    );
    assert_eq!(
        indexer.lookup_table_fields(
            &Some(ident("shop", 0)),
            &ident("orders", 5),
            &vec![ident("buyer", 12), ident("buyer", 20), ident("total", 30)]
        ),
        Ok(())
    );
    assert_eq!(indexer.lookup_table_fields(&None, &ident("users", 0), &vec![]), Ok(()));
}

#[test]
fn a_lookup_of_fields_in_an_unknown_schema_fails() {
    let indexer = indexed();
    assert_eq!(
        indexer.lookup_table_fields(&Some(ident("nowhere", 0)), &ident("users", 8), &vec![ident("id", 14)]),
        Err(LookupError::SchemaNotFound)
    );
    assert_eq!(
        Indexer::default().lookup_table_fields(&None, &ident("users", 0), &vec![]),
        Err(LookupError::SchemaNotFound)
    );
}

#[test]
fn a_lookup_of_fields_in_an_unknown_table_fails() {
    let indexer = indexed();
    assert_eq!(
        indexer.lookup_table_fields(&None, &ident("orders", 0), &vec![ident("id", 7)]),
        Err(LookupError::TableNotFound)
    );
    assert_eq!(
        indexer.lookup_table_fields(&Some(ident("shop", 0)), &ident("users", 5), &vec![]),
        Err(LookupError::TableNotFound)
    );
}

#[test]
fn a_lookup_of_fields_does_not_resolve_aliases() {
    let indexer = indexed();
    assert_eq!(
        indexer.lookup_table_fields(&None, &ident("u", 0), &vec![ident("id", 2)]),
        Err(LookupError::TableNotFound)
    );
}

#[test]
fn a_lookup_of_fields_lists_the_fields_that_are_no_columns() {
    let indexer = indexed();
    assert_eq!(
        indexer.lookup_table_fields(
            &None,
            &ident("users", 0),
            &vec![ident("email", 6), ident("id", 12), ident("age", 15), ident("name", 19), ident("email", 24)]
        ),
        Err(LookupError::FieldNotFound(vec![ident("email", 6), ident("age", 15), ident("email", 24)]))
    );
    assert_eq!(
        indexer.lookup_table_fields(&Some(ident("shop", 0)), &ident("orders", 5), &vec![ident("name", 12)]),
        Err(LookupError::FieldNotFound(vec![ident("name", 12)]))
    );
}

#[test]
fn fields_are_compared_by_their_normalized_text() {
    let indexer = indexed();
    let quoted = Ident { span: span(6, 10), raw: s("\"id\""), normalized: s("id") };
    assert_eq!(indexer.lookup_table_fields(&None, &ident("users", 0), &vec![quoted]), Ok(()));
    let wrong = Ident { span: span(6, 8), raw: s("id"), normalized: s("ID") };
    assert_eq!(
        indexer.lookup_table_fields(&None, &ident("users", 0), &vec![wrong.clone()]),
        Err(LookupError::FieldNotFound(vec![wrong]))
    );
}

fn reference(schema: Option<&str>, table: &str, path: &[&str], start: usize) -> RefIdent {
    let mut compositions = Vec::new();
    for (k, part) in path.iter().enumerate() {
        compositions.push(ident(part, start + 30 + 10 * k));
    }
    RefIdent {
        span: span(start, start + 60),
        schema: schema.map(|s| ident(s, start)),
        table: ident(table, start + 10),
        compositions,
    }
}

#[test]
fn a_reference_through_an_alias_is_resolved_to_the_table() {
    let indexer = indexed();
    let resolved = indexer.resolve_ref_alias(&reference(None, "o", &["buyer"], 400));
    assert_eq!(
        resolved,
        RefIdent {
            span: span(400, 460),
            schema: Some(Ident { span: span(0, 0), raw: s("shop"), normalized: s("shop") }),
            table: Ident { span: span(410, 411), raw: s("orders"), normalized: s("orders") },
            compositions: vec![ident("buyer", 430)],
        }
    );
}

#[test]
fn a_resolved_reference_keeps_its_path() {
    let indexer = indexed();
    let resolved = indexer.resolve_ref_alias(&reference(None, "u", &["id", "name", "x"], 0));
    assert_eq!(resolved.compositions, vec![ident("id", 30), ident("name", 40), ident("x", 50)]);
    let resolved = indexer.resolve_ref_alias(&reference(None, "u", &[], 0));
    assert_eq!(resolved.compositions, vec![]);
    assert_eq!(resolved.table.normalized, "users");
}

#[test]
fn an_alias_replaces_the_schema_of_the_reference() {
    let indexer = indexed();
    let resolved = indexer.resolve_ref_alias(&reference(Some("elsewhere"), "o", &["id"], 0));
    assert_eq!(resolved.schema, Some(Ident { span: span(0, 0), raw: s("shop"), normalized: s("shop") }));
    assert_eq!(resolved.table.normalized, "orders");
}

#[test]
fn a_reference_that_names_no_alias_is_returned_as_a_copy() {
    let indexer = indexed();
    for given in [
        reference(None, "users", &["id"], 0),
        reference(Some("shop"), "orders", &["buyer", "name"], 100),
        reference(None, "ghost", &[], 200),
        reference(Some("public"), "x", &["id"], 300),
    ] {
        assert_eq!(indexer.resolve_ref_alias(&given), given);
    }
    let given = reference(None, "u", &["id"], 0);
    assert_eq!(Indexer::default().resolve_ref_alias(&given), given);
}

#[test]
fn resolving_a_resolved_reference_changes_nothing() {
    let indexer = indexed();
    for given in [
        reference(None, "u", &["id"], 0),
        reference(None, "o", &["buyer"], 100),
        reference(None, "users", &["id"], 200),
    ] {
        let once = indexer.resolve_ref_alias(&given);
        let twice = indexer.resolve_ref_alias(&once);
        assert_eq!(twice, once);
    }
}

#[test]
fn a_table_that_is_named_like_an_alias_is_resolved_again() {
    let users = table(None, "users", Some("u"), &["id"], 0);
    let other = table(None, "other", Some("users"), &["id"], 100);
    let mut indexer = Indexer::default();
    assert_eq!(indexer.index_table(&vec![&users, &other]), Ok(()));
    let once = indexer.resolve_ref_alias(&reference(None, "u", &["id"], 0));
    assert_eq!(once.table.normalized, "users");
    let twice = indexer.resolve_ref_alias(&once);
    assert_eq!(twice.table.normalized, "other");
}
