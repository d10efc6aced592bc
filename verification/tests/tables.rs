use schema_indexer::ast::{Ident, Span, TableBlock, TableColumn, TableIdent, DEFAULT_SCHEMA};
use schema_indexer::error::{ErrorKind, IndexError, LookupError};
use schema_indexer::indexer::Indexer;

fn span(start: usize, end: usize) -> Span {
    Span { start, end }
}

fn ident(text: &str, start: usize) -> Ident {
    Ident { span: span(start, start + text.len()), raw: text.to_string(), normalized: text.to_string() }
}

/// A table whose declaration starts at `start`: the identifier takes the
/// first 20 offsets, and column `k` stands at `start + 20 + 10 * k`.
fn table(schema: Option<&str>, name: &str, alias: Option<&str>, cols: &[&str], start: usize) -> TableBlock {
    let mut columns = Vec::new();
    for (k, col) in cols.iter().enumerate() {
        let at = start + 20 + 10 * k;
        columns.push(TableColumn { span: span(at, at + 10), name: ident(col, at) });
    }
    TableBlock {
        ident: TableIdent {
            span: span(start, start + 20),
            schema: schema.map(|s| ident(s, start)),
            name: ident(name, start + 7),
            alias: alias.map(|a| ident(a, start + 14)),
        },
        cols: columns,
    }
}

fn s(text: &str) -> String {
    text.to_string()
}

fn failure(kind: ErrorKind, start: usize, end: usize) -> Result<(), IndexError> {
    Err(IndexError { kind, span: span(start, end) })
}

#[test]
fn the_default_schema_is_public() {
    assert_eq!(DEFAULT_SCHEMA, "public");
}

#[test]
fn indexing_no_tables_succeeds_and_changes_nothing() {
    let mut indexer = Indexer::default();
    assert_eq!(indexer.index_table(&vec![]), Ok(()));
    assert!(indexer == Indexer::default());
    assert!(!indexer.contains_table(&s("public"), &s("users")));
}

#[test]
fn tables_without_duplicates_are_all_found() {
    let users = table(None, "users", Some("u"), &["id", "name"], 0);
    let posts = table(None, "posts", None, &["id", "author"], 100);
    let audit_users = table(Some("audit"), "users", Some("au"), &["id"], 200);
    let events = table(Some("audit"), "events", None, &[], 300);
    let mut indexer = Indexer::default();
    assert_eq!(indexer.index_table(&vec![&users, &posts, &audit_users, &events]), Ok(()));
    assert!(indexer.contains_table(&s("public"), &s("users")));
    assert!(indexer.contains_table(&s("public"), &s("posts")));
    assert!(indexer.contains_table(&s("audit"), &s("users")));
    assert!(indexer.contains_table(&s("audit"), &s("events")));
    assert!(!indexer.contains_table(&s("audit"), &s("posts")));
    assert!(!indexer.contains_table(&s("public"), &s("events")));
    assert!(!indexer.contains_table(&s("public"), &s("u")));
    assert!(!indexer.contains_table(&s("nowhere"), &s("users")));
    assert!(!indexer.contains_enum(&s("public"), &s("users")));
}

#[test]
fn two_tables_of_one_name_in_the_default_schema_fail() {
    let first = table(None, "users", None, &["id"], 0);
    let second = table(None, "users", None, &["id"], 100);
    let mut indexer = Indexer::default();
    assert_eq!(
        indexer.index_table(&vec![&first, &second]),
        failure(ErrorKind::DuplicatedTableName, 100, 120)
    );
    assert!(indexer.contains_table(&s("public"), &s("users")));
}

#[test]
fn two_tables_of_one_name_in_different_schemas_succeed() {
    let first = table(Some("sales"), "users", None, &["id"], 0);
    let second = table(Some("audit"), "users", None, &["id"], 100);
    let mut indexer = Indexer::default();
    assert_eq!(indexer.index_table(&vec![&first, &second]), Ok(()));
    assert!(indexer.contains_table(&s("sales"), &s("users")));
    assert!(indexer.contains_table(&s("audit"), &s("users")));
    assert!(!indexer.contains_table(&s("public"), &s("users")));
}

#[test]
fn a_table_without_schema_belongs_to_the_default_schema() {
    let bare = table(None, "users", None, &["id"], 0);
    let qualified = table(Some("public"), "users", None, &["id"], 100);
    let mut indexer = Indexer::default();
    assert_eq!(
        indexer.index_table(&vec![&bare, &qualified]),
        failure(ErrorKind::DuplicatedTableName, 100, 120)
    );
}

#[test]
fn a_table_that_is_already_indexed_fails_in_a_later_call() {
    let first = table(None, "users", None, &["id"], 0);
    let second = table(None, "users", None, &["name"], 100);
    let mut indexer = Indexer::default();
    assert_eq!(indexer.index_table(&vec![&first]), Ok(()));
    assert_eq!(indexer.index_table(&vec![&second]), failure(ErrorKind::DuplicatedTableName, 100, 120));
    assert_eq!(indexer.lookup_table_fields(&None, &ident("users", 0), &vec![ident("id", 0)]), Ok(()));
}

#[test]
fn a_table_with_a_repeated_column_fails() {
    let users = table(None, "users", None, &["id", "id"], 0);
    let mut indexer = Indexer::default();
    assert_eq!(indexer.index_table(&vec![&users]), failure(ErrorKind::DuplicatedColumnName, 30, 40));
    assert!(!indexer.contains_table(&s("public"), &s("users")));
    assert!(indexer == Indexer::default());
}

#[test]
fn the_repeated_column_is_reported_where_it_occurs_the_second_time() {
    let users = table(None, "users", None, &["id", "name", "email", "name", "id"], 0);
    let mut indexer = Indexer::default();
    assert_eq!(indexer.index_table(&vec![&users]), failure(ErrorKind::DuplicatedColumnName, 50, 60));
}

#[test]
fn a_table_with_distinct_columns_answers_field_lookups() {
    let users = table(None, "users", None, &["id", "name"], 0);
    let mut indexer = Indexer::default();
    assert_eq!(indexer.index_table(&vec![&users]), Ok(()));
    assert_eq!(
        indexer.lookup_table_fields(&None, &ident("users", 0), &vec![ident("id", 0), ident("name", 5)]),
        Ok(())
    );
    assert_eq!(
        indexer.lookup_table_fields(&None, &ident("users", 0), &vec![ident("id", 0), ident("ghost", 5)]),
        Err(LookupError::FieldNotFound(vec![ident("ghost", 5)]))
    );
}

#[test]
fn the_same_column_name_may_occur_in_two_tables() {
    let users = table(None, "users", None, &["id"], 0);
    let posts = table(None, "posts", None, &["id"], 100);
    let mut indexer = Indexer::default();
    assert_eq!(indexer.index_table(&vec![&users, &posts]), Ok(()));
}

#[test]
fn an_alias_declared_twice_in_one_schema_fails() {
    let users = table(None, "users", Some("u"), &["id"], 0);
    let posts = table(None, "posts", Some("u"), &["id"], 100);
    let mut indexer = Indexer::default();
    assert_eq!(indexer.index_table(&vec![&users, &posts]), failure(ErrorKind::DuplicatedAlias, 114, 115));
}

#[test]
fn an_alias_declared_twice_in_different_schemas_fails() {
    let users = table(Some("sales"), "users", Some("u"), &["id"], 0);
    let posts = table(Some("audit"), "posts", Some("u"), &["id"], 100);
    let mut indexer = Indexer::default();
    assert_eq!(indexer.index_table(&vec![&users, &posts]), failure(ErrorKind::DuplicatedAlias, 114, 115));
    assert_eq!(indexer.resolve_alias(&s("u")), Some(&(s("sales"), s("users"))));
}

#[test]
fn an_alias_that_is_already_registered_fails_in_a_later_call() {
    let users = table(None, "users", Some("u"), &["id"], 0);
    let posts = table(Some("blog"), "posts", Some("u"), &["id"], 100);
    let mut indexer = Indexer::default();
    assert_eq!(indexer.index_table(&vec![&users]), Ok(()));
    assert_eq!(indexer.index_table(&vec![&posts]), failure(ErrorKind::DuplicatedAlias, 114, 115));
}

#[test]
fn a_table_whose_alias_is_rejected_stays_indexed() {
    let users = table(None, "users", Some("u"), &["id"], 0);
    let posts = table(None, "posts", Some("u"), &["id", "title"], 100);
    let mut indexer = Indexer::default();
    assert_eq!(indexer.index_table(&vec![&users, &posts]), failure(ErrorKind::DuplicatedAlias, 114, 115));
    assert!(indexer.contains_table(&s("public"), &s("posts")));
    assert_eq!(
        indexer.lookup_table_fields(&None, &ident("posts", 0), &vec![ident("title", 0)]),
        Ok(())
    );
    assert_eq!(indexer.resolve_alias(&s("u")), Some(&(s("public"), s("users"))));
}

#[test]
fn an_alias_may_equal_the_name_of_a_table() {
    let users = table(None, "users", None, &["id"], 0);
    let accounts = table(None, "accounts", Some("users"), &["id"], 100);
    let mut indexer = Indexer::default();
    assert_eq!(indexer.index_table(&vec![&users, &accounts]), Ok(()));
    assert_eq!(indexer.resolve_alias(&s("users")), Some(&(s("public"), s("accounts"))));
}

#[test]
fn indexing_stops_at_the_first_table_that_fails() {
    let users = table(None, "users", None, &["id"], 0);
    let again = table(None, "users", None, &["id"], 100);
    let posts = table(None, "posts", None, &["id", "id"], 200);
    let tags = table(None, "tags", None, &["id"], 300);
    let mut indexer = Indexer::default();
    assert_eq!(
        indexer.index_table(&vec![&users, &again, &posts, &tags]),
        failure(ErrorKind::DuplicatedTableName, 100, 120)
    );
    assert!(indexer.contains_table(&s("public"), &s("users")));
    assert!(!indexer.contains_table(&s("public"), &s("posts")));
    assert!(!indexer.contains_table(&s("public"), &s("tags")));
}

#[test]
fn what_was_indexed_before_a_failure_stays_indexed() {
    let users = table(None, "users", Some("u"), &["id"], 0);
    let posts = table(None, "posts", None, &["id", "id"], 100);
    let mut indexer = Indexer::default();
    assert_eq!(indexer.index_table(&vec![&users, &posts]), failure(ErrorKind::DuplicatedColumnName, 130, 140));
    let mut expected = Indexer::default();
    assert_eq!(expected.index_table(&vec![&users]), Ok(()));
    assert!(indexer == expected);
}

#[test]
fn a_repeated_table_name_is_reported_before_a_repeated_column() {
    let users = table(None, "users", None, &["id"], 0);
    let again = table(None, "users", Some("u"), &["id", "id"], 100);
    let mut indexer = Indexer::default();
    assert_eq!(
        indexer.index_table(&vec![&users, &again]),
        failure(ErrorKind::DuplicatedTableName, 100, 120)
    );
}

#[test]
fn a_repeated_column_is_reported_before_a_repeated_alias() {
    let users = table(None, "users", Some("u"), &["id"], 0);
    let posts = table(None, "posts", Some("u"), &["id", "id"], 100);
    let mut indexer = Indexer::default();
    assert_eq!(indexer.index_table(&vec![&users, &posts]), failure(ErrorKind::DuplicatedColumnName, 130, 140));
    assert!(!indexer.contains_table(&s("public"), &s("posts")));
}

#[test]
fn identifiers_are_compared_by_their_normalized_text() {
    let plain = table(None, "users", None, &["id"], 0);
    let mut quoted = table(None, "users", None, &["id"], 100);
    quoted.ident.name.raw = s("\"users\"");
    let mut indexer = Indexer::default();
    assert_eq!(
        indexer.index_table(&vec![&plain, &quoted]),
        failure(ErrorKind::DuplicatedTableName, 100, 120)
    );

    let mut other = table(None, "Users", None, &["id"], 200);
    other.ident.name.raw = s("users");
    let mut indexer = Indexer::default();
    assert_eq!(indexer.index_table(&vec![&plain, &other]), Ok(()));
    assert!(indexer.contains_table(&s("public"), &s("Users")));
}

#[test]
fn the_order_of_the_tables_does_not_change_the_symbol_table() {
    let users = table(None, "users", Some("u"), &["id", "name"], 0);
    let posts = table(Some("blog"), "posts", Some("p"), &["id", "author"], 100);
    let tags = table(Some("blog"), "tags", None, &["id"], 200);
    let mut forward = Indexer::default();
    assert_eq!(forward.index_table(&vec![&users, &posts, &tags]), Ok(()));
    let mut backward = Indexer::default();
    assert_eq!(backward.index_table(&vec![&tags, &posts, &users]), Ok(()));
    let mut rotated = Indexer::default();
    assert_eq!(rotated.index_table(&vec![&posts, &tags, &users]), Ok(()));
    assert!(forward == backward);
    assert!(forward == rotated);
    assert_eq!(backward.resolve_alias(&s("p")), Some(&(s("blog"), s("posts"))));
}

#[test]
fn which_duplicate_is_reported_depends_on_the_order() {
    let first = table(None, "users", None, &["id"], 0);
    let second = table(None, "users", None, &["id"], 100);
    let mut indexer = Indexer::default();
    assert_eq!(indexer.index_table(&vec![&first, &second]), failure(ErrorKind::DuplicatedTableName, 100, 120));
    let mut indexer = Indexer::default();
    assert_eq!(indexer.index_table(&vec![&second, &first]), failure(ErrorKind::DuplicatedTableName, 0, 20));
}

#[test]
fn the_order_of_the_columns_does_not_change_the_symbol_table() {
    let one = table(None, "users", None, &["id", "name", "email"], 0);
    let other = table(None, "users", None, &["email", "id", "name"], 100);
    let mut a = Indexer::default();
    assert_eq!(a.index_table(&vec![&one]), Ok(()));
    let mut b = Indexer::default();
    assert_eq!(b.index_table(&vec![&other]), Ok(()));
    assert!(a == b);
}

#[test]
fn indexing_in_two_calls_is_indexing_in_one() {
    let users = table(None, "users", Some("u"), &["id"], 0);
    let posts = table(None, "posts", None, &["id"], 100);
    let mut once = Indexer::default();
    assert_eq!(once.index_table(&vec![&users, &posts]), Ok(()));
    let mut twice = Indexer::default();
    assert_eq!(twice.index_table(&vec![&users]), Ok(()));
    assert_eq!(twice.index_table(&vec![&posts]), Ok(()));
    assert!(once == twice);
}

#[test]
fn symbol_tables_with_different_contents_are_not_equal() {
    let users = table(None, "users", None, &["id"], 0);
    let wider = table(None, "users", None, &["id", "name"], 0);
    let aliased = table(None, "users", Some("u"), &["id"], 0);
    let elsewhere = table(Some("audit"), "users", None, &["id"], 0);
    let mut base = Indexer::default();
    assert_eq!(base.index_table(&vec![&users]), Ok(()));
    for different in [&wider, &aliased, &elsewhere] {
        let mut other = Indexer::default();
        assert_eq!(other.index_table(&vec![different]), Ok(()));
        assert!(base != other);
        assert!(other != base);
    }
    assert!(base != Indexer::default());
}

#[test]
fn a_clone_is_equal_and_independent() {
    let users = table(None, "users", Some("u"), &["id"], 0);
    let posts = table(None, "posts", None, &["id"], 100);
    let mut indexer = Indexer::default();
    assert_eq!(indexer.index_table(&vec![&users]), Ok(()));
    let copy = indexer.clone();
    assert!(copy == indexer);
    assert_eq!(indexer.index_table(&vec![&posts]), Ok(()));
    assert!(copy != indexer);
    assert!(!copy.contains_table(&s("public"), &s("posts")));
    assert_eq!(copy.resolve_alias(&s("u")), Some(&(s("public"), s("users"))));
}
