use schema_indexer::ast::{
    Ident, Span, TableBlock, TableColumn, TableGroupBlock, TableGroupItem, TableIdent,
};
use schema_indexer::error::{ErrorKind, IndexError};
use schema_indexer::indexer::Indexer;

fn span(start: usize, end: usize) -> Span {
    Span { start, end }
}

fn ident(text: &str, start: usize) -> Ident {
    Ident { span: span(start, start + text.len()), raw: text.to_string(), normalized: text.to_string() }
}

fn table(schema: Option<&str>, name: &str, alias: Option<&str>, start: usize) -> TableBlock {
    TableBlock {
        ident: TableIdent {
            span: span(start, start + 20),
            schema: schema.map(|s| ident(s, start)),
            name: ident(name, start + 7),
            alias: alias.map(|a| ident(a, start + 14)),
        },
        cols: vec![TableColumn { span: span(start + 20, start + 30), name: ident("id", start + 20) }],
    }
}

/// A group whose name stands at `start`; item `k` stands at
/// `start + 20 + 10 * k`. An item is written as an optional schema and a name
/// or alias.
fn group(name: &str, items: &[(Option<&str>, &str)], start: usize) -> TableGroupBlock {
    let mut list = Vec::new();
    for (k, (schema, item)) in items.iter().enumerate() {
        let at = start + 20 + 10 * k;
        list.push(TableGroupItem {
            span: span(at, at + 10),
            schema: schema.map(|s| ident(s, at)),
            ident_alias: ident(item, at + 5),
        });
    }
    TableGroupBlock { ident: ident(name, start), items: list }
}

fn s(text: &str) -> String {
    text.to_string()
}

fn failure(kind: ErrorKind, start: usize, end: usize) -> Result<(), IndexError> {
    Err(IndexError { kind, span: span(start, end) })
}

/// An indexer with `public.users` (alias `u`), `public.posts`,
/// `shop.orders` (alias `o`) and `shop.items`.
fn indexed_tables() -> Indexer {
    let users = table(None, "users", Some("u"), 0);
    let posts = table(None, "posts", None, 100);
    let orders = table(Some("shop"), "orders", Some("o"), 200);
    let items = table(Some("shop"), "items", None, 300);
    let mut indexer = Indexer::default();
    assert_eq!(indexer.index_table(&vec![&users, &posts, &orders, &items]), Ok(()));
    indexer
}

#[test]
fn indexing_no_groups_succeeds_and_changes_nothing() {
    let mut indexer = indexed_tables();
    assert_eq!(indexer.index_table_groups(&vec![]), Ok(()));
    assert!(indexer == indexed_tables());
}

#[test]
fn a_group_of_known_tables_is_indexed() {
    let people = group("people", &[(None, "users"), (None, "posts"), (Some("shop"), "orders")], 500);
    let empty = group("nothing", &[], 600);
    let mut indexer = indexed_tables();
    assert_eq!(indexer.index_table_groups(&vec![&people, &empty]), Ok(()));
    assert!(indexer != indexed_tables());
    assert!(indexer.contains_table(&s("public"), &s("users")));
    assert_eq!(indexer.resolve_alias(&s("o")), Some(&(s("shop"), s("orders"))));
}

#[test]
fn a_member_given_by_alias_is_the_member_given_by_name() {
    let by_alias = group("people", &[(None, "u"), (None, "o")], 500);
    let by_name = group("people", &[(Some("public"), "users"), (Some("shop"), "orders")], 500);
    let by_bare_name = group("people", &[(None, "users"), (Some("shop"), "orders")], 500);
    let mut a = indexed_tables();
    assert_eq!(a.index_table_groups(&vec![&by_alias]), Ok(()));
    let mut b = indexed_tables();
    assert_eq!(b.index_table_groups(&vec![&by_name]), Ok(()));
    let mut c = indexed_tables();
    assert_eq!(c.index_table_groups(&vec![&by_bare_name]), Ok(()));
    assert!(a == b);
    assert!(a == c);
}

#[test]
fn groups_with_different_members_are_different() {
    let one = group("people", &[(None, "users")], 500);
    let other = group("people", &[(None, "posts")], 500);
    let renamed = group("persons", &[(None, "users")], 500);
    let mut a = indexed_tables();
    assert_eq!(a.index_table_groups(&vec![&one]), Ok(()));
    let mut b = indexed_tables();
    assert_eq!(b.index_table_groups(&vec![&other]), Ok(()));
    let mut c = indexed_tables();
    assert_eq!(c.index_table_groups(&vec![&renamed]), Ok(()));
    assert!(a != b);
    assert!(a != c);
}

#[test]
fn the_order_of_the_members_does_not_matter() {
    let one = group("people", &[(None, "users"), (None, "posts"), (None, "o")], 500);
    let other = group("people", &[(None, "o"), (None, "users"), (None, "posts")], 500);
    let mut a = indexed_tables();
    assert_eq!(a.index_table_groups(&vec![&one]), Ok(()));
    let mut b = indexed_tables();
    assert_eq!(b.index_table_groups(&vec![&other]), Ok(()));
    assert!(a == b);
}

#[test]
fn a_table_by_alias_and_by_name_in_one_group_fails() {
    let both = group("people", &[(None, "u"), (None, "users")], 500);
    let mut indexer = indexed_tables();
    assert_eq!(
        indexer.index_table_groups(&vec![&both]),
        failure(ErrorKind::DuplicatedTableGroupItem, 530, 540)
    );
    assert!(indexer == indexed_tables());

    let qualified = group("shopping", &[(None, "posts"), (Some("shop"), "orders"), (None, "o")], 600);
    assert_eq!(
        indexer.index_table_groups(&vec![&qualified]),
        failure(ErrorKind::DuplicatedTableGroupItem, 640, 650)
    );
}

#[test]
fn a_table_named_twice_in_one_group_fails() {
    let twice = group("people", &[(None, "users"), (None, "posts"), (Some("public"), "users")], 500);
    let mut indexer = indexed_tables();
    assert_eq!(
        indexer.index_table_groups(&vec![&twice]),
        failure(ErrorKind::DuplicatedTableGroupItem, 540, 550)
    );
}

#[test]
fn a_table_may_be_a_member_of_two_groups() {
    let people = group("people", &[(None, "users")], 500);
    let authors = group("authors", &[(None, "u"), (None, "posts")], 600);
    let mut indexer = indexed_tables();
    assert_eq!(indexer.index_table_groups(&vec![&people, &authors]), Ok(()));
}

#[test]
fn a_member_that_is_neither_alias_nor_table_fails() {
    let unknown = group("people", &[(None, "users"), (None, "ghost")], 500);
    let mut indexer = indexed_tables();
    assert_eq!(indexer.index_table_groups(&vec![&unknown]), failure(ErrorKind::TableNotFound, 530, 540));
    assert!(indexer == indexed_tables());
}

#[test]
fn a_bare_member_is_looked_for_in_the_default_schema_only() {
    let bare = group("shopping", &[(None, "items")], 500);
    let mut indexer = indexed_tables();
    assert_eq!(indexer.index_table_groups(&vec![&bare]), failure(ErrorKind::TableNotFound, 520, 530));
    let qualified = group("shopping", &[(Some("shop"), "items")], 500);
    assert_eq!(indexer.index_table_groups(&vec![&qualified]), Ok(()));
}

#[test]
fn a_member_with_a_schema_is_taken_as_it_is() {
    let unchecked = group("anything", &[(Some("nowhere"), "ghost"), (Some("shop"), "u")], 500);
    let mut indexer = indexed_tables();
    assert_eq!(indexer.index_table_groups(&vec![&unchecked]), Ok(()));
    assert!(!indexer.contains_table(&s("nowhere"), &s("ghost")));

    let with_alias = group("other", &[(Some("public"), "u"), (None, "u")], 600);
    assert_eq!(indexer.index_table_groups(&vec![&with_alias]), Ok(()));
}

#[test]
fn an_alias_comes_before_a_table_of_the_same_name() {
    let users = table(None, "users", None, 0);
    let accounts = table(None, "accounts", Some("users"), 100);
    let mut indexer = Indexer::default();
    assert_eq!(indexer.index_table(&vec![&users, &accounts]), Ok(()));
    let both = group("people", &[(None, "users"), (None, "accounts")], 500);
    assert_eq!(
        indexer.index_table_groups(&vec![&both]),
        failure(ErrorKind::DuplicatedTableGroupItem, 530, 540)
    );
    let apart = group("people", &[(None, "users"), (Some("public"), "users")], 500);
    assert_eq!(indexer.index_table_groups(&vec![&apart]), Ok(()));
}

#[test]
fn two_groups_of_one_name_fail() {
    let first = group("people", &[(None, "users")], 500);
    let second = group("people", &[(None, "posts")], 600);
    let mut indexer = indexed_tables();
    assert_eq!(
        indexer.index_table_groups(&vec![&first, &second]),
        failure(ErrorKind::DuplicatedTableGroupName, 600, 606)
    );
    let mut expected = indexed_tables();
    assert_eq!(expected.index_table_groups(&vec![&first]), Ok(()));
    assert!(indexer == expected);
    assert_eq!(
        indexer.index_table_groups(&vec![&second]),
        failure(ErrorKind::DuplicatedTableGroupName, 600, 606)
    );
}

#[test]
fn a_repeated_group_name_is_reported_before_an_unknown_member() {
    let first = group("people", &[(None, "users")], 500);
    let second = group("people", &[(None, "ghost")], 600);
    let mut indexer = indexed_tables();
    assert_eq!(
        indexer.index_table_groups(&vec![&first, &second]),
        failure(ErrorKind::DuplicatedTableGroupName, 600, 606)
    );
}

#[test]
fn an_unknown_member_is_reported_before_a_later_repetition() {
    let mixed = group("people", &[(None, "users"), (None, "ghost"), (None, "u")], 500);
    let mut indexer = indexed_tables();
    assert_eq!(indexer.index_table_groups(&vec![&mixed]), failure(ErrorKind::TableNotFound, 530, 540));
    let other = group("people", &[(None, "users"), (None, "u"), (None, "ghost")], 500);
    assert_eq!(
        indexer.index_table_groups(&vec![&other]),
        failure(ErrorKind::DuplicatedTableGroupItem, 530, 540)
    );
}

#[test]
fn indexing_stops_at_the_first_group_that_fails() {
    let people = group("people", &[(None, "users")], 500);
    let broken = group("broken", &[(None, "ghost")], 600);
    let later = group("later", &[(None, "posts")], 700);
    let mut indexer = indexed_tables();
    assert_eq!(
        indexer.index_table_groups(&vec![&people, &broken, &later]),
        failure(ErrorKind::TableNotFound, 620, 630)
    );
    let mut expected = indexed_tables();
    assert_eq!(expected.index_table_groups(&vec![&people]), Ok(()));
    assert!(indexer == expected);
}

#[test]
fn groups_indexed_before_their_tables_do_not_find_them() {
    let people = group("people", &[(None, "users")], 500);
    let mut indexer = Indexer::default();
    assert_eq!(indexer.index_table_groups(&vec![&people]), failure(ErrorKind::TableNotFound, 520, 530));
    let by_alias = group("people", &[(None, "u")], 500);
    assert_eq!(indexer.index_table_groups(&vec![&by_alias]), failure(ErrorKind::TableNotFound, 520, 530));
}
