use schema_indexer::collections::{VecMap, VecSet, ViewEq};

fn s(text: &str) -> String {
    text.to_string()
}

fn set_of(names: &[&str]) -> VecSet<String> {
    let mut set = VecSet::new();
    for name in names {
        set.insert(s(name));
    }
    set
}

#[test]
fn a_new_set_is_empty() {
    let set: VecSet<String> = VecSet::new();
    assert_eq!(set.len(), 0);
    assert!(!set.contains(&s("a")));
}

#[test]
fn a_set_holds_each_key_once() {
    let mut set = VecSet::new();
    assert!(set.insert(s("a")));
    assert!(set.insert(s("b")));
    assert!(!set.insert(s("a")));
    assert_eq!(set.len(), 2);
    assert!(set.contains(&s("a")));
    assert!(set.contains(&s("b")));
    assert!(!set.contains(&s("c")));
}

#[test]
fn a_set_of_pairs_compares_both_parts() {
    let mut set: VecSet<(String, String)> = VecSet::new();
    assert!(set.insert((s("a"), s("b"))));
    assert!(set.insert((s("b"), s("a"))));
    assert!(set.insert((s("a"), s("a"))));
    assert!(!set.insert((s("a"), s("b"))));
    assert_eq!(set.len(), 3);
    assert!(set.contains(&(s("b"), s("a"))));
    assert!(!set.contains(&(s("b"), s("b"))));
}

#[test]
fn sets_are_equal_whatever_the_order_of_insertion() {
    assert!(set_of(&["a", "b", "c"]).view_eq(&set_of(&["c", "a", "b", "a"])));
    assert!(set_of(&[]).view_eq(&set_of(&[])));
    assert!(!set_of(&["a", "b"]).view_eq(&set_of(&["a", "c"])));
    assert!(!set_of(&["a", "b"]).view_eq(&set_of(&["a"])));
    assert!(!set_of(&["a"]).view_eq(&set_of(&["a", "b"])));
}

#[test]
fn a_copy_of_a_set_has_the_same_members() {
    let set = set_of(&["a", "b"]);
    let mut copy = set.clone();
    assert!(copy.view_eq(&set));
    copy.insert(s("c"));
    assert!(!copy.view_eq(&set));
    assert!(!set.contains(&s("c")));
}

#[test]
fn a_new_map_is_empty() {
    let map: VecMap<String, String> = VecMap::new();
    assert_eq!(map.len(), 0);
    assert!(!map.contains_key(&s("a")));
    assert_eq!(map.get(&s("a")), None);
}

#[test]
fn a_map_holds_the_last_value_stored_for_a_key() {
    let mut map: VecMap<String, String> = VecMap::new();
    map.insert(s("a"), s("1"));
    map.insert(s("b"), s("2"));
    map.insert(s("a"), s("3"));
    assert_eq!(map.len(), 2);
    assert_eq!(map.get(&s("a")), Some(&s("3")));
    assert_eq!(map.get(&s("b")), Some(&s("2")));
    assert_eq!(map.get(&s("c")), None);
    assert!(map.contains_key(&s("b")));
}

#[test]
fn removing_a_key_returns_its_value_and_keeps_the_others() {
    let mut map: VecMap<String, String> = VecMap::new();
    map.insert(s("a"), s("1"));
    map.insert(s("b"), s("2"));
    map.insert(s("c"), s("3"));
    assert_eq!(map.remove(&s("a")), Some(s("1")));
    assert_eq!(map.remove(&s("a")), None);
    assert_eq!(map.remove(&s("x")), None);
    assert_eq!(map.len(), 2);
    assert!(!map.contains_key(&s("a")));
    assert_eq!(map.get(&s("b")), Some(&s("2")));
    assert_eq!(map.get(&s("c")), Some(&s("3")));
    assert_eq!(map.remove(&s("c")), Some(s("3")));
    assert_eq!(map.remove(&s("b")), Some(s("2")));
    assert_eq!(map.len(), 0);
}

#[test]
fn maps_are_equal_whatever_the_order_of_insertion() {
    let mut a: VecMap<String, VecSet<String>> = VecMap::new();
    a.insert(s("x"), set_of(&["1", "2"]));
    a.insert(s("y"), set_of(&[]));
    let mut b: VecMap<String, VecSet<String>> = VecMap::new();
    b.insert(s("y"), set_of(&[]));
    b.insert(s("x"), set_of(&["2", "1"]));
    assert!(a.view_eq(&b));
    assert!(a.clone().view_eq(&a));
    b.insert(s("x"), set_of(&["2"]));
    assert!(!a.view_eq(&b));
    assert!(!b.view_eq(&a));
    b.insert(s("x"), set_of(&["1", "2"]));
    b.insert(s("z"), set_of(&[]));
    assert!(!a.view_eq(&b));
    b.remove(&s("z"));
    assert!(a.view_eq(&b));
    b.remove(&s("y"));
    b.insert(s("w"), set_of(&[]));
    assert!(!a.view_eq(&b));
}
