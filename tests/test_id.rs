use aureum::test_id::TestId;

#[test]
fn test_new_vs_from() {
    let root1 = TestId::new(vec![]);
    let root2 = TestId::from("");

    let test1 = TestId::new(vec![String::from("test")]);
    let test2 = TestId::from("test");

    let two_levels1 = TestId::new(vec![String::from("level1"), String::from("level2")]);
    let two_levels2 = TestId::from("level1.level2");

    assert!(root1 == root2);
    assert!(test1 == test2);
    assert!(two_levels1 == two_levels2);
}

#[test]
fn test_id_path() {
    let root = TestId::from("");
    let sub_of_root = TestId::from("sub");

    assert_eq!(root.id_path(), Vec::<String>::new());
    assert_eq!(sub_of_root.id_path(), vec![String::from("sub")]);
}

#[test]
fn test_to_string() {
    let root = TestId::from("");
    let level1 = TestId::from("level1");
    let level2 = TestId::from("level1.level2");

    assert_eq!(root.to_string(), "");
    assert_eq!(level1.to_string(), "level1");
    assert_eq!(level2.to_string(), "level1.level2");
}

#[test]
fn test_contains() {
    let root = TestId::from("");
    let sub_of_root = TestId::from("sub");
    let sub_of_sub_of_root = TestId::from("sub.sub");

    assert!(root.contains(&root));
    assert!(root.contains(&sub_of_root));
    assert!(root.contains(&sub_of_sub_of_root));
    assert!(sub_of_root.contains(&sub_of_root));
    assert!(sub_of_root.contains(&sub_of_sub_of_root));
    assert!(sub_of_sub_of_root.contains(&sub_of_sub_of_root));

    assert_eq!(sub_of_root.contains(&root), false);
}

#[test]
fn test_contains_for_different_sub_levels() {
    let sub1 = TestId::from("sub1");
    let sub2 = TestId::from("sub2");

    assert_eq!(sub1.contains(&sub2), false);
    assert_eq!(sub2.contains(&sub1), false);
}

#[test]
fn test_is_root() {
    let root = TestId::root();
    let sub = TestId::from("sub");

    assert_eq!(root.is_root(), true);
    assert_eq!(sub.is_root(), false);
}

#[test]
fn contains_is_reflexive_and_transitive() {
    let a = TestId::from("a");
    let b = TestId::from("a.b");
    let c = TestId::from("a.b.c");
    assert!(a.contains(&a));
    assert!(a.contains(&b) && b.contains(&c));
    assert!(a.contains(&c));
    assert!(TestId::root().contains(&c));
    assert!(!c.contains(&a));
}

#[test]
fn prefix_of_a_segment_is_not_containment() {
    let a = TestId::from("ab");
    let b = TestId::from("abc");
    assert!(!a.contains(&b));
}

#[test]
fn from_keeps_empty_segments() {
    assert_eq!(
        TestId::from("a..b").id_path(),
        vec![String::from("a"), String::new(), String::from("b")]
    );
    assert_eq!(TestId::from(".").id_path(), vec![String::new(), String::new()]);
}

#[test]
fn compare_orders_lexicographically() {
    let a = TestId::from("a");
    let ab = TestId::from("a.b");
    let b = TestId::from("b");
    assert!(a.compare(&ab) < 0);
    assert!(ab.compare(&b) < 0);
    assert!(b.compare(&a) > 0);
    assert_eq!(ab.compare(&TestId::from("a.b")), 0);
    assert!(TestId::root().compare(&a) < 0);
}

#[test]
fn clone_keeps_the_path() {
    let id = TestId::from("x.y");
    assert_eq!(id.clone().to_string(), "x.y");
}

#[test]
fn dotted_text_round_trip() {
    for text in ["", "a", "a.b.c", "group.case"] {
        assert_eq!(TestId::from(text).to_string(), text);
    }
}
