use aureum::test_id::TestId;
use aureum::test_id_container::TestIdContainer;

#[test]
fn test_adding_different_paths() {
    let sub1 = TestId::from("sub1");
    let sub2 = TestId::from("sub2");
    let sub3 = TestId::from("sub3");
    let root = TestId::root();

    let mut test_ids = TestIdContainer::empty();

    assert_eq!(test_ids.len(), 0);
    assert_eq!(test_ids.add(sub1), true);
    assert_eq!(test_ids.add(sub2), true);
    assert_eq!(test_ids.add(sub3), true);
    assert_eq!(test_ids.len(), 3);
    assert_eq!(test_ids.add(root), true);
    assert_eq!(test_ids.len(), 1);
}

#[test]
fn test_root_blocks_new_elements() {
    let root = TestId::root();
    let sub = TestId::from("sub");

    let mut test_ids = TestIdContainer::empty();

    assert_eq!(test_ids.len(), 0);
    assert_eq!(test_ids.add(root), true);
    assert_eq!(test_ids.add(sub), false);
    assert_eq!(test_ids.len(), 1);
}

#[test]
fn root_collapses_a_selection() {
    let mut ids = TestIdContainer::empty();
    ids.add(TestId::from("a"));
    ids.add(TestId::from("b.c"));
    assert!(ids.add(TestId::root()));
    assert_eq!(ids.ids(), vec![TestId::root()]);
}

#[test]
fn full_refuses_everything() {
    let mut ids = TestIdContainer::full();
    assert!(!ids.add(TestId::from("x")));
    assert!(!ids.add(TestId::root()));
    assert_eq!(ids.len(), 1);
}

#[test]
fn broader_id_replaces_narrower_ones_and_order_is_kept() {
    let mut ids = TestIdContainer::empty();
    assert!(ids.add(TestId::from("b.x")));
    assert!(ids.add(TestId::from("a")));
    assert!(ids.add(TestId::from("b.y")));
    assert!(!ids.add(TestId::from("a.z")));
    assert!(ids.add(TestId::from("b")));
    let shown: Vec<String> = ids.ids().iter().map(|i| i.to_string()).collect();
    assert_eq!(shown, vec![String::from("a"), String::from("b")]);
}

#[test]
fn ids_come_out_sorted() {
    let mut ids = TestIdContainer::empty();
    ids.add(TestId::from("c"));
    ids.add(TestId::from("a"));
    ids.add(TestId::from("b"));
    let shown: Vec<String> = ids.ids().iter().map(|i| i.to_string()).collect();
    assert_eq!(shown, vec![String::from("a"), String::from("b"), String::from("c")]);
}

#[test]
fn adding_the_same_id_twice_is_refused() {
    let mut ids = TestIdContainer::empty();
    assert!(ids.add(TestId::from("a.b")));
    assert!(!ids.add(TestId::from("a.b")));
    assert!(!ids.add(TestId::from("a.b.c")));
    assert_eq!(ids.len(), 1);
}

#[test]
fn three_adds_then_root() {
    let mut ids = TestIdContainer::empty();
    assert!(ids.add(TestId::from("b")));
    assert!(ids.add(TestId::from("a.x")));
    assert!(ids.add(TestId::from("c")));
    let shown: Vec<String> = ids.ids().iter().map(|i| i.to_string()).collect();
    assert_eq!(shown, vec![String::from("a.x"), String::from("b"), String::from("c")]);
    let mut ids = TestIdContainer::empty();
    ids.add(TestId::from("b"));
    ids.add(TestId::from("a.x"));
    ids.add(TestId::from("c"));
    assert!(ids.add(TestId::root()));
    assert_eq!(ids.ids(), vec![TestId::root()]);
}
