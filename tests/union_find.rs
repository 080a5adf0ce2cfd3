use json::UnionFind;

#[test]
fn integers_group_together() {
    let mut union_find = UnionFind::new();

    union_find.unite(1, 2);
    union_find.unite(1, 3);
    union_find.unite(4, 5);
    union_find.unite(2, 6);
    union_find.unite(7, 8);
    union_find.unite(7, 1);

    assert_eq!(union_find.group_count(), 3);

    assert_eq!(union_find.is_same(&1, &2), true);
    assert_eq!(union_find.is_same(&1, &3), true);
    assert_eq!(union_find.is_same(&2, &3), true);
    assert_eq!(union_find.is_same(&2, &6), true);
    assert_eq!(union_find.is_same(&1, &4), false);
    assert_eq!(union_find.is_same(&8, &6), true);
    assert_eq!(union_find.is_same(&4, &5), true);
}

#[test]
fn strings_group_together() {
    let mut union_find = UnionFind::new();

    union_find.unite("A", "B");
    union_find.unite("A", "C");
    union_find.unite("D", "E");
    union_find.unite("B", "F");
    union_find.unite("G", "H");
    union_find.unite("H", "A");

    assert_eq!(union_find.group_count(), 3);

    assert_eq!(union_find.is_same(&"A", &"B"), true);
    assert_eq!(union_find.is_same(&"A", &"C"), true);
    assert_eq!(union_find.is_same(&"B", &"C"), true);
    assert_eq!(union_find.is_same(&"B", &"F"), true);
    assert_eq!(union_find.is_same(&"A", &"D"), false);
}

#[test]
fn root_group_of_members() {
    let mut union_find = UnionFind::new();
    assert_eq!(union_find.root_group(&10u64), None);
    union_find.unite(10u64, 20u64);
    assert_eq!(union_find.root_group(&10), Some(&1));
    assert_eq!(union_find.root_group(&20), Some(&1));
    union_find.unite(30, 40);
    assert_eq!(union_find.root_group(&30), Some(&2));
    union_find.unite(10, 30);
    assert_eq!(union_find.root_group(&40), Some(&1));
    assert_eq!(union_find.root_group(&99), None);
}

#[test]
fn unknown_members_compare_equal() {
    let mut union_find = UnionFind::new();
    assert!(union_find.is_same(&"x", &"y"));
    union_find.unite("x", "x");
    assert!(!union_find.is_same(&"x", &"y"));
    assert!(union_find.is_same(&"x", &"x"));
}
