use sonik::bktree::{edit_distance, levenshtein, BKNode, BKTree, Levenshtein, Metric};

#[test]
fn levenshtein_known_values() {
    assert_eq!(levenshtein("bar", "baz"), 1);
    assert_eq!(levenshtein("kitten", "sitting"), 3);
    assert_eq!(levenshtein("", "abc"), 3);
    assert_eq!(levenshtein("abcd", ""), 4);
    assert_eq!(levenshtein("same", "same"), 0);
}

#[test]
fn levenshtein_ignores_case() {
    assert_eq!(levenshtein("Beatles", "beatles"), 0);
    assert_eq!(levenshtein("ABBA", "abba"), 0);
    assert_eq!(Levenshtein.distance(&"Foo".to_string(), &"fop".to_string()), 1);
}

#[test]
fn edit_distance_is_case_sensitive_on_chars() {
    let a: Vec<char> = "Abc".chars().collect();
    let b: Vec<char> = "abc".chars().collect();
    assert_eq!(edit_distance(&a, &b), 1);
}

#[test]
fn bk_node_children() {
    let mut node = BKNode::new("foo");
    node.add_child(1, 3);
    assert_eq!(node.key, "foo");
    assert_eq!(node.children, vec![(1, 3)]);
}

fn tree() -> BKTree<String, Levenshtein> {
    let mut t = BKTree::new(Levenshtein);
    for k in ["foo", "fop", "bar", "baz", "food", "fo"] {
        t.add(k.to_string());
    }
    t
}

#[test]
fn bk_tree_find_within_tolerance() {
    let t = tree();
    let exact: Vec<(u64, String)> = t.find(&"foo".to_string(), 0).into_iter().map(|(d, k)| (d, k.clone())).collect();
    assert_eq!(exact, vec![(0, "foo".to_string())]);
    let mut near: Vec<(u64, String)> =
        t.find(&"foo".to_string(), 1).into_iter().map(|(d, k)| (d, k.clone())).collect();
    near.sort();
    assert_eq!(
        near,
        vec![(0, "foo".to_string()), (1, "fo".to_string()), (1, "food".to_string()), (1, "fop".to_string())]
    );
    assert!(t.find(&"foz".to_string(), 0).is_empty());
}

#[test]
fn bk_tree_find_exact() {
    let t = tree();
    assert_eq!(t.find_exact(&"foz".to_string()), None);
    assert_eq!(t.find_exact(&"bar".to_string()), Some(&"bar".to_string()));
    assert_eq!(t.find_exact(&"BAR".to_string()), Some(&"bar".to_string()));
}

#[test]
fn bk_tree_duplicate_is_not_added() {
    let mut t = tree();
    let before = t.nodes.len();
    t.add("FOO".to_string());
    assert_eq!(t.nodes.len(), before);
    t.add("quux".to_string());
    assert_eq!(t.nodes.len(), before + 1);
}

#[test]
fn bk_tree_extend_adds_in_order() {
    let mut t: BKTree<String, Levenshtein> = BKTree::new(Levenshtein);
    t.extend(vec!["foo".to_string(), "bar".to_string(), "Foo".to_string()]);
    assert_eq!(t.nodes.len(), 2);
    assert_eq!(t.nodes[0].key, "foo");
    assert_eq!(t.nodes[1].key, "bar");
}
