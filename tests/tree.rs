use frame_ingest::cache::SQLiteAttributeCache;
use frame_ingest::tree::{ConicNode, ConicTree};

#[test]
fn node_new_and_children() {
    let mut n = ConicNode::new("root", Some("v"));
    assert_eq!(n.name, "root");
    assert_eq!(n.value, Some("v".to_string()));
    assert!(n.children.is_empty());
    n.add_child(ConicNode::new("a", None));
    n.add_child(ConicNode::new("b", None));
    assert_eq!(n.children.len(), 2);
    assert_eq!(n.children[1].name, "b");
    assert_eq!(n.children[0].value, None);
}

#[test]
fn tree_add_child_goes_under_root() {
    let mut t = ConicTree::new(ConicNode::new("r", None));
    t.add_child(ConicNode::new("c", Some("1")));
    assert_eq!(t.root.children.len(), 1);
    assert_eq!(t.root.children[0].value.as_deref(), Some("1"));
}

#[test]
fn attribute_cache_builds() {
    let _c = SQLiteAttributeCache::new();
}
