use yushi::delta::{diff, YDelta, YModification};
use yushi::ynode::YNode;

fn node(tag: &str) -> YNode {
    YNode::new(tag.to_string())
}

#[test]
fn test_diff_empty() {
    let a = node("root");
    let b = node("root");

    let delta = diff(&a, &b).unwrap();
    assert!(delta.is_empty());
}

#[test]
fn test_diff_attributes() {
    let a = node("root").with_attr("a".to_string(), "1".to_string());

    let b = node("root").with_attr("a".to_string(), "2".to_string());

    let delta = diff(&a, &b).unwrap();
    assert!(!delta.is_empty());
}

#[test]
fn test_diff_children_added() {
    let a = node("root");

    let mut b = node("root");
    b.add_child(node("child"));

    let delta = diff(&a, &b).unwrap();
    assert_eq!(delta.added.len(), 1);
    assert_eq!(delta.added[0].tag_name, "child");
}

#[test]
fn test_diff_children_removed() {
    let mut a = node("root");
    a.add_child(node("child"));

    let b = node("root");

    let delta = diff(&a, &b).unwrap();
    assert_eq!(delta.removed.len(), 1);
    assert_eq!(delta.removed[0].tag_name, "child");
}

#[test]
fn test_delta_apply() {
    let target = node("root");
    let delta = YDelta {
        added: vec![node("child")],
        removed: vec![],
        modified: vec![],
        path: String::new(),
    };

    let result = delta.apply(&target).unwrap();
    assert_eq!(result.children.len(), 1);
    assert_eq!(result.children[0].tag_name, "child");
}

#[test]
fn diff_of_different_tags_replaces_the_node() {
    let a = node("a");
    let b = node("b");
    let delta = diff(&a, &b).unwrap();
    assert_eq!(delta.modified.len(), 1);
    assert_eq!(delta.modified[0].path, "");
    assert_eq!(delta.modified[0].old_value.tag_name, "a");
    assert_eq!(delta.modified[0].new_value.tag_name, "b");
    assert!(delta.added.is_empty() && delta.removed.is_empty());
}

#[test]
fn diff_attribute_change_keeps_only_attributes() {
    let mut a = node("root").with_attr("a".to_string(), "1".to_string());
    a.add_child(node("kid"));
    let mut b = node("root").with_attr("a".to_string(), "1".to_string()).with_attr("b".to_string(), "2".to_string());
    b.add_child(node("kid"));
    let delta = diff(&a, &b).unwrap();
    assert_eq!(delta.modified.len(), 1);
    assert_eq!(delta.modified[0].old_value.attr_count(), 1);
    assert_eq!(delta.modified[0].new_value.attr_count(), 2);
    assert_eq!(delta.modified[0].new_value.children.len(), 0);
}

#[test]
fn diff_matches_children_by_id() {
    let mut a = node("root");
    a.add_child(node("item").with_attr("id".to_string(), "1".to_string()));
    a.add_child(node("item").with_attr("id".to_string(), "2".to_string()));
    let mut b = node("root");
    b.add_child(node("item").with_attr("id".to_string(), "2".to_string()));
    b.add_child(node("item").with_attr("id".to_string(), "3".to_string()));
    let delta = diff(&a, &b).unwrap();
    assert_eq!(delta.removed.len(), 1);
    assert_eq!(delta.removed[0].attr("id"), Some("1".to_string()));
    assert_eq!(delta.added.len(), 1);
    assert_eq!(delta.added[0].attr("id"), Some("3".to_string()));
    assert!(delta.modified.is_empty());
}

#[test]
fn diff_reports_changed_child() {
    let mut a = node("root");
    a.add_child(node("item").with_attr("id".to_string(), "1".to_string()).with_attr("v".to_string(), "x".to_string()));
    let mut b = node("root");
    b.add_child(node("item").with_attr("id".to_string(), "1".to_string()).with_attr("v".to_string(), "y".to_string()));
    let delta = diff(&a, &b).unwrap();
    assert_eq!(delta.modified.len(), 1);
    assert_eq!(delta.modified[0].path, "item");
    assert_eq!(delta.modified[0].new_value.attr("v"), Some("y".to_string()));
}

#[test]
fn diff_ignores_content_only_changes() {
    let mut a = node("root");
    a.add_child(node("#text").with_content("old".to_string()));
    let mut b = node("root");
    b.add_child(node("#text").with_content("new".to_string()));
    assert!(diff(&a, &b).unwrap().is_empty());
}

#[test]
fn apply_removes_and_replaces() {
    let mut target = node("root");
    target.add_child(node("item").with_attr("id".to_string(), "1".to_string()));
    target.add_child(node("item").with_attr("id".to_string(), "2".to_string()));
    target.add_child(node("other"));
    let delta = YDelta {
        added: vec![],
        removed: vec![node("item").with_attr("id".to_string(), "1".to_string())],
        modified: vec![YModification::new(
            "other".to_string(),
            node("other"),
            node("other").with_attr("k".to_string(), "v".to_string()),
        )],
        path: String::new(),
    };
    let result = delta.apply(&target).unwrap();
    assert_eq!(result.children.len(), 2);
    assert_eq!(result.children[0].attr("id"), Some("2".to_string()));
    assert_eq!(result.children[1].attr("k"), Some("v".to_string()));
    let unchanged = YDelta::new().apply(&target).unwrap();
    assert_eq!(unchanged.children.len(), 3);
}
