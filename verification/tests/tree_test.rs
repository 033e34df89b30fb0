use router_core::path::{Segment, SegmentType};
use router_core::tree::{Found, PathParam, TreeBuilder};

fn fixed(name: &str) -> Segment {
    Segment { name: name.to_string(), segment_type: SegmentType::Static }
}

fn dynamic(name: &str) -> Segment {
    Segment { name: name.to_string(), segment_type: SegmentType::Dynamic }
}

fn segments(names: &[&str]) -> Vec<String> {
    names.iter().map(|name| name.to_string()).collect()
}

fn bound(name: &str, value: &str) -> PathParam {
    PathParam { name: name.to_string(), value: value.to_string() }
}

#[test]
fn new_tree_has_the_root_alone() {
    let tree = TreeBuilder::<u8>::new();
    assert_eq!(tree.len(), 1);
    assert_eq!(tree.root(), 0);
    let tree = tree.finalize();
    assert_eq!(tree.lookup(&segments(&[])), Some(Found { node: 0, params: vec![] }));
    assert_eq!(tree.lookup(&segments(&["a"])), None);
}

#[test]
fn add_child_adds_once() {
    let mut tree = TreeBuilder::<u8>::new();
    assert!(!tree.has_child(0, &fixed("users")));
    assert!(tree.add_child(0, fixed("users")));
    assert!(tree.has_child(0, &fixed("users")));
    assert_eq!(tree.child(0, &fixed("users")), Some(1));
    assert!(!tree.add_child(0, fixed("users")));
    assert_eq!(tree.len(), 2);
}

#[test]
fn static_and_dynamic_of_one_name_are_two_children() {
    let mut tree = TreeBuilder::<u8>::new();
    assert!(tree.add_child(0, fixed("users")));
    assert!(!tree.has_child(0, &dynamic("users")));
    assert!(tree.add_child(0, dynamic("users")));
    assert_eq!(tree.child(0, &fixed("users")), Some(1));
    assert_eq!(tree.child(0, &dynamic("users")), Some(2));
    assert_eq!(tree.len(), 3);
}

#[test]
fn children_belong_to_their_parent() {
    let mut tree = TreeBuilder::<u8>::new();
    assert!(tree.add_child(0, fixed("a")));
    assert!(tree.add_child(1, fixed("b")));
    assert!(!tree.has_child(0, &fixed("b")));
    assert!(tree.has_child(1, &fixed("b")));
    assert!(tree.add_child(0, fixed("b")));
    assert_eq!(tree.child(0, &fixed("b")), Some(3));
    assert_eq!(tree.child(1, &fixed("b")), Some(2));
}

#[test]
fn routes_keep_the_order_of_registration() {
    let mut tree = TreeBuilder::<u8>::new();
    assert!(tree.add_child(0, fixed("a")));
    tree.add_route(1, 7);
    tree.add_route(1, 9);
    tree.add_route(0, 1);
    let tree = tree.finalize();
    assert_eq!(tree.len(), 2);
    assert_eq!(tree.routes(1), &vec![7, 9]);
    assert_eq!(tree.routes(0), &vec![1]);
}

#[test]
fn lookup_prefers_the_static_child() {
    let mut tree = TreeBuilder::<u8>::new();
    assert!(tree.add_child(0, dynamic("id")));
    assert!(tree.add_child(0, fixed("new")));
    let tree = tree.finalize();
    assert_eq!(tree.lookup(&segments(&["new"])), Some(Found { node: 2, params: vec![] }));
    assert_eq!(
        tree.lookup(&segments(&["42"])),
        Some(Found { node: 1, params: vec![bound("id", "42")] })
    );
}

#[test]
fn lookup_takes_the_first_dynamic_child() {
    let mut tree = TreeBuilder::<u8>::new();
    assert!(tree.add_child(0, dynamic("first")));
    assert!(tree.add_child(0, dynamic("second")));
    assert!(tree.add_child(2, fixed("below")));
    let tree = tree.finalize();
    assert_eq!(
        tree.lookup(&segments(&["x"])),
        Some(Found { node: 1, params: vec![bound("first", "x")] })
    );
    assert_eq!(tree.lookup(&segments(&["x", "below"])), None);
}

#[test]
fn lookup_does_not_go_back_to_the_dynamic_child() {
    let mut tree = TreeBuilder::<u8>::new();
    assert!(tree.add_child(0, fixed("a")));
    assert!(tree.add_child(0, dynamic("any")));
    assert!(tree.add_child(2, fixed("b")));
    let tree = tree.finalize();
    assert_eq!(tree.lookup(&segments(&["a", "b"])), None);
    assert_eq!(
        tree.lookup(&segments(&["c", "b"])),
        Some(Found { node: 3, params: vec![bound("any", "c")] })
    );
}

#[test]
fn lookup_binds_every_dynamic_segment_in_order() {
    let mut tree = TreeBuilder::<u8>::new();
    assert!(tree.add_child(0, fixed("users")));
    assert!(tree.add_child(1, dynamic("id")));
    assert!(tree.add_child(2, fixed("posts")));
    assert!(tree.add_child(3, dynamic("post")));
    let tree = tree.finalize();
    assert_eq!(
        tree.lookup(&segments(&["users", "7", "posts", "9"])),
        Some(Found { node: 4, params: vec![bound("id", "7"), bound("post", "9")] })
    );
    assert_eq!(tree.lookup(&segments(&["users", "7", "posts", "9", "x"])), None);
}
