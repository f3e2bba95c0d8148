use std::sync::Arc;

use echolysis::node::{IndexedNode, NodeInfo, Point};
use echolysis::tree::{IndexedTree, TreeBuilder};

fn info(kind: &str, start_byte: usize, end_byte: usize) -> NodeInfo {
    NodeInfo {
        kind: kind.to_string(),
        start: Point { row: 0, column: start_byte },
        end: Point { row: 0, column: end_byte },
        start_byte,
        end_byte,
        is_extra: false,
        is_missing: false,
        is_error: false,
    }
}

fn builder(source: &str) -> TreeBuilder {
    TreeBuilder::new(Arc::new("file.rs".to_string()), Arc::new(source.to_string()))
}

// root(a(b, c), d)
fn small_tree() -> IndexedTree {
    let mut b = builder("bc d");
    assert!(b.enter(info("root", 0, 4), None));
    assert!(b.enter(info("a", 0, 2), Some(3)));
    assert!(b.enter(info("b", 0, 1), None));
    assert!(b.leave());
    assert!(b.enter(info("c", 1, 2), None));
    assert!(b.leave());
    assert!(b.leave());
    assert!(b.enter(info("d", 3, 4), None));
    assert!(b.leave());
    assert!(b.leave());
    b.finish().unwrap()
}

#[test]
fn nodes_are_numbered_in_post_order() {
    let tree = small_tree();
    assert_eq!(tree.len(), 5);
    let kinds: Vec<String> = (0..5).map(|i| tree.node(i).kind().to_string()).collect();
    assert_eq!(kinds, vec!["b", "c", "a", "d", "root"]);
    for i in 0..5 {
        assert_eq!(tree.node(i).id(), i);
        assert_eq!(tree.node(i).path(), "file.rs");
    }
    assert_eq!(tree.root_node().kind(), "root");
    assert!(tree.get(5).is_none());
    assert_eq!(tree.get(4).unwrap().id(), 4);
}

#[test]
fn children_are_listed_in_source_order() {
    let tree = small_tree();
    assert_eq!(tree.node(4).children(), &vec![2, 3]);
    assert_eq!(tree.node(2).children(), &vec![0, 1]);
    assert!(tree.node(0).children().is_empty());
    assert!(tree.node(3).children().is_empty());
}

#[test]
fn a_subtree_is_a_run_of_places() {
    let tree = small_tree();
    assert_eq!(tree.node(4).first(), 0);
    assert_eq!(tree.node(2).first(), 0);
    assert_eq!(tree.node(3).first(), 3);
    assert_eq!(tree.node(1).first(), 1);
    assert_eq!(tree.node(4).all_children(), vec![0, 1, 2, 3]);
    assert_eq!(tree.node(2).all_children(), vec![0, 1]);
    assert_eq!(tree.node(3).all_children(), Vec::<usize>::new());
}

#[test]
fn nodes_keep_what_the_parser_reported() {
    let tree = small_tree();
    let a = tree.node(2);
    assert_eq!(a.query_index(), Some(3));
    assert_eq!(a.byte_range(), (0, 2));
    assert_eq!(a.position_range(), (Point { row: 0, column: 0 }, Point { row: 0, column: 2 }));
    assert_eq!(a.text(), "bc");
    assert_eq!(tree.node(3).text(), "d");
    assert_eq!(tree.node(4).text(), "bc d");
    assert!(!a.is_extra_or_missing_or_error());
    assert_eq!(tree.node(0).query_index(), None);
}

#[test]
fn a_node_is_defective_if_it_is_extra_missing_or_an_error() {
    for flags in [(true, false, false), (false, true, false), (false, false, true)] {
        let mut b = builder("x");
        let mut i = info("x", 0, 1);
        i.is_extra = flags.0;
        i.is_missing = flags.1;
        i.is_error = flags.2;
        b.enter(i, None);
        b.leave();
        assert!(b.finish().unwrap().node(0).is_extra_or_missing_or_error());
    }
}

#[test]
fn text_outside_the_source_is_empty() {
    let mut b = builder("héllo");
    b.enter(info("root", 0, 6), None);
    b.enter(info("past_the_end", 2, 40), None);
    b.leave();
    b.enter(info("inside_a_character", 2, 3), None);
    b.leave();
    b.enter(info("backwards", 3, 1), None);
    b.leave();
    b.enter(info("whole_character", 1, 3), None);
    b.leave();
    b.leave();
    let tree = b.finish().unwrap();
    assert_eq!(tree.node(0).text(), "");
    assert_eq!(tree.node(1).text(), "");
    assert_eq!(tree.node(2).text(), "");
    assert_eq!(tree.node(3).text(), "é");
    assert_eq!(tree.node(4).text(), "héllo");
}

#[test]
fn a_builder_refuses_what_gives_no_tree() {
    let mut b = builder("");
    assert_eq!(b.depth(), 0);
    assert!(!b.leave());
    assert!(b.enter(info("root", 0, 0), None));
    assert_eq!(b.depth(), 1);
    assert!(b.leave());
    assert_eq!(b.finished_nodes(), 1);
    // A second root is refused.
    assert!(!b.enter(info("other", 0, 0), None));
    assert_eq!(b.finished_nodes(), 1);
    assert!(b.finish().is_some());

    let empty = builder("");
    assert!(empty.finish().is_none());

    let mut open = builder("");
    open.enter(info("root", 0, 0), None);
    assert!(open.finish().is_none());
}

#[test]
fn a_subtree_is_walked_in_pre_order() {
    let tree = small_tree();
    assert_eq!(tree.preorder_traverse(4), vec![4, 2, 0, 1, 3]);
    assert_eq!(tree.preorder_traverse(2), vec![2, 0, 1]);
    assert_eq!(tree.preorder_traverse(3), vec![3]);
    assert_eq!(tree.preorder_traverse(0), vec![0]);
}

#[test]
fn a_node_of_its_own_making_lists_what_its_numbers_say() {
    let path = Arc::new("file.rs".to_string());
    let source = Arc::new("text".to_string());
    let node =
        IndexedNode::new(info("x", 0, 4), 7, 4, path.clone(), Some(1), vec![5, 6], source.clone());
    assert_eq!(node.id(), 7);
    assert_eq!(node.first(), 4);
    assert_eq!(node.all_children(), vec![4, 5, 6]);
    assert_eq!(node.children(), &vec![5, 6]);
    assert_eq!(node.text(), "text");
    assert_eq!(*node.shared_path(), "file.rs");
    let odd = IndexedNode::new(info("x", 0, 4), 2, 4, path, None, vec![], source);
    assert_eq!(odd.all_children(), Vec::<usize>::new());
}

#[test]
fn spans_of_a_tree_can_be_checked() {
    assert!(small_tree().spans_are_nested());

    // A child that reaches past its parent.
    let mut b = builder("abcd");
    b.enter(info("root", 0, 2), None);
    b.enter(info("child", 1, 3), None);
    b.leave();
    b.leave();
    assert!(!b.finish().unwrap().spans_are_nested());

    // Children out of source order.
    let mut b = builder("abcd");
    b.enter(info("root", 0, 4), None);
    b.enter(info("late", 2, 4), None);
    b.leave();
    b.enter(info("early", 0, 2), None);
    b.leave();
    b.leave();
    assert!(!b.finish().unwrap().spans_are_nested());
}
