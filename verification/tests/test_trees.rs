use vcs::objects::{Tree, TreeNode};
use vcs::objects_manager::merge_trees;

#[test]
fn test_merge_trees() {
    let (file1, file2, dir1, dir2) = (
        String::from("path/to/file1"),
        String::from("path/to/file2"),
        String::from("path/to/dir1"),
        String::from("path/to/dir2"),
    );
    let mut source = Tree::new();
    source.add_node(TreeNode::new([1; 20], file1.to_owned(), true));
    source.add_node(TreeNode::new([2; 20], file2.to_owned(), true));
    source.add_node(TreeNode::new([3; 20], dir1.to_owned(), false));

    let mut destination = Tree::new();
    destination.add_node(TreeNode::new([4; 20], file1.to_owned(), true));
    destination.add_node(TreeNode::new([5; 20], dir2.to_owned(), false));

    let mut merged = Tree::new();
    merged.add_node(TreeNode::new([1; 20], file1, true));
    merged.add_node(TreeNode::new([5; 20], dir2, false));
    merged.add_node(TreeNode::new([2; 20], file2, true));
    merged.add_node(TreeNode::new([3; 20], dir1, false));

    assert_eq!(merge_trees(source, destination), merged);
}

#[test]
fn nodes_are_found_by_path_and_kind() {
    let mut tree = Tree::new();
    tree.add_node(TreeNode::new([1; 20], String::from("/r/x"), true));
    tree.add_node(TreeNode::new([2; 20], String::from("/r/x"), false));
    tree.add_node(TreeNode::new([3; 20], String::from("/r/x"), true));
    assert_eq!(tree.len(), 3);
    assert_eq!(tree.position("/r/x", true), Some(0));
    assert_eq!(tree.position("/r/x", false), Some(1));
    assert_eq!(tree.position("/r/y", true), None);
    assert_eq!(tree.find("/r/x", false).unwrap().id, [2; 20]);
    assert!(tree.find("/r", true).is_none());
    assert!(tree.node(0).is_blob() && !tree.node(0).is_tree());
    assert!(tree.node(1).is_tree() && !tree.node(1).is_blob());

    tree.find_mut("/r/x", true).unwrap().id = [9; 20];
    assert!(tree.find_mut("/r/y", false).is_none());
    let ids: Vec<[u8; 20]> = tree.iter().iter().map(|node| node.id).collect();
    assert_eq!(ids, [[9; 20], [2; 20], [3; 20]]);
    let paths: Vec<String> = tree.into_iter().into_iter().map(|node| node.path).collect();
    assert_eq!(paths, ["/r/x", "/r/x", "/r/x"]);
}

#[test]
fn a_merge_of_equal_nodes_changes_the_first_only() {
    let mut source = Tree::new();
    source.add_node(TreeNode::new([7; 20], String::from("f"), true));
    source.add_node(TreeNode::new([8; 20], String::from("f"), true));
    let mut destination = Tree::new();
    destination.add_node(TreeNode::new([1; 20], String::from("f"), true));
    destination.add_node(TreeNode::new([2; 20], String::from("f"), true));
    let mut merged = Tree::new();
    merged.add_node(TreeNode::new([8; 20], String::from("f"), true));
    merged.add_node(TreeNode::new([2; 20], String::from("f"), true));
    assert_eq!(merge_trees(source, destination), merged);
    assert_eq!(merge_trees(Tree::new(), Tree::new()), Tree::new());
}
