use kata_threadpool::tree::{PreorderIter, Tree, TreeNode};

fn get_tree() -> Tree {
    let mut tree = Tree::new();
    let a = tree.add_node(TreeNode::new(4, None, None));
    let b = tree.add_node(TreeNode::new(5, None, None));
    let c = tree.add_node(TreeNode::new(2, Some(a), Some(b)));
    let d = tree.add_node(TreeNode::new(3, None, None));
    let e = tree.add_node(TreeNode::new(1, Some(c), Some(d)));
    tree.set_root(Some(e));
    tree
}

#[test]
fn given_buiild_tree_iterating_with_preorder_iter_gives_correct_values() {
    let tree = get_tree();
    let mut preorder = tree.iter();
    let mut values = vec![];
    while let Some(i) = preorder.next(&tree) {
        if let Some(n) = tree.node_at(i) {
            values.push(n.value);
        }
    }
    let expected_values: Vec<usize> = vec![1, 2, 4, 5, 3];
    assert_eq!(values, expected_values);
}

#[test]
fn removed_node_is_skipped_by_the_walk() {
    let mut tree = get_tree();
    assert_eq!(tree.remove_node_at(2), Some(TreeNode::new(2, Some(0), Some(1))));
    assert_eq!(tree.remove_node_at(2), None);
    assert_eq!(tree.remove_node_at(99), None);
    let mut walk = tree.iter();
    let mut seen = vec![];
    while let Some(i) = walk.next(&tree) {
        seen.push(i);
    }
    assert_eq!(seen, vec![4, 3]);
}

#[test]
fn node_at_mut_changes_the_node_in_place() {
    let mut tree = get_tree();
    if let Some(n) = tree.node_at_mut(3) {
        n.value = 30;
    }
    assert_eq!(tree.node_at(3).map(|n| n.value), Some(30));
    assert!(tree.node_at_mut(7).is_none());
    assert!(tree.node_at(7).is_none());
}

#[test]
fn empty_tree_walk_ends_at_once() {
    let tree = Tree::new();
    let mut walk = tree.iter();
    assert_eq!(walk.next(&tree), None);
    let mut lone = PreorderIter::new(Some(5));
    assert_eq!(lone.next(&tree), None);
}
