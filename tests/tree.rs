use radicle::tree::Tree;

#[test]
fn leaf_and_branch_queries() {
    let leaf: Tree<u32> = Tree::Leaf(7);
    let branch: Tree<u32> = Tree::Branch(vec![Tree::Leaf(1), Tree::Leaf(2)]);
    assert!(leaf.is_leaf());
    assert!(!leaf.is_branch());
    assert!(branch.is_branch());
    assert!(!branch.is_leaf());
    assert_eq!(*leaf.get_ref_leaf(), 7);
    assert_eq!(branch.get_ref_branch().len(), 2);
    assert_eq!(branch.unwrap_branch(), vec![Tree::Leaf(1), Tree::Leaf(2)]);
}
