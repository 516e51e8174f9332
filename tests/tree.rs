use algos::trees::binary_tree::Node;

fn new_tree() -> Node {
    let mut root = Node::new(6);

    let mut left = Node::new(4);
    let left_left = Box::new(Node::new(2));
    let left_right = Box::new(Node::new(5));
    left.left = Some(left_left);
    left.right = Some(left_right);

    let mut right = Node::new(7);
    right.right = Some(Box::new(Node::new(8)));

    root.left = Some(Box::new(left));
    root.right = Some(Box::new(right));

    root
}

#[test]
fn inorder() {
    let root = new_tree();
    assert_eq!(root.inorder_walk(), [&2, &4, &5, &6, &7, &8]);
}

#[test]
fn search() {
    let root = new_tree();
    let node = root.search_iter(4).unwrap();
    assert_eq!(node.left.as_ref().unwrap().value, 2);
    assert_eq!(node.right.as_ref().unwrap().value, 5);

    let node = root.search_rec(4).unwrap();
    assert_eq!(node.left.as_ref().unwrap().value, 2);
    assert_eq!(node.right.as_ref().unwrap().value, 5);
}

#[test]
fn min_max() {
    let root = new_tree();

    assert_eq!(root.min_rec(), &2);
    assert_eq!(root.max_rec(), &8);

    assert_eq!(root.min_iter(), &2);
    assert_eq!(root.max_iter(), &8);
}

#[test]
fn search_misses() {
    let root = new_tree();
    assert!(root.search_iter(3).is_none());
    assert!(root.search_rec(9).is_none());
    assert_eq!(root.search_rec(8).map(|n| n.value), Some(8));
}
