use mls_nack::tree::{CipherSuite, KeyPackage, Node, TreePublicKey};
use mls_nack::tree_math::{LeafSize, NodeSize, ParentSize};

fn path(leaf: u32, leaves: u32) -> Vec<u64> {
    LeafSize(leaf)
        .direct_path(LeafSize(leaves))
        .iter()
        .map(|p| p.0)
        .collect()
}

fn ancestor(x: u32, y: u32) -> Option<u64> {
    ParentSize::common_ancestor(LeafSize(x), LeafSize(y)).map(|p| p.0)
}

#[test]
fn direct_paths_in_small_trees() {
    assert_eq!(path(0, 1), Vec::<u64>::new());
    assert_eq!(path(0, 2), vec![1]);
    assert_eq!(path(0, 3), vec![1, 3]);
    assert_eq!(path(1, 3), vec![1, 3]);
    assert_eq!(path(2, 3), vec![3]);
    assert_eq!(path(0, 5), vec![1, 3, 7]);
    assert_eq!(path(4, 5), vec![7]);
    assert_eq!(path(2, 8), vec![5, 3, 7]);
    assert_eq!(path(10, 11), vec![19, 15]);
    assert_eq!(path(8, 11), vec![17, 19, 15]);
}

#[test]
fn leaf_outside_tree_has_no_path() {
    assert_eq!(path(3, 3), Vec::<u64>::new());
    assert_eq!(path(u32::MAX, 5), Vec::<u64>::new());
}

#[test]
fn direct_path_in_largest_tree() {
    let long = path(0, u32::MAX);
    assert_eq!(long.len(), 32);
    assert_eq!(long[31], 0xffff_ffff);
    assert_eq!(path(u32::MAX - 1, u32::MAX).last(), Some(&0xffff_ffff));
}

#[test]
fn common_ancestors() {
    assert_eq!(ancestor(0, 1), Some(1));
    assert_eq!(ancestor(1, 2), Some(3));
    assert_eq!(ancestor(2, 3), Some(5));
    assert_eq!(ancestor(0, 4), Some(7));
    assert_eq!(ancestor(4, 4), None);
    assert_eq!(ancestor(0, u32::MAX), Some(0xffff_ffff));
    assert_eq!(ancestor(u32::MAX - 1, u32::MAX), Some(0x1_ffff_fffd));
}

#[test]
fn common_ancestor_is_symmetric() {
    for x in 0..12 {
        for y in 0..12 {
            assert_eq!(ancestor(x, y), ancestor(y, x));
        }
    }
}

#[test]
fn paths_meet_at_common_ancestor() {
    for leaves in 2..12 {
        for x in 0..leaves {
            for y in 0..leaves {
                if x == y {
                    continue;
                }
                let node = ancestor(x, y).expect("ancestor");
                let px = path(x, leaves);
                let py = path(y, leaves);
                let i = px.iter().position(|n| *n == node).expect("on path");
                let j = py.iter().position(|n| *n == node).expect("on path");
                assert_eq!(px[i..], py[j..]);
                assert!(px[..i].iter().all(|n| !py.contains(n)));
            }
        }
    }
}

#[test]
fn direct_path_nodes_are_distinct_parents() {
    let nodes = path(5, 11);
    for (i, a) in nodes.iter().enumerate() {
        assert_eq!(a % 2, 1);
        assert!(*a < 21);
        assert!(!nodes[..i].contains(a));
    }
}

const SUITE: CipherSuite = CipherSuite {
    id: 1,
    secret_size: 16,
};

fn leaf(key: u8) -> Node {
    Node::Leaf(Some(KeyPackage {
        init_key: vec![key],
        encoding: vec![],
    }))
}

#[test]
fn tree_of_three_leaves() {
    let tree = TreePublicKey::new(
        vec![
            leaf(1),
            Node::Parent(Some(vec![2])),
            Node::Leaf(None),
            Node::Parent(None),
            leaf(3),
        ],
        SUITE,
    )
    .expect("tree");
    assert_eq!(tree.leaf_len(), LeafSize(3));
    assert_eq!(*tree.cipher_suite(), SUITE);
    assert_eq!(tree.get_package(LeafSize(0)).expect("package").init_key, vec![1]);
    assert!(tree.get_package(LeafSize(1)).is_none());
    assert_eq!(tree.get_package(LeafSize(2)).expect("package").init_key, vec![3]);
    assert!(tree.get_package(LeafSize(3)).is_none());
    assert_eq!(tree.resolve(LeafSize(0)), vec![NodeSize(0)]);
    assert_eq!(tree.resolve(LeafSize(1)), vec![]);
    assert_eq!(tree.resolve(LeafSize(2)), vec![NodeSize(4)]);
    assert_eq!(tree.node_key(NodeSize(1)), Some(&vec![2]));
    assert_eq!(tree.node_key(NodeSize(2)), None);
    assert_eq!(tree.node_key(NodeSize(3)), None);
    assert_eq!(tree.node_key(NodeSize(4)), Some(&vec![3]));
    assert_eq!(tree.node_key(NodeSize(5)), None);
}

#[test]
fn nodes_out_of_turn_are_no_tree() {
    assert!(TreePublicKey::new(vec![], SUITE).is_none());
    assert!(TreePublicKey::new(vec![leaf(1), Node::Parent(None)], SUITE).is_none());
    assert!(TreePublicKey::new(vec![Node::Parent(None)], SUITE).is_none());
    assert!(TreePublicKey::new(vec![leaf(1), leaf(2), leaf(3)], SUITE).is_none());
    assert!(TreePublicKey::new(vec![leaf(1)], SUITE).is_some());
}
