//! The public side of a ratchet tree.
use crate::tree_math::{LeafSize, NodeSize};
use vstd::prelude::*;

verus! {

/// What a member has published about itself.
#[derive(Debug)]
pub struct KeyPackage {
    /// Public key to which others encrypt for this member.
    pub init_key: Vec<u8>,
    /// The whole package as it was sent, with the certificate that attests to the member.
    pub encoding: Vec<u8>,
}

/// A node of the tree. A blank node holds nothing.
#[derive(Debug)]
pub enum Node {
    /// A leaf with the package of its member.
    Leaf(Option<KeyPackage>),
    /// A parent with its public key.
    Parent(Option<Vec<u8>>),
}

impl Node {
    /// The public key of the node, `None` for a blank node.
    pub open spec fn key(self) -> Option<Vec<u8>> {
        match self {
            Node::Leaf(Some(package)) => Some(package.init_key),
            Node::Parent(key) => key,
            _ => None,
        }
    }

    /// The public key of the node. A blank node has none.
    pub fn public_key(&self) -> (key: Option<&Vec<u8>>)
        ensures
            match key {
                Some(key) => self.key() == Some(*key),
                None => self.key() is None,
            },
    {
        match self {
            Node::Leaf(Some(package)) => Some(&package.init_key),
            Node::Parent(Some(key)) => Some(key),
            _ => None,
        }
    }
}

/// Whether the nodes make up a tree: one leaf at least, leaves and parents in turn, and leaf
/// numbers of 32 bits.
pub open spec fn is_tree(nodes: Seq<Node>) -> bool {
    &&& nodes.len() % 2 == 1
    &&& nodes.len() / 2 < u32::MAX
    &&& forall|i: int| 0 <= i < nodes.len() ==> (#[trigger] nodes[i] is Leaf <==> i % 2 == 0)
}

/// The cipher suite of a group.
#[derive(Clone, Copy, Debug, PartialEq, Eq, Structural)]
pub struct CipherSuite {
    /// Registered number of the suite.
    pub id: u16,
    /// Length of a secret in the suite.
    pub secret_size: usize,
}

/// A ratchet tree of public keys, with its nodes from left to right.
#[derive(Debug)]
pub struct TreePublicKey {
    nodes: Vec<Node>,
    cs: CipherSuite,
}

impl TreePublicKey {
    #[verifier::type_invariant]
    spec fn wf(self) -> bool {
        is_tree(self.nodes@)
    }

    /// The nodes from left to right.
    pub closed spec fn nodes(self) -> Seq<Node> {
        self.nodes@
    }

    /// The cipher suite of the group.
    pub closed spec fn suite(self) -> CipherSuite {
        self.cs
    }

    /// The number of leaves.
    pub open spec fn leaves(self) -> nat {
        (self.nodes().len() + 1) as nat / 2
    }

    /// The package at a leaf. There is none at a blank leaf, nor outside the tree.
    pub open spec fn package(self, leaf: nat) -> Option<KeyPackage> {
        if leaf < self.leaves() {
            match self.nodes()[2 * leaf as int] {
                Node::Leaf(package) => package,
                Node::Parent(_) => None,
            }
        } else {
            None
        }
    }

    /// The resolution of a leaf: the nodes whose keys together reach every member below it.
    /// That is the leaf itself, and nothing for a blank leaf.
    pub open spec fn resolution(self, leaf: nat) -> Seq<nat> {
        if self.package(leaf) is Some {
            seq![2 * leaf]
        } else {
            seq![]
        }
    }

    /// The tree of the given nodes. `None` if they do not make up a tree.
    pub fn new(nodes: Vec<Node>, cs: CipherSuite) -> (tree: Option<TreePublicKey>)
        ensures
            match tree {
                Some(tree) => {
                    &&& is_tree(nodes@)
                    &&& tree.nodes() == nodes@
                    &&& tree.suite() == cs
                },
                None => !is_tree(nodes@),
            },
    {
        if nodes.len() % 2 == 0 || nodes.len() / 2 >= u32::MAX as usize {
            return None;
        }
        let mut i: usize = 0;
        while i < nodes.len()
            invariant
                i <= nodes.len(),
                forall|j: int| 0 <= j < i ==> (#[trigger] nodes@[j] is Leaf <==> j % 2 == 0),
            decreases nodes.len() - i,
        {
            let is_leaf = match &nodes[i] {
                Node::Leaf(_) => true,
                Node::Parent(_) => false,
            };
            if is_leaf != (i % 2 == 0) {
                assert(!(nodes@[i as int] is Leaf <==> i % 2 == 0));
                return None;
            }
            i = i + 1;
        }
        Some(TreePublicKey { nodes, cs })
    }

    /// The number of leaves.
    pub fn leaf_len(&self) -> (len: LeafSize)
        ensures
            len.0 == self.leaves(),
            0 < self.leaves() <= u32::MAX,
            is_tree(self.nodes()),
    {
        proof {
            use_type_invariant(self);
        }
        LeafSize((self.nodes.len() / 2 + 1) as u32)
    }

    /// The cipher suite of the group.
    pub fn cipher_suite(&self) -> (cs: &CipherSuite)
        ensures
            *cs == self.suite(),
    {
        &self.cs
    }

    /// The package at a leaf. There is none at a blank leaf, nor outside the tree.
    pub fn get_package(&self, leaf: LeafSize) -> (package: Option<&KeyPackage>)
        ensures
            match package {
                Some(package) => self.package(leaf.0 as nat) == Some(*package),
                None => self.package(leaf.0 as nat) is None,
            },
    {
        proof {
            use_type_invariant(self);
        }
        if (leaf.0 as usize) <= self.nodes.len() / 2 {
            match &self.nodes[2 * (leaf.0 as usize)] {
                Node::Leaf(Some(package)) => Some(package),
                _ => None,
            }
        } else {
            None
        }
    }

    /// The resolution of a leaf.
    pub fn resolve(&self, leaf: LeafSize) -> (nodes: Vec<NodeSize>)
        ensures
            nodes@.len() == self.resolution(leaf.0 as nat).len(),
            forall|i: int|
                0 <= i < nodes@.len() ==> #[trigger] nodes@[i].0 == self.resolution(
                    leaf.0 as nat,
                )[i],
    {
        let mut nodes: Vec<NodeSize> = Vec::new();
        if self.get_package(leaf).is_some() {
            nodes.push(leaf.node());
        }
        nodes
    }

    /// The public key of a node. There is none at a blank node, nor outside the tree.
    pub fn node_key(&self, node: NodeSize) -> (key: Option<&Vec<u8>>)
        ensures
            match key {
                Some(key) => node.0 < self.nodes().len() && self.nodes()[node.0 as int].key()
                    == Some(*key),
                None => node.0 < self.nodes().len() ==> self.nodes()[node.0 as int].key() is None,
            },
    {
        if node.0 < self.nodes.len() as u64 {
            self.nodes[node.0 as usize].public_key()
        } else {
            None
        }
    }
}

/// In a sequence of nodes that is as long as a tree of `leaves` leaves, a tree is told by what
/// its nodes are: the leaves stand at twice their numbers, and the parents between them. No
/// sequence of another length is a tree.
pub proof fn law_tree_alternates(nodes: Seq<Node>, leaves: nat)
    ensures
        1 <= leaves <= u32::MAX && nodes.len() == 2 * leaves - 1 ==> (is_tree(nodes) <==> {
            &&& forall|leaf: int| 0 <= leaf < leaves ==> #[trigger] nodes[2 * leaf] is Leaf
            &&& forall|parent: int|
                0 <= parent < leaves - 1 ==> #[trigger] nodes[2 * parent + 1] is Parent
        }),
        nodes.len() % 2 == 0 || nodes.len() > 2 * u32::MAX - 1 ==> !is_tree(nodes),
{
    if 1 <= leaves <= u32::MAX && nodes.len() == 2 * leaves - 1 {
        if is_tree(nodes) {
            assert forall|leaf: int| 0 <= leaf < leaves implies #[trigger] nodes[2 * leaf] is Leaf by {
                assert((2 * leaf) % 2 == 0);
            }
            assert forall|parent: int| 0 <= parent < leaves - 1 implies
                #[trigger] nodes[2 * parent + 1] is Parent by {
                assert((2 * parent + 1) % 2 == 1);
            }
        }
        if (forall|leaf: int| 0 <= leaf < leaves ==> #[trigger] nodes[2 * leaf] is Leaf) && (forall|
            parent: int,
        |
            0 <= parent < leaves - 1 ==> #[trigger] nodes[2 * parent + 1] is Parent) {
            assert forall|i: int| 0 <= i < nodes.len() implies (#[trigger] nodes[i] is Leaf <==> i % 2
                == 0) by {
                if i % 2 == 0 {
                    assert(nodes[2 * (i / 2)] is Leaf);
                } else {
                    assert(nodes[2 * (i / 2) + 1] is Parent);
                }
            }
        }
    }
}

/// A tree of `leaves` leaves has one node less than two for each leaf.
pub proof fn law_leaves_and_nodes(tree: TreePublicKey, leaves: nat)
    requires
        tree.nodes().len() % 2 == 1,
    ensures
        tree.leaves() == leaves <==> tree.nodes().len() + 1 == 2 * leaves,
{
}

/// A package is found at a leaf if and only if the leaf's node is within the tree and holds
/// it. So every leaf of the tree that is not blank is a member.
pub proof fn law_package_is_at_leaf_node(tree: TreePublicKey, leaf: nat, package: KeyPackage)
    ensures
        tree.package(leaf) == Some(package) <==> 2 * leaf < tree.nodes().len()
            && tree.nodes()[2 * leaf as int] == Node::Leaf(Some(package)),
        tree.package(leaf) is None <==> 2 * leaf >= tree.nodes().len()
            || tree.nodes()[2 * leaf as int] is Parent || tree.nodes()[2 * leaf as int]
            == Node::Leaf(None),
{
}

/// A leaf resolves to its own node where that node holds a package, and to nothing otherwise.
pub proof fn law_leaf_resolves_to_itself(tree: TreePublicKey, leaf: nat, node: nat)
    ensures
        tree.resolution(leaf).len() <= 1,
        tree.resolution(leaf).contains(node) <==> node == 2 * leaf && node < tree.nodes().len() && (
        tree.nodes()[node as int] matches Node::Leaf(Some(_))),
{
    if tree.package(leaf) is Some {
        assert(tree.resolution(leaf)[0] == 2 * leaf);
    }
}

/// A node has a key if and only if it is not blank: a leaf has the key in its package, and a
/// parent its own.
pub proof fn law_key_of_node(package: KeyPackage, key: Vec<u8>)
    ensures
        Node::Leaf(Some(package)).key() == Some(package.init_key),
        Node::Parent(Some(key)).key() == Some(key),
        Node::Leaf(None).key() is None,
        Node::Parent(None).key() is None,
{
}

} // verus!
