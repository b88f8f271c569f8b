//! Numbering of the nodes of a left-balanced ratchet tree.
//!
//! The nodes of a tree are numbered from left to right. Leaf `i` is node `2 * i`, and the
//! nodes between the leaves are the parents: a parent of level `k` covers `2^k` consecutive
//! leaves of the complete tree. A tree of `n` leaves keeps the nodes below `2 * n - 1`.
use vstd::arithmetic::div_mod::{
    lemma_div_denominator, lemma_fundamental_div_mod, lemma_fundamental_div_mod_converse,
};
use vstd::arithmetic::power2::{lemma2_to64, lemma_pow2_pos, lemma_pow2_strictly_increases, lemma_pow2_unfold, pow2};
use vstd::prelude::*;

verus! {

/// Number of bits in a leaf number, and so the highest level that a parent can have.
pub const LEAF_BITS: u32 = 32;

/// Position of a leaf, or a number of leaves.
#[derive(Clone, Copy, Debug, PartialEq, Eq, Structural)]
pub struct LeafSize(pub u32);

/// Number of a node, leaf or parent.
#[derive(Clone, Copy, Debug, PartialEq, Eq, Structural)]
pub struct NodeSize(pub u64);

/// Number of a parent node.
#[derive(Clone, Copy, Debug, PartialEq, Eq, Structural)]
pub struct ParentSize(pub u64);

/// The node of the given level that covers the given leaf.
pub open spec fn ancestor(leaf: nat, level: nat) -> nat {
    ((2 * (leaf / pow2(level)) + 1) * pow2(level) - 1) as nat
}

/// Whether a tree of `leaves` leaves has the node.
pub open spec fn in_tree(node: nat, leaves: nat) -> bool {
    node + 1 < 2 * leaves
}

/// The parents of levels 1 to `level` that cover the leaf and are nodes of the tree,
/// from the lowest up.
pub open spec fn path_to_level(leaf: nat, leaves: nat, level: nat) -> Seq<nat>
    decreases level,
{
    if level == 0 {
        seq![]
    } else {
        let below = path_to_level(leaf, leaves, (level - 1) as nat);
        if in_tree(ancestor(leaf, level), leaves) {
            below.push(ancestor(leaf, level))
        } else {
            below
        }
    }
}

/// The direct path of a leaf: the parents that cover it in a tree of `leaves` leaves, from
/// the lowest up to the root. A leaf that the tree does not have is covered by none.
pub open spec fn direct_path(leaf: nat, leaves: nat) -> Seq<nat> {
    if leaf < leaves {
        path_to_level(leaf, leaves, LEAF_BITS as nat)
    } else {
        seq![]
    }
}

/// The lowest level at which one node covers both leaves.
pub open spec fn meeting_level(x: nat, y: nat) -> nat
    decreases x + y,
{
    if x == y {
        0
    } else {
        1 + meeting_level(x / 2, y / 2)
    }
}

/// The lowest parent that covers both leaves. A leaf has none with itself.
pub open spec fn common_ancestor(x: nat, y: nat) -> Option<nat> {
    if x == y {
        None
    } else {
        Some(ancestor(x, meeting_level(x, y)))
    }
}

/// The node numbers along a path.
pub open spec fn node_numbers(path: Seq<ParentSize>) -> Seq<nat> {
    Seq::new(path.len(), |i: int| path[i].0 as nat)
}

/// A parent of level `level + 1` above a leaf is, in the tree whose leaves are the pairs of
/// leaves, the node of level `level` above the pair.
proof fn lemma_ancestor_step(leaf: nat, level: nat)
    ensures
        ancestor(leaf, level + 1) == 2 * ancestor(leaf / 2, level) + 1,
        ancestor(leaf, 0) == 2 * leaf,
{
    let p = pow2(level);
    lemma_pow2_pos(level);
    lemma_pow2_unfold(level + 1);
    lemma2_to64();
    lemma_div_denominator(leaf as int, 2, p as int);
    let q = (leaf / 2) / p;
    assert((2 * q + 1) * (2 * p) == 2 * ((2 * q + 1) * p)) by (nonlinear_arith);
    assert((2 * q + 1) * p >= 1) by (nonlinear_arith)
        requires
            p >= 1,
            q >= 0,
    ;
}

/// Nodes of different levels are different.
proof fn lemma_ancestor_level(x: nat, k: nat, y: nat, m: nat)
    requires
        ancestor(x, k) == ancestor(y, m),
    ensures
        k == m,
    decreases k,
{
    lemma_ancestor_step(x, 0);
    lemma_ancestor_step(y, 0);
    if k > 0 {
        lemma_ancestor_step(x, (k - 1) as nat);
    }
    if m > 0 {
        lemma_ancestor_step(y, (m - 1) as nat);
    }
    if k > 0 && m > 0 {
        lemma_ancestor_level(x / 2, (k - 1) as nat, y / 2, (m - 1) as nat);
    }
}

/// One node of a level covers both leaves from the meeting level on, and no sooner.
proof fn lemma_meeting_level(x: nat, y: nat, level: nat)
    ensures
        ancestor(x, level) == ancestor(y, level) <==> meeting_level(x, y) <= level,
    decreases level,
{
    lemma_ancestor_step(x, 0);
    lemma_ancestor_step(y, 0);
    if level > 0 {
        lemma_ancestor_step(x, (level - 1) as nat);
        lemma_ancestor_step(y, (level - 1) as nat);
        lemma_meeting_level(x / 2, y / 2, (level - 1) as nat);
    }
}

/// The node over two leaves lies between them.
proof fn lemma_meeting_between(x: nat, y: nat)
    requires
        x < y,
    ensures
        2 * x < ancestor(x, meeting_level(x, y)) < 2 * y,
    decreases x + y,
{
    let below = meeting_level(x / 2, y / 2);
    lemma_ancestor_step(x, below);
    if x / 2 == y / 2 {
        lemma_ancestor_step(x / 2, 0);
    } else {
        lemma_meeting_between(x / 2, y / 2);
    }
}

/// The order of the two leaves does not matter.
proof fn lemma_meeting_symmetric(x: nat, y: nat)
    ensures
        meeting_level(x, y) == meeting_level(y, x),
    decreases x + y,
{
    if x != y {
        lemma_meeting_symmetric(x / 2, y / 2);
    }
}

/// Two leaf numbers of `bits` bits meet at level `bits` at the latest.
proof fn lemma_meeting_bound(x: nat, y: nat, bits: nat)
    requires
        x < pow2(bits),
        y < pow2(bits),
    ensures
        meeting_level(x, y) <= bits,
    decreases bits,
{
    lemma2_to64();
    if bits > 0 {
        lemma_pow2_unfold(bits);
        lemma_meeting_bound(x / 2, y / 2, (bits - 1) as nat);
    }
}

/// Whether the node is a parent above the leaf, of level `top` at most, in the tree.
pub open spec fn is_parent_above(node: nat, leaf: nat, leaves: nat, top: nat) -> bool {
    in_tree(node, leaves) && exists|k: nat| 1 <= k <= top && node == #[trigger] ancestor(leaf, k)
}

/// A path holds the parents above the leaf, and each of them once.
proof fn lemma_path_members(leaf: nat, leaves: nat, top: nat)
    ensures
        forall|node: nat| #[trigger]
            path_to_level(leaf, leaves, top).contains(node) <==> is_parent_above(
                node,
                leaf,
                leaves,
                top,
            ),
        path_to_level(leaf, leaves, top).no_duplicates(),
    decreases top,
{
    let path = path_to_level(leaf, leaves, top);
    if top > 0 {
        let below = path_to_level(leaf, leaves, (top - 1) as nat);
        lemma_path_members(leaf, leaves, (top - 1) as nat);
        assert forall|node: nat| #[trigger] path.contains(node) implies is_parent_above(
            node,
            leaf,
            leaves,
            top,
        ) by {
            let i = path.index_of(node);
            if i < below.len() {
                assert(below[i] == node);
                assert(below.contains(node));
            }
        }
        assert forall|node: nat| is_parent_above(node, leaf, leaves, top) implies
            #[trigger] path.contains(node) by {
            let k = choose|k: nat| 1 <= k <= top && node == #[trigger] ancestor(leaf, k);
            if k == top {
                assert(path.last() == node);
            } else {
                assert(below.contains(node));
                assert(path[below.index_of(node)] == node);
            }
        }
        if path.len() > below.len() {
            assert forall|i: int| 0 <= i < below.len() implies below[i] != path.last() by {
                assert(below.contains(below[i]));
                let k = choose|k: nat| 1 <= k <= top - 1 && below[i] == #[trigger] ancestor(leaf, k);
                if below[i] == path.last() {
                    lemma_ancestor_level(leaf, k, leaf, top);
                }
            }
        }
    }
}

/// Above the level before the meeting level, the paths of two leaves go on alike.
proof fn lemma_paths_go_on_alike(x: nat, y: nat, leaves: nat, top: nat)
    requires
        x != y,
        meeting_level(x, y) <= top + 1,
    ensures
        ({
            let start = (meeting_level(x, y) - 1) as nat;
            let px = path_to_level(x, leaves, start);
            let py = path_to_level(y, leaves, start);
            &&& px.len() <= path_to_level(x, leaves, top).len()
            &&& py.len() <= path_to_level(y, leaves, top).len()
            &&& path_to_level(x, leaves, top).take(px.len() as int) == px
            &&& path_to_level(x, leaves, top).skip(px.len() as int) == path_to_level(
                y,
                leaves,
                top,
            ).skip(py.len() as int)
        }),
    decreases top,
{
    let start = (meeting_level(x, y) - 1) as nat;
    let px = path_to_level(x, leaves, start);
    let py = path_to_level(y, leaves, start);
    let x_top = path_to_level(x, leaves, top);
    let y_top = path_to_level(y, leaves, top);
    if top == start {
        assert(x_top.skip(px.len() as int) =~= y_top.skip(py.len() as int));
        assert(x_top.take(px.len() as int) =~= px);
    } else {
        let x_below = path_to_level(x, leaves, (top - 1) as nat);
        let y_below = path_to_level(y, leaves, (top - 1) as nat);
        lemma_paths_go_on_alike(x, y, leaves, (top - 1) as nat);
        lemma_meeting_level(x, y, top);
        assert(x_top.take(px.len() as int) =~= x_below.take(px.len() as int));
        if in_tree(ancestor(x, top), leaves) {
            assert(x_top.skip(px.len() as int) =~= x_below.skip(px.len() as int).push(
                ancestor(x, top),
            ));
            assert(y_top.skip(py.len() as int) =~= y_below.skip(py.len() as int).push(
                ancestor(y, top),
            ));
        }
    }
}

/// The place of the common ancestor on the direct path of one of two leaves of a tree.
proof fn lemma_common_ancestor_place(x: nat, y: nat, leaves: nat)
    requires
        x != y,
        x < leaves,
        y < leaves,
        leaves <= u32::MAX,
    ensures
        ({
            let node = ancestor(x, meeting_level(x, y));
            let place = path_to_level(x, leaves, (meeting_level(x, y) - 1) as nat).len() as int;
            &&& 1 <= meeting_level(x, y) <= LEAF_BITS
            &&& in_tree(node, leaves)
            &&& place < direct_path(x, leaves).len()
            &&& direct_path(x, leaves)[place] == node
            &&& direct_path(x, leaves).index_of(node) == place
        }),
{
    let m = meeting_level(x, y);
    let node = ancestor(x, m);
    lemma2_to64();
    lemma_meeting_bound(x, y, LEAF_BITS as nat);
    lemma_meeting_level(x, y, m);
    if x < y {
        lemma_meeting_between(x, y);
    } else {
        lemma_meeting_symmetric(x, y);
        lemma_meeting_between(y, x);
    }
    let below = path_to_level(x, leaves, (m - 1) as nat);
    lemma_path_prefix(x, leaves, m, LEAF_BITS as nat);
    let path = direct_path(x, leaves);
    assert(path_to_level(x, leaves, m) == below.push(node));
    assert(path.take(below.len() as int + 1)[below.len() as int] == node);
    assert(path[below.len() as int] == node);
    lemma_path_members(x, leaves, LEAF_BITS as nat);
}

/// The path to a level is the start of the path to a higher level.
proof fn lemma_path_prefix(leaf: nat, leaves: nat, level: nat, top: nat)
    requires
        level <= top,
    ensures
        path_to_level(leaf, leaves, level).len() <= path_to_level(leaf, leaves, top).len(),
        path_to_level(leaf, leaves, top).take(path_to_level(leaf, leaves, level).len() as int)
            == path_to_level(leaf, leaves, level),
    decreases top,
{
    let low = path_to_level(leaf, leaves, level);
    let high = path_to_level(leaf, leaves, top);
    if level == top {
        assert(high.take(low.len() as int) =~= low);
    } else {
        let below = path_to_level(leaf, leaves, (top - 1) as nat);
        lemma_path_prefix(leaf, leaves, level, (top - 1) as nat);
        assert(high.take(low.len() as int) =~= below.take(low.len() as int));
    }
}

/// The direct path of a leaf holds the parents that cover the leaf and are in the tree. It
/// holds each of them once.
pub proof fn law_direct_path_holds_parents(leaf: nat, leaves: nat)
    requires
        leaf < leaves <= u32::MAX,
    ensures
        direct_path(leaf, leaves).no_duplicates(),
        forall|node: nat| #[trigger]
            direct_path(leaf, leaves).contains(node) <==> is_parent_above(
                node,
                leaf,
                leaves,
                LEAF_BITS as nat,
            ),
{
    lemma_path_members(leaf, leaves, LEAF_BITS as nat);
}

/// Two leaves of a tree have the same common ancestor in either order.
pub proof fn law_common_ancestor_symmetric(x: nat, y: nat)
    ensures
        common_ancestor(x, y) == common_ancestor(y, x),
{
    lemma_meeting_symmetric(x, y);
    lemma_meeting_level(x, y, meeting_level(x, y));
}

/// The common ancestor of two leaves of a tree lies on both direct paths. From there on the
/// two paths are the same, and below it they share no node.
pub proof fn law_paths_meet_at_common_ancestor(x: nat, y: nat, leaves: nat)
    requires
        x != y,
        x < leaves,
        y < leaves,
        leaves <= u32::MAX,
    ensures
        common_ancestor(x, y) is Some,
        ({
            let node = common_ancestor(x, y)->0;
            let px = direct_path(x, leaves);
            let py = direct_path(y, leaves);
            &&& px.contains(node)
            &&& py.contains(node)
            &&& px.skip(px.index_of(node)) == py.skip(py.index_of(node))
            &&& forall|i: int|
                0 <= i < px.index_of(node) ==> !py.contains(#[trigger] px[i])
        }),
{
    let node = common_ancestor(x, y)->0;
    let px = direct_path(x, leaves);
    let py = direct_path(y, leaves);
    let m = meeting_level(x, y);
    law_common_ancestor_symmetric(x, y);
    lemma_meeting_symmetric(x, y);
    lemma_common_ancestor_place(x, y, leaves);
    lemma_common_ancestor_place(y, x, leaves);
    lemma_paths_go_on_alike(x, y, leaves, LEAF_BITS as nat);
    assert forall|i: int| 0 <= i < px.index_of(node) implies !py.contains(#[trigger] px[i]) by {
        let below = path_to_level(x, leaves, (m - 1) as nat);
        lemma_path_members(x, leaves, (m - 1) as nat);
        lemma_path_members(y, leaves, LEAF_BITS as nat);
        assert(px.take(below.len() as int)[i] == below[i]);
        assert(below.contains(px[i]));
        let k = choose|k: nat| 1 <= k <= m - 1 && px[i] == #[trigger] ancestor(x, k);
        if py.contains(px[i]) {
            let j = choose|j: nat|
                1 <= j <= LEAF_BITS && px[i] == #[trigger] ancestor(y, j);
            lemma_ancestor_level(x, k, y, j);
            lemma_meeting_level(x, y, k);
        }
    }
}

/// The node that covers a leaf, in plain numbers: one more than its number is an odd multiple
/// of its span, and the leaf is among the leaves of that span.
proof fn lemma_ancestor_covers(leaf: nat, level: nat)
    ensures
        ancestor(leaf, level) + 1 == (2 * (leaf / pow2(level)) + 1) * pow2(level),
        (leaf / pow2(level)) * pow2(level) <= leaf < (leaf / pow2(level) + 1) * pow2(level),
{
    let p = pow2(level);
    let q = leaf / p;
    lemma_pow2_pos(level);
    lemma_fundamental_div_mod(leaf as int, p as int);
    assert((2 * q + 1) * p >= 1) by (nonlinear_arith)
        requires
            p >= 1,
            q >= 0,
    ;
    assert(q * p <= leaf < (q + 1) * p) by (nonlinear_arith)
        requires
            leaf == p * q + (leaf as int) % (p as int),
            p > 0,
    ;
}

/// A node that covers a leaf is the one of its level.
proof fn lemma_covering_node(leaf: nat, level: nat, place: nat)
    requires
        place * pow2(level) <= leaf < (place + 1) * pow2(level),
    ensures
        leaf / pow2(level) == place,
        ancestor(leaf, level) + 1 == (2 * place + 1) * pow2(level),
{
    let p = pow2(level);
    lemma_pow2_pos(level);
    let r = leaf - place * p;
    assert(0 <= r < p) by (nonlinear_arith)
        requires
            place * p <= leaf < (place + 1) * p,
            r == leaf - place * p,
    ;
    lemma_fundamental_div_mod_converse(leaf as int, p as int, place as int, r);
    lemma_ancestor_covers(leaf, level);
}

/// An odd multiple of a power of two is one of that power only.
proof fn lemma_odd_multiple(q: nat, k: nat, r: nat, m: nat)
    requires
        (2 * q + 1) * pow2(k) == (2 * r + 1) * pow2(m),
    ensures
        k == m,
{
    lemma_pow2_pos(k);
    lemma_pow2_pos(m);
    let x: nat = q * pow2(k);
    let y: nat = r * pow2(m);
    assert(q * pow2(k) < (q + 1) * pow2(k)) by (nonlinear_arith)
        requires
            pow2(k) >= 1,
    ;
    assert(r * pow2(m) < (r + 1) * pow2(m)) by (nonlinear_arith)
        requires
            pow2(m) >= 1,
    ;
    lemma_covering_node(x, k, q);
    lemma_covering_node(y, m, r);
    lemma_ancestor_level(x, k, y, m);
}

/// A node in a tree of 32-bit leaf numbers has a level of 32 at most.
proof fn lemma_level_bound(leaves: nat, level: nat, place: nat)
    requires
        leaves <= u32::MAX,
        (2 * place + 1) * pow2(level) < 2 * leaves,
    ensures
        level <= LEAF_BITS,
{
    lemma2_to64();
    assert(pow2(level) <= (2 * place + 1) * pow2(level)) by (nonlinear_arith)
        requires
            place >= 0,
            pow2(level) >= 0,
    ;
    if level > LEAF_BITS {
        lemma_pow2_unfold(LEAF_BITS as nat + 1);
        if level > LEAF_BITS + 1 {
            lemma_pow2_strictly_increases(LEAF_BITS as nat + 1, level);
        }
    }
}

/// Further along a path, nodes are of higher levels.
proof fn lemma_path_levels(leaf: nat, leaves: nat, top: nat, i: int, j: int)
    requires
        0 <= i < j < path_to_level(leaf, leaves, top).len(),
    ensures
        exists|k: nat, m: nat|
            k < m <= top && path_to_level(leaf, leaves, top)[i] == #[trigger] ancestor(leaf, k)
                && path_to_level(leaf, leaves, top)[j] == #[trigger] ancestor(leaf, m),
    decreases top,
{
    let below = path_to_level(leaf, leaves, (top - 1) as nat);
    let path = path_to_level(leaf, leaves, top);
    if j < below.len() {
        lemma_path_levels(leaf, leaves, (top - 1) as nat, i, j);
        let (k, m) = choose|k: nat, m: nat|
            k < m <= top - 1 && below[i] == #[trigger] ancestor(leaf, k) && below[j]
                == #[trigger] ancestor(leaf, m);
        assert(path[i] == ancestor(leaf, k) && path[j] == ancestor(leaf, m));
    } else {
        lemma_path_members(leaf, leaves, (top - 1) as nat);
        assert(below.contains(below[i]));
        let k = choose|k: nat| 1 <= k <= top - 1 && below[i] == #[trigger] ancestor(leaf, k);
        assert(path[i] == ancestor(leaf, k) && path[j] == ancestor(leaf, top));
    }
}

/// Every node on a direct path is a node of the tree: its number is below `2 * leaves - 1`. It
/// is a parent over the leaf: one more than its number is an odd multiple `2 * q + 1` of a span
/// `2^k` of two leaves or more, and the leaf is among the leaves of that span.
/// Gives `k` and `q`.
pub proof fn law_direct_path_node_covers_leaf(leaf: nat, leaves: nat, i: int) -> (at: (nat, nat))
    requires
        leaves <= u32::MAX,
        0 <= i < direct_path(leaf, leaves).len(),
    ensures
        leaf < leaves,
        direct_path(leaf, leaves)[i] < 2 * leaves - 1,
        ({
            let (k, q) = at;
            &&& k >= 1
            &&& direct_path(leaf, leaves)[i] + 1 == (2 * q + 1) * pow2(k)
            &&& q * pow2(k) <= leaf < (q + 1) * pow2(k)
        }),
{
    let path = direct_path(leaf, leaves);
    lemma_path_members(leaf, leaves, LEAF_BITS as nat);
    assert(path.contains(path[i]));
    let k = choose|k: nat| 1 <= k <= LEAF_BITS && path[i] == #[trigger] ancestor(leaf, k);
    lemma_ancestor_covers(leaf, k);
    (k, leaf / pow2(k))
}

/// No parent over the leaf is missing from its direct path: whenever the node one below
/// `(2 * q + 1) * 2^k` is in the tree and the leaf is among the `2^k` leaves below it, the node
/// is on the path.
pub proof fn law_direct_path_misses_no_parent(leaf: nat, leaves: nat, k: nat, q: nat)
    requires
        leaf < leaves <= u32::MAX,
        k >= 1,
        q * pow2(k) <= leaf < (q + 1) * pow2(k),
        (2 * q + 1) * pow2(k) - 1 < 2 * leaves - 1,
    ensures
        direct_path(leaf, leaves).contains(((2 * q + 1) * pow2(k) - 1) as nat),
{
    lemma_covering_node(leaf, k, q);
    lemma_level_bound(leaves, k, q);
    lemma_path_members(leaf, leaves, LEAF_BITS as nat);
    assert(is_parent_above(ancestor(leaf, k), leaf, leaves, LEAF_BITS as nat));
}

/// A direct path goes up: a node further along spans more leaves.
pub proof fn law_direct_path_goes_up(
    leaf: nat,
    leaves: nat,
    i: int,
    j: int,
    k: nat,
    q: nat,
    m: nat,
    r: nat,
)
    requires
        0 <= i < j < direct_path(leaf, leaves).len(),
        direct_path(leaf, leaves)[i] + 1 == (2 * q + 1) * pow2(k),
        direct_path(leaf, leaves)[j] + 1 == (2 * r + 1) * pow2(m),
    ensures
        k < m,
{
    let path = direct_path(leaf, leaves);
    lemma_path_levels(leaf, leaves, LEAF_BITS as nat, i, j);
    let (a, b) = choose|a: nat, b: nat|
        a < b <= LEAF_BITS && path[i] == #[trigger] ancestor(leaf, a) && path[j]
            == #[trigger] ancestor(leaf, b);
    lemma_ancestor_covers(leaf, a);
    lemma_ancestor_covers(leaf, b);
    lemma_odd_multiple(leaf / pow2(a), a, q, k);
    lemma_odd_multiple(leaf / pow2(b), b, r, m);
}

/// There is a height at which a complete tree holds the leaves, while half of it does not.
proof fn lemma_height(leaves: nat) -> (height: nat)
    requires
        leaves >= 2,
    ensures
        height >= 1,
        leaves <= pow2(height) < 2 * leaves,
    decreases leaves,
{
    lemma2_to64();
    if leaves == 2 {
        1
    } else {
        let below = lemma_height((leaves + 1) as nat / 2);
        lemma_pow2_unfold(below + 1);
        if pow2(below + 1) < 2 * leaves {
            below + 1
        } else {
            lemma_pow2_unfold(below);
            below
        }
    }
}

/// Every direct path in a tree of two leaves or more ends at one and the same node, the root:
/// it spans `2^k` leaves from the first one on, where `2^k` is the first power of two that is
/// no less than the number of leaves. Gives `k`.
pub proof fn law_direct_path_ends_at_root(leaf: nat, leaves: nat) -> (k: nat)
    requires
        leaf < leaves,
        2 <= leaves <= u32::MAX,
    ensures
        direct_path(leaf, leaves).len() > 0,
        leaves <= pow2(k) < 2 * leaves,
        direct_path(leaf, leaves).last() + 1 == pow2(k),
{
    let path = direct_path(leaf, leaves);
    let k = lemma_height(leaves);
    lemma_pow2_pos(k);
    assert((0nat + 1) * pow2(k) == pow2(k) && (2 * 0nat + 1) * pow2(k) == pow2(k)) by (
    nonlinear_arith);
    law_direct_path_misses_no_parent(leaf, leaves, k, 0);
    let root = (pow2(k) - 1) as nat;
    let place = path.index_of(root);
    if place < path.len() - 1 {
        let (m, q) = law_direct_path_node_covers_leaf(leaf, leaves, path.len() - 1);
        law_direct_path_goes_up(leaf, leaves, place, path.len() - 1, k, 0, m, q);
        lemma_pow2_unfold(k + 1);
        if m > k + 1 {
            lemma_pow2_strictly_increases(k + 1, m);
        }
        assert(pow2(m) <= (2 * q + 1) * pow2(m)) by (nonlinear_arith)
            requires
                q >= 0,
                pow2(m) >= 0,
        ;
    }
    k
}

/// Any two direct paths in one tree of two leaves or more end at the same node.
pub proof fn law_direct_paths_share_root(x: nat, y: nat, leaves: nat)
    requires
        x < leaves,
        y < leaves,
        2 <= leaves <= u32::MAX,
    ensures
        direct_path(x, leaves).len() > 0,
        direct_path(y, leaves).len() > 0,
        direct_path(x, leaves).last() == direct_path(y, leaves).last(),
        direct_path(x, leaves).last() < 2 * leaves - 1,
{
    let k = law_direct_path_ends_at_root(x, leaves);
    let m = law_direct_path_ends_at_root(y, leaves);
    lemma_pow2_unfold(k + 1);
    lemma_pow2_unfold(m + 1);
    if k + 1 < m {
        lemma_pow2_strictly_increases(k + 1, m);
    }
    if m + 1 < k {
        lemma_pow2_strictly_increases(m + 1, k);
    }
}

/// A leaf outside the tree has an empty direct path, and so has the only leaf of a tree.
pub proof fn law_direct_path_is_empty_outside_tree(leaf: nat, leaves: nat)
    requires
        leaf >= leaves || leaves == 1,
    ensures
        direct_path(leaf, leaves).len() == 0,
{
    if leaves == 1 && direct_path(leaf, leaves).len() > 0 {
        let (k, q) = law_direct_path_node_covers_leaf(leaf, leaves, 0);
        lemma_pow2_pos((k - 1) as nat);
        lemma_pow2_unfold(k);
        assert((2 * q + 1) * pow2(k) >= pow2(k)) by (nonlinear_arith)
            requires
                q >= 0,
                pow2(k) >= 0,
        ;
    }
}

/// Two leaves have a common ancestor if and only if they differ.
pub proof fn law_common_ancestor_of_different_leaves(x: nat, y: nat)
    ensures
        common_ancestor(x, y) is Some <==> x != y,
{
}

/// The common ancestor of two leaves, in plain numbers: it lies between the two leaves, and both
/// are among the `2^k` leaves that it spans. So it is the lowest node above both, and has one of
/// them on each side. Gives `k`, and the number `q` of such spans to the left of its own.
pub proof fn law_common_ancestor_lies_between(x: nat, y: nat) -> (at: (nat, nat))
    requires
        x != y,
    ensures
        ({
            let (k, q) = at;
            let node = common_ancestor(x, y)->0;
            &&& x < y ==> 2 * x < node < 2 * y
            &&& y < x ==> 2 * y < node < 2 * x
            &&& k >= 1
            &&& node + 1 == (2 * q + 1) * pow2(k)
            &&& q * pow2(k) <= x < (q + 1) * pow2(k)
            &&& q * pow2(k) <= y < (q + 1) * pow2(k)
        }),
{
    let k = meeting_level(x, y);
    law_common_ancestor_symmetric(x, y);
    lemma_meeting_symmetric(x, y);
    if x < y {
        lemma_meeting_between(x, y);
    } else {
        lemma_meeting_between(y, x);
    }
    lemma_meeting_level(x, y, k);
    lemma_ancestor_covers(x, k);
    lemma_ancestor_covers(y, k);
    lemma_pow2_pos(k);
    let q = x / pow2(k);
    let r = y / pow2(k);
    assert(q == r) by (nonlinear_arith)
        requires
            (2 * q + 1) * pow2(k) == (2 * r + 1) * pow2(k),
            pow2(k) >= 1,
    ;
    (k, q)
}

/// The node numbers along a path are those of its nodes, one for one.
pub proof fn law_node_numbers(path: Seq<ParentSize>)
    ensures
        node_numbers(path).len() == path.len(),
        forall|i: int| 0 <= i < path.len() ==> #[trigger] node_numbers(path)[i] == path[i].0,
{
}

impl LeafSize {
    /// The node of the leaf.
    pub fn node(self) -> (node: NodeSize)
        ensures
            node.0 == 2 * self.0,
    {
        NodeSize(2 * (self.0 as u64))
    }

    /// The direct path of the leaf in a tree of `leaf_len` leaves.
    pub fn direct_path(self, leaf_len: LeafSize) -> (path: Vec<ParentSize>)
        ensures
            node_numbers(path@) == direct_path(self.0 as nat, leaf_len.0 as nat),
    {
        let mut path: Vec<ParentSize> = Vec::new();
        if self.0 >= leaf_len.0 {
            assert(node_numbers(path@) =~= seq![]);
            return path;
        }
        let leaf: u64 = self.0 as u64;
        let width: u64 = 2 * (leaf_len.0 as u64);
        let mut level: u32 = 0;
        let mut span: u64 = 1;
        proof {
            lemma2_to64();
        }
        while level < LEAF_BITS
            invariant
                leaf == self.0,
                width == 2 * leaf_len.0,
                level <= LEAF_BITS,
                span == pow2(level as nat),
                span <= 0x1_0000_0000,
                level < LEAF_BITS ==> span <= 0x8000_0000,
                node_numbers(path@) =~= path_to_level(
                    leaf as nat,
                    leaf_len.0 as nat,
                    level as nat,
                ),
            decreases LEAF_BITS - level,
        {
            proof {
                lemma_span(level as nat);
            }
            span = 2 * span;
            level = level + 1;
            let node = ancestor_number(leaf, span, Ghost(level as nat));
            if node + 1 < width {
                let ghost before = path@;
                path.push(ParentSize(node));
                assert(node_numbers(path@) =~= node_numbers(before).push(node as nat));
            }
        }
        path
    }
}

impl ParentSize {
    /// The lowest parent that covers both leaves.
    pub fn common_ancestor(x: LeafSize, y: LeafSize) -> (node: Option<ParentSize>)
        ensures
            match node {
                Some(node) => common_ancestor(x.0 as nat, y.0 as nat) == Some(node.0 as nat),
                None => common_ancestor(x.0 as nat, y.0 as nat) is None,
            },
    {
        if x.0 == y.0 {
            return None;
        }
        let mut left: u32 = x.0;
        let mut right: u32 = y.0;
        let mut span: u64 = 1;
        let ghost mut level: nat = 0;
        proof {
            lemma2_to64();
            lemma_meeting_bound(x.0 as nat, y.0 as nat, LEAF_BITS as nat);
        }
        while left != right
            invariant
                meeting_level(x.0 as nat, y.0 as nat) == level + meeting_level(
                    left as nat,
                    right as nat,
                ),
                meeting_level(x.0 as nat, y.0 as nat) <= LEAF_BITS,
                span == pow2(level),
                span <= 0x1_0000_0000,
                level < LEAF_BITS ==> span <= 0x8000_0000,
            decreases left + right,
        {
            proof {
                lemma_span(level);
                level = level + 1;
            }
            left = left / 2;
            right = right / 2;
            span = 2 * span;
        }
        Some(ParentSize(ancestor_number(x.0 as u64, span, Ghost(level))))
    }
}

/// Doubling a span of leaves is going up one level.
proof fn lemma_span(level: nat)
    ensures
        pow2(level + 1) == 2 * pow2(level),
        level + 1 <= LEAF_BITS ==> pow2(level + 1) <= 0x1_0000_0000,
        level + 1 < LEAF_BITS ==> pow2(level + 1) <= 0x8000_0000,
{
    lemma_pow2_unfold(level + 1);
    lemma2_to64();
    if level + 1 < LEAF_BITS - 1 {
        lemma_pow2_strictly_increases(level + 1, (LEAF_BITS - 1) as nat);
    }
}

/// The number of the node that covers the leaf and `span` leaves in all.
fn ancestor_number(leaf: u64, span: u64, Ghost(level): Ghost<nat>) -> (node: u64)
    requires
        leaf <= u32::MAX,
        span == pow2(level),
        span <= 0x1_0000_0000,
    ensures
        node == ancestor(leaf as nat, level),
        node <= 2 * leaf + span,
{
    proof {
        lemma_pow2_pos(level);
        lemma_fundamental_div_mod(leaf as int, span as int);
    }
    let place: u64 = leaf / span;
    assert(place * span <= leaf) by (nonlinear_arith)
        requires
            leaf == span * place + (leaf as int) % (span as int),
            span > 0,
    ;
    assert((2 * place + 1) * span == 2 * (place * span) + span) by (nonlinear_arith);
    (2 * place + 1) * span - 1
}

} // verus!
