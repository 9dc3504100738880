//! The pixel grid as a tree of storage nodes.
//!
//! A node holds at most 1023 bits and at most four children. The grid's
//! 24,576 bits fill a tree of fixed shape, read in depth-first order, each
//! node's payload before its children:
//!
//! * the root, with 1023 bits and four branches;
//! * each branch, with 1023 bits and four twigs;
//! * each twig, with 1023 bits; the first twig of the first branch alone has
//!   four leaves, of 1023, 1023, 1023 and 24 bits.
//!
//! That is 1 + 4 + 16 + 4 = 25 nodes and 21 * 1023 + 3093 = 24,576 bits.

use vstd::prelude::*;
use crate::dna::{Dna, DnaError, BIT_COUNT};

verus! {

/// Bits that a node holds at most; every node of a grid's tree but the
/// last leaf is full.
pub const NODE_BITS: usize = 1023;

/// Children that a node has at most; every node of a grid's tree that has
/// children has that many.
pub const NODE_REFS: usize = 4;

/// Bits in the last leaf.
pub const TAIL_BITS: usize = 24;

/// Bits in the four leaves together.
pub const LEAVES_BITS: usize = 3093;

/// Nodes in the tree.
pub const NODE_COUNT: usize = 25;

/// A node of the tree: a bit payload and an ordered list of child nodes.
#[derive(Debug)]
pub struct StorageNode {
    pub bits: Vec<bool>,
    pub refs: Vec<StorageNode>,
}

/// What a [`StorageNode`] holds.
pub struct NodeView {
    pub bits: Seq<bool>,
    pub refs: Seq<NodeView>,
}

impl View for StorageNode {
    type V = NodeView;

    open spec fn view(&self) -> NodeView
        decreases self,
    {
        NodeView { bits: self.bits@, refs: nodes_view(self.refs@) }
    }
}

/// What a list of nodes holds.
pub open spec fn nodes_view(nodes: Seq<StorageNode>) -> Seq<NodeView>
    decreases nodes,
{
    if nodes.len() == 0 {
        Seq::empty()
    } else {
        nodes_view(nodes.drop_last()).push(nodes.last()@)
    }
}

/// The number of nodes of a tree.
pub open spec fn node_count(node: NodeView) -> nat
    decreases node,
{
    1 + nodes_count(node.refs)
}

/// The number of nodes of a list of trees.
pub open spec fn nodes_count(nodes: Seq<NodeView>) -> nat
    decreases nodes,
{
    if nodes.len() == 0 {
        0
    } else {
        nodes_count(nodes.drop_last()) + node_count(nodes.last())
    }
}

/// The payloads of a tree in depth-first order, a node's own before its
/// children's.
pub open spec fn tree_bits(node: NodeView) -> Seq<bool>
    decreases node,
{
    node.bits + forest_bits(node.refs)
}

/// The payloads of a list of trees, tree after tree.
pub open spec fn forest_bits(nodes: Seq<NodeView>) -> Seq<bool>
    decreases nodes,
{
    if nodes.len() == 0 {
        Seq::empty()
    } else {
        forest_bits(nodes.drop_last()) + tree_bits(nodes.last())
    }
}

/// `node` is a leaf of `len` bits.
pub open spec fn is_leaf(node: NodeView, len: int) -> bool {
    node.bits.len() == len && node.refs.len() == 0
}

/// `node` is a twig; the special one carries the four leaves.
pub open spec fn is_twig(node: NodeView, special: bool) -> bool {
    &&& node.bits.len() == NODE_BITS
    &&& if special {
        &&& node.refs.len() == NODE_REFS
        &&& is_leaf(node.refs[0], NODE_BITS as int)
        &&& is_leaf(node.refs[1], NODE_BITS as int)
        &&& is_leaf(node.refs[2], NODE_BITS as int)
        &&& is_leaf(node.refs[3], TAIL_BITS as int)
    } else {
        node.refs.len() == 0
    }
}

/// `node` is a branch; the first twig of the special one is special.
pub open spec fn is_branch(node: NodeView, special: bool) -> bool {
    &&& node.bits.len() == NODE_BITS
    &&& node.refs.len() == NODE_REFS
    &&& is_twig(node.refs[0], special)
    &&& is_twig(node.refs[1], false)
    &&& is_twig(node.refs[2], false)
    &&& is_twig(node.refs[3], false)
}

/// `node` is the root of a grid's tree.
pub open spec fn is_dna_tree(node: NodeView) -> bool {
    &&& node.bits.len() == NODE_BITS
    &&& node.refs.len() == NODE_REFS
    &&& is_branch(node.refs[0], true)
    &&& is_branch(node.refs[1], false)
    &&& is_branch(node.refs[2], false)
    &&& is_branch(node.refs[3], false)
}

/// `node` is within the capacity of a node: at most 1023 bits and four
/// children.
pub open spec fn fits_node(node: NodeView) -> bool {
    node.bits.len() <= NODE_BITS && node.refs.len() <= NODE_REFS
}

/// Every node of the tree is within the capacity of a node.
pub open spec fn all_fit(node: NodeView) -> bool
    decreases node,
{
    &&& fits_node(node)
    &&& forall|i: int| 0 <= i < node.refs.len() ==> all_fit(#[trigger] node.refs[i])
}

/// Every node of a grid's tree is within the capacity of a node.
pub proof fn lemma_tree_fits(node: NodeView)
    requires
        is_dna_tree(node),
    ensures
        all_fit(node),
{
    reveal_with_fuel(all_fit, 5);
    assert forall|i: int| 0 <= i < node.refs.len() implies all_fit(#[trigger] node.refs[i]) by {
        let branch = node.refs[i];
        assert forall|j: int| 0 <= j < branch.refs.len() implies all_fit(
            #[trigger] branch.refs[j],
        ) by {
            let twig = branch.refs[j];
            assert forall|k: int| 0 <= k < twig.refs.len() implies all_fit(
                #[trigger] twig.refs[k],
            ) by {
                assert(i == 0 && j == 0);
            }
        }
    }
}

/// The bits that a twig and what hangs below it take.
pub open spec fn twig_span(special: bool) -> int {
    if special {
        NODE_BITS + LEAVES_BITS
    } else {
        NODE_BITS as int
    }
}

/// The bits that a branch and what hangs below it take.
pub open spec fn branch_span(special: bool) -> int {
    NODE_BITS + twig_span(special) + 3 * NODE_BITS
}

/// The leaf that holds `len` bits of `bits` from `start` on.
pub open spec fn leaf_of(bits: Seq<bool>, start: int, len: int) -> NodeView {
    NodeView { bits: bits.subrange(start, start + len), refs: Seq::empty() }
}

/// The twig that holds the bits of `bits` from `start` on.
pub open spec fn twig_of(bits: Seq<bool>, start: int, special: bool) -> NodeView {
    NodeView {
        bits: bits.subrange(start, start + NODE_BITS),
        refs: if special {
            seq![
                leaf_of(bits, start + 1023, NODE_BITS as int),
                leaf_of(bits, start + 2046, NODE_BITS as int),
                leaf_of(bits, start + 3069, NODE_BITS as int),
                leaf_of(bits, start + 4092, TAIL_BITS as int),
            ]
        } else {
            Seq::empty()
        },
    }
}

/// The branch that holds the bits of `bits` from `start` on.
pub open spec fn branch_of(bits: Seq<bool>, start: int, special: bool) -> NodeView {
    let first = start + NODE_BITS;
    let second = first + twig_span(special);
    NodeView {
        bits: bits.subrange(start, start + NODE_BITS),
        refs: seq![
            twig_of(bits, first, special),
            twig_of(bits, second, false),
            twig_of(bits, second + 1023, false),
            twig_of(bits, second + 2046, false),
        ],
    }
}

/// The tree of a grid's bits.
pub open spec fn tree_of(bits: Seq<bool>) -> NodeView {
    let first = NODE_BITS as int;
    let second = first + branch_span(true);
    NodeView {
        bits: bits.subrange(0, NODE_BITS as int),
        refs: seq![
            branch_of(bits, first, true),
            branch_of(bits, second, false),
            branch_of(bits, second + 5115, false),
            branch_of(bits, second + 10230, false),
        ],
    }
}

/// A list of no trees holds nothing.
pub proof fn lemma_forest_none(nodes: Seq<NodeView>)
    requires
        nodes.len() == 0,
    ensures
        forest_bits(nodes) == Seq::<bool>::empty(),
        nodes_count(nodes) == 0,
{
}

/// A list of four trees holds the four trees' payloads in order.
pub proof fn lemma_forest_four(nodes: Seq<NodeView>)
    requires
        nodes.len() == 4,
    ensures
        forest_bits(nodes) == tree_bits(nodes[0]) + tree_bits(nodes[1]) + tree_bits(nodes[2])
            + tree_bits(nodes[3]),
        nodes_count(nodes) == node_count(nodes[0]) + node_count(nodes[1]) + node_count(nodes[2])
            + node_count(nodes[3]),
{
    let three = nodes.drop_last();
    let two = three.drop_last();
    let one = two.drop_last();
    let none = one.drop_last();
    assert(forest_bits(none) == Seq::<bool>::empty());
    assert(forest_bits(one) == forest_bits(none) + tree_bits(one.last()));
    assert(forest_bits(two) == forest_bits(one) + tree_bits(two.last()));
    assert(forest_bits(three) == forest_bits(two) + tree_bits(three.last()));
    assert(forest_bits(nodes) == forest_bits(three) + tree_bits(nodes.last()));
    assert(forest_bits(one) =~= tree_bits(nodes[0]));
    assert(nodes_count(none) == 0);
    assert(nodes_count(one) == nodes_count(none) + node_count(one.last()));
    assert(nodes_count(two) == nodes_count(one) + node_count(two.last()));
    assert(nodes_count(three) == nodes_count(two) + node_count(three.last()));
    assert(nodes_count(nodes) == nodes_count(three) + node_count(nodes.last()));
}

/// A leaf is one node and holds its own payload.
pub proof fn lemma_leaf(node: NodeView, len: int)
    requires
        is_leaf(node, len),
    ensures
        tree_bits(node) == node.bits,
        node_count(node) == 1,
{
    lemma_forest_none(node.refs);
    assert(node.bits + Seq::<bool>::empty() =~= node.bits);
}

/// A twig holds `twig_span` bits: its payload, then its leaves'.
pub proof fn lemma_twig(node: NodeView, special: bool)
    requires
        is_twig(node, special),
    ensures
        tree_bits(node).len() == twig_span(special),
        node_count(node) == if special { 5nat } else { 1nat },
        special ==> tree_bits(node) == node.bits + node.refs[0].bits + node.refs[1].bits
            + node.refs[2].bits + node.refs[3].bits,
        !special ==> tree_bits(node) == node.bits,
{
    if special {
        lemma_forest_four(node.refs);
        lemma_leaf(node.refs[0], NODE_BITS as int);
        lemma_leaf(node.refs[1], NODE_BITS as int);
        lemma_leaf(node.refs[2], NODE_BITS as int);
        lemma_leaf(node.refs[3], TAIL_BITS as int);
        assert(tree_bits(node) =~= node.bits + node.refs[0].bits + node.refs[1].bits
            + node.refs[2].bits + node.refs[3].bits);
    } else {
        lemma_forest_none(node.refs);
        assert(node.bits + Seq::<bool>::empty() =~= node.bits);
    }
}

/// A branch holds `branch_span` bits: its payload, then its twigs'.
pub proof fn lemma_branch(node: NodeView, special: bool)
    requires
        is_branch(node, special),
    ensures
        tree_bits(node).len() == branch_span(special),
        node_count(node) == if special { 9nat } else { 5nat },
        tree_bits(node) == node.bits + tree_bits(node.refs[0]) + tree_bits(node.refs[1])
            + tree_bits(node.refs[2]) + tree_bits(node.refs[3]),
{
    lemma_forest_four(node.refs);
    lemma_twig(node.refs[0], special);
    lemma_twig(node.refs[1], false);
    lemma_twig(node.refs[2], false);
    lemma_twig(node.refs[3], false);
    assert(tree_bits(node) =~= node.bits + tree_bits(node.refs[0]) + tree_bits(node.refs[1])
        + tree_bits(node.refs[2]) + tree_bits(node.refs[3]));
}

/// A grid's tree has 25 nodes and holds 24,576 bits: its payload, then its
/// branches'.
pub proof fn lemma_dna_tree(node: NodeView)
    requires
        is_dna_tree(node),
    ensures
        tree_bits(node).len() == BIT_COUNT,
        node_count(node) == NODE_COUNT,
        tree_bits(node) == node.bits + tree_bits(node.refs[0]) + tree_bits(node.refs[1])
            + tree_bits(node.refs[2]) + tree_bits(node.refs[3]),
{
    lemma_forest_four(node.refs);
    lemma_branch(node.refs[0], true);
    lemma_branch(node.refs[1], false);
    lemma_branch(node.refs[2], false);
    lemma_branch(node.refs[3], false);
    assert(tree_bits(node) =~= node.bits + tree_bits(node.refs[0]) + tree_bits(node.refs[1])
        + tree_bits(node.refs[2]) + tree_bits(node.refs[3]));
}

/// The twig cut from `bits` is a twig and holds the bits it was cut from.
pub proof fn lemma_twig_of(bits: Seq<bool>, start: int, special: bool)
    requires
        0 <= start,
        start + twig_span(special) <= bits.len(),
    ensures
        is_twig(twig_of(bits, start, special), special),
        tree_bits(twig_of(bits, start, special)) == bits.subrange(
            start,
            start + twig_span(special),
        ),
{
    let twig = twig_of(bits, start, special);
    lemma_twig(twig, special);
    assert(tree_bits(twig) =~= bits.subrange(start, start + twig_span(special)));
}

/// The branch cut from `bits` is a branch and holds the bits it was cut
/// from.
pub proof fn lemma_branch_of(bits: Seq<bool>, start: int, special: bool)
    requires
        0 <= start,
        start + branch_span(special) <= bits.len(),
    ensures
        is_branch(branch_of(bits, start, special), special),
        tree_bits(branch_of(bits, start, special)) == bits.subrange(
            start,
            start + branch_span(special),
        ),
{
    let branch = branch_of(bits, start, special);
    let first = start + NODE_BITS;
    let second = first + twig_span(special);
    lemma_twig_of(bits, first, special);
    lemma_twig_of(bits, second, false);
    lemma_twig_of(bits, second + 1023, false);
    lemma_twig_of(bits, second + 2046, false);
    lemma_branch(branch, special);
    assert(tree_bits(branch) =~= bits.subrange(start, start + branch_span(special)));
}

/// Cutting a grid into its tree and reading the tree gives the grid back;
/// the tree always has the grid's shape, 25 nodes and 24,576 bits.
pub proof fn law_tree_round_trip(bits: Seq<bool>)
    requires
        bits.len() == BIT_COUNT,
    ensures
        is_dna_tree(tree_of(bits)),
        tree_bits(tree_of(bits)) == bits,
        node_count(tree_of(bits)) == NODE_COUNT,
        tree_bits(tree_of(bits)).len() == 21 * NODE_BITS + LEAVES_BITS,
{
    let tree = tree_of(bits);
    let first = NODE_BITS as int;
    let second = first + branch_span(true);
    lemma_branch_of(bits, first, true);
    lemma_branch_of(bits, second, false);
    lemma_branch_of(bits, second + 5115, false);
    lemma_branch_of(bits, second + 10230, false);
    lemma_dna_tree(tree);
    assert(tree_bits(tree) =~= bits);
}

/// A tree of the grid's shape has exactly 25 nodes and 24,576 bits, so a
/// tree with another number of either has not that shape.
pub proof fn law_tree_size(node: NodeView)
    requires
        is_dna_tree(node),
    ensures
        node_count(node) == NODE_COUNT,
        tree_bits(node).len() == BIT_COUNT,
{
    lemma_dna_tree(node);
}

/// A tree of the grid's shape is the tree of the bits it holds: no two
/// such trees hold the same grid.
pub proof fn law_tree_unique(node: NodeView)
    requires
        is_dna_tree(node),
    ensures
        tree_of(tree_bits(node)) == node,
{
    let bits = tree_bits(node);
    lemma_dna_tree(node);
    let first = NODE_BITS as int;
    let second = first + branch_span(true);
    lemma_branch(node.refs[0], true);
    lemma_branch(node.refs[1], false);
    lemma_branch(node.refs[2], false);
    lemma_branch(node.refs[3], false);
    assert(bits.subrange(first, first + branch_span(true)) =~= tree_bits(node.refs[0]));
    assert(bits.subrange(second, second + 5115) =~= tree_bits(node.refs[1]));
    assert(bits.subrange(second + 5115, second + 10230) =~= tree_bits(node.refs[2]));
    assert(bits.subrange(second + 10230, second + 15345) =~= tree_bits(node.refs[3]));
    lemma_branch_unique(node.refs[0], true, bits, first);
    lemma_branch_unique(node.refs[1], false, bits, second);
    lemma_branch_unique(node.refs[2], false, bits, second + 5115);
    lemma_branch_unique(node.refs[3], false, bits, second + 10230);
    assert(bits.subrange(0, NODE_BITS as int) =~= node.bits);
    assert(tree_of(bits).refs =~= node.refs);
}

/// A branch whose bits lie in `bits` from `start` on is the branch cut from
/// there.
pub proof fn lemma_branch_unique(node: NodeView, special: bool, bits: Seq<bool>, start: int)
    requires
        is_branch(node, special),
        0 <= start,
        start + branch_span(special) <= bits.len(),
        bits.subrange(start, start + branch_span(special)) == tree_bits(node),
    ensures
        branch_of(bits, start, special) == node,
{
    lemma_branch(node, special);
    let first = start + NODE_BITS;
    let second = first + twig_span(special);
    let whole = bits.subrange(start, start + branch_span(special));
    lemma_twig(node.refs[0], special);
    lemma_twig(node.refs[1], false);
    lemma_twig(node.refs[2], false);
    lemma_twig(node.refs[3], false);
    assert(bits.subrange(first, first + twig_span(special)) =~= tree_bits(node.refs[0])) by {
        assert forall|i: int| 0 <= i < twig_span(special) implies bits[first + i] == tree_bits(
            node.refs[0],
        )[i] by {
            assert(bits[first + i] == whole[NODE_BITS + i]);
        }
    }
    assert(bits.subrange(second, second + 1023) =~= tree_bits(node.refs[1])) by {
        assert forall|i: int| 0 <= i < 1023 implies bits[second + i] == tree_bits(
            node.refs[1],
        )[i] by {
            assert(bits[second + i] == whole[second - start + i]);
        }
    }
    assert(bits.subrange(second + 1023, second + 2046) =~= tree_bits(node.refs[2])) by {
        assert forall|i: int| 0 <= i < 1023 implies bits[second + 1023 + i] == tree_bits(
            node.refs[2],
        )[i] by {
            assert(bits[second + 1023 + i] == whole[second + 1023 - start + i]);
        }
    }
    assert(bits.subrange(second + 2046, second + 3069) =~= tree_bits(node.refs[3])) by {
        assert forall|i: int| 0 <= i < 1023 implies bits[second + 2046 + i] == tree_bits(
            node.refs[3],
        )[i] by {
            assert(bits[second + 2046 + i] == whole[second + 2046 - start + i]);
        }
    }
    lemma_twig_unique(node.refs[0], special, bits, first);
    lemma_twig_unique(node.refs[1], false, bits, second);
    lemma_twig_unique(node.refs[2], false, bits, second + 1023);
    lemma_twig_unique(node.refs[3], false, bits, second + 2046);
    assert(bits.subrange(start, start + NODE_BITS) =~= node.bits) by {
        assert forall|i: int| 0 <= i < NODE_BITS implies bits[start + i] == node.bits[i] by {
            assert(bits[start + i] == whole[i]);
        }
    }
    assert(branch_of(bits, start, special).refs =~= node.refs);
}

/// A twig whose bits lie in `bits` from `start` on is the twig cut from
/// there.
pub proof fn lemma_twig_unique(node: NodeView, special: bool, bits: Seq<bool>, start: int)
    requires
        is_twig(node, special),
        0 <= start,
        start + twig_span(special) <= bits.len(),
        bits.subrange(start, start + twig_span(special)) == tree_bits(node),
    ensures
        twig_of(bits, start, special) == node,
{
    lemma_twig(node, special);
    let whole = bits.subrange(start, start + twig_span(special));
    assert(bits.subrange(start, start + NODE_BITS) =~= node.bits) by {
        assert forall|i: int| 0 <= i < NODE_BITS implies bits[start + i] == node.bits[i] by {
            assert(bits[start + i] == whole[i]);
        }
    }
    if special {
        assert forall|k: int| 0 <= k < 4 implies (#[trigger] twig_of(bits, start, special).refs[k])
            == node.refs[k] by {
            let len = if k == 3 { TAIL_BITS as int } else { NODE_BITS as int };
            let from = start + 1023 * (k + 1);
            assert(node.refs[k].refs =~= Seq::<NodeView>::empty());
            assert(bits.subrange(from, from + len) =~= node.refs[k].bits) by {
                assert forall|i: int| 0 <= i < len implies bits[from + i] == node.refs[k].bits[i] by {
                    assert(bits[from + i] == whole[from - start + i]);
                }
            }
        }
        assert(twig_of(bits, start, special).refs =~= node.refs);
    } else {
        assert(twig_of(bits, start, special).refs =~= node.refs);
    }
}

/// The view of a list of nodes holds the view of each node.
pub proof fn lemma_nodes_view(nodes: Seq<StorageNode>)
    ensures
        nodes_view(nodes).len() == nodes.len(),
        forall|i: int| 0 <= i < nodes.len() ==> nodes_view(nodes)[i] == (#[trigger] nodes[i])@,
    decreases nodes.len(),
{
    if nodes.len() > 0 {
        lemma_nodes_view(nodes.drop_last());
        assert(nodes_view(nodes) == nodes_view(nodes.drop_last()).push(nodes.last()@));
        assert forall|i: int| 0 <= i < nodes.len() implies nodes_view(nodes)[i] == (
        #[trigger] nodes[i])@ by {
            if i < nodes.len() - 1 {
                assert(nodes.drop_last()[i] == nodes[i]);
            }
        }
    } else {
        assert(nodes_view(nodes) == Seq::<NodeView>::empty());
    }
}

/// The view of a node is made of the views of its fields.
pub proof fn lemma_node_view(node: &StorageNode)
    ensures
        node@.bits == node.bits@,
        node@.refs.len() == node.refs@.len(),
        forall|i: int| 0 <= i < node.refs@.len() ==> node@.refs[i] == (#[trigger] node.refs@[i])@,
{
    lemma_nodes_view(node.refs@);
}

/// Copies `len` bits of `bits` from `start` on.
fn slice_bits(bits: &Vec<bool>, start: usize, len: usize) -> (out: Vec<bool>)
    requires
        start + len <= bits.len(),
    ensures
        out@ == bits@.subrange(start as int, start + len),
{
    let mut out: Vec<bool> = Vec::new();
    let mut done: usize = 0;
    while done < len
        invariant
            done <= len,
            start + len <= bits.len(),
            out@ == bits@.subrange(start as int, start + done),
        decreases len - done,
    {
        out.push(bits[start + done]);
        done += 1;
        assert(out@ =~= bits@.subrange(start as int, start + done));
    }
    out
}

/// Appends the bits of `more` to `out`.
fn append_bits(out: &mut Vec<bool>, more: &Vec<bool>)
    ensures
        final(out)@ == old(out)@ + more@,
{
    let ghost before = out@;
    let mut done: usize = 0;
    while done < more.len()
        invariant
            done <= more.len(),
            out@ == before + more@.take(done as int),
        decreases more.len() - done,
    {
        out.push(more[done]);
        done += 1;
        assert(out@ =~= before + more@.take(done as int));
    }
    assert(more@.take(done as int) =~= more@);
}

/// Cuts the leaf of `len` bits that begins at `start`.
fn build_leaf(bits: &Vec<bool>, start: usize, len: usize) -> (node: StorageNode)
    requires
        start + len <= bits.len(),
    ensures
        node@ == leaf_of(bits@, start as int, len as int),
{
    let node = StorageNode { bits: slice_bits(bits, start, len), refs: Vec::new() };
    proof {
        lemma_node_view(&node);
        assert(node@.refs =~= Seq::<NodeView>::empty());
    }
    node
}

/// Cuts the twig that begins at `start`, with its leaves if it is the
/// special one, and returns it with the position after it.
fn build_twig(bits: &Vec<bool>, start: usize, special: bool) -> (out: (StorageNode, usize))
    requires
        start + twig_span(special) <= bits.len(),
    ensures
        out.0@ == twig_of(bits@, start as int, special),
        out.1 == start + twig_span(special),
{
    let payload = slice_bits(bits, start, NODE_BITS);
    let mut refs: Vec<StorageNode> = Vec::new();
    let mut next: usize = start + NODE_BITS;
    if special {
        refs.push(build_leaf(bits, next, NODE_BITS));
        refs.push(build_leaf(bits, next + 1023, NODE_BITS));
        refs.push(build_leaf(bits, next + 2046, NODE_BITS));
        refs.push(build_leaf(bits, next + 3069, TAIL_BITS));
        next = next + LEAVES_BITS;
    }
    let node = StorageNode { bits: payload, refs };
    proof {
        lemma_node_view(&node);
        if special {
            assert(node.refs@[0]@ == leaf_of(bits@, start + 1023, NODE_BITS as int));
            assert(node.refs@[1]@ == leaf_of(bits@, start + 2046, NODE_BITS as int));
            assert(node.refs@[2]@ == leaf_of(bits@, start + 3069, NODE_BITS as int));
            assert(node.refs@[3]@ == leaf_of(bits@, start + 4092, TAIL_BITS as int));
        }
        assert(node@.refs =~= twig_of(bits@, start as int, special).refs);
    }
    (node, next)
}

/// Cuts the branch that begins at `start` and returns it with the position
/// after it; only the first twig of the special branch is special.
fn build_branch(bits: &Vec<bool>, start: usize, special: bool) -> (out: (StorageNode, usize))
    requires
        start + branch_span(special) <= bits.len(),
    ensures
        out.0@ == branch_of(bits@, start as int, special),
        out.1 == start + branch_span(special),
{
    let payload = slice_bits(bits, start, NODE_BITS);
    let mut refs: Vec<StorageNode> = Vec::new();
    let (first, next) = build_twig(bits, start + NODE_BITS, special);
    refs.push(first);
    let (second, next) = build_twig(bits, next, false);
    refs.push(second);
    let (third, next) = build_twig(bits, next, false);
    refs.push(third);
    let (fourth, next) = build_twig(bits, next, false);
    refs.push(fourth);
    let node = StorageNode { bits: payload, refs };
    proof {
        lemma_node_view(&node);
        let at = start + NODE_BITS + twig_span(special);
        assert(node.refs@[0]@ == twig_of(bits@, start + NODE_BITS, special));
        assert(node.refs@[1]@ == twig_of(bits@, at, false));
        assert(node.refs@[2]@ == twig_of(bits@, at + 1023, false));
        assert(node.refs@[3]@ == twig_of(bits@, at + 2046, false));
        assert(node@.refs =~= branch_of(bits@, start as int, special).refs);
    }
    (node, next)
}

/// Cuts the grid into its tree: the bits are handed out in order, each node
/// taking its payload before its children take theirs.
///
/// The tree has the grid's shape and reads back as the grid: see
/// [`law_tree_round_trip`].
pub fn serialize(dna: &Dna) -> (node: StorageNode)
    ensures
        node@ == tree_of(dna@),
        is_dna_tree(node@),
        all_fit(node@),
        tree_bits(node@) == dna@,
{
    let bits = dna.bits();
    let payload = slice_bits(bits, 0, NODE_BITS);
    let mut refs: Vec<StorageNode> = Vec::new();
    let (first, next) = build_branch(bits, NODE_BITS, true);
    refs.push(first);
    let (second, next) = build_branch(bits, next, false);
    refs.push(second);
    let (third, next) = build_branch(bits, next, false);
    refs.push(third);
    let (fourth, next) = build_branch(bits, next, false);
    refs.push(fourth);
    let node = StorageNode { bits: payload, refs };
    proof {
        lemma_node_view(&node);
        let at = NODE_BITS + branch_span(true);
        assert(node.refs@[0]@ == branch_of(bits@, NODE_BITS as int, true));
        assert(node.refs@[1]@ == branch_of(bits@, at, false));
        assert(node.refs@[2]@ == branch_of(bits@, at + 5115, false));
        assert(node.refs@[3]@ == branch_of(bits@, at + 10230, false));
        assert(node@.refs =~= tree_of(bits@).refs);
        law_tree_round_trip(bits@);
        lemma_tree_fits(node@);
    }
    node
}

/// Appends the payload of `node` to `out` if `node` is a leaf of `len` bits.
fn read_leaf(node: &StorageNode, len: usize, out: &mut Vec<bool>) -> (ok: bool)
    ensures
        ok == is_leaf(node@, len as int),
        ok ==> final(out)@ == old(out)@ + tree_bits(node@),
{
    proof {
        lemma_node_view(node);
    }
    if node.bits.len() != len || node.refs.len() != 0 {
        return false;
    }
    proof {
        lemma_leaf(node@, len as int);
    }
    append_bits(out, &node.bits);
    true
}

/// Appends the payloads of `node` and of its leaves to `out` if `node` is a
/// twig.
fn read_twig(node: &StorageNode, special: bool, out: &mut Vec<bool>) -> (ok: bool)
    ensures
        ok == is_twig(node@, special),
        ok ==> final(out)@ == old(out)@ + tree_bits(node@),
{
    let expected: usize = if special { NODE_REFS } else { 0 };
    proof {
        lemma_node_view(node);
    }
    if node.bits.len() != NODE_BITS || node.refs.len() != expected {
        return false;
    }
    let ghost before = out@;
    append_bits(out, &node.bits);
    if special {
        if !read_leaf(&node.refs[0], NODE_BITS, out) {
            return false;
        }
        if !read_leaf(&node.refs[1], NODE_BITS, out) {
            return false;
        }
        if !read_leaf(&node.refs[2], NODE_BITS, out) {
            return false;
        }
        if !read_leaf(&node.refs[3], TAIL_BITS, out) {
            return false;
        }
        proof {
            lemma_twig(node@, special);
            lemma_leaf(node@.refs[0], NODE_BITS as int);
            lemma_leaf(node@.refs[1], NODE_BITS as int);
            lemma_leaf(node@.refs[2], NODE_BITS as int);
            lemma_leaf(node@.refs[3], TAIL_BITS as int);
            assert(out@ =~= before + tree_bits(node@));
        }
    } else {
        proof {
            lemma_twig(node@, special);
        }
    }
    true
}

/// Appends the payloads of `node` and of what hangs below it to `out` if
/// `node` is a branch.
fn read_branch(node: &StorageNode, special: bool, out: &mut Vec<bool>) -> (ok: bool)
    ensures
        ok == is_branch(node@, special),
        ok ==> final(out)@ == old(out)@ + tree_bits(node@),
{
    proof {
        lemma_node_view(node);
    }
    if node.bits.len() != NODE_BITS || node.refs.len() != NODE_REFS {
        return false;
    }
    let ghost before = out@;
    append_bits(out, &node.bits);
    if !read_twig(&node.refs[0], special, out) {
        return false;
    }
    if !read_twig(&node.refs[1], false, out) {
        return false;
    }
    if !read_twig(&node.refs[2], false, out) {
        return false;
    }
    if !read_twig(&node.refs[3], false, out) {
        return false;
    }
    proof {
        lemma_branch(node@, special);
        assert(out@ =~= before + tree_bits(node@));
    }
    true
}

/// Reads a grid from its tree, walking the tree in the order in which
/// [`serialize`] fills it.
///
/// Fails with `MalformedTree` exactly when the tree has not the grid's
/// shape: when some node has another number of bits or of children than its
/// position asks for.
pub fn deserialize(node: &StorageNode) -> (dna: Result<Dna, DnaError>)
    ensures
        dna.is_ok() <==> is_dna_tree(node@),
        dna matches Ok(d) ==> d@ == tree_bits(node@),
        dna matches Err(e) ==> e == DnaError::MalformedTree,
{
    proof {
        lemma_node_view(node);
    }
    if node.bits.len() != NODE_BITS || node.refs.len() != NODE_REFS {
        return Err(DnaError::MalformedTree);
    }
    let mut bits: Vec<bool> = Vec::new();
    append_bits(&mut bits, &node.bits);
    if !read_branch(&node.refs[0], true, &mut bits) {
        return Err(DnaError::MalformedTree);
    }
    if !read_branch(&node.refs[1], false, &mut bits) {
        return Err(DnaError::MalformedTree);
    }
    if !read_branch(&node.refs[2], false, &mut bits) {
        return Err(DnaError::MalformedTree);
    }
    if !read_branch(&node.refs[3], false, &mut bits) {
        return Err(DnaError::MalformedTree);
    }
    proof {
        lemma_dna_tree(node@);
        assert(bits@ =~= tree_bits(node@));
    }
    match Dna::from_bits(bits) {
        Some(dna) => Ok(dna),
        None => Err(DnaError::MalformedTree),
    }
}

/// Whether two bit vectors hold the same bits.
fn same_bits(a: &Vec<bool>, b: &Vec<bool>) -> (same: bool)
    ensures
        same == (a@ == b@),
{
    if a.len() != b.len() {
        return false;
    }
    let mut i: usize = 0;
    while i < a.len()
        invariant
            i <= a@.len(),
            a@.len() == b@.len(),
            forall|k: int| 0 <= k < i ==> a@[k] == b@[k],
        decreases a.len() - i,
    {
        if a[i] != b[i] {
            return false;
        }
        i += 1;
    }
    assert(a@ =~= b@);
    true
}

/// Whether two trees hold the same: the same payload in every node and the
/// same shape.
pub fn same_tree(a: &StorageNode, b: &StorageNode) -> (same: bool)
    ensures
        same == (a@ == b@),
    decreases a,
{
    proof {
        lemma_node_view(a);
        lemma_node_view(b);
    }
    if !same_bits(&a.bits, &b.bits) || a.refs.len() != b.refs.len() {
        return false;
    }
    let mut i: usize = 0;
    while i < a.refs.len()
        invariant
            i <= a.refs@.len(),
            a.refs@.len() == b.refs@.len(),
            a@.refs.len() == a.refs@.len(),
            b@.refs.len() == b.refs@.len(),
            forall|k: int| 0 <= k < a.refs@.len() ==> a@.refs[k] == (#[trigger] a.refs@[k])@,
            forall|k: int| 0 <= k < b.refs@.len() ==> b@.refs[k] == (#[trigger] b.refs@[k])@,
            forall|k: int| 0 <= k < i ==> a@.refs[k] == b@.refs[k],
        decreases a.refs.len() - i,
    {
        if !same_tree(&a.refs[i], &b.refs[i]) {
            proof {
                assert(a@.refs[i as int] == a.refs@[i as int]@);
                assert(b@.refs[i as int] == b.refs@[i as int]@);
            }
            return false;
        }
        proof {
            assert(a@.refs[i as int] == a.refs@[i as int]@);
            assert(b@.refs[i as int] == b.refs@[i as int]@);
        }
        i += 1;
    }
    proof {
        assert(a@.refs =~= b@.refs);
        assert(a@.bits =~= b@.bits);
    }
    true
}

} // verus!
