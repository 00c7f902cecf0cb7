//! The commitment tree: a perfect binary tree over small-ring leaves whose
//! internal nodes combine their two children.
use vstd::prelude::*;
use crate::param::{N, HEIGHT};
use crate::arith::{bit, shr, pow2, lemma_pow2_mono, lemma_shr_split, lemma_shr_add_pow2, lemma_shr_bound, lemma_bit_add_pow2};
use crate::poly::SmallPoly;
use crate::hvc_hash::HVCHash;
use crate::path::{Path, combine, on_path, path_valid};

verus! {

/// Position in level order of the ancestor, `t` levels up, of leaf `i` in
/// a tree with `leaves` leaves (`t = 0` is the leaf itself).
pub open spec fn ancestor(i: int, leaves: int, t: nat) -> int {
    shr(i + leaves, t) - 1
}

/// The opening of leaf `index`: pair `j` (from the top) holds the two
/// children of the ancestor `height - 1 - j` levels above the leaf.
pub open spec fn proof_nodes(t: Tree, index: int) -> Seq<(SmallPoly, SmallPoly)> {
    Seq::new(
        (t.height - 1) as nat,
        |j: int| {
            let p = ancestor(index, t.leaf_nodes@.len() as int, (t.height - 1 - j) as nat);
            (t.node(2 * p + 1), t.node(2 * p + 2))
        },
    )
}

/// A tree stored in level order: `non_leaf_nodes[0]` is the root, the
/// children of node `k` are nodes `2k + 1` and `2k + 2`, and the leaves
/// follow the internal nodes.
#[derive(Debug, Clone)]
pub struct Tree {
    pub non_leaf_nodes: Vec<SmallPoly>,
    pub leaf_nodes: Vec<SmallPoly>,
    pub height: usize,
}

impl Tree {
    /// Node `k` of the whole tree in level order.
    pub open spec fn node(&self, k: int) -> SmallPoly {
        if k < self.non_leaf_nodes@.len() {
            self.non_leaf_nodes@[k]
        } else {
            self.leaf_nodes@[k - self.non_leaf_nodes@.len()]
        }
    }

    /// The shape of a tree of height `height`: `2^(height-1)` leaves.
    pub open spec fn shaped(&self) -> bool {
        &&& 2 <= self.height <= 31
        &&& self.leaf_nodes@.len() == pow2((self.height - 1) as nat)
        &&& self.non_leaf_nodes@.len() == self.leaf_nodes@.len() - 1
    }

    /// Every internal node combines its two children.
    pub open spec fn wf(&self, hasher: &HVCHash) -> bool {
        &&& self.shaped()
        &&& forall|k: int| 0 <= k < self.non_leaf_nodes@.len() ==>
            (#[trigger] self.non_leaf_nodes@[k]).vals() == combine(hasher.param_h@, self.node(2 * k + 1), self.node(2 * k + 2))
        &&& forall|k: int| 0 <= k < self.non_leaf_nodes@.len() ==> (#[trigger] self.non_leaf_nodes@[k]).wf()
    }

    /// Whether the tree has the shape of a tree of its height.
    pub fn is_shaped(&self) -> (r: bool)
        ensures
            r == self.shaped(),
    {
        if self.height < 2 || self.height > 31 {
            return false;
        }
        let e = self.height - 1;
        proof {
            crate::smsig::lemma_shl_pow2(e);
            lemma_pow2_mono(0, e as nat);
        }
        let count: usize = 1usize << e;
        self.leaf_nodes.len() == count && self.non_leaf_nodes.len() == count - 1
    }

    fn node_at(&self, k: usize) -> (r: SmallPoly)
        requires
            self.non_leaf_nodes@.len() + self.leaf_nodes@.len() > k,
        ensures
            r == self.node(k as int),
    {
        if k < self.non_leaf_nodes.len() {
            self.non_leaf_nodes[k]
        } else {
            self.leaf_nodes[k - self.non_leaf_nodes.len()]
        }
    }

    /// A tree of height `HEIGHT` whose leaves are all zero.
    pub fn init(hasher: &HVCHash) -> (r: Self)
        requires
            hasher.wf(),
        ensures
            r.wf(hasher),
            r.height == HEIGHT,
            forall|i: int, j: int| 0 <= i < r.leaf_nodes@.len() && 0 <= j < N ==> (#[trigger] r.leaf_nodes@[i].coeffs@[j]) == 0,
    {
        let leaf_nodes: Vec<SmallPoly> = vec![SmallPoly { coeffs: [0u16; N] }; 1usize << (HEIGHT - 1)];
        proof {
            assert(1usize << 20 == 0x10_0000) by (bit_vector);
            reveal_with_fuel(pow2, 21);
            assert(leaf_nodes@.len() == pow2(20));
        }
        Self::new_with_leaf_nodes(leaf_nodes.as_slice(), hasher)
    }

    /// Builds the tree over `leaf_nodes`, whose number is `2^e` for some
    /// `e` between 1 and 30 (the height is `e + 1`); each internal node is computed from
    /// its children, from the last one up to the root.
    pub fn new_with_leaf_nodes(leaf_nodes: &[SmallPoly], hasher: &HVCHash) -> (r: Self)
        requires
            hasher.wf(),
            exists|e: nat| 1 <= e <= 30 && leaf_nodes@.len() == #[trigger] pow2(e),
        ensures
            r.wf(hasher),
            r.leaf_nodes@ == leaf_nodes@,
            leaf_nodes@.len() == pow2((r.height - 1) as nat),
    {
        let len = leaf_nodes.len();
        let ghost e: nat = choose|e: nat| 1 <= e <= 30 && leaf_nodes@.len() == #[trigger] pow2(e);
        let ghost hh: nat = e + 1;
        // the height: one more than the number of halvings down to one leaf
        let mut height: usize = 1;
        let mut m: usize = len;
        proof {
            lemma_pow2_mono((hh - 1) as nat, 30);
            reveal_with_fuel(pow2, 31);
        }
        while m > 1
            invariant
                1 <= height <= hh,
                m as int == pow2((hh - height) as nat),
                len == leaf_nodes@.len(),
                len == pow2((hh - 1) as nat),
                2 <= hh <= 31,
            decreases m,
        {
            proof {
                if height == hh {
                    assert(m == 1);
                }
                lemma_pow2_mono(0, (hh - height - 1) as nat);
            }
            m = m / 2;
            height = height + 1;
        }
        proof {
            if height < hh {
                lemma_pow2_mono(1, (hh - height) as nat);
            }
        }
        let mut leaves: Vec<SmallPoly> = Vec::new();
        let mut i: usize = 0;
        while i < len
            invariant
                i <= len,
                len == leaf_nodes@.len(),
                leaves@ == leaf_nodes@.take(i as int),
            decreases len - i,
        {
            leaves.push(leaf_nodes[i]);
            i = i + 1;
            assert(leaves@ =~= leaf_nodes@.take(i as int));
        }
        assert(leaves@ =~= leaf_nodes@);
        let mut tree = Tree {
            non_leaf_nodes: vec![SmallPoly { coeffs: [0u16; N] }; len - 1],
            leaf_nodes: leaves,
            height,
        };
        let mut k: usize = len - 1;
        while k > 0
            invariant
                k <= len - 1,
                tree.shaped(),
                tree.height == height,
                tree.leaf_nodes@ == leaf_nodes@,
                tree.non_leaf_nodes@.len() == len - 1,
                len == leaf_nodes@.len(),
                len >= 2,
                len <= 0x4000_0000,
                hasher.wf(),
                forall|j: int| k <= j < len - 1 ==>
                    (#[trigger] tree.non_leaf_nodes@[j]).vals() == combine(hasher.param_h@, tree.node(2 * j + 1), tree.node(2 * j + 2)),
                forall|j: int| k <= j < len - 1 ==> (#[trigger] tree.non_leaf_nodes@[j]).wf(),
            decreases k,
        {
            let left = tree.node_at(2 * (k - 1) + 1);
            let right = tree.node_at(2 * (k - 1) + 2);
            let v = hasher.decom_then_hash(&left, &right);
            let ghost before = tree;
            tree.non_leaf_nodes.set(k - 1, v);
            proof {
                assert forall|j: int| 2 * (k - 1) + 1 <= j < 2 * len - 1 implies #[trigger] tree.node(j) == before.node(j) by {}
                assert forall|j: int| k - 1 <= j < len - 1 implies
                    (#[trigger] tree.non_leaf_nodes@[j]).vals() == combine(hasher.param_h@, tree.node(2 * j + 1), tree.node(2 * j + 2)) by {
                    assert(tree.node(2 * j + 1) == before.node(2 * j + 1));
                    assert(tree.node(2 * j + 2) == before.node(2 * j + 2));
                }
            }
            k = k - 1;
        }
        tree
    }

    /// The root of the tree.
    pub fn root(&self) -> (r: SmallPoly)
        requires
            self.shaped(),
        ensures
            r == self.non_leaf_nodes@[0],
    {
        proof {
            lemma_pow2_mono(1, (self.height - 1) as nat);
        }
        self.non_leaf_nodes[0]
    }

    /// The opening of leaf `index`: the sibling pairs on its path, from the
    /// top of the tree down to the leaves.
    pub fn gen_proof(&self, index: usize) -> (r: Path)
        requires
            self.shaped(),
            index < self.leaf_nodes@.len(),
        ensures
            r.index == index,
            r.nodes@ == proof_nodes(*self, index as int),
    {
        let ghost leaves = self.leaf_nodes@.len() as int;
        let ghost m = (self.height - 1) as nat;
        let len = self.height - 1;
        let mut nodes: Vec<(SmallPoly, SmallPoly)> = vec![(SmallPoly { coeffs: [0u16; N] }, SmallPoly { coeffs: [0u16; N] }); len];
        proof {
            lemma_pow2_mono(m, 30);
            reveal_with_fuel(pow2, 31);
            lemma_shr_add_pow2(index as int, m, 0);
        }
        let mut cur: usize = convert_index_to_last_level(index, self.leaf_nodes.len());
        let mut t: usize = 0;
        while t < len
            invariant
                t <= len,
                len == self.height - 1,
                m == len,
                self.shaped(),
                leaves == self.leaf_nodes@.len(),
                leaves == pow2(m),
                leaves <= 0x4000_0000,
                index < leaves,
                nodes@.len() == len,
                cur as int == ancestor(index as int, leaves, t as nat),
                forall|j: int| len - t <= j < len ==> (#[trigger] nodes@[j]) == proof_nodes(*self, index as int)[j],
            decreases len - t,
        {
            proof {
                lemma_shr_split(index as int + leaves, t as nat);
                lemma_shr_add_pow2(index as int, m, (t + 1) as nat);
                lemma_shr_bound(index as int, m, (t + 1) as nat);
                lemma_pow2_mono((m - t - 1) as nat, m);
                lemma_shr_add_pow2(index as int, m, t as nat);
                lemma_shr_bound(index as int, m, t as nat);
                lemma_pow2_mono((m - t) as nat, m);
            }
            let p = parent_index(cur);
            let pair = (self.node_at(left_child_index(p)), self.node_at(right_child_index(p)));
            nodes.set(len - 1 - t, pair);
            cur = p;
            t = t + 1;
        }
        Path { nodes, index }
    }
}

/// The parent of a non-root node.
fn parent_index(index: usize) -> (r: usize)
    requires
        index > 0,
    ensures
        r == (index - 1) / 2,
{
    (index - 1) / 2
}

/// The left child of a node.
fn left_child_index(index: usize) -> (r: usize)
    requires
        index < 0x4000_0000,
    ensures
        r == 2 * index + 1,
{
    2 * index + 1
}

/// The right child of a node.
fn right_child_index(index: usize) -> (r: usize)
    requires
        index < 0x4000_0000,
    ensures
        r == 2 * index + 2,
{
    2 * index + 2
}

/// The position in level order of leaf `index` in a tree with `leaves`
/// leaves.
fn convert_index_to_last_level(index: usize, leaves: usize) -> (r: usize)
    requires
        index < leaves,
        leaves <= 0x4000_0000,
    ensures
        r == index + leaves - 1,
{
    index + leaves - 1
}

/// Every opening that a well-formed tree gives verifies against its root.
pub proof fn lemma_tree_proofs_verify(t: Tree, hasher: HVCHash, index: int)
    requires
        t.wf(&hasher),
        0 <= index < t.leaf_nodes@.len(),
    ensures
        path_valid(hasher.param_h@, proof_nodes(t, index), index, t.non_leaf_nodes@[0].vals()),
{
    let h = hasher.param_h@;
    let nodes = proof_nodes(t, index);
    lemma_tree_top(t, hasher, index);
    assert forall|j: int| 1 <= j < nodes.len() implies
        #[trigger] combine(h, nodes[j].0, nodes[j].1) == on_path(nodes[j - 1], bit(index, (nodes.len() - j) as nat) == 1).vals() by {
        lemma_tree_level(t, hasher, index, j);
    }
}

/// Every pair of an opening holds the two children of an internal node;
/// in the bottom pair, the element that bit 0 of the index chooses is the
/// leaf itself.
pub proof fn lemma_proof_nodes_shape(t: Tree, index: int, j: int)
    requires
        t.shaped(),
        0 <= index < t.leaf_nodes@.len(),
        0 <= j < t.height - 1,
    ensures
        0 <= ancestor(index, t.leaf_nodes@.len() as int, (t.height - 1 - j) as nat) < t.non_leaf_nodes@.len(),
        proof_nodes(t, index)[j] == ({
            let p = ancestor(index, t.leaf_nodes@.len() as int, (t.height - 1 - j) as nat);
            (t.node(2 * p + 1), t.node(2 * p + 2))
        }),
        j == t.height - 2 ==> on_path(proof_nodes(t, index)[j], bit(index, 0) == 1) == t.leaf_nodes@[index],
{
    let leaves = t.leaf_nodes@.len() as int;
    let m = (t.height - 1) as nat;
    let s = (m - j) as nat;
    let p = ancestor(index, leaves, s);
    lemma_shr_add_pow2(index, m, s);
    lemma_shr_bound(index, m, s);
    lemma_pow2_mono((m - s + 1) as nat, m);
    lemma_pow2_mono(0, (m - s) as nat);
    assert(pow2((m - s + 1) as nat) == 2 * pow2((m - s) as nat));
    if j == t.height - 2 {
        lemma_shr_split(index + leaves, 0);
        lemma_bit_add_pow2(index, m, 0);
        assert(shr(index + leaves, 0) == index + leaves);
        assert(index + leaves - 1 == 2 * p + 1 + bit(index, 0));
        assert(t.node(index + leaves - 1) == t.leaf_nodes@[index]);
    }
}

proof fn lemma_tree_top(t: Tree, hasher: HVCHash, index: int)
    requires
        t.wf(&hasher),
        0 <= index < t.leaf_nodes@.len(),
    ensures
        proof_nodes(t, index).len() >= 1,
        combine(hasher.param_h@, proof_nodes(t, index)[0].0, proof_nodes(t, index)[0].1) == t.non_leaf_nodes@[0].vals(),
{
    let leaves = t.leaf_nodes@.len() as int;
    let m = (t.height - 1) as nat;
    let nodes = proof_nodes(t, index);
    lemma_pow2_mono(1, m);
    lemma_shr_add_pow2(index, m, m);
    lemma_shr_bound(index, m, m);
    assert(pow2(0) == 1);
    assert(ancestor(index, leaves, m) == 0);
    assert(nodes[0] == (t.node(1), t.node(2)));
}

proof fn lemma_tree_level(t: Tree, hasher: HVCHash, index: int, j: int)
    requires
        t.wf(&hasher),
        0 <= index < t.leaf_nodes@.len(),
        1 <= j < t.height - 1,
    ensures
        ({
            let nodes = proof_nodes(t, index);
            combine(hasher.param_h@, nodes[j].0, nodes[j].1) == on_path(nodes[j - 1], bit(index, (nodes.len() - j) as nat) == 1).vals()
        }),
{
    let leaves = t.leaf_nodes@.len() as int;
    let m = (t.height - 1) as nat;
    let nodes = proof_nodes(t, index);
    let s = (m - j) as nat;
    let p = ancestor(index, leaves, s);
    let pp = ancestor(index, leaves, s + 1);
    lemma_shr_split(index + leaves, s);
    lemma_bit_add_pow2(index, m, s);
    lemma_shr_add_pow2(index, m, s);
    lemma_shr_bound(index, m, s);
    lemma_pow2_mono((m - s + 1) as nat, m);
    lemma_pow2_mono(1, (m - s) as nat);
    assert(pow2((m - s + 1) as nat) == 2 * pow2((m - s) as nat));
    assert(s + 1 == m - (j - 1));
    assert(nodes[j] == (t.node(2 * p + 1), t.node(2 * p + 2)));
    assert(nodes[j - 1] == (t.node(2 * pp + 1), t.node(2 * pp + 2)));
    assert(0 <= p < t.non_leaf_nodes@.len());
    assert(t.node(p) == t.non_leaf_nodes@[p]);
    if bit(index, s) == 1 {
        assert(p == 2 * pp + 2);
    } else {
        assert(p == 2 * pp + 1);
    }
}

} // verus!
