//! Openings of the commitment tree: the sibling pairs from the root down to
//! a leaf.
use vstd::prelude::*;
use crate::primitives::ChaChaStream;
use crate::param::{HEIGHT, SMALL_MODULUS_BITS};
use crate::arith::{bit, index_bits};
use crate::poly::{SmallPoly, SmallNTTPoly};
use crate::hvc_hash::{HVCHash, hash_spec, bit_rows};

verus! {

/// The commitment-tree combiner on two nodes: the hash of their
/// decompositions.
pub open spec fn combine(h: Seq<SmallNTTPoly>, a: SmallPoly, b: SmallPoly) -> Seq<int> {
    hash_spec(h, bit_rows(a.vals(), SMALL_MODULUS_BITS as nat) + bit_rows(b.vals(), SMALL_MODULUS_BITS as nat))
}

/// The element of a pair that lies on the path: the right one or the left.
pub open spec fn on_path<T>(pair: (T, T), right: bool) -> T {
    if right {
        pair.1
    } else {
        pair.0
    }
}

/// An opening is valid for `root`: the top pair combines to the root, and
/// each lower pair combines to the on-path element of the pair above,
/// chosen by the bit of `index` at that depth (the top pair of an opening
/// of length `n` uses bit `n - 1` for the pair below it).
pub open spec fn path_valid(h: Seq<SmallNTTPoly>, nodes: Seq<(SmallPoly, SmallPoly)>, index: int, root: Seq<int>) -> bool {
    &&& nodes.len() >= 1
    &&& combine(h, nodes[0].0, nodes[0].1) == root
    &&& forall|i: int| 1 <= i < nodes.len() ==>
        #[trigger] combine(h, nodes[i].0, nodes[i].1) == on_path(nodes[i - 1], bit(index, (nodes.len() - i) as nat) == 1).vals()
}

/// A membership proof: sibling pairs `(left, right)` from the top of the
/// tree down to the leaves, and the leaf index.
#[derive(Debug, Clone, PartialEq)]
pub struct Path {
    pub nodes: Vec<(SmallPoly, SmallPoly)>,
    pub index: usize,
}

impl Path {
    /// Checks the opening against `root`.
    pub fn verify(&self, root: &SmallPoly, hasher: &HVCHash) -> (r: bool)
        requires
            hasher.wf(),
        ensures
            r == path_valid(hasher.param_h@, self.nodes@, self.index as int, root.vals()),
    {
        let len = self.nodes.len();
        if len == 0 {
            return false;
        }
        let top = hasher.decom_then_hash(&self.nodes[0].0, &self.nodes[0].1);
        if !top.equals(root) {
            return false;
        }
        let bits = index_bits(self.index, len);
        let mut i: usize = 1;
        while i < len
            invariant
                1 <= i <= len,
                len == self.nodes@.len(),
                hasher.wf(),
                bits@.len() == len,
                forall|k: int| 0 <= k < len ==> (#[trigger] bits@[k]) == (bit(self.index as int, k as nat) == 1),
                forall|k: int| 1 <= k < i ==>
                    #[trigger] combine(hasher.param_h@, self.nodes@[k].0, self.nodes@[k].1)
                        == on_path(self.nodes@[k - 1], bit(self.index as int, (len - k) as nat) == 1).vals(),
            decreases len - i,
        {
            let digest = hasher.decom_then_hash(&self.nodes[i].0, &self.nodes[i].1);
            let expected = if bits[len - i] {
                &self.nodes[i - 1].1
            } else {
                &self.nodes[i - 1].0
            };
            if !digest.equals(expected) {
                assert(combine(hasher.param_h@, self.nodes@[i as int].0, self.nodes@[i as int].1)
                    != on_path(self.nodes@[i - 1], bit(self.index as int, (len - i) as nat) == 1).vals());
                return false;
            }
            i = i + 1;
        }
        true
    }

    /// A random valid opening of height `HEIGHT` at index 0, with its root.
    pub fn random_for_testing(rng: &mut ChaChaStream, hasher: &HVCHash) -> (r: (Self, SmallPoly))
        requires
            hasher.wf(),
        ensures
            r.0.index == 0,
            r.0.nodes@.len() == HEIGHT - 1,
            path_valid(hasher.param_h@, r.0.nodes@, 0, r.1.vals()),
    {
        let ghost h = hasher.param_h@;
        let mut up: Vec<(SmallPoly, SmallPoly)> = Vec::new();
        up.push((SmallPoly::rand_poly(rng), SmallPoly::rand_poly(rng)));
        let mut i: usize = 1;
        while i < HEIGHT - 1
            invariant
                1 <= i <= HEIGHT - 1,
                up@.len() == i,
                hasher.wf(),
                h == hasher.param_h@,
                forall|k: int| 1 <= k < i ==> (#[trigger] up@[k]).0.vals() == combine(h, up@[k - 1].0, up@[k - 1].1),
            decreases HEIGHT - 1 - i,
        {
            let left = hasher.decom_then_hash(&up[i - 1].0, &up[i - 1].1);
            up.push((left, SmallPoly::rand_poly(rng)));
            i = i + 1;
        }
        let root = hasher.decom_then_hash(&up[HEIGHT - 2].0, &up[HEIGHT - 2].1);
        let mut nodes: Vec<(SmallPoly, SmallPoly)> = Vec::new();
        let mut j: usize = 0;
        while j < HEIGHT - 1
            invariant
                j <= HEIGHT - 1,
                up@.len() == HEIGHT - 1,
                nodes@.len() == j,
                forall|k: int| 0 <= k < j ==> (#[trigger] nodes@[k]) == up@[HEIGHT - 2 - k],
            decreases HEIGHT - 1 - j,
        {
            nodes.push(up[HEIGHT - 2 - j]);
            j = j + 1;
        }
        proof {
            lemma_reversed_chain(h, up@, nodes@, root);
        }
        (Path { nodes, index: 0 }, root)
    }
}

/// A chain built upwards (each left element combines the pair below it),
/// read from the top, is a valid opening at index 0.
proof fn lemma_reversed_chain(h: Seq<SmallNTTPoly>, up: Seq<(SmallPoly, SmallPoly)>, nodes: Seq<(SmallPoly, SmallPoly)>, root: SmallPoly)
    requires
        up.len() >= 1,
        nodes.len() == up.len(),
        forall|k: int| 0 <= k < nodes.len() ==> (#[trigger] nodes[k]) == up[up.len() - 1 - k],
        forall|k: int| 1 <= k < up.len() ==> (#[trigger] up[k]).0.vals() == combine(h, up[k - 1].0, up[k - 1].1),
        root.vals() == combine(h, up[up.len() - 1].0, up[up.len() - 1].1),
    ensures
        path_valid(h, nodes, 0, root.vals()),
{
    let n = nodes.len();
    assert(nodes[0] == up[n - 1]);
    assert forall|k: int| 1 <= k < n implies
        #[trigger] combine(h, nodes[k].0, nodes[k].1) == on_path(nodes[k - 1], bit(0, (n - k) as nat) == 1).vals() by {
        lemma_bit_zero((n - k) as nat);
        assert(nodes[k] == up[n - 1 - k]);
        assert(nodes[k - 1] == up[n - 1 - k + 1]);
    }
}

/// Every bit of 0 is 0.
pub proof fn lemma_bit_zero(k: nat)
    ensures
        bit(0, k) == 0,
    decreases k,
{
    if k > 0 {
        lemma_bit_zero((k - 1) as nat);
    }
}

} // verus!
