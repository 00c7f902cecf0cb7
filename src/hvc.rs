//! The commitment tree seen as a homomorphic vector commitment.
use vstd::prelude::*;
use crate::arith::pow2;
use crate::poly::{SignedPoly, SmallPoly};
use crate::hvc_hash::HVCHash;
use crate::randomizer::randomizers_of;
use crate::path::{Path, path_valid};
use crate::tree::{Tree, proof_nodes};
use crate::randomized_path::{RandomizedPath, randomized_path_valid, aggregated_root, paths_aggregated_with};

verus! {

/// A commitment to a vector of small-ring polynomials: the tree over them.
pub struct HVC(pub Tree);

impl HVC {
    /// Commits to `msg`, whose length is `2^e` for some `e` in `1..=30`.
    pub fn commit(hasher: &HVCHash, msg: &[SmallPoly]) -> (r: Self)
        requires
            hasher.wf(),
            exists|e: nat| 1 <= e <= 30 && msg@.len() == #[trigger] pow2(e),
        ensures
            r.0.wf(hasher),
            r.0.leaf_nodes@ == msg@,
    {
        HVC(Tree::new_with_leaf_nodes(msg, hasher))
    }

    /// The opening of entry `index`.
    pub fn open(&self, index: usize) -> (r: Path)
        requires
            self.0.shaped(),
            index < self.0.leaf_nodes@.len(),
        ensures
            r.index == index,
            r.nodes@ == proof_nodes(self.0, index as int),
    {
        self.0.gen_proof(index)
    }

    /// Checks an opening against a commitment.
    pub fn verify_single(hasher: &HVCHash, proof: &Path, root: &SmallPoly) -> (r: bool)
        requires
            hasher.wf(),
        ensures
            r == path_valid(hasher.param_h@, proof.nodes@, proof.index as int, root.vals()),
    {
        proof.verify(root, hasher)
    }

    /// Checks an aggregated opening against the commitments it combines.
    pub fn verify_aggregated(hasher: &HVCHash, proof: &RandomizedPath, roots: &[SmallPoly]) -> (r: bool)
        requires
            hasher.wf(),
            forall|j: int| 0 <= j < roots@.len() ==> (#[trigger] roots@[j]).wf(),
        ensures
            forall|rs: Seq<SignedPoly>| #[trigger] randomizers_of(rs, roots@)
                ==> r == randomized_path_valid(hasher.param_h@, *proof, aggregated_root(roots@, rs, roots@.len() as int)),
    {
        proof.verify(roots, hasher)
    }

    /// Aggregates openings of one index under the commitments `roots`.
    pub fn aggregate(proofs: &[Path], roots: &[SmallPoly]) -> (r: RandomizedPath)
        requires
            1 <= proofs@.len() <= 0x100_0000,
            roots@.len() == proofs@.len(),
            forall|p: int| 0 <= p < proofs@.len() ==> (#[trigger] proofs@[p]).index == proofs@[0].index,
            forall|p: int| 0 <= p < proofs@.len() ==> (#[trigger] proofs@[p]).nodes@.len() == proofs@[0].nodes@.len(),
        ensures
            r.index == proofs@[0].index,
            r.nodes@.len() == proofs@[0].nodes@.len(),
            r.is_randomized,
            forall|rs: Seq<SignedPoly>| #[trigger] randomizers_of(rs, roots@) ==> paths_aggregated_with(r, proofs@, rs),
    {
        Path::aggregation(proofs, roots)
    }
}

} // verus!
