//! The synchronized multi-signature: a signer's public key is the root of a
//! commitment tree over the hashes of its one-time public keys.
use vstd::prelude::*;
use crate::primitives::ChaChaStream;
use crate::param::{N, GAMMA, HEIGHT, SMALL_MODULUS_BITS, LARGE_MODULUS_BITS, SMALL_MODULUS, SMALL_SAMPLE_THRESHOLD, LARGE_MODULUS, LARGE_SAMPLE_THRESHOLD};
use crate::sampling::uniform_polys;
use crate::small_poly::small_ntt;
use crate::large_poly::large_ntt;
use crate::arith::{bit, pow2, lemma_pow2_mono};
use crate::poly::{SignedPoly, SmallPoly, LargeNTTPoly, q_small, q_large};
use crate::small_poly::{projection_spec, lemma_small_projection_decompose};
use crate::large_poly::lemma_large_projection_decompose;
use crate::hvc_hash::{HVCHash, hash_spec, lifted_vals, bit_rows};
use crate::hots_hash::HOTSHash;
use crate::hots::{HOTS, HotsParam, HotsPK, HotsSK, HotsSig, RandomizedHOTSPK, verify_left, verify_right, pk_entry, aggregated_pk_entry, randomized_sum, components, key_decomposes, key_pair_of, lemma_key_pair_unique, lemma_key_sum_reduced, key_sum, msg_ntt, message_transform};
use crate::path::{Path, path_valid, on_path};
use crate::tree::{Tree, proof_nodes, ancestor, lemma_proof_nodes_shape, lemma_tree_proofs_verify};
use crate::randomized_path::{RandomizedPath, decomposes, projects, entry, aggregated_entry, randomized_path_valid, aggregated_root};
use crate::randomizer::{Randomizers, randomizers_of, lemma_randomizers_unique};

verus! {

/// The scheme.
pub struct SMSigScheme;

/// Public parameters: the two hashes, the one-time signature parameters,
/// and the height of the signers' trees.
#[derive(Debug, Clone)]
pub struct SMSigParam {
    pub hvc_hasher: HVCHash,
    pub hots_hasher: HOTSHash,
    pub hots_param: HotsParam,
    pub height: usize,
}

/// A signer's secret key: its seed and its commitment tree.
#[derive(Debug, Clone)]
pub struct SMSigSK {
    pub sk_seed: [u8; 32],
    pub tree: Tree,
}

/// A signer's public key: the root of its tree.
pub type SMSigPK = SmallPoly;

/// A signature: the opening of the one-time key's leaf and the one-time
/// key, both decomposed, and the one-time signature.
#[derive(Debug, Clone)]
pub struct SMSignature {
    pub path: RandomizedPath,
    pub hots_pk: RandomizedHOTSPK,
    pub hots_sig: HotsSig,
}

/// `pp` holds the parameters drawn in turn from position `pos` of the
/// stream of `seed`: the vector-commitment keys, the public-key hash keys,
/// then the one-time parameters, each a uniform polynomial in transform
/// form.
pub open spec fn setup_from(pp: SMSigParam, seed: Seq<u8>, pos: nat) -> bool {
    let a = uniform_polys(seed, pos, 28, SMALL_SAMPLE_THRESHOLD, SMALL_MODULUS as u32);
    let b = uniform_polys(seed, a.1, 48, SMALL_SAMPLE_THRESHOLD, SMALL_MODULUS as u32);
    let c = uniform_polys(seed, b.1, GAMMA as nat, LARGE_SAMPLE_THRESHOLD, LARGE_MODULUS);
    &&& forall|k: int| 0 <= k < 28 ==> (#[trigger] pp.hvc_hasher.param_h@[k]).vals() == small_ntt(a.0[k])
    &&& forall|k: int| 0 <= k < 48 ==> (#[trigger] pp.hots_hasher.param_h@[k]).vals() == small_ntt(b.0[k])
    &&& forall|k: int| 0 <= k < GAMMA ==> (#[trigger] pp.hots_param.a@[k]).vals() == large_ntt(c.0[k])
}

impl SMSigParam {
    /// Whether the parameters are well formed.
    pub fn is_well_formed(&self) -> (r: bool)
        ensures
            r == self.wf(),
    {
        self.hvc_hasher.is_well_formed() && self.hots_hasher.is_well_formed() && self.hots_param.is_well_formed()
            && 2 <= self.height && self.height <= 31
    }

    pub open spec fn wf(&self) -> bool {
        &&& self.hvc_hasher.wf()
        &&& self.hots_hasher.wf()
        &&& self.hots_param.wf()
        &&& 2 <= self.height <= 31
    }
}

/// The leaf that commits to a one-time public key.
pub open spec fn key_digest(h: HOTSHash, pk: HotsPK) -> Seq<int> {
    hash_spec(h.param_h@, bit_rows(pk.v0.vals(), LARGE_MODULUS_BITS as nat) + bit_rows(pk.v1.vals(), LARGE_MODULUS_BITS as nat))
}

/// `leaf` is the digest of one-time public key number `counter` of
/// `seed`.
pub open spec fn is_key_digest(leaf: SmallPoly, pp: SMSigParam, seed: Seq<u8>, counter: nat) -> bool {
    forall|pk: HotsPK, sk: HotsSK| #[trigger] key_pair_of(pk, sk, pp.hots_param, seed, counter)
        ==> leaf.vals() == key_digest(pp.hots_hasher, pk)
}

/// Side `right` of level `i` of a decomposed opening, projected back to
/// the small ring.
pub open spec fn projected_node(rp: RandomizedPath, i: int, right: bool) -> Seq<int> {
    projection_spec(on_path(rp.nodes@[i], right)@, q_small())
}

/// The commitment-tree combiner on two coefficient sequences.
pub open spec fn combine_vals(h: Seq<crate::poly::SmallNTTPoly>, a: Seq<int>, b: Seq<int>) -> Seq<int> {
    hash_spec(h, bit_rows(a, SMALL_MODULUS_BITS as nat) + bit_rows(b, SMALL_MODULUS_BITS as nat))
}

/// The projection of a decomposed opening is a valid opening of `root`.
pub open spec fn projected_path_valid(h: Seq<crate::poly::SmallNTTPoly>, rp: RandomizedPath, root: Seq<int>) -> bool {
    let n = rp.nodes@.len();
    &&& n >= 1
    &&& combine_vals(h, projected_node(rp, 0, false), projected_node(rp, 0, true)) == root
    &&& forall|i: int| 1 <= i < n ==>
        #[trigger] combine_vals(h, projected_node(rp, i, false), projected_node(rp, i, true))
            == projected_node(rp, i - 1, bit(rp.index as int, (n - i) as nat) == 1)
}

/// The digest of a decomposed one-time key, projected back to the large
/// ring, is `leaf`.
pub open spec fn key_matches_leaf(hh: HOTSHash, pk: RandomizedHOTSPK, leaf: Seq<int>) -> bool {
    hash_spec(hh.param_h@, bit_rows(projection_spec(pk.v0@, q_large()), LARGE_MODULUS_BITS as nat)
        + bit_rows(projection_spec(pk.v1@, q_large()), LARGE_MODULUS_BITS as nat)) == leaf
}

/// The conditions of a single signature, for the message polynomial `hm`
/// (in transform form): the one-time signature verifies under the projected
/// one-time key, the projected opening is valid for `root`, and the key's
/// digest is the leaf that the index selects in the bottom pair.
pub open spec fn signature_valid(pp: SMSigParam, root: SmallPoly, hm: Seq<int>, sig: SMSignature) -> bool {
    let n = sig.path.nodes@.len();
    &&& sig.hots_sig.wf()
    &&& verify_left(pp.hots_param.a@, sig.hots_sig.sigma@, GAMMA as int)
        == verify_right(hm, projection_spec(sig.hots_pk.v0@, q_large()), projection_spec(sig.hots_pk.v1@, q_large()))
    &&& projected_path_valid(pp.hvc_hasher.param_h@, sig.path, root.vals())
    &&& key_matches_leaf(pp.hots_hasher, sig.hots_pk, projected_node(sig.path, n - 1, sig.path.index % 2 == 1))
}

/// The conditions of an aggregated signature for the signers' roots `pks`,
/// their randomizers `rs` and the message polynomial `hm`: the one-time
/// signature verifies under the projected aggregated key, the aggregated
/// opening is valid for `sum_j r_j * pk_j`, and the aggregated key's
/// digest is the projection of the leaf that the index selects.
pub open spec fn aggregate_valid(pp: SMSigParam, pks: Seq<SmallPoly>, rs: Seq<SignedPoly>, hm: Seq<int>, sig: SMSignature) -> bool {
    let n = sig.path.nodes@.len();
    &&& sig.hots_sig.wf()
    &&& forall|j: int| 0 <= j < pks.len() ==> (#[trigger] pks[j]).wf()
    &&& verify_left(pp.hots_param.a@, sig.hots_sig.sigma@, GAMMA as int)
        == verify_right(hm, projection_spec(sig.hots_pk.v0@, q_large()), projection_spec(sig.hots_pk.v1@, q_large()))
    &&& randomized_path_valid(pp.hvc_hasher.param_h@, sig.path, aggregated_root(pks, rs, pks.len() as int))
    &&& n >= 1
    &&& hash_spec(pp.hots_hasher.param_h@, lifted_vals(sig.hots_pk.v0@ + sig.hots_pk.v1@)) == projected_node(sig.path, n - 1, sig.path.index % 2 == 1)
}

/// The openings of a list of signatures.
pub open spec fn paths_of(sigs: Seq<SMSignature>) -> Seq<RandomizedPath> {
    sigs.map_values(|s: SMSignature| s.path)
}

/// The decomposed one-time keys of a list of signatures.
pub open spec fn keys_of(sigs: Seq<SMSignature>) -> Seq<RandomizedHOTSPK> {
    sigs.map_values(|s: SMSignature| s.hots_pk)
}

/// The one-time signatures of a list of signatures.
pub open spec fn hots_sigs_of(sigs: Seq<SMSignature>) -> Seq<HotsSig> {
    sigs.map_values(|s: SMSignature| s.hots_sig)
}

/// `agg` sums the signatures `sigs` randomized by `rs`, component by
/// component.
pub open spec fn aggregated_with(agg: SMSignature, sigs: Seq<SMSignature>, rs: Seq<SignedPoly>) -> bool {
    &&& forall|i: int, right: bool, k: int, j: int|
        0 <= i < agg.path.nodes@.len() && 0 <= k < SMALL_MODULUS_BITS && 0 <= j < N ==>
            (#[trigger] entry(agg.path, i, right, k).coeffs@[j]) as int == aggregated_entry(paths_of(sigs), rs, i, right, k, j, sigs.len() as int)
    &&& forall|second: bool, k: int, j: int| 0 <= k < LARGE_MODULUS_BITS && 0 <= j < N ==>
        (#[trigger] pk_entry(agg.hots_pk, second, k).coeffs@[j]) as int == aggregated_pk_entry(keys_of(sigs), rs, second, k, j, sigs.len() as int)
    &&& forall|i: int| 0 <= i < GAMMA ==>
        (#[trigger] agg.hots_sig.sigma@[i]).vals() == randomized_sum(components(hots_sigs_of(sigs), i), rs, sigs.len() as int)
}

/// The one-time parts of `sig` are those of the key pair `(pk, sk)`: its
/// key is `pk` decomposed, and its one-time signature is made with `sk`
/// for the message polynomial of `message`.
pub open spec fn one_time_parts(sig: SMSignature, pk: HotsPK, sk: HotsSK, pp: SMSigParam, message: Seq<u8>) -> bool {
    &&& key_decomposes(sig.hots_pk, pk)
    &&& sig.hots_sig.signs(sk, msg_ntt(message))
}

/// A signature as `sign` makes it, ready to be aggregated.
pub open spec fn fresh(sig: SMSignature) -> bool {
    &&& !sig.path.is_randomized && sig.path.binary()
    &&& !sig.hots_pk.is_randomized && sig.hots_pk.binary()
    &&& !sig.hots_sig.is_randomized && sig.hots_sig.wf()
}

impl SMSignature {
    /// Whether the signature is as `sign` makes it, ready to be aggregated.
    pub fn is_fresh(&self) -> (r: bool)
        ensures
            r == fresh(*self),
    {
        !self.path.is_randomized && self.path.is_binary() && !self.hots_pk.is_randomized && self.hots_pk.is_binary()
            && !self.hots_sig.is_randomized && self.hots_sig.is_well_formed()
    }
}

impl SMSigScheme {
    /// Samples the parameters for trees of height `HEIGHT`.
    pub fn setup(rng: &mut ChaChaStream) -> (r: SMSigParam)
        ensures
            r.wf(),
            r.height == HEIGHT,
            setup_from(r, old(rng).seed(), old(rng).pos()),
    {
        Self::setup_with_height(rng, HEIGHT)
    }

    /// Samples the parameters (vector-commitment hash, public-key hash and
    /// one-time parameters, in this order from one stream) for trees of
    /// height `height`.
    pub fn setup_with_height(rng: &mut ChaChaStream, height: usize) -> (r: SMSigParam)
        requires
            2 <= height <= 31,
        ensures
            r.wf(),
            r.height == height,
            setup_from(r, old(rng).seed(), old(rng).pos()),
    {
        let hvc_hasher = HVCHash::init(rng);
        let hots_hasher = HOTSHash::init(rng);
        let hots_param = HOTS::setup(rng);
        SMSigParam { hvc_hasher, hots_hasher, hots_param, height }
    }

    /// Generates a signer's keys: the tree over the digests of its
    /// `2^(height-1)` one-time public keys, and its root.
    pub fn key_gen(seed: &[u8; 32], pp: &SMSigParam) -> (r: (SMSigPK, SMSigSK))
        requires
            pp.wf(),
        ensures
            r.1.sk_seed == *seed,
            r.1.tree.wf(&pp.hvc_hasher),
            r.1.tree.height == pp.height,
            r.0 == r.1.tree.non_leaf_nodes@[0],
            forall|i: int| 0 <= i < r.1.tree.leaf_nodes@.len() ==>
                is_key_digest(#[trigger] r.1.tree.leaf_nodes@[i], *pp, seed@, i as nat),
            forall|i: int| 0 <= i < r.1.tree.leaf_nodes@.len() ==> (#[trigger] r.1.tree.leaf_nodes@[i]).wf(),
    {
        let e = pp.height - 1;
        proof {
            lemma_shl_pow2(e);
        }
        let count: usize = 1usize << e;
        let mut leaves: Vec<SmallPoly> = Vec::new();
        let mut i: usize = 0;
        while i < count
            invariant
                i <= count,
                pp.wf(),
                leaves@.len() == i,
                forall|t: int| 0 <= t < i ==> is_key_digest(#[trigger] leaves@[t], *pp, seed@, t as nat),
                forall|t: int| 0 <= t < i ==> (#[trigger] leaves@[t]).wf(),
            decreases count - i,
        {
            let (pk, sk) = HOTS::key_gen(seed, i, &pp.hots_param);
            let d = pk.digest(&pp.hots_hasher);
            let ghost before = leaves@;
            leaves.push(d);
            proof {
                assert forall|t: int| 0 <= t < i + 1 implies is_key_digest(#[trigger] leaves@[t], *pp, seed@, t as nat) by {
                    if t == i {
                        assert forall|pk2: HotsPK, sk2: HotsSK| #[trigger] key_pair_of(pk2, sk2, pp.hots_param, seed@, t as nat)
                            implies leaves@[t].vals() == key_digest(pp.hots_hasher, pk2) by {
                            lemma_key_pair_unique(pk, sk, pk2, sk2, pp.hots_param, seed@, t as nat);
                        }
                    } else {
                        assert(leaves@[t] == before[t]);
                    }
                }
            }
            i = i + 1;
        }
        proof {
            assert(1 <= e <= 30 && leaves@.len() == pow2(e as nat));
        }
        let tree = Tree::new_with_leaf_nodes(leaves.as_slice(), &pp.hvc_hasher);
        proof {
            assert(tree.height == pp.height) by {
                lemma_pow2_injective((tree.height - 1) as nat, e as nat);
            }
            lemma_pow2_mono(1, e as nat);
        }
        let root = tree.root();
        (root, SMSigSK { sk_seed: *seed, tree })
    }

    /// Signs `message` at leaf `index`: the opening of the leaf, the
    /// one-time key (both decomposed) and the one-time signature.
    pub fn sign(sk: &SMSigSK, index: usize, message: &[u8], pp: &SMSigParam) -> (r: SMSignature)
        requires
            sk.tree.shaped(),
            index < sk.tree.leaf_nodes@.len(),
            pp.wf(),
        ensures
            r.path.index == index,
            r.path.nodes@.len() == sk.tree.height - 1,
            exists|p: Path| p.nodes@ == proof_nodes(sk.tree, index as int) && #[trigger] decomposes(r.path, p),
            fresh(r),
            exists|pk: HotsPK, hsk: HotsSK| #[trigger] key_pair_of(pk, hsk, pp.hots_param, sk.sk_seed@, index as nat),
            forall|pk: HotsPK, hsk: HotsSK| #[trigger] key_pair_of(pk, hsk, pp.hots_param, sk.sk_seed@, index as nat)
                ==> one_time_parts(r, pk, hsk, *pp, message@),
    {
        let path = sk.tree.gen_proof(index);
        let (hots_pk, hots_sk) = HOTS::key_gen(&sk.sk_seed, index, &pp.hots_param);
        let hots_sig = HOTS::sign(&hots_sk, message);
        let r = SMSignature {
            path: RandomizedPath::from_path(&path),
            hots_pk: RandomizedHOTSPK::from_pk(&hots_pk),
            hots_sig,
        };
        proof {
            assert forall|pk: HotsPK, hsk: HotsSK| #[trigger] key_pair_of(pk, hsk, pp.hots_param, sk.sk_seed@, index as nat)
                implies one_time_parts(r, pk, hsk, *pp, message@) by {
                lemma_key_pair_unique(hots_pk, hots_sk, pk, hsk, pp.hots_param, sk.sk_seed@, index as nat);
            }
            assert(key_pair_of(hots_pk, hots_sk, pp.hots_param, sk.sk_seed@, index as nat));
        }
        r
    }
}

pub proof fn lemma_shl_pow2(e: usize)
    requires
        e <= 30,
    ensures
        1usize << e == pow2(e as nat),
    decreases e,
{
    if e == 0 {
        assert(1usize << 0usize == 1) by (bit_vector);
    } else {
        lemma_shl_pow2((e - 1) as usize);
        let f = (e - 1) as usize;
        assert(1usize << e == 2 * (1usize << f)) by (bit_vector)
            requires
                f < 30,
                e == f + 1,
        ;
    }
}

proof fn lemma_pow2_injective(a: nat, b: nat)
    requires
        pow2(a) == pow2(b),
    ensures
        a == b,
    decreases a, b,
{
    if a > 0 && b > 0 {
        lemma_pow2_injective((a - 1) as nat, (b - 1) as nat);
    } else if a > 0 {
        lemma_pow2_mono(1, a);
    } else if b > 0 {
        lemma_pow2_mono(1, b);
    }
}

impl SMSigScheme {
    /// Verifies a single signature for the message polynomial `hm`.
    pub fn verify_with_message_poly(pk: &SMSigPK, hm: &LargeNTTPoly, sig: &SMSignature, pp: &SMSigParam) -> (r: bool)
        requires
            pp.wf(),
            hm.wf(),
        ensures
            r == signature_valid(*pp, *pk, hm.vals(), *sig),
    {
        if !sig.hots_sig.is_well_formed() {
            return false;
        }
        let hots_pk = sig.hots_pk.to_pk();
        if !HOTS::verify_with_message_poly(&hots_pk, hm, &sig.hots_sig, &pp.hots_param) {
            return false;
        }
        let path = sig.path.to_path();
        let ok = path.verify(pk, &pp.hvc_hasher);
        proof {
            lemma_projected_path(pp.hvc_hasher.param_h@, path, sig.path, pk.vals());
        }
        if !ok {
            return false;
        }
        let n = path.nodes.len();
        let pk_digest = hots_pk.digest(&pp.hots_hasher);
        let leaf = if sig.path.index % 2 == 0 {
            path.nodes[n - 1].0
        } else {
            path.nodes[n - 1].1
        };
        proof {
            assert(on_path(path.nodes@[n - 1], sig.path.index % 2 == 1) == leaf);
            assert(leaf.vals() == projected_node(sig.path, n - 1, sig.path.index % 2 == 1));
        }
        pk_digest.equals(&leaf)
    }

    /// Verifies a single signature on `message` against the signer's root.
    pub fn verify(pk: &SMSigPK, message: &[u8], sig: &SMSignature, pp: &SMSigParam) -> (r: bool)
        requires
            pp.wf(),
        ensures
            r == signature_valid(*pp, *pk, msg_ntt(message@), *sig),
    {
        let hm = message_transform(message);
        Self::verify_with_message_poly(pk, &hm, sig, pp)
    }

    /// Aggregates signatures made at one index with the given randomizers:
    /// the openings, the one-time keys and the one-time signatures are
    /// each randomized and summed.
    pub fn aggregate_with_randomizers(sigs: &[SMSignature], randomizers: &Randomizers) -> (r: SMSignature)
        requires
            1 <= sigs@.len() <= 0x100_0000,
            randomizers.poly@.len() == sigs@.len(),
            forall|p: int| 0 <= p < sigs@.len() ==> fresh(#[trigger] sigs@[p]),
            forall|p: int| 0 <= p < sigs@.len() ==> (#[trigger] sigs@[p]).path.index == sigs@[0].path.index,
            forall|p: int| 0 <= p < sigs@.len() ==> (#[trigger] sigs@[p]).path.nodes@.len() == sigs@[0].path.nodes@.len(),
        ensures
            r.path.index == sigs@[0].path.index,
            r.path.nodes@.len() == sigs@[0].path.nodes@.len(),
            r.path.is_randomized && r.hots_pk.is_randomized && r.hots_sig.is_randomized,
            r.hots_sig.wf(),
            aggregated_with(r, sigs@, randomizers.poly@),
    {
        let mut paths: Vec<RandomizedPath> = Vec::new();
        let mut pks: Vec<RandomizedHOTSPK> = Vec::new();
        let mut hots_sigs: Vec<HotsSig> = Vec::new();
        let mut p: usize = 0;
        while p < sigs.len()
            invariant
                p <= sigs@.len(),
                paths@.len() == p,
                pks@.len() == p,
                hots_sigs@.len() == p,
                forall|q: int| 0 <= q < p ==> (#[trigger] paths@[q]).nodes@ == sigs@[q].path.nodes@
                    && paths@[q].index == sigs@[q].path.index && paths@[q].is_randomized == sigs@[q].path.is_randomized,
                forall|q: int| 0 <= q < p ==> (#[trigger] pks@[q]) == sigs@[q].hots_pk,
                forall|q: int| 0 <= q < p ==> (#[trigger] hots_sigs@[q]) == sigs@[q].hots_sig,
            decreases sigs@.len() - p,
        {
            paths.push(sigs[p].path.copy_of());
            pks.push(sigs[p].hots_pk);
            hots_sigs.push(sigs[p].hots_sig);
            p = p + 1;
        }
        proof {
            assert(pks@ =~= keys_of(sigs@));
            assert(hots_sigs@ =~= hots_sigs_of(sigs@));
            assert forall|q: int| 0 <= q < paths@.len() implies !(#[trigger] paths@[q]).is_randomized && paths@[q].binary() by {
                assert(fresh(sigs@[q]));
                assert forall|i: int, right: bool, k: int| 0 <= i < paths@[q].nodes@.len() && 0 <= k < SMALL_MODULUS_BITS implies
                    (#[trigger] entry(paths@[q], i, right, k)).binary() by {
                    assert(entry(paths@[q], i, right, k) == entry(sigs@[q].path, i, right, k));
                }
            }
        }
        let path = RandomizedPath::aggregate_with_randomizers(paths.as_slice(), randomizers);
        proof {
            assert forall|i: int, right: bool, k: int, j: int|
                0 <= i < path.nodes@.len() && 0 <= k < SMALL_MODULUS_BITS && 0 <= j < N implies
                    (#[trigger] entry(path, i, right, k).coeffs@[j]) as int == aggregated_entry(paths_of(sigs@), randomizers.poly@, i, right, k, j, sigs@.len() as int) by {
                lemma_aggregated_entry_nodes(paths@, paths_of(sigs@), randomizers.poly@, i, right, k, j, sigs@.len() as int);
            }
        }
        let hots_pk = RandomizedHOTSPK::aggregate_with_randomizers(pks.as_slice(), randomizers);
        let hots_sig = HotsSig::aggregate_with_randomizers(hots_sigs.as_slice(), randomizers);
        SMSignature { path, hots_pk, hots_sig }
    }

    /// Aggregates signatures made at one index, with the randomizers
    /// derived from the signers' roots.
    pub fn aggregate(sigs: &[SMSignature], roots: &[SmallPoly]) -> (r: SMSignature)
        requires
            1 <= sigs@.len() <= 0x100_0000,
            roots@.len() == sigs@.len(),
            forall|p: int| 0 <= p < sigs@.len() ==> fresh(#[trigger] sigs@[p]),
            forall|p: int| 0 <= p < sigs@.len() ==> (#[trigger] sigs@[p]).path.index == sigs@[0].path.index,
            forall|p: int| 0 <= p < sigs@.len() ==> (#[trigger] sigs@[p]).path.nodes@.len() == sigs@[0].path.nodes@.len(),
        ensures
            r.path.index == sigs@[0].path.index,
            r.path.nodes@.len() == sigs@[0].path.nodes@.len(),
            r.path.is_randomized && r.hots_pk.is_randomized && r.hots_sig.is_randomized,
            r.hots_sig.wf(),
            forall|rs: Seq<SignedPoly>| #[trigger] randomizers_of(rs, roots@) ==> aggregated_with(r, sigs@, rs),
    {
        let randomizers = Randomizers::from_pks(roots);
        let r = Self::aggregate_with_randomizers(sigs, &randomizers);
        proof {
            assert forall|rs: Seq<SignedPoly>| #[trigger] randomizers_of(rs, roots@) implies aggregated_with(r, sigs@, rs) by {
                lemma_randomizers_unique(rs, randomizers.poly@, roots@);
            }
        }
        r
    }

    /// Verifies an aggregated signature for the message polynomial `hm`
    /// and the randomizers `randomizers` of the signers' roots `pks`.
    pub fn batch_verify_with_randomizers(pks: &[SMSigPK], hm: &LargeNTTPoly, sig: &SMSignature, randomizers: &Randomizers, pp: &SMSigParam) -> (r: bool)
        requires
            pp.wf(),
            hm.wf(),
            randomizers.poly@.len() == pks@.len(),
        ensures
            r == aggregate_valid(*pp, pks@, randomizers.poly@, hm.vals(), *sig),
    {
        if !sig.hots_sig.is_well_formed() {
            return false;
        }
        let mut j: usize = 0;
        while j < pks.len()
            invariant
                j <= pks@.len(),
                forall|t: int| 0 <= t < j ==> (#[trigger] pks@[t]).wf(),
            decreases pks@.len() - j,
        {
            if !pks[j].is_reduced() {
                return false;
            }
            j = j + 1;
        }
        let hots_pk = sig.hots_pk.to_pk();
        if !HOTS::verify_with_message_poly(&hots_pk, hm, &sig.hots_sig, &pp.hots_param) {
            return false;
        }
        if !sig.path.verify_with_randomizers(pks, randomizers, &pp.hvc_hasher) {
            return false;
        }
        let n = sig.path.nodes.len();
        let digest = sig.hots_pk.digest(&pp.hots_hasher);
        let leaf = if sig.path.index % 2 == 0 {
            SmallPoly::projection(sig.path.nodes[n - 1].0.as_slice())
        } else {
            SmallPoly::projection(sig.path.nodes[n - 1].1.as_slice())
        };
        digest.equals(&leaf)
    }

    /// Verifies an aggregated signature on `message` against the signers'
    /// roots, with the randomizers derived from them.
    pub fn batch_verify(pks: &[SMSigPK], message: &[u8], sig: &SMSignature, pp: &SMSigParam) -> (r: bool)
        requires
            pp.wf(),
        ensures
            forall|rs: Seq<SignedPoly>| #[trigger] randomizers_of(rs, pks@) ==> r == aggregate_valid(*pp, pks@, rs, msg_ntt(message@), *sig),
    {
        let hm = message_transform(message);
        let randomizers = Randomizers::from_pks(pks);
        let r = Self::batch_verify_with_randomizers(pks, &hm, sig, &randomizers, pp);
        proof {
            assert forall|rs: Seq<SignedPoly>| #[trigger] randomizers_of(rs, pks@) implies r == aggregate_valid(*pp, pks@, rs, msg_ntt(message@), *sig) by {
                lemma_randomizers_unique(rs, randomizers.poly@, pks@);
            }
        }
        r
    }
}

/// An opening that projects a decomposed one is valid exactly when the
/// projection is.
proof fn lemma_projected_path(h: Seq<crate::poly::SmallNTTPoly>, p: Path, rp: RandomizedPath, root: Seq<int>)
    requires
        projects(p, rp),
    ensures
        path_valid(h, p.nodes@, p.index as int, root) == projected_path_valid(h, rp, root),
{
    let n = p.nodes@.len();
    assert forall|i: int, right: bool| 0 <= i < n implies (#[trigger] on_path(p.nodes@[i], right)).vals() == projected_node(rp, i, right) by {}
    assert forall|i: int| 0 <= i < n implies
        #[trigger] crate::path::combine(h, p.nodes@[i].0, p.nodes@[i].1) == combine_vals(h, projected_node(rp, i, false), projected_node(rp, i, true)) by {
        assert(on_path(p.nodes@[i], false) == p.nodes@[i].0);
        assert(on_path(p.nodes@[i], true) == p.nodes@[i].1);
    }
    if n >= 1 {
        assert(crate::path::combine(h, p.nodes@[0].0, p.nodes@[0].1) == combine_vals(h, projected_node(rp, 0, false), projected_node(rp, 0, true)));
    }
    assert forall|i: int| 1 <= i < n implies
        (crate::path::combine(h, p.nodes@[i].0, p.nodes@[i].1) == on_path(p.nodes@[i - 1], bit(p.index as int, (n - i) as nat) == 1).vals())
        == (combine_vals(h, projected_node(rp, i, false), projected_node(rp, i, true)) == projected_node(rp, i - 1, bit(rp.index as int, (n - i) as nat) == 1)) by {
        let b = bit(p.index as int, (n - i) as nat) == 1;
        assert(on_path(p.nodes@[i - 1], b).vals() == projected_node(rp, i - 1, b));
        assert(crate::path::combine(h, p.nodes@[i].0, p.nodes@[i].1) == combine_vals(h, projected_node(rp, i, false), projected_node(rp, i, true)));
    }
    if path_valid(h, p.nodes@, p.index as int, root) {
        assert forall|i: int| 1 <= i < n implies
            #[trigger] combine_vals(h, projected_node(rp, i, false), projected_node(rp, i, true))
                == projected_node(rp, i - 1, bit(rp.index as int, (n - i) as nat) == 1) by {
            assert(crate::path::combine(h, p.nodes@[i].0, p.nodes@[i].1) == on_path(p.nodes@[i - 1], bit(p.index as int, (n - i) as nat) == 1).vals());
        }
    }
    if projected_path_valid(h, rp, root) {
        assert forall|i: int| 1 <= i < n implies
            #[trigger] crate::path::combine(h, p.nodes@[i].0, p.nodes@[i].1) == on_path(p.nodes@[i - 1], bit(p.index as int, (n - i) as nat) == 1).vals() by {
            assert(combine_vals(h, projected_node(rp, i, false), projected_node(rp, i, true))
                == projected_node(rp, i - 1, bit(rp.index as int, (n - i) as nat) == 1));
        }
    }
}

/// Aggregated entries depend on the openings' nodes alone.
proof fn lemma_aggregated_entry_nodes(a: Seq<RandomizedPath>, b: Seq<RandomizedPath>, rs: Seq<SignedPoly>, i: int, right: bool, k: int, j: int, m: int)
    requires
        0 <= m <= a.len(),
        a.len() == b.len(),
        forall|q: int| 0 <= q < a.len() ==> (#[trigger] a[q]).nodes@ == b[q].nodes@,
    ensures
        aggregated_entry(a, rs, i, right, k, j, m) == aggregated_entry(b, rs, i, right, k, j, m),
    decreases m,
{
    if m > 0 {
        lemma_aggregated_entry_nodes(a, b, rs, i, right, k, j, m - 1);
        assert(a[m - 1].nodes@ == b[m - 1].nodes@);
        assert(entry(a[m - 1], i, right, k) == entry(b[m - 1], i, right, k));
    }
}

/// A signature that `sign` makes with a secret key from `key_gen` passes
/// the two commitment checks of `verify`: its projected opening is valid for
/// the signer's root, and the digest of its one-time key is the leaf that
/// its index selects.
pub proof fn lemma_signature_commitment_checks(pp: SMSigParam, root: SmallPoly, sk: SMSigSK, index: int, message: Seq<u8>, sig: SMSignature)
    requires
        pp.wf(),
        sk.tree.wf(&pp.hvc_hasher),
        root == sk.tree.non_leaf_nodes@[0],
        forall|i: int| 0 <= i < sk.tree.leaf_nodes@.len() ==> is_key_digest(#[trigger] sk.tree.leaf_nodes@[i], pp, sk.sk_seed@, i as nat),
        forall|i: int| 0 <= i < sk.tree.leaf_nodes@.len() ==> (#[trigger] sk.tree.leaf_nodes@[i]).wf(),
        0 <= index < sk.tree.leaf_nodes@.len(),
        sig.path.index == index,
        exists|p: Path| p.nodes@ == proof_nodes(sk.tree, index) && #[trigger] decomposes(sig.path, p),
        exists|pk: HotsPK, hsk: HotsSK| #[trigger] key_pair_of(pk, hsk, pp.hots_param, sk.sk_seed@, index as nat),
        forall|pk: HotsPK, hsk: HotsSK| #[trigger] key_pair_of(pk, hsk, pp.hots_param, sk.sk_seed@, index as nat)
            ==> one_time_parts(sig, pk, hsk, pp, message),
    ensures
        projected_path_valid(pp.hvc_hasher.param_h@, sig.path, root.vals()),
        key_matches_leaf(pp.hots_hasher, sig.hots_pk, projected_node(sig.path, sig.path.nodes@.len() - 1, sig.path.index % 2 == 1)),
{
    lemma_signed_path_checks(pp, root, sk.tree, index, sig.path);
    let (pk, hsk) = choose|pk: HotsPK, hsk: HotsSK| #[trigger] key_pair_of(pk, hsk, pp.hots_param, sk.sk_seed@, index as nat);
    assert(one_time_parts(sig, pk, hsk, pp, message));
    assert(is_key_digest(sk.tree.leaf_nodes@[index], pp, sk.sk_seed@, index as nat));
    lemma_signed_key_check(pp, sk.tree, index, sig.path, sig.hots_pk, pk, hsk, sk.sk_seed@);
}

proof fn lemma_signed_path_checks(pp: SMSigParam, root: SmallPoly, t: Tree, index: int, rp: RandomizedPath)
    requires
        pp.wf(),
        t.wf(&pp.hvc_hasher),
        root == t.non_leaf_nodes@[0],
        forall|i: int| 0 <= i < t.leaf_nodes@.len() ==> (#[trigger] t.leaf_nodes@[i]).wf(),
        0 <= index < t.leaf_nodes@.len(),
        rp.index == index,
        exists|p: Path| p.nodes@ == proof_nodes(t, index) && #[trigger] decomposes(rp, p),
    ensures
        projected_path_valid(pp.hvc_hasher.param_h@, rp, root.vals()),
        t.height >= 2,
        rp.nodes@.len() == t.height - 1,
        projected_node(rp, rp.nodes@.len() - 1, index % 2 == 1) == t.leaf_nodes@[index].vals(),
{
    let p = choose|p: Path| p.nodes@ == proof_nodes(t, index) && #[trigger] decomposes(rp, p);
    let n = p.nodes@.len();
    let leaves = t.leaf_nodes@.len() as int;
    assert forall|i: int, right: bool| 0 <= i < n implies
        (#[trigger] on_path(p.nodes@[i], right)).vals() == projection_spec(on_path(rp.nodes@[i], right)@, q_small()) by {
        lemma_proof_nodes_shape(t, index, i);
        let a = ancestor(index, leaves, (t.height - 1 - i) as nat);
        let k = if right { 2 * a + 2 } else { 2 * a + 1 };
        assert(on_path(p.nodes@[i], right) == t.node(k));
        if k < t.non_leaf_nodes@.len() {
            assert(t.node(k).wf());
        } else {
            assert(t.node(k) == t.leaf_nodes@[k - t.non_leaf_nodes@.len()]);
        }
        let d = on_path(rp.nodes@[i], right)@;
        assert forall|c: int, j: int| 0 <= c < SMALL_MODULUS_BITS && 0 <= j < N implies
            (#[trigger] d[c].coeffs@[j]) as int == bit(on_path(p.nodes@[i], right).vals()[j], c as nat) by {
            assert(entry(rp, i, right, c) == d[c]);
        }
        lemma_small_projection_decompose(on_path(p.nodes@[i], right), d);
    }
    assert(projects(p, rp));
    lemma_tree_proofs_verify(t, pp.hvc_hasher, index);
    lemma_projected_path(pp.hvc_hasher.param_h@, p, rp, root.vals());
    lemma_proof_nodes_shape(t, index, n - 1);
    assert(bit(index, 0) == index % 2);
    assert(on_path(p.nodes@[n - 1], index % 2 == 1).vals() == projected_node(rp, n - 1, index % 2 == 1));
}

proof fn lemma_signed_key_check(pp: SMSigParam, t: Tree, index: int, rp: RandomizedPath, rpk: RandomizedHOTSPK, pk: HotsPK, hsk: HotsSK, seed: Seq<u8>)
    requires
        t.height >= 2,
        rp.nodes@.len() == t.height - 1,
        0 <= index < t.leaf_nodes@.len(),
        projected_node(rp, rp.nodes@.len() - 1, index % 2 == 1) == t.leaf_nodes@[index].vals(),
        key_pair_of(pk, hsk, pp.hots_param, seed, index as nat),
        is_key_digest(t.leaf_nodes@[index], pp, seed, index as nat),
        key_decomposes(rpk, pk),
    ensures
        key_matches_leaf(pp.hots_hasher, rpk, projected_node(rp, rp.nodes@.len() - 1, index % 2 == 1)),
{
    lemma_key_sum_reduced(pp.hots_param.a@, hsk.s0@, GAMMA as int);
    lemma_key_sum_reduced(pp.hots_param.a@, hsk.s1@, GAMMA as int);
    assert forall|j: int| 0 <= j < N implies (#[trigger] pk.v0.coeffs@[j]) < LARGE_MODULUS by {
        assert(pk.v0.vals()[j] == key_sum(pp.hots_param.a@, hsk.s0@, GAMMA as int)[j]);
    }
    assert forall|j: int| 0 <= j < N implies (#[trigger] pk.v1.coeffs@[j]) < LARGE_MODULUS by {
        assert(pk.v1.vals()[j] == key_sum(pp.hots_param.a@, hsk.s1@, GAMMA as int)[j]);
    }
    lemma_large_projection_decompose(pk.v0, rpk.v0@);
    lemma_large_projection_decompose(pk.v1, rpk.v1@);
    assert(t.leaf_nodes@[index].vals() == key_digest(pp.hots_hasher, pk));
}

} // verus!
