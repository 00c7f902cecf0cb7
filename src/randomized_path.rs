//! Openings kept in decomposed form, so that they can be randomized by
//! ternary polynomials and summed.
use vstd::prelude::*;
use crate::param::{N, ALPHA, SMALL_MODULUS_BITS};
use crate::arith::{bit, add_spec, pointwise_spec, reduce, index_bits};
use crate::poly::{SignedPoly, SmallPoly, SmallNTTPoly, TerPolyCoeffEncoding, q_small, ter_product, ter_mul_spec, encoding_of};
use crate::small_poly::{small_ntt, small_inv_ntt, projection_spec, lemma_small_projection_decompose};
use crate::hvc_hash::{HVCHash, hash_spec, lifted_vals};
use crate::path::{Path, on_path};
use crate::randomizer::{Randomizers, randomizers_of, lemma_randomizers_unique};

verus! {

/// Row `k` of side `right` of level `i`.
pub open spec fn entry(rp: RandomizedPath, i: int, right: bool, k: int) -> SignedPoly {
    on_path(rp.nodes@[i], right)@[k]
}

/// `rp` holds the decompositions of the nodes of `p`.
pub open spec fn decomposes(rp: RandomizedPath, p: Path) -> bool {
    &&& rp.nodes@.len() == p.nodes@.len()
    &&& rp.index == p.index
    &&& forall|i: int, right: bool, k: int, j: int|
        0 <= i < rp.nodes@.len() && 0 <= k < SMALL_MODULUS_BITS && 0 <= j < N ==>
            (#[trigger] entry(rp, i, right, k).coeffs@[j]) as int == bit(on_path(p.nodes@[i], right).vals()[j], k as nat)
}

/// `p` holds the projections of the decomposed nodes of `rp`.
pub open spec fn projects(p: Path, rp: RandomizedPath) -> bool {
    &&& p.nodes@.len() == rp.nodes@.len()
    &&& p.index == rp.index
    &&& forall|i: int, right: bool| 0 <= i < p.nodes@.len() ==>
        (#[trigger] on_path(p.nodes@[i], right)).vals() == projection_spec(on_path(rp.nodes@[i], right)@, q_small())
}

/// The product, in the small ring, of two polynomials through the transform.
pub open spec fn small_mul_spec(a: Seq<int>, b: Seq<int>) -> Seq<int> {
    small_inv_ntt(pointwise_spec(small_ntt(a), small_ntt(b), q_small()))
}

/// `sum_{j < m} r_j * root_j` in the small ring.
pub open spec fn aggregated_root(roots: Seq<SmallPoly>, rs: Seq<SignedPoly>, m: int) -> Seq<int>
    decreases m,
{
    if m <= 0 {
        Seq::new(N as nat, |j: int| 0)
    } else {
        add_spec(aggregated_root(roots, rs, m - 1), small_mul_spec(reduce(rs[m - 1].vals(), q_small()), roots[m - 1].vals()), q_small())
    }
}

/// A decomposed opening is valid for `root`: the top pair hashes to the
/// root, and each lower pair hashes to the projection of the on-path
/// element of the pair above.
pub open spec fn randomized_path_valid(h: Seq<SmallNTTPoly>, rp: RandomizedPath, root: Seq<int>) -> bool {
    let n = rp.nodes@.len();
    &&& n >= 1
    &&& hash_spec(h, lifted_vals(rp.nodes@[0].0@ + rp.nodes@[0].1@)) == root
    &&& forall|i: int| 1 <= i < n ==>
        #[trigger] hash_spec(h, lifted_vals(rp.nodes@[i].0@ + rp.nodes@[i].1@))
            == projection_spec(on_path(rp.nodes@[i - 1], bit(rp.index as int, (n - i) as nat) == 1)@, q_small())
}

/// `sum_{p < m}` of entry `(i, right, k, j)` of path `p` randomized by
/// `rs[p]`.
pub open spec fn aggregated_entry(paths: Seq<RandomizedPath>, rs: Seq<SignedPoly>, i: int, right: bool, k: int, j: int, m: int) -> int
    decreases m,
{
    if m <= 0 {
        0
    } else {
        aggregated_entry(paths, rs, i, right, k, j, m - 1) + ter_product(rs[m - 1], entry(paths[m - 1], i, right, k).vals(), j)
    }
}

/// An opening whose nodes are stored as their base-2 decompositions, with
/// its leaf index and whether it has been randomized.
#[derive(Debug, Clone)]
pub struct RandomizedPath {
    pub nodes: Vec<([SignedPoly; SMALL_MODULUS_BITS], [SignedPoly; SMALL_MODULUS_BITS])>,
    pub index: usize,
    pub is_randomized: bool,
}

impl RandomizedPath {
    /// Every entry is binary, as in a fresh decomposition.
    pub open spec fn binary(&self) -> bool {
        forall|i: int, right: bool, k: int| 0 <= i < self.nodes@.len() && 0 <= k < SMALL_MODULUS_BITS ==>
            (#[trigger] entry(*self, i, right, k)).binary()
    }

    /// Every coefficient of every entry lies in `[-b, b]`.
    pub open spec fn bounded(&self, b: int) -> bool {
        forall|i: int, right: bool, k: int| 0 <= i < self.nodes@.len() && 0 <= k < SMALL_MODULUS_BITS ==>
            (#[trigger] entry(*self, i, right, k)).bounded(b)
    }

    /// Decomposes every node of `p`.
    pub fn from_path(p: &Path) -> (r: Self)
        ensures
            decomposes(r, *p),
            !r.is_randomized,
            r.binary(),
    {
        let mut nodes: Vec<([SignedPoly; SMALL_MODULUS_BITS], [SignedPoly; SMALL_MODULUS_BITS])> = Vec::new();
        let mut i: usize = 0;
        while i < p.nodes.len()
            invariant
                i <= p.nodes@.len(),
                nodes@.len() == i,
                forall|a: int, right: bool, k: int, j: int|
                    0 <= a < i && 0 <= k < SMALL_MODULUS_BITS && 0 <= j < N ==>
                        (#[trigger] on_path(nodes@[a], right)@[k].coeffs@[j]) as int == bit(on_path(p.nodes@[a], right).vals()[j], k as nat),
                forall|a: int, right: bool, k: int| 0 <= a < i && 0 <= k < SMALL_MODULUS_BITS ==>
                    (#[trigger] on_path(nodes@[a], right)@[k]).binary(),
            decreases p.nodes@.len() - i,
        {
            let l = p.nodes[i].0.decompose();
            let r = p.nodes[i].1.decompose();
            nodes.push((l, r));
            i = i + 1;
        }
        RandomizedPath { nodes, index: p.index, is_randomized: false }
    }

    /// Projects every node back to the small ring.
    pub fn to_path(&self) -> (r: Path)
        ensures
            projects(r, *self),
            forall|i: int, right: bool| 0 <= i < r.nodes@.len() ==> (#[trigger] on_path(r.nodes@[i], right)).wf(),
    {
        let mut nodes: Vec<(SmallPoly, SmallPoly)> = Vec::new();
        let mut i: usize = 0;
        while i < self.nodes.len()
            invariant
                i <= self.nodes@.len(),
                nodes@.len() == i,
                forall|a: int, right: bool| 0 <= a < i ==>
                    (#[trigger] on_path(nodes@[a], right)).vals() == projection_spec(on_path(self.nodes@[a], right)@, q_small())
                    && on_path(nodes@[a], right).wf(),
            decreases self.nodes@.len() - i,
        {
            let l = SmallPoly::projection(self.nodes[i].0.as_slice());
            let r = SmallPoly::projection(self.nodes[i].1.as_slice());
            nodes.push((l, r));
            i = i + 1;
        }
        Path { nodes, index: self.index }
    }

    /// Multiplies every entry by the ternary polynomial `ternary`, once.
    pub fn randomize_with(&mut self, ternary: &SignedPoly)
        requires
            !old(self).is_randomized,
            old(self).binary(),
        ensures
            final(self).is_randomized,
            final(self).index == old(self).index,
            final(self).nodes@.len() == old(self).nodes@.len(),
            final(self).bounded(ALPHA as int),
            forall|i: int, right: bool, k: int, j: int|
                0 <= i < old(self).nodes@.len() && 0 <= k < SMALL_MODULUS_BITS && 0 <= j < N ==>
                    (#[trigger] entry(*final(self), i, right, k).coeffs@[j]) as int == ter_product(*ternary, entry(*old(self), i, right, k).vals(), j),
    {
        let enc = TerPolyCoeffEncoding::from_signed(ternary);
        let ghost before = *self;
        let mut i: usize = 0;
        while i < self.nodes.len()
            invariant
                i <= self.nodes@.len(),
                self.nodes@.len() == before.nodes@.len(),
                self.index == before.index,
                !before.is_randomized,
                before.binary(),
                enc.wf(),
                enc.indices@.map_values(|x: usize| x as int) == encoding_of(*ternary),
                forall|a: int| i <= a < self.nodes@.len() ==> (#[trigger] self.nodes@[a]) == before.nodes@[a],
                forall|a: int, right: bool, k: int| 0 <= a < i && 0 <= k < SMALL_MODULUS_BITS ==>
                    (#[trigger] entry(*self, a, right, k)).bounded(ALPHA as int),
                forall|a: int, right: bool, k: int, j: int|
                    0 <= a < i && 0 <= k < SMALL_MODULUS_BITS && 0 <= j < N ==>
                        (#[trigger] entry(*self, a, right, k).coeffs@[j]) as int == ter_product(*ternary, entry(before, a, right, k).vals(), j),
            decreases self.nodes@.len() - i,
        {
            let (l, r) = self.nodes[i];
            proof {
                assert(self.nodes@[i as int] == before.nodes@[i as int]);
                assert forall|k: int| 0 <= k < SMALL_MODULUS_BITS implies (#[trigger] l@[k]).binary() by {
                    assert(entry(before, i as int, false, k) == l@[k]);
                }
                assert forall|k: int| 0 <= k < SMALL_MODULUS_BITS implies (#[trigger] r@[k]).binary() by {
                    assert(entry(before, i as int, true, k) == r@[k]);
                }
            }
            let nl = randomize_row(&enc, &l);
            let nr = randomize_row(&enc, &r);
            let ghost prev = *self;
            self.nodes.set(i, (nl, nr));
            proof {
                assert forall|a: int, right: bool, k: int, j: int|
                    0 <= a <= i && 0 <= k < SMALL_MODULUS_BITS && 0 <= j < N implies
                        (#[trigger] entry(*self, a, right, k).coeffs@[j]) as int == ter_product(*ternary, entry(before, a, right, k).vals(), j) by {
                    if a == i {
                        let row = if right { r } else { l };
                        let nrow = if right { nr } else { nl };
                        assert(entry(*self, a, right, k) == nrow@[k]);
                        assert(entry(before, a, right, k) == row@[k]);
                        assert(ter_mul_spec(enc.indices@, row@[k].vals(), j) == ter_product(*ternary, row@[k].vals(), j));
                    } else {
                        assert(self.nodes@[a] == prev.nodes@[a]);
                        assert(entry(*self, a, right, k) == entry(prev, a, right, k));
                    }
                }
                assert forall|a: int, right: bool, k: int| 0 <= a <= i && 0 <= k < SMALL_MODULUS_BITS implies
                    (#[trigger] entry(*self, a, right, k)).bounded(ALPHA as int) by {
                    if a == i {
                        let nrow = if right { nr } else { nl };
                        assert(entry(*self, a, right, k) == nrow@[k]);
                    } else {
                        assert(self.nodes@[a] == prev.nodes@[a]);
                        assert(entry(*self, a, right, k) == entry(prev, a, right, k));
                    }
                }
            }
            i = i + 1;
        }
        let ghost done = *self;
        self.is_randomized = true;
        proof {
            assert forall|a: int, right: bool, k: int| 0 <= a < self.nodes@.len() && 0 <= k < SMALL_MODULUS_BITS implies
                #[trigger] entry(*self, a, right, k) == entry(done, a, right, k) by {}
        }
    }

    pub(crate) fn copy_of(&self) -> (r: Self)
        ensures
            r.nodes@ == self.nodes@,
            r.index == self.index,
            r.is_randomized == self.is_randomized,
    {
        let mut nodes: Vec<([SignedPoly; SMALL_MODULUS_BITS], [SignedPoly; SMALL_MODULUS_BITS])> = Vec::new();
        let mut i: usize = 0;
        while i < self.nodes.len()
            invariant
                i <= self.nodes@.len(),
                nodes@ == self.nodes@.take(i as int),
            decreases self.nodes@.len() - i,
        {
            nodes.push(self.nodes[i]);
            i = i + 1;
            assert(nodes@ =~= self.nodes@.take(i as int));
        }
        assert(nodes@ =~= self.nodes@);
        RandomizedPath { nodes, index: self.index, is_randomized: self.is_randomized }
    }
}

/// Multiplies each of the binary rows by the encoded ternary polynomial.
fn randomize_row(enc: &TerPolyCoeffEncoding, row: &[SignedPoly; SMALL_MODULUS_BITS]) -> (r: [SignedPoly; SMALL_MODULUS_BITS])
    requires
        enc.wf(),
        forall|k: int| 0 <= k < SMALL_MODULUS_BITS ==> (#[trigger] row@[k]).binary(),
    ensures
        forall|k: int| 0 <= k < SMALL_MODULUS_BITS ==> (#[trigger] r@[k]).bounded(ALPHA as int),
        forall|k: int, j: int| 0 <= k < SMALL_MODULUS_BITS && 0 <= j < N ==>
            (#[trigger] r@[k].coeffs@[j]) as int == ter_mul_spec(enc.indices@, row@[k].vals(), j),
{
    let mut res = *row;
    let mut k: usize = 0;
    while k < SMALL_MODULUS_BITS
        invariant
            k <= SMALL_MODULUS_BITS,
            enc.wf(),
            forall|a: int| 0 <= a < SMALL_MODULUS_BITS ==> (#[trigger] row@[a]).binary(),
            forall|a: int| 0 <= a < k ==> (#[trigger] res@[a]).bounded(ALPHA as int),
            forall|a: int, j: int| 0 <= a < k && 0 <= j < N ==>
                (#[trigger] res@[a].coeffs@[j]) as int == ter_mul_spec(enc.indices@, row@[a].vals(), j),
        decreases SMALL_MODULUS_BITS - k,
    {
        res[k] = SignedPoly::ter_mul_bin(enc, &row[k]);
        k = k + 1;
    }
    res
}

/// Row `k` of the decomposition of side `right` of level `i` of `p`.
pub open spec fn path_bits(p: Path, i: int, right: bool, k: int) -> Seq<int> {
    Seq::new(N as nat, |j: int| bit(on_path(p.nodes@[i], right).vals()[j], k as nat))
}

/// `sum_{p < m}` of entry `(i, right, k, j)` of the decomposition of path
/// `p` randomized by `rs[p]`.
pub open spec fn aggregated_path_entry(paths: Seq<Path>, rs: Seq<SignedPoly>, i: int, right: bool, k: int, j: int, m: int) -> int
    decreases m,
{
    if m <= 0 {
        0
    } else {
        aggregated_path_entry(paths, rs, i, right, k, j, m - 1) + ter_product(rs[m - 1], path_bits(paths[m - 1], i, right, k), j)
    }
}

/// `agg` sums the decompositions of `paths` randomized by `rs`.
pub open spec fn paths_aggregated_with(agg: RandomizedPath, paths: Seq<Path>, rs: Seq<SignedPoly>) -> bool {
    forall|i: int, right: bool, k: int, j: int|
        0 <= i < agg.nodes@.len() && 0 <= k < SMALL_MODULUS_BITS && 0 <= j < N ==>
            (#[trigger] entry(agg, i, right, k).coeffs@[j]) as int == aggregated_path_entry(paths, rs, i, right, k, j, paths.len() as int)
}

impl RandomizedPath {
    /// Whether every entry is binary.
    pub fn is_binary(&self) -> (r: bool)
        ensures
            r == self.binary(),
    {
        let mut i: usize = 0;
        while i < self.nodes.len()
            invariant
                i <= self.nodes@.len(),
                forall|a: int, right: bool, k: int| 0 <= a < i && 0 <= k < SMALL_MODULUS_BITS ==>
                    (#[trigger] entry(*self, a, right, k)).binary(),
            decreases self.nodes@.len() - i,
        {
            let mut k: usize = 0;
            while k < SMALL_MODULUS_BITS
                invariant
                    k <= SMALL_MODULUS_BITS,
                    i < self.nodes@.len(),
                    forall|a: int, right: bool, c: int| 0 <= a < i && 0 <= c < SMALL_MODULUS_BITS ==>
                        (#[trigger] entry(*self, a, right, c)).binary(),
                    forall|right: bool, c: int| 0 <= c < k ==> (#[trigger] entry(*self, i as int, right, c)).binary(),
                decreases SMALL_MODULUS_BITS - k,
            {
                if !self.nodes[i].0[k].is_binary() {
                    assert(entry(*self, i as int, false, k as int) == self.nodes@[i as int].0@[k as int]);
                    return false;
                }
                if !self.nodes[i].1[k].is_binary() {
                    assert(entry(*self, i as int, true, k as int) == self.nodes@[i as int].1@[k as int]);
                    return false;
                }
                k = k + 1;
            }
            i = i + 1;
        }
        true
    }

    /// Adds `other` entry-wise, without reduction.
    pub fn add_assign(&mut self, other: Self)
        requires
            old(self).index == other.index,
            old(self).nodes@.len() == other.nodes@.len(),
            forall|i: int, right: bool, k: int, j: int|
                0 <= i < other.nodes@.len() && 0 <= k < SMALL_MODULUS_BITS && 0 <= j < N ==>
                    i32::MIN <= #[trigger] entry(*old(self), i, right, k).coeffs@[j] + entry(other, i, right, k).coeffs@[j] <= i32::MAX,
        ensures
            final(self).index == old(self).index,
            final(self).is_randomized == old(self).is_randomized,
            final(self).nodes@.len() == old(self).nodes@.len(),
            forall|i: int, right: bool, k: int, j: int|
                0 <= i < other.nodes@.len() && 0 <= k < SMALL_MODULUS_BITS && 0 <= j < N ==>
                    (#[trigger] entry(*final(self), i, right, k).coeffs@[j]) == entry(*old(self), i, right, k).coeffs@[j] + entry(other, i, right, k).coeffs@[j],
    {
        let ghost before = *self;
        let mut i: usize = 0;
        while i < self.nodes.len()
            invariant
                i <= self.nodes@.len(),
                self.nodes@.len() == before.nodes@.len(),
                self.nodes@.len() == other.nodes@.len(),
                self.index == before.index,
                self.is_randomized == before.is_randomized,
                forall|a: int| i <= a < self.nodes@.len() ==> (#[trigger] self.nodes@[a]) == before.nodes@[a],
                forall|a: int, right: bool, k: int, j: int|
                    0 <= a < other.nodes@.len() && 0 <= k < SMALL_MODULUS_BITS && 0 <= j < N ==>
                        i32::MIN <= #[trigger] entry(before, a, right, k).coeffs@[j] + entry(other, a, right, k).coeffs@[j] <= i32::MAX,
                forall|a: int, right: bool, k: int, j: int|
                    0 <= a < i && 0 <= k < SMALL_MODULUS_BITS && 0 <= j < N ==>
                        (#[trigger] entry(*self, a, right, k).coeffs@[j]) == entry(before, a, right, k).coeffs@[j] + entry(other, a, right, k).coeffs@[j],
            decreases self.nodes@.len() - i,
        {
            let (l, r) = self.nodes[i];
            let (ol, or) = other.nodes[i];
            proof {
                assert(self.nodes@[i as int] == before.nodes@[i as int]);
                assert forall|k: int, j: int| 0 <= k < SMALL_MODULUS_BITS && 0 <= j < N implies
                    i32::MIN <= #[trigger] l@[k].coeffs@[j] + ol@[k].coeffs@[j] <= i32::MAX by {
                    assert(entry(before, i as int, false, k) == l@[k]);
                    assert(entry(other, i as int, false, k) == ol@[k]);
                }
                assert forall|k: int, j: int| 0 <= k < SMALL_MODULUS_BITS && 0 <= j < N implies
                    i32::MIN <= #[trigger] r@[k].coeffs@[j] + or@[k].coeffs@[j] <= i32::MAX by {
                    assert(entry(before, i as int, true, k) == r@[k]);
                    assert(entry(other, i as int, true, k) == or@[k]);
                }
            }
            let nl = add_rows(&l, &ol);
            let nr = add_rows(&r, &or);
            let ghost prev = *self;
            self.nodes.set(i, (nl, nr));
            proof {
                assert forall|a: int, right: bool, k: int, j: int|
                    0 <= a <= i && 0 <= k < SMALL_MODULUS_BITS && 0 <= j < N implies
                        (#[trigger] entry(*self, a, right, k).coeffs@[j]) == entry(before, a, right, k).coeffs@[j] + entry(other, a, right, k).coeffs@[j] by {
                    if a == i {
                        let row = if right { r } else { l };
                        let orow = if right { or } else { ol };
                        let nrow = if right { nr } else { nl };
                        assert(entry(*self, a, right, k) == nrow@[k]);
                        assert(entry(before, a, right, k) == row@[k]);
                        assert(entry(other, a, right, k) == orow@[k]);
                    } else {
                        assert(self.nodes@[a] == prev.nodes@[a]);
                        assert(entry(*self, a, right, k) == entry(prev, a, right, k));
                    }
                }
            }
            i = i + 1;
        }
    }

    /// Randomizes each path by its randomizer and sums the results
    /// entry-wise, without reduction.
    pub fn aggregate_with_randomizers(paths: &[Self], randomizers: &Randomizers) -> (r: Self)
        requires
            1 <= paths@.len() <= 0x100_0000,
            randomizers.poly@.len() == paths@.len(),
            forall|p: int| 0 <= p < paths@.len() ==> !(#[trigger] paths@[p]).is_randomized && paths@[p].binary(),
            forall|p: int| 0 <= p < paths@.len() ==> (#[trigger] paths@[p]).index == paths@[0].index,
            forall|p: int| 0 <= p < paths@.len() ==> (#[trigger] paths@[p]).nodes@.len() == paths@[0].nodes@.len(),
        ensures
            r.index == paths@[0].index,
            r.nodes@.len() == paths@[0].nodes@.len(),
            r.is_randomized,
            forall|i: int, right: bool, k: int, j: int|
                0 <= i < r.nodes@.len() && 0 <= k < SMALL_MODULUS_BITS && 0 <= j < N ==>
                    (#[trigger] entry(r, i, right, k).coeffs@[j]) as int == aggregated_entry(paths@, randomizers.poly@, i, right, k, j, paths@.len() as int),
    {
        let ghost ps = paths@;
        let ghost rs = randomizers.poly@;
        let mut res = paths[0].copy_of();
        proof {
            assert(!ps[0].is_randomized && ps[0].binary());
            assert forall|i: int, right: bool, k: int| 0 <= i < res.nodes@.len() && 0 <= k < SMALL_MODULUS_BITS implies
                (#[trigger] entry(res, i, right, k)).binary() by {
                assert(entry(res, i, right, k) == entry(ps[0], i, right, k));
            }
        }
        let ghost fresh0 = res;
        res.randomize_with(&randomizers.poly[0]);
        proof {
            assert forall|i: int, right: bool, k: int, j: int|
                0 <= i < res.nodes@.len() && 0 <= k < SMALL_MODULUS_BITS && 0 <= j < N implies
                    (#[trigger] entry(res, i, right, k).coeffs@[j]) as int == aggregated_entry(ps, rs, i, right, k, j, 1) by {
                assert(entry(fresh0, i, right, k) == entry(ps[0], i, right, k));
                assert(aggregated_entry(ps, rs, i, right, k, j, 0) == 0);
            }
        }
        let mut p: usize = 1;
        while p < paths.len()
            invariant
                1 <= p <= paths@.len(),
                paths@.len() <= 0x100_0000,
                ps == paths@,
                rs == randomizers.poly@,
                rs.len() == ps.len(),
                forall|q: int| 0 <= q < ps.len() ==> !(#[trigger] ps[q]).is_randomized && ps[q].binary(),
                forall|q: int| 0 <= q < ps.len() ==> (#[trigger] ps[q]).index == ps[0].index,
                forall|q: int| 0 <= q < ps.len() ==> (#[trigger] ps[q]).nodes@.len() == ps[0].nodes@.len(),
                res.index == ps[0].index,
                res.nodes@.len() == ps[0].nodes@.len(),
                res.is_randomized,
                res.bounded(p * ALPHA),
                forall|i: int, right: bool, k: int, j: int|
                    0 <= i < res.nodes@.len() && 0 <= k < SMALL_MODULUS_BITS && 0 <= j < N ==>
                        (#[trigger] entry(res, i, right, k).coeffs@[j]) as int == aggregated_entry(ps, rs, i, right, k, j, p as int),
            decreases paths@.len() - p,
        {
            let mut tmp = paths[p].copy_of();
            proof {
                assert forall|i: int, right: bool, k: int| 0 <= i < tmp.nodes@.len() && 0 <= k < SMALL_MODULUS_BITS implies
                    (#[trigger] entry(tmp, i, right, k)).binary() by {
                    assert(entry(tmp, i, right, k) == entry(ps[p as int], i, right, k));
                }
            }
            let ghost fresh = tmp;
            tmp.randomize_with(&randomizers.poly[p]);
            let ghost acc = res;
            proof {
                assert forall|i: int, right: bool, k: int, j: int|
                    0 <= i < tmp.nodes@.len() && 0 <= k < SMALL_MODULUS_BITS && 0 <= j < N implies
                        i32::MIN <= #[trigger] entry(acc, i, right, k).coeffs@[j] + entry(tmp, i, right, k).coeffs@[j] <= i32::MAX by {
                    assert(entry(acc, i, right, k).bounded(p * ALPHA));
                    assert(entry(tmp, i, right, k).bounded(ALPHA as int));
                }
            }
            res.add_assign(tmp);
            proof {
                assert forall|i: int, right: bool, k: int, j: int|
                    0 <= i < res.nodes@.len() && 0 <= k < SMALL_MODULUS_BITS && 0 <= j < N implies
                        (#[trigger] entry(res, i, right, k).coeffs@[j]) as int == aggregated_entry(ps, rs, i, right, k, j, p + 1) by {
                    assert(entry(fresh, i, right, k) == entry(ps[p as int], i, right, k));
                }
                assert forall|i: int, right: bool, k: int| 0 <= i < res.nodes@.len() && 0 <= k < SMALL_MODULUS_BITS implies
                    (#[trigger] entry(res, i, right, k)).bounded((p + 1) * ALPHA) by {
                    assert(entry(acc, i, right, k).bounded(p * ALPHA));
                    assert(entry(tmp, i, right, k).bounded(ALPHA as int));
                }
            }
            p = p + 1;
        }
        res
    }
}

/// Entry-wise sums of two rows of signed polynomials.
fn add_rows(a: &[SignedPoly; SMALL_MODULUS_BITS], b: &[SignedPoly; SMALL_MODULUS_BITS]) -> (r: [SignedPoly; SMALL_MODULUS_BITS])
    requires
        forall|k: int, j: int| 0 <= k < SMALL_MODULUS_BITS && 0 <= j < N ==>
            i32::MIN <= #[trigger] a@[k].coeffs@[j] + b@[k].coeffs@[j] <= i32::MAX,
    ensures
        forall|k: int, j: int| 0 <= k < SMALL_MODULUS_BITS && 0 <= j < N ==>
            (#[trigger] r@[k].coeffs@[j]) == a@[k].coeffs@[j] + b@[k].coeffs@[j],
{
    let mut res = *a;
    let mut k: usize = 0;
    while k < SMALL_MODULUS_BITS
        invariant
            k <= SMALL_MODULUS_BITS,
            forall|c: int, j: int| 0 <= c < SMALL_MODULUS_BITS && 0 <= j < N ==>
                i32::MIN <= #[trigger] a@[c].coeffs@[j] + b@[c].coeffs@[j] <= i32::MAX,
            forall|c: int| k <= c < SMALL_MODULUS_BITS ==> (#[trigger] res@[c]) == a@[c],
            forall|c: int, j: int| 0 <= c < k && 0 <= j < N ==>
                (#[trigger] res@[c].coeffs@[j]) == a@[c].coeffs@[j] + b@[c].coeffs@[j],
        decreases SMALL_MODULUS_BITS - k,
    {
        res[k] = a[k].add(b[k]);
        k = k + 1;
    }
    res
}

impl RandomizedPath {
    /// Checks the aggregated opening against the roots of the signers,
    /// given the randomizers of those roots: the expected top is
    /// `sum_j r_j * root_j` in the small ring.
    pub fn verify_with_randomizers(&self, roots: &[SmallPoly], randomizers: &Randomizers, hasher: &HVCHash) -> (r: bool)
        requires
            hasher.wf(),
            randomizers.poly@.len() == roots@.len(),
            forall|j: int| 0 <= j < roots@.len() ==> (#[trigger] roots@[j]).wf(),
        ensures
            r == randomized_path_valid(hasher.param_h@, *self, aggregated_root(roots@, randomizers.poly@, roots@.len() as int)),
    {
        let ghost rs = randomizers.poly@;
        let mut root = SmallPoly::default();
        assert(root.vals() =~= aggregated_root(roots@, rs, 0));
        let mut j: usize = 0;
        while j < roots.len()
            invariant
                j <= roots@.len(),
                rs == randomizers.poly@,
                rs.len() == roots@.len(),
                forall|t: int| 0 <= t < roots@.len() ==> (#[trigger] roots@[t]).wf(),
                root.wf(),
                root.vals() == aggregated_root(roots@, rs, j as int),
            decreases roots@.len() - j,
        {
            let lifted = randomizers.poly[j].lifted_small();
            root.add_assign(lifted.mul(roots[j]));
            j = j + 1;
        }
        let len = self.nodes.len();
        if len == 0 {
            return false;
        }
        let top = hasher.hash_separate_inputs(self.nodes[0].0.as_slice(), self.nodes[0].1.as_slice());
        if !top.equals(&root) {
            return false;
        }
        let bits = index_bits(self.index, len);
        let mut i: usize = 1;
        while i < len
            invariant
                1 <= i <= len,
                len == self.nodes@.len(),
                hasher.wf(),
                bits@.len() == len,
                forall|k: int| 0 <= k < len ==> (#[trigger] bits@[k]) == (bit(self.index as int, k as nat) == 1),
                forall|k: int| 1 <= k < i ==>
                    #[trigger] hash_spec(hasher.param_h@, lifted_vals(self.nodes@[k].0@ + self.nodes@[k].1@))
                        == projection_spec(on_path(self.nodes@[k - 1], bit(self.index as int, (len - k) as nat) == 1)@, q_small()),
            decreases len - i,
        {
            let digest = hasher.hash_separate_inputs(self.nodes[i].0.as_slice(), self.nodes[i].1.as_slice());
            let expected = if bits[len - i] {
                SmallPoly::projection(self.nodes[i - 1].1.as_slice())
            } else {
                SmallPoly::projection(self.nodes[i - 1].0.as_slice())
            };
            if !digest.equals(&expected) {
                return false;
            }
            i = i + 1;
        }
        true
    }

    /// Checks the aggregated opening against the roots of the signers,
    /// with the randomizers derived from those roots.
    pub fn verify(&self, roots: &[SmallPoly], hasher: &HVCHash) -> (r: bool)
        requires
            hasher.wf(),
            forall|j: int| 0 <= j < roots@.len() ==> (#[trigger] roots@[j]).wf(),
        ensures
            forall|rs: Seq<SignedPoly>| #[trigger] randomizers_of(rs, roots@)
                ==> r == randomized_path_valid(hasher.param_h@, *self, aggregated_root(roots@, rs, roots@.len() as int)),
    {
        let randomizers = Randomizers::from_pks(roots);
        let r = self.verify_with_randomizers(roots, &randomizers, hasher);
        proof {
            assert forall|rs: Seq<SignedPoly>| #[trigger] randomizers_of(rs, roots@)
                implies r == randomized_path_valid(hasher.param_h@, *self, aggregated_root(roots@, rs, roots@.len() as int)) by {
                lemma_randomizers_unique(rs, randomizers.poly@, roots@);
            }
        }
        r
    }
}

impl Path {
    /// Decomposes the paths, randomizes each by its randomizer and sums
    /// them; all paths share one index and one length.
    pub fn aggregate_with_randomizers(paths: &[Self], randomizers: &Randomizers) -> (r: RandomizedPath)
        requires
            1 <= paths@.len() <= 0x100_0000,
            randomizers.poly@.len() == paths@.len(),
            forall|p: int| 0 <= p < paths@.len() ==> (#[trigger] paths@[p]).index == paths@[0].index,
            forall|p: int| 0 <= p < paths@.len() ==> (#[trigger] paths@[p]).nodes@.len() == paths@[0].nodes@.len(),
        ensures
            r.index == paths@[0].index,
            r.nodes@.len() == paths@[0].nodes@.len(),
            r.is_randomized,
            forall|i: int, right: bool, k: int, j: int|
                0 <= i < r.nodes@.len() && 0 <= k < SMALL_MODULUS_BITS && 0 <= j < N ==>
                    (#[trigger] entry(r, i, right, k).coeffs@[j]) as int
                        == aggregated_path_entry(paths@, randomizers.poly@, i, right, k, j, paths@.len() as int),
    {
        let mut rps: Vec<RandomizedPath> = Vec::new();
        let mut p: usize = 0;
        while p < paths.len()
            invariant
                p <= paths@.len(),
                rps@.len() == p,
                forall|q: int| 0 <= q < p ==> decomposes(#[trigger] rps@[q], paths@[q]),
                forall|q: int| 0 <= q < p ==> !(#[trigger] rps@[q]).is_randomized && rps@[q].binary(),
            decreases paths@.len() - p,
        {
            rps.push(RandomizedPath::from_path(&paths[p]));
            p = p + 1;
        }
        let r = RandomizedPath::aggregate_with_randomizers(rps.as_slice(), randomizers);
        proof {
            assert forall|i: int, right: bool, k: int, j: int|
                0 <= i < r.nodes@.len() && 0 <= k < SMALL_MODULUS_BITS && 0 <= j < N implies
                    (#[trigger] entry(r, i, right, k).coeffs@[j]) as int
                        == aggregated_path_entry(paths@, randomizers.poly@, i, right, k, j, paths@.len() as int) by {
                assert forall|q: int| 0 <= q < rps@.len() implies i < (#[trigger] rps@[q]).nodes@.len() by {
                    assert(decomposes(rps@[q], paths@[q]));
                }
                lemma_aggregated_entries(rps@, paths@, randomizers.poly@, i, right, k, j, paths@.len() as int);
            }
        }
        r
    }

    /// Aggregates openings of one index with the randomizers derived from
    /// `roots`.
    pub fn aggregation(paths: &[Self], roots: &[SmallPoly]) -> (r: RandomizedPath)
        requires
            1 <= paths@.len() <= 0x100_0000,
            roots@.len() == paths@.len(),
            forall|p: int| 0 <= p < paths@.len() ==> (#[trigger] paths@[p]).index == paths@[0].index,
            forall|p: int| 0 <= p < paths@.len() ==> (#[trigger] paths@[p]).nodes@.len() == paths@[0].nodes@.len(),
        ensures
            r.index == paths@[0].index,
            r.nodes@.len() == paths@[0].nodes@.len(),
            r.is_randomized,
            forall|rs: Seq<SignedPoly>| #[trigger] randomizers_of(rs, roots@) ==> paths_aggregated_with(r, paths@, rs),
    {
        let randomizers = Randomizers::from_pks(roots);
        let r = Self::aggregate_with_randomizers(paths, &randomizers);
        proof {
            assert forall|rs: Seq<SignedPoly>| #[trigger] randomizers_of(rs, roots@) implies paths_aggregated_with(r, paths@, rs) by {
                lemma_randomizers_unique(rs, randomizers.poly@, roots@);
            }
        }
        r
    }
}

proof fn lemma_aggregated_entries(rps: Seq<RandomizedPath>, paths: Seq<Path>, rs: Seq<SignedPoly>, i: int, right: bool, k: int, j: int, m: int)
    requires
        0 <= m <= rps.len(),
        rps.len() == paths.len(),
        0 <= k < SMALL_MODULUS_BITS,
        forall|q: int| 0 <= q < rps.len() ==> decomposes(#[trigger] rps[q], paths[q]),
        0 <= i,
        forall|q: int| 0 <= q < rps.len() ==> i < (#[trigger] rps[q]).nodes@.len(),
    ensures
        aggregated_entry(rps, rs, i, right, k, j, m) == aggregated_path_entry(paths, rs, i, right, k, j, m),
    decreases m,
{
    if m > 0 {
        lemma_aggregated_entries(rps, paths, rs, i, right, k, j, m - 1);
        let q = m - 1;
        assert(decomposes(rps[q], paths[q]));
        assert(entry(rps[q], i, right, k).vals() =~= path_bits(paths[q], i, right, k));
    }
}

/// Decomposing an opening with reduced nodes and projecting it back gives
/// the opening again.
pub proof fn lemma_path_round_trip(p: Path, rp: RandomizedPath, back: Path)
    requires
        forall|i: int, right: bool| 0 <= i < p.nodes@.len() ==> (#[trigger] on_path(p.nodes@[i], right)).wf(),
        decomposes(rp, p),
        projects(back, rp),
    ensures
        back.nodes@ == p.nodes@,
        back.index == p.index,
{
    assert forall|i: int| 0 <= i < p.nodes@.len() implies #[trigger] back.nodes@[i] == p.nodes@[i] by {
        assert forall|right: bool| #[trigger] on_path(back.nodes@[i], right) == on_path(p.nodes@[i], right) by {
            let a = on_path(p.nodes@[i], right);
            let b = on_path(back.nodes@[i], right);
            let d = on_path(rp.nodes@[i], right)@;
            assert forall|k: int, j: int| 0 <= k < SMALL_MODULUS_BITS && 0 <= j < N implies
                (#[trigger] d[k].coeffs@[j]) as int == bit(a.vals()[j], k as nat) by {
                assert(entry(rp, i, right, k) == d[k]);
            }
            lemma_small_projection_decompose(a, d);
            assert(b.coeffs@ =~= a.coeffs@) by {
                assert forall|j: int| 0 <= j < N implies b.coeffs@[j] == a.coeffs@[j] by {
                    assert(b.vals()[j] == a.vals()[j]);
                }
            }
            assert(b.coeffs == a.coeffs);
        }
        assert(on_path(back.nodes@[i], true) == on_path(p.nodes@[i], true));
        assert(on_path(back.nodes@[i], false) == on_path(p.nodes@[i], false));
    }
    assert(back.nodes@ =~= p.nodes@);
}

} // verus!
