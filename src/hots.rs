//! The homomorphic one-time signature: keys derived from a seed and a
//! counter, signatures and public keys that combine linearly under ternary
//! randomizers.
use vstd::prelude::*;
use crate::primitives::ChaChaStream;
use crate::param::{N, GAMMA, BETA_S, ALPHA, LARGE_MODULUS_BITS, LARGE_MODULUS, LARGE_SAMPLE_THRESHOLD};
use crate::sampling::uniform_polys;
use crate::arith::{bit, add_spec, pointwise_spec, reduce};
use crate::poly::{SignedPoly, LargePoly, LargeNTTPoly, SmallPoly, TerPolyCoeffEncoding, q_large, ter_product, ter_mul_spec};
use crate::large_poly::{large_ntt, large_inv_ntt, lemma_large_projection_decompose};
use crate::small_poly::projection_spec;
use crate::hvc_hash::{hash_spec, lifted_vals, bit_rows};
use crate::hots_hash::HOTSHash;
use crate::randomizer::{Randomizers, randomizers_of, lemma_randomizers_unique};
use crate::sampling::{msg_coeffs, beta_polys_spec, sparse_polys_spec};
use crate::primitives::{sha256, sha256_of};
use crate::count::count;

verus! {

/// The product of two large-ring polynomials through the transform.
pub open spec fn large_mul_spec(a: Seq<int>, b: Seq<int>) -> Seq<int> {
    large_inv_ntt(pointwise_spec(large_ntt(a), large_ntt(b), q_large()))
}

/// `sum_{i < m} a_i * s_i`, each product brought back to coefficient form.
pub open spec fn key_sum(a: Seq<LargeNTTPoly>, s: Seq<LargeNTTPoly>, m: int) -> Seq<int>
    decreases m,
{
    if m <= 0 {
        Seq::new(N as nat, |j: int| 0)
    } else {
        add_spec(key_sum(a, s, m - 1), large_inv_ntt(pointwise_spec(a[m - 1].vals(), s[m - 1].vals(), q_large())), q_large())
    }
}

/// `sum_{i < m} a_i * ntt(sigma_i)` in transform form.
pub open spec fn verify_left(a: Seq<LargeNTTPoly>, sigma: Seq<LargePoly>, m: int) -> Seq<int>
    decreases m,
{
    if m <= 0 {
        Seq::new(N as nat, |j: int| 0)
    } else {
        add_spec(verify_left(a, sigma, m - 1), pointwise_spec(a[m - 1].vals(), large_ntt(sigma[m - 1].vals()), q_large()), q_large())
    }
}

/// `h * ntt(v0) + ntt(v1)` in transform form.
pub open spec fn verify_right(hm: Seq<int>, v0: Seq<int>, v1: Seq<int>) -> Seq<int> {
    add_spec(pointwise_spec(hm, large_ntt(v0), q_large()), large_ntt(v1), q_large())
}

/// `sum_{p < m} x_p * r_p` in the large ring, summed from `x_0 * r_0` on.
pub open spec fn randomized_sum(xs: Seq<Seq<int>>, rs: Seq<SignedPoly>, m: int) -> Seq<int>
    decreases m,
{
    if m <= 1 {
        large_mul_spec(xs[0], reduce(rs[0].vals(), q_large()))
    } else {
        add_spec(randomized_sum(xs, rs, m - 1), large_mul_spec(xs[m - 1], reduce(rs[m - 1].vals(), q_large())), q_large())
    }
}

/// The first parts `v0` of a list of keys.
pub open spec fn first_parts(pks: Seq<HotsPK>) -> Seq<Seq<int>> {
    pks.map_values(|k: HotsPK| k.v0.vals())
}

/// The second parts `v1` of a list of keys.
pub open spec fn second_parts(pks: Seq<HotsPK>) -> Seq<Seq<int>> {
    pks.map_values(|k: HotsPK| k.v1.vals())
}

/// Component `i` of each of a list of signatures.
pub open spec fn components(sigs: Seq<HotsSig>, i: int) -> Seq<Seq<int>> {
    sigs.map_values(|s: HotsSig| s.sigma@[i].vals())
}

/// The transform of a signed coefficient sequence reduced into the large
/// ring.
pub open spec fn transform_of(c: Seq<i32>) -> Seq<int> {
    large_ntt(reduce(c.map_values(|x: i32| x as int), q_large()))
}

/// The message polynomial of `m` in the large ring, in transform form.
pub open spec fn msg_ntt(m: Seq<u8>) -> Seq<int> {
    transform_of(msg_coeffs(m))
}

/// The eight big-endian bytes of `c`.
pub open spec fn be_bytes(c: u64) -> Seq<u8> {
    Seq::new(8, |t: int| ((c >> ((56 - 8 * t) as u64)) & 0xFF) as u8)
}

/// The seed of the generator of secret key number `counter` of `seed`.
pub open spec fn key_seed(seed: Seq<u8>, counter: nat) -> Seq<u8> {
    sha256_of(seed + be_bytes(counter as u64))
}

/// The coefficients of the first secret components of key `counter` of
/// `seed`.
pub open spec fn derived_s0(seed: Seq<u8>, counter: nat) -> Seq<Seq<i32>> {
    beta_polys_spec(key_seed(seed, counter), 0, GAMMA as nat).0
}

/// The coefficients of the second secret components of key `counter` of
/// `seed`, drawn after the first ones.
pub open spec fn derived_s1(seed: Seq<u8>, counter: nat) -> Seq<Seq<i32>> {
    let ks = key_seed(seed, counter);
    sparse_polys_spec(ks, beta_polys_spec(ks, 0, GAMMA as nat).1, GAMMA as nat, BETA_S as nat).0
}

/// The message polynomial of `message`, in transform form.
pub fn message_transform(message: &[u8]) -> (r: LargeNTTPoly)
    ensures
        r.wf(),
        r.vals() == msg_ntt(message@),
{
    let m = SignedPoly::from_hash_message(message);
    assert(m.vals() == msg_coeffs(message@).map_values(|c: i32| c as int));
    LargeNTTPoly::from_signed(&m)
}

/// `xs[0] + ... + xs[m - 1]` in the large ring.
pub open spec fn component_sum(xs: Seq<Seq<int>>, m: int) -> Seq<int>
    decreases m,
{
    if m <= 1 {
        xs[0]
    } else {
        add_spec(component_sum(xs, m - 1), xs[m - 1], q_large())
    }
}

/// The public parameters: `GAMMA` uniform large-ring polynomials, in
/// transform form.
#[derive(Debug, Clone, Copy)]
pub struct HotsParam {
    pub a: [LargeNTTPoly; GAMMA],
}

/// A one-time secret key, in transform form.
#[derive(Debug, Clone, Copy)]
pub struct HotsSK {
    pub s0: [LargeNTTPoly; GAMMA],
    pub s1: [LargeNTTPoly; GAMMA],
}

/// A one-time public key `(v0, v1) = (sum a_i s0_i, sum a_i s1_i)`.
#[derive(Debug, Clone, Copy)]
pub struct HotsPK {
    pub v0: LargePoly,
    pub v1: LargePoly,
}

/// A one-time signature: `GAMMA` large-ring polynomials.
#[derive(Debug, Clone, Copy)]
pub struct HotsSig {
    pub sigma: [LargePoly; GAMMA],
    pub is_randomized: bool,
}

/// A public key kept as the base-2 decompositions of its two parts.
#[derive(Debug, Clone, Copy)]
pub struct RandomizedHOTSPK {
    pub v0: [SignedPoly; LARGE_MODULUS_BITS],
    pub v1: [SignedPoly; LARGE_MODULUS_BITS],
    pub is_randomized: bool,
}

/// The scheme.
pub struct HOTS;

impl HotsParam {
    /// Whether every parameter is well formed.
    pub fn is_well_formed(&self) -> (r: bool)
        ensures
            r == self.wf(),
    {
        let mut i: usize = 0;
        while i < GAMMA
            invariant
                i <= GAMMA,
                forall|k: int| 0 <= k < i ==> (#[trigger] self.a@[k]).wf(),
            decreases GAMMA - i,
        {
            if !self.a[i].is_reduced() {
                return false;
            }
            i = i + 1;
        }
        true
    }

    pub open spec fn wf(&self) -> bool {
        forall|i: int| 0 <= i < GAMMA ==> (#[trigger] self.a@[i]).wf()
    }
}

/// `x` is the transform of a polynomial with coefficients in
/// `[-BETA_S, BETA_S]`.
pub open spec fn bounded_part(x: LargeNTTPoly) -> bool {
    exists|p: SignedPoly| p.bounded(BETA_S as int) && x.vals() == #[trigger] large_ntt(reduce(p.vals(), q_large()))
}

/// `x` is the transform of a ternary polynomial of weight `BETA_S`.
pub open spec fn sparse_part(x: LargeNTTPoly) -> bool {
    exists|p: SignedPoly| p.ternary() && count(p.coeffs@, 1) + count(p.coeffs@, -1i32) == BETA_S
        && x.vals() == #[trigger] large_ntt(reduce(p.vals(), q_large()))
}

impl HotsSK {
    /// Whether every component is well formed.
    pub fn is_well_formed(&self) -> (r: bool)
        ensures
            r == self.wf(),
    {
        let mut i: usize = 0;
        while i < GAMMA
            invariant
                i <= GAMMA,
                forall|k: int| 0 <= k < i ==> (#[trigger] self.s0@[k]).wf(),
                forall|k: int| 0 <= k < i ==> (#[trigger] self.s1@[k]).wf(),
            decreases GAMMA - i,
        {
            if !self.s0[i].is_reduced() || !self.s1[i].is_reduced() {
                return false;
            }
            i = i + 1;
        }
        true
    }

    /// The key is secret key number `counter` of `seed`.
    pub open spec fn derived_from(&self, seed: Seq<u8>, counter: nat) -> bool {
        &&& forall|i: int| 0 <= i < GAMMA ==> (#[trigger] self.s0@[i]).vals() == transform_of(derived_s0(seed, counter)[i])
        &&& forall|i: int| 0 <= i < GAMMA ==> (#[trigger] self.s1@[i]).vals() == transform_of(derived_s1(seed, counter)[i])
    }

    /// The shape of a derived key: `s0_i` bounded by `BETA_S`, `s1_i`
    /// ternary of weight `BETA_S`.
    pub open spec fn shaped(&self) -> bool {
        &&& forall|i: int| 0 <= i < GAMMA ==> bounded_part(#[trigger] self.s0@[i])
        &&& forall|i: int| 0 <= i < GAMMA ==> sparse_part(#[trigger] self.s1@[i])
    }

    pub open spec fn wf(&self) -> bool {
        &&& forall|i: int| 0 <= i < GAMMA ==> (#[trigger] self.s0@[i]).wf()
        &&& forall|i: int| 0 <= i < GAMMA ==> (#[trigger] self.s1@[i]).wf()
    }
}

impl HotsSig {
    pub open spec fn wf(&self) -> bool {
        forall|i: int| 0 <= i < GAMMA ==> (#[trigger] self.sigma@[i]).wf()
    }

    /// The signature of the secret key `sk` for the message polynomial `hm`
    /// (in transform form): `sigma_i = s0_i * hm + s1_i`.
    pub open spec fn signs(&self, sk: HotsSK, hm: Seq<int>) -> bool {
        forall|i: int| 0 <= i < GAMMA ==>
            (#[trigger] self.sigma@[i]).vals() == large_inv_ntt(add_spec(pointwise_spec(sk.s0@[i].vals(), hm, q_large()), sk.s1@[i].vals(), q_large()))
    }
}

impl HotsPK {
    pub open spec fn wf(&self) -> bool {
        self.v0.wf() && self.v1.wf()
    }

    /// The public key of `sk` under the parameters `pp`.
    pub open spec fn of(&self, sk: HotsSK, pp: HotsParam) -> bool {
        &&& self.v0.vals() == key_sum(pp.a@, sk.s0@, GAMMA as int)
        &&& self.v1.vals() == key_sum(pp.a@, sk.s1@, GAMMA as int)
    }
}

/// `rpk` holds the decompositions of the two parts of `pk`.
pub open spec fn key_decomposes(rpk: RandomizedHOTSPK, pk: HotsPK) -> bool {
    &&& forall|k: int, j: int| 0 <= k < LARGE_MODULUS_BITS && 0 <= j < N ==>
        (#[trigger] rpk.v0@[k].coeffs@[j]) as int == bit(pk.v0.vals()[j], k as nat)
    &&& forall|k: int, j: int| 0 <= k < LARGE_MODULUS_BITS && 0 <= j < N ==>
        (#[trigger] rpk.v1@[k].coeffs@[j]) as int == bit(pk.v1.vals()[j], k as nat)
}

/// Row `k` of part `second` (`v1` if true, else `v0`) of a decomposed key.
pub open spec fn pk_entry(pk: RandomizedHOTSPK, second: bool, k: int) -> SignedPoly {
    if second {
        pk.v1@[k]
    } else {
        pk.v0@[k]
    }
}

/// `sum_{p < m}` of coefficient `j` of row `k` of part `second` of key `p`
/// randomized by `rs[p]`.
pub open spec fn aggregated_pk_entry(pks: Seq<RandomizedHOTSPK>, rs: Seq<SignedPoly>, second: bool, k: int, j: int, m: int) -> int
    decreases m,
{
    if m <= 0 {
        0
    } else {
        aggregated_pk_entry(pks, rs, second, k, j, m - 1) + ter_product(rs[m - 1], pk_entry(pks[m - 1], second, k).vals(), j)
    }
}

/// `agg` sums the decomposed keys `pks` randomized by `rs`.
pub open spec fn keys_aggregated_with(agg: RandomizedHOTSPK, pks: Seq<RandomizedHOTSPK>, rs: Seq<SignedPoly>) -> bool {
    forall|second: bool, k: int, j: int| 0 <= k < LARGE_MODULUS_BITS && 0 <= j < N ==>
        (#[trigger] pk_entry(agg, second, k).coeffs@[j]) as int == aggregated_pk_entry(pks, rs, second, k, j, pks.len() as int)
}

/// `agg` sums the signatures `sigs` randomized by `rs`.
pub open spec fn sigs_aggregated_with(agg: HotsSig, sigs: Seq<HotsSig>, rs: Seq<SignedPoly>) -> bool {
    forall|i: int| 0 <= i < GAMMA ==>
        (#[trigger] agg.sigma@[i]).vals() == randomized_sum(components(sigs, i), rs, sigs.len() as int)
}

impl RandomizedHOTSPK {
    /// Whether every row is binary.
    pub fn is_binary(&self) -> (r: bool)
        ensures
            r == self.binary(),
    {
        let mut k: usize = 0;
        while k < LARGE_MODULUS_BITS
            invariant
                k <= LARGE_MODULUS_BITS,
                forall|second: bool, a: int| 0 <= a < k ==> (#[trigger] pk_entry(*self, second, a)).binary(),
            decreases LARGE_MODULUS_BITS - k,
        {
            if !self.v0[k].is_binary() {
                assert(pk_entry(*self, false, k as int) == self.v0@[k as int]);
                return false;
            }
            if !self.v1[k].is_binary() {
                assert(pk_entry(*self, true, k as int) == self.v1@[k as int]);
                return false;
            }
            k = k + 1;
        }
        true
    }

    /// Every row is binary, as in a fresh decomposition.
    pub open spec fn binary(&self) -> bool {
        forall|second: bool, k: int| 0 <= k < LARGE_MODULUS_BITS ==> (#[trigger] pk_entry(*self, second, k)).binary()
    }

    /// Every coefficient of every row lies in `[-b, b]`.
    pub open spec fn bounded(&self, b: int) -> bool {
        forall|second: bool, k: int| 0 <= k < LARGE_MODULUS_BITS ==> (#[trigger] pk_entry(*self, second, k)).bounded(b)
    }

    /// Decomposes both parts of `pk`.
    pub fn from_pk(pk: &HotsPK) -> (r: Self)
        ensures
            !r.is_randomized,
            r.binary(),
            key_decomposes(r, *pk),
    {
        let r = RandomizedHOTSPK { v0: pk.v0.decompose(), v1: pk.v1.decompose(), is_randomized: false };
        assert forall|second: bool, k: int| 0 <= k < LARGE_MODULUS_BITS implies (#[trigger] pk_entry(r, second, k)).binary() by {}
        r
    }

    /// Projects both parts back to the large ring.
    pub fn to_pk(&self) -> (r: HotsPK)
        ensures
            r.wf(),
            r.v0.vals() == projection_spec(self.v0@, q_large()),
            r.v1.vals() == projection_spec(self.v1@, q_large()),
    {
        HotsPK { v0: LargePoly::projection(self.v0.as_slice()), v1: LargePoly::projection(self.v1.as_slice()) }
    }

    /// Multiplies every row by the ternary polynomial `ternary`, once.
    pub fn randomize_with(&mut self, ternary: &SignedPoly)
        requires
            !old(self).is_randomized,
            old(self).binary(),
        ensures
            final(self).is_randomized,
            final(self).bounded(ALPHA as int),
            forall|second: bool, k: int, j: int| 0 <= k < LARGE_MODULUS_BITS && 0 <= j < N ==>
                (#[trigger] pk_entry(*final(self), second, k).coeffs@[j]) as int == ter_product(*ternary, pk_entry(*old(self), second, k).vals(), j),
    {
        let enc = TerPolyCoeffEncoding::from_signed(ternary);
        proof {
            assert forall|k: int| 0 <= k < LARGE_MODULUS_BITS implies (#[trigger] self.v0@[k]).binary() by {
                assert(pk_entry(*self, false, k) == self.v0@[k]);
            }
            assert forall|k: int| 0 <= k < LARGE_MODULUS_BITS implies (#[trigger] self.v1@[k]).binary() by {
                assert(pk_entry(*self, true, k) == self.v1@[k]);
            }
        }
        let v0 = randomize_large_row(&enc, &self.v0);
        let v1 = randomize_large_row(&enc, &self.v1);
        let ghost before = *self;
        self.v0 = v0;
        self.v1 = v1;
        self.is_randomized = true;
        proof {
            assert forall|second: bool, k: int, j: int| 0 <= k < LARGE_MODULUS_BITS && 0 <= j < N implies
                (#[trigger] pk_entry(*self, second, k).coeffs@[j]) as int == ter_product(*ternary, pk_entry(before, second, k).vals(), j) by {
                assert(ter_mul_spec(enc.indices@, pk_entry(before, second, k).vals(), j) == ter_product(*ternary, pk_entry(before, second, k).vals(), j));
            }
            assert forall|second: bool, k: int| 0 <= k < LARGE_MODULUS_BITS implies (#[trigger] pk_entry(*self, second, k)).bounded(ALPHA as int) by {}
        }
    }

    /// The hash of the decomposed key.
    pub fn digest(&self, hasher: &HOTSHash) -> (r: SmallPoly)
        requires
            hasher.wf(),
        ensures
            r.wf(),
            r.vals() == hash_spec(hasher.param_h@, lifted_vals(self.v0@ + self.v1@)),
    {
        hasher.hash_separate_inputs(self.v0.as_slice(), self.v1.as_slice())
    }

    /// Adds `other` row-wise, without reduction.
    pub fn add_assign(&mut self, other: Self)
        requires
            forall|second: bool, k: int, j: int| 0 <= k < LARGE_MODULUS_BITS && 0 <= j < N ==>
                i32::MIN <= #[trigger] pk_entry(*old(self), second, k).coeffs@[j] + pk_entry(other, second, k).coeffs@[j] <= i32::MAX,
        ensures
            final(self).is_randomized == old(self).is_randomized,
            forall|second: bool, k: int, j: int| 0 <= k < LARGE_MODULUS_BITS && 0 <= j < N ==>
                (#[trigger] pk_entry(*final(self), second, k).coeffs@[j]) == pk_entry(*old(self), second, k).coeffs@[j] + pk_entry(other, second, k).coeffs@[j],
    {
        proof {
            assert forall|k: int, j: int| 0 <= k < LARGE_MODULUS_BITS && 0 <= j < N implies
                i32::MIN <= #[trigger] self.v0@[k].coeffs@[j] + other.v0@[k].coeffs@[j] <= i32::MAX by {
                assert(pk_entry(*self, false, k) == self.v0@[k]);
                assert(pk_entry(other, false, k) == other.v0@[k]);
            }
            assert forall|k: int, j: int| 0 <= k < LARGE_MODULUS_BITS && 0 <= j < N implies
                i32::MIN <= #[trigger] self.v1@[k].coeffs@[j] + other.v1@[k].coeffs@[j] <= i32::MAX by {
                assert(pk_entry(*self, true, k) == self.v1@[k]);
                assert(pk_entry(other, true, k) == other.v1@[k]);
            }
        }
        let ghost before = *self;
        self.v0 = add_large_rows(&self.v0, &other.v0);
        self.v1 = add_large_rows(&self.v1, &other.v1);
        proof {
            assert forall|second: bool, k: int, j: int| 0 <= k < LARGE_MODULUS_BITS && 0 <= j < N implies
                (#[trigger] pk_entry(*self, second, k).coeffs@[j]) == pk_entry(before, second, k).coeffs@[j] + pk_entry(other, second, k).coeffs@[j] by {}
        }
    }

    /// Randomizes each key by its randomizer and sums the results.
    pub fn aggregate_with_randomizers(pks: &[Self], randomizers: &Randomizers) -> (r: Self)
        requires
            1 <= pks@.len() <= 0x100_0000,
            randomizers.poly@.len() == pks@.len(),
            forall|p: int| 0 <= p < pks@.len() ==> !(#[trigger] pks@[p]).is_randomized && pks@[p].binary(),
        ensures
            r.is_randomized,
            forall|second: bool, k: int, j: int| 0 <= k < LARGE_MODULUS_BITS && 0 <= j < N ==>
                (#[trigger] pk_entry(r, second, k).coeffs@[j]) as int == aggregated_pk_entry(pks@, randomizers.poly@, second, k, j, pks@.len() as int),
    {
        let ghost ps = pks@;
        let ghost rs = randomizers.poly@;
        let mut res = pks[0];
        res.randomize_with(&randomizers.poly[0]);
        proof {
            assert forall|second: bool, k: int, j: int| 0 <= k < LARGE_MODULUS_BITS && 0 <= j < N implies
                (#[trigger] pk_entry(res, second, k).coeffs@[j]) as int == aggregated_pk_entry(ps, rs, second, k, j, 1) by {
                assert(aggregated_pk_entry(ps, rs, second, k, j, 0) == 0);
            }
        }
        let mut p: usize = 1;
        while p < pks.len()
            invariant
                1 <= p <= pks@.len(),
                pks@.len() <= 0x100_0000,
                ps == pks@,
                rs == randomizers.poly@,
                rs.len() == ps.len(),
                forall|q: int| 0 <= q < ps.len() ==> !(#[trigger] ps[q]).is_randomized && ps[q].binary(),
                res.is_randomized,
                res.bounded(p * ALPHA),
                forall|second: bool, k: int, j: int| 0 <= k < LARGE_MODULUS_BITS && 0 <= j < N ==>
                    (#[trigger] pk_entry(res, second, k).coeffs@[j]) as int == aggregated_pk_entry(ps, rs, second, k, j, p as int),
            decreases pks@.len() - p,
        {
            let mut tmp = pks[p];
            tmp.randomize_with(&randomizers.poly[p]);
            let ghost acc = res;
            proof {
                assert forall|second: bool, k: int, j: int| 0 <= k < LARGE_MODULUS_BITS && 0 <= j < N implies
                    i32::MIN <= #[trigger] pk_entry(acc, second, k).coeffs@[j] + pk_entry(tmp, second, k).coeffs@[j] <= i32::MAX by {
                    assert(pk_entry(acc, second, k).bounded(p * ALPHA));
                    assert(pk_entry(tmp, second, k).bounded(ALPHA as int));
                }
            }
            res.add_assign(tmp);
            proof {
                assert forall|second: bool, k: int| 0 <= k < LARGE_MODULUS_BITS implies (#[trigger] pk_entry(res, second, k)).bounded((p + 1) * ALPHA) by {
                    assert(pk_entry(acc, second, k).bounded(p * ALPHA));
                    assert(pk_entry(tmp, second, k).bounded(ALPHA as int));
                }
            }
            p = p + 1;
        }
        res
    }

    /// Aggregates decomposed keys with the randomizers derived from
    /// `roots`.
    pub fn aggregate(pks: &[Self], roots: &[SmallPoly]) -> (r: Self)
        requires
            1 <= pks@.len() <= 0x100_0000,
            roots@.len() == pks@.len(),
            forall|p: int| 0 <= p < pks@.len() ==> !(#[trigger] pks@[p]).is_randomized && pks@[p].binary(),
        ensures
            r.is_randomized,
            forall|rs: Seq<SignedPoly>| #[trigger] randomizers_of(rs, roots@) ==> keys_aggregated_with(r, pks@, rs),
    {
        let randomizers = Randomizers::from_pks(roots);
        let r = Self::aggregate_with_randomizers(pks, &randomizers);
        proof {
            assert forall|rs: Seq<SignedPoly>| #[trigger] randomizers_of(rs, roots@) implies keys_aggregated_with(r, pks@, rs) by {
                lemma_randomizers_unique(rs, randomizers.poly@, roots@);
            }
        }
        r
    }
}

/// Multiplies each binary row by the encoded ternary polynomial.
fn randomize_large_row(enc: &TerPolyCoeffEncoding, row: &[SignedPoly; LARGE_MODULUS_BITS]) -> (r: [SignedPoly; LARGE_MODULUS_BITS])
    requires
        enc.wf(),
        forall|k: int| 0 <= k < LARGE_MODULUS_BITS ==> (#[trigger] row@[k]).binary(),
    ensures
        forall|k: int| 0 <= k < LARGE_MODULUS_BITS ==> (#[trigger] r@[k]).bounded(ALPHA as int),
        forall|k: int, j: int| 0 <= k < LARGE_MODULUS_BITS && 0 <= j < N ==>
            (#[trigger] r@[k].coeffs@[j]) as int == ter_mul_spec(enc.indices@, row@[k].vals(), j),
{
    let mut res = *row;
    let mut k: usize = 0;
    while k < LARGE_MODULUS_BITS
        invariant
            k <= LARGE_MODULUS_BITS,
            enc.wf(),
            forall|a: int| 0 <= a < LARGE_MODULUS_BITS ==> (#[trigger] row@[a]).binary(),
            forall|a: int| 0 <= a < k ==> (#[trigger] res@[a]).bounded(ALPHA as int),
            forall|a: int, j: int| 0 <= a < k && 0 <= j < N ==>
                (#[trigger] res@[a].coeffs@[j]) as int == ter_mul_spec(enc.indices@, row@[a].vals(), j),
        decreases LARGE_MODULUS_BITS - k,
    {
        res[k] = SignedPoly::ter_mul_bin(enc, &row[k]);
        k = k + 1;
    }
    res
}

/// Row-wise sums of two rows of signed polynomials.
fn add_large_rows(a: &[SignedPoly; LARGE_MODULUS_BITS], b: &[SignedPoly; LARGE_MODULUS_BITS]) -> (r: [SignedPoly; LARGE_MODULUS_BITS])
    requires
        forall|k: int, j: int| 0 <= k < LARGE_MODULUS_BITS && 0 <= j < N ==>
            i32::MIN <= #[trigger] a@[k].coeffs@[j] + b@[k].coeffs@[j] <= i32::MAX,
    ensures
        forall|k: int, j: int| 0 <= k < LARGE_MODULUS_BITS && 0 <= j < N ==>
            (#[trigger] r@[k].coeffs@[j]) == a@[k].coeffs@[j] + b@[k].coeffs@[j],
{
    let mut res = *a;
    let mut k: usize = 0;
    while k < LARGE_MODULUS_BITS
        invariant
            k <= LARGE_MODULUS_BITS,
            forall|c: int, j: int| 0 <= c < LARGE_MODULUS_BITS && 0 <= j < N ==>
                i32::MIN <= #[trigger] a@[c].coeffs@[j] + b@[c].coeffs@[j] <= i32::MAX,
            forall|c: int| k <= c < LARGE_MODULUS_BITS ==> (#[trigger] res@[c]) == a@[c],
            forall|c: int, j: int| 0 <= c < k && 0 <= j < N ==>
                (#[trigger] res@[c].coeffs@[j]) == a@[c].coeffs@[j] + b@[c].coeffs@[j],
        decreases LARGE_MODULUS_BITS - k,
    {
        res[k] = a[k].add(b[k]);
        k = k + 1;
    }
    res
}

impl HotsPK {
    /// The hash of the decompositions of both parts: the leaf that commits
    /// to this key.
    pub fn digest(&self, hasher: &HOTSHash) -> (r: SmallPoly)
        requires
            hasher.wf(),
        ensures
            r.wf(),
            r.vals() == hash_spec(hasher.param_h@, bit_rows(self.v0.vals(), LARGE_MODULUS_BITS as nat) + bit_rows(self.v1.vals(), LARGE_MODULUS_BITS as nat)),
    {
        hasher.decom_then_hash(&self.v0, &self.v1)
    }

    /// The key `(sum a_i s0_i, sum a_i s1_i)` of `sk`.
    pub fn from_secret_key(sk: &HotsSK, pp: &HotsParam) -> (r: Self)
        requires
            sk.wf(),
            pp.wf(),
        ensures
            r.wf(),
            r.of(*sk, *pp),
    {
        let mut v0 = LargePoly::default();
        let mut v1 = LargePoly::default();
        assert(v0.vals() =~= key_sum(pp.a@, sk.s0@, 0));
        assert(v1.vals() =~= key_sum(pp.a@, sk.s1@, 0));
        let mut i: usize = 0;
        while i < GAMMA
            invariant
                i <= GAMMA,
                sk.wf(),
                pp.wf(),
                v0.wf(),
                v1.wf(),
                v0.vals() == key_sum(pp.a@, sk.s0@, i as int),
                v1.vals() == key_sum(pp.a@, sk.s1@, i as int),
            decreases GAMMA - i,
        {
            v0.add_assign(pp.a[i].mul(sk.s0[i]).to_large());
            v1.add_assign(pp.a[i].mul(sk.s1[i]).to_large());
            i = i + 1;
        }
        HotsPK { v0, v1 }
    }

    /// Multiplies each key by its randomizer and sums the results in the
    /// large ring.
    pub fn aggregate_with_randomizers(pks: &[Self], randomizers: &Randomizers) -> (r: Self)
        requires
            1 <= pks@.len(),
            randomizers.poly@.len() == pks@.len(),
            forall|p: int| 0 <= p < pks@.len() ==> (#[trigger] pks@[p]).wf(),
        ensures
            r.wf(),
            r.v0.vals() == randomized_sum(first_parts(pks@), randomizers.poly@, pks@.len() as int),
            r.v1.vals() == randomized_sum(second_parts(pks@), randomizers.poly@, pks@.len() as int),
    {
        let ghost x0 = first_parts(pks@);
        let ghost x1 = second_parts(pks@);
        let ghost rs = randomizers.poly@;
        let r0 = LargePoly::from_signed(&randomizers.poly[0]);
        let mut v0 = pks[0].v0.mul(r0);
        let mut v1 = pks[0].v1.mul(r0);
        let mut p: usize = 1;
        while p < pks.len()
            invariant
                1 <= p <= pks@.len(),
                rs == randomizers.poly@,
                rs.len() == pks@.len(),
                x0 == first_parts(pks@),
                x1 == second_parts(pks@),
                forall|q: int| 0 <= q < pks@.len() ==> (#[trigger] pks@[q]).wf(),
                v0.wf(),
                v1.wf(),
                v0.vals() == randomized_sum(x0, rs, p as int),
                v1.vals() == randomized_sum(x1, rs, p as int),
            decreases pks@.len() - p,
        {
            let r = LargePoly::from_signed(&randomizers.poly[p]);
            v0 = v0.add(pks[p].v0.mul(r));
            v1 = v1.add(pks[p].v1.mul(r));
            p = p + 1;
        }
        HotsPK { v0, v1 }
    }

    /// Aggregates keys with the randomizers derived from `roots`.
    pub fn aggregate(pks: &[Self], roots: &[SmallPoly]) -> (r: Self)
        requires
            1 <= pks@.len(),
            roots@.len() == pks@.len(),
            forall|p: int| 0 <= p < pks@.len() ==> (#[trigger] pks@[p]).wf(),
        ensures
            r.wf(),
            forall|rs: Seq<SignedPoly>| #[trigger] randomizers_of(rs, roots@) ==>
                r.v0.vals() == randomized_sum(first_parts(pks@), rs, pks@.len() as int)
                && r.v1.vals() == randomized_sum(second_parts(pks@), rs, pks@.len() as int),
    {
        let randomizers = Randomizers::from_pks(roots);
        let r = Self::aggregate_with_randomizers(pks, &randomizers);
        proof {
            assert forall|rs: Seq<SignedPoly>| #[trigger] randomizers_of(rs, roots@) implies
                r.v0.vals() == randomized_sum(first_parts(pks@), rs, pks@.len() as int)
                && r.v1.vals() == randomized_sum(second_parts(pks@), rs, pks@.len() as int) by {
                lemma_randomizers_unique(rs, randomizers.poly@, roots@);
            }
        }
        r
    }
}

impl HotsSig {
    /// Whether every component is reduced.
    pub fn is_well_formed(&self) -> (r: bool)
        ensures
            r == self.wf(),
    {
        let mut i: usize = 0;
        while i < GAMMA
            invariant
                i <= GAMMA,
                forall|k: int| 0 <= k < i ==> (#[trigger] self.sigma@[k]).wf(),
            decreases GAMMA - i,
        {
            if !self.sigma[i].is_reduced() {
                return false;
            }
            i = i + 1;
        }
        true
    }

    /// Multiplies every component by the ternary polynomial `ternary` in
    /// the large ring, once.
    pub fn randomize_with(&mut self, ternary: &SignedPoly)
        requires
            !old(self).is_randomized,
            old(self).wf(),
        ensures
            final(self).is_randomized,
            final(self).wf(),
            forall|i: int| 0 <= i < GAMMA ==>
                (#[trigger] final(self).sigma@[i]).vals() == large_mul_spec(old(self).sigma@[i].vals(), reduce(ternary.vals(), q_large())),
    {
        let t = LargePoly::from_signed(ternary);
        let ghost before = *self;
        let mut i: usize = 0;
        while i < GAMMA
            invariant
                i <= GAMMA,
                t.wf(),
                t.vals() == reduce(ternary.vals(), q_large()),
                before.wf(),
                forall|k: int| i <= k < GAMMA ==> (#[trigger] self.sigma@[k]) == before.sigma@[k],
                forall|k: int| 0 <= k < i ==> (#[trigger] self.sigma@[k]).wf()
                    && self.sigma@[k].vals() == large_mul_spec(before.sigma@[k].vals(), reduce(ternary.vals(), q_large())),
            decreases GAMMA - i,
        {
            self.sigma[i] = self.sigma[i].mul(t);
            i = i + 1;
        }
        self.is_randomized = true;
    }

    /// Adds `other` component-wise in the large ring; both must be
    /// randomized.
    pub fn add_assign(&mut self, other: Self)
        requires
            old(self).is_randomized,
            other.is_randomized,
            old(self).wf(),
            other.wf(),
        ensures
            final(self).is_randomized,
            final(self).wf(),
            forall|i: int| 0 <= i < GAMMA ==>
                (#[trigger] final(self).sigma@[i]).vals() == add_spec(old(self).sigma@[i].vals(), other.sigma@[i].vals(), q_large()),
    {
        let ghost before = *self;
        let mut i: usize = 0;
        while i < GAMMA
            invariant
                i <= GAMMA,
                self.is_randomized,
                before.wf(),
                other.wf(),
                forall|k: int| i <= k < GAMMA ==> (#[trigger] self.sigma@[k]) == before.sigma@[k],
                forall|k: int| 0 <= k < i ==> (#[trigger] self.sigma@[k]).wf()
                    && self.sigma@[k].vals() == add_spec(before.sigma@[k].vals(), other.sigma@[k].vals(), q_large()),
            decreases GAMMA - i,
        {
            self.sigma[i] = self.sigma[i].add(other.sigma[i]);
            i = i + 1;
        }
    }

    /// Sums randomized signatures component-wise in the large ring.
    pub fn aggregate_randomized_signatures(sigs: &[Self]) -> (r: Self)
        requires
            1 <= sigs@.len(),
            forall|p: int| 0 <= p < sigs@.len() ==> (#[trigger] sigs@[p]).is_randomized && sigs@[p].wf(),
        ensures
            r.is_randomized,
            r.wf(),
            forall|i: int| 0 <= i < GAMMA ==> (#[trigger] r.sigma@[i]).vals() == component_sum(components(sigs@, i), sigs@.len() as int),
    {
        let mut res = sigs[0];
        let mut p: usize = 1;
        while p < sigs.len()
            invariant
                1 <= p <= sigs@.len(),
                forall|q: int| 0 <= q < sigs@.len() ==> (#[trigger] sigs@[q]).is_randomized && sigs@[q].wf(),
                res.is_randomized,
                res.wf(),
                forall|i: int| 0 <= i < GAMMA ==> (#[trigger] res.sigma@[i]).vals() == component_sum(components(sigs@, i), p as int),
            decreases sigs@.len() - p,
        {
            res.add_assign(sigs[p]);
            p = p + 1;
        }
        res
    }

    /// Randomizes each signature by its randomizer and sums the results in
    /// the large ring.
    pub fn aggregate_with_randomizers(sigs: &[Self], randomizers: &Randomizers) -> (r: Self)
        requires
            1 <= sigs@.len(),
            randomizers.poly@.len() == sigs@.len(),
            forall|p: int| 0 <= p < sigs@.len() ==> !(#[trigger] sigs@[p]).is_randomized && sigs@[p].wf(),
        ensures
            r.is_randomized,
            r.wf(),
            forall|i: int| 0 <= i < GAMMA ==>
                (#[trigger] r.sigma@[i]).vals() == randomized_sum(components(sigs@, i), randomizers.poly@, sigs@.len() as int),
    {
        let ghost rs = randomizers.poly@;
        let mut res = sigs[0];
        res.randomize_with(&randomizers.poly[0]);
        proof {
            assert forall|i: int| 0 <= i < GAMMA implies
                (#[trigger] res.sigma@[i]).vals() == randomized_sum(components(sigs@, i), rs, 1) by {}
        }
        let mut p: usize = 1;
        while p < sigs.len()
            invariant
                1 <= p <= sigs@.len(),
                rs == randomizers.poly@,
                rs.len() == sigs@.len(),
                forall|q: int| 0 <= q < sigs@.len() ==> !(#[trigger] sigs@[q]).is_randomized && sigs@[q].wf(),
                res.is_randomized,
                res.wf(),
                forall|i: int| 0 <= i < GAMMA ==>
                    (#[trigger] res.sigma@[i]).vals() == randomized_sum(components(sigs@, i), rs, p as int),
            decreases sigs@.len() - p,
        {
            let mut tmp = sigs[p];
            tmp.randomize_with(&randomizers.poly[p]);
            let ghost acc = res;
            res.add_assign(tmp);
            proof {
                assert forall|i: int| 0 <= i < GAMMA implies
                    (#[trigger] res.sigma@[i]).vals() == randomized_sum(components(sigs@, i), rs, p + 1) by {
                    assert(components(sigs@, i)[p as int] == sigs@[p as int].sigma@[i].vals());
                    assert(components(sigs@, i)[0] == sigs@[0].sigma@[i].vals());
                }
            }
            p = p + 1;
        }
        res
    }
}

impl HOTS {
    /// Samples the public parameters: `GAMMA` uniform large-ring
    /// polynomials, kept in transform form.
    pub fn setup(rng: &mut ChaChaStream) -> (r: HotsParam)
        ensures
            r.wf(),
            final(rng).seed() == old(rng).seed(),
            final(rng).pos() == uniform_polys(old(rng).seed(), old(rng).pos(), GAMMA as nat, LARGE_SAMPLE_THRESHOLD, LARGE_MODULUS).1,
            forall|k: int| 0 <= k < GAMMA ==>
                (#[trigger] r.a@[k]).vals() == large_ntt(uniform_polys(old(rng).seed(), old(rng).pos(), GAMMA as nat, LARGE_SAMPLE_THRESHOLD, LARGE_MODULUS).0[k]),
    {
        let ghost seed = rng.seed();
        let ghost pos0 = rng.pos();
        let mut a: [LargeNTTPoly; GAMMA] = [LargeNTTPoly { coeffs: [0u32; N] }; GAMMA];
        let mut i: usize = 0;
        while i < GAMMA
            invariant
                i <= GAMMA,
                forall|k: int| 0 <= k < i ==> (#[trigger] a@[k]).wf(),
                rng.seed() == seed,
                rng.pos() == uniform_polys(seed, pos0, i as nat, LARGE_SAMPLE_THRESHOLD, LARGE_MODULUS).1,
                uniform_polys(seed, pos0, i as nat, LARGE_SAMPLE_THRESHOLD, LARGE_MODULUS).0.len() == i,
                forall|k: int| 0 <= k < i ==> (#[trigger] a@[k]).vals() == large_ntt(uniform_polys(seed, pos0, i as nat, LARGE_SAMPLE_THRESHOLD, LARGE_MODULUS).0[k]),
            decreases GAMMA - i,
        {
            a[i] = LargeNTTPoly::from_large(&LargePoly::rand_poly(rng));
            i = i + 1;
        }
        HotsParam { a }
    }

    /// Derives the secret key number `counter` of `seed`: ChaCha20 seeded
    /// with SHA-256 of `seed` followed by the eight big-endian bytes of
    /// `counter` samples `s0_i` uniform in `[-BETA_S, BETA_S]`, then `s1_i`
    /// ternary of weight `BETA_S`.
    pub fn derive_sk(seed: &[u8; 32], counter: usize) -> (r: HotsSK)
        ensures
            r.wf(),
            r.shaped(),
            r.derived_from(seed@, counter as nat),
    {
        let mut input: Vec<u8> = Vec::new();
        let mut t: usize = 0;
        while t < 32
            invariant
                t <= 32,
                input@ == seed@.take(t as int),
            decreases 32 - t,
        {
            input.push(seed[t]);
            t = t + 1;
            assert(input@ =~= seed@.take(t as int));
        }
        assert(seed@.take(32) =~= seed@);
        let c = counter as u64;
        let mut t: u64 = 0;
        while t < 8
            invariant
                t <= 8,
                input@ == seed@ + be_bytes(c).take(t as int),
            decreases 8 - t,
        {
            input.push(((c >> (56 - 8 * t)) & 0xFF) as u8);
            t = t + 1;
            assert(input@ =~= seed@ + be_bytes(c).take(t as int));
        }
        assert(be_bytes(c).take(8) =~= be_bytes(c));
        let digest = sha256(&input);
        let ghost ks = key_seed(seed@, counter as nat);
        let mut rng = ChaChaStream::from_seed(digest);
        let mut s0: [LargeNTTPoly; GAMMA] = [LargeNTTPoly { coeffs: [0u32; N] }; GAMMA];
        let mut s1: [LargeNTTPoly; GAMMA] = [LargeNTTPoly { coeffs: [0u32; N] }; GAMMA];
        let mut i: usize = 0;
        while i < GAMMA
            invariant
                i <= GAMMA,
                rng.seed() == ks,
                rng.pos() == beta_polys_spec(ks, 0, i as nat).1,
                beta_polys_spec(ks, 0, i as nat).0.len() == i,
                forall|k: int| 0 <= k < i ==> (#[trigger] s0@[k]).wf() && bounded_part(s0@[k]),
                forall|k: int| 0 <= k < i ==> (#[trigger] s0@[k]).vals() == transform_of(beta_polys_spec(ks, 0, i as nat).0[k]),
            decreases GAMMA - i,
        {
            let p = SignedPoly::rand_mod_beta_s(&mut rng);
            s0[i] = LargeNTTPoly::from_signed(&p);
            assert(bounded_part(s0@[i as int]));
            i = i + 1;
        }
        let ghost s1_start = beta_polys_spec(ks, 0, GAMMA as nat).1;
        let mut i: usize = 0;
        while i < GAMMA
            invariant
                i <= GAMMA,
                rng.seed() == ks,
                rng.pos() == sparse_polys_spec(ks, s1_start, i as nat, BETA_S as nat).1,
                sparse_polys_spec(ks, s1_start, i as nat, BETA_S as nat).0.len() == i,
                forall|k: int| 0 <= k < GAMMA ==> (#[trigger] s0@[k]).wf() && bounded_part(s0@[k]),
                forall|k: int| 0 <= k < GAMMA ==> (#[trigger] s0@[k]).vals() == transform_of(beta_polys_spec(ks, 0, GAMMA as nat).0[k]),
                forall|k: int| 0 <= k < i ==> (#[trigger] s1@[k]).wf() && sparse_part(s1@[k]),
                forall|k: int| 0 <= k < i ==> (#[trigger] s1@[k]).vals() == transform_of(sparse_polys_spec(ks, s1_start, i as nat, BETA_S as nat).0[k]),
            decreases GAMMA - i,
        {
            let p = SignedPoly::rand_fixed_weight_ternary(&mut rng, BETA_S);
            s1[i] = LargeNTTPoly::from_signed(&p);
            assert(sparse_part(s1@[i as int]));
            i = i + 1;
        }
        HotsSK { s0, s1 }
    }

    /// The key pair number `counter` of `seed`.
    pub fn key_gen(seed: &[u8; 32], counter: usize, pp: &HotsParam) -> (r: (HotsPK, HotsSK))
        requires
            pp.wf(),
        ensures
            r.1.wf(),
            r.1.shaped(),
            r.1.derived_from(seed@, counter as nat),
            r.0.wf(),
            r.0.of(r.1, *pp),
    {
        let sk = Self::derive_sk(seed, counter);
        let pk = HotsPK::from_secret_key(&sk, pp);
        (pk, sk)
    }

    /// Signs for the message polynomial `hm` (in transform form):
    /// `sigma_i = s0_i * hm + s1_i`.
    pub fn sign_with_message_poly(sk: &HotsSK, hm: &LargeNTTPoly) -> (r: HotsSig)
        requires
            sk.wf(),
            hm.wf(),
        ensures
            !r.is_randomized,
            r.wf(),
            r.signs(*sk, hm.vals()),
    {
        let mut sigma: [LargePoly; GAMMA] = [LargePoly { coeffs: [0u32; N] }; GAMMA];
        let mut i: usize = 0;
        while i < GAMMA
            invariant
                i <= GAMMA,
                sk.wf(),
                hm.wf(),
                forall|k: int| 0 <= k < i ==> (#[trigger] sigma@[k]).wf()
                    && sigma@[k].vals() == large_inv_ntt(add_spec(pointwise_spec(sk.s0@[k].vals(), hm.vals(), q_large()), sk.s1@[k].vals(), q_large())),
            decreases GAMMA - i,
        {
            sigma[i] = sk.s0[i].mul(*hm).add(sk.s1[i]).to_large();
            i = i + 1;
        }
        HotsSig { sigma, is_randomized: false }
    }

    /// Signs `message` with its message polynomial.
    pub fn sign(sk: &HotsSK, message: &[u8]) -> (r: HotsSig)
        requires
            sk.wf(),
        ensures
            !r.is_randomized,
            r.wf(),
            r.signs(*sk, msg_ntt(message@)),
    {
        let hm = message_transform(message);
        Self::sign_with_message_poly(sk, &hm)
    }

    /// Checks `sum a_i * sigma_i == hm * v0 + v1` in transform form, for the
    /// message polynomial `hm` (in transform form).
    pub fn verify_with_message_poly(pk: &HotsPK, hm: &LargeNTTPoly, sig: &HotsSig, pp: &HotsParam) -> (r: bool)
        requires
            pk.wf(),
            hm.wf(),
            sig.wf(),
            pp.wf(),
        ensures
            r == (verify_left(pp.a@, sig.sigma@, GAMMA as int) == verify_right(hm.vals(), pk.v0.vals(), pk.v1.vals())),
    {
        let mut left = LargeNTTPoly::default();
        assert(left.vals() =~= verify_left(pp.a@, sig.sigma@, 0));
        let mut i: usize = 0;
        while i < GAMMA
            invariant
                i <= GAMMA,
                sig.wf(),
                pp.wf(),
                left.wf(),
                left.vals() == verify_left(pp.a@, sig.sigma@, i as int),
            decreases GAMMA - i,
        {
            left.add_assign(pp.a[i].mul(LargeNTTPoly::from_large(&sig.sigma[i])));
            i = i + 1;
        }
        let right = hm.mul(LargeNTTPoly::from_large(&pk.v0)).add(LargeNTTPoly::from_large(&pk.v1));
        left.equals(&right)
    }

    /// Checks a signature on `message` with its message polynomial.
    pub fn verify(pk: &HotsPK, message: &[u8], sig: &HotsSig, pp: &HotsParam) -> (r: bool)
        requires
            pk.wf(),
            sig.wf(),
            pp.wf(),
        ensures
            r == (verify_left(pp.a@, sig.sigma@, GAMMA as int) == verify_right(msg_ntt(message@), pk.v0.vals(), pk.v1.vals())),
    {
        let hm = message_transform(message);
        Self::verify_with_message_poly(pk, &hm, sig, pp)
    }

    /// Aggregates signatures with the randomizers derived from `roots`.
    pub fn aggregate(sigs: &[HotsSig], roots: &[SmallPoly]) -> (r: HotsSig)
        requires
            1 <= sigs@.len(),
            roots@.len() == sigs@.len(),
            forall|p: int| 0 <= p < sigs@.len() ==> !(#[trigger] sigs@[p]).is_randomized && sigs@[p].wf(),
        ensures
            r.is_randomized,
            r.wf(),
            forall|rs: Seq<SignedPoly>| #[trigger] randomizers_of(rs, roots@) ==> sigs_aggregated_with(r, sigs@, rs),
    {
        let randomizers = Randomizers::from_pks(roots);
        let r = HotsSig::aggregate_with_randomizers(sigs, &randomizers);
        proof {
            assert forall|rs: Seq<SignedPoly>| #[trigger] randomizers_of(rs, roots@) implies sigs_aggregated_with(r, sigs@, rs) by {
                lemma_randomizers_unique(rs, randomizers.poly@, roots@);
            }
        }
        r
    }

    /// Verifies an aggregated signature against the keys it aggregates,
    /// combined with the randomizers derived from `roots`.
    pub fn batch_verify(pks: &[HotsPK], message: &[u8], sig: &HotsSig, roots: &[SmallPoly], pp: &HotsParam) -> (r: bool)
        requires
            1 <= pks@.len(),
            roots@.len() == pks@.len(),
            forall|p: int| 0 <= p < pks@.len() ==> (#[trigger] pks@[p]).wf(),
            sig.wf(),
            pp.wf(),
        ensures
            forall|rs: Seq<SignedPoly>| #[trigger] randomizers_of(rs, roots@) ==>
                r == (verify_left(pp.a@, sig.sigma@, GAMMA as int) == verify_right(msg_ntt(message@),
                    randomized_sum(first_parts(pks@), rs, pks@.len() as int), randomized_sum(second_parts(pks@), rs, pks@.len() as int))),
    {
        let agg_pk = HotsPK::aggregate(pks, roots);
        Self::verify(&agg_pk, message, sig, pp)
    }
}

/// Verifies an aggregated signature against an aggregated decomposed key,
/// projected back to the large ring.
pub fn batch_verify_with_aggregated_pk(agg_pk: &RandomizedHOTSPK, message: &[u8], agg_sig: &HotsSig, pp: &HotsParam) -> (r: bool)
    requires
        agg_sig.wf(),
        pp.wf(),
    ensures
        r == (verify_left(pp.a@, agg_sig.sigma@, GAMMA as int) == verify_right(msg_ntt(message@), projection_spec(agg_pk.v0@, q_large()), projection_spec(agg_pk.v1@, q_large()))),
{
    let pk = agg_pk.to_pk();
    HOTS::verify(&pk, message, agg_sig, pp)
}

/// Decomposing a reduced public key and projecting it back gives the key
/// again.
pub proof fn lemma_key_round_trip(pk: HotsPK, rpk: RandomizedHOTSPK, back: HotsPK)
    requires
        pk.wf(),
        key_decomposes(rpk, pk),
        back.v0.vals() == projection_spec(rpk.v0@, q_large()),
        back.v1.vals() == projection_spec(rpk.v1@, q_large()),
    ensures
        back.v0.vals() == pk.v0.vals(),
        back.v1.vals() == pk.v1.vals(),
{
    lemma_large_projection_decompose(pk.v0, rpk.v0@);
    lemma_large_projection_decompose(pk.v1, rpk.v1@);
}

/// `(pk, sk)` is key pair number `counter` of `seed` under `pp`.
pub open spec fn key_pair_of(pk: HotsPK, sk: HotsSK, pp: HotsParam, seed: Seq<u8>, counter: nat) -> bool {
    pk.of(sk, pp) && sk.derived_from(seed, counter)
}

/// Secret components with the same coefficients give the same key sums.
pub proof fn lemma_key_sum_congruent(a: Seq<LargeNTTPoly>, s: Seq<LargeNTTPoly>, t: Seq<LargeNTTPoly>, m: int)
    requires
        forall|i: int| 0 <= i < m ==> (#[trigger] s[i]).vals() == t[i].vals(),
    ensures
        key_sum(a, s, m) == key_sum(a, t, m),
    decreases m,
{
    if m > 0 {
        lemma_key_sum_congruent(a, s, t, m - 1);
    }
}

/// Two key pairs of one seed and counter have the same public key.
pub proof fn lemma_key_pair_unique(pk: HotsPK, sk: HotsSK, pk2: HotsPK, sk2: HotsSK, pp: HotsParam, seed: Seq<u8>, counter: nat)
    requires
        key_pair_of(pk, sk, pp, seed, counter),
        key_pair_of(pk2, sk2, pp, seed, counter),
    ensures
        pk.v0.vals() == pk2.v0.vals(),
        pk.v1.vals() == pk2.v1.vals(),
        forall|i: int| 0 <= i < GAMMA ==> (#[trigger] sk.s0@[i]).vals() == sk2.s0@[i].vals() && sk.s1@[i].vals() == sk2.s1@[i].vals(),
{
    assert forall|i: int| 0 <= i < GAMMA implies (#[trigger] sk.s0@[i]).vals() == sk2.s0@[i].vals() && sk.s1@[i].vals() == sk2.s1@[i].vals() by {
        assert(sk.s1@[i].vals() == transform_of(derived_s1(seed, counter)[i]));
        assert(sk2.s1@[i].vals() == transform_of(derived_s1(seed, counter)[i]));
    }
    lemma_key_sum_congruent(pp.a@, sk.s0@, sk2.s0@, GAMMA as int);
    assert forall|i: int| 0 <= i < GAMMA implies (#[trigger] sk.s1@[i]).vals() == sk2.s1@[i].vals() by {}
    lemma_key_sum_congruent(pp.a@, sk.s1@, sk2.s1@, GAMMA as int);
}

/// A key sum of at least one term has its coefficients in `[0, q)`.
pub proof fn lemma_key_sum_reduced(a: Seq<LargeNTTPoly>, s: Seq<LargeNTTPoly>, m: int)
    ensures
        key_sum(a, s, m).len() == N,
        m > 0 ==> forall|j: int| 0 <= j < N ==> 0 <= #[trigger] key_sum(a, s, m)[j] < q_large(),
    decreases m,
{
    if m > 0 {
        lemma_key_sum_reduced(a, s, m - 1);
    }
}

} // verus!
