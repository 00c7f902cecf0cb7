//! The linear hash of the vector commitment: `sum_i h_i * x_i` in the small
//! ring, for fixed random `h_i`.
use vstd::prelude::*;
use crate::primitives::ChaChaStream;
use crate::param::{N, SMALL_MODULUS, SMALL_SAMPLE_THRESHOLD, SMALL_MODULUS_BITS};
use crate::sampling::uniform_polys;
use crate::arith::{add_spec, pointwise_spec, reduce, bit, lemma_bit_binary};
use crate::poly::{SignedPoly, SmallPoly, SmallNTTPoly, q_small};
use crate::small_poly::{small_ntt, small_inv_ntt};

verus! {

/// The running sum, in transform form, of the first `m` products `h_i * x_i`.
pub open spec fn hash_acc(h: Seq<SmallNTTPoly>, xs: Seq<Seq<int>>, m: int) -> Seq<int>
    decreases m,
{
    if m <= 0 {
        Seq::new(N as nat, |j: int| 0)
    } else {
        add_spec(hash_acc(h, xs, m - 1), pointwise_spec(h[m - 1].vals(), small_ntt(xs[m - 1]), q_small()), q_small())
    }
}

/// The hash of the small-ring polynomials `xs` under the keys `h`.
pub open spec fn hash_spec(h: Seq<SmallNTTPoly>, xs: Seq<Seq<int>>) -> Seq<int> {
    small_inv_ntt(hash_acc(h, xs, xs.len() as int))
}

/// The coefficient sequences of small-ring polynomials.
pub open spec fn small_vals(s: Seq<SmallPoly>) -> Seq<Seq<int>> {
    s.map_values(|p: SmallPoly| p.vals())
}

/// Signed polynomials reduced into the small ring.
pub open spec fn lifted_vals(s: Seq<SignedPoly>) -> Seq<Seq<int>> {
    s.map_values(|p: SignedPoly| reduce(p.vals(), q_small()))
}

/// Every key is a well-formed transform.
pub open spec fn keys_wf(h: Seq<SmallNTTPoly>) -> bool {
    forall|i: int| 0 <= i < h.len() ==> (#[trigger] h[i]).wf()
}

/// `sum_i h_i * x_i`, through the transform.
pub fn hash_sum(h: &[SmallNTTPoly], inputs: &[SmallPoly]) -> (r: SmallPoly)
    requires
        h@.len() == inputs@.len(),
        keys_wf(h@),
        forall|i: int| 0 <= i < inputs@.len() ==> (#[trigger] inputs@[i]).wf(),
    ensures
        r.wf(),
        r.vals() == hash_spec(h@, small_vals(inputs@)),
{
    let ghost xs = small_vals(inputs@);
    let mut res = SmallNTTPoly::default();
    assert(res.vals() =~= hash_acc(h@, xs, 0));
    let mut i: usize = 0;
    while i < inputs.len()
        invariant
            i <= inputs@.len(),
            h@.len() == inputs@.len(),
            xs == small_vals(inputs@),
            keys_wf(h@),
            forall|k: int| 0 <= k < inputs@.len() ==> (#[trigger] inputs@[k]).wf(),
            res.wf(),
            res.vals() == hash_acc(h@, xs, i as int),
        decreases inputs@.len() - i,
    {
        let x = SmallNTTPoly::from_small(&inputs[i]);
        let p = h[i].mul(x);
        res.add_assign(p);
        i = i + 1;
    }
    res.to_small()
}

/// The keys of the vector-commitment hash, in transform form.
#[derive(Debug, Clone, PartialEq)]
pub struct HVCHash {
    pub param_h: [SmallNTTPoly; 28],
}

/// Whether every key is a well-formed transform.
pub fn keys_reduced(h: &[SmallNTTPoly]) -> (r: bool)
    ensures
        r == keys_wf(h@),
{
    let mut i: usize = 0;
    while i < h.len()
        invariant
            i <= h@.len(),
            forall|k: int| 0 <= k < i ==> (#[trigger] h@[k]).wf(),
        decreases h@.len() - i,
    {
        if !h[i].is_reduced() {
            return false;
        }
        i = i + 1;
    }
    true
}

impl HVCHash {
    /// Whether every key is well formed.
    pub fn is_well_formed(&self) -> (r: bool)
        ensures
            r == self.wf(),
    {
        keys_reduced(self.param_h.as_slice())
    }

    /// Every key is well formed.
    pub open spec fn wf(&self) -> bool {
        keys_wf(self.param_h@)
    }

    /// Samples the `2 * SMALL_MODULUS_BITS` keys uniformly.
    pub fn init(rng: &mut ChaChaStream) -> (r: Self)
        ensures
            r.wf(),
            final(rng).seed() == old(rng).seed(),
            final(rng).pos() == uniform_polys(old(rng).seed(), old(rng).pos(), 28, SMALL_SAMPLE_THRESHOLD, SMALL_MODULUS as u32).1,
            forall|k: int| 0 <= k < 28 ==>
                (#[trigger] r.param_h@[k]).vals() == small_ntt(uniform_polys(old(rng).seed(), old(rng).pos(), 28, SMALL_SAMPLE_THRESHOLD, SMALL_MODULUS as u32).0[k]),
    {
        let ghost seed = rng.seed();
        let ghost pos0 = rng.pos();
        let mut param_h: [SmallNTTPoly; 28] = [SmallNTTPoly { coeffs: [0u16; N] }; 28];
        let mut i: usize = 0;
        while i < 28
            invariant
                i <= 28,
                forall|k: int| 0 <= k < 28 ==> (#[trigger] param_h@[k]).wf(),
                rng.seed() == seed,
                rng.pos() == uniform_polys(seed, pos0, i as nat, SMALL_SAMPLE_THRESHOLD, SMALL_MODULUS as u32).1,
                uniform_polys(seed, pos0, i as nat, SMALL_SAMPLE_THRESHOLD, SMALL_MODULUS as u32).0.len() == i,
                forall|k: int| 0 <= k < i ==> (#[trigger] param_h@[k]).vals() == small_ntt(uniform_polys(seed, pos0, i as nat, SMALL_SAMPLE_THRESHOLD, SMALL_MODULUS as u32).0[k]),
            decreases 28 - i,
        {
            let tmp = SmallPoly::rand_poly(rng);
            param_h[i] = SmallNTTPoly::from_small(&tmp);
            i = i + 1;
        }
        HVCHash { param_h }
    }

    /// The hash of `2 * SMALL_MODULUS_BITS` small-ring polynomials.
    pub fn hash(&self, inputs: &[SmallPoly]) -> (r: SmallPoly)
        requires
            self.wf(),
            inputs@.len() == 2 * SMALL_MODULUS_BITS,
            forall|i: int| 0 <= i < inputs@.len() ==> (#[trigger] inputs@[i]).wf(),
        ensures
            r.wf(),
            r.vals() == hash_spec(self.param_h@, small_vals(inputs@)),
    {
        hash_sum(self.param_h.as_slice(), inputs)
    }

    /// The hash of the concatenation of `left` and `right`, each signed
    /// polynomial reduced into the small ring first.
    pub fn hash_separate_inputs(&self, left: &[SignedPoly], right: &[SignedPoly]) -> (r: SmallPoly)
        requires
            self.wf(),
            left@.len() + right@.len() == 2 * SMALL_MODULUS_BITS,
        ensures
            r.wf(),
            r.vals() == hash_spec(self.param_h@, lifted_vals(left@ + right@)),
    {
        let mut inputs: Vec<SmallPoly> = Vec::new();
        let mut i: usize = 0;
        while i < left.len()
            invariant
                i <= left@.len(),
                inputs@.len() == i,
                forall|k: int| 0 <= k < i ==> (#[trigger] inputs@[k]).wf() && inputs@[k].vals() == reduce(left@[k].vals(), q_small()),
            decreases left@.len() - i,
        {
            inputs.push(left[i].lifted_small());
            i = i + 1;
        }
        let mut i: usize = 0;
        while i < right.len()
            invariant
                i <= right@.len(),
                inputs@.len() == left@.len() + i,
                forall|k: int| 0 <= k < left@.len() + i ==> (#[trigger] inputs@[k]).wf(),
                forall|k: int| 0 <= k < left@.len() ==> (#[trigger] inputs@[k]).vals() == reduce(left@[k].vals(), q_small()),
                forall|k: int| 0 <= k < i ==> (#[trigger] inputs@[left@.len() + k]).vals() == reduce(right@[k].vals(), q_small()),
            decreases right@.len() - i,
        {
            inputs.push(right[i].lifted_small());
            i = i + 1;
        }
        proof {
            assert forall|k: int| 0 <= k < inputs@.len() implies #[trigger] small_vals(inputs@)[k] == lifted_vals(left@ + right@)[k] by {
                if k >= left@.len() {
                    let t = k - left@.len();
                    assert(inputs@[left@.len() + t].vals() == reduce(right@[t].vals(), q_small()));
                }
            }
            assert(small_vals(inputs@) =~= lifted_vals(left@ + right@));
        }
        self.hash(inputs.as_slice())
    }

    /// Decomposes both children and hashes the `2 * SMALL_MODULUS_BITS`
    /// binary polynomials: the combiner of the commitment tree.
    pub fn decom_then_hash(&self, left: &SmallPoly, right: &SmallPoly) -> (r: SmallPoly)
        requires
            self.wf(),
        ensures
            r.wf(),
            r.vals() == hash_spec(self.param_h@, bit_rows(left.vals(), SMALL_MODULUS_BITS as nat) + bit_rows(right.vals(), SMALL_MODULUS_BITS as nat)),
    {
        let l = left.decompose();
        let rr = right.decompose();
        proof {
            lemma_lifted_bit_rows(l@, left.vals());
            lemma_lifted_bit_rows(rr@, right.vals());
            assert(lifted_vals(l@ + rr@) =~= lifted_vals(l@) + lifted_vals(rr@));
        }
        self.hash_separate_inputs(l.as_slice(), rr.as_slice())
    }
}

/// The first `b` rows of the base-2 decomposition of `v`: row `k` holds
/// bit `k` of every coefficient.
pub open spec fn bit_rows(v: Seq<int>, b: nat) -> Seq<Seq<int>> {
    Seq::new(b, |k: int| Seq::new(v.len(), |j: int| bit(v[j], k as nat)))
}

/// A decomposition reduced into the small ring is unchanged.
pub proof fn lemma_lifted_bit_rows(d: Seq<SignedPoly>, v: Seq<int>)
    requires
        v.len() == N,
        forall|j: int| 0 <= j < N ==> v[j] >= 0,
        forall|k: int, j: int| 0 <= k < d.len() && 0 <= j < N ==> (#[trigger] d[k].coeffs@[j]) as int == bit(v[j], k as nat),
    ensures
        lifted_vals(d) == bit_rows(v, d.len()),
{
    assert forall|k: int| 0 <= k < d.len() implies #[trigger] lifted_vals(d)[k] == bit_rows(v, d.len())[k] by {
        assert forall|j: int| 0 <= j < N implies #[trigger] reduce(d[k].vals(), q_small())[j] == bit(v[j], k as nat) by {
            lemma_bit_binary(v[j], k as nat);
        }
        assert(reduce(d[k].vals(), q_small()) =~= bit_rows(v, d.len())[k]);
    }
    assert(lifted_vals(d) =~= bit_rows(v, d.len()));
}

} // verus!
