//! The hash that compresses a one-time public key into a small-ring
//! polynomial: `sum_i h_i * x_i` over the decompositions of its two parts.
use vstd::prelude::*;
use crate::primitives::ChaChaStream;
use crate::param::{N, SMALL_MODULUS, SMALL_SAMPLE_THRESHOLD, LARGE_MODULUS_BITS};
use crate::sampling::uniform_polys;
use crate::poly::{SignedPoly, LargePoly, SmallPoly, SmallNTTPoly, q_small};
use crate::hvc_hash::{keys_reduced, hash_sum, hash_spec, lifted_vals, small_vals, keys_wf, bit_rows, lemma_lifted_bit_rows};
use crate::arith::reduce;
use crate::small_poly::small_ntt;

verus! {

/// The keys of the public-key hash, in transform form.
#[derive(Debug, Clone, PartialEq)]
pub struct HOTSHash {
    pub param_h: [SmallNTTPoly; 48],
}

impl HOTSHash {
    /// Whether every key is well formed.
    pub fn is_well_formed(&self) -> (r: bool)
        ensures
            r == self.wf(),
    {
        keys_reduced(self.param_h.as_slice())
    }

    /// Every key is well formed.
    pub open spec fn wf(&self) -> bool {
        keys_wf(self.param_h@)
    }

    /// Samples the `2 * LARGE_MODULUS_BITS` keys uniformly.
    pub fn init(rng: &mut ChaChaStream) -> (r: Self)
        ensures
            r.wf(),
            final(rng).seed() == old(rng).seed(),
            final(rng).pos() == uniform_polys(old(rng).seed(), old(rng).pos(), 48, SMALL_SAMPLE_THRESHOLD, SMALL_MODULUS as u32).1,
            forall|k: int| 0 <= k < 48 ==>
                (#[trigger] r.param_h@[k]).vals() == small_ntt(uniform_polys(old(rng).seed(), old(rng).pos(), 48, SMALL_SAMPLE_THRESHOLD, SMALL_MODULUS as u32).0[k]),
    {
        let ghost seed = rng.seed();
        let ghost pos0 = rng.pos();
        let mut param_h: [SmallNTTPoly; 48] = [SmallNTTPoly { coeffs: [0u16; N] }; 48];
        let mut i: usize = 0;
        while i < 48
            invariant
                i <= 48,
                forall|k: int| 0 <= k < 48 ==> (#[trigger] param_h@[k]).wf(),
                rng.seed() == seed,
                rng.pos() == uniform_polys(seed, pos0, i as nat, SMALL_SAMPLE_THRESHOLD, SMALL_MODULUS as u32).1,
                uniform_polys(seed, pos0, i as nat, SMALL_SAMPLE_THRESHOLD, SMALL_MODULUS as u32).0.len() == i,
                forall|k: int| 0 <= k < i ==> (#[trigger] param_h@[k]).vals() == small_ntt(uniform_polys(seed, pos0, i as nat, SMALL_SAMPLE_THRESHOLD, SMALL_MODULUS as u32).0[k]),
            decreases 48 - i,
        {
            let tmp = SmallPoly::rand_poly(rng);
            param_h[i] = SmallNTTPoly::from_small(&tmp);
            i = i + 1;
        }
        HOTSHash { param_h }
    }

    /// The hash of `2 * LARGE_MODULUS_BITS` signed polynomials, each
    /// reduced into the small ring.
    pub fn hash(&self, inputs: &[SignedPoly]) -> (r: SmallPoly)
        requires
            self.wf(),
            inputs@.len() == 2 * LARGE_MODULUS_BITS,
        ensures
            r.wf(),
            r.vals() == hash_spec(self.param_h@, lifted_vals(inputs@)),
    {
        let mut lifted: Vec<SmallPoly> = Vec::new();
        let mut i: usize = 0;
        while i < inputs.len()
            invariant
                i <= inputs@.len(),
                lifted@.len() == i,
                forall|k: int| 0 <= k < i ==> (#[trigger] lifted@[k]).wf() && lifted@[k].vals() == reduce(inputs@[k].vals(), q_small()),
            decreases inputs@.len() - i,
        {
            lifted.push(inputs[i].lifted_small());
            i = i + 1;
        }
        assert(small_vals(lifted@) =~= lifted_vals(inputs@));
        hash_sum(self.param_h.as_slice(), lifted.as_slice())
    }

    /// The hash of the concatenation of `left` and `right`.
    pub fn hash_separate_inputs(&self, left: &[SignedPoly], right: &[SignedPoly]) -> (r: SmallPoly)
        requires
            self.wf(),
            left@.len() + right@.len() == 2 * LARGE_MODULUS_BITS,
        ensures
            r.wf(),
            r.vals() == hash_spec(self.param_h@, lifted_vals(left@ + right@)),
    {
        let mut inputs: Vec<SignedPoly> = Vec::new();
        let mut i: usize = 0;
        while i < left.len()
            invariant
                i <= left@.len(),
                inputs@ == left@.take(i as int),
            decreases left@.len() - i,
        {
            inputs.push(left[i]);
            i = i + 1;
            assert(inputs@ =~= left@.take(i as int));
        }
        let mut i: usize = 0;
        while i < right.len()
            invariant
                i <= right@.len(),
                inputs@ == left@ + right@.take(i as int),
            decreases right@.len() - i,
        {
            inputs.push(right[i]);
            i = i + 1;
            assert(inputs@ =~= left@ + right@.take(i as int));
        }
        assert(inputs@ =~= left@ + right@);
        self.hash(inputs.as_slice())
    }

    /// Decomposes both large-ring polynomials and hashes the
    /// `2 * LARGE_MODULUS_BITS` binary polynomials.
    pub fn decom_then_hash(&self, first: &LargePoly, second: &LargePoly) -> (r: SmallPoly)
        requires
            self.wf(),
        ensures
            r.wf(),
            r.vals() == hash_spec(self.param_h@, bit_rows(first.vals(), LARGE_MODULUS_BITS as nat) + bit_rows(second.vals(), LARGE_MODULUS_BITS as nat)),
    {
        let a = first.decompose();
        let b = second.decompose();
        proof {
            lemma_lifted_bit_rows(a@, first.vals());
            lemma_lifted_bit_rows(b@, second.vals());
            assert(lifted_vals(a@ + b@) =~= lifted_vals(a@) + lifted_vals(b@));
        }
        self.hash_separate_inputs(a.as_slice(), b.as_slice())
    }
}

} // verus!
