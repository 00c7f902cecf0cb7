//! Derivation of the aggregation randomizers from a list of roots.
use vstd::prelude::*;
use crate::param::ALPHA;
use crate::poly::{SignedPoly, SmallPoly, balanced, all_balanced};
use crate::primitives::{ChaChaStream, sha256, sha256_of};
use crate::sampling::ternaries_spec;
use crate::small_poly::small_bytes;

verus! {

/// The concatenated SHA-256 digests of the roots (each over the two
/// little-endian bytes of every coefficient).
pub open spec fn roots_bytes(roots: Seq<SmallPoly>) -> Seq<u8>
    decreases roots.len(),
{
    if roots.len() == 0 {
        Seq::empty()
    } else {
        roots_bytes(roots.drop_last()) + sha256_of(small_bytes(roots.last().vals()))
    }
}

/// The coefficients of the randomizers of `roots`: `roots.len()` balanced
/// ternary polynomials drawn from ChaCha20 seeded with the SHA-256 of
/// `roots_bytes(roots)`.
pub open spec fn derived_randomizers(roots: Seq<SmallPoly>) -> Seq<Seq<i32>> {
    ternaries_spec(sha256_of(roots_bytes(roots)), 0, roots.len(), (ALPHA / 2) as nat).0
}

/// `rs` are the randomizers of `roots`.
pub open spec fn randomizers_of(rs: Seq<SignedPoly>, roots: Seq<SmallPoly>) -> bool {
    &&& rs.len() == roots.len()
    &&& forall|i: int| 0 <= i < rs.len() ==> (#[trigger] rs[i]).coeffs@ == derived_randomizers(roots)[i]
}

/// The randomizers of a root list are unique.
pub proof fn lemma_randomizers_unique(a: Seq<SignedPoly>, b: Seq<SignedPoly>, roots: Seq<SmallPoly>)
    requires
        randomizers_of(a, roots),
        randomizers_of(b, roots),
    ensures
        a == b,
{
    assert forall|i: int| 0 <= i < a.len() implies a[i] == b[i] by {
        assert(a[i].coeffs@ == b[i].coeffs@);
        assert(a[i].coeffs == b[i].coeffs);
    }
    assert(a =~= b);
}

/// One ternary polynomial per aggregated signer.
#[derive(Debug, Clone, PartialEq)]
pub struct Randomizers {
    pub poly: Vec<SignedPoly>,
}

impl Randomizers {
    /// Every randomizer is ternary with `ALPHA / 2` coefficients `+1` and
    /// as many `-1`.
    pub open spec fn wf(&self) -> bool {
        all_balanced(self.poly@)
    }

    /// Samples `n` ternary polynomials with `ALPHA / 2` coefficients `+1`
    /// and as many `-1`.
    pub fn rand(rng: &mut ChaChaStream, n: usize) -> (r: Self)
        ensures
            r.poly@.len() == n,
            r.wf(),
            final(rng).seed() == old(rng).seed(),
            final(rng).pos() == ternaries_spec(old(rng).seed(), old(rng).pos(), n as nat, (ALPHA / 2) as nat).1,
            forall|i: int| 0 <= i < n ==>
                (#[trigger] r.poly@[i]).coeffs@ == ternaries_spec(old(rng).seed(), old(rng).pos(), n as nat, (ALPHA / 2) as nat).0[i],
    {
        let ghost seed = rng.seed();
        let ghost pos0 = rng.pos();
        let mut poly: Vec<SignedPoly> = Vec::new();
        let mut i: usize = 0;
        while i < n
            invariant
                i <= n,
                poly@.len() == i,
                rng.seed() == seed,
                rng.pos() == ternaries_spec(seed, pos0, i as nat, (ALPHA / 2) as nat).1,
                ternaries_spec(seed, pos0, i as nat, (ALPHA / 2) as nat).0.len() == i,
                forall|k: int| 0 <= k < i ==> balanced(#[trigger] poly@[k]),
                forall|k: int| 0 <= k < i ==> (#[trigger] poly@[k]).coeffs@ == ternaries_spec(seed, pos0, i as nat, (ALPHA / 2) as nat).0[k],
            decreases n - i,
        {
            let t = SignedPoly::rand_ternary(rng, ALPHA / 2);
            poly.push(t);
            i = i + 1;
        }
        proof {
            lemma_ternaries_prefix(seed, pos0, n as nat);
        }
        Randomizers { poly }
    }

    /// The randomizers of a list of roots: the SHA-256 digests of the roots
    /// are concatenated and hashed again into the seed of the sampler.
    pub fn from_pks(roots: &[SmallPoly]) -> (r: Self)
        ensures
            r.wf(),
            randomizers_of(r.poly@, roots@),
    {
        let mut input: Vec<u8> = Vec::new();
        let mut i: usize = 0;
        while i < roots.len()
            invariant
                i <= roots@.len(),
                input@ == roots_bytes(roots@.take(i as int)),
            decreases roots@.len() - i,
        {
            let d = roots[i].digest();
            let ghost before = input@;
            let mut t: usize = 0;
            while t < 32
                invariant
                    t <= 32,
                    input@ == before + d@.take(t as int),
                decreases 32 - t,
            {
                input.push(d[t]);
                t = t + 1;
                assert(input@ =~= before + d@.take(t as int));
            }
            proof {
                assert(roots@.take(i + 1).drop_last() =~= roots@.take(i as int));
                assert(d@.take(32) =~= d@);
            }
            i = i + 1;
        }
        assert(roots@.take(roots@.len() as int) =~= roots@);
        let seed = sha256(&input);
        let mut rng = ChaChaStream::from_seed(seed);
        Self::rand(&mut rng, roots.len())
    }
}

proof fn lemma_ternaries_prefix(seed: Seq<u8>, pos: nat, n: nat)
    ensures
        ternaries_spec(seed, pos, n, (ALPHA / 2) as nat).0.len() == n,
    decreases n,
{
    if n > 0 {
        lemma_ternaries_prefix(seed, pos, (n - 1) as nat);
    }
}

} // verus!
