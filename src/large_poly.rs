//! The large ring `Z_q[X]/(X^N + 1)` with `q = LARGE_MODULUS`.
use vstd::prelude::*;
use crate::primitives::ChaChaStream;
use crate::sampling::uniform_coeffs;
use crate::param::{N, LARGE_MODULUS, LARGE_MODULUS_BITS, LARGE_SAMPLE_THRESHOLD, LARGE_PSI, LARGE_PSI_SQ, LARGE_PSI_INV, LARGE_PSI_INV_SQ, LARGE_N_INV};
use crate::arith::{bit, shr, bits_value, column, ints32, all_below, ntt_spec, inv_ntt_spec, add_spec, pointwise_spec, reduce, add_mod_arr, mul_mod_arr, lift_arr, transform_exec, take_low_bits, lemma_next_bit, lemma_bit_binary, lemma_bits_value_of, bits_of, pow2, bits_value_columns, reduce_i64};
use crate::poly::{negacyclic, negacyclic_mod, ints64, SignedPoly, LargePoly, LargeNTTPoly, q_large};
use crate::small_poly::{rows_of, poly_column, projection_spec};
use crate::primitives::{sha256, sha256_of, draw_below};

verus! {

/// The little-endian serialization of coefficients: four bytes each.
pub open spec fn large_bytes(s: Seq<int>) -> Seq<u8> {
    Seq::new(4 * s.len(), |i: int| ((s[i / 4] / byte_weight(i % 4)) % 256) as u8)
}

/// `256^t` for a byte position `t` below 4.
pub open spec fn byte_weight(t: int) -> int {
    if t == 0 {
        1
    } else if t == 1 {
        0x100
    } else if t == 2 {
        0x1_0000
    } else {
        0x100_0000
    }
}

/// The forward transform in the large ring.
pub open spec fn large_ntt(s: Seq<int>) -> Seq<int> {
    ntt_spec(s, q_large(), LARGE_PSI as int, LARGE_PSI_SQ as int)
}

/// The inverse transform in the large ring.
pub open spec fn large_inv_ntt(s: Seq<int>) -> Seq<int> {
    inv_ntt_spec(s, q_large(), LARGE_PSI_INV as int, LARGE_PSI_INV_SQ as int, LARGE_N_INV as int)
}

impl Default for LargePoly {
    fn default() -> (r: Self)
        ensures
            r.wf(),
            forall|j: int| 0 <= j < N ==> (#[trigger] r.coeffs@[j]) == 0,
    {
        LargePoly { coeffs: [0u32; N] }
    }
}

impl LargePoly {
    /// The coefficients as integers.
    pub open spec fn vals(&self) -> Seq<int> {
        self.coeffs@.map_values(|c: u32| c as int)
    }

    /// Every coefficient is below the modulus.
    pub open spec fn wf(&self) -> bool {
        forall|j: int| 0 <= j < N ==> (#[trigger] self.coeffs@[j]) < LARGE_MODULUS
    }

    fn widen(&self) -> (r: [u32; N])
        ensures
            ints32(r@) == self.vals(),
            self.wf() ==> all_below(r@, q_large()),
    {
        let mut r: [u32; N] = [0u32; N];
        let mut j: usize = 0;
        while j < N
            invariant
                j <= N,
                forall|i: int| 0 <= i < j ==> (#[trigger] r@[i]) == self.coeffs@[i] as u32,
            decreases N - j,
        {
            r[j] = self.coeffs[j];
            j = j + 1;
        }
        assert(ints32(r@) =~= self.vals());
        r
    }

    fn from_words(a: &[u32; N]) -> (r: Self)
        requires
            all_below(a@, q_large()),
        ensures
            r.wf(),
            r.vals() == ints32(a@),
    {
        let mut coeffs: [u32; N] = [0u32; N];
        let mut j: usize = 0;
        while j < N
            invariant
                j <= N,
                all_below(a@, q_large()),
                forall|i: int| 0 <= i < j ==> (#[trigger] coeffs@[i]) as int == a@[i] as int,
                forall|i: int| 0 <= i < N ==> (#[trigger] coeffs@[i]) < LARGE_MODULUS,
            decreases N - j,
        {
            coeffs[j] = a[j];
            j = j + 1;
        }
        let r = LargePoly { coeffs };
        assert(r.vals() =~= ints32(a@));
        r
    }

    /// Coefficient-wise sum modulo the modulus.
    pub fn add(self, other: Self) -> (r: Self)
        requires
            self.wf(),
            other.wf(),
        ensures
            r.wf(),
            r.vals() == add_spec(self.vals(), other.vals(), q_large()),
    {
        let a = self.widen();
        let b = other.widen();
        let c = add_mod_arr(&a, &b, LARGE_MODULUS);
        let r = Self::from_words(&c);
        assert(r.vals() =~= add_spec(self.vals(), other.vals(), q_large()));
        r
    }

    /// Adds `other` coefficient-wise modulo the modulus.
    pub fn add_assign(&mut self, other: Self)
        requires
            old(self).wf(),
            other.wf(),
        ensures
            final(self).wf(),
            final(self).vals() == add_spec(old(self).vals(), other.vals(), q_large()),
    {
        *self = self.add(other);
    }

    /// Product in the ring, through the transform: the inverse transform of
    /// the coefficient-wise product of the two transforms.
    pub fn mul(self, other: Self) -> (r: Self)
        requires
            self.wf(),
            other.wf(),
        ensures
            r.wf(),
            r.vals() == large_inv_ntt(pointwise_spec(large_ntt(self.vals()), large_ntt(other.vals()), q_large())),
    {
        let a = LargeNTTPoly::from_large(&self);
        let b = LargeNTTPoly::from_large(&other);
        a.mul(b).to_large()
    }

    /// The base-2 decomposition: row `k` holds bit `k` of every coefficient.
    pub fn decompose(&self) -> (r: [SignedPoly; LARGE_MODULUS_BITS])
        ensures
            forall|k: int, j: int| 0 <= k < LARGE_MODULUS_BITS && 0 <= j < N ==>
                (#[trigger] r@[k].coeffs@[j]) as int == bit(self.vals()[j], k as nat),
            forall|k: int| 0 <= k < LARGE_MODULUS_BITS ==> (#[trigger] r@[k]).binary(),
    {
        let mut res: [SignedPoly; LARGE_MODULUS_BITS] = [SignedPoly { coeffs: [0i32; N] }; LARGE_MODULUS_BITS];
        let mut cur = self.widen();
        let ghost v = self.vals();
        let mut k: usize = 0;
        while k < LARGE_MODULUS_BITS
            invariant
                k <= LARGE_MODULUS_BITS,
                v == self.vals(),
                v.len() == N,
                forall|j: int| 0 <= j < N ==> v[j] >= 0,
                forall|j: int| 0 <= j < N ==> (#[trigger] cur@[j]) as int == shr(v[j], k as nat),
                forall|i: int, j: int| 0 <= i < k && 0 <= j < N ==> (#[trigger] res@[i].coeffs@[j]) as int == bit(v[j], i as nat),
            decreases LARGE_MODULUS_BITS - k,
        {
            let ghost old_cur = cur;
            let low = take_low_bits(&mut cur);
            proof {
                assert forall|j: int| 0 <= j < N implies (#[trigger] low@[j]) as int == bit(v[j], k as nat) by {
                    lemma_next_bit(v[j], k as nat, old_cur@[j] as int);
                }
                assert forall|j: int| 0 <= j < N implies (#[trigger] cur@[j]) as int == shr(v[j], (k + 1) as nat) by {
                    lemma_next_bit(v[j], k as nat, old_cur@[j] as int);
                }
            }
            let ghost prev = res;
            res[k] = SignedPoly { coeffs: low };
            proof {
                assert forall|i: int, j: int| 0 <= i < k + 1 && 0 <= j < N implies (#[trigger] res@[i].coeffs@[j]) as int == bit(v[j], i as nat) by {
                    if i < k {
                        assert(res@[i] == prev@[i]);
                        assert(prev@[i].coeffs@[j] as int == bit(v[j], i as nat));
                    } else {
                        assert(res@[i].coeffs == low);
                        assert(low@[j] as int == bit(v[j], k as nat));
                    }
                }
            }
            k = k + 1;
        }
        proof {
            assert forall|i: int| 0 <= i < LARGE_MODULUS_BITS implies (#[trigger] res@[i]).binary() by {
                assert forall|j: int| 0 <= j < N implies (#[trigger] res@[i].coeffs@[j]) == 0 || res@[i].coeffs@[j] == 1 by {
                    lemma_bit_binary(v[j], i as nat);
                }
            }
        }
        res
    }

    /// The inverse of `decompose`: reads `binary_polys` as base-2 digits
    /// (row `k` weighs `2^k`, any integer values) and reduces modulo the
    /// modulus.
    pub fn projection(binary_polys: &[SignedPoly]) -> (r: Self)
        requires
            binary_polys@.len() == LARGE_MODULUS_BITS,
        ensures
            r.wf(),
            r.vals() == projection_spec(binary_polys@, q_large()),
    {
        let rows = rows_of(binary_polys);
        let acc = bits_value_columns(&rows);
        let mut out: [u32; N] = [0u32; N];
        let mut j: usize = 0;
        while j < N
            invariant
                j <= N,
                forall|i: int| 0 <= i < N ==> (#[trigger] acc@[i]) as int == bits_value(column(rows@, i)),
                forall|i: int| 0 <= i < N ==> (#[trigger] acc@[i]) > i64::MIN,
                forall|i: int| 0 <= i < N ==> column(rows@, i) == poly_column(binary_polys@, i),
                forall|i: int| 0 <= i < j ==> (#[trigger] out@[i]) as int == bits_value(poly_column(binary_polys@, i)) % q_large(),
                forall|i: int| 0 <= i < N ==> (#[trigger] out@[i]) < LARGE_MODULUS,
            decreases N - j,
        {
            out[j] = reduce_i64(acc[j], LARGE_MODULUS);
            j = j + 1;
        }
        let r = Self::from_words(&out);
        assert(r.vals() =~= projection_spec(binary_polys@, q_large()));
        r
    }
}

impl LargePoly {
    /// The product in the ring by the definition of negacyclic
    /// convolution: the reference for the transform-based product.
    pub fn schoolbook(a: &Self, b: &Self) -> (r: Self)
        requires
            a.wf(),
            b.wf(),
        ensures
            r.wf(),
            r.vals() == Seq::new(N as nat, |k: int| negacyclic(a.vals(), b.vals(), k, N as int) % q_large()),
    {
        let x = a.widen();
        let y = b.widen();
        let mut xa: [i64; N] = [0i64; N];
        let mut ya: [i64; N] = [0i64; N];
        let mut j: usize = 0;
        while j < N
            invariant
                j <= N,
                ints32(x@) == a.vals(),
                ints32(y@) == b.vals(),
                all_below(x@, q_large()),
                all_below(y@, q_large()),
                forall|i: int| 0 <= i < j ==> (#[trigger] xa@[i]) as int == x@[i] as int,
                forall|i: int| 0 <= i < j ==> (#[trigger] ya@[i]) as int == y@[i] as int,
                forall|i: int| 0 <= i < N ==> 0 <= (#[trigger] xa@[i]) < 0x100_0000,
                forall|i: int| 0 <= i < N ==> 0 <= (#[trigger] ya@[i]) < 0x100_0000,
            decreases N - j,
        {
            xa[j] = x[j] as i64;
            ya[j] = y[j] as i64;
            j = j + 1;
        }
        assert(ints64(xa@) =~= a.vals());
        assert(ints64(ya@) =~= b.vals());
        let c = negacyclic_mod(&xa, &ya, LARGE_MODULUS as u32);
        let r = Self::from_words(&c);
        assert(r.vals() =~= Seq::new(N as nat, |k: int| negacyclic(a.vals(), b.vals(), k, N as int) % q_large()));
        r
    }

    /// Whether every coefficient is below the modulus.
    pub fn is_reduced(&self) -> (r: bool)
        ensures
            r == self.wf(),
    {
        let mut j: usize = 0;
        while j < N
            invariant
                j <= N,
                forall|i: int| 0 <= i < j ==> (#[trigger] self.coeffs@[i]) < LARGE_MODULUS,
            decreases N - j,
        {
            if self.coeffs[j] >= LARGE_MODULUS {
                return false;
            }
            j = j + 1;
        }
        true
    }

    /// SHA-256 of the coefficients, four little-endian bytes each.
    pub fn digest(&self) -> (r: [u8; 32])
        ensures
            r@ == sha256_of(large_bytes(self.vals())),
    {
        let mut inputs: Vec<u8> = Vec::new();
        let mut j: usize = 0;
        while j < N
            invariant
                j <= N,
                inputs@ == large_bytes(self.vals().take(j as int)),
            decreases N - j,
        {
            let e = self.coeffs[j];
            assert(e & 0xFF == e % 0x100 && (e >> 8) & 0xFF == (e / 0x100) % 0x100
                && (e >> 16) & 0xFF == (e / 0x1_0000) % 0x100 && (e >> 24) & 0xFF == (e / 0x100_0000) % 0x100) by (bit_vector);
            inputs.push((e & 0xFF) as u8);
            inputs.push(((e >> 8) & 0xFF) as u8);
            inputs.push(((e >> 16) & 0xFF) as u8);
            inputs.push(((e >> 24) & 0xFF) as u8);
            j = j + 1;
            assert(inputs@ =~= large_bytes(self.vals().take(j as int)));
        }
        assert(self.vals().take(N as int) =~= self.vals());
        sha256(&inputs)
    }

    /// Samples a uniformly random polynomial: each coefficient from a
    /// stream word below `LARGE_SAMPLE_THRESHOLD`, reduced.
    pub fn rand_poly(rng: &mut ChaChaStream) -> (r: Self)
        ensures
            r.wf(),
            final(rng).seed() == old(rng).seed(),
            (r.vals(), final(rng).pos()) == uniform_coeffs(old(rng).seed(), old(rng).pos(), N as nat, LARGE_SAMPLE_THRESHOLD, LARGE_MODULUS),
    {
        let ghost seed = rng.seed();
        let ghost pos0 = rng.pos();
        let mut coeffs: [u32; N] = [0u32; N];
        let mut j: usize = 0;
        while j < N
            invariant
                j <= N,
                rng.seed() == seed,
                rng.pos() == uniform_coeffs(seed, pos0, j as nat, LARGE_SAMPLE_THRESHOLD, LARGE_MODULUS).1,
                uniform_coeffs(seed, pos0, j as nat, LARGE_SAMPLE_THRESHOLD, LARGE_MODULUS).0.len() == j,
                forall|i: int| 0 <= i < j ==> (#[trigger] coeffs@[i]) as int == uniform_coeffs(seed, pos0, j as nat, LARGE_SAMPLE_THRESHOLD, LARGE_MODULUS).0[i],
                forall|i: int| 0 <= i < N ==> (#[trigger] coeffs@[i]) < LARGE_MODULUS,
            decreases N - j,
        {
            let tmp = draw_below(rng, LARGE_SAMPLE_THRESHOLD);
            coeffs[j] = tmp % LARGE_MODULUS;
            j = j + 1;
        }
        let r = LargePoly { coeffs };
        assert(r.vals() =~= uniform_coeffs(seed, pos0, N as nat, LARGE_SAMPLE_THRESHOLD, LARGE_MODULUS).0);
        r
    }

    /// Samples a polynomial with each coefficient a stream word reduced
    /// modulo the modulus, without rejection (slightly biased).
    pub fn rand_non_uniform_poly(rng: &mut ChaChaStream) -> (r: Self)
        ensures
            r.wf(),
    {
        let mut res = Self::default();
        let mut j: usize = 0;
        while j < N
            invariant
                j <= N,
                res.wf(),
            decreases N - j,
        {
            res.coeffs[j] = rng.next_u32() % LARGE_MODULUS;
            j = j + 1;
        }
        res
    }

    /// The coefficients of `poly` reduced into `[0, LARGE_MODULUS)`.
    pub fn from_signed(poly: &SignedPoly) -> (r: Self)
        ensures
            r.wf(),
            r.vals() == reduce(poly.vals(), q_large()),
    {
        let w = lift_arr(&poly.coeffs, LARGE_MODULUS);
        let r = Self::from_words(&w);
        assert(r.vals() =~= reduce(poly.vals(), q_large()));
        r
    }
}

impl SignedPoly {
    /// The coefficients of `poly` as signed integers.
    pub fn from_large(poly: &LargePoly) -> (r: Self)
        requires
            poly.wf(),
        ensures
            r.vals() == poly.vals(),
    {
        let mut coeffs: [i32; N] = [0i32; N];
        let mut j: usize = 0;
        while j < N
            invariant
                j <= N,
                poly.wf(),
                forall|i: int| 0 <= i < j ==> (#[trigger] coeffs@[i]) as int == poly.coeffs@[i] as int,
            decreases N - j,
        {
            coeffs[j] = poly.coeffs[j] as i32;
            j = j + 1;
        }
        let r = SignedPoly { coeffs };
        assert(r.vals() =~= poly.vals());
        r
    }

    /// The coefficients reduced into `[0, LARGE_MODULUS)`.
    pub fn lifted_large(&self) -> (r: LargePoly)
        ensures
            r.wf(),
            r.vals() == reduce(self.vals(), q_large()),
    {
        LargePoly::from_signed(self)
    }
}

impl Default for LargeNTTPoly {
    fn default() -> (r: Self)
        ensures
            r.wf(),
            forall|j: int| 0 <= j < N ==> (#[trigger] r.coeffs@[j]) == 0,
    {
        LargeNTTPoly { coeffs: [0u32; N] }
    }
}

impl LargeNTTPoly {
    /// Whether every entry is below the modulus.
    pub fn is_reduced(&self) -> (r: bool)
        ensures
            r == self.wf(),
    {
        self.as_poly().is_reduced()
    }

    /// Whether the two transforms are equal.
    pub fn equals(&self, other: &Self) -> (r: bool)
        ensures
            r == (self.vals() == other.vals()),
    {
        let mut j: usize = 0;
        while j < N
            invariant
                j <= N,
                forall|i: int| 0 <= i < j ==> (#[trigger] self.coeffs@[i]) == other.coeffs@[i],
            decreases N - j,
        {
            if self.coeffs[j] != other.coeffs[j] {
                assert(self.vals()[j as int] != other.vals()[j as int]);
                return false;
            }
            j = j + 1;
        }
        assert(self.vals() =~= other.vals());
        true
    }

    /// The entries as integers.
    pub open spec fn vals(&self) -> Seq<int> {
        self.coeffs@.map_values(|c: u32| c as int)
    }

    /// Every entry is below the modulus.
    pub open spec fn wf(&self) -> bool {
        forall|j: int| 0 <= j < N ==> (#[trigger] self.coeffs@[j]) < LARGE_MODULUS
    }

    fn as_poly(&self) -> (r: LargePoly)
        ensures
            r.coeffs == self.coeffs,
    {
        LargePoly { coeffs: self.coeffs }
    }

    /// The forward transform of `poly`.
    pub fn from_large(poly: &LargePoly) -> (r: Self)
        requires
            poly.wf(),
        ensures
            r.wf(),
            r.vals() == large_ntt(poly.vals()),
    {
        let a = poly.widen();
        let t = transform_exec(&a, LARGE_MODULUS, 1, 1, LARGE_PSI, LARGE_PSI_SQ);
        let p = LargePoly::from_words(&t);
        LargeNTTPoly { coeffs: p.coeffs }
    }

    /// The forward transform of `poly` reduced into the large ring.
    pub fn from_signed(poly: &SignedPoly) -> (r: Self)
        ensures
            r.wf(),
            r.vals() == large_ntt(reduce(poly.vals(), q_large())),
    {
        Self::from_large(&LargePoly::from_signed(poly))
    }

    /// The inverse transform.
    pub fn to_large(&self) -> (r: LargePoly)
        requires
            self.wf(),
        ensures
            r.wf(),
            r.vals() == large_inv_ntt(self.vals()),
    {
        let a = self.as_poly().widen();
        let t = transform_exec(&a, LARGE_MODULUS, LARGE_N_INV, LARGE_PSI_INV, 1, LARGE_PSI_INV_SQ);
        LargePoly::from_words(&t)
    }

    /// Entry-wise sum modulo the modulus.
    pub fn add(self, other: Self) -> (r: Self)
        requires
            self.wf(),
            other.wf(),
        ensures
            r.wf(),
            r.vals() == add_spec(self.vals(), other.vals(), q_large()),
    {
        let s = self.as_poly().add(other.as_poly());
        LargeNTTPoly { coeffs: s.coeffs }
    }

    /// Adds `other` entry-wise modulo the modulus.
    pub fn add_assign(&mut self, other: Self)
        requires
            old(self).wf(),
            other.wf(),
        ensures
            final(self).wf(),
            final(self).vals() == add_spec(old(self).vals(), other.vals(), q_large()),
    {
        *self = self.add(other);
    }

    /// Entry-wise product modulo the modulus: the product in the ring.
    pub fn mul(self, other: Self) -> (r: Self)
        requires
            self.wf(),
            other.wf(),
        ensures
            r.wf(),
            r.vals() == pointwise_spec(self.vals(), other.vals(), q_large()),
    {
        let a = self.as_poly().widen();
        let b = other.as_poly().widen();
        let c = mul_mod_arr(&a, &b, LARGE_MODULUS);
        let p = LargePoly::from_words(&c);
        let r = LargeNTTPoly { coeffs: p.coeffs };
        assert(r.vals() =~= pointwise_spec(self.vals(), other.vals(), q_large()));
        r
    }
}

/// Projecting the decomposition of a large-ring polynomial gives it back.
pub proof fn lemma_large_projection_decompose(p: LargePoly, d: Seq<SignedPoly>)
    requires
        p.wf(),
        d.len() == LARGE_MODULUS_BITS,
        forall|k: int, j: int| 0 <= k < LARGE_MODULUS_BITS && 0 <= j < N ==>
            (#[trigger] d[k].coeffs@[j]) as int == bit(p.vals()[j], k as nat),
    ensures
        projection_spec(d, q_large()) == p.vals(),
{
    reveal_with_fuel(pow2, 25);
    assert forall|j: int| 0 <= j < N implies #[trigger] projection_spec(d, q_large())[j] == p.vals()[j] by {
        assert(poly_column(d, j) =~= bits_of(p.vals()[j], LARGE_MODULUS_BITS as nat));
        lemma_bits_value_of(p.vals()[j], LARGE_MODULUS_BITS as nat);
    }
    assert(projection_spec(d, q_large()) =~= p.vals());
}

} // verus!
