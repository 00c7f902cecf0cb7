//! The small ring `Z_q[X]/(X^N + 1)` with `q = SMALL_MODULUS`.
use vstd::prelude::*;
use crate::primitives::ChaChaStream;
use crate::sampling::uniform_coeffs;
use crate::param::{N, SMALL_MODULUS, SMALL_MODULUS_BITS, SMALL_SAMPLE_THRESHOLD, SMALL_PSI, SMALL_PSI_SQ, SMALL_PSI_INV, SMALL_PSI_INV_SQ, SMALL_N_INV};
use crate::arith::{bit, shr, bits_value, column, ints32, all_below, ntt_spec, inv_ntt_spec, add_spec, pointwise_spec, reduce, add_mod_arr, mul_mod_arr, lift_arr, transform_exec, take_low_bits, lemma_next_bit, lemma_bit_binary, lemma_bits_value_of, bits_of, pow2, bits_value_columns, reduce_i64};
use crate::poly::{negacyclic, negacyclic_mod, ints64, SignedPoly, SmallPoly, SmallNTTPoly, q_small};
use crate::primitives::{sha256, sha256_of, draw_below};

verus! {

/// The little-endian serialization of coefficients: two bytes each.
pub open spec fn small_bytes(s: Seq<int>) -> Seq<u8> {
    Seq::new(2 * s.len(), |i: int| if i % 2 == 0 { (s[i / 2] % 256) as u8 } else { (s[i / 2] / 256) as u8 })
}

/// The forward transform in the small ring.
pub open spec fn small_ntt(s: Seq<int>) -> Seq<int> {
    ntt_spec(s, q_small(), SMALL_PSI as int, SMALL_PSI_SQ as int)
}

/// The inverse transform in the small ring.
pub open spec fn small_inv_ntt(s: Seq<int>) -> Seq<int> {
    inv_ntt_spec(s, q_small(), SMALL_PSI_INV as int, SMALL_PSI_INV_SQ as int, SMALL_N_INV as int)
}

/// The column of bits that a projection reads for coefficient `j`.
pub open spec fn poly_column(polys: Seq<SignedPoly>, j: int) -> Seq<int> {
    Seq::new(polys.len(), |k: int| polys[k].coeffs@[j] as int)
}

/// The polynomial whose base-2 digits are `polys`, reduced modulo `q`.
pub open spec fn projection_spec(polys: Seq<SignedPoly>, q: int) -> Seq<int> {
    Seq::new(N as nat, |j: int| bits_value(poly_column(polys, j)) % q)
}

/// Copies the rows of `polys` into plain arrays.
pub fn rows_of(polys: &[SignedPoly]) -> (r: Vec<[i32; N]>)
    ensures
        r@.len() == polys@.len(),
        forall|j: int| 0 <= j < N ==> column(r@, j) == poly_column(polys@, j),
{
    let mut r: Vec<[i32; N]> = Vec::new();
    let mut k: usize = 0;
    while k < polys.len()
        invariant
            k <= polys@.len(),
            r@.len() == k,
            forall|i: int| 0 <= i < k ==> (#[trigger] r@[i]) == polys@[i].coeffs,
        decreases polys@.len() - k,
    {
        r.push(polys[k].coeffs);
        k = k + 1;
    }
    proof {
        assert forall|j: int| 0 <= j < N implies column(r@, j) == poly_column(polys@, j) by {
            assert(column(r@, j) =~= poly_column(polys@, j));
        }
    }
    r
}

impl Default for SmallPoly {
    fn default() -> (r: Self)
        ensures
            r.wf(),
            forall|j: int| 0 <= j < N ==> (#[trigger] r.coeffs@[j]) == 0,
    {
        SmallPoly { coeffs: [0u16; N] }
    }
}

impl SmallPoly {
    /// The coefficients as integers.
    pub open spec fn vals(&self) -> Seq<int> {
        self.coeffs@.map_values(|c: u16| c as int)
    }

    /// Every coefficient is below the modulus.
    pub open spec fn wf(&self) -> bool {
        forall|j: int| 0 <= j < N ==> (#[trigger] self.coeffs@[j]) < SMALL_MODULUS
    }

    fn widen(&self) -> (r: [u32; N])
        ensures
            ints32(r@) == self.vals(),
            self.wf() ==> all_below(r@, q_small()),
    {
        let mut r: [u32; N] = [0u32; N];
        let mut j: usize = 0;
        while j < N
            invariant
                j <= N,
                forall|i: int| 0 <= i < j ==> (#[trigger] r@[i]) == self.coeffs@[i] as u32,
            decreases N - j,
        {
            r[j] = self.coeffs[j] as u32;
            j = j + 1;
        }
        assert(ints32(r@) =~= self.vals());
        r
    }

    fn from_words(a: &[u32; N]) -> (r: Self)
        requires
            all_below(a@, q_small()),
        ensures
            r.wf(),
            r.vals() == ints32(a@),
    {
        let mut coeffs: [u16; N] = [0u16; N];
        let mut j: usize = 0;
        while j < N
            invariant
                j <= N,
                all_below(a@, q_small()),
                forall|i: int| 0 <= i < j ==> (#[trigger] coeffs@[i]) as int == a@[i] as int,
                forall|i: int| 0 <= i < N ==> (#[trigger] coeffs@[i]) < SMALL_MODULUS,
            decreases N - j,
        {
            coeffs[j] = a[j] as u16;
            j = j + 1;
        }
        let r = SmallPoly { coeffs };
        assert(r.vals() =~= ints32(a@));
        r
    }

    /// Coefficient-wise sum modulo the modulus.
    pub fn add(self, other: Self) -> (r: Self)
        requires
            self.wf(),
            other.wf(),
        ensures
            r.wf(),
            r.vals() == add_spec(self.vals(), other.vals(), q_small()),
    {
        let a = self.widen();
        let b = other.widen();
        let c = add_mod_arr(&a, &b, SMALL_MODULUS as u32);
        let r = Self::from_words(&c);
        assert(r.vals() =~= add_spec(self.vals(), other.vals(), q_small()));
        r
    }

    /// Adds `other` coefficient-wise modulo the modulus.
    pub fn add_assign(&mut self, other: Self)
        requires
            old(self).wf(),
            other.wf(),
        ensures
            final(self).wf(),
            final(self).vals() == add_spec(old(self).vals(), other.vals(), q_small()),
    {
        *self = self.add(other);
    }

    /// Product in the ring, through the transform: the inverse transform of
    /// the coefficient-wise product of the two transforms.
    pub fn mul(self, other: Self) -> (r: Self)
        requires
            self.wf(),
            other.wf(),
        ensures
            r.wf(),
            r.vals() == small_inv_ntt(pointwise_spec(small_ntt(self.vals()), small_ntt(other.vals()), q_small())),
    {
        let a = SmallNTTPoly::from_small(&self);
        let b = SmallNTTPoly::from_small(&other);
        a.mul(b).to_small()
    }

    /// The base-2 decomposition: row `k` holds bit `k` of every coefficient.
    pub fn decompose(&self) -> (r: [SignedPoly; SMALL_MODULUS_BITS])
        ensures
            forall|k: int, j: int| 0 <= k < SMALL_MODULUS_BITS && 0 <= j < N ==>
                (#[trigger] r@[k].coeffs@[j]) as int == bit(self.vals()[j], k as nat),
            forall|k: int| 0 <= k < SMALL_MODULUS_BITS ==> (#[trigger] r@[k]).binary(),
    {
        let mut res: [SignedPoly; SMALL_MODULUS_BITS] = [SignedPoly { coeffs: [0i32; N] }; SMALL_MODULUS_BITS];
        let mut cur = self.widen();
        let ghost v = self.vals();
        let mut k: usize = 0;
        while k < SMALL_MODULUS_BITS
            invariant
                k <= SMALL_MODULUS_BITS,
                v == self.vals(),
                v.len() == N,
                forall|j: int| 0 <= j < N ==> v[j] >= 0,
                forall|j: int| 0 <= j < N ==> (#[trigger] cur@[j]) as int == shr(v[j], k as nat),
                forall|i: int, j: int| 0 <= i < k && 0 <= j < N ==> (#[trigger] res@[i].coeffs@[j]) as int == bit(v[j], i as nat),
            decreases SMALL_MODULUS_BITS - k,
        {
            let ghost old_cur = cur;
            let low = take_low_bits(&mut cur);
            proof {
                assert forall|j: int| 0 <= j < N implies (#[trigger] low@[j]) as int == bit(v[j], k as nat) by {
                    lemma_next_bit(v[j], k as nat, old_cur@[j] as int);
                }
                assert forall|j: int| 0 <= j < N implies (#[trigger] cur@[j]) as int == shr(v[j], (k + 1) as nat) by {
                    lemma_next_bit(v[j], k as nat, old_cur@[j] as int);
                }
            }
            let ghost prev = res;
            res[k] = SignedPoly { coeffs: low };
            proof {
                assert forall|i: int, j: int| 0 <= i < k + 1 && 0 <= j < N implies (#[trigger] res@[i].coeffs@[j]) as int == bit(v[j], i as nat) by {
                    if i < k {
                        assert(res@[i] == prev@[i]);
                        assert(prev@[i].coeffs@[j] as int == bit(v[j], i as nat));
                    } else {
                        assert(res@[i].coeffs == low);
                        assert(low@[j] as int == bit(v[j], k as nat));
                    }
                }
            }
            k = k + 1;
        }
        proof {
            assert forall|i: int| 0 <= i < SMALL_MODULUS_BITS implies (#[trigger] res@[i]).binary() by {
                assert forall|j: int| 0 <= j < N implies (#[trigger] res@[i].coeffs@[j]) == 0 || res@[i].coeffs@[j] == 1 by {
                    lemma_bit_binary(v[j], i as nat);
                }
            }
        }
        res
    }

    /// The inverse of `decompose`: reads `binary_polys` as base-2 digits
    /// (row `k` weighs `2^k`, any integer values) and reduces modulo the
    /// modulus.
    pub fn projection(binary_polys: &[SignedPoly]) -> (r: Self)
        requires
            binary_polys@.len() == SMALL_MODULUS_BITS,
        ensures
            r.wf(),
            r.vals() == projection_spec(binary_polys@, q_small()),
    {
        let rows = rows_of(binary_polys);
        let acc = bits_value_columns(&rows);
        let mut out: [u32; N] = [0u32; N];
        let mut j: usize = 0;
        while j < N
            invariant
                j <= N,
                forall|i: int| 0 <= i < N ==> (#[trigger] acc@[i]) as int == bits_value(column(rows@, i)),
                forall|i: int| 0 <= i < N ==> (#[trigger] acc@[i]) > i64::MIN,
                forall|i: int| 0 <= i < N ==> column(rows@, i) == poly_column(binary_polys@, i),
                forall|i: int| 0 <= i < j ==> (#[trigger] out@[i]) as int == bits_value(poly_column(binary_polys@, i)) % q_small(),
                forall|i: int| 0 <= i < N ==> (#[trigger] out@[i]) < SMALL_MODULUS,
            decreases N - j,
        {
            out[j] = reduce_i64(acc[j], SMALL_MODULUS as u32);
            j = j + 1;
        }
        let r = Self::from_words(&out);
        assert(r.vals() =~= projection_spec(binary_polys@, q_small()));
        r
    }
}

impl SmallPoly {
    /// The product in the ring by the definition of negacyclic
    /// convolution: the reference for the transform-based product.
    pub fn schoolbook(a: &Self, b: &Self) -> (r: Self)
        requires
            a.wf(),
            b.wf(),
        ensures
            r.wf(),
            r.vals() == Seq::new(N as nat, |k: int| negacyclic(a.vals(), b.vals(), k, N as int) % q_small()),
    {
        let x = a.widen();
        let y = b.widen();
        let mut xa: [i64; N] = [0i64; N];
        let mut ya: [i64; N] = [0i64; N];
        let mut j: usize = 0;
        while j < N
            invariant
                j <= N,
                ints32(x@) == a.vals(),
                ints32(y@) == b.vals(),
                all_below(x@, q_small()),
                all_below(y@, q_small()),
                forall|i: int| 0 <= i < j ==> (#[trigger] xa@[i]) as int == x@[i] as int,
                forall|i: int| 0 <= i < j ==> (#[trigger] ya@[i]) as int == y@[i] as int,
                forall|i: int| 0 <= i < N ==> 0 <= (#[trigger] xa@[i]) < 0x100_0000,
                forall|i: int| 0 <= i < N ==> 0 <= (#[trigger] ya@[i]) < 0x100_0000,
            decreases N - j,
        {
            xa[j] = x[j] as i64;
            ya[j] = y[j] as i64;
            j = j + 1;
        }
        assert(ints64(xa@) =~= a.vals());
        assert(ints64(ya@) =~= b.vals());
        let c = negacyclic_mod(&xa, &ya, SMALL_MODULUS as u32);
        let r = Self::from_words(&c);
        assert(r.vals() =~= Seq::new(N as nat, |k: int| negacyclic(a.vals(), b.vals(), k, N as int) % q_small()));
        r
    }

    /// Whether every coefficient is below the modulus.
    pub fn is_reduced(&self) -> (r: bool)
        ensures
            r == self.wf(),
    {
        let mut j: usize = 0;
        while j < N
            invariant
                j <= N,
                forall|i: int| 0 <= i < j ==> (#[trigger] self.coeffs@[i]) < SMALL_MODULUS,
            decreases N - j,
        {
            if self.coeffs[j] >= SMALL_MODULUS {
                return false;
            }
            j = j + 1;
        }
        true
    }

    /// Whether the two polynomials are equal.
    pub fn equals(&self, other: &Self) -> (r: bool)
        ensures
            r == (self.vals() == other.vals()),
    {
        let mut j: usize = 0;
        while j < N
            invariant
                j <= N,
                forall|i: int| 0 <= i < j ==> (#[trigger] self.coeffs@[i]) == other.coeffs@[i],
            decreases N - j,
        {
            if self.coeffs[j] != other.coeffs[j] {
                assert(self.vals()[j as int] != other.vals()[j as int]);
                return false;
            }
            j = j + 1;
        }
        assert(self.vals() =~= other.vals());
        true
    }

    /// SHA-256 of the coefficients, two little-endian bytes each.
    pub fn digest(&self) -> (r: [u8; 32])
        ensures
            r@ == sha256_of(small_bytes(self.vals())),
    {
        let mut inputs: Vec<u8> = Vec::new();
        let mut j: usize = 0;
        while j < N
            invariant
                j <= N,
                inputs@ == small_bytes(self.vals().take(j as int)),
            decreases N - j,
        {
            let e = self.coeffs[j];
            assert(e & 0xFF == e % 256 && (e >> 8) & 0xFF == e / 256) by (bit_vector);
            inputs.push((e & 0xFF) as u8);
            inputs.push(((e >> 8) & 0xFF) as u8);
            j = j + 1;
            assert(inputs@ =~= small_bytes(self.vals().take(j as int)));
        }
        assert(self.vals().take(N as int) =~= self.vals());
        sha256(&inputs)
    }

    /// Samples a uniformly random polynomial: each coefficient from a
    /// stream word below `SMALL_SAMPLE_THRESHOLD`, reduced.
    pub fn rand_poly(rng: &mut ChaChaStream) -> (r: Self)
        ensures
            r.wf(),
            final(rng).seed() == old(rng).seed(),
            (r.vals(), final(rng).pos()) == uniform_coeffs(old(rng).seed(), old(rng).pos(), N as nat, SMALL_SAMPLE_THRESHOLD, SMALL_MODULUS as u32),
    {
        let ghost seed = rng.seed();
        let ghost pos0 = rng.pos();
        let mut coeffs: [u16; N] = [0u16; N];
        let mut j: usize = 0;
        while j < N
            invariant
                j <= N,
                rng.seed() == seed,
                rng.pos() == uniform_coeffs(seed, pos0, j as nat, SMALL_SAMPLE_THRESHOLD, SMALL_MODULUS as u32).1,
                uniform_coeffs(seed, pos0, j as nat, SMALL_SAMPLE_THRESHOLD, SMALL_MODULUS as u32).0.len() == j,
                forall|i: int| 0 <= i < j ==> (#[trigger] coeffs@[i]) as int == uniform_coeffs(seed, pos0, j as nat, SMALL_SAMPLE_THRESHOLD, SMALL_MODULUS as u32).0[i],
                forall|i: int| 0 <= i < N ==> (#[trigger] coeffs@[i]) < SMALL_MODULUS,
            decreases N - j,
        {
            let tmp = draw_below(rng, SMALL_SAMPLE_THRESHOLD);
            coeffs[j] = (tmp % SMALL_MODULUS as u32) as u16;
            j = j + 1;
        }
        let r = SmallPoly { coeffs };
        assert(r.vals() =~= uniform_coeffs(seed, pos0, N as nat, SMALL_SAMPLE_THRESHOLD, SMALL_MODULUS as u32).0);
        r
    }

    /// Samples a polynomial with each coefficient a stream word reduced
    /// modulo the modulus, without rejection (slightly biased).
    pub fn rand_non_uniform_poly(rng: &mut ChaChaStream) -> (r: Self)
        ensures
            r.wf(),
    {
        let mut res = Self::default();
        let mut j: usize = 0;
        while j < N
            invariant
                j <= N,
                res.wf(),
            decreases N - j,
        {
            res.coeffs[j] = (rng.next_u32() as u16) % SMALL_MODULUS;
            j = j + 1;
        }
        res
    }

    /// The coefficients of `poly` reduced into `[0, SMALL_MODULUS)`.
    pub fn from_signed(poly: &SignedPoly) -> (r: Self)
        ensures
            r.wf(),
            r.vals() == reduce(poly.vals(), q_small()),
    {
        let w = lift_arr(&poly.coeffs, SMALL_MODULUS as u32);
        let r = Self::from_words(&w);
        assert(r.vals() =~= reduce(poly.vals(), q_small()));
        r
    }
}

impl SignedPoly {
    /// The coefficients of `poly` as signed integers.
    pub fn from_small(poly: &SmallPoly) -> (r: Self)
        ensures
            r.vals() == poly.vals(),
    {
        let mut coeffs: [i32; N] = [0i32; N];
        let mut j: usize = 0;
        while j < N
            invariant
                j <= N,
                forall|i: int| 0 <= i < j ==> (#[trigger] coeffs@[i]) as int == poly.coeffs@[i] as int,
            decreases N - j,
        {
            coeffs[j] = poly.coeffs[j] as i32;
            j = j + 1;
        }
        let r = SignedPoly { coeffs };
        assert(r.vals() =~= poly.vals());
        r
    }

    /// The coefficients reduced into `[0, SMALL_MODULUS)`.
    pub fn lifted_small(&self) -> (r: SmallPoly)
        ensures
            r.wf(),
            r.vals() == reduce(self.vals(), q_small()),
    {
        SmallPoly::from_signed(self)
    }
}

impl Default for SmallNTTPoly {
    fn default() -> (r: Self)
        ensures
            r.wf(),
            forall|j: int| 0 <= j < N ==> (#[trigger] r.coeffs@[j]) == 0,
    {
        SmallNTTPoly { coeffs: [0u16; N] }
    }
}

impl SmallNTTPoly {
    /// Whether every entry is below the modulus.
    pub fn is_reduced(&self) -> (r: bool)
        ensures
            r == self.wf(),
    {
        self.as_poly().is_reduced()
    }

    /// The entries as integers.
    pub open spec fn vals(&self) -> Seq<int> {
        self.coeffs@.map_values(|c: u16| c as int)
    }

    /// Every entry is below the modulus.
    pub open spec fn wf(&self) -> bool {
        forall|j: int| 0 <= j < N ==> (#[trigger] self.coeffs@[j]) < SMALL_MODULUS
    }

    fn as_poly(&self) -> (r: SmallPoly)
        ensures
            r.coeffs == self.coeffs,
    {
        SmallPoly { coeffs: self.coeffs }
    }

    /// The forward transform of `poly`.
    pub fn from_small(poly: &SmallPoly) -> (r: Self)
        requires
            poly.wf(),
        ensures
            r.wf(),
            r.vals() == small_ntt(poly.vals()),
    {
        let a = poly.widen();
        let t = transform_exec(&a, SMALL_MODULUS as u32, 1, 1, SMALL_PSI, SMALL_PSI_SQ);
        let p = SmallPoly::from_words(&t);
        SmallNTTPoly { coeffs: p.coeffs }
    }

    /// The forward transform of `poly` reduced into the small ring.
    pub fn from_signed(poly: &SignedPoly) -> (r: Self)
        ensures
            r.wf(),
            r.vals() == small_ntt(reduce(poly.vals(), q_small())),
    {
        Self::from_small(&SmallPoly::from_signed(poly))
    }

    /// The inverse transform.
    pub fn to_small(&self) -> (r: SmallPoly)
        requires
            self.wf(),
        ensures
            r.wf(),
            r.vals() == small_inv_ntt(self.vals()),
    {
        let a = self.as_poly().widen();
        let t = transform_exec(&a, SMALL_MODULUS as u32, SMALL_N_INV, SMALL_PSI_INV, 1, SMALL_PSI_INV_SQ);
        SmallPoly::from_words(&t)
    }

    /// Entry-wise sum modulo the modulus.
    pub fn add(self, other: Self) -> (r: Self)
        requires
            self.wf(),
            other.wf(),
        ensures
            r.wf(),
            r.vals() == add_spec(self.vals(), other.vals(), q_small()),
    {
        let s = self.as_poly().add(other.as_poly());
        SmallNTTPoly { coeffs: s.coeffs }
    }

    /// Adds `other` entry-wise modulo the modulus.
    pub fn add_assign(&mut self, other: Self)
        requires
            old(self).wf(),
            other.wf(),
        ensures
            final(self).wf(),
            final(self).vals() == add_spec(old(self).vals(), other.vals(), q_small()),
    {
        *self = self.add(other);
    }

    /// Entry-wise product modulo the modulus: the product in the ring.
    pub fn mul(self, other: Self) -> (r: Self)
        requires
            self.wf(),
            other.wf(),
        ensures
            r.wf(),
            r.vals() == pointwise_spec(self.vals(), other.vals(), q_small()),
    {
        let a = self.as_poly().widen();
        let b = other.as_poly().widen();
        let c = mul_mod_arr(&a, &b, SMALL_MODULUS as u32);
        let p = SmallPoly::from_words(&c);
        let r = SmallNTTPoly { coeffs: p.coeffs };
        assert(r.vals() =~= pointwise_spec(self.vals(), other.vals(), q_small()));
        r
    }
}

/// Projecting the decomposition of a small-ring polynomial gives it back.
pub proof fn lemma_small_projection_decompose(p: SmallPoly, d: Seq<SignedPoly>)
    requires
        p.wf(),
        d.len() == SMALL_MODULUS_BITS,
        forall|k: int, j: int| 0 <= k < SMALL_MODULUS_BITS && 0 <= j < N ==>
            (#[trigger] d[k].coeffs@[j]) as int == bit(p.vals()[j], k as nat),
    ensures
        projection_spec(d, q_small()) == p.vals(),
{
    reveal_with_fuel(pow2, 15);
    assert forall|j: int| 0 <= j < N implies #[trigger] projection_spec(d, q_small())[j] == p.vals()[j] by {
        assert(poly_column(d, j) =~= bits_of(p.vals()[j], SMALL_MODULUS_BITS as nat));
        lemma_bits_value_of(p.vals()[j], SMALL_MODULUS_BITS as nat);
    }
    assert(projection_spec(d, q_small()) =~= p.vals());
}

} // verus!
