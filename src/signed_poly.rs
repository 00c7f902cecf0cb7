//! Arithmetic, checks and sampling of signed polynomials, and the sparse
//! product of a ternary polynomial with a binary one.
use vstd::prelude::*;
use crate::primitives::ChaChaStream;
use crate::param::{N, ALPHA, BETA_S, BETA_S_SAMPLE_THRESHOLD, TWO_BETA_S_PLUS_ONE};
use crate::poly::{negacyclic, negacyclic_mod, ints64, SignedPoly, TerPolyCoeffEncoding, neg_shift, sum_shifts, ter_mul_spec, positions, ter_list, encoding_of, ter_product, balanced};
use crate::primitives::{sha256, draw_below};
use crate::sampling::{place_run, place_spec, fallback_run, zero_coeffs, ternary_spec, fixed_ternary_spec, beta_coeffs, msg_run, msg_coeffs};
use crate::primitives::sha256_of;
use crate::count::{count, lemma_count_update, lemma_count_ternary, lemma_count_step, lemma_count_absent, lemma_positions_len};

verus! {

impl Default for SignedPoly {
    fn default() -> (r: Self)
        ensures
            forall|j: int| 0 <= j < N ==> (#[trigger] r.coeffs@[j]) == 0,
    {
        SignedPoly { coeffs: [0i32; N] }
    }
}

impl SignedPoly {
    /// The product of `a` and `b` in `Z_q[X]/(X^N + 1)` by the definition
    /// of negacyclic convolution, with coefficients in `[0, q)`.
    pub fn schoolbook(a: &Self, b: &Self, q: i32) -> (r: Self)
        requires
            2 <= q,
            a.bounded(0x100_0000),
            b.bounded(0x100_0000),
        ensures
            forall|k: int| 0 <= k < N ==> (#[trigger] r.coeffs@[k]) as int == negacyclic(a.vals(), b.vals(), k, N as int) % (q as int),
    {
        let mut xa: [i64; N] = [0i64; N];
        let mut ya: [i64; N] = [0i64; N];
        let mut j: usize = 0;
        while j < N
            invariant
                j <= N,
                a.bounded(0x100_0000),
                b.bounded(0x100_0000),
                forall|i: int| 0 <= i < j ==> (#[trigger] xa@[i]) as int == a.coeffs@[i] as int,
                forall|i: int| 0 <= i < j ==> (#[trigger] ya@[i]) as int == b.coeffs@[i] as int,
                forall|i: int| 0 <= i < N ==> -0x100_0000 <= (#[trigger] xa@[i]) <= 0x100_0000,
                forall|i: int| 0 <= i < N ==> -0x100_0000 <= (#[trigger] ya@[i]) <= 0x100_0000,
            decreases N - j,
        {
            xa[j] = a.coeffs[j] as i64;
            ya[j] = b.coeffs[j] as i64;
            j = j + 1;
        }
        assert(ints64(xa@) =~= a.vals());
        assert(ints64(ya@) =~= b.vals());
        let c = negacyclic_mod(&xa, &ya, q as u32);
        let mut coeffs: [i32; N] = [0i32; N];
        let mut j: usize = 0;
        while j < N
            invariant
                j <= N,
                2 <= q,
                forall|i: int| 0 <= i < N ==> (#[trigger] c@[i]) < q as u32,
                forall|i: int| 0 <= i < j ==> (#[trigger] coeffs@[i]) as int == c@[i] as int,
            decreases N - j,
        {
            coeffs[j] = c[j] as i32;
            j = j + 1;
        }
        SignedPoly { coeffs }
    }

    /// The coefficients as integers.
    pub open spec fn vals(&self) -> Seq<int> {
        self.coeffs@.map_values(|c: i32| c as int)
    }

    /// Every coefficient is 0 or 1.
    pub open spec fn binary(&self) -> bool {
        forall|j: int| 0 <= j < N ==> (#[trigger] self.coeffs@[j]) == 0 || self.coeffs@[j] == 1
    }

    /// Every coefficient is -1, 0 or 1.
    pub open spec fn ternary(&self) -> bool {
        forall|j: int| 0 <= j < N ==> -1 <= (#[trigger] self.coeffs@[j]) <= 1
    }

    /// Every coefficient lies in `[-bound, bound]`.
    pub open spec fn bounded(&self, bound: int) -> bool {
        forall|j: int| 0 <= j < N ==> -bound <= (#[trigger] self.coeffs@[j]) <= bound
    }

    /// Coefficient-wise sum, without reduction; the sums must fit in `i32`.
    pub fn add(self, other: Self) -> (r: Self)
        requires
            forall|j: int| 0 <= j < N ==> i32::MIN <= #[trigger] self.coeffs@[j] + other.coeffs@[j] <= i32::MAX,
        ensures
            forall|j: int| 0 <= j < N ==> (#[trigger] r.coeffs@[j]) == self.coeffs@[j] + other.coeffs@[j],
    {
        let mut res = self;
        res.add_assign(other);
        res
    }

    /// Adds `other` coefficient-wise, without reduction; the sums must fit
    /// in `i32`.
    pub fn add_assign(&mut self, other: Self)
        requires
            forall|j: int| 0 <= j < N ==> i32::MIN <= #[trigger] old(self).coeffs@[j] + other.coeffs@[j] <= i32::MAX,
        ensures
            forall|j: int| 0 <= j < N ==> (#[trigger] final(self).coeffs@[j]) == old(self).coeffs@[j] + other.coeffs@[j],
    {
        let mut j: usize = 0;
        while j < N
            invariant
                j <= N,
                forall|i: int| 0 <= i < N ==> i32::MIN <= #[trigger] old(self).coeffs@[i] + other.coeffs@[i] <= i32::MAX,
                forall|i: int| 0 <= i < j ==> (#[trigger] self.coeffs@[i]) == old(self).coeffs@[i] + other.coeffs@[i],
                forall|i: int| j <= i < N ==> (#[trigger] self.coeffs@[i]) == old(self).coeffs@[i],
            decreases N - j,
        {
            self.coeffs[j] = self.coeffs[j] + other.coeffs[j];
            j = j + 1;
        }
    }

    /// Whether every coefficient is 0 or 1.
    pub fn is_binary(&self) -> (r: bool)
        ensures
            r == self.binary(),
    {
        let mut j: usize = 0;
        while j < N
            invariant
                j <= N,
                forall|i: int| 0 <= i < j ==> (#[trigger] self.coeffs@[i]) == 0 || self.coeffs@[i] == 1,
            decreases N - j,
        {
            let e = self.coeffs[j];
            if e != 0 && e != 1 {
                return false;
            }
            j = j + 1;
        }
        true
    }

    /// Whether every coefficient is -1, 0 or 1.
    pub fn is_ternary(&self) -> (r: bool)
        ensures
            r == self.ternary(),
    {
        let mut j: usize = 0;
        while j < N
            invariant
                j <= N,
                forall|i: int| 0 <= i < j ==> -1 <= (#[trigger] self.coeffs@[i]) <= 1,
            decreases N - j,
        {
            let e = self.coeffs[j];
            if e != 0 && e != 1 && e != -1 {
                return false;
            }
            j = j + 1;
        }
        true
    }

    /// The product of the ternary polynomial `ter` with the binary
    /// polynomial `bin` in `Z[X]/(X^N + 1)`, without reduction.
    pub fn ter_mul_bin(ter: &TerPolyCoeffEncoding, bin: &Self) -> (r: Self)
        requires
            ter.wf(),
            bin.binary(),
        ensures
            forall|k: int| 0 <= k < N ==> (#[trigger] r.coeffs@[k]) == ter_mul_spec(ter.indices@, bin.vals(), k),
            r.bounded(ALPHA as int),
    {
        let ghost l = ter.indices@.map_values(|i: usize| i as int);
        let ghost b = bin.vals();
        let ghost half = (ALPHA / 2) as int;
        let mut res: [i32; N] = [0i32; N];
        let mut t: usize = 0;
        proof {
            assert forall|k: int| 0 <= k < N implies (#[trigger] res@[k]) == sum_shifts(l.take(0), b, k) by {
                assert(l.take(0).len() == 0);
            }
        }
        while t < ALPHA
            invariant
                t <= ALPHA,
                ter.wf(),
                bin.binary(),
                l == ter.indices@.map_values(|i: usize| i as int),
                l.len() == ALPHA,
                b == bin.vals(),
                half == (ALPHA / 2) as int,
                forall|k: int| 0 <= k < N ==> -(t as int) <= (#[trigger] res@[k]) <= t,
                t <= half ==> forall|k: int| 0 <= k < N ==> (#[trigger] res@[k]) == sum_shifts(l.take(t as int), b, k),
                t > half ==> forall|k: int| 0 <= k < N ==> (#[trigger] res@[k]) == sum_shifts(l.take(half), b, k) - sum_shifts(l.subrange(half, t as int), b, k),
            decreases ALPHA - t,
        {
            let s = ter.indices[t];
            let ghost old_res = res;
            let mut k: usize = 0;
            while k < N
                invariant
                    k <= N,
                    t < ALPHA,
                    s < N,
                    l.len() == ALPHA,
                    s as int == l[t as int],
                    bin.binary(),
                    b == bin.vals(),
                    forall|i: int| 0 <= i < k ==> -(t as int) - 1 <= (#[trigger] res@[i]) <= t + 1,
                    forall|i: int| 0 <= i < N ==> -(t as int) <= (#[trigger] old_res@[i]) <= t,
                    forall|i: int| k <= i < N ==> (#[trigger] res@[i]) == old_res@[i],
                    forall|i: int| 0 <= i < k ==> (#[trigger] res@[i]) == (if t < ALPHA / 2 { old_res@[i] + neg_shift(b, s as int, i) } else { old_res@[i] - neg_shift(b, s as int, i) }),
                decreases N - k,
            {
                let v: i32 = if k >= s {
                    bin.coeffs[k - s]
                } else {
                    -bin.coeffs[k + N - s]
                };
                assert(v as int == neg_shift(b, s as int, k as int));
                assert(-1 <= v <= 1);
                if t < ALPHA / 2 {
                    res[k] = res[k] + v;
                } else {
                    res[k] = res[k] - v;
                }
                k = k + 1;
            }
            proof {
                if t < half {
                    assert(l.take(t + 1).drop_last() =~= l.take(t as int));
                } else {
                    assert(l.subrange(half, t + 1).drop_last() =~= l.subrange(half, t as int));
                    if t == half {
                        assert(l.subrange(half, t as int).len() == 0);
                    }
                    assert forall|k: int| 0 <= k < N implies (#[trigger] res@[k]) == sum_shifts(l.take(half), b, k) - sum_shifts(l.subrange(half, t + 1), b, k) by {
                        assert(sum_shifts(l.subrange(half, t + 1), b, k) == sum_shifts(l.subrange(half, t as int), b, k) + neg_shift(b, s as int, k));
                        if t == half {
                            assert(sum_shifts(l.subrange(half, t as int), b, k) == 0);
                            assert(old_res@[k] == sum_shifts(l.take(half), b, k));
                        } else {
                            assert(old_res@[k] == sum_shifts(l.take(half), b, k) - sum_shifts(l.subrange(half, t as int), b, k));
                        }
                        assert(res@[k] == old_res@[k] - neg_shift(b, s as int, k));
                    }
                }
            }
            t = t + 1;
        }
        proof {
            assert(l.subrange(half, ALPHA as int) =~= l.skip(half));
        }
        SignedPoly { coeffs: res }
    }

    /// Samples a ternary polynomial with `half_weight` coefficients `+1` and
    /// `half_weight` coefficients `-1`, at distinct positions below 256
    /// taken from 9-bit fields of the stream words.
    pub fn rand_ternary(rng: &mut ChaChaStream, half_weight: usize) -> (r: Self)
        requires
            half_weight <= 128,
        ensures
            r.ternary(),
            count(r.coeffs@, 1) == half_weight,
            count(r.coeffs@, -1i32) == half_weight,
            final(rng).seed() == old(rng).seed(),
            (r.coeffs@, final(rng).pos()) == ternary_spec(old(rng).seed(), old(rng).pos(), half_weight as nat),
    {
        let mut coeffs: [i32; N] = [0i32; N];
        assert(coeffs@ =~= zero_coeffs());
        let mut used: u32 = 0;
        let mut tmp: u32 = rng.next_u32();
        let mut signs: u64 = 0;
        proof {
            lemma_count_absent(coeffs@, 1);
            lemma_count_absent(coeffs@, -1i32);
        }
        place_entries(rng, &mut coeffs, &mut tmp, &mut used, &mut signs, half_weight, 1, false);
        place_entries(rng, &mut coeffs, &mut tmp, &mut used, &mut signs, half_weight, -1, false);
        SignedPoly { coeffs }
    }

    /// Samples a polynomial with coefficients uniform in `[-BETA_S, BETA_S]`.
    pub fn rand_mod_beta_s(rng: &mut ChaChaStream) -> (r: Self)
        ensures
            r.bounded(BETA_S as int),
            final(rng).seed() == old(rng).seed(),
            (r.coeffs@, final(rng).pos()) == beta_coeffs(old(rng).seed(), old(rng).pos(), N as nat),
    {
        let ghost seed = rng.seed();
        let ghost pos0 = rng.pos();
        let mut coeffs: [i32; N] = [0i32; N];
        let mut j: usize = 0;
        while j < N
            invariant
                j <= N,
                rng.seed() == seed,
                coeffs@.take(j as int) == beta_coeffs(seed, pos0, j as nat).0,
                rng.pos() == beta_coeffs(seed, pos0, j as nat).1,
                forall|i: int| 0 <= i < N ==> -(BETA_S as int) <= (#[trigger] coeffs@[i]) <= BETA_S,
            decreases N - j,
        {
            let tmp = draw_below(rng, BETA_S_SAMPLE_THRESHOLD);
            coeffs[j] = (tmp % TWO_BETA_S_PLUS_ONE) as i32 - BETA_S as i32;
            j = j + 1;
            assert(coeffs@.take(j as int) =~= beta_coeffs(seed, pos0, j as nat).0);
        }
        assert(coeffs@.take(N as int) =~= coeffs@);
        SignedPoly { coeffs }
    }

    /// Samples a uniformly random binary polynomial, 32 coefficients per
    /// stream word, least significant bit first.
    pub fn rand_binary(rng: &mut ChaChaStream) -> (r: Self)
        ensures
            r.binary(),
    {
        let mut coeffs: [i32; N] = [0i32; N];
        let mut i: usize = 0;
        while i < N / 32
            invariant
                i <= N / 32,
                forall|j: int| 0 <= j < N ==> (#[trigger] coeffs@[j]) == 0 || coeffs@[j] == 1,
            decreases N / 32 - i,
        {
            let mut tmp = rng.next_u32();
            let mut j: usize = 0;
            while j < 32
                invariant
                    j <= 32,
                    i < N / 32,
                    forall|k: int| 0 <= k < N ==> (#[trigger] coeffs@[k]) == 0 || coeffs@[k] == 1,
                decreases 32 - j,
            {
                assert(tmp & 1 == 0 || tmp & 1 == 1) by (bit_vector);
                coeffs[i * 32 + j] = (tmp & 1) as i32;
                tmp = tmp >> 1;
                j = j + 1;
            }
            i = i + 1;
        }
        SignedPoly { coeffs }
    }

    /// Samples a binary polynomial with `weight` coefficients 1, at distinct
    /// positions below 256.
    pub fn rand_fixed_weight_binary(rng: &mut ChaChaStream, weight: usize) -> (r: Self)
        requires
            weight <= N,
        ensures
            r.binary(),
            count(r.coeffs@, 1) == weight,
    {
        let mut coeffs: [i32; N] = [0i32; N];
        let mut used: u32 = 0;
        let mut tmp: u32 = rng.next_u32();
        let mut signs: u64 = 0;
        proof {
            lemma_count_absent(coeffs@, 1);
            lemma_count_absent(coeffs@, -1i32);
        }
        let ghost zero = coeffs@;
        place_entries(rng, &mut coeffs, &mut tmp, &mut used, &mut signs, weight, 1, false);
        let r = SignedPoly { coeffs };
        assert forall|j: int| 0 <= j < N implies (#[trigger] r.coeffs@[j]) == 0 || r.coeffs@[j] == 1 by {
            assert(zero[j] == 0);
        }
        r
    }

    /// Samples a ternary polynomial with `weight` non-zero coefficients at
    /// distinct positions below 256, each sign taken from a bit of a 64-bit
    /// word.
    pub fn rand_fixed_weight_ternary(rng: &mut ChaChaStream, weight: usize) -> (r: Self)
        requires
            weight <= 64,
        ensures
            r.ternary(),
            count(r.coeffs@, 1) + count(r.coeffs@, -1i32) == weight,
            final(rng).seed() == old(rng).seed(),
            (r.coeffs@, final(rng).pos()) == fixed_ternary_spec(old(rng).seed(), old(rng).pos(), weight as nat),
    {
        let mut coeffs: [i32; N] = [0i32; N];
        assert(coeffs@ =~= zero_coeffs());
        let mut used: u32 = 0;
        let mut tmp: u32 = rng.next_u32();
        let mut signs: u64 = rng.next_u64();
        proof {
            lemma_count_absent(coeffs@, 1);
            lemma_count_absent(coeffs@, -1i32);
        }
        place_entries(rng, &mut coeffs, &mut tmp, &mut used, &mut signs, weight, 1, true);
        SignedPoly { coeffs }
    }

    /// Hashes a message into a ternary polynomial of weight `BETA_S`: the
    /// SHA-256 digest of the message seeds ChaCha20, each word picks a
    /// position (modulo N) and its bit 9 the sign.
    pub fn from_hash_message(msg: &[u8]) -> (r: Self)
        ensures
            r.ternary(),
            count(r.coeffs@, 1) + count(r.coeffs@, -1i32) == BETA_S,
            r.coeffs@ == msg_coeffs(msg@),
    {
        let mut bytes: Vec<u8> = Vec::new();
        let mut i: usize = 0;
        while i < msg.len()
            invariant
                i <= msg@.len(),
                bytes@ == msg@.take(i as int),
            decreases msg@.len() - i,
        {
            bytes.push(msg[i]);
            i = i + 1;
            assert(bytes@ =~= msg@.take(i as int));
        }
        assert(bytes@ =~= msg@);
        let seed = sha256(&bytes);
        let mut rng = ChaChaStream::from_seed(seed);
        let mut coeffs: [i32; N] = [0i32; N];
        assert(coeffs@ =~= zero_coeffs());
        let ghost target = msg_coeffs(msg@);
        proof {
            lemma_count_absent(coeffs@, 1);
            lemma_count_absent(coeffs@, -1i32);
        }
        let mut ct: usize = 0;
        let mut budget: u64 = u64::MAX;
        while ct < BETA_S && budget > 0
            invariant
                ct <= BETA_S,
                forall|j: int| 0 <= j < N ==> -1 <= (#[trigger] coeffs@[j]) <= 1,
                count(coeffs@, 1) + count(coeffs@, -1i32) == ct,
                rng.seed() == sha256_of(msg@),
                msg_run(rng.seed(), coeffs@, rng.pos(), ct as nat, budget as nat) == target,
            decreases budget,
        {
            let tmp = rng.next_u32();
            let index = (tmp % N as u32) as usize;
            if coeffs[index] == 0 {
                let value: i32 = if (tmp >> 9) & 1 == 1 { 1 } else { -1 };
                proof {
                    lemma_count_update(coeffs@, index as int, value, 1);
                    lemma_count_update(coeffs@, index as int, value, -1i32);
                }
                coeffs[index] = value;
                ct = ct + 1;
            }
            budget = budget - 1;
        }
        // after `u64::MAX` draws, a number no run reaches, the lowest free
        // positions are taken
        proof {
            lemma_count_ternary(coeffs@);
            assert(coeffs@.subrange(0, N as int) =~= coeffs@);
        }
        assert(target == fallback_run(coeffs@, 0, ct as nat, 0, BETA_S as nat, 1, false).0);
        let mut j: usize = 0;
        while j < N && ct < BETA_S
            invariant
                fallback_run(coeffs@, 0, ct as nat, j as nat, BETA_S as nat, 1, false).0 == target,
                j <= N,
                ct <= BETA_S,
                forall|i: int| 0 <= i < N ==> -1 <= (#[trigger] coeffs@[i]) <= 1,
                count(coeffs@, 1) + count(coeffs@, -1i32) == ct,
                count(coeffs@.subrange(j as int, N as int), 0) + ct >= BETA_S,
            decreases N - j,
        {
            proof {
                lemma_count_step(coeffs@, j as int, N as int, 0);
            }
            if coeffs[j] == 0 {
                let ghost before = coeffs@;
                proof {
                    lemma_count_update(coeffs@, j as int, 1, 1);
                    lemma_count_update(coeffs@, j as int, 1, -1i32);
                }
                coeffs[j] = 1;
                ct = ct + 1;
                assert(coeffs@.subrange(j + 1, N as int) =~= before.subrange(j + 1, N as int));
            }
            j = j + 1;
        }
        if j == N {
            assert(count(coeffs@.subrange(N as int, N as int), 0) == 0);
        }
        SignedPoly { coeffs }
    }
}

/// Where the samplers below may write: a coefficient keeps its value, or a
/// free one takes a non-zero value (`v` alone unless `signed`).
pub open spec fn placed(old: Seq<i32>, new: Seq<i32>, v: i32, signed: bool) -> bool {
    forall|j: int| 0 <= j < N ==> #[trigger] new[j] == old[j]
        || (old[j] == 0 && (if signed { new[j] == 1 || new[j] == -1 } else { new[j] == v }))
}

/// Sets `weight` free coefficients to `v` (or, when `signed`, to `+1` or
/// `-1` by the next bit of `signs`), at positions read from 9-bit fields of
/// the stream words: the low 8 bits of each field, three fields per word.
/// `tmp` holds the current word and `used` the number of its fields read.
/// After `u64::MAX` draws, a number no run reaches, the lowest free
/// positions are taken.
fn place_entries(rng: &mut ChaChaStream, coeffs: &mut [i32; N], tmp: &mut u32, used: &mut u32, signs: &mut u64, weight: usize, v: i32, signed: bool)
    requires
        v == 1 || v == -1,
        *old(used) < 3,
        forall|j: int| 0 <= j < N ==> -1 <= #[trigger] old(coeffs)@[j] <= 1,
        count(old(coeffs)@, 1) + count(old(coeffs)@, -1i32) + weight <= N,
    ensures
        *final(used) < 3,
        placed(old(coeffs)@, final(coeffs)@, v, signed),
        forall|j: int| 0 <= j < N ==> -1 <= #[trigger] final(coeffs)@[j] <= 1,
        count(final(coeffs)@, 1) + count(final(coeffs)@, -1i32) == count(old(coeffs)@, 1) + count(old(coeffs)@, -1i32) + weight,
        !signed ==> count(final(coeffs)@, v) == count(old(coeffs)@, v) + weight,
        !signed ==> count(final(coeffs)@, (-v) as i32) == count(old(coeffs)@, (-v) as i32),
        final(rng).seed() == old(rng).seed(),
        (final(coeffs)@, *final(tmp), *final(used), *final(signs), final(rng).pos())
            == place_spec(old(rng).seed(), old(coeffs)@, *old(tmp), *old(used), *old(signs), old(rng).pos(), weight as nat, v, signed),
{
    let ghost start = coeffs@;
    let ghost seed = rng.seed();
    let ghost target = place_spec(seed, coeffs@, *tmp, *used, *signs, rng.pos(), weight as nat, v, signed);
    let mut ct: usize = 0;
    let mut budget: u64 = u64::MAX;
    while ct < weight && budget > 0
        invariant
            v == 1 || v == -1,
            ct <= weight,
            *used < 3,
            start == old(coeffs)@,
            placed(start, coeffs@, v, signed),
            forall|j: int| 0 <= j < N ==> -1 <= #[trigger] coeffs@[j] <= 1,
            count(start, 1) + count(start, -1i32) + weight <= N,
            count(coeffs@, 1) + count(coeffs@, -1i32) == count(start, 1) + count(start, -1i32) + ct,
            !signed ==> count(coeffs@, v) == count(start, v) + ct,
            !signed ==> count(coeffs@, (-v) as i32) == count(start, (-v) as i32),
            rng.seed() == seed,
            place_run(seed, coeffs@, *tmp, *used, *signs, rng.pos(), ct as nat, budget as nat, weight as nat, v, signed) == target,
        decreases budget,
    {
        let index = (*tmp & 0xFF) as usize;
        assert(*tmp & 0xFF < 256) by (bit_vector);
        *tmp = *tmp >> 9;
        *used = *used + 1;
        if *used == 3 {
            *tmp = rng.next_u32();
            *used = 0;
        }
        if coeffs[index] == 0 {
            let value: i32 = if signed {
                if *signs & 1 == 0 { 1 } else { -1 }
            } else {
                v
            };
            if signed {
                *signs = *signs >> 1;
            }
            proof {
                lemma_count_update(coeffs@, index as int, value, 1);
                lemma_count_update(coeffs@, index as int, value, -1i32);
                lemma_count_update(coeffs@, index as int, value, v);
                lemma_count_update(coeffs@, index as int, value, (-v) as i32);
            }
            coeffs[index] = value;
            ct = ct + 1;
        }
        budget = budget - 1;
    }
    proof {
        lemma_count_ternary(coeffs@);
        assert(coeffs@.subrange(0, N as int) =~= coeffs@);
    }
    let ghost fb_target = fallback_run(coeffs@, *signs, ct as nat, 0, weight as nat, v, signed);
    assert(target == (fb_target.0, *tmp, *used, fb_target.1, rng.pos()));
    let mut j: usize = 0;
    while j < N && ct < weight
        invariant
            v == 1 || v == -1,
            j <= N,
            ct <= weight,
            start == old(coeffs)@,
            placed(start, coeffs@, v, signed),
            forall|i: int| 0 <= i < N ==> -1 <= #[trigger] coeffs@[i] <= 1,
            count(coeffs@, 1) + count(coeffs@, -1i32) == count(start, 1) + count(start, -1i32) + ct,
            !signed ==> count(coeffs@, v) == count(start, v) + ct,
            !signed ==> count(coeffs@, (-v) as i32) == count(start, (-v) as i32),
            count(coeffs@.subrange(j as int, N as int), 0) + ct >= weight,
            fallback_run(coeffs@, *signs, ct as nat, j as nat, weight as nat, v, signed) == fb_target,
            target == (fb_target.0, *tmp, *used, fb_target.1, rng.pos()),
            rng.seed() == seed,
        decreases N - j,
    {
        proof {
            lemma_count_step(coeffs@, j as int, N as int, 0);
        }
        if coeffs[j] == 0 {
            let value: i32 = if signed {
                if *signs & 1 == 0 { 1 } else { -1 }
            } else {
                v
            };
            if signed {
                *signs = *signs >> 1;
            }
            let ghost before = coeffs@;
            proof {
                lemma_count_update(coeffs@, j as int, value, 1);
                lemma_count_update(coeffs@, j as int, value, -1i32);
                lemma_count_update(coeffs@, j as int, value, v);
                lemma_count_update(coeffs@, j as int, value, (-v) as i32);
            }
            coeffs[j] = value;
            ct = ct + 1;
            assert(coeffs@.subrange(j + 1, N as int) =~= before.subrange(j + 1, N as int));
        }
        j = j + 1;
    }
    if j == N {
        assert(coeffs@.subrange(N as int, N as int).len() == 0);
        assert(count(coeffs@.subrange(N as int, N as int), 0) == 0);
    }
}

impl TerPolyCoeffEncoding {
    /// Every position is a coefficient index.
    pub open spec fn wf(&self) -> bool {
        forall|i: int| 0 <= i < ALPHA ==> (#[trigger] self.indices@[i]) < N
    }

    /// The encoding of a ternary polynomial: the positions of its `+1`
    /// coefficients, then those of its `-1` coefficients, each in increasing
    /// order. Exact when there are `ALPHA` non-zero coefficients; otherwise
    /// the list is cut, or padded with position 0, to `ALPHA` entries.
    pub fn from_signed(poly: &SignedPoly) -> (r: Self)
        ensures
            r.wf(),
            r.indices@.map_values(|i: usize| i as int) == encoding_of(*poly),
    {
        let ghost s = poly.coeffs@;
        let mut indices: [usize; ALPHA] = [0usize; ALPHA];
        let mut ct: usize = 0;
        let mut v: i32 = 1;
        let ghost base: Seq<int> = Seq::empty();
        while v >= -1
            invariant
                v == 1 || v == -1 || v == -3,
                s == poly.coeffs@,
                v == 1 ==> base == Seq::<int>::empty(),
                v == -1 ==> base == positions(s, 1),
                v == -3 ==> base == positions(s, 1) + positions(s, -1i32),
                ct <= ALPHA,
                ct as int == (if base.len() <= ALPHA { base.len() as int } else { ALPHA as int }),
                forall|i: int| 0 <= i < ALPHA ==> (#[trigger] indices@[i]) < N,
                forall|i: int| 0 <= i < ct ==> (#[trigger] indices@[i]) as int == base[i],
                forall|i: int| ct <= i < ALPHA ==> (#[trigger] indices@[i]) == 0,
            decreases v + 3,
        {
            let mut index: usize = 0;
            let ghost start = base;
            while index < N
                invariant
                    index <= N,
                    v == 1 || v == -1,
                    s == poly.coeffs@,
                    s.len() == N,
                    base == start + positions(s.take(index as int), v),
                    ct <= ALPHA,
                    ct as int == (if base.len() <= ALPHA { base.len() as int } else { ALPHA as int }),
                    forall|i: int| 0 <= i < ALPHA ==> (#[trigger] indices@[i]) < N,
                    forall|i: int| 0 <= i < ct ==> (#[trigger] indices@[i]) as int == base[i],
                    forall|i: int| ct <= i < ALPHA ==> (#[trigger] indices@[i]) == 0,
                decreases N - index,
            {
                proof {
                    assert(s.take(index + 1).drop_last() =~= s.take(index as int));
                }
                if poly.coeffs[index] == v {
                    proof {
                        base = base.push(index as int);
                        assert(start + positions(s.take(index + 1), v) =~= base);
                    }
                    if ct < ALPHA {
                        indices[ct] = index;
                        ct = ct + 1;
                    }
                } else {
                    proof {
                        assert(start + positions(s.take(index + 1), v) =~= base);
                    }
                }
                index = index + 1;
            }
            proof {
                assert(s.take(N as int) =~= s);
                if v == 1 {
                    assert(base =~= positions(s, 1));
                }
            }
            v = if v == 1 { -1 } else { -3 };
        }
        let r = TerPolyCoeffEncoding { indices };
        proof {
            assert(base == ter_list(*poly));
            assert(r.indices@.map_values(|i: usize| i as int) =~= encoding_of(*poly));
        }
        r
    }
}

} // verus!

verus! {

/// Over a prefix of a ternary `s`: the shifts of `b` at the `+1` positions
/// minus those at the `-1` positions make the product of `s` and `b`.
proof fn lemma_positions_product(s: Seq<i32>, b: Seq<int>, k: int, m: int)
    requires
        0 <= m <= s.len(),
        forall|j: int| 0 <= j < s.len() ==> -1 <= #[trigger] s[j] <= 1,
    ensures
        sum_shifts(positions(s.take(m), 1), b, k) - sum_shifts(positions(s.take(m), -1i32), b, k)
            == negacyclic(s.map_values(|c: i32| c as int), b, k, m),
    decreases m,
{
    if m > 0 {
        lemma_positions_product(s, b, k, m - 1);
        let p = s.take(m);
        assert(p.drop_last() =~= s.take(m - 1));
        assert(p.last() == s[m - 1]);
        let plus = positions(s.take(m - 1), 1);
        let minus = positions(s.take(m - 1), -1i32);
        let a = s.map_values(|c: i32| c as int);
        let ns = neg_shift(b, m - 1, k);
        assert(a[m - 1] == s[m - 1] as int);
        assert(negacyclic(a, b, k, m) == negacyclic(a, b, k, m - 1) + a[m - 1] * ns);
        if s[m - 1] == 1 {
            assert(positions(p, 1) == plus.push(m - 1));
            assert(positions(p, -1i32) == minus);
            assert(plus.push(m - 1).drop_last() =~= plus);
            assert(sum_shifts(plus.push(m - 1), b, k) == sum_shifts(plus, b, k) + ns);
            let am = a[m - 1];
            assert(am * ns == ns) by (nonlinear_arith)
                requires
                    am == 1,
            ;
        } else if s[m - 1] == -1 {
            assert(positions(p, 1) == plus);
            assert(positions(p, -1i32) == minus.push(m - 1));
            assert(minus.push(m - 1).drop_last() =~= minus);
            assert(sum_shifts(minus.push(m - 1), b, k) == sum_shifts(minus, b, k) + ns);
            let am = a[m - 1];
            assert(am * ns == -ns) by (nonlinear_arith)
                requires
                    am == -1,
            ;
        } else {
            assert(positions(p, 1) == plus);
            assert(positions(p, -1i32) == minus);
            let am = a[m - 1];
            assert(am * ns == 0) by (nonlinear_arith)
                requires
                    am == 0,
            ;
        }
    } else {
        assert(s.take(0).len() == 0);
        assert(positions(s.take(0), 1).len() == 0);
        assert(positions(s.take(0), -1i32).len() == 0);
    }
}

/// The sparse product of a ternary polynomial with `ALPHA / 2`
/// coefficients `+1` and as many `-1`, computed from its encoding, is its
/// product with `b` in `Z[X]/(X^N + 1)`, hence in every quotient ring
/// modulo `q`.
pub proof fn lemma_ter_mul_is_product(t: SignedPoly, b: Seq<int>, k: int)
    requires
        balanced(t),
    ensures
        ter_product(t, b, k) == negacyclic(t.vals(), b, k, N as int),
{
    let s = t.coeffs@;
    lemma_positions_len(s, 1);
    lemma_positions_len(s, -1i32);
    let l = ter_list(t);
    assert(encoding_of(t) =~= l);
    assert(l.take((ALPHA / 2) as int) =~= positions(s, 1));
    assert(l.skip((ALPHA / 2) as int) =~= positions(s, -1i32));
    assert(s.take(N as int) =~= s);
    lemma_positions_product(s, b, k, N as int);
}

} // verus!
