//! Integer models of the coefficient-level operations: base-2 expansion and
//! polynomial evaluation modulo a prime, with the executable transforms that
//! the polynomial types build on.
use vstd::prelude::*;
use crate::param::N;

verus! {

/// Bit `k` of a non-negative integer, least significant first.
pub open spec fn bit(x: int, k: nat) -> int
    decreases k,
{
    if k == 0 {
        x % 2
    } else {
        bit(x / 2, (k - 1) as nat)
    }
}

/// `2^n`.
pub open spec fn pow2(n: nat) -> int
    decreases n,
{
    if n == 0 {
        1
    } else {
        2 * pow2((n - 1) as nat)
    }
}

/// The integer whose base-2 digits (least significant first) are `s`.
/// Digits may be any integers: this is the sum of `s[k] * 2^k`.
pub open spec fn bits_value(s: Seq<int>) -> int
    decreases s.len(),
{
    if s.len() == 0 {
        0
    } else {
        s[0] + 2 * bits_value(s.drop_first())
    }
}

/// The first `n` bits of `x`, least significant first.
pub open spec fn bits_of(x: int, n: nat) -> Seq<int> {
    Seq::new(n, |k: int| bit(x, k as nat))
}

/// A value below `2^n` is recovered from its first `n` bits.
pub proof fn lemma_bits_value_of(x: int, n: nat)
    requires
        0 <= x < pow2(n),
    ensures
        bits_value(bits_of(x, n)) == x,
    decreases n,
{
    if n > 0 {
        lemma_bits_value_of(x / 2, (n - 1) as nat);
        assert(bits_of(x, n).drop_first() =~= bits_of(x / 2, (n - 1) as nat));
    }
}

/// Every bit is 0 or 1.
pub proof fn lemma_bit_binary(x: int, k: nat)
    requires
        x >= 0,
    ensures
        bit(x, k) == 0 || bit(x, k) == 1,
    decreases k,
{
    if k > 0 {
        lemma_bit_binary(x / 2, (k - 1) as nat);
    }
}

/// Evaluation of the polynomial with coefficients `s` (constant term first)
/// at the point `x`, modulo `q`, by Horner's rule.
pub open spec fn horner(s: Seq<int>, x: int, q: int) -> int
    decreases s.len(),
{
    if s.len() == 0 {
        0
    } else {
        (s[0] + x * horner(s.drop_first(), x, q)) % q
    }
}

/// `b^e mod q` (with `b^0 = 1`).
pub open spec fn power(b: int, e: nat, q: int) -> int
    decreases e,
{
    if e == 0 {
        1
    } else {
        (b * power(b, (e - 1) as nat, q)) % q
    }
}

/// The transform shared by the forward and inverse number-theoretic
/// transforms: entry `k` is `(c * cb^k) * s(p * pb^k)` modulo `q`, where
/// `s(x)` is the evaluation of `s` at `x`.
pub open spec fn transform(s: Seq<int>, q: int, c: int, cb: int, p: int, pb: int) -> Seq<int> {
    Seq::new(
        s.len(),
        |k: int| (c * power(cb, k as nat, q) % q) * horner(s, p * power(pb, k as nat, q) % q, q) % q,
    )
}

/// The forward transform: the evaluations of `s` at the odd powers
/// `psi^(2k+1)` of a primitive 2N-th root of unity `psi` (`psi_sq = psi^2`).
pub open spec fn ntt_spec(s: Seq<int>, q: int, psi: int, psi_sq: int) -> Seq<int> {
    transform(s, q, 1, 1, psi, psi_sq)
}

/// The inverse transform: entry `j` is `N^-1 * psi^-j * s(psi^-2j)`.
pub open spec fn inv_ntt_spec(s: Seq<int>, q: int, psi_inv: int, psi_inv_sq: int, n_inv: int) -> Seq<int> {
    transform(s, q, n_inv, psi_inv, 1, psi_inv_sq)
}

/// The integers held by a sequence of `u32`.
pub open spec fn ints32(s: Seq<u32>) -> Seq<int> {
    s.map_values(|c: u32| c as int)
}

/// Every entry of `s` is below `q`.
pub open spec fn all_below(s: Seq<u32>, q: int) -> bool {
    forall|i: int| 0 <= i < s.len() ==> (#[trigger] s[i]) < q
}

proof fn lemma_mul_bound(a: u64, b: u64, q: u64)
    requires
        a < q,
        b < q,
        q <= 0x100_0000,
    ensures
        a * b < 0x1_0000_0000_0000,
{
    assert(a * b < q * q) by (nonlinear_arith)
        requires
            a < q,
            b < q,
    ;
    assert(q * q <= 0x100_0000 * 0x100_0000) by (nonlinear_arith)
        requires
            q <= 0x100_0000,
    ;
}

/// `a * b mod q`.
pub fn mul_mod(a: u32, b: u32, q: u32) -> (r: u32)
    requires
        a < q,
        b < q,
        q <= 0x100_0000,
    ensures
        r == (a as int * b as int) % (q as int),
        r < q,
{
    proof {
        lemma_mul_bound(a as u64, b as u64, q as u64);
    }
    ((a as u64 * b as u64) % (q as u64)) as u32
}

/// Evaluates the polynomial `s` at `x` modulo `q`.
pub fn horner_eval(s: &[u32; N], x: u32, q: u32) -> (r: u32)
    requires
        2 <= q <= 0x100_0000,
        x < q,
        all_below(s@, q as int),
    ensures
        r == horner(ints32(s@), x as int, q as int),
        r < q,
{
    let ghost si = ints32(s@);
    let mut acc: u32 = 0;
    let mut j: usize = N;
    assert(si.subrange(N as int, N as int) =~= Seq::<int>::empty());
    while j > 0
        invariant
            j <= N,
            s@.len() == N,
            si == ints32(s@),
            all_below(s@, q as int),
            2 <= q <= 0x100_0000,
            x < q,
            acc < q,
            acc == horner(si.subrange(j as int, N as int), x as int, q as int),
        decreases j,
    {
        let t = mul_mod(acc, x, q);
        let c = s[j - 1];
        assert(si.subrange(j - 1, N as int).drop_first() =~= si.subrange(j as int, N as int));
        assert(si.subrange(j - 1, N as int)[0] == c as int);
        acc = ((t as u64 + c as u64) % (q as u64)) as u32;
        proof {
            let h = horner(si.subrange(j as int, N as int), x as int, q as int);
            assert(t as int == (h * x as int) % (q as int));
            assert((c as int + (h * x as int) % (q as int)) % (q as int) == (c as int + x as int * h) % (q as int)) by {
                vstd::arithmetic::div_mod::lemma_add_mod_noop_right(c as int, h * x as int, q as int);
                vstd::arithmetic::mul::lemma_mul_is_commutative(h, x as int);
            }
        }
        j = j - 1;
    }
    assert(si.subrange(0, N as int) =~= si);
    acc
}

/// Computes `transform(s, q, c, cb, p, pb)`.
pub fn transform_exec(s: &[u32; N], q: u32, c: u32, cb: u32, p: u32, pb: u32) -> (r: [u32; N])
    requires
        2 <= q <= 0x100_0000,
        c < q,
        cb < q,
        p < q,
        pb < q,
        all_below(s@, q as int),
    ensures
        ints32(r@) == transform(ints32(s@), q as int, c as int, cb as int, p as int, pb as int),
        all_below(r@, q as int),
{
    let ghost si = ints32(s@);
    let ghost spec_r = transform(si, q as int, c as int, cb as int, p as int, pb as int);
    let mut r: [u32; N] = [0u32; N];
    let mut cpow: u32 = 1;
    let mut ppow: u32 = 1;
    let mut k: usize = 0;
    while k < N
        invariant
            k <= N,
            s@.len() == N,
            r@.len() == N,
            si == ints32(s@),
            spec_r == transform(si, q as int, c as int, cb as int, p as int, pb as int),
            all_below(s@, q as int),
            2 <= q <= 0x100_0000,
            c < q,
            cb < q,
            p < q,
            pb < q,
            cpow < q,
            ppow < q,
            cpow == power(cb as int, k as nat, q as int),
            ppow == power(pb as int, k as nat, q as int),
            forall|i: int| 0 <= i < k ==> (#[trigger] r@[i]) as int == spec_r[i] && r@[i] < q,
        decreases N - k,
    {
        let scale = mul_mod(c, cpow, q);
        let point = mul_mod(p, ppow, q);
        let e = horner_eval(s, point, q);
        r[k] = mul_mod(scale, e, q);
        cpow = mul_mod(cb, cpow, q);
        ppow = mul_mod(pb, ppow, q);
        k = k + 1;
    }
    assert(ints32(r@) =~= spec_r);
    r
}

} // verus!

verus! {

/// `x` shifted right by `k` bits.
pub open spec fn shr(x: int, k: nat) -> int
    decreases k,
{
    if k == 0 {
        x
    } else {
        shr(x / 2, (k - 1) as nat)
    }
}

proof fn lemma_shr_step(x: int, k: nat)
    requires
        x >= 0,
    ensures
        shr(x, k + 1) == shr(x, k) / 2,
        bit(x, k) == shr(x, k) % 2,
        shr(x, k) >= 0,
    decreases k,
{
    assert(shr(x, k + 1) == shr(x / 2, k));
    if k > 0 {
        lemma_shr_step(x / 2, (k - 1) as nat);
    }
}

/// Coefficient-wise `(a + b) mod q`.
pub fn add_mod_arr(a: &[u32; N], b: &[u32; N], q: u32) -> (r: [u32; N])
    requires
        2 <= q <= 0x100_0000,
        all_below(a@, q as int),
        all_below(b@, q as int),
    ensures
        forall|j: int| 0 <= j < N ==> (#[trigger] r@[j]) as int == (a@[j] + b@[j]) % (q as int),
        all_below(r@, q as int),
{
    let mut r: [u32; N] = [0u32; N];
    let mut j: usize = 0;
    while j < N
        invariant
            j <= N,
            2 <= q <= 0x100_0000,
            all_below(a@, q as int),
            all_below(b@, q as int),
            forall|i: int| 0 <= i < j ==> (#[trigger] r@[i]) as int == (a@[i] + b@[i]) % (q as int) && r@[i] < q,
        decreases N - j,
    {
        r[j] = (a[j] + b[j]) % q;
        j = j + 1;
    }
    r
}

/// Coefficient-wise `(a * b) mod q`.
pub fn mul_mod_arr(a: &[u32; N], b: &[u32; N], q: u32) -> (r: [u32; N])
    requires
        2 <= q <= 0x100_0000,
        all_below(a@, q as int),
        all_below(b@, q as int),
    ensures
        forall|j: int| 0 <= j < N ==> (#[trigger] r@[j]) as int == (a@[j] * b@[j]) % (q as int),
        all_below(r@, q as int),
{
    let mut r: [u32; N] = [0u32; N];
    let mut j: usize = 0;
    while j < N
        invariant
            j <= N,
            2 <= q <= 0x100_0000,
            all_below(a@, q as int),
            all_below(b@, q as int),
            forall|i: int| 0 <= i < j ==> (#[trigger] r@[i]) as int == (a@[i] * b@[i]) % (q as int) && r@[i] < q,
        decreases N - j,
    {
        r[j] = mul_mod(a[j], b[j], q);
        j = j + 1;
    }
    r
}

proof fn lemma_neg_mod(u: int, q: int)
    requires
        u > 0,
        q > 0,
    ensures
        u % q == 0 ==> (-u) % q == 0,
        u % q != 0 ==> (-u) % q == q - u % q,
{
    let a = u / q;
    let t = u % q;
    vstd::arithmetic::div_mod::lemma_fundamental_div_mod(u, q);
    assert(u == a * q + t) by (nonlinear_arith)
        requires
            u == q * a + t,
    ;
    if t == 0 {
        assert(-u == (-a) * q + 0) by (nonlinear_arith)
            requires
                u == a * q,
        ;
        vstd::arithmetic::div_mod::lemma_fundamental_div_mod_converse(-u, q, -a, 0);
    } else {
        assert(-u == (-a - 1) * q + (q - t)) by (nonlinear_arith)
            requires
                u == a * q + t,
        ;
        vstd::arithmetic::div_mod::lemma_fundamental_div_mod_converse(-u, q, -a - 1, q - t);
    }
}

/// Coefficient-wise reduction of signed integers into `[0, q)`.
pub fn lift_arr(a: &[i32; N], q: u32) -> (r: [u32; N])
    requires
        2 <= q <= 0x100_0000,
    ensures
        forall|j: int| 0 <= j < N ==> (#[trigger] r@[j]) as int == (a@[j] as int) % (q as int),
        all_below(r@, q as int),
{
    let mut r: [u32; N] = [0u32; N];
    let mut j: usize = 0;
    while j < N
        invariant
            j <= N,
            2 <= q <= 0x100_0000,
            forall|i: int| 0 <= i < j ==> (#[trigger] r@[i]) as int == (a@[i] as int) % (q as int) && r@[i] < q,
        decreases N - j,
    {
        let qi = q as i64;
        let v = a[j] as i64;
        let m: i64 = if v >= 0 {
            v % qi
        } else {
            let t = (-v) % qi;
            proof {
                lemma_neg_mod(-v as int, qi as int);
            }
            if t == 0 {
                0
            } else {
                qi - t
            }
        };
        r[j] = m as u32;
        j = j + 1;
    }
    r
}

/// Splits `cur` into its lowest bits and the rest: `cur` becomes `cur / 2`.
pub fn take_low_bits(cur: &mut [u32; N]) -> (r: [i32; N])
    ensures
        forall|j: int| 0 <= j < N ==> (#[trigger] r@[j]) as int == old(cur)@[j] % 2,
        forall|j: int| 0 <= j < N ==> (#[trigger] final(cur)@[j]) as int == old(cur)@[j] / 2,
{
    let mut r: [i32; N] = [0i32; N];
    let mut j: usize = 0;
    while j < N
        invariant
            j <= N,
            forall|i: int| 0 <= i < j ==> (#[trigger] r@[i]) as int == old(cur)@[i] % 2,
            forall|i: int| 0 <= i < j ==> (#[trigger] cur@[i]) as int == old(cur)@[i] / 2,
            forall|i: int| j <= i < N ==> (#[trigger] cur@[i]) == old(cur)@[i],
        decreases N - j,
    {
        let c = cur[j];
        r[j] = (c & 1) as i32;
        cur[j] = c >> 1;
        assert(c & 1 == c % 2 && c >> 1 == c / 2) by (bit_vector);
        j = j + 1;
    }
    r
}

/// The bits of `cur` from position `k` on, as the loop of a decomposition
/// sees them.
pub proof fn lemma_next_bit(x: int, k: nat, c: int)
    requires
        x >= 0,
        c == shr(x, k),
    ensures
        c % 2 == bit(x, k),
        c / 2 == shr(x, k + 1),
{
    lemma_shr_step(x, k);
}

/// `2^n <= 2^m` when `n <= m`.
pub proof fn lemma_pow2_mono(n: nat, m: nat)
    requires
        n <= m,
    ensures
        0 < pow2(n) <= pow2(m),
    decreases m,
{
    if n < m {
        lemma_pow2_mono(n, (m - 1) as nat);
    } else if n > 0 {
        lemma_pow2_mono((n - 1) as nat, (n - 1) as nat);
    }
}

/// Evaluates the base-2 expansion of the rows `rows[k]`, column by column:
/// entry `j` of the result is `sum_k rows[k][j] * 2^k`.
pub fn bits_value_columns(rows: &[[i32; N]]) -> (r: [i64; N])
    requires
        rows@.len() <= 30,
    ensures
        forall|j: int| 0 <= j < N ==> (#[trigger] r@[j]) as int == bits_value(column(rows@, j)),
        forall|j: int| 0 <= j < N ==> (#[trigger] r@[j]) > i64::MIN,
{
    let b = rows.len();
    let mut acc: [i64; N] = [0i64; N];
    let mut k: usize = b;
    proof {
        lemma_pow2_mono(b as nat, 30);
        reveal_with_fuel(pow2, 31);
        assert forall|j: int| 0 <= j < N implies column(rows@, j).subrange(b as int, b as int) =~= Seq::<int>::empty() by {}
    }
    while k > 0
        invariant
            k <= b,
            b == rows@.len(),
            b <= 30,
            forall|j: int| 0 <= j < N ==> (#[trigger] acc@[j]) as int == bits_value(column(rows@, j).subrange(k as int, b as int)),
            forall|j: int| 0 <= j < N ==> -0x8000_0000 * (pow2((b - k) as nat) - 1) <= (#[trigger] acc@[j]) <= 0x8000_0000 * (pow2((b - k) as nat) - 1),
        decreases k,
    {
        let row = &rows[k - 1];
        let ghost old_acc = acc;
        proof {
            lemma_pow2_mono((b - k + 1) as nat, 30);
            reveal_with_fuel(pow2, 31);
        }
        let mut j: usize = 0;
        while j < N
            invariant
                1 <= k <= b,
                b == rows@.len(),
                b <= 30,
                *row == rows@[k - 1],
                pow2((b - k + 1) as nat) <= 0x4000_0000,
                pow2((b - k + 1) as nat) == 2 * pow2((b - k) as nat),
                forall|i: int| 0 <= i < N ==> (#[trigger] old_acc@[i]) as int == bits_value(column(rows@, i).subrange(k as int, b as int)),
                forall|i: int| 0 <= i < N ==> -0x8000_0000 * (pow2((b - k) as nat) - 1) <= (#[trigger] old_acc@[i]) <= 0x8000_0000 * (pow2((b - k) as nat) - 1),
                forall|i: int| j <= i < N ==> (#[trigger] acc@[i]) == old_acc@[i],
                forall|i: int| 0 <= i < j ==> (#[trigger] acc@[i]) as int == row@[i] + 2 * old_acc@[i],
                j <= N,
            decreases N - j,
        {
            acc[j] = 2 * acc[j] + row[j] as i64;
            j = j + 1;
        }
        proof {
            assert forall|i: int| 0 <= i < N implies (#[trigger] acc@[i]) as int == bits_value(column(rows@, i).subrange(k - 1, b as int)) by {
                assert(column(rows@, i).subrange(k - 1, b as int).drop_first() =~= column(rows@, i).subrange(k as int, b as int));
            }
        }
        k = k - 1;
    }
    proof {
        assert forall|j: int| 0 <= j < N implies column(rows@, j).subrange(0, b as int) =~= column(rows@, j) by {}
    }
    acc
}

/// Column `j` of a sequence of rows.
pub open spec fn column(rows: Seq<[i32; N]>, j: int) -> Seq<int> {
    Seq::new(rows.len(), |k: int| rows[k]@[j] as int)
}

} // verus!

verus! {

/// Coefficient-wise `(a + b) mod q`.
pub open spec fn add_spec(a: Seq<int>, b: Seq<int>, q: int) -> Seq<int> {
    Seq::new(a.len(), |j: int| (a[j] + b[j]) % q)
}

/// Coefficient-wise `(a * b) mod q`.
pub open spec fn pointwise_spec(a: Seq<int>, b: Seq<int>, q: int) -> Seq<int> {
    Seq::new(a.len(), |j: int| (a[j] * b[j]) % q)
}

/// Coefficient-wise reduction into `[0, q)`.
pub open spec fn reduce(a: Seq<int>, q: int) -> Seq<int> {
    Seq::new(a.len(), |j: int| a[j] % q)
}

} // verus!

verus! {

/// `x mod q`, in `[0, q)`.
pub fn reduce_i64(x: i64, q: u32) -> (r: u32)
    requires
        2 <= q,
        x > i64::MIN,
    ensures
        r as int == x as int % q as int,
        r < q,
{
    let qi = q as i64;
    if x >= 0 {
        (x % qi) as u32
    } else {
        let t = (-x) % qi;
        proof {
            lemma_neg_mod(-x as int, qi as int);
        }
        if t == 0 {
            0
        } else {
            (qi - t) as u32
        }
    }
}

} // verus!

verus! {

/// The first `n` bits of `index`, least significant first.
pub fn index_bits(index: usize, n: usize) -> (r: Vec<bool>)
    ensures
        r@.len() == n,
        forall|k: int| 0 <= k < n ==> (#[trigger] r@[k]) == (bit(index as int, k as nat) == 1),
{
    let mut r: Vec<bool> = Vec::new();
    let mut cur: u64 = index as u64;
    let mut k: usize = 0;
    while k < n
        invariant
            k <= n,
            r@.len() == k,
            cur as int == shr(index as int, k as nat),
            forall|i: int| 0 <= i < k ==> (#[trigger] r@[i]) == (bit(index as int, i as nat) == 1),
        decreases n - k,
    {
        proof {
            lemma_next_bit(index as int, k as nat, cur as int);
        }
        assert(cur & 1 == cur % 2 && cur >> 1 == cur / 2) by (bit_vector);
        r.push(cur & 1 == 1);
        cur = cur >> 1;
        k = k + 1;
    }
    r
}

/// `shr(x, t) = 2 * shr(x, t + 1) + bit(x, t)`.
pub proof fn lemma_shr_split(x: int, t: nat)
    requires
        x >= 0,
    ensures
        shr(x, t) == 2 * shr(x, t + 1) + bit(x, t),
        shr(x, t) >= 0,
        bit(x, t) == 0 || bit(x, t) == 1,
{
    lemma_shr_step(x, t);
    lemma_bit_binary(x, t);
}

/// Adding `2^m` adds `2^(m - t)` to the shift by `t <= m`.
pub proof fn lemma_shr_add_pow2(i: int, m: nat, t: nat)
    requires
        i >= 0,
        t <= m,
    ensures
        shr(i + pow2(m), t) == shr(i, t) + pow2((m - t) as nat),
    decreases t,
{
    if t > 0 {
        assert((i + pow2(m)) / 2 == i / 2 + pow2((m - 1) as nat));
        lemma_shr_add_pow2(i / 2, (m - 1) as nat, (t - 1) as nat);
    }
}

/// A value below `2^m` shifted by `t <= m` is below `2^(m - t)`.
pub proof fn lemma_shr_bound(i: int, m: nat, t: nat)
    requires
        0 <= i < pow2(m),
        t <= m,
    ensures
        0 <= shr(i, t) < pow2((m - t) as nat),
    decreases t,
{
    if t > 0 {
        lemma_shr_bound(i / 2, (m - 1) as nat, (t - 1) as nat);
    }
}

/// Adding `2^m` leaves the bits below `m` unchanged.
pub proof fn lemma_bit_add_pow2(i: int, m: nat, t: nat)
    requires
        i >= 0,
        t < m,
    ensures
        bit(i + pow2(m), t) == bit(i, t),
{
    lemma_shr_add_pow2(i, m, t);
    lemma_pow2_mono(0, m);
    lemma_shr_step(i, t);
    lemma_shr_step(i + pow2(m), t);
    lemma_pow2_mono(1, (m - t) as nat);
    assert(pow2((m - t) as nat) == 2 * pow2((m - t - 1) as nat));
}

} // verus!
