//! Polynomials of `Z[X]/(X^N + 1)`: signed ones, ones reduced modulo the
//! small or the large prime, and the latter two in transform form.
use vstd::prelude::*;
use crate::param::{N, ALPHA, SMALL_MODULUS, LARGE_MODULUS};

verus! {

/// A polynomial with signed integer coefficients.
#[derive(Debug, Clone, Copy, PartialEq, Eq)]
pub struct SignedPoly {
    pub coeffs: [i32; N],
}

/// A polynomial with coefficients in `[0, SMALL_MODULUS)`.
#[derive(Debug, Clone, Copy, PartialEq, Eq)]
pub struct SmallPoly {
    pub coeffs: [u16; N],
}

/// A small-ring polynomial in transform form.
#[derive(Debug, Clone, Copy, PartialEq, Eq)]
pub struct SmallNTTPoly {
    pub coeffs: [u16; N],
}

/// A polynomial with coefficients in `[0, LARGE_MODULUS)`.
#[derive(Debug, Clone, Copy, PartialEq, Eq)]
pub struct LargePoly {
    pub coeffs: [u32; N],
}

/// A large-ring polynomial in transform form.
#[derive(Debug, Clone, Copy, PartialEq, Eq)]
pub struct LargeNTTPoly {
    pub coeffs: [u32; N],
}

/// A ternary polynomial of weight `ALPHA` given by the positions of its
/// non-zero coefficients: the first `ALPHA / 2` hold `+1`, the others `-1`.
#[derive(Debug, Clone, Copy, PartialEq, Eq)]
pub struct TerPolyCoeffEncoding {
    pub indices: [usize; ALPHA],
}

pub open spec fn q_small() -> int {
    SMALL_MODULUS as int
}

pub open spec fn q_large() -> int {
    LARGE_MODULUS as int
}

/// The coefficient `k` of `X^s * b` in `Z[X]/(X^N + 1)`.
pub open spec fn neg_shift(b: Seq<int>, s: int, k: int) -> int {
    if k >= s {
        b[k - s]
    } else {
        -b[k - s + N]
    }
}

/// Coefficient `k` of `sum_{s in l} X^s * b`.
pub open spec fn sum_shifts(l: Seq<int>, b: Seq<int>, k: int) -> int
    decreases l.len(),
{
    if l.len() == 0 {
        0
    } else {
        sum_shifts(l.drop_last(), b, k) + neg_shift(b, l.last(), k)
    }
}

/// Coefficient `k` of the product with `b` of the ternary polynomial whose
/// `+1` positions are the first `ALPHA / 2` of `l` and `-1` positions the
/// rest.
pub open spec fn ter_mul_list(l: Seq<int>, b: Seq<int>, k: int) -> int {
    sum_shifts(l.take((ALPHA / 2) as int), b, k) - sum_shifts(l.skip((ALPHA / 2) as int), b, k)
}

/// Coefficient `k` of the product of the ternary polynomial encoded by `idx`
/// with `b`.
pub open spec fn ter_mul_spec(idx: Seq<usize>, b: Seq<int>, k: int) -> int {
    ter_mul_list(idx.map_values(|i: usize| i as int), b, k)
}

/// The positions of the `+1` coefficients of `t`, then of its `-1` ones.
pub open spec fn ter_list(t: SignedPoly) -> Seq<int> {
    positions(t.coeffs@, 1) + positions(t.coeffs@, -1i32)
}

/// The encoding of `t`: `ter_list(t)` cut or padded with 0 to `ALPHA`
/// entries.
pub open spec fn encoding_of(t: SignedPoly) -> Seq<int> {
    Seq::new(ALPHA as nat, |i: int| if i < ter_list(t).len() { ter_list(t)[i] } else { 0 })
}

/// Coefficient `k` of the product of `b` with the ternary polynomial `t`, as
/// the sparse multiplication computes it from the encoding of `t`.
pub open spec fn ter_product(t: SignedPoly, b: Seq<int>, k: int) -> int {
    ter_mul_list(encoding_of(t), b, k)
}

/// Coefficient `k` of the product of `a` (its first `m` coefficients) and `b`
/// in `Z[X]/(X^N + 1)`.
pub open spec fn negacyclic(a: Seq<int>, b: Seq<int>, k: int, m: int) -> int
    decreases m,
{
    if m <= 0 {
        0
    } else {
        negacyclic(a, b, k, m - 1) + a[m - 1] * neg_shift(b, m - 1, k)
    }
}

/// A ternary polynomial with `ALPHA / 2` coefficients `+1` and as many
/// `-1`: the shape of a randomizer.
pub open spec fn balanced(t: SignedPoly) -> bool {
    &&& t.ternary()
    &&& crate::count::count(t.coeffs@, 1) == ALPHA / 2
    &&& crate::count::count(t.coeffs@, -1i32) == ALPHA / 2
}

/// Every polynomial of `rs` is balanced.
pub open spec fn all_balanced(rs: Seq<SignedPoly>) -> bool {
    forall|i: int| 0 <= i < rs.len() ==> balanced(#[trigger] rs[i])
}

/// The positions, in increasing order, where `s` holds `v`.
pub open spec fn positions(s: Seq<i32>, v: i32) -> Seq<int>
    decreases s.len(),
{
    if s.len() == 0 {
        Seq::empty()
    } else if s.last() == v {
        positions(s.drop_last(), v).push(s.len() - 1)
    } else {
        positions(s.drop_last(), v)
    }
}

} // verus!

verus! {

/// The integers held by an array of `i64`.
pub open spec fn ints64(s: Seq<i64>) -> Seq<int> {
    s.map_values(|c: i64| c as int)
}

/// The product of `a` and `b` in `Z_q[X]/(X^N + 1)`, coefficient by
/// coefficient from the definition: entry `k` is
/// `sum_m a[m] * (X^m b)[k] mod q`.
pub fn negacyclic_mod(a: &[i64; N], b: &[i64; N], q: u32) -> (r: [u32; N])
    requires
        2 <= q,
        forall|j: int| 0 <= j < N ==> -0x100_0000 <= #[trigger] a@[j] <= 0x100_0000,
        forall|j: int| 0 <= j < N ==> -0x100_0000 <= #[trigger] b@[j] <= 0x100_0000,
    ensures
        forall|k: int| 0 <= k < N ==> (#[trigger] r@[k]) as int == negacyclic(ints64(a@), ints64(b@), k, N as int) % (q as int),
        forall|k: int| 0 <= k < N ==> (#[trigger] r@[k]) < q,
{
    let ghost ai = ints64(a@);
    let ghost bi = ints64(b@);
    let mut r: [u32; N] = [0u32; N];
    let mut k: usize = 0;
    while k < N
        invariant
            k <= N,
            2 <= q,
            ai == ints64(a@),
            bi == ints64(b@),
            forall|j: int| 0 <= j < N ==> -0x100_0000 <= #[trigger] a@[j] <= 0x100_0000,
            forall|j: int| 0 <= j < N ==> -0x100_0000 <= #[trigger] b@[j] <= 0x100_0000,
            forall|i: int| 0 <= i < k ==> (#[trigger] r@[i]) as int == negacyclic(ai, bi, i, N as int) % (q as int) && r@[i] < q,
        decreases N - k,
    {
        let mut acc: i64 = 0;
        let mut m: usize = 0;
        while m < N
            invariant
                m <= N,
                k < N,
                ai == ints64(a@),
                bi == ints64(b@),
                forall|j: int| 0 <= j < N ==> -0x100_0000 <= #[trigger] a@[j] <= 0x100_0000,
                forall|j: int| 0 <= j < N ==> -0x100_0000 <= #[trigger] b@[j] <= 0x100_0000,
                acc as int == negacyclic(ai, bi, k as int, m as int),
                -0x1_0000_0000_0000 * m <= acc <= 0x1_0000_0000_0000 * m,
            decreases N - m,
        {
            let s: i64 = if k >= m {
                b[k - m]
            } else {
                -b[k + N - m]
            };
            let x = a[m];
            assert(-0x1_0000_0000_0000 <= x * s <= 0x1_0000_0000_0000) by (nonlinear_arith)
                requires
                    -0x100_0000 <= x <= 0x100_0000,
                    -0x100_0000 <= s <= 0x100_0000,
            ;
            assert(s as int == neg_shift(bi, m as int, k as int));
            acc = acc + x * s;
            m = m + 1;
        }
        r[k] = crate::arith::reduce_i64(acc, q);
        k = k + 1;
    }
    r
}

} // verus!
