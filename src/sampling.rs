//! What the samplers return, as functions of the ChaCha20 keystream they
//! read: each is written as the run of its loop over the stream's words.
use vstd::prelude::*;
use crate::param::{N, BETA_S, BETA_S_SAMPLE_THRESHOLD, TWO_BETA_S_PLUS_ONE};
use crate::primitives::{chacha_word, draw_below_spec, sha256_of};

verus! {

/// The zero coefficient sequence.
pub open spec fn zero_coeffs() -> Seq<i32> {
    Seq::new(N as nat, |j: int| 0i32)
}

/// The value a placement writes: `v`, or the sign read from the low bit of
/// `signs`.
pub open spec fn signed_value(signs: u64, v: i32, signed: bool) -> i32 {
    if signed {
        if signs & 1 == 0 { 1i32 } else { -1i32 }
    } else {
        v
    }
}

/// `signs` after a placement.
pub open spec fn next_signs(signs: u64, signed: bool) -> u64 {
    if signed { signs >> 1 } else { signs }
}

/// The fallback of a placement: the free positions from `j` on are taken
/// in order until `weight` entries are placed. Returns the coefficients and
/// the remaining sign bits.
pub open spec fn fallback_run(c: Seq<i32>, signs: u64, ct: nat, j: nat, weight: nat, v: i32, signed: bool) -> (Seq<i32>, u64)
    decreases N - j,
{
    if j < N && ct < weight {
        if c[j as int] == 0 {
            fallback_run(c.update(j as int, signed_value(signs, v, signed)), next_signs(signs, signed), ct + 1, j + 1, weight, v, signed)
        } else {
            fallback_run(c, signs, ct, j + 1, weight, v, signed)
        }
    } else {
        (c, signs)
    }
}

/// The run of a placement from the state `(c, tmp, used, signs, pos)`
/// with `ct` entries placed and `budget` draws left; it returns the final
/// state.
pub open spec fn place_run(
    seed: Seq<u8>, c: Seq<i32>, tmp: u32, used: u32, signs: u64, pos: nat,
    ct: nat, budget: nat, weight: nat, v: i32, signed: bool,
) -> (Seq<i32>, u32, u32, u64, nat)
    decreases budget,
{
    if ct < weight && budget > 0 {
        let index = (tmp & 0xFF) as int;
        let refill = used + 1 == 3;
        let tmp2 = if refill { chacha_word(seed, pos) } else { tmp >> 9 };
        let used2 = if refill { 0u32 } else { (used + 1) as u32 };
        let pos2 = if refill { pos + 1 } else { pos };
        if c[index] == 0 {
            place_run(seed, c.update(index, signed_value(signs, v, signed)), tmp2, used2, next_signs(signs, signed), pos2,
                ct + 1, (budget - 1) as nat, weight, v, signed)
        } else {
            place_run(seed, c, tmp2, used2, signs, pos2, ct, (budget - 1) as nat, weight, v, signed)
        }
    } else {
        let f = fallback_run(c, signs, ct, 0, weight, v, signed);
        (f.0, tmp, used, f.1, pos)
    }
}

/// A placement of `weight` entries from a fresh budget.
pub open spec fn place_spec(
    seed: Seq<u8>, c: Seq<i32>, tmp: u32, used: u32, signs: u64, pos: nat, weight: nat, v: i32, signed: bool,
) -> (Seq<i32>, u32, u32, u64, nat) {
    place_run(seed, c, tmp, used, signs, pos, 0, u64::MAX as nat, weight, v, signed)
}

/// `rand_ternary` from position `pos`: its coefficients and the position
/// after it.
pub open spec fn ternary_spec(seed: Seq<u8>, pos: nat, half_weight: nat) -> (Seq<i32>, nat) {
    let a = place_spec(seed, zero_coeffs(), chacha_word(seed, pos), 0, 0, pos + 1, half_weight, 1, false);
    let b = place_spec(seed, a.0, a.1, a.2, a.3, a.4, half_weight, -1i32, false);
    (b.0, b.4)
}

/// `rand_fixed_weight_ternary` from position `pos`.
pub open spec fn fixed_ternary_spec(seed: Seq<u8>, pos: nat, weight: nat) -> (Seq<i32>, nat) {
    let signs = (chacha_word(seed, pos + 1) as int + chacha_word(seed, pos + 2) as int * 0x1_0000_0000) as u64;
    let a = place_spec(seed, zero_coeffs(), chacha_word(seed, pos), 0, signs, pos + 3, weight, 1, true);
    (a.0, a.4)
}

/// The first `j` coefficients of `rand_mod_beta_s` from position `pos`,
/// and the position after them.
pub open spec fn beta_coeffs(seed: Seq<u8>, pos: nat, j: nat) -> (Seq<i32>, nat)
    decreases j,
{
    if j == 0 {
        (Seq::empty(), pos)
    } else {
        let prev = beta_coeffs(seed, pos, (j - 1) as nat);
        let d = draw_below_spec(seed, prev.1, BETA_S_SAMPLE_THRESHOLD);
        (prev.0.push(((d.0 % TWO_BETA_S_PLUS_ONE) as int - BETA_S as int) as i32), d.1)
    }
}

/// The run of the message sampler from coefficients `c` at position `pos`.
pub open spec fn msg_run(seed: Seq<u8>, c: Seq<i32>, pos: nat, ct: nat, budget: nat) -> Seq<i32>
    decreases budget,
{
    if ct < BETA_S && budget > 0 {
        let w = chacha_word(seed, pos);
        let index = (w % N as u32) as int;
        if c[index] == 0 {
            msg_run(seed, c.update(index, if (w >> 9) & 1 == 1 { 1i32 } else { -1i32 }), pos + 1, ct + 1, (budget - 1) as nat)
        } else {
            msg_run(seed, c, pos + 1, ct, (budget - 1) as nat)
        }
    } else {
        fallback_run(c, 0, ct, 0, BETA_S as nat, 1, false).0
    }
}

/// The coefficients of the message polynomial of `m`.
pub open spec fn msg_coeffs(m: Seq<u8>) -> Seq<i32> {
    msg_run(sha256_of(m), zero_coeffs(), 0, 0, u64::MAX as nat)
}

/// The first `k` outputs of `rand_ternary(_, half_weight)` drawn in turn
/// from position `pos`, and the position after them.
pub open spec fn ternaries_spec(seed: Seq<u8>, pos: nat, k: nat, half_weight: nat) -> (Seq<Seq<i32>>, nat)
    decreases k,
{
    if k == 0 {
        (Seq::empty(), pos)
    } else {
        let prev = ternaries_spec(seed, pos, (k - 1) as nat, half_weight);
        let t = ternary_spec(seed, prev.1, half_weight);
        (prev.0.push(t.0), t.1)
    }
}

/// The first `k` outputs of `rand_mod_beta_s` drawn in turn from `pos`.
pub open spec fn beta_polys_spec(seed: Seq<u8>, pos: nat, k: nat) -> (Seq<Seq<i32>>, nat)
    decreases k,
{
    if k == 0 {
        (Seq::empty(), pos)
    } else {
        let prev = beta_polys_spec(seed, pos, (k - 1) as nat);
        let t = beta_coeffs(seed, prev.1, N as nat);
        (prev.0.push(t.0), t.1)
    }
}

/// The first `k` outputs of `rand_fixed_weight_ternary(_, weight)` drawn
/// in turn from `pos`.
pub open spec fn sparse_polys_spec(seed: Seq<u8>, pos: nat, k: nat, weight: nat) -> (Seq<Seq<i32>>, nat)
    decreases k,
{
    if k == 0 {
        (Seq::empty(), pos)
    } else {
        let prev = sparse_polys_spec(seed, pos, (k - 1) as nat, weight);
        let t = fixed_ternary_spec(seed, prev.1, weight);
        (prev.0.push(t.0), t.1)
    }
}

} // verus!

verus! {

/// The first `j` coefficients of a uniform polynomial modulo `q` drawn
/// from position `pos` (each a word below `threshold`, reduced), and the
/// position after them.
pub open spec fn uniform_coeffs(seed: Seq<u8>, pos: nat, j: nat, threshold: u32, q: u32) -> (Seq<int>, nat)
    decreases j,
{
    if j == 0 {
        (Seq::empty(), pos)
    } else {
        let prev = uniform_coeffs(seed, pos, (j - 1) as nat, threshold, q);
        let d = draw_below_spec(seed, prev.1, threshold);
        (prev.0.push((d.0 % q) as int), d.1)
    }
}

/// The first `k` uniform polynomials modulo `q` drawn in turn from `pos`.
pub open spec fn uniform_polys(seed: Seq<u8>, pos: nat, k: nat, threshold: u32, q: u32) -> (Seq<Seq<int>>, nat)
    decreases k,
{
    if k == 0 {
        (Seq::empty(), pos)
    } else {
        let prev = uniform_polys(seed, pos, (k - 1) as nat, threshold, q);
        let t = uniform_coeffs(seed, prev.1, N as nat, threshold, q);
        (prev.0.push(t.0), t.1)
    }
}

} // verus!
