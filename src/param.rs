use vstd::prelude::*;

verus! {

/// Degree of every polynomial: the ring is Z_q[X]/(X^N + 1).
pub const N: usize = 256;

/// Number of non-zero entries of a randomizer polynomial (half `+1`, half `-1`).
pub const ALPHA: usize = 22;

/// Modulus of the small ring, used by the vector commitment.
pub const SMALL_MODULUS: u16 = 12289;

/// Bit length of `SMALL_MODULUS`.
pub const SMALL_MODULUS_BITS: usize = 14;

/// The largest multiple of `SMALL_MODULUS` below 2^32.
pub const SMALL_SAMPLE_THRESHOLD: u32 = 4294956344;

/// Height of the commitment tree of a signer.
pub const HEIGHT: usize = 21;

/// Modulus of the large ring, used by the one-time signature.
pub const LARGE_MODULUS: u32 = 10571777;

/// The largest multiple of `LARGE_MODULUS` below 2^32.
pub const LARGE_SAMPLE_THRESHOLD: u32 = 4292141462;

/// Bit length of `LARGE_MODULUS`.
pub const LARGE_MODULUS_BITS: usize = 24;

/// Dimension of the one-time secret keys.
pub const GAMMA: usize = 43;

/// Norm bound of the first secret component, and weight of the second one
/// and of a message polynomial.
pub const BETA_S: usize = 59;

/// `2 * BETA_S + 1`.
pub const TWO_BETA_S_PLUS_ONE: u32 = 119;

/// The largest multiple of `TWO_BETA_S_PLUS_ONE` below 2^32.
pub const BETA_S_SAMPLE_THRESHOLD: u32 = 4294967278;

/// A primitive 2N-th root of unity modulo `SMALL_MODULUS`.
pub const SMALL_PSI: u32 = 3400;

/// `SMALL_PSI^2 mod SMALL_MODULUS`.
pub const SMALL_PSI_SQ: u32 = 8340;

/// `SMALL_PSI^-1 mod SMALL_MODULUS`.
pub const SMALL_PSI_INV: u32 = 2859;

/// `SMALL_PSI^-2 mod SMALL_MODULUS`.
pub const SMALL_PSI_INV_SQ: u32 = 1696;

/// `N^-1 mod SMALL_MODULUS`.
pub const SMALL_N_INV: u32 = 12241;

/// A primitive 2N-th root of unity modulo `LARGE_MODULUS`.
pub const LARGE_PSI: u32 = 2869739;

/// `LARGE_PSI^2 mod LARGE_MODULUS`.
pub const LARGE_PSI_SQ: u32 = 8788675;

/// `LARGE_PSI^-1 mod LARGE_MODULUS`.
pub const LARGE_PSI_INV: u32 = 6568894;

/// `LARGE_PSI^-2 mod LARGE_MODULUS`.
pub const LARGE_PSI_INV_SQ: u32 = 788747;

/// `N^-1 mod LARGE_MODULUS`.
pub const LARGE_N_INV: u32 = 10530481;

} // verus!
