//! A synchronized lattice-based multi-signature: one-time signatures over a
//! large polynomial ring, committed to by a homomorphic vector commitment
//! over a small ring, with signatures of many signers compressed into one.
use vstd::prelude::*;

pub mod param;
pub mod arith;
pub mod count;
pub mod poly;
pub mod primitives;
pub mod sampling;
pub mod signed_poly;
pub mod small_poly;
pub mod large_poly;
pub mod randomizer;
pub mod hvc_hash;
pub mod path;
pub mod tree;
pub mod randomized_path;
pub mod hots_hash;
pub mod hots;
pub mod smsig;
pub mod hvc;

pub use param::{N, ALPHA, SMALL_MODULUS, SMALL_MODULUS_BITS, SMALL_SAMPLE_THRESHOLD, HEIGHT, LARGE_MODULUS, LARGE_SAMPLE_THRESHOLD, LARGE_MODULUS_BITS, GAMMA, BETA_S};
pub use poly::{SignedPoly, SmallPoly, SmallNTTPoly, LargePoly, LargeNTTPoly, TerPolyCoeffEncoding};
pub use randomizer::Randomizers;
pub use hvc_hash::HVCHash;
pub use path::Path;
pub use tree::Tree;
pub use hvc::HVC;
pub use randomized_path::RandomizedPath;
pub use hots_hash::HOTSHash;
pub use hots::{HOTS, HotsParam, HotsSK, HotsPK, HotsSig, RandomizedHOTSPK};
pub use smsig::{SMSigScheme, SMSigParam, SMSigSK, SMSigPK, SMSignature};

verus! {

} // verus!
