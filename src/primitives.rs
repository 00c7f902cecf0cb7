//! The standard primitives the scheme is built on: SHA-256 and the ChaCha20
//! stream generator.
use vstd::prelude::*;
use rand::RngCore;
use rand::SeedableRng;
use rand_chacha::ChaCha20Rng;
use sha2::Digest;

verus! {

#[verifier::external_type_specification]
#[verifier::external_body]
pub struct ExChaCha20Rng(rand_chacha::ChaCha20Rng);

/// The SHA-256 digest of a byte string.
pub uninterp spec fn sha256_of(data: Seq<u8>) -> Seq<u8>;

/// Word `pos` (counting from 0) of the ChaCha20 keystream of `seed`, as
/// `ChaCha20Rng` hands out 32-bit words.
pub uninterp spec fn chacha_word(seed: Seq<u8>, pos: nat) -> u32;

/// Relies on `sha2::Sha256` (`new`, `update`, `finalize`): the 32-byte
/// SHA-256 digest of `data`, a function of `data` alone.
#[verifier::external_body]
pub(crate) fn sha256(data: &Vec<u8>) -> (r: [u8; 32])
    ensures
        r@ == sha256_of(data@),
{
    let mut hasher = sha2::Sha256::new();
    hasher.update(data);
    hasher.finalize().into()
}

/// A ChaCha20 generator together with its seed and the number of words it
/// has handed out.
pub struct ChaChaStream {
    rng: ChaCha20Rng,
    seed: Ghost<Seq<u8>>,
    pos: Ghost<nat>,
}

impl ChaChaStream {
    /// The seed of the generator.
    pub closed spec fn seed(&self) -> Seq<u8> {
        self.seed@
    }

    /// The number of words handed out so far.
    pub closed spec fn pos(&self) -> nat {
        self.pos@
    }

    /// Relies on `rand_chacha::ChaCha20Rng::from_seed`: a generator at the
    /// start of the keystream of `seed`.
    #[verifier::external_body]
    pub fn from_seed(seed: [u8; 32]) -> (r: Self)
        ensures
            r.seed() == seed@,
            r.pos() == 0,
    {
        ChaChaStream { rng: ChaCha20Rng::from_seed(seed), seed: Ghost(seed@), pos: Ghost(0) }
    }

    /// Relies on `RngCore::next_u32` of `ChaCha20Rng` (rand_core's
    /// `BlockRng`): the next word of the keystream.
    #[verifier::external_body]
    pub(crate) fn next_u32(&mut self) -> (r: u32)
        ensures
            r == chacha_word(old(self).seed(), old(self).pos()),
            final(self).seed() == old(self).seed(),
            final(self).pos() == old(self).pos() + 1,
    {
        let r = self.rng.next_u32();
        self.pos = Ghost(self.pos@ + 1);
        r
    }

    /// Relies on `RngCore::next_u64` of `ChaCha20Rng` (rand_core's
    /// `BlockRng`): the next two words of the keystream, the first as the
    /// low half.
    #[verifier::external_body]
    pub(crate) fn next_u64(&mut self) -> (r: u64)
        ensures
            r as int == chacha_word(old(self).seed(), old(self).pos()) as int
                + chacha_word(old(self).seed(), old(self).pos() + 1) as int * 0x1_0000_0000,
            final(self).seed() == old(self).seed(),
            final(self).pos() == old(self).pos() + 2,
    {
        let r = self.rng.next_u64();
        self.pos = Ghost(self.pos@ + 2);
        r
    }
}

/// What `draw_below` returns, and the position after it, from a generator
/// at `pos` that has drawn `tmp` and may still reject `budget` times.
pub open spec fn draw_below_run(seed: Seq<u8>, pos: nat, tmp: u32, budget: nat, threshold: u32) -> (u32, nat)
    decreases budget,
{
    if tmp >= threshold && budget > 0 {
        draw_below_run(seed, pos + 1, chacha_word(seed, pos), (budget - 1) as nat, threshold)
    } else {
        (tmp, pos)
    }
}

/// The word that `draw_below` returns from position `pos`, and the
/// position after it.
pub open spec fn draw_below_spec(seed: Seq<u8>, pos: nat, threshold: u32) -> (u32, nat) {
    draw_below_run(seed, pos + 1, chacha_word(seed, pos), u64::MAX as nat, threshold)
}

/// Draws words until one is below `threshold` and returns it. Rejection
/// stops after `u64::MAX` further draws, a number no run reaches; the last
/// word is then returned as it is.
pub fn draw_below(rng: &mut ChaChaStream, threshold: u32) -> (r: u32)
    ensures
        final(rng).seed() == old(rng).seed(),
        (r, final(rng).pos()) == draw_below_spec(old(rng).seed(), old(rng).pos(), threshold),
{
    let ghost target = draw_below_spec(rng.seed(), rng.pos(), threshold);
    let ghost seed = rng.seed();
    let mut tmp = rng.next_u32();
    let mut budget: u64 = u64::MAX;
    while tmp >= threshold && budget > 0
        invariant
            rng.seed() == seed,
            draw_below_run(seed, rng.pos(), tmp, budget as nat, threshold) == target,
        decreases budget,
    {
        tmp = rng.next_u32();
        budget = budget - 1;
    }
    tmp
}

} // verus!
