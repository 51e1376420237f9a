//! Seeded pseudo-random draws.
//!
//! `SeededRng` wraps `rand`'s `StdRng`. Each draw is modelled by the
//! uninterpreted function `rng_draw`: for a fixed seed the value of a draw
//! depends only on the seed and on the ranges requested before it. That is
//! what makes seeded level generation deterministic, and it is the only
//! thing this crate relies on beyond each draw landing in its range.

use vstd::prelude::*;

verus! {

/// The abstract state of a seeded generator: its seed, and the ranges of
/// the draws made on it so far.
pub struct RngState {
    pub seed: Seq<u8>,
    pub history: Seq<(int, int)>,
}

/// The value a seeded generator returns for a draw in `[lo, hi)`, as a
/// function of the seed and of the draws made before.
pub uninterp spec fn rng_draw(seed: Seq<u8>, history: Seq<(int, int)>, lo: int, hi: int) -> int;

/// The draw value as the generation model uses it: `rng_draw` clipped into
/// its range, so the model is total. The clip never fires on a real draw,
/// whose value is in range.
pub open spec fn draw_value(st: RngState, lo: int, hi: int) -> int {
    let v = rng_draw(st.seed, st.history, lo, hi);
    if lo <= v < hi {
        v
    } else {
        lo
    }
}

/// The generator state after a draw in `[lo, hi)`.
pub open spec fn draw_state(st: RngState, lo: int, hi: int) -> RngState {
    RngState { seed: st.seed, history: st.history.push((lo, hi)) }
}

#[verifier::external_type_specification]
#[verifier::external_body]
pub struct ExStdRng(rand::rngs::StdRng);

/// Relies on rand's `StdRng::from_seed`: seeding is deterministic, so the
/// draws of the returned generator depend on the seed alone, which is what
/// `rng_draw` names.
#[verifier::external_body]
fn stdrng_from_seed(seed: [u8; 32]) -> rand::rngs::StdRng {
    <rand::rngs::StdRng as rand::SeedableRng>::from_seed(seed)
}

/// A pseudo-random generator seeded from 32 bytes.
pub struct SeededRng {
    inner: rand::rngs::StdRng,
    state: Ghost<RngState>,
}

impl View for SeededRng {
    type V = RngState;

    closed spec fn view(&self) -> RngState {
        self.state@
    }
}

impl SeededRng {
    /// A fresh generator, with no draws made yet.
    pub fn from_seed(seed: [u8; 32]) -> (r: SeededRng)
        ensures
            r@.seed == seed@,
            r@.history == Seq::<(int, int)>::empty(),
    {
        SeededRng {
            inner: stdrng_from_seed(seed),
            state: Ghost(RngState { seed: seed@, history: Seq::<(int, int)>::empty() }),
        }
    }

    /// Relies on rand's `Rng::gen_range`: returns a value drawn uniformly
    /// from `[lo, hi)` (it panics on an empty range, which the precondition
    /// rules out), and the value is determined by the generator's state.
    #[verifier::external_body]
    pub(crate) fn range(&mut self, lo: u32, hi: u32) -> (r: u32)
        requires
            lo < hi,
        ensures
            lo <= r < hi,
            r as int == rng_draw(old(self)@.seed, old(self)@.history, lo as int, hi as int),
            final(self)@ == draw_state(old(self)@, lo as int, hi as int),
    {
        let r = rand::Rng::gen_range(&mut self.inner, lo..hi);
        r
    }
}

/// The 32 seed bytes that a seed string yields: the first 32 characters of
/// the lowercase hexadecimal form of the string's SHA-256 digest, as bytes.
pub uninterp spec fn seed_bytes_of(text: Seq<char>) -> Seq<u8>;

/// Relies on sha2's `Sha256`: the digest, and hence its hexadecimal form,
/// is a function of the input bytes alone.
#[verifier::external_body]
pub(crate) fn seed_from_text(text: &str) -> (r: [u8; 32])
    ensures
        r@ == seed_bytes_of(text@),
{
    let digest = <sha2::Sha256 as sha2::Digest>::digest(text.as_bytes());
    let hex = format!("{:x}", digest);
    hex.bytes().take(32).collect::<Vec<u8>>().try_into().unwrap()
}

/// Relies on rand's `random`: fills 32 bytes from the thread-local entropy
/// source. Nothing is promised of the bytes beyond their count.
#[verifier::external_body]
pub(crate) fn entropy_seed() -> (r: [u8; 32])
    ensures
        r@.len() == 32,
{
    rand::random()
}

} // verus!
