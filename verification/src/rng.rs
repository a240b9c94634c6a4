use vstd::prelude::*;

verus! {

// The dungeon generator draws its randomness from oorandom's `Rand32`, a
// permuted congruential generator whose entire behaviour is a function of a
// pair of 64-bit words: the evolving `state` and the constant stream
// selector `inc`.  The library keeps that pair as plain values and crosses
// into the crate only for the draws themselves, so that every draw is a
// deterministic function of the seed and the whole generation pipeline can
// be pinned down in specifications.

/// The state/increment pair that `oorandom::Rand32::new` derives from a seed.
pub uninterp spec fn pcg_seeded(seed: u32) -> (u64, u64);

/// The 32-bit word that `oorandom::Rand32::rand_u32` produces from a given
/// state/increment pair, together with the successor state.
pub uninterp spec fn pcg_step(state: u64, inc: u64) -> (u32, u64);

/// The bounded draw that `oorandom::Rand32::rand_range` produces from a given
/// state/increment pair, together with the successor state.
pub uninterp spec fn pcg_range_step(state: u64, inc: u64, low: u32, high: u32) -> (u32, u64);

/// Relies on oorandom::Rand32::new and Rand32::state: the freshly seeded
/// generator's internal pair is derived from the seed alone, and new_inc
/// forces the increment odd (`(inc << 1) | 1`).
#[verifier::external_body]
fn rand32_seeded(seed: u32) -> (r: (u64, u64))
    ensures
        r == pcg_seeded(seed),
        r.1 % 2 == 1,
{
    let rng = oorandom::Rand32::new(seed as u64);
    rng.state()
}

/// Relies on oorandom::Rand32::rand_u32 (resumed via from_state and read back
/// via state): the word drawn and the successor state are functions of the
/// state/increment pair alone, and the increment is never changed.
#[verifier::external_body]
fn rand32_step(state: u64, inc: u64) -> (r: (u32, u64))
    ensures
        r == pcg_step(state, inc),
{
    let mut rng = oorandom::Rand32::from_state((state, inc));
    let word = rng.rand_u32();
    (word, rng.state().0)
}

/// Relies on oorandom::Rand32::rand_range (resumed via from_state and read
/// back via state): the draw lies in `[low, high)` — the documentation says
/// the range "includes the lower bound and excludes the upper one" — and draw
/// and successor state are functions of the state/increment pair and bounds
/// alone.  An empty range makes rand_range panic, and its rejection loop
/// redraws until a word lands outside the rejection zone, which is sure to
/// happen only when the underlying congruential generator has full period —
/// that is, when the increment is odd, as every pair this library hands out
/// has.  Hence the two preconditions.
#[verifier::external_body]
fn rand32_range_step(state: u64, inc: u64, low: u32, high: u32) -> (r: (u32, u64))
    requires
        low < high,
        inc % 2 == 1,
    ensures
        r == pcg_range_step(state, inc, low, high),
        low <= r.0 < high,
{
    let mut rng = oorandom::Rand32::from_state((state, inc));
    let word = rng.rand_range(low..high);
    (word, rng.state().0)
}

/// The bounded draw with its range made structural: the specification
/// clamps an out-of-range word to `low`, so that `low <= r.0 < high` holds
/// of the specification wherever it is unfolded.  The executable draw always
/// lies in the range, so it equals this function exactly.
pub open spec fn range_draw(state: u64, inc: u64, low: u32, high: u32) -> (u32, u64) {
    let r = pcg_range_step(state, inc, low, high);
    if low <= r.0 < high {
        r
    } else {
        (low, r.1)
    }
}

/// A seeded pseudo-random generator, held as the plain state pair of the
/// underlying permuted congruential generator so that contracts can speak
/// about every draw.
pub struct Rng {
    pub state: u64,
    pub inc: u64,
}

impl Rng {
    pub fn seeded(seed: u32) -> (r: Self)
        ensures
            (r.state, r.inc) == pcg_seeded(seed),
            r.inc % 2 == 1,
    {
        let (state, inc) = rand32_seeded(seed);
        Rng { state, inc }
    }

    /// Draws a uniform 32-bit word.
    pub fn next_u32(&mut self) -> (r: u32)
        ensures
            r == pcg_step(old(self).state, old(self).inc).0,
            final(self).state == pcg_step(old(self).state, old(self).inc).1,
            final(self).inc == old(self).inc,
    {
        let (word, state) = rand32_step(self.state, self.inc);
        self.state = state;
        word
    }

    /// Draws uniformly from `[low, high)`.
    pub fn next_in_range(&mut self, low: u32, high: u32) -> (r: u32)
        requires
            low < high,
            old(self).inc % 2 == 1,
        ensures
            r == range_draw(old(self).state, old(self).inc, low, high).0,
            final(self).state == range_draw(old(self).state, old(self).inc, low, high).1,
            final(self).inc == old(self).inc,
            low <= r < high,
    {
        let (word, state) = rand32_range_step(self.state, self.inc, low, high);
        self.state = state;
        word
    }

    /// A fair coin: the lower half of the 32-bit range has probability 1/2.
    pub fn coin(&mut self) -> (r: bool)
        ensures
            r == (pcg_step(old(self).state, old(self).inc).0 < 0x8000_0000u32),
            final(self).state == pcg_step(old(self).state, old(self).inc).1,
            final(self).inc == old(self).inc,
    {
        let word = self.next_u32();
        word < 0x8000_0000
    }
}

} // verus!
