use vstd::prelude::*;

verus! {

/// A small deterministic pseudo-random source.
///
/// The simulation needs an index drawn from a finite range when it relocates
/// the food. All the game logic ever relies on is the range bound stated in
/// the contract of `random_range`; the sequence of draws is deterministic for
/// a given seed, so runs are reproducible under test.
#[derive(Debug)]
pub struct Rng {
    state: u64,
}

impl Rng {
    /// Creates a generator; any seed is acceptable.
    pub fn new(seed: u64) -> (r: Rng) {
        Rng { state: seed }
    }

    /// Returns a value in `[low, high)` and advances the generator
    /// (a Lehmer-style multiplicative step modulo a Mersenne prime).
    pub fn random_range(&mut self, low: usize, high: usize) -> (r: usize)
        requires
            low < high,
        ensures
            low <= r && r < high,
    {
        let s: u64 = self.state % 0x7fff_fffe + 1;
        let next: u64 = (s * 48271) % 0x7fff_ffff;
        self.state = next;
        let span: usize = high - low;
        let r: usize = low + ((next % (span as u64)) as usize);
        r
    }
}

} // verus!
