//! Injected randomness.
//!
//! The dungeon generator and the enemy turn draw their randomness
//! through [`RandomSource`], so tests can drive them with a scripted
//! source while the game runs on real entropy.

use vstd::prelude::*;

verus! {

/// A supplier of uniform draws from `[0, n)`.
pub trait RandomSource {
    /// Draws one value below `n`.
    fn pick(&mut self, n: u32) -> (r: u32)
        requires
            n >= 1,
        ensures
            r < n,
    ;
}

/// A deterministic source that replays a fixed script: each draw takes
/// the next scripted value modulo the requested bound, and `0` once
/// the script is exhausted.
pub struct ScriptedRandom {
    values: Vec<u32>,
    ix: usize,
}

impl ScriptedRandom {
    /// The script being replayed.
    pub closed spec fn spec_values(self) -> Seq<u32> {
        self.values@
    }

    /// How many draws have been taken so far.
    pub closed spec fn spec_ix(self) -> int {
        self.ix as int
    }

    pub fn new(values: Vec<u32>) -> (r: ScriptedRandom)
        ensures
            r.spec_values() == values@,
            r.spec_ix() == 0,
    {
        ScriptedRandom { values, ix: 0 }
    }

    /// One replayed draw: the next script entry modulo the bound, and
    /// zero once the script is exhausted.
    fn replay(&mut self, n: u32) -> (r: u32)
        requires
            n >= 1,
        ensures
            r < n,
            final(self).spec_values() == old(self).spec_values(),
            old(self).spec_ix() < old(self).spec_values().len() ==> r == old(
                self).spec_values()[old(self).spec_ix()] % n && final(self).spec_ix() == old(
                self).spec_ix() + 1,
            old(self).spec_ix() >= old(self).spec_values().len() ==> r == 0 && *final(self)
                == *old(self),
    {
        if self.ix < self.values.len() {
            let v = self.values[self.ix];
            self.ix = self.ix + 1;
            v % n
        } else {
            0
        }
    }
}

impl RandomSource for ScriptedRandom {
    fn pick(&mut self, n: u32) -> (r: u32) {
        self.replay(n)
    }
}

/// The process-wide entropy source.
pub struct ThreadRandom {}

impl ThreadRandom {
    pub fn new() -> (r: ThreadRandom) {
        ThreadRandom {  }
    }
}

/// Relies on `rand::thread_rng` and `rand::Rng::gen_range`: a draw
/// from `0..n` lies below `n`, and the call panics only on an empty
/// range, which `n >= 1` rules out.
#[verifier::external_body]
fn draw_below(n: u32) -> (r: u32)
    requires
        n >= 1,
    ensures
        r < n,
{
    rand::Rng::gen_range(&mut rand::thread_rng(), 0..n)
}

impl RandomSource for ThreadRandom {
    fn pick(&mut self, n: u32) -> (r: u32) {
        draw_below(n)
    }
}

} // verus!
