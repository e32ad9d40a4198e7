//! A small seedable generator.  Its whole state is one 64-bit word, and every
//! draw is a function of that word, so a run can be replayed from its seed.

use vstd::prelude::*;

verus! {

/// State used in place of a zero seed, which the scrambling step would never
/// leave.
pub const FALLBACK_SEED: u64 = 0x2545_F491_4F6C_DD1D;

/// One xorshift round: the state that follows `s`.
pub open spec fn next_state(s: u64) -> u64 {
    let a = s ^ (s << 13);
    let b = a ^ (a >> 7);
    b ^ (b << 17)
}

/// The state that a generator seeded with `seed` starts in.
pub open spec fn seed_state(seed: u64) -> u64 {
    if seed == 0 {
        FALLBACK_SEED
    } else {
        seed
    }
}

/// The state after `n` draws from state `s`.
pub open spec fn state_after(s: u64, n: nat) -> u64
    decreases n,
{
    if n == 0 {
        s
    } else {
        next_state(state_after(s, (n - 1) as nat))
    }
}

/// The raw word drawn in state `s`.
pub open spec fn word_at(s: u64) -> u64 {
    next_state(s)
}

/// The byte drawn in state `s`: the low eight bits of the raw word.
pub open spec fn byte_at(s: u64) -> u8 {
    (word_at(s) % 256) as u8
}

/// The number in `lo..=hi` drawn in state `s`; `lo` when the range is empty
/// or holds one number.
pub open spec fn range_at(s: u64, lo: int, hi: int) -> int {
    if hi <= lo {
        lo
    } else {
        lo + (word_at(s) as int) % (hi - lo + 1)
    }
}

/// The bytes drawn one after another from state `s` on, `n` of them.
pub open spec fn random_run(s: u64, n: nat) -> Seq<u8> {
    Seq::new(n, |i: int| byte_at(state_after(s, i as nat)))
}

/// Drawing `a` times and then `b` times is drawing `a + b` times.
pub proof fn lemma_state_after_add(s: u64, a: nat, b: nat)
    ensures
        state_after(state_after(s, a), b) == state_after(s, a + b),
    decreases b,
{
    if b > 0 {
        lemma_state_after_add(s, a, (b - 1) as nat);
    }
}

/// The states after up to three draws, written out.
pub proof fn lemma_state_after_few(s: u64)
    ensures
        state_after(s, 0) == s,
        state_after(s, 1) == next_state(s),
        state_after(s, 2) == next_state(next_state(s)),
        state_after(s, 3) == next_state(next_state(next_state(s))),
{
    reveal_with_fuel(state_after, 4);
}

/// The generator.
#[derive(Clone, Copy, Debug)]
pub struct Rng {
    state: u64,
}

impl View for Rng {
    type V = u64;

    closed spec fn view(&self) -> u64 {
        self.state
    }
}

impl Rng {
    /// A generator whose draws are fixed by `seed`.
    pub fn seeded(seed: u64) -> (out: Rng)
        ensures
            out@ == seed_state(seed),
    {
        if seed == 0 {
            Rng { state: FALLBACK_SEED }
        } else {
            Rng { state: seed }
        }
    }

    /// Draws one raw 64-bit word.
    pub fn rand_u64(&mut self) -> (out: u64)
        ensures
            out == word_at(old(self)@),
            final(self)@ == next_state(old(self)@),
        no_unwind
    {
        let s: u64 = self.state;
        let a: u64 = s ^ (s << 13);
        let b: u64 = a ^ (a >> 7);
        let c: u64 = b ^ (b << 17);
        self.state = c;
        c
    }

    /// Draws one byte.
    pub fn rand_byte(&mut self) -> (out: u8)
        ensures
            out == byte_at(old(self)@),
            final(self)@ == next_state(old(self)@),
        no_unwind
    {
        let w: u64 = self.rand_u64();
        (w % 256) as u8
    }

    /// Draws a number in `lo..=hi`.  One word is used whatever the range.
    pub fn gen_range(&mut self, lo: usize, hi: usize) -> (out: usize)
        ensures
            out == range_at(old(self)@, lo as int, hi as int),
            lo <= hi ==> lo <= out <= hi,
            final(self)@ == next_state(old(self)@),
        no_unwind
    {
        let w: u64 = self.rand_u64();
        if hi <= lo {
            return lo;
        }
        let span: u64 = (hi - lo) as u64;
        if span == u64::MAX {
            let off: usize = w as usize;
            off
        } else {
            let off: u64 = w % (span + 1);
            lo + off as usize
        }
    }
}

} // verus!
