//! The mutation engine: sixteen strategies over one field element, each
//! keeping the fixed 32-byte big-endian encoding.  What a strategy returns is a
//! function of the generator's state and of the element, which the spec
//! functions of this module write down.

use vstd::prelude::*;
use crate::buffer::{
    clamped_len, copied, copy_range, insert_run, inserted, inter_splice,
    lemma_clamped_len_in_bounds, make_run, overwrite_run, overwritten, repeat_over, repeated_over,
    run_at, run_of, swap_range, swapped,
};
use crate::field::{
    be_value, bit_length, clamp_to_u64, lemma_zero_has_no_bits, prime, with_bit_flipped, Felt,
};
use crate::magic::{magic_table, magic_values, table_view};
use crate::rng::{
    byte_at, lemma_state_after_add, lemma_state_after_few, next_state, random_run, range_at,
    seed_state, state_after, Rng,
};

verus! {

/// Largest input size, in bytes, that the inserting strategies plan for.
pub const MAX_INPUT_SIZE: usize = 252;

/// The sixteen strategies, in the order of their indices.  Index 5 is kept
/// free: drawing it returns the element as it came.
#[derive(Clone, Copy, Debug, PartialEq, Eq, Structural)]
pub enum Strategy {
    /// Add a drawn amount in `1..=9`.
    AddSmall,
    /// Take away a drawn amount in `1..=9`, stopping at zero.
    SubSmall,
    /// Invert one drawn bit below the bit length.
    FlipBit,
    /// Add one.
    Inc,
    /// Take one away, stopping at zero.
    Dec,
    /// The free slot: the element comes back as it is.
    Reserved,
    /// Add a drawn amount in `-100..=100`, held to the 64-bit range.
    AddSubDelta,
    /// Exchange two drawn runs of bytes.
    SwapRange,
    /// Copy one drawn run of bytes over another.
    CopyRange,
    /// Insert a copy of one drawn run of bytes at another offset.
    InterSplice,
    /// Write a drawn magic value over the start of the encoding.
    MagicOverwrite,
    /// Insert a drawn magic value at a drawn offset.
    MagicInsert,
    /// Write freshly drawn bytes over a drawn run.
    RandomOverwrite,
    /// Insert a run of one drawn byte at a drawn offset.
    RandomInsert,
    /// Repeat the byte at a drawn offset over the run behind it.
    ByteRepeatOverwrite,
    /// Insert a run of the byte at a drawn offset before that offset.
    ByteRepeatInsert,
}

impl Strategy {
    /// The strategy with index `i`; an index past 15 stands for the free slot.
    pub open spec fn at(i: int) -> Strategy {
        if i == 0 {
            Strategy::AddSmall
        } else if i == 1 {
            Strategy::SubSmall
        } else if i == 2 {
            Strategy::FlipBit
        } else if i == 3 {
            Strategy::Inc
        } else if i == 4 {
            Strategy::Dec
        } else if i == 6 {
            Strategy::AddSubDelta
        } else if i == 7 {
            Strategy::SwapRange
        } else if i == 8 {
            Strategy::CopyRange
        } else if i == 9 {
            Strategy::InterSplice
        } else if i == 10 {
            Strategy::MagicOverwrite
        } else if i == 11 {
            Strategy::MagicInsert
        } else if i == 12 {
            Strategy::RandomOverwrite
        } else if i == 13 {
            Strategy::RandomInsert
        } else if i == 14 {
            Strategy::ByteRepeatOverwrite
        } else if i == 15 {
            Strategy::ByteRepeatInsert
        } else {
            Strategy::Reserved
        }
    }

    /// The index of the strategy.
    pub open spec fn position(self) -> int {
        match self {
            Strategy::AddSmall => 0,
            Strategy::SubSmall => 1,
            Strategy::FlipBit => 2,
            Strategy::Inc => 3,
            Strategy::Dec => 4,
            Strategy::Reserved => 5,
            Strategy::AddSubDelta => 6,
            Strategy::SwapRange => 7,
            Strategy::CopyRange => 8,
            Strategy::InterSplice => 9,
            Strategy::MagicOverwrite => 10,
            Strategy::MagicInsert => 11,
            Strategy::RandomOverwrite => 12,
            Strategy::RandomInsert => 13,
            Strategy::ByteRepeatOverwrite => 14,
            Strategy::ByteRepeatInsert => 15,
        }
    }

    /// The strategy with index `i`; an index past 15 stands for the free slot.
    pub fn from_index(i: usize) -> (out: Strategy)
        ensures
            out == Strategy::at(i as int),
    {
        if i == 0 {
            Strategy::AddSmall
        } else if i == 1 {
            Strategy::SubSmall
        } else if i == 2 {
            Strategy::FlipBit
        } else if i == 3 {
            Strategy::Inc
        } else if i == 4 {
            Strategy::Dec
        } else if i == 6 {
            Strategy::AddSubDelta
        } else if i == 7 {
            Strategy::SwapRange
        } else if i == 8 {
            Strategy::CopyRange
        } else if i == 9 {
            Strategy::InterSplice
        } else if i == 10 {
            Strategy::MagicOverwrite
        } else if i == 11 {
            Strategy::MagicInsert
        } else if i == 12 {
            Strategy::RandomOverwrite
        } else if i == 13 {
            Strategy::RandomInsert
        } else if i == 14 {
            Strategy::ByteRepeatOverwrite
        } else if i == 15 {
            Strategy::ByteRepeatInsert
        } else {
            Strategy::Reserved
        }
    }

    /// The index of the strategy.
    pub fn index(self) -> (out: usize)
        ensures
            out == self.position(),
            out <= 15,
            Strategy::at(out as int) == self,
    {
        match self {
            Strategy::AddSmall => 0,
            Strategy::SubSmall => 1,
            Strategy::FlipBit => 2,
            Strategy::Inc => 3,
            Strategy::Dec => 4,
            Strategy::Reserved => 5,
            Strategy::AddSubDelta => 6,
            Strategy::SwapRange => 7,
            Strategy::CopyRange => 8,
            Strategy::InterSplice => 9,
            Strategy::MagicOverwrite => 10,
            Strategy::MagicInsert => 11,
            Strategy::RandomOverwrite => 12,
            Strategy::RandomInsert => 13,
            Strategy::ByteRepeatOverwrite => 14,
            Strategy::ByteRepeatInsert => 15,
        }
    }
}

/// Two offsets into the buffer and the length of the runs that start there.
pub struct Ranges {
    pub src: int,
    pub dst: int,
    pub len: int,
}

/// The larger of two offsets.
pub open spec fn later(src: int, dst: int) -> int {
    if src >= dst {
        src
    } else {
        dst
    }
}

/// The ranges drawn in state `s`: two offsets in `0..=31`, then a length from
/// 1 up to what is left of the buffer behind the later offset.
pub open spec fn drawn_ranges(s: u64) -> Ranges {
    let src = range_at(s, 0, 31);
    let dst = range_at(next_state(s), 0, 31);
    let len = range_at(next_state(next_state(s)), 1, 32 - later(src, dst));
    Ranges { src, dst, len }
}

/// An offset in `0..=31` and a length from 1 up to what is left of the buffer
/// behind it, as drawn in state `s`.
pub open spec fn drawn_span(s: u64) -> (int, int) {
    let offset = range_at(s, 0, 31);
    (offset, range_at(next_state(s), 1, 32 - offset))
}

/// `v` held at the largest element of the field.
pub open spec fn held_below_prime(v: int) -> nat {
    if v >= prime() {
        (prime() - 1) as nat
    } else if v < 0 {
        0
    } else {
        v as nat
    }
}

/// The number that add-small returns: a drawn amount in `1..=9` is added, and
/// the sum held at the largest element.
pub open spec fn add_small_value(s: u64, b: Seq<u8>) -> nat {
    held_below_prime(be_value(b) + range_at(s, 1, 9))
}

/// The number that sub-small returns: a drawn amount in `1..=9` is taken
/// away, stopping at zero.
pub open spec fn sub_small_value(s: u64, b: Seq<u8>) -> nat {
    let d = range_at(s, 1, 9);
    if be_value(b) < d {
        0
    } else {
        (be_value(b) - d) as nat
    }
}

/// The number that flip-bit returns: one drawn bit below the bit length is
/// inverted; zero stays zero.
pub open spec fn flip_value(s: u64, b: Seq<u8>) -> nat {
    if bit_length(b) == 0 {
        be_value(b)
    } else {
        be_value(with_bit_flipped(b, range_at(s, 0, bit_length(b) - 1))) % prime()
    }
}

/// The number that inc returns: one more, held at the largest element.
pub open spec fn inc_value(b: Seq<u8>) -> nat {
    held_below_prime((be_value(b) + 1) as int)
}

/// The number that dec returns.
pub open spec fn dec_value(b: Seq<u8>) -> nat {
    if be_value(b) == 0 {
        0
    } else {
        (be_value(b) - 1) as nat
    }
}

/// The number that add-sub-delta returns: a drawn amount in `-100..=100` is
/// added, and the sum held between zero and the largest 64-bit number.
pub open spec fn add_sub_value(s: u64, b: Seq<u8>) -> nat {
    clamp_to_u64(be_value(b) + range_at(s, 0, 200) - 100)
}

/// The bytes that swap-range hands to the field.
pub open spec fn swap_bytes(s: u64, b: Seq<u8>) -> Seq<u8> {
    let r = drawn_ranges(s);
    swapped(b, r.src, r.dst, r.len as nat)
}

/// The bytes that copy-range hands to the field.
pub open spec fn copy_bytes(s: u64, b: Seq<u8>) -> Seq<u8> {
    let r = drawn_ranges(s);
    copied(b, r.src, r.dst, r.len as nat)
}

/// The bytes that inter-splice hands to the field.
pub open spec fn splice_bytes(s: u64, b: Seq<u8>) -> Seq<u8> {
    let r = drawn_ranges(s);
    inserted(b, r.dst, run_at(b, r.src, r.len))
}

/// The bytes that magic-overwrite hands to the field.
pub open spec fn magic_overwrite_bytes(magic: Seq<Seq<u8>>, s: u64, b: Seq<u8>) -> Seq<u8> {
    overwritten(b, 0, magic[range_at(s, 0, magic.len() - 1)])
}

/// The bytes that magic-insert hands to the field.
pub open spec fn magic_insert_bytes(magic: Seq<Seq<u8>>, s: u64, b: Seq<u8>) -> Seq<u8> {
    inserted(b, range_at(next_state(s), 0, 32), magic[range_at(s, 0, magic.len() - 1)])
}

/// The bytes that random-overwrite hands to the field.
pub open spec fn random_overwrite_bytes(s: u64, b: Seq<u8>) -> Seq<u8> {
    let (offset, amount) = drawn_span(s);
    overwritten(b, offset, random_run(next_state(next_state(s)), amount as nat))
}

/// The bytes that random-insert hands to the field.
pub open spec fn random_insert_bytes(capacity: int, s: u64, b: Seq<u8>) -> Seq<u8> {
    let offset = range_at(s, 0, 32);
    let amount = range_at(next_state(s), 0, capacity - 32);
    let byte = byte_at(next_state(next_state(s)));
    inserted(b, offset, run_of(byte, amount as nat))
}

/// The bytes that byte-repeat-overwrite hands to the field.
pub open spec fn repeat_overwrite_bytes(s: u64, b: Seq<u8>) -> Seq<u8> {
    let (offset, amount) = drawn_span(s);
    repeated_over(b, offset, amount)
}

/// The bytes that byte-repeat-insert hands to the field.
pub open spec fn repeat_insert_bytes(capacity: int, s: u64, b: Seq<u8>) -> Seq<u8> {
    let offset = range_at(s, 0, 31);
    let amount = range_at(next_state(s), 0, capacity - 32);
    inserted(b, offset, run_of(b[offset], amount as nat))
}

/// The number that `strategy` returns for the element with encoding `b`, when
/// the generator is in state `s`.
pub open spec fn outcome_value(
    magic: Seq<Seq<u8>>,
    capacity: int,
    strategy: Strategy,
    s: u64,
    b: Seq<u8>,
) -> nat {
    match strategy {
        Strategy::AddSmall => add_small_value(s, b),
        Strategy::SubSmall => sub_small_value(s, b),
        Strategy::FlipBit => flip_value(s, b),
        Strategy::Inc => inc_value(b),
        Strategy::Dec => dec_value(b),
        Strategy::Reserved => be_value(b),
        Strategy::AddSubDelta => add_sub_value(s, b),
        Strategy::SwapRange => be_value(swap_bytes(s, b)) % prime(),
        Strategy::CopyRange => be_value(copy_bytes(s, b)) % prime(),
        Strategy::InterSplice => be_value(splice_bytes(s, b)) % prime(),
        Strategy::MagicOverwrite => be_value(magic_overwrite_bytes(magic, s, b)) % prime(),
        Strategy::MagicInsert => be_value(magic_insert_bytes(magic, s, b)) % prime(),
        Strategy::RandomOverwrite => be_value(random_overwrite_bytes(s, b)) % prime(),
        Strategy::RandomInsert => be_value(random_insert_bytes(capacity, s, b)) % prime(),
        Strategy::ByteRepeatOverwrite => be_value(repeat_overwrite_bytes(s, b)) % prime(),
        Strategy::ByteRepeatInsert => be_value(repeat_insert_bytes(capacity, s, b)) % prime(),
    }
}

/// How many words `strategy` draws for the element with encoding `b`, when the
/// generator is in state `s`.
pub open spec fn draws_used(strategy: Strategy, s: u64, b: Seq<u8>) -> nat {
    match strategy {
        Strategy::AddSmall => 1,
        Strategy::SubSmall => 1,
        Strategy::FlipBit => if bit_length(b) == 0 { 0 } else { 1 },
        Strategy::Inc => 0,
        Strategy::Dec => 0,
        Strategy::Reserved => 0,
        Strategy::AddSubDelta => 1,
        Strategy::SwapRange => 3,
        Strategy::CopyRange => 3,
        Strategy::InterSplice => 3,
        Strategy::MagicOverwrite => 1,
        Strategy::MagicInsert => 2,
        Strategy::RandomOverwrite => (2 + drawn_span(s).1) as nat,
        Strategy::RandomInsert => 3,
        Strategy::ByteRepeatOverwrite => 2,
        Strategy::ByteRepeatInsert => 2,
    }
}

/// The drawn ranges lie inside the buffer: both runs end at or before byte
/// 32, and the length is at least one.
pub proof fn lemma_drawn_ranges_fit(s: u64)
    ensures
        0 <= drawn_ranges(s).src <= 31,
        0 <= drawn_ranges(s).dst <= 31,
        1 <= drawn_ranges(s).len,
        drawn_ranges(s).src + drawn_ranges(s).len <= 32,
        drawn_ranges(s).dst + drawn_ranges(s).len <= 32,
        clamped_len(drawn_ranges(s).src, drawn_ranges(s).dst, drawn_ranges(s).len) == drawn_ranges(
            s,
        ).len,
{
    let r = drawn_ranges(s);
    lemma_clamped_len_in_bounds(r.src, r.dst, r.len);
}

/// The drawn span lies inside the buffer.
pub proof fn lemma_drawn_span_fits(s: u64)
    ensures
        0 <= drawn_span(s).0 <= 31,
        1 <= drawn_span(s).1,
        drawn_span(s).0 + drawn_span(s).1 <= 32,
{
}

/// A run of strategies: `steps[i]` is the engine before strategy `i` runs on
/// `felts[i]`, `steps[i + 1]` the engine after it, and `outs[i]` what it
/// returned.
pub open spec fn is_replay(
    steps: Seq<Mutator>,
    strategies: Seq<Strategy>,
    felts: Seq<Felt>,
    outs: Seq<Felt>,
) -> bool {
    &&& steps.len() == strategies.len() + 1
    &&& felts.len() == strategies.len()
    &&& outs.len() == strategies.len()
    &&& forall|i: int|
        0 <= i < strategies.len() ==> Mutator::applied(
            steps[i],
            strategies[i],
            felts[i],
            steps[i + 1],
            #[trigger] outs[i],
        )
}

/// One strategy run twice from the same generator state, table and planned
/// size, on the same element, returns the same bytes and leaves the generator
/// in the same state.
pub proof fn lemma_apply_is_deterministic(
    before1: Mutator,
    before2: Mutator,
    strategy: Strategy,
    felt: Felt,
    after1: Mutator,
    after2: Mutator,
    out1: Felt,
    out2: Felt,
)
    requires
        before1.rng_state() == before2.rng_state(),
        before1.magic() == before2.magic(),
        before1.capacity() == before2.capacity(),
        Mutator::applied(before1, strategy, felt, after1, out1),
        Mutator::applied(before2, strategy, felt, after2, out2),
    ensures
        out1.bytes() == out2.bytes(),
        out1 == out2,
        after1.rng_state() == after2.rng_state(),
        after1.magic() == after2.magic(),
        after1.capacity() == after2.capacity(),
{
    Felt::lemma_value_decides(out1, out2);
}

/// One mutation run twice from the same generator state, table and planned
/// size, on the same element, returns the same bytes and leaves the generator
/// in the same state.
pub proof fn lemma_mutate_is_deterministic(
    before1: Mutator,
    before2: Mutator,
    felt: Felt,
    after1: Mutator,
    after2: Mutator,
    out1: Felt,
    out2: Felt,
)
    requires
        before1.rng_state() == before2.rng_state(),
        before1.magic() == before2.magic(),
        before1.capacity() == before2.capacity(),
        Mutator::mutated(before1, felt, after1, out1),
        Mutator::mutated(before2, felt, after2, out2),
    ensures
        out1.bytes() == out2.bytes(),
        out1 == out2,
        after1.rng_state() == after2.rng_state(),
{
    Felt::lemma_value_decides(out1, out2);
}

/// Replaying the same strategies on the same elements, from engines that were
/// seeded alike, returns the same elements byte for byte.
pub proof fn lemma_replay_is_deterministic(
    steps1: Seq<Mutator>,
    steps2: Seq<Mutator>,
    strategies: Seq<Strategy>,
    felts: Seq<Felt>,
    outs1: Seq<Felt>,
    outs2: Seq<Felt>,
)
    requires
        is_replay(steps1, strategies, felts, outs1),
        is_replay(steps2, strategies, felts, outs2),
        steps1[0].rng_state() == steps2[0].rng_state(),
        steps1[0].magic() == steps2[0].magic(),
        steps1[0].capacity() == steps2[0].capacity(),
    ensures
        outs1 == outs2,
        forall|i: int| 0 <= i < outs1.len() ==> (#[trigger] outs1[i]).bytes() == outs2[i].bytes(),
        forall|i: int|
            0 <= i < steps1.len() ==> (#[trigger] steps1[i]).rng_state() == steps2[i].rng_state(),
{
    lemma_replay_prefix(steps1, steps2, strategies, felts, outs1, outs2, strategies.len());
    assert(outs1 =~= outs2);
}

proof fn lemma_replay_prefix(
    steps1: Seq<Mutator>,
    steps2: Seq<Mutator>,
    strategies: Seq<Strategy>,
    felts: Seq<Felt>,
    outs1: Seq<Felt>,
    outs2: Seq<Felt>,
    n: nat,
)
    requires
        is_replay(steps1, strategies, felts, outs1),
        is_replay(steps2, strategies, felts, outs2),
        steps1[0].rng_state() == steps2[0].rng_state(),
        steps1[0].magic() == steps2[0].magic(),
        steps1[0].capacity() == steps2[0].capacity(),
        n <= strategies.len(),
    ensures
        forall|i: int| 0 <= i < n ==> #[trigger] outs1[i] == outs2[i],
        forall|i: int|
            0 <= i <= n ==> (#[trigger] steps1[i]).rng_state() == steps2[i].rng_state()
                && steps1[i].magic() == steps2[i].magic() && steps1[i].capacity()
                == steps2[i].capacity(),
    decreases n,
{
    if n > 0 {
        let k = n - 1;
        lemma_replay_prefix(steps1, steps2, strategies, felts, outs1, outs2, k as nat);
        assert(Mutator::applied(steps1[k], strategies[k], felts[k], steps1[k + 1], outs1[k]));
        assert(Mutator::applied(steps2[k], strategies[k], felts[k], steps2[k + 1], outs2[k]));
        lemma_apply_is_deterministic(
            steps1[k],
            steps2[k],
            strategies[k],
            felts[k],
            steps1[k + 1],
            steps2[k + 1],
            outs1[k],
            outs2[k],
        );
    }
}

/// The engine: a generator, the table of magic values, and the input size that
/// the inserting strategies plan for.
#[derive(Debug)]
pub struct Mutator {
    rng: Rng,
    max_input_size: usize,
    magic: Vec<Vec<u8>>,
}

impl Mutator {
    /// The state of the engine's generator.
    pub closed spec fn rng_state(self) -> u64 {
        self.rng@
    }

    /// The table of magic values.
    pub closed spec fn magic(self) -> Seq<Seq<u8>> {
        table_view(self.magic@)
    }

    /// The input size that the inserting strategies plan for.
    pub closed spec fn capacity(self) -> int {
        self.max_input_size as int
    }

    /// The table holds a value, and the planned input size is no smaller than
    /// one element.
    #[verifier::type_invariant]
    pub open spec fn wf(self) -> bool {
        self.magic().len() >= 1 && self.capacity() >= 32
    }

    /// What `strategy` does to the engine `before` and the element `felt`: the
    /// table and the planned size stay, the generator has moved on by the
    /// words drawn, and `out` stands for the number that the strategy returns.
    pub open spec fn applied(
        before: Mutator,
        strategy: Strategy,
        felt: Felt,
        after: Mutator,
        out: Felt,
    ) -> bool {
        &&& after.magic() == before.magic()
        &&& after.capacity() == before.capacity()
        &&& after.rng_state() == state_after(
            before.rng_state(),
            draws_used(strategy, before.rng_state(), felt.bytes()),
        )
        &&& out.value() == outcome_value(
            before.magic(),
            before.capacity(),
            strategy,
            before.rng_state(),
            felt.bytes(),
        )
        &&& out.wf()
    }

    /// What one mutation does: a strategy index is drawn in `0..=15`, then
    /// that strategy runs from the generator's next state.
    pub open spec fn mutated(before: Mutator, felt: Felt, after: Mutator, out: Felt) -> bool {
        let strategy = Strategy::at(range_at(before.rng_state(), 0, 15));
        let s = next_state(before.rng_state());
        &&& after.magic() == before.magic()
        &&& after.capacity() == before.capacity()
        &&& after.rng_state() == state_after(s, draws_used(strategy, s, felt.bytes()))
        &&& out.value() == outcome_value(
            before.magic(),
            before.capacity(),
            strategy,
            s,
            felt.bytes(),
        )
        &&& out.wf()
    }

    /// Creates a new `Mutator` with the given seed.
    pub fn new(seed: u64) -> (out: Mutator)
        ensures
            out.rng_state() == seed_state(seed),
            out.magic() == magic_table(),
            out.capacity() == MAX_INPUT_SIZE,
            out.wf(),
    {
        Mutator { rng: Rng::seeded(seed), max_input_size: MAX_INPUT_SIZE, magic: magic_values() }
    }

    /// A copy of the engine: the same table and planned size, and a generator
    /// in the same state.
    pub fn duplicate(&self) -> (out: Mutator)
        ensures
            out.rng_state() == self.rng_state(),
            out.magic() == self.magic(),
            out.capacity() == self.capacity(),
            out.wf(),
    {
        proof {
            use_type_invariant(self);
        }
        let mut table: Vec<Vec<u8>> = Vec::new();
        let mut t: usize = 0;
        while t < self.magic.len()
            invariant
                0 <= t <= self.magic@.len(),
                table@.len() == t,
                forall|k: int| 0 <= k < t ==> (#[trigger] table@[k])@ == self.magic@[k]@,
            decreases self.magic@.len() - t,
        {
            let entry = &self.magic[t];
            let mut copy: Vec<u8> = Vec::new();
            let mut i: usize = 0;
            while i < entry.len()
                invariant
                    0 <= i <= entry@.len(),
                    copy@ == entry@.subrange(0, i as int),
                decreases entry@.len() - i,
            {
                copy.push(entry[i]);
                i += 1;
            }
            assert(copy@ =~= entry@);
            table.push(copy);
            t += 1;
        }
        assert(table_view(table@) =~= table_view(self.magic@));
        Mutator { rng: self.rng, max_input_size: self.max_input_size, magic: table }
    }

    /// Performs one mutation, by a strategy drawn uniformly from the sixteen.
    pub fn mutate(&mut self, felt: Felt) -> (out: Felt)
        ensures
            Mutator::mutated(*old(self), felt, *final(self), out),
            out.wf(),
            Strategy::at(range_at(old(self).rng_state(), 0, 15)) == Strategy::Reserved ==> out
                == felt,
    {
        let mutation_type: usize = self.draw(0, 15);
        let strategy = Strategy::from_index(mutation_type);
        self.apply(strategy, felt)
    }

    /// Runs the given strategy on the element.
    pub fn apply(&mut self, strategy: Strategy, felt: Felt) -> (out: Felt)
        ensures
            Mutator::applied(*old(self), strategy, felt, *final(self), out),
            out.wf(),
            strategy == Strategy::Reserved ==> out == felt && final(self).rng_state() == old(
                self,
            ).rng_state(),
    {
        match strategy {
            Strategy::AddSmall => self.add_small_random_value(felt),
            Strategy::SubSmall => self.subtract_small_random_value(felt),
            Strategy::FlipBit => self.flip_random_bit(felt),
            Strategy::Inc => self.inc_byte(felt),
            Strategy::Dec => self.dec_byte(felt),
            Strategy::Reserved => self.keep(felt),
            Strategy::AddSubDelta => self.add_sub(felt),
            Strategy::SwapRange => self.swap(felt),
            Strategy::CopyRange => self.copy(felt),
            Strategy::InterSplice => self.inter_splice(felt),
            Strategy::MagicOverwrite => self.magic_overwrite(felt),
            Strategy::MagicInsert => self.magic_insert(felt),
            Strategy::RandomOverwrite => self.random_overwrite(felt),
            Strategy::RandomInsert => self.random_insert(felt),
            Strategy::ByteRepeatOverwrite => self.byte_repeat_overwrite(felt),
            Strategy::ByteRepeatInsert => self.byte_repeat_insert(felt),
        }
    }

    /// The free slot: the element comes back as it is and nothing is drawn.
    pub fn keep(&mut self, felt: Felt) -> (out: Felt)
        ensures
            Mutator::applied(*old(self), Strategy::Reserved, felt, *final(self), out),
            out == felt,
            *final(self) == *old(self),
    {
        proof {
            use_type_invariant(&felt);
            lemma_state_after_few(self.rng@);
        }
        felt
    }

    /// Adds a drawn amount in `1..=9`; the result never goes past the largest
    /// element.
    pub fn add_small_random_value(&mut self, felt: Felt) -> (out: Felt)
        ensures
            Mutator::applied(*old(self), Strategy::AddSmall, felt, *final(self), out),
    {
        proof {
            use_type_invariant(&*self);
            lemma_state_after_few(self.rng@);
        }
        let small_value: usize = self.draw(1, 9);
        let amount = Felt::from_u64(small_value as u64);
        let out = felt.saturating_add(&amount);
        proof {
            use_type_invariant(&out);
        }
        out
    }

    /// Takes away a drawn amount in `1..=9`; the result never goes below
    /// zero.
    pub fn subtract_small_random_value(&mut self, felt: Felt) -> (out: Felt)
        ensures
            Mutator::applied(*old(self), Strategy::SubSmall, felt, *final(self), out),
            out.value() <= felt.value(),
    {
        proof {
            use_type_invariant(&*self);
            lemma_state_after_few(self.rng@);
        }
        let small_value: usize = self.draw(1, 9);
        let amount = Felt::from_u64(small_value as u64);
        let out = felt.saturating_sub(&amount);
        proof {
            use_type_invariant(&out);
        }
        out
    }

    /// Inverts one drawn bit below the element's bit length.  Zero has no such
    /// bit and comes back as it is, with nothing drawn.
    pub fn flip_random_bit(&mut self, felt: Felt) -> (out: Felt)
        ensures
            Mutator::applied(*old(self), Strategy::FlipBit, felt, *final(self), out),
            felt.value() == 0 ==> out == felt && *final(self) == *old(self),
    {
        proof {
            use_type_invariant(&felt);
            lemma_state_after_few(self.rng@);
            if felt.value() == 0 {
                lemma_zero_has_no_bits(felt.bytes());
            }
        }
        let bits: usize = felt.bit_length();
        if bits == 0 {
            return felt;
        }
        let bit_index: usize = self.draw(0, bits - 1);
        let out = felt.flip_bit(bit_index);
        proof {
            use_type_invariant(&out);
        }
        out
    }

    /// Adds one; the largest element stays as it is.
    pub fn inc_byte(&mut self, felt: Felt) -> (out: Felt)
        ensures
            Mutator::applied(*old(self), Strategy::Inc, felt, *final(self), out),
            *final(self) == *old(self),
    {
        proof {
            lemma_state_after_few(self.rng@);
        }
        let one = Felt::from_u64(1);
        let out = felt.saturating_add(&one);
        proof {
            use_type_invariant(&out);
        }
        out
    }

    /// Takes one away; zero stays zero.
    pub fn dec_byte(&mut self, felt: Felt) -> (out: Felt)
        ensures
            Mutator::applied(*old(self), Strategy::Dec, felt, *final(self), out),
            out.value() <= felt.value(),
            *final(self) == *old(self),
    {
        proof {
            lemma_state_after_few(self.rng@);
        }
        let one = Felt::from_u64(1);
        let out = felt.saturating_sub(&one);
        proof {
            use_type_invariant(&out);
        }
        out
    }

    /// Adds a drawn amount in `-100..=100` and holds the result between zero
    /// and the largest 64-bit number.
    pub fn add_sub(&mut self, felt: Felt) -> (out: Felt)
        ensures
            Mutator::applied(*old(self), Strategy::AddSubDelta, felt, *final(self), out),
            out.value() <= u64::MAX,
    {
        proof {
            use_type_invariant(&*self);
            lemma_state_after_few(self.rng@);
        }
        let drawn: usize = self.draw(0, 200);
        let delta: i64 = drawn as i64 - 100;
        let out = felt.add_signed_clamped(delta);
        proof {
            use_type_invariant(&out);
        }
        out
    }

    /// Draws a number in `lo..=hi` from the engine's generator.
    pub fn draw(&mut self, lo: usize, hi: usize) -> (out: usize)
        ensures
            out == range_at(old(self).rng_state(), lo as int, hi as int),
            lo <= hi ==> lo <= out <= hi,
            final(self).rng_state() == next_state(old(self).rng_state()),
            final(self).magic() == old(self).magic(),
            final(self).capacity() == old(self).capacity(),
    {
        proof {
            use_type_invariant(&*self);
        }
        self.rng.gen_range(lo, hi)
    }

    /// Draws one byte from the engine's generator.
    pub fn draw_byte(&mut self) -> (out: u8)
        ensures
            out == byte_at(old(self).rng_state()),
            final(self).rng_state() == next_state(old(self).rng_state()),
            final(self).magic() == old(self).magic(),
            final(self).capacity() == old(self).capacity(),
    {
        proof {
            use_type_invariant(&*self);
        }
        self.rng.rand_byte()
    }

    /// Draws two offsets and a length that keeps both runs inside the buffer.
    pub fn draw_ranges(&mut self) -> (out: (usize, usize, usize))
        ensures
            out.0 == drawn_ranges(old(self).rng_state()).src,
            out.1 == drawn_ranges(old(self).rng_state()).dst,
            out.2 == drawn_ranges(old(self).rng_state()).len,
            out.0 + out.2 <= 32,
            out.1 + out.2 <= 32,
            1 <= out.2,
            final(self).rng_state() == state_after(old(self).rng_state(), 3),
            final(self).magic() == old(self).magic(),
            final(self).capacity() == old(self).capacity(),
    {
        proof {
            use_type_invariant(&*self);
            lemma_state_after_few(self.rng@);
        }
        let src: usize = self.draw(0, 31);
        let dst: usize = self.draw(0, 31);
        let start: usize = if src >= dst { src } else { dst };
        let len: usize = self.draw(1, 32 - start);
        (src, dst, len)
    }

    /// Draws an offset and a length that stays inside the buffer behind it.
    pub fn draw_span(&mut self) -> (out: (usize, usize))
        ensures
            out.0 == drawn_span(old(self).rng_state()).0,
            out.1 == drawn_span(old(self).rng_state()).1,
            out.0 + out.1 <= 32,
            1 <= out.1,
            final(self).rng_state() == state_after(old(self).rng_state(), 2),
            final(self).magic() == old(self).magic(),
            final(self).capacity() == old(self).capacity(),
    {
        proof {
            use_type_invariant(&*self);
            lemma_state_after_few(self.rng@);
        }
        let offset: usize = self.draw(0, 31);
        let amount: usize = self.draw(1, 32 - offset);
        (offset, amount)
    }

    /// Draws `n` bytes, one word each.
    pub fn draw_bytes(&mut self, n: usize) -> (out: Vec<u8>)
        ensures
            out@ == random_run(old(self).rng_state(), n as nat),
            final(self).rng_state() == state_after(old(self).rng_state(), n as nat),
            final(self).magic() == old(self).magic(),
            final(self).capacity() == old(self).capacity(),
    {
        let mut out: Vec<u8> = Vec::new();
        let mut i: usize = 0;
        while i < n
            invariant
                0 <= i <= n,
                out@ == random_run(old(self).rng@, i as nat),
                self.rng@ == state_after(old(self).rng@, i as nat),
                self.magic() == old(self).magic(),
                self.capacity() == old(self).capacity(),
            decreases n - i,
        {
            let b: u8 = self.draw_byte();
            out.push(b);
            assert(out@ =~= random_run(old(self).rng@, (i + 1) as nat));
            i += 1;
        }
        out
    }

    /// Exchanges two drawn runs of the encoding.
    pub fn swap(&mut self, felt: Felt) -> (out: Felt)
        ensures
            Mutator::applied(*old(self), Strategy::SwapRange, felt, *final(self), out),
    {
        let felt_bytes = felt.to_bytes_be();
        let (src, dst, len) = self.draw_ranges();
        proof {
            lemma_clamped_len_in_bounds(src as int, dst as int, len as int);
        }
        let swapped_bytes = swap_range(&felt_bytes, src, dst, len);
        let out = Felt::from_bytes_be(&swapped_bytes);
        proof {
            use_type_invariant(&out);
        }
        out
    }

    /// Copies one drawn run of the encoding over another.
    pub fn copy(&mut self, felt: Felt) -> (out: Felt)
        ensures
            Mutator::applied(*old(self), Strategy::CopyRange, felt, *final(self), out),
    {
        let felt_bytes = felt.to_bytes_be();
        let (src, dst, len) = self.draw_ranges();
        proof {
            lemma_clamped_len_in_bounds(src as int, dst as int, len as int);
        }
        let copied_bytes = copy_range(&felt_bytes, src, dst, len);
        let out = Felt::from_bytes_be(&copied_bytes);
        proof {
            use_type_invariant(&out);
        }
        out
    }

    /// Inserts a copy of one drawn run of the encoding at another drawn
    /// offset; what is pushed past byte 32 is cut off.
    pub fn inter_splice(&mut self, felt: Felt) -> (out: Felt)
        ensures
            Mutator::applied(*old(self), Strategy::InterSplice, felt, *final(self), out),
    {
        let felt_bytes = felt.to_bytes_be();
        let (src, dst, len) = self.draw_ranges();
        proof {
            lemma_clamped_len_in_bounds(src as int, dst as int, len as int);
        }
        let new_bytes = inter_splice(&felt_bytes, src, dst, len);
        let out = Felt::from_bytes_be(&new_bytes);
        proof {
            use_type_invariant(&out);
        }
        out
    }

    /// Writes a drawn magic value over the start of the encoding.
    pub fn magic_overwrite(&mut self, felt: Felt) -> (out: Felt)
        ensures
            Mutator::applied(*old(self), Strategy::MagicOverwrite, felt, *final(self), out),
    {
        proof {
            use_type_invariant(&*self);
            lemma_state_after_few(self.rng@);
        }
        let felt_bytes = felt.to_bytes_be();
        let pick: usize = self.draw(0, self.magic.len() - 1);
        let new_bytes = overwrite_run(&felt_bytes, 0, &self.magic[pick]);
        let out = Felt::from_bytes_be(&new_bytes);
        proof {
            use_type_invariant(&out);
        }
        out
    }

    /// Inserts a drawn magic value at a drawn offset; what is pushed past byte
    /// 32 is cut off.
    pub fn magic_insert(&mut self, felt: Felt) -> (out: Felt)
        ensures
            Mutator::applied(*old(self), Strategy::MagicInsert, felt, *final(self), out),
    {
        proof {
            use_type_invariant(&*self);
            lemma_state_after_few(self.rng@);
        }
        let felt_bytes = felt.to_bytes_be();
        let pick: usize = self.draw(0, self.magic.len() - 1);
        let offset: usize = self.draw(0, 32);
        let new_bytes = insert_run(&felt_bytes, offset, &self.magic[pick]);
        let out = Felt::from_bytes_be(&new_bytes);
        proof {
            use_type_invariant(&out);
        }
        out
    }

    /// Writes freshly drawn bytes over a drawn run of the encoding.
    pub fn random_overwrite(&mut self, felt: Felt) -> (out: Felt)
        ensures
            Mutator::applied(*old(self), Strategy::RandomOverwrite, felt, *final(self), out),
    {
        let felt_bytes = felt.to_bytes_be();
        let (offset, amount) = self.draw_span();
        proof {
            lemma_state_after_few(old(self).rng@);
            lemma_state_after_add(old(self).rng@, 2, amount as nat);
        }
        let fresh = self.draw_bytes(amount);
        let new_bytes = overwrite_run(&felt_bytes, offset, &fresh);
        let out = Felt::from_bytes_be(&new_bytes);
        proof {
            use_type_invariant(&out);
        }
        out
    }

    /// Inserts a run of one drawn byte at a drawn offset; what is pushed past
    /// byte 32 is cut off.
    pub fn random_insert(&mut self, felt: Felt) -> (out: Felt)
        ensures
            Mutator::applied(*old(self), Strategy::RandomInsert, felt, *final(self), out),
    {
        proof {
            use_type_invariant(&*self);
            lemma_state_after_few(self.rng@);
        }
        let felt_bytes = felt.to_bytes_be();
        let offset: usize = self.draw(0, 32);
        let amount: usize = self.draw(0, self.max_input_size - 32);
        let byte: u8 = self.draw_byte();
        let run = make_run(byte, amount);
        let new_bytes = insert_run(&felt_bytes, offset, &run);
        let out = Felt::from_bytes_be(&new_bytes);
        proof {
            use_type_invariant(&out);
        }
        out
    }

    /// Repeats the byte at a drawn offset over the run that follows it.
    pub fn byte_repeat_overwrite(&mut self, felt: Felt) -> (out: Felt)
        ensures
            Mutator::applied(*old(self), Strategy::ByteRepeatOverwrite, felt, *final(self), out),
    {
        let felt_bytes = felt.to_bytes_be();
        let (offset, amount) = self.draw_span();
        let new_bytes = repeat_over(&felt_bytes, offset, amount);
        let out = Felt::from_bytes_be(&new_bytes);
        proof {
            use_type_invariant(&out);
        }
        out
    }

    /// Inserts a run of the byte at a drawn offset before that offset; what is
    /// pushed past byte 32 is cut off.
    pub fn byte_repeat_insert(&mut self, felt: Felt) -> (out: Felt)
        ensures
            Mutator::applied(*old(self), Strategy::ByteRepeatInsert, felt, *final(self), out),
    {
        proof {
            use_type_invariant(&*self);
            lemma_state_after_few(self.rng@);
        }
        let felt_bytes = felt.to_bytes_be();
        let offset: usize = self.draw(0, 31);
        let amount: usize = self.draw(0, self.max_input_size - 32);
        let val: u8 = felt_bytes[offset];
        let run = make_run(val, amount);
        let new_bytes = insert_run(&felt_bytes, offset, &run);
        let out = Felt::from_bytes_be(&new_bytes);
        proof {
            use_type_invariant(&out);
        }
        out
    }
}

impl Clone for Mutator {
    fn clone(&self) -> (out: Mutator)
        ensures
            out.rng_state() == self.rng_state(),
            out.magic() == self.magic(),
            out.capacity() == self.capacity(),
    {
        self.duplicate()
    }
}

} // verus!
