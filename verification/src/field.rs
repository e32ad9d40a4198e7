//! Field elements of the STARK prime field, held as their canonical 32-byte
//! big-endian encoding.  The modular arithmetic itself is done by
//! `starknet_types_core`; everything here is stated over the number that the
//! bytes encode.

use vstd::prelude::*;
use vstd::arithmetic::power2::{lemma2_to64, lemma_pow2_adds, pow2};

verus! {

/// The field's modulus, `2^251 + 17 * 2^192 + 1`.
pub open spec fn prime() -> nat {
    0x0800000000000011000000000000000000000000000000000000000000000001nat
}

/// The number that a big-endian byte string encodes.
pub open spec fn be_value(bytes: Seq<u8>) -> nat
    decreases bytes.len(),
{
    if bytes.len() == 0 {
        0
    } else {
        be_value(bytes.drop_last()) * 256 + bytes.last() as nat
    }
}

/// Whether bit `i` of the number is set, bit 0 being the lowest bit of the
/// last byte.
pub open spec fn bit_at(bytes: Seq<u8>, i: int) -> bool {
    (bytes[31 - i / 8] >> ((i % 8) as u8)) & 1u8 == 1u8
}

/// One more than the position of the highest set bit among the lowest `n`
/// bits; zero when none of them is set.
pub open spec fn bit_length_below(bytes: Seq<u8>, n: nat) -> nat
    decreases n,
{
    if n == 0 {
        0
    } else if bit_at(bytes, n - 1) {
        n
    } else {
        bit_length_below(bytes, (n - 1) as nat)
    }
}

/// The number of significant bits of a 32-byte big-endian number: one more
/// than the position of its highest set bit, and zero for the number zero.
pub open spec fn bit_length(bytes: Seq<u8>) -> nat {
    bit_length_below(bytes, 256)
}

/// The 32 bytes with bit `i` of the number inverted.
pub open spec fn with_bit_flipped(bytes: Seq<u8>, i: int) -> Seq<u8> {
    bytes.update(31 - i / 8, bytes[31 - i / 8] ^ (1u8 << ((i % 8) as u8)))
}

/// `v` held to the range from zero to the largest 64-bit number.
pub open spec fn clamp_to_u64(v: int) -> nat {
    if v < 0 {
        0
    } else if v > u64::MAX {
        u64::MAX as nat
    } else {
        v as nat
    }
}

/// Two byte strings of one length that encode the same number are the same
/// string.
pub proof fn lemma_be_value_injective(a: Seq<u8>, b: Seq<u8>)
    requires
        a.len() == b.len(),
        be_value(a) == be_value(b),
    ensures
        a == b,
    decreases a.len(),
{
    if a.len() > 0 {
        let x = be_value(a.drop_last());
        let y = be_value(b.drop_last());
        assert(x * 256 + a.last() as nat == y * 256 + b.last() as nat);
        assert(x == y && a.last() == b.last());
        lemma_be_value_injective(a.drop_last(), b.drop_last());
        assert(a =~= a.drop_last().push(a.last()));
        assert(b =~= b.drop_last().push(b.last()));
    } else {
        assert(a =~= b);
    }
}

/// A byte string that encodes zero holds only zero bytes.
pub proof fn lemma_be_value_zero(a: Seq<u8>)
    requires
        be_value(a) == 0,
    ensures
        forall|i: int| 0 <= i < a.len() ==> a[i] == 0u8,
    decreases a.len(),
{
    if a.len() > 0 {
        lemma_be_value_zero(a.drop_last());
        assert forall|i: int| 0 <= i < a.len() implies a[i] == 0u8 by {
            if i < a.len() - 1 {
                assert(a[i] == a.drop_last()[i]);
            }
        }
    }
}

/// The number zero has no significant bit.
pub proof fn lemma_zero_has_no_bits(bytes: Seq<u8>)
    requires
        bytes.len() == 32,
        be_value(bytes) == 0,
    ensures
        bit_length(bytes) == 0,
{
    lemma_be_value_zero(bytes);
    lemma_no_bits_below(bytes, 256);
}

/// Replacing one byte changes the number by the difference of the bytes times
/// the weight of the byte's position.
pub proof fn lemma_update_changes_value(bytes: Seq<u8>, k: int, x: u8)
    requires
        0 <= k < bytes.len(),
    ensures
        be_value(bytes.update(k, x)) == be_value(bytes) + (x - bytes[k]) * pow2(
            (8 * (bytes.len() - 1 - k)) as nat,
        ),
    decreases bytes.len(),
{
    let n = bytes.len();
    let changed = bytes.update(k, x);
    let delta = x - bytes[k];
    lemma2_to64();
    if k == n - 1 {
        assert(changed.drop_last() =~= bytes.drop_last());
        assert(delta * 1 == delta);
    } else {
        let rest = bytes.drop_last();
        assert(changed.drop_last() =~= rest.update(k, x));
        assert(rest[k] == bytes[k]);
        lemma_update_changes_value(rest, k, x);
        let w = pow2((8 * (n - 2 - k)) as nat);
        lemma_pow2_adds(8, (8 * (n - 2 - k)) as nat);
        assert(pow2((8 * (n - 1 - k)) as nat) == 256 * w);
        let a = be_value(rest);
        assert((a + delta * w) * 256 == a * 256 + delta * (256 * w)) by (nonlinear_arith);
    }
}

/// Inverting bit `i` adds `2^i` to the number where the bit was clear, and
/// takes `2^i` away where it was set.
pub proof fn lemma_flip_changes_one_power(bytes: Seq<u8>, i: int)
    requires
        bytes.len() == 32,
        0 <= i < 256,
    ensures
        be_value(with_bit_flipped(bytes, i)) == if bit_at(bytes, i) {
            be_value(bytes) - pow2(i as nat)
        } else {
            (be_value(bytes) + pow2(i as nat)) as int
        },
{
    let k = 31 - i / 8;
    let p = (i % 8) as u8;
    let old = bytes[k];
    let new = old ^ (1u8 << p);
    let d = 1u8 << p;
    assert(p < 8 ==> ((old >> p) & 1u8 == 1u8 ==> (old ^ (1u8 << p)) as u16 + (1u8 << p) as u16
        == old as u16)) by (bit_vector);
    assert(p < 8 ==> ((old >> p) & 1u8 != 1u8 ==> old as u16 + (1u8 << p) as u16 == (old ^ (1u8
        << p)) as u16)) by (bit_vector);
    assert(p < 8 ==> (1u8 << p) == if p == 0 {
        1u8
    } else if p == 1 {
        2u8
    } else if p == 2 {
        4u8
    } else if p == 3 {
        8u8
    } else if p == 4 {
        16u8
    } else if p == 5 {
        32u8
    } else if p == 6 {
        64u8
    } else {
        128u8
    }) by (bit_vector);
    lemma2_to64();
    assert(d as nat == pow2(p as nat));
    lemma_update_changes_value(bytes, k, new);
    lemma_pow2_adds(p as nat, (8 * (i / 8)) as nat);
    assert(p as nat + (8 * (i / 8)) as nat == i as nat);
    let w = pow2((8 * (i / 8)) as nat);
    assert(31 - k == i / 8);
    if bit_at(bytes, i) {
        assert(new - old == -(d as int));
        assert((-(d as int)) * w == -(d * w)) by (nonlinear_arith);
    } else {
        assert(new - old == d as int);
    }
}

/// A number of `n` bytes is below `2^(8 n)`.
pub proof fn lemma_be_value_below(bytes: Seq<u8>)
    ensures
        be_value(bytes) < pow2((8 * bytes.len()) as nat),
    decreases bytes.len(),
{
    lemma2_to64();
    if bytes.len() > 0 {
        let rest = bytes.drop_last();
        lemma_be_value_below(rest);
        lemma_pow2_adds(8, (8 * rest.len()) as nat);
        let w = pow2((8 * rest.len()) as nat);
        assert(pow2((8 * bytes.len()) as nat) == 256 * w);
        let a = be_value(rest);
        assert(a + 1 <= w ==> a * 256 + 256 <= 256 * w) by (nonlinear_arith);
    }
}

/// The number splits at any byte: the bytes before `k` count
/// `2^(8 (len - k))` times, the bytes from `k` on count as they are.
pub proof fn lemma_be_value_splits(bytes: Seq<u8>, k: int)
    requires
        0 <= k <= bytes.len(),
    ensures
        be_value(bytes) == be_value(bytes.subrange(0, k)) * pow2((8 * (bytes.len() - k)) as nat)
            + be_value(bytes.subrange(k, bytes.len() as int)),
    decreases bytes.len(),
{
    let n = bytes.len() as int;
    lemma2_to64();
    if k == n {
        assert(bytes.subrange(0, k) =~= bytes);
        assert(bytes.subrange(k, n) =~= Seq::<u8>::empty());
        assert(be_value(bytes) * 1 == be_value(bytes));
    } else {
        let rest = bytes.drop_last();
        lemma_be_value_splits(rest, k);
        assert(rest.subrange(0, k) =~= bytes.subrange(0, k));
        assert(rest.subrange(k, n - 1) =~= bytes.subrange(k, n).drop_last());
        assert(bytes.subrange(k, n).last() == bytes.last());
        let head = be_value(bytes.subrange(0, k));
        let w = pow2((8 * (n - 1 - k)) as nat);
        lemma_pow2_adds(8, (8 * (n - 1 - k)) as nat);
        assert(pow2((8 * (n - k)) as nat) == 256 * w);
        let tail = be_value(rest.subrange(k, n - 1));
        assert((head * w + tail) * 256 == head * (256 * w) + tail * 256) by (nonlinear_arith);
    }
}

/// Where the highest set bit stands: below the bit length every higher bit
/// is clear, and the bit just below the bit length is set.
pub proof fn lemma_bit_length_marks_top(bytes: Seq<u8>, n: nat)
    ensures
        bit_length_below(bytes, n) <= n,
        bit_length_below(bytes, n) > 0 ==> bit_at(bytes, bit_length_below(bytes, n) - 1),
        forall|i: int| bit_length_below(bytes, n) <= i < n ==> !bit_at(bytes, i),
    decreases n,
{
    if n > 0 && !bit_at(bytes, n - 1) {
        lemma_bit_length_marks_top(bytes, (n - 1) as nat);
    }
}

/// A number with `len` significant bits is at least `2^(len - 1)` and below
/// `2^len`.
pub proof fn lemma_bit_length_bounds(bytes: Seq<u8>)
    requires
        bytes.len() == 32,
        bit_length(bytes) > 0,
    ensures
        pow2((bit_length(bytes) - 1) as nat) <= be_value(bytes) < pow2(bit_length(bytes)),
{
    let len = bit_length(bytes);
    lemma_bit_length_marks_top(bytes, 256);
    let t = len - 1;
    let k = 31 - t / 8;
    let p = (t % 8) as u8;
    let b = bytes[k];
    lemma2_to64();
    // the bytes before the top byte are zero
    let head = bytes.subrange(0, k);
    assert forall|j: int| 0 <= j < head.len() implies head[j] == 0u8 by {
        let base = (31 - j) * 8;
        let x = bytes[j];
        assert(!bit_at(bytes, base + 0) && !bit_at(bytes, base + 1) && !bit_at(bytes, base + 2)
            && !bit_at(bytes, base + 3) && !bit_at(bytes, base + 4) && !bit_at(bytes, base + 5)
            && !bit_at(bytes, base + 6) && !bit_at(bytes, base + 7));
        assert((x >> 0u8) & 1u8 != 1u8 && (x >> 1u8) & 1u8 != 1u8 && (x >> 2u8) & 1u8 != 1u8 && (x
            >> 3u8) & 1u8 != 1u8 && (x >> 4u8) & 1u8 != 1u8 && (x >> 5u8) & 1u8 != 1u8 && (x
            >> 6u8) & 1u8 != 1u8 && (x >> 7u8) & 1u8 != 1u8 ==> x == 0u8) by (bit_vector);
    }
    lemma_zero_bytes_encode_zero(head);
    // the top byte has bit p set and no higher bit
    let base = (31 - k) * 8;
    assert(bit_at(bytes, base + p));
    assert(!bit_at(bytes, base + 7) || p >= 7);
    assert(!bit_at(bytes, base + 6) || p >= 6);
    assert(!bit_at(bytes, base + 5) || p >= 5);
    assert(!bit_at(bytes, base + 4) || p >= 4);
    assert(!bit_at(bytes, base + 3) || p >= 3);
    assert(!bit_at(bytes, base + 2) || p >= 2);
    assert(!bit_at(bytes, base + 1) || p >= 1);
    assert(p < 8 && (b >> p) & 1u8 == 1u8 && ((b >> 7u8) & 1u8 != 1u8 || p >= 7) && ((b >> 6u8)
        & 1u8 != 1u8 || p >= 6) && ((b >> 5u8) & 1u8 != 1u8 || p >= 5) && ((b >> 4u8) & 1u8 != 1u8
        || p >= 4) && ((b >> 3u8) & 1u8 != 1u8 || p >= 3) && ((b >> 2u8) & 1u8 != 1u8 || p >= 2)
        && ((b >> 1u8) & 1u8 != 1u8 || p >= 1) ==> (1u8 << p) <= b && (b as u16) < 2 * ((1u8
        << p) as u16)) by (bit_vector);
    assert(p < 8 ==> (1u8 << p) == if p == 0 {
        1u8
    } else if p == 1 {
        2u8
    } else if p == 2 {
        4u8
    } else if p == 3 {
        8u8
    } else if p == 4 {
        16u8
    } else if p == 5 {
        32u8
    } else if p == 6 {
        64u8
    } else {
        128u8
    }) by (bit_vector);
    let d = pow2(p as nat);
    assert(d == (1u8 << p) as nat);
    assert(d <= b && b + 1 <= 2 * d);
    // the number is the top byte times its weight plus what the lower bytes say
    let upto = bytes.subrange(0, k + 1);
    assert(upto.drop_last() =~= head);
    assert(upto.last() == b);
    assert(be_value(upto) == b);
    lemma_be_value_splits(bytes, k + 1);
    let tail = bytes.subrange(k + 1, 32);
    lemma_be_value_below(tail);
    let w = pow2((8 * (31 - k)) as nat);
    assert(tail.len() == 31 - k);
    assert(be_value(bytes) == b * w + be_value(tail));
    lemma_pow2_adds(p as nat, (8 * (31 - k)) as nat);
    assert(p as nat + (8 * (31 - k)) as nat == t as nat);
    lemma_pow2_adds(1, t as nat);
    assert(pow2(len) == 2 * pow2(t as nat));
    assert(d <= b ==> d * w <= b * w) by (nonlinear_arith);
    assert(b + 1 <= 2 * d ==> (b + 1) * w <= 2 * (d * w)) by (nonlinear_arith);
    assert((b + 1) * w == b * w + w) by (nonlinear_arith);
}

/// A number without a significant bit is zero.
pub proof fn lemma_no_bits_is_zero(bytes: Seq<u8>)
    requires
        bytes.len() == 32,
        bit_length(bytes) == 0,
    ensures
        be_value(bytes) == 0,
{
    lemma_bits_clear_below(bytes, 256);
    assert forall|k: int| 0 <= k < 32 implies bytes[k] == 0u8 by {
        let base = (31 - k) * 8;
        let b = bytes[k];
        assert(!bit_at(bytes, base + 0) && !bit_at(bytes, base + 1) && !bit_at(bytes, base + 2)
            && !bit_at(bytes, base + 3) && !bit_at(bytes, base + 4) && !bit_at(bytes, base + 5)
            && !bit_at(bytes, base + 6) && !bit_at(bytes, base + 7));
        assert((b >> 0u8) & 1u8 != 1u8 && (b >> 1u8) & 1u8 != 1u8 && (b >> 2u8) & 1u8 != 1u8 && (b
            >> 3u8) & 1u8 != 1u8 && (b >> 4u8) & 1u8 != 1u8 && (b >> 5u8) & 1u8 != 1u8 && (b
            >> 6u8) & 1u8 != 1u8 && (b >> 7u8) & 1u8 != 1u8 ==> b == 0u8) by (bit_vector);
    }
    lemma_zero_bytes_encode_zero(bytes);
}

proof fn lemma_bits_clear_below(bytes: Seq<u8>, n: nat)
    requires
        bit_length_below(bytes, n) == 0,
    ensures
        forall|i: int| 0 <= i < n ==> !bit_at(bytes, i),
    decreases n,
{
    if n > 0 {
        lemma_bits_clear_below(bytes, (n - 1) as nat);
    }
}

proof fn lemma_zero_bytes_encode_zero(a: Seq<u8>)
    requires
        forall|i: int| 0 <= i < a.len() ==> a[i] == 0u8,
    ensures
        be_value(a) == 0,
    decreases a.len(),
{
    if a.len() > 0 {
        lemma_zero_bytes_encode_zero(a.drop_last());
    }
}

proof fn lemma_no_bits_below(bytes: Seq<u8>, n: nat)
    requires
        bytes.len() == 32,
        n <= 256,
        forall|i: int| 0 <= i < 32 ==> bytes[i] == 0u8,
    ensures
        bit_length_below(bytes, n) == 0,
    decreases n,
{
    if n > 0 {
        let i = n - 1;
        let pos = (i % 8) as u8;
        assert(bytes[31 - i / 8] == 0u8);
        assert((0u8 >> pos) & 1u8 == 0u8) by (bit_vector);
        lemma_no_bits_below(bytes, (n - 1) as nat);
    }
}

/// Calls `Felt::from_bytes_be` and `Felt::to_bytes_be` of `starknet_types_core`:
/// the bytes are read as a big-endian number, reduced modulo the field's prime,
/// and written back in the canonical 32-byte big-endian form.
#[verifier::external_body]
fn reduce_be(bytes: &[u8; 32]) -> (out: [u8; 32])
    ensures
        be_value(out@) == be_value(bytes@) % prime(),
{
    starknet_types_core::felt::Felt::from_bytes_be(bytes).to_bytes_be()
}

/// An element of the STARK prime field.
#[derive(Clone, Copy, Debug)]
pub struct Felt {
    bytes: [u8; 32],
}

impl Felt {
    /// The canonical big-endian encoding.
    pub closed spec fn bytes(self) -> Seq<u8> {
        self.bytes@
    }

    /// The number this element stands for.
    pub open spec fn value(self) -> nat {
        be_value(self.bytes())
    }

    /// The encoding is the canonical one: 32 bytes that encode a number
    /// below the prime.
    #[verifier::type_invariant]
    pub open spec fn wf(self) -> bool {
        self.bytes().len() == 32 && self.value() < prime()
    }

    /// Reads 32 big-endian bytes as a number and reduces it into the field.
    pub fn from_bytes_be(bytes: &[u8; 32]) -> (out: Felt)
        ensures
            out.value() == be_value(bytes@) % prime(),
    {
        let reduced = reduce_be(bytes);
        Felt { bytes: reduced }
    }

    /// The canonical 32-byte big-endian encoding of the element.
    pub fn to_bytes_be(&self) -> (out: [u8; 32])
        ensures
            out@ == self.bytes(),
            be_value(out@) == self.value(),
            self.wf(),
    {
        proof {
            use_type_invariant(self);
        }
        self.bytes
    }

    /// The element that stands for a 64-bit number.
    pub fn from_u64(v: u64) -> (out: Felt)
        ensures
            out.value() == v,
    {
        let encoded = encode_u64(v);
        Felt { bytes: encoded }
    }

    /// The element zero.
    pub fn zero() -> (out: Felt)
        ensures
            out.value() == 0,
    {
        Felt::from_u64(0)
    }

    /// Field addition: the sum modulo the prime.
    pub fn add_mod(&self, rhs: &Felt) -> (out: Felt)
        ensures
            out.value() == (self.value() + rhs.value()) % prime(),
    {
        let sum = field_add(&self.bytes, &rhs.bytes);
        Felt { bytes: sum }
    }

    /// The largest element, `prime - 1`.
    pub fn largest() -> (out: Felt)
        ensures
            out.value() == prime() - 1,
    {
        let zero = Felt::from_u64(0);
        let one = Felt::from_u64(1);
        zero.sub_mod(&one)
    }

    /// Addition that stops at the largest element instead of going round the
    /// field.
    pub fn saturating_add(&self, rhs: &Felt) -> (out: Felt)
        ensures
            out.value() == if self.value() + rhs.value() >= prime() {
                (prime() - 1) as nat
            } else {
                self.value() + rhs.value()
            },
    {
        proof {
            use_type_invariant(self);
            use_type_invariant(rhs);
        }
        let top = Felt::largest();
        let room = top.sub_mod(rhs);
        if room.less_than(self) {
            top
        } else {
            self.add_mod(rhs)
        }
    }

    /// Field subtraction: the difference modulo the prime, so a difference
    /// below zero comes out as `prime - (rhs - self)`.
    pub fn sub_mod(&self, rhs: &Felt) -> (out: Felt)
        ensures
            out.value() == (self.value() - rhs.value()) % (prime() as int),
    {
        let diff = field_sub(&self.bytes, &rhs.bytes);
        Felt { bytes: diff }
    }

    /// Whether this element's number is smaller than the other's.
    pub fn less_than(&self, rhs: &Felt) -> (out: bool)
        ensures
            out == (self.value() < rhs.value()),
    {
        proof {
            use_type_invariant(self);
            use_type_invariant(rhs);
        }
        field_less(&self.bytes, &rhs.bytes)
    }

    /// Subtraction that stops at zero instead of going round the field.
    pub fn saturating_sub(&self, rhs: &Felt) -> (out: Felt)
        ensures
            out.value() == if self.value() < rhs.value() {
                0
            } else {
                self.value() - rhs.value()
            },
    {
        proof {
            use_type_invariant(self);
            use_type_invariant(rhs);
        }
        if self.less_than(rhs) {
            Felt::zero()
        } else {
            self.sub_mod(rhs)
        }
    }

    /// Elements with the same number are the same element.
    pub proof fn lemma_value_decides(a: Felt, b: Felt)
        requires
            a.wf(),
            b.wf(),
            a.value() == b.value(),
        ensures
            a.bytes() == b.bytes(),
            a == b,
    {
        lemma_be_value_injective(a.bytes(), b.bytes());
        assert(a.bytes =~= b.bytes);
    }

    /// Whether two elements are the same element.
    pub fn same(&self, rhs: &Felt) -> (out: bool)
        ensures
            out == (self.bytes() == rhs.bytes()),
            out == (*self == *rhs),
    {
        let mut i: usize = 0;
        while i < 32
            invariant
                0 <= i <= 32,
                forall|j: int| 0 <= j < i ==> self.bytes@[j] == rhs.bytes@[j],
            decreases 32 - i,
        {
            if self.bytes[i] != rhs.bytes[i] {
                return false;
            }
            i += 1;
        }
        assert(self.bytes@ =~= rhs.bytes@);
        assert(self.bytes =~= rhs.bytes);
        true
    }

    /// The number of significant bits of the element's number.
    pub fn bit_length(&self) -> (out: usize)
        ensures
            out == bit_length(self.bytes()),
            out <= 256,
            out == 0 <==> self.value() == 0,
            out > 0 ==> pow2((out - 1) as nat) <= self.value() < pow2(out as nat),
    {
        proof {
            use_type_invariant(self);
            lemma_bit_length_marks_top(self.bytes@, 256);
            if bit_length(self.bytes@) == 0 {
                lemma_no_bits_is_zero(self.bytes@);
            } else {
                lemma_bit_length_bounds(self.bytes@);
            }
            if be_value(self.bytes@) == 0 {
                lemma_zero_has_no_bits(self.bytes@);
            }
        }
        let mut n: usize = 256;
        while n > 0
            invariant
                0 <= n <= 256,
                bit_length(self.bytes@) == bit_length_below(self.bytes@, n as nat),
                bit_length(self.bytes@) == 0 <==> be_value(self.bytes@) == 0,
                bit_length(self.bytes@) > 0 ==> pow2((bit_length(self.bytes@) - 1) as nat)
                    <= be_value(self.bytes@) < pow2(bit_length(self.bytes@)),
            decreases n,
        {
            let i: usize = n - 1;
            let byte: u8 = self.bytes[31 - i / 8];
            let pos: u8 = (i % 8) as u8;
            if (byte >> pos) & 1u8 == 1u8 {
                return n;
            }
            n -= 1;
        }
        n
    }

    /// Inverts bit `index` of the 32-byte encoding (bit 0 is the lowest) and
    /// reduces the result into the field.  An index of 256 or more leaves the
    /// element as it is.
    pub fn flip_bit(&self, index: usize) -> (out: Felt)
        ensures
            index < 256 ==> out.value() == be_value(with_bit_flipped(self.bytes(), index as int))
                % prime(),
            index < 256 ==> out.value() == (if bit_at(self.bytes(), index as int) {
                self.value() - pow2(index as nat)
            } else {
                (self.value() + pow2(index as nat)) as int
            }) % (prime() as int),
            index >= 256 ==> out == *self,
    {
        proof {
            use_type_invariant(self);
            if index < 256 {
                lemma_flip_changes_one_power(self.bytes@, index as int);
            }
        }
        if index >= 256 {
            return *self;
        }
        let mut bytes: [u8; 32] = self.bytes;
        let at: usize = 31 - index / 8;
        let pos: u8 = (index % 8) as u8;
        let flipped: u8 = bytes[at] ^ (1u8 << pos);
        bytes[at] = flipped;
        Felt::from_bytes_be(&bytes)
    }

    /// Adds a signed amount as whole numbers and holds the result to the range
    /// from zero to the largest 64-bit number.
    pub fn add_signed_clamped(&self, delta: i64) -> (out: Felt)
        ensures
            out.value() == clamp_to_u64(self.value() + delta),
    {
        proof {
            use_type_invariant(self);
        }
        let limit = Felt::from_u64(u64::MAX);
        if delta >= 0 {
            let amount: u64 = delta as u64;
            let room = Felt::from_u64(u64::MAX - amount);
            if room.less_than(self) {
                limit
            } else {
                let d = Felt::from_u64(amount);
                self.add_mod(&d)
            }
        } else {
            let amount: u64 = ((-(delta + 1)) as u64) + 1;
            let d = Felt::from_u64(amount);
            let lowered = self.saturating_sub(&d);
            if limit.less_than(&lowered) {
                limit
            } else {
                lowered
            }
        }
    }
}

/// Calls `Felt::from(u64)` of `starknet_types_core`, then `to_bytes_be`: the
/// canonical encoding of a number below `2^64` encodes that number.
#[verifier::external_body]
fn encode_u64(v: u64) -> (out: [u8; 32])
    ensures
        be_value(out@) == v,
{
    starknet_types_core::felt::Felt::from(v).to_bytes_be()
}

/// Calls `+` of `starknet_types_core`'s `Felt` on the two elements that the
/// byte strings encode: the sum is taken modulo the field's prime.
#[verifier::external_body]
fn field_add(a: &[u8; 32], b: &[u8; 32]) -> (out: [u8; 32])
    ensures
        be_value(out@) == (be_value(a@) + be_value(b@)) % prime(),
{
    let lhs = starknet_types_core::felt::Felt::from_bytes_be(a);
    let rhs = starknet_types_core::felt::Felt::from_bytes_be(b);
    (lhs + rhs).to_bytes_be()
}

/// Calls `-` of `starknet_types_core`'s `Felt` on the two elements that the
/// byte strings encode: the difference is taken modulo the field's prime.
#[verifier::external_body]
fn field_sub(a: &[u8; 32], b: &[u8; 32]) -> (out: [u8; 32])
    ensures
        be_value(out@) == (be_value(a@) - be_value(b@)) % (prime() as int),
{
    let lhs = starknet_types_core::felt::Felt::from_bytes_be(a);
    let rhs = starknet_types_core::felt::Felt::from_bytes_be(b);
    (lhs - rhs).to_bytes_be()
}

/// Calls `<` of `starknet_types_core`'s `Felt`, which orders elements by the
/// number each stands for, on the two elements that the byte strings encode.
#[verifier::external_body]
fn field_less(a: &[u8; 32], b: &[u8; 32]) -> (out: bool)
    ensures
        out == (be_value(a@) % prime() < be_value(b@) % prime()),
{
    let lhs = starknet_types_core::felt::Felt::from_bytes_be(a);
    let rhs = starknet_types_core::felt::Felt::from_bytes_be(b);
    lhs < rhs
}

} // verus!
