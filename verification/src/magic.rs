//! The table of byte strings that the magic-value strategies draw from:
//! boundary values of the 1, 2, 4 and 8 byte integers, in both byte orders.

use vstd::prelude::*;

verus! {

/// Byte `i` of boundary pattern `kind` at `width` bytes.  The patterns are, in
/// order: zero; one, big-endian and little-endian; the largest signed value,
/// big-endian and little-endian; the smallest signed value, big-endian and
/// little-endian; all bits set.
pub open spec fn pattern_byte(kind: int, width: int, i: int) -> u8 {
    if kind == 0 {
        0x00u8
    } else if kind == 1 {
        if i == width - 1 { 0x01u8 } else { 0x00u8 }
    } else if kind == 2 {
        if i == 0 { 0x01u8 } else { 0x00u8 }
    } else if kind == 3 {
        if i == 0 { 0x7fu8 } else { 0xffu8 }
    } else if kind == 4 {
        if i == width - 1 { 0x7fu8 } else { 0xffu8 }
    } else if kind == 5 {
        if i == 0 { 0x80u8 } else { 0x00u8 }
    } else if kind == 6 {
        if i == width - 1 { 0x80u8 } else { 0x00u8 }
    } else {
        0xffu8
    }
}

/// Width in bytes of the entries of group `g`: 1, 2, 4, 8.
pub open spec fn group_width(g: int) -> int {
    if g <= 0 {
        1
    } else if g == 1 {
        2
    } else if g == 2 {
        4
    } else {
        8
    }
}

/// Entry `t` of the table: pattern `t % 8` at the width of group `t / 8`.
pub open spec fn magic_entry(t: int) -> Seq<u8> {
    Seq::new(
        group_width(t / 8) as nat,
        |i: int| pattern_byte(t % 8, group_width(t / 8), i),
    )
}

/// The table, in the order in which it is indexed.
pub open spec fn magic_table() -> Seq<Seq<u8>> {
    Seq::new(32, |t: int| magic_entry(t))
}

/// What a table of byte strings holds, as plain sequences.
pub open spec fn table_view(table: Seq<Vec<u8>>) -> Seq<Seq<u8>> {
    Seq::new(table.len(), |i: int| table[i]@)
}

fn pattern_byte_at(kind: usize, width: usize, i: usize) -> (out: u8)
    requires
        width >= 1,
    ensures
        out == pattern_byte(kind as int, width as int, i as int),
{
    if kind == 0 {
        0x00
    } else if kind == 1 {
        if i == width - 1 { 0x01 } else { 0x00 }
    } else if kind == 2 {
        if i == 0 { 0x01 } else { 0x00 }
    } else if kind == 3 {
        if i == 0 { 0x7f } else { 0xff }
    } else if kind == 4 {
        if i == width - 1 { 0x7f } else { 0xff }
    } else if kind == 5 {
        if i == 0 { 0x80 } else { 0x00 }
    } else if kind == 6 {
        if i == width - 1 { 0x80 } else { 0x00 }
    } else {
        0xff
    }
}

fn build_entry(t: usize) -> (out: Vec<u8>)
    requires
        t < 32,
    ensures
        out@ == magic_entry(t as int),
{
    let group: usize = t / 8;
    let kind: usize = t % 8;
    let width: usize = if group == 0 { 1 } else if group == 1 { 2 } else if group == 2 { 4 } else { 8 };
    let mut entry: Vec<u8> = Vec::new();
    let mut i: usize = 0;
    while i < width
        invariant
            0 <= i <= width,
            1 <= width <= 8,
            width == group_width(t as int / 8),
            kind == t as int % 8,
            entry@.len() == i,
            forall|k: int| 0 <= k < i ==> entry@[k] == pattern_byte(kind as int, width as int, k),
        decreases width - i,
    {
        entry.push(pattern_byte_at(kind, width, i));
        i += 1;
    }
    assert(entry@ =~= magic_entry(t as int));
    entry
}

/// Builds the table.
pub fn magic_values() -> (out: Vec<Vec<u8>>)
    ensures
        table_view(out@) == magic_table(),
        out@.len() == 32,
{
    let mut table: Vec<Vec<u8>> = Vec::new();
    let mut t: usize = 0;
    while t < 32
        invariant
            0 <= t <= 32,
            table@.len() == t,
            forall|k: int| 0 <= k < t ==> (#[trigger] table@[k])@ == magic_entry(k),
        decreases 32 - t,
    {
        table.push(build_entry(t));
        t += 1;
    }
    assert(table_view(table@) =~= magic_table());
    table
}

} // verus!
