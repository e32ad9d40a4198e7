//! Operations on the 32-byte working buffer of a field element.  Each takes the
//! offsets and lengths it works with as arguments, clamps what would reach past
//! the end of the buffer, and returns a buffer of exactly 32 bytes.

use vstd::prelude::*;

verus! {

/// `s` cut or zero-padded on the right to exactly 32 bytes.
pub open spec fn fit(s: Seq<u8>) -> Seq<u8> {
    Seq::new(32, |i: int| if i < s.len() { s[i] } else { 0u8 })
}

/// The longest run, at most `len` bytes, that fits in the buffer both from
/// `src` and from `dst`; zero when either offset lies outside the buffer.
pub open spec fn clamped_len(src: int, dst: int, len: int) -> int {
    let start = if src >= dst { src } else { dst };
    if src < 0 || dst < 0 || len <= 0 || start >= 32 {
        0
    } else if len <= 32 - start {
        len
    } else {
        32 - start
    }
}

/// The buffer after the first `n` positions of the runs at `src` and `dst`
/// were exchanged one by one, lowest position first.
pub open spec fn swapped(s: Seq<u8>, src: int, dst: int, n: nat) -> Seq<u8>
    decreases n,
{
    if n == 0 {
        s
    } else {
        let p = swapped(s, src, dst, (n - 1) as nat);
        let i = n - 1;
        p.update(src + i, p[dst + i]).update(dst + i, p[src + i])
    }
}

/// The buffer after the first `n` bytes of the run at `src` were copied one by
/// one, lowest position first, to the run at `dst`.
pub open spec fn copied(s: Seq<u8>, src: int, dst: int, n: nat) -> Seq<u8>
    decreases n,
{
    if n == 0 {
        s
    } else {
        let p = copied(s, src, dst, (n - 1) as nat);
        let i = n - 1;
        p.update(dst + i, p[src + i])
    }
}

/// The buffer with `run` written over it from position `at` on, as far as the
/// buffer reaches.
pub open spec fn overwritten(s: Seq<u8>, at: int, run: Seq<u8>) -> Seq<u8> {
    Seq::new(32, |i: int| if at <= i < at + run.len() { run[i - at] } else { s[i] })
}

/// The buffer with `run` inserted before position `at` (at the end when `at`
/// is past it), cut back to 32 bytes.
pub open spec fn inserted(s: Seq<u8>, at: int, run: Seq<u8>) -> Seq<u8> {
    let cut = if at < 0 { 0 } else if at > 32 { 32 } else { at };
    fit(s.subrange(0, cut) + run + s.subrange(cut, 32))
}

/// The buffer with the byte at `at` repeated over the `n` positions from `at`
/// on, as far as the buffer reaches.
pub open spec fn repeated_over(s: Seq<u8>, at: int, n: int) -> Seq<u8> {
    Seq::new(32, |i: int| if 0 <= at <= i < at + n { s[at] } else { s[i] })
}

/// The `n` bytes of the buffer from position `at` on.
pub open spec fn run_at(s: Seq<u8>, at: int, n: int) -> Seq<u8> {
    Seq::new(if n < 0 { 0 } else { n as nat }, |i: int| s[at + i])
}

/// `n` copies of `b`.
pub open spec fn run_of(b: u8, n: nat) -> Seq<u8> {
    Seq::new(n, |i: int| b)
}

/// The clamped length is no longer than asked for and fits from both offsets.
pub proof fn lemma_clamped_len_in_bounds(src: int, dst: int, len: int)
    ensures
        0 <= clamped_len(src, dst, len),
        clamped_len(src, dst, len) <= if len < 0 { 0 } else { len },
        clamped_len(src, dst, len) > 0 ==> 0 <= src && 0 <= dst
            && src + clamped_len(src, dst, len) <= 32
            && dst + clamped_len(src, dst, len) <= 32,
        0 <= src && 0 <= dst && 0 <= len && src + len <= 32 && dst + len <= 32
            ==> clamped_len(src, dst, len) == len,
{
}

/// Exchanging keeps the length, and touches nothing outside the two runs.
pub proof fn lemma_swapped_frame(s: Seq<u8>, src: int, dst: int, n: nat)
    requires
        0 <= src,
        0 <= dst,
        src + n <= s.len(),
        dst + n <= s.len(),
    ensures
        swapped(s, src, dst, n).len() == s.len(),
        forall|k: int|
            0 <= k < s.len() && !(src <= k < src + n) && !(dst <= k < dst + n)
                ==> swapped(s, src, dst, n)[k] == s[k],
        forall|k: int|
            0 <= k < s.len() && k >= src + n && k >= dst + n ==> swapped(s, src, dst, n)[k] == s[k],
    decreases n,
{
    if n > 0 {
        lemma_swapped_frame(s, src, dst, (n - 1) as nat);
    }
}

/// Where the two runs do not overlap, each ends up holding what the other
/// held.
pub proof fn lemma_swapped_disjoint(s: Seq<u8>, src: int, dst: int, n: nat)
    requires
        0 <= src,
        0 <= dst,
        src + n <= s.len(),
        dst + n <= s.len(),
        src + n <= dst || dst + n <= src,
    ensures
        forall|k: int| src <= k < src + n ==> swapped(s, src, dst, n)[k] == s[k - src + dst],
        forall|k: int| dst <= k < dst + n ==> swapped(s, src, dst, n)[k] == s[k - dst + src],
    decreases n,
{
    if n > 0 {
        let m = (n - 1) as nat;
        lemma_swapped_disjoint(s, src, dst, m);
        lemma_swapped_frame(s, src, dst, m);
        let p = swapped(s, src, dst, m);
        assert(p[src + m] == s[src + m]);
        assert(p[dst + m] == s[dst + m]);
    }
}

/// Copying keeps the length, and touches nothing outside the target run.
pub proof fn lemma_copied_frame(s: Seq<u8>, src: int, dst: int, n: nat)
    requires
        0 <= src,
        0 <= dst,
        src + n <= s.len(),
        dst + n <= s.len(),
    ensures
        copied(s, src, dst, n).len() == s.len(),
        forall|k: int|
            0 <= k < s.len() && !(dst <= k < dst + n) ==> copied(s, src, dst, n)[k] == s[k],
    decreases n,
{
    if n > 0 {
        lemma_copied_frame(s, src, dst, (n - 1) as nat);
    }
}

/// Where the target run does not start inside the source run, it ends up
/// holding what the source run held.
pub proof fn lemma_copied_exact(s: Seq<u8>, src: int, dst: int, n: nat)
    requires
        0 <= src,
        0 <= dst,
        src + n <= s.len(),
        dst + n <= s.len(),
        dst <= src || src + n <= dst,
    ensures
        forall|k: int| dst <= k < dst + n ==> copied(s, src, dst, n)[k] == s[k - dst + src],
    decreases n,
{
    if n > 0 {
        let m = (n - 1) as nat;
        lemma_copied_exact(s, src, dst, m);
        lemma_copied_frame(s, src, dst, m);
    }
}

/// How many bytes of a run asked for as `len` bytes from `src` and from `dst`
/// are worked on.
pub fn clamp_len(src: usize, dst: usize, len: usize) -> (out: usize)
    ensures
        out == clamped_len(src as int, dst as int, len as int),
{
    let start: usize = if src >= dst { src } else { dst };
    if len == 0 || start >= 32 {
        0
    } else if len <= 32 - start {
        len
    } else {
        32 - start
    }
}

/// Cuts or zero-pads `bytes` on the right to exactly 32 bytes.
pub fn fit_to_width(bytes: &Vec<u8>) -> (out: [u8; 32])
    ensures
        out@ == fit(bytes@),
{
    let mut out: [u8; 32] = [0u8; 32];
    let mut i: usize = 0;
    while i < 32
        invariant
            0 <= i <= 32,
            forall|k: int| 0 <= k < i ==> out@[k] == fit(bytes@)[k],
            forall|k: int| i <= k < 32 ==> out@[k] == 0u8,
        decreases 32 - i,
    {
        if i < bytes.len() {
            out[i] = bytes[i];
        }
        i += 1;
    }
    assert(out@ =~= fit(bytes@));
    out
}

/// Exchanges the run of `len` bytes at `src` with the run at `dst`, byte by
/// byte from the lowest position; `len` is clamped to what fits from both.
pub fn swap_range(bytes: &[u8; 32], src: usize, dst: usize, len: usize) -> (out: [u8; 32])
    ensures
        out@ == swapped(
            bytes@,
            src as int,
            dst as int,
            clamped_len(src as int, dst as int, len as int) as nat,
        ),
{
    let n: usize = clamp_len(src, dst, len);
    let mut out: [u8; 32] = *bytes;
    let mut i: usize = 0;
    while i < n
        invariant
            0 <= i <= n,
            n > 0 ==> src + n <= 32 && dst + n <= 32,
            out@ == swapped(bytes@, src as int, dst as int, i as nat),
        decreases n - i,
    {
        let a: u8 = out[src + i];
        let b: u8 = out[dst + i];
        out[src + i] = b;
        out[dst + i] = a;
        i += 1;
    }
    out
}

/// Copies the run of `len` bytes at `src` over the run at `dst`, byte by byte
/// from the lowest position; `len` is clamped to what fits from both.
pub fn copy_range(bytes: &[u8; 32], src: usize, dst: usize, len: usize) -> (out: [u8; 32])
    ensures
        out@ == copied(
            bytes@,
            src as int,
            dst as int,
            clamped_len(src as int, dst as int, len as int) as nat,
        ),
{
    let n: usize = clamp_len(src, dst, len);
    let mut out: [u8; 32] = *bytes;
    let mut i: usize = 0;
    while i < n
        invariant
            0 <= i <= n,
            n > 0 ==> src + n <= 32 && dst + n <= 32,
            out@ == copied(bytes@, src as int, dst as int, i as nat),
        decreases n - i,
    {
        let a: u8 = out[src + i];
        out[dst + i] = a;
        i += 1;
    }
    out
}

/// Writes `run` over the buffer from position `at` on; what would fall past
/// the end is dropped.
pub fn overwrite_run(bytes: &[u8; 32], at: usize, run: &Vec<u8>) -> (out: [u8; 32])
    ensures
        out@ == overwritten(bytes@, at as int, run@),
{
    let mut out: [u8; 32] = *bytes;
    let mut i: usize = 0;
    while i < run.len() && at < 32 && i < 32 - at
        invariant
            0 <= i <= run.len(),
            at < 32 ==> i <= 32 - at,
            forall|k: int| 0 <= k < 32 && at <= k < at + i ==> out@[k] == run@[k - at],
            forall|k: int| 0 <= k < 32 && !(at <= k < at + i) ==> out@[k] == bytes@[k],
        decreases run.len() - i,
    {
        out[at + i] = run[i];
        i += 1;
    }
    assert(out@ =~= overwritten(bytes@, at as int, run@));
    out
}

/// Inserts `run` before position `at` and cuts the result back to 32 bytes.
pub fn insert_run(bytes: &[u8; 32], at: usize, run: &Vec<u8>) -> (out: [u8; 32])
    ensures
        out@ == inserted(bytes@, at as int, run@),
{
    let cut: usize = if at > 32 { 32 } else { at };
    let mut joined: Vec<u8> = Vec::new();
    let mut i: usize = 0;
    while i < cut
        invariant
            0 <= i <= cut <= 32,
            joined@ == bytes@.subrange(0, i as int),
        decreases cut - i,
    {
        joined.push(bytes[i]);
        i += 1;
    }
    let mut j: usize = 0;
    while j < run.len() && j < 32
        invariant
            0 <= j <= run.len(),
            j <= 32,
            cut <= 32,
            joined@ == bytes@.subrange(0, cut as int) + run@.subrange(0, j as int),
        decreases run.len() - j,
    {
        joined.push(run[j]);
        j += 1;
    }
    let mut k: usize = cut;
    while k < 32
        invariant
            cut <= k <= 32,
            j <= run.len(),
            j == run.len() || j == 32,
            joined@ == bytes@.subrange(0, cut as int) + run@.subrange(0, j as int)
                + bytes@.subrange(cut as int, k as int),
        decreases 32 - k,
    {
        joined.push(bytes[k]);
        k += 1;
    }
    let out = fit_to_width(&joined);
    assert(out@ =~= inserted(bytes@, at as int, run@));
    out
}

/// Takes the run of `len` bytes at `src`, clamped to what fits from both
/// offsets, and inserts a copy of it before position `dst`; the result is cut
/// back to 32 bytes.
pub fn inter_splice(bytes: &[u8; 32], src: usize, dst: usize, len: usize) -> (out: [u8; 32])
    ensures
        out@ == inserted(
            bytes@,
            dst as int,
            run_at(bytes@, src as int, clamped_len(src as int, dst as int, len as int)),
        ),
{
    let n: usize = clamp_len(src, dst, len);
    let start: usize = if n == 0 { 0 } else { src };
    let mut run: Vec<u8> = Vec::new();
    let mut i: usize = 0;
    while i < n
        invariant
            0 <= i <= n,
            start + n <= 32,
            run@ == run_at(bytes@, start as int, i as int),
        decreases n - i,
    {
        run.push(bytes[start + i]);
        assert(run@ =~= run_at(bytes@, start as int, i + 1));
        i += 1;
    }
    assert(run@ =~= run_at(bytes@, src as int, n as int));
    insert_run(bytes, dst, &run)
}

/// Repeats the byte at `at` over the `len` positions from `at` on; what would
/// fall past the end is dropped, and nothing changes when `at` is outside the
/// buffer.
pub fn repeat_over(bytes: &[u8; 32], at: usize, len: usize) -> (out: [u8; 32])
    ensures
        out@ == repeated_over(bytes@, at as int, len as int),
{
    let mut out: [u8; 32] = *bytes;
    if at >= 32 {
        assert(out@ =~= repeated_over(bytes@, at as int, len as int));
        return out;
    }
    let val: u8 = bytes[at];
    let n: usize = if len <= 32 - at { len } else { 32 - at };
    let mut i: usize = 0;
    while i < n
        invariant
            0 <= i <= n,
            at + n <= 32,
            val == bytes@[at as int],
            forall|k: int| 0 <= k < 32 && at <= k < at + i ==> out@[k] == val,
            forall|k: int| 0 <= k < 32 && !(at <= k < at + i) ==> out@[k] == bytes@[k],
        decreases n - i,
    {
        out[at + i] = val;
        i += 1;
    }
    assert(out@ =~= repeated_over(bytes@, at as int, len as int));
    out
}

/// A run of `n` copies of `b`.
pub fn make_run(b: u8, n: usize) -> (out: Vec<u8>)
    ensures
        out@ == run_of(b, n as nat),
{
    let mut out: Vec<u8> = Vec::new();
    let mut i: usize = 0;
    while i < n
        invariant
            0 <= i <= n,
            out@ == run_of(b, i as nat),
        decreases n - i,
    {
        out.push(b);
        assert(out@ =~= run_of(b, (i + 1) as nat));
        i += 1;
    }
    out
}

} // verus!
