//! Little-endian integers and UTF-8 text in byte buffers.
use vstd::prelude::*;
use vstd::utf8::{decode_utf8, is_continuation_byte, valid_utf8};

verus! {

/// The 16-bit little-endian integer at `p`.
pub open spec fn le16(s: Seq<u8>, p: int) -> int {
    s[p] as int + 256 * s[p + 1] as int
}

/// The 32-bit little-endian integer at `p`.
pub open spec fn le32(s: Seq<u8>, p: int) -> int {
    s[p] as int + 256 * s[p + 1] as int + 65536 * s[p + 2] as int + 16777216 * s[p + 3] as int
}

/// Reads the 16-bit little-endian integer at `p`.
pub fn read_u16(s: &[u8], p: usize) -> (r: u16)
    requires
        p + 2 <= s@.len(),
    ensures
        r as int == le16(s@, p as int),
{
    s[p] as u16 + (s[p + 1] as u16) * 256
}

/// Reads the 32-bit little-endian integer at `p`.
pub fn read_u32(s: &[u8], p: usize) -> (r: u32)
    requires
        p + 4 <= s@.len(),
    ensures
        r as int == le32(s@, p as int),
{
    s[p] as u32 + (s[p + 1] as u32) * 256 + (s[p + 2] as u32) * 65536 + (s[p + 3] as u32)
        * 16777216
}

} // verus!

verus! {

/// Copies the `n` bytes that start at `p`.
pub fn copy_range(s: &[u8], p: usize, n: usize) -> (r: Vec<u8>)
    requires
        p + n <= s@.len(),
    ensures
        r@ == s@.subrange(p as int, p + n),
{
    let len = s.len();
    let mut r: Vec<u8> = Vec::with_capacity(n);
    let mut i: usize = 0;
    while i < n
        invariant
            p + n <= s@.len(),
            len == s@.len(),
            i <= n,
            r@ == s@.subrange(p as int, p + i),
        decreases n - i,
    {
        r.push(s[p + i]);
        i = i + 1;
        assert(r@ =~= s@.subrange(p as int, p + i));
    }
    r
}

/// Appends `b` to `out`.
pub fn push_all(out: &mut Vec<u8>, b: &[u8])
    ensures
        final(out)@ == old(out)@ + b@,
{
    let ghost start = out@;
    let mut i: usize = 0;
    while i < b.len()
        invariant
            i <= b@.len(),
            out@ == start + b@.take(i as int),
        decreases b@.len() - i,
    {
        out.push(b[i]);
        i = i + 1;
        assert(out@ =~= start + b@.take(i as int));
    }
    assert(b@.take(i as int) =~= b@);
}

/// Compares two byte runs.
pub fn bytes_equal(a: &[u8], b: &[u8]) -> (r: bool)
    ensures
        r == (a@ == b@),
{
    if a.len() != b.len() {
        return false;
    }
    let mut i: usize = 0;
    while i < a.len()
        invariant
            a@.len() == b@.len(),
            i <= a@.len(),
            forall|j: int| 0 <= j < i ==> a@[j] == b@[j],
        decreases a@.len() - i,
    {
        if a[i] != b[i] {
            return false;
        }
        i = i + 1;
    }
    assert(a@ =~= b@);
    true
}

/// Relies on `String::from_utf8`: it succeeds exactly on valid UTF-8 and then holds the
/// decoded characters.
#[verifier::external_body]
pub(crate) fn utf8_string(bytes: Vec<u8>) -> (r: Option<String>)
    ensures
        r.is_some() == valid_utf8(bytes@),
        r.is_some() ==> r.unwrap()@ == decode_utf8(bytes@),
{
    String::from_utf8(bytes).ok()
}


/// A single ASCII byte is valid UTF-8.
pub proof fn lemma_ascii_byte_valid(b: u8)
    requires
        b < 128,
    ensures
        valid_utf8(seq![b]),
{
    reveal_with_fuel(valid_utf8, 2);
    assert(seq![b].subrange(1, 1) =~= Seq::<u8>::empty());
}

/// The run between two positions of a valid UTF-8 run is valid when the byte before the
/// start and the byte at the end are ASCII (or the positions are the run's ends).
pub proof fn lemma_valid_between(n: Seq<u8>, a: int, b: int)
    requires
        valid_utf8(n),
        0 <= a <= b <= n.len(),
        a > 0 ==> n[a - 1] < 128,
        b < n.len() ==> n[b] < 128,
    ensures
        valid_utf8(n.subrange(a, b)),
{
    let tail = n.subrange(a, n.len() as int);
    if a > 0 {
        let from = n.subrange(a - 1, n.len() as int);
        vstd::utf8::is_char_boundary_iff_not_is_continuation_byte(n, a - 1);
        vstd::utf8::valid_utf8_split(n, a - 1);
        assert(valid_utf8(from));
        assert(from.subrange(1, from.len() as int) =~= tail);
    } else {
        vstd::utf8::is_char_boundary_start_end_of_seq(n);
        vstd::utf8::valid_utf8_split(n, 0);
        assert(n.subrange(0, n.len() as int) =~= tail);
    }
    assert(valid_utf8(tail));
    if b < n.len() {
        assert(tail[b - a] == n[b]);
        assert(!is_continuation_byte(tail[b - a]));
        vstd::utf8::is_char_boundary_iff_not_is_continuation_byte(tail, b - a);
    } else {
        vstd::utf8::is_char_boundary_start_end_of_seq(tail);
    }
    vstd::utf8::valid_utf8_split(tail, b - a);
    assert(tail.subrange(0, b - a) =~= n.subrange(a, b));
}


/// The two little-endian bytes of `x`.
pub open spec fn le16_bytes(x: int) -> Seq<u8> {
    seq![(x % 256) as u8, ((x / 256) % 256) as u8]
}

/// The four little-endian bytes of `x`.
pub open spec fn le32_bytes(x: int) -> Seq<u8> {
    seq![
        (x % 256) as u8,
        ((x / 256) % 256) as u8,
        ((x / 65536) % 256) as u8,
        ((x / 16777216) % 256) as u8,
    ]
}

/// Appends the two little-endian bytes of `x`.
pub fn push_u16(out: &mut Vec<u8>, x: u16)
    ensures
        final(out)@ == old(out)@ + le16_bytes(x as int),
{
    let ghost start = out@;
    out.push((x % 256) as u8);
    out.push(((x / 256) % 256) as u8);
    assert(out@ =~= start + le16_bytes(x as int));
}

/// Appends the four little-endian bytes of `x`.
pub fn push_u32(out: &mut Vec<u8>, x: u32)
    ensures
        final(out)@ == old(out)@ + le32_bytes(x as int),
{
    let ghost start = out@;
    out.push((x % 256) as u8);
    out.push(((x / 256) % 256) as u8);
    out.push(((x / 65536) % 256) as u8);
    out.push(((x / 16777216) % 256) as u8);
    assert(out@ =~= start + le32_bytes(x as int));
}

/// Writing a 16-bit integer and reading it back gives it unchanged.
pub proof fn lemma_le16_round_trip(s: Seq<u8>, p: int, x: int)
    requires
        0 <= x < 0x10000,
        0 <= p,
        p + 2 <= s.len(),
        s.subrange(p, p + 2) == le16_bytes(x),
    ensures
        le16(s, p) == x,
{
    assert(s[p] == s.subrange(p, p + 2)[0]);
    assert(s[p + 1] == s.subrange(p, p + 2)[1]);
}

/// Writing a 32-bit integer and reading it back gives it unchanged.
pub proof fn lemma_le32_round_trip(s: Seq<u8>, p: int, x: int)
    requires
        0 <= x < 0x1_0000_0000,
        0 <= p,
        p + 4 <= s.len(),
        s.subrange(p, p + 4) == le32_bytes(x),
    ensures
        le32(s, p) == x,
{
    let w = s.subrange(p, p + 4);
    assert(s[p] == w[0] && s[p + 1] == w[1] && s[p + 2] == w[2] && s[p + 3] == w[3]);
}

} // verus!
