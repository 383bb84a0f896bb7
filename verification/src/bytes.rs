//! Byte sequences: fixed-width fields, magic numbers and the text they carry.

use vstd::prelude::*;
use vstd::utf8::*;

verus! {

/// Whether `b` begins with `m`.
pub open spec fn begins(b: Seq<u8>, m: Seq<u8>) -> bool {
    m.len() <= b.len() && b.take(m.len() as int) == m
}

/// Whether `b` begins with `m`.
pub fn begins_with(b: &[u8], m: &[u8]) -> (r: bool)
    ensures
        r == begins(b@, m@),
{
    if m.len() > b.len() {
        return false;
    }
    let mut i: usize = 0;
    while i < m.len()
        invariant
            i <= m@.len() <= b@.len(),
            forall|j: int| 0 <= j < i ==> b@[j] == m@[j],
        decreases m.len() - i,
    {
        if b[i] != m[i] {
            assert(b@.take(m@.len() as int)[i as int] != m@[i as int]);
            return false;
        }
        i = i + 1;
    }
    assert(b@.take(m@.len() as int) =~= m@);
    true
}

/// The `len` bytes of `b` from `at` on, where there are as many.
pub open spec fn span(b: Seq<u8>, at: int, len: int) -> Option<Seq<u8>> {
    if 0 <= at && 0 <= len && at + len <= b.len() {
        Some(b.subrange(at, at + len))
    } else {
        None
    }
}

/// The view of an optional byte slice.
pub open spec fn opt_bytes(o: Option<&[u8]>) -> Option<Seq<u8>> {
    match o {
        Some(s) => Some(s@),
        None => None,
    }
}

/// [`span`] of a slice.
pub fn span_of<'a>(b: &'a [u8], at: usize, len: usize) -> (r: Option<&'a [u8]>)
    ensures
        opt_bytes(r) == span(b@, at as int, len as int),
        r is Some ==> at + len <= usize::MAX,
{
    if at <= b.len() && len <= b.len() - at {
        Some(vstd::slice::slice_subrange(b, at, at + len))
    } else {
        None
    }
}

/// A copy of a slice.
pub fn copy_of(b: &[u8]) -> (r: Vec<u8>)
    ensures
        r@ == b@,
{
    vstd::slice::slice_to_vec(b)
}

/// The little-endian 16-bit field at `at`; zero where it does not fit.
pub open spec fn le16(b: Seq<u8>, at: int) -> u16 {
    if 0 <= at && at + 2 <= b.len() {
        (b[at] + 256 * b[at + 1]) as u16
    } else {
        0
    }
}

/// The little-endian 32-bit field at `at`; zero where it does not fit.
pub open spec fn le32(b: Seq<u8>, at: int) -> u32 {
    if 0 <= at && at + 4 <= b.len() {
        (b[at] + 0x100 * b[at + 1] + 0x1_0000 * b[at + 2] + 0x100_0000 * b[at + 3]) as u32
    } else {
        0
    }
}

/// The little-endian 64-bit field at `at`; zero where it does not fit.
pub open spec fn le64(b: Seq<u8>, at: int) -> u64 {
    if 0 <= at && at + 8 <= b.len() {
        (le32(b, at) + 0x1_0000_0000 * le32(b, at + 4)) as u64
    } else {
        0
    }
}

/// The big-endian 32-bit field at `at`; zero where it does not fit.
pub open spec fn be32(b: Seq<u8>, at: int) -> u32 {
    if 0 <= at && at + 4 <= b.len() {
        (b[at + 3] + 0x100 * b[at + 2] + 0x1_0000 * b[at + 1] + 0x100_0000 * b[at]) as u32
    } else {
        0
    }
}

/// [`le16`] of a slice.
pub fn le16_of(b: &[u8], at: usize) -> (r: u16)
    ensures
        r == le16(b@, at as int),
{
    if at <= b.len() && 2 <= b.len() - at {
        b[at] as u16 + 256 * (b[at + 1] as u16)
    } else {
        0
    }
}

/// [`le32`] of a slice.
pub fn le32_of(b: &[u8], at: usize) -> (r: u32)
    ensures
        r == le32(b@, at as int),
{
    if at <= b.len() && 4 <= b.len() - at {
        b[at] as u32 + 0x100 * (b[at + 1] as u32) + 0x1_0000 * (b[at + 2] as u32) + 0x100_0000 * (b[at
            + 3] as u32)
    } else {
        0
    }
}

/// [`le64`] of a slice.
pub fn le64_of(b: &[u8], at: usize) -> (r: u64)
    ensures
        r == le64(b@, at as int),
{
    if at <= b.len() && 8 <= b.len() - at {
        le32_of(b, at) as u64 + 0x1_0000_0000 * (le32_of(b, at + 4) as u64)
    } else {
        0
    }
}

/// [`be32`] of a slice.
pub fn be32_of(b: &[u8], at: usize) -> (r: u32)
    ensures
        r == be32(b@, at as int),
{
    if at <= b.len() && 4 <= b.len() - at {
        b[at + 3] as u32 + 0x100 * (b[at + 2] as u32) + 0x1_0000 * (b[at + 1] as u32) + 0x100_0000 * (
        b[at] as u32)
    } else {
        0
    }
}

/// The first position of `needle` at or after `from`.
pub open spec fn first_byte(b: Seq<u8>, needle: u8, from: int) -> Option<int>
    decreases b.len() - from,
{
    if from < 0 || from >= b.len() {
        None
    } else if b[from] == needle {
        Some(from)
    } else {
        first_byte(b, needle, from + 1)
    }
}

/// [`first_byte`] of a slice.
pub fn find_byte(b: &[u8], needle: u8, from: usize) -> (r: Option<usize>)
    ensures
        match r {
            Some(i) => first_byte(b@, needle, from as int) == Some(i as int) && from <= i < b@.len(),
            None => first_byte(b@, needle, from as int) is None,
        },
{
    let mut i: usize = from;
    while i < b.len()
        invariant
            from <= i,
            first_byte(b@, needle, from as int) == first_byte(b@, needle, i as int),
        decreases b.len() - i,
    {
        if b[i] == needle {
            return Some(i);
        }
        i = i + 1;
    }
    None
}

/// Each byte as the character of the same code.
pub open spec fn widened(b: Seq<u8>) -> Seq<char> {
    b.map_values(|x: u8| x as char)
}

/// [`widened`] of a slice.
pub fn widened_of(b: &[u8]) -> (r: Vec<char>)
    ensures
        r@ == widened(b@),
{
    let mut out: Vec<char> = Vec::new();
    let mut i: usize = 0;
    while i < b.len()
        invariant
            i <= b@.len(),
            out@ == widened(b@).take(i as int),
        decreases b.len() - i,
    {
        out.push(b[i] as char);
        assert(widened(b@).take(i as int).push(b@[i as int] as char) =~= widened(b@).take(i + 1));
        i = i + 1;
    }
    assert(widened(b@).take(b@.len() as int) =~= widened(b@));
    out
}

/// What `String::from_utf8_lossy` makes of bytes that are not well-formed UTF-8.
pub uninterp spec fn mended(bytes: Seq<u8>) -> Seq<char>;

/// The text that bytes hold: well-formed UTF-8 as it stands, anything else mended.
pub open spec fn utf8_lossy(bytes: Seq<u8>) -> Seq<char> {
    if valid_utf8(bytes) {
        decode_utf8(bytes)
    } else {
        mended(bytes)
    }
}

/// `String::from_utf8_lossy`: well-formed UTF-8 is decoded as it stands; the
/// replacements made elsewhere are a function of the bytes alone.
#[verifier::external_body]
pub(crate) fn lossy_text(bytes: &[u8]) -> (r: String)
    ensures
        r@ == if valid_utf8(bytes@) {
            decode_utf8(bytes@)
        } else {
            mended(bytes@)
        },
{
    String::from_utf8_lossy(bytes).into_owned()
}

/// `std::str::from_utf8`: succeeds exactly on well-formed UTF-8, and then decodes it.
#[verifier::external_body]
pub(crate) fn utf8_text(bytes: &[u8]) -> (r: Option<String>)
    ensures
        r is Some == valid_utf8(bytes@),
        r matches Some(s) ==> s@ == decode_utf8(bytes@),
{
    std::str::from_utf8(bytes).ok().map(|s| s.to_owned())
}

/// A number reads back from its bytes: the least significant first, or last.
pub proof fn lemma_numbers_read_back(n: u32, b: Seq<u8>, at: int)
    requires
        0 <= at,
        at + 4 <= b.len(),
    ensures
        b[at] == n % 0x100 && b[at + 1] == n / 0x100 % 0x100 && b[at + 2] == n / 0x1_0000 % 0x100
            && b[at + 3] == n / 0x100_0000 ==> le32(b, at) == n,
        b[at + 3] == n % 0x100 && b[at + 2] == n / 0x100 % 0x100 && b[at + 1] == n / 0x1_0000 % 0x100
            && b[at] == n / 0x100_0000 ==> be32(b, at) == n,
        n <= 0xffff && b[at] == n % 0x100 && b[at + 1] == n / 0x100 ==> le16(b, at) == n,
{
}

} // verus!
