//! The index of an `.xz` stream, as far as the decoder's own footer test needs it.
//!
//! A stream is a header of 12 bytes, blocks, an index that records the size of each block,
//! and a footer. The decoder takes the footer's account of the index's size, adds one to it
//! and then compares; the one account that this does not fit into is looked for beforehand.

use vstd::prelude::*;

use crate::bytes::{le32, le32_of};

verus! {

/// The number that starts at `at`, seven bits to a byte, and how many bytes it takes: at most
/// `room` of them.
pub open spec fn multibyte(b: Seq<u8>, at: int, room: nat) -> Option<(nat, nat)>
    decreases room,
{
    if room == 0 || at < 0 || at >= b.len() {
        None
    } else if b[at] < 0x80 {
        Some((b[at] as nat, 1))
    } else {
        match multibyte(b, at + 1, (room - 1) as nat) {
            Some((rest, len)) => Some(((b[at] - 0x80 + 0x80 * rest) as nat, len + 1)),
            None => None,
        }
    }
}

/// `n` rounded up to a multiple of four.
pub open spec fn in_words(n: nat) -> nat {
    n + (4 - n % 4) as nat % 4
}

/// Where `count` records from `at` on end, if the blocks that they record, none of them
/// empty, reach on top of `sum` bytes exactly to `place`.
pub open spec fn records_end(b: Seq<u8>, at: int, count: nat, sum: nat, place: nat) -> Option<int>
    decreases count,
{
    if count == 0 {
        if sum == place {
            Some(at)
        } else {
            None
        }
    } else {
        match multibyte(b, at, 9) {
            None => None,
            Some((size, len)) => match multibyte(b, at + len, 9) {
                None => None,
                Some((_, more)) => if size == 0 || sum + in_words(size) > place {
                    None
                } else {
                    records_end(
                        b,
                        at + len + more,
                        (count - 1) as nat,
                        sum + in_words(size),
                        place,
                    )
                },
            },
        }
    }
}

/// Where the records of an index at `at` end, if it records the blocks before it.
pub open spec fn index_end(b: Seq<u8>, at: int) -> Option<int> {
    if at < 12 || at % 4 != 0 || at >= b.len() || b[at] != 0 {
        None
    } else {
        match multibyte(b, at + 1, 9) {
            None => None,
            Some((count, len)) => records_end(b, at + 1 + len, count, 12, at as nat),
        }
    }
}

/// One step of the checksum.
pub open spec fn crc_bit(c: u32) -> u32 {
    if c & 1 == 1 {
        (c >> 1) ^ 0xedb8_8320
    } else {
        c >> 1
    }
}

/// The checksum after one more byte.
pub open spec fn crc_byte(c: u32, x: u8) -> u32 {
    crc_bit(crc_bit(crc_bit(crc_bit(crc_bit(crc_bit(crc_bit(crc_bit(c ^ x as u32))))))))
}

/// The checksum of the bytes from `from` up to `to`, before its last inversion.
pub open spec fn crc_over(b: Seq<u8>, from: int, to: int) -> u32
    decreases to - from,
{
    if from >= to {
        0xffff_ffff
    } else {
        crc_byte(crc_over(b, from, to - 1), b[to - 1])
    }
}

/// Whether an index from `at` to the end of its records is whole: NULs fill it up to a
/// multiple of four, and its checksum follows.
pub open spec fn is_whole(b: Seq<u8>, at: int, end: int) -> bool {
    let filled = in_words(end as nat) as int;
    &&& filled + 4 <= b.len()
    &&& forall|i: int| end <= i < filled ==> b[i] == 0
    &&& le32(b, filled) == crc_over(b, at, filled) ^ 0xffff_ffff
}

/// Whether the footer behind an index at `at` gives a size that cannot be added to. Between
/// them stand padding and the checksums of both.
pub open spec fn footer_overflows(b: Seq<u8>, at: int) -> bool {
    match index_end(b, at) {
        Some(end) => is_whole(b, at, end) && le32(b, (in_words(end as nat) + 8) as int)
            == 0xffff_ffff,
        None => false,
    }
}

/// Whether no footer that a decoder of the stream could come to overflows.
pub open spec fn is_steady(b: Seq<u8>) -> bool {
    forall|at: int| !footer_overflows(b, at)
}

fn multibyte_of(b: &[u8], at: usize, room: u8) -> (r: Option<(u64, usize)>)
    requires
        room <= 9,
        at <= b@.len(),
    ensures
        match r {
            Some((v, len)) => {
                &&& multibyte(b@, at as int, room as nat) == Some((v as nat, len as nat))
                &&& at + len <= b@.len()
                &&& 1 <= len
                &&& bound(room as nat, v as nat)
            },
            None => multibyte(b@, at as int, room as nat) is None,
        },
    decreases room,
{
    if room == 0 || at >= b.len() {
        return None;
    }
    let byte: u8 = b[at];
    if byte < 0x80 {
        return Some((byte as u64, 1));
    }
    match multibyte_of(b, at + 1, room - 1) {
        Some((rest, len)) => Some(((byte - 0x80) as u64 + 0x80 * rest, len + 1)),
        None => None,
    }
}

/// That a number of so many bytes is no larger than those can hold.
spec fn bound(room: nat, v: nat) -> bool {
    &&& room == 1 ==> v < 0x80
    &&& room == 2 ==> v < 0x4000
    &&& room == 3 ==> v < 0x20_0000
    &&& room == 4 ==> v < 0x1000_0000
    &&& room == 5 ==> v < 0x8_0000_0000
    &&& room == 6 ==> v < 0x400_0000_0000
    &&& room == 7 ==> v < 0x2_0000_0000_0000
    &&& room == 8 ==> v < 0x100_0000_0000_0000
    &&& room == 9 ==> v < 0x8000_0000_0000_0000
}

fn records_end_of(b: &[u8], from: usize, records: u64, place: usize) -> (r: Option<usize>)
    requires
        from <= b@.len(),
        12 <= place <= b@.len(),
    ensures
        match r {
            Some(end) => records_end(b@, from as int, records as nat, 12, place as nat) == Some(
                end as int,
            ) && from <= end <= b@.len(),
            None => records_end(b@, from as int, records as nat, 12, place as nat) is None,
        },
{
    let total: usize = b.len();
    let mut at: usize = from;
    let mut left: u64 = records;
    let mut sum: usize = 12;
    while left > 0
        invariant
            from <= at <= total == b@.len(),
            12 <= sum <= place <= b@.len(),
            records_end(b@, from as int, records as nat, 12, place as nat) == records_end(
                b@,
                at as int,
                left as nat,
                sum as nat,
                place as nat,
            ),
        decreases left,
    {
        let (size, len) = match multibyte_of(b, at, 9) {
            Some(pair) => pair,
            None => {
                return None;
            },
        };
        let (_, more) = match multibyte_of(b, at + len, 9) {
            Some(pair) => pair,
            None => {
                return None;
            },
        };
        let words: u64 = size + (4 - size % 4) % 4;
        if size == 0 || words > (place - sum) as u64 {
            return None;
        }
        sum = sum + words as usize;
        at = at + len + more;
        left = left - 1;
    }
    if sum == place {
        Some(at)
    } else {
        None
    }
}

fn crc_bit_of(c: u32) -> (r: u32)
    ensures
        r == crc_bit(c),
{
    if c & 1 == 1 {
        (c >> 1) ^ 0xedb8_8320
    } else {
        c >> 1
    }
}

fn crc_byte_of(c: u32, x: u8) -> (r: u32)
    ensures
        r == crc_byte(c, x),
{
    let half = crc_bit_of(crc_bit_of(crc_bit_of(crc_bit_of(c ^ x as u32))));
    crc_bit_of(crc_bit_of(crc_bit_of(crc_bit_of(half))))
}

fn is_whole_of(b: &[u8], at: usize, end: usize, filled: usize) -> (r: bool)
    requires
        at <= end <= filled,
        filled + 4 <= b@.len(),
        filled == in_words(end as nat),
    ensures
        r == is_whole(b@, at as int, end as int),
{
    let mut i: usize = end;
    while i < filled
        invariant
            end <= i <= filled,
            filled == in_words(end as nat),
            filled + 4 <= b@.len(),
            forall|k: int| end <= k < i ==> b@[k] == 0,
        decreases filled - i,
    {
        if b[i] != 0 {
            return false;
        }
        i = i + 1;
    }
    let mut c: u32 = 0xffff_ffff;
    let mut j: usize = at;
    while j < filled
        invariant
            at <= j <= filled,
            filled + 4 <= b@.len(),
            c == crc_over(b@, at as int, j as int),
        decreases filled - j,
    {
        c = crc_byte_of(c, b[j]);
        j = j + 1;
    }
    le32_of(b, filled) == c ^ 0xffff_ffff
}

fn footer_overflows_at(b: &[u8], at: usize) -> (r: bool)
    requires
        12 <= at < b@.len(),
        at % 4 == 0,
    ensures
        r == footer_overflows(b@, at as int),
{
    if b[at] != 0 {
        return false;
    }
    let (count, len) = match multibyte_of(b, at + 1, 9) {
        Some(pair) => pair,
        None => {
            return false;
        },
    };
    match records_end_of(b, at + 1 + len, count, at) {
        Some(end) => {
            let padding: usize = (4 - end % 4) % 4;
            // Past the end there is no footer.
            if b.len() - end < 12 + padding {
                false
            } else {
                le32_of(b, end + padding + 8) == 0xffff_ffff && is_whole_of(b, at, end, end + padding)
            }
        },
        None => false,
    }
}

/// Whether no footer that a decoder of the stream could come to overflows.
pub fn is_steady_of(b: &[u8]) -> (r: bool)
    ensures
        r == is_steady(b@),
{
    let mut at: usize = 12;
    while at < b.len()
        invariant
            12 <= at,
            at % 4 == 0,
            forall|k: int| k < at ==> !footer_overflows(b@, k),
        decreases b@.len() - at,
    {
        if footer_overflows_at(b, at) {
            return false;
        }
        assert forall|k: int| k < at + 4 implies !footer_overflows(b@, k) by {
            if k > at {
                assert(k % 4 != 0);
            }
        }
        if b.len() - at <= 4 {
            assert forall|k: int| !footer_overflows(b@, k) by {
                if k >= at + 4 {
                    assert(k >= b@.len());
                }
            }
            return true;
        }
        at = at + 4;
    }
    true
}

} // verus!
