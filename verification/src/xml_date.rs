//! The dates of an XML property list, as far as the reader's own arithmetic needs them.
//!
//! A date carries an offset, and the reader takes it to universal time. The last day that it
//! knows may run over its end on the way; a document that holds such a date is told
//! beforehand.

use vstd::prelude::*;

use crate::bytes::{find_byte, first_byte, widened, widened_of};
use crate::num::{number, number_of};

verus! {

/// The number that two digits write.
pub open spec fn pair(t: Seq<u8>, i: int) -> int {
    (t[i] - 0x30) * 10 + (t[i + 1] - 0x30)
}

/// Whether a text is a date on the last day, with an offset that takes it past that day:
/// a date, a separator and a time, maybe with a fraction, then the sign, hours and minutes.
pub open spec fn is_late(t: Seq<u8>) -> bool {
    let n = t.len() as int;
    &&& n >= 25
    &&& t.take(10) == seq![0x39u8, 0x39, 0x39, 0x39, 0x2d, 0x31, 0x32, 0x2d, 0x33, 0x31]
    &&& t[n - 6] == 0x2d
    &&& pair(t, 11) * 60 + pair(t, 14) + pair(t, n - 5) * 60 + pair(t, n - 2) >= 1440
}

/// Whether `date` stands at `i` as the name of an element does: behind the bracket that
/// opens the tag or behind a prefix, and before a space or the bracket that closes it.
pub open spec fn names_date(b: Seq<u8>, i: int) -> bool {
    &&& 1 <= i
    &&& i + 5 <= b.len()
    &&& b[i - 1] == 0x3c || b[i - 1] == 0x3a
    &&& b[i] == 0x64
    &&& b[i + 1] == 0x61
    &&& b[i + 2] == 0x74
    &&& b[i + 3] == 0x65
    &&& b[i + 4] == 0x3e || b[i + 4] == 0x20 || b[i + 4] == 0x09 || b[i + 4] == 0x0a || b[i + 4]
        == 0x0d
}

/// Where a tag closes, seen from `i`, inside the quotes `quote` or, where that is zero,
/// inside none.
pub open spec fn tag_end(b: Seq<u8>, i: int, quote: u8) -> Option<int>
    decreases b.len() - i,
{
    if i < 0 || i >= b.len() {
        None
    } else if quote == 0 {
        if b[i] == 0x3e {
            Some(i)
        } else if b[i] == 0x27 || b[i] == 0x22 {
            tag_end(b, i + 1, b[i])
        } else {
            tag_end(b, i + 1, 0)
        }
    } else if b[i] == quote {
        tag_end(b, i + 1, 0)
    } else {
        tag_end(b, i + 1, quote)
    }
}

/// The first closing bracket at or after `i` that two bytes `c` precede.
pub open spec fn closed_by(b: Seq<u8>, i: int, c: u8) -> Option<int>
    decreases b.len() - i,
{
    if i < 2 || i >= b.len() {
        None
    } else if b[i] == 0x3e && b[i - 1] == c && b[i - 2] == c {
        Some(i)
    } else {
        closed_by(b, i + 1, c)
    }
}

/// The first `?>` at or after `i`, by its bracket.
pub open spec fn instruction_end(b: Seq<u8>, i: int) -> Option<int>
    decreases b.len() - i,
{
    if i < 1 || i >= b.len() {
        None
    } else if b[i] == 0x3e && b[i - 1] == 0x3f {
        Some(i)
    } else {
        instruction_end(b, i + 1)
    }
}

/// What a reference stands for: a character by its number, or one of the five that have a
/// name. One that is not ASCII has no place in a date; any two bytes show that.
pub open spec fn referred(name: Seq<u8>) -> Seq<u8> {
    if name.len() >= 1 && name[0] == 0x23 {
        let n = if name.len() >= 2 && name[1] == 0x78 {
            number(widened(name.skip(2)), 16, u32::MAX as nat)
        } else {
            number(widened(name.skip(1)), 10, u32::MAX as nat)
        };
        match n {
            Some(c) => if c < 0x80 {
                seq![c as u8]
            } else {
                seq![0xffu8, 0xff]
            },
            None => seq![0xffu8, 0xff],
        }
    } else if name == seq![0x6cu8, 0x74] || name == seq![0x67u8, 0x74] || name == seq![
        0x61u8,
        0x6d,
        0x70,
    ] || name == seq![0x71u8, 0x75, 0x6f, 0x74] || name == seq![0x61u8, 0x70, 0x6f, 0x73] {
        seq![0x26u8]
    } else {
        Seq::empty()
    }
}

/// Whether the content from `i` on, behind what was `seen` of it, makes a late date: text
/// and references up to the closing tag; comments, sections and instructions do not count.
/// A document type has no place there, and is taken for the worst.
pub open spec fn ends_late(b: Seq<u8>, i: int, seen: Seq<u8>) -> bool
    decreases b.len() - i,
{
    if i < 0 || i >= b.len() {
        false
    } else if b[i] == 0x26 {
        match first_byte(b, 0x3b, i + 1) {
            Some(e) => i < e < b.len() && ends_late(
                b,
                e + 1,
                seen + referred(b.subrange(i + 1, e)),
            ),
            None => false,
        }
    } else if b[i] != 0x3c {
        ends_late(b, i + 1, seen.push(b[i]))
    } else if i + 2 >= b.len() {
        false
    } else if b[i + 1] == 0x2f {
        is_late(seen)
    } else if b[i + 1] == 0x3f {
        match instruction_end(b, i + 2) {
            Some(e) => i < e < b.len() && ends_late(b, e + 1, seen),
            None => false,
        }
    } else if b[i + 1] == 0x21 {
        if b[i + 2] == 0x2d {
            match closed_by(b, i + 6, 0x2d) {
                Some(e) => i < e < b.len() && ends_late(b, e + 1, seen),
                None => false,
            }
        } else if b[i + 2] == 0x5b {
            match closed_by(b, i + 3, 0x5d) {
                Some(e) => i < e < b.len() && ends_late(b, e + 1, seen),
                None => false,
            }
        } else {
            b[i + 2] == 0x44 || b[i + 2] == 0x64
        }
    } else {
        false
    }
}

/// Whether what follows the tag at `i` makes a late date, for the quotes that may be open
/// there.
pub open spec fn opens_late(b: Seq<u8>, i: int, quote: u8) -> bool {
    match tag_end(b, i, quote) {
        Some(e) => ends_late(b, e + 1, Seq::empty()),
        None => false,
    }
}

/// Whether the element named at `i` is a late date.
pub open spec fn late_at(b: Seq<u8>, i: int) -> bool {
    names_date(b, i) && (opens_late(b, i + 4, 0) || opens_late(b, i + 4, 0x27) || opens_late(
        b,
        i + 4,
        0x22,
    ))
}

/// Whether no date of a document runs over the end.
pub open spec fn is_timely(b: Seq<u8>) -> bool {
    forall|i: int| !#[trigger] late_at(b, i)
}

fn pair_of(t: &Vec<u8>, i: usize) -> (r: i32)
    requires
        i + 2 <= t@.len(),
    ensures
        r == pair(t@, i as int),
        -528 <= r <= 2277,
{
    let total: usize = t.len();
    assert(i + 1 < total);
    (t[i] as i32 - 0x30) * 10 + (t[i + 1] as i32 - 0x30)
}

fn is_late_of(t: &Vec<u8>) -> (r: bool)
    ensures
        r == is_late(t@),
{
    let n: usize = t.len();
    if n < 25 {
        return false;
    }
    let day: [u8; 10] = [0x39, 0x39, 0x39, 0x39, 0x2d, 0x31, 0x32, 0x2d, 0x33, 0x31];
    assert(day@ =~= seq![0x39u8, 0x39, 0x39, 0x39, 0x2d, 0x31, 0x32, 0x2d, 0x33, 0x31]);
    if !crate::bytes::begins_with(t.as_slice(), day.as_slice()) {
        return false;
    }
    t[n - 6] == 0x2d && pair_of(t, 11) * 60 + pair_of(t, 14) + pair_of(t, n - 5) * 60 + pair_of(
        t,
        n - 2,
    ) >= 1440
}

fn tag_end_of(b: &[u8], from: usize, opened: u8) -> (r: Option<usize>)
    ensures
        match r {
            Some(e) => tag_end(b@, from as int, opened) == Some(e as int) && e < b@.len(),
            None => tag_end(b@, from as int, opened) is None,
        },
{
    let mut i: usize = from;
    let mut quote: u8 = opened;
    while i < b.len()
        invariant
            tag_end(b@, from as int, opened) == tag_end(b@, i as int, quote),
        decreases b.len() - i,
    {
        let c: u8 = b[i];
        if quote == 0 {
            if c == 0x3e {
                return Some(i);
            }
            if c == 0x27 || c == 0x22 {
                quote = c;
            }
        } else if c == quote {
            quote = 0;
        }
        i = i + 1;
    }
    None
}

fn closed_by_of(b: &[u8], from: usize, c: u8) -> (r: Option<usize>)
    requires
        from >= 2,
    ensures
        match r {
            Some(e) => closed_by(b@, from as int, c) == Some(e as int) && from <= e < b@.len(),
            None => closed_by(b@, from as int, c) is None,
        },
{
    let mut i: usize = from;
    while i < b.len()
        invariant
            2 <= from <= i,
            closed_by(b@, from as int, c) == closed_by(b@, i as int, c),
        decreases b.len() - i,
    {
        if b[i] == 0x3e && b[i - 1] == c && b[i - 2] == c {
            return Some(i);
        }
        i = i + 1;
    }
    None
}

fn instruction_end_of(b: &[u8], from: usize) -> (r: Option<usize>)
    requires
        from >= 1,
    ensures
        match r {
            Some(e) => instruction_end(b@, from as int) == Some(e as int) && from <= e < b@.len(),
            None => instruction_end(b@, from as int) is None,
        },
{
    let mut i: usize = from;
    while i < b.len()
        invariant
            1 <= from <= i,
            instruction_end(b@, from as int) == instruction_end(b@, i as int),
        decreases b.len() - i,
    {
        if b[i] == 0x3e && b[i - 1] == 0x3f {
            return Some(i);
        }
        i = i + 1;
    }
    None
}

fn is_word(name: &[u8], word: &[u8]) -> (r: bool)
    ensures
        r == (name@ == word@),
{
    if name.len() != word.len() {
        return false;
    }
    assert(name@.take(word@.len() as int) =~= name@);
    crate::bytes::begins_with(name, word)
}

fn is_named(name: &[u8]) -> (r: bool)
    ensures
        r == (name@ == seq![0x6cu8, 0x74] || name@ == seq![0x67u8, 0x74] || name@ == seq![
            0x61u8,
            0x6d,
            0x70,
        ] || name@ == seq![0x71u8, 0x75, 0x6f, 0x74] || name@ == seq![0x61u8, 0x70, 0x6f, 0x73]),
{
    let lt: [u8; 2] = [0x6c, 0x74];
    let gt: [u8; 2] = [0x67, 0x74];
    let amp: [u8; 3] = [0x61, 0x6d, 0x70];
    let quot: [u8; 4] = [0x71, 0x75, 0x6f, 0x74];
    let apos: [u8; 4] = [0x61, 0x70, 0x6f, 0x73];
    assert(lt@ =~= seq![0x6cu8, 0x74]);
    assert(gt@ =~= seq![0x67u8, 0x74]);
    assert(amp@ =~= seq![0x61u8, 0x6d, 0x70]);
    assert(quot@ =~= seq![0x71u8, 0x75, 0x6f, 0x74]);
    assert(apos@ =~= seq![0x61u8, 0x70, 0x6f, 0x73]);
    is_word(name, lt.as_slice()) || is_word(name, gt.as_slice()) || is_word(name, amp.as_slice())
        || is_word(name, quot.as_slice()) || is_word(name, apos.as_slice())
}

fn referred_of(name: &[u8]) -> (r: Vec<u8>)
    ensures
        r@ == referred(name@),
{
    let mut out: Vec<u8> = Vec::new();
    if name.len() >= 1 && name[0] == 0x23 {
        let n = if name.len() >= 2 && name[1] == 0x78 {
            let rest = vstd::slice::slice_subrange(name, 2, name.len());
            assert(rest@ =~= name@.skip(2));
            number_of(&widened_of(rest), 16, u32::MAX as u64)
        } else {
            let rest = vstd::slice::slice_subrange(name, 1, name.len());
            assert(rest@ =~= name@.skip(1));
            number_of(&widened_of(rest), 10, u32::MAX as u64)
        };
        match n {
            Some(c) => {
                if c < 0x80 {
                    out.push(c as u8);
                    assert(out@ =~= seq![c as u8]);
                    return out;
                }
            },
            None => {},
        }
        out.push(0xff);
        out.push(0xff);
        assert(out@ =~= seq![0xffu8, 0xff]);
    } else if is_named(name) {
        out.push(0x26);
        assert(out@ =~= seq![0x26u8]);
    } else {
        assert(out@ =~= Seq::empty());
    }
    out
}

fn ends_late_of(b: &[u8], from: usize) -> (r: bool)
    ensures
        r == ends_late(b@, from as int, Seq::empty()),
{
    let mut i: usize = from;
    let mut seen: Vec<u8> = Vec::new();
    assert(seen@ =~= Seq::<u8>::empty());
    while i < b.len()
        invariant
            ends_late(b@, from as int, Seq::empty()) == ends_late(b@, i as int, seen@),
        decreases b.len() - i,
    {
        let c: u8 = b[i];
        if c == 0x26 {
            match find_byte(b, 0x3b, i + 1) {
                Some(e) => {
                    let name = vstd::slice::slice_subrange(b, i + 1, e);
                    let mut more = referred_of(name);
                    seen.append(&mut more);
                    i = e + 1;
                },
                None => {
                    return false;
                },
            }
        } else if c != 0x3c {
            seen.push(c);
            i = i + 1;
        } else {
            if b.len() - i <= 2 {
                return false;
            }
            let d: u8 = b[i + 1];
            let skipped = if d == 0x2f {
                return is_late_of(&seen);
            } else if d == 0x3f {
                instruction_end_of(b, i + 2)
            } else if d == 0x21 {
                let f: u8 = b[i + 2];
                if f == 0x2d {
                    if b.len() - i <= 6 {
                        assert(closed_by(b@, i + 6, 0x2d) is None);
                        return false;
                    }
                    closed_by_of(b, i + 6, 0x2d)
                } else if f == 0x5b {
                    closed_by_of(b, i + 3, 0x5d)
                } else {
                    return f == 0x44 || f == 0x64;
                }
            } else {
                return false;
            };
            match skipped {
                Some(e) => {
                    i = e + 1;
                },
                None => {
                    return false;
                },
            }
        }
    }
    false
}

fn opens_late_of(b: &[u8], i: usize, quote: u8) -> (r: bool)
    ensures
        r == opens_late(b@, i as int, quote),
{
    let total: usize = b.len();
    match tag_end_of(b, i, quote) {
        Some(e) => {
            assert(e < total);
            ends_late_of(b, e + 1)
        },
        None => false,
    }
}

/// Whether no date of a document runs over the end.
pub fn is_timely_of(b: &[u8]) -> (r: bool)
    ensures
        r == is_timely(b@),
{
    let mut i: usize = 1;
    while i < b.len()
        invariant
            1 <= i,
            forall|k: int| k < i ==> !#[trigger] late_at(b@, k),
        decreases b.len() - i,
    {
        if b.len() - i >= 5 && b[i] == 0x64 && b[i + 1] == 0x61 && b[i + 2] == 0x74 && b[i + 3]
            == 0x65 && (b[i - 1] == 0x3c || b[i - 1] == 0x3a) && (b[i + 4] == 0x3e || b[i + 4]
            == 0x20 || b[i + 4] == 0x09 || b[i + 4] == 0x0a || b[i + 4] == 0x0d) {
            if opens_late_of(b, i + 4, 0) || opens_late_of(b, i + 4, 0x27) || opens_late_of(
                b,
                i + 4,
                0x22,
            ) {
                assert(late_at(b@, i as int));
                return false;
            }
        }
        assert(!late_at(b@, i as int));
        i = i + 1;
    }
    true
}

} // verus!
