//! What a packed tree looks like, and that unpacking gives the tree back.

use vstd::prelude::*;
use vstd::utf8::{
    decode_utf8, decode_utf8_encode_utf8, encode_utf8, encode_utf8_decode_utf8,
    encode_utf8_valid_utf8, is_ascii_chars, is_ascii_chars_encode_utf8, valid_utf8,
    valid_utf8_concat,
};

use crate::bytes::{first_byte, widened};
use crate::num::{decimal, digit, digits, lemma_numeral_reads_back, number};
use crate::path::safe_join;
use crate::pkg::ar;
use crate::pkg::decompress::{decompressed, sniffed, Codec};
use crate::pkg::tar::{
    base256, boundary, c_string, has_ustar, header_name, member, member_mode, member_size, octal,
    padded, pax_record, pax_value, tar_run, untar, without_newlines, Step,
};
use crate::pkg::{
    file_count, fresh, is_foreign, rerooted, total_size, unpack_run, EntryView, Fault, Format,
    Progress, Run,
};
use crate::text::{is_white, opens, trim, trim_end, trim_start, CharClass};

verus! {

/// What stands at a place of a tree.
pub enum Node {
    Dir,
    File { data: Seq<u8>, mode: u32 },
    Link { target: Seq<char> },
    /// One more name of the file at another place of the tree.
    Alias { place: Seq<char> },
}

/// Eight to the power of `n`.
pub open spec fn eight_to(n: nat) -> nat
    decreases n,
{
    if n == 0 {
        1
    } else {
        8 * eight_to((n - 1) as nat)
    }
}

/// `n` NULs.
pub open spec fn zeros(n: nat) -> Seq<u8> {
    Seq::new(n, |i: int| 0u8)
}

/// `n` written in octal with exactly `width` digits.
pub open spec fn octal_digits(n: nat, width: nat) -> Seq<u8>
    decreases width,
{
    if width == 0 {
        Seq::empty()
    } else {
        octal_digits(n / 8, (width - 1) as nat).push((0x30 + n % 8) as u8)
    }
}

/// Whether all bytes of a field from `from` up to `end` are NULs and spaces.
pub open spec fn is_blank(field: Seq<u8>, from: int, end: int) -> bool {
    forall|i: int| from <= i < end ==> #[trigger] field[i] == 0 || field[i] == 0x20
}

/// Whether a field writes `n` in octal from `from` up to `end`, and nothing else.
pub open spec fn is_octal(field: Seq<u8>, from: int, end: int, n: nat) -> bool {
    &&& 0 <= from < end <= field.len()
    &&& n < eight_to((end - from) as nat)
    &&& field.subrange(from, end) == octal_digits(n, (end - from) as nat)
    &&& is_blank(field, 0, from)
    &&& is_blank(field, end, field.len() as int)
}

/// Whether a field writes a number in octal, filled up with NULs and spaces; a blank field
/// writes zero.
pub open spec fn writes(field: Seq<u8>, n: nat) -> bool {
    ||| n == 0 && is_blank(field, 0, field.len() as int)
    ||| exists|from: int, end: int| #[trigger] is_octal(field, from, end, n)
}

/// Whether the size field of a header writes a size: in octal, or in binary for one that does
/// not fit.
pub open spec fn writes_size(field: Seq<u8>, n: nat) -> bool {
    if field[0] >= 0x80 {
        base256(field.subrange(4, 12)) == n
    } else {
        writes(field, n)
    }
}

/// Whether a field holds a text, which a NUL ends where the field goes on.
pub open spec fn tells(field: Seq<u8>, s: Seq<char>) -> bool {
    &&& !encode_utf8(s).contains(0)
    &&& encode_utf8(s).is_prefix_of(field)
    &&& encode_utf8(s).len() < field.len() ==> field[encode_utf8(s).len() as int] == 0
}

/// Whether a header holds a name in two parts, the first of which may be empty.
pub open spec fn splits(header: Seq<u8>, prefix: Seq<char>, short: Seq<char>, name: Seq<char>) -> bool {
    &&& tells(header.subrange(345, 500), prefix)
    &&& tells(header.subrange(0, 100), short)
    &&& name == if prefix.len() == 0 {
        short
    } else {
        prefix + "/"@ + short
    }
}

/// One record of an archive: a header, and what it announces, filled up to whole blocks. Of
/// the header only what follows is fixed; the owner, the times, the checksum and the rest of
/// the magic are free.
pub struct Record {
    pub header: Seq<u8>,
    pub data: Seq<u8>,
    pub fill: Seq<u8>,
}

impl Record {
    /// Whether the record is in order.
    pub open spec fn is_whole(self) -> bool {
        &&& self.header.len() == 512
        &&& exists|i: int| 0 <= i < 512 && #[trigger] self.header[i] != 0
        &&& writes_size(self.header.subrange(124, 136), self.data.len())
        &&& self.fill.len() == padded(self.data.len() as int) - self.data.len()
    }

    /// The letter that tells the kind.
    pub open spec fn flag(self) -> u8 {
        self.header[156]
    }

    /// The record as an archive holds it.
    pub open spec fn bytes(self) -> Seq<u8> {
        self.header + (self.data + self.fill)
    }
}

/// One line of an extended header, and how long it says it is.
pub struct Line {
    pub len: nat,
    pub key: Seq<char>,
    pub value: Seq<char>,
}

impl Line {
    /// The line as a record holds it.
    pub open spec fn bytes(self) -> Seq<u8> {
        encode_utf8(decimal(self.len)) + (seq![0x20u8] + (encode_utf8(self.key) + (seq![0x3du8]
            + (encode_utf8(self.value) + seq![0x0au8]))))
    }

    /// Whether the line is in order: its length counts all of it, and where the key and the
    /// value end can be told.
    pub open spec fn is_whole(self) -> bool {
        &&& self.bytes().len() == self.len
        &&& !encode_utf8(self.key).contains(0x3d)
        &&& encode_utf8(self.value).len() > 0 ==> encode_utf8(self.value).last() != 0x0a
    }
}

/// Lines, one behind the other.
pub open spec fn in_lines(lines: Seq<Line>) -> Seq<u8>
    decreases lines.len(),
{
    if lines.len() == 0 {
        Seq::empty()
    } else {
        lines[0].bytes() + in_lines(lines.skip(1))
    }
}

/// What the first line for a key says.
pub open spec fn said(lines: Seq<Line>, key: Seq<char>) -> Option<Seq<char>>
    decreases lines.len(),
{
    if lines.len() == 0 {
        None
    } else if lines[0].key == key {
        Some(lines[0].value)
    } else {
        said(lines.skip(1), key)
    }
}

/// What a record before a member says of it.
pub enum Note {
    /// A name that does not fit the header.
    Name(Seq<char>),
    /// A link target that does not fit the header.
    Target(Seq<char>),
    /// An extended header.
    Lines(Seq<Line>),
    /// An extended header for the archive as a whole.
    Global,
}

/// Whether a record holds a note.
pub open spec fn notes(r: Record, note: Note) -> bool {
    &&& r.is_whole()
    &&& match note {
        Note::Name(s) => r.flag() == 0x4c && tells(r.data, s),
        Note::Target(s) => r.flag() == 0x4b && tells(r.data, s),
        Note::Lines(lines) => {
            &&& r.flag() == 0x78 || r.flag() == 0x58
            &&& r.data == in_lines(lines)
            &&& forall|i: int| 0 <= i < lines.len() ==> (#[trigger] lines[i]).is_whole()
        },
        Note::Global => r.flag() == 0x67,
    }
}

/// The name that the records before a member give it, where `known` was given before them.
pub open spec fn named(before: Seq<(Note, Record)>, known: Option<Seq<char>>) -> Option<Seq<char>>
    decreases before.len(),
{
    if before.len() == 0 {
        known
    } else {
        named(
            before.skip(1),
            match before[0].0 {
                Note::Name(s) => Some(s),
                Note::Lines(lines) => if said(lines, "path"@) is Some {
                    said(lines, "path"@)
                } else {
                    known
                },
                _ => known,
            },
        )
    }
}

/// The link target that the records before a member give it, where `known` was given before
/// them.
pub open spec fn aimed(before: Seq<(Note, Record)>, known: Option<Seq<char>>) -> Option<Seq<char>>
    decreases before.len(),
{
    if before.len() == 0 {
        known
    } else {
        aimed(
            before.skip(1),
            match before[0].0 {
                Note::Target(s) => Some(s),
                Note::Lines(lines) => if said(lines, "linkpath"@) is Some {
                    said(lines, "linkpath"@)
                } else {
                    known
                },
                _ => known,
            },
        )
    }
}

/// One member of an archive: a place of the tree, what stands there, the records before it
/// and its own.
pub struct Member {
    pub name: Seq<char>,
    pub node: Node,
    pub before: Seq<(Note, Record)>,
    pub record: Record,
}

impl Member {
    /// The bytes of a file.
    pub open spec fn data(self) -> Seq<u8> {
        match self.node {
            Node::File { data, mode } => data,
            _ => Seq::empty(),
        }
    }

    /// Whether the records give the member a link target.
    pub open spec fn aims_at(self, target: Seq<char>) -> bool {
        match aimed(self.before, None) {
            Some(t) => t == target,
            None => tells(self.record.header.subrange(157, 257), target),
        }
    }

    /// Whether the records give the member its name.
    pub open spec fn is_named(self) -> bool {
        match named(self.before, None) {
            Some(n) => n == self.name,
            None => exists|prefix: Seq<char>, short: Seq<char>| #[trigger]
                splits(self.record.header, prefix, short, self.name),
        }
    }

    /// Whether the records are in order and record the member.
    pub open spec fn is_packed(self) -> bool {
        &&& forall|i: int|
            0 <= i < self.before.len() ==> notes(
                (#[trigger] self.before[i]).1,
                self.before[i].0,
            )
        &&& self.record.is_whole()
        &&& self.record.data == self.data()
        &&& self.is_named()
        &&& match self.node {
            Node::Dir => self.record.flag() == 0x35,
            Node::File { data, mode } => {
                &&& self.record.flag() == 0x30 || self.record.flag() == 0 || self.record.flag()
                    == 0x37
                &&& mode <= 0xfff
                &&& writes(self.record.header.subrange(100, 108), mode as nat)
            },
            Node::Link { target } => self.record.flag() == 0x32 && self.aims_at(target),
            Node::Alias { place } => self.record.flag() == 0x31 && self.aims_at(place),
        }
    }

    /// Whether the member stays below `base`.
    pub open spec fn stays(self, base: Seq<char>) -> bool {
        &&& safe_join(base, self.name) is Some
        &&& self.node matches Node::Alias { place } ==> safe_join(base, place) is Some
    }

    /// What unpacking under `base` makes of the member.
    pub open spec fn entry(self, base: Seq<char>) -> EntryView {
        let path = safe_join(base, self.name)->0;
        match self.node {
            Node::Dir => EntryView::Dir(path),
            Node::File { data, mode } => EntryView::File { path, data, mode },
            Node::Link { target } => EntryView::Symlink { path, target: rerooted(base, target) },
            Node::Alias { place } => EntryView::Symlink { path, target: safe_join(base, place)->0 },
        }
    }
}

/// Records, one behind the other.
pub open spec fn packed_notes(before: Seq<(Note, Record)>) -> Seq<u8>
    decreases before.len(),
{
    if before.len() == 0 {
        Seq::empty()
    } else {
        before[0].1.bytes() + packed_notes(before.skip(1))
    }
}

/// A member as an archive holds it.
pub open spec fn packed_member(m: Member) -> Seq<u8> {
    packed_notes(m.before) + m.record.bytes()
}

/// Members, one behind the other.
pub open spec fn packed(members: Seq<Member>) -> Seq<u8>
    decreases members.len(),
{
    if members.len() == 0 {
        Seq::empty()
    } else {
        packed_member(members[0]) + packed(members.skip(1))
    }
}

/// Whether an archive records the members: it holds each in turn, and then either ends or goes
/// on with a block of NULs, whatever follows that.
pub open spec fn records(b: Seq<u8>, members: Seq<Member>) -> bool {
    let end = packed(members).len() as int;
    &&& packed(members).is_prefix_of(b)
    &&& b.len() < end + 512 || forall|i: int| end <= i < end + 512 ==> #[trigger] b[i] == 0
}

/// What unpacking the members under `base` makes of them, in order.
pub open spec fn landed(base: Seq<char>, members: Seq<Member>) -> Seq<EntryView> {
    members.map_values(|m: Member| m.entry(base))
}

proof fn lemma_octal_digits(n: nat, width: nat)
    requires
        n < eight_to(width),
    ensures
        octal_digits(n, width).len() == width,
        digits(widened(octal_digits(n, width)), 8) == Some(n),
        forall|i: int|
            0 <= i < width ==> 0x30 <= #[trigger] octal_digits(n, width)[i] <= 0x37,
    decreases width,
{
    let s = octal_digits(n, width);
    if width == 0 {
        assert(widened(s) =~= Seq::empty());
    } else {
        let head = octal_digits(n / 8, (width - 1) as nat);
        lemma_octal_digits(n / 8, (width - 1) as nat);
        let c = (0x30 + n % 8) as u8;
        assert(s == head.push(c));
        assert(widened(s).drop_last() =~= widened(head));
        assert(widened(s).last() == c as char);
        assert(digit(c as char, 8) == Some(n % 8));
        assert(n == (n / 8) * 8 + n % 8);
    }
}

proof fn lemma_skip_blanks(field: Seq<u8>, from: int)
    requires
        0 <= from <= field.len(),
        is_blank(field, 0, from),
        from < field.len() ==> field[from] != 0 && field[from] != 0x20,
    ensures
        trim_start(widened(field), CharClass::NulOrSpace) == widened(field.skip(from)),
    decreases from,
{
    let w = widened(field);
    if from == 0 {
        assert(field.skip(0) =~= field);
        if field.len() > 0 {
            assert(w[0] == field[0] as char);
        }
    } else {
        let rest = field.skip(1);
        assert(field[0] == 0 || field[0] == 0x20);
        assert(w[0] == field[0] as char);
        assert(w.skip(1) =~= widened(rest));
        assert forall|i: int| 0 <= i < from - 1 implies #[trigger] rest[i] == 0 || rest[i] == 0x20 by {
            assert(rest[i] == field[i + 1]);
        }
        lemma_skip_blanks(rest, from - 1);
        assert(rest.skip(from - 1) =~= field.skip(from));
    }
}

proof fn lemma_drop_blanks(field: Seq<u8>, end: int)
    requires
        0 < end <= field.len(),
        is_blank(field, end, field.len() as int),
        field[end - 1] != 0 && field[end - 1] != 0x20,
    ensures
        trim_end(widened(field), CharClass::NulOrSpace) == widened(field.take(end)),
    decreases field.len(),
{
    let w = widened(field);
    assert(w.last() == field.last() as char);
    if end == field.len() {
        assert(field.take(end) =~= field);
    } else {
        let rest = field.drop_last();
        assert(field[field.len() - 1] == 0 || field[field.len() - 1] == 0x20);
        assert(w.drop_last() =~= widened(rest));
        lemma_drop_blanks(rest, end);
        assert(rest.take(end) =~= field.take(end));
    }
}

/// A number in octal reads back.
proof fn lemma_octal_field(field: Seq<u8>, n: nat)
    requires
        writes(field, n),
        n <= usize::MAX,
    ensures
        octal(field) == Some(n),
{
    let class = CharClass::NulOrSpace;
    if n == 0 && is_blank(field, 0, field.len() as int) {
        lemma_skip_blanks(field, field.len() as int);
        assert(widened(field.skip(field.len() as int)) =~= Seq::empty());
    } else {
        let (from, end) = choose|from: int, end: int| #[trigger] is_octal(field, from, end, n);
        let width = (end - from) as nat;
        let d = octal_digits(n, width);
        lemma_octal_digits(n, width);
        assert(field.subrange(from, end)[0] == d[0]);
        assert(field.subrange(from, end)[width - 1] == d[width - 1]);
        lemma_skip_blanks(field, from);
        let rest = field.skip(from);
        assert forall|i: int| width <= i < rest.len() implies #[trigger] rest[i] == 0 || rest[i]
            == 0x20 by {
            assert(rest[i] == field[from + i]);
        }
        lemma_drop_blanks(rest, width as int);
        assert(rest.take(width as int) =~= d);
        let t = widened(d);
        assert(trim(widened(field), class) == t);
        assert(t[0] == d[0] as char);
        assert(t[0] != '+');
    }
}

/// A size reads back.
proof fn lemma_size_field(h: Seq<u8>, n: nat)
    requires
        h.len() == 512,
        writes_size(h.subrange(124, 136), n),
        n <= usize::MAX,
    ensures
        member_size(h) == Some(n),
{
    let field = h.subrange(124, 136);
    assert(field[0] == h[124]);
    if field[0] >= 0x80 {
        assert(field.subrange(4, 12) =~= h.subrange(128, 136));
    } else {
        lemma_octal_field(field, n);
    }
}

proof fn lemma_first_byte(b: Seq<u8>, needle: u8, from: int, at: int)
    requires
        0 <= from <= at <= b.len(),
        forall|i: int| from <= i < at ==> b[i] != needle,
        at < b.len() ==> b[at] == needle,
    ensures
        first_byte(b, needle, from) == (if at < b.len() {
            Some(at)
        } else {
            None
        }),
    decreases at - from,
{
    if from < at {
        lemma_first_byte(b, needle, from + 1, at);
    }
}

/// A text that ends at a NUL, or with its field, reads back.
proof fn lemma_text_field(b: Seq<u8>, s: Seq<char>)
    requires
        tells(b, s),
    ensures
        c_string(b) == s,
{
    let e = encode_utf8(s);
    encode_utf8_valid_utf8(s);
    encode_utf8_decode_utf8(s);
    assert forall|i: int| 0 <= i < e.len() implies b[i] != 0 by {
        assert(b[i] == e[i]);
        assert(e.contains(e[i]));
    }
    lemma_first_byte(b, 0, 0, e.len() as int);
    assert(b.take(e.len() as int) =~= e);
    if e.len() == b.len() {
        assert(b =~= e);
    }
}

proof fn lemma_ascii(c: char)
    requires
        c <= '\u{7f}',
    ensures
        encode_utf8(seq![c]) == seq![c as u8],
        valid_utf8(seq![c as u8]),
{
    let s = seq![c];
    assert(is_ascii_chars(s));
    is_ascii_chars_encode_utf8(s);
    encode_utf8_valid_utf8(s);
    assert(encode_utf8(s) =~= seq![c as u8]);
}

/// The length that a line starts with.
proof fn lemma_line_digits(n: nat)
    ensures
        ({
            let d = encode_utf8(decimal(n));
            &&& d.len() > 0
            &&& valid_utf8(d)
            &&& widened(d) == decimal(n)
            &&& forall|i: int| 0 <= i < d.len() ==> 0x30 <= #[trigger] d[i] <= 0x39
        }),
{
    let s = decimal(n);
    let d = encode_utf8(s);
    lemma_numeral_reads_back(n, 10);
    assert forall|i: int| 0 <= i < s.len() implies '0' <= #[trigger] s[i] <= '9' by {
        assert(digit(s[i], 10) is Some);
    }
    assert(is_ascii_chars(s));
    is_ascii_chars_encode_utf8(s);
    encode_utf8_valid_utf8(s);
    assert forall|i: int| 0 <= i < d.len() implies 0x30 <= #[trigger] d[i] <= 0x39 by {
        assert('0' <= s[i] <= '9');
    }
    assert(widened(d) =~= s) by {
        assert forall|i: int| 0 <= i < d.len() implies widened(d)[i] == s[i] by {
            assert('0' <= s[i] <= '9');
        }
    }
}

proof fn lemma_line_valid(line: Line)
    ensures
        valid_utf8(line.bytes()),
{
    let d = encode_utf8(decimal(line.len));
    let k = encode_utf8(line.key);
    let v = encode_utf8(line.value);
    lemma_line_digits(line.len);
    encode_utf8_valid_utf8(line.key);
    encode_utf8_valid_utf8(line.value);
    lemma_ascii(' ');
    lemma_ascii('=');
    lemma_ascii('\n');
    valid_utf8_concat(v, seq![0x0au8]);
    valid_utf8_concat(seq![0x3du8], v + seq![0x0au8]);
    valid_utf8_concat(k, seq![0x3du8] + (v + seq![0x0au8]));
    valid_utf8_concat(seq![0x20u8], k + (seq![0x3du8] + (v + seq![0x0au8])));
    valid_utf8_concat(d, seq![0x20u8] + (k + (seq![0x3du8] + (v + seq![0x0au8]))));
}

proof fn lemma_lines_valid(lines: Seq<Line>)
    ensures
        valid_utf8(in_lines(lines)),
    decreases lines.len(),
{
    if lines.len() > 0 {
        lemma_line_valid(lines[0]);
        lemma_lines_valid(lines.skip(1));
        valid_utf8_concat(lines[0].bytes(), in_lines(lines.skip(1)));
    }
}

/// Two texts that are written alike are alike.
proof fn lemma_written_alike(a: Seq<char>, b: Seq<char>)
    ensures
        encode_utf8(a) == encode_utf8(b) <==> a == b,
{
    encode_utf8_decode_utf8(a);
    encode_utf8_decode_utf8(b);
}

/// Where the parts of the first line are found.
proof fn lemma_line(rest: Seq<u8>, line: Line, behind: Seq<u8>)
    requires
        line.is_whole(),
        rest == line.bytes() + behind,
    ensures
        ({
            let space = encode_utf8(decimal(line.len)).len() as int;
            let body = encode_utf8(line.key) + (seq![0x3du8] + encode_utf8(line.value));
            &&& first_byte(rest, 0x20, 0) == Some(space)
            &&& rest.take(space) == encode_utf8(decimal(line.len))
            &&& 0 <= space < line.len <= rest.len()
            &&& without_newlines(rest.subrange(space + 1, line.len as int)) == body
            &&& first_byte(body, 0x3d, 0) == Some(encode_utf8(line.key).len() as int)
            &&& body.take(encode_utf8(line.key).len() as int) == encode_utf8(line.key)
            &&& body.skip(encode_utf8(line.key).len() as int + 1) == encode_utf8(line.value)
        }),
{
    let d = encode_utf8(decimal(line.len));
    let k = encode_utf8(line.key);
    let v = encode_utf8(line.value);
    let body = k + (seq![0x3du8] + v);
    let space = d.len() as int;
    let all = line.bytes();
    lemma_line_digits(line.len);
    assert forall|i: int| 0 <= i < space implies rest[i] == d[i] by {
        assert(all[i] == d[i]);
    }
    assert(all[space] == 0x20);
    assert(rest[space] == 0x20);
    lemma_first_byte(rest, 0x20, 0, space);
    assert(rest.take(space) =~= d);
    let told = rest.subrange(space + 1, line.len as int);
    assert(told =~= body.push(0x0a));
    assert(told.drop_last() =~= body);
    assert(body.last() != 0x0a) by {
        if v.len() > 0 {
            assert(body.last() == v.last());
        } else {
            assert(body.last() == 0x3d);
        }
    }
    reveal_with_fuel(without_newlines, 2);
    assert forall|i: int| 0 <= i < k.len() implies body[i] != 0x3d by {
        assert(body[i] == k[i]);
        assert(k.contains(k[i]));
    }
    assert(body[k.len() as int] == 0x3d);
    lemma_first_byte(body, 0x3d, 0, k.len() as int);
    assert(body.take(k.len() as int) =~= k);
    assert(body.skip(k.len() as int + 1) =~= v);
}

proof fn lemma_lines_from(b: Seq<u8>, lines: Seq<Line>, key: Seq<char>, at: int)
    requires
        0 <= at <= b.len() <= usize::MAX,
        b.skip(at) == in_lines(lines),
        forall|i: int| 0 <= i < lines.len() ==> (#[trigger] lines[i]).is_whole(),
    ensures
        pax_record(b, encode_utf8(key), at) == said(lines, key),
    decreases lines.len(),
{
    let rest = b.skip(at);
    if lines.len() == 0 {
        assert(rest.len() == 0);
    } else {
        let line = lines[0];
        let tail = lines.skip(1);
        let behind = in_lines(tail);
        assert(lines[0].is_whole());
        lemma_line(rest, line, behind);
        lemma_line_digits(line.len);
        lemma_numeral_reads_back(line.len, 10);
        let s = decimal(line.len);
        assert(digit(s[0], 10) is Some);
        assert(s[0] != '+');
        assert(number(s, 10, usize::MAX as nat) == Some(line.len));
        let n = line.len as int;
        assert(boundary(rest, n)) by {
            if n < rest.len() {
                assert(tail.len() > 0);
                let d = encode_utf8(decimal(tail[0].len));
                lemma_line_digits(tail[0].len);
                assert(rest[n] == behind[0]);
                assert(behind[0] == d[0]);
            }
        }
        lemma_written_alike(line.key, key);
        if line.key == key {
            encode_utf8_valid_utf8(line.value);
            encode_utf8_decode_utf8(line.value);
        } else {
            assert(b.skip(at + n) =~= behind) by {
                assert(b.skip(at + n) =~= rest.skip(n));
                assert(rest.skip(n) =~= behind);
            }
            assert forall|i: int| 0 <= i < tail.len() implies (#[trigger] tail[i]).is_whole() by {
                assert(tail[i] == lines[i + 1]);
            }
            lemma_lines_from(b, tail, key, at + n);
        }
    }
}

/// An extended header reads back.
proof fn lemma_lines(lines: Seq<Line>, key: Seq<char>)
    requires
        in_lines(lines).len() <= usize::MAX,
        forall|i: int| 0 <= i < lines.len() ==> (#[trigger] lines[i]).is_whole(),
    ensures
        pax_value(in_lines(lines), key) == said(lines, key),
{
    let b = in_lines(lines);
    lemma_lines_valid(lines);
    decode_utf8_encode_utf8(b);
    assert(b.skip(0) =~= b);
    lemma_lines_from(b, lines, key, 0);
}

/// What two parts in a row start with, and what follows.
pub(crate) proof fn lemma_prefix_split(b: Seq<u8>, pos: int, x: Seq<u8>, y: Seq<u8>)
    requires
        0 <= pos <= b.len(),
        (x + y).is_prefix_of(b.skip(pos)),
    ensures
        x.is_prefix_of(b.skip(pos)),
        pos + x.len() + y.len() <= b.len(),
        y.is_prefix_of(b.skip(pos + x.len())),
{
    let all = x + y;
    let rest = b.skip(pos);
    assert(rest.subrange(0, all.len() as int) =~= all);
    assert forall|i: int| 0 <= i < all.len() implies rest[i] == all[i] by {
        assert(rest.subrange(0, all.len() as int)[i] == all[i]);
    }
    assert(rest.subrange(0, x.len() as int) =~= x);
    let late = b.skip(pos + x.len());
    assert forall|i: int| 0 <= i < y.len() implies late[i] == y[i] by {
        assert(all[x.len() + i] == y[i]);
        assert(late[i] == rest[x.len() + i]);
    }
    assert(late.subrange(0, y.len() as int) =~= y);
}

/// What stands where a part starts.
pub(crate) proof fn lemma_prefix_span(b: Seq<u8>, pos: int, x: Seq<u8>)
    requires
        0 <= pos <= b.len(),
        x.is_prefix_of(b.skip(pos)),
    ensures
        pos + x.len() <= b.len(),
        b.subrange(pos, pos + x.len()) == x,
{
    assert(b.subrange(pos, pos + x.len()) =~= b.skip(pos).subrange(0, x.len() as int));
}

proof fn lemma_padded(pos: int, n: int)
    requires
        pos % 512 == 0,
        n >= 0,
    ensures
        padded(n) >= n,
        padded(n) % 512 == 0,
        padded(pos + n) == pos + padded(n),
        (pos + padded(n)) % 512 == 0,
{
}

/// Reading one record.
proof fn lemma_read(
    b: Seq<u8>,
    base: Seq<char>,
    limit: u64,
    pos: int,
    name: Option<Seq<char>>,
    link: Option<Seq<char>>,
    saw: bool,
    p: Progress,
    r: Record,
)
    requires
        0 <= pos <= b.len() <= usize::MAX,
        pos % 512 == 0,
        r.is_whole(),
        r.bytes().is_prefix_of(b.skip(pos)),
        member(r.header, r.data, base, limit, name, link, p).run.result is Ok,
    ensures
        ({
            let step = member(r.header, r.data, base, limit, name, link, p);
            tar_run(b, base, limit, pos, name, link, saw, p) == tar_run(
                b,
                base,
                limit,
                pos + r.bytes().len(),
                step.name,
                step.link,
                true,
                step.run.at,
            )
        }),
        (pos + r.bytes().len()) % 512 == 0,
        pos + 512 <= pos + r.bytes().len() <= b.len(),
{
    let h = r.header;
    let n = r.data.len() as int;
    lemma_padded(pos + 512, n);
    lemma_padded(0, n);
    lemma_prefix_split(b, pos, h, r.data + r.fill);
    lemma_prefix_span(b, pos, h);
    lemma_prefix_split(b, pos + 512, r.data, r.fill);
    lemma_prefix_span(b, pos + 512, r.data);
    lemma_size_field(h, r.data.len());
    let i = choose|i: int| 0 <= i < 512 && #[trigger] h[i] != 0;
    assert(b.subrange(pos, pos + 512)[i] != 0);
}

/// What unpacking a member adds.
pub open spec fn after(p: Progress, m: Member, base: Seq<char>) -> Progress {
    match m.node {
        Node::File { data, mode } => p.counting(data.len()).with_entry(m.entry(base)),
        _ => p.with_entry(m.entry(base)),
    }
}

/// Reading the records before a member.
proof fn lemma_read_notes(
    b: Seq<u8>,
    base: Seq<char>,
    limit: u64,
    pos: int,
    name: Option<Seq<char>>,
    link: Option<Seq<char>>,
    saw: bool,
    p: Progress,
    before: Seq<(Note, Record)>,
)
    requires
        0 <= pos <= b.len() <= usize::MAX,
        pos % 512 == 0,
        forall|i: int| 0 <= i < before.len() ==> notes((#[trigger] before[i]).1, before[i].0),
        packed_notes(before).is_prefix_of(b.skip(pos)),
    ensures
        tar_run(b, base, limit, pos, name, link, saw, p) == tar_run(
            b,
            base,
            limit,
            pos + packed_notes(before).len(),
            named(before, name),
            aimed(before, link),
            saw || before.len() > 0,
            p,
        ),
        (pos + packed_notes(before).len()) % 512 == 0,
        pos + packed_notes(before).len() <= b.len(),
    decreases before.len(),
{
    if before.len() > 0 {
        let (note, r) = before[0];
        let rest = before.skip(1);
        assert(notes(before[0].1, before[0].0));
        lemma_prefix_split(b, pos, r.bytes(), packed_notes(rest));
        assert(r.data.len() <= r.bytes().len() <= b.skip(pos).len());
        match note {
            Note::Name(s) => {
                lemma_text_field(r.data, s);
            },
            Note::Target(s) => {
                lemma_text_field(r.data, s);
            },
            Note::Lines(lines) => {
                lemma_lines(lines, "path"@);
                lemma_lines(lines, "linkpath"@);
            },
            Note::Global => {},
        }
        lemma_read(b, base, limit, pos, name, link, saw, p, r);
        let step = member(r.header, r.data, base, limit, name, link, p);
        assert forall|i: int| 0 <= i < rest.len() implies notes(
            (#[trigger] rest[i]).1,
            rest[i].0,
        ) by {
            assert(rest[i] == before[i + 1]);
        }
        lemma_read_notes(
            b,
            base,
            limit,
            pos + r.bytes().len(),
            step.name,
            step.link,
            true,
            p,
            rest,
        );
    }
}

/// What the record of a member is read as.
proof fn lemma_member_record(base: Seq<char>, limit: u64, p: Progress, m: Member)
    requires
        m.is_packed(),
        m.stays(base),
        p.bytes + m.data().len() <= limit,
    ensures
        member(
            m.record.header,
            m.data(),
            base,
            limit,
            named(m.before, None),
            aimed(m.before, None),
            p,
        ) == (Step { name: None, link: None, run: after(p, m, base).done() }),
{
    let h = m.record.header;
    if named(m.before, None) is None {
        let (prefix, short) = choose|prefix: Seq<char>, short: Seq<char>| #[trigger]
            splits(h, prefix, short, m.name);
        lemma_text_field(h.subrange(0, 100), short);
        lemma_text_field(h.subrange(345, 500), prefix);
        assert(header_name(h) == m.name);
    }
    match m.node {
        Node::Dir => {},
        Node::File { data, mode } => {
            lemma_octal_field(h.subrange(100, 108), mode as nat);
            assert(member_mode(h) == mode) by {
                assert(mode & 0xfff == mode) by (bit_vector)
                    requires
                        mode <= 0xfff,
                ;
            }
        },
        Node::Link { target } => {
            if aimed(m.before, None) is None {
                lemma_text_field(h.subrange(157, 257), target);
            }
        },
        Node::Alias { place } => {
            if aimed(m.before, None) is None {
                lemma_text_field(h.subrange(157, 257), place);
            }
        },
    }
}

/// Reading one member, with the records before it.
proof fn lemma_read_member(
    b: Seq<u8>,
    base: Seq<char>,
    limit: u64,
    pos: int,
    saw: bool,
    p: Progress,
    m: Member,
)
    requires
        0 <= pos <= b.len() <= usize::MAX,
        pos % 512 == 0,
        m.is_packed(),
        m.stays(base),
        p.bytes + m.data().len() <= limit,
        packed_member(m).is_prefix_of(b.skip(pos)),
    ensures
        tar_run(b, base, limit, pos, None, None, saw, p) == tar_run(
            b,
            base,
            limit,
            pos + packed_member(m).len(),
            None,
            None,
            true,
            after(p, m, base),
        ),
        (pos + packed_member(m).len()) % 512 == 0,
        pos + 512 <= pos + packed_member(m).len() <= b.len(),
{
    let head = packed_notes(m.before);
    let at = pos + head.len();
    lemma_prefix_split(b, pos, head, m.record.bytes());
    lemma_read_notes(b, base, limit, pos, None, None, saw, p, m.before);
    lemma_member_record(base, limit, p, m);
    lemma_read(
        b,
        base,
        limit,
        at,
        named(m.before, None),
        aimed(m.before, None),
        saw || m.before.len() > 0,
        p,
        m.record,
    );
}

/// The bytes of all files among some members.
pub open spec fn total_data(members: Seq<Member>) -> nat
    decreases members.len(),
{
    if members.len() == 0 {
        0
    } else {
        members[0].data().len() + total_data(members.skip(1))
    }
}

/// What unpacking some members adds.
pub open spec fn after_all(p: Progress, members: Seq<Member>, base: Seq<char>) -> Progress
    decreases members.len(),
{
    if members.len() == 0 {
        p
    } else {
        after_all(after(p, members[0], base), members.skip(1), base)
    }
}

/// What is left behind the first part.
pub(crate) proof fn lemma_head_and_rest(b: Seq<u8>, pos: int, head: Seq<u8>, rest: Seq<u8>)
    requires
        0 <= pos <= b.len(),
        b.skip(pos) == head + rest,
    ensures
        head.is_prefix_of(b.skip(pos)),
        pos + head.len() <= b.len(),
        b.skip(pos + head.len()) == rest,
{
    assert(b.skip(pos).subrange(0, head.len() as int) =~= head);
    assert(b.skip(pos + head.len()) =~= b.skip(pos).skip(head.len() as int));
    assert(b.skip(pos).skip(head.len() as int) =~= rest);
}

#[verifier::spinoff_prover]
proof fn lemma_read_all(
    b: Seq<u8>,
    base: Seq<char>,
    limit: u64,
    pos: int,
    saw: bool,
    p: Progress,
    members: Seq<Member>,
)
    requires
        0 <= pos <= b.len() <= usize::MAX,
        pos % 512 == 0,
        packed(members).is_prefix_of(b.skip(pos)),
        ({
            let end = pos + packed(members).len();
            b.len() < end + 512 || forall|i: int| end <= i < end + 512 ==> #[trigger] b[i] == 0
        }),
        forall|i: int|
            0 <= i < members.len() ==> (#[trigger] members[i]).is_packed() && members[i].stays(
                base,
            ),
        p.bytes + total_data(members) <= limit,
        saw || members.len() > 0,
    ensures
        tar_run(b, base, limit, pos, None, None, saw, p) == after_all(p, members, base).done(),
        members.len() <= packed(members).len(),
    decreases members.len(),
{
    if members.len() > 0 {
        let m = members[0];
        let rest = members.skip(1);
        assert(members[0].is_packed());
        let head = packed_member(m);
        let next = pos + head.len();
        lemma_prefix_split(b, pos, head, packed(rest));
        lemma_read_member(b, base, limit, pos, saw, p, m);
        assert forall|i: int| 0 <= i < rest.len() implies (#[trigger] rest[i]).is_packed()
            && rest[i].stays(base) by {
            assert(rest[i] == members[i + 1]);
        }
        lemma_read_all(b, base, limit, next, true, after(p, m, base), rest);
    } else if b.len() >= pos + 512 {
        let h = b.subrange(pos, pos + 512);
        assert forall|i: int| 0 <= i < 512 implies h[i] == 0 by {
            assert(b[pos + i] == 0);
        }
    }
}

/// Where unpacking some members gets to.
proof fn lemma_after_all(p: Progress, members: Seq<Member>, base: Seq<char>)
    requires
        p.bytes + total_data(members) <= u64::MAX,
        p.files + members.len() <= usize::MAX,
    ensures
        after_all(p, members, base).entries == p.entries + landed(base, members),
        after_all(p, members, base).warnings == p.warnings,
        after_all(p, members, base).bytes == p.bytes + total_data(members),
        after_all(p, members, base).files == p.files + file_count(landed(base, members)),
        total_size(landed(base, members)) == total_data(members),
    decreases members.len(),
{
    let list = landed(base, members);
    if members.len() == 0 {
        assert(list =~= Seq::empty());
        assert(p.entries + list =~= p.entries);
    } else {
        let q = after(p, members[0], base);
        let rest = members.skip(1);
        lemma_after_all(q, rest, base);
        let e = members[0].entry(base);
        assert(list =~= seq![e] + landed(base, rest));
        lemma_counts_split(e, landed(base, rest));
        assert(q.entries + landed(base, rest) =~= p.entries + list);
    }
}

proof fn lemma_counts_split(e: EntryView, rest: Seq<EntryView>)
    ensures
        total_size(seq![e] + rest) == e.size() + total_size(rest),
        file_count(seq![e] + rest) == file_count(rest) + if e is File {
            1nat
        } else {
            0
        },
    decreases rest.len(),
{
    let all = seq![e] + rest;
    if rest.len() == 0 {
        assert(all.drop_last() =~= Seq::empty());
        assert(total_size(Seq::<EntryView>::empty()) == 0);
        assert(file_count(Seq::<EntryView>::empty()) == 0);
    } else {
        assert(all.drop_last() =~= seq![e] + rest.drop_last());
        lemma_counts_split(e, rest.drop_last());
    }
}

/// Whether a tree is packed in order and, under `base` and within `limit`, can be unpacked: it
/// is not empty, each place is recorded and lies in the tree, and all of it fits.
pub open spec fn travels(members: Seq<Member>, base: Seq<char>, limit: u64) -> bool {
    &&& members.len() > 0
    &&& forall|i: int|
        0 <= i < members.len() ==> (#[trigger] members[i]).is_packed() && members[i].stays(base)
    &&& total_data(members) <= limit
}

/// Whether an unpack gave exactly the tree: every place in order, with its bytes, mode or
/// target, nothing besides, no problem met, and everything counted.
pub open spec fn gave_back(
    run: Run,
    before: Seq<EntryView>,
    base: Seq<char>,
    members: Seq<Member>,
) -> bool {
    &&& run.result is Ok
    &&& run.at.entries == before + landed(base, members)
    &&& run.at.warnings.len() == 0
    &&& run.at.files == file_count(landed(base, members))
    &&& run.at.bytes == total_size(landed(base, members))
}

/// A packed tree comes back: unpacking an archive that records a tree gives the tree, however
/// the archive writes it down: names in the header, in its prefix, in records of their own or
/// in extended headers, numbers in octal or in binary.
pub proof fn lemma_archive_gives_back(
    b: Seq<u8>,
    members: Seq<Member>,
    base: Seq<char>,
    limit: u64,
    p: Progress,
)
    requires
        travels(members, base, limit),
        records(b, members),
        b.len() <= usize::MAX,
        p.files == 0,
        p.bytes == 0,
        p.warnings.len() == 0,
    ensures
        gave_back(untar(b, base, limit, p), p.entries, base, members),
{
    assert(b.skip(0) =~= b);
    lemma_read_all(b, base, limit, 0, false, p, members);
    lemma_after_all(p, members, base);
}

/// A tarball of a tree, compressed or not, gives the tree back, below the base directory.
pub proof fn lemma_tarball_gives_back(
    b: Seq<u8>,
    archive: Seq<u8>,
    members: Seq<Member>,
    base: Seq<char>,
    limit: u64,
    log: Seq<EntryView>,
)
    requires
        travels(members, base, limit),
        records(archive, members),
        archive.len() <= usize::MAX,
        !is_foreign(b) || has_ustar(b),
        !is_foreign(archive) || has_ustar(archive),
        decompressed(
            match sniffed(b) {
                Some(c) => c,
                None => Codec::Stored,
            },
            b,
            None,
        ) == Ok::<Seq<u8>, Fault>(archive),
    ensures
        gave_back(
            unpack_run(b, Format::Tarball, base, limit, fresh(log)),
            log.push(EntryView::Dir(base)),
            base,
            members,
        ),
{
    lemma_archive_gives_back(
        archive,
        members,
        base,
        limit,
        fresh(log).with_entry(EntryView::Dir(base)),
    );
}

// ---------- Debian packages -------------------------------------------------

/// One member of the outer archive of a Debian package: its name, its bytes, and what a
/// reader has no use for.
pub struct Part {
    pub name: Seq<char>,
    pub data: Seq<u8>,
    pub stamp: Seq<u8>,
    /// Whether a slash ends the name.
    pub slash: bool,
}

impl Part {
    /// Whether an archive can record the member.
    pub open spec fn is_packable(self) -> bool {
        &&& is_ascii_chars(self.name)
        &&& 0 < self.name.len() && self.full_name().len() <= 16
        &&& !is_white(self.name.last())
        &&& self.name.last() != '/'
        &&& decimal(self.data.len()).len() <= 10
        &&& self.stamp.len() == 32
    }

    /// The name as it is written.
    pub open spec fn full_name(self) -> Seq<char> {
        if self.slash {
            self.name.push('/')
        } else {
            self.name
        }
    }
}

/// A text, filled up with spaces.
pub open spec fn spaced(s: Seq<char>, width: nat) -> Seq<char> {
    s + Seq::new((width - s.len()) as nat, |i: int| ' ')
}

/// The header of a part.
pub open spec fn part_header(q: Part) -> Seq<u8> {
    encode_utf8(spaced(q.full_name(), 16)) + q.stamp + encode_utf8(
        spaced(decimal(q.data.len()), 10),
    ) + seq![0x60u8, 0x0a]
}

/// The byte that fills a part up to an even length.
pub open spec fn evened(n: nat) -> Seq<u8> {
    if n % 2 == 1 {
        seq![0x0au8]
    } else {
        Seq::empty()
    }
}

/// Parts, one behind the other.
pub open spec fn packed_parts(parts: Seq<Part>) -> Seq<u8>
    decreases parts.len(),
{
    if parts.len() == 0 {
        Seq::empty()
    } else {
        part_header(parts[0]) + parts[0].data + evened(parts[0].data.len()) + packed_parts(
            parts.skip(1),
        )
    }
}

/// An outer archive.
pub open spec fn packed_outer(parts: Seq<Part>) -> Seq<u8> {
    seq![0x21u8, 0x3c, 0x61, 0x72, 0x63, 0x68, 0x3e, 0x0a] + packed_parts(parts)
}

/// The part that holds the tree: the first that is named for it.
pub open spec fn payload_part(parts: Seq<Part>) -> Option<Part>
    decreases parts.len(),
{
    if parts.len() == 0 {
        None
    } else if opens(parts[0].name, "data.tar"@) {
        Some(parts[0])
    } else {
        payload_part(parts.skip(1))
    }
}

proof fn lemma_trim_spaces(s: Seq<char>, n: nat)
    requires
        s.len() > 0,
        !is_white(s.last()),
    ensures
        trim_end(s + Seq::new(n, |i: int| ' '), CharClass::White) == s,
    decreases n,
{
    let t = s + Seq::new(n, |i: int| ' ');
    if n == 0 {
        assert(t =~= s);
    } else {
        lemma_trim_spaces(s, (n - 1) as nat);
        assert(t.drop_last() =~= s + Seq::new((n - 1) as nat, |i: int| ' '));
        assert(t.last() == ' ');
    }
}

proof fn lemma_spaced_field(s: Seq<char>, width: nat)
    requires
        is_ascii_chars(s),
        s.len() <= width,
    ensures
        encode_utf8(spaced(s, width)).len() == width,
        valid_utf8(encode_utf8(spaced(s, width))),
        decode_utf8(encode_utf8(spaced(s, width))) == spaced(s, width),
{
    let t = spaced(s, width);
    assert forall|i: int| 0 <= i < t.len() implies '\0' <= #[trigger] t[i] <= '\u{7f}' by {
        if i < s.len() {
            assert(t[i] == s[i]);
        }
    }
    is_ascii_chars_encode_utf8(t);
    encode_utf8_valid_utf8(t);
    encode_utf8_decode_utf8(t);
}

/// What the header of a part is read as.
proof fn lemma_part_header(q: Part)
    requires
        q.is_packable(),
        q.data.len() <= usize::MAX,
    ensures
        part_header(q).len() == 60,
        part_header(q)[58] == 0x60,
        part_header(q)[59] == 0x0a,
        ar::member_name(part_header(q)) == Some(q.name),
        ar::member_size(part_header(q)) == Some(q.data.len()),
{
    let h = part_header(q);
    let d = decimal(q.data.len());
    lemma_numeral_reads_back(q.data.len(), 10);
    assert forall|i: int| 0 <= i < d.len() implies '0' <= #[trigger] d[i] <= '9' by {
        assert(digit(d[i], 10) is Some);
    }
    let full = q.full_name();
    assert(is_ascii_chars(full)) by {
        assert forall|i: int| 0 <= i < full.len() implies '\0' <= #[trigger] full[i] <= '\u{7f}' by {
            if i < q.name.len() {
                assert(full[i] == q.name[i]);
            }
        }
    }
    lemma_spaced_field(full, 16);
    lemma_spaced_field(d, 10);
    assert(h.subrange(0, 16) =~= encode_utf8(spaced(full, 16)));
    assert(h.subrange(48, 58) =~= encode_utf8(spaced(d, 10)));
    assert(!is_white(full.last()));
    lemma_trim_spaces(full, (16 - full.len()) as nat);
    lemma_trim_spaces(d, (10 - d.len()) as nat);
    assert(spaced(d, 10)[0] == d[0]);
    assert(trim_start(spaced(d, 10), CharClass::White) == spaced(d, 10));
    assert(trim_end(full, CharClass::Only('/')) == q.name) by {
        reveal_with_fuel(trim_end, 3);
        if q.slash {
            assert(full.drop_last() =~= q.name);
        }
    }
    assert(d[0] != '+');
}

proof fn lemma_parts(b: Seq<u8>, pos: int, parts: Seq<Part>)
    requires
        0 <= pos <= b.len() <= usize::MAX,
        b.skip(pos) == packed_parts(parts),
        forall|i: int| 0 <= i < parts.len() ==> (#[trigger] parts[i]).is_packable(),
    ensures
        match payload_part(parts) {
            Some(q) => {
                let found = ar::first_data(ar::members_from(b, pos));
                found is Some && found->0.name == q.name && found->0.data == q.data
            },
            None => ar::first_data(ar::members_from(b, pos)) is None,
        },
    decreases parts.len(),
{
    if parts.len() > 0 {
        let q = parts[0];
        let rest = parts.skip(1);
        assert(parts[0].is_packable());
        let h = part_header(q);
        let n = q.data.len();
        let behind = evened(n) + packed_parts(rest);
        let whole = b.skip(pos);
        assert(whole =~= h + (q.data + behind));
        assert(whole.subrange(0, whole.len() as int) =~= whole);
        lemma_prefix_split(b, pos, h, q.data + behind);
        lemma_prefix_span(b, pos, h);
        lemma_prefix_split(b, pos + h.len(), q.data, behind);
        lemma_prefix_span(b, pos + h.len(), q.data);
        lemma_part_header(q);
        let m = ar::member_at(b, pos)->0;
        assert(ar::member_at(b, pos) == Some(
            ar::MemberView { name: q.name, data: q.data, next: pos + 60 + n + n as int % 2 },
        ));
        assert(m.next == pos + h.len() + n + evened(n).len());
        assert(b.skip(m.next) =~= packed_parts(rest)) by {
            assert(whole.skip((60 + n + evened(n).len()) as int) =~= packed_parts(rest));
            assert(b.skip(m.next) =~= whole.skip((60 + n + evened(n).len()) as int));
        }
        assert forall|i: int| 0 <= i < rest.len() implies (#[trigger] rest[i]).is_packable() by {
            assert(rest[i] == parts[i + 1]);
        }
        lemma_parts(b, m.next, rest);
        let list = ar::members_from(b, pos);
        let tail = ar::members_from(b, m.next);
        assert(list =~= seq![m] + tail);
        assert(list.skip(1) =~= tail);
    } else {
        assert(b.skip(pos).len() == 0);
    }
}

/// The payload of a package is the first part that is named for it.
proof fn lemma_payload(parts: Seq<Part>)
    requires
        packed_outer(parts).len() <= usize::MAX,
        forall|i: int| 0 <= i < parts.len() ==> (#[trigger] parts[i]).is_packable(),
        payload_part(parts) is Some,
    ensures
        ar::deb_payload(packed_outer(parts)) == Ok::<(Seq<u8>, Codec), Fault>(
            (
                payload_part(parts)->0.data,
                match sniffed(payload_part(parts)->0.data) {
                    Some(c) => c,
                    None => ar::extension_codec(payload_part(parts)->0.name),
                },
            ),
        ),
{
    let b = packed_outer(parts);
    let magic = seq![0x21u8, 0x3c, 0x61, 0x72, 0x63, 0x68, 0x3e, 0x0a];
    assert(b.take(8) =~= magic);
    assert(b.skip(8) =~= packed_parts(parts));
    lemma_parts(b, 8, parts);
}

/// A Debian package of a tree gives the tree back, below the base directory, whatever
/// other parts it has and however the part that holds the tree is compressed.
#[verifier::spinoff_prover]
pub proof fn lemma_deb_gives_back(
    parts: Seq<Part>,
    archive: Seq<u8>,
    members: Seq<Member>,
    base: Seq<char>,
    limit: u64,
    log: Seq<EntryView>,
)
    requires
        travels(members, base, limit),
        records(archive, members),
        archive.len() <= usize::MAX,
        packed_outer(parts).len() <= usize::MAX,
        forall|i: int| 0 <= i < parts.len() ==> (#[trigger] parts[i]).is_packable(),
        payload_part(parts) matches Some(q) && decompressed(
            match sniffed(q.data) {
                Some(c) => c,
                None => ar::extension_codec(q.name),
            },
            q.data,
            None,
        ) == Ok::<Seq<u8>, Fault>(archive),
    ensures
        gave_back(
            unpack_run(packed_outer(parts), Format::Deb, base, limit, fresh(log)),
            log.push(EntryView::Dir(base)),
            base,
            members,
        ),
{
    lemma_payload(parts);
    lemma_archive_gives_back(
        archive,
        members,
        base,
        limit,
        fresh(log).with_entry(EntryView::Dir(base)),
    );
}

} // verus!
