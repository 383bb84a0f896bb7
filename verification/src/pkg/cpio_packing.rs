//! What a tree packed by cpio looks like, and that unpacking gives the tree back.

use vstd::prelude::*;
use vstd::utf8::{encode_utf8, encode_utf8_decode_utf8, encode_utf8_valid_utf8};

use crate::bytes::{utf8_lossy, widened};
use crate::num::{digit, digits};
use crate::path::safe_join;
use crate::pkg::cpio::{
    cpio_run, entry, fields, hex_field, linked, orphans, padded, uncpio, unlinked, Fields, Waiting,
};
use crate::pkg::decompress::decompressed;
use crate::pkg::image_packing::{gave, lemma_taken_in, lemma_taken_in_two, taken_in};
use crate::pkg::packing::{
    lemma_head_and_rest, lemma_prefix_span, lemma_prefix_split, zeros, Node,
};
use crate::pkg::{
    fresh, rerooted, rpm, total_size, unpack_run, EntryView, Fault, Format, Progress,
};
use crate::text::{trim_end, CharClass};

verus! {

/// One entry of an archive: a place of a tree, what stands there, how the file is
/// identified, and what a reader has no use for.
pub struct Item {
    pub name: Seq<char>,
    pub node: Node,
    pub ino: u32,
    pub nlink: u32,
    pub devmajor: u32,
    pub devminor: u32,
    /// The permission bits of what is not a file, which a reader has no use for.
    pub bits: u32,
    /// The last letter of the magic.
    pub form: u8,
    pub owner: Seq<u8>,
    pub mtime: Seq<u8>,
    pub device: Seq<u8>,
    pub check: Seq<u8>,
}

impl Item {
    /// The bytes that follow the name.
    pub open spec fn body(self) -> Seq<u8> {
        match self.node {
            Node::Dir => Seq::empty(),
            Node::File { data, mode } => data,
            Node::Link { target } => encode_utf8(target),
            Node::Alias { place } => Seq::empty(),
        }
    }

    /// The mode that is recorded.
    pub open spec fn mode(self) -> u32 {
        match self.node {
            Node::Dir => (0x4000 + self.bits) as u32,
            Node::File { data, mode } => (0x8000 + mode) as u32,
            Node::Link { target } => (0xa000 + self.bits) as u32,
            Node::Alias { place } => 0x8000,
        }
    }

    /// The name, with the NUL that ends it.
    pub open spec fn full_name(self) -> Seq<u8> {
        encode_utf8(self.name.push('\0'))
    }

    /// Whether an archive can record the entry, with a body of its own: an empty file that
    /// has other names takes its body from one of them.
    pub open spec fn is_packable(self) -> bool {
        &&& self.name.len() == 0 || self.name.last() != '\0'
        &&& self.full_name().len() <= u32::MAX
        &&& self.body().len() <= u32::MAX
        &&& self.bits <= 0xfff
        &&& self.owner.len() == 16
        &&& self.mtime.len() == 8
        &&& self.device.len() == 16
        &&& self.check.len() == 8
        &&& match self.node {
            Node::Dir => true,
            Node::File { data, mode } => mode <= 0xfff && (self.nlink <= 1 || data.len() > 0),
            Node::Link { target } => target.len() == 0 || target.last() != '\0',
            Node::Alias { place } => false,
        }
    }

    /// What unpacking under `base` makes of the entry.
    pub open spec fn entry(self, base: Seq<char>) -> EntryView {
        let path = safe_join(base, self.name)->0;
        match self.node {
            Node::Dir => EntryView::Dir(path),
            Node::File { data, mode } => EntryView::File { path, data, mode },
            Node::Link { target } => EntryView::Symlink { path, target: rerooted(base, target) },
            Node::Alias { place } => EntryView::Symlink { path, target: place },
        }
    }

    /// The header of the entry.
    pub open spec fn header(self) -> Seq<u8> {
        seq![0x30u8, 0x37, 0x30, 0x37, 0x30, self.form] + hex_digits(self.ino as nat, 8)
            + hex_digits(self.mode() as nat, 8) + self.owner + hex_digits(self.nlink as nat, 8)
            + self.mtime + hex_digits(self.body().len(), 8) + hex_digits(self.devmajor as nat, 8)
            + hex_digits(self.devminor as nat, 8) + self.device + hex_digits(
            self.full_name().len(),
            8,
        ) + self.check
    }

    /// The entry as an archive holds it, each part filled up to a multiple of four.
    pub open spec fn packed(self) -> Seq<u8> {
        let n = 110 + self.full_name().len() as int;
        self.header() + (self.full_name() + (zeros((padded(n) - n) as nat) + (self.body() + zeros(
            (padded(self.body().len() as int) - self.body().len()) as nat,
        ))))
    }
}

/// Sixteen to the power of `n`.
pub open spec fn sixteen_to(n: nat) -> nat
    decreases n,
{
    if n == 0 {
        1
    } else {
        16 * sixteen_to((n - 1) as nat)
    }
}

/// The letter of a hexadecimal digit.
pub open spec fn hex_letter(d: nat) -> u8 {
    if d < 10 {
        (0x30 + d) as u8
    } else {
        (0x57 + d) as u8
    }
}

/// `n` in hexadecimal with exactly `width` digits.
pub open spec fn hex_digits(n: nat, width: nat) -> Seq<u8>
    decreases width,
{
    if width == 0 {
        Seq::empty()
    } else {
        hex_digits(n / 16, (width - 1) as nat).push(hex_letter(n % 16))
    }
}

/// An archive: each entry in turn, then the one that ends it.
pub open spec fn packed(items: Seq<Item>, trailer: Item) -> Seq<u8>
    decreases items.len(),
{
    if items.len() == 0 {
        trailer.packed()
    } else {
        items[0].packed() + packed(items.skip(1), trailer)
    }
}

/// What unpacking the entries under `base` makes of them, in order.
pub open spec fn landed(base: Seq<char>, items: Seq<Item>) -> Seq<EntryView> {
    items.map_values(|x: Item| x.entry(base))
}

proof fn lemma_hex_digits(n: nat, width: nat)
    requires
        n < sixteen_to(width),
    ensures
        hex_digits(n, width).len() == width,
        digits(widened(hex_digits(n, width)), 16) == Some(n),
        forall|i: int| 0 <= i < width ==> (#[trigger] hex_digits(n, width)[i]) >= 0x30,
    decreases width,
{
    let s = hex_digits(n, width);
    if width == 0 {
        assert(widened(s) =~= Seq::empty());
    } else {
        let head = hex_digits(n / 16, (width - 1) as nat);
        lemma_hex_digits(n / 16, (width - 1) as nat);
        let c = hex_letter(n % 16);
        assert(s == head.push(c));
        assert(widened(s).drop_last() =~= widened(head));
        assert(widened(s).last() == c as char);
        assert(digit(c as char, 16) == Some(n % 16));
        assert(n == (n / 16) * 16 + n % 16);
    }
}

/// A hexadecimal field reads back.
proof fn lemma_hex_field(h: Seq<u8>, i: int, n: nat)
    requires
        n <= u32::MAX,
        0 <= i < 13,
        h.len() == 110,
        h.subrange(6 + i * 8, 14 + i * 8) == hex_digits(n, 8),
    ensures
        hex_field(h, i) == Some(n),
{
    assert(n < sixteen_to(8)) by {
        reveal_with_fuel(sixteen_to, 9);
    }
    lemma_hex_digits(n, 8);
    let w = widened(hex_digits(n, 8));
    assert(w[0] == hex_digits(n, 8)[0] as char);
    assert(hex_digits(n, 8)[0] >= 0x30);
    assert(w[0] != '+');
}

proof fn lemma_hex_len(n: nat)
    requires
        n <= u32::MAX,
    ensures
        hex_digits(n, 8).len() == 8,
{
    assert(n < sixteen_to(8)) by {
        reveal_with_fuel(sixteen_to, 9);
    }
    lemma_hex_digits(n, 8);
}

/// What a header is read as.
proof fn lemma_header(x: Item)
    requires
        x.is_packable(),
    ensures
        x.header().len() == 110,
        x.header().take(5) == seq![0x30u8, 0x37, 0x30, 0x37, 0x30],
        fields(x.header()) == Some(
            Fields {
                ino: x.ino,
                mode: x.mode(),
                nlink: x.nlink,
                filesize: x.body().len() as u32,
                devmajor: x.devmajor,
                devminor: x.devminor,
                namesize: x.full_name().len() as u32,
            },
        ),
{
    let h = x.header();
    lemma_hex_len(x.ino as nat);
    lemma_hex_len(x.mode() as nat);
    lemma_hex_len(x.nlink as nat);
    lemma_hex_len(x.body().len());
    lemma_hex_len(x.devmajor as nat);
    lemma_hex_len(x.devminor as nat);
    lemma_hex_len(x.full_name().len());
    assert(h.len() == 110);
    assert(h.take(5) =~= seq![0x30u8, 0x37, 0x30, 0x37, 0x30]);
    assert(h.subrange(6, 14) =~= hex_digits(x.ino as nat, 8));
    assert(h.subrange(14, 22) =~= hex_digits(x.mode() as nat, 8));
    assert(h.subrange(38, 46) =~= hex_digits(x.nlink as nat, 8));
    assert(h.subrange(54, 62) =~= hex_digits(x.body().len(), 8));
    assert(h.subrange(62, 70) =~= hex_digits(x.devmajor as nat, 8));
    assert(h.subrange(70, 78) =~= hex_digits(x.devminor as nat, 8));
    assert(h.subrange(94, 102) =~= hex_digits(x.full_name().len(), 8));
    lemma_hex_field(h, 0, x.ino as nat);
    lemma_hex_field(h, 1, x.mode() as nat);
    lemma_hex_field(h, 4, x.nlink as nat);
    lemma_hex_field(h, 6, x.body().len());
    lemma_hex_field(h, 7, x.devmajor as nat);
    lemma_hex_field(h, 8, x.devminor as nat);
    lemma_hex_field(h, 11, x.full_name().len());
}

/// A text that ends with a NUL, or with none, is read without it.
proof fn lemma_text(s: Seq<char>)
    requires
        s.len() == 0 || s.last() != '\0',
    ensures
        trim_end(utf8_lossy(encode_utf8(s)), CharClass::Only('\0')) == s,
        trim_end(utf8_lossy(encode_utf8(s.push('\0'))), CharClass::Only('\0')) == s,
{
    encode_utf8_valid_utf8(s);
    encode_utf8_decode_utf8(s);
    let t = s.push('\0');
    encode_utf8_valid_utf8(t);
    encode_utf8_decode_utf8(t);
    assert(t.drop_last() =~= s);
    assert(t.last() == '\0');
    reveal_with_fuel(trim_end, 2);
}

proof fn lemma_padded(pos: int, n: int)
    requires
        pos % 4 == 0,
        n >= 0,
    ensures
        padded(n) >= n,
        padded(n) % 4 == 0,
        padded(pos + n) == pos + padded(n),
        (pos + padded(n)) % 4 == 0,
{
}

/// What an entry with a body of its own does, while no name waits.
proof fn lemma_entry(x: Item, f: Fields, base: Seq<char>, limit: u64, p: Progress)
    requires
        x.is_packable(),
        safe_join(base, x.name) is Some,
        p.bytes + x.entry(base).size() <= limit,
        f.mode == x.mode(),
        f.nlink == x.nlink,
        f.filesize == x.body().len(),
    ensures
        ({
            let step = entry(f, x.name, x.body(), base, limit, Seq::empty(), p);
            &&& step.waiting == Waiting::empty()
            &&& step.run == taken_in(p, seq![x.entry(base)]).done()
        }),
{
    let e = x.entry(base);
    let one = seq![e];
    assert(one.drop_last() =~= Seq::empty());
    assert(taken_in(p, one.drop_last()) == p);
    let mode = x.mode();
    match x.node {
        Node::Dir => {
            assert(mode & 0xf000 == 0x4000) by (bit_vector)
                requires
                    0x4000 <= mode <= 0x4fff,
            ;
        },
        Node::File { data, mode: bits } => {
            assert(mode & 0xf000 == 0x8000 && mode & 0xfff == mode - 0x8000) by (bit_vector)
                requires
                    0x8000 <= mode <= 0x8fff,
            ;
            assert(linked(Seq::empty(), (f.devmajor, f.devminor, f.ino), e.path(), p.counting(
                data.len(),
            ).with_entry(e)) == p.counting(data.len()).with_entry(e));
            assert(unlinked(Seq::empty(), (f.devmajor, f.devminor, f.ino)) == Waiting::empty());
        },
        Node::Link { target } => {
            assert(mode & 0xf000 == 0xa000) by (bit_vector)
                requires
                    0xa000 <= mode <= 0xafff,
            ;
            lemma_text(target);
        },
        Node::Alias { place } => {},
    }
}

/// Where the parts of an entry stand.
proof fn lemma_parts(b: Seq<u8>, pos: int, x: Item)
    requires
        0 <= pos <= b.len(),
        pos % 4 == 0,
        x.is_packable(),
        x.packed().is_prefix_of(b.skip(pos)),
    ensures
        ({
            let name_end = pos + 110 + x.full_name().len();
            let start = padded(name_end);
            let end = start + x.body().len();
            &&& b.subrange(pos, pos + 110) == x.header()
            &&& b.subrange(pos + 110, name_end) == x.full_name()
            &&& end <= b.len()
            &&& b.subrange(start, end) == x.body()
            &&& padded(end) == pos + x.packed().len()
            &&& padded(end) <= b.len()
            &&& padded(end) % 4 == 0
        }),
{
    lemma_header(x);
    let h = x.header();
    let name = x.full_name();
    let n = 110 + name.len() as int;
    let fill = zeros((padded(n) - n) as nat);
    let data = x.body();
    let last = zeros((padded(data.len() as int) - data.len()) as nat);
    lemma_padded(0, n);
    lemma_padded(pos, n);
    lemma_padded(0, data.len() as int);
    lemma_padded(pos + padded(n), data.len() as int);
    lemma_prefix_split(b, pos, h, name + (fill + (data + last)));
    lemma_prefix_span(b, pos, h);
    lemma_prefix_split(b, pos + 110, name, fill + (data + last));
    lemma_prefix_span(b, pos + 110, name);
    lemma_prefix_split(b, pos + n, fill, data + last);
    lemma_prefix_split(b, pos + padded(n), data, last);
    lemma_prefix_span(b, pos + padded(n), data);
}

/// Reading one entry.
proof fn lemma_read_item(
    b: Seq<u8>,
    base: Seq<char>,
    limit: u64,
    pos: int,
    saw: bool,
    p: Progress,
    x: Item,
)
    requires
        0 <= pos <= b.len(),
        pos % 4 == 0,
        x.is_packable(),
        x.name != "TRAILER!!!"@,
        safe_join(base, x.name) is Some,
        p.bytes + x.entry(base).size() <= limit,
        x.packed().is_prefix_of(b.skip(pos)),
    ensures
        cpio_run(b, base, limit, pos, saw, Seq::empty(), p) == cpio_run(
            b,
            base,
            limit,
            pos + x.packed().len(),
            true,
            Seq::empty(),
            taken_in(p, seq![x.entry(base)]),
        ),
        (pos + x.packed().len()) % 4 == 0,
        pos + x.packed().len() <= b.len(),
{
    lemma_parts(b, pos, x);
    lemma_header(x);
    lemma_text(x.name);
    lemma_padded(pos, 110 + x.full_name().len() as int);
    let f = fields(x.header())->0;
    lemma_entry(x, f, base, limit, p);
}

/// The entry that ends an archive ends it.
proof fn lemma_read_end(
    b: Seq<u8>,
    base: Seq<char>,
    limit: u64,
    pos: int,
    saw: bool,
    p: Progress,
    x: Item,
)
    requires
        0 <= pos <= b.len(),
        pos % 4 == 0,
        x.is_packable(),
        x.name == "TRAILER!!!"@,
        x.packed().is_prefix_of(b.skip(pos)),
    ensures
        cpio_run(b, base, limit, pos, saw, Seq::empty(), p) == p.done(),
{
    lemma_parts(b, pos, x);
    lemma_header(x);
    lemma_text(x.name);
    lemma_padded(pos, 110 + x.full_name().len() as int);
    assert(orphans(Seq::empty(), p) == p);
}

#[verifier::spinoff_prover]
proof fn lemma_read_all(
    b: Seq<u8>,
    base: Seq<char>,
    limit: u64,
    pos: int,
    saw: bool,
    p: Progress,
    items: Seq<Item>,
    trailer: Item,
)
    requires
        0 <= pos <= b.len(),
        pos % 4 == 0,
        b.skip(pos) == packed(items, trailer),
        forall|i: int| 0 <= i < items.len() ==> travels_as(base, #[trigger] items[i]),
        trailer.is_packable(),
        trailer.name == "TRAILER!!!"@,
        p.bytes + total_size(landed(base, items)) <= limit,
    ensures
        cpio_run(b, base, limit, pos, saw, Seq::empty(), p) == taken_in(
            p,
            landed(base, items),
        ).done(),
    decreases items.len(),
{
    let list = landed(base, items);
    if items.len() == 0 {
        assert(list =~= Seq::empty());
        assert(b.skip(pos).subrange(0, trailer.packed().len() as int) =~= trailer.packed());
        lemma_read_end(b, base, limit, pos, saw, p, trailer);
    } else {
        let x = items[0];
        let rest = items.skip(1);
        assert(travels_as(base, items[0]));
        let one = seq![x.entry(base)];
        assert(list =~= one + landed(base, rest));
        lemma_taken_in_two(p, one, landed(base, rest));
        assert(one.drop_last() =~= Seq::empty());
        assert(total_size(one.drop_last()) == 0);
        assert(total_size(one) == x.entry(base).size());
        lemma_head_and_rest(b, pos, x.packed(), packed(rest, trailer));
        lemma_read_item(b, base, limit, pos, saw, p, x);
        lemma_taken_in(p, one);
        assert forall|i: int| 0 <= i < rest.len() implies travels_as(base, #[trigger] rest[i]) by {
            assert(rest[i] == items[i + 1]);
        }
        lemma_read_all(
            b,
            base,
            limit,
            pos + x.packed().len(),
            true,
            taken_in(p, one),
            rest,
            trailer,
        );
    }
}

/// Whether an entry can be recorded and lies in the tree.
pub open spec fn travels_as(base: Seq<char>, x: Item) -> bool {
    x.is_packable() && x.name != "TRAILER!!!"@ && safe_join(base, x.name) is Some
}

/// A tree that cpio packed comes back: unpacking its archive gives the tree.
pub proof fn lemma_archive_gives_back(
    items: Seq<Item>,
    trailer: Item,
    base: Seq<char>,
    limit: u64,
    p: Progress,
)
    requires
        forall|i: int| 0 <= i < items.len() ==> travels_as(base, #[trigger] items[i]),
        trailer.is_packable(),
        trailer.name == "TRAILER!!!"@,
        total_size(landed(base, items)) <= limit,
        items.len() <= usize::MAX,
        p.files == 0,
        p.bytes == 0,
        p.warnings.len() == 0,
    ensures
        gave(uncpio(packed(items, trailer), base, limit, p), p.entries, landed(base, items)),
{
    let b = packed(items, trailer);
    assert(b.skip(0) =~= b);
    lemma_read_all(b, base, limit, 0, false, p, items, trailer);
    lemma_taken_in(p, landed(base, items));
}

/// An RPM package of a tree gives the tree back, below the base directory, however its
/// payload is compressed.
pub proof fn lemma_rpm_gives_back(
    b: Seq<u8>,
    items: Seq<Item>,
    trailer: Item,
    base: Seq<char>,
    limit: u64,
    log: Seq<EntryView>,
)
    requires
        forall|i: int| 0 <= i < items.len() ==> travels_as(base, #[trigger] items[i]),
        trailer.is_packable(),
        trailer.name == "TRAILER!!!"@,
        total_size(landed(base, items)) <= limit,
        items.len() <= usize::MAX,
        rpm::rpm_payload(b) matches Ok((payload, codec)) && decompressed(codec, payload, None)
            == Ok::<Seq<u8>, Fault>(packed(items, trailer)),
    ensures
        gave(
            unpack_run(b, Format::Rpm, base, limit, fresh(log)),
            log.push(EntryView::Dir(base)),
            landed(base, items),
        ),
{
    let p = fresh(log).with_entry(EntryView::Dir(base));
    lemma_archive_gives_back(items, trailer, base, limit, p);
}

} // verus!
