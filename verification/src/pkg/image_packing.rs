//! What an image that records a tree looks like, and that unpacking gives the tree back.

use vstd::prelude::*;
use vstd::utf8::{encode_utf8, encode_utf8_decode_utf8, encode_utf8_valid_utf8};

use crate::bytes::{begins, le16, le32, le64, span, utf8_lossy};
use crate::path::{is_plain, pushed};
use crate::pkg::appimage;
use crate::pkg::decompress::{decompressed, Codec};
use crate::pkg::squashfs::{
    blocks_from, checked_superblock, children_run, declared_codec, dir_entries, dir_listing,
    directory_end, expanded_from, expanded_table, file_bytes, file_inode, fragment_block,
    fragment_entries, fragment_table, lesser, listed_blocks, lookup_from, metadata_block,
    min_inode, opened, region, unsquash, walk_run, FileInode, Image, Meta, DATA_SIZE_MASK,
    DATA_UNCOMPRESSED, INODE_DIR, INODE_EXT_DIR, INODE_EXT_FILE, INODE_EXT_SYMLINK, INODE_FILE,
    INODE_SYMLINK, NO_FRAGMENT,
};
use crate::pkg::{
    file_count, fresh, rerooted, total_size, unpack_run, EntryView, Fault, Format, Progress, Run,
};

verus! {

/// A place of a tree: a directory with what it holds by name, a file or a link.
pub enum Place {
    Dir(Seq<(Seq<char>, Place)>),
    File { data: Seq<u8>, mode: u32 },
    Link { target: Seq<char> },
}

/// Whether the listed blocks of a file from `i` on, and behind them its fragment, store
/// `rest`: each block is a hole of NULs, stands as it is, or expands to its part.
pub open spec fn stores(
    fs: Image,
    inode: Seq<u8>,
    f: FileInode,
    i: int,
    listed: int,
    cursor: u64,
    rest: Seq<u8>,
) -> bool
    decreases listed - i,
{
    if i >= listed {
        if f.fragment == NO_FRAGMENT {
            rest.len() == 0
        } else {
            fragment_block(fs, f.fragment) matches Ok(block) && span(
                block,
                f.offset as int,
                rest.len() as int,
            ) == Some(rest)
        }
    } else {
        let part = rest.take(lesser(rest.len(), fs.block_size as nat) as int);
        let behind = rest.skip(part.len() as int);
        match span(inode, f.list_at + i * 4, 4) {
            None => false,
            Some(word) => {
                let entry = le32(word, 0);
                let size = (entry & DATA_SIZE_MASK) as nat;
                if size == 0 {
                    part == Seq::new(part.len(), |k: int| 0u8) && stores(
                        fs,
                        inode,
                        f,
                        i + 1,
                        listed,
                        cursor,
                        behind,
                    )
                } else {
                    match region(fs, cursor, size) {
                        Err(_) => false,
                        Ok(raw) => {
                            &&& if entry & DATA_UNCOMPRESSED != 0 {
                                raw == part
                            } else {
                                decompressed(fs.codec, raw, Some(part.len())) == Ok::<
                                    Seq<u8>,
                                    Fault,
                                >(part)
                            }
                            &&& stores(
                                fs,
                                inode,
                                f,
                                i + 1,
                                listed,
                                (cursor + size) as u64,
                                behind,
                            )
                        },
                    }
                }
            },
        }
    }
}

/// Whether a file inode records a file.
pub open spec fn records_file(
    fs: Image,
    inode: Seq<u8>,
    kind: u16,
    data: Seq<u8>,
    mode: u32,
) -> bool {
    let f = file_inode(inode, kind);
    &&& f.size == data.len()
    &&& f.size <= usize::MAX
    &&& stores(fs, inode, f, 0, listed_blocks(f, fs.block_size), f.start, data)
    &&& (le16(inode, 2) as u32) & 0xfff == mode
}

/// Whether the inode at `reference` records a place, `depth` levels below the root: a
/// directory lists what it holds, in order and by plain names, no deeper than the limit.
pub open spec fn records(fs: Image, reference: u64, place: Place, depth: nat) -> bool
    decreases 2 * (65 - depth), 0nat,
{
    match fs.inodes.at(reference) {
        None => false,
        Some(inode) => {
            let kind = le16(inode, 0);
            &&& inode.len() >= 16
            &&& min_inode(kind) matches Some(min) && inode.len() >= min
            &&& match place {
                Place::Dir(held) => {
                    &&& kind == INODE_DIR || kind == INODE_EXT_DIR
                    &&& depth < 64
                    &&& match dir_listing(fs, inode, kind) {
                        None => false,
                        Some(l) => {
                            &&& dir_entries(l, 0, 0).len() == held.len()
                            &&& records_from(fs, dir_entries(l, 0, 0), held, 0, depth)
                        },
                    }
                },
                Place::File { data, mode } => {
                    &&& kind == INODE_FILE || kind == INODE_EXT_FILE
                    &&& records_file(fs, inode, kind, data, mode)
                },
                Place::Link { target } => {
                    &&& kind == INODE_SYMLINK || kind == INODE_EXT_SYMLINK
                    &&& span(inode, 24, le32(inode, 20) as int) == Some(encode_utf8(target))
                },
            }
        },
    }
}

/// Whether the children of a directory from `i` on are recorded under their names, which
/// are plain.
pub open spec fn records_from(
    fs: Image,
    kids: Seq<(Seq<char>, u64)>,
    held: Seq<(Seq<char>, Place)>,
    i: int,
    depth: nat,
) -> bool
    decreases 2 * (65 - depth) - 1, kids.len() - i,
{
    if i < 0 || i >= kids.len() || depth >= 64 {
        true
    } else {
        &&& kids[i].0 == held[i].0
        &&& is_plain(held[i].0)
        &&& records(fs, kids[i].1, held[i].1, depth + 1)
        &&& records_from(fs, kids, held, i + 1, depth)
    }
}

/// The entries that unpacking makes of a place that lands at `path`, `depth` levels below
/// the root: a directory comes before what it holds.
pub open spec fn landed(base: Seq<char>, path: Seq<char>, place: Place, depth: nat) -> Seq<
    EntryView,
>
    decreases 2 * (65 - depth), 0nat,
{
    match place {
        Place::Dir(held) => if depth >= 64 {
            seq![EntryView::Dir(path)]
        } else {
            seq![EntryView::Dir(path)] + landed_from(base, path, held, 0, depth)
        },
        Place::File { data, mode } => seq![EntryView::File { path, data, mode }],
        Place::Link { target } => seq![EntryView::Symlink { path, target: rerooted(base, target) }],
    }
}

/// The entries that unpacking makes of what a directory holds, from `i` on.
pub open spec fn landed_from(
    base: Seq<char>,
    path: Seq<char>,
    held: Seq<(Seq<char>, Place)>,
    i: int,
    depth: nat,
) -> Seq<EntryView>
    decreases 2 * (65 - depth) - 1, held.len() - i,
{
    if i < 0 || i >= held.len() || depth >= 64 {
        Seq::empty()
    } else {
        landed(base, pushed(path, held[i].0), held[i].1, depth + 1) + landed_from(
            base,
            path,
            held,
            i + 1,
            depth,
        )
    }
}

/// What taking some entries in, one by one, adds.
pub open spec fn taken_in(p: Progress, entries: Seq<EntryView>) -> Progress
    decreases entries.len(),
{
    if entries.len() == 0 {
        p
    } else {
        let q = taken_in(p, entries.drop_last());
        match entries.last() {
            EntryView::File { path, data, mode } => q.counting(data.len()).with_entry(
                entries.last(),
            ),
            _ => q.with_entry(entries.last()),
        }
    }
}

pub(crate) proof fn lemma_taken_in_two(p: Progress, a: Seq<EntryView>, b: Seq<EntryView>)
    ensures
        taken_in(p, a + b) == taken_in(taken_in(p, a), b),
        total_size(a + b) == total_size(a) + total_size(b),
        file_count(a + b) == file_count(a) + file_count(b),
    decreases b.len(),
{
    let all = a + b;
    if b.len() == 0 {
        assert(all =~= a);
    } else {
        assert(all.drop_last() =~= a + b.drop_last());
        assert(all.last() == b.last());
        lemma_taken_in_two(p, a, b.drop_last());
    }
}

/// Where taking entries in gets to, as long as the counters reach.
pub(crate) proof fn lemma_taken_in(p: Progress, entries: Seq<EntryView>)
    requires
        p.bytes + total_size(entries) <= u64::MAX,
    ensures
        taken_in(p, entries).entries == p.entries + entries,
        taken_in(p, entries).warnings == p.warnings,
        taken_in(p, entries).bytes == p.bytes + total_size(entries),
        p.files + entries.len() <= usize::MAX ==> taken_in(p, entries).files == p.files
            + file_count(entries),
    decreases entries.len(),
{
    if entries.len() == 0 {
        assert(p.entries + entries =~= p.entries);
    } else {
        lemma_taken_in(p, entries.drop_last());
        lemma_count_bound(entries.drop_last());
        assert((p.entries + entries.drop_last()).push(entries.last()) =~= p.entries + entries);
    }
}

proof fn lemma_count_bound(entries: Seq<EntryView>)
    ensures
        file_count(entries) <= entries.len(),
    decreases entries.len(),
{
    if entries.len() > 0 {
        lemma_count_bound(entries.drop_last());
    }
}

/// A file that is stored is read back.
proof fn lemma_stored_file(
    fs: Image,
    inode: Seq<u8>,
    f: FileInode,
    i: int,
    listed: int,
    cursor: u64,
    acc: Seq<u8>,
    rest: Seq<u8>,
)
    requires
        f.size == acc.len() + rest.len(),
        stores(fs, inode, f, i, listed, cursor, rest),
    ensures
        ({
            let read = blocks_from(fs, inode, f, i, listed, cursor, acc);
            &&& read is Ok
            &&& if f.fragment == NO_FRAGMENT {
                read->Ok_0 == acc + rest
            } else {
                let tail = acc.len() + rest.len() - read->Ok_0.len();
                &&& tail >= 0
                &&& fragment_block(fs, f.fragment) is Ok
                &&& span(fragment_block(fs, f.fragment)->Ok_0, f.offset as int, tail) is Some
                &&& read->Ok_0 + span(
                    fragment_block(fs, f.fragment)->Ok_0,
                    f.offset as int,
                    tail,
                )->0 == acc + rest
            }
        }),
    decreases listed - i,
{
    if i >= listed {
        assert(f.fragment == NO_FRAGMENT ==> acc + rest =~= acc);
    } else {
        let part = rest.take(lesser(rest.len(), fs.block_size as nat) as int);
        let behind = rest.skip(part.len() as int);
        let word = span(inode, f.list_at + i * 4, 4)->0;
        let entry = le32(word, 0);
        let size = (entry & DATA_SIZE_MASK) as nat;
        assert(acc + rest =~= (acc + part) + behind);
        let next = if size == 0 {
            cursor
        } else {
            (cursor + size) as u64
        };
        lemma_stored_file(fs, inode, f, i + 1, listed, next, acc + part, behind);
    }
}

proof fn lemma_recorded_file(
    fs: Image,
    inode: Seq<u8>,
    kind: u16,
    data: Seq<u8>,
    mode: u32,
    limit: u64,
)
    requires
        records_file(fs, inode, kind, data, mode),
        data.len() <= limit,
    ensures
        file_bytes(fs, inode, kind, limit) == Ok::<Seq<u8>, Fault>(data),
{
    let f = file_inode(inode, kind);
    let none = Seq::<u8>::empty();
    assert(none + data =~= data);
    lemma_stored_file(
        fs,
        inode,
        f,
        0,
        listed_blocks(f, fs.block_size),
        f.start,
        none,
        data,
    );
    assert(data.take(data.len() as int) =~= data);
}

proof fn lemma_walk(
    fs: Image,
    limit: u64,
    base: Seq<char>,
    reference: u64,
    path: Seq<char>,
    place: Place,
    depth: nat,
    p: Progress,
)
    requires
        records(fs, reference, place, depth),
        p.bytes + total_size(landed(base, path, place, depth)) <= limit,
    ensures
        walk_run(fs, limit, base, reference, path, depth, p) == taken_in(
            p,
            landed(base, path, place, depth),
        ).done(),
    decreases 2 * (65 - depth), 0nat,
{
    let inode = fs.inodes.at(reference)->0;
    let kind = le16(inode, 0);
    let all = landed(base, path, place, depth);
    let none = Seq::<EntryView>::empty();
    match place {
        Place::Dir(held) => {
            let l = dir_listing(fs, inode, kind)->0;
            let first = seq![EntryView::Dir(path)];
            let rest = landed_from(base, path, held, 0, depth);
            let q = p.with_entry(EntryView::Dir(path));
            lemma_taken_in_two(p, first, rest);
            assert(first.drop_last() =~= none);
            assert(taken_in(p, none) == p);
            assert(taken_in(p, first) == q);
            assert(total_size(none) == 0);
            assert(total_size(first) == 0);
            lemma_children(fs, limit, base, dir_entries(l, 0, 0), 0, path, held, depth, q);
        },
        Place::File { data, mode } => {
            let e = EntryView::File { path, data, mode };
            assert(all.drop_last() =~= none);
            assert(taken_in(p, none) == p);
            assert(total_size(none) == 0);
            assert(total_size(all) == data.len());
            lemma_recorded_file(fs, inode, kind, data, mode, limit);
            assert(taken_in(p, all) == p.counting(data.len()).with_entry(e));
        },
        Place::Link { target } => {
            encode_utf8_valid_utf8(target);
            encode_utf8_decode_utf8(target);
            assert(all.drop_last() =~= none);
            assert(taken_in(p, none) == p);
            assert(utf8_lossy(encode_utf8(target)) == target);
        },
    }
}

proof fn lemma_children(
    fs: Image,
    limit: u64,
    base: Seq<char>,
    kids: Seq<(Seq<char>, u64)>,
    i: int,
    path: Seq<char>,
    held: Seq<(Seq<char>, Place)>,
    depth: nat,
    p: Progress,
)
    requires
        0 <= i <= kids.len(),
        kids.len() == held.len(),
        depth < 64,
        records_from(fs, kids, held, i, depth),
        p.bytes + total_size(landed_from(base, path, held, i, depth)) <= limit,
    ensures
        children_run(fs, limit, base, kids, i, path, depth, p) == taken_in(
            p,
            landed_from(base, path, held, i, depth),
        ).done(),
    decreases 2 * (65 - depth) - 1, kids.len() - i,
{
    if i < kids.len() {
        let (name, child) = kids[i];
        let at = pushed(path, name);
        let one = landed(base, at, held[i].1, depth + 1);
        let rest = landed_from(base, path, held, i + 1, depth);
        lemma_taken_in_two(p, one, rest);
        lemma_walk(fs, limit, base, child, at, held[i].1, depth + 1, p);
        lemma_taken_in(p, one);
        lemma_children(fs, limit, base, kids, i + 1, path, held, depth, taken_in(p, one));
    }
}

/// Whether an unpack gave exactly some entries, in order: nothing besides, no problem met,
/// and everything counted.
pub open spec fn gave(run: Run, before: Seq<EntryView>, entries: Seq<EntryView>) -> bool {
    &&& run.result is Ok
    &&& run.at.entries == before + entries
    &&& run.at.warnings.len() == 0
    &&& run.at.files == file_count(entries)
    &&& run.at.bytes == total_size(entries)
}

/// An image that records a tree gives the tree back, whatever its blocks are compressed
/// with and however they are laid out.
pub proof fn lemma_image_gives_back(
    b: Seq<u8>,
    fs: Image,
    tree: Place,
    base: Seq<char>,
    limit: u64,
    p: Progress,
)
    requires
        opened(b) == Ok::<Image, Fault>(fs),
        records(fs, fs.root, tree, 0),
        total_size(landed(base, base, tree, 0)) <= limit,
        landed(base, base, tree, 0).len() <= usize::MAX,
        p.files == 0,
        p.bytes == 0,
        p.warnings.len() == 0,
    ensures
        gave(unsquash(b, base, limit, p), p.entries, landed(base, base, tree, 0)),
{
    lemma_walk(fs, limit, base, fs.root, base, tree, 0, p);
    lemma_taken_in(p, landed(base, base, tree, 0));
}

/// A snap or an AppImage of a tree gives the tree back, below the base directory.
pub proof fn lemma_package_gives_back(
    b: Seq<u8>,
    format: Format,
    fs: Image,
    tree: Place,
    base: Seq<char>,
    limit: u64,
    log: Seq<EntryView>,
)
    requires
        match format {
            Format::Snap => opened(b) == Ok::<Image, Fault>(fs),
            Format::AppImage => appimage::has_elf_magic(b) && (appimage::appimage_payload(
                b,
            ) matches Ok(image) && opened(image) == Ok::<Image, Fault>(fs)),
            _ => false,
        },
        records(fs, fs.root, tree, 0),
        total_size(landed(base, base, tree, 0)) <= limit,
        landed(base, base, tree, 0).len() <= usize::MAX,
    ensures
        gave(
            unpack_run(b, format, base, limit, fresh(log)),
            log.push(EntryView::Dir(base)),
            landed(base, base, tree, 0),
        ),
{
    let p = fresh(log).with_entry(EntryView::Dir(base));
    match format {
        Format::Snap => lemma_image_gives_back(b, fs, tree, base, limit, p),
        Format::AppImage => {
            let image = appimage::appimage_payload(b)->Ok_0;
            lemma_image_gives_back(image, fs, tree, base, limit, p);
        },
        _ => {},
    }
}

// ---------- directory listings ----------------------------------------------

/// A 16-bit number, low byte first.
#[verifier::opaque]
pub open spec fn two(n: u16) -> Seq<u8> {
    seq![(n % 256) as u8, (n / 256) as u8]
}

/// A 32-bit number, low byte first.
#[verifier::opaque]
pub open spec fn four(n: u32) -> Seq<u8> {
    seq![
        (n % 256) as u8,
        (n / 256 % 256) as u8,
        (n / 0x1_0000 % 256) as u8,
        (n / 0x100_0000) as u8,
    ]
}

/// One line of a listing: a name, where in its block the inode stands, and what a reader
/// has no use for.
pub struct Line {
    pub name: Seq<char>,
    pub offset: u16,
    pub extra: Seq<u8>,
}

/// A run of lines whose inodes share a block.
pub struct Batch {
    pub block: u32,
    pub extra: Seq<u8>,
    pub lines: Seq<Line>,
}

impl Line {
    /// Whether a listing can hold the line.
    pub open spec fn is_packable(self) -> bool {
        &&& 1 <= encode_utf8(self.name).len() <= 0x1_0000
        &&& self.extra.len() == 4
    }

    /// The line as a listing holds it.
    pub open spec fn packed(self) -> Seq<u8> {
        let name = encode_utf8(self.name);
        two(self.offset) + self.extra + two((name.len() - 1) as u16) + name
    }

    /// What the line lists, for a block: a name and an inode reference.
    pub open spec fn listed(self, block: u32) -> (Seq<char>, u64) {
        (self.name, ((block as u64) << 16) | self.offset as u64)
    }
}

/// Lines, one behind the other.
pub open spec fn packed_lines(lines: Seq<Line>) -> Seq<u8>
    decreases lines.len(),
{
    if lines.len() == 0 {
        Seq::empty()
    } else {
        lines[0].packed() + packed_lines(lines.skip(1))
    }
}

impl Batch {
    /// Whether a listing can hold the batch.
    pub open spec fn is_packable(self) -> bool {
        &&& 1 <= self.lines.len() <= 0x1_0000_0000
        &&& self.extra.len() == 4
        &&& forall|i: int| 0 <= i < self.lines.len() ==> (#[trigger] self.lines[i]).is_packable()
    }

    /// The batch as a listing holds it.
    pub open spec fn packed(self) -> Seq<u8> {
        four((self.lines.len() - 1) as u32) + four(self.block) + self.extra + packed_lines(
            self.lines,
        )
    }

    /// What the batch lists.
    pub open spec fn listed(self) -> Seq<(Seq<char>, u64)> {
        self.lines.map_values(|x: Line| x.listed(self.block))
    }
}

/// A listing.
pub open spec fn packed_listing(batches: Seq<Batch>) -> Seq<u8>
    decreases batches.len(),
{
    if batches.len() == 0 {
        Seq::empty()
    } else {
        batches[0].packed() + packed_listing(batches.skip(1))
    }
}

/// What a listing lists.
pub open spec fn listed(batches: Seq<Batch>) -> Seq<(Seq<char>, u64)>
    decreases batches.len(),
{
    if batches.len() == 0 {
        Seq::empty()
    } else {
        batches[0].listed() + listed(batches.skip(1))
    }
}

proof fn lemma_lines(lines: Seq<Line>, rest: Seq<u8>, block: u32)
    requires
        forall|i: int| 0 <= i < lines.len() ==> (#[trigger] lines[i]).is_packable(),
    ensures
        dir_entries(packed_lines(lines) + rest, lines.len() as int, block) == lines.map_values(
            |x: Line| x.listed(block),
        ) + dir_entries(rest, 0, 0),
    decreases lines.len(),
{
    let all = packed_lines(lines) + rest;
    let out = lines.map_values(|x: Line| x.listed(block));
    if lines.len() == 0 {
        assert(all =~= rest);
        assert(out + dir_entries(rest, 0, 0) =~= dir_entries(rest, 0, 0));
        assert(dir_entries(rest, 0, block) == dir_entries(rest, 0, 0));
    } else {
        let x = lines[0];
        let more = lines.skip(1);
        assert(lines[0].is_packable());
        let name = encode_utf8(x.name);
        let n = name.len() as int;
        let one = x.packed();
        lemma_lengths();
        assert(one.len() == 8 + n);
        assert(all =~= one + (packed_lines(more) + rest));
        assert(all.subrange(0, 2) =~= two(x.offset));
        assert(all.subrange(6, 8) =~= two((n - 1) as u16));
        lemma_two(all, 0, x.offset);
        lemma_two(all, 6, (n - 1) as u16);
        assert(all.subrange(8, 8 + n) =~= name);
        assert(all.skip(8 + n) =~= packed_lines(more) + rest);
        encode_utf8_valid_utf8(x.name);
        encode_utf8_decode_utf8(x.name);
        assert forall|i: int| 0 <= i < more.len() implies (#[trigger] more[i]).is_packable() by {
            assert(more[i] == lines[i + 1]);
        }
        lemma_lines(more, rest, block);
        let tail = more.map_values(|x: Line| x.listed(block));
        assert(out =~= seq![x.listed(block)] + tail);
        assert(seq![x.listed(block)] + (tail + dir_entries(rest, 0, 0)) =~= out + dir_entries(
            rest,
            0,
            0,
        ));
    }
}

proof fn lemma_four(b: Seq<u8>, at: int, n: u32)
    requires
        0 <= at,
        at + 4 <= b.len(),
        b.subrange(at, at + 4) == four(n),
    ensures
        le32(b, at) == n,
{
    reveal(four);
    let x = b.subrange(at, at + 4);
    assert(b[at] == x[0] && b[at + 1] == x[1] && b[at + 2] == x[2] && b[at + 3] == x[3]);
    assert(n % 256 + 0x100 * (n / 256 % 256) + 0x1_0000 * (n / 0x1_0000 % 256) + 0x100_0000 * (n
        / 0x100_0000) == n);
}

/// A directory listing lists what was written into it, in order, however it is cut into
/// batches.
pub proof fn lemma_listing_reads_back(batches: Seq<Batch>)
    requires
        forall|i: int| 0 <= i < batches.len() ==> (#[trigger] batches[i]).is_packable(),
    ensures
        dir_entries(packed_listing(batches), 0, 0) == listed(batches),
    decreases batches.len(),
{
    let all = packed_listing(batches);
    if batches.len() > 0 {
        let t = batches[0];
        let more = batches.skip(1);
        assert(batches[0].is_packable());
        let rest = packed_listing(more);
        let head = four((t.lines.len() - 1) as u32) + four(t.block) + t.extra;
        lemma_lengths();
        assert(head.len() == 12);
        assert(all =~= head + (packed_lines(t.lines) + rest));
        assert(all.subrange(0, 4) =~= four((t.lines.len() - 1) as u32));
        assert(all.subrange(4, 8) =~= four(t.block));
        lemma_four(all, 0, (t.lines.len() - 1) as u32);
        lemma_four(all, 4, t.block);
        assert(all.skip(12) =~= packed_lines(t.lines) + rest);
        assert forall|i: int| 0 <= i < more.len() implies (#[trigger] more[i]).is_packable() by {
            assert(more[i] == batches[i + 1]);
        }
        lemma_lines(t.lines, rest, t.block);
        lemma_listing_reads_back(more);
    }
}

// ---------- metadata tables -------------------------------------------------

/// Metadata blocks as a table holds them uncompressed: each behind its size.
pub open spec fn packed_blocks(blocks: Seq<Seq<u8>>) -> Seq<u8>
    decreases blocks.len(),
{
    if blocks.len() == 0 {
        Seq::empty()
    } else {
        packed_blocks(blocks.drop_last()) + two((blocks.last().len() + 0x8000) as u16)
            + blocks.last()
    }
}

/// What the blocks hold, one behind the other.
pub open spec fn unpacked_blocks(blocks: Seq<Seq<u8>>) -> Seq<u8>
    decreases blocks.len(),
{
    if blocks.len() == 0 {
        Seq::empty()
    } else {
        unpacked_blocks(blocks.drop_last()) + blocks.last()
    }
}

/// The table that the blocks make: what they hold, and where each of them starts.
pub open spec fn table_of(blocks: Seq<Seq<u8>>) -> Meta
    decreases blocks.len(),
{
    if blocks.len() == 0 {
        Meta { data: Seq::empty(), index: Map::empty() }
    } else {
        let before = table_of(blocks.drop_last());
        Meta {
            data: before.data + blocks.last(),
            index: before.index.insert(
                packed_blocks(blocks.drop_last()).len() as u64,
                before.data.len() as usize,
            ),
        }
    }
}

/// The reference to byte `offset` of what block `k` holds.
pub open spec fn reference_to(blocks: Seq<Seq<u8>>, k: int, offset: u16) -> u64 {
    ((packed_blocks(blocks.take(k)).len() as u64) << 16) | offset as u64
}

proof fn lemma_table_of(blocks: Seq<Seq<u8>>)
    ensures
        table_of(blocks).data == unpacked_blocks(blocks),
        unpacked_blocks(blocks).len() + 2 * blocks.len() == packed_blocks(blocks).len(),
    decreases blocks.len(),
{
    lemma_lengths();
    if blocks.len() > 0 {
        lemma_table_of(blocks.drop_last());
    }
}

proof fn lemma_two(b: Seq<u8>, at: int, n: u16)
    requires
        0 <= at,
        at + 2 <= b.len(),
        b.subrange(at, at + 2) == two(n),
    ensures
        le16(b, at) == n,
{
    reveal(two);
    let x = b.subrange(at, at + 2);
    assert(b[at] == x[0] && b[at + 1] == x[1]);
}

proof fn lemma_packed_prefix(blocks: Seq<Seq<u8>>, k: int)
    requires
        0 <= k <= blocks.len(),
    ensures
        packed_blocks(blocks.take(k)).len() <= packed_blocks(blocks).len(),
        packed_blocks(blocks).take(packed_blocks(blocks.take(k)).len() as int) == packed_blocks(
            blocks.take(k),
        ),
    decreases blocks.len() - k,
{
    let all = packed_blocks(blocks);
    if k == blocks.len() {
        assert(blocks.take(k) =~= blocks);
        assert(all.take(all.len() as int) =~= all);
    } else {
        let head = blocks.drop_last();
        let part = packed_blocks(blocks.take(k));
        lemma_packed_prefix(head, k);
        assert(head.take(k) =~= blocks.take(k));
        assert(all.take(part.len() as int) =~= packed_blocks(head).take(part.len() as int));
    }
}

/// Reading a table from one block on.
#[verifier::spinoff_prover]
proof fn lemma_expand_from(
    b: Seq<u8>,
    start: u64,
    end: u64,
    codec: Codec,
    blocks: Seq<Seq<u8>>,
    k: int,
)
    requires
        0 <= k <= blocks.len(),
        b.len() <= usize::MAX,
        end == start + packed_blocks(blocks).len(),
        end <= b.len(),
        b.subrange(start as int, end as int) == packed_blocks(blocks),
        forall|i: int| 0 <= i < blocks.len() ==> 1 <= (#[trigger] blocks[i]).len() <= 0x2000,
    ensures
        expanded_from(
            b,
            start,
            end,
            (start + packed_blocks(blocks.take(k)).len()) as u64,
            codec,
            table_of(blocks.take(k)),
        ) == Ok::<Meta, Fault>(table_of(blocks)),
    decreases blocks.len() - k,
{
    let here = packed_blocks(blocks.take(k));
    lemma_lengths();
    lemma_packed_prefix(blocks, k);
    if k == blocks.len() {
        assert(blocks.take(k) =~= blocks);
    } else {
        let block = blocks[k];
        let size = (block.len() + 0x8000) as u16;
        let more = blocks.take(k + 1);
        let there = packed_blocks(more);
        assert(more.drop_last() =~= blocks.take(k));
        assert(more.last() == block);
        assert(there == here + two(size) + block);
        lemma_packed_prefix(blocks, k + 1);
        lemma_expand_from(b, start, end, codec, blocks, k + 1);
        let at = start + here.len();
        let whole = b.subrange(start as int, end as int);
        let n = here.len() as int;
        let m = there.len() as int;
        assert(b.subrange(start as int, start + m) =~= whole.take(m));
        let read = b.subrange(start as int, start + m);
        assert(b.subrange(at, at + 2) =~= read.subrange(n, n + 2));
        assert(there.subrange(n, n + 2) =~= two(size));
        lemma_two(b, at, size);
        assert(size & 0x7fff == size - 0x8000 && size & 0x8000 != 0) by (bit_vector)
            requires
                0x8000 <= size <= 0xa000,
        ;
        assert(b.subrange(at + 2, at + 2 + block.len()) =~= read.subrange(n + 2, m));
        assert(there.subrange(n + 2, m) =~= block);
        lemma_table_of(blocks.take(k));
        lemma_table_of(more);
        assert(metadata_block(b, at as u64, codec) == Ok::<(Seq<u8>, u64), Fault>(
            (block, (start + there.len()) as u64),
        ));
    }
}

/// Where a block starts, the table says so, whatever follows it.
proof fn lemma_indexed(blocks: Seq<Seq<u8>>, k: int)
    requires
        0 <= k < blocks.len(),
        packed_blocks(blocks).len() <= usize::MAX,
    ensures
        table_of(blocks).index.dom().contains(packed_blocks(blocks.take(k)).len() as u64),
        table_of(blocks).index[packed_blocks(blocks.take(k)).len() as u64] == unpacked_blocks(
            blocks.take(k),
        ).len(),
    decreases blocks.len(),
{
    let head = blocks.drop_last();
    lemma_lengths();
    lemma_table_of(blocks);
    lemma_table_of(head);
    if k == blocks.len() - 1 {
        assert(blocks.take(k) =~= head);
    } else {
        lemma_indexed(head, k);
        assert(head.take(k) =~= blocks.take(k));
        lemma_packed_prefix(head, k + 1);
        let next = head.take(k + 1);
        assert(next.drop_last() =~= head.take(k));
        assert(packed_blocks(next).len() > packed_blocks(head.take(k)).len());
    }
}

/// A metadata table is read as the blocks that were written into it, and a reference into
/// a block leads to what stands there.
pub proof fn lemma_table_reads_back(
    b: Seq<u8>,
    start: u64,
    end: u64,
    codec: Codec,
    blocks: Seq<Seq<u8>>,
    k: int,
    offset: u16,
)
    requires
        b.len() <= usize::MAX,
        b.len() < 0x1_0000_0000_0000,
        end == start + packed_blocks(blocks).len(),
        end <= b.len(),
        b.subrange(start as int, end as int) == packed_blocks(blocks),
        forall|i: int| 0 <= i < blocks.len() ==> 1 <= (#[trigger] blocks[i]).len() <= 0x2000,
        0 <= k < blocks.len(),
        offset <= blocks[k].len(),
    ensures
        expanded_table(b, start, end, codec) == Ok::<Meta, Fault>(table_of(blocks)),
        table_of(blocks).at(reference_to(blocks, k, offset)) == Some(
            unpacked_blocks(blocks).skip(unpacked_blocks(blocks.take(k)).len() + offset),
        ),
{
    lemma_expand_from(b, start, end, codec, blocks, 0);
    assert(blocks.take(0) =~= Seq::<Seq<u8>>::empty());
    lemma_indexed(blocks, k);
    lemma_table_of(blocks);
    lemma_table_of(blocks.take(k));
    let more = blocks.take(k + 1);
    assert(more.drop_last() =~= blocks.take(k));
    lemma_table_of(more);
    lemma_packed_prefix(blocks, k);
    lemma_packed_prefix(blocks, k + 1);
    lemma_unpacked_prefix(blocks, k + 1);
    let x = packed_blocks(blocks.take(k)).len() as u64;
    let o = offset as u64;
    assert(((x << 16) | o) >> 16 == x && ((x << 16) | o) & 0xffff == o) by (bit_vector)
        requires
            x < 0x1_0000_0000_0000,
            o <= 0xffff,
    ;
}

proof fn lemma_unpacked_prefix(blocks: Seq<Seq<u8>>, k: int)
    requires
        0 <= k <= blocks.len(),
    ensures
        unpacked_blocks(blocks.take(k)).len() <= unpacked_blocks(blocks).len(),
    decreases blocks.len() - k,
{
    if k == blocks.len() {
        assert(blocks.take(k) =~= blocks);
    } else {
        lemma_unpacked_prefix(blocks, k + 1);
        assert(blocks.take(k + 1).drop_last() =~= blocks.take(k));
    }
}

// ---------- whole images ----------------------------------------------------

/// A 64-bit number, low byte first.
#[verifier::opaque]
pub open spec fn eight(n: u64) -> Seq<u8> {
    four((n % 0x1_0000_0000) as u32) + four((n / 0x1_0000_0000) as u32)
}

/// How an image is laid out: what its superblock records, its data, its two metadata
/// tables, and what follows them.
pub struct Layout {
    pub counts: Seq<u8>,
    pub block_size: u32,
    pub fragments: u32,
    pub codec: u16,
    pub notes: Seq<u8>,
    pub minor: u16,
    pub root: u64,
    pub used: u64,
    pub ids: u64,
    pub xattrs: u64,
    pub fragment_table: u64,
    pub exports: u64,
    pub data: Seq<u8>,
    pub inodes: Seq<Seq<u8>>,
    pub directories: Seq<Seq<u8>>,
    pub rest: Seq<u8>,
}

impl Layout {
    /// Where the inode table starts.
    pub open spec fn inodes_at(self) -> nat {
        96 + self.data.len()
    }

    /// Where the directory table starts, behind it.
    pub open spec fn directories_at(self) -> nat {
        self.inodes_at() + packed_blocks(self.inodes).len()
    }

    /// Where the directory table ends.
    pub open spec fn tables_end(self) -> nat {
        self.directories_at() + packed_blocks(self.directories).len()
    }

    /// What the superblock opens with.
    pub open spec fn opening(self) -> Seq<u8> {
        seq![0x68u8, 0x73, 0x71, 0x73] + self.counts + four(self.block_size) + four(self.fragments)
            + two(self.codec) + self.notes + two(4) + two(self.minor)
    }

    /// The places that the superblock records.
    pub open spec fn places(self) -> Seq<u64> {
        seq![
            self.root,
            self.used,
            self.ids,
            self.xattrs,
            self.inodes_at() as u64,
            self.directories_at() as u64,
            self.fragment_table,
            self.exports,
        ]
    }

    /// The superblock.
    pub open spec fn superblock(self) -> Seq<u8> {
        self.opening() + eights(self.places())
    }

    /// The image.
    pub open spec fn packed(self) -> Seq<u8> {
        self.superblock() + self.data + packed_blocks(self.inodes) + packed_blocks(
            self.directories,
        ) + self.rest
    }

    /// The image as a reader has it open.
    pub open spec fn image(self, fragments: Seq<(u64, u32)>) -> Image {
        Image {
            bytes: self.packed(),
            block_size: self.block_size,
            root: self.root,
            codec: declared_codec(self.codec)->0,
            inodes: table_of(self.inodes),
            directories: table_of(self.directories),
            fragments,
        }
    }

    /// Whether another table, where there is one, stands behind the directory table.
    pub open spec fn is_behind(self, table: u64) -> bool {
        table >= self.tables_end()
    }

    /// Whether an image can be laid out so: the tables stand in order, and one that follows
    /// tells where the directory table ends.
    pub open spec fn is_packable(self) -> bool {
        &&& self.counts.len() == 8
        &&& self.notes.len() == 6
        &&& declared_codec(self.codec) is Some
        &&& declared_codec(self.codec) != Some(Codec::Lzo)
        &&& 0 < self.block_size <= 0x10_0000
        &&& self.packed().len() <= usize::MAX
        &&& self.packed().len() < 0x1_0000_0000_0000
        &&& self.inodes.len() > 0
        &&& self.directories.len() > 0
        &&& forall|i: int| 0 <= i < self.inodes.len() ==> 1 <= (#[trigger] self.inodes[i]).len()
            <= 0x2000
        &&& forall|i: int|
            0 <= i < self.directories.len() ==> 1 <= (#[trigger] self.directories[i]).len()
                <= 0x2000
        &&& self.is_behind(self.used) && self.is_behind(self.ids) && self.is_behind(self.xattrs)
        &&& self.is_behind(self.exports)
        &&& self.fragment_table == self.tables_end()
    }
}

proof fn lemma_lengths()
    ensures
        forall|n: u16| (#[trigger] two(n)).len() == 2,
        forall|n: u32| (#[trigger] four(n)).len() == 4,
        forall|n: u64| (#[trigger] eight(n)).len() == 8,
{
    reveal(two);
    reveal(four);
    reveal(eight);
}

/// 64-bit numbers, one behind the other.
pub open spec fn eights(ns: Seq<u64>) -> Seq<u8>
    decreases ns.len(),
{
    if ns.len() == 0 {
        Seq::empty()
    } else {
        eights(ns.drop_last()) + eight(ns.last())
    }
}

proof fn lemma_eights(ns: Seq<u64>, i: int)
    requires
        0 <= i < ns.len(),
    ensures
        eights(ns).len() == 8 * ns.len(),
        eights(ns).subrange(8 * i, 8 * i + 8) == eight(ns[i]),
    decreases ns.len(),
{
    lemma_lengths();
    let head = ns.drop_last();
    if ns.len() == 1 {
        assert(head =~= Seq::empty());
        assert(eights(head).len() == 0);
        assert(eights(ns).subrange(0, 8) =~= eight(ns[0]));
    } else if i == ns.len() - 1 {
        lemma_eights(head, 0);
        assert(eights(ns).subrange(8 * i, 8 * i + 8) =~= eight(ns[i]));
    } else {
        lemma_eights(head, i);
        assert(eights(ns).subrange(8 * i, 8 * i + 8) =~= eights(head).subrange(8 * i, 8 * i + 8));
    }
}

proof fn lemma_eight(b: Seq<u8>, at: int, n: u64)
    requires
        0 <= at,
        at + 8 <= b.len(),
        b.subrange(at, at + 8) == eight(n),
    ensures
        le64(b, at) == n,
{
    reveal(eight);
    lemma_lengths();
    let x = b.subrange(at, at + 8);
    let low = (n % 0x1_0000_0000) as u32;
    let high = (n / 0x1_0000_0000) as u32;
    assert(b.subrange(at, at + 4) =~= x.subrange(0, 4));
    assert(b.subrange(at + 4, at + 8) =~= x.subrange(4, 8));
    assert(eight(n).subrange(0, 4) =~= four(low));
    assert(eight(n).subrange(4, 8) =~= four(high));
    lemma_four(b, at, low);
    lemma_four(b, at + 4, high);
    assert(n % 0x1_0000_0000 + 0x1_0000_0000 * (n / 0x1_0000_0000) == n);
}

/// What the superblock of an image opens with is read so.
#[verifier::spinoff_prover]
proof fn lemma_opening(x: Layout, b: Seq<u8>)
    requires
        x.counts.len() == 8,
        x.notes.len() == 6,
        b.len() >= 32,
        b.subrange(0, 32) == x.opening(),
    ensures
        x.opening().len() == 32,
        b.take(4) == seq![0x68u8, 0x73, 0x71, 0x73],
        le32(b, 12) == x.block_size,
        le32(b, 16) == x.fragments,
        le16(b, 20) == x.codec,
        le16(b, 28) == 4,
{
    lemma_lengths();
    let h = x.opening();
    let magic = seq![0x68u8, 0x73, 0x71, 0x73];
    assert(h.len() == 32);
    assert(b.take(4) =~= b.subrange(0, 4));
    lemma_within_head(b, h, 0, 4);
    lemma_within_head(b, h, 12, 16);
    lemma_within_head(b, h, 16, 20);
    lemma_within_head(b, h, 20, 22);
    lemma_within_head(b, h, 28, 30);
    assert(h.subrange(0, 4) =~= magic);
    assert(h.subrange(12, 16) =~= four(x.block_size));
    assert(h.subrange(16, 20) =~= four(x.fragments));
    assert(h.subrange(20, 22) =~= two(x.codec));
    assert(h.subrange(28, 30) =~= two(4));
    lemma_four(b, 12, x.block_size);
    lemma_four(b, 16, x.fragments);
    lemma_two(b, 20, x.codec);
    lemma_two(b, 28, 4);
}

/// The places that a superblock records are read back.
#[verifier::spinoff_prover]
proof fn lemma_places(b: Seq<u8>, ns: Seq<u64>, i: int)
    requires
        0 <= i < ns.len() == 8,
        b.len() >= 96,
        b.subrange(32, 96) == eights(ns),
    ensures
        le64(b, 32 + 8 * i) == ns[i],
{
    lemma_eights(ns, i);
    assert(b.subrange(32 + 8 * i, 40 + 8 * i) =~= b.subrange(32, 96).subrange(8 * i, 8 * i + 8));
    lemma_eight(b, 32 + 8 * i, ns[i]);
}

proof fn lemma_within_head(b: Seq<u8>, h: Seq<u8>, from: int, to: int)
    requires
        0 <= from <= to <= h.len() <= b.len(),
        b.subrange(0, h.len() as int) == h,
    ensures
        b.subrange(from, to) == h.subrange(from, to),
{
    assert(b.subrange(from, to) =~= b.subrange(0, h.len() as int).subrange(from, to));
}

/// What is read off the superblock of an image.
#[verifier::spinoff_prover]
proof fn lemma_superblock(x: Layout, b: Seq<u8>)
    requires
        x.is_packable(),
        b.len() >= 96,
        b.subrange(0, 32) == x.opening(),
        b.subrange(32, 96) == eights(x.places()),
    ensures
        checked_superblock(b) == Ok::<Codec, Fault>(declared_codec(x.codec)->0),
        le32(b, 12) == x.block_size,
        le32(b, 16) == x.fragments,
        le64(b, 32) == x.root,
        le64(b, 40) == x.used,
        le64(b, 48) == x.ids,
        le64(b, 56) == x.xattrs,
        le64(b, 64) == x.inodes_at() as u64,
        le64(b, 72) == x.directories_at() as u64,
        le64(b, 80) == x.fragment_table,
        le64(b, 88) == x.exports,
{
    lemma_opening(x, b);
    let ns = x.places();
    lemma_places(b, ns, 0);
    lemma_places(b, ns, 1);
    lemma_places(b, ns, 2);
    lemma_places(b, ns, 3);
    lemma_places(b, ns, 4);
    lemma_places(b, ns, 5);
    lemma_places(b, ns, 6);
    lemma_places(b, ns, 7);
    let other = seq![0x73u8, 0x71, 0x73, 0x68];
    assert(!begins(b, other)) by {
        if begins(b, other) {
            assert(b.take(4) == other);
            assert(b.take(4)[0] == other[0]);
        }
    }
}

/// Where the directory table ends is told by the table behind it.
#[verifier::spinoff_prover]
proof fn lemma_directory_end(b: Seq<u8>, at: u64, end: u64)
    requires
        at < end <= b.len(),
        le64(b, 72) == at,
        le64(b, 80) == end,
        le64(b, 40) >= end,
        le64(b, 48) >= end,
        le64(b, 56) >= end,
        le64(b, 88) >= end,
    ensures
        directory_end(b) == end,
{
}

proof fn lemma_blocks_take_room(blocks: Seq<Seq<u8>>)
    requires
        blocks.len() > 0,
    ensures
        packed_blocks(blocks).len() > 0,
{
    lemma_lengths();
}

/// An image opens as it was laid out: with the tables that were written into it.
#[verifier::spinoff_prover]
pub proof fn lemma_layout_opens(x: Layout)
    requires
        x.is_packable(),
    ensures
        opened(x.packed()) == match fragment_table(
            x.packed(),
            x.fragments,
            x.fragment_table,
            declared_codec(x.codec)->0,
        ) {
            Ok(fragments) => Ok::<Image, Fault>(x.image(fragments)),
            Err(e) => Err(e),
        },
{
    let b = x.packed();
    let codec = declared_codec(x.codec)->0;
    let first = x.inodes_at() as u64;
    let second = x.directories_at() as u64;
    let end = x.tables_end() as u64;
    lemma_layout_parts(x);
    lemma_blocks_take_room(x.inodes);
    lemma_blocks_take_room(x.directories);
    lemma_superblock(x, b);
    lemma_directory_end(b, second, end);
    lemma_table_reads_back(b, first, second, codec, x.inodes, 0, 0);
    lemma_table_reads_back(b, second, end, codec, x.directories, 0, 0);
}

/// A tree that is packed into an image comes back: where the tables that are written into
/// the image record the tree, unpacking the image gives the tree.
pub proof fn lemma_layout_gives_back(
    x: Layout,
    fragments: Seq<(u64, u32)>,
    tree: Place,
    base: Seq<char>,
    limit: u64,
    p: Progress,
)
    requires
        x.is_packable(),
        fragment_table(x.packed(), x.fragments, x.fragment_table, declared_codec(x.codec)->0)
            == Ok::<Seq<(u64, u32)>, Fault>(fragments),
        records(x.image(fragments), x.root, tree, 0),
        total_size(landed(base, base, tree, 0)) <= limit,
        landed(base, base, tree, 0).len() <= usize::MAX,
        p.files == 0,
        p.bytes == 0,
        p.warnings.len() == 0,
    ensures
        gave(unsquash(x.packed(), base, limit, p), p.entries, landed(base, base, tree, 0)),
{
    lemma_layout_opens(x);
    lemma_image_gives_back(x.packed(), x.image(fragments), tree, base, limit, p);
}

/// Where the parts of an image stand.
#[verifier::spinoff_prover]
proof fn lemma_layout_parts(x: Layout)
    requires
        x.counts.len() == 8,
        x.notes.len() == 6,
    ensures
        x.packed().len() == x.tables_end() + x.rest.len(),
        x.packed().subrange(0, 32) == x.opening(),
        x.packed().subrange(32, 96) == eights(x.places()),
        x.packed().subrange(x.inodes_at() as int, x.directories_at() as int) == packed_blocks(
            x.inodes,
        ),
        x.packed().subrange(x.directories_at() as int, x.tables_end() as int) == packed_blocks(
            x.directories,
        ),
{
    lemma_lengths();
    lemma_eights(x.places(), 0);
    let b = x.packed();
    let one = x.opening();
    let more = eights(x.places());
    assert(one.len() == 32);
    assert(b.subrange(0, 32) =~= one);
    assert(b.subrange(32, 96) =~= more);
    assert(b.subrange(x.inodes_at() as int, x.directories_at() as int) =~= packed_blocks(
        x.inodes,
    ));
    assert(b.subrange(x.directories_at() as int, x.tables_end() as int) =~= packed_blocks(
        x.directories,
    ));
}

// ---------- fragment tables -------------------------------------------------

/// Fragment entries as their blocks hold them: where each starts, its size, and four bytes
/// that are not used.
pub open spec fn packed_entries(entries: Seq<(u64, u32)>) -> Seq<u8>
    decreases entries.len(),
{
    if entries.len() == 0 {
        Seq::empty()
    } else {
        packed_entries(entries.drop_last()) + (eight(entries.last().0) + four(entries.last().1)
            + four(0))
    }
}

/// Whether an uncompressed metadata block stands at a place.
pub open spec fn stands(b: Seq<u8>, place: u64, block: Seq<u8>) -> bool {
    &&& 1 <= block.len() <= 0x2000
    &&& place + 2 + block.len() <= b.len()
    &&& b.subrange(place as int, place + 2) == two((block.len() + 0x8000) as u16)
    &&& b.subrange(place + 2, place + 2 + block.len()) == block
}

proof fn lemma_stands(b: Seq<u8>, place: u64, block: Seq<u8>, codec: Codec)
    requires
        b.len() <= usize::MAX,
        stands(b, place, block),
    ensures
        metadata_block(b, place, codec) == Ok::<(Seq<u8>, u64), Fault>(
            (block, (place + 2 + block.len()) as u64),
        ),
{
    let size = (block.len() + 0x8000) as u16;
    lemma_two(b, place as int, size);
    assert(size & 0x7fff == size - 0x8000 && size & 0x8000 != 0) by (bit_vector)
        requires
            0x8000 <= size <= 0xa000,
    ;
}

proof fn lemma_entries(entries: Seq<(u64, u32)>, i: int)
    requires
        0 <= i < entries.len(),
    ensures
        packed_entries(entries).len() == 16 * entries.len(),
        le64(packed_entries(entries), i * 16) == entries[i].0,
        le32(packed_entries(entries), i * 16 + 8) == entries[i].1,
{
    let raw = packed_entries(entries);
    lemma_entry_spans(entries, i);
    lemma_eight(raw, i * 16, entries[i].0);
    lemma_four(raw, i * 16 + 8, entries[i].1);
}

proof fn lemma_entry_spans(entries: Seq<(u64, u32)>, i: int)
    requires
        0 <= i < entries.len(),
    ensures
        packed_entries(entries).len() == 16 * entries.len(),
        packed_entries(entries).subrange(i * 16, i * 16 + 8) == eight(entries[i].0),
        packed_entries(entries).subrange(i * 16 + 8, i * 16 + 12) == four(entries[i].1),
    decreases entries.len(),
{
    lemma_lengths();
    let head = entries.drop_last();
    let raw = packed_entries(entries);
    let before = packed_entries(head);
    if entries.len() == 1 {
        assert(head =~= Seq::empty());
        assert(before.len() == 0);
    } else if i == entries.len() - 1 {
        lemma_entry_spans(head, 0);
    } else {
        lemma_entry_spans(head, i);
        assert(raw.subrange(i * 16, i * 16 + 8) =~= before.subrange(i * 16, i * 16 + 8));
        assert(raw.subrange(i * 16 + 8, i * 16 + 12) =~= before.subrange(i * 16 + 8, i * 16 + 12));
    }
    if i == entries.len() - 1 {
        assert(raw.subrange(i * 16, i * 16 + 8) =~= eight(entries[i].0));
        assert(raw.subrange(i * 16 + 8, i * 16 + 12) =~= four(entries[i].1));
    }
}

/// Whether a lookup table at `table` leads to the blocks, each of which stands in its place.
pub open spec fn leads_to(b: Seq<u8>, table: u64, places: Seq<u64>, blocks: Seq<Seq<u8>>) -> bool {
    &&& places.len() == blocks.len()
    &&& table + 8 * places.len() <= b.len()
    &&& forall|i: int|
        0 <= i < blocks.len() ==> stands(b, places[i], #[trigger] blocks[i]) && b.subrange(
            table + i * 8,
            table + i * 8 + 8,
        ) == eight(places[i])
}

#[verifier::spinoff_prover]
proof fn lemma_lookup(
    b: Seq<u8>,
    table: u64,
    places: Seq<u64>,
    blocks: Seq<Seq<u8>>,
    codec: Codec,
    i: int,
)
    requires
        b.len() <= usize::MAX,
        leads_to(b, table, places, blocks),
        0 <= i <= blocks.len(),
    ensures
        lookup_from(
            b,
            table as int,
            i,
            blocks.len() as int,
            codec,
            unpacked_blocks(blocks.take(i)),
        ) == Ok::<Seq<u8>, Fault>(unpacked_blocks(blocks)),
    decreases blocks.len() - i,
{
    if i == blocks.len() {
        assert(blocks.take(i) =~= blocks);
    } else {
        assert(stands(b, places[i], blocks[i]));
        let entry = b.subrange(table + i * 8, table + i * 8 + 8);
        assert(entry.subrange(0, 8) =~= entry);
        lemma_lengths();
        lemma_eight(entry, 0, places[i]);
        lemma_stands(b, places[i], blocks[i], codec);
        let more = blocks.take(i + 1);
        assert(more.drop_last() =~= blocks.take(i));
        lemma_lookup(b, table, places, blocks, codec, i + 1);
    }
}

/// A fragment table is read as the entries that were written into it.
#[verifier::spinoff_prover]
pub proof fn lemma_fragments_read_back(
    b: Seq<u8>,
    table: u64,
    places: Seq<u64>,
    blocks: Seq<Seq<u8>>,
    codec: Codec,
    entries: Seq<(u64, u32)>,
)
    requires
        b.len() <= usize::MAX,
        leads_to(b, table, places, blocks),
        0 < entries.len() <= u32::MAX,
        unpacked_blocks(blocks) == packed_entries(entries),
        blocks.len() == (entries.len() * 16 + 8191) / 8192,
        table < b.len(),
    ensures
        fragment_table(b, entries.len() as u32, table, codec) == Ok::<Seq<(u64, u32)>, Fault>(
            entries,
        ),
{
    let raw = packed_entries(entries);
    lemma_lookup(b, table, places, blocks, codec, 0);
    assert(blocks.take(0) =~= Seq::<Seq<u8>>::empty());
    lemma_entry_spans(entries, 0);
    let read = fragment_entries(raw, entries.len() as int);
    assert(read.len() == entries.len());
    assert forall|i: int| 0 <= i < entries.len() implies read[i] == entries[i] by {
        lemma_entries(entries, i);
    }
    assert(read =~= entries);
}

} // verus!
