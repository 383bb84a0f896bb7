//! A read-only squashfs 4.0 reader — the filesystem inside a snap and inside
//! every type-2 AppImage.
//!
//! Squashfs stores its metadata (inodes, directory listings, the fragment
//! table) in a stream of independently-compressed blocks of at most 8 KiB, and
//! addresses into it with 48-bit block offsets plus a 16-bit offset within the
//! decompressed block. This reader expands the inode and directory tables once
//! into contiguous buffers ([`MetaTable`]), after which every reference resolves
//! to a plain slice index. File *data* stays lazy: only the blocks of files
//! actually unpacked get decompressed.
//!
//! Input is untrusted, so every field read is bounds-checked and every record's
//! length is validated before it is parsed: a corrupt image yields a warning and a
//! partial tree, never a panic.

use std::collections::BTreeMap;

use vstd::prelude::*;

use crate::bytes::{
    begins, begins_with, copy_of, le16, le16_of, le32, le32_of, le64, le64_of, lossy_text, opt_bytes,
    span, span_of, utf8_lossy,
};
use crate::num::{decimal, decimal_of};
use crate::path::{
    is_plain, is_plain_name, lemma_within_push, lemma_within_self, push_of, pushed, within,
};
use crate::pkg::decompress::{bytes_view, decompress, decompressed, Codec};
use crate::pkg::{
    account, fault_message, followed, lemma_rerooted, lemma_sound_done, lemma_sound_entry,
    lemma_sound_file, lemma_sound_trans, lemma_sound_warning, link_target, progress, rerooted,
    sound, warn, EntryView, Fault, PkgError, Progress, Run, Sink, Unpacked,
};
use crate::text::{concat, concat3, quoted, quoted_of};

verus! {

const SUPERBLOCK_LEN: usize = 96;

/// Largest expanded metadata block.
pub const METADATA_MAX: usize = 8192;

/// Metadata block header bit: the block is stored uncompressed.
pub const META_UNCOMPRESSED: u16 = 0x8000;

/// The rest of a metadata block header: the stored size.
pub const META_SIZE_MASK: u16 = 0x7fff;

/// Data block size bit: same meaning, different position.
pub const DATA_UNCOMPRESSED: u32 = 0x100_0000;

/// The rest of a data block size.
pub const DATA_SIZE_MASK: u32 = 0xff_ffff;

/// The fragment index of a file without a fragment.
pub const NO_FRAGMENT: u32 = 0xffff_ffff;

/// Inode types: the basic forms, then the extended ones that widen the same
/// fields for large files and deep directories.
pub const INODE_DIR: u16 = 1;

pub const INODE_FILE: u16 = 2;

pub const INODE_SYMLINK: u16 = 3;

pub const INODE_EXT_DIR: u16 = 8;

pub const INODE_EXT_FILE: u16 = 9;

pub const INODE_EXT_SYMLINK: u16 = 10;

/// Depth cap while walking directories: deeper than any real application tree,
/// shallow enough that a crafted image can't exhaust the stack.
pub const MAX_DEPTH: u32 = 64;

/// Whether a squashfs magic opens `b`, in either byte order.
pub open spec fn has_magic(b: Seq<u8>) -> bool {
    begins(b, seq![0x68u8, 0x73, 0x71, 0x73]) || begins(b, seq![0x73u8, 0x71, 0x73, 0x68])
}

/// Whether `bytes` opens with a squashfs magic, in either byte order.
pub fn is_squashfs(bytes: &[u8]) -> (r: bool)
    ensures
        r == has_magic(bytes@),
{
    is_little(bytes) || is_big(bytes)
}

fn is_little(bytes: &[u8]) -> (r: bool)
    ensures
        r == begins(bytes@, seq![0x68u8, 0x73, 0x71, 0x73]),
{
    let magic: [u8; 4] = [0x68, 0x73, 0x71, 0x73];
    assert(magic@ =~= seq![0x68u8, 0x73, 0x71, 0x73]);
    begins_with(bytes, magic.as_slice())
}

fn is_big(bytes: &[u8]) -> (r: bool)
    ensures
        r == begins(bytes@, seq![0x73u8, 0x71, 0x73, 0x68]),
{
    let magic: [u8; 4] = [0x73, 0x71, 0x73, 0x68];
    assert(magic@ =~= seq![0x73u8, 0x71, 0x73, 0x68]);
    begins_with(bytes, magic.as_slice())
}

/// A structural fault of an image.
pub open spec fn malformed(why: Seq<char>) -> Fault {
    Fault::Malformed("squashfs"@, why)
}

fn malformed_of(why: &str) -> (r: PkgError)
    ensures
        r@ == malformed(why@),
{
    PkgError::Malformed("squashfs", why.to_owned())
}

/// The metadata block at `at` and the offset of the next one.
pub open spec fn metadata_block(b: Seq<u8>, at: u64, codec: Codec) -> Result<(Seq<u8>, u64), Fault> {
    if at > usize::MAX {
        Err(malformed("bad offset"@))
    } else if at + 2 > b.len() {
        Err(malformed("metadata block out of range"@))
    } else {
        let header = le16(b, at as int);
        let size = (header & META_SIZE_MASK) as int;
        match span(b, at + 2, size) {
            None => Err(malformed("metadata block truncated"@)),
            Some(raw) => {
                let next = (at + 2 + size) as u64;
                if header & META_UNCOMPRESSED != 0 {
                    Ok((raw, next))
                } else {
                    match decompressed(codec, raw, Some(METADATA_MAX as nat)) {
                        Ok(block) => Ok((block, next)),
                        Err(e) => Err(e),
                    }
                }
            },
        }
    }
}

/// The model of a [`MetaTable`].
#[verifier::ext_equal]
pub struct Meta {
    pub data: Seq<u8>,
    pub index: Map<u64, usize>,
}

/// The blocks of a metadata region from `at` on, appended to `t`.
pub open spec fn expanded_from(
    b: Seq<u8>,
    start: u64,
    end: u64,
    at: u64,
    codec: Codec,
    t: Meta,
) -> Result<Meta, Fault>
    decreases b.len() - at,
{
    if at >= end {
        Ok(t)
    } else {
        match metadata_block(b, at, codec) {
            Err(e) => Err(e),
            Ok((block, next)) => if at < next <= b.len() {
                expanded_from(
                    b,
                    start,
                    end,
                    next,
                    codec,
                    Meta {
                        data: t.data + block,
                        index: t.index.insert((at - start) as u64, t.data.len() as usize),
                    },
                )
            } else {
                Ok(t)
            },
        }
    }
}

/// The metadata region `start..end`, expanded.
pub open spec fn expanded_table(
    b: Seq<u8>,
    start: u64,
    end: u64,
    codec: Codec,
) -> Result<Meta, Fault> {
    let none = Meta { data: Seq::empty(), index: Map::empty() };
    if end <= start || start >= b.len() {
        Ok(none)
    } else {
        expanded_from(b, start, end, start, codec, none)
    }
}

impl Meta {
    /// The position in `data` that a reference names: block offset in the high 48
    /// bits, offset within the expanded block in the low 16.
    pub open spec fn position(self, reference: u64) -> Option<int> {
        let block = reference >> 16;
        let offset = reference & 0xffff;
        if self.index.dom().contains(block) && self.index[block] + offset <= usize::MAX {
            Some(self.index[block] + offset)
        } else {
            None
        }
    }

    /// Everything from `reference` to the end of the table.
    pub open spec fn at(self, reference: u64) -> Option<Seq<u8>> {
        match self.position(reference) {
            Some(i) => if i <= self.data.len() {
                Some(self.data.skip(i))
            } else {
                None
            },
            None => None,
        }
    }

    /// The `len` bytes from `reference` on.
    pub open spec fn slice(self, reference: u64, len: int) -> Option<Seq<u8>> {
        match self.position(reference) {
            Some(i) => span(self.data, i, len),
            None => None,
        }
    }
}

/// The blocks that a fragment lookup table names, concatenated: those from `i` to
/// `blocks`, appended to `acc`.
pub open spec fn lookup_from(
    b: Seq<u8>,
    table: int,
    i: int,
    blocks: int,
    codec: Codec,
    acc: Seq<u8>,
) -> Result<Seq<u8>, Fault>
    decreases blocks - i,
{
    if i >= blocks {
        Ok(acc)
    } else {
        match span(b, table + i * 8, 8) {
            None => Err(malformed("fragment lookup table truncated"@)),
            Some(entry) => match metadata_block(b, le64(entry, 0), codec) {
                Err(e) => Err(e),
                Ok((block, _)) => lookup_from(b, table, i + 1, blocks, codec, acc + block),
            },
        }
    }
}

/// The `(start, size)` pairs that 16-byte fragment entries record: at most
/// `entries` of them, as far as `raw` reaches.
pub open spec fn fragment_entries(raw: Seq<u8>, entries: int) -> Seq<(u64, u32)> {
    let n = if entries <= raw.len() / 16 {
        entries
    } else {
        (raw.len() / 16) as int
    };
    Seq::new(n as nat, |i: int| (le64(raw, i * 16), le32(raw, i * 16 + 8)))
}

/// The fragment table: a lookup array of metadata-block offsets, each block
/// holding a run of 16-byte `(start, size)` entries.
pub open spec fn fragment_table(
    b: Seq<u8>,
    fragments: u32,
    table: u64,
    codec: Codec,
) -> Result<Seq<(u64, u32)>, Fault> {
    if fragments == 0 || table >= b.len() {
        Ok(Seq::empty())
    } else {
        match lookup_from(b, table as int, 0, (fragments * 16 + 8191) / 8192, codec, Seq::empty()) {
            Err(e) => Err(e),
            Ok(raw) => Ok(fragment_entries(raw, fragments as int)),
        }
    }
}

/// The lesser of `best` and `t`, where `t` lies past `lo` and inside the image.
pub open spec fn tighter(best: Option<u64>, t: u64, lo: u64, len: nat) -> Option<u64> {
    if t > lo && t <= len {
        match best {
            Some(m) => if m <= t {
                Some(m)
            } else {
                Some(t)
            },
            None => Some(t),
        }
    } else {
        best
    }
}

/// Where the directory table ends: at the next table that lies inside the image,
/// else at the end of what the image uses.
pub open spec fn directory_end(b: Seq<u8>) -> u64 {
    let lo = le64(b, 72);
    let n = b.len();
    let best = tighter(None, le64(b, 80), lo, n);
    let best = tighter(best, le64(b, 88), lo, n);
    let best = tighter(best, le64(b, 48), lo, n);
    let best = tighter(best, le64(b, 56), lo, n);
    let best = tighter(best, le64(b, 40), lo, n);
    match best {
        Some(t) => t,
        None => if le64(b, 40) <= n {
            le64(b, 40)
        } else {
            n as u64
        },
    }
}

/// The model of an open image.
#[verifier::ext_equal]
pub struct Image {
    pub bytes: Seq<u8>,
    pub block_size: u32,
    pub root: u64,
    pub codec: Codec,
    pub inodes: Meta,
    pub directories: Meta,
    pub fragments: Seq<(u64, u32)>,
}

/// The compressor that a superblock declares. Squashfs calls it "gzip", but the
/// blocks are raw zlib streams.
pub open spec fn declared_codec(id: u16) -> Option<Codec> {
    if id == 1 {
        Some(Codec::Zlib)
    } else if id == 2 {
        Some(Codec::Lzma)
    } else if id == 3 {
        Some(Codec::Lzo)
    } else if id == 4 {
        Some(Codec::Xz)
    } else if id == 5 {
        Some(Codec::Lz4Block)
    } else if id == 6 {
        Some(Codec::Zstd)
    } else {
        None
    }
}

/// The codec of an image whose superblock can be read.
pub open spec fn checked_superblock(b: Seq<u8>) -> Result<Codec, Fault> {
    if begins(b, seq![0x73u8, 0x71, 0x73, 0x68]) {
        Err(
            Fault::Unsupported(
                "this is a big-endian squashfs image (pre-4.0); only the current little-endian format can be read"@,
            ),
        )
    } else if b.len() < 96 || !begins(b, seq![0x68u8, 0x73, 0x71, 0x73]) {
        Err(malformed("missing superblock"@))
    } else if le16(b, 28) != 4 {
        Err(
            Fault::Unsupported(
                "squashfs version "@ + decimal(le16(b, 28) as nat) + "."@ + decimal(
                    le16(b, 30) as nat,
                ) + " is not supported (this reader handles 4.0)"@,
            ),
        )
    } else {
        match declared_codec(le16(b, 20)) {
            None => Err(malformed("unknown compression id "@ + decimal(le16(b, 20) as nat))),
            Some(codec) => if codec == Codec::Lzo {
                Err(Fault::UnsupportedCompression("lzo"@))
            } else if le32(b, 12) == 0 || le32(b, 12) > 0x10_0000 {
                Err(malformed("implausible block size "@ + decimal(le32(b, 12) as nat)))
            } else {
                Ok(codec)
            },
        }
    }
}

/// The image in `b`.
pub open spec fn opened(b: Seq<u8>) -> Result<Image, Fault> {
    match checked_superblock(b) {
        Err(e) => Err(e),
        Ok(codec) => match expanded_table(b, le64(b, 64), le64(b, 72), codec) {
            Err(e) => Err(e),
            Ok(inodes) => match expanded_table(b, le64(b, 72), directory_end(b), codec) {
                Err(e) => Err(e),
                Ok(directories) => match fragment_table(b, le32(b, 16), le64(b, 80), codec) {
                    Err(e) => Err(e),
                    Ok(fragments) => Ok(
                        Image {
                            bytes: b,
                            block_size: le32(b, 12),
                            root: le64(b, 32),
                            codec,
                            inodes,
                            directories,
                            fragments,
                        },
                    ),
                },
            },
        },
    }
}

fn metadata_block_of(bytes: &[u8], at: u64, codec: Codec) -> (r: Result<(Vec<u8>, u64), PkgError>)
    ensures
        match r {
            Ok((block, next)) => metadata_block(bytes@, at, codec) == Ok::<_, Fault>((block@, next))
                && at < next <= bytes@.len(),
            Err(e) => metadata_block(bytes@, at, codec) == Err::<(Seq<u8>, u64), _>(e@),
        },
{
    if at > usize::MAX as u64 {
        return Err(malformed_of("bad offset"));
    }
    let from: usize = at as usize;
    if span_of(bytes, from, 2).is_none() {
        return Err(malformed_of("metadata block out of range"));
    }
    let header = le16_of(bytes, from);
    let size: usize = (header & META_SIZE_MASK) as usize;
    let raw = match span_of(bytes, from + 2, size) {
        Some(raw) => raw,
        None => {
            return Err(malformed_of("metadata block truncated"));
        },
    };
    let next: u64 = (from + 2 + size) as u64;
    if header & META_UNCOMPRESSED != 0 {
        Ok((copy_of(raw), next))
    } else {
        match decompress(codec, raw, Some(METADATA_MAX)) {
            Ok(block) => Ok((block, next)),
            Err(e) => Err(e),
        }
    }
}

/// A metadata region (the inode table or the directory table) expanded into one
/// buffer, with an index from each source block's offset — the form squashfs
/// references use — to its position in that buffer.
pub struct MetaTable {
    pub data: Vec<u8>,
    /// Source offset of a block relative to the table start → position in `data`.
    pub index: BTreeMap<u64, usize>,
}

impl View for MetaTable {
    type V = Meta;

    open spec fn view(&self) -> Meta {
        Meta { data: self.data@, index: self.index@ }
    }
}

impl MetaTable {
    fn expand(bytes: &[u8], start: u64, end: u64, codec: Codec) -> (r: Result<MetaTable, PkgError>)
        ensures
            match r {
                Ok(t) => expanded_table(bytes@, start, end, codec) == Ok::<_, Fault>(t@),
                Err(e) => expanded_table(bytes@, start, end, codec) == Err::<Meta, _>(e@),
            },
    {
        broadcast use vstd::std_specs::btree::group_btree_axioms;

        let mut table = MetaTable { data: Vec::new(), index: BTreeMap::new() };
        if end <= start || start >= bytes.len() as u64 {
            assert(table@ =~= Meta { data: Seq::empty(), index: Map::empty() });
            return Ok(table);
        }
        let mut at: u64 = start;
        assert(table@ =~= Meta { data: Seq::empty(), index: Map::empty() });
        while at < end
            invariant
                start <= at,
                expanded_table(bytes@, start, end, codec) == expanded_from(
                    bytes@,
                    start,
                    end,
                    at,
                    codec,
                    table@,
                ),
                at <= bytes@.len(),
            decreases bytes.len() - at,
        {
            let ghost before = table@;
            let (block, next) = match metadata_block_of(bytes, at, codec) {
                Ok(pair) => pair,
                Err(e) => {
                    return Err(e);
                },
            };
            table.index.insert(at - start, table.data.len());
            let mut block = block;
            table.data.append(&mut block);
            at = next;
        }
        Ok(table)
    }

    fn position(&self, reference: u64) -> (r: Option<usize>)
        ensures
            match r {
                Some(i) => self@.position(reference) == Some(i as int),
                None => self@.position(reference) is None,
            },
    {
        broadcast use vstd::std_specs::btree::group_btree_axioms;

        let block: u64 = reference >> 16;
        let offset: u64 = reference & 0xffff;
        assert(reference & 0xffff <= 0xffff) by (bit_vector);
        match self.index.get(&block) {
            Some(i) => i.checked_add(offset as usize),
            None => None,
        }
    }

    fn at(&self, reference: u64) -> (r: Option<&[u8]>)
        ensures
            opt_bytes(r) == self@.at(reference),
    {
        match self.position(reference) {
            Some(i) => {
                if i <= self.data.len() {
                    let rest = vstd::slice::slice_subrange(self.data.as_slice(), i, self.data.len());
                    assert(rest@ =~= self.data@.skip(i as int));
                    Some(rest)
                } else {
                    None
                }
            },
            None => None,
        }
    }

    fn slice(&self, reference: u64, len: usize) -> (r: Option<&[u8]>)
        ensures
            opt_bytes(r) == self@.slice(reference, len as int),
    {
        match self.position(reference) {
            Some(i) => span_of(self.data.as_slice(), i, len),
            None => None,
        }
    }
}

fn tighter_of(best: Option<u64>, t: u64, lo: u64, len: usize) -> (r: Option<u64>)
    ensures
        r == tighter(best, t, lo, len as nat),
{
    if t > lo && t <= len as u64 {
        match best {
            Some(m) => if m <= t {
                Some(m)
            } else {
                Some(t)
            },
            None => Some(t),
        }
    } else {
        best
    }
}

fn directory_end_of(bytes: &[u8]) -> (r: u64)
    ensures
        r == directory_end(bytes@),
{
    // The tables are laid out in order, each ending where the next starts.
    // Anything that isn't present is written as a sentinel far past the end
    // of the image, so only offsets that actually land inside it count.
    let lo = le64_of(bytes, 72);
    let used = le64_of(bytes, 40);
    let n = bytes.len();
    let best = tighter_of(None, le64_of(bytes, 80), lo, n);
    let best = tighter_of(best, le64_of(bytes, 88), lo, n);
    let best = tighter_of(best, le64_of(bytes, 48), lo, n);
    let best = tighter_of(best, le64_of(bytes, 56), lo, n);
    let best = tighter_of(best, used, lo, n);
    match best {
        Some(t) => t,
        None => if used <= n as u64 {
            used
        } else {
            n as u64
        },
    }
}

fn read_fragment_table(bytes: &[u8], fragments: u32, table: u64, codec: Codec) -> (r: Result<
    Vec<(u64, u32)>,
    PkgError,
>)
    ensures
        match r {
            Ok(v) => fragment_table(bytes@, fragments, table, codec) == Ok::<_, Fault>(v@),
            Err(e) => fragment_table(bytes@, fragments, table, codec) == Err::<Seq<(u64, u32)>, _>(
                e@,
            ),
        },
{
    if fragments == 0 || table >= bytes.len() as u64 {
        return Ok(Vec::new());
    }
    let blocks: u64 = (fragments as u64 * 16 + 8191) / 8192;
    let mut raw: Vec<u8> = Vec::new();
    let mut i: u64 = 0;
    let mut at: usize = table as usize;
    let ghost all = lookup_from(bytes@, table as int, 0, blocks as int, codec, Seq::empty());
    assert(raw@ =~= Seq::<u8>::empty());
    while i < blocks
        invariant
            i <= blocks <= 0x1000_0000,
            at == table + i * 8,
            all == lookup_from(bytes@, table as int, i as int, blocks as int, codec, raw@),
            fragments != 0,
            table < bytes@.len(),
            blocks == (fragments * 16 + 8191) / 8192,
            all == lookup_from(bytes@, table as int, 0, blocks as int, codec, Seq::empty()),
        decreases blocks - i,
    {
        let entry = match span_of(bytes, at, 8) {
            Some(e) => e,
            None => {
                return Err(malformed_of("fragment lookup table truncated"));
            },
        };
        let (block, _) = match metadata_block_of(bytes, le64_of(entry, 0), codec) {
            Ok(pair) => pair,
            Err(e) => {
                return Err(e);
            },
        };
        let mut block = block;
        raw.append(&mut block);
        i = i + 1;
        at = at + 8;
    }
    let mut out: Vec<(u64, u32)> = Vec::new();
    let ghost want = fragment_entries(raw@, fragments as int);
    let count: usize = if fragments as u64 <= (raw.len() / 16) as u64 {
        fragments as usize
    } else {
        raw.len() / 16
    };
    let mut k: usize = 0;
    while k < count
        invariant
            k <= count,
            count <= raw@.len() / 16,
            raw@.len() <= usize::MAX,
            want == fragment_entries(raw@, fragments as int),
            want.len() == count,
            out@ == want.take(k as int),
        decreases count - k,
    {
        let e = (le64_of(raw.as_slice(), k * 16), le32_of(raw.as_slice(), k * 16 + 8));
        out.push(e);
        assert(out@ =~= want.take(k + 1));
        k = k + 1;
    }
    assert(out@ =~= want);
    Ok(out)
}

/// An open image.
pub struct Squashfs<'a> {
    pub bytes: &'a [u8],
    pub block_size: u32,
    pub root_inode: u64,
    pub codec: Codec,
    pub inodes: MetaTable,
    pub directories: MetaTable,
    /// `(start, size)` per fragment, indexed by fragment number.
    pub fragments: Vec<(u64, u32)>,
}

impl<'a> View for Squashfs<'a> {
    type V = Image;

    open spec fn view(&self) -> Image {
        Image {
            bytes: self.bytes@,
            block_size: self.block_size,
            root: self.root_inode,
            codec: self.codec,
            inodes: self.inodes@,
            directories: self.directories@,
            fragments: self.fragments@,
        }
    }
}

fn check_superblock(bytes: &[u8]) -> (r: Result<Codec, PkgError>)
    ensures
        match r {
            Ok(c) => checked_superblock(bytes@) == Ok::<_, Fault>(c) && bytes@.len() >= 96 && 0 < le32(
                bytes@,
                12,
            ) <= 0x10_0000,
            Err(e) => checked_superblock(bytes@) == Err::<Codec, _>(e@),
        },
{
    if is_big(bytes) {
        return Err(
            PkgError::Unsupported(
                "this is a big-endian squashfs image (pre-4.0); only the current little-endian format can be read".to_owned(),
            ),
        );
    }
    if bytes.len() < SUPERBLOCK_LEN || !is_little(bytes) {
        return Err(malformed_of("missing superblock"));
    }
    let major = le16_of(bytes, 28);
    if major != 4 {
        let minor = le16_of(bytes, 30);
        let mut why = concat3("squashfs version ", decimal_of(major as u64).as_str(), ".");
        why.append(decimal_of(minor as u64).as_str());
        why.append(" is not supported (this reader handles 4.0)");
        return Err(PkgError::Unsupported(why));
    }
    let id = le16_of(bytes, 20);
    let codec = if id == 1 {
        Codec::Zlib
    } else if id == 2 {
        Codec::Lzma
    } else if id == 3 {
        return Err(PkgError::UnsupportedCompression("lzo"));
    } else if id == 4 {
        Codec::Xz
    } else if id == 5 {
        Codec::Lz4Block
    } else if id == 6 {
        Codec::Zstd
    } else {
        return Err(
            malformed_of(concat("unknown compression id ", decimal_of(id as u64).as_str()).as_str()),
        );
    };
    let block_size = le32_of(bytes, 12);
    if block_size == 0 || block_size > 0x10_0000 {
        return Err(
            malformed_of(
                concat("implausible block size ", decimal_of(block_size as u64).as_str()).as_str(),
            ),
        );
    }
    Ok(codec)
}

impl<'a> Squashfs<'a> {
    /// Reads the superblock of the image in `bytes` and expands its tables.
    pub fn open(bytes: &'a [u8]) -> (r: Result<Squashfs<'a>, PkgError>)
        ensures
            match r {
                Ok(fs) => opened(bytes@) == Ok::<_, Fault>(fs@) && 0 < fs.block_size <= 0x10_0000,
                Err(e) => opened(bytes@) == Err::<Image, _>(e@),
            },
    {
        let codec = match check_superblock(bytes) {
            Ok(c) => c,
            Err(e) => {
                return Err(e);
            },
        };
        let inode_table = le64_of(bytes, 64);
        let directory_table = le64_of(bytes, 72);
        let inodes = match MetaTable::expand(bytes, inode_table, directory_table, codec) {
            Ok(t) => t,
            Err(e) => {
                return Err(e);
            },
        };
        let directories = match MetaTable::expand(
            bytes,
            directory_table,
            directory_end_of(bytes),
            codec,
        ) {
            Ok(t) => t,
            Err(e) => {
                return Err(e);
            },
        };
        let fragments = match read_fragment_table(
            bytes,
            le32_of(bytes, 16),
            le64_of(bytes, 80),
            codec,
        ) {
            Ok(t) => t,
            Err(e) => {
                return Err(e);
            },
        };
        Ok(
            Squashfs {
                bytes,
                block_size: le32_of(bytes, 12),
                root_inode: le64_of(bytes, 32),
                codec,
                inodes,
                directories,
                fragments,
            },
        )
    }
}

/// `len` bytes of the image at `offset`.
pub open spec fn region(fs: Image, offset: u64, len: nat) -> Result<Seq<u8>, Fault> {
    match span(fs.bytes, offset as int, len as int) {
        Some(raw) => Ok(raw),
        None => Err(
            malformed(
                "read of "@ + decimal(len) + " bytes at "@ + decimal(offset as nat)
                    + " is out of range"@,
            ),
        ),
    }
}

/// The expanded fragment block `index`, holding the tails of one or more small files.
pub open spec fn fragment_block(fs: Image, index: u32) -> Result<Seq<u8>, Fault> {
    if index >= fs.fragments.len() {
        Err(malformed("fragment "@ + decimal(index as nat) + " out of range"@))
    } else {
        let (start, size) = fs.fragments[index as int];
        match region(fs, start, (size & DATA_SIZE_MASK) as nat) {
            Err(e) => Err(e),
            Ok(raw) => if size & DATA_UNCOMPRESSED != 0 {
                Ok(raw)
            } else {
                decompressed(fs.codec, raw, Some(fs.block_size as nat))
            },
        }
    }
}

/// The fields of a file inode.
pub struct FileInode {
    pub start: u64,
    pub size: u64,
    pub fragment: u32,
    pub offset: u32,
    /// Where its block list starts.
    pub list_at: int,
}

/// The fields of a basic or an extended file inode.
pub open spec fn file_inode(inode: Seq<u8>, kind: u16) -> FileInode {
    if kind == INODE_FILE {
        FileInode {
            start: le32(inode, 16) as u64,
            size: le32(inode, 28) as u64,
            fragment: le32(inode, 20),
            offset: le32(inode, 24),
            list_at: 32,
        }
    } else {
        FileInode {
            start: le64(inode, 16),
            size: le64(inode, 24),
            fragment: le32(inode, 44),
            offset: le32(inode, 48),
            list_at: 56,
        }
    }
}

/// What is left to read of a file of `size` bytes.
pub open spec fn remaining(size: u64, acc: Seq<u8>) -> nat {
    if acc.len() <= size {
        (size - acc.len()) as nat
    } else {
        0
    }
}

/// The lesser of two numbers.
pub open spec fn lesser(a: nat, b: nat) -> nat {
    if a <= b {
        a
    } else {
        b
    }
}

/// The listed blocks of a file from `i` on, appended to `acc`. A block of stored
/// size zero is a hole; one with the uncompressed bit is taken as it stands.
pub open spec fn blocks_from(
    fs: Image,
    inode: Seq<u8>,
    f: FileInode,
    i: int,
    listed: int,
    cursor: u64,
    acc: Seq<u8>,
) -> Result<Seq<u8>, Fault>
    decreases listed - i,
{
    if i >= listed {
        Ok(acc)
    } else {
        match span(inode, f.list_at + i * 4, 4) {
            None => Err(malformed("truncated block list"@)),
            Some(word) => {
                let entry = le32(word, 0);
                let size = (entry & DATA_SIZE_MASK) as nat;
                let expected = lesser(remaining(f.size, acc), fs.block_size as nat);
                if size == 0 {
                    blocks_from(
                        fs,
                        inode,
                        f,
                        i + 1,
                        listed,
                        cursor,
                        acc + Seq::new(expected, |k: int| 0u8),
                    )
                } else {
                    match region(fs, cursor, size) {
                        Err(e) => Err(e),
                        Ok(raw) => {
                            let next = (cursor + size) as u64;
                            if entry & DATA_UNCOMPRESSED != 0 {
                                blocks_from(fs, inode, f, i + 1, listed, next, acc + raw)
                            } else {
                                match decompressed(fs.codec, raw, Some(expected)) {
                                    Err(e) => Err(e),
                                    Ok(block) => blocks_from(
                                        fs,
                                        inode,
                                        f,
                                        i + 1,
                                        listed,
                                        next,
                                        acc + block,
                                    ),
                                }
                            }
                        },
                    }
                }
            },
        }
    }
}

/// How many blocks a file lists. One whose tail lives in a fragment lists only
/// whole blocks; one without a fragment lists a (possibly partial) final block too.
pub open spec fn listed_blocks(f: FileInode, block_size: u32) -> int {
    if f.fragment == NO_FRAGMENT {
        (f.size + block_size - 1) / block_size as int
    } else {
        f.size as int / block_size as int
    }
}

/// The full contents of a file inode.
pub open spec fn file_bytes(fs: Image, inode: Seq<u8>, kind: u16, limit: u64) -> Result<
    Seq<u8>,
    Fault,
> {
    let f = file_inode(inode, kind);
    if f.size > limit || f.size > usize::MAX {
        Err(Fault::TooLarge(limit))
    } else {
        match blocks_from(fs, inode, f, 0, listed_blocks(f, fs.block_size), f.start, Seq::empty()) {
            Err(e) => Err(e),
            Ok(acc) => if f.fragment == NO_FRAGMENT {
                Ok(acc.take(lesser(acc.len(), f.size as nat) as int))
            } else {
                match fragment_block(fs, f.fragment) {
                    Err(e) => Err(e),
                    Ok(block) => match span(block, f.offset as int, remaining(f.size, acc) as int) {
                        None => Err(malformed("fragment out of range"@)),
                        Some(tail) => {
                            let whole = acc + tail;
                            Ok(whole.take(lesser(whole.len(), f.size as nat) as int))
                        },
                    },
                }
            },
        }
    }
}

/// The most recently expanded fragment block. Small files are packed into shared
/// fragments in tree order, so one slot catches nearly every reuse.
pub struct FragmentCache {
    pub slot: Option<(u32, Vec<u8>)>,
}

impl FragmentCache {
    /// That the slot holds what the image does.
    pub open spec fn holds(self, fs: Image) -> bool {
        match self.slot {
            Some((index, data)) => fragment_block(fs, index) == Ok::<_, Fault>(data@),
            None => true,
        }
    }
}

impl<'a> Squashfs<'a> {
    fn at(&self, offset: u64, len: usize) -> (r: Result<&'a [u8], PkgError>)
        ensures
            match r {
                Ok(raw) => region(self@, offset, len as nat) == Ok::<_, Fault>(raw@) && offset + len
                    <= self.bytes@.len() && offset + len <= u64::MAX,
                Err(e) => region(self@, offset, len as nat) == Err::<Seq<u8>, _>(e@),
            },
    {
        if offset <= usize::MAX as u64 {
            match span_of(self.bytes, offset as usize, len) {
                Some(raw) => {
                    return Ok(raw);
                },
                None => {},
            }
        }
        proof {
            assert(self.bytes.len() <= usize::MAX);
        }
        let mut why = concat3("read of ", decimal_of(len as u64).as_str(), " bytes at ");
        why.append(decimal_of(offset).as_str());
        why.append(" is out of range");
        Err(PkgError::Malformed("squashfs", why))
    }

    /// Expand the fragment block holding the tails of one or more small files.
    fn read_fragment(&self, index: u32, cache: &mut FragmentCache) -> (r: Result<Vec<u8>, PkgError>)
        requires
            old(cache).holds(self@),
        ensures
            bytes_view(r) == fragment_block(self@, index),
            final(cache).holds(self@),
    {
        match &cache.slot {
            Some((cached, data)) => {
                if *cached == index {
                    return Ok(copy_of(data.as_slice()));
                }
            },
            None => {},
        }
        if index as u64 >= self.fragments.len() as u64 {
            return Err(
                malformed_of(
                    concat3(
                        "fragment ",
                        decimal_of(index as u64).as_str(),
                        " out of range",
                    ).as_str(),
                ),
            );
        }
        let (start, size) = self.fragments[index as usize];
        let raw = match self.at(start, (size & DATA_SIZE_MASK) as usize) {
            Ok(raw) => raw,
            Err(e) => {
                return Err(e);
            },
        };
        let data = if size & DATA_UNCOMPRESSED != 0 {
            copy_of(raw)
        } else {
            match decompress(self.codec, raw, Some(self.block_size as usize)) {
                Ok(data) => data,
                Err(e) => {
                    return Err(e);
                },
            }
        };
        cache.slot = Some((index, copy_of(data.as_slice())));
        Ok(data)
    }

    /// The full contents of a file inode. `limit` is checked before anything is
    /// read, so a crafted size field can't turn into a huge allocation.
    fn read_file(&self, inode: &[u8], kind: u16, limit: u64, cache: &mut FragmentCache) -> (r: Result<
        Vec<u8>,
        PkgError,
    >)
        requires
            old(cache).holds(self@),
            0 < self.block_size <= 0x10_0000,
        ensures
            bytes_view(r) == file_bytes(self@, inode@, kind, limit),
            final(cache).holds(self@),
    {
        let (start, size, fragment, offset, list_at): (u64, u64, u32, u32, usize) = if kind
            == INODE_FILE {
            (
                le32_of(inode, 16) as u64,
                le32_of(inode, 28) as u64,
                le32_of(inode, 20),
                le32_of(inode, 24),
                32,
            )
        } else {
            (
                le64_of(inode, 16),
                le64_of(inode, 24),
                le32_of(inode, 44),
                le32_of(inode, 48),
                56,
            )
        };
        let ghost f = file_inode(inode@, kind);
        if size > limit || size > usize::MAX as u64 {
            return Err(PkgError::TooLarge(limit));
        }
        let block_size: u64 = self.block_size as u64;
        let whole: u64 = size / block_size;
        assert(size % block_size != 0 ==> whole < size) by (nonlinear_arith)
            requires
                0 < block_size,
                whole == size / block_size,
        ;
        let listed: u64 = if fragment == NO_FRAGMENT && size % block_size != 0 {
            whole + 1
        } else {
            whole
        };
        proof {
            assert(listed == listed_blocks(f, self.block_size)) by {
                lemma_ceil(size as int, block_size as int);
            }
        }
        let mut out: Vec<u8> = Vec::new();
        let mut cursor: u64 = start;
        let mut i: u64 = 0;
        let mut at: usize = list_at;
        let ghost all = blocks_from(self@, inode@, f, 0, listed as int, start, Seq::empty());
        assert(out@ =~= Seq::<u8>::empty());
        while i < listed
            invariant
                i <= listed,
                at == f.list_at + i * 4,
                f == file_inode(inode@, kind),
                size == f.size,
                size <= limit,
                size <= usize::MAX,
                listed == listed_blocks(f, self.block_size),
                block_size == self.block_size,
                0 < self.block_size <= 0x10_0000,
                all == blocks_from(self@, inode@, f, 0, listed as int, f.start, Seq::empty()),
                all == blocks_from(self@, inode@, f, i as int, listed as int, cursor, out@),
                cache.holds(self@),
            decreases listed - i,
        {
            let word = match span_of(inode, at, 4) {
                Some(w) => w,
                None => {
                    return Err(malformed_of("truncated block list"));
                },
            };
            let entry = le32_of(word, 0);
            let stored: usize = (entry & DATA_SIZE_MASK) as usize;
            let left: u64 = if out.len() as u64 <= size {
                size - out.len() as u64
            } else {
                0
            };
            let expected: usize = if left <= block_size {
                left as usize
            } else {
                block_size as usize
            };
            if stored == 0 {
                // A hole: squashfs stores nothing at all for an all-zero block.
                let ghost before = out@;
                out.resize(out.len() + expected, 0);
                assert(out@ =~= before + Seq::new(expected as nat, |k: int| 0u8));
            } else {
                let raw = match self.at(cursor, stored) {
                    Ok(raw) => raw,
                    Err(e) => {
                        return Err(e);
                    },
                };
                cursor = cursor + stored as u64;
                let mut block = if entry & DATA_UNCOMPRESSED != 0 {
                    copy_of(raw)
                } else {
                    match decompress(self.codec, raw, Some(expected)) {
                        Ok(block) => block,
                        Err(e) => {
                            return Err(e);
                        },
                    }
                };
                out.append(&mut block);
            }
            i = i + 1;
            at = at + 4;
        }
        if fragment != NO_FRAGMENT {
            let left: u64 = if out.len() as u64 <= size {
                size - out.len() as u64
            } else {
                0
            };
            let block = match self.read_fragment(fragment, cache) {
                Ok(b) => b,
                Err(e) => {
                    return Err(e);
                },
            };
            let tail = match span_of(block.as_slice(), offset as usize, left as usize) {
                Some(t) => t,
                None => {
                    return Err(malformed_of("fragment out of range"));
                },
            };
            let mut tail = copy_of(tail);
            out.append(&mut tail);
        }
        let ghost full = out@;
        out.truncate(size as usize);
        assert(out@ =~= full.take(lesser(full.len(), size as nat) as int));
        Ok(out)
    }
}

proof fn lemma_ceil(n: int, d: int)
    requires
        0 <= n,
        0 < d,
    ensures
        (n + d - 1) / d == if n % d != 0 {
            n / d + 1
        } else {
            n / d
        },
{
    let q = n / d;
    let r = n % d;
    assert(n == q * d + r && 0 <= r < d) by (nonlinear_arith)
        requires
            0 <= n,
            0 < d,
            q == n / d,
            r == n % d,
    ;
    if r == 0 {
        assert((q * d + (d - 1)) / d == q) by (nonlinear_arith)
            requires
                0 < d,
        ;
    } else {
        assert((q + 1) * d == q * d + d) by (nonlinear_arith);
        assert(((q + 1) * d + (r - 1)) / d == q + 1) by (nonlinear_arith)
            requires
                0 < d,
                0 <= r - 1 < d,
        ;
    }
}

/// The `(name, inode reference)` pairs of a directory listing: a series of
/// 12-byte headers, each covering a run of entries whose inodes share one metadata
/// block. `left` entries are still owed under the header for `block`.
pub open spec fn dir_entries(l: Seq<u8>, left: int, block: u32) -> Seq<(Seq<char>, u64)>
    decreases l.len(),
{
    if left <= 0 {
        if l.len() < 12 {
            Seq::empty()
        } else {
            dir_entries(l.skip(12), le32(l, 0) + 1, le32(l, 4))
        }
    } else if l.len() < 8 {
        Seq::empty()
    } else {
        let name_len = le16(l, 6) + 1;
        match span(l, 8, name_len) {
            None => Seq::empty(),
            Some(name) => seq![(utf8_lossy(name), ((block as u64) << 16) | le16(l, 0) as u64)]
                + dir_entries(l.skip(8 + name_len), left - 1, block),
        }
    }
}

/// The listing of a directory inode. Basic and extended ones carry the same three
/// fields in different places and widths; the size counts three bytes that aren't
/// in the listing.
pub open spec fn dir_listing(fs: Image, inode: Seq<u8>, kind: u16) -> Option<Seq<u8>> {
    let (start, size, offset) = if kind == INODE_DIR {
        (le32(inode, 16), le16(inode, 24) as u32, le16(inode, 26))
    } else {
        (le32(inode, 24), le32(inode, 20), le16(inode, 34))
    };
    let len = if size >= 3 {
        size - 3
    } else {
        0
    };
    fs.directories.slice(((start as u64) << 16) | offset as u64, len)
}

/// Smallest valid record for each inode form, excluding trailing block lists and
/// symlink targets. Devices, FIFOs and sockets have none.
pub open spec fn min_inode(kind: u16) -> Option<nat> {
    if kind == INODE_DIR || kind == INODE_FILE {
        Some(32)
    } else if kind == INODE_EXT_DIR {
        Some(40)
    } else if kind == INODE_EXT_FILE {
        Some(56)
    } else if kind == INODE_SYMLINK || kind == INODE_EXT_SYMLINK {
        Some(24)
    } else {
        None
    }
}

/// The text of a fault that is no size limit.
pub open spec fn fault_text(f: Fault) -> Seq<char> {
    match fault_message(f) {
        Some(m) => m,
        None => Seq::empty(),
    }
}

/// What a file inode emits. One unreadable file shouldn't cost the whole tree.
pub open spec fn file_run(
    fs: Image,
    limit: u64,
    inode: Seq<u8>,
    kind: u16,
    path: Seq<char>,
    p: Progress,
) -> Run {
    match file_bytes(fs, inode, kind, limit) {
        Ok(data) => p.emit_file(path, data, (le16(inode, 2) as u32) & 0xfff, limit),
        Err(Fault::TooLarge(n)) => p.failed(Fault::TooLarge(n)),
        Err(e) => p.with_warning("squashfs: could not read "@ + path + ": "@ + fault_text(e)).done(),
    }
}

/// What a symlink inode emits.
pub open spec fn symlink_run(inode: Seq<u8>, base: Seq<char>, path: Seq<char>, p: Progress) -> Run {
    match span(inode, 24, le32(inode, 20) as int) {
        Some(target) => p.with_entry(
            EntryView::Symlink { path, target: rerooted(base, utf8_lossy(target)) },
        ).done(),
        None => p.with_warning("squashfs: unreadable symlink target for "@ + path).done(),
    }
}

/// The unpack of the inode at `reference` and, if it is a directory, of everything
/// under it. `path` is where the inode lands; `base` is the unpack root.
pub open spec fn walk_run(
    fs: Image,
    limit: u64,
    base: Seq<char>,
    reference: u64,
    path: Seq<char>,
    depth: nat,
    p: Progress,
) -> Run
    decreases 2 * (65 - depth), 0nat,
{
    match fs.inodes.at(reference) {
        None => p.with_warning("squashfs: unreadable inode for "@ + path).done(),
        Some(inode) => {
            let kind = le16(inode, 0);
            if inode.len() < 16 {
                p.with_warning("squashfs: truncated inode for "@ + path).done()
            } else {
                match min_inode(kind) {
                    None => p.done(),
                    Some(min) => if inode.len() < min {
                        p.with_warning("squashfs: truncated inode for "@ + path).done()
                    } else if kind == INODE_DIR || kind == INODE_EXT_DIR {
                        let q = p.with_entry(EntryView::Dir(path));
                        if depth >= 64 {
                            q.with_warning(
                                "squashfs: stopped at "@ + path
                                    + " — nested deeper than 64 levels"@,
                            ).done()
                        } else {
                            match dir_listing(fs, inode, kind) {
                                None => q.with_warning(
                                    "squashfs: unreadable directory listing"@,
                                ).done(),
                                Some(l) => children_run(
                                    fs,
                                    limit,
                                    base,
                                    dir_entries(l, 0, 0),
                                    0,
                                    path,
                                    depth,
                                    q,
                                ),
                            }
                        }
                    } else if kind == INODE_FILE || kind == INODE_EXT_FILE {
                        file_run(fs, limit, inode, kind, path, p)
                    } else {
                        symlink_run(inode, base, path, p)
                    },
                }
            }
        },
    }
}

/// The unpack of the children of a directory from `i` on. A listing holds plain
/// names; any other is skipped with a warning.
pub open spec fn children_run(
    fs: Image,
    limit: u64,
    base: Seq<char>,
    kids: Seq<(Seq<char>, u64)>,
    i: int,
    path: Seq<char>,
    depth: nat,
    p: Progress,
) -> Run
    decreases 2 * (65 - depth) - 1, kids.len() - i,
{
    if i < 0 || i >= kids.len() || depth >= 64 {
        p.done()
    } else {
        let (name, child) = kids[i];
        if !is_plain(name) {
            children_run(
                fs,
                limit,
                base,
                kids,
                i + 1,
                path,
                depth,
                p.with_warning("squashfs: skipped entry named "@ + quoted(name)),
            )
        } else {
            let run = walk_run(fs, limit, base, child, pushed(path, name), depth + 1, p);
            if run.result is Err {
                run
            } else {
                children_run(fs, limit, base, kids, i + 1, path, depth, run.at)
            }
        }
    }
}

/// The unpack of every file in the image in `b`.
pub open spec fn unsquash(b: Seq<u8>, base: Seq<char>, limit: u64, p: Progress) -> Run {
    match opened(b) {
        Err(e) => p.failed(e),
        Ok(fs) => walk_run(fs, limit, base, fs.root, base, 0, p),
    }
}

/// The views of a directory's children.
pub open spec fn kids_view(v: Seq<(String, u64)>) -> Seq<(Seq<char>, u64)> {
    v.map_values(|k: (String, u64)| (k.0@, k.1))
}

fn list_entries(listing: &[u8]) -> (r: Vec<(String, u64)>)
    ensures
        kids_view(r@) == dir_entries(listing@, 0, 0),
{
    let mut out: Vec<(String, u64)> = Vec::new();
    let mut at: usize = 0;
    let mut left: u64 = 0;
    let mut block: u32 = 0;
    assert(listing@.skip(0) =~= listing@);
    assert(kids_view(out@) + dir_entries(listing@, 0, 0) =~= dir_entries(listing@, 0, 0));
    loop
        invariant
            at <= listing@.len(),
            left <= 0x1_0000_0000,
            kids_view(out@) + dir_entries(listing@.skip(at as int), left as int, block)
                == dir_entries(listing@, 0, 0),
        decreases listing.len() - at,
    {
        let rest = vstd::slice::slice_subrange(listing, at, listing.len());
        assert(rest@ =~= listing@.skip(at as int));
        if left == 0 {
            if rest.len() < 12 {
                assert(kids_view(out@) + Seq::<(Seq<char>, u64)>::empty() =~= kids_view(out@));
                return out;
            }
            left = le32_of(rest, 0) as u64 + 1;
            block = le32_of(rest, 4);
            assert(rest@.skip(12) =~= listing@.skip(at + 12));
            at = at + 12;
        } else {
            if rest.len() < 8 {
                assert(kids_view(out@) + Seq::<(Seq<char>, u64)>::empty() =~= kids_view(out@));
                return out;
            }
            let entry_offset: u64 = le16_of(rest, 0) as u64;
            let name_len: usize = le16_of(rest, 6) as usize + 1;
            let name = match span_of(rest, 8, name_len) {
                Some(n) => n,
                None => {
                    assert(kids_view(out@) + Seq::<(Seq<char>, u64)>::empty() =~= kids_view(out@));
                    return out;
                },
            };
            let ghost before = kids_view(out@);
            let kid = (lossy_text(name), ((block as u64) << 16) | entry_offset);
            let ghost tail = dir_entries(rest@.skip(8 + name_len), left - 1, block);
            out.push(kid);
            assert(kids_view(out@) =~= before.push((kid.0@, kid.1)));
            assert(rest@.skip(8 + name_len) =~= listing@.skip(at + 8 + name_len));
            assert(kids_view(out@) + tail =~= before + (seq![(kid.0@, kid.1)] + tail));
            left = left - 1;
            at = at + 8 + name_len;
        }
    }
}

impl<'a> Squashfs<'a> {
    /// The listing of a directory inode.
    fn listing(&self, inode: &[u8], kind: u16) -> (r: Option<&[u8]>)
        ensures
            opt_bytes(r) == dir_listing(self@, inode@, kind),
    {
        let (start, size, offset): (u32, u32, u16) = if kind == INODE_DIR {
            (le32_of(inode, 16), le16_of(inode, 24) as u32, le16_of(inode, 26))
        } else {
            (le32_of(inode, 24), le32_of(inode, 20), le16_of(inode, 34))
        };
        let len: usize = if size >= 3 {
            (size - 3) as usize
        } else {
            0
        };
        self.directories.slice(((start as u64) << 16) | offset as u64, len)
    }

    /// Emit the inode at `reference` and, if it's a directory, everything under
    /// it. `path` is where the inode lands in the sink; `base` is the unpack
    /// root, which absolute symlink targets resolve against.
    fn walk<S: Sink>(
        &self,
        reference: u64,
        path: &str,
        base: &str,
        depth: u32,
        cache: &mut FragmentCache,
        sink: &mut S,
        out: &mut Unpacked,
    ) -> (r: Result<(), PkgError>)
        requires
            0 < self.block_size <= 0x10_0000,
            depth <= 64,
            within(base@, path@),
            old(cache).holds(self@),
        ensures
            final(cache).holds(self@),
            followed(
                *old(sink),
                *old(out),
                *final(sink),
                *final(out),
                r,
                walk_run(
                    self@,
                    old(out).limit,
                    base@,
                    reference,
                    path@,
                    depth as nat,
                    progress(*old(sink), *old(out)),
                ),
            ),
        decreases 65 - depth,
    {
        let inode = match self.inodes.at(reference) {
            Some(i) => i,
            None => {
                warn(out, concat("squashfs: unreadable inode for ", path), &*sink);
                return Ok(());
            },
        };
        if inode.len() < 16 {
            warn(out, concat("squashfs: truncated inode for ", path), &*sink);
            return Ok(());
        }
        let kind = le16_of(inode, 0);
        let mode: u32 = (le16_of(inode, 2) as u32) & 0xfff;
        let min_len: usize = if kind == INODE_DIR || kind == INODE_FILE {
            32
        } else if kind == INODE_EXT_DIR {
            40
        } else if kind == INODE_EXT_FILE {
            56
        } else if kind == INODE_SYMLINK || kind == INODE_EXT_SYMLINK {
            24
        } else {
            // Devices, FIFOs, sockets: nothing an application tree needs.
            return Ok(());
        };
        if inode.len() < min_len {
            warn(out, concat("squashfs: truncated inode for ", path), &*sink);
            return Ok(());
        }
        if kind == INODE_DIR || kind == INODE_EXT_DIR {
            proof {
                let here = progress(*sink, *out);
                let q = here.with_entry(EntryView::Dir(path@));
                if let Some(l) = dir_listing(self@, inode@, kind) {
                    if depth < 64 {
                        lemma_children_sound(
                            Seq::empty(),
                            self@,
                            out.limit,
                            base@,
                            dir_entries(l, 0, 0),
                            0,
                            path@,
                            depth as nat,
                            q,
                        );
                    }
                }
            }
            match sink.dir(path) {
                Ok(_) => {},
                Err(e) => {
                    return Err(e);
                },
            }
            if depth >= MAX_DEPTH {
                warn(
                    out,
                    concat3("squashfs: stopped at ", path, " — nested deeper than 64 levels"),
                    &*sink,
                );
                return Ok(());
            }
            let listing = match self.listing(inode, kind) {
                Some(l) => l,
                None => {
                    warn(out, "squashfs: unreadable directory listing".to_owned(), &*sink);
                    return Ok(());
                },
            };
            let kids = list_entries(listing);
            let ghost all = kids_view(kids@);
            let ghost whole = children_run(
                self@,
                old(out).limit,
                base@,
                all,
                0,
                path@,
                depth as nat,
                progress(*sink, *out),
            );
            let mut i: usize = 0;
            while i < kids.len()
                invariant
                    i <= kids@.len(),
                    all == kids_view(kids@),
                    depth < 64,
                    within(base@, path@),
                    0 < self.block_size <= 0x10_0000,
                    cache.holds(self@),
                    out.same_job(*old(out)),
                    old(sink).takes_all() ==> sink.takes_all(),
                    whole == children_run(
                        self@,
                        old(out).limit,
                        base@,
                        all,
                        i as int,
                        path@,
                        depth as nat,
                        progress(*sink, *out),
                    ),
                    whole == walk_run(
                        self@,
                        old(out).limit,
                        base@,
                        reference,
                        path@,
                        depth as nat,
                        progress(*old(sink), *old(out)),
                    ),
                decreases kids.len() - i,
            {
                let name = kids[i].0.as_str();
                let child = kids[i].1;
                assert(all[i as int] == (name@, child));
                // A squashfs listing holds plain names — it stores `.` and
                // `..` as counts, not entries. Anything else is a crafted
                // image trying to walk out of the tree, or back into a
                // parent forever.
                if !is_plain_name(name) {
                    warn(
                        out,
                        concat("squashfs: skipped entry named ", quoted_of(name).as_str()),
                        &*sink,
                    );
                } else {
                    let child_path = push_of(path, name);
                    proof {
                        let here = progress(*sink, *out);
                        let limit = old(out).limit;
                        let run = walk_run(
                            self@,
                            limit,
                            base@,
                            child,
                            child_path@,
                            (depth + 1) as nat,
                            here,
                        );
                        lemma_within_push(base@, path@, name@);
                        lemma_children_sound(
                            Seq::empty(),
                            self@,
                            limit,
                            base@,
                            all,
                            i + 1,
                            path@,
                            depth as nat,
                            run.at,
                        );
                    }
                    match self.walk(child, child_path.as_str(), base, depth + 1, cache, sink, out) {
                        Ok(_) => {},
                        Err(e) => {
                            return Err(e);
                        },
                    }
                }
                i = i + 1;
            }
            Ok(())
        } else if kind == INODE_FILE || kind == INODE_EXT_FILE {
            match self.read_file(inode, kind, out.limit, cache) {
                Ok(data) => {
                    match account(out, data.len(), &*sink) {
                        Ok(_) => {},
                        Err(e) => {
                            return Err(e);
                        },
                    }
                    sink.file(path, data, mode)
                },
                Err(PkgError::TooLarge(limit)) => Err(PkgError::TooLarge(limit)),
                Err(e) => {
                    match e.message() {
                        Some(m) => {
                            let mut w = concat3("squashfs: could not read ", path, ": ");
                            w.append(m.as_str());
                            warn(out, w, &*sink);
                            Ok(())
                        },
                        None => Err(e),
                    }
                },
            }
        } else {
            let len: usize = le32_of(inode, 20) as usize;
            match span_of(inode, 24, len) {
                Some(target) => {
                    let to = link_target(base, lossy_text(target).as_str());
                    sink.symlink(path, to.as_str())
                },
                None => {
                    warn(out, concat("squashfs: unreadable symlink target for ", path), &*sink);
                    Ok(())
                },
            }
        }
    }
}

/// Unpack every file in the image at `bytes` under `base`.
pub fn unpack<S: Sink>(bytes: &[u8], base: &str, sink: &mut S, out: &mut Unpacked) -> (r: Result<
    (),
    PkgError,
>)
    ensures
        followed(
            *old(sink),
            *old(out),
            *final(sink),
            *final(out),
            r,
            unsquash(bytes@, base@, old(out).limit, progress(*old(sink), *old(out))),
        ),
{
    let fs = match Squashfs::open(bytes) {
        Ok(fs) => fs,
        Err(e) => {
            return Err(e);
        },
    };
    let mut cache = FragmentCache { slot: None };
    proof {
        lemma_within_self(base@);
    }
    fs.walk(fs.root_inode, base, base, 0, &mut cache, sink, out)
}

/// That a result, where it is a fault, is not one of size.
spec fn is_no_limit<T>(r: Result<T, Fault>) -> bool {
    !(r matches Err(Fault::TooLarge(_)))
}

proof fn lemma_metadata_fault(b: Seq<u8>, at: u64, codec: Codec)
    ensures
        is_no_limit(metadata_block(b, at, codec)),
{
}

proof fn lemma_expanded_fault(b: Seq<u8>, start: u64, end: u64, at: u64, codec: Codec, t: Meta)
    ensures
        is_no_limit(expanded_from(b, start, end, at, codec, t)),
    decreases b.len() - at,
{
    lemma_metadata_fault(b, at, codec);
    if at < end {
        if let Ok((block, next)) = metadata_block(b, at, codec) {
            if at < next <= b.len() {
                lemma_expanded_fault(
                    b,
                    start,
                    end,
                    next,
                    codec,
                    Meta {
                        data: t.data + block,
                        index: t.index.insert((at - start) as u64, t.data.len() as usize),
                    },
                );
            }
        }
    }
}

proof fn lemma_lookup_fault(
    b: Seq<u8>,
    table: int,
    i: int,
    blocks: int,
    codec: Codec,
    acc: Seq<u8>,
)
    ensures
        is_no_limit(lookup_from(b, table, i, blocks, codec, acc)),
    decreases blocks - i,
{
    if i < blocks {
        if let Some(entry) = span(b, table + i * 8, 8) {
            lemma_metadata_fault(b, le64(entry, 0), codec);
            if let Ok((block, _)) = metadata_block(b, le64(entry, 0), codec) {
                lemma_lookup_fault(b, table, i + 1, blocks, codec, acc + block);
            }
        }
    }
}

/// No image fails to open for its size.
proof fn lemma_opened_fault(b: Seq<u8>)
    ensures
        is_no_limit(opened(b)),
{
    if let Ok(codec) = checked_superblock(b) {
        let none = Meta { data: Seq::empty(), index: Map::empty() };
        lemma_expanded_fault(b, le64(b, 64), le64(b, 72), le64(b, 64), codec, none);
        lemma_expanded_fault(b, le64(b, 72), directory_end(b), le64(b, 72), codec, none);
        lemma_lookup_fault(
            b,
            le64(b, 80) as int,
            0,
            (le32(b, 16) * 16 + 8191) / 8192,
            codec,
            Seq::empty(),
        );
    }
}

proof fn lemma_blocks_fault(
    fs: Image,
    inode: Seq<u8>,
    f: FileInode,
    i: int,
    listed: int,
    cursor: u64,
    acc: Seq<u8>,
)
    ensures
        is_no_limit(blocks_from(fs, inode, f, i, listed, cursor, acc)),
    decreases listed - i,
{
    if i < listed {
        if let Some(word) = span(inode, f.list_at + i * 4, 4) {
            let entry = le32(word, 0);
            let size = (entry & DATA_SIZE_MASK) as nat;
            let expected = lesser(remaining(f.size, acc), fs.block_size as nat);
            let next = (cursor + size) as u64;
            if size == 0 {
                lemma_blocks_fault(
                    fs,
                    inode,
                    f,
                    i + 1,
                    listed,
                    cursor,
                    acc + Seq::new(expected, |k: int| 0u8),
                );
            } else if let Ok(raw) = region(fs, cursor, size) {
                if entry & DATA_UNCOMPRESSED != 0 {
                    lemma_blocks_fault(fs, inode, f, i + 1, listed, next, acc + raw);
                } else if let Ok(block) = decompressed(fs.codec, raw, Some(expected)) {
                    lemma_blocks_fault(fs, inode, f, i + 1, listed, next, acc + block);
                }
            }
        }
    }
}

/// A file that is too large is so by the limit in force.
proof fn lemma_file_fault(fs: Image, inode: Seq<u8>, kind: u16, limit: u64)
    ensures
        file_bytes(fs, inode, kind, limit) matches Err(Fault::TooLarge(n)) ==> n == limit,
{
    let f = file_inode(inode, kind);
    lemma_blocks_fault(
        fs,
        inode,
        f,
        0,
        listed_blocks(f, fs.block_size),
        f.start,
        Seq::empty(),
    );
}

proof fn lemma_walk_sound(
    log: Seq<EntryView>,
    fs: Image,
    limit: u64,
    base: Seq<char>,
    reference: u64,
    path: Seq<char>,
    depth: nat,
    p: Progress,
)
    requires
        within(base, path),
        depth <= 64,
    ensures
        sound(log, base, limit, p, walk_run(fs, limit, base, reference, path, depth, p)),
    decreases 2 * (65 - depth), 0nat,
{
    lemma_sound_done(log, base, limit, p);
    lemma_sound_warning(log, base, limit, p, "squashfs: unreadable inode for "@ + path);
    lemma_sound_warning(log, base, limit, p, "squashfs: truncated inode for "@ + path);
    if let Some(inode) = fs.inodes.at(reference) {
        let kind = le16(inode, 0);
        if inode.len() >= 16 && min_inode(kind) is Some && inode.len() >= min_inode(kind)->0 {
            if kind == INODE_DIR || kind == INODE_EXT_DIR {
                let q = p.with_entry(EntryView::Dir(path));
                lemma_sound_entry(log, base, limit, p, EntryView::Dir(path));
                let deep = "squashfs: stopped at "@ + path + " — nested deeper than 64 levels"@;
                let lost = "squashfs: unreadable directory listing"@;
                lemma_sound_warning(log, base, limit, q, deep);
                lemma_sound_warning(log, base, limit, q, lost);
                lemma_sound_trans(log, base, limit, p, q.done(), q.with_warning(deep).done());
                lemma_sound_trans(log, base, limit, p, q.done(), q.with_warning(lost).done());
                if depth < 64 {
                    if let Some(l) = dir_listing(fs, inode, kind) {
                        let kids = dir_entries(l, 0, 0);
                        lemma_children_sound(log, fs, limit, base, kids, 0, path, depth, q);
                        lemma_sound_trans(
                            log,
                            base,
                            limit,
                            p,
                            q.done(),
                            children_run(fs, limit, base, kids, 0, path, depth, q),
                        );
                    }
                }
            } else if kind == INODE_FILE || kind == INODE_EXT_FILE {
                lemma_file_fault(fs, inode, kind, limit);
                match file_bytes(fs, inode, kind, limit) {
                    Ok(data) => lemma_sound_file(
                        log,
                        base,
                        limit,
                        p,
                        path,
                        data,
                        (le16(inode, 2) as u32) & 0xfff,
                    ),
                    Err(e) => lemma_sound_warning(
                        log,
                        base,
                        limit,
                        p,
                        "squashfs: could not read "@ + path + ": "@ + fault_text(e),
                    ),
                }
            } else {
                lemma_sound_warning(
                    log,
                    base,
                    limit,
                    p,
                    "squashfs: unreadable symlink target for "@ + path,
                );
                if let Some(target) = span(inode, 24, le32(inode, 20) as int) {
                    lemma_rerooted(base, utf8_lossy(target));
                    lemma_sound_entry(
                        log,
                        base,
                        limit,
                        p,
                        EntryView::Symlink { path, target: rerooted(base, utf8_lossy(target)) },
                    );
                }
            }
        }
    }
}

proof fn lemma_children_sound(
    log: Seq<EntryView>,
    fs: Image,
    limit: u64,
    base: Seq<char>,
    kids: Seq<(Seq<char>, u64)>,
    i: int,
    path: Seq<char>,
    depth: nat,
    p: Progress,
)
    requires
        within(base, path),
        depth < 64,
    ensures
        sound(log, base, limit, p, children_run(fs, limit, base, kids, i, path, depth, p)),
    decreases 2 * (65 - depth) - 1, kids.len() - i,
{
    lemma_sound_done(log, base, limit, p);
    if 0 <= i < kids.len() {
        let (name, child) = kids[i];
        let whole = children_run(fs, limit, base, kids, i, path, depth, p);
        if !is_plain(name) {
            let w = "squashfs: skipped entry named "@ + quoted(name);
            lemma_sound_warning(log, base, limit, p, w);
            lemma_children_sound(log, fs, limit, base, kids, i + 1, path, depth, p.with_warning(w));
            lemma_sound_trans(log, base, limit, p, p.with_warning(w).done(), whole);
        } else {
            lemma_within_push(base, path, name);
            lemma_walk_sound(log, fs, limit, base, child, pushed(path, name), depth + 1, p);
            let run = walk_run(fs, limit, base, child, pushed(path, name), depth + 1, p);
            if run.result is Ok {
                lemma_children_sound(log, fs, limit, base, kids, i + 1, path, depth, run.at);
                lemma_sound_trans(log, base, limit, p, run, whole);
            }
        }
    }
}

/// Whatever the image holds and however it ends, unpacking it emits only entries within
/// the base and within the limit, counts exactly what it emits, and loses nothing that was
/// there before.
pub proof fn lemma_unsquash_sound(log: Seq<EntryView>, b: Seq<u8>, base: Seq<char>, limit: u64, p: Progress)
    ensures
        sound(log, base, limit, p, unsquash(b, base, limit, p)),
{
    lemma_within_self(base);
    lemma_sound_done(log, base, limit, p);
    lemma_opened_fault(b);
    if let Ok(fs) = opened(b) {
        lemma_walk_sound(log, fs, limit, base, fs.root, base, 0, p);
    }
}

} // verus!
