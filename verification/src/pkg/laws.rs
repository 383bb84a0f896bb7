//! What holds of packages as a whole: how their bytes tell what they are, and that each way
//! of compressing a payload is undone by its own reader.

use vstd::prelude::*;
use vstd::utf8::{encode_utf8, encode_utf8_decode_utf8, encode_utf8_valid_utf8};

use crate::bytes::{be32, begins, first_byte, le16, le32, le64, lemma_numbers_read_back, span};
use crate::num::decimal;
use crate::path::{parent, pushed, safe_join};
use crate::pkg::appimage::{
    appimage_payload, elf_extent, has_elf_magic, image_start, scan, superblock_at, type_marker,
};
use crate::pkg::ar::{extension_codec, is_deb, is_deb_name};
use crate::pkg::cache::{expands, fnv_of, is_kept, kept_chars, key_stem, keyed, packages_in, partial_of};
use crate::pkg::cpio::{link_key, Fields};
use crate::pkg::cpio_packing::{landed, lemma_rpm_gives_back, packed, travels_as, Item};
use crate::pkg::decompress::{
    bunzip2, decompressed, gunzip, inflate, sniffed, unlz4_block, unlz4_frame, unlzma, unxzed,
    unzstd, Codec,
};
use crate::pkg::dir_sink::{dir_write, file_write, lies_in, link_write, safe_mode, WriteView};
use crate::pkg::image_packing::gave;
use crate::pkg::packing::{
    gave_back, lemma_deb_gives_back, lemma_prefix_span, lemma_prefix_split, lemma_tarball_gives_back,
    packed_outer, payload_part, records, tells, travels, zeros, Member, Part,
};
use crate::pkg::rpm::{
    declared_codec, has_magic, padded, payload_after, rpm_payload, section, tag_string, Section,
};
use crate::pkg::squashfs::{
    checked_superblock, dir_listing, file_inode, listed_blocks, metadata_block, min_inode, FileInode,
    Image,
};
use crate::pkg::tar::has_ustar;
use crate::pkg::{
    ar, cpio, fault_message, fresh, identified, is_foreign, is_tarball, rpm, squashfs, tar, total_size,
    unpack_run, EntryView, Fault, Format, Progress,
};
use crate::text::{closes, lemma_split_head, lower, opens, split, CharClass};

verus! {

// ---------- rpm -------------------------------------------------------------

/// A number's bytes, the most significant first.
pub open spec fn be_bytes(n: u32) -> Seq<u8> {
    seq![
        (n / 0x100_0000) as u8,
        (n / 0x1_0000 % 0x100) as u8,
        (n / 0x100 % 0x100) as u8,
        (n % 0x100) as u8,
    ]
}

/// One entry of a header's index: which tag, of what type, where in the store and how many.
pub struct Tag {
    pub tag: u32,
    pub kind: u32,
    pub offset: u32,
    pub count: u32,
}

impl Tag {
    /// Its sixteen bytes.
    pub open spec fn bytes(self) -> Seq<u8> {
        be_bytes(self.tag) + be_bytes(self.kind) + be_bytes(self.offset) + be_bytes(self.count)
    }
}

/// A header: an index, and the store that it points into.
pub struct Sheet {
    pub spare: Seq<u8>,
    pub tags: Seq<Tag>,
    pub store: Seq<u8>,
}

/// The bytes of an index.
pub open spec fn index_bytes(tags: Seq<Tag>) -> Seq<u8> {
    Seq::new(16 * tags.len(), |i: int| tags[i / 16].bytes()[i % 16])
}

impl Sheet {
    /// Whether its parts fit their fields.
    pub open spec fn is_whole(self) -> bool {
        self.spare.len() == 4 && self.tags.len() <= u32::MAX && self.store.len() <= u32::MAX
    }

    /// The sixteen bytes before the index.
    pub open spec fn prelude(self) -> Seq<u8> {
        seq![0x8eu8, 0xad, 0xe8, 0x01] + self.spare + be_bytes(self.tags.len() as u32) + be_bytes(
            self.store.len() as u32,
        )
    }

    /// Its bytes.
    pub open spec fn bytes(self) -> Seq<u8> {
        self.prelude() + (index_bytes(self.tags) + self.store)
    }

    /// Whether it states a text under a tag: the first entry of that tag is a string, and the
    /// store holds the text there.
    #[verifier::opaque]
    pub open spec fn states(self, tag: u32, text: Seq<char>) -> bool {
        exists|k: int|
            {
                &&& 0 <= k < self.tags.len()
                &&& (#[trigger] self.tags[k]).tag == tag
                &&& self.tags[k].kind == 6
                &&& self.tags[k].offset <= self.store.len()
                &&& tells(self.store.skip(self.tags[k].offset as int), text)
                &&& forall|j: int| 0 <= j < k ==> (#[trigger] self.tags[j]).tag != tag
            }
    }

    /// Whether it says nothing under a tag.
    pub open spec fn lacks(self, tag: u32) -> bool {
        forall|j: int| 0 <= j < self.tags.len() ==> (#[trigger] self.tags[j]).tag != tag
    }
}

proof fn lemma_be32(b: Seq<u8>, at: int, n: u32)
    requires
        0 <= at,
        at + 4 <= b.len(),
        b.subrange(at, at + 4) == be_bytes(n),
    ensures
        be32(b, at) == n,
{
    assert(b[at] == b.subrange(at, at + 4)[0]);
    assert(b[at + 1] == b.subrange(at, at + 4)[1]);
    assert(b[at + 2] == b.subrange(at, at + 4)[2]);
    assert(b[at + 3] == b.subrange(at, at + 4)[3]);
    lemma_numbers_read_back(n, b, at);
}

proof fn lemma_section(b: Seq<u8>, at: int, s: Sheet)
    requires
        0 <= at <= b.len(),
        s.is_whole(),
        s.bytes().is_prefix_of(b.skip(at)),
    ensures
        section(b, at) == Ok::<Section, Fault>(
            Section {
                index: at + 16,
                count: s.tags.len() as int,
                store: at + 16 + 16 * s.tags.len(),
                end: at + s.bytes().len(),
            },
        ),
        at + s.bytes().len() <= b.len(),
{
    lemma_sheet(b, at, s);
}

proof fn lemma_sheet(b: Seq<u8>, at: int, s: Sheet)
    requires
        0 <= at <= b.len(),
        s.is_whole(),
        s.bytes().is_prefix_of(b.skip(at)),
    ensures
        section(b, at) == Ok::<Section, Fault>(
            Section {
                index: at + 16,
                count: s.tags.len() as int,
                store: at + 16 + 16 * s.tags.len(),
                end: at + s.bytes().len(),
            },
        ),
        s.bytes().len() == 16 + 16 * s.tags.len() + s.store.len(),
        at + s.bytes().len() <= b.len(),
        b.subrange(at + 16 + 16 * s.tags.len(), at + s.bytes().len()) == s.store,
        forall|k: int|
            0 <= k < s.tags.len() ==> span(b, at + 16 + k * 16, 16) == Some(
                (#[trigger] s.tags[k]).bytes(),
            ),
{
    let p = s.prelude();
    let x = index_bytes(s.tags);
    assert(p.len() == 16);
    lemma_prefix_split(b, at, p, x + s.store);
    lemma_prefix_span(b, at, p);
    lemma_prefix_split(b, at + 16, x, s.store);
    lemma_prefix_span(b, at + 16, x);
    lemma_prefix_span(b, at + 16 + x.len(), s.store);
    assert(p.take(4) =~= seq![0x8eu8, 0xad, 0xe8, 0x01]);
    assert(p.subrange(8, 12) =~= be_bytes(s.tags.len() as u32));
    assert(p.subrange(12, 16) =~= be_bytes(s.store.len() as u32));
    lemma_be32(p, 8, s.tags.len() as u32);
    lemma_be32(p, 12, s.store.len() as u32);
    assert forall|k: int| 0 <= k < s.tags.len() implies span(b, at + 16 + k * 16, 16) == Some(
        (#[trigger] s.tags[k]).bytes(),
    ) by {
        let t = s.tags[k].bytes();
        assert(t.len() == 16);
        let e = b.subrange(at + 16 + k * 16, at + 16 + k * 16 + 16);
        assert forall|j: int| 0 <= j < 16 implies e[j] == t[j] by {
            assert(e[j] == b.subrange(at + 16, at + 16 + x.len())[k * 16 + j]);
            assert((k * 16 + j) / 16 == k && (k * 16 + j) % 16 == j);
        }
        assert(e =~= t);
    }
}

proof fn lemma_tag(t: Tag)
    ensures
        be32(t.bytes(), 0) == t.tag,
        be32(t.bytes(), 4) == t.kind,
        be32(t.bytes(), 8) == t.offset,
{
    let b = t.bytes();
    assert(b.subrange(0, 4) =~= be_bytes(t.tag));
    assert(b.subrange(4, 8) =~= be_bytes(t.kind));
    assert(b.subrange(8, 12) =~= be_bytes(t.offset));
    lemma_be32(b, 0, t.tag);
    lemma_be32(b, 4, t.kind);
    lemma_be32(b, 8, t.offset);
}

proof fn lemma_first_byte_at(b: Seq<u8>, from: int, at: int)
    requires
        0 <= from <= at <= b.len(),
        forall|i: int| from <= i < at ==> b[i] != 0,
        at < b.len() ==> b[at] == 0,
    ensures
        first_byte(b, 0, from) == (if at < b.len() {
            Some(at)
        } else {
            None
        }),
    decreases at - from,
{
    if from < at {
        lemma_first_byte_at(b, from + 1, at);
    }
}

proof fn lemma_stated_from(b: Seq<u8>, at: int, s: Sheet, tag: u32, text: Seq<char>, i: int, k: int)
    requires
        0 <= at <= b.len(),
        s.is_whole(),
        s.bytes().is_prefix_of(b.skip(at)),
        0 <= i <= k < s.tags.len(),
        s.tags[k].tag == tag,
        s.tags[k].kind == 6,
        s.tags[k].offset <= s.store.len(),
        tells(s.store.skip(s.tags[k].offset as int), text),
        forall|j: int| i <= j < k ==> (#[trigger] s.tags[j]).tag != tag,
    ensures
        tag_string(b, section(b, at)->Ok_0, tag, i) == Some(text),
    decreases k - i,
{
    lemma_sheet(b, at, s);
    lemma_tag(s.tags[i]);
    assert(span(b, at + 16 + i * 16, 16) == Some(s.tags[i].bytes()));
    if i < k {
        lemma_stated_from(b, at, s, tag, text, i + 1, k);
    } else {
        let off = s.tags[k].offset as int;
        let store = at + 16 + 16 * s.tags.len();
        let end = at + s.bytes().len();
        let rest = b.subrange(store + off, end);
        assert(rest =~= s.store.skip(off)) by {
            assert forall|j: int| 0 <= j < rest.len() implies rest[j] == s.store.skip(off)[j] by {
                assert(b.subrange(store, end)[off + j] == s.store[off + j]);
            }
        }
        let e = encode_utf8(text);
        encode_utf8_valid_utf8(text);
        encode_utf8_decode_utf8(text);
        assert forall|j: int| 0 <= j < e.len() implies rest[j] != 0 by {
            assert(rest[j] == e[j]);
            assert(e.contains(e[j]));
        }
        lemma_first_byte_at(rest, 0, e.len() as int);
        assert(rest.take(e.len() as int) =~= e);
        if e.len() == rest.len() {
            assert(rest =~= e);
        }
    }
}

proof fn lemma_lacking_from(b: Seq<u8>, at: int, s: Sheet, tag: u32, i: int)
    requires
        0 <= at <= b.len(),
        s.is_whole(),
        s.bytes().is_prefix_of(b.skip(at)),
        0 <= i <= s.tags.len(),
        s.lacks(tag),
    ensures
        tag_string(b, section(b, at)->Ok_0, tag, i) is None,
    decreases s.tags.len() - i,
{
    lemma_sheet(b, at, s);
    if i < s.tags.len() {
        lemma_tag(s.tags[i]);
        assert(span(b, at + 16 + i * 16, 16) == Some(s.tags[i].bytes()));
        lemma_lacking_from(b, at, s, tag, i + 1);
    }
}

/// A package: the lead, the signature header with its padding, the main header and the
/// payload.
pub struct Package {
    pub lead: Seq<u8>,
    pub signature: Sheet,
    pub main: Sheet,
    pub payload: Seq<u8>,
}

impl Package {
    /// Whether its parts fit together.
    pub open spec fn is_whole(self) -> bool {
        &&& self.lead.len() == 96
        &&& self.lead.take(4) == seq![0xedu8, 0xab, 0xee, 0xdb]
        &&& self.signature.is_whole()
        &&& self.main.is_whole()
        &&& self.payload.len() > 0
    }

    /// The padding that makes the main header start at a multiple of eight.
    pub open spec fn padding(self) -> Seq<u8> {
        zeros(((8 - self.signature.bytes().len() as int % 8) % 8) as nat)
    }

    /// Where the main header starts.
    pub open spec fn main_at(self) -> int {
        96 + self.signature.bytes().len() + self.padding().len() as int
    }

    /// Its bytes.
    #[verifier::opaque]
    pub open spec fn bytes(self) -> Seq<u8> {
        self.lead + (self.signature.bytes() + (self.padding() + (self.main.bytes()
            + self.payload)))
    }

    /// Whether its payload is a cpio archive, as it says or leaves unsaid.
    pub open spec fn is_cpio(self) -> bool {
        self.main.states(1124, "cpio"@) || self.main.lacks(1124)
    }
}

proof fn lemma_pieces(a: Seq<u8>, s: Seq<u8>, z: Seq<u8>, m: Seq<u8>, rest: Seq<u8>)
    requires
        a.len() == 96,
    ensures
        ({
            let b = a + (s + (z + (m + rest)));
            let at = 96 + s.len() + z.len() as int;
            &&& b.len() == at + m.len() + rest.len()
            &&& b.take(4) == a.take(4)
            &&& s.is_prefix_of(b.skip(96))
            &&& m.is_prefix_of(b.skip(at))
            &&& b.skip(at + m.len()) == rest
        }),
{
    let b = a + (s + (z + (m + rest)));
    let at = 96 + s.len() + z.len() as int;
    assert(b.take(4) =~= a.take(4));
    assert(b.skip(96) =~= s + (z + (m + rest)));
    assert(b.skip(at) =~= m + rest);
    assert(b.skip(at + m.len()) =~= rest);
}

proof fn lemma_stated(b: Seq<u8>, at: int, s: Sheet, tag: u32, text: Seq<char>)
    requires
        0 <= at <= b.len(),
        s.is_whole(),
        s.bytes().is_prefix_of(b.skip(at)),
    ensures
        s.states(tag, text) ==> tag_string(b, section(b, at)->Ok_0, tag, 0) == Some(text),
        s.lacks(tag) ==> tag_string(b, section(b, at)->Ok_0, tag, 0) is None,
{
    reveal(Sheet::states);
    if s.states(tag, text) {
        let k = choose|k: int|
            {
                &&& 0 <= k < s.tags.len()
                &&& (#[trigger] s.tags[k]).tag == tag
                &&& s.tags[k].kind == 6
                &&& s.tags[k].offset <= s.store.len()
                &&& tells(s.store.skip(s.tags[k].offset as int), text)
                &&& forall|j: int| 0 <= j < k ==> (#[trigger] s.tags[j]).tag != tag
            };
        lemma_stated_from(b, at, s, tag, text, 0, k);
    }
    if s.lacks(tag) {
        lemma_lacking_from(b, at, s, tag, 0);
    }
}

#[verifier::spinoff_prover]
#[verifier::rlimit(40)]
proof fn lemma_headers_follow(b: Seq<u8>, signature: Sheet, main: Sheet, at: int)
    requires
        b.len() >= 96,
        b.take(4) == seq![0xedu8, 0xab, 0xee, 0xdb],
        signature.is_whole(),
        main.is_whole(),
        signature.bytes().is_prefix_of(b.skip(96)),
        at == 96 + signature.bytes().len() + (8 - signature.bytes().len() as int % 8) % 8,
        at <= b.len(),
        main.bytes().is_prefix_of(b.skip(at)),
    ensures
        rpm_payload(b) == payload_after(b, section(b, at)->Ok_0),
        (section(b, at)->Ok_0).end == at + main.bytes().len(),
{
    lemma_section(b, 96, signature);
    lemma_section(b, at, main);
    lemma_pad(signature.bytes().len() as int);
    lemma_payload_follows(b, section(b, 96)->Ok_0, section(b, at)->Ok_0);
}

proof fn lemma_pad(n: int)
    requires
        n >= 0,
    ensures
        padded(96 + n) == 96 + n + (8 - n % 8) % 8,
{
    assert((96 + n) % 8 == n % 8);
}

proof fn lemma_payload_follows(b: Seq<u8>, signature: Section, main: Section)
    requires
        b.len() >= 96,
        b.take(4) == seq![0xedu8, 0xab, 0xee, 0xdb],
        section(b, 96) == Ok::<Section, Fault>(signature),
        section(b, padded(signature.end)) == Ok::<Section, Fault>(main),
    ensures
        rpm_payload(b) == payload_after(b, main),
{
}

/// What the main header of a package says is what is read of it, and the payload is what
/// follows it.
pub proof fn lemma_package_is_read(p: Package, tag: u32, text: Seq<char>)
    requires
        p.is_whole(),
    ensures
        rpm_payload(p.bytes()) == payload_after(
            p.bytes(),
            section(p.bytes(), p.main_at())->Ok_0,
        ),
        ({
            let main = section(p.bytes(), p.main_at())->Ok_0;
            &&& p.main.states(tag, text) ==> tag_string(p.bytes(), main, tag, 0) == Some(text)
            &&& p.main.lacks(tag) ==> tag_string(p.bytes(), main, tag, 0) is None
            &&& main.end < p.bytes().len()
            &&& p.bytes().skip(main.end) == p.payload
        }),
{
    reveal(Package::bytes);
    let b = p.bytes();
    lemma_pieces(p.lead, p.signature.bytes(), p.padding(), p.main.bytes(), p.payload);
    lemma_headers_follow(b, p.signature, p.main, p.main_at());
    lemma_stated(b, p.main_at(), p.main, tag, text);
}

/// Whether the reader that a compressor's name stands for gives `archive` for `payload`.
pub open spec fn expands_by_name(name: Seq<char>, payload: Seq<u8>, archive: Seq<u8>) -> bool {
    ||| name == "gzip"@ && gunzip(payload) == Ok::<Seq<u8>, Seq<char>>(archive)
    ||| name == "xz"@ && unxzed(payload) == Ok::<Seq<u8>, Seq<char>>(archive)
    ||| name == "zstd"@ && unzstd(payload) == Ok::<Result<Seq<u8>, Seq<char>>, Seq<char>>(
        Ok(archive),
    )
    ||| name == "bzip2"@ && bunzip2(payload) == Ok::<Seq<u8>, Seq<char>>(archive)
    ||| name == "lzma"@ && unlzma(payload) == Ok::<Seq<u8>, Seq<char>>(archive)
    ||| name == "none"@ && payload == archive
}

proof fn lemma_names_differ()
    ensures
        "gzip"@.len() == 4 && "gzip"@[0] == 'g',
        "xz"@.len() == 2,
        "zstd"@.len() == 4 && "zstd"@[0] == 'z',
        "bzip2"@.len() == 5,
        "lzma"@.len() == 4 && "lzma"@[0] == 'l',
        "none"@.len() == 4 && "none"@[0] == 'n',
        "lzo"@.len() == 3,
{
    reveal_strlit("gzip");
    reveal_strlit("xz");
    reveal_strlit("zstd");
    reveal_strlit("bzip2");
    reveal_strlit("lzma");
    reveal_strlit("none");
    reveal_strlit("lzo");
}

/// The codec of a payload is the one that its compressor's name stands for.
pub proof fn lemma_codec_by_name(p: Package, name: Seq<char>)
    requires
        p.is_whole(),
        p.is_cpio(),
        p.main.states(1125, name),
    ensures
        ({
            let r = rpm_payload(p.bytes());
            &&& name == "gzip"@ ==> r == Ok::<(Seq<u8>, Codec), Fault>((p.payload, Codec::Gzip))
            &&& name == "xz"@ ==> r == Ok::<(Seq<u8>, Codec), Fault>((p.payload, Codec::Xz))
            &&& name == "zstd"@ ==> r == Ok::<(Seq<u8>, Codec), Fault>((p.payload, Codec::Zstd))
            &&& name == "bzip2"@ ==> r == Ok::<(Seq<u8>, Codec), Fault>((p.payload, Codec::Bzip2))
            &&& name == "lzma"@ ==> r == Ok::<(Seq<u8>, Codec), Fault>((p.payload, Codec::Lzma))
            &&& name == "none"@ ==> r == Ok::<(Seq<u8>, Codec), Fault>((p.payload, Codec::Stored))
            &&& name == "lzo"@ ==> r == Err::<(Seq<u8>, Codec), Fault>(
                Fault::UnsupportedCompression("lzo"@),
            )
        }),
{
    lemma_package_is_read(p, 1125, name);
    lemma_package_is_read(p, 1124, "cpio"@);
    lemma_names_differ();
}

proof fn lemma_named_reader(p: Package, name: Seq<char>, archive: Seq<u8>)
    requires
        p.is_whole(),
        p.is_cpio(),
        p.main.states(1125, name),
        expands_by_name(name, p.payload, archive),
    ensures
        rpm_payload(p.bytes()) matches Ok((payload, codec)) && decompressed(codec, payload, None)
            == Ok::<Seq<u8>, Fault>(archive),
{
    lemma_codec_by_name(p, name);
    lemma_names_differ();
}

/// A package gives its tree back for each compressor by name: where the reader that the name
/// stands for gives a cpio archive of a tree, unpacking gives that tree.
pub proof fn lemma_package_gives_back(
    p: Package,
    name: Seq<char>,
    items: Seq<Item>,
    trailer: Item,
    base: Seq<char>,
    limit: u64,
    log: Seq<EntryView>,
)
    requires
        p.is_whole(),
        p.is_cpio(),
        p.main.states(1125, name),
        expands_by_name(name, p.payload, packed(items, trailer)),
        forall|i: int| 0 <= i < items.len() ==> travels_as(base, #[trigger] items[i]),
        trailer.is_packable(),
        trailer.name == "TRAILER!!!"@,
        total_size(landed(base, items)) <= limit,
        items.len() <= usize::MAX,
    ensures
        gave(
            unpack_run(p.bytes(), Format::Rpm, base, limit, fresh(log)),
            log.push(EntryView::Dir(base)),
            landed(base, items),
        ),
{
    lemma_named_reader(p, name, packed(items, trailer));
    lemma_rpm_gives_back(p.bytes(), items, trailer, base, limit, log);
}

/// Whether the reader that the first bytes of `data` call for gives `archive`.
pub open spec fn expands_by_magic(data: Seq<u8>, archive: Seq<u8>) -> bool {
    ||| begins(data, seq![0x1fu8, 0x8b]) && gunzip(data) == Ok::<Seq<u8>, Seq<char>>(archive)
    ||| begins(data, seq![0xfdu8, 0x37, 0x7a, 0x58, 0x5a, 0]) && unxzed(data) == Ok::<
        Seq<u8>,
        Seq<char>,
    >(archive)
    ||| begins(data, seq![0x28u8, 0xb5, 0x2f, 0xfd]) && unzstd(data) == Ok::<
        Result<Seq<u8>, Seq<char>>,
        Seq<char>,
    >(Ok(archive))
    ||| begins(data, seq![0x42u8, 0x5a, 0x68]) && bunzip2(data) == Ok::<Seq<u8>, Seq<char>>(archive)
    ||| begins(data, seq![0x04u8, 0x22, 0x4d, 0x18]) && unlz4_frame(data) == Ok::<
        Seq<u8>,
        Seq<char>,
    >(archive)
    ||| begins(data, seq![0x5du8, 0, 0]) && unlzma(data) == Ok::<Seq<u8>, Seq<char>>(archive)
}

proof fn lemma_magics(data: Seq<u8>)
    ensures
        begins(data, seq![0x1fu8, 0x8b]) ==> data[0] == 0x1f,
        begins(data, seq![0xfdu8, 0x37, 0x7a, 0x58, 0x5a, 0]) ==> data[0] == 0xfd,
        begins(data, seq![0x28u8, 0xb5, 0x2f, 0xfd]) ==> data[0] == 0x28,
        begins(data, seq![0x42u8, 0x5a, 0x68]) ==> data[0] == 0x42,
        begins(data, seq![0x04u8, 0x22, 0x4d, 0x18]) ==> data[0] == 0x04,
        begins(data, seq![0x5du8, 0, 0]) ==> data[0] == 0x5d,
        data.len() > 0 ==> data.take(1)[0] == data[0],
{
    if data.len() >= 2 {
        assert(data.take(2)[0] == data[0]);
    }
    if data.len() >= 3 {
        assert(data.take(3)[0] == data[0]);
    }
    if data.len() >= 4 {
        assert(data.take(4)[0] == data[0]);
    }
    if data.len() >= 6 {
        assert(data.take(6)[0] == data[0]);
    }
}

/// A payload without a named compressor is expanded as its own bytes call for.
pub proof fn lemma_magic_expands(data: Seq<u8>, archive: Seq<u8>, expected: Option<nat>)
    requires
        expands_by_magic(data, archive),
    ensures
        sniffed(data) matches Some(c) && decompressed(c, data, expected) == Ok::<Seq<u8>, Fault>(
            archive,
        ),
{
    lemma_magics(data);
}

/// What starts in none of these ways tells nothing of how it is compressed.
pub proof fn lemma_no_magic(data: Seq<u8>)
    requires
        data.len() == 0 || (data[0] != 0x1f && data[0] != 0xfd && data[0] != 0x28 && data[0] != 0x42
            && data[0] != 0x04 && data[0] != 0x5d),
    ensures
        sniffed(data) is None,
{
    lemma_magics(data);
}

/// A package that names no compressor gives its tree back where its payload tells how it is
/// compressed.
pub proof fn lemma_unnamed_package_gives_back(
    p: Package,
    items: Seq<Item>,
    trailer: Item,
    base: Seq<char>,
    limit: u64,
    log: Seq<EntryView>,
)
    requires
        p.is_whole(),
        p.is_cpio(),
        p.main.lacks(1125),
        expands_by_magic(p.payload, packed(items, trailer)) || (sniffed(p.payload) is None
            && p.payload == packed(items, trailer)),
        forall|i: int| 0 <= i < items.len() ==> travels_as(base, #[trigger] items[i]),
        trailer.is_packable(),
        trailer.name == "TRAILER!!!"@,
        total_size(landed(base, items)) <= limit,
        items.len() <= usize::MAX,
    ensures
        gave(
            unpack_run(p.bytes(), Format::Rpm, base, limit, fresh(log)),
            log.push(EntryView::Dir(base)),
            landed(base, items),
        ),
{
    lemma_package_is_read(p, 1125, "gzip"@);
    lemma_package_is_read(p, 1124, "cpio"@);
    if expands_by_magic(p.payload, packed(items, trailer)) {
        lemma_magic_expands(p.payload, packed(items, trailer), None);
    }
    lemma_rpm_gives_back(p.bytes(), items, trailer, base, limit, log);
}

/// A payload that is said to be something else than cpio is refused.
pub proof fn lemma_other_payload_is_refused(p: Package, format: Seq<char>)
    requires
        p.is_whole(),
        p.main.states(1124, format),
        format != "cpio"@,
    ensures
        rpm_payload(p.bytes()) matches Err(Fault::Unsupported(_)),
{
    lemma_package_is_read(p, 1124, format);
}

// ---------- deb and tarballs ------------------------------------------------

/// A tarball gives its tree back for each way of compressing it, by its own bytes.
pub proof fn lemma_tarball_by_magic(
    b: Seq<u8>,
    archive: Seq<u8>,
    members: Seq<Member>,
    base: Seq<char>,
    limit: u64,
    log: Seq<EntryView>,
)
    requires
        travels(members, base, limit),
        records(archive, members),
        archive.len() <= usize::MAX,
        !is_foreign(archive) || has_ustar(archive),
        expands_by_magic(b, archive),
    ensures
        gave_back(
            unpack_run(b, Format::Tarball, base, limit, fresh(log)),
            log.push(EntryView::Dir(base)),
            base,
            members,
        ),
{
    lemma_magic_expands(b, archive, None);
    lemma_magics(b);
    lemma_foreign(b);
    lemma_tarball_gives_back(b, archive, members, base, limit, log);
}

proof fn lemma_foreign(b: Seq<u8>)
    ensures
        is_foreign(b) ==> b.len() > 0 && (b[0] == 0xed || b[0] == 0x21 || b[0] == 0x68 || b[0] == 0x73
            || b[0] == 0x7f),
{
    if b.len() >= 4 {
        assert(b.take(4)[0] == b[0]);
    }
    if b.len() >= 8 {
        assert(b.take(8)[0] == b[0]);
    }
}

/// A Debian package gives its tree back where the payload's own bytes tell how it is
/// compressed.
pub proof fn lemma_deb_by_magic(
    parts: Seq<Part>,
    archive: Seq<u8>,
    members: Seq<Member>,
    base: Seq<char>,
    limit: u64,
    log: Seq<EntryView>,
)
    requires
        travels(members, base, limit),
        records(archive, members),
        archive.len() <= usize::MAX,
        packed_outer(parts).len() <= usize::MAX,
        forall|i: int| 0 <= i < parts.len() ==> (#[trigger] parts[i]).is_packable(),
        payload_part(parts) matches Some(q) && expands_by_magic(q.data, archive),
    ensures
        gave_back(
            unpack_run(packed_outer(parts), Format::Deb, base, limit, fresh(log)),
            log.push(EntryView::Dir(base)),
            base,
            members,
        ),
{
    lemma_magic_expands(payload_part(parts)->0.data, archive, None);
    lemma_deb_gives_back(parts, archive, members, base, limit, log);
}

/// The extension of a payload's name tells its codec.
pub proof fn lemma_extension_tells(ext: Seq<char>)
    requires
        !ext.contains('.'),
    ensures
        ({
            let c = extension_codec("data.tar."@ + ext);
            &&& ext == "gz"@ ==> c == Codec::Gzip
            &&& ext == "xz"@ ==> c == Codec::Xz
            &&& ext == "zst"@ ==> c == Codec::Zstd
            &&& ext == "bz2"@ ==> c == Codec::Bzip2
            &&& ext == "lzma"@ ==> c == Codec::Lzma
            &&& ext != "gz"@ && ext != "xz"@ && ext != "zst"@ && ext != "bz2"@ && ext != "lzma"@
                ==> c == Codec::Stored
        }),
        extension_codec("data.tar"@) == Codec::Stored,
{
    reveal_strlit("data.tar.");
    reveal_strlit("data.tar");
    reveal_strlit("data");
    reveal_strlit("tar");
    reveal_strlit("gz");
    reveal_strlit("xz");
    reveal_strlit("zst");
    reveal_strlit("bz2");
    reveal_strlit("lzma");
    let dot = CharClass::Only('.');
    let name = "data.tar."@ + ext;
    assert forall|i: int| 0 <= i < ext.len() implies !dot.has(#[trigger] ext[i]) by {
        assert(ext.contains(ext[i]));
    }
    let rest = "tar"@.push('.') + ext;
    assert(name =~= "data"@.push('.') + rest);
    lemma_split_head("data"@, '.', rest, dot);
    lemma_split_head("tar"@, '.', ext, dot);
    lemma_split_head(ext, '.', Seq::empty(), dot);
    assert(split(name, dot).last() == ext);
    assert("data.tar"@ =~= "data"@.push('.') + "tar"@);
    lemma_split_head("data"@, '.', "tar"@, dot);
    assert(split("data.tar"@, dot).last() == "tar"@);
    assert("gz"@[0] == 'g' && "xz"@[0] == 'x' && "zst"@[0] == 'z' && "bz2"@[0] == 'b' && "lzma"@[0]
        == 'l' && "tar"@[0] == 't');
}

/// Whether the reader that an extension stands for gives `archive` for `data`.
pub open spec fn expands_by_extension(ext: Seq<char>, data: Seq<u8>, archive: Seq<u8>) -> bool {
    ||| ext == "gz"@ && gunzip(data) == Ok::<Seq<u8>, Seq<char>>(archive)
    ||| ext == "xz"@ && unxzed(data) == Ok::<Seq<u8>, Seq<char>>(archive)
    ||| ext == "zst"@ && unzstd(data) == Ok::<Result<Seq<u8>, Seq<char>>, Seq<char>>(Ok(archive))
    ||| ext == "bz2"@ && bunzip2(data) == Ok::<Seq<u8>, Seq<char>>(archive)
    ||| ext == "lzma"@ && unlzma(data) == Ok::<Seq<u8>, Seq<char>>(archive)
}

proof fn lemma_extension_reader(ext: Seq<char>, data: Seq<u8>, archive: Seq<u8>)
    requires
        expands_by_extension(ext, data, archive),
    ensures
        decompressed(extension_codec("data.tar."@ + ext), data, None) == Ok::<Seq<u8>, Fault>(
            archive,
        ),
{
    reveal_strlit("gz");
    reveal_strlit("xz");
    reveal_strlit("zst");
    reveal_strlit("bz2");
    reveal_strlit("lzma");
    assert(!ext.contains('.'));
    lemma_extension_tells(ext);
    assert("gz"@[0] == 'g' && "xz"@[0] == 'x' && "zst"@[0] == 'z' && "bz2"@[0] == 'b' && "lzma"@[0]
        == 'l');
}

/// A Debian package gives its tree back where only the name of the payload tells how it is
/// compressed.
pub proof fn lemma_deb_by_name(
    parts: Seq<Part>,
    ext: Seq<char>,
    archive: Seq<u8>,
    members: Seq<Member>,
    base: Seq<char>,
    limit: u64,
    log: Seq<EntryView>,
)
    requires
        travels(members, base, limit),
        records(archive, members),
        archive.len() <= usize::MAX,
        packed_outer(parts).len() <= usize::MAX,
        forall|i: int| 0 <= i < parts.len() ==> (#[trigger] parts[i]).is_packable(),
        payload_part(parts) is Some,
        payload_part(parts)->0.name == "data.tar."@ + ext,
        sniffed(payload_part(parts)->0.data) is None,
        expands_by_extension(ext, payload_part(parts)->0.data, archive),
    ensures
        gave_back(
            unpack_run(packed_outer(parts), Format::Deb, base, limit, fresh(log)),
            log.push(EntryView::Dir(base)),
            base,
            members,
        ),
{
    lemma_extension_reader(ext, payload_part(parts)->0.data, archive);
    lemma_deb_gives_back(parts, archive, members, base, limit, log);
}

/// An archive is a Debian package exactly where it holds a member of one of the names that
/// only such packages have.
pub proof fn lemma_deb_names(name: Seq<char>)
    ensures
        is_deb_name("debian-binary"@),
        is_deb_name("data.tar"@ + name),
        !opens(name, "d"@) ==> !is_deb_name(name),
{
    reveal_strlit("debian-binary");
    reveal_strlit("data.tar");
    reveal_strlit("d");
    assert(("data.tar"@ + name).take(8) =~= "data.tar"@);
    if is_deb_name(name) {
        if opens(name, "data.tar"@) {
            assert(name.take(8)[0] == name[0]);
        }
        assert(name.take(1) =~= "d"@);
    }
}

// ---------- which format it is ----------------------------------------------

proof fn lemma_heads(b: Seq<u8>)
    ensures
        rpm::has_magic(b) <==> b.len() >= 4 && b[0] == 0xed && b[1] == 0xab && b[2] == 0xee && b[3]
            == 0xdb,
        ar::has_magic(b) ==> b.len() >= 8 && b[0] == 0x21,
        squashfs::has_magic(b) <==> b.len() >= 4 && ((b[0] == 0x68 && b[1] == 0x73 && b[2] == 0x71
            && b[3] == 0x73) || (b[0] == 0x73 && b[1] == 0x71 && b[2] == 0x73 && b[3] == 0x68)),
        has_elf_magic(b) <==> b.len() >= 4 && b[0] == 0x7f && b[1] == 0x45 && b[2] == 0x4c && b[3]
            == 0x46,
{
    if b.len() >= 4 {
        let h = b.take(4);
        assert(h[0] == b[0] && h[1] == b[1] && h[2] == b[2] && h[3] == b[3]);
        if rpm::has_magic(b) {
        } else if b[0] == 0xed && b[1] == 0xab && b[2] == 0xee && b[3] == 0xdb {
            assert(h =~= seq![0xedu8, 0xab, 0xee, 0xdb]);
        }
        if b[0] == 0x68 && b[1] == 0x73 && b[2] == 0x71 && b[3] == 0x73 {
            assert(h =~= seq![0x68u8, 0x73, 0x71, 0x73]);
        }
        if b[0] == 0x73 && b[1] == 0x71 && b[2] == 0x73 && b[3] == 0x68 {
            assert(h =~= seq![0x73u8, 0x71, 0x73, 0x68]);
        }
        if b[0] == 0x7f && b[1] == 0x45 && b[2] == 0x4c && b[3] == 0x46 {
            assert(h =~= seq![0x7fu8, 0x45, 0x4c, 0x46]);
        }
    }
    if b.len() >= 8 {
        assert(b.take(8)[0] == b[0]);
    }
}

/// The first bytes tell the formats that have a magic of their own, whatever the file is
/// called.
pub proof fn lemma_format_by_magic(b: Seq<u8>, name: Seq<char>)
    ensures
        b.len() >= 4 && b[0] == 0xed && b[1] == 0xab && b[2] == 0xee && b[3] == 0xdb ==> identified(
            b,
            name,
        ) == Some(Format::Rpm),
        b.len() >= 4 && b[0] == 0x68 && b[1] == 0x73 && b[2] == 0x71 && b[3] == 0x73 ==> identified(
            b,
            name,
        ) == Some(Format::Snap),
        b.len() >= 11 && b[0] == 0x7f && b[1] == 0x45 && b[2] == 0x4c && b[3] == 0x46 && b[8] == 0x41
            && b[9] == 0x49 ==> identified(b, name) == Some(Format::AppImage),
        ar::has_magic(b) && is_deb(b) ==> identified(b, name) == Some(Format::Deb),
        ar::has_magic(b) && !is_deb(b) ==> identified(b, name) is None,
{
    lemma_heads(b);
}

/// Where the bytes do not decide, the name does: an ELF image called an AppImage is one, and
/// a compressed stream called a tarball is one.
pub proof fn lemma_format_by_name(b: Seq<u8>, name: Seq<char>)
    requires
        !rpm::has_magic(b) && !ar::has_magic(b) && !squashfs::has_magic(b),
    ensures
        has_elf_magic(b) && closes(lower(name), ".appimage"@) ==> identified(b, name) == Some(
            Format::AppImage,
        ),
        !has_elf_magic(b) && has_ustar(b) ==> identified(b, name) == Some(Format::Tarball),
        !has_elf_magic(b) && !has_ustar(b) ==> (identified(b, name) == Some(Format::Tarball) <==> (
        sniffed(b) is Some && is_tarball(lower(name)))),
        !has_elf_magic(b) && !has_ustar(b) && sniffed(b) is None ==> identified(b, name) is None,
        has_elf_magic(b) && type_marker(b) is None && !closes(lower(name), ".appimage"@)
            && !has_ustar(b) ==> identified(b, name) is None,
{
    lemma_heads(b);
    lemma_magics(b);
}

/// What a tarball may be called.
pub proof fn lemma_tarball_names(stem: Seq<char>)
    ensures
        is_tarball(stem + ".tar"@),
        is_tarball(stem + ".tar.gz"@) && is_tarball(stem + ".tgz"@),
        is_tarball(stem + ".tar.xz"@) && is_tarball(stem + ".txz"@),
        is_tarball(stem + ".tar.bz2"@) && is_tarball(stem + ".tbz2"@) && is_tarball(stem + ".tbz"@),
        is_tarball(stem + ".tar.zst"@) && is_tarball(stem + ".tzst"@),
        is_tarball(stem + ".tar.lz4"@) && is_tarball(stem + ".tar.lzma"@),
{
    lemma_closes(stem, ".tar"@);
    lemma_closes(stem, ".tar.gz"@);
    lemma_closes(stem, ".tgz"@);
    lemma_closes(stem, ".tar.xz"@);
    lemma_closes(stem, ".txz"@);
    lemma_closes(stem, ".tar.bz2"@);
    lemma_closes(stem, ".tbz2"@);
    lemma_closes(stem, ".tbz"@);
    lemma_closes(stem, ".tar.zst"@);
    lemma_closes(stem, ".tzst"@);
    lemma_closes(stem, ".tar.lz4"@);
    lemma_closes(stem, ".tar.lzma"@);
}

proof fn lemma_closes(stem: Seq<char>, end: Seq<char>)
    ensures
        closes(stem + end, end),
{
    assert((stem + end).skip((stem + end).len() - end.len()) =~= end);
}

/// Only the formats that hold a whole image are expanded to a cache.
pub proof fn lemma_expandable(b: Seq<u8>, name: Seq<char>)
    ensures
        expands(identified(b, name)) <==> identified(b, name) == Some(Format::AppImage)
            || identified(b, name) == Some(Format::Snap),
        !expands(Some(Format::Deb)) && !expands(Some(Format::Rpm)) && !expands(
            Some(Format::Tarball),
        ) && !expands(None),
{
}

// ---------- AppImages -------------------------------------------------------

proof fn lemma_scan(b: Seq<u8>, at: int, to: int)
    requires
        0 <= at,
    ensures
        match scan(b, at, to) {
            Some(i) => at <= i < to && (i - at) % 4 == 0 && superblock_at(b, i) && forall|j: int|
                at <= j < i && (j - at) % 4 == 0 ==> !#[trigger] superblock_at(b, j),
            None => forall|j: int|
                at <= j < to && (j - at) % 4 == 0 ==> !#[trigger] superblock_at(b, j),
        },
    decreases to + 4 - at,
{
    if at < to && !superblock_at(b, at) {
        lemma_scan(b, at + 4, to);
    }
}

/// A superblock is told by its magic, in either byte order, and by the version that it states
/// where both are there to be read.
pub proof fn lemma_superblock_is_told(b: Seq<u8>, at: int)
    requires
        0 <= at,
        at + 30 <= b.len(),
    ensures
        superblock_at(b, at) <==> b[at + 28] == 4 && b[at + 29] == 0 && ((b[at] == 0x68 && b[at + 1]
            == 0x73 && b[at + 2] == 0x71 && b[at + 3] == 0x73) || (b[at] == 0x73 && b[at + 1] == 0x71
            && b[at + 2] == 0x73 && b[at + 3] == 0x68)),
{
    let s = b.skip(at);
    let here = seq![b[at], b[at + 1], b[at + 2], b[at + 3]];
    assert(s.take(4) =~= here);
    assert(here[0] == b[at] && here[1] == b[at + 1] && here[2] == b[at + 2] && here[3] == b[at + 3]);
    let little = seq![0x68u8, 0x73, 0x71, 0x73];
    let big = seq![0x73u8, 0x71, 0x73, 0x68];
    if b[at] == 0x68 && b[at + 1] == 0x73 && b[at + 2] == 0x71 && b[at + 3] == 0x73 {
        assert(here =~= little);
    }
    if b[at] == 0x73 && b[at + 1] == 0x71 && b[at + 2] == 0x73 && b[at + 3] == 0x68 {
        assert(here =~= big);
    }
    if begins(s, little) {
        assert(here =~= little);
        assert(little[0] == 0x68 && little[1] == 0x73 && little[2] == 0x71 && little[3] == 0x73);
    }
    if begins(s, big) {
        assert(here =~= big);
        assert(big[0] == 0x73 && big[1] == 0x71 && big[2] == 0x73 && big[3] == 0x68);
    }
}

/// The image of an AppImage starts at a superblock of the current version, at a multiple of
/// four, the first one behind the runtime; one that starts right there is the one.
pub proof fn lemma_image_behind_runtime(b: Seq<u8>, end: int)
    requires
        elf_extent(b) == Some(end),
        0 <= end,
        end % 4 == 0,
        superblock_at(b, end),
    ensures
        image_start(b) == Some(end),
        type_marker(b) != Some(1u8) ==> appimage_payload(b) == Ok::<Seq<u8>, Fault>(b.skip(end)),
{
    assert(end < b.len());
}

proof fn lemma_image_start(b: Seq<u8>)
    requires
        elf_extent(b) matches Some(end) ==> end >= 0,
    ensures
        match image_start(b) {
            Some(at) => 0 <= at < b.len() && at % 4 == 0 && superblock_at(b, at),
            None => forall|at: int|
                4 <= at < b.len() && at % 4 == 0 ==> !#[trigger] superblock_at(b, at),
        },
{
    lemma_scan(b, 4, b.len() as int);
    if let Some(end) = elf_extent(b) {
        lemma_scan(
            b,
            end - end % 4,
            if end + 0x1_0000 <= b.len() {
                end + 0x1_0000
            } else {
                b.len() as int
            },
        );
    }
}

proof fn lemma_extent_is_a_place(b: Seq<u8>)
    ensures
        elf_extent(b) matches Some(end) ==> end >= 0,
{
    lemma_product(le16(b, 0x3a), le16(b, 0x3c));
    lemma_product(le16(b, 0x36), le16(b, 0x38));
    lemma_product(le16(b, 0x2e), le16(b, 0x30));
    lemma_product(le16(b, 0x2a), le16(b, 0x2c));
}

proof fn lemma_product(x: u16, y: u16)
    ensures
        x * y >= 0,
{
    assert(x * y >= 0) by (nonlinear_arith)
        requires
            x >= 0,
            y >= 0,
    ;
}

/// Wherever the image is found, a superblock stands there, and what is unpacked is what
/// starts there; where none is found, none stands anywhere.
pub proof fn lemma_image_is_an_image(b: Seq<u8>)
    ensures
        match appimage_payload(b) {
            Ok(image) => exists|at: int|
                0 <= at < b.len() && at % 4 == 0 && #[trigger] superblock_at(b, at) && image
                    == b.skip(at),
            Err(f) => type_marker(b) == Some(1u8) || forall|at: int|
                4 <= at < b.len() && at % 4 == 0 ==> !#[trigger] superblock_at(b, at),
        },
{
    lemma_extent_is_a_place(b);
    lemma_image_start(b);
    if let Some(at) = image_start(b) {
        assert(superblock_at(b, at));
    }
}

/// A runtime ends where the later of its two tables ends: the sections or the segments.
pub proof fn lemma_runtime_end(b: Seq<u8>)
    requires
        b.len() >= 64,
        has_elf_magic(b),
        b[5] == 1,
    ensures
        b[4] == 2 ==> ({
            let s = le64(b, 40) + le16(b, 58) * le16(b, 60);
            let p = le64(b, 32) + le16(b, 54) * le16(b, 56);
            let end = if s >= p {
                s
            } else {
                p
            };
            end <= usize::MAX ==> elf_extent(b) == Some(end)
        }),
        b[4] == 1 ==> ({
            let s = le32(b, 32) + le16(b, 46) * le16(b, 48);
            let p = le32(b, 28) + le16(b, 42) * le16(b, 44);
            let end = if s >= p {
                s
            } else {
                p
            };
            end <= usize::MAX ==> elf_extent(b) == Some(end)
        }),
        b[4] != 1 && b[4] != 2 ==> elf_extent(b) is None,
{
}

// ---------- squashfs --------------------------------------------------------

/// The compression that a superblock names is undone by its own reader.
pub proof fn lemma_image_codec(b: Seq<u8>, raw: Seq<u8>, size: nat)
    requires
        b.len() >= 96,
        begins(b, seq![0x68u8, 0x73, 0x71, 0x73]),
        le16(b, 28) == 4,
        0 < le32(b, 12) <= 0x10_0000,
    ensures
        ({
            let id = le16(b, 20);
            let codec = checked_superblock(b);
            &&& id == 1 || id == 2 || id == 4 || id == 5 || id == 6 <==> codec is Ok
            &&& id == 3 ==> codec == Err::<Codec, Fault>(Fault::UnsupportedCompression("lzo"@))
            &&& id == 1 ==> (inflate(raw) matches Ok(d) ==> decompressed(
                codec->Ok_0,
                raw,
                Some(size),
            ) == Ok::<Seq<u8>, Fault>(d))
            &&& id == 2 ==> (unlzma(raw) matches Ok(d) ==> decompressed(
                codec->Ok_0,
                raw,
                Some(size),
            ) == Ok::<Seq<u8>, Fault>(d))
            &&& id == 4 ==> (unxzed(raw) matches Ok(d) ==> decompressed(
                codec->Ok_0,
                raw,
                Some(size),
            ) == Ok::<Seq<u8>, Fault>(d))
            &&& id == 5 ==> (unlz4_block(raw, size) matches Ok(d) ==> decompressed(
                codec->Ok_0,
                raw,
                Some(size),
            ) == Ok::<Seq<u8>, Fault>(d))
            &&& id == 6 ==> (unzstd(raw) matches Ok(Ok(d)) ==> decompressed(
                codec->Ok_0,
                raw,
                Some(size),
            ) == Ok::<Seq<u8>, Fault>(d))
        }),
{
    assert(b.take(4)[0] == 0x68);
}

/// An image of another version, byte order or an implausible block size is refused.
pub proof fn lemma_refused_images(b: Seq<u8>)
    ensures
        begins(b, seq![0x73u8, 0x71, 0x73, 0x68]) ==> checked_superblock(b) matches Err(
            Fault::Unsupported(_),
        ),
        begins(b, seq![0x68u8, 0x73, 0x71, 0x73]) && b.len() >= 96 && le16(b, 28) != 4
            ==> checked_superblock(b) matches Err(Fault::Unsupported(_)),
        begins(b, seq![0x68u8, 0x73, 0x71, 0x73]) && b.len() < 96 ==> checked_superblock(
            b,
        ) matches Err(Fault::Malformed(_, _)),
        checked_superblock(b) is Ok ==> b.len() >= 96 && 0 < le32(b, 12) <= 0x10_0000 && le16(b, 28)
            == 4,
{
    if b.len() >= 4 {
        assert(b.take(4)[0] == b[0]);
    }
}

/// Where each kind of inode keeps what a file is read by.
pub proof fn lemma_file_inodes(inode: Seq<u8>)
    ensures
        file_inode(inode, 2) == (FileInode {
            start: le32(inode, 16) as u64,
            size: le32(inode, 28) as u64,
            fragment: le32(inode, 20),
            offset: le32(inode, 24),
            list_at: 32,
        }),
        file_inode(inode, 9) == (FileInode {
            start: le64(inode, 16),
            size: le64(inode, 24),
            fragment: le32(inode, 44),
            offset: le32(inode, 48),
            list_at: 56,
        }),
        min_inode(1) == Some(32nat) && min_inode(2) == Some(32nat) && min_inode(3) == Some(24nat),
        min_inode(8) == Some(40nat) && min_inode(9) == Some(56nat) && min_inode(10) == Some(24nat),
        forall|k: u16|
            k == 0 || (3 < k < 8) || k > 10 ==> (#[trigger] min_inode(k)) is None,
{
}

/// Where each kind of directory keeps its listing; the stored size counts three bytes that
/// are not there.
pub proof fn lemma_directory_inodes(fs: Image, inode: Seq<u8>)
    ensures
        le16(inode, 24) >= 3 ==> dir_listing(fs, inode, 1) == fs.directories.slice(
            ((le32(inode, 16) as u64) << 16) | le16(inode, 26) as u64,
            le16(inode, 24) - 3,
        ),
        le32(inode, 20) >= 3 ==> dir_listing(fs, inode, 8) == fs.directories.slice(
            ((le32(inode, 24) as u64) << 16) | le16(inode, 34) as u64,
            le32(inode, 20) - 3,
        ),
{
}

/// A file's blocks cover it: the last one may be short, unless a fragment holds the rest.
pub proof fn lemma_blocks_cover(f: FileInode, block_size: u32)
    requires
        block_size > 0,
    ensures
        ({
            let n = listed_blocks(f, block_size);
            let whole = n * block_size;
            &&& f.fragment == 0xffff_ffff ==> whole >= f.size && whole < f.size + block_size
            &&& f.fragment != 0xffff_ffff ==> whole <= f.size && f.size < whole + block_size
        }),
{
    let n = listed_blocks(f, block_size);
    let d = block_size as int;
    if f.fragment == 0xffff_ffff {
        let a = f.size + d - 1;
        vstd::arithmetic::div_mod::lemma_fundamental_div_mod(a, d);
        assert(n * d == d * n) by (nonlinear_arith);
        assert(0 <= a % d < d);
    } else {
        vstd::arithmetic::div_mod::lemma_fundamental_div_mod(f.size as int, d);
        assert(n * d == d * n) by (nonlinear_arith);
        assert(0 <= f.size as int % d < d);
    }
}

/// A metadata block states its size in fifteen bits; the sixteenth says that it is stored as
/// it stands.
pub proof fn lemma_metadata_block(b: Seq<u8>, at: u64, codec: Codec, size: u16, body: Seq<u8>)
    requires
        b.len() <= usize::MAX,
        at + 2 + size <= b.len(),
        size < 0x8000,
        le16(b, at as int) == 0x8000 + size,
        b.subrange(at + 2, at + 2 + size) == body,
    ensures
        metadata_block(b, at, codec) == Ok::<(Seq<u8>, u64), Fault>(
            (body, (at + 2 + size) as u64),
        ),
{
    let h = le16(b, at as int);
    assert(h & 0x7fff == size && h & 0x8000 != 0) by (bit_vector)
        requires
            h == 0x8000 + size,
            size < 0x8000,
    ;
}

// ---------- the cache and the sink ------------------------------------------

proof fn lemma_kept_chars(s: Seq<char>, room: nat)
    ensures
        kept_chars(s, room).len() <= room,
        kept_chars(s, room).len() <= s.len(),
        forall|i: int| 0 <= i < kept_chars(s, room).len() ==> is_kept(#[trigger] kept_chars(s, room)[i]),
        s.len() <= room && (forall|i: int| 0 <= i < s.len() ==> is_kept(#[trigger] s[i]))
            ==> kept_chars(s, room) == s,
    decreases s.len(),
{
    let k = kept_chars(s, room);
    if s.len() > 0 && room > 0 {
        let rest = s.skip(1);
        if is_kept(s[0]) {
            lemma_kept_chars(rest, (room - 1) as nat);
            let r = kept_chars(rest, (room - 1) as nat);
            assert(k == seq![s[0]] + r);
            assert forall|i: int| 0 <= i < k.len() implies is_kept(#[trigger] k[i]) by {
                if i > 0 {
                    assert(k[i] == r[i - 1]);
                }
            }
            if s.len() <= room && forall|i: int| 0 <= i < s.len() ==> is_kept(#[trigger] s[i]) {
                assert forall|i: int| 0 <= i < rest.len() implies is_kept(#[trigger] rest[i]) by {
                    assert(rest[i] == s[i + 1]);
                }
                assert(k =~= s);
            }
        } else {
            lemma_kept_chars(rest, room);
        }
    } else if s.len() == 0 {
        assert(k =~= s);
    }
}

/// A key's readable part is short and holds letters, digits and a few signs only, so that no
/// file's name leads a key out of the cache.
pub proof fn lemma_key_stem(file: Seq<char>)
    ensures
        key_stem(file).len() <= 48,
        forall|i: int|
            0 <= i < key_stem(file).len() ==> ({
                let c = #[trigger] key_stem(file)[i];
                'a' <= c <= 'z' || 'A' <= c <= 'Z' || '0' <= c <= '9' || c == '-' || c == '_' || c
                    == '.'
            }),
        forall|size: u64, mtime: u64| opens(#[trigger] keyed(file, size, mtime), key_stem(file)),
{
    let stem = match crate::path::file_name(file) {
        Some(n) => crate::path::name_stem(n),
        None => "package"@,
    };
    lemma_kept_chars(stem, 48);
    assert forall|i: int| 0 <= i < key_stem(file).len() implies ({
        let c = #[trigger] key_stem(file)[i];
        'a' <= c <= 'z' || 'A' <= c <= 'Z' || '0' <= c <= '9' || c == '-' || c == '_' || c == '.'
    }) by {
        assert(is_kept(key_stem(file)[i]));
    }
    assert forall|size: u64, mtime: u64| opens(
        #[trigger] keyed(file, size, mtime),
        key_stem(file),
    ) by {
        assert(keyed(file, size, mtime).take(key_stem(file).len() as int) =~= key_stem(file));
    }
}

/// A name of the kept characters, not too long, stands in the key as it is.
pub proof fn lemma_key_is_readable(stem: Seq<char>)
    requires
        stem.len() <= 48,
        forall|i: int|
            0 <= i < stem.len() ==> ({
                let c = #[trigger] stem[i];
                'a' <= c <= 'z' || 'A' <= c <= 'Z' || '0' <= c <= '9' || c == '-' || c == '_'
            }),
    ensures
        kept_chars(stem, 48) == stem,
{
    assert forall|i: int| 0 <= i < stem.len() implies is_kept(#[trigger] stem[i]) by {}
    lemma_kept_chars(stem, 48);
}

/// Two processes never unpack to one partial directory, and both differ from the
/// destination.
pub proof fn lemma_partials_differ(root: Seq<char>, key: Seq<char>, one: u32, other: u32)
    ensures
        partial_of(root, key, one) == partial_of(root, key, other) <==> one == other,
        partial_of(root, key, one) != pushed(root, key),
{
    let a = crate::num::decimal(one as nat);
    let b = crate::num::decimal(other as nat);
    let head = pushed(root, key + ".partial-"@);
    assert(partial_of(root, key, one) =~= head + a);
    assert(partial_of(root, key, other) =~= head + b);
    if head + a == head + b {
        assert(a =~= (head + a).skip(head.len() as int));
        assert(b =~= (head + b).skip(head.len() as int));
        crate::num::lemma_numeral_reads_back(one as nat, 10);
        crate::num::lemma_numeral_reads_back(other as nat, 10);
    }
    reveal_strlit(".partial-");
    assert(head.len() == pushed(root, key).len() + 9);
}

/// Permission bits survive but for the right of others to write, and nothing beyond them
/// does.
pub proof fn lemma_modes(mode: u32)
    ensures
        safe_mode(mode) & 0x1ed == mode & 0x1ed,
        safe_mode(mode) & 0xffff_fe12 == 0,
{
    assert((mode & 0x1ed) & 0x1ed == mode & 0x1ed) by (bit_vector);
    assert((mode & 0x1ed) & 0xffff_fe12 == 0) by (bit_vector);
}

/// A fault's message carries what went wrong.
pub proof fn lemma_messages(what: Seq<char>, why: Seq<char>)
    ensures
        fault_message(Fault::Unsupported(why)) == Some(why),
        closes(fault_message(Fault::Malformed(what, why))->0, what + ": "@ + why),
        opens(fault_message(Fault::Decompress(what, why))->0, what),
        closes(fault_message(Fault::Decompress(what, why))->0, ": "@ + why),
        opens(fault_message(Fault::UnsupportedCompression(what))->0, what),
        closes(fault_message(Fault::Io(why))->0, why),
{
    reveal_strlit(": ");
    reveal_strlit(" decompression failed: ");
    lemma_closes("malformed "@, what + ": "@ + why);
    assert(fault_message(Fault::Malformed(what, why))->0 =~= "malformed "@ + (what + ": "@ + why));
    let d = fault_message(Fault::Decompress(what, why))->0;
    assert(d.take(what.len() as int) =~= what);
    let f = " decompression failed: "@;
    assert(f.skip(f.len() - 2) =~= ": "@);
    assert(d.skip(d.len() - why.len() - 2) =~= ": "@ + why);
    assert((what + "-compressed payloads are not supported"@).take(what.len() as int) =~= what);
    lemma_closes("writing the unpacked payload failed: "@, why);
}

// ---------- files with several names ----------------------------------------

/// Names wait for one another by device and inode, all of it.
pub proof fn lemma_same_file(f: Fields, g: Fields)
    ensures
        link_key(f) == link_key(g) <==> f.ino == g.ino && f.devmajor == g.devmajor && f.devminor
            == g.devminor,
{
}

/// Once a file's bytes come, each name that waited for it becomes a link to where they went,
/// and no other does.
pub proof fn lemma_waiting_names_become_links(
    w: Seq<((u32, u32, u32), Seq<char>)>,
    key: (u32, u32, u32),
    target: Seq<char>,
    p: Progress,
    e: EntryView,
    x: ((u32, u32, u32), Seq<char>),
)
    ensures
        cpio::linked(w, key, target, p).entries.contains(e) <==> p.entries.contains(e) || exists|i: int|
            0 <= i < w.len() && (#[trigger] w[i]).0 == key && e == (EntryView::Symlink {
                path: w[i].1,
                target,
            }),
        cpio::unlinked(w, key).contains(x) <==> w.contains(x) && x.0 != key,
    decreases w.len(),
{
    if w.len() > 0 {
        let rest = w.drop_last();
        let before = cpio::linked(rest, key, target, p).entries;
        let all = cpio::linked(w, key, target, p).entries;
        let kept = cpio::unlinked(rest, key);
        let left = cpio::unlinked(w, key);
        lemma_waiting_names_become_links(rest, key, target, p, e, x);
        lemma_pushed_members(before, EntryView::Symlink { path: w.last().1, target }, e);
        lemma_pushed_members(kept, w.last(), x);
        lemma_pushed_members(rest, w.last(), x);
        assert(w =~= rest.push(w.last()));
        assert(w[w.len() - 1] == w.last());
        if exists|i: int|
            0 <= i < w.len() && (#[trigger] w[i]).0 == key && e == (EntryView::Symlink {
                path: w[i].1,
                target,
            }) {
            let i = choose|i: int|
                0 <= i < w.len() && (#[trigger] w[i]).0 == key && e == (EntryView::Symlink {
                    path: w[i].1,
                    target,
                });
            if i < rest.len() {
                assert(rest[i] == w[i]);
            }
        }
        if exists|i: int|
            0 <= i < rest.len() && (#[trigger] rest[i]).0 == key && e == (EntryView::Symlink {
                path: rest[i].1,
                target,
            }) {
            let i = choose|i: int|
                0 <= i < rest.len() && (#[trigger] rest[i]).0 == key && e == (EntryView::Symlink {
                    path: rest[i].1,
                    target,
                });
            assert(w[i] == rest[i]);
        }
    }
}

proof fn lemma_pushed_members<T>(a: Seq<T>, last: T, x: T)
    ensures
        a.push(last).contains(x) <==> a.contains(x) || x == last,
{
    let all = a.push(last);
    if all.contains(x) {
        let i = choose|i: int| 0 <= i < all.len() && all[i] == x;
        if i < a.len() {
            assert(a[i] == x);
        }
    }
    if a.contains(x) {
        let i = choose|i: int| 0 <= i < a.len() && a[i] == x;
        assert(all[i] == x);
    }
    assert(all[a.len() as int] == last);
}

/// A name whose file never came is an empty file with the usual permissions.
pub proof fn lemma_orphans_are_empty(
    w: Seq<((u32, u32, u32), Seq<char>)>,
    p: Progress,
    e: EntryView,
)
    ensures
        cpio::orphans(w, p).entries.contains(e) <==> p.entries.contains(e) || exists|i: int|
            0 <= i < w.len() && e == (EntryView::File {
                path: (#[trigger] w[i]).1,
                data: Seq::empty(),
                mode: 0o644,
            }),
    decreases w.len(),
{
    if w.len() > 0 {
        let rest = w.drop_last();
        let before = cpio::orphans(rest, p);
        lemma_orphans_are_empty(rest, p, e);
        lemma_pushed_members(
            before.entries,
            EntryView::File { path: w.last().1, data: Seq::empty(), mode: 0o644 },
            e,
        );
        assert(w[w.len() - 1] == w.last());
        if exists|i: int|
            0 <= i < w.len() && e == (EntryView::File {
                path: (#[trigger] w[i]).1,
                data: Seq::empty(),
                mode: 0o644,
            }) {
            let i = choose|i: int|
                0 <= i < w.len() && e == (EntryView::File {
                    path: (#[trigger] w[i]).1,
                    data: Seq::empty(),
                    mode: 0o644,
                });
            if i < rest.len() {
                assert(rest[i] == w[i]);
            }
        }
        if exists|i: int|
            0 <= i < rest.len() && e == (EntryView::File {
                path: (#[trigger] rest[i]).1,
                data: Seq::empty(),
                mode: 0o644,
            }) {
            let i = choose|i: int|
                0 <= i < rest.len() && e == (EntryView::File {
                    path: (#[trigger] rest[i]).1,
                    data: Seq::empty(),
                    mode: 0o644,
                });
            assert(w[i] == rest[i]);
        }
    }
}

/// An empty entry of a file with several names waits; with bytes it is the file, and those
/// that waited for it point to it.
pub proof fn lemma_names_of_one_file(
    f: Fields,
    name: Seq<char>,
    data: Seq<u8>,
    base: Seq<char>,
    limit: u64,
    w: Seq<((u32, u32, u32), Seq<char>)>,
    p: Progress,
    path: Seq<char>,
)
    requires
        f.mode & 0xf000 == 0x8000,
        safe_join(base, name) == Some(path),
    ensures
        f.nlink > 1 && f.filesize == 0 ==> ({
            let step = cpio::entry(f, name, data, base, limit, w, p);
            step.waiting == w.push((link_key(f), path)) && step.run == p.done()
        }),
        f.filesize > 0 && p.bytes + data.len() <= limit ==> ({
            let step = cpio::entry(f, name, data, base, limit, w, p);
            let placed = p.counting(data.len()).with_entry(
                EntryView::File { path, data, mode: f.mode & 0xfff },
            );
            step.waiting == cpio::unlinked(w, link_key(f)) && step.run == cpio::linked(
                w,
                link_key(f),
                path,
                placed,
            ).done()
        }),
{
}

/// What would leave the base is passed over with a warning, in every format alike.
pub proof fn lemma_unsafe_names(
    f: Fields,
    header: Seq<u8>,
    name: Seq<char>,
    data: Seq<u8>,
    base: Seq<char>,
    limit: u64,
    w: Seq<((u32, u32, u32), Seq<char>)>,
    link: Option<Seq<char>>,
    p: Progress,
)
    requires
        safe_join(base, name) is None,
    ensures
        ({
            let step = cpio::entry(f, name, data, base, limit, w, p);
            &&& step.waiting == w
            &&& step.run.result is Ok
            &&& step.run.at.entries == p.entries
            &&& step.run.at.warnings.len() == p.warnings.len() + 1
        }),
        ({
            let run = tar::place(header, data, base, limit, name, link, p);
            &&& run.result is Ok
            &&& run.at.entries == p.entries
            &&& run.at.warnings.len() == p.warnings.len() + 1
        }),
{
}

/// A codec's name is the one that a package would state for it.
pub proof fn lemma_codec_labels()
    ensures
        declared_codec(Codec::Stored.label()) == Ok::<Codec, Fault>(Codec::Stored),
        declared_codec(Codec::Gzip.label()) == Ok::<Codec, Fault>(Codec::Gzip),
        declared_codec(Codec::Xz.label()) == Ok::<Codec, Fault>(Codec::Xz),
        declared_codec(Codec::Lzma.label()) == Ok::<Codec, Fault>(Codec::Lzma),
        declared_codec(Codec::Zstd.label()) == Ok::<Codec, Fault>(Codec::Zstd),
        declared_codec(Codec::Bzip2.label()) == Ok::<Codec, Fault>(Codec::Bzip2),
        declared_codec(Codec::Lzo.label()) == Err::<Codec, Fault>(
            Fault::UnsupportedCompression("lzo"@),
        ),
        Codec::Lz4Frame.label() == "lz4"@ && Codec::Lz4Block.label() == "lz4"@ && Codec::Zlib.label()
            == "zlib"@,
{
    lemma_names_differ();
}

/// What each step of writing to a directory takes: nothing outside the root; a directory
/// itself; for a file and a link the directory above it.
pub proof fn lemma_writes(root: Seq<char>, path: Seq<char>, mode: u32)
    ensures
        !lies_in(root, path) ==> dir_write(root, path) is Skip && file_write(root, path, mode) is Skip
            && link_write(root, path) is Skip,
        lies_in(root, path) ==> dir_write(root, path) == WriteView::Dir(path),
        lies_in(root, path) ==> (file_write(root, path, mode) matches WriteView::File { parent: up, mode: m }
            && up == parent(path) && m & 0x12 == 0 && m & 0x1c0 == mode & 0x1c0),
        lies_in(root, path) ==> link_write(root, path) == (WriteView::Link { parent: parent(path) }),
{
    crate::pkg::dir_sink::lemma_safe_mode(mode);
}

/// Packages are cached in a directory of their own.
pub proof fn lemma_cache_root(dir: Seq<char>)
    requires
        dir.len() > 0,
        dir.last() != '/',
    ensures
        packages_in(dir) == dir + "/achilles/packages"@,
{
    reveal_strlit("achilles/packages");
    reveal_strlit("/achilles/packages");
    assert(packages_in(dir) =~= dir + "/achilles/packages"@);
}

/// A payload expands to four gibibytes at most, unless it is told otherwise; a limit of whole
/// gibibytes is named in its message.
pub proof fn lemma_payload_limit(n: u64)
    requires
        0 < n < 0x4_0000_0000,
    ensures
        crate::pkg::MAX_PAYLOAD_BYTES == 4 * 1024 * 1024 * 1024,
        fault_message(Fault::TooLarge((n * 0x4000_0000) as u64)) == Some(
            "the payload expands past the "@ + decimal(n as nat) + " GiB limit for this scan"@,
        ),
{
}

/// A file over the limit is refused, and nothing of it is handed on; up to the limit it is
/// handed on whole.
pub proof fn lemma_files_up_to_the_limit(
    p: Progress,
    path: Seq<char>,
    data: Seq<u8>,
    mode: u32,
    limit: u64,
)
    requires
        p.bytes + data.len() <= u64::MAX,
    ensures
        ({
            let run = p.emit_file(path, data, mode, limit);
            &&& p.bytes + data.len() > limit ==> run.result == Err::<(), Fault>(Fault::TooLarge(limit))
                && run.at.entries == p.entries
            &&& p.bytes + data.len() <= limit ==> run.result is Ok && run.at.entries
                == p.entries.push(EntryView::File { path, data, mode }) && run.at.bytes == p.bytes
                + data.len()
        }),
{
}

/// How each codec's failure is told.
pub proof fn lemma_codec_failures(input: Seq<u8>, e: Seq<char>, size: nat)
    ensures
        gunzip(input) == Err::<Seq<u8>, Seq<char>>(e) ==> decompressed(Codec::Gzip, input, None)
            is Err,
        unlzma(input) == Err::<Seq<u8>, Seq<char>>(e) ==> decompressed(Codec::Lzma, input, None)
            == Err::<Seq<u8>, Fault>(Fault::Decompress("lzma"@, e)),
        unxzed(input) == Err::<Seq<u8>, Seq<char>>(e) ==> decompressed(Codec::Xz, input, None)
            == Err::<Seq<u8>, Fault>(Fault::Decompress("xz"@, e)),
        bunzip2(input) == Err::<Seq<u8>, Seq<char>>(e) ==> decompressed(Codec::Bzip2, input, None)
            is Err,
        unlz4_block(input, size) == Err::<Seq<u8>, Seq<char>>(e) ==> decompressed(
            Codec::Lz4Block,
            input,
            Some(size),
        ) == Err::<Seq<u8>, Fault>(Fault::Decompress("lz4"@, e)),
        decompressed(Codec::Lz4Block, input, None) is Err,
        decompressed(Codec::Lzo, input, None) == Err::<Seq<u8>, Fault>(
            Fault::UnsupportedCompression("lzo"@),
        ),
        decompressed(Codec::Stored, input, None) == Ok::<Seq<u8>, Fault>(input),
{
}

/// A stream has to start with the whole of its magic.
pub proof fn lemma_whole_magic(data: Seq<u8>)
    ensures
        sniffed(data) == Some(Codec::Gzip) ==> begins(data, seq![0x1fu8, 0x8b]),
        sniffed(data) == Some(Codec::Xz) ==> begins(data, seq![0xfdu8, 0x37, 0x7a, 0x58, 0x5a, 0]),
        sniffed(data) == Some(Codec::Zstd) ==> begins(data, seq![0x28u8, 0xb5, 0x2f, 0xfd]),
        sniffed(data) == Some(Codec::Bzip2) ==> begins(data, seq![0x42u8, 0x5a, 0x68]),
        sniffed(data) == Some(Codec::Lz4Frame) ==> begins(data, seq![0x04u8, 0x22, 0x4d, 0x18]),
        sniffed(data) == Some(Codec::Lzma) ==> begins(data, seq![0x5du8, 0, 0]),
        sniffed(data) != Some(Codec::Stored) && sniffed(data) != Some(Codec::Zlib) && sniffed(data)
            != Some(Codec::Lz4Block) && sniffed(data) != Some(Codec::Lzo),
{
}

/// The hash of a path is the 64-bit FNV-1a of its bytes: from the offset basis on, each byte
/// is mixed in and the whole multiplied.
pub proof fn lemma_path_hash(b: Seq<u8>, x: u8)
    ensures
        fnv_of(Seq::empty(), 0) == 14695981039346656037u64,
        fnv_of(b.push(x), b.len() + 1) == (((fnv_of(b, b.len()) ^ (x as u64)) as nat * 1099511628211)
            % 18446744073709551616) as u64,
{
    lemma_hash_prefix(b, x, b.len());
}

proof fn lemma_hash_prefix(b: Seq<u8>, x: u8, n: nat)
    requires
        n <= b.len(),
    ensures
        fnv_of(b.push(x), n) == fnv_of(b, n),
    decreases n,
{
    if n > 0 {
        lemma_hash_prefix(b, x, (n - 1) as nat);
    }
}

} // verus!
