//! The version resource of a PE image: nested blocks, each a length, a value length, a type
//! and a key, then the value and the blocks inside it, every part on a 4-byte boundary.
//!
//! pelite finds the resource and reads its strings. It takes for granted that the image
//! keeps its own alignment and that a block has room for the padding behind its key, so
//! both are looked at first.

use pelite::resources::version_info::{Language, VersionInfo};
use vstd::prelude::*;

use crate::bytes::{le16, le16_of, le32, le32_of};
use crate::text::{chars_of, opt_text};

verus! {

/// Where the section headers of an image start.
pub open spec fn sections_at(image: Seq<u8>) -> int {
    let nt = le32(image, 60);
    nt + 24 + le16(image, nt + 20)
}

/// Where the resource directory of an image is said to lie.
pub open spec fn resources_at(image: Seq<u8>) -> u32 {
    let optional = le32(image, 60) + 24;
    le32(
        image,
        optional + if le16(image, optional) == 0x20b {
            128int
        } else {
            112int
        },
    )
}

/// Whether the section header at `at` takes the place `rva` of the loaded image for its own.
/// The end of a section that does not fit wraps around.
pub open spec fn covers(image: Seq<u8>, at: int, rva: u32) -> bool {
    let start = le32(image, at + 12);
    let size = if le32(image, at + 8) >= le32(image, at + 16) {
        le32(image, at + 8)
    } else {
        le32(image, at + 16)
    };
    let end = start + size;
    start <= rva && rva < if end > u32::MAX {
        end - 0x1_0000_0000
    } else {
        end
    }
}

/// The first section header from the `i`-th on that covers a place.
pub open spec fn covering(image: Seq<u8>, i: int, rva: u32) -> Option<int>
    decreases le16(image, le32(image, 60) + 6) - i,
{
    if i < 0 || i >= le16(image, le32(image, 60) + 6) {
        None
    } else if covers(image, sections_at(image) + 40 * i, rva) {
        Some(sections_at(image) + 40 * i)
    } else {
        covering(image, i + 1, rva)
    }
}

/// Whether an image keeps its section headers, and the resources in the file, on 4-byte
/// boundaries.
pub open spec fn is_aligned(image: Seq<u8>) -> bool {
    let rva = resources_at(image);
    &&& le16(image, le32(image, 60) + 20) % 4 == 0
    &&& match covering(image, 0, rva) {
        Some(at) => (le32(image, at + 20) + rva - le32(image, at + 12)) % 4 == 0,
        None => true,
    }
}

fn field16(image: &[u8], at: u64) -> (r: u16)
    ensures
        r == le16(image@, at as int),
{
    if at <= usize::MAX as u64 {
        le16_of(image, at as usize)
    } else {
        assert(image.len() <= usize::MAX);
        0
    }
}

fn field32(image: &[u8], at: u64) -> (r: u32)
    ensures
        r == le32(image@, at as int),
{
    if at <= usize::MAX as u64 {
        le32_of(image, at as usize)
    } else {
        assert(image.len() <= usize::MAX);
        0
    }
}

fn covers_of(image: &[u8], at: u64, rva: u32) -> (r: bool)
    requires
        at <= 0x2_0000_0000,
    ensures
        r == covers(image@, at as int, rva),
{
    let start: u32 = field32(image, at + 12);
    let loaded: u32 = field32(image, at + 8);
    let stored: u32 = field32(image, at + 16);
    let size: u32 = if loaded >= stored {
        loaded
    } else {
        stored
    };
    let end: u64 = start as u64 + size as u64;
    let end: u64 = if end > u32::MAX as u64 {
        end - 0x1_0000_0000
    } else {
        end
    };
    start <= rva && (rva as u64) < end
}

/// Whether an image is aligned.
pub fn is_aligned_of(image: &[u8]) -> (r: bool)
    ensures
        r == is_aligned(image@),
{
    let nt: u64 = le32_of(image, 60) as u64;
    let size: u16 = field16(image, nt + 20);
    let rva: u32 = if field16(image, nt + 24) == 0x20b {
        field32(image, nt + 24 + 128)
    } else {
        field32(image, nt + 24 + 112)
    };
    if size % 4 != 0 {
        return false;
    }
    let count: u16 = field16(image, nt + 6);
    let start: u64 = nt + 24 + size as u64;
    let mut i: u16 = 0;
    while i < count
        invariant
            i <= count,
            nt == le32(image@, 60),
            count == le16(image@, nt + 6),
            start == sections_at(image@),
            start <= 0x1_0001_0040,
            rva == resources_at(image@),
            le16(image@, nt + 20) % 4 == 0,
            covering(image@, 0, rva) == covering(image@, i as int, rva),
        decreases count - i,
    {
        let at: u64 = start + 40 * (i as u64);
        if covers_of(image, at, rva) {
            let from: u64 = field32(image, at + 20) as u64;
            let into: u64 = (rva - field32(image, at + 12)) as u64;
            return (from + into) % 4 == 0;
        }
        i = i + 1;
    }
    true
}

/// How a block counts its value.
#[derive(Debug, Clone, Copy, PartialEq, Eq, Structural)]
pub enum ValueLength {
    /// It has none.
    Nothing,
    Bytes,
    Words,
}

/// What stands at the start of a list of blocks.
pub enum Block {
    /// Nothing that can be read.
    Unreadable,
    /// A block whose key leaves no room for the padding behind it.
    Cramped,
    /// A block with a key of so many words, the blocks inside it and those after it.
    Fits { key: nat, children: Seq<u8>, rest: Seq<u8> },
}

/// The first zero word at or after the `i`-th, before the `to`-th.
pub open spec fn zero_word(b: Seq<u8>, i: int, to: int) -> Option<int>
    decreases to - i,
{
    if i >= to {
        None
    } else if le16(b, 2 * i) == 0 {
        Some(i)
    } else {
        zero_word(b, i + 1, to)
    }
}

/// `n` rounded up to an even number.
pub open spec fn evened(n: int) -> int {
    n + n % 2
}

/// The lesser of two numbers.
pub open spec fn lesser(a: int, b: int) -> int {
    if a <= b {
        a
    } else {
        b
    }
}

/// The length of a block in words: its own account of it, but at least that of its head.
pub open spec fn block_length(b: Seq<u8>) -> int {
    if le16(b, 0) / 2 < 4 {
        4
    } else {
        le16(b, 0) as int / 2
    }
}

/// The length of a block's value in words.
pub open spec fn value_length(b: Seq<u8>, kind: ValueLength) -> int {
    match kind {
        ValueLength::Nothing => 0,
        ValueLength::Bytes => le16(b, 2) as int / 2,
        ValueLength::Words => le16(b, 2) as int,
    }
}

/// The block that `b` starts with.
pub open spec fn first_block(b: Seq<u8>, kind: ValueLength) -> Block {
    let n = b.len() as int / 2;
    let length = block_length(b);
    if n < 4 || (kind == ValueLength::Nothing && le16(b, 2) != 0) || length > n {
        Block::Unreadable
    } else {
        match zero_word(b, 3, length) {
            None => Block::Unreadable,
            Some(end) => {
                let body = evened(end - 3) + 4;
                let value = value_length(b, kind);
                if body > length {
                    Block::Cramped
                } else if value > length - body {
                    Block::Unreadable
                } else {
                    Block::Fits {
                        key: (end - 3) as nat,
                        children: b.subrange(
                            2 * (body + lesser(evened(value), length - body)),
                            2 * length,
                        ),
                        rest: b.skip(2 * lesser(evened(length), n)),
                    }
                }
            },
        }
    }
}

/// Whether the key of a block, of `len` words, reads `text`.
pub open spec fn key_reads(b: Seq<u8>, len: nat, text: Seq<char>) -> bool {
    len == text.len() && forall|i: int|
        0 <= i < len ==> #[trigger] le16(b, 2 * (3 + i)) == text[i] as u32
}

/// Whether the blocks inside one at `level` fit: the whole resource, its `StringFileInfo`
/// and `VarFileInfo`, the string tables of the former; other blocks are not looked into.
pub open spec fn children_fit(b: Seq<u8>, key: nat, children: Seq<u8>, level: nat) -> bool
    decreases children.len(), 1nat,
{
    if level == 0 {
        blocks_fit(children, ValueLength::Nothing, 1)
    } else if level == 1 && key_reads(b, key, "StringFileInfo"@) {
        blocks_fit(children, ValueLength::Nothing, 2)
    } else if level == 1 && key_reads(b, key, "VarFileInfo"@) {
        blocks_fit(children, ValueLength::Bytes, 3)
    } else if level == 2 {
        blocks_fit(children, ValueLength::Words, 3)
    } else {
        true
    }
}

/// Whether every block of a list fits, up to the first that cannot be read. The whole
/// resource is one block.
pub open spec fn blocks_fit(b: Seq<u8>, kind: ValueLength, level: nat) -> bool
    decreases b.len(), 0nat,
{
    match first_block(b, kind) {
        Block::Unreadable => true,
        Block::Cramped => false,
        Block::Fits { key, children, rest } => if children.len() < b.len() && rest.len() < b.len() {
            &&& children_fit(b, key, children, level)
            &&& level == 0 || blocks_fit(rest, kind, level)
        } else {
            false
        },
    }
}

/// Whether a version resource is laid out so that all of it can be looked at.
pub open spec fn is_laid_out(resource: Seq<u8>) -> bool {
    blocks_fit(resource, ValueLength::Bytes, 0)
}

fn zero_word_of(b: &[u8], to: usize) -> (r: Option<usize>)
    requires
        3 <= to,
        2 * to <= b@.len(),
    ensures
        match r {
            Some(i) => zero_word(b@, 3, to as int) == Some(i as int) && 3 <= i < to,
            None => zero_word(b@, 3, to as int) is None,
        },
{
    let total: usize = b.len();
    let mut i: usize = 3;
    while i < to
        invariant
            3 <= i <= to,
            2 * to <= b@.len(),
            total == b@.len(),
            zero_word(b@, 3, to as int) == zero_word(b@, i as int, to as int),
        decreases to - i,
    {
        if le16_of(b, 2 * i) == 0 {
            return Some(i);
        }
        i = i + 1;
    }
    None
}

fn key_reads_of(b: &[u8], len: usize, text: &str) -> (r: bool)
    requires
        2 * (3 + len) <= b@.len(),
    ensures
        r == key_reads(b@, len as nat, text@),
{
    let x = chars_of(text);
    if x.len() != len {
        return false;
    }
    let total: usize = b.len();
    let mut i: usize = 0;
    while i < len
        invariant
            i <= len,
            total == b@.len(),
            x@.len() == len,
            x@ == text@,
            2 * (3 + len) <= b@.len(),
            forall|k: int| 0 <= k < i ==> #[trigger] le16(b@, 2 * (3 + k)) == text@[k] as u32,
        decreases len - i,
    {
        let c: char = x[i];
        if le16_of(b, 2 * (3 + i)) as u32 != c as u32 {
            assert(le16(b@, 2 * (3 + i as int)) != text@[i as int] as u32);
            return false;
        }
        assert(le16(b@, 2 * (3 + i as int)) == text@[i as int] as u32);
        i = i + 1;
    }
    true
}

fn children_fit_of(b: &[u8], key: usize, children: &[u8], level: u8) -> (r: bool)
    requires
        2 * (3 + key) <= b@.len(),
    ensures
        r == children_fit(b@, key as nat, children@, level as nat),
    decreases children.len(), 1nat,
{
    if level == 0 {
        blocks_fit_of(children, ValueLength::Nothing, 1)
    } else if level == 1 && key_reads_of(b, key, "StringFileInfo") {
        blocks_fit_of(children, ValueLength::Nothing, 2)
    } else if level == 1 && key_reads_of(b, key, "VarFileInfo") {
        blocks_fit_of(children, ValueLength::Bytes, 3)
    } else if level == 2 {
        blocks_fit_of(children, ValueLength::Words, 3)
    } else {
        true
    }
}

/// What [`first_block`] finds: where the parts of a block stand.
enum Found {
    Unreadable,
    Cramped,
    Fits { key: usize, inner: usize, end: usize, next: usize },
}

fn first_block_of(b: &[u8], kind: ValueLength) -> (r: Found)
    ensures
        match r {
            Found::Unreadable => first_block(b@, kind) is Unreadable,
            Found::Cramped => first_block(b@, kind) is Cramped,
            Found::Fits { key, inner, end, next } => {
                &&& 2 * (3 + key) <= end <= b@.len()
                &&& 8 <= inner <= end
                &&& 8 <= next <= b@.len()
                &&& first_block(b@, kind) == (Block::Fits {
                    key: key as nat,
                    children: b@.subrange(inner as int, end as int),
                    rest: b@.skip(next as int),
                })
            },
        },
{
    let n: usize = b.len() / 2;
    if n < 4 {
        return Found::Unreadable;
    }
    let head: usize = le16_of(b, 0) as usize / 2;
    let length: usize = if head < 4 {
        4
    } else {
        head
    };
    let counted: u16 = le16_of(b, 2);
    let value: usize = match kind {
        ValueLength::Nothing => 0,
        ValueLength::Bytes => counted as usize / 2,
        ValueLength::Words => counted as usize,
    };
    let none = match kind {
        ValueLength::Nothing => true,
        _ => false,
    };
    if (none && counted != 0) || length > n {
        return Found::Unreadable;
    }
    let end = match zero_word_of(b, length) {
        Some(i) => i,
        None => {
            return Found::Unreadable;
        },
    };
    let key: usize = end - 3;
    let body: usize = key + key % 2 + 4;
    if body > length {
        return Found::Cramped;
    }
    if value > length - body {
        return Found::Unreadable;
    }
    let padded: usize = value + value % 2;
    let inner: usize = if padded <= length - body {
        body + padded
    } else {
        length
    };
    let next: usize = if length + length % 2 <= n {
        length + length % 2
    } else {
        n
    };
    Found::Fits { key, inner: 2 * inner, end: 2 * length, next: 2 * next }
}

fn blocks_fit_of(b: &[u8], kind: ValueLength, level: u8) -> (r: bool)
    ensures
        r == blocks_fit(b@, kind, level as nat),
    decreases b.len(), 0nat,
{
    let mut at: usize = 0;
    assert(b@.skip(0) =~= b@);
    loop
        invariant
            at <= b@.len(),
            blocks_fit(b@, kind, level as nat) == blocks_fit(b@.skip(at as int), kind, level as nat),
        decreases b.len() - at,
    {
        let list = vstd::slice::slice_subrange(b, at, b.len());
        assert(list@ =~= b@.skip(at as int));
        match first_block_of(list, kind) {
            Found::Unreadable => {
                return true;
            },
            Found::Cramped => {
                return false;
            },
            Found::Fits { key, inner, end, next } => {
                let children = vstd::slice::slice_subrange(list, inner, end);
                if !children_fit_of(list, key, children, level) {
                    return false;
                }
                if level == 0 {
                    return true;
                }
                assert(list@.skip(next as int) =~= b@.skip(at + next));
                at = at + next;
            },
        }
    }
}

/// The version resource of an image, as pelite finds it; none where there is none.
pub uninterp spec fn found_resource(image: Seq<u8>) -> Option<Seq<u8>>;

/// `pelite::PeFile::from_bytes` and its resources' `find_resource`, where `version_info`
/// accepts what is found. The parser refuses an image at an address that is not aligned, so
/// it is given a copy in words, by `dataview::bytes_mut`; what it finds in that depends on
/// the bytes alone. It reads fields as they stand in memory: this speaks of little-endian
/// machines. An image that breaks its own alignment is left out.
#[verifier::external_body]
fn find_resource(image: &[u8]) -> (r: Option<Vec<u8>>)
    requires
        is_aligned(image@),
    ensures
        match r {
            Some(v) => found_resource(image@) == Some(v@),
            None => found_resource(image@) is None,
        },
{
    let mut words = vec![0u64; image.len().div_ceil(8)];
    let aligned = &mut dataview::bytes_mut(words.as_mut_slice())[..image.len()];
    aligned.copy_from_slice(image);
    let resources = pelite::PeFile::from_bytes(&*aligned).ok()?.resources().ok()?;
    resources.version_info().ok()?;
    let name = [pelite::resources::Name::VERSION, pelite::resources::Name::Id(1)];
    Some(resources.find_resource(&name).ok()?.to_vec())
}

/// The languages that a version resource ships, each by its number and that of its
/// character set, as pelite reads them.
pub uninterp spec fn resource_languages(resource: Seq<u8>) -> Seq<(u16, u16)>;

/// The string under a key in a version resource, for a language by its two numbers, as pelite
/// reads it; none where there is none.
pub uninterp spec fn resource_text(resource: Seq<u8>, language: (u16, u16), key: Seq<char>) -> Option<
    Seq<char>,
>;

/// `pelite::resources::version_info::VersionInfo::try_from` and its `translation`. Like the
/// image, the resource is handed over as an aligned copy in words, and what is read depends
/// on the bytes alone, on a little-endian machine. A block without room for the padding
/// behind its key, on which the parser would panic, is left out.
#[verifier::external_body]
fn languages_of(resource: &[u8]) -> (r: Vec<(u16, u16)>)
    requires
        is_laid_out(resource@),
    ensures
        r@ == resource_languages(resource@),
{
    let mut words = vec![0u64; resource.len().div_ceil(8)];
    let aligned = &mut dataview::bytes_mut(words.as_mut_slice())[..resource.len()];
    aligned.copy_from_slice(resource);
    let info = VersionInfo::try_from(&*aligned);
    info.map_or(Vec::new(), |i| i.translation().iter().map(|l| (l.lang_id, l.charset_id)).collect())
}

/// `pelite::resources::version_info::VersionInfo::try_from` and its `value`, under the same
/// terms.
#[verifier::external_body]
fn resource_text_of(resource: &[u8], language: (u16, u16), key: &str) -> (r: Option<String>)
    requires
        is_laid_out(resource@),
    ensures
        opt_text(r) == resource_text(resource@, language, key@),
{
    let mut words = vec![0u64; resource.len().div_ceil(8)];
    let aligned = &mut dataview::bytes_mut(words.as_mut_slice())[..resource.len()];
    aligned.copy_from_slice(resource);
    let language = Language { lang_id: language.0, charset_id: language.1 };
    VersionInfo::try_from(&*aligned).ok()?.value(language, key)
}

/// The version resource of an image, where it and the image are in order.
pub open spec fn version_resource(image: Seq<u8>) -> Option<Seq<u8>> {
    if !is_aligned(image) {
        None
    } else {
        match found_resource(image) {
            Some(resource) => if is_laid_out(resource) {
                Some(resource)
            } else {
                None
            },
            None => None,
        }
    }
}

/// The string under `key` in a version resource, for the first language that it ships.
pub open spec fn resource_value(resource: Seq<u8>, key: Seq<char>) -> Option<Seq<char>> {
    let languages = resource_languages(resource);
    if languages.len() == 0 {
        None
    } else {
        resource_text(resource, languages[0], key)
    }
}

/// The string under `key` in the version resource of an image.
pub open spec fn version_value(image: Seq<u8>, key: Seq<char>) -> Option<Seq<char>> {
    match version_resource(image) {
        Some(resource) => resource_value(resource, key),
        None => None,
    }
}

fn version_resource_of(image: &[u8]) -> (r: Option<Vec<u8>>)
    ensures
        match r {
            Some(v) => version_resource(image@) == Some(v@) && is_laid_out(v@),
            None => version_resource(image@) is None,
        },
{
    if !is_aligned_of(image) {
        return None;
    }
    match find_resource(image) {
        Some(resource) => {
            if blocks_fit_of(resource.as_slice(), ValueLength::Bytes, 0) {
                Some(resource)
            } else {
                None
            }
        },
        None => None,
    }
}

/// The strings under `keys` in the version resource of an image.
pub fn version_values(image: &[u8], keys: &Vec<&str>) -> (r: Vec<Option<String>>)
    ensures
        r@.len() == keys@.len(),
        forall|i: int|
            0 <= i < r@.len() ==> opt_text(#[trigger] r@[i]) == version_value(image@, keys@[i]@),
{
    let resource = version_resource_of(image);
    let languages: Vec<(u16, u16)> = match &resource {
        Some(v) => languages_of(v.as_slice()),
        None => Vec::new(),
    };
    let mut out: Vec<Option<String>> = Vec::new();
    let mut i: usize = 0;
    while i < keys.len()
        invariant
            i <= keys@.len(),
            out@.len() == i,
            match resource {
                Some(v) => version_resource(image@) == Some(v@) && is_laid_out(v@) && languages@
                    == resource_languages(v@),
                None => version_resource(image@) is None,
            },
            forall|k: int|
                0 <= k < i ==> opt_text(#[trigger] out@[k]) == version_value(
                    image@,
                    keys@[k]@,
                ),
        decreases keys.len() - i,
    {
        let text = match &resource {
            Some(v) => {
                if languages.len() == 0 {
                    None
                } else {
                    resource_text_of(v.as_slice(), languages[0], keys[i])
                }
            },
            None => None,
        };
        out.push(text);
        i = i + 1;
    }
    out
}

} // verus!
