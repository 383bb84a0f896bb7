//! Find the filesystem inside an AppImage.
//!
//! A type-2 AppImage is a small ELF runtime with a squashfs image concatenated
//! onto the end of it, so the payload starts wherever the ELF stops — the
//! furthest point named by its section and program header tables. Type 1 (an
//! ELF plus an ISO 9660 image) predates 2016 and is not read here.
//!
//! The type marker lives in the ELF header's padding bytes: `0x41 0x49` ("AI")
//! followed by the version. Some builds zero it out, so the file extension is
//! accepted as a second opinion.

use vstd::prelude::*;

use crate::bytes::{
    begins, begins_with, le16, le16_of, le32, le32_of, le64, le64_of, span_of,
};
use crate::pkg::squashfs;
use crate::pkg::{Fault, PkgError};
use crate::text::{closes, ends_with};

verus! {

/// How far past the computed end of the ELF to look for the payload before
/// giving up on the header and scanning the whole file.
pub const SEARCH_WINDOW: usize = 0x1_0000;

/// Whether an ELF image opens `b`.
pub open spec fn has_elf_magic(b: Seq<u8>) -> bool {
    begins(b, seq![0x7fu8, 0x45, 0x4c, 0x46])
}

/// Whether `bytes` opens with the ELF magic.
pub(crate) fn is_elf(bytes: &[u8]) -> (r: bool)
    ensures
        r == has_elf_magic(bytes@),
{
    let magic: [u8; 4] = [0x7f, 0x45, 0x4c, 0x46];
    assert(magic@ =~= seq![0x7fu8, 0x45, 0x4c, 0x46]);
    begins_with(bytes, magic.as_slice())
}

/// The AppImage version byte, if the marker is present.
pub open spec fn type_marker(b: Seq<u8>) -> Option<u8> {
    if b.len() >= 11 && b[8] == 0x41 && b[9] == 0x49 {
        Some(b[10])
    } else {
        None
    }
}

fn marker(bytes: &[u8]) -> (r: Option<u8>)
    ensures
        r == type_marker(bytes@),
{
    if bytes.len() >= 11 && bytes[8] == 0x41 && bytes[9] == 0x49 {
        Some(bytes[10])
    } else {
        None
    }
}

/// Whether an ELF is an AppImage: by its marker, or by the name it came under.
pub open spec fn recognised(b: Seq<u8>, lower_filename: Seq<char>) -> bool {
    has_elf_magic(b) && (type_marker(b) is Some || closes(lower_filename, ".appimage"@))
}

/// Whether `bytes` is an AppImage.
pub fn is_appimage(bytes: &[u8], lower_filename: &str) -> (r: bool)
    ensures
        r == recognised(bytes@, lower_filename@),
{
    is_elf(bytes) && (marker(bytes).is_some() || ends_with(lower_filename, ".appimage"))
}

/// Whether a squashfs 4.0 superblock starts at `at`. The version check keeps a scan
/// from stopping on the four magic bytes appearing inside compressed data.
pub open spec fn superblock_at(b: Seq<u8>, at: int) -> bool {
    squashfs::has_magic(b.skip(at)) && at + 30 <= b.len() && le16(b, at + 28) == 4
}

/// The first superblock at `at`, `at + 4`, … before `to`.
pub open spec fn scan(b: Seq<u8>, at: int, to: int) -> Option<int>
    decreases to + 4 - at,
{
    if at >= to {
        None
    } else if superblock_at(b, at) {
        Some(at)
    } else {
        scan(b, at + 4, to)
    }
}

/// The first 4-byte aligned superblock in `from..to`.
pub open spec fn superblock_in(b: Seq<u8>, from: int, to: int) -> Option<int> {
    scan(
        b,
        from - from % 4,
        if to <= b.len() {
            to
        } else {
            b.len() as int
        },
    )
}

/// A field of the machine's word size, where it fits.
pub open spec fn elf_word(b: Seq<u8>, wide: bool, at: int) -> Option<int> {
    if wide {
        if at + 8 <= b.len() {
            Some(le64(b, at) as int)
        } else {
            None
        }
    } else if at + 4 <= b.len() {
        Some(le32(b, at) as int)
    } else {
        None
    }
}

/// Where a header table ends: its offset plus its entry size times its count.
pub open spec fn table_end(b: Seq<u8>, wide: bool, offset_at: int, size_at: int) -> Option<int> {
    match elf_word(b, wide, offset_at) {
        Some(offset) => if size_at + 4 <= b.len() {
            Some(offset + le16(b, size_at) * le16(b, size_at + 2))
        } else {
            None
        },
        None => None,
    }
}

/// The first byte past the ELF: the furthest end of its section and program
/// header tables, which is where a tool appending a payload starts writing.
/// AppImage runtimes are little-endian; others are left to the scan.
pub open spec fn elf_extent(b: Seq<u8>) -> Option<int> {
    if b.len() < 16 || !has_elf_magic(b) || b[5] != 1 || !(b[4] == 1 || b[4] == 2) {
        None
    } else {
        let wide = b[4] == 2;
        let (sections, programs) = if wide {
            (table_end(b, true, 0x28, 0x3a), table_end(b, true, 0x20, 0x36))
        } else {
            (table_end(b, false, 0x20, 0x2e), table_end(b, false, 0x1c, 0x2a))
        };
        match (sections, programs) {
            (Some(s), Some(p)) => {
                let end = if s >= p {
                    s
                } else {
                    p
                };
                if end <= usize::MAX {
                    Some(end)
                } else {
                    None
                }
            },
            _ => None,
        }
    }
}

/// Where the image appended to a runtime starts. A stripped or unusual runtime can
/// leave the header tables pointing short of the payload; the image itself is
/// still findable.
pub open spec fn image_start(b: Seq<u8>) -> Option<int> {
    let near = match elf_extent(b) {
        Some(end) => superblock_in(b, end, end + SEARCH_WINDOW),
        None => None,
    };
    match near {
        Some(at) => Some(at),
        None => superblock_in(b, 4, b.len() as int),
    }
}

/// The image appended to a runtime.
pub open spec fn appimage_payload(b: Seq<u8>) -> Result<Seq<u8>, Fault> {
    if type_marker(b) == Some(1u8) {
        Err(
            Fault::Unsupported(
                "this is a type-1 AppImage (an ISO 9660 payload, the pre-2016 format); only type-2 AppImages can be read"@,
            ),
        )
    } else {
        match image_start(b) {
            Some(at) => Ok(b.skip(at)),
            None => Err(
                Fault::Malformed("AppImage"@, "no squashfs image found after the runtime"@),
            ),
        }
    }
}

fn find_superblock(bytes: &[u8], from: usize, to: usize) -> (r: Option<usize>)
    ensures
        match r {
            Some(at) => superblock_in(bytes@, from as int, to as int) == Some(at as int) && at
                < bytes@.len(),
            None => superblock_in(bytes@, from as int, to as int) is None,
        },
{
    let stop: usize = if to <= bytes.len() {
        to
    } else {
        bytes.len()
    };
    let mut at: usize = from - from % 4;
    let ghost first = scan(bytes@, at as int, stop as int);
    while at < stop
        invariant
            stop <= bytes@.len(),
            first == superblock_in(bytes@, from as int, to as int),
            first == scan(bytes@, at as int, stop as int),
        decreases stop + 4 - at,
    {
        let candidate = vstd::slice::slice_subrange(bytes, at, bytes.len());
        assert(candidate@ =~= bytes@.skip(at as int));
        if squashfs::is_squashfs(candidate) && candidate.len() >= 30 && le16_of(bytes, at + 28) == 4 {
            return Some(at);
        }
        match at.checked_add(4) {
            Some(next) => {
                at = next;
            },
            None => {
                assert(scan(bytes@, at + 4, stop as int) is None);
                return None;
            },
        }
    }
    None
}

fn table_end_of(bytes: &[u8], wide: bool, offset_at: usize, size_at: usize) -> (r: Option<u128>)
    requires
        offset_at <= 0x40,
        size_at <= 0x40,
    ensures
        match r {
            Some(v) => table_end(bytes@, wide, offset_at as int, size_at as int) == Some(v as int),
            None => table_end(bytes@, wide, offset_at as int, size_at as int) is None,
        },
{
    let offset: u64 = if wide {
        if span_of(bytes, offset_at, 8).is_none() {
            return None;
        }
        le64_of(bytes, offset_at)
    } else {
        if span_of(bytes, offset_at, 4).is_none() {
            return None;
        }
        le32_of(bytes, offset_at) as u64
    };
    if span_of(bytes, size_at, 4).is_none() {
        return None;
    }
    let size: u64 = le16_of(bytes, size_at) as u64;
    let count: u64 = le16_of(bytes, size_at + 2) as u64;
    assert(0 <= size * count <= 0xffff * 0xffff) by (nonlinear_arith)
        requires
            0 <= size <= 0xffff,
            0 <= count <= 0xffff,
    ;
    Some(offset as u128 + (size * count) as u128)
}

fn elf_end(bytes: &[u8]) -> (r: Option<usize>)
    ensures
        match r {
            Some(v) => elf_extent(bytes@) == Some(v as int),
            None => elf_extent(bytes@) is None,
        },
{
    if bytes.len() < 16 || !is_elf(bytes) || bytes[5] != 1 {
        return None;
    }
    let (sections, programs) = if bytes[4] == 2 {
        (table_end_of(bytes, true, 0x28, 0x3a), table_end_of(bytes, true, 0x20, 0x36))
    } else if bytes[4] == 1 {
        (table_end_of(bytes, false, 0x20, 0x2e), table_end_of(bytes, false, 0x1c, 0x2a))
    } else {
        return None;
    };
    match (sections, programs) {
        (Some(s), Some(p)) => {
            let end: u128 = if s >= p {
                s
            } else {
                p
            };
            if end <= usize::MAX as u128 {
                Some(end as usize)
            } else {
                None
            }
        },
        _ => None,
    }
}

/// The view of a located image.
pub open spec fn image_view(r: Result<&[u8], PkgError>) -> Result<Seq<u8>, Fault> {
    match r {
        Ok(b) => Ok(b@),
        Err(e) => Err(e@),
    }
}

/// The squashfs image appended to the runtime.
pub fn payload(bytes: &[u8]) -> (r: Result<&[u8], PkgError>)
    ensures
        image_view(r) == appimage_payload(bytes@),
{
    match marker(bytes) {
        Some(version) => {
            if version == 1 {
                return Err(
                    PkgError::Unsupported(
                        "this is a type-1 AppImage (an ISO 9660 payload, the pre-2016 format); only type-2 AppImages can be read".to_owned(),
                    ),
                );
            }
        },
        None => {},
    }
    let near = match elf_end(bytes) {
        Some(end) => {
            let r = find_superblock(bytes, end, end.saturating_add(SEARCH_WINDOW));
            assert(bytes.len() <= usize::MAX);
            r
        },
        None => None,
    };
    let start: usize = match near {
        Some(at) => at,
        None => match find_superblock(bytes, 4, bytes.len()) {
            Some(at) => at,
            None => {
                return Err(
                    PkgError::Malformed(
                        "AppImage",
                        "no squashfs image found after the runtime".to_owned(),
                    ),
                );
            },
        },
    };
    let image = vstd::slice::slice_subrange(bytes, start, bytes.len());
    assert(image@ =~= bytes@.skip(start as int));
    Ok(image)
}

} // verus!
