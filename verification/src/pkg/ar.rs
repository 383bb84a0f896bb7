//! The `ar` archive that wraps a Debian package.
//!
//! A `.deb` is three ar members in order: `debian-binary` (the format version),
//! `control.tar.*` (maintainer scripts and metadata), and `data.tar.*` (the
//! files that get installed). Only the last one holds the application.
//!
//! Debian's own tooling writes short, plain member names, so the GNU/BSD
//! long-name extensions never appear here and aren't implemented.

use vstd::prelude::*;
use vstd::utf8::*;

use crate::bytes::{begins, begins_with, span, span_of, utf8_text};
use crate::num::{number, number_of};
use crate::pkg::decompress::{sniffed, Codec};
use crate::pkg::{Fault, PkgError};
use crate::text::{
    chars_of, opens, same, split, split_of, starts_with, text_of, texts, trim, trim_end, trim_end_of,
    trim_of, CharClass,
};

verus! {

/// Whether the ar magic opens `b`.
pub open spec fn has_magic(b: Seq<u8>) -> bool {
    begins(b, seq![0x21u8, 0x3c, 0x61, 0x72, 0x63, 0x68, 0x3e, 0x0a])
}

/// Whether `bytes` is an ar archive.
pub fn is_ar(bytes: &[u8]) -> (r: bool)
    ensures
        r == has_magic(bytes@),
{
    let magic: [u8; 8] = [0x21, 0x3c, 0x61, 0x72, 0x63, 0x68, 0x3e, 0x0a];
    assert(magic@ =~= seq![0x21u8, 0x3c, 0x61, 0x72, 0x63, 0x68, 0x3e, 0x0a]);
    begins_with(bytes, magic.as_slice())
}

/// The model of an archive member, and where the next one starts.
pub struct MemberView {
    pub name: Seq<char>,
    pub data: Seq<u8>,
    pub next: int,
}

/// The name in a member header: padded with white space, with the slash that GNU
/// appends to allow trailing spaces.
pub open spec fn member_name(header: Seq<u8>) -> Option<Seq<char>> {
    let field = header.subrange(0, 16);
    if valid_utf8(field) {
        Some(trim_end(trim_end(decode_utf8(field), CharClass::White), CharClass::Only('/')))
    } else {
        None
    }
}

/// The size in a member header.
pub open spec fn member_size(header: Seq<u8>) -> Option<nat> {
    let field = header.subrange(48, 58);
    if valid_utf8(field) {
        number(trim(decode_utf8(field), CharClass::White), 10, usize::MAX as nat)
    } else {
        None
    }
}

/// The member whose header is at `pos`. Members are padded to an even offset.
pub open spec fn member_at(b: Seq<u8>, pos: int) -> Option<MemberView> {
    match span(b, pos, 60) {
        None => None,
        Some(header) => if header[58] != 0x60 || header[59] != 0x0a {
            None
        } else {
            match (member_name(header), member_size(header)) {
                (Some(name), Some(size)) => match span(b, pos + 60, size as int) {
                    Some(data) => Some(
                        MemberView { name, data, next: pos + 60 + size + size as int % 2 },
                    ),
                    None => None,
                },
                _ => None,
            }
        },
    }
}

/// The members from `pos` on, up to the first malformed header: a truncated
/// archive still yields whatever preceded the damage.
pub open spec fn members_from(b: Seq<u8>, pos: int) -> Seq<MemberView>
    decreases b.len() + 2 - pos,
{
    match member_at(b, pos) {
        Some(m) => if pos < m.next <= b.len() + 1 {
            seq![m] + members_from(b, m.next)
        } else {
            seq![m]
        },
        None => Seq::empty(),
    }
}

/// The members of an archive.
pub open spec fn members(b: Seq<u8>) -> Seq<MemberView> {
    members_from(b, 8)
}

/// Whether a member name tells a Debian package.
pub open spec fn is_deb_name(name: Seq<char>) -> bool {
    name == "debian-binary"@ || opens(name, "data.tar"@)
}

/// Whether an archive is a Debian package.
pub open spec fn is_deb(b: Seq<u8>) -> bool {
    exists|i: int| 0 <= i < members(b).len() && is_deb_name((#[trigger] members(b)[i]).name)
}

/// The first payload member among `m`.
pub open spec fn first_data(m: Seq<MemberView>) -> Option<MemberView>
    decreases m.len(),
{
    if m.len() == 0 {
        None
    } else if opens(m[0].name, "data.tar"@) {
        Some(m[0])
    } else {
        first_data(m.skip(1))
    }
}

/// The compressor that a member's extension declares.
pub open spec fn extension_codec(name: Seq<char>) -> Codec {
    let ext = split(name, CharClass::Only('.')).last();
    if ext == "gz"@ {
        Codec::Gzip
    } else if ext == "xz"@ {
        Codec::Xz
    } else if ext == "zst"@ {
        Codec::Zstd
    } else if ext == "bz2"@ {
        Codec::Bzip2
    } else if ext == "lzma"@ {
        Codec::Lzma
    } else {
        Codec::Stored
    }
}

/// The payload of a Debian package and its compressor. The extension declares it,
/// but a stream that sniffs as something else wins.
pub open spec fn deb_payload(b: Seq<u8>) -> Result<(Seq<u8>, Codec), Fault> {
    if !has_magic(b) {
        Err(Fault::Malformed("deb"@, "missing ar magic"@))
    } else {
        match first_data(members(b)) {
            None => Err(Fault::Malformed("deb"@, "no data.tar member"@)),
            Some(m) => Ok(
                (
                    m.data,
                    match sniffed(m.data) {
                        Some(c) => c,
                        None => extension_codec(m.name),
                    },
                ),
            ),
        }
    }
}

/// An archive member.
struct Member<'a> {
    name: String,
    data: &'a [u8],
    /// Where the next header starts, unless that is past any machine offset.
    next: Option<usize>,
}

fn read_member<'a>(b: &'a [u8], pos: usize) -> (r: Option<Member<'a>>)
    ensures
        match r {
            Some(m) => match member_at(b@, pos as int) {
                Some(v) => {
                    &&& v.name == m.name@
                    &&& v.data == m.data@
                    &&& pos < v.next <= b@.len() + 1
                    &&& match m.next {
                        Some(n) => v.next == n,
                        None => v.next > usize::MAX,
                    }
                },
                None => false,
            },
            None => member_at(b@, pos as int) is None,
        },
{
    let header = match span_of(b, pos, 60) {
        Some(h) => h,
        None => {
            return None;
        },
    };
    if header[58] != 0x60 || header[59] != 0x0a {
        return None;
    }
    let name = match utf8_text(vstd::slice::slice_subrange(header, 0, 16)) {
        Some(t) => {
            let x = trim_end_of(&chars_of(t.as_str()), CharClass::White);
            text_of(trim_end_of(&x, CharClass::Only('/')).as_slice())
        },
        None => {
            return None;
        },
    };
    let digits = match utf8_text(vstd::slice::slice_subrange(header, 48, 58)) {
        Some(t) => trim_of(&chars_of(t.as_str()), CharClass::White),
        None => {
            return None;
        },
    };
    let size: usize = match number_of(&digits, 10, usize::MAX as u64) {
        Some(v) => v as usize,
        None => {
            return None;
        },
    };
    match span_of(b, pos + 60, size) {
        Some(data) => Some(
            Member { name, data, next: (pos + 60 + size).checked_add(size % 2) },
        ),
        None => None,
    }
}

/// True if this ar archive is a Debian package rather than, say, a static
/// library. `debian-binary` is mandatory and always first.
pub fn looks_like_deb(bytes: &[u8]) -> (r: bool)
    ensures
        r == is_deb(bytes@),
{
    let mut pos: usize = 8;
    let ghost all = members(bytes@);
    let ghost mut seen: int = 0;
    assert(all.skip(0) =~= all);
    loop
        invariant
            all == members(bytes@),
            0 <= seen <= all.len(),
            all.skip(seen) == members_from(bytes@, pos as int),
            forall|i: int| 0 <= i < seen ==> !is_deb_name((#[trigger] all[i]).name),
        decreases bytes.len() + 2 - pos,
    {
        let m = match read_member(bytes, pos) {
            Some(m) => m,
            None => {
                assert(seen == all.len());
                return false;
            },
        };
        let ghost v = member_at(bytes@, pos as int)->0;
        let ghost rest = members_from(bytes@, v.next);
        assert(members_from(bytes@, pos as int) =~= seq![v] + rest);
        assert(all[seen] == all.skip(seen)[0]);
        if same(m.name.as_str(), "debian-binary") || starts_with(m.name.as_str(), "data.tar") {
            assert(is_deb_name(all[seen].name));
            return true;
        }
        assert((seq![v] + rest).skip(1) =~= rest);
        assert(all.skip(seen).skip(1) =~= all.skip(seen + 1));
        proof {
            seen = seen + 1;
        }
        match m.next {
            Some(n) => {
                pos = n;
            },
            None => {
                assert(member_at(bytes@, v.next) is None);
                assert(rest.len() == 0);
                return false;
            },
        }
    }
}

fn codec_of_name(name: &str) -> (r: Codec)
    ensures
        r == extension_codec(name@),
{
    let parts = split_of(name, CharClass::Only('.'));
    let ext = parts[parts.len() - 1].as_str();
    assert(ext@ == texts(parts@).last());
    if same(ext, "gz") {
        Codec::Gzip
    } else if same(ext, "xz") {
        Codec::Xz
    } else if same(ext, "zst") {
        Codec::Zstd
    } else if same(ext, "bz2") {
        Codec::Bzip2
    } else if same(ext, "lzma") {
        Codec::Lzma
    } else {
        Codec::Stored
    }
}

/// The view of a located payload.
pub open spec fn located(r: Result<(&[u8], Codec), PkgError>) -> Result<(Seq<u8>, Codec), Fault> {
    match r {
        Ok((data, codec)) => Ok((data@, codec)),
        Err(e) => Err(e@),
    }
}

/// The `data.tar.*` member and the compressor its extension declares.
pub fn data_member(bytes: &[u8]) -> (r: Result<(&[u8], Codec), PkgError>)
    ensures
        located(r) == deb_payload(bytes@),
{
    if !is_ar(bytes) {
        return Err(PkgError::Malformed("deb", "missing ar magic".to_owned()));
    }
    let mut pos: usize = 8;
    loop
        invariant
            has_magic(bytes@),
            first_data(members(bytes@)) == first_data(members_from(bytes@, pos as int)),
        decreases bytes.len() + 2 - pos,
    {
        let m = match read_member(bytes, pos) {
            Some(m) => m,
            None => {
                return Err(PkgError::Malformed("deb", "no data.tar member".to_owned()));
            },
        };
        let ghost v = member_at(bytes@, pos as int)->0;
        let ghost rest = members_from(bytes@, v.next);
        assert(members_from(bytes@, pos as int) =~= seq![v] + rest);
        assert((seq![v] + rest).skip(1) =~= rest);
        if starts_with(m.name.as_str(), "data.tar") {
            let codec = match Codec::sniff(m.data) {
                Some(c) => c,
                None => codec_of_name(m.name.as_str()),
            };
            return Ok((m.data, codec));
        }
        match m.next {
            Some(n) => {
                pos = n;
            },
            None => {
                assert(member_at(bytes@, v.next) is None);
                assert(rest.len() == 0);
                assert(first_data(rest) is None);
                return Err(PkgError::Malformed("deb", "no data.tar member".to_owned()));
            },
        }
    }
}

} // verus!
