//! Locate the payload inside an RPM package.
//!
//! An `.rpm` is a 96-byte lead, a signature header, the main header, then the
//! payload — historically always a compressed cpio archive. The two headers
//! share one structure (an index of tagged entries over a data store), and only
//! two of the main header's tags matter here: which archive format the payload
//! is in and how it's compressed.
//!
//! Nothing else in the metadata is read — the package's own claims about its
//! name and version are not evidence about the binaries inside.

use vstd::prelude::*;

use crate::bytes::{
    be32, be32_of, begins, begins_with, find_byte, first_byte, lossy_text, span, span_of, utf8_lossy,
};
use crate::pkg::ar::located;
use crate::pkg::decompress::{sniffed, Codec};
use crate::pkg::{Fault, PkgError};
use crate::text::{concat3, opt_text, same};

verus! {

/// The tag of the payload's archive format.
pub const TAG_PAYLOADFORMAT: u32 = 1124;

/// The tag of the payload's compressor.
pub const TAG_PAYLOADCOMPRESSOR: u32 = 1125;

/// Whether the lead magic opens `b`.
pub open spec fn has_magic(b: Seq<u8>) -> bool {
    begins(b, seq![0xedu8, 0xab, 0xee, 0xdb])
}

/// Whether `bytes` is an RPM package.
pub fn is_rpm(bytes: &[u8]) -> (r: bool)
    ensures
        r == has_magic(bytes@),
{
    let magic: [u8; 4] = [0xed, 0xab, 0xee, 0xdb];
    assert(magic@ =~= seq![0xedu8, 0xab, 0xee, 0xdb]);
    begins_with(bytes, magic.as_slice())
}

/// One header section: an index of tagged entries over a data store.
pub struct Section {
    pub index: int,
    pub count: int,
    pub store: int,
    /// First byte after the header, its data store included.
    pub end: int,
}

/// The header section at `at`.
pub open spec fn section(b: Seq<u8>, at: int) -> Result<Section, Fault> {
    match span(b, at, 16) {
        None => Err(Fault::Malformed("rpm"@, "truncated header"@)),
        Some(prelude) => if !begins(prelude, seq![0x8eu8, 0xad, 0xe8, 0x01]) {
            Err(Fault::Malformed("rpm"@, "bad header magic"@))
        } else {
            let count = be32(prelude, 8) as int;
            let index = at + 16;
            let store = index + count * 16;
            let end = store + be32(prelude, 12);
            if end > b.len() {
                Err(Fault::Malformed("rpm"@, "header runs past end of file"@))
            } else {
                Ok(Section { index, count, store, end })
            }
        },
    }
}

/// The NUL-terminated string stored for `tag` by the entries from `i` on. Only a
/// string entry will do: anything else for these tags is a malformed package.
pub open spec fn tag_string(b: Seq<u8>, s: Section, tag: u32, i: int) -> Option<Seq<char>>
    decreases s.count - i,
{
    if i >= s.count {
        None
    } else {
        match span(b, s.index + i * 16, 16) {
            None => None,
            Some(entry) => if be32(entry, 0) != tag {
                tag_string(b, s, tag, i + 1)
            } else if be32(entry, 4) != 6 {
                None
            } else {
                let start = s.store + be32(entry, 8);
                match span(b, start, s.end - start) {
                    None => None,
                    Some(rest) => match first_byte(rest, 0, 0) {
                        Some(end) => Some(utf8_lossy(rest.take(end))),
                        None => Some(utf8_lossy(rest)),
                    },
                }
            },
        }
    }
}

/// The compressor that a package declares.
pub open spec fn declared_codec(name: Seq<char>) -> Result<Codec, Fault> {
    if name == "gzip"@ {
        Ok(Codec::Gzip)
    } else if name == "xz"@ {
        Ok(Codec::Xz)
    } else if name == "zstd"@ {
        Ok(Codec::Zstd)
    } else if name == "bzip2"@ {
        Ok(Codec::Bzip2)
    } else if name == "lzma"@ {
        Ok(Codec::Lzma)
    } else if name == "none"@ {
        Ok(Codec::Stored)
    } else if name == "lzo"@ {
        Err(Fault::UnsupportedCompression("lzo"@))
    } else {
        Err(Fault::UnsupportedCompression("unknown"@))
    }
}

/// `n` rounded up to a multiple of eight.
pub open spec fn padded(n: int) -> int {
    n + (8 - n % 8) % 8
}

/// The payload after the main header `main`. The declared compressor is the truth
/// for `lzma`, which has no magic to sniff; sniffing is the fallback for packages
/// that omit the tag.
pub open spec fn payload_after(b: Seq<u8>, main: Section) -> Result<(Seq<u8>, Codec), Fault> {
    let format = tag_string(b, main, TAG_PAYLOADFORMAT, 0);
    if format is Some && format->0 != "cpio"@ {
        Err(
            Fault::Unsupported(
                "this rpm carries a "@ + format->0
                    + " payload; only cpio payloads (every ordinary package) can be read"@,
            ),
        )
    } else if main.end >= b.len() {
        Err(Fault::Malformed("rpm"@, "no payload after the header"@))
    } else {
        let payload = b.skip(main.end);
        match tag_string(b, main, TAG_PAYLOADCOMPRESSOR, 0) {
            Some(name) => match declared_codec(name) {
                Ok(codec) => Ok((payload, codec)),
                Err(e) => Err(e),
            },
            None => Ok(
                (
                    payload,
                    match sniffed(payload) {
                        Some(c) => c,
                        None => Codec::Stored,
                    },
                ),
            ),
        }
    }
}

/// The payload of a package and its compressor. Only the signature header's data
/// store is padded to an 8-byte boundary.
pub open spec fn rpm_payload(b: Seq<u8>) -> Result<(Seq<u8>, Codec), Fault> {
    if !has_magic(b) {
        Err(Fault::Malformed("rpm"@, "missing lead magic"@))
    } else {
        match section(b, 96) {
            Err(e) => Err(e),
            Ok(signature) => match section(b, padded(signature.end)) {
                Err(e) => Err(e),
                Ok(main) => payload_after(b, main),
            },
        }
    }
}

/// One header section.
struct Header {
    index: usize,
    count: u32,
    store: usize,
    end: usize,
}

impl Header {
    spec fn section(self) -> Section {
        Section {
            index: self.index as int,
            count: self.count as int,
            store: self.store as int,
            end: self.end as int,
        }
    }

    fn parse(bytes: &[u8], at: usize) -> (r: Result<Header, PkgError>)
        ensures
            match r {
                Ok(h) => section(bytes@, at as int) == Ok::<_, Fault>(h.section()) && h.end
                    <= bytes@.len() && h.index + h.count * 16 == h.store <= h.end,
                Err(e) => section(bytes@, at as int) == Err::<Section, _>(e@),
            },
    {
        let magic: [u8; 4] = [0x8e, 0xad, 0xe8, 0x01];
        assert(magic@ =~= seq![0x8eu8, 0xad, 0xe8, 0x01]);
        let prelude = match span_of(bytes, at, 16) {
            Some(p) => p,
            None => {
                return Err(PkgError::Malformed("rpm", "truncated header".to_owned()));
            },
        };
        if !begins_with(prelude, magic.as_slice()) {
            return Err(PkgError::Malformed("rpm", "bad header magic".to_owned()));
        }
        let count = be32_of(prelude, 8);
        let store_len = be32_of(prelude, 12);
        let store: u128 = at as u128 + 16 + count as u128 * 16;
        let end: u128 = store + store_len as u128;
        if end > bytes.len() as u128 {
            return Err(PkgError::Malformed("rpm", "header runs past end of file".to_owned()));
        }
        Ok(Header { index: at + 16, count, store: store as usize, end: end as usize })
    }

    /// The NUL-terminated string stored for `tag`, if present.
    fn string(&self, bytes: &[u8], tag: u32) -> (r: Option<String>)
        requires
            self.end <= bytes@.len(),
            self.index + self.count * 16 == self.store <= self.end,
        ensures
            opt_text(r) == tag_string(bytes@, self.section(), tag, 0),
    {
        let mut i: u32 = 0;
        let mut at: usize = self.index;
        while i < self.count
            invariant
                i <= self.count,
                self.end <= bytes@.len(),
                self.index + self.count * 16 == self.store <= self.end,
                at == self.index + i * 16,
                tag_string(bytes@, self.section(), tag, 0) == tag_string(
                    bytes@,
                    self.section(),
                    tag,
                    i as int,
                ),
            decreases self.count - i,
        {
            let entry = match span_of(bytes, at, 16) {
                Some(e) => e,
                None => {
                    return None;
                },
            };
            if be32_of(entry, 0) == tag {
                if be32_of(entry, 4) != 6 {
                    return None;
                }
                let offset: u32 = be32_of(entry, 8);
                if offset as u64 > (self.end - self.store) as u64 {
                    return None;
                }
                let start: usize = self.store + offset as usize;
                let rest = match span_of(bytes, start, self.end - start) {
                    Some(rest) => rest,
                    None => {
                        return None;
                    },
                };
                return match find_byte(rest, 0, 0) {
                    Some(end) => {
                        let text = vstd::slice::slice_subrange(rest, 0, end);
                        assert(text@ =~= rest@.take(end as int));
                        Some(lossy_text(text))
                    },
                    None => Some(lossy_text(rest)),
                };
            }
            i = i + 1;
            at = at + 16;
        }
        None
    }
}

fn codec_of(name: &str) -> (r: Result<Codec, PkgError>)
    ensures
        match r {
            Ok(c) => declared_codec(name@) == Ok::<_, Fault>(c),
            Err(e) => declared_codec(name@) == Err::<Codec, _>(e@),
        },
{
    if same(name, "gzip") {
        Ok(Codec::Gzip)
    } else if same(name, "xz") {
        Ok(Codec::Xz)
    } else if same(name, "zstd") {
        Ok(Codec::Zstd)
    } else if same(name, "bzip2") {
        Ok(Codec::Bzip2)
    } else if same(name, "lzma") {
        Ok(Codec::Lzma)
    } else if same(name, "none") {
        Ok(Codec::Stored)
    } else if same(name, "lzo") {
        Err(PkgError::UnsupportedCompression("lzo"))
    } else {
        Err(PkgError::UnsupportedCompression("unknown"))
    }
}

fn payload_of<'a>(bytes: &'a [u8], main: &Header) -> (r: Result<(&'a [u8], Codec), PkgError>)
    requires
        main.end <= bytes@.len(),
        main.index + main.count * 16 == main.store <= main.end,
    ensures
        located(r) == payload_after(bytes@, main.section()),
{
    match main.string(bytes, TAG_PAYLOADFORMAT) {
        Some(format) => {
            if !same(format.as_str(), "cpio") {
                return Err(
                    PkgError::Unsupported(
                        concat3(
                            "this rpm carries a ",
                            format.as_str(),
                            " payload; only cpio payloads (every ordinary package) can be read",
                        ),
                    ),
                );
            }
        },
        None => {},
    }
    if main.end >= bytes.len() {
        return Err(PkgError::Malformed("rpm", "no payload after the header".to_owned()));
    }
    let payload = vstd::slice::slice_subrange(bytes, main.end, bytes.len());
    assert(payload@ =~= bytes@.skip(main.end as int));
    match main.string(bytes, TAG_PAYLOADCOMPRESSOR) {
        Some(name) => match codec_of(name.as_str()) {
            Ok(codec) => Ok((payload, codec)),
            Err(e) => Err(e),
        },
        None => {
            let codec = match Codec::sniff(payload) {
                Some(c) => c,
                None => Codec::Stored,
            };
            Ok((payload, codec))
        },
    }
}

/// The raw (still compressed) payload and the compressor that covers it.
pub fn payload(bytes: &[u8]) -> (r: Result<(&[u8], Codec), PkgError>)
    ensures
        located(r) == rpm_payload(bytes@),
{
    if !is_rpm(bytes) {
        return Err(PkgError::Malformed("rpm", "missing lead magic".to_owned()));
    }
    let signature = match Header::parse(bytes, 96) {
        Ok(h) => h,
        Err(e) => {
            return Err(e);
        },
    };
    let main_start: usize = match signature.end.checked_add((8 - signature.end % 8) % 8) {
        Some(n) => n,
        None => {
            assert(padded(signature.end as int) > bytes.len());
            return Err(PkgError::Malformed("rpm", "truncated header".to_owned()));
        },
    };
    assert(main_start == padded(signature.end as int));
    let main = match Header::parse(bytes, main_start) {
        Ok(h) => h,
        Err(e) => {
            return Err(e);
        },
    };
    payload_of(bytes, &main)
}

} // verus!
