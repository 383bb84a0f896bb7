//! The compressors the Linux package formats use, behind one enum.
//!
//! The one gap is LZO (a squashfs option): there is no decompressor we're willing
//! to depend on, so it fails with a message naming the compressor rather than a
//! generic parse error.

use std::io::Read;

use vstd::prelude::*;

use crate::bytes::{begins, begins_with, copy_of};
use crate::pkg::xz::{is_steady, is_steady_of};
use crate::pkg::{Fault, PkgError};

verus! {

/// A compression algorithm, as identified by a container's own header.
#[derive(Debug, Clone, Copy, PartialEq, Eq, Structural)]
pub enum Codec {
    /// Stored uncompressed.
    Stored,
    /// gzip container (`\x1f\x8b`) — `.tar.gz`, `data.tar.gz`, rpm payloads.
    Gzip,
    /// Raw zlib stream — what squashfs means by "gzip".
    Zlib,
    /// `.xz` container.
    Xz,
    /// Bare LZMA1 (`.lzma`) — legacy rpm payloads.
    Lzma,
    Zstd,
    Bzip2,
    /// LZ4 frame format (`.tar.lz4`).
    Lz4Frame,
    /// A raw LZ4 block of known output size — squashfs's flavour.
    Lz4Block,
    /// Recognised but unsupported; carried so the error can name it.
    Lzo,
}

/// The compressor a magic number implies.
pub open spec fn sniffed(b: Seq<u8>) -> Option<Codec> {
    if begins(b, seq![0x1fu8, 0x8b]) {
        Some(Codec::Gzip)
    } else if begins(b, seq![0xfdu8, 0x37, 0x7a, 0x58, 0x5a, 0]) {
        Some(Codec::Xz)
    } else if begins(b, seq![0x28u8, 0xb5, 0x2f, 0xfd]) {
        Some(Codec::Zstd)
    } else if begins(b, seq![0x42u8, 0x5a, 0x68]) {
        Some(Codec::Bzip2)
    } else if begins(b, seq![0x04u8, 0x22, 0x4d, 0x18]) {
        Some(Codec::Lz4Frame)
    } else if begins(b, seq![0x5du8, 0, 0]) {
        Some(Codec::Lzma)
    } else {
        None
    }
}

impl Codec {
    /// The compressor a magic number implies, for containers that don't declare
    /// one (a tarball is named `.tar.xz` but a stream is just bytes).
    pub fn sniff(bytes: &[u8]) -> (r: Option<Codec>)
        ensures
            r == sniffed(bytes@),
    {
        let gzip: [u8; 2] = [0x1f, 0x8b];
        let xz: [u8; 6] = [0xfd, 0x37, 0x7a, 0x58, 0x5a, 0];
        let zstd: [u8; 4] = [0x28, 0xb5, 0x2f, 0xfd];
        let bzip2: [u8; 3] = [0x42, 0x5a, 0x68];
        let lz4: [u8; 4] = [0x04, 0x22, 0x4d, 0x18];
        // LZMA1 has no magic: a 0x5d properties byte followed by a
        // power-of-two dictionary size is the conventional tell.
        let lzma: [u8; 3] = [0x5d, 0, 0];
        assert(gzip@ =~= seq![0x1fu8, 0x8b]);
        assert(xz@ =~= seq![0xfdu8, 0x37, 0x7a, 0x58, 0x5a, 0]);
        assert(zstd@ =~= seq![0x28u8, 0xb5, 0x2f, 0xfd]);
        assert(bzip2@ =~= seq![0x42u8, 0x5a, 0x68]);
        assert(lz4@ =~= seq![0x04u8, 0x22, 0x4d, 0x18]);
        assert(lzma@ =~= seq![0x5du8, 0, 0]);
        if begins_with(bytes, gzip.as_slice()) {
            Some(Codec::Gzip)
        } else if begins_with(bytes, xz.as_slice()) {
            Some(Codec::Xz)
        } else if begins_with(bytes, zstd.as_slice()) {
            Some(Codec::Zstd)
        } else if begins_with(bytes, bzip2.as_slice()) {
            Some(Codec::Bzip2)
        } else if begins_with(bytes, lz4.as_slice()) {
            Some(Codec::Lz4Frame)
        } else if begins_with(bytes, lzma.as_slice()) {
            Some(Codec::Lzma)
        } else {
            None
        }
    }

    /// What a codec is called.
    pub open spec fn label(self) -> Seq<char> {
        match self {
            Codec::Stored => "none"@,
            Codec::Gzip => "gzip"@,
            Codec::Zlib => "zlib"@,
            Codec::Xz => "xz"@,
            Codec::Lzma => "lzma"@,
            Codec::Zstd => "zstd"@,
            Codec::Bzip2 => "bzip2"@,
            Codec::Lz4Frame | Codec::Lz4Block => "lz4"@,
            Codec::Lzo => "lzo"@,
        }
    }

    /// The compressor's name.
    pub fn name(self) -> (r: &'static str)
        ensures
            r@ == self.label(),
    {
        match self {
            Codec::Stored => "none",
            Codec::Gzip => "gzip",
            Codec::Zlib => "zlib",
            Codec::Xz => "xz",
            Codec::Lzma => "lzma",
            Codec::Zstd => "zstd",
            Codec::Bzip2 => "bzip2",
            Codec::Lz4Frame | Codec::Lz4Block => "lz4",
            Codec::Lzo => "lzo",
        }
    }
}

/// The view of an expanded stream.
pub open spec fn expanded(r: Result<Vec<u8>, String>) -> Result<Seq<u8>, Seq<char>> {
    match r {
        Ok(v) => Ok(v@),
        Err(e) => Err(e@),
    }
}

/// What `flate2::read::MultiGzDecoder` makes of a stream: its bytes, or its error's message.
pub uninterp spec fn gunzip(input: Seq<u8>) -> Result<Seq<u8>, Seq<char>>;

/// What `flate2::read::ZlibDecoder` makes of a stream.
pub uninterp spec fn inflate(input: Seq<u8>) -> Result<Seq<u8>, Seq<char>>;

/// What `lzma_rs::xz_decompress` makes of a stream.
pub uninterp spec fn unxz(input: Seq<u8>) -> Result<Seq<u8>, Seq<char>>;

/// What `lzma_rs::lzma_decompress` makes of a stream.
pub uninterp spec fn unlzma(input: Seq<u8>) -> Result<Seq<u8>, Seq<char>>;

/// What `ruzstd::decoding::StreamingDecoder` makes of a stream. The outer error is
/// that of an unreadable frame header, the inner one that of an unreadable body.
pub uninterp spec fn unzstd(input: Seq<u8>) -> Result<Result<Seq<u8>, Seq<char>>, Seq<char>>;

/// What `bzip2_rs::DecoderReader` makes of a stream.
pub uninterp spec fn bunzip2(input: Seq<u8>) -> Result<Seq<u8>, Seq<char>>;

/// What `lz4_flex::frame::FrameDecoder` makes of a stream.
pub uninterp spec fn unlz4_frame(input: Seq<u8>) -> Result<Seq<u8>, Seq<char>>;

/// What `lz4_flex::block::decompress` makes of a block of the given output size.
pub uninterp spec fn unlz4_block(input: Seq<u8>, size: nat) -> Result<Seq<u8>, Seq<char>>;

/// Reads a `flate2::read::MultiGzDecoder` over `input` to its end. Concatenated
/// members are read as one stream; the outcome depends on `input` alone.
#[verifier::external_body]
fn gunzip_all(input: &[u8]) -> (r: Result<Vec<u8>, String>)
    ensures
        expanded(r) == gunzip(input@),
{
    let mut out = Vec::new();
    match flate2::read::MultiGzDecoder::new(input).read_to_end(&mut out) {
        Ok(_) => Ok(out),
        Err(e) => Err(e.to_string()),
    }
}

/// Reads a `flate2::read::ZlibDecoder` over `input` to its end; the outcome
/// depends on `input` alone.
#[verifier::external_body]
fn inflate_all(input: &[u8]) -> (r: Result<Vec<u8>, String>)
    ensures
        expanded(r) == inflate(input@),
{
    let mut out = Vec::new();
    match flate2::read::ZlibDecoder::new(input).read_to_end(&mut out) {
        Ok(_) => Ok(out),
        Err(e) => Err(e.to_string()),
    }
}

/// `lzma_rs::xz_decompress` of the whole of `input`; the outcome depends on
/// `input` alone. A stream whose footer the decoder cannot add up is left out: it comes to
/// a footer only behind an index, on a multiple of four, that records the blocks before it.
#[verifier::external_body]
fn unxz_all(input: &[u8]) -> (r: Result<Vec<u8>, String>)
    requires
        is_steady(input@),
    ensures
        expanded(r) == unxz(input@),
{
    let mut out = Vec::new();
    match lzma_rs::xz_decompress(&mut std::io::Cursor::new(input), &mut out) {
        Ok(()) => Ok(out),
        Err(e) => Err(e.to_string()),
    }
}

/// `lzma_rs::lzma_decompress` of the whole of `input`; the outcome depends on
/// `input` alone.
#[verifier::external_body]
fn unlzma_all(input: &[u8]) -> (r: Result<Vec<u8>, String>)
    ensures
        expanded(r) == unlzma(input@),
{
    let mut out = Vec::new();
    match lzma_rs::lzma_decompress(&mut std::io::Cursor::new(input), &mut out) {
        Ok(()) => Ok(out),
        Err(e) => Err(e.to_string()),
    }
}

/// Opens a `ruzstd::decoding::StreamingDecoder` on `input` and reads it to its
/// end. The outer error is that of opening it, the inner one that of reading it;
/// both depend on `input` alone.
#[verifier::external_body]
fn unzstd_all(input: &[u8]) -> (r: Result<Result<Vec<u8>, String>, String>)
    ensures
        match r {
            Ok(body) => Ok::<Result<Seq<u8>, Seq<char>>, Seq<char>>(expanded(body)),
            Err(e) => Err::<Result<Seq<u8>, Seq<char>>, Seq<char>>(e@),
        } == unzstd(input@),
{
    let mut decoder = ruzstd::decoding::StreamingDecoder::new(input).map_err(|e| e.to_string())?;
    let mut out = Vec::new();
    Ok(
        match decoder.read_to_end(&mut out) {
            Ok(_) => Ok(out),
            Err(e) => Err(e.to_string()),
        },
    )
}

/// Reads a `bzip2_rs::DecoderReader` over `input` to its end; the outcome depends
/// on `input` alone.
#[verifier::external_body]
fn bunzip2_all(input: &[u8]) -> (r: Result<Vec<u8>, String>)
    ensures
        expanded(r) == bunzip2(input@),
{
    let mut out = Vec::new();
    match bzip2_rs::DecoderReader::new(input).read_to_end(&mut out) {
        Ok(_) => Ok(out),
        Err(e) => Err(e.to_string()),
    }
}

/// Reads a `lz4_flex::frame::FrameDecoder` over `input` to its end; the outcome
/// depends on `input` alone.
#[verifier::external_body]
fn unlz4_frame_all(input: &[u8]) -> (r: Result<Vec<u8>, String>)
    ensures
        expanded(r) == unlz4_frame(input@),
{
    let mut out = Vec::new();
    match lz4_flex::frame::FrameDecoder::new(input).read_to_end(&mut out) {
        Ok(_) => Ok(out),
        Err(e) => Err(e.to_string()),
    }
}

/// `lz4_flex::block::decompress` of one raw block into at most `size` bytes; the
/// outcome depends on `input` and `size` alone.
#[verifier::external_body]
fn unlz4_block_all(input: &[u8], size: usize) -> (r: Result<Vec<u8>, String>)
    ensures
        expanded(r) == unlz4_block(input@, size as nat),
{
    lz4_flex::block::decompress(input, size).map_err(|e| e.to_string())
}

/// What an `.xz` stream expands to.
pub open spec fn unxzed(input: Seq<u8>) -> Result<Seq<u8>, Seq<char>> {
    if is_steady(input) {
        unxz(input)
    } else {
        Err("invalid index size"@)
    }
}

fn unxz_of(input: &[u8]) -> (r: Result<Vec<u8>, String>)
    ensures
        expanded(r) == unxzed(input@),
{
    if is_steady_of(input) {
        unxz_all(input)
    } else {
        Err("invalid index size".to_owned())
    }
}

/// An outcome whose error names the compressor.
pub open spec fn named(
    r: Result<Seq<u8>, Seq<char>>,
    what: Seq<char>,
) -> Result<Seq<u8>, Fault> {
    match r {
        Ok(b) => Ok(b),
        Err(e) => Err(Fault::Decompress(what, e)),
    }
}

/// What `input` expands to under `codec`.
pub open spec fn decompressed(
    codec: Codec,
    input: Seq<u8>,
    expected: Option<nat>,
) -> Result<Seq<u8>, Fault> {
    match codec {
        Codec::Stored => Ok(input),
        Codec::Gzip => named(gunzip(input), "stream"@),
        Codec::Zlib => named(inflate(input), "stream"@),
        Codec::Xz => named(unxzed(input), "xz"@),
        Codec::Lzma => named(unlzma(input), "lzma"@),
        Codec::Zstd => match unzstd(input) {
            Ok(body) => named(body, "stream"@),
            Err(e) => Err(Fault::Decompress("zstd"@, e)),
        },
        Codec::Bzip2 => named(bunzip2(input), "stream"@),
        Codec::Lz4Frame => named(unlz4_frame(input), "stream"@),
        Codec::Lz4Block => match expected {
            Some(size) => named(unlz4_block(input, size), "lz4"@),
            None => Err(Fault::Decompress("lz4"@, "raw block with no declared output size"@)),
        },
        Codec::Lzo => Err(Fault::UnsupportedCompression("lzo"@)),
    }
}

/// The view of expanded bytes.
pub open spec fn bytes_view(r: Result<Vec<u8>, PkgError>) -> Result<Seq<u8>, Fault> {
    match r {
        Ok(v) => Ok(v@),
        Err(e) => Err(e@),
    }
}

fn name_error(r: Result<Vec<u8>, String>, what: &'static str) -> (out: Result<Vec<u8>, PkgError>)
    ensures
        bytes_view(out) == named(expanded(r), what@),
{
    match r {
        Ok(v) => Ok(v),
        Err(e) => Err(PkgError::Decompress(what, e)),
    }
}

/// Decompress `input` in full.
///
/// `expected` is the output size when the container knows it (squashfs blocks
/// do). For [`Codec::Lz4Block`] — a raw block with no framing — it is *required*,
/// since the format carries no length.
pub fn decompress(codec: Codec, input: &[u8], expected: Option<usize>) -> (r: Result<
    Vec<u8>,
    PkgError,
>)
    ensures
        bytes_view(r) == decompressed(
            codec,
            input@,
            match expected {
                Some(n) => Some(n as nat),
                None => None,
            },
        ),
{
    match codec {
        Codec::Stored => Ok(copy_of(input)),
        Codec::Gzip => name_error(gunzip_all(input), "stream"),
        Codec::Zlib => name_error(inflate_all(input), "stream"),
        Codec::Xz => name_error(unxz_of(input), "xz"),
        Codec::Lzma => name_error(unlzma_all(input), "lzma"),
        Codec::Zstd => match unzstd_all(input) {
            Ok(body) => name_error(body, "stream"),
            Err(e) => Err(PkgError::Decompress("zstd", e)),
        },
        Codec::Bzip2 => name_error(bunzip2_all(input), "stream"),
        Codec::Lz4Frame => name_error(unlz4_frame_all(input), "stream"),
        Codec::Lz4Block => match expected {
            Some(size) => name_error(unlz4_block_all(input, size), "lz4"),
            None => Err(
                PkgError::Decompress("lz4", "raw block with no declared output size".to_owned()),
            ),
        },
        Codec::Lzo => Err(PkgError::UnsupportedCompression("lzo")),
    }
}

} // verus!
