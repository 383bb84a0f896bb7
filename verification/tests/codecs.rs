//! Compressed streams, package recognition, and whole packages of every compression.

use std::collections::BTreeMap;
use std::io::Write;

use achilles::pkg::decompress::{decompress, Codec};
use achilles::pkg::squashfs;
use achilles::pkg::{sniff, unpack, unpack_with_limit, Collector, Entry, Format, PkgError};

fn gzip(data: &[u8]) -> Vec<u8> {
    let mut e = flate2::write::GzEncoder::new(Vec::new(), flate2::Compression::default());
    e.write_all(data).unwrap();
    e.finish().unwrap()
}

fn zlib(data: &[u8]) -> Vec<u8> {
    let mut e = flate2::write::ZlibEncoder::new(Vec::new(), flate2::Compression::default());
    e.write_all(data).unwrap();
    e.finish().unwrap()
}

fn xz(data: &[u8]) -> Vec<u8> {
    let mut out = Vec::new();
    lzma_rs::xz_compress(&mut std::io::Cursor::new(data), &mut out).unwrap();
    out
}

fn lzma(data: &[u8]) -> Vec<u8> {
    let mut out = Vec::new();
    lzma_rs::lzma_compress(&mut std::io::Cursor::new(data), &mut out).unwrap();
    out
}

fn zstd(data: &[u8]) -> Vec<u8> {
    ruzstd::encoding::compress_to_vec(data, ruzstd::encoding::CompressionLevel::Fastest)
}

fn lz4_frame(data: &[u8]) -> Vec<u8> {
    let mut e = lz4_flex::frame::FrameEncoder::new(Vec::new());
    e.write_all(data).unwrap();
    e.finish().unwrap()
}

fn lz4_block(data: &[u8]) -> Vec<u8> {
    lz4_flex::block::compress(data)
}

/// `hello`, compressed by bzip2.
const HELLO_BZ2: [u8; 41] = [
    0x42, 0x5a, 0x68, 0x39, 0x31, 0x41, 0x59, 0x26, 0x53, 0x59, 0x19, 0x31, 0x65, 0x3d, 0x00, 0x00,
    0x00, 0x81, 0x00, 0x02, 0x44, 0xa0, 0x00, 0x21, 0x9a, 0x68, 0x33, 0x4d, 0x07, 0x33, 0x8b, 0xb9,
    0x22, 0x9c, 0x28, 0x48, 0x0c, 0x98, 0xb2, 0x9e, 0x80,
];

#[test]
fn every_codec_gives_back_what_went_in() {
    let body = b"hello hello hello hello".to_vec();
    for (codec, stream) in [
        (Codec::Stored, body.clone()),
        (Codec::Gzip, gzip(&body)),
        (Codec::Zlib, zlib(&body)),
        (Codec::Xz, xz(&body)),
        (Codec::Lzma, lzma(&body)),
        (Codec::Zstd, zstd(&body)),
        (Codec::Lz4Frame, lz4_frame(&body)),
    ] {
        assert_eq!(decompress(codec, &stream, None).unwrap(), body, "{codec:?}");
    }
    assert_eq!(
        decompress(Codec::Lz4Block, &lz4_block(&body), Some(body.len())).unwrap(),
        body
    );
    assert_eq!(
        decompress(Codec::Bzip2, &HELLO_BZ2, None).unwrap(),
        b"hello".to_vec()
    );
}

#[test]
fn broken_streams_name_their_codec() {
    assert!(matches!(
        decompress(Codec::Gzip, b"nope", None),
        Err(PkgError::Decompress("stream", _))
    ));
    assert!(matches!(
        decompress(Codec::Xz, b"nope", None),
        Err(PkgError::Decompress("xz", _))
    ));
    assert!(matches!(
        decompress(Codec::Zstd, b"nope", None),
        Err(PkgError::Decompress("zstd", _))
    ));
    let e = decompress(Codec::Lz4Block, b"x", None).unwrap_err();
    assert_eq!(
        e.message().unwrap(),
        "lz4 decompression failed: raw block with no declared output size"
    );
    let e = decompress(Codec::Lzo, b"x", None).unwrap_err();
    assert_eq!(
        e.message().unwrap(),
        "lzo-compressed payloads are not supported"
    );
}

#[test]
fn an_xz_footer_that_cannot_be_added_up_is_refused() {
    let mut stream = xz(b"hello");
    assert_eq!(decompress(Codec::Xz, &stream, None).unwrap(), b"hello".to_vec());
    let n = stream.len();
    stream[n - 8..n - 4].copy_from_slice(&[0xff; 4]);
    // What follows the stream does not hide it.
    stream.extend_from_slice(b"trailing");
    assert_eq!(
        decompress(Codec::Xz, &stream, None)
            .unwrap_err()
            .message()
            .unwrap(),
        "xz decompression failed: invalid index size"
    );
    // The same four bytes elsewhere are data.
    let data = [[0u8; 4], [0xff; 4]].concat().repeat(64);
    assert_eq!(decompress(Codec::Xz, &xz(&data), None).unwrap(), data);
}

#[test]
fn data_that_resembles_an_index_is_no_index_without_its_checksum() {
    let probe = b"an index starts here";
    let stream = xz(probe);
    let start = stream.windows(probe.len()).position(|w| w == probe).unwrap();
    let fill = (4 - start % 4) % 4;
    let at = start + fill;
    let mut data = vec![7u8; fill];
    data.extend_from_slice(&[0, 1, (at - 12) as u8, 5]);
    data.extend_from_slice(&[0; 8]);
    data.extend_from_slice(&[0xff; 4]);
    data.extend_from_slice(&[7; 40]);
    let stream = xz(&data);
    assert_eq!(stream[at..at + 4], [0, 1, (at - 12) as u8, 5]);
    assert_eq!(decompress(Codec::Xz, &stream, None).unwrap(), data);
}

#[test]
fn codecs_are_told_by_their_magic() {
    assert_eq!(Codec::sniff(&gzip(b"x")), Some(Codec::Gzip));
    assert_eq!(Codec::sniff(&xz(b"x")), Some(Codec::Xz));
    assert_eq!(Codec::sniff(&zstd(b"x")), Some(Codec::Zstd));
    assert_eq!(Codec::sniff(&HELLO_BZ2), Some(Codec::Bzip2));
    assert_eq!(Codec::sniff(&lz4_frame(b"x")), Some(Codec::Lz4Frame));
    assert_eq!(Codec::sniff(b"plain"), None);
    assert_eq!(Codec::Lz4Block.name(), "lz4");
}

/// A deterministic blob that does not compress.
fn noisy_blob(len: usize) -> Vec<u8> {
    let mut state: u64 = 0x2545_F491_4F6C_DD1D;
    (0..len)
        .map(|_| {
            state ^= state << 13;
            state ^= state >> 7;
            state ^= state << 17;
            (state >> 24) as u8
        })
        .collect()
}

fn source_tree() -> BTreeMap<String, Vec<u8>> {
    let mut files = BTreeMap::new();
    files.insert("bin/app".to_string(), noisy_blob(400 * 1024));
    files.insert(
        "bin/tiny.txt".to_string(),
        b"small enough to be a fragment\n".to_vec(),
    );
    files.insert(
        "share/nested/deep/resources.json".to_string(),
        br#"{"name":"fixture"}"#.to_vec(),
    );
    files
}

fn member(name: &str, typeflag: u8, link: &str, body: &[u8]) -> Vec<u8> {
    let mut out = vec![0u8; 512];
    out[..name.len()].copy_from_slice(name.as_bytes());
    out[100..108].copy_from_slice(b"0000755\0");
    out[124..136].copy_from_slice(format!("{:011o}\0", body.len()).as_bytes());
    out[156] = typeflag;
    out[157..157 + link.len()].copy_from_slice(link.as_bytes());
    out[257..263].copy_from_slice(b"ustar\0");
    out.extend_from_slice(body);
    out.extend(std::iter::repeat(0).take((512 - body.len() % 512) % 512));
    out
}

fn tarball() -> Vec<u8> {
    let mut out = Vec::new();
    for (name, body) in source_tree() {
        out.extend(member(&format!("./{name}"), b'0', "", &body));
    }
    out.extend(member("./bin/launch", b'2', "app", b""));
    out.extend(vec![0u8; 1024]);
    out
}

/// An unpacked payload as `relative path -> contents`, alongside the symlinks found.
fn collect(bytes: &[u8], format: Format) -> (BTreeMap<String, Vec<u8>>, BTreeMap<String, String>) {
    let mut sink = Collector::default();
    let summary = unpack(bytes, format, "/scan", &mut sink).expect("unpack");
    assert_eq!(summary.warnings, Vec::<String>::new(), "unpack warnings");
    let mut files = BTreeMap::new();
    let mut links = BTreeMap::new();
    for entry in sink.entries {
        let rel = entry.path().trim_start_matches("/scan/").to_string();
        match entry {
            Entry::File { data, .. } => {
                files.insert(rel, data);
            }
            Entry::Symlink { target, .. } => {
                links.insert(rel, target);
            }
            Entry::Dir(_) => {}
        }
    }
    (files, links)
}

#[test]
fn a_compressed_tarball_round_trips() {
    for (ext, bytes) in [
        ("tar", tarball()),
        ("tar.gz", gzip(&tarball())),
        ("tar.xz", xz(&tarball())),
        ("tar.zst", zstd(&tarball())),
        ("tar.lz4", lz4_frame(&tarball())),
    ] {
        assert_eq!(
            sniff(&bytes, &format!("app.{ext}")),
            Some(Format::Tarball),
            "{ext}: not sniffed as a tarball"
        );
        let (files, links) = collect(&bytes, Format::Tarball);
        assert_eq!(files, source_tree(), "{ext}: file contents differ");
        assert_eq!(links.get("bin/launch").map(String::as_str), Some("app"));
    }
}

fn ar(members: &[(&str, &[u8])]) -> Vec<u8> {
    let mut out = b"!<arch>\n".to_vec();
    for (name, body) in members {
        let mut header = vec![b' '; 60];
        header[..name.len()].copy_from_slice(name.as_bytes());
        let size = format!("{}", body.len());
        header[48..48 + size.len()].copy_from_slice(size.as_bytes());
        header[58..60].copy_from_slice(b"`\n");
        out.extend_from_slice(&header);
        out.extend_from_slice(body);
        if body.len() % 2 == 1 {
            out.push(b'\n');
        }
    }
    out
}

#[test]
fn a_deb_round_trips_in_every_compression() {
    for (ext, data) in [
        ("gz", gzip(&tarball())),
        ("xz", xz(&tarball())),
        ("zst", zstd(&tarball())),
    ] {
        let name = format!("data.tar.{ext}");
        let deb = ar(&[("debian-binary", b"2.0\n"), (name.as_str(), &data)]);
        assert_eq!(sniff(&deb, "fixture.deb"), Some(Format::Deb));
        let (files, links) = collect(&deb, Format::Deb);
        assert_eq!(files, source_tree(), "{ext}: file contents differ");
        assert_eq!(links.get("bin/launch").map(String::as_str), Some("app"));
    }
}

const BLOCK: usize = 128 * 1024;

/// A place of the tree that an image is made of.
enum Place<'a> {
    File(Vec<u8>),
    Link(&'a str),
    Dir(Vec<(&'a str, Place<'a>)>),
}

/// The tree that every image holds: a file of several blocks, two that fit a fragment, a
/// nested directory and a link.
fn places<'a>() -> Place<'a> {
    let mut files = source_tree();
    let mut take = |name: &str| Place::File(files.remove(name).unwrap());
    Place::Dir(vec![
        (
            "bin",
            Place::Dir(vec![
                ("app", take("bin/app")),
                ("launch", Place::Link("app")),
                ("tiny.txt", take("bin/tiny.txt")),
            ]),
        ),
        (
            "share",
            Place::Dir(vec![(
                "nested",
                Place::Dir(vec![(
                    "deep",
                    Place::Dir(vec![("resources.json", take("share/nested/deep/resources.json"))]),
                )]),
            )]),
        ),
    ])
}

/// A squashfs image in the making; its blocks are compressed by `pack` where that makes
/// them smaller.
struct Image<'a> {
    pack: &'a dyn Fn(&[u8]) -> Vec<u8>,
    bytes: Vec<u8>,
    fragment: Vec<u8>,
    inodes: Vec<u8>,
    listings: Vec<u8>,
}

impl Image<'_> {
    /// Adds a data block, and gives the size that is recorded for it.
    fn block(&mut self, data: &[u8]) -> u32 {
        let packed = (self.pack)(data);
        if packed.len() < data.len() {
            self.bytes.extend_from_slice(&packed);
            packed.len() as u32
        } else {
            self.bytes.extend_from_slice(data);
            data.len() as u32 | squashfs::DATA_UNCOMPRESSED
        }
    }

    fn inode(&mut self, kind: u16, mode: u16) -> u16 {
        let at = self.inodes.len() as u16;
        self.inodes.extend_from_slice(&kind.to_le_bytes());
        self.inodes.extend_from_slice(&mode.to_le_bytes());
        self.inodes.extend_from_slice(&[0u8; 12]);
        at
    }

    fn words(&mut self, words: &[u32]) {
        for w in words {
            self.inodes.extend_from_slice(&w.to_le_bytes());
        }
    }

    /// Adds a place, and gives where its inode is and which kind it is of.
    fn add(&mut self, place: &Place) -> (u16, u16) {
        match place {
            Place::File(data) => {
                let start = self.bytes.len() as u32;
                let whole = data.len() / BLOCK * BLOCK;
                let sizes: Vec<u32> =
                    data[..whole].chunks(BLOCK).map(|c| self.block(c)).collect();
                let at = self.inode(squashfs::INODE_FILE, 0o755);
                let tail = self.fragment.len() as u32;
                self.fragment.extend_from_slice(&data[whole..]);
                self.words(&[start, 0, tail, data.len() as u32]);
                self.words(&sizes);
                (at, squashfs::INODE_FILE)
            }
            Place::Link(target) => {
                let at = self.inode(squashfs::INODE_SYMLINK, 0o777);
                self.words(&[1, target.len() as u32]);
                self.inodes.extend_from_slice(target.as_bytes());
                (at, squashfs::INODE_SYMLINK)
            }
            Place::Dir(children) => {
                let inodes: Vec<(u16, u16)> = children.iter().map(|(_, p)| self.add(p)).collect();
                let mut listing = (children.len() as u32 - 1).to_le_bytes().to_vec();
                listing.extend_from_slice(&[0u8; 8]);
                for ((name, _), (at, kind)) in children.iter().zip(inodes) {
                    listing.extend_from_slice(&at.to_le_bytes());
                    listing.extend_from_slice(&0u16.to_le_bytes());
                    listing.extend_from_slice(&kind.to_le_bytes());
                    listing.extend_from_slice(&(name.len() as u16 - 1).to_le_bytes());
                    listing.extend_from_slice(name.as_bytes());
                }
                let at = self.inode(squashfs::INODE_DIR, 0o755);
                self.words(&[0, 2]);
                let (size, from) = (listing.len() as u16 + 3, self.listings.len() as u16);
                self.inodes.extend_from_slice(&size.to_le_bytes());
                self.inodes.extend_from_slice(&from.to_le_bytes());
                self.words(&[0]);
                self.listings.extend_from_slice(&listing);
                (at, squashfs::INODE_DIR)
            }
        }
    }
}

fn squashfs_image(id: u16, pack: &dyn Fn(&[u8]) -> Vec<u8>) -> Vec<u8> {
    let mut x = Image {
        pack,
        bytes: vec![0u8; 96],
        fragment: Vec::new(),
        inodes: Vec::new(),
        listings: Vec::new(),
    };
    let (root, _) = x.add(&places());
    let fragment_at = x.bytes.len() as u64;
    let fragment = x.fragment.clone();
    let fragment_size = x.block(&fragment);
    let mut image = x.bytes;

    let inode_table = image.len() as u64;
    push_meta(&mut image, &x.inodes, pack);
    let directory_table = image.len() as u64;
    push_meta(&mut image, &x.listings, pack);
    let fragment_block = image.len() as u64;
    let mut entry = fragment_at.to_le_bytes().to_vec();
    entry.extend_from_slice(&fragment_size.to_le_bytes());
    entry.extend_from_slice(&0u32.to_le_bytes());
    push_meta(&mut image, &entry, pack);
    let fragment_table = image.len() as u64;
    image.extend_from_slice(&fragment_block.to_le_bytes());
    let end = image.len() as u64;

    let sb = &mut image[..96];
    sb[0..4].copy_from_slice(b"hsqs");
    sb[4..8].copy_from_slice(&9u32.to_le_bytes());
    sb[12..16].copy_from_slice(&(BLOCK as u32).to_le_bytes());
    sb[16..20].copy_from_slice(&1u32.to_le_bytes());
    sb[20..22].copy_from_slice(&id.to_le_bytes());
    sb[22..24].copy_from_slice(&17u16.to_le_bytes());
    sb[28..30].copy_from_slice(&4u16.to_le_bytes());
    sb[32..40].copy_from_slice(&(root as u64).to_le_bytes());
    sb[40..48].copy_from_slice(&end.to_le_bytes());
    sb[48..56].copy_from_slice(&end.to_le_bytes());
    sb[56..64].copy_from_slice(&u64::MAX.to_le_bytes());
    sb[64..72].copy_from_slice(&inode_table.to_le_bytes());
    sb[72..80].copy_from_slice(&directory_table.to_le_bytes());
    sb[80..88].copy_from_slice(&fragment_table.to_le_bytes());
    sb[88..96].copy_from_slice(&u64::MAX.to_le_bytes());
    image
}

/// A metadata block, compressed where that makes it smaller.
fn push_meta(image: &mut Vec<u8>, block: &[u8], pack: &dyn Fn(&[u8]) -> Vec<u8>) {
    let packed = pack(block);
    if packed.len() < block.len() {
        image.extend_from_slice(&(packed.len() as u16).to_le_bytes());
        image.extend_from_slice(&packed);
    } else {
        image.extend_from_slice(&(block.len() as u16 | squashfs::META_UNCOMPRESSED).to_le_bytes());
        image.extend_from_slice(block);
    }
}

#[test]
fn squashfs_images_round_trip_in_every_compression() {
    let packers: [(u16, &dyn Fn(&[u8]) -> Vec<u8>); 4] =
        [(1, &zlib), (4, &xz), (5, &lz4_block), (6, &zstd)];
    for (id, pack) in packers {
        let image = squashfs_image(id, pack);
        assert_eq!(sniff(&image, "app.snap"), Some(Format::Snap));
        let (files, links) = collect(&image, Format::Snap);
        assert_eq!(files, source_tree(), "compression {id}");
        assert_eq!(links.get("bin/launch").map(String::as_str), Some("app"));
    }
}

#[test]
fn an_appimage_shaped_file_finds_its_appended_filesystem() {
    let mut appimage = vec![0u8; 8192];
    appimage[..4].copy_from_slice(b"\x7fELF");
    appimage[4] = 2;
    appimage[5] = 1;
    appimage[8..11].copy_from_slice(&[0x41, 0x49, 0x02]);
    appimage[0x28..0x30].copy_from_slice(&(8192u64 - 128).to_le_bytes());
    appimage[0x3A..0x3C].copy_from_slice(&64u16.to_le_bytes());
    appimage[0x3C..0x3E].copy_from_slice(&2u16.to_le_bytes());
    appimage.extend(squashfs_image(1, &zlib));
    assert_eq!(
        sniff(&appimage, "Fixture-1.0-x86_64.AppImage"),
        Some(Format::AppImage)
    );
    let (files, links) = collect(&appimage, Format::AppImage);
    assert_eq!(files, source_tree());
    assert_eq!(links.get("bin/launch").map(String::as_str), Some("app"));
}

#[test]
fn an_rpm_unpacks_its_cpio_payload() {
    let mut archive = Vec::new();
    for (name, body) in [("./usr/bin/app", b"BODY".as_slice()), ("TRAILER!!!", b"")] {
        let mut out = b"070701".to_vec();
        let mode: u32 = if body.is_empty() { 0 } else { 0o100755 };
        let fields = [1, mode, 0, 0, 1, 0, body.len() as u32, 0, 0, 0, 0, name.len() as u32 + 1, 0];
        for f in fields {
            out.extend_from_slice(format!("{f:08X}").as_bytes());
        }
        out.extend_from_slice(name.as_bytes());
        out.push(0);
        while out.len() % 4 != 0 {
            out.push(0);
        }
        out.extend_from_slice(body);
        while out.len() % 4 != 0 {
            out.push(0);
        }
        archive.extend(out);
    }
    let header = |tags: &[(u32, &str)]| {
        let mut index = Vec::new();
        let mut store = Vec::new();
        for (tag, value) in tags {
            index.extend_from_slice(&tag.to_be_bytes());
            index.extend_from_slice(&6u32.to_be_bytes());
            index.extend_from_slice(&(store.len() as u32).to_be_bytes());
            index.extend_from_slice(&1u32.to_be_bytes());
            store.extend_from_slice(value.as_bytes());
            store.push(0);
        }
        let mut out = vec![0x8e, 0xad, 0xe8, 0x01, 0, 0, 0, 0];
        out.extend_from_slice(&(tags.len() as u32).to_be_bytes());
        out.extend_from_slice(&(store.len() as u32).to_be_bytes());
        out.extend(index);
        out.extend(store);
        out
    };
    let mut rpm = vec![0xed, 0xab, 0xee, 0xdb];
    rpm.resize(96, 0);
    rpm.extend(header(&[(1000, "sig")]));
    while rpm.len() % 8 != 0 {
        rpm.push(0);
    }
    rpm.extend(header(&[(1124, "cpio"), (1125, "gzip")]));
    rpm.extend(gzip(&archive));
    assert_eq!(sniff(&rpm, "app.rpm"), Some(Format::Rpm));
    let (files, _) = collect(&rpm, Format::Rpm);
    assert_eq!(files.get("usr/bin/app"), Some(&b"BODY".to_vec()));
}

#[test]
fn nothing_past_the_limit_is_written() {
    let mut sink = Collector::default();
    let r = unpack_with_limit(&tarball(), Format::Tarball, "/scan", &mut sink, 0x10);
    assert!(matches!(r, Err(PkgError::TooLarge(0x10))));
    let size: usize = sink
        .entries
        .iter()
        .map(|e| match e {
            Entry::File { data, .. } => data.len(),
            _ => 0,
        })
        .sum();
    assert!(size <= 0x10);
    let gib = PkgError::TooLarge(0x8000_0000);
    assert_eq!(
        gib.message().unwrap(),
        "the payload expands past the 2 GiB limit for this scan"
    );
    assert_eq!(PkgError::TooLarge(5).message(), None);
    assert_eq!(
        PkgError::Io("disk full".into()).message().unwrap(),
        "writing the unpacked payload failed: disk full"
    );
    assert_eq!(
        PkgError::Unrecognised.message().unwrap(),
        "not a package format we recognise"
    );
}

#[test]
fn formats_are_told_apart() {
    assert_eq!(sniff(b"just some text", "notes.txt"), None);
    assert_eq!(Format::Deb.as_str(), ".deb");
    assert_eq!(Format::AppImage.as_str(), "AppImage");
}
