//! Container readers: appimage, ar, cpio, rpm, squashfs and tar.

use achilles::path::join_safe;
use achilles::pkg::appimage;
use achilles::pkg::ar;
use achilles::pkg::cpio;
use achilles::pkg::decompress::Codec;
use achilles::pkg::rpm;
use achilles::pkg::squashfs;
use achilles::pkg::squashfs::Squashfs;
use achilles::pkg::tar;
use achilles::pkg::{
    link_target, unpack, Collector, Entry, Format, PkgError, Sink, Unpacked, MAX_PAYLOAD_BYTES,
};

// ---- appimage ----------------------------------------------------------

/// A 64-bit ELF header whose section table ends at `end`, followed by
/// `payload` at that offset.
fn stub(type_marker: Option<u8>, end: usize, payload: &[u8]) -> Vec<u8> {
    let mut out = vec![0u8; end];
    out[..4].copy_from_slice(b"\x7fELF");
    out[4] = 2; // 64-bit
    out[5] = 1; // little-endian
    if let Some(version) = type_marker {
        out[8..11].copy_from_slice(&[0x41, 0x49, version]);
    }
    // Section header table: 2 entries of 64 bytes ending exactly at `end`.
    let shoff = (end - 128) as u64;
    out[0x28..0x30].copy_from_slice(&shoff.to_le_bytes());
    out[0x3A..0x3C].copy_from_slice(&64u16.to_le_bytes());
    out[0x3C..0x3E].copy_from_slice(&2u16.to_le_bytes());
    out.extend_from_slice(payload);
    out
}

/// Just enough of a superblock for the scan to accept it.
fn superblock() -> Vec<u8> {
    let mut sb = vec![0u8; 96];
    sb[..4].copy_from_slice(b"hsqs");
    sb[28..30].copy_from_slice(&4u16.to_le_bytes());
    sb
}

#[test]
fn payload_starts_where_the_elf_ends() {
    let image = stub(Some(2), 4096, &superblock());
    assert!(appimage::is_appimage(&image, "foo.appimage"));
    assert_eq!(appimage::payload(&image).unwrap(), &superblock()[..]);
}

#[test]
fn an_unmarked_runtime_is_recognised_by_its_extension() {
    let image = stub(None, 4096, &superblock());
    assert!(appimage::is_appimage(&image, "foo-1.2.3-x86_64.appimage"));
    assert!(!appimage::is_appimage(&image, "foo"));
}

#[test]
fn a_payload_past_the_header_tables_is_still_found() {
    // Header tables that stop short: the scan has to find the image.
    let mut image = stub(Some(2), 4096, &vec![0u8; 8192]);
    let at = image.len();
    image.extend_from_slice(&superblock());
    assert_eq!(appimage::payload(&image).unwrap().len(), image.len() - at);
}

#[test]
fn type_1_appimages_are_named_rather_than_misread() {
    let image = stub(Some(1), 4096, &superblock());
    let err = appimage::payload(&image).unwrap_err();
    assert!(err.message().unwrap().contains("type-1"));
}

#[test]
fn a_runtime_with_no_image_behind_it_is_malformed() {
    let image = stub(Some(2), 4096, &[0u8; 64]);
    assert!(matches!(
        appimage::payload(&image),
        Err(PkgError::Malformed("AppImage", _))
    ));
}

#[test]
fn a_32_bit_runtime_is_measured_by_its_own_fields() {
    let mut image = vec![0u8; 4096];
    image[..4].copy_from_slice(b"\x7fELF");
    image[4] = 1; // 32-bit
    image[5] = 1;
    image[8..11].copy_from_slice(&[0x41, 0x49, 2]);
    image[0x20..0x24].copy_from_slice(&(4096u32 - 80).to_le_bytes());
    image[0x2E..0x30].copy_from_slice(&40u16.to_le_bytes());
    image[0x30..0x32].copy_from_slice(&2u16.to_le_bytes());
    image.extend_from_slice(&superblock());
    assert_eq!(appimage::payload(&image).unwrap(), &superblock()[..]);
}

// ---- ar ----------------------------------------------------------------

/// Build a minimal ar archive from `(name, body)` pairs.
fn build_ar(members: &[(&str, &[u8])]) -> Vec<u8> {
    let mut out = b"!<arch>\n".to_vec();
    for (name, body) in members {
        let mut header = vec![b' '; 60];
        header[..name.len()].copy_from_slice(name.as_bytes());
        let size = format!("{}", body.len());
        header[48..48 + size.len()].copy_from_slice(size.as_bytes());
        header[58..60].copy_from_slice(b"`\n");
        out.extend_from_slice(&header);
        out.extend_from_slice(body);
        if body.len() % 2 == 1 {
            out.push(b'\n');
        }
    }
    out
}

#[test]
fn finds_the_data_member_after_odd_sized_ones() {
    // `debian-binary` is 4 bytes ("2.0\n") — even; make control odd so the
    // padding byte has to be accounted for to find `data.tar`.
    let deb = build_ar(&[
        ("debian-binary", b"2.0\n"),
        ("control.tar.gz", b"odd"),
        ("data.tar.xz", b"\xfd7zXZ\x00payload"),
    ]);
    assert!(ar::is_ar(&deb) && ar::looks_like_deb(&deb));
    let (data, codec) = ar::data_member(&deb).unwrap();
    assert_eq!(data, b"\xfd7zXZ\x00payload");
    assert_eq!(codec, Codec::Xz);
}

#[test]
fn a_static_library_is_not_a_deb() {
    let lib = build_ar(&[("foo.o", b"\x7fELF")]);
    assert!(ar::is_ar(&lib) && !ar::looks_like_deb(&lib));
}

#[test]
fn compression_is_taken_from_the_name_when_the_stream_is_opaque() {
    let deb = build_ar(&[("debian-binary", b"2.0\n"), ("data.tar.zst", b"not-zstd")]);
    let (_, codec) = ar::data_member(&deb).unwrap();
    assert_eq!(codec, Codec::Zstd);
}

#[test]
fn a_deb_without_a_data_member_is_malformed() {
    let deb = build_ar(&[("debian-binary", b"2.0\n"), ("control.tar.gz", b"odd")]);
    assert!(matches!(
        ar::data_member(&deb),
        Err(PkgError::Malformed("deb", _))
    ));
}

// ---- cpio --------------------------------------------------------------

fn cpio_entry(name: &str, mode: u32, ino: u32, nlink: u32, body: &[u8]) -> Vec<u8> {
    let mut out = b"070701".to_vec();
    let fields = [
        ino,
        mode,
        0,
        0,
        nlink,
        0,
        body.len() as u32,
        0,
        0,
        0,
        0,
        name.len() as u32 + 1,
        0,
    ];
    for f in fields {
        out.extend_from_slice(format!("{f:08X}").as_bytes());
    }
    out.extend_from_slice(name.as_bytes());
    out.push(0);
    while out.len() % 4 != 0 {
        out.push(0);
    }
    out.extend_from_slice(body);
    while out.len() % 4 != 0 {
        out.push(0);
    }
    out
}

fn run_cpio(archive: &[u8]) -> (Collector, Unpacked) {
    let mut sink = Collector::default();
    let mut out = Unpacked::new(Format::Rpm, "/scan", MAX_PAYLOAD_BYTES);
    cpio::unpack(archive, "/scan", &mut sink, &mut out).unwrap();
    (sink, out)
}

#[test]
fn reads_dirs_files_and_symlinks() {
    let mut archive = cpio_entry("./usr/bin", cpio::S_IFDIR | 0o755, 1, 1, b"");
    archive.extend(cpio_entry("./usr/bin/app", cpio::S_IFREG | 0o755, 2, 1, b"\x7fELF"));
    archive.extend(cpio_entry("./usr/bin/link", cpio::S_IFLNK | 0o777, 3, 1, b"app"));
    archive.extend(cpio_entry("TRAILER!!!", 0, 0, 1, b""));

    let (sink, out) = run_cpio(&archive);
    assert_eq!(out.files, 1);
    assert_eq!(sink.entries[0], Entry::Dir("/scan/usr/bin".into()));
    assert!(matches!(&sink.entries[1], Entry::File { path, mode, .. }
        if path == "/scan/usr/bin/app" && *mode == 0o755));
    assert_eq!(
        sink.entries[2],
        Entry::Symlink {
            path: "/scan/usr/bin/link".into(),
            target: "app".into()
        }
    );
}

#[test]
fn hard_links_resolve_to_the_member_that_carries_the_body() {
    // RPM's shape: the empty link comes first, the body last.
    let mut archive = cpio_entry("./usr/bin/alias", cpio::S_IFREG | 0o755, 7, 2, b"");
    archive.extend(cpio_entry("./usr/bin/real", cpio::S_IFREG | 0o755, 7, 2, b"BODY"));
    archive.extend(cpio_entry("TRAILER!!!", 0, 0, 1, b""));

    let (sink, out) = run_cpio(&archive);
    assert_eq!(out.files, 1);
    assert!(matches!(&sink.entries[0], Entry::File { path, data, .. }
        if path == "/scan/usr/bin/real" && data == b"BODY"));
    assert_eq!(
        sink.entries[1],
        Entry::Symlink {
            path: "/scan/usr/bin/alias".into(),
            target: "/scan/usr/bin/real".into()
        }
    );
}

#[test]
fn a_hard_link_whose_body_never_comes_is_written_empty() {
    let mut archive = cpio_entry("./usr/bin/orphan", cpio::S_IFREG | 0o644, 9, 2, b"");
    archive.extend(cpio_entry("TRAILER!!!", 0, 0, 1, b""));
    let (sink, out) = run_cpio(&archive);
    assert_eq!((out.files, out.bytes), (1, 0));
    assert_eq!(
        sink.entries,
        vec![Entry::File {
            path: "/scan/usr/bin/orphan".into(),
            data: vec![],
            mode: 0o644
        }]
    );
}

#[test]
fn bytes_that_are_no_cpio_are_malformed() {
    let mut sink = Collector::default();
    let mut out = Unpacked::new(Format::Rpm, "/scan", MAX_PAYLOAD_BYTES);
    let r = cpio::unpack(&[b'x'; 200], "/scan", &mut sink, &mut out);
    assert!(matches!(r, Err(PkgError::Malformed(_, _))));
    assert!(sink.entries.is_empty());
}

// ---- rpm ---------------------------------------------------------------

/// Build one header section holding `(tag, string)` entries.
fn rpm_header(entries: &[(u32, &str)]) -> Vec<u8> {
    let mut store = Vec::new();
    let mut index = Vec::new();
    for (tag, value) in entries {
        index.extend_from_slice(&tag.to_be_bytes());
        index.extend_from_slice(&6u32.to_be_bytes()); // RPM_STRING_TYPE
        index.extend_from_slice(&(store.len() as u32).to_be_bytes());
        index.extend_from_slice(&1u32.to_be_bytes());
        store.extend_from_slice(value.as_bytes());
        store.push(0);
    }
    let mut out = vec![0x8e, 0xad, 0xe8, 0x01];
    out.extend_from_slice(&[0; 4]); // reserved
    out.extend_from_slice(&(entries.len() as u32).to_be_bytes());
    out.extend_from_slice(&(store.len() as u32).to_be_bytes());
    out.extend_from_slice(&index);
    out.extend_from_slice(&store);
    out
}

/// Assemble lead + signature + main header + payload, exercising the
/// 8-byte alignment between the two headers.
fn build_rpm(main: &[(u32, &str)], payload: &[u8]) -> Vec<u8> {
    let mut out = vec![0xed, 0xab, 0xee, 0xdb];
    out.resize(96, 0);
    out.extend(rpm_header(&[(1000, "sig")])); // signature header
    while out.len() % 8 != 0 {
        out.push(0);
    }
    out.extend(rpm_header(main));
    out.extend_from_slice(payload);
    out
}

#[test]
fn reads_the_declared_compressor_past_the_padded_signature_header() {
    let bytes = build_rpm(
        &[
            (rpm::TAG_PAYLOADFORMAT, "cpio"),
            (rpm::TAG_PAYLOADCOMPRESSOR, "zstd"),
        ],
        b"payload-bytes",
    );
    assert!(rpm::is_rpm(&bytes));
    let (payload, codec) = rpm::payload(&bytes).unwrap();
    assert_eq!(payload, b"payload-bytes");
    assert_eq!(codec, Codec::Zstd);
}

#[test]
fn falls_back_to_sniffing_when_no_compressor_tag_is_present() {
    let bytes = build_rpm(&[(rpm::TAG_PAYLOADFORMAT, "cpio")], b"\xfd7zXZ\x00rest");
    let (_, codec) = rpm::payload(&bytes).unwrap();
    assert_eq!(codec, Codec::Xz);
}

#[test]
fn a_non_cpio_payload_is_reported_rather_than_misparsed() {
    let bytes = build_rpm(&[(rpm::TAG_PAYLOADFORMAT, "drpm")], b"delta");
    assert!(matches!(rpm::payload(&bytes), Err(PkgError::Unsupported(_))));
}

// ---- squashfs ----------------------------------------------------------

/// Build a minimal, fully-uncompressed squashfs image: a root directory
/// holding one regular file and one symlink to it. Uncompressed blocks are
/// a legal encoding (mksquashfs emits them for incompressible data), so
/// this exercises the real layout without depending on a compressor.
fn build_image() -> Vec<u8> {
    let body: &[u8] = b"\x7fELFhello";
    let mut image = vec![0u8; 96];

    // --- data blocks ---
    let data_at = image.len() as u32;
    image.extend_from_slice(body);

    // --- inode table: file, symlink, then the root directory ---
    let mut inodes = Vec::new();
    let file_off = inodes.len() as u16;
    inodes.extend_from_slice(&squashfs::INODE_FILE.to_le_bytes());
    inodes.extend_from_slice(&0o755u16.to_le_bytes());
    inodes.extend_from_slice(&[0u8; 12]); // uid, gid, mtime, inode number
    inodes.extend_from_slice(&data_at.to_le_bytes());
    inodes.extend_from_slice(&squashfs::NO_FRAGMENT.to_le_bytes());
    inodes.extend_from_slice(&0u32.to_le_bytes()); // fragment offset
    inodes.extend_from_slice(&(body.len() as u32).to_le_bytes());
    // One block, stored uncompressed.
    inodes.extend_from_slice(&(body.len() as u32 | squashfs::DATA_UNCOMPRESSED).to_le_bytes());

    let link_off = inodes.len() as u16;
    inodes.extend_from_slice(&squashfs::INODE_SYMLINK.to_le_bytes());
    inodes.extend_from_slice(&0o777u16.to_le_bytes());
    inodes.extend_from_slice(&[0u8; 12]);
    inodes.extend_from_slice(&1u32.to_le_bytes()); // nlink
    inodes.extend_from_slice(&3u32.to_le_bytes()); // target length
    inodes.extend_from_slice(b"app");

    // --- directory listing for the root ---
    let mut listing = Vec::new();
    listing.extend_from_slice(&1u32.to_le_bytes()); // count, less one
    listing.extend_from_slice(&0u32.to_le_bytes()); // inode block offset
    listing.extend_from_slice(&0u32.to_le_bytes()); // base inode number
    for (offset, kind, name) in [
        (file_off, squashfs::INODE_FILE, "app"),
        (link_off, squashfs::INODE_SYMLINK, "link"),
    ] {
        listing.extend_from_slice(&offset.to_le_bytes());
        listing.extend_from_slice(&0u16.to_le_bytes()); // inode number delta
        listing.extend_from_slice(&kind.to_le_bytes());
        listing.extend_from_slice(&(name.len() as u16 - 1).to_le_bytes());
        listing.extend_from_slice(name.as_bytes());
    }

    let root_off = inodes.len() as u16;
    inodes.extend_from_slice(&squashfs::INODE_DIR.to_le_bytes());
    inodes.extend_from_slice(&0o755u16.to_le_bytes());
    inodes.extend_from_slice(&[0u8; 12]);
    inodes.extend_from_slice(&0u32.to_le_bytes()); // listing block offset
    inodes.extend_from_slice(&2u32.to_le_bytes()); // nlink
    inodes.extend_from_slice(&(listing.len() as u16 + 3).to_le_bytes());
    inodes.extend_from_slice(&0u16.to_le_bytes()); // offset into the block
    inodes.extend_from_slice(&0u32.to_le_bytes()); // parent inode

    let inode_table = image.len() as u64;
    image.extend_from_slice(&(inodes.len() as u16 | squashfs::META_UNCOMPRESSED).to_le_bytes());
    image.extend_from_slice(&inodes);

    let directory_table = image.len() as u64;
    image.extend_from_slice(&(listing.len() as u16 | squashfs::META_UNCOMPRESSED).to_le_bytes());
    image.extend_from_slice(&listing);

    let id_table = image.len() as u64;
    let bytes_used = image.len() as u64;

    // --- superblock ---
    let sb = &mut image[..96];
    sb[0..4].copy_from_slice(b"hsqs");
    sb[4..8].copy_from_slice(&3u32.to_le_bytes()); // inode count
    sb[12..16].copy_from_slice(&4096u32.to_le_bytes()); // block size
    sb[16..20].copy_from_slice(&0u32.to_le_bytes()); // fragment count
    sb[20..22].copy_from_slice(&1u16.to_le_bytes()); // compression: gzip
    sb[22..24].copy_from_slice(&12u16.to_le_bytes()); // block log
    sb[28..30].copy_from_slice(&4u16.to_le_bytes()); // major
    sb[32..40].copy_from_slice(&(root_off as u64).to_le_bytes());
    sb[40..48].copy_from_slice(&bytes_used.to_le_bytes());
    sb[48..56].copy_from_slice(&id_table.to_le_bytes());
    sb[56..64].copy_from_slice(&u64::MAX.to_le_bytes()); // no xattrs
    sb[64..72].copy_from_slice(&inode_table.to_le_bytes());
    sb[72..80].copy_from_slice(&directory_table.to_le_bytes());
    sb[80..88].copy_from_slice(&u64::MAX.to_le_bytes()); // no fragments
    sb[88..96].copy_from_slice(&u64::MAX.to_le_bytes()); // no export table

    image
}

fn run_squashfs(image: &[u8]) -> (Collector, Unpacked) {
    let mut sink = Collector::default();
    let mut out = Unpacked::new(Format::Snap, "/scan", MAX_PAYLOAD_BYTES);
    squashfs::unpack(image, "/scan", &mut sink, &mut out).unwrap();
    (sink, out)
}

#[test]
fn reads_the_root_directory_its_file_and_its_symlink() {
    let image = build_image();
    assert!(squashfs::is_squashfs(&image));

    let (sink, out) = run_squashfs(&image);
    assert_eq!(out.files, 1);
    assert_eq!(out.warnings, Vec::<String>::new());
    assert_eq!(sink.entries[0], Entry::Dir("/scan".into()));
    assert!(matches!(&sink.entries[1], Entry::File { path, data, mode }
        if path == "/scan/app" && data == b"\x7fELFhello" && *mode == 0o755));
    assert_eq!(
        sink.entries[2],
        Entry::Symlink {
            path: "/scan/link".into(),
            target: "app".into(),
        }
    );
}

#[test]
fn a_big_endian_image_is_named_rather_than_misparsed() {
    let mut image = build_image();
    image[..4].copy_from_slice(b"sqsh");
    let Err(err) = Squashfs::open(&image) else {
        panic!("a big-endian image must not parse as little-endian");
    };
    assert!(err.message().unwrap().contains("big-endian"));
}

#[test]
fn a_truncated_image_errors_instead_of_panicking() {
    let image = build_image();
    for cut in [4, 50, 96, 100, image.len() - 1] {
        // Any of these may fail; none may panic.
        let mut sink = Collector::default();
        let mut out = Unpacked::new(Format::Snap, "/scan", MAX_PAYLOAD_BYTES);
        let _ = squashfs::unpack(&image[..cut], "/scan", &mut sink, &mut out);
    }
}

#[test]
fn an_image_over_the_limit_is_refused() {
    let image = build_image();
    let mut sink = Collector::default();
    let mut out = Unpacked::new(Format::Snap, "/scan", 8);
    let r = squashfs::unpack(&image, "/scan", &mut sink, &mut out);
    assert!(matches!(r, Err(PkgError::TooLarge(8))));
}

// ---- tar ---------------------------------------------------------------

/// Build a tar member header + body.
fn member(name: &str, typeflag: u8, link: &str, body: &[u8]) -> Vec<u8> {
    let mut header = vec![0u8; 512];
    let name_bytes = name.as_bytes();
    header[..name_bytes.len()].copy_from_slice(name_bytes);
    header[100..108].copy_from_slice(b"0000755\0");
    let size = format!("{:011o}\0", body.len());
    header[124..136].copy_from_slice(size.as_bytes());
    header[156] = typeflag;
    header[157..157 + link.len()].copy_from_slice(link.as_bytes());
    header[257..263].copy_from_slice(b"ustar\0");
    let mut out = header;
    out.extend_from_slice(body);
    let pad = (512 - body.len() % 512) % 512;
    out.extend(std::iter::repeat(0).take(pad));
    out
}

fn run_tar(archive: &[u8]) -> (Collector, Unpacked) {
    let mut sink = Collector::default();
    let mut out = Unpacked::new(Format::Tarball, "/scan", MAX_PAYLOAD_BYTES);
    tar::unpack(archive, "/scan", &mut sink, &mut out).unwrap();
    (sink, out)
}

#[test]
fn reads_files_dirs_and_symlinks() {
    let mut archive = member("./usr/bin/", b'5', "", b"");
    archive.extend(member("./usr/bin/foo", b'0', "", b"\x7fELFbody"));
    archive.extend(member("./usr/bin/bar", b'2', "foo", b""));
    archive.extend(vec![0u8; 512 * 2]);

    let (sink, out) = run_tar(&archive);
    assert_eq!(out.files, 1);
    assert_eq!(out.bytes, 8);
    assert_eq!(sink.entries[0], Entry::Dir("/scan/usr/bin".into()));
    assert!(matches!(&sink.entries[1], Entry::File { path, data, mode }
        if path == "/scan/usr/bin/foo" && data == b"\x7fELFbody" && *mode == 0o755));
    assert_eq!(
        sink.entries[2],
        Entry::Symlink {
            path: "/scan/usr/bin/bar".into(),
            target: "foo".into(),
        }
    );
}

#[test]
fn gnu_long_names_apply_to_the_following_member() {
    let long = format!("usr/lib/{}/app", "d".repeat(120));
    let mut archive = member("././@LongLink", b'L', "", long.as_bytes());
    archive.extend(member("truncated-name", b'0', "", b"x"));
    archive.extend(vec![0u8; 512 * 2]);

    let (sink, _) = run_tar(&archive);
    assert_eq!(sink.entries[0].path(), format!("{}/{long}", "/scan"));
}

#[test]
fn pax_path_records_override_the_header_name() {
    let record = "27 path=usr/share/app/real\n";
    let mut archive = member("PaxHeader", b'x', "", record.as_bytes());
    archive.extend(member("short", b'0', "", b"x"));
    archive.extend(vec![0u8; 512 * 2]);

    let (sink, _) = run_tar(&archive);
    assert_eq!(sink.entries[0].path(), "/scan/usr/share/app/real");
}

#[test]
fn absolute_symlink_targets_are_rerooted_into_the_payload() {
    let mut archive = member("usr/bin/app", b'2', "/usr/lib/app/app", b"");
    archive.extend(vec![0u8; 512 * 2]);

    let (sink, _) = run_tar(&archive);
    assert_eq!(
        sink.entries[0],
        Entry::Symlink {
            path: "/scan/usr/bin/app".into(),
            target: "/scan/usr/lib/app/app".into(),
        }
    );
}

#[test]
fn traversal_entries_are_skipped_not_written() {
    let mut archive = member("../../etc/cron.d/pwn", b'0', "", b"x");
    archive.extend(member("usr/bin/app", b'0', "", b"y"));
    archive.extend(vec![0u8; 512 * 2]);

    let (sink, out) = run_tar(&archive);
    assert_eq!(sink.entries.len(), 1);
    assert_eq!(sink.entries[0].path(), "/scan/usr/bin/app");
    assert_eq!(out.warnings.len(), 1);
}

#[test]
fn a_pax_record_shorter_than_its_own_prefix_is_passed_over() {
    let mut archive = member("PaxHeader", b'x', "", b"1 path=never\n");
    archive.extend(member("short", b'0', "", b"x"));
    archive.extend(vec![0u8; 512 * 2]);
    let (sink, _) = run_tar(&archive);
    assert_eq!(sink.entries[0].path(), "/scan/short");
}

#[test]
fn a_tar_over_the_limit_is_refused() {
    let mut archive = member("big", b'0', "", &[7u8; 600]);
    archive.extend(vec![0u8; 512 * 2]);
    let mut sink = Collector::default();
    let mut out = Unpacked::new(Format::Tarball, "/scan", 599);
    let r = tar::unpack(&archive, "/scan", &mut sink, &mut out);
    assert!(matches!(r, Err(PkgError::TooLarge(599))));
    assert!(sink.entries.is_empty());
}

// ---- paths -------------------------------------------------------------

#[test]
fn join_safe_strips_leading_root_and_curdir() {
    let base = "/scan";
    assert_eq!(join_safe(base, "./usr/bin/foo").unwrap(), "/scan/usr/bin/foo");
    assert_eq!(join_safe(base, "/usr/bin/foo").unwrap(), "/scan/usr/bin/foo");
}

#[test]
fn join_safe_rejects_traversal() {
    let base = "/scan";
    assert!(join_safe(base, "../etc/passwd").is_none());
    assert!(join_safe(base, "usr/../../etc/passwd").is_none());
}

#[test]
fn the_archive_root_entry_maps_to_the_base() {
    // `tar -C src .` writes this member; it is not a traversal attempt.
    let base = "/scan";
    assert_eq!(join_safe(base, "./").unwrap(), base);
    assert_eq!(join_safe(base, "/").unwrap(), base);
}

#[test]
fn absolute_link_targets_are_rerooted() {
    let base = "/scan";
    assert_eq!(link_target(base, "/usr/lib/libfoo.so"), "/scan/usr/lib/libfoo.so");
    assert_eq!(link_target(base, "../lib/libfoo.so"), "../lib/libfoo.so");
}

// ---- whole packages ----------------------------------------------------

#[test]
fn a_format_that_does_not_match_the_bytes_is_malformed() {
    let mut lead = vec![0xed, 0xab, 0xee, 0xdb];
    lead.resize(512, 0);
    let mut elf = b"\x7fELF".to_vec();
    elf.resize(2048, 0);
    let mut tar = member("a", b'0', "", b"x");
    tar.extend(vec![0u8; 1024]);
    let deb = build_ar(&[("debian-binary", b"2.0\n"), ("data.tar", &tar)]);
    let cases: [(&[u8], Format); 9] = [
        (&lead, Format::Tarball),
        (&lead, Format::Deb),
        (&lead, Format::AppImage),
        (&elf, Format::Tarball),
        (&elf, Format::Rpm),
        (&deb, Format::Tarball),
        (&deb, Format::Snap),
        (&tar, Format::AppImage),
        (&tar, Format::Deb),
    ];
    for (bytes, format) in cases {
        let mut sink = Collector::default();
        let r = unpack(bytes, format, "/scan", &mut sink);
        assert!(matches!(r, Err(PkgError::Malformed(_, _))), "{format:?}");
        assert_eq!(sink.entries, vec![Entry::Dir("/scan".into())]);
    }
    let mut sink = Collector::default();
    assert_eq!(unpack(&tar, Format::Tarball, "/scan", &mut sink).unwrap().files, 1);
    let mut sink = Collector::default();
    assert_eq!(unpack(&deb, Format::Deb, "/scan", &mut sink).unwrap().files, 1);
}

/// Takes directories and refuses everything else, for a reason of its own.
struct DirsOnly {
    taken: Vec<String>,
}

impl Sink for DirsOnly {
    fn dir(&mut self, path: &str) -> Result<(), PkgError> {
        self.taken.push(path.to_string());
        Ok(())
    }

    fn file(&mut self, path: &str, _: Vec<u8>, _: u32) -> Result<(), PkgError> {
        Err(PkgError::Unsupported(format!("no files: {path}")))
    }

    fn symlink(&mut self, path: &str, _: &str) -> Result<(), PkgError> {
        Err(PkgError::Unsupported(format!("no links: {path}")))
    }
}

#[test]
fn a_sink_that_refuses_ends_the_unpack_with_its_own_error() {
    let mut tar = member("./d/", b'5', "", b"");
    tar.extend(member("./d/f", b'0', "", b"x"));
    tar.extend(member("./e/", b'5', "", b""));
    tar.extend(vec![0u8; 1024]);
    let mut sink = DirsOnly { taken: Vec::new() };
    let r = unpack(&tar, Format::Tarball, "/scan", &mut sink);
    assert!(matches!(r, Err(PkgError::Unsupported(m)) if m == "no files: /scan/d/f"));
    assert_eq!(sink.taken, vec!["/scan".to_string(), "/scan/d".to_string()]);
}

#[test]
fn an_archive_gives_back_the_tree_that_was_packed() {
    let long = format!("{}/{}", "d".repeat(90), "f".repeat(90));
    let target = format!("../{}", "t".repeat(120));
    let mut tar = member("./top/", b'5', "", b"");
    tar.extend(member("top/file", b'0', "", &[7u8; 1000]));
    let mut name = long.clone().into_bytes();
    name.push(0);
    tar.extend(member("././@LongLink", b'L', "", &name));
    let mut to = target.clone().into_bytes();
    to.push(0);
    tar.extend(member("././@LongLink", b'K', "", &to));
    tar.extend(member("cut", b'2', "cut", b""));
    tar.extend(vec![0u8; 1024]);
    let (sink, out) = run_tar(&tar);
    assert!(out.warnings.is_empty());
    assert_eq!((out.files, out.bytes), (1, 1000));
    assert_eq!(
        sink.entries,
        vec![
            Entry::Dir("/scan/top".into()),
            Entry::File {
                path: "/scan/top/file".into(),
                data: vec![7u8; 1000],
                mode: 0o755,
            },
            Entry::Symlink {
                path: format!("/scan/{long}"),
                target,
            },
        ]
    );
}

/// A member as other tars write it: another magic, numbers filled up with spaces, and the
/// size in binary where `wide` says so.
fn odd_member(name: &str, typeflag: u8, link: &str, body: &[u8], wide: bool) -> Vec<u8> {
    let mut out = member(name, typeflag, link, body);
    out[100..108].copy_from_slice(b"   644 \0");
    out[257..265].copy_from_slice(b"ustar  \0");
    if wide {
        out[124..136].fill(0);
        out[124] = 0x80;
        out[128..136].copy_from_slice(&(body.len() as u64).to_be_bytes());
    } else {
        let size = format!("{:>11o} ", body.len());
        out[124..136].copy_from_slice(size.as_bytes());
    }
    out
}

#[test]
fn an_archive_of_another_make_gives_back_the_tree() {
    let mut tar = odd_member("pax_global_header", b'g', "", b"16 comment=abcd\n", false);
    tar.extend(odd_member("./top/", b'5', "", b"", false));
    tar.extend(odd_member("top/wide", b'0', "", &[7u8; 700], true));
    tar.extend(odd_member("top/old", 0, "", b"abc", false));
    tar.extend(odd_member("top/same", b'1', "top/old", b"", false));
    let pax = "20 mtime=1.00000000\n23 path=usr/caf\u{e9}/long\n18 linkpath=to/it\n";
    tar.extend(odd_member("PaxHeader", b'x', "", pax.as_bytes(), false));
    tar.extend(odd_member("cut", b'2', "cut", b"", false));
    let mut split = odd_member("name", b'0', "", b"z", false);
    split[345..352].copy_from_slice(b"pre/fix");
    tar.extend(split);
    // One block of NULs ends it; what follows does not matter.
    tar.extend(vec![0u8; 512]);
    tar.extend(member("behind", b'0', "", b"x"));
    let (sink, out) = run_tar(&tar);
    assert_eq!(out.warnings, Vec::<String>::new());
    assert_eq!((out.files, out.bytes), (3, 704));
    let file = |path: &str, data: &[u8]| Entry::File {
        path: path.into(),
        data: data.to_vec(),
        mode: 0o644,
    };
    assert_eq!(
        sink.entries,
        vec![
            Entry::Dir("/scan/top".into()),
            file("/scan/top/wide", &[7u8; 700]),
            file("/scan/top/old", b"abc"),
            Entry::Symlink {
                path: "/scan/top/same".into(),
                target: "/scan/top/old".into(),
            },
            Entry::Symlink {
                path: "/scan/usr/caf\u{e9}/long".into(),
                target: "to/it".into(),
            },
            file("/scan/pre/fix/name", b"z"),
        ]
    );
}

#[test]
fn a_tarball_may_start_with_a_name_that_is_a_magic() {
    for name in ["hsqs", "!<arch>", "\u{7f}ELF"] {
        let mut tar = member(name, b'0', "", b"x");
        tar.extend(vec![0u8; 1024]);
        let mut sink = Collector::default();
        assert_eq!(unpack(&tar, Format::Tarball, "/scan", &mut sink).unwrap().files, 1);
        assert_eq!(sink.entries[1].path(), format!("/scan/{name}"));
    }
}

#[test]
fn part_names_may_end_in_a_slash() {
    let mut tar = member("a", b'0', "", b"x");
    tar.extend(vec![0u8; 1024]);
    let deb = build_ar(&[("debian-binary/", b"2.0\n"), ("data.tar/", &tar)]);
    let mut sink = Collector::default();
    assert_eq!(unpack(&deb, Format::Deb, "/scan", &mut sink).unwrap().files, 1);
}

/// Refuses everything, as if it were too large.
struct Full;

impl Sink for Full {
    fn dir(&mut self, _: &str) -> Result<(), PkgError> {
        Ok(())
    }

    fn file(&mut self, _: &str, _: Vec<u8>, _: u32) -> Result<(), PkgError> {
        Err(PkgError::TooLarge(7))
    }

    fn symlink(&mut self, _: &str, _: &str) -> Result<(), PkgError> {
        Err(PkgError::TooLarge(7))
    }
}

#[test]
fn the_error_of_a_sink_is_told_from_the_limit() {
    let mut tar = member("big", b'0', "", &[7u8; 600]);
    tar.extend(vec![0u8; 1024]);
    let mut out = Unpacked::new(Format::Tarball, "/scan", 600);
    assert!(matches!(tar::unpack(&tar, "/scan", &mut Full, &mut out), Err(PkgError::TooLarge(7))));
    let mut out = Unpacked::new(Format::Tarball, "/scan", 599);
    assert!(matches!(tar::unpack(&tar, "/scan", &mut Full, &mut out), Err(PkgError::TooLarge(599))));
}
