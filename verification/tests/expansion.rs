//! Where packages are expanded to, and what may be written there.

use achilles::detect::{detect_app, DiscoveredApp, Framework, Host};
use achilles::pkg::cache::{cache_key, fnv1a, partial_path, Seen, Stage, Todo};
use achilles::pkg::squashfs::{
    DATA_UNCOMPRESSED, INODE_DIR, INODE_FILE, META_UNCOMPRESSED, NO_FRAGMENT,
};
use achilles::pkg::dir_sink::{lies_in_of, DirSink, Write};
use achilles::pkg::{
    default_cache_root, extract_cached, extract_cached_in, is_expandable, sniff, unpack, Collector,
    Entry, PkgError,
};
use achilles::upload::find_app_in_payload;
use achilles::vfs::{MemTree, Platform};

/// A tar standing in for a package.
fn tarball() -> Vec<u8> {
    let mut header = vec![0u8; 512];
    header[.."app".len()].copy_from_slice(b"app");
    header[100..108].copy_from_slice(b"0000755\0");
    header[124..136].copy_from_slice(format!("{:011o}\0", 4).as_bytes());
    header[156] = b'0';
    header[257..263].copy_from_slice(b"ustar\0");
    let mut out = header;
    out.extend_from_slice(b"BODY");
    out.extend(std::iter::repeat(0).take(512 - 4));
    out.extend(std::iter::repeat(0).take(1024));
    out
}

/// Expands a file of `tree` into a cache of the same tree.
fn expand(tree: &mut MemTree, file: &str, cache: &str) -> Result<String, PkgError> {
    let metadata = match tree.read(file) {
        Some(b) => Ok((b.len() as u64, 77)),
        None => Err("not found".to_string()),
    };
    let mut x = extract_cached_in(file, metadata, cache, 42)?;
    let mut unpacked: Vec<Entry> = Vec::new();
    let mut seen = Seen::Destination(tree.is_dir(&x.dest));
    loop {
        seen = match x.step(seen) {
            Todo::Read => Seen::Read(Ok(tree.read(file).unwrap().to_vec())),
            Todo::Unpack(bytes, format) => {
                let mut sink = Collector::default();
                let done = unpack(&bytes, format, &x.partial, &mut sink).map(|_| ());
                unpacked = sink.entries;
                Seen::Unpacked(done)
            }
            Todo::Rename => {
                for entry in unpacked.drain(..) {
                    let path = entry.path().replacen(&x.partial, &x.dest, 1);
                    match entry {
                        Entry::Dir(_) => tree.insert_dir(&path),
                        Entry::File { data, .. } => tree.insert_file(&path, data),
                        Entry::Symlink { target, .. } => tree.insert_symlink(&path, &target),
                    }
                }
                Seen::Renamed(None, true)
            }
            Todo::Finish(_, result) => return result,
        };
    }
}

#[test]
fn expands_once_and_reuses_the_result() {
    let mut tree = MemTree::default();
    tree.insert_file("/d/fixture.tar", tarball());
    let first = expand(&mut tree, "/d/fixture.tar", "/d/cache").unwrap();
    assert_eq!(tree.read(&format!("{first}/app")), Some(b"BODY".as_slice()));

    // Mark the extraction so a second call reusing it is observable.
    tree.insert_file(&format!("{first}/marker"), b"kept".to_vec());
    let second = expand(&mut tree, "/d/fixture.tar", "/d/cache").unwrap();
    assert_eq!(first, second);
    assert!(
        tree.is_file(&format!("{second}/marker")),
        "should have been reused"
    );
}

#[test]
fn a_changed_file_expands_to_a_new_directory() {
    let mut tree = MemTree::default();
    tree.insert_file("/d/fixture.tar", tarball());
    let one = expand(&mut tree, "/d/fixture.tar", "/d/cache").unwrap();
    let mut bigger = tarball();
    bigger.extend(std::iter::repeat(0).take(512));
    tree.insert_file("/d/fixture.tar", bigger);
    let other = expand(&mut tree, "/d/fixture.tar", "/d/cache").unwrap();
    assert_ne!(one, other, "an updated package must not reuse the old tree");

    // Same name, different content: a new size means a new key.
    let first = cache_key("/d/fixture.tar", 2048, 77);
    assert_eq!(first, cache_key("/d/fixture.tar", 2048, 77));
    let second = cache_key("/d/fixture.tar", 2048 + 512, 77);
    assert_ne!(first, second, "an updated package must not reuse the old tree");
    assert_ne!(first, cache_key("/d/fixture.tar", 2048, 78));
    assert!(first.starts_with("fixture-"));
}

#[test]
fn a_file_that_is_not_a_package_leaves_nothing_behind() {
    let mut tree = MemTree::default();
    tree.insert_file("/d/notes.txt", b"just some text".to_vec());
    assert!(matches!(
        expand(&mut tree, "/d/notes.txt", "/d/cache"),
        Err(PkgError::Unrecognised)
    ));
    assert_eq!(tree.read_dir("/d/cache").map(|d| d.len()).unwrap_or(0), 0);
    assert!(matches!(
        expand(&mut tree, "/d/gone.tar", "/d/cache"),
        Err(PkgError::Io(_))
    ));
    assert_eq!(sniff(b"just some text", "notes.txt"), None);
    assert!(!is_expandable(b"just some text", "/d/notes.txt"));
}

fn listing_of(entries: &[(u16, u16, &str)]) -> Vec<u8> {
    let mut listing = Vec::new();
    listing.extend_from_slice(&(entries.len() as u32 - 1).to_le_bytes());
    listing.extend_from_slice(&[0u8; 8]); // inode block offset, base inode number
    for (offset, kind, name) in entries {
        listing.extend_from_slice(&offset.to_le_bytes());
        listing.extend_from_slice(&0u16.to_le_bytes());
        listing.extend_from_slice(&kind.to_le_bytes());
        listing.extend_from_slice(&(name.len() as u16 - 1).to_le_bytes());
        listing.extend_from_slice(name.as_bytes());
    }
    listing
}

fn add_file(image: &mut Vec<u8>, inodes: &mut Vec<u8>, body: &[u8]) -> u16 {
    let at = inodes.len() as u16;
    inodes.extend_from_slice(&INODE_FILE.to_le_bytes());
    inodes.extend_from_slice(&0o755u16.to_le_bytes());
    inodes.extend_from_slice(&[0u8; 12]);
    inodes.extend_from_slice(&(image.len() as u32).to_le_bytes());
    inodes.extend_from_slice(&NO_FRAGMENT.to_le_bytes());
    inodes.extend_from_slice(&0u32.to_le_bytes());
    inodes.extend_from_slice(&(body.len() as u32).to_le_bytes());
    inodes.extend_from_slice(&(body.len() as u32 | DATA_UNCOMPRESSED).to_le_bytes());
    image.extend_from_slice(body);
    at
}

fn add_dir(inodes: &mut Vec<u8>, listings: &mut Vec<u8>, entries: &[(u16, u16, &str)]) -> u16 {
    let at = inodes.len() as u16;
    let listing = listing_of(entries);
    inodes.extend_from_slice(&INODE_DIR.to_le_bytes());
    inodes.extend_from_slice(&0o755u16.to_le_bytes());
    inodes.extend_from_slice(&[0u8; 12]);
    inodes.extend_from_slice(&0u32.to_le_bytes()); // listing block offset
    inodes.extend_from_slice(&2u32.to_le_bytes()); // nlink
    inodes.extend_from_slice(&(listing.len() as u16 + 3).to_le_bytes());
    inodes.extend_from_slice(&(listings.len() as u16).to_le_bytes());
    inodes.extend_from_slice(&0u32.to_le_bytes()); // parent inode
    listings.extend_from_slice(&listing);
    at
}

/// A squashfs image of an Electron app, stored uncompressed.
fn electron_image(binary: &[u8]) -> Vec<u8> {
    let mut image = vec![0u8; 96];
    let mut inodes = Vec::new();
    let mut listings = Vec::new();
    let asar = add_file(&mut image, &mut inodes, b"\x00asar-fixture");
    let resources = add_dir(&mut inodes, &mut listings, &[(asar, INODE_FILE, "app.asar")]);
    let exe = add_file(&mut image, &mut inodes, binary);
    let run = add_file(&mut image, &mut inodes, b"#!/bin/sh\nexec ./electron-sample\n");
    let root = add_dir(
        &mut inodes,
        &mut listings,
        &[
            (run, INODE_FILE, "AppRun"),
            (exe, INODE_FILE, "electron-sample"),
            (resources, INODE_DIR, "resources"),
        ],
    );
    let inode_table = image.len() as u64;
    image.extend_from_slice(&(inodes.len() as u16 | META_UNCOMPRESSED).to_le_bytes());
    image.extend_from_slice(&inodes);
    let directory_table = image.len() as u64;
    image.extend_from_slice(&(listings.len() as u16 | META_UNCOMPRESSED).to_le_bytes());
    image.extend_from_slice(&listings);
    let used = image.len() as u64;
    image[0..4].copy_from_slice(b"hsqs");
    image[12..16].copy_from_slice(&4096u32.to_le_bytes()); // block size
    image[20..22].copy_from_slice(&1u16.to_le_bytes()); // gzip
    image[28..30].copy_from_slice(&4u16.to_le_bytes()); // version
    image[32..40].copy_from_slice(&(root as u64).to_le_bytes());
    image[40..48].copy_from_slice(&used.to_le_bytes());
    image[48..56].copy_from_slice(&used.to_le_bytes()); // id table
    image[56..64].copy_from_slice(&u64::MAX.to_le_bytes()); // no xattrs
    image[64..72].copy_from_slice(&inode_table.to_le_bytes());
    image[72..80].copy_from_slice(&directory_table.to_le_bytes());
    image[80..88].copy_from_slice(&used.to_le_bytes()); // fragment table
    image[88..96].copy_from_slice(&u64::MAX.to_le_bytes()); // no lookup table
    image
}

#[test]
fn an_electron_appimage_is_expanded_and_detected() {
    let mut binary = b"\x7fELF".to_vec();
    binary.extend_from_slice(
        b"...Chrome/120.0.6099.109 ...Electron/28.1.0 ...node-v18.18.2/node.tar.gz...",
    );
    // The runtime stub: enough ELF header for the payload offset to be found.
    let mut appimage = vec![0u8; 4096];
    appimage[..4].copy_from_slice(b"\x7fELF");
    appimage[4] = 2; // 64-bit
    appimage[5] = 1; // little-endian
    appimage[8..11].copy_from_slice(&[0x41, 0x49, 0x02]); // AppImage type 2
    appimage[0x28..0x30].copy_from_slice(&(4096u64 - 128).to_le_bytes()); // e_shoff
    appimage[0x3A..0x3C].copy_from_slice(&64u16.to_le_bytes()); // e_shentsize
    appimage[0x3C..0x3E].copy_from_slice(&2u16.to_le_bytes()); // e_shnum
    appimage.extend_from_slice(&electron_image(&binary));

    let file = "/d/ElectronSample-1.0-x86_64.AppImage";
    let mut tree = MemTree::default();
    assert!(is_expandable(&appimage[..512], file));
    tree.insert_file(file, appimage);
    let expanded = expand(&mut tree, file, "/d/cache").expect("expand the AppImage");
    let app = DiscoveredApp {
        path: file.to_string(),
        executable: find_app_in_payload(&tree, &expanded).and_then(|a| a.executable),
        root: expanded,
        name: None,
    };
    let host = Host {
        webview: None,
        sciter: None,
    };
    let result = detect_app(&tree, Platform::Linux, &app, host).expect("detect should succeed");
    assert_eq!(result.framework, Framework::Electron);
    assert_eq!(result.versions.electron.as_deref(), Some("28.1.0"));
    assert_eq!(result.versions.chromium.as_deref(), Some("120.0.6099.109"));
    assert_eq!(result.versions.node.as_deref(), Some("18.18.2"));
}

#[test]
fn only_images_are_expanded_before_scanning() {
    let mut squashfs = vec![0u8; 96];
    squashfs[..4].copy_from_slice(b"hsqs");
    squashfs[28] = 4;
    assert_eq!(
        is_expandable(&squashfs, "/d/app.snap"),
        sniff(&squashfs, "app.snap").is_some()
    );
}

#[test]
fn a_symlink_cannot_be_used_to_write_outside_the_root() {
    let mut disk = MemTree::default();
    disk.insert_dir("/tmp/outside");
    let mut sink = DirSink::new("/tmp/root");
    // A link pointing out of the tree, then a file written "through" it: the link waits
    // until every directory and file is there.
    match sink.symlink("/tmp/root/lib", "/tmp/outside") {
        Write::Link { parent } => disk.insert_dir(&parent.unwrap()),
        _ => panic!("the link lies in the root"),
    }
    match sink.file("/tmp/root/lib/passwd", 0o644) {
        Write::File { parent, mode } => {
            assert_eq!(parent.as_deref(), Some("/tmp/root/lib"));
            assert_eq!(mode, 0o644);
            disk.insert_dir(&parent.unwrap());
            disk.insert_file("/tmp/root/lib/passwd", b"pwned".to_vec());
        }
        _ => panic!("the file lies in the root"),
    }
    assert!(matches!(sink.file("/tmp/outside/passwd", 0o644), Write::Skip));
    assert!(matches!(sink.dir("/tmp/rooted"), Write::Skip));
    assert!(matches!(sink.dir("/tmp/root/usr"), Write::Dir(_)));
    assert_eq!(sink.next_link(), Some("/tmp/root/lib"));
    let taken = disk.has("/tmp/root/lib");
    assert_eq!(sink.finish(taken), None);
    assert_eq!(sink.next_link(), None);

    assert!(!disk.has("/tmp/outside/passwd"));
    assert_eq!(disk.read("/tmp/root/lib/passwd"), Some(b"pwned".as_slice()));
    // The link lost the race with the real directory, as intended.
    assert!(disk.is_dir("/tmp/root/lib"));
}

#[test]
fn links_are_released_in_order() {
    let mut sink = DirSink::new("/r");
    for (path, target) in [("/r/a", "x"), ("/r/b", "y")] {
        assert!(matches!(sink.symlink(path, target), Write::Link { .. }));
    }
    assert!(matches!(sink.symlink("/else/c", "z"), Write::Skip));
    assert_eq!(sink.finish(false), Some(("/r/a".to_string(), "x".to_string())));
    assert_eq!(sink.next_link(), Some("/r/b"));
    assert_eq!(sink.finish(false), Some(("/r/b".to_string(), "y".to_string())));
    assert_eq!(sink.next_link(), None);
}

#[test]
fn set_user_bits_are_dropped() {
    let sink = DirSink::new("/r");
    assert!(matches!(
        sink.file("/r/su", 0o4755),
        Write::File { mode: 0o755, .. }
    ));
    assert!(lies_in_of("/r", "/r/a/b"));
    assert!(!lies_in_of("/r", "/ra"));
}

#[test]
fn expansions_are_published_by_renaming() {
    assert_eq!(
        default_cache_root(&Some("/home/u/.cache".into())),
        Some("/home/u/.cache/achilles/packages".into())
    );
    assert_eq!(default_cache_root(&None), None);
    assert_eq!(partial_path("/c", "k", 42), "/c/k.partial-42");
    let cache = Some("/c".to_string());
    let mut x = extract_cached("/d/a.tar", Ok((1, 2)), &cache, 42).unwrap();
    assert!(x.dest.starts_with("/c/achilles/packages/a-"));
    assert_eq!(x.partial, format!("{}.partial-42", x.dest));
    assert!(matches!(
        extract_cached("/d/a.tar", Ok((1, 2)), &None, 42),
        Err(PkgError::Io(m)) if m == "no cache directory available on this system"
    ));

    assert!(matches!(x.step(Seen::Destination(false)), Todo::Read));
    assert!(matches!(x.step(Seen::Read(Ok(tarball()))), Todo::Unpack(_, _)));
    assert!(matches!(x.step(Seen::Unpacked(Ok(()))), Todo::Rename));
    assert_eq!(x.stage, Stage::Renaming);
    // Another process was faster: its tree is as good.
    let dest = x.dest.clone();
    match x.step(Seen::Renamed(Some("exists".into()), true)) {
        Todo::Finish(true, Ok(p)) => assert_eq!(p, dest),
        other => panic!("{other:?}"),
    }
    assert_eq!(x.stage, Stage::Over);

    x.stage = Stage::Renaming;
    assert!(matches!(
        x.step(Seen::Renamed(Some("full".into()), false)),
        Todo::Finish(true, Err(PkgError::Io(m))) if m == "full"
    ));
    x.stage = Stage::Renaming;
    assert!(matches!(x.step(Seen::Renamed(None, true)), Todo::Finish(false, Ok(_))));
    x.stage = Stage::Unpacking;
    assert!(matches!(
        x.step(Seen::Unpacked(Err(PkgError::TooLarge(1)))),
        Todo::Finish(true, Err(PkgError::TooLarge(1)))
    ));
    x.stage = Stage::Reading;
    assert!(matches!(
        x.step(Seen::Read(Err("gone".into()))),
        Todo::Finish(false, Err(PkgError::Io(m))) if m == "gone"
    ));
}

#[test]
fn names_are_hashed() {
    assert_eq!(fnv1a(b""), 0xcbf2_9ce4_8422_2325);
    assert_eq!(fnv1a(b"a"), 0xaf63_dc4c_8601_ec8c);
}
