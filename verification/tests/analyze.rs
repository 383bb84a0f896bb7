//! An upload from bytes to a result.

use std::io::Write;

use achilles::analyze::{
    analyze_app, binary_name, looks_like_asar, mebibytes_of, plant, prepare, unsupported_message,
    unzip_into, Analyzer, Upload,
};
use achilles::audit::{AppAudit, HostFacts, Trust};
use achilles::detect::{Framework, Host};
use achilles::pkg::{Entry, Format};
use achilles::vfs::{MemTree, Platform};

fn host() -> Host {
    Host {
        webview: None,
        sciter: None,
    }
}

fn facts() -> HostFacts {
    HostFacts {
        code_signature: Default::default(),
        entitlements: Default::default(),
        trust: Trust {
            verdict: None,
            store: false,
        },
    }
}

const BLOB: &[u8] =
    b"\x7fELF...Chrome/120.0.6099.109 ...Electron/28.1.0 ...node-v18.18.2/node.tar.gz...";

fn zipped(files: &[(&str, &[u8])], links: &[(&str, &str)]) -> Vec<u8> {
    let mut zip = zip::ZipWriter::new(std::io::Cursor::new(Vec::new()));
    let options = zip::write::FullFileOptions::default();
    for (name, body) in files {
        if name.ends_with('/') {
            zip.add_directory(*name, options.clone()).unwrap();
        } else {
            zip.start_file(*name, options.clone()).unwrap();
            zip.write_all(body).unwrap();
        }
    }
    for (name, target) in links {
        zip.add_symlink(*name, *target, options.clone()).unwrap();
    }
    zip.finish().unwrap().into_inner()
}

#[test]
fn uploads_are_told_apart() {
    assert_eq!(Upload::classify(b"x", "App.ASAR"), Some(Upload::Asar));
    assert_eq!(
        Upload::classify(&zipped(&[("a", b"b")], &[]), "x"),
        Some(Upload::Zip)
    );
    assert_eq!(
        Upload::classify(b"MZ\x90", "a.exe"),
        Some(Upload::Binary(Platform::Windows))
    );
    assert_eq!(
        Upload::classify(b"\x7fELF", "a"),
        Some(Upload::Binary(Platform::Linux))
    );
    let mut deb = b"!<arch>\n".to_vec();
    deb.extend_from_slice(format!("{:<48}{:<10}`\n2.0\n", "debian-binary", 4).as_bytes());
    assert_eq!(
        Upload::classify(&deb, "a.deb"),
        Some(Upload::Package(Format::Deb))
    );
    assert_eq!(Upload::classify(b"text", "a.txt"), None);
    assert!(unsupported_message(b"\xcf\xfa\xed\xfe").contains("Mach-O"));
    assert!(unsupported_message(b"text").starts_with("unrecognised file"));
    assert!(!looks_like_asar(&[4, 0, 0, 0]));
}

#[test]
fn names_cannot_escape_the_scan_root() {
    assert_eq!(binary_name("../../etc/tool"), "tool");
    assert_eq!(binary_name("C:\\x\\tool.exe"), "tool.exe");
    assert_eq!(binary_name(".."), "app-binary");
    assert_eq!(binary_name("  "), "app-binary");
}

#[test]
fn a_zip_is_unpacked_below_its_base() {
    let bytes = zipped(
        &[("app/", b""), ("app/tool", b"BODY"), ("../evil", b"x")],
        &[("app/link", "tool")],
    );
    let mut tree = MemTree::default();
    unzip_into(&bytes, &mut tree, "/scan").unwrap();
    assert!(tree.is_dir("/scan/app"));
    assert_eq!(tree.read("/scan/app/tool"), Some(b"BODY".as_slice()));
    assert_eq!(tree.read("/scan/app/link"), Some(b"BODY".as_slice()));
    assert!(!tree.has("/evil") && !tree.has("/scan/evil"));
    let mut zip = zip::ZipWriter::new(std::io::Cursor::new(Vec::new()));
    let options = zip::write::FullFileOptions::default().unix_permissions(0o755);
    zip.start_file("run", options).unwrap();
    zip.write_all(b"#!").unwrap();
    let bytes = zip.finish().unwrap().into_inner();
    unzip_into(&bytes, &mut tree, "/scan").unwrap();
    assert_eq!(tree.mode("/scan/run").map(|m| m & 0o777), Some(0o755));
    assert!(unzip_into(b"no zip", &mut MemTree::default(), "/scan").is_err());
}

#[test]
fn a_portable_name_lands_where_it_leads() {
    let bytes = zipped(
        &[
            ("a/./b", b"1"),
            ("a/../c", b"2"),
            ("d\\e", b"3"),
            ("../out", b"4"),
            ("f/../../out", b"5"),
            ("/rooted", b"6"),
        ],
        &[],
    );
    let mut tree = MemTree::default();
    unzip_into(&bytes, &mut tree, "/scan").unwrap();
    assert_eq!(tree.read("/scan/a/b"), Some(b"1".as_slice()));
    assert_eq!(tree.read("/scan/c"), Some(b"2".as_slice()));
    assert_eq!(tree.read("/scan/d/e"), Some(b"3".as_slice()));
    assert_eq!(tree.read("/scan/rooted"), Some(b"6".as_slice()));
    assert!(!tree.has("/scan/out") && !tree.has("/out"));
}

#[test]
fn unpacking_disturbs_nothing_elsewhere() {
    let mut tree = MemTree::default();
    tree.insert_file("/etc/hosts", b"mine".to_vec());
    let bytes = zipped(&[("../etc/hosts", b"x"), ("/etc/hosts", b"y")], &[]);
    unzip_into(&bytes, &mut tree, "/scan").unwrap();
    assert_eq!(tree.read("/etc/hosts"), Some(b"mine".as_slice()));
    assert_eq!(tree.read("/scan/etc/hosts"), Some(b"y".as_slice()));
    plant(
        &mut tree,
        vec![
            Entry::Dir("/scan/usr".into()),
            Entry::File {
                path: "/scan/usr/tool".into(),
                data: b"z".to_vec(),
                mode: 0o755,
            },
        ],
    );
    assert_eq!(tree.read("/etc/hosts"), Some(b"mine".as_slice()));
    assert_eq!(tree.mode("/scan/usr/tool"), Some(0o755));
}

#[test]
fn a_zipped_app_is_found_detected_and_audited() {
    let bytes = zipped(
        &[("Demo/demo", BLOB), ("Demo/resources/app.asar", b"asar")],
        &[],
    );
    let r = analyze_app(bytes, "demo.zip", None, host(), facts()).unwrap();
    assert_eq!(r.platform, Platform::Linux);
    let d = r.detection.unwrap();
    assert_eq!(d.framework, Framework::Electron);
    assert_eq!(d.versions.electron.as_deref(), Some("28.1.0"));
    assert!(matches!(r.audit, Some(AppAudit::Linux(_))));
    assert_eq!(
        r.scan_target.as_deref(),
        Some("/scan/Demo/resources/app.asar")
    );
    assert!(r.notes.is_empty());
}

#[test]
fn a_lone_executable_is_analysed_by_itself() {
    let r = analyze_app(BLOB.to_vec(), "dir/demo", None, host(), facts()).unwrap();
    let d = r.detection.unwrap();
    assert_eq!(d.path, "/scan/demo");
    assert_eq!(d.versions.chromium.as_deref(), Some("120.0.6099.109"));
    assert_eq!(r.notes.len(), 1);
    assert!(r.notes[0].starts_with("Uploaded a single executable"));
}

#[test]
fn a_bare_archive_gets_the_static_scan_only() {
    let mut asar = vec![4, 0, 0, 0];
    asar.extend_from_slice(&[0; 12]);
    assert!(looks_like_asar(&asar));
    let (tree, notes) = prepare(asar.clone(), "app.asar", Upload::Asar).unwrap();
    assert!(tree.is_file("/scan/App.app/Contents/Resources/app.asar"));
    assert_eq!(notes.len(), 1);
    let r = analyze_app(asar, "app.asar", None, host(), facts()).unwrap();
    assert!(r.detection.is_none() && r.audit.is_none());
    assert!(r.scan_target.is_some());
}

#[test]
fn what_cannot_be_read_is_refused() {
    match analyze_app(b"text".to_vec(), "a.txt", None, host(), facts()) {
        Err(e) => assert!(e.starts_with("unrecognised file")),
        Ok(_) => panic!("no application"),
    }
    match analyze_app(b"PK\x03\x04broken".to_vec(), "a.zip", None, host(), facts()) {
        Err(e) => assert!(e.starts_with("could not read the uploaded zip: ")),
        Ok(_) => panic!("no archive"),
    }
}

#[test]
fn a_package_is_unpacked_and_searched() {
    let mut archive = Vec::new();
    for (name, body) in [("./opt/Demo/demo", BLOB), ("./opt/Demo/resources/app.asar", b"asar")] {
        let mut header = vec![0u8; 512];
        header[..name.len()].copy_from_slice(name.as_bytes());
        header[100..108].copy_from_slice(b"0000755\0");
        header[124..136].copy_from_slice(format!("{:011o}\0", body.len()).as_bytes());
        header[156] = b'0';
        header[257..263].copy_from_slice(b"ustar\0");
        archive.extend_from_slice(&header);
        archive.extend_from_slice(body);
        archive.extend(std::iter::repeat(0).take((512 - body.len() % 512) % 512));
    }
    archive.extend(vec![0u8; 1024]);
    let r = analyze_app(archive, "demo.tar", None, host(), facts()).unwrap();
    assert_eq!(
        r.notes[0],
        "Unpacked a tarball (2 files, 0 MB) and analysed the application inside it."
    );
    assert_eq!(r.detection.unwrap().framework, Framework::Electron);
    assert_eq!(mebibytes_of(3 * 0x10_0000 + 1), 3);
    assert_eq!(mebibytes_of(0x18_0000), 2);
}

#[test]
fn a_picked_folder_is_analysed_file_by_file() {
    let mut a = Analyzer::new("/scan/Demo".into(), Some("linux"));
    a.add_file("/scan/Demo/demo", BLOB.to_vec());
    a.add_symlink("/scan/Demo/current", "demo");
    let r = a.finish(host(), facts());
    assert_eq!(r.platform, Platform::Linux);
    assert_eq!(r.detection.unwrap().executable.as_deref(), Some("/scan/Demo/demo"));

    let empty = Analyzer::new("/scan/Empty".into(), Some("macos"));
    let r = empty.finish(host(), facts());
    assert!(r.detection.is_none());
    assert_eq!(r.notes, vec!["No .app bundle found in this folder.".to_string()]);
}
