//! What did the user just hand over: platform, application and scan target.

use achilles::analyze::plant;
use achilles::pkg::{sniff, unpack, Collector, Format};
use achilles::upload::{
    desktop_name, find_app, find_app_in_payload, locate_scan_target, single_binary, sniff_platform,
};
use achilles::vfs::{MemTree, Platform};

fn at(base: &str, rel: &str) -> String {
    format!("{base}/{rel}")
}

fn write(tree: &mut MemTree, path: &str, bytes: &[u8]) {
    tree.insert_file(path, bytes.to_vec());
}

/// A byte blob that starts with ELF magic and is `size` bytes long, so the
/// "largest binary wins" tie-break has something to compare.
fn elf(size: usize) -> Vec<u8> {
    let mut bytes = b"\x7fELF".to_vec();
    bytes.resize(size.max(4), 0);
    bytes
}

fn pe(size: usize) -> Vec<u8> {
    let mut bytes = b"MZ".to_vec();
    bytes.resize(size.max(2), 0);
    bytes
}

// ---- platform sniffing ------------------------------------------------

#[test]
fn sniffs_macos_from_a_dot_app_child() {
    let mut tree = MemTree::default();
    let base = "/sniff-macos";
    write(&mut tree, &at(base, "Signal.app/Contents/Info.plist"), b"<plist/>");
    write(&mut tree, &at(base, "Signal.app/Contents/MacOS/Signal"), &elf(64));

    assert_eq!(sniff_platform(&tree, base), Platform::Macos);
}

/// A zip made from *inside* the bundle puts `Contents/` at the archive root,
/// with no `.app` directory name left to recognise.
#[test]
fn sniffs_macos_from_a_bare_contents_dir() {
    let mut tree = MemTree::default();
    let base = "/sniff-contents";
    write(&mut tree, &at(base, "Contents/Info.plist"), b"<plist/>");

    assert_eq!(sniff_platform(&tree, base), Platform::Macos);
}

#[test]
fn sniffs_windows_from_an_exe() {
    let mut tree = MemTree::default();
    let base = "/sniff-windows";
    write(&mut tree, &at(base, "Slack/slack.exe"), &pe(4096));
    write(&mut tree, &at(base, "Slack/ffmpeg.dll"), &pe(64));

    assert_eq!(sniff_platform(&tree, base), Platform::Windows);
}

/// Linux is the fallback: an ELF binary plus sibling `.so`s has no marker of
/// its own, only the absence of the other two.
#[test]
fn sniffs_linux_from_an_elf_tree() {
    let mut tree = MemTree::default();
    let base = "/sniff-linux";
    write(&mut tree, &at(base, "slack/slack"), &elf(4096));
    write(&mut tree, &at(base, "slack/libffmpeg.so"), &elf(64));

    assert_eq!(sniff_platform(&tree, base), Platform::Linux);
}

// ---- locating the app + its executable --------------------------------

#[test]
fn finds_the_macos_bundle_root() {
    let mut tree = MemTree::default();
    let base = "/find-macos";
    write(&mut tree, &at(base, "Signal.app/Contents/Info.plist"), b"<plist/>");

    let app = find_app(&tree, base, Platform::Macos).expect("bundle should be found");
    assert_eq!(app.path, at(base, "Signal.app"));
    assert_eq!(app.root, at(base, "Signal.app"));
    // macOS resolves the executable from Info.plist's CFBundleExecutable.
    assert_eq!(app.executable, None);
}

/// The picked folder *is* the bundle — the common case for both the folder
/// picker and a drag-dropped `.app`.
#[test]
fn treats_a_picked_bundle_as_the_app() {
    let mut tree = MemTree::default();
    let base = "/picked-bundle";
    let bundle = at(base, "Signal.app");
    write(&mut tree, &at(&bundle, "Contents/Info.plist"), b"<plist/>");

    let app = find_app(&tree, &bundle, Platform::Macos).expect("the picked bundle is the app");
    assert_eq!(app.root, bundle);
}

/// The UI only unwraps `.app` children one level down, so a picked folder may
/// still wrap the bundle deeper. Analysing the picked folder itself would read
/// a non-existent `Contents/Info.plist` and report an app with nothing in it.
#[test]
fn finds_a_bundle_nested_below_the_picked_root() {
    let mut tree = MemTree::default();
    let base = "/find-nested";
    write(&mut tree, &at(base, "Apps/Signal.app/Contents/Info.plist"), b"<plist/>");

    let app = find_app(&tree, base, Platform::Macos).expect("nested bundle should be found");
    assert_eq!(app.root, at(base, "Apps/Signal.app"));
}

/// A folder holding no bundle must report nothing rather than describing the
/// folder itself as an app.
#[test]
fn reports_no_bundle_when_the_folder_holds_none() {
    let mut tree = MemTree::default();
    let base = "/find-no-bundle";
    write(&mut tree, &at(base, "notes.txt"), b"hello");

    assert!(find_app(&tree, base, Platform::Macos).is_none());
}

/// The zip wraps the app in a folder, and the folder holds several `.exe`s.
/// The one named after its directory is the app; the rest are helpers.
#[test]
fn finds_the_windows_executable_by_name() {
    let mut tree = MemTree::default();
    let base = "/find-windows";
    let root = at(base, "Slack");
    write(&mut tree, &at(&root, "slack.exe"), &pe(1024));
    // Bigger, but an updater — must not win.
    write(&mut tree, &at(&root, "Update.exe"), &pe(8192));
    write(&mut tree, &at(&root, "squirrel.exe"), &pe(8192));
    write(&mut tree, &at(&root, "resources/app.asar"), b"asar");

    let app = find_app(&tree, base, Platform::Windows).expect("app should be found");
    assert_eq!(app.root, root);
    assert_eq!(
        app.executable.as_deref(),
        Some(at(&root, "slack.exe").as_str())
    );
    // Windows keys an app on its executable, as desktop discovery does.
    assert_eq!(app.path, at(&root, "slack.exe"));
    assert_eq!(app.name.as_deref(), Some("Slack"));
}

/// Nothing is named after the directory, so the largest non-helper binary wins
/// — the main binary dwarfs the helpers it ships beside.
#[test]
fn falls_back_to_the_largest_executable() {
    let mut tree = MemTree::default();
    let base = "/find-largest";
    write(&mut tree, &at(base, "bin/helper.exe"), &pe(128));
    write(&mut tree, &at(base, "bin/main-app.exe"), &pe(65536));

    let app = find_app(&tree, base, Platform::Windows).expect("app should be found");
    assert_eq!(
        app.executable.as_deref(),
        Some(at(base, "bin/main-app.exe").as_str())
    );
}

#[test]
fn finds_the_linux_executable_and_skips_shared_objects() {
    let mut tree = MemTree::default();
    let base = "/find-linux";
    let root = at(base, "obsidian");
    // Larger than the binary, but a shared object is never the entry point.
    write(&mut tree, &at(&root, "libffmpeg.so"), &elf(65536));
    write(&mut tree, &at(&root, "libEGL.so.1"), &elf(65536));
    write(&mut tree, &at(&root, "obsidian"), &elf(4096));
    write(&mut tree, &at(&root, "chrome-sandbox"), &elf(32768));
    write(&mut tree, &at(&root, "resources.pak"), &[0u8; 65536]);

    let app = find_app(&tree, base, Platform::Linux).expect("app should be found");
    assert_eq!(app.root, root);
    assert_eq!(
        app.executable.as_deref(),
        Some(at(&root, "obsidian").as_str())
    );
}

/// A non-ELF file must never be mistaken for the executable, however large.
#[test]
fn linux_ignores_non_elf_files() {
    let mut tree = MemTree::default();
    let base = "/find-linux-nonelf";
    write(&mut tree, &at(base, "app/resources.pak"), &[0u8; 65536]);
    write(&mut tree, &at(base, "app/README"), b"hello");

    assert!(find_app(&tree, base, Platform::Linux).is_none());
}

/// Squirrel installs leave only `Update.exe` at the root and put the real app
/// in a versioned subdirectory, so the search has to descend past a directory
/// whose own executables were all filtered out as helpers.
#[test]
fn descends_past_a_squirrel_stub_root() {
    let mut tree = MemTree::default();
    let base = "/find-squirrel";
    write(&mut tree, &at(base, "Update.exe"), &pe(8192));
    write(&mut tree, &at(base, "packages/full.nupkg"), b"nupkg");
    write(&mut tree, &at(base, "app-1.2.3/gitkraken.exe"), &pe(4096));

    let app = find_app(&tree, base, Platform::Windows).expect("app should be found");
    assert_eq!(app.root, at(base, "app-1.2.3"));
    assert_eq!(
        app.executable.as_deref(),
        Some(at(base, "app-1.2.3/gitkraken.exe").as_str())
    );
}

// ---- static-scan target ------------------------------------------------

#[test]
fn locates_the_asar_per_platform() {
    let mut tree = MemTree::default();
    let base = "/asar";

    let mac = at(base, "Foo.app");
    write(&mut tree, &at(&mac, "Contents/Resources/app.asar"), b"asar");
    assert_eq!(
        locate_scan_target(&tree, &mac, Platform::Macos),
        Some(at(&mac, "Contents/Resources/app.asar"))
    );
    // The bundle layout's path must not be found under the portable one.
    assert_eq!(locate_scan_target(&tree, &mac, Platform::Windows), None);

    let win = at(base, "Foo");
    write(&mut tree, &at(&win, "resources/app.asar"), b"asar");
    assert_eq!(
        locate_scan_target(&tree, &win, Platform::Windows),
        Some(at(&win, "resources/app.asar"))
    );
    assert_eq!(
        locate_scan_target(&tree, &win, Platform::Linux),
        Some(at(&win, "resources/app.asar"))
    );
}

/// Apps that ship `resources/app/` unpacked (VS Code) have no archive to read,
/// so the scan targets the directory instead.
#[test]
fn locates_an_unpacked_app_directory() {
    let mut tree = MemTree::default();
    let base = "/unpacked";
    let root = at(base, "VSCode");
    write(&mut tree, &at(&root, "resources/app/package.json"), b"{}");

    assert_eq!(
        locate_scan_target(&tree, &root, Platform::Linux),
        Some(at(&root, "resources/app"))
    );
}

// ---- locating the app inside an unpacked package -----------------------

/// A distro package reproduces a slice of the filesystem, so the *shallowest*
/// executable is the `usr/bin` launcher and the application is somewhere below
/// it. Size is what tells them apart.
#[test]
fn payload_search_prefers_the_application_over_the_usr_bin_launcher() {
    let mut tree = MemTree::default();
    let base = "/payload-optdir";
    write(&mut tree, &at(base, "usr/bin/foo"), &elf(2048));
    write(&mut tree, &at(base, "opt/Foo/foo"), &elf(200_000));
    write(&mut tree, &at(base, "opt/Foo/libffmpeg.so"), &elf(400_000));
    write(&mut tree, &at(base, "usr/share/applications/foo.desktop"), b"[Desktop Entry]");

    let app = find_app_in_payload(&tree, base).expect("app should be found");
    assert_eq!(app.root, at(base, "opt/Foo"));
    assert_eq!(
        app.executable.as_deref(),
        Some(at(base, "opt/Foo/foo").as_str())
    );
}

/// Distro packages alias one binary under several names — `usr/bin/foo`, the
/// `.build-id` entries. Following those would root the app in whichever
/// directory happened to hold an alias.
#[test]
fn payload_search_ignores_symlinked_aliases_of_the_binary() {
    let mut tree = MemTree::default();
    let base = "/payload-symlink";
    write(&mut tree, &at(base, "usr/lib/foo/foo"), &elf(200_000));
    tree.insert_dir(&at(base, "usr/lib/.build-id/ab"));
    tree.insert_symlink(
        &at(base, "usr/lib/.build-id/ab/cdef"),
        &at(base, "usr/lib/foo/foo"),
    );
    tree.insert_dir(&at(base, "usr/bin"));
    tree.insert_symlink(&at(base, "usr/bin/foo"), &at(base, "usr/lib/foo/foo"));

    let app = find_app_in_payload(&tree, base).expect("app should be found");
    assert_eq!(app.root, at(base, "usr/lib/foo"));
}

/// An AppImage's squashfs root holds the app directly, next to `AppRun` and the
/// desktop entry — the payload search has to handle that shape too.
#[test]
fn payload_search_handles_an_appimage_root() {
    let mut tree = MemTree::default();
    let base = "/payload-appimage";
    write(&mut tree, &at(base, "AppRun"), b"#!/bin/sh\nexec ./myapp\n");
    write(&mut tree, &at(base, "myapp"), &elf(300_000));
    write(&mut tree, &at(base, "myapp.desktop"), b"[Desktop Entry]");
    write(&mut tree, &at(base, "resources/app.asar"), b"asar");
    write(&mut tree, &at(base, "chrome-sandbox"), &elf(500_000));

    let app = find_app_in_payload(&tree, base).expect("app should be found");
    assert_eq!(app.root, base);
    assert_eq!(
        app.executable.as_deref(),
        Some(at(base, "myapp").as_str())
    );
}

#[test]
fn a_payload_with_no_executable_reports_nothing() {
    let mut tree = MemTree::default();
    let base = "/payload-empty";
    write(&mut tree, &at(base, "usr/share/doc/foo/README"), b"docs only");

    assert!(find_app_in_payload(&tree, base).is_none());
}

/// End to end: unpack a package to a real directory with `pkg`, then run the
/// same app-finding the browser runs against its in-memory tree.
#[test]
fn unpacking_a_package_leaves_a_tree_the_app_search_can_read() {
    let mut tree = MemTree::default();
    let base = "/payload-unpack";
    let payload = at(base, "payload");

    // A tar holding the layout a `.deb` installs.
    let mut archive = Vec::new();
    let mut member = |name: &str, typeflag: u8, body: &[u8]| {
        let mut header = vec![0u8; 512];
        header[..name.len()].copy_from_slice(name.as_bytes());
        header[100..108].copy_from_slice(b"0000755\0");
        header[124..136].copy_from_slice(format!("{:011o}\0", body.len()).as_bytes());
        header[156] = typeflag;
        header[257..263].copy_from_slice(b"ustar\0");
        archive.extend_from_slice(&header);
        archive.extend_from_slice(body);
        archive.extend(std::iter::repeat(0).take((512 - body.len() % 512) % 512));
    };
    member("./usr/bin/foo", b'0', &elf(1024));
    member("./opt/Foo/foo", b'0', &elf(120_000));
    member("./opt/Foo/resources/app.asar", b'0', b"asar-bytes");
    archive.extend(std::iter::repeat(0).take(1024));

    assert_eq!(
        sniff(&archive, "foo.tar"),
        Some(Format::Tarball),
        "an uncompressed tar should be recognised"
    );
    let mut sink = Collector::default();
    let summary = unpack(&archive, Format::Tarball, &payload, &mut sink).unwrap();
    plant(&mut tree, sink.entries);
    assert_eq!(summary.files, 3);

    let app = find_app_in_payload(&tree, &payload).expect("app should be found");
    assert_eq!(app.root, at(&payload, "opt/Foo"));
    assert_eq!(
        locate_scan_target(&tree, &app.root, Platform::Linux).as_deref(),
        Some(at(&payload, "opt/Foo/resources/app.asar").as_str()),
        "the static scan should find the asar beside the binary"
    );
}

/// The app is named by the package's own `.desktop` entry. Naming it after the
/// containing directory instead calls every packaged app "bin", since that is
/// where a packaged binary lives.
#[test]
fn payload_app_is_named_by_its_desktop_entry_not_its_directory() {
    let mut tree = MemTree::default();
    let base = "/payload-name";
    write(&mut tree, &at(base, "usr/bin/achilles"), &elf(200_000));
    write(&mut tree, &at(base, "usr/share/applications/Achilles.desktop"),
        b"[Desktop Entry]\nType=Application\nName=Achilles\nExec=achilles\n\n\
          [Desktop Action new]\nName=New Window\n",
    );

    let app = find_app_in_payload(&tree, base).expect("app should be found");
    assert_eq!(app.root, at(base, "usr/bin"));
    assert_eq!(app.name.as_deref(), Some("Achilles"));
}

/// An AppImage keeps its entry at the payload root.
#[test]
fn an_appimage_desktop_entry_at_the_root_names_the_app() {
    let mut tree = MemTree::default();
    let base = "/payload-name-appimage";
    write(&mut tree, &at(base, "AppRun"), b"#!/bin/sh\nexec ./usr/bin/app\n");
    write(&mut tree, &at(base, "usr/bin/app"), &elf(200_000));
    write(&mut tree, &at(base, "MyApp.desktop"),
        b"[Desktop Entry]\nName=My App\nExec=AppRun\n",
    );

    let app = find_app_in_payload(&tree, base).expect("app should be found");
    assert_eq!(app.name.as_deref(), Some("My App"));
}

/// With no entry to read, the binary's own name beats the directory's.
#[test]
fn a_payload_without_a_desktop_entry_falls_back_to_the_binary_name() {
    let mut tree = MemTree::default();
    let base = "/payload-name-none";
    write(&mut tree, &at(base, "usr/bin/hello"), &elf(200_000));

    let app = find_app_in_payload(&tree, base).expect("app should be found");
    assert_eq!(app.name.as_deref(), Some("hello"));
}

#[test]
fn a_lone_binary_is_its_own_app() {
    let app = single_binary("/scan/tool");
    assert_eq!(app.path, "/scan/tool");
    assert_eq!(app.root, "/scan");
    assert_eq!(app.executable.as_deref(), Some("/scan/tool"));
    assert_eq!(app.name.as_deref(), Some("tool"));
}

#[test]
fn only_the_entry_group_names_the_app() {
    assert_eq!(desktop_name("[Desktop Action new]\nName=New Window\n"), None);
    assert_eq!(
        desktop_name("[Desktop Entry]\nType=Application\nName=Foo\n"),
        Some("Foo".into())
    );
}
