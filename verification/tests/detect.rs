//! Which framework an application uses, and in which versions.

use achilles::detect::electron;
use achilles::detect::java::parse_release;
use achilles::detect::strings::{
    contains, find_first, find_place, scan_chromium, scan_deno_version, scan_electron_version,
};
use achilles::detect::{
    detect, detect_app, judge, merge_versions, read_plist_version, Confidence, DetectError,
    DiscoveredApp, Framework, Host, Probes, Versions,
};
use achilles::version::cmp_version;
use achilles::vfs::{MemTree, Platform};

fn host() -> Host {
    Host {
        webview: None,
        sciter: None,
    }
}

/// An Electron app on Windows/Linux: a `resources/app.asar` next to a binary
/// whose user-agent strings carry the Electron / Chromium / Node versions.
#[test]
fn electron_fixture_detected_with_versions() {
    let mut tree = MemTree::default();
    let app = "/electron";
    tree.insert_file(&format!("{app}/resources/app.asar"), b"\x00asar-fixture".to_vec());

    // A fake "binary" carrying the UA fingerprints the string-scanner reads.
    let exe = format!("{app}/app-bin");
    let blob = b"...Chrome/120.0.6099.109 ...Electron/28.1.0 ...node-v18.18.2/node.tar.gz...";
    tree.insert_file(&exe, blob.to_vec());

    let result = detect(&tree, Platform::Linux, &exe, host()).expect("detect should succeed");
    assert_eq!(result.framework, Framework::Electron);
    assert_eq!(result.versions.electron.as_deref(), Some("28.1.0"));
    assert_eq!(result.versions.chromium.as_deref(), Some("120.0.6099.109"));
    assert_eq!(result.versions.node.as_deref(), Some("18.18.2"));
}

/// A Tauri app: the binary carries the `tauri.localhost` + `__TAURI_INTERNALS__`
/// IPC fingerprints and a cargo-registry version path.
#[test]
fn tauri_fixture_detected() {
    let mut tree = MemTree::default();
    let exe = "/tauri/my-tauri-app";
    let blob = b"...tauri.localhost...__TAURI_INTERNALS__.../root/.cargo/registry/src/tauri-2.1.0/lib.rs...";
    tree.insert_file(exe, blob.to_vec());

    let result = detect(&tree, Platform::Linux, exe, host()).expect("detect should succeed");
    assert_eq!(result.framework, Framework::Tauri);
    assert_eq!(result.versions.tauri.as_deref(), Some("2.1.0"));
}

#[test]
fn cmp_picks_newer_chrome_build() {
    assert!(cmp_version("148.0.7778.216", "148.0.7778.179").is_gt());
    // Numeric, not lexicographic: 100 > 99.
    assert!(cmp_version("148.0.7778.100", "148.0.7778.99").is_gt());
    assert!(cmp_version("148.0.7778.216", "148.0.7778.216").is_eq());
}

#[test]
fn deno_ua_token_yields_version() {
    // `scan_deno_version` keys on the `Deno/x.y.z` product token the runtime
    // bakes into its HTTP user-agent.
    let hay = b"Mozilla/5.0 (compatible) Deno/2.7.5 trailing";
    let pattern = "Deno/(\\d+\\.\\d+\\.\\d+)";
    assert_eq!(find_first(pattern, hay), Some("2.7.5".to_string()));
    assert_eq!(find_first(pattern, b"nothing deno-ish here"), None);

    let mut tree = MemTree::default();
    tree.insert_file("/d", hay.to_vec());
    assert_eq!(scan_deno_version(&tree, "/d"), Some(Some("2.7.5".to_string())));
    assert_eq!(scan_deno_version(&tree, "/e"), None);
}

#[test]
fn bytes_are_found_where_they_first_stand() {
    assert_eq!(find_place(b"abcabc", b"ca"), Some(2));
    assert_eq!(find_place(b"abcabc", b"cb"), None);
    let mut tree = MemTree::default();
    tree.insert_file("/f", b"one two".to_vec());
    assert_eq!(contains(&tree, "/f", b"two"), Some(true));
    assert_eq!(contains(&tree, "/f", b"three"), Some(false));
    assert_eq!(contains(&tree, "/g", b"two"), None);
}

#[test]
fn scans_read_the_first_token() {
    let mut tree = MemTree::default();
    tree.insert_file("/b", b"Chrome/1.2.3.4 Chrome/5.6.7.8 Electron/9.8.7".to_vec());
    assert_eq!(scan_chromium(&tree, "/b"), Some("1.2.3.4".to_string()));
    assert_eq!(
        scan_electron_version(&tree, "/b"),
        Some(Some("9.8.7".to_string()))
    );
}

fn plist(pairs: &[(&str, &str)]) -> Vec<u8> {
    let mut s = String::from("<?xml version=\"1.0\"?><plist version=\"1.0\"><dict>");
    for (k, v) in pairs {
        s.push_str(&format!("<key>{k}</key><string>{v}</string>"));
    }
    s.push_str("</dict></plist>");
    s.into_bytes()
}

#[test]
fn a_bundle_is_described_by_its_property_list() {
    let mut tree = MemTree::default();
    tree.insert_file(
        "/Demo.app/Contents/Info.plist",
        plist(&[
            ("CFBundleIdentifier", "com.example.demo"),
            ("CFBundleName", "Demo"),
            ("CFBundleShortVersionString", "2.5"),
            ("CFBundleExecutable", "demo"),
        ]),
    );
    tree.insert_file("/Demo.app/Contents/MacOS/demo", b"native".to_vec());
    let framework = "/Demo.app/Contents/Frameworks/Electron Framework.framework";
    tree.insert_file(
        &format!("{framework}/Resources/Info.plist"),
        plist(&[("CFBundleVersion", "28.1.0")]),
    );
    tree.insert_file(
        &format!("{framework}/Electron Framework"),
        b"Chrome/120.0.6099.109 node-v18.18.2/".to_vec(),
    );
    let r = detect(&tree, Platform::Macos, "/Demo.app", host()).unwrap();
    assert_eq!(r.framework, Framework::Electron);
    assert_eq!(r.confidence, Confidence::High);
    assert_eq!(r.bundle_id.as_deref(), Some("com.example.demo"));
    assert_eq!(r.display_name.as_deref(), Some("Demo"));
    assert_eq!(r.bundle_version.as_deref(), Some("2.5"));
    assert_eq!(r.executable.as_deref(), Some("/Demo.app/Contents/MacOS/demo"));
    assert_eq!(r.versions.electron.as_deref(), Some("28.1.0"));
    assert_eq!(r.versions.chromium.as_deref(), Some("120.0.6099.109"));
    assert_eq!(
        read_plist_version(&tree, &format!("{framework}/Resources/Info.plist")),
        Some("28.1.0".into())
    );
}

#[test]
fn a_missing_app_is_an_error() {
    let tree = MemTree::default();
    match detect(&tree, Platform::Linux, "/nowhere", host()) {
        Err(e) => {
            assert!(matches!(&e, DetectError::NotFound(p) if p == "/nowhere"));
            assert!(e.message().contains("/nowhere"));
        }
        Ok(_) => panic!("nothing is there"),
    }
}

#[test]
fn an_unremarkable_binary_is_native() {
    let mut tree = MemTree::default();
    tree.insert_file("/opt/tool/tool", b"\x7fELF nothing to see".to_vec());
    let app = DiscoveredApp {
        path: "/opt/tool/tool".into(),
        root: "/opt/tool".into(),
        executable: Some("/opt/tool/tool".into()),
        name: Some("Tool".into()),
    };
    let r = detect_app(&tree, Platform::Linux, &app, host()).unwrap();
    assert_eq!(r.framework, Framework::Native);
    assert_eq!(r.display_name.as_deref(), Some("Tool"));
    assert_eq!(r.versions, Versions::default());
}

#[test]
fn the_first_probe_that_answers_decides() {
    let with = |chromium: &str| Versions {
        chromium: Some(chromium.into()),
        ..Default::default()
    };
    let p = Probes {
        electron: Some(electron::Detection {
            confidence: Confidence::High,
            versions: with("1"),
        }),
        tauri: None,
        cef: Some("2".into()),
        flutter: None,
        qt: None,
        nwjs: None,
        react_native: None,
        wails: None,
        deno: None,
        sciter: None,
        java: None,
        safari: None,
        browser: None,
        webview: None,
        has_executable: true,
    };
    let (framework, confidence, versions) = judge(p);
    assert_eq!(framework, Framework::Electron);
    assert_eq!(confidence, Confidence::High);
    assert_eq!(versions.chromium.as_deref(), Some("1"));
    assert_eq!(versions.cef.as_deref(), Some("2"));
}

#[test]
fn merging_fills_only_what_is_missing() {
    let a = Versions {
        electron: Some("1".into()),
        ..Default::default()
    };
    let b = Versions {
        electron: Some("2".into()),
        node: Some("3".into()),
        ..Default::default()
    };
    let m = merge_versions(a, &b);
    assert_eq!(m.electron.as_deref(), Some("1"));
    assert_eq!(m.node.as_deref(), Some("3"));
}

#[test]
fn a_java_release_file_states_the_version() {
    assert_eq!(
        parse_release("IMPLEMENTOR=\"X\"\nJAVA_VERSION=\"17.0.9\"\n"),
        Some("17.0.9".into())
    );
    assert_eq!(parse_release("IMPLEMENTOR=\"X\"\n"), None);
}

#[test]
fn qt_and_flutter_are_told_by_their_libraries() {
    let mut tree = MemTree::default();
    tree.insert_file("/q/app", b"\x7fELF".to_vec());
    tree.insert_file("/q/libQt6Core.so.6", b"Qt 6.5.2 (x86_64".to_vec());
    let r = detect(&tree, Platform::Linux, "/q/app", host()).unwrap();
    assert_eq!(r.framework, Framework::Qt);

    let mut tree = MemTree::default();
    tree.insert_file("/f/app", b"\x7fELF".to_vec());
    tree.insert_file("/f/lib/libflutter_linux_gtk.so", b"\x7fELF".to_vec());
    let r = detect(&tree, Platform::Linux, "/f/app", host()).unwrap();
    assert_eq!(r.framework, Framework::Flutter);
}

#[test]
fn a_qt_library_without_a_marker_is_of_unknown_version() {
    let mut tree = MemTree::default();
    tree.insert_file("/q/app", b"\x7fELF".to_vec());
    tree.insert_file("/q/libQt5Core.so.5", b"\x7fELF stripped".to_vec());
    let r = detect(&tree, Platform::Linux, "/q/app", host()).unwrap();
    assert_eq!(r.framework, Framework::Qt);
    assert_eq!(r.versions.qt.as_deref(), Some("unknown"));
}

#[test]
fn nwjs_is_told_by_its_library_or_its_binary() {
    let mut tree = MemTree::default();
    tree.insert_file("/n/app", b"\x7fELF".to_vec());
    tree.insert_file("/n/lib/libnw.so", b"Chrome/120.0.6099.109".to_vec());
    let r = detect(&tree, Platform::Linux, "/n/app", host()).unwrap();
    assert_eq!(r.framework, Framework::NwJs);
    assert_eq!(r.versions.chromium.as_deref(), Some("120.0.6099.109"));

    let mut tree = MemTree::default();
    tree.insert_file("/n/nw", b"\x7fELF Chrome/121.0.0.1".to_vec());
    let r = detect(&tree, Platform::Linux, "/n/nw", host()).unwrap();
    assert_eq!(r.framework, Framework::NwJs);
    assert_eq!(r.versions.nwjs.as_deref(), Some("unknown"));
    assert_eq!(r.versions.chromium.as_deref(), Some("121.0.0.1"));
}
