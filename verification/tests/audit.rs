//! Posture audits: signatures, entitlements, declared exceptions, sandboxes and archives.

use achilles::audit::asar::{
    hex_digits_of, parse_asar_header_len, read_asar_header, sha256_asar_header, verify_all,
    AsarError,
};
use achilles::audit::linux::{detect_sandbox, flatpak_permissions};
use achilles::audit::macos::code_signature::{parse_report, read as read_signature};
use achilles::audit::macos::entitlements::{combined, needs_legacy, read as read_entitlements, Json};
use achilles::audit::macos::info_plist::read as read_flags;
use achilles::audit::{audit, AppAudit, AuditError, HostFacts, Trust};
use achilles::plist::{moment_text_of, parse, parse_xml, Token};
use achilles::vfs::{MemTree, Platform};
use achilles::xml_date::is_timely_of;

fn facts() -> HostFacts {
    HostFacts {
        code_signature: Default::default(),
        entitlements: Default::default(),
        trust: Trust {
            verdict: None,
            store: false,
        },
    }
}

/// An archive whose header JSON is `json`.
fn asar(json: &[u8], body: &[u8]) -> Vec<u8> {
    let n = json.len() as u32;
    let mut out = Vec::new();
    out.extend_from_slice(&4u32.to_le_bytes());
    out.extend_from_slice(&(n + 8).to_le_bytes());
    out.extend_from_slice(&(n + 4).to_le_bytes());
    out.extend_from_slice(&n.to_le_bytes());
    out.extend_from_slice(json);
    out.extend_from_slice(body);
    out
}

const SHA_OF_ABC: &str = "ba7816bf8f01cfea414140de5dae2223b00361a396177a9cb410ff61f20015ad";

#[test]
fn the_header_hash_is_that_of_its_json() {
    assert_eq!(sha256_asar_header(&asar(b"abc", b"")), Some(SHA_OF_ABC.into()));
    // The bodies do not count.
    assert_eq!(
        sha256_asar_header(&asar(b"abc", b"bodies")),
        Some(SHA_OF_ABC.into())
    );
    assert_eq!(sha256_asar_header(b"short"), None);
    assert_eq!(hex_digits_of(&[0x00, 0xff, 0x1a]), "00ff1a");
}

#[test]
fn broken_headers_say_what_is_wrong() {
    assert_eq!(read_asar_header(&asar(b"abc", b"x")).unwrap(), b"abc".to_vec());
    let short = read_asar_header(&[4, 0, 0]).unwrap_err();
    assert!(matches!(short, AsarError::Short));
    assert_eq!(short.message(), "asar shorter than 16 bytes");

    let mut outer = asar(b"abc", b"");
    outer[0] = 5;
    let e = parse_asar_header_len(&outer).unwrap_err();
    assert!(matches!(e, AsarError::Outer(5)));
    assert_eq!(e.message(), "expected pickle outer=4, got 5");

    let mut long = asar(b"abc", b"");
    long[15] = 0x7f;
    assert!(matches!(
        parse_asar_header_len(&long),
        Err(AsarError::TooLong(_))
    ));

    let mut cut = asar(b"abc", b"");
    cut.pop();
    assert!(matches!(read_asar_header(&cut), Err(AsarError::Truncated)));
}

fn info_plist(extra: &str) -> Vec<u8> {
    format!("<?xml version=\"1.0\"?><plist version=\"1.0\"><dict>{extra}</dict></plist>").into_bytes()
}

#[test]
fn declared_integrity_is_checked_against_the_archive() {
    let declare = |hash: &str| {
        info_plist(&format!(
            "<key>ElectronAsarIntegrity</key><dict><key>Resources/app.asar</key><dict>\
             <key>algorithm</key><string>SHA256</string><key>hash</key><string>{hash}</string>\
             </dict></dict>"
        ))
    };
    let mut tree = MemTree::default();
    tree.insert_file("/D.app/Contents/Info.plist", declare(SHA_OF_ABC));
    tree.insert_file("/D.app/Contents/Resources/app.asar", asar(b"abc", b"x"));
    let checks = verify_all(&tree, "/D.app").unwrap();
    assert_eq!(checks.len(), 1);
    assert!(checks[0].matches);
    assert_eq!(checks[0].archive_key, "Resources/app.asar");
    assert_eq!(checks[0].actual_hash.as_deref(), Some(SHA_OF_ABC));

    let mut tree = MemTree::default();
    tree.insert_file("/D.app/Contents/Info.plist", declare("00"));
    tree.insert_file("/D.app/Contents/Resources/app.asar", asar(b"abc", b"x"));
    assert!(!verify_all(&tree, "/D.app").unwrap()[0].matches);

    let mut tree = MemTree::default();
    tree.insert_file("/D.app/Contents/Info.plist", declare(SHA_OF_ABC));
    let checks = verify_all(&tree, "/D.app").unwrap();
    assert!(!checks[0].matches && checks[0].actual_hash.is_none());
}

#[test]
fn transport_exceptions_and_schemes_are_listed() {
    let mut tree = MemTree::default();
    tree.insert_file(
        "/D.app/Contents/Info.plist",
        info_plist(
            "<key>NSAppTransportSecurity</key><dict>\
             <key>NSAllowsArbitraryLoads</key><true/>\
             <key>NSExceptionDomains</key><dict><key>example.com</key><dict>\
             <key>NSExceptionAllowsInsecureHTTPLoads</key><true/>\
             <key>NSExceptionMinimumTLSVersion</key><string>TLSv1.0</string>\
             </dict></dict></dict>\
             <key>CFBundleURLTypes</key><array><dict><key>CFBundleURLSchemes</key>\
             <array><string>demo</string><string>demo2</string></array></dict></array>",
        ),
    );
    let f = read_flags(&tree, "/D.app");
    assert!(f.present && f.allows_arbitrary_loads && !f.allows_local_networking);
    assert_eq!(f.url_schemes, vec!["demo".to_string(), "demo2".to_string()]);
    assert_eq!(f.tls_exceptions.len(), 1);
    assert_eq!(f.tls_exceptions[0].domain, "example.com");
    assert!(f.tls_exceptions[0].allows_insecure_http);
    assert_eq!(
        f.tls_exceptions[0].minimum_tls_version.as_deref(),
        Some("TLSv1.0")
    );
    assert!(!read_flags(&tree, "/E.app").present);
}

#[test]
fn a_signature_report_is_read_line_by_line() {
    let report = "Executable=/x\nIdentifier=com.example\nCodeDirectory v=20500 flags=0x10000(runtime)\n\
                  Authority=Developer ID Application: Example\nAuthority=Apple Root CA\n\
                  TeamIdentifier=ABCDE12345\nNotarization Ticket=stapled\n";
    let s = parse_report(report.into());
    assert!(s.signed && s.hardened_runtime && s.notarized);
    assert_eq!(s.team_identifier.as_deref(), Some("ABCDE12345"));
    assert_eq!(s.authority.len(), 2);

    let s = parse_report("/x: code object is not signed at all\n".into());
    assert!(!s.signed && s.authority.is_empty());
    assert!(!read_signature(None).signed);
    // Bytes that are no text are replaced, not refused.
    assert!(read_signature(Some(b"code object is not signed at all \xff")).raw.ends_with('\u{fffd}'));
}

#[test]
fn entitlements_are_read_and_sorted() {
    let xml = b"<?xml version=\"1.0\"?><plist version=\"1.0\"><dict>\
        <key>com.apple.security.get-task-allow</key><true/>\
        <key>com.apple.security.cs.allow-jit</key><true/>\
        <key>a.list</key><array><integer>3</integer><string>x</string></array>\
        <key>b.reals</key><array><real>1.0</real><real>2.5</real><real>nan</real></array>\
        </dict></plist>"
        .to_vec();
    let e = read_entitlements(Some(xml), None);
    assert!(e.present && e.allow_jit && e.get_task_allow);
    assert!(!e.disable_library_validation);
    let keys: Vec<&str> = e.raw.iter().map(|(k, _)| k.as_str()).collect();
    assert_eq!(
        keys,
        vec![
            "a.list",
            "b.reals",
            "com.apple.security.cs.allow-jit",
            "com.apple.security.get-task-allow"
        ]
    );
    assert!(matches!(e.raw[0].1[0], Json::StartArray));
    assert!(matches!(&e.raw[0].1[1], Json::Number(n) if n == "3"));
    assert!(matches!(&e.raw[0].1[2], Json::Text(t) if t == "x"));
    assert!(matches!(&e.raw[1].1[1], Json::Number(n) if n == "1.0"));
    assert!(matches!(&e.raw[1].1[2], Json::Number(n) if n == "2.5"));
    assert!(matches!(&e.raw[1].1[3], Json::Null));

    assert!(!read_entitlements(None, None).present);
    assert!(needs_legacy(&None) && needs_legacy(&Some(vec![])) && !needs_legacy(&Some(vec![1])));
    assert_eq!(combined(vec![], vec![2]), vec![2]);
    assert_eq!(combined(vec![1], vec![2]), vec![1]);
}

/// A binary property list of one date under the key `d`, in seconds from 2001.
fn binary_date(seconds: f64) -> Vec<u8> {
    let mut out = b"bplist00".to_vec();
    out.extend_from_slice(&[0xd1, 1, 2, 0x51, b'd', 0x33]);
    out.extend_from_slice(&seconds.to_be_bytes());
    let table = out.len() as u64;
    out.extend_from_slice(&[8, 11, 13]);
    out.extend_from_slice(&[0, 0, 0, 0, 0, 0, 1, 1]);
    for n in [3u64, 0, table] {
        out.extend_from_slice(&n.to_be_bytes());
    }
    out
}

#[test]
fn dates_are_written_out_where_they_can_be() {
    let xml = info_plist("<key>d</key><date>1981-05-16T11:32:06Z</date>");
    for (list, text) in [
        (xml, Some("1981-05-16T11:32:06Z")),
        (binary_date(0.0), Some("2001-01-01T00:00:00Z")),
        (binary_date(-7.0e10), None),
    ] {
        let e = read_entitlements(Some(list), None);
        assert_eq!(e.raw[0].0, "d");
        match (&e.raw[0].1[0], text) {
            (Json::Text(t), Some(want)) => assert_eq!(t, want),
            (Json::Null, None) => {}
            other => panic!("{other:?}"),
        }
    }
    for seconds in [f64::NAN, 2.6e11] {
        assert!(!read_entitlements(Some(binary_date(seconds)), None).present);
    }
    assert_eq!(moment_text_of(&Ok(0)).as_deref(), Some("1970-01-01T00:00:00Z"));
    let year = 1_000_000_000u128;
    assert_eq!(
        moment_text_of(&Ok(253_402_300_799 * year)).as_deref(),
        Some("9999-12-31T23:59:59Z")
    );
    assert_eq!(moment_text_of(&Ok(253_402_300_800 * year)), None);
    assert_eq!(
        moment_text_of(&Err(62_167_219_200 * year)).as_deref(),
        Some("0000-01-01T00:00:00Z")
    );
    assert_eq!(moment_text_of(&Err(62_167_219_200 * year + 1)), None);
    assert_eq!(moment_text_of(&Ok(u128::MAX)), None);
}

#[test]
fn a_date_past_the_last_year_is_not_read() {
    for (date, timely) in [
        ("9999-12-31T23:59:59-23:59", false),
        ("9999-12-31T23:59:59-00:01", false),
        ("&#57;999-12-31T23:59:59-23:59", false),
        ("9999-12-31T23:59:59Z", true),
        ("9999-12-31T00:00:00-08:00", true),
        ("9998-12-31T23:59:59-23:59", true),
        ("0000-01-01T00:00:00+23:59", true),
        ("2024-02-29T12:00:00+05:30", true),
    ] {
        let list = info_plist(&format!("<key>d</key><date>{date}</date>"));
        assert_eq!(is_timely_of(&list), timely, "{date}");
        assert_eq!(parse(&list).is_some(), timely, "{date}");
        assert_eq!(parse_xml(&list).is_some(), timely, "{date}");
    }
    // A date that is none is the reader's to refuse.
    let list = info_plist("<key>d</key><date>yesterday</date>");
    assert!(is_timely_of(&list) && parse(&list).is_none());
}

#[test]
fn a_list_that_nests_too_deep_is_not_read() {
    let nested = |n: usize| {
        let inner = format!("{}{}", "<array>".repeat(n), "</array>".repeat(n));
        info_plist(&format!("<key>a</key>{inner}"))
    };
    let tokens = parse(&nested(511)).unwrap();
    assert_eq!(tokens.iter().filter(|t| matches!(t, Token::Array)).count(), 511);
    assert!(parse_xml(&nested(511)).is_some());
    assert!(parse(&nested(512)).is_none() && parse_xml(&nested(512)).is_none());
    assert!(parse(&nested(200_000)).is_none());
}

#[test]
fn a_flatpak_is_recognised_by_its_metadata() {
    let text = "[Application]\nname=org.example\n\n[Context]\nshared=network;ipc;\nfilesystems=home;\n";
    let got = flatpak_permissions(text);
    assert!(got.iter().any(|p| p.contains("network")));
    assert!(got.iter().any(|p| p.contains("home")));
    let mut tree = MemTree::default();
    tree.insert_file(
        "/var/lib/flatpak/app/org.example/current/active/metadata",
        text.as_bytes().to_vec(),
    );
    tree.insert_file(
        "/var/lib/flatpak/app/org.example/current/active/files/bin/x",
        b"\x7fELF".to_vec(),
    );
    let s = detect_sandbox(
        &tree,
        "/var/lib/flatpak/app/org.example/current/active/files/bin",
        Some("/var/lib/flatpak/app/org.example/current/active/files/bin/x"),
    )
    .unwrap();
    assert_eq!(s.kind, "flatpak");
    let snap = detect_sandbox(&tree, "/snap/foo/12", Some("/snap/foo/12/bin/foo")).unwrap();
    assert_eq!(snap.kind, "snap");
    assert!(detect_sandbox(&tree, "/usr/bin", Some("/usr/bin/x")).is_none());
}

#[test]
fn each_platform_has_its_audit() {
    let mut tree = MemTree::default();
    tree.insert_file("/D.app/Contents/Info.plist", info_plist(""));
    assert!(matches!(
        audit(&tree, Platform::Macos, "/D.app", "/D.app", None, facts()),
        Ok(AppAudit::Macos(_))
    ));
    tree.insert_file("/l/tool", b"\x7fELF".to_vec());
    tree.insert_file("/l/resources/app.asar", asar(b"abc", b""));
    match audit(&tree, Platform::Linux, "/l/tool", "/l", Some("/l/tool"), facts()) {
        Ok(AppAudit::Linux(a)) => {
            let info = a.asar.unwrap();
            assert_eq!(info.archive_path, "/l/resources/app.asar");
            assert_eq!(info.header_sha256.as_deref(), Some(SHA_OF_ABC));
        }
        _ => panic!("a Linux audit"),
    }
    match audit(&tree, Platform::Linux, "/gone", "/", None, facts()) {
        Err(e) => {
            assert!(matches!(&e, AuditError::NotFound(_)));
            assert_eq!(e.message(), "path not found: /gone");
        }
        _ => panic!("nothing is there"),
    }
}
