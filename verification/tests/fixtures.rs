//! The sample application and the assessment of what a scan reports on it.

use achilles::assess::{assess, Expected, Item, Observed, Report};
use achilles::audit::asar::{read_asar_header, verify_all};
use achilles::detect::{detect, Framework, Host};
use achilles::fixture::{
    asar_header_sha256, build_app, build_asar, pack_asar, APP_NAME, ASAR_NAME, CHROMIUM_VERSION,
    ELECTRON_VERSION, NODE_VERSION,
};
use achilles::reports::{
    archives_of, document_fault, items_of, paired_of, read_expected, read_observed, rules_of,
    strings_of, truth_of, versions_of, Found,
};
use achilles::vfs::{MemTree, Platform};

fn files() -> Vec<(String, Vec<u8>)> {
    vec![
        ("main.js".into(), b"require('electron')".to_vec()),
        ("a \"quoted\" name".into(), b"xy".to_vec()),
    ]
}

#[test]
fn a_packed_archive_reads_back() {
    let asar = build_asar(&files()).unwrap();
    let header = read_asar_header(&asar).unwrap();
    let json: serde_json::Value = serde_json::from_slice(&header).unwrap();
    assert_eq!(json["files"]["main.js"]["size"], 19);
    assert_eq!(json["files"]["main.js"]["offset"], "0");
    assert_eq!(json["files"]["a \"quoted\" name"]["offset"], "19");
    assert!(asar.ends_with(b"require('electron')xy"));
    assert_eq!(read_asar_header(&pack_asar(b"{}", b"body")).unwrap(), b"{}".to_vec());
}

#[test]
fn names_are_escaped_in_the_header() {
    let odd = vec![("a\\\"\u{8}\t\n\u{c}\r\u{1f}\u{7f}\u{e9}/".to_string(), Vec::new())];
    let asar = build_asar(&odd).unwrap();
    let header = String::from_utf8(read_asar_header(&asar).unwrap()).unwrap();
    assert_eq!(
        header,
        "{\"files\":{\"a\\\\\\\"\\b\\t\\n\\f\\r\\u001f\u{7f}\u{e9}/\":{\"offset\":\"0\",\"size\":0}}}"
    );
}

#[test]
fn the_sample_is_detected_and_its_archive_matches() {
    let asar = build_asar(&files()).unwrap();
    assert_eq!(asar_header_sha256(&asar).len(), 64);
    let mut tree = MemTree::default();
    for (path, body) in build_app("/out", asar) {
        tree.insert_file(&path, body);
    }
    let app = format!("/out/{APP_NAME}");
    let host = Host {
        webview: None,
        sciter: None,
    };
    let r = detect(&tree, Platform::Macos, &app, host).unwrap();
    assert_eq!(r.framework, Framework::Electron);
    assert_eq!(r.versions.electron.as_deref(), Some(ELECTRON_VERSION));
    assert_eq!(r.versions.chromium.as_deref(), Some(CHROMIUM_VERSION));
    assert_eq!(r.versions.node.as_deref(), Some(NODE_VERSION));
    let checks = verify_all(&tree, &app).unwrap();
    assert_eq!(checks.len(), 1);
    assert!(checks[0].matches);
    assert_eq!(ASAR_NAME, "electron-sample.asar");
}

fn item(label: &str) -> Item {
    Item {
        label: label.into(),
        json: format!("\"{label}\""),
    }
}

#[test]
fn an_assessment_counts_what_was_found() {
    let expected = Expected {
        framework: "\"electron\"".into(),
        confidence: None,
        versions: vec![item("electron")],
        findings: vec![item("rule-a"), item("rule-b")],
        dependencies: vec![],
        arbitrary_loads: Some(true),
        url_schemes: vec![],
        tls_domains: vec![],
        archive: item("Resources/app.asar"),
        archive_matches: true,
    };
    let observed = Observed {
        framework: "\"electron\"".into(),
        confidence: "\"high\"".into(),
        versions: vec!["\"electron\"".into()],
        findings: vec!["\"rule-a\"".into(), "\"rule-z\"".into()],
        dependencies: vec![],
        arbitrary_loads: Some(true),
        url_schemes: vec![],
        tls_domains: vec![],
        matching_archives: vec!["\"Resources/app.asar\"".into()],
        differing_archives: vec![],
    };
    let checks = assess(&expected, &observed);
    let report = Report::of(&checks);
    assert_eq!(report.fail, 1);
    assert_eq!(report.pass + report.fail, checks.len());
    let failed: Vec<&str> = checks
        .iter()
        .filter(|c| !c.ok)
        .map(|c| c.label.as_str())
        .collect();
    assert!(failed[0].contains("rule-b"));
}

fn found(json: &str) -> Option<Found> {
    let text = json.strip_prefix('"').and_then(|s| s.strip_suffix('"'));
    Some(Found {
        json: json.into(),
        text: text.map(str::to_string),
    })
}

#[test]
fn values_are_picked_out_of_columns() {
    let column = vec![found("\"a\""), None, found("7"), found("\"b\"")];
    assert_eq!(strings_of(&column), vec!["a".to_string(), "b".to_string()]);
    let items = items_of(&column);
    assert_eq!((items[1].label.as_str(), items[1].json.as_str()), ("", "null"));
    assert_eq!((items[2].label.as_str(), items[2].json.as_str()), ("", "7"));
    assert_eq!(rules_of(&column)[3].json, "b");
    let paired = paired_of(&column, &vec![found("\"1.0\"")]);
    assert_eq!((paired[0].label.as_str(), paired[0].json.as_str()), ("a@1.0", "\"a\" \"1.0\""));
    assert_eq!((paired[2].label.as_str(), paired[2].json.as_str()), ("@", "7 null"));
    assert_eq!(truth_of(&found("true")), Some(true));
    assert_eq!(truth_of(&found("\"true\"")), None);
    let verdicts = vec![found("true"), found("false"), None, found("true")];
    assert_eq!(
        archives_of(&column, &verdicts, true),
        vec!["\"a\"".to_string(), "\"b\"".to_string()]
    );
    assert_eq!(archives_of(&column, &verdicts, false), vec!["null".to_string()]);
    let wanted = vec![
        ("qt".to_string(), found("1").unwrap()),
        ("cef".to_string(), found("2").unwrap()),
    ];
    let seen = vec![("cef".to_string(), found("3").unwrap())];
    assert_eq!(versions_of(&wanted, &seen), vec!["null".to_string(), "3".to_string()]);
}

#[test]
fn reports_are_held_against_a_manifest() {
    let manifest = br#"{
        "detection": {"framework": "electron", "versions": {"electron": "28.0.0", "node": "18"}},
        "staticFindings": ["rule-a", "rule-b"],
        "dependencies": [{"name": "left-pad", "version": "1.0.0"}],
        "audit": {
            "infoPlist": {
                "allowsArbitraryLoads": true,
                "urlSchemes": ["sample"],
                "tlsExceptionDomains": ["example.com"]
            },
            "asarIntegrity": {"archiveKey": "Resources/app.asar"}
        }
    }"#;
    let detect = br#"{"framework": "electron", "versions": {"electron": "28.0.0"}}"#;
    let scan = br#"{
        "findings": [{"rule_id": "rule-a"}, {"rule_id": 3}, {}],
        "dependencies": [{"version": "1.0.0", "name": "left-pad"}]
    }"#;
    let audit = br#"{
        "info_plist": {
            "allows_arbitrary_loads": true,
            "url_schemes": ["other", "sample"],
            "tls_exceptions": [{"domain": "example.com"}]
        },
        "asar_integrity": [{"archive_key": "Resources/app.asar", "matches": true}]
    }"#;
    let expected = read_expected(manifest);
    assert_eq!(expected.confidence, None);
    assert_eq!(expected.versions[0].label, "electron");
    assert_eq!(expected.versions[0].json, "\"28.0.0\"");
    assert_eq!(expected.dependencies[0].label, "left-pad@1.0.0");
    assert!(expected.archive_matches);
    let observed = read_observed(manifest, detect, scan, audit);
    assert_eq!(observed.framework, "\"electron\"");
    assert_eq!(observed.confidence, "null");
    assert_eq!(observed.versions, vec!["\"28.0.0\"".to_string(), "null".to_string()]);
    assert_eq!(observed.findings, vec!["rule-a".to_string()]);
    assert_eq!(observed.tls_domains, vec!["\"example.com\"".to_string()]);
    assert_eq!(observed.matching_archives, vec!["\"Resources/app.asar\"".to_string()]);
    let checks = assess(&expected, &observed);
    let labels: Vec<&str> = checks.iter().map(|c| c.label.as_str()).collect();
    assert_eq!(
        labels,
        vec![
            "framework",
            "version.electron",
            "version.node",
            "rule-a",
            "rule-b",
            "left-pad@1.0.0",
            "infoPlist.allowsArbitraryLoads",
            "infoPlist.urlScheme sample",
            "infoPlist.tlsException example.com",
            "asarIntegrity Resources/app.asar matches=true",
        ]
    );
    let failed: Vec<&str> = checks.iter().filter(|c| !c.ok).map(|c| c.label.as_str()).collect();
    assert_eq!(failed, vec!["version.node", "rule-b"]);
}

#[test]
fn what_is_no_document_is_told() {
    assert_eq!(document_fault(b"{}"), None);
    assert_eq!(
        document_fault(b"{").as_deref(),
        Some("EOF while parsing an object at line 1 column 1")
    );
    let empty = read_expected(b"[]");
    assert_eq!(empty.framework, "null");
    assert!(empty.findings.is_empty() && empty.versions.is_empty());
    assert_eq!(empty.archive.json, "null");
}
