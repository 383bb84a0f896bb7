//! Executable images: what the audits and the detectors read off PE and ELF files.

use achilles::audit::linux::{elf_hardening, RelroKind};
use achilles::audit::windows::{
    extract_signer, parse_pe, scan_execution_level, settle_trust, signer_names_of, Certificate,
    Signed,
};
use achilles::audit::{AppAudit, HostFacts, Trust};
use achilles::detect::app::Layout;
use achilles::detect::metadata::{
    read_pe_metadata, resource_info_of, version_strings, VersionStrings,
};
use achilles::vfs::{MemTree, Platform};

fn put(out: &mut [u8], at: usize, bytes: &[u8]) {
    out[at..at + bytes.len()].copy_from_slice(bytes);
}

fn put16(out: &mut [u8], at: usize, v: u16) {
    put(out, at, &v.to_le_bytes());
}

fn put32(out: &mut [u8], at: usize, v: u32) {
    put(out, at, &v.to_le_bytes());
}

fn put64(out: &mut [u8], at: usize, v: u64) {
    put(out, at, &v.to_le_bytes());
}

fn wide(s: &str) -> Vec<u8> {
    s.encode_utf16().chain(std::iter::once(0)).flat_map(|u| u.to_le_bytes()).collect()
}

/// One block of a version resource: header, key, value and children, each padded.
fn version_block(key: &str, kind: u16, value_len: u16, value: &[u8], children: &[Vec<u8>]) -> Vec<u8> {
    let mut out = vec![0u8; 6];
    out.extend(wide(key));
    while out.len() % 4 != 0 {
        out.push(0);
    }
    out.extend_from_slice(value);
    for c in children {
        while out.len() % 4 != 0 {
            out.push(0);
        }
        out.extend_from_slice(c);
    }
    let n = out.len() as u16;
    put16(&mut out, 0, n);
    put16(&mut out, 2, value_len);
    put16(&mut out, 4, kind);
    out
}

fn version_string(key: &str, value: &str) -> Vec<u8> {
    let v = wide(value);
    version_block(key, 1, (v.len() / 2) as u16, &v, &[])
}

fn version_info() -> Vec<u8> {
    let mut fixed = vec![0u8; 52];
    put32(&mut fixed, 0, 0xfeef04bd);
    put32(&mut fixed, 4, 0x10000);
    let table = version_block(
        "040904b0",
        1,
        0,
        &[],
        &[
            version_string("CompanyName", "Example"),
            version_string("ProductName", "Widget"),
            version_string("ProductVersion", "3.1.4"),
        ],
    );
    let strings = version_block("StringFileInfo", 1, 0, &[], &[table]);
    let mut pair = vec![0u8; 4];
    put16(&mut pair, 0, 0x409);
    put16(&mut pair, 2, 0x4b0);
    let var = version_block("Translation", 0, 4, &pair, &[]);
    let vars = version_block("VarFileInfo", 1, 0, &[], &[var]);
    version_block("VS_VERSION_INFO", 0, 52, &fixed, &[strings, vars])
}

/// A 64-bit PE image with one section, holding an import of `Qt6Core.dll` and a
/// version resource; `certificates` is appended behind it.
fn pe_image(characteristics: u16, certificates: &[u8]) -> Vec<u8> {
    pe_image_with(characteristics, certificates, &version_info())
}

fn pe_image_with(characteristics: u16, certificates: &[u8], info: &[u8]) -> Vec<u8> {
    let base = 0x200usize;
    let mut image = vec![0u8; base + 0x1000];
    put(&mut image, 0, b"MZ");
    put32(&mut image, 0x3c, 0x40);
    put(&mut image, 0x40, b"PE\0\0");
    put16(&mut image, 0x44, 0x8664); // machine
    put16(&mut image, 0x46, 1); // sections
    put16(&mut image, 0x54, 240); // optional header
    put16(&mut image, 0x56, 0x22); // characteristics
    let opt = 0x58;
    put16(&mut image, opt, 0x20b);
    put32(&mut image, opt + 8, 0x1000); // initialised data
    put64(&mut image, opt + 24, 0x1_4000_0000);
    put32(&mut image, opt + 32, 0x1000);
    put32(&mut image, opt + 36, 0x200);
    put16(&mut image, opt + 40, 6);
    put16(&mut image, opt + 48, 6);
    put32(&mut image, opt + 56, 0x2000);
    put32(&mut image, opt + 60, 0x200);
    put16(&mut image, opt + 68, 3);
    put16(&mut image, opt + 70, characteristics);
    put64(&mut image, opt + 72, 0x10_0000);
    put64(&mut image, opt + 80, 0x1000);
    put64(&mut image, opt + 88, 0x10_0000);
    put64(&mut image, opt + 96, 0x1000);
    put32(&mut image, opt + 108, 16);
    let dirs = opt + 112;
    put32(&mut image, dirs + 8, 0x1000); // imports
    put32(&mut image, dirs + 12, 40);
    put32(&mut image, dirs + 16, 0x1200); // resources
    put32(&mut image, dirs + 20, 0x800);
    if !certificates.is_empty() {
        let at = image.len() as u32;
        put32(&mut image, dirs + 32, at);
        put32(&mut image, dirs + 36, certificates.len() as u32);
    }
    let section = opt + 240;
    put(&mut image, section, b".data\0\0\0");
    put32(&mut image, section + 8, 0x1000);
    put32(&mut image, section + 12, 0x1000);
    put32(&mut image, section + 16, 0x1000);
    put32(&mut image, section + 20, 0x200);
    put32(&mut image, section + 36, 0x4000_0040);

    // The import table: one descriptor, one function by name.
    put32(&mut image, base, 0x1040);
    put32(&mut image, base + 12, 0x1080);
    put32(&mut image, base + 16, 0x1060);
    put64(&mut image, base + 0x40, 0x10a0);
    put64(&mut image, base + 0x60, 0x10a0);
    put(&mut image, base + 0x80, b"Qt6Core.dll\0");
    put(&mut image, base + 0xa0, b"\0\0init\0");

    // The resource tree: version, 1, English.
    let res = base + 0x200;
    put16(&mut image, res + 14, 1);
    put32(&mut image, res + 16, 16);
    put32(&mut image, res + 20, 0x8000_0020);
    put16(&mut image, res + 0x20 + 14, 1);
    put32(&mut image, res + 0x20 + 16, 1);
    put32(&mut image, res + 0x20 + 20, 0x8000_0040);
    put16(&mut image, res + 0x40 + 14, 1);
    put32(&mut image, res + 0x40 + 16, 0x409);
    put32(&mut image, res + 0x40 + 20, 0x60);
    put32(&mut image, res + 0x60, 0x1280);
    put32(&mut image, res + 0x64, info.len() as u32);
    put(&mut image, res + 0x80, info);

    image.extend_from_slice(certificates);
    image
}

/// A PKCS#7 signature over two bytes, made with a certificate for `CN=Example Corp` that
/// `CN=Test Root` issued; the root's own certificate comes with it.
const SIGNED: &[&str] = &[
    "308203ca06092a864886f70d010702a08203bb308203b7020101310d300b0609608648016503040201301106092a8648",
    "86f70d010701a00404026869a08202f43082017030820115a00302010202147c4522082f063b222b00988475c8cede78",
    "32cc5b300a06082a8648ce3d04030230143112301006035504030c095465737420526f6f74301e170d32363131313531",
    "35333131325a170d3336313131323135333131325a30173115301306035504030c0c4578616d706c6520436f72703059",
    "301306072a8648ce3d020106082a8648ce3d0301070342000465b5d2fab2efa8ff4c908cdfbe20b23d42ebe0391271cd",
    "61b39ddce7bb6a23eec2279240eb84cada0362fa49378235d32e6ba128d3d3defd7475107b80d16b52a3423040301d06",
    "03551d0e0416041497090946b373e3b3929812a6baba20876955914f301f0603551d2304183016801403a6d694b2aa48",
    "396244d17e2aa7eba097e07157300a06082a8648ce3d0403020349003046022100f947a995d62b057a6441d0159246e4",
    "f1689c7a7e99fca31ea803292817b2d927022100b7303f5f9f699630f6a0a7c21409e78e646764c2fb2b79836edd2a1a",
    "e4553be23082017c30820123a003020102021436271f10644225bae4c38afb62a44f0fb61547c9300a06082a8648ce3d",
    "04030230143112301006035504030c095465737420526f6f74301e170d3236313131353135333131325a170d33363131",
    "31323135333131325a30143112301006035504030c095465737420526f6f743059301306072a8648ce3d020106082a86",
    "48ce3d030107034200045ceaa611e0194d16f062fbb5eed41ea9c7fcb34efb2966f1dfac92a9feebfbf23f2c8163e78f",
    "d190789c299b65352e34ad8582f2beb4c5eb2d5458b8374056c0a3533051301d0603551d0e0416041403a6d694b2aa48",
    "396244d17e2aa7eba097e07157301f0603551d2304183016801403a6d694b2aa48396244d17e2aa7eba097e07157300f",
    "0603551d130101ff040530030101ff300a06082a8648ce3d0403020347003044022032206c9fb1cb1c640418b2fc016f",
    "9df7b68c3b4fafbf46a9553f4dc4b7c73f5d02200a936865fd836da462135784ffbb0157c9af004299b9b4c558e39c8c",
    "68798f13318197308194020101302c30143112301006035504030c095465737420526f6f7402147c4522082f063b222b",
    "00988475c8cede7832cc5b300b0609608648016503040201300a06082a8648ce3d04030204483046022100b3e599b7b2",
    "d64e90131a7c16505c040934d4b8f093b32595518e02dfa0f8e72c022100fe19456bae4e7e59584fcc4b7b7105950c7f",
    "3f0c59b85bccabed394c42d0459d",
];

fn signed() -> Vec<u8> {
    let hex: String = SIGNED.concat();
    (0..hex.len() / 2)
        .map(|i| u8::from_str_radix(&hex[2 * i..2 * i + 2], 16).unwrap())
        .collect()
}

/// The signature in a certificate table.
fn certificate_table(der: &[u8], kind: u16) -> Vec<u8> {
    let mut out = vec![0u8; 8];
    put32(&mut out, 0, der.len() as u32 + 8);
    put16(&mut out, 4, 0x200);
    put16(&mut out, 6, kind);
    out.extend_from_slice(der);
    out
}

#[test]
fn pe_mitigations_are_the_characteristics_bits() {
    let (signature, hardening) = parse_pe(&pe_image(0x0040 | 0x4000, &[]));
    assert!(hardening.is_pe);
    assert!(hardening.aslr && hardening.cfg);
    assert!(!hardening.dep && !hardening.high_entropy_va);
    assert!(!signature.signed);
    assert_eq!(signature.note, None);

    let (_, all) = parse_pe(&pe_image(0x0020 | 0x0040 | 0x0100 | 0x4000, &[]));
    assert!(all.aslr && all.dep && all.cfg && all.high_entropy_va);

    let (_, other) = parse_pe(b"not an image at all");
    assert!(!other.is_pe);
}

#[test]
fn the_signer_is_named_by_its_certificate() {
    let table = certificate_table(&signed(), 2);
    let (signature, _) = parse_pe(&pe_image(0, &table));
    assert!(signature.signed);
    assert_eq!(signature.subject.as_deref(), Some("CN=Example Corp"));
    assert_eq!(signature.issuer.as_deref(), Some("CN=Test Root"));
    assert_eq!(
        extract_signer(&table, 0, table.len()),
        Some(("CN=Example Corp".into(), "CN=Test Root".into()))
    );
}

#[test]
fn an_unreadable_certificate_table_still_says_signed() {
    let (signature, _) = parse_pe(&pe_image(0, &certificate_table(&[1, 2, 3], 2)));
    assert!(signature.signed);
    assert_eq!(signature.subject, None);
    assert_eq!(
        signature.note.as_deref(),
        Some("signature present; signer certificate unparsed")
    );
    // Another kind of certificate, and a table out of range.
    let x509 = certificate_table(&signed(), 1);
    assert_eq!(extract_signer(&x509, 0, x509.len()), None);
    assert_eq!(extract_signer(&x509, 4, x509.len()), None);
}

#[test]
fn without_an_exact_match_the_first_certificate_names_the_signer() {
    let certificate = |name: &str, issued: &[u8]| {
        Some(Certificate {
            subject: name.into(),
            issuer: "CN=R".into(),
            issued: Some(issued.to_vec()),
        })
    };
    let s = Signed {
        signers: vec![Some(vec![2]), Some(vec![1])],
        certificates: Some(vec![None, certificate("CN=A", &[1]), certificate("CN=B", &[2])]),
    };
    assert_eq!(signer_names_of(&Some(s)), Some(("CN=B".into(), "CN=R".into())));
    let s = Signed {
        signers: vec![Some(vec![9])],
        certificates: Some(vec![None, certificate("CN=A", &[1]), certificate("CN=B", &[2])]),
    };
    assert_eq!(signer_names_of(&Some(s)), Some(("CN=A".into(), "CN=R".into())));
    let s = Signed {
        signers: vec![Some(vec![9])],
        certificates: None,
    };
    assert_eq!(signer_names_of(&Some(s)), None);
    assert_eq!(signer_names_of(&None), None);
    for signers in [vec![], vec![None, Some(vec![2])]] {
        let s = Signed {
            signers,
            certificates: Some(vec![certificate("CN=A", &[1]), certificate("CN=B", &[2])]),
        };
        assert_eq!(signer_names_of(&Some(s)), Some(("CN=A".into(), "CN=R".into())));
    }
}

#[test]
fn trust_is_only_asked_of_a_signed_image() {
    let (unsigned, _) = parse_pe(&pe_image(0, &[]));
    let settled = settle_trust(unsigned, Trust { verdict: Some(true), store: true });
    assert_eq!(settled.trusted, None);

    let (signed_image, _) = parse_pe(&pe_image(0, &certificate_table(&signed(), 2)));
    let settled = settle_trust(signed_image, Trust { verdict: Some(false), store: true });
    assert_eq!(settled.trusted, Some(false));
}

#[test]
fn the_manifest_states_the_execution_level() {
    let manifest = b"<x><requestedExecutionLevel level=\"requireAdministrator\" uiAccess=\"false\"/>";
    assert_eq!(
        scan_execution_level(manifest),
        Some("requireAdministrator".into())
    );
    assert_eq!(scan_execution_level(b"no manifest"), None);
}

#[test]
fn a_windows_audit_reads_its_executable() {
    let mut tree = MemTree::default();
    let mut image = pe_image(0x0040, &certificate_table(&signed(), 2));
    image.extend_from_slice(b"requestedExecutionLevel level=\"asInvoker\"");
    tree.insert_file("/app/w.exe", image);
    let facts = HostFacts {
        code_signature: Default::default(),
        entitlements: Default::default(),
        trust: Trust { verdict: None, store: false },
    };
    let r = achilles::audit::audit(
        &tree,
        Platform::Windows,
        "/app/w.exe",
        "/app",
        Some("/app/w.exe"),
        facts,
    );
    let Ok(AppAudit::Windows(a)) = r else {
        panic!("a Windows audit");
    };
    assert!(a.hardening.aslr);
    assert_eq!(a.signature.subject.as_deref(), Some("CN=Example Corp"));
    assert_eq!(
        a.manifest.requested_execution_level.as_deref(),
        Some("asInvoker")
    );
    assert!(a.asar.is_none());
}

#[test]
fn the_version_resource_names_the_application() {
    let mut tree = MemTree::default();
    tree.insert_file("/app/w.exe", pe_image(0, &[]));
    let info = read_pe_metadata(&tree, "/app/w.exe");
    assert_eq!(info.executable.as_deref(), Some("/app/w.exe"));
    assert_eq!(info.display_name.as_deref(), Some("Widget"));
    assert_eq!(info.bundle_version.as_deref(), Some("3.1.4"));
    assert_eq!(info.bundle_id.as_deref(), Some("Example.Widget"));

    // Wherever the image stands in memory.
    let mut shifted = vec![0u8];
    shifted.extend_from_slice(&pe_image(0, &[]));
    let strings = version_strings(&shifted[1..]);
    assert_eq!(strings.product_name.as_deref(), Some("Widget"));
    assert_eq!(version_strings(b"").product_name, None);

    tree.insert_file("/app/plain", b"text".to_vec());
    let info = read_pe_metadata(&tree, "/app/plain");
    assert_eq!(info.display_name, None);
}

#[test]
fn a_version_resource_without_room_for_its_padding_has_no_strings() {
    let words = [10u16, 0, 0, 0x41, 0];
    let cramped: Vec<u8> = words.iter().flat_map(|w| w.to_le_bytes()).collect();
    assert_eq!(version_strings(&pe_image_with(0, &[], &cramped)).product_name, None);

    // The same at the end of a block that is well laid out.
    let mut children = version_string("ProductName", "Widget");
    while children.len() % 4 != 0 {
        children.push(0);
    }
    children.extend_from_slice(&cramped);
    let table = version_block("040904b0", 1, 0, &[], &[children]);
    let strings = version_block("StringFileInfo", 1, 0, &[], &[table]);
    let info = version_block("VS_VERSION_INFO", 0, 0, &[], &[strings]);
    assert_eq!(version_strings(&pe_image_with(0, &[], &info)).product_name, None);
}

#[test]
fn an_image_off_its_boundaries_has_no_version_resource() {
    let mut image = pe_image(0, &[]);
    assert_eq!(version_strings(&image).product_name.as_deref(), Some("Widget"));
    // The resources are said to lie two bytes on.
    put32(&mut image, 0x58 + 112 + 16, 0x1202);
    assert_eq!(version_strings(&image).product_name, None);
    // So it is when the section that holds them starts two bytes on in the file.
    let mut image = pe_image(0, &[]);
    put32(&mut image, 0x58 + 240 + 20, 0x202);
    assert_eq!(version_strings(&image).product_name, None);
    // A section that does not hold them may start anywhere.
    let mut image = pe_image(0, &[]);
    put16(&mut image, 0x46, 2);
    let second = 0x58 + 240 + 40;
    put32(&mut image, second + 8, 0x10);
    put32(&mut image, second + 12, 0x2003);
    put32(&mut image, second + 16, 0x10);
    put32(&mut image, second + 20, 0x203);
    assert_eq!(version_strings(&image).product_name.as_deref(), Some("Widget"));
}

#[test]
fn blank_version_strings_are_passed_over() {
    let v = VersionStrings {
        product_name: Some("  ".into()),
        file_description: Some("Tool".into()),
        company_name: None,
        product_version: None,
        file_version: Some("1.0".into()),
    };
    let info = resource_info_of(&v, "/t.exe");
    assert_eq!(info.display_name.as_deref(), Some("Tool"));
    assert_eq!(info.bundle_id.as_deref(), Some("Tool"));
    assert_eq!(info.bundle_version.as_deref(), Some("1.0"));
}

#[test]
fn linked_libraries_are_found_in_the_import_table() {
    let mut tree = MemTree::default();
    tree.insert_file("/app/w.exe", pe_image(0, &[]));
    let layout = Layout::new(&tree, "/app".into(), Some("/app/w.exe".into()), Platform::Windows);
    assert!(layout.has_library(&tree, "qt6core"));
    assert!(!layout.has_library(&tree, "libcef"));
}

// ---- ELF ---------------------------------------------------------------

/// A position-independent 64-bit ELF executable that needs `libQt6Core.so.6`.
fn elf_image(bind_now: bool, stack_flags: u32) -> Vec<u8> {
    let mut image = vec![0u8; 0x600];
    put(&mut image, 0, b"\x7fELF");
    image[4] = 2;
    image[5] = 1;
    image[6] = 1;
    put16(&mut image, 0x10, 3); // ET_DYN
    put16(&mut image, 0x12, 0x3e);
    put32(&mut image, 0x14, 1);
    put64(&mut image, 0x20, 0x40); // program headers
    put16(&mut image, 0x34, 0x40);
    put16(&mut image, 0x36, 0x38);
    put16(&mut image, 0x38, 5);
    put16(&mut image, 0x3a, 0x40);
    let segments: [(u32, u32, u64, u64); 5] = [
        (1, 5, 0, 0x600),               // PT_LOAD
        (2, 6, 0x200, 0x90),            // PT_DYNAMIC
        (3, 4, 0x500, 0x10),            // PT_INTERP
        (0x6474_e551, stack_flags, 0, 0), // PT_GNU_STACK
        (0x6474_e552, 4, 0x200, 0x90),  // PT_GNU_RELRO
    ];
    for (i, (kind, flags, at, len)) in segments.into_iter().enumerate() {
        let p = 0x40 + i * 0x38;
        put32(&mut image, p, kind);
        put32(&mut image, p + 4, flags);
        put64(&mut image, p + 8, at);
        put64(&mut image, p + 16, at);
        put64(&mut image, p + 24, at);
        put64(&mut image, p + 32, len);
        put64(&mut image, p + 40, len);
        put64(&mut image, p + 48, 8);
    }
    let flags: u64 = if bind_now { 8 } else { 0 };
    let dynamic: [(u64, u64); 9] = [
        (1, 1),        // DT_NEEDED
        (5, 0x400),    // DT_STRTAB
        (10, 0x60),    // DT_STRSZ
        (6, 0x300),    // DT_SYMTAB
        (11, 24),      // DT_SYMENT
        (4, 0x3a0),    // DT_HASH
        (30, flags),   // DT_FLAGS
        (0, 0),
        (0, 0),
    ];
    for (i, (tag, value)) in dynamic.into_iter().enumerate() {
        put64(&mut image, 0x200 + i * 16, tag);
        put64(&mut image, 0x208 + i * 16, value);
    }
    // The strings: the library, then two symbols.
    put(&mut image, 0x401, b"libQt6Core.so.6\0");
    put(&mut image, 0x420, b"__stack_chk_fail\0");
    put(&mut image, 0x440, b"__printf_chk\0");
    // Symbols 1 and 2; symbol 0 is null.
    put32(&mut image, 0x300 + 24, 0x20);
    put32(&mut image, 0x300 + 48, 0x40);
    // The hash table: one bucket, three chains.
    put32(&mut image, 0x3a0, 1);
    put32(&mut image, 0x3a4, 3);
    put(&mut image, 0x500, b"/lib64/ld.so\0");
    image
}

#[test]
fn elf_mitigations_are_read_off_the_headers() {
    let mut tree = MemTree::default();
    tree.insert_file("/app/hard", elf_image(true, 6));
    tree.insert_file("/app/soft", elf_image(false, 7));
    tree.insert_file("/app/text", b"#!/bin/sh\n".to_vec());

    let hard = elf_hardening(&tree, "/app/hard");
    assert!(hard.is_elf && hard.pie && hard.nx && hard.stack_canary && hard.fortify_source);
    assert_eq!(hard.relro, RelroKind::Full);

    let soft = elf_hardening(&tree, "/app/soft");
    assert!(soft.is_elf && !soft.nx);
    assert_eq!(soft.relro, RelroKind::Partial);

    let text = elf_hardening(&tree, "/app/text");
    assert!(!text.is_elf);
    assert_eq!(text.relro, RelroKind::Absent);
    assert!(!elf_hardening(&tree, "/app/missing").is_elf);
}

#[test]
fn needed_libraries_are_found_in_the_dynamic_section() {
    let mut tree = MemTree::default();
    tree.insert_file("/app/tool", elf_image(true, 6));
    let layout = Layout::new(&tree, "/app".into(), Some("/app/tool".into()), Platform::Linux);
    assert!(layout.has_library(&tree, "libqt6core"));
    assert!(!layout.has_library(&tree, "libcef"));
}

#[test]
fn a_linux_audit_reads_its_executable() {
    let mut tree = MemTree::default();
    tree.insert_file("/app/tool", elf_image(true, 6));
    let a = achilles::audit::linux::audit(&tree, "/app/tool", "/app", Some("/app/tool"));
    assert!(a.hardening.pie);
    assert!(a.sandbox.is_none());
    assert!(a.asar.is_none());
}
