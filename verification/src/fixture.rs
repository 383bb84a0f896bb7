//! A synthetic, deliberately-vulnerable Electron app, as a stable target to assess: a
//! packed `app.asar` and a minimal macOS `.app` bundle whose `Contents/Info.plist`
//! declares a *correct* `ElectronAsarIntegrity` hash (so the integrity check passes) but
//! several weak hardening flags.

use vstd::prelude::*;
use vstd::utf8::*;

use crate::audit::asar::{
    half_digit, header, header_hash, hex_digits, hex_digits_of, sha256, sha256_of, MAX_HEADER,
};
use crate::bytes::{le32, le32_of};
use crate::num::{decimal, decimal_of};
use crate::path::{push_of, pushed};
use crate::sorted::{filed, key_texts, keys, slot_of};
use crate::text::{concat3, same};

verus! {

/// Electron's version, baked into the fake framework.
pub const ELECTRON_VERSION: &'static str = "28.1.0";

/// Chromium's version, baked into the fake framework. Four parts.
pub const CHROMIUM_VERSION: &'static str = "120.0.6099.109";

/// Node's version, baked into the fake framework.
pub const NODE_VERSION: &'static str = "18.18.2";

/// The name of the archive.
pub const ASAR_NAME: &'static str = "electron-sample.asar";

/// The name of the bundle.
pub const APP_NAME: &'static str = "ElectronSample.app";

/// A character within a JSON string: quotes, backslashes and control characters are
/// escaped, the latter by a letter where they have one, else by two hexadecimal digits.
pub open spec fn json_char(c: char) -> Seq<char> {
    if c == '"' || c == '\\' {
        seq!['\\', c]
    } else if c as int >= 32 {
        seq![c]
    } else if c as int == 8 {
        seq!['\\', 'b']
    } else if c as int == 9 {
        seq!['\\', 't']
    } else if c as int == 10 {
        seq!['\\', 'n']
    } else if c as int == 12 {
        seq!['\\', 'f']
    } else if c as int == 13 {
        seq!['\\', 'r']
    } else {
        seq!['\\', 'u', '0', '0', half_digit(c as int / 16), half_digit(c as int % 16)]
    }
}

/// What stands between the quotes of a JSON string.
pub open spec fn json_chars(s: Seq<char>) -> Seq<char>
    decreases s.len(),
{
    if s.len() == 0 {
        Seq::empty()
    } else {
        json_chars(s.drop_last()) + json_char(s.last())
    }
}

/// `s` as a JSON string.
pub open spec fn json_text(s: Seq<char>) -> Seq<char> {
    seq!['"'] + json_chars(s) + seq!['"']
}

/// `serde_json::Value::String` in its compact form: the text in quotes, with escapes for
/// quotes, backslashes and control characters and for nothing else.
#[verifier::external_body]
fn json_text_of(s: &str) -> (r: String)
    ensures
        r@ == json_text(s@),
{
    serde_json::Value::from(s).to_string()
}

/// The header's entry for a file: where its body starts, relative to the body region, and
/// its size. The offset is a string because archives may be larger than the integer range
/// of JavaScript.
pub open spec fn entry_json(name: Seq<char>, place: (nat, nat)) -> Seq<char> {
    json_text(name) + ":{\"offset\":"@ + json_text(decimal(place.0)) + ",\"size\":"@ + decimal(
        place.1,
    ) + "}"@
}

/// The header's entries, separated by commas, for the first `n` files.
pub open spec fn entries_json(places: Seq<(Seq<char>, (nat, nat))>, n: nat) -> Seq<char>
    decreases n,
{
    if n == 0 || n > places.len() {
        Seq::empty()
    } else if n == 1 {
        entry_json(places[0].0, places[0].1)
    } else {
        entries_json(places, (n - 1) as nat) + ","@ + entry_json(
            places[n - 1].0,
            places[n - 1].1,
        )
    }
}

/// The JSON header of an archive.
pub open spec fn header_json(places: Seq<(Seq<char>, (nat, nat))>) -> Seq<char> {
    "{\"files\":{"@ + entries_json(places, places.len()) + "}}"@
}

/// The models of a list of files.
pub open spec fn file_views(v: Seq<(String, Vec<u8>)>) -> Seq<(Seq<char>, Seq<u8>)> {
    v.map_values(|f: (String, Vec<u8>)| (f.0@, f.1@))
}

/// The bodies of the first `n` files, one after the other.
pub open spec fn bodies(files: Seq<(Seq<char>, Seq<u8>)>, n: nat) -> Seq<u8>
    decreases n,
{
    if n == 0 || n > files.len() {
        Seq::empty()
    } else {
        bodies(files, (n - 1) as nat) + files[n - 1].1
    }
}

/// Where the bodies of the first `n` files start and how large they are, by name.
pub open spec fn places(files: Seq<(Seq<char>, Seq<u8>)>, n: nat) -> Seq<(Seq<char>, (nat, nat))>
    decreases n,
{
    if n == 0 || n > files.len() {
        Seq::empty()
    } else {
        filed(
            places(files, (n - 1) as nat),
            files[n - 1].0,
            (bodies(files, (n - 1) as nat).len(), files[n - 1].1.len()),
        )
    }
}

/// A 32-bit number, least significant byte first.
pub open spec fn le_bytes(n: u32) -> Seq<u8> {
    seq![
        (n % 0x100) as u8,
        (n / 0x100 % 0x100) as u8,
        (n / 0x1_0000 % 0x100) as u8,
        (n / 0x100_0000) as u8,
    ]
}

fn push_le(out: &mut Vec<u8>, n: u32)
    ensures
        final(out)@ == old(out)@ + le_bytes(n),
{
    let ghost before = out@;
    out.push((n % 0x100) as u8);
    out.push((n / 0x100 % 0x100) as u8);
    out.push((n / 0x1_0000 % 0x100) as u8);
    out.push((n / 0x100_0000) as u8);
    assert(out@ =~= before + le_bytes(n));
}

/// An archive of a JSON header and bodies.
///
/// ```text
///   [0..4]   = 4              (pickle outer size)
///   [4..8]   = 8 + json_len   (header_size; body_start = 8 + header_size)
///   [8..12]  = json_len + 4   (json pickle size)
///   [12..16] = json_len
///   [16..]   = JSON header, then file bodies (no padding)
/// ```
pub open spec fn packed(json: Seq<u8>, body: Seq<u8>) -> Seq<u8> {
    le_bytes(4) + le_bytes((json.len() + 8) as u32) + le_bytes((json.len() + 4) as u32) + le_bytes(
        json.len() as u32,
    ) + json + body
}

/// Packs a JSON header and bodies.
pub fn pack_asar(json: &[u8], body: &[u8]) -> (r: Vec<u8>)
    requires
        json@.len() + 8 <= u32::MAX,
    ensures
        r@ == packed(json@, body@),
{
    let n: u32 = json.len() as u32;
    let mut out: Vec<u8> = Vec::new();
    push_le(&mut out, 4);
    push_le(&mut out, 8 + n);
    push_le(&mut out, n + 4);
    push_le(&mut out, n);
    out.extend_from_slice(json);
    out.extend_from_slice(body);
    assert(out@ =~= packed(json@, body@));
    out
}

/// The models of a list of places.
pub open spec fn place_views(v: Seq<(String, (usize, usize))>) -> Seq<(Seq<char>, (nat, nat))> {
    v.map_values(|p: (String, (usize, usize))| (p.0@, ((p.1).0 as nat, (p.1).1 as nat)))
}

fn file_place(list: &mut Vec<(String, (usize, usize))>, key: String, value: (usize, usize))
    ensures
        place_views(final(list)@) == filed(
            place_views(old(list)@),
            key@,
            (value.0 as nat, value.1 as nat),
        ),
{
    let ghost all = place_views(list@);
    assert(key_texts(list@) =~= keys(all));
    let k = slot_of(list, key.as_str());
    assert(k < all.len() ==> all[k as int].0 == list@[k as int].0@);
    if k < list.len() && same(list[k].0.as_str(), key.as_str()) {
        list.set(k, (key, value));
        assert(place_views(list@) =~= all.update(
            k as int,
            (key@, (value.0 as nat, value.1 as nat)),
        ));
    } else {
        list.insert(k, (key, value));
        assert(place_views(list@) =~= all.insert(
            k as int,
            (key@, (value.0 as nat, value.1 as nat)),
        ));
    }
}

fn entry_json_of(name: &str, offset: usize, size: usize) -> (r: String)
    ensures
        r@ == entry_json(name@, (offset as nat, size as nat)),
{
    let mut s = json_text_of(name);
    s.append(":{\"offset\":");
    s.append(json_text_of(decimal_of(offset as u64).as_str()).as_str());
    s.append(",\"size\":");
    s.append(decimal_of(size as u64).as_str());
    s.append("}");
    s
}

fn header_json_of(list: &Vec<(String, (usize, usize))>) -> (r: String)
    ensures
        r@ == header_json(place_views(list@)),
{
    let ghost all = place_views(list@);
    let mut inner: String = String::new();
    let mut i: usize = 0;
    assert(inner@ =~= Seq::empty());
    while i < list.len()
        invariant
            i <= list@.len(),
            all == place_views(list@),
            inner@ == entries_json(all, i as nat),
        decreases list.len() - i,
    {
        assert(all[i as int] == (
            list@[i as int].0@,
            ((list@[i as int].1).0 as nat, (list@[i as int].1).1 as nat),
        ));
        let entry = entry_json_of(list[i].0.as_str(), list[i].1.0, list[i].1.1);
        if i == 0 {
            inner = entry;
        } else {
            inner.append(",");
            inner.append(entry.as_str());
        }
        i = i + 1;
    }
    concat3("{\"files\":{", inner.as_str(), "}}")
}

/// The archive that files are packed into.
pub open spec fn archive(files: Seq<(Seq<char>, Seq<u8>)>) -> Seq<u8> {
    packed(
        encode_utf8(header_json(places(files, files.len()))),
        bodies(files, files.len()),
    )
}

/// Pack files into a minimal Electron ASAR; none where the header is too long for its
/// length fields.
pub fn build_asar(files: &Vec<(String, Vec<u8>)>) -> (r: Option<Vec<u8>>)
    ensures
        match r {
            Some(b) => b@ == archive(file_views(files@)),
            None => encode_utf8(
                header_json(places(file_views(files@), files@.len())),
            ).len() + 8 > u32::MAX,
        },
{
    let ghost all = file_views(files@);
    let mut list: Vec<(String, (usize, usize))> = Vec::new();
    let mut body: Vec<u8> = Vec::new();
    let mut i: usize = 0;
    assert(place_views(list@) =~= Seq::empty());
    while i < files.len()
        invariant
            i <= files@.len(),
            all == file_views(files@),
            body@ == bodies(all, i as nat),
            place_views(list@) == places(all, i as nat),
        decreases files.len() - i,
    {
        assert(all[i as int] == (files@[i as int].0@, files@[i as int].1@));
        file_place(&mut list, files[i].0.clone(), (body.len(), files[i].1.len()));
        body.extend_from_slice(files[i].1.as_slice());
        assert(body@ =~= bodies(all, (i + 1) as nat));
        i = i + 1;
    }
    let text = header_json_of(&list);
    let json = text.as_str().as_bytes();
    if json.len() > 0xffff_fff7 {
        return None;
    }
    Some(pack_asar(json, body.as_slice()))
}

/// SHA-256 of the ASAR header JSON string — the digest macOS declares in
/// `ElectronAsarIntegrity`.
pub fn asar_header_sha256(asar: &[u8]) -> (r: String)
    requires
        asar@.len() >= 16,
        16 + le32(asar@, 12) <= asar@.len(),
    ensures
        r@ == hex_digits(sha256(asar@.subrange(16, 16 + le32(asar@, 12)))),
{
    let n = le32_of(asar, 12) as usize;
    let total = asar.len();
    assert(16 + n <= total);
    let json = vstd::slice::slice_subrange(asar, 16, 16 + n);
    hex_digits_of(sha256_of(json).as_slice())
}

/// Top-level `Contents/Info.plist`: a correct ASAR-integrity hash plus
/// deliberately weak App Transport Security flags and a registered URL scheme.
pub open spec fn app_plist(asar_hash: Seq<char>) -> Seq<char> {
    "<?xml version=\"1.0\" encoding=\"UTF-8\"?>\n<!DOCTYPE plist PUBLIC \"-//Apple//DTD PLIST 1.0//EN\" \"http://www.apple.com/DTDs/PropertyList-1.0.dtd\">\n<plist version=\"1.0\">\n<dict>\n\t<key>CFBundleName</key>\n\t<string>Electron Sample</string>\n\t<key>CFBundleIdentifier</key>\n\t<string>dev.crabnebula.achilles.electron-sample</string>\n\t<key>CFBundleExecutable</key>\n\t<string>ElectronSample</string>\n\t<key>CFBundleShortVersionString</key>\n\t<string>1.0.0</string>\n\t<key>CFBundleVersion</key>\n\t<string>1.0.0</string>\n\t<key>NSAppTransportSecurity</key>\n\t<dict>\n\t\t<key>NSAllowsArbitraryLoads</key>\n\t\t<true/>\n\t\t<key>NSExceptionDomains</key>\n\t\t<dict>\n\t\t\t<key>insecure.example.com</key>\n\t\t\t<dict>\n\t\t\t\t<key>NSExceptionAllowsInsecureHTTPLoads</key>\n\t\t\t\t<true/>\n\t\t\t\t<key>NSExceptionMinimumTLSVersion</key>\n\t\t\t\t<string>TLSv1.0</string>\n\t\t\t</dict>\n\t\t</dict>\n\t</dict>\n\t<key>CFBundleURLTypes</key>\n\t<array>\n\t\t<dict>\n\t\t\t<key>CFBundleURLSchemes</key>\n\t\t\t<array>\n\t\t\t\t<string>achilles-sample</string>\n\t\t\t</array>\n\t\t</dict>\n\t</array>\n\t<key>ElectronAsarIntegrity</key>\n\t<dict>\n\t\t<key>Resources/app.asar</key>\n\t\t<dict>\n\t\t\t<key>algorithm</key>\n\t\t\t<string>SHA256</string>\n\t\t\t<key>hash</key>\n\t\t\t<string>"@
        + asar_hash + "</string>\n\t\t</dict>\n\t</dict>\n</dict>\n</plist>\n"@
}

fn app_plist_of(asar_hash: &str) -> (r: String)
    ensures
        r@ == app_plist(asar_hash@),
{
    concat3(
        "<?xml version=\"1.0\" encoding=\"UTF-8\"?>\n<!DOCTYPE plist PUBLIC \"-//Apple//DTD PLIST 1.0//EN\" \"http://www.apple.com/DTDs/PropertyList-1.0.dtd\">\n<plist version=\"1.0\">\n<dict>\n\t<key>CFBundleName</key>\n\t<string>Electron Sample</string>\n\t<key>CFBundleIdentifier</key>\n\t<string>dev.crabnebula.achilles.electron-sample</string>\n\t<key>CFBundleExecutable</key>\n\t<string>ElectronSample</string>\n\t<key>CFBundleShortVersionString</key>\n\t<string>1.0.0</string>\n\t<key>CFBundleVersion</key>\n\t<string>1.0.0</string>\n\t<key>NSAppTransportSecurity</key>\n\t<dict>\n\t\t<key>NSAllowsArbitraryLoads</key>\n\t\t<true/>\n\t\t<key>NSExceptionDomains</key>\n\t\t<dict>\n\t\t\t<key>insecure.example.com</key>\n\t\t\t<dict>\n\t\t\t\t<key>NSExceptionAllowsInsecureHTTPLoads</key>\n\t\t\t\t<true/>\n\t\t\t\t<key>NSExceptionMinimumTLSVersion</key>\n\t\t\t\t<string>TLSv1.0</string>\n\t\t\t</dict>\n\t\t</dict>\n\t</dict>\n\t<key>CFBundleURLTypes</key>\n\t<array>\n\t\t<dict>\n\t\t\t<key>CFBundleURLSchemes</key>\n\t\t\t<array>\n\t\t\t\t<string>achilles-sample</string>\n\t\t\t</array>\n\t\t</dict>\n\t</array>\n\t<key>ElectronAsarIntegrity</key>\n\t<dict>\n\t\t<key>Resources/app.asar</key>\n\t\t<dict>\n\t\t\t<key>algorithm</key>\n\t\t\t<string>SHA256</string>\n\t\t\t<key>hash</key>\n\t\t\t<string>",
        asar_hash,
        "</string>\n\t\t</dict>\n\t</dict>\n</dict>\n</plist>\n",
    )
}

/// The framework's `Info.plist`, whose `CFBundleVersion` is the Electron version.
pub open spec fn framework_plist(version: Seq<char>) -> Seq<char> {
    "<?xml version=\"1.0\" encoding=\"UTF-8\"?>\n<!DOCTYPE plist PUBLIC \"-//Apple//DTD PLIST 1.0//EN\" \"http://www.apple.com/DTDs/PropertyList-1.0.dtd\">\n<plist version=\"1.0\">\n<dict>\n\t<key>CFBundleName</key>\n\t<string>Electron Framework</string>\n\t<key>CFBundleShortVersionString</key>\n\t<string>"@
        + version + "</string>\n\t<key>CFBundleVersion</key>\n\t<string>"@ + version
        + "</string>\n</dict>\n</plist>\n"@
}

fn framework_plist_of(version: &str) -> (r: String)
    ensures
        r@ == framework_plist(version@),
{
    let mut s = concat3(
        "<?xml version=\"1.0\" encoding=\"UTF-8\"?>\n<!DOCTYPE plist PUBLIC \"-//Apple//DTD PLIST 1.0//EN\" \"http://www.apple.com/DTDs/PropertyList-1.0.dtd\">\n<plist version=\"1.0\">\n<dict>\n\t<key>CFBundleName</key>\n\t<string>Electron Framework</string>\n\t<key>CFBundleShortVersionString</key>\n\t<string>",
        version,
        "</string>\n\t<key>CFBundleVersion</key>\n\t<string>",
    );
    s.append(version);
    s.append("</string>\n</dict>\n</plist>\n");
    s
}

/// What the fake framework binary holds: the user-agent fingerprints that detection reads,
/// a four-part `Chrome/<v>` and a `node-v<v>` tarball URL.
pub open spec fn framework_text() -> Seq<char> {
    "Mozilla/5.0 AppleWebKit/537.36 (KHTML, like Gecko) Chrome/"@ + CHROMIUM_VERSION@ + " Electron/"@
        + ELECTRON_VERSION@ + " Safari/537.36 https://nodejs.org/download/release/v"@ + NODE_VERSION@
        + "/node-v"@ + NODE_VERSION@ + ".tar.gz"@
}

fn framework_text_of() -> (r: String)
    ensures
        r@ == framework_text(),
{
    let mut s = concat3(
        "Mozilla/5.0 AppleWebKit/537.36 (KHTML, like Gecko) Chrome/",
        CHROMIUM_VERSION,
        " Electron/",
    );
    s.append(ELECTRON_VERSION);
    s.append(" Safari/537.36 https://nodejs.org/download/release/v");
    s.append(NODE_VERSION);
    s.append("/node-v");
    s.append(NODE_VERSION);
    s.append(".tar.gz");
    s
}

/// The files of a bundle below `contents`, of which `asar` is the archive.
pub open spec fn bundle_files(contents: Seq<char>, asar: Seq<u8>) -> Seq<(Seq<char>, Seq<u8>)> {
    let framework = pushed(contents, "Frameworks/Electron Framework.framework/Versions/A"@);
    seq![
        (pushed(contents, "Resources/app.asar"@), asar),
        (pushed(contents, "MacOS/ElectronSample"@), encode_utf8("#!/bin/sh\nexit 0\n"@)),
        (pushed(framework, "Electron Framework"@), encode_utf8(framework_text())),
        (
            pushed(framework, "Resources/Info.plist"@),
            encode_utf8(framework_plist(ELECTRON_VERSION@)),
        ),
        (
            pushed(contents, "Info.plist"@),
            encode_utf8(
                app_plist(hex_digits(sha256(asar.subrange(16, 16 + le32(asar, 12))))),
            ),
        ),
    ]
}

fn push_file(out: &mut Vec<(String, Vec<u8>)>, path: String, text: &str)
    ensures
        file_views(final(out)@) == file_views(old(out)@).push((path@, encode_utf8(text@))),
{
    let ghost before = file_views(out@);
    let data = vstd::slice::slice_to_vec(text.as_bytes());
    out.push((path, data));
    assert(file_views(out@) =~= before.push((path@, encode_utf8(text@))));
}

/// The files of a minimal macOS `.app` bundle (versioned Electron framework layout) in
/// `dir`, of which `asar` is the archive.
pub fn build_app(dir: &str, asar: Vec<u8>) -> (r: Vec<(String, Vec<u8>)>)
    requires
        asar@.len() >= 16,
        16 + le32(asar@, 12) <= asar@.len(),
    ensures
        file_views(r@) == bundle_files(pushed(pushed(dir@, APP_NAME@), "Contents"@), asar@),
{
    let contents = push_of(push_of(dir, APP_NAME).as_str(), "Contents");
    let c = contents.as_str();
    let framework = push_of(c, "Frameworks/Electron Framework.framework/Versions/A");
    let f = framework.as_str();
    let hash = asar_header_sha256(asar.as_slice());
    let ghost archive = asar@;
    let mut out: Vec<(String, Vec<u8>)> = Vec::new();
    out.push((push_of(c, "Resources/app.asar"), asar));
    assert(file_views(out@) =~= seq![(pushed(c@, "Resources/app.asar"@), archive)]);
    push_file(&mut out, push_of(c, "MacOS/ElectronSample"), "#!/bin/sh\nexit 0\n");
    push_file(&mut out, push_of(f, "Electron Framework"), framework_text_of().as_str());
    push_file(
        &mut out,
        push_of(f, "Resources/Info.plist"),
        framework_plist_of(ELECTRON_VERSION).as_str(),
    );
    push_file(&mut out, push_of(c, "Info.plist"), app_plist_of(hash.as_str()).as_str());
    assert(file_views(out@) =~= bundle_files(c@, archive));
    out
}

proof fn lemma_le_bytes(n: u32, before: Seq<u8>, after: Seq<u8>)
    ensures
        le32(before + le_bytes(n) + after, before.len() as int) == n,
{
    let b = before + le_bytes(n) + after;
    let at = before.len() as int;
    assert(b[at] == (n % 0x100) as u8);
    assert(b[at + 1] == (n / 0x100 % 0x100) as u8);
    assert(b[at + 2] == (n / 0x1_0000 % 0x100) as u8);
    assert(b[at + 3] == (n / 0x100_0000) as u8);
    assert(n == n % 0x100 + 0x100 * (n / 0x100 % 0x100) + 0x1_0000 * (n / 0x1_0000 % 0x100)
        + 0x100_0000 * (n / 0x100_0000)) by (bit_vector);
}

/// What is packed reads back: the header of a packed archive is the one that was packed, and
/// the hash that a bundle declares of it is the one that the integrity check computes.
pub proof fn lemma_packed_reads_back(json: Seq<u8>, body: Seq<u8>)
    requires
        json.len() <= MAX_HEADER,
    ensures
        header(packed(json, body)) == Ok::<Seq<u8>, crate::audit::asar::AsarError>(json),
        header_hash(packed(json, body)) == Some(
            hex_digits(
                sha256(
                    packed(json, body).subrange(16, 16 + le32(packed(json, body), 12)),
                ),
            ),
        ),
{
    let b = packed(json, body);
    let four = le_bytes(4);
    let total = le_bytes((json.len() + 8) as u32);
    let inner = le_bytes((json.len() + 4) as u32);
    let len = le_bytes(json.len() as u32);
    assert(b =~= Seq::<u8>::empty() + four + (total + inner + len + json + body));
    lemma_le_bytes(4, Seq::empty(), total + inner + len + json + body);
    assert(b =~= (four + total + inner) + len + (json + body));
    lemma_le_bytes(json.len() as u32, four + total + inner, json + body);
    assert(b.subrange(16, 16 + json.len() as int) =~= json);
}

} // verus!
