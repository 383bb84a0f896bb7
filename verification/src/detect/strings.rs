//! Low-level byte scanning of executables for version fingerprints.
//!
//! Nothing here parses object-file headers — we rely on the fact that the strings
//! we look for (`Chrome/x.y.z`, `node-vX.Y.Z`, `Electron/x.y.z`,
//! `tauri.localhost`, `/tauri-N.M.P/`) are stable, distinctive, and appear
//! verbatim in the binary's string data. Because we scan raw bytes rather than a
//! particular section format, this works identically on Mach-O, PE, and ELF.

use vstd::prelude::*;
use vstd::utf8::*;

use crate::bytes::utf8_text;
use crate::text::opt_text;
use crate::vfs::{contents, MemTree, Tree};

verus! {

/// What group 1 of the leftmost match of `pattern` holds in `haystack`, in the
/// syntax and semantics of `regex::bytes::Regex`; none without a match, and none
/// for a pattern that does not compile.
pub uninterp spec fn regex_capture(pattern: Seq<char>, haystack: Seq<u8>) -> Option<Seq<u8>>;

/// `regex::bytes::Regex::captures`: group 1 of the leftmost match, a function of
/// the pattern and the haystack alone.
#[verifier::external_body]
fn first_capture(pattern: &str, haystack: &[u8]) -> (r: Option<Vec<u8>>)
    ensures
        match r {
            Some(v) => regex_capture(pattern@, haystack@) == Some(v@),
            None => regex_capture(pattern@, haystack@) is None,
        },
{
    let re = regex::bytes::Regex::new(pattern).ok()?;
    Some(re.captures(haystack)?.get(1)?.as_bytes().to_vec())
}

/// Whether `needle` stands in `haystack` at `i`.
pub open spec fn occurs_at(haystack: Seq<u8>, needle: Seq<u8>, i: int) -> bool {
    0 <= i && i + needle.len() <= haystack.len() && haystack.subrange(i, i + needle.len()) == needle
}

/// Whether `needle` stands anywhere in `haystack`.
pub open spec fn occurs(haystack: Seq<u8>, needle: Seq<u8>) -> bool {
    exists|i: int| occurs_at(haystack, needle, i)
}

/// `memchr::memmem::find`: the first place where `needle` stands in `haystack`.
#[verifier::external_body]
pub(crate) fn find(haystack: &[u8], needle: &[u8]) -> (r: Option<usize>)
    ensures
        match r {
            Some(i) => occurs_at(haystack@, needle@, i as int) && forall|j: int|
                0 <= j < i ==> !occurs_at(haystack@, needle@, j),
            None => forall|j: int| !occurs_at(haystack@, needle@, j),
        },
{
    memchr::memmem::find(haystack, needle)
}

/// The first place, at or after `from`, where `needle` stands in `haystack`.
pub open spec fn first_place(haystack: Seq<u8>, needle: Seq<u8>, from: int) -> Option<int>
    decreases haystack.len() - from,
{
    if occurs_at(haystack, needle, from) {
        Some(from)
    } else if from < 0 || from >= haystack.len() {
        None
    } else {
        first_place(haystack, needle, from + 1)
    }
}

proof fn lemma_first_place(haystack: Seq<u8>, needle: Seq<u8>, from: int, found: Option<int>)
    requires
        0 <= from,
        match found {
            Some(i) => from <= i && occurs_at(haystack, needle, i) && forall|j: int|
                from <= j < i ==> !occurs_at(haystack, needle, j),
            None => forall|j: int| !occurs_at(haystack, needle, j),
        },
    ensures
        first_place(haystack, needle, from) == found,
    decreases haystack.len() - from,
{
    if !occurs_at(haystack, needle, from) && from < haystack.len() {
        lemma_first_place(haystack, needle, from + 1, found);
    }
}

/// The first place where `needle` stands in `haystack`.
pub fn find_place(haystack: &[u8], needle: &[u8]) -> (r: Option<usize>)
    ensures
        match r {
            Some(i) => first_place(haystack@, needle@, 0) == Some(i as int) && i + needle@.len()
                <= haystack@.len(),
            None => first_place(haystack@, needle@, 0) is None,
        },
{
    let r = find(haystack, needle);
    proof {
        lemma_first_place(
            haystack@,
            needle@,
            0,
            match r {
                Some(i) => Some(i as int),
                None => None,
            },
        );
    }
    r
}

/// The text that group 1 of `pattern` captures first in `haystack`.
pub open spec fn captured(pattern: Seq<char>, haystack: Seq<u8>) -> Option<Seq<char>> {
    captured_text(regex_capture(pattern, haystack))
}

/// A capture as text, where it is well-formed.
pub open spec fn captured_text(capture: Option<Seq<u8>>) -> Option<Seq<char>> {
    match capture {
        Some(b) => if valid_utf8(b) {
            Some(decode_utf8(b))
        } else {
            None
        },
        None => None,
    }
}

/// A capture as text, where it is well-formed.
pub fn capture_text(capture: Option<Vec<u8>>) -> (r: Option<String>)
    ensures
        opt_text(r) == captured_text(
            match capture {
                Some(v) => Some(v@),
                None => None,
            },
        ),
{
    match capture {
        Some(v) => utf8_text(v.as_slice()),
        None => None,
    }
}

/// The text that group 1 of `pattern` captures first in `haystack`.
pub fn find_first(pattern: &str, haystack: &[u8]) -> (r: Option<String>)
    ensures
        opt_text(r) == captured(pattern@, haystack@),
{
    capture_text(first_capture(pattern, haystack))
}

/// Captures the Chromium version embedded in the UA string literal that Electron
/// bakes into its framework binary: `Chrome/144.0.7559.173`.
pub open spec fn chromium_pattern() -> Seq<char> {
    "Chrome/(\\d+\\.\\d+\\.\\d+\\.\\d+)"@
}

/// Captures the Node.js version from the tarball-URL string Electron embeds.
pub open spec fn node_pattern() -> Seq<char> {
    "node-v(\\d+\\.\\d+\\.\\d+)"@
}

/// Captures the *bare* Tauri crate version from cargo-registry debug paths that
/// Rust leaves in release binaries. Plugins and runtimes have versions of their own,
/// so only `/tauri-X.Y.Z/` matches.
pub open spec fn tauri_pattern() -> Seq<char> {
    "/tauri-(\\d+\\.\\d+\\.\\d+)(?:-[a-zA-Z0-9.]+)?/"@
}

/// Captures the version Electron bakes into its user-agent product token.
pub open spec fn electron_pattern() -> Seq<char> {
    "Electron/(\\d+\\.\\d+\\.\\d+)"@
}

/// Captures the version of the `Deno/<version>` product token, which is both the
/// presence marker and the version of a Deno-desktop binary.
pub open spec fn deno_pattern() -> Seq<char> {
    "Deno/(\\d+\\.\\d+\\.\\d+)"@
}

/// Captures the Qt version from the core library's `Qt x.y.z` marker.
pub open spec fn qt_pattern() -> Seq<char> {
    "Qt (\\d+\\.\\d+\\.\\d+)"@
}

/// Captures the Wails version from its Go module path, e.g.
/// `github.com/wailsapp/wails/v2@v2.9.2`.
pub open spec fn wails_pattern() -> Seq<char> {
    "github\\.com/wailsapp/wails(?:/v\\d+)?@v(\\d+\\.\\d+\\.\\d+(?:-[A-Za-z0-9.]+)?)"@
}

/// The Chromium version in the file at `p`; none where there is no such file.
pub open spec fn chromium_in(t: Tree, p: Seq<char>) -> Option<Option<Seq<char>>> {
    match contents(t, p) {
        Some(b) => Some(captured(chromium_pattern(), b)),
        None => None,
    }
}

/// The outer option dropped: nothing readable counts as nothing found.
pub open spec fn flat(o: Option<Option<Seq<char>>>) -> Option<Seq<char>> {
    match o {
        Some(v) => v,
        None => None,
    }
}

/// The view of a pair of versions.
pub open spec fn pair_view(p: (Option<String>, Option<String>)) -> (
    Option<Seq<char>>,
    Option<Seq<char>>,
) {
    (opt_text(p.0), opt_text(p.1))
}

/// Scan an Electron framework binary for Chromium and Node.js versions. None where
/// `path` names no file.
pub fn scan_electron_versions(tree: &MemTree, path: &str) -> (r: Option<
    (Option<String>, Option<String>),
>)
    ensures
        match r {
            Some(p) => contents(tree@, path@) is Some && pair_view(p) == (
                captured(chromium_pattern(), contents(tree@, path@)->0),
                captured(node_pattern(), contents(tree@, path@)->0),
            ),
            None => contents(tree@, path@) is None,
        },
{
    match tree.read(path) {
        Some(b) => Some(
            (
                find_first("Chrome/(\\d+\\.\\d+\\.\\d+\\.\\d+)", b),
                find_first("node-v(\\d+\\.\\d+\\.\\d+)", b),
            ),
        ),
        None => None,
    }
}

/// The Chromium version alone, where the file can be read.
pub fn scan_chromium(tree: &MemTree, path: &str) -> (r: Option<String>)
    ensures
        opt_text(r) == flat(chromium_in(tree@, path@)),
{
    match scan_electron_versions(tree, path) {
        Some((chromium, _)) => chromium,
        None => None,
    }
}

/// The view of a scan of one file.
pub open spec fn scanned(t: Tree, p: Seq<char>, pattern: Seq<char>) -> Option<Option<Seq<char>>> {
    match contents(t, p) {
        Some(b) => Some(captured(pattern, b)),
        None => None,
    }
}

/// The view of a nested option.
pub open spec fn scan_view(r: Option<Option<String>>) -> Option<Option<Seq<char>>> {
    match r {
        Some(o) => Some(opt_text(o)),
        None => None,
    }
}

/// Scan a binary for the Electron version embedded in its user-agent string.
pub fn scan_electron_version(tree: &MemTree, path: &str) -> (r: Option<Option<String>>)
    ensures
        scan_view(r) == scanned(tree@, path@, electron_pattern()),
{
    match tree.read(path) {
        Some(b) => Some(find_first("Electron/(\\d+\\.\\d+\\.\\d+)", b)),
        None => None,
    }
}

/// Scan a Tauri main binary for the Tauri crate version.
pub fn scan_tauri_version(tree: &MemTree, path: &str) -> (r: Option<Option<String>>)
    ensures
        scan_view(r) == scanned(tree@, path@, tauri_pattern()),
{
    match tree.read(path) {
        Some(b) => Some(find_first("/tauri-(\\d+\\.\\d+\\.\\d+)(?:-[a-zA-Z0-9.]+)?/", b)),
        None => None,
    }
}

/// Scan a binary for the Deno runtime version in its `Deno/x.y.z` UA token.
pub fn scan_deno_version(tree: &MemTree, path: &str) -> (r: Option<Option<String>>)
    ensures
        scan_view(r) == scanned(tree@, path@, deno_pattern()),
{
    match tree.read(path) {
        Some(b) => Some(find_first("Deno/(\\d+\\.\\d+\\.\\d+)", b)),
        None => None,
    }
}

/// Whether the file at `p` holds `needle`; none where there is no such file.
pub open spec fn holds_bytes(t: Tree, p: Seq<char>, needle: Seq<u8>) -> Option<bool> {
    match contents(t, p) {
        Some(b) => Some(occurs(b, needle)),
        None => None,
    }
}

/// Substring check against a file. None where `path` names no file.
pub fn contains(tree: &MemTree, path: &str, needle: &[u8]) -> (r: Option<bool>)
    ensures
        r == holds_bytes(tree@, path@, needle@),
{
    match tree.read(path) {
        Some(b) => Some(find(b, needle).is_some()),
        None => None,
    }
}

/// Whether the file at `path` holds the text `needle`; false where there is none.
pub fn holds_text(tree: &MemTree, path: &str, needle: &str) -> (r: bool)
    ensures
        r == (holds_bytes(tree@, path@, encode_utf8(needle@)) == Some(true)),
{
    match contains(tree, path, needle.as_bytes()) {
        Some(b) => b,
        None => false,
    }
}

} // verus!
