//! Verify `ElectronAsarIntegrity` hashes against the archives on disk.
//!
//! Despite what Electron's docs suggest, the `hash` field in Info.plist is
//! *not* a whole-file SHA-256 — it's the SHA-256 of the ASAR archive's **JSON
//! header string**, excluding the two pickle length prefixes that wrap it on
//! disk.
//!
//! ASAR on-disk layout:
//!
//! ```text
//!   offset  0: u32 le  = 4           // pickle outer size (always 4)
//!   offset  4: u32 le  = header_size // bytes following this field that belong to the header
//!   offset  8: u32 le  = json_pickle_size
//!   offset 12: u32 le  = json_len    // length of the JSON string in bytes
//!   offset 16: json_len bytes        // the JSON header — THIS is what gets hashed
//!   …padding to 4-byte align…
//!   …file bodies…
//! ```

use sha2::Digest;
use vstd::prelude::*;

use crate::bytes::{begins, copy_of, le32, le32_of, span_of};
use crate::detect::{plist_at, read_plist};
use crate::num::{decimal, decimal_of};
use crate::path::{push_of, pushed, seen_from, seen_from_of};
use crate::plist::{
    dict_at, entries, entries_of, get, get_of, get_text, get_text_of, is_dict_of, keyed, tokens,
    Token, TokenView,
};
use crate::text::{concat, lower, lower_of, opt_text, same};
use crate::vfs::{contents, file_at, MemTree, Tree};

verus! {

/// Longest header that is plausible.
pub const MAX_HEADER: u32 = 268_435_456;

/// Why an archive's header could not be read.
#[derive(Debug, Clone, Copy, PartialEq, Eq, Structural)]
pub enum AsarError {
    /// The file ends before the prefix does.
    Short,
    /// The outer size is not 4.
    Outer(u32),
    /// The header is implausibly long.
    TooLong(u32),
    /// The header extends past the file.
    Truncated,
}

impl AsarError {
    /// The message of an error.
    pub open spec fn text(self) -> Seq<char> {
        match self {
            AsarError::Short => "asar shorter than 16 bytes"@,
            AsarError::Outer(n) => "expected pickle outer=4, got "@ + decimal(n as nat),
            AsarError::TooLong(n) => "implausible asar header length: "@ + decimal(n as nat),
            AsarError::Truncated => "asar header extends past file"@,
        }
    }

    /// The message of the error.
    pub fn message(self) -> (r: String)
        ensures
            r@ == self.text(),
    {
        match self {
            AsarError::Short => "asar shorter than 16 bytes".to_owned(),
            AsarError::Outer(n) => concat(
                "expected pickle outer=4, got ",
                decimal_of(n as u64).as_str(),
            ),
            AsarError::TooLong(n) => concat(
                "implausible asar header length: ",
                decimal_of(n as u64).as_str(),
            ),
            AsarError::Truncated => "asar header extends past file".to_owned(),
        }
    }
}

/// The length of the JSON header that a 16-byte prefix announces.
pub open spec fn header_len(prefix: Seq<u8>) -> Result<nat, AsarError> {
    if le32(prefix, 0) != 4 {
        Err(AsarError::Outer(le32(prefix, 0)))
    } else if le32(prefix, 12) > MAX_HEADER {
        Err(AsarError::TooLong(le32(prefix, 12)))
    } else {
        Ok(le32(prefix, 12) as nat)
    }
}

/// The JSON header of an archive.
pub open spec fn header(bytes: Seq<u8>) -> Result<Seq<u8>, AsarError> {
    if bytes.len() < 16 {
        Err(AsarError::Short)
    } else {
        match header_len(bytes) {
            Err(e) => Err(e),
            Ok(n) => if 16 + n > bytes.len() {
                Err(AsarError::Truncated)
            } else {
                Ok(bytes.subrange(16, 16 + n as int))
            },
        }
    }
}

/// Parse the 16-byte pickle prefix and return the validated JSON header length.
pub fn parse_asar_header_len(prefix: &[u8]) -> (r: Result<usize, AsarError>)
    requires
        prefix@.len() >= 16,
    ensures
        match r {
            Ok(n) => header_len(prefix@) == Ok::<nat, AsarError>(n as nat),
            Err(e) => header_len(prefix@) == Err::<nat, AsarError>(e),
        },
{
    let outer = le32_of(prefix, 0);
    let json_len = le32_of(prefix, 12);
    if outer != 4 {
        return Err(AsarError::Outer(outer));
    }
    // Sanity cap: the header is a JSON directory, rarely more than ~100MB.
    if json_len > MAX_HEADER {
        return Err(AsarError::TooLong(json_len));
    }
    Ok(json_len as usize)
}

/// Read just the JSON header bytes.
pub fn read_asar_header(bytes: &[u8]) -> (r: Result<Vec<u8>, AsarError>)
    ensures
        match r {
            Ok(v) => header(bytes@) == Ok::<Seq<u8>, AsarError>(v@),
            Err(e) => header(bytes@) == Err::<Seq<u8>, AsarError>(e),
        },
{
    if bytes.len() < 16 {
        return Err(AsarError::Short);
    }
    let n = match parse_asar_header_len(bytes) {
        Ok(n) => n,
        Err(e) => {
            return Err(e);
        },
    };
    match span_of(bytes, 16, n) {
        Some(s) => Ok(copy_of(s)),
        None => Err(AsarError::Truncated),
    }
}

/// The SHA-256 digest of `bytes`, as the sha2 crate computes it.
pub uninterp spec fn sha256(bytes: Seq<u8>) -> Seq<u8>;

/// `sha2::Sha256::digest`: 32 bytes that depend on the input alone.
#[verifier::external_body]
pub(crate) fn sha256_of(bytes: &[u8]) -> (r: Vec<u8>)
    ensures
        r@ == sha256(bytes@),
        r@.len() == 32,
{
    sha2::Sha256::digest(bytes).to_vec()
}

/// The digit of a half byte, in lower case.
pub open spec fn half_digit(n: int) -> char {
    if n < 10 {
        (48 + n) as char
    } else {
        (87 + n) as char
    }
}

/// Bytes in hexadecimal, two lower-case digits each.
pub open spec fn hex_digits(b: Seq<u8>) -> Seq<char> {
    Seq::new(
        2 * b.len(),
        |i: int|
            half_digit(
                if i % 2 == 0 {
                    b[i / 2] as int / 16
                } else {
                    b[i / 2] as int % 16
                },
            ),
    )
}

fn half_digit_of(n: u8) -> (r: char)
    requires
        n < 16,
    ensures
        r == half_digit(n as int),
{
    if n < 10 {
        (48 + n) as char
    } else {
        (87 + n) as char
    }
}

/// Bytes in hexadecimal.
pub fn hex_digits_of(b: &[u8]) -> (r: String)
    ensures
        r@ == hex_digits(b@),
{
    let mut out: String = String::new();
    let mut i: usize = 0;
    assert(out@ =~= hex_digits(b@).take(0));
    while i < b.len()
        invariant
            i <= b@.len(),
            out@ == hex_digits(b@).take(2 * i),
        decreases b.len() - i,
    {
        out.push(half_digit_of(b[i] / 16));
        out.push(half_digit_of(b[i] % 16));
        assert(hex_digits(b@)[2 * i] == half_digit(b@[i as int] as int / 16));
        assert(hex_digits(b@)[2 * i + 1] == half_digit(b@[i as int] as int % 16));
        assert(out@ =~= hex_digits(b@).take(2 * (i + 1)));
        i = i + 1;
    }
    assert(hex_digits(b@).take(2 * i) =~= hex_digits(b@));
    out
}

/// The digest of an archive's header, in hexadecimal; none for what is no archive.
pub open spec fn header_hash(bytes: Seq<u8>) -> Option<Seq<char>> {
    match header(bytes) {
        Ok(json) => Some(hex_digits(sha256(json))),
        Err(_) => None,
    }
}

/// SHA-256 of the ASAR header JSON string. See the module docs for layout.
pub fn sha256_asar_header(bytes: &[u8]) -> (r: Option<String>)
    ensures
        opt_text(r) == header_hash(bytes@),
{
    match read_asar_header(bytes) {
        Ok(json) => Some(hex_digits_of(sha256_of(json.as_slice()).as_slice())),
        Err(_) => None,
    }
}

/// The digest of the header of the archive at `p`.
pub open spec fn file_hash(t: Tree, p: Seq<char>) -> Option<Seq<char>> {
    match contents(t, p) {
        Some(b) => header_hash(b),
        None => None,
    }
}

fn file_hash_of(tree: &MemTree, p: &str) -> (r: Option<String>)
    ensures
        opt_text(r) == file_hash(tree@, p@),
{
    match tree.read(p) {
        Some(b) => sha256_asar_header(b),
        None => None,
    }
}

/// Informational ASAR report for Windows / Linux, where there's no
/// Info.plist-declared baseline to compare against (Electron's fuse-based
/// integrity lives in the binary and is rarely enabled). The archive's header hash
/// lets users compare it across versions / machines.
#[derive(Debug)]
pub struct AsarInfo {
    /// Absolute path of `resources/app.asar`.
    pub archive_path: String,
    /// SHA-256 of the ASAR header JSON (same digest macOS declares), or `None`
    /// if the archive couldn't be read.
    pub header_sha256: Option<String>,
}

/// The model of an optional [`AsarInfo`]: the path and the hash.
pub open spec fn info_view(i: Option<AsarInfo>) -> Option<(Seq<char>, Option<Seq<char>>)> {
    match i {
        Some(i) => Some((i.archive_path@, opt_text(i.header_sha256))),
        None => None,
    }
}

/// The archive below `root`, where there is one, and its hash.
pub open spec fn informed(t: Tree, root: Seq<char>) -> Option<(Seq<char>, Option<Seq<char>>)> {
    let p = pushed(pushed(root, "resources"@), "app.asar"@);
    if file_at(t, p) {
        Some((p, file_hash(t, p)))
    } else {
        None
    }
}

/// Build an [`AsarInfo`] for the Windows / Linux `resources/app.asar` under
/// `root`, or `None` when the app ships no asar.
pub fn info(tree: &MemTree, root: &str) -> (r: Option<AsarInfo>)
    ensures
        info_view(r) == informed(tree@, root@),
{
    let archive_path = push_of(push_of(root, "resources").as_str(), "app.asar");
    if !tree.is_file(archive_path.as_str()) {
        return None;
    }
    let header_sha256 = file_hash_of(tree, archive_path.as_str());
    Some(AsarInfo { archive_path, header_sha256 })
}

/// One archive declared in `ElectronAsarIntegrity`, held against the file.
#[derive(Debug)]
pub struct AsarIntegrityCheck {
    /// Path relative to `Contents/`, as keyed in `ElectronAsarIntegrity`.
    pub archive_key: String,
    /// Absolute path of the archive on disk.
    pub archive_path: String,
    pub declared_algorithm: String,
    pub declared_hash: String,
    /// `None` if the file couldn't be read.
    pub actual_hash: Option<String>,
    pub matches: bool,
}

/// The model of an [`AsarIntegrityCheck`].
pub struct CheckView {
    pub archive_key: Seq<char>,
    pub archive_path: Seq<char>,
    pub declared_algorithm: Seq<char>,
    pub declared_hash: Seq<char>,
    pub actual_hash: Option<Seq<char>>,
    pub matches: bool,
}

impl View for AsarIntegrityCheck {
    type V = CheckView;

    open spec fn view(&self) -> CheckView {
        CheckView {
            archive_key: self.archive_key@,
            archive_path: self.archive_path@,
            declared_algorithm: self.declared_algorithm@,
            declared_hash: self.declared_hash@,
            actual_hash: opt_text(self.actual_hash),
            matches: self.matches,
        }
    }
}

/// The models of a list of checks.
pub open spec fn check_views(v: Seq<AsarIntegrityCheck>) -> Seq<CheckView> {
    v.map_values(|c: AsarIntegrityCheck| c@)
}

/// The check of one declared archive; none where its entry is no dictionary or declares
/// no hash. Only SHA-256 can be held against the file; hashes are compared without
/// regard to case.
pub open spec fn checked(
    t: Tree,
    app: Seq<char>,
    plist: Seq<TokenView>,
    entry: (Seq<char>, int),
) -> Option<CheckView> {
    match get_text(plist, entry.1, "hash"@) {
        None => None,
        Some(hash) => {
            let algorithm = match get_text(plist, entry.1, "algorithm"@) {
                Some(a) => a,
                None => "SHA256"@,
            };
            let path = seen_from(pushed(app, "Contents"@), entry.0);
            let actual = if algorithm == "SHA256"@ {
                file_hash(t, path)
            } else {
                None
            };
            Some(
                CheckView {
                    archive_key: entry.0,
                    archive_path: path,
                    declared_algorithm: algorithm,
                    declared_hash: hash,
                    actual_hash: actual,
                    matches: match actual {
                        Some(a) => lower(a) == lower(hash),
                        None => false,
                    },
                },
            )
        },
    }
}

/// The checks of a list of declared archives, in order.
pub open spec fn checked_all(
    t: Tree,
    app: Seq<char>,
    plist: Seq<TokenView>,
    list: Seq<(Seq<char>, int)>,
) -> Seq<CheckView>
    decreases list.len(),
{
    if list.len() == 0 {
        Seq::empty()
    } else {
        let rest = checked_all(t, app, plist, list.drop_last());
        match checked(t, app, plist, list.last()) {
            Some(c) => rest.push(c),
            None => rest,
        }
    }
}

/// The checks that a property list calls for; none where it declares no integrity.
pub open spec fn verified(t: Tree, app: Seq<char>, plist: Seq<TokenView>) -> Option<
    Seq<CheckView>,
> {
    match get(plist, 0, "ElectronAsarIntegrity"@) {
        Some(at) => if dict_at(plist, at) {
            Some(checked_all(t, app, plist, entries(plist, at)))
        } else {
            None
        },
        None => None,
    }
}

fn checked_of(tree: &MemTree, app_path: &str, plist: &Vec<Token>, key: &str, at: usize) -> (r: Option<
    AsarIntegrityCheck,
>)
    ensures
        match r {
            Some(c) => checked(tree@, app_path@, tokens(plist@), (key@, at as int)) == Some(c@),
            None => checked(tree@, app_path@, tokens(plist@), (key@, at as int)) is None,
        },
{
    let declared_hash = match get_text_of(plist, at, "hash") {
        Some(h) => h,
        None => {
            return None;
        },
    };
    let declared_algorithm = match get_text_of(plist, at, "algorithm") {
        Some(a) => a,
        None => "SHA256".to_owned(),
    };
    let archive_path = seen_from_of(push_of(app_path, "Contents").as_str(), key);
    let actual_hash = if same(declared_algorithm.as_str(), "SHA256") {
        file_hash_of(tree, archive_path.as_str())
    } else {
        None
    };
    let matches = match &actual_hash {
        Some(a) => same(lower_of(a.as_str()).as_str(), lower_of(declared_hash.as_str()).as_str()),
        None => false,
    };
    Some(
        AsarIntegrityCheck {
            archive_key: key.to_owned(),
            archive_path,
            declared_algorithm,
            declared_hash,
            actual_hash,
            matches,
        },
    )
}

/// The checks that a parsed `Info.plist` calls for.
pub fn verify_declared(tree: &MemTree, app_path: &str, plist: &Vec<Token>) -> (r: Option<
    Vec<AsarIntegrityCheck>,
>)
    ensures
        match r {
            Some(v) => verified(tree@, app_path@, tokens(plist@)) == Some(check_views(v@)),
            None => verified(tree@, app_path@, tokens(plist@)) is None,
        },
{
    let at = match get_of(plist, 0, "ElectronAsarIntegrity") {
        Some(at) => at,
        None => {
            return None;
        },
    };
    if !is_dict_of(plist, at) {
        return None;
    }
    let list = entries_of(plist, at);
    let ghost all = keyed(list@);
    let ghost toks = tokens(plist@);
    let mut out: Vec<AsarIntegrityCheck> = Vec::new();
    let mut i: usize = 0;
    assert(all.take(0) =~= Seq::empty());
    assert(check_views(out@) =~= Seq::empty());
    while i < list.len()
        invariant
            i <= list@.len(),
            all == keyed(list@),
            toks == tokens(plist@),
            check_views(out@) == checked_all(tree@, app_path@, toks, all.take(i as int)),
        decreases list.len() - i,
    {
        assert(all.take(i + 1).drop_last() =~= all.take(i as int));
        assert(all.take(i + 1).last() == (list@[i as int].0@, list@[i as int].1 as int));
        match checked_of(tree, app_path, plist, list[i].0.as_str(), list[i].1) {
            Some(c) => {
                let ghost before = check_views(out@);
                out.push(c);
                assert(check_views(out@) =~= before.push(c@));
            },
            None => {},
        }
        i = i + 1;
    }
    assert(all.take(all.len() as int) =~= all);
    Some(out)
}

/// The place of a bundle's `Info.plist`.
pub open spec fn info_plist_path(app: Seq<char>) -> Seq<char> {
    pushed(app, "Contents/Info.plist"@)
}

/// Returns `None` if the bundle has no `ElectronAsarIntegrity` entry (i.e.
/// it's not an Electron app, or it's an Electron app with integrity
/// disabled). macOS-only: the declared hash lives in `Contents/Info.plist`.
pub fn verify_all(tree: &MemTree, app_path: &str) -> (r: Option<Vec<AsarIntegrityCheck>>)
    ensures
        match plist_at(tree@, info_plist_path(app_path@)) {
            Some(plist) => match r {
                Some(v) => verified(tree@, app_path@, plist) == Some(check_views(v@)),
                None => verified(tree@, app_path@, plist) is None,
            },
            None => r is None,
        },
{
    match read_plist(tree, push_of(app_path, "Contents/Info.plist").as_str()) {
        Some(plist) => verify_declared(tree, app_path, &plist),
        None => None,
    }
}

/// Only the header counts: an archive that shares the prefix and the header of another,
/// whatever files it holds, has the same hash.
pub proof fn lemma_bodies_do_not_count(a: Seq<u8>, b: Seq<u8>)
    requires
        header(a) is Ok,
        begins(b, a.take(16 + header(a)->Ok_0.len() as int)),
    ensures
        header_hash(b) == header_hash(a),
{
    let n = header(a)->Ok_0.len() as int;
    assert(b.take(16 + n) == a.take(16 + n));
    assert forall|i: int| 0 <= i < 16 + n implies a[i] == b[i] by {
        assert(a.take(16 + n)[i] == b.take(16 + n)[i]);
    }
    assert(le32(a, 0) == le32(b, 0));
    assert(le32(a, 12) == le32(b, 12));
    assert(header(a)->Ok_0 =~= header(b)->Ok_0);
}

/// A check that matches has read the archive, by the one algorithm that is known, and its
/// hash is the declared one but for case.
pub proof fn lemma_match_is_earned(
    t: Tree,
    app: Seq<char>,
    plist: Seq<TokenView>,
    entry: (Seq<char>, int),
)
    requires
        checked(t, app, plist, entry) is Some,
        checked(t, app, plist, entry)->0.matches,
    ensures
        checked(t, app, plist, entry)->0.declared_algorithm == "SHA256"@,
        file_hash(t, checked(t, app, plist, entry)->0.archive_path) is Some,
        lower(file_hash(t, checked(t, app, plist, entry)->0.archive_path)->0) == lower(
            checked(t, app, plist, entry)->0.declared_hash,
        ),
{
}

} // verus!
