//! Analyse an upload: an app directory assembled file by file, a zip of one, a Linux
//! package, a bare executable, or a bare `app.asar`.
//!
//! There is no host OS to infer a layout from: the upload may be a macOS `.app`, a Windows
//! install directory, or a Linux app tree. So each job first works out which, and only
//! then runs the analysis that a desktop scan runs.

use std::io::Read;

use vstd::prelude::*;
use vstd::utf8::*;

use crate::audit::{audit, audits, AppAudit, HostFacts};
use crate::bytes::{begins, begins_with, le32, le32_of, utf8_text};
use crate::detect::app::{AppView, DiscoveredApp};
use crate::detect::{
    detect_app, detected, webview_view, Detection, DetectionView, Host, WebviewView,
};
use crate::num::{decimal, decimal_of};
use crate::path::{
    is_plain, join_safe, lemma_plain_name_lands, lemma_safe_join_stays_within, lemma_split_pieces,
    push_of, pushed, pushed_all, safe_join, slashed, within,
};
use crate::pkg::{
    fault_message, fresh, identified, sniff, unpack_run, unpack_with_limit, Collector, Entry,
    EntryView, Fault, Format, Sink,
};
use crate::text::{
    chars_of, closes, concat, concat3, copy_opt, ends_with, first_in, lower, lower_of, opt_text, or_opt,
    or_text, same, split, split_from, split_of, text_of, texts, trim, trim_of, CharClass,
};
use crate::upload::{
    app_under, find_app, find_app_in_payload, locate_scan_target, opt_app, payload_app, scan_target,
    single_binary, sniff_platform, sniffed_platform,
};
use crate::vfs::{
    file_at, inserted, is_canonical, lemma_inserted_below, platform_named, present, undisturbed,
    MemTree, NodeView, Platform, Tree, USUAL_MODE,
};

verus! {

/// Synthetic root the upload is unpacked under. The analysis treats this like
/// `/Applications/Foo.app` on the desktop.
pub open spec fn scan_root() -> Seq<char> {
    "/scan"@
}

/// How far a Linux package may expand in memory. Packages are compressed, so unlike a
/// folder upload the size on disk says little about the size in memory; this turns a
/// decompression bomb into a message rather than an out-of-memory trap.
pub const MAX_PACKAGE_BYTES: u64 = 0x8000_0000;

/// What the raw upload actually is.
#[derive(Debug, Clone, Copy, PartialEq, Eq, Structural)]
pub enum Upload {
    /// A zip archive of an application directory.
    Zip,
    /// A bare `app.asar`.
    Asar,
    /// A single executable, with the platform its magic implies.
    Binary(Platform),
    /// A Linux application package to unpack first.
    Package(Format),
}

/// Whether bytes look like an ASAR archive: the pickle outer size is 4.
pub open spec fn is_asar(b: Seq<u8>) -> bool {
    b.len() >= 16 && le32(b, 0) == 4
}

/// True if `bytes` looks like an ASAR archive: the pickle outer size (first LE
/// u32) is 4. A zip would start with `PK\x03\x04` instead.
pub fn looks_like_asar(bytes: &[u8]) -> (r: bool)
    ensures
        r == is_asar(bytes@),
{
    bytes.len() >= 16 && le32_of(bytes, 0) == 4
}

/// What an upload is. Packages come before bare binaries: an AppImage is an ELF as well,
/// and reading it as a lone executable would find only the runtime stub — never the
/// application in the filesystem behind it. A lone executable identifies its own
/// platform; a Mach-O doesn't qualify, since on its own it carries no bundle to audit.
pub open spec fn classified(b: Seq<u8>, filename: Seq<char>) -> Option<Upload> {
    if closes(lower(filename), ".asar"@) || is_asar(b) {
        Some(Upload::Asar)
    } else if identified(b, filename) is Some {
        Some(Upload::Package(identified(b, filename)->0))
    } else if begins(b, seq![0x50u8, 0x4b, 3, 4]) || closes(lower(filename), ".zip"@) {
        Some(Upload::Zip)
    } else if begins(b, seq![0x4du8, 0x5a]) {
        Some(Upload::Binary(Platform::Windows))
    } else if begins(b, seq![0x7fu8, 0x45, 0x4c, 0x46]) {
        Some(Upload::Binary(Platform::Linux))
    } else {
        None
    }
}

impl Upload {
    /// `None` when the bytes match nothing that can be analysed — the caller reports
    /// [`unsupported_message`] rather than guessing, since any extension-less file is
    /// accepted (a Linux app binary has no extension to check).
    pub fn classify(bytes: &[u8], filename: &str) -> (r: Option<Upload>)
        ensures
            r == classified(bytes@, filename@),
    {
        let low = lower_of(filename);
        if ends_with(low.as_str(), ".asar") || looks_like_asar(bytes) {
            return Some(Upload::Asar);
        }
        if let Some(format) = sniff(bytes, filename) {
            return Some(Upload::Package(format));
        }
        let zip: [u8; 4] = [0x50, 0x4b, 3, 4];
        let pe: [u8; 2] = [0x4d, 0x5a];
        let elf: [u8; 4] = [0x7f, 0x45, 0x4c, 0x46];
        assert(zip@ =~= seq![0x50u8, 0x4b, 3, 4]);
        assert(pe@ =~= seq![0x4du8, 0x5a]);
        assert(elf@ =~= seq![0x7fu8, 0x45, 0x4c, 0x46]);
        if begins_with(bytes, zip.as_slice()) || ends_with(low.as_str(), ".zip") {
            return Some(Upload::Zip);
        }
        if begins_with(bytes, pe.as_slice()) {
            return Some(Upload::Binary(Platform::Windows));
        }
        if begins_with(bytes, elf.as_slice()) {
            return Some(Upload::Binary(Platform::Linux));
        }
        None
    }
}

/// Whether bytes open with a Mach-O header, in either width and byte order, or with one of
/// the universal ("fat") wrappers.
pub open spec fn is_macho(b: Seq<u8>) -> bool {
    ||| begins(b, seq![0xfeu8, 0xed, 0xfa, 0xce])
    ||| begins(b, seq![0xfeu8, 0xed, 0xfa, 0xcf])
    ||| begins(b, seq![0xceu8, 0xfa, 0xed, 0xfe])
    ||| begins(b, seq![0xcfu8, 0xfa, 0xed, 0xfe])
    ||| begins(b, seq![0xcau8, 0xfe, 0xba, 0xbe])
    ||| begins(b, seq![0xbeu8, 0xba, 0xfe, 0xca])
}

fn opens_with(b: &[u8], p: u8, q: u8, r: u8, s: u8) -> (y: bool)
    ensures
        y == begins(b@, seq![p, q, r, s]),
{
    let magic: [u8; 4] = [p, q, r, s];
    assert(magic@ =~= seq![p, q, r, s]);
    begins_with(b, magic.as_slice())
}

/// Why an upload couldn't be read.
pub open spec fn unsupported(b: Seq<u8>) -> Seq<char> {
    if is_macho(b) {
        "this is a Mach-O binary — the executable from inside a .app, which on its own carries no bundle to analyse. Zip the whole .app and upload that instead."@
    } else {
        "unrecognised file: expected a zipped app (.zip), a Linux package (.AppImage, .snap, .deb, .rpm, .tar.gz), a Windows .exe, a Linux executable, or an app.asar."@
    }
}

/// Why an upload couldn't be read, phrased as the next thing to try.
pub fn unsupported_message(bytes: &[u8]) -> (r: &'static str)
    ensures
        r@ == unsupported(bytes@),
{
    if opens_with(bytes, 0xfe, 0xed, 0xfa, 0xce) || opens_with(bytes, 0xfe, 0xed, 0xfa, 0xcf)
        || opens_with(bytes, 0xce, 0xfa, 0xed, 0xfe) || opens_with(bytes, 0xcf, 0xfa, 0xed, 0xfe)
        || opens_with(bytes, 0xca, 0xfe, 0xba, 0xbe) || opens_with(bytes, 0xbe, 0xba, 0xfe, 0xca) {
        return "this is a Mach-O binary — the executable from inside a .app, which on its own carries no bundle to analyse. Zip the whole .app and upload that instead.";
    }
    "unrecognised file: expected a zipped app (.zip), a Linux package (.AppImage, .snap, .deb, .rpm, .tar.gz), a Windows .exe, a Linux executable, or an app.asar."
}

/// The name that a single uploaded binary is given.
pub open spec fn safe_name(filename: Seq<char>) -> Seq<char> {
    let name = trim(split(filename, CharClass::Slashes).last(), CharClass::White);
    if name.len() == 0 || name == "."@ || name == ".."@ {
        "app-binary"@
    } else {
        name
    }
}

/// Where a single uploaded binary lands. Falls back to a fixed name so a
/// filename with path separators can't escape the scan root.
pub fn binary_name(filename: &str) -> (r: String)
    ensures
        r@ == safe_name(filename@),
{
    let pieces = split_of(filename, CharClass::Slashes);
    assert(texts(pieces@).last() == pieces@[pieces@.len() - 1]@);
    let last = chars_of(pieces[pieces.len() - 1].as_str());
    let name = text_of(trim_of(&last, CharClass::White).as_slice());
    if name.as_str().is_empty() || same(name.as_str(), ".") || same(name.as_str(), "..") {
        "app-binary".to_owned()
    } else {
        name
    }
}

proof fn lemma_trim_keeps_out(s: Seq<char>, class: CharClass, c: char)
    requires
        !s.contains(c),
    ensures
        !trim(s, class).contains(c),
{
    lemma_trim_start_keeps_out(s, class, c);
    lemma_trim_end_keeps_out(crate::text::trim_start(s, class), class, c);
}

proof fn lemma_trim_start_keeps_out(s: Seq<char>, class: CharClass, c: char)
    requires
        !s.contains(c),
    ensures
        !crate::text::trim_start(s, class).contains(c),
    decreases s.len(),
{
    if s.len() > 0 && class.has(s[0]) {
        assert forall|i: int| 0 <= i < s.skip(1).len() implies s.skip(1)[i] != c by {
            assert(s[i + 1] != c);
        }
        lemma_trim_start_keeps_out(s.skip(1), class, c);
    }
}

proof fn lemma_trim_end_keeps_out(s: Seq<char>, class: CharClass, c: char)
    requires
        !s.contains(c),
    ensures
        !crate::text::trim_end(s, class).contains(c),
    decreases s.len(),
{
    if s.len() > 0 && class.has(s.last()) {
        assert forall|i: int| 0 <= i < s.drop_last().len() implies s.drop_last()[i] != c by {
            assert(s[i] != c);
        }
        lemma_trim_end_keeps_out(s.drop_last(), class, c);
    }
}

/// A filename with path separators can't escape the scan root: the name that a binary is
/// given is a single path component.
pub proof fn lemma_safe_name(filename: Seq<char>)
    ensures
        is_plain(safe_name(filename)),
{
    reveal_strlit("app-binary");
    reveal_strlit(".");
    reveal_strlit("..");
    lemma_split_pieces(filename, CharClass::Slashes, 0);
    let pieces = split(filename, CharClass::Slashes);
    let last = pieces.last();
    if pieces.len() > 0 {
        assert forall|j: int| 0 <= j < last.len() implies last[j] != '/' by {
            assert(!CharClass::Slashes.has(split_from(filename, CharClass::Slashes, 0)[pieces.len()
                - 1][j]));
        }
        assert(!last.contains('/'));
        lemma_trim_keeps_out(last, CharClass::White, '/');
    } else {
        lemma_split_is_never_empty(filename, CharClass::Slashes);
    }
    assert("app-binary"@ != "."@ && "app-binary"@ != ".."@) by {
        assert("app-binary"@.len() == 10);
    }
    assert forall|j: int| 0 <= j < "app-binary"@.len() implies "app-binary"@[j] != '/' by {}
}

proof fn lemma_split_is_never_empty(s: Seq<char>, class: CharClass)
    ensures
        split(s, class).len() >= 1,
{
    crate::text::lemma_first_in(s, class, 0);
}

// ---------- zip ----------------------------------------------------------

/// One entry of a zip archive.
#[derive(Debug)]
pub struct ZipEntry {
    /// The name that the archive records.
    pub recorded: String,
    /// Where it lands below a directory; none for a name that would leave it.
    pub name: Option<String>,
    pub dir: bool,
    /// Unix mode, where the archive records one.
    pub mode: Option<u32>,
    /// What it holds, or why that cannot be read.
    pub data: Result<Vec<u8>, String>,
}

/// What an entry holds, whatever it is called.
pub struct ZipBody {
    pub dir: bool,
    pub mode: Option<u32>,
    pub data: Result<Seq<u8>, Seq<char>>,
}

/// The model of a [`ZipEntry`].
pub struct ZipEntryView {
    pub recorded: Seq<char>,
    pub name: Option<Seq<char>>,
    pub body: ZipBody,
}

impl View for ZipEntry {
    type V = ZipEntryView;

    open spec fn view(&self) -> ZipEntryView {
        ZipEntryView {
            recorded: self.recorded@,
            name: opt_text(self.name),
            body: ZipBody {
                dir: self.dir,
                mode: self.mode,
                data: match self.data {
                    Ok(d) => Ok(d@),
                    Err(e) => Err(e@),
                },
            },
        }
    }
}

/// The models of what is read out of an archive.
pub open spec fn zip_views(v: Seq<Result<ZipEntry, String>>) -> Seq<
    Result<ZipEntryView, Seq<char>>,
> {
    v.map_values(
        |e: Result<ZipEntry, String>|
            match e {
                Ok(e) => Ok::<ZipEntryView, Seq<char>>(e@),
                Err(m) => Err::<ZipEntryView, Seq<char>>(m@),
            },
    )
}

/// Where the components of a name lead, `..` resolved; nowhere for one that leaves the
/// directory it starts from.
pub open spec fn landed(comps: Seq<Seq<char>>) -> Option<Seq<Seq<char>>>
    decreases comps.len(),
{
    if comps.len() == 0 {
        Some(Seq::empty())
    } else {
        let c = comps.last();
        match landed(comps.drop_last()) {
            None => None,
            Some(at) => if c.len() == 0 || c == "."@ {
                Some(at)
            } else if c == ".."@ {
                if at.len() == 0 {
                    None
                } else {
                    Some(at.drop_last())
                }
            } else {
                Some(at.push(c))
            },
        }
    }
}

/// The name that an entry gets: what is recorded, with slashes either way, `.` and `..`
/// resolved and a leading slash dropped; none for one that leaves the archive or holds a
/// zero character.
pub open spec fn enclosed_name(recorded: Seq<char>) -> Option<Seq<char>> {
    if recorded.contains('\0') {
        None
    } else {
        match landed(split(recorded, CharClass::Slashes)) {
            Some(comps) => Some(slashed(comps)),
            None => None,
        }
    }
}

/// Whether a recorded name means the same everywhere: it holds no colon, which may stand for
/// a drive or a stream, and does not open like the name of a network share or a device.
pub open spec fn is_portable(recorded: Seq<char>) -> bool {
    let slash = CharClass::Slashes;
    &&& !recorded.contains(':')
    &&& !(recorded.len() >= 2 && slash.has(recorded[0]) && slash.has(recorded[1]))
}

/// What the zip crate reads out of an archive, entry by entry: the name that it records, and
/// what it holds.
pub uninterp spec fn zip_contents(bytes: Seq<u8>) -> Result<
    Seq<Result<(Seq<char>, ZipBody), Seq<char>>>,
    Seq<char>,
>;

/// Whether an entry is read as it is listed. Where one that is not portable lands is up to
/// the host.
pub open spec fn reads_entry_as(
    seen: Result<ZipEntryView, Seq<char>>,
    listed: Result<(Seq<char>, ZipBody), Seq<char>>,
) -> bool {
    match (seen, listed) {
        (Ok(s), Ok((recorded, body))) => {
            &&& s.recorded == recorded
            &&& s.body == body
            &&& is_portable(recorded) ==> s.name == enclosed_name(recorded)
        },
        (Err(a), Err(b)) => a == b,
        _ => false,
    }
}

/// Whether entries are read as they are listed.
pub open spec fn reads_as(
    seen: Seq<Result<ZipEntryView, Seq<char>>>,
    listed: Seq<Result<(Seq<char>, ZipBody), Seq<char>>>,
) -> bool {
    &&& seen.len() == listed.len()
    &&& forall|i: int| 0 <= i < seen.len() ==> reads_entry_as(#[trigger] seen[i], listed[i])
}

/// `zip::ZipArchive::new`, then `by_index` for every entry in order: the `name` that it
/// records, whether it is a directory, its mode and what it holds, which depend on the bytes
/// alone, and the components of its `enclosed_name`. Those are the recorded ones, resolved,
/// wherever no path prefix is recorded; what becomes of a prefix is left unsaid, since the
/// host's own path rules have a say in it.
#[verifier::external_body]
fn zip_entries(bytes: &[u8]) -> (r: Result<Vec<Result<ZipEntry, String>>, String>)
    ensures
        match r {
            Ok(v) => zip_contents(bytes@) matches Ok(listed) && reads_as(zip_views(v@), listed),
            Err(m) => zip_contents(bytes@) == Err::<
                Seq<Result<(Seq<char>, ZipBody), Seq<char>>>,
                _,
            >(m@),
        },
{
    let mut zip = zip::ZipArchive::new(std::io::Cursor::new(bytes)).map_err(|e| e.to_string())?;
    Ok((0..zip.len()).map(|i| {
        let mut entry = zip.by_index(i).map_err(|e| e.to_string())?;
        let mut data = Vec::new();
        let read = entry.read_to_end(&mut data).map_err(|e| e.to_string());
        Ok(ZipEntry {
            recorded: entry.name().to_string(),
            name: entry.enclosed_name().map(|p| p.to_string_lossy().replace('\\', "/")),
            dir: entry.is_dir(),
            mode: entry.unix_mode(),
            data: read.map(|_| data),
        })
    }).collect())
}

/// Whether a mode is that of a symbolic link.
pub open spec fn is_link_mode(mode: Option<u32>) -> bool {
    match mode {
        Some(m) => m & 0xf000 == 0xa000,
        None => false,
    }
}

/// The mode that an archive records, else the usual one.
pub open spec fn mode_or_usual(mode: Option<u32>) -> u32 {
    match mode {
        Some(m) => m,
        None => USUAL_MODE,
    }
}

/// The tree with one entry of an archive added under `base`, or why it cannot be. One that
/// would land elsewhere is skipped.
pub open spec fn unzipped_entry(
    t: Tree,
    base: Seq<char>,
    e: Result<ZipEntryView, Seq<char>>,
) -> Result<Tree, Seq<char>> {
    match e {
        Err(m) => Err(m),
        Ok(e) => {
            let dest = match e.name {
                Some(n) => safe_join(base, n),
                None => None,
            };
            match dest {
                None => Ok(t),
                Some(p) => if e.body.dir {
                    Ok(inserted(t, p, NodeView::Dir))
                } else {
                    match e.body.data {
                        Err(m) => Err(m),
                        Ok(d) => if is_link_mode(e.body.mode) {
                            if valid_utf8(d) {
                                Ok(inserted(t, p, NodeView::Link(decode_utf8(d))))
                            } else {
                                Err("stream did not contain valid UTF-8"@)
                            }
                        } else {
                            Ok(inserted(t, p, NodeView::File(d, mode_or_usual(e.body.mode))))
                        },
                    }
                },
            }
        },
    }
}

/// The tree with the entries from the `i`-th on added under `base`, or why one cannot be.
pub open spec fn unzipped(
    t: Tree,
    base: Seq<char>,
    list: Seq<Result<ZipEntryView, Seq<char>>>,
    i: int,
) -> Result<Tree, Seq<char>>
    decreases list.len() - i,
{
    if i < 0 || i >= list.len() {
        Ok(t)
    } else {
        match unzipped_entry(t, base, list[i]) {
            Ok(u) => unzipped(u, base, list, i + 1),
            Err(m) => Err(m),
        }
    }
}

/// Adds one entry of an archive to a tree.
fn unzip_entry(tree: &mut MemTree, base: &str, e: Result<ZipEntry, String>) -> (r: Result<(), String>)
    ensures
        match unzipped_entry(
            old(tree)@,
            base@,
            match e {
                Ok(e) => Ok(e@),
                Err(m) => Err(m@),
            },
        ) {
            Ok(t) => r is Ok && final(tree)@ == t,
            Err(m) => r matches Err(s) && s@ == m,
        },
{
    let e = match e {
        Ok(e) => e,
        Err(m) => {
            return Err(m);
        },
    };
    let dest = match &e.name {
        Some(n) => join_safe(base, n.as_str()),
        None => None,
    };
    let p = match dest {
        Some(p) => p,
        None => {
            return Ok(());
        },
    };
    if e.dir {
        tree.insert_dir(p.as_str());
        return Ok(());
    }
    let data = match e.data {
        Ok(d) => d,
        Err(m) => {
            return Err(m);
        },
    };
    let mode: u32 = match e.mode {
        Some(m) => m,
        None => USUAL_MODE,
    };
    let link = e.mode.is_some() && mode & 0xf000 == 0xa000;
    if link {
        match utf8_text(data.as_slice()) {
            Some(target) => {
                tree.insert_symlink(p.as_str(), target.as_str());
            },
            None => {
                return Err("stream did not contain valid UTF-8".to_owned());
            },
        }
    } else {
        tree.insert_file_with_mode(p.as_str(), data, mode);
    }
    Ok(())
}

/// Adds the entries of an archive to `tree` under `base`, preserving Unix modes and
/// symlinks (macOS frameworks rely on `Versions/Current -> A`).
pub fn unzip_entries(
    tree: &mut MemTree,
    base: &str,
    list: Vec<Result<ZipEntry, String>>,
) -> (r: Result<(), String>)
    ensures
        match unzipped(old(tree)@, base@, zip_views(list@), 0) {
            Ok(t) => r is Ok && final(tree)@ == t,
            Err(m) => r matches Err(s) && s@ == m,
        },
{
    let ghost all = zip_views(list@);
    let ghost start = tree@;
    let mut rest = list;
    let n = rest.len();
    let mut i: usize = 0;
    assert(rest@ =~= list@.skip(0));
    while i < n
        invariant
            i <= n,
            n == list@.len(),
            rest@ == list@.skip(i as int),
            all == zip_views(list@),
            start == old(tree)@,
            unzipped(start, base@, all, 0) == unzipped(tree@, base@, all, i as int),
        decreases n - i,
    {
        let e = rest.remove(0);
        assert(e == list@[i as int]);
        assert(rest@ =~= list@.skip(i + 1));
        assert(all[i as int] == match e {
            Ok(e) => Ok::<ZipEntryView, Seq<char>>(e@),
            Err(m) => Err::<ZipEntryView, Seq<char>>(m@),
        });
        match unzip_entry(tree, base, e) {
            Ok(_) => {},
            Err(m) => {
                return Err(m);
            },
        }
        i = i + 1;
    }
    Ok(())
}

/// Whether a tree, or a message, is what unpacking an archive gives.
pub open spec fn unzips_to(
    t: Tree,
    bytes: Seq<u8>,
    base: Seq<char>,
    r: Result<Tree, Seq<char>>,
) -> bool {
    match zip_contents(bytes) {
        Err(m) => r == Err::<Tree, Seq<char>>(m),
        Ok(listed) => exists|seen: Seq<Result<ZipEntryView, Seq<char>>>|
            reads_as(seen, listed) && r == #[trigger] unzipped(t, base, seen, 0),
    }
}

/// Unpack a zip archive into `tree` under `base`.
pub fn unzip_into(bytes: &[u8], tree: &mut MemTree, base: &str) -> (r: Result<(), String>)
    ensures
        unzips_to(
            old(tree)@,
            bytes@,
            base@,
            match r {
                Ok(_) => Ok(final(tree)@),
                Err(m) => Err(m@),
            },
        ),
{
    match zip_entries(bytes) {
        Ok(list) => {
            assert(zip_contents(bytes@) matches Ok(listed) && reads_as(zip_views(list@), listed));
            unzip_entries(tree, base, list)
        },
        Err(m) => Err(m),
    }
}

/// Nothing in an archive lands outside the directory that it is unpacked under, whatever
/// names it uses: what stands elsewhere stays as it is.
pub proof fn lemma_unzip_stays_within(
    t: Tree,
    base: Seq<char>,
    list: Seq<Result<ZipEntryView, Seq<char>>>,
    i: int,
    q: Seq<char>,
)
    requires
        is_canonical(base),
        !within(base, q),
    ensures
        unzipped(t, base, list, i) matches Ok(u) ==> undisturbed(t, u, q),
    decreases list.len() - i,
{
    if 0 <= i < list.len() {
        if let Ok(u) = unzipped_entry(t, base, list[i]) {
            if let Some(n) = list[i]->Ok_0.name {
                lemma_safe_join_stays_within(base, n);
                if let Some(p) = safe_join(base, n) {
                    lemma_inserted_below(t, base, p, NodeView::Dir, q);
                    if let Ok(d) = list[i]->Ok_0.body.data {
                        let mode = mode_or_usual(list[i]->Ok_0.body.mode);
                        lemma_inserted_below(t, base, p, NodeView::Link(decode_utf8(d)), q);
                        lemma_inserted_below(t, base, p, NodeView::File(d, mode), q);
                    }
                }
            }
            lemma_unzip_stays_within(u, base, list, i + 1, q);
        }
    }
}

proof fn lemma_landed_plain(comps: Seq<Seq<char>>)
    requires
        forall|i: int| 0 <= i < comps.len() ==> !(#[trigger] comps[i]).contains('/'),
    ensures
        landed(comps) matches Some(at) ==> forall|i: int|
            0 <= i < at.len() ==> is_plain(#[trigger] at[i]),
    decreases comps.len(),
{
    if comps.len() > 0 {
        let head = comps.drop_last();
        assert forall|i: int| 0 <= i < head.len() implies !(#[trigger] head[i]).contains('/') by {
            assert(head[i] == comps[i]);
        }
        lemma_landed_plain(head);
        assert(!comps[comps.len() - 1].contains('/'));
    }
}

/// An entry lands below the directory at the components that its name leads to: none whose
/// name stays below is dropped.
pub proof fn lemma_enclosed_is_kept(base: Seq<char>, recorded: Seq<char>)
    ensures
        enclosed_name(recorded) matches Some(n) ==> safe_join(base, n) == Some(
            pushed_all(base, landed(split(recorded, CharClass::Slashes))->0),
        ),
{
    let pieces = split(recorded, CharClass::Slashes);
    if let Some(n) = enclosed_name(recorded) {
        lemma_split_pieces(recorded, CharClass::Slashes, 0);
        assert forall|i: int| 0 <= i < pieces.len() implies !(#[trigger] pieces[i]).contains('/') by {
            assert forall|j: int| 0 <= j < pieces[i].len() implies pieces[i][j] != '/' by {
                assert(!CharClass::Slashes.has(
                    split_from(recorded, CharClass::Slashes, 0)[i][j],
                ));
            }
        }
        lemma_landed_plain(pieces);
        let comps = landed(pieces)->0;
        if comps.len() == 0 {
            crate::text::lemma_first_in(n, CharClass::Only('/'), 0);
            let only = split(n, CharClass::Only('/'));
            assert(n.len() == 0);
            assert(first_in(n, CharClass::Only('/'), 0) is None);
            assert(only == seq![n.subrange(0, 0)]);
            assert(only[0].len() == 0);
            assert(only.skip(1) =~= Seq::empty());
            assert(crate::path::joined(base, only.skip(1)) == Some(base));
        } else {
            lemma_plain_name_lands(base, comps);
        }
    }
}

/// What an archive of portable names lists, each entry under its own.
pub open spec fn named_entries(listed: Seq<Result<(Seq<char>, ZipBody), Seq<char>>>) -> Seq<
    Result<ZipEntryView, Seq<char>>,
> {
    listed.map_values(
        |e: Result<(Seq<char>, ZipBody), Seq<char>>|
            match e {
                Ok((recorded, body)) => Ok::<ZipEntryView, Seq<char>>(
                    ZipEntryView { recorded, name: enclosed_name(recorded), body },
                ),
                Err(m) => Err::<ZipEntryView, Seq<char>>(m),
            },
    )
}

/// An archive of portable names unpacks to what it lists, on every host.
pub proof fn lemma_portable_archive_lands(
    t: Tree,
    bytes: Seq<u8>,
    base: Seq<char>,
    r: Result<Tree, Seq<char>>,
    listed: Seq<Result<(Seq<char>, ZipBody), Seq<char>>>,
)
    requires
        zip_contents(bytes) == Ok::<_, Seq<char>>(listed),
        forall|i: int|
            0 <= i < listed.len() ==> ((#[trigger] listed[i]) matches Ok((recorded, _))
                ==> is_portable(recorded)),
        unzips_to(t, bytes, base, r),
    ensures
        r == unzipped(t, base, named_entries(listed), 0),
{
    let seen = choose|seen: Seq<Result<ZipEntryView, Seq<char>>>|
        reads_as(seen, listed) && r == #[trigger] unzipped(t, base, seen, 0);
    assert forall|i: int| 0 <= i < seen.len() implies seen[i] == #[trigger] named_entries(
        listed,
    )[i] by {
        assert(reads_entry_as(seen[i], listed[i]));
    }
    assert(seen =~= named_entries(listed));
}

// ---------- packages -----------------------------------------------------

/// What an unpacked entry is in a tree.
pub open spec fn node_of(e: EntryView) -> NodeView {
    match e {
        EntryView::Dir(_) => NodeView::Dir,
        EntryView::File { data, mode, .. } => NodeView::File(data, mode),
        EntryView::Symlink { target, .. } => NodeView::Link(target),
    }
}

/// The tree with the first `n` of a list of unpacked entries.
pub open spec fn planted(t: Tree, entries: Seq<EntryView>, n: nat) -> Tree
    decreases n,
{
    if n == 0 || n > entries.len() {
        t
    } else {
        inserted(
            planted(t, entries, (n - 1) as nat),
            entries[n - 1].path(),
            node_of(entries[n - 1]),
        )
    }
}

/// Moving what a package unpacked to into a tree disturbs nothing outside the directory that
/// it was unpacked under.
pub proof fn lemma_plant_stays_within(
    t: Tree,
    base: Seq<char>,
    entries: Seq<EntryView>,
    n: nat,
    q: Seq<char>,
)
    requires
        is_canonical(base),
        forall|i: int| 0 <= i < entries.len() ==> within(base, (#[trigger] entries[i]).path()),
        !within(base, q),
    ensures
        undisturbed(t, planted(t, entries, n), q),
    decreases n,
{
    if 0 < n <= entries.len() {
        lemma_plant_stays_within(t, base, entries, (n - 1) as nat, q);
        let e = entries[n - 1];
        lemma_inserted_below(planted(t, entries, (n - 1) as nat), base, e.path(), node_of(e), q);
    }
}

/// The models of a list of unpacked entries.
pub open spec fn entry_views(v: Seq<Entry>) -> Seq<EntryView> {
    v.map_values(|e: Entry| e@)
}

/// Moves unpacked entries into a tree.
pub fn plant(tree: &mut MemTree, entries: Vec<Entry>)
    ensures
        final(tree)@ == planted(old(tree)@, entry_views(entries@), entries@.len()),
{
    let ghost all = entry_views(entries@);
    let ghost start = tree@;
    let mut rest = entries;
    let n = rest.len();
    let mut i: usize = 0;
    assert(rest@ =~= entries@.skip(0));
    while i < n
        invariant
            i <= n,
            n == entries@.len(),
            rest@ == entries@.skip(i as int),
            all == entry_views(entries@),
            tree@ == planted(start, all, i as nat),
        decreases n - i,
    {
        let e = rest.remove(0);
        assert(e == entries@[i as int]);
        assert(rest@ =~= entries@.skip(i + 1));
        assert(all[i as int] == e@);
        match e {
            Entry::Dir(path) => tree.insert_dir(path.as_str()),
            Entry::File { path, data, mode } => tree.insert_file_with_mode(
                path.as_str(),
                data,
                mode,
            ),
            Entry::Symlink { path, target } => tree.insert_symlink(path.as_str(), target.as_str()),
        }
        i = i + 1;
    }
}

/// A size in mebibytes, to the nearest whole one, a tie to the even one.
pub open spec fn mebibytes(bytes: nat) -> nat {
    let whole = bytes / 0x10_0000;
    let rest = bytes % 0x10_0000;
    if rest > 0x8_0000 || (rest == 0x8_0000 && whole % 2 == 1) {
        whole + 1
    } else {
        whole
    }
}

/// A size in mebibytes, to the nearest whole one, a tie to the even one.
pub fn mebibytes_of(bytes: u64) -> (r: u64)
    ensures
        r == mebibytes(bytes as nat),
{
    let whole: u64 = bytes / 0x10_0000;
    let rest: u64 = bytes % 0x10_0000;
    if rest > 0x8_0000 || (rest == 0x8_0000 && whole % 2 == 1) {
        whole + 1
    } else {
        whole
    }
}

/// The note on a package that was unpacked.
pub open spec fn unpacked_note(format: Format, files: nat, bytes: nat) -> Seq<char> {
    "Unpacked a "@ + format.name() + " ("@ + decimal(files) + " files, "@ + decimal(
        mebibytes(bytes),
    ) + " MB) and analysed the application inside it."@
}

fn unpacked_note_of(format: Format, files: usize, bytes: u64) -> (r: String)
    ensures
        r@ == unpacked_note(format, files as nat, bytes as nat),
{
    let mut s = concat3("Unpacked a ", format.as_str(), " (");
    s.append(decimal_of(files as u64).as_str());
    s.append(" files, ");
    s.append(decimal_of(mebibytes_of(bytes)).as_str());
    s.append(" MB) and analysed the application inside it.");
    s
}

// ---------- preparing the tree -------------------------------------------

/// Where the archive of a bare-asar upload is put: where an Electron app keeps it.
pub open spec fn asar_only() -> Seq<char> {
    pushed(scan_root(), "App.app/Contents/Resources/app.asar"@)
}

fn asar_only_path() -> (r: String)
    ensures
        r@ == asar_only(),
{
    push_of("/scan", "App.app/Contents/Resources/app.asar")
}

/// What an upload unpacks to, with notes, or why it cannot be read.
pub open spec fn prepares(
    b: Seq<u8>,
    filename: Seq<char>,
    kind: Upload,
    r: Result<(Tree, Seq<Seq<char>>), Seq<char>>,
) -> bool {
    let none = Seq::<(Seq<char>, NodeView)>::empty();
    match kind {
        Upload::Asar => r == Ok::<_, Seq<char>>(
            (
                inserted(none, asar_only(), NodeView::File(b, USUAL_MODE)),
                seq![
                    "Uploaded a bare app.asar: framework/signing detection is unavailable; ran the static rule scan only."@,
                ],
            ),
        ),
        Upload::Binary(_) => r == Ok::<_, Seq<char>>(
            (
                inserted(none, pushed(scan_root(), safe_name(filename)), NodeView::File(b, USUAL_MODE)),
                seq![
                    "Uploaded a single executable: only what the binary itself carries (imports and embedded version strings) could be analysed — no sibling runtime files to inspect."@,
                ],
            ),
        ),
        Upload::Zip => match r {
            Ok((t, notes)) => unzips_to(none, b, scan_root(), Ok(t)) && notes == Seq::<
                Seq<char>,
            >::empty(),
            Err(m) => exists|why: Seq<char>|
                unzips_to(none, b, scan_root(), Err(why)) && m
                    == #[trigger] ("could not read the uploaded zip: "@ + why),
        },
        Upload::Package(format) => {
            let run = unpack_run(
                b,
                format,
                scan_root(),
                MAX_PACKAGE_BYTES,
                fresh(Seq::empty()),
            );
            match run.result {
                Ok(_) => r == Ok::<_, Seq<char>>(
                    (
                        planted(none, run.at.entries, run.at.entries.len()),
                        seq![unpacked_note(format, run.at.files, run.at.bytes)] + run.at.warnings,
                    ),
                ),
                Err(f) => r == Err::<(Tree, Seq<Seq<char>>), _>(
                    "could not read this "@ + format.name() + ": "@ + package_fault(f),
                ),
            }
        },
    }
}

/// The message of a fault in a package.
pub open spec fn package_fault(f: Fault) -> Seq<char> {
    match fault_message(f) {
        Some(m) => m,
        None => "the payload is too large for this scan"@,
    }
}

/// The view of what an upload unpacks to.
pub open spec fn prepared_view(r: Result<(MemTree, Vec<String>), String>) -> Result<
    (Tree, Seq<Seq<char>>),
    Seq<char>,
> {
    match r {
        Ok((t, notes)) => Ok((t@, texts(notes@))),
        Err(m) => Err(m@),
    }
}

fn one(note: &str) -> (r: Vec<String>)
    ensures
        texts(r@) == seq![note@],
{
    let mut v: Vec<String> = Vec::new();
    v.push(note.to_owned());
    assert(texts(v@) =~= seq![note@]);
    v
}

fn prepare_package(bytes: &[u8], format: Format) -> (r: Result<(MemTree, Vec<String>), String>)
    ensures
        prepares(bytes@, Seq::empty(), Upload::Package(format), prepared_view(r)),
{
    let mut tree = MemTree::default();
    let mut sink = Collector::default();
    assert(sink.log() =~= Seq::empty());
    match unpack_with_limit(bytes, format, "/scan", &mut sink, MAX_PACKAGE_BYTES) {
        Ok(summary) => {
            let mut notes = one(
                unpacked_note_of(summary.format, summary.files, summary.bytes).as_str(),
            );
            let ghost first = texts(notes@);
            let mut warnings = summary.warnings;
            let ghost more = texts(warnings@);
            notes.append(&mut warnings);
            assert(texts(notes@) =~= first + more);
            assert(entry_views(sink.entries@) =~= sink.log());
            plant(&mut tree, sink.entries);
            Ok((tree, notes))
        },
        Err(e) => {
            let why = match e.message() {
                Some(m) => m,
                None => "the payload is too large for this scan".to_owned(),
            };
            let mut s = concat3("could not read this ", format.as_str(), ": ");
            s.append(why.as_str());
            Err(s)
        },
    }
}

/// What an upload unpacks to, with notes on what could not be analysed, or why it cannot
/// be read.
pub fn prepare(bytes: Vec<u8>, filename: &str, kind: Upload) -> (r: Result<
    (MemTree, Vec<String>),
    String,
>)
    ensures
        prepares(bytes@, filename@, kind, prepared_view(r)),
{
    let mut tree = MemTree::default();
    match kind {
        Upload::Asar => {
            // No bundle to inspect — drop the archive where an Electron app
            // keeps it so the static scan can read it.
            tree.insert_file(asar_only_path().as_str(), bytes);
            Ok(
                (
                    tree,
                    one(
                        "Uploaded a bare app.asar: framework/signing detection is unavailable; ran the static rule scan only.",
                    ),
                ),
            )
        },
        Upload::Binary(_) => {
            tree.insert_file(push_of("/scan", binary_name(filename).as_str()).as_str(), bytes);
            Ok(
                (
                    tree,
                    one(
                        "Uploaded a single executable: only what the binary itself carries (imports and embedded version strings) could be analysed — no sibling runtime files to inspect.",
                    ),
                ),
            )
        },
        Upload::Zip => match unzip_into(bytes.as_slice(), &mut tree, "/scan") {
            Ok(_) => {
                let notes: Vec<String> = Vec::new();
                assert(texts(notes@) =~= Seq::empty());
                Ok((tree, notes))
            },
            Err(m) => {
                let s = concat("could not read the uploaded zip: ", m.as_str());
                assert(s@ == "could not read the uploaded zip: "@ + m@);
                Err(s)
            },
        },
        Upload::Package(format) => prepare_package(bytes.as_slice(), format),
    }
}

// ---------- analysis -----------------------------------------------------

/// Combined result of analysing one app.
#[derive(Debug)]
pub struct AnalyzeResult {
    pub detection: Option<Detection>,
    pub audit: Option<AppAudit>,
    /// What the static rule scan should read.
    pub scan_target: Option<String>,
    /// Which platform's layout the upload was read as — sniffed unless the
    /// caller said otherwise.
    pub platform: Platform,
    /// Human-readable notes about what was (or couldn't be) analysed.
    pub notes: Vec<String>,
}

/// What inspecting an application gives; nothing for one that is not there or cannot be
/// read.
pub open spec fn detection_of(
    t: Tree,
    platform: Platform,
    app: AppView,
    sciter: Option<Seq<char>>,
    webview: WebviewView,
) -> Option<DetectionView> {
    match detected(t, platform, app, sciter, webview) {
        Ok(d) => Some(d),
        Err(_) => None,
    }
}

/// The view of an optional detection.
pub open spec fn opt_detection(d: Option<Detection>) -> Option<DetectionView> {
    match d {
        Some(d) => Some(d@),
        None => None,
    }
}

/// The root to analyse: detection's, which has the same corrections as a desktop scan, else
/// the one that was guessed.
pub open spec fn analysed_root(d: Option<DetectionView>, app: Option<AppView>) -> Option<Seq<char>> {
    match (d, app) {
        (Some(d), _) => Some(d.root),
        (None, Some(a)) => Some(a.root),
        (None, None) => None,
    }
}

/// The executable to analyse, likewise.
pub open spec fn analysed_executable(d: Option<DetectionView>, app: Option<AppView>) -> Option<
    Seq<char>,
> {
    or_text(
        match d {
            Some(d) => d.executable,
            None => None,
        },
        match app {
            Some(a) => a.executable,
            None => None,
        },
    )
}

/// What the static rule scan should read: the app's archive or unpacked directory, or the
/// standalone archive of a bare upload.
pub open spec fn target_for(t: Tree, root: Option<Seq<char>>, platform: Platform) -> Option<
    Seq<char>,
> {
    match root {
        Some(root) => scan_target(t, root, platform),
        None => if file_at(t, asar_only()) {
            Some(asar_only())
        } else {
            None
        },
    }
}

/// Whether a result is what analysing an application gives.
pub open spec fn analyses(
    r: AnalyzeResult,
    t: Tree,
    app: Option<AppView>,
    platform: Platform,
    sciter: Option<Seq<char>>,
    webview: WebviewView,
    facts: HostFacts,
) -> bool {
    let d = opt_detection(r.detection);
    let root = analysed_root(d, app);
    &&& r.platform == platform
    &&& match app {
        Some(a) => d == detection_of(t, platform, a, sciter, webview),
        None => d is None,
    }
    &&& match (app, r.audit) {
        (Some(a), Some(found)) => present(t, a.path) && audits(
            found,
            t,
            platform,
            a.path,
            root->0,
            analysed_executable(d, app),
            facts,
        ),
        (Some(a), None) => !present(t, a.path),
        (None, found) => found is None,
    }
    &&& opt_text(r.scan_target) == target_for(t, root, platform)
}

fn as_option(s: &Option<String>) -> (r: Option<&str>)
    ensures
        match r {
            Some(x) => opt_text(*s) == Some(x@),
            None => opt_text(*s) is None,
        },
{
    match s {
        Some(s) => Some(s.as_str()),
        None => None,
    }
}

/// Run detection / audit / static-scan targeting against a tree.
pub fn run_analysis(
    tree: &MemTree,
    app: Option<DiscoveredApp>,
    platform: Platform,
    notes: Vec<String>,
    host: Host,
    facts: HostFacts,
) -> (r: AnalyzeResult)
    ensures
        analyses(
            r,
            tree@,
            opt_app(app),
            platform,
            opt_text(host.sciter),
            webview_view(host.webview),
            facts,
        ),
        r.notes == notes,
{
    let a = match &app {
        Some(a) => a,
        None => {
            let only = asar_only_path();
            let scan_target = if tree.is_file(only.as_str()) {
                Some(only)
            } else {
                None
            };
            return AnalyzeResult { detection: None, audit: None, scan_target, platform, notes };
        },
    };
    let detection = match detect_app(tree, platform, a, host) {
        Ok(d) => Some(d),
        Err(_) => None,
    };
    let root = match &detection {
        Some(d) => d.root.clone(),
        None => a.root.clone(),
    };
    let executable = or_opt(
        match &detection {
            Some(d) => copy_opt(&d.executable),
            None => None,
        },
        copy_opt(&a.executable),
    );
    let found = match audit(
        tree,
        platform,
        a.path.as_str(),
        root.as_str(),
        as_option(&executable),
        facts,
    ) {
        Ok(x) => Some(x),
        Err(_) => None,
    };
    let scan_target = locate_scan_target(tree, root.as_str(), platform);
    AnalyzeResult { detection, audit: found, scan_target, platform, notes }
}

/// The platform that an upload is read as: the one that is forced, else the one that its
/// kind implies; a zip is sniffed.
pub open spec fn upload_platform(t: Tree, forced: Option<Platform>, kind: Upload) -> Platform {
    match (forced, kind) {
        (Some(p), _) => p,
        (None, Upload::Asar) => Platform::Macos,
        (None, Upload::Binary(p)) => p,
        (None, Upload::Package(_)) => Platform::Linux,
        (None, Upload::Zip) => sniffed_platform(t, scan_root()),
    }
}

/// The application in an upload.
pub open spec fn upload_app(t: Tree, filename: Seq<char>, platform: Platform, kind: Upload) -> Option<
    AppView,
> {
    match kind {
        Upload::Asar => None,
        Upload::Binary(_) => {
            let p = pushed(scan_root(), safe_name(filename));
            Some(
                AppView {
                    path: p,
                    root: crate::detect::app::home_of(p),
                    executable: Some(p),
                    name: crate::path::file_name(p),
                },
            )
        },
        Upload::Zip => app_under(t, scan_root(), platform),
        Upload::Package(_) => payload_app(t, scan_root()),
    }
}

/// The platform that is forced, where its name is known.
pub open spec fn forced_platform(name: Option<Seq<char>>) -> Option<Platform> {
    match name {
        Some(n) => platform_named(n),
        None => None,
    }
}

/// The notes on an upload, with one more where no application was found in a tree that
/// should hold one.
pub open spec fn upload_notes(
    notes: Seq<Seq<char>>,
    app: Option<AppView>,
    platform: Platform,
    kind: Upload,
) -> Seq<Seq<char>> {
    if app is None && (kind is Zip || kind is Package) {
        notes.push(
            "Could not locate a "@ + platform.name()
                + " application in the upload; analysed what was found."@,
        )
    } else {
        notes
    }
}

fn forced_platform_of(name: Option<&str>) -> (r: Option<Platform>)
    ensures
        r == forced_platform(
            match name {
                Some(n) => Some(n@),
                None => None,
            },
        ),
{
    match name {
        Some(n) => Platform::parse(n),
        None => None,
    }
}

/// Analyses what an upload unpacked to.
pub fn analyze_tree(
    tree: &MemTree,
    notes: Vec<String>,
    filename: &str,
    kind: Upload,
    forced: Option<Platform>,
    host: Host,
    facts: HostFacts,
) -> (r: AnalyzeResult)
    ensures
        ({
            let platform = upload_platform(tree@, forced, kind);
            let app = upload_app(tree@, filename@, platform, kind);
            &&& analyses(
                r,
                tree@,
                app,
                platform,
                opt_text(host.sciter),
                webview_view(host.webview),
                facts,
            )
            &&& texts(r.notes@) == upload_notes(texts(notes@), app, platform, kind)
        }),
{
    let platform = match (forced, kind) {
        (Some(p), _) => p,
        (None, Upload::Asar) => Platform::Macos,
        (None, Upload::Binary(p)) => p,
        // Every package format is a Linux one; there is nothing to sniff.
        (None, Upload::Package(_)) => Platform::Linux,
        (None, Upload::Zip) => sniff_platform(tree, "/scan"),
    };
    let mut notes = notes;
    let app = match kind {
        Upload::Asar => None,
        Upload::Binary(_) => Some(
            single_binary(push_of("/scan", binary_name(filename).as_str()).as_str()),
        ),
        Upload::Zip => find_app(tree, "/scan", platform),
        Upload::Package(_) => find_app_in_payload(tree, "/scan"),
    };
    let searched = match kind {
        Upload::Zip => true,
        Upload::Package(_) => true,
        _ => false,
    };
    if app.is_none() && searched {
        let ghost before = texts(notes@);
        let note = concat3(
            "Could not locate a ",
            platform.as_str(),
            " application in the upload; analysed what was found.",
        );
        notes.push(note);
        assert(texts(notes@) =~= before.push(note@));
    }
    run_analysis(tree, app, platform, notes, host, facts)
}

/// Whether a result is what analysing an upload gives.
pub open spec fn analyses_upload(
    r: Result<AnalyzeResult, Seq<char>>,
    b: Seq<u8>,
    filename: Seq<char>,
    forced: Option<Platform>,
    sciter: Option<Seq<char>>,
    webview: WebviewView,
    facts: HostFacts,
) -> bool {
    match classified(b, filename) {
        None => r == Err::<AnalyzeResult, Seq<char>>(unsupported(b)),
        Some(kind) => match r {
            Err(m) => prepares(b, filename, kind, Err(m)),
            Ok(a) => exists|t: Tree, notes: Seq<Seq<char>>|
                {
                    let platform = upload_platform(t, forced, kind);
                    let app = upload_app(t, filename, platform, kind);
                    &&& #[trigger] prepares(b, filename, kind, Ok((t, notes)))
                    &&& analyses(a, t, app, platform, sciter, webview, facts)
                    &&& texts(a.notes@) == upload_notes(notes, app, platform, kind)
                },
        },
    }
}

/// Analyse an uploaded app: a zipped app directory (`.app`, a Windows install
/// folder, a Linux app tree), a Linux package (AppImage, snap, `.deb`, `.rpm`,
/// tarball), a bare executable, or a bare `app.asar`.
///
/// `bytes` is the raw upload; `filename` disambiguates a bare `.asar` from a
/// zip when the magic is ambiguous, and names the tarball spellings that have
/// no magic of their own. `platform` optionally forces the layout (`"macos"` /
/// `"windows"` / `"linux"`) instead of inferring it.
pub fn analyze_app(
    bytes: Vec<u8>,
    filename: &str,
    platform: Option<&str>,
    host: Host,
    facts: HostFacts,
) -> (r: Result<AnalyzeResult, String>)
    ensures
        analyses_upload(
            match r {
                Ok(a) => Ok(a),
                Err(m) => Err(m@),
            },
            bytes@,
            filename@,
            forced_platform(
                match platform {
                    Some(n) => Some(n@),
                    None => None,
                },
            ),
            opt_text(host.sciter),
            webview_view(host.webview),
            facts,
        ),
{
    let forced = forced_platform_of(platform);
    let kind = match Upload::classify(bytes.as_slice(), filename) {
        Some(k) => k,
        None => {
            return Err(unsupported_message(bytes.as_slice()).to_owned());
        },
    };
    match prepare(bytes, filename, kind) {
        Ok((tree, notes)) => {
            assert(prepares(bytes@, filename@, kind, Ok((tree@, texts(notes@)))));
            Ok(analyze_tree(&tree, notes, filename, kind, forced, host, facts))
        },
        Err(m) => Err(m),
    }
}

/// Streaming builder: one app is assembled file-by-file, then analysed. Every path must
/// sit under `root`, which is absolute.
#[derive(Debug)]
pub struct Analyzer {
    pub root: String,
    /// Explicit platform, if the caller knows better than the sniffer.
    pub platform: Option<Platform>,
    pub tree: MemTree,
}

/// The notes on a folder in which no application was found.
pub open spec fn folder_notes(app: Option<AppView>, platform: Platform) -> Seq<Seq<char>> {
    if app is Some {
        Seq::empty()
    } else if platform == Platform::Macos {
        seq!["No .app bundle found in this folder."@]
    } else {
        seq![
            "No "@ + platform.name()
                + " application found in this folder — it holds no executable."@,
        ]
    }
}

impl Analyzer {
    /// `platform` is optional: `"macos"` / `"windows"` / `"linux"` to force a
    /// layout, or omitted to infer it from the files pushed in.
    pub fn new(app_root: String, platform: Option<&str>) -> (r: Analyzer)
        ensures
            r.root@ == app_root@,
            r.platform == forced_platform(
                match platform {
                    Some(n) => Some(n@),
                    None => None,
                },
            ),
            r.tree@ == Seq::<(Seq<char>, NodeView)>::empty(),
    {
        Analyzer {
            root: app_root,
            platform: forced_platform_of(platform),
            tree: MemTree::default(),
        }
    }

    /// Add one regular file.
    pub fn add_file(&mut self, path: &str, bytes: Vec<u8>)
        ensures
            final(self).root == old(self).root,
            final(self).platform == old(self).platform,
            final(self).tree@ == inserted(old(self).tree@, path@, NodeView::File(bytes@, USUAL_MODE)),
    {
        self.tree.insert_file(path, bytes);
    }

    /// Record a symlink (`Versions/Current -> A` and friends), so detection
    /// that walks symlinked framework paths resolves correctly.
    pub fn add_symlink(&mut self, path: &str, target: &str)
        ensures
            final(self).root == old(self).root,
            final(self).platform == old(self).platform,
            final(self).tree@ == inserted(old(self).tree@, path@, NodeView::Link(target@)),
    {
        self.tree.insert_symlink(path, target);
    }

    /// Analyse the app assembled so far. Consumes the builder so its (potentially large)
    /// tree is freed before the caller moves on to the next app.
    pub fn finish(self, host: Host, facts: HostFacts) -> (r: AnalyzeResult)
        ensures
            ({
                let platform = match self.platform {
                    Some(p) => p,
                    None => sniffed_platform(self.tree@, self.root@),
                };
                let app = app_under(self.tree@, self.root@, platform);
                &&& analyses(
                    r,
                    self.tree@,
                    app,
                    platform,
                    opt_text(host.sciter),
                    webview_view(host.webview),
                    facts,
                )
                &&& texts(r.notes@) == folder_notes(app, platform)
            }),
    {
        let platform = match self.platform {
            Some(p) => p,
            None => sniff_platform(&self.tree, self.root.as_str()),
        };
        let app = find_app(&self.tree, self.root.as_str(), platform);
        let notes = if app.is_some() {
            let none: Vec<String> = Vec::new();
            assert(texts(none@) =~= Seq::empty());
            none
        } else if platform.is_bundle() {
            one("No .app bundle found in this folder.")
        } else {
            one(
                concat3(
                    "No ",
                    platform.as_str(),
                    " application found in this folder — it holds no executable.",
                ).as_str(),
            )
        };
        run_analysis(&self.tree, app, platform, notes, host, facts)
    }
}

} // verus!
