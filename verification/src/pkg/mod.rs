//! Read Linux application package formats into a file tree.
//!
//! Given the bytes of a package, [`sniff`] works out what it is and [`unpack`]
//! streams its payload to a [`Sink`]. The sink decides where the files land;
//! nothing here touches a filesystem.
//!
//! What an unpacker does is stated as a [`Run`]: the entries it emits, the counts
//! and warnings it leaves behind, and how it ends, each a function of the bytes.

pub mod appimage;
pub mod ar;
pub mod cache;
pub mod cpio;
pub mod cpio_packing;
pub mod decompress;
pub mod dir_sink;
pub mod image_packing;
pub mod laws;
pub mod packing;
pub mod rpm;
pub mod squashfs;
pub mod tar;
pub mod xz;

pub use cache::{default_cache_root, extract_cached, extract_cached_in, is_expandable};
pub use decompress::Codec;
pub use dir_sink::DirSink;

use vstd::prelude::*;

use crate::num::{decimal, decimal_of};
use crate::path::{
    is_absolute, join_safe, lemma_safe_join_stays_within, lemma_within_self, safe_join, within,
};
use crate::text::{chars_of, closes, concat, concat3, ends_with, lower, lower_of, texts};

verus! {

/// Largest payload we will expand. A package is compressed, so a small upload
/// can decompress to an unbounded tree; this caps the damage on a malicious
/// input while sitting far above any real application.
pub const MAX_PAYLOAD_BYTES: u64 = 0x1_0000_0000;

/// A Linux application package format.
#[derive(Debug, Clone, Copy, PartialEq, Eq, Structural)]
pub enum Format {
    /// Type-2 AppImage: an ELF runtime stub with a squashfs image appended.
    AppImage,
    /// A snap: a bare squashfs image.
    Snap,
    /// A Debian package: an `ar` archive whose `data.tar.*` member is the payload.
    Deb,
    /// An RPM package: a header stack followed by a compressed cpio payload.
    Rpm,
    /// A tarball, optionally compressed (`.tar`, `.tar.gz`, `.tar.xz`, …).
    Tarball,
}

impl Format {
    /// The extension-style name used in user-facing messages.
    pub open spec fn name(self) -> Seq<char> {
        match self {
            Format::AppImage => "AppImage"@,
            Format::Snap => "snap"@,
            Format::Deb => ".deb"@,
            Format::Rpm => ".rpm"@,
            Format::Tarball => "tarball"@,
        }
    }

    /// The extension-style name used in user-facing messages.
    pub fn as_str(self) -> (r: &'static str)
        ensures
            r@ == self.name(),
    {
        match self {
            Format::AppImage => "AppImage",
            Format::Snap => "snap",
            Format::Deb => ".deb",
            Format::Rpm => ".rpm",
            Format::Tarball => "tarball",
        }
    }
}

/// Why a package could not be read.
#[derive(Debug)]
pub enum PkgError {
    /// Not a package format we recognise.
    Unrecognised,
    /// The container was identified but its structure didn't parse.
    Malformed(&'static str, String),
    /// A compressed stream could not be expanded.
    Decompress(&'static str, String),
    /// A compressor without a decompressor here.
    UnsupportedCompression(&'static str),
    /// A type-1 AppImage (ISO 9660), or any other variant we don't read.
    Unsupported(String),
    /// The payload expands past this many bytes.
    TooLarge(u64),
    /// Only produced by sinks that touch a real filesystem.
    Io(String),
}

/// The model of a [`PkgError`].
pub enum Fault {
    Unrecognised,
    Malformed(Seq<char>, Seq<char>),
    Decompress(Seq<char>, Seq<char>),
    UnsupportedCompression(Seq<char>),
    Unsupported(Seq<char>),
    TooLarge(u64),
    Io(Seq<char>),
}

impl View for PkgError {
    type V = Fault;

    open spec fn view(&self) -> Fault {
        match *self {
            PkgError::Unrecognised => Fault::Unrecognised,
            PkgError::Malformed(what, why) => Fault::Malformed(what@, why@),
            PkgError::Decompress(what, why) => Fault::Decompress(what@, why@),
            PkgError::UnsupportedCompression(what) => Fault::UnsupportedCompression(what@),
            PkgError::Unsupported(why) => Fault::Unsupported(why@),
            PkgError::TooLarge(limit) => Fault::TooLarge(limit),
            PkgError::Io(why) => Fault::Io(why@),
        }
    }
}

/// The message of a fault; none for a limit that is no whole number of gibibytes, which
/// takes a fraction to write.
pub open spec fn fault_message(f: Fault) -> Option<Seq<char>> {
    match f {
        Fault::Unrecognised => Some("not a package format we recognise"@),
        Fault::Malformed(what, why) => Some("malformed "@ + what + ": "@ + why),
        Fault::Decompress(what, why) => Some(what + " decompression failed: "@ + why),
        Fault::UnsupportedCompression(what) => Some(what + "-compressed payloads are not supported"@),
        Fault::Unsupported(why) => Some(why),
        Fault::TooLarge(limit) => if limit % 0x4000_0000 == 0 {
            Some(
                "the payload expands past the "@ + decimal((limit / 0x4000_0000) as nat)
                    + " GiB limit for this scan"@,
            )
        } else {
            None
        },
        Fault::Io(why) => Some("writing the unpacked payload failed: "@ + why),
    }
}

impl PkgError {
    /// The user-facing message; none for a limit that is no whole number of gibibytes.
    pub fn message(&self) -> (r: Option<String>)
        ensures
            crate::text::opt_text(r) == fault_message(self@),
    {
        match self {
            PkgError::Unrecognised => Some("not a package format we recognise".to_owned()),
            PkgError::Malformed(what, why) => {
                let mut m = concat3("malformed ", what, ": ");
                m.append(why.as_str());
                Some(m)
            },
            PkgError::Decompress(what, why) => Some(
                concat3(what, " decompression failed: ", why.as_str()),
            ),
            PkgError::UnsupportedCompression(what) => Some(
                concat(what, "-compressed payloads are not supported"),
            ),
            PkgError::Unsupported(why) => Some(why.clone()),
            PkgError::TooLarge(limit) => {
                if *limit % 0x4000_0000 == 0 {
                    Some(
                        concat3(
                            "the payload expands past the ",
                            decimal_of(*limit / 0x4000_0000).as_str(),
                            " GiB limit for this scan",
                        ),
                    )
                } else {
                    None
                }
            },
            PkgError::Io(why) => Some(
                concat("writing the unpacked payload failed: ", why.as_str()),
            ),
        }
    }
}

/// One unpacked entry, as collected by [`Collector`].
#[derive(Debug, Clone, PartialEq, Eq)]
pub enum Entry {
    Dir(String),
    File { path: String, data: Vec<u8>, mode: u32 },
    Symlink { path: String, target: String },
}

/// The model of an [`Entry`].
pub enum EntryView {
    Dir(Seq<char>),
    File { path: Seq<char>, data: Seq<u8>, mode: u32 },
    Symlink { path: Seq<char>, target: Seq<char> },
}

impl EntryView {
    /// Where the entry lands.
    pub open spec fn path(self) -> Seq<char> {
        match self {
            EntryView::Dir(path) => path,
            EntryView::File { path, .. } => path,
            EntryView::Symlink { path, .. } => path,
        }
    }

    /// The bytes the entry holds: none unless it is a file.
    pub open spec fn size(self) -> nat {
        match self {
            EntryView::File { data, .. } => data.len(),
            _ => 0,
        }
    }
}

impl View for Entry {
    type V = EntryView;

    open spec fn view(&self) -> EntryView {
        match *self {
            Entry::Dir(path) => EntryView::Dir(path@),
            Entry::File { path, data, mode } => EntryView::File { path: path@, data: data@, mode },
            Entry::Symlink { path, target } => EntryView::Symlink { path: path@, target: target@ },
        }
    }
}

impl Entry {
    /// Where the entry lands.
    pub fn path(&self) -> (r: &str)
        ensures
            r@ == self@.path(),
    {
        match self {
            Entry::Dir(path) => path.as_str(),
            Entry::File { path, .. } => path.as_str(),
            Entry::Symlink { path, .. } => path.as_str(),
        }
    }
}

/// Where an unpacked payload goes.
///
/// Paths handed to a sink are already joined onto the caller's base and do not
/// escape it. Symlink targets are passed through as the package recorded them,
/// except that absolute targets are re-rooted onto the base.
pub trait Sink {
    /// The entries taken so far.
    open spec fn log(&self) -> Seq<EntryView> {
        arbitrary()
    }

    /// Whether the sink takes every entry it is handed; one that does not say so may refuse.
    open spec fn takes_all(&self) -> bool {
        false
    }

    /// The error with which the sink last refused an entry.
    open spec fn refusal(&self) -> Option<Fault> {
        arbitrary()
    }

    /// Takes a directory, or refuses it and stays as it was.
    fn dir(&mut self, path: &str) -> (r: Result<(), PkgError>)
        ensures
            r is Ok ==> final(self).log() == old(self).log().push(EntryView::Dir(path@)),
            r matches Err(e) ==> final(self).log() == old(self).log() && final(self).refusal()
                == Some(e@),
            old(self).takes_all() ==> r is Ok && final(self).takes_all(),
    ;

    /// Takes a file, or refuses it and stays as it was.
    fn file(&mut self, path: &str, data: Vec<u8>, mode: u32) -> (r: Result<(), PkgError>)
        ensures
            r is Ok ==> final(self).log() == old(self).log().push(
                (EntryView::File { path: path@, data: data@, mode }),
            ),
            r matches Err(e) ==> final(self).log() == old(self).log() && final(self).refusal()
                == Some(e@),
            old(self).takes_all() ==> r is Ok && final(self).takes_all(),
    ;

    /// Takes a symbolic link, or refuses it and stays as it was.
    fn symlink(&mut self, path: &str, target: &str) -> (r: Result<(), PkgError>)
        ensures
            r is Ok ==> final(self).log() == old(self).log().push(
                (EntryView::Symlink { path: path@, target: target@ }),
            ),
            r matches Err(e) ==> final(self).log() == old(self).log() && final(self).refusal()
                == Some(e@),
            old(self).takes_all() ==> r is Ok && final(self).takes_all(),
    ;
}

/// A [`Sink`] that keeps everything in a `Vec`.
#[derive(Debug)]
pub struct Collector {
    pub entries: Vec<Entry>,
}

impl Default for Collector {
    fn default() -> (r: Collector)
        ensures
            r.entries@.len() == 0,
    {
        Collector { entries: Vec::new() }
    }
}

impl Sink for Collector {
    open spec fn log(&self) -> Seq<EntryView> {
        self.entries@.map_values(|e: Entry| e@)
    }

    open spec fn takes_all(&self) -> bool {
        true
    }

    open spec fn refusal(&self) -> Option<Fault> {
        None
    }

    fn dir(&mut self, path: &str) -> (r: Result<(), PkgError>) {
        let ghost before = self.log();
        self.entries.push(Entry::Dir(path.to_owned()));
        assert(self.log() =~= before.push(EntryView::Dir(path@)));
        Ok(())
    }

    fn file(&mut self, path: &str, data: Vec<u8>, mode: u32) -> (r: Result<(), PkgError>) {
        let ghost before = self.log();
        let ghost e = EntryView::File { path: path@, data: data@, mode };
        self.entries.push(Entry::File { path: path.to_owned(), data, mode });
        assert(self.log() =~= before.push(e));
        Ok(())
    }

    fn symlink(&mut self, path: &str, target: &str) -> (r: Result<(), PkgError>) {
        let ghost before = self.log();
        let ghost e = EntryView::Symlink { path: path@, target: target@ };
        self.entries.push(Entry::Symlink { path: path.to_owned(), target: target.to_owned() });
        assert(self.log() =~= before.push(e));
        Ok(())
    }
}

/// What an unpack produced.
#[derive(Debug, Clone)]
pub struct Unpacked {
    pub format: Format,
    /// Regular files written (directories and symlinks excluded).
    pub files: usize,
    /// Total uncompressed bytes of those files.
    pub bytes: u64,
    /// The payload root inside the base — where the application tree starts.
    pub root: String,
    /// Non-fatal problems: entries skipped, a member we couldn't read. Worth
    /// showing, never worth failing the whole unpack over.
    pub warnings: Vec<String>,
    /// The expansion cap this unpack is running under, in bytes.
    pub limit: u64,
}

impl Unpacked {
    /// Nothing unpacked yet.
    pub fn new(format: Format, root: &str, limit: u64) -> (r: Unpacked)
        ensures
            r.format == format,
            r.files == 0,
            r.bytes == 0,
            r.root@ == root@,
            r.warnings@.len() == 0,
            r.limit == limit,
    {
        Unpacked {
            format,
            files: 0,
            bytes: 0,
            root: root.to_owned(),
            warnings: Vec::new(),
            limit,
        }
    }

    /// Whether nothing but the counts and the warnings differs.
    pub open spec fn same_job(self, other: Unpacked) -> bool {
        self.format == other.format && self.root == other.root && self.limit == other.limit
    }
}

/// How far an unpack has got.
#[verifier::ext_equal]
pub struct Progress {
    /// What the sink has taken.
    pub entries: Seq<EntryView>,
    /// Files accounted for.
    pub files: nat,
    /// Bytes accounted for.
    pub bytes: nat,
    /// Problems met.
    pub warnings: Seq<Seq<char>>,
}

/// A whole unpack: where it got to, and how it ended.
#[verifier::ext_equal]
pub struct Run {
    pub at: Progress,
    pub result: Result<(), Fault>,
}

impl Progress {
    /// With one more entry.
    pub open spec fn with_entry(self, e: EntryView) -> Progress {
        Progress { entries: self.entries.push(e), ..self }
    }

    /// With one more warning.
    pub open spec fn with_warning(self, w: Seq<char>) -> Progress {
        Progress { warnings: self.warnings.push(w), ..self }
    }

    /// With one more file of `len` bytes accounted for. Both counts stop at their
    /// machine limit.
    pub open spec fn counting(self, len: nat) -> Progress {
        Progress {
            files: if self.files < usize::MAX {
                self.files + 1
            } else {
                self.files
            },
            bytes: if self.bytes + len <= u64::MAX {
                self.bytes + len
            } else {
                u64::MAX as nat
            },
            ..self
        }
    }

    /// A run that ends well here.
    pub open spec fn done(self) -> Run {
        Run { at: self, result: Ok(()) }
    }

    /// A run that ends here with a fault.
    pub open spec fn failed(self, f: Fault) -> Run {
        Run { at: self, result: Err(f) }
    }

    /// Accounts for a file and emits it, unless that passes the limit.
    pub open spec fn emit_file(self, path: Seq<char>, data: Seq<u8>, mode: u32, limit: u64) -> Run {
        let counted = self.counting(data.len());
        if counted.bytes > limit {
            counted.failed(Fault::TooLarge(limit))
        } else {
            counted.with_entry(EntryView::File { path, data, mode }).done()
        }
    }
}

/// The progress that a sink and a summary hold between them.
pub open spec fn progress<S: Sink>(sink: S, out: Unpacked) -> Progress {
    Progress {
        entries: sink.log(),
        files: out.files as nat,
        bytes: out.bytes as nat,
        warnings: texts(out.warnings@),
    }
}

/// The view of a result.
pub open spec fn ended(r: Result<(), PkgError>) -> Result<(), Fault> {
    match r {
        Ok(_) => Ok(()),
        Err(e) => Err(e@),
    }
}

/// Whether a sink that took `log` refused one of `entries`: it took those before it, in
/// order, and none after.
pub open spec fn refused(log: Seq<EntryView>, entries: Seq<EntryView>) -> bool {
    log.len() < entries.len() && log.is_prefix_of(entries)
}

/// Whether a result is the error with which a sink last refused an entry.
pub open spec fn as_refused<S: Sink>(sink: S, r: Result<(), PkgError>) -> bool {
    r matches Err(e) && sink.refusal() == Some(e@)
}

/// That an unpack did what `run` says, or stopped with the sink's own error where the
/// sink refused an entry of the run, which a sink that takes everything never does.
pub open spec fn followed<S: Sink>(
    sink0: S,
    out0: Unpacked,
    sink: S,
    out: Unpacked,
    r: Result<(), PkgError>,
    run: Run,
) -> bool {
    &&& out.same_job(out0)
    &&& sink0.takes_all() ==> sink.takes_all()
    &&& {
        ||| progress(sink, out) == run.at && ended(r) == run.result
        ||| !sink0.takes_all() && as_refused(sink, r) && refused(sink.log(), run.at.entries)
    }
}

/// Where a symlink target points once the payload sits under `base`.
pub open spec fn rerooted(base: Seq<char>, target: Seq<char>) -> Seq<char> {
    if target.len() > 0 && target[0] == '/' {
        match safe_join(base, target) {
            Some(p) => p,
            None => base,
        }
    } else {
        target
    }
}

/// Re-root an absolute symlink target onto the payload: inside a package,
/// `/usr/lib/libfoo.so` names the packaged file, not the host's.
pub fn link_target(base: &str, target: &str) -> (r: String)
    ensures
        r@ == rerooted(base@, target@),
{
    let x = chars_of(target);
    if x.len() > 0 && x[0] == '/' {
        match join_safe(base, target) {
            Some(p) => p,
            None => base.to_owned(),
        }
    } else {
        target.to_owned()
    }
}

/// Account for a file about to be written, enforcing the unpack's limit.
pub(crate) fn account<S: Sink>(out: &mut Unpacked, len: usize, sink: &S) -> (r: Result<(), PkgError>)
    ensures
        final(out).same_job(*old(out)),
        progress(*sink, *final(out)) == progress(*sink, *old(out)).counting(len as nat),
        match r {
            Ok(_) => final(out).bytes <= old(out).limit,
            Err(e) => final(out).bytes > old(out).limit && e@ == Fault::TooLarge(old(out).limit),
        },
{
    out.files = out.files.saturating_add(1);
    out.bytes = out.bytes.saturating_add(len as u64);
    if out.bytes > out.limit {
        return Err(PkgError::TooLarge(out.limit));
    }
    Ok(())
}

/// Adds a warning.
pub(crate) fn warn<S: Sink>(out: &mut Unpacked, w: String, sink: &S)
    ensures
        final(out).same_job(*old(out)),
        progress(*sink, *final(out)) == progress(*sink, *old(out)).with_warning(w@),
{
    let ghost before = out.warnings@;
    out.warnings.push(w);
    assert(texts(out.warnings@) =~= texts(before).push(w@));
}

/// The bytes of all files among `entries`.
pub open spec fn total_size(entries: Seq<EntryView>) -> nat
    decreases entries.len(),
{
    if entries.len() == 0 {
        0
    } else {
        total_size(entries.drop_last()) + entries.last().size()
    }
}

/// The number of files among `entries`.
pub open spec fn file_count(entries: Seq<EntryView>) -> nat
    decreases entries.len(),
{
    if entries.len() == 0 {
        0
    } else {
        file_count(entries.drop_last()) + if entries.last() is File {
            1nat
        } else {
            0
        }
    }
}

/// Whether an entry stays within the base: its path does, and a symlink's target does
/// too unless it is relative.
pub open spec fn placed(base: Seq<char>, e: EntryView) -> bool {
    &&& within(base, e.path())
    &&& e matches EntryView::Symlink { path, target } ==> !is_absolute(target) || within(
        base,
        target,
    )
}

/// Whether everything emitted since a sink held `log` stays within the base.
pub open spec fn contained(log: Seq<EntryView>, base: Seq<char>, entries: Seq<EntryView>) -> bool {
    &&& log.is_prefix_of(entries)
    &&& forall|i: int| log.len() <= i < entries.len() ==> placed(base, #[trigger] entries[i])
}

/// That the bytes and files counted are those emitted since a sink held `log`, as far as
/// the counters reach.
pub open spec fn tallied(log: Seq<EntryView>, p: Progress) -> bool {
    &&& p.bytes <= u64::MAX
    &&& p.bytes < u64::MAX ==> total_size(log) + p.bytes == total_size(p.entries)
    &&& p.files <= usize::MAX
    &&& p.files < usize::MAX ==> file_count(log) + p.files == file_count(p.entries)
}

/// What holds all along an unpack that goes well.
pub open spec fn kept(log: Seq<EntryView>, base: Seq<char>, limit: u64, p: Progress) -> bool {
    contained(log, base, p.entries) && tallied(log, p) && p.bytes <= limit
}

/// What holds wherever an unpack ends: nothing leaves the base, and no more is emitted
/// than the limit allows. (A limit at the end of the counter's range is no limit.)
pub open spec fn safe(log: Seq<EntryView>, base: Seq<char>, limit: u64, p: Progress) -> bool {
    &&& contained(log, base, p.entries)
    &&& limit < u64::MAX ==> total_size(p.entries) <= total_size(log) + limit
}

/// Whether `q` is reached from `p` by emitting, counting and warning alone: nothing
/// that was there is gone.
pub open spec fn reaches(p: Progress, q: Progress) -> bool {
    &&& p.entries.is_prefix_of(q.entries)
    &&& p.warnings.is_prefix_of(q.warnings)
    &&& p.files <= q.files
}

/// What a stretch of an unpack does, whatever it reads and however it ends.
pub open spec fn sound(
    log: Seq<EntryView>,
    base: Seq<char>,
    limit: u64,
    p: Progress,
    run: Run,
) -> bool {
    &&& reaches(p, run.at)
    &&& run.result matches Err(Fault::TooLarge(n)) ==> n == limit
    &&& kept(log, base, limit, p) ==> safe(log, base, limit, run.at) && (run.result is Ok ==> kept(
        log,
        base,
        limit,
        run.at,
    ))
}

/// Doing nothing is sound, and so is giving up.
pub proof fn lemma_sound_done(log: Seq<EntryView>, base: Seq<char>, limit: u64, p: Progress)
    ensures
        sound(log, base, limit, p, p.done()),
        forall|f: Fault|
            !(f is TooLarge) || f == Fault::TooLarge(limit) ==> sound(
                log,
                base,
                limit,
                p,
                #[trigger] p.failed(f),
            ),
{
}

/// A warning is sound.
pub proof fn lemma_sound_warning(
    log: Seq<EntryView>,
    base: Seq<char>,
    limit: u64,
    p: Progress,
    w: Seq<char>,
)
    ensures
        sound(log, base, limit, p, p.with_warning(w).done()),
        forall|f: Fault|
            !(f is TooLarge) || f == Fault::TooLarge(limit) ==> sound(
                log,
                base,
                limit,
                p,
                #[trigger] p.with_warning(w).failed(f),
            ),
{
}

/// Emitting a directory or a symlink within the base is sound.
pub proof fn lemma_sound_entry(
    log: Seq<EntryView>,
    base: Seq<char>,
    limit: u64,
    p: Progress,
    e: EntryView,
)
    requires
        placed(base, e),
        !(e is File),
    ensures
        sound(log, base, limit, p, p.with_entry(e).done()),
{
    assert(p.entries.push(e).drop_last() =~= p.entries);
}

/// Emitting a file within the base is sound.
pub proof fn lemma_sound_file(
    log: Seq<EntryView>,
    base: Seq<char>,
    limit: u64,
    p: Progress,
    path: Seq<char>,
    data: Seq<u8>,
    mode: u32,
)
    requires
        within(base, path),
    ensures
        sound(log, base, limit, p, p.emit_file(path, data, mode, limit)),
{
    let e = EntryView::File { path, data, mode };
    assert(p.entries.push(e).drop_last() =~= p.entries);
}

/// Two sound stretches in a row are sound.
pub proof fn lemma_sound_trans(
    log: Seq<EntryView>,
    base: Seq<char>,
    limit: u64,
    p: Progress,
    first: Run,
    second: Run,
)
    requires
        sound(log, base, limit, p, first),
        first.result is Ok,
        sound(log, base, limit, first.at, second),
    ensures
        sound(log, base, limit, p, second),
{
}

/// The tarball spellings that actually appear on download pages.
pub open spec fn is_tarball(lower: Seq<char>) -> bool {
    ||| closes(lower, ".tar"@)
    ||| closes(lower, ".tar.gz"@)
    ||| closes(lower, ".tgz"@)
    ||| closes(lower, ".tar.xz"@)
    ||| closes(lower, ".txz"@)
    ||| closes(lower, ".tar.bz2"@)
    ||| closes(lower, ".tbz2"@)
    ||| closes(lower, ".tbz"@)
    ||| closes(lower, ".tar.zst"@)
    ||| closes(lower, ".tzst"@)
    ||| closes(lower, ".tar.lz4"@)
    ||| closes(lower, ".tar.lzma"@)
}

fn is_tarball_name(lower: &str) -> (r: bool)
    ensures
        r == is_tarball(lower@),
{
    ends_with(lower, ".tar") || ends_with(lower, ".tar.gz") || ends_with(lower, ".tgz") || ends_with(
        lower,
        ".tar.xz",
    ) || ends_with(lower, ".txz") || ends_with(lower, ".tar.bz2") || ends_with(lower, ".tbz2")
        || ends_with(lower, ".tbz") || ends_with(lower, ".tar.zst") || ends_with(lower, ".tzst")
        || ends_with(lower, ".tar.lz4") || ends_with(lower, ".tar.lzma")
}

/// The format of a package. Magic decides wherever there is one; the name only
/// matters for a compressed tarball and for an AppImage without its marker.
pub open spec fn identified(b: Seq<u8>, filename: Seq<char>) -> Option<Format> {
    if rpm::has_magic(b) {
        Some(Format::Rpm)
    } else if ar::has_magic(b) {
        if ar::is_deb(b) {
            Some(Format::Deb)
        } else {
            None
        }
    } else if squashfs::has_magic(b) {
        Some(Format::Snap)
    } else if appimage::recognised(b, lower(filename)) {
        Some(Format::AppImage)
    } else if tar::has_ustar(b) {
        Some(Format::Tarball)
    } else if decompress::sniffed(b) is Some && is_tarball(lower(filename)) {
        Some(Format::Tarball)
    } else {
        None
    }
}

/// Identify a package from its magic bytes, with `filename` as a tie-breaker.
///
/// Magic decides wherever there is one. `filename` only matters for the two
/// ambiguous cases: a tarball (a `.tar` has no magic at offset 0, and a bare
/// gzip stream might be anything) and an AppImage whose runtime stub predates
/// the type-2 magic bytes.
pub fn sniff(bytes: &[u8], filename: &str) -> (r: Option<Format>)
    ensures
        r == identified(bytes@, filename@),
{
    let name = lower_of(filename);
    if rpm::is_rpm(bytes) {
        return Some(Format::Rpm);
    }
    if ar::is_ar(bytes) {
        // `.deb` is by far the common ar archive; a static library is the other
        // one, and it holds no application.
        return if ar::looks_like_deb(bytes) {
            Some(Format::Deb)
        } else {
            None
        };
    }
    if squashfs::is_squashfs(bytes) {
        return Some(Format::Snap);
    }
    if appimage::is_appimage(bytes, name.as_str()) {
        return Some(Format::AppImage);
    }
    if tar::is_tar(bytes) {
        return Some(Format::Tarball);
    }
    // A compressed stream is a tarball if it's named like one. Checking the
    // content means decompressing, so only the name is used here — `unpack`
    // reports a clear error if the name lied.
    if Codec::sniff(bytes).is_some() && is_tarball_name(name.as_str()) {
        return Some(Format::Tarball);
    }
    None
}

/// Whether a package format other than a tarball opens with the magic that `b` does.
pub open spec fn is_foreign(b: Seq<u8>) -> bool {
    rpm::has_magic(b) || ar::has_magic(b) || squashfs::has_magic(b) || appimage::has_elf_magic(b)
}

fn foreign(bytes: &[u8]) -> (r: bool)
    ensures
        r == is_foreign(bytes@),
{
    rpm::is_rpm(bytes) || ar::is_ar(bytes) || squashfs::is_squashfs(bytes) || appimage::is_elf(bytes)
}

/// Whether the magic of the bytes is that of a format. A tarball opens with the name of its
/// first member, so that of no other format may stand there unless its own follows.
pub open spec fn matches_format(b: Seq<u8>, format: Format) -> bool {
    match format {
        Format::AppImage => appimage::has_elf_magic(b),
        Format::Snap => squashfs::has_magic(b),
        Format::Deb => ar::has_magic(b),
        Format::Rpm => rpm::has_magic(b),
        Format::Tarball => !is_foreign(b) || tar::has_ustar(b),
    }
}

/// The run of an archive reader over a stream that may not expand.
pub open spec fn tar_of(
    raw: Result<Seq<u8>, Fault>,
    base: Seq<char>,
    limit: u64,
    p: Progress,
) -> Run {
    match raw {
        Ok(b) => tar::untar(b, base, limit, p),
        Err(e) => p.failed(e),
    }
}

/// The fault of a tarball that is none.
pub open spec fn no_tarball() -> Fault {
    Fault::Malformed("tarball"@, "the bytes are those of another format"@)
}

/// The run over a tarball. One whose name lied about what is under the compression is
/// refused.
pub open spec fn tarball_run(b: Seq<u8>, base: Seq<char>, limit: u64, p: Progress) -> Run {
    if is_foreign(b) && !tar::has_ustar(b) {
        p.failed(no_tarball())
    } else {
        let codec = match decompress::sniffed(b) {
            Some(c) => c,
            None => Codec::Stored,
        };
        match decompress::decompressed(codec, b, None) {
            Ok(raw) => if is_foreign(raw) && !tar::has_ustar(raw) {
                p.failed(no_tarball())
            } else {
                tar::untar(raw, base, limit, p)
            },
            Err(e) => p.failed(e),
        }
    }
}

/// The whole unpack of a package: the base directory, then its payload.
pub open spec fn unpack_run(
    b: Seq<u8>,
    format: Format,
    base: Seq<char>,
    limit: u64,
    start: Progress,
) -> Run {
    let p = start.with_entry(EntryView::Dir(base));
    match format {
        Format::AppImage => if !appimage::has_elf_magic(b) {
            p.failed(Fault::Malformed("AppImage"@, "missing ELF magic"@))
        } else {
            match appimage::appimage_payload(b) {
                Ok(image) => squashfs::unsquash(image, base, limit, p),
                Err(e) => p.failed(e),
            }
        },
        Format::Snap => squashfs::unsquash(b, base, limit, p),
        Format::Deb => match ar::deb_payload(b) {
            Ok((data, codec)) => tar_of(
                decompress::decompressed(codec, data, None),
                base,
                limit,
                p,
            ),
            Err(e) => p.failed(e),
        },
        Format::Rpm => match rpm::rpm_payload(b) {
            Ok((payload, codec)) => match decompress::decompressed(codec, payload, None) {
                Ok(raw) => cpio::uncpio(raw, base, limit, p),
                Err(e) => p.failed(e),
            },
            Err(e) => p.failed(e),
        },
        Format::Tarball => tarball_run(b, base, limit, p),
    }
}

/// A sink's log with nothing counted yet.
pub open spec fn fresh(log: Seq<EntryView>) -> Progress {
    Progress { entries: log, files: 0, bytes: 0, warnings: Seq::empty() }
}

/// That an unpack returned what `run` says, or stopped because the sink refused an
/// entry of the run.
pub open spec fn unpacked<S: Sink>(
    sink0: S,
    sink: S,
    format: Format,
    base: Seq<char>,
    limit: u64,
    r: Result<Unpacked, PkgError>,
    run: Run,
) -> bool {
    &&& sink0.takes_all() ==> sink.takes_all()
    &&& match r {
        Ok(out) => {
            &&& run.result is Ok
            &&& progress(sink, out) == run.at
            &&& out.format == format
            &&& out.root@ == base
            &&& out.limit == limit
        },
        Err(e) => {
            ||| run.result == Err::<(), Fault>(e@) && sink.log() == run.at.entries
            ||| !sink0.takes_all() && sink.refusal() == Some(e@) && refused(
                sink.log(),
                run.at.entries,
            )
        },
    }
}

/// Unpack `bytes` under `base`, pushing every entry to `sink`.
///
/// `format` comes from [`sniff`]; passing one that doesn't match the bytes
/// yields [`PkgError::Malformed`] rather than garbage.
pub fn unpack<S: Sink>(bytes: &[u8], format: Format, base: &str, sink: &mut S) -> (r: Result<
    Unpacked,
    PkgError,
>)
    ensures
        unpacked(
            *old(sink),
            *final(sink),
            format,
            base@,
            MAX_PAYLOAD_BYTES,
            r,
            unpack_run(bytes@, format, base@, MAX_PAYLOAD_BYTES, fresh(old(sink).log())),
        ),
{
    unpack_with_limit(bytes, format, base, sink, MAX_PAYLOAD_BYTES)
}

fn no_tarball_of() -> (r: PkgError)
    ensures
        r@ == no_tarball(),
{
    PkgError::Malformed("tarball", "the bytes are those of another format".to_owned())
}

fn unpack_tarball<S: Sink>(bytes: &[u8], base: &str, sink: &mut S, out: &mut Unpacked) -> (r: Result<
    (),
    PkgError,
>)
    ensures
        followed(
            *old(sink),
            *old(out),
            *final(sink),
            *final(out),
            r,
            tarball_run(bytes@, base@, old(out).limit, progress(*old(sink), *old(out))),
        ),
{
    if foreign(bytes) && !tar::is_tar(bytes) {
        return Err(no_tarball_of());
    }
    let codec = match Codec::sniff(bytes) {
        Some(c) => c,
        None => Codec::Stored,
    };
    match decompress::decompress(codec, bytes, None) {
        Ok(raw) => {
            if foreign(raw.as_slice()) && !tar::is_tar(raw.as_slice()) {
                Err(no_tarball_of())
            } else {
                tar::unpack(raw.as_slice(), base, sink, out)
            }
        },
        Err(e) => Err(e),
    }
}

/// [`unpack`] with an explicit cap on how much the payload may expand to.
pub fn unpack_with_limit<S: Sink>(
    bytes: &[u8],
    format: Format,
    base: &str,
    sink: &mut S,
    limit: u64,
) -> (r: Result<Unpacked, PkgError>)
    ensures
        unpacked(
            *old(sink),
            *final(sink),
            format,
            base@,
            limit,
            r,
            unpack_run(bytes@, format, base@, limit, fresh(old(sink).log())),
        ),
{
    let mut out = Unpacked::new(format, base, limit);
    proof {
        lemma_unpack_sound(sink.log(), bytes@, format, base@, limit, fresh(sink.log()));
        let run = unpack_run(bytes@, format, base@, limit, fresh(sink.log()));
        lemma_payload_sound(sink.log(), bytes@, format, base@, limit, fresh(sink.log()));
        lemma_opens(fresh(sink.log()), base@, run.at);
    }
    match sink.dir(base) {
        Ok(_) => {},
        Err(e) => {
            return Err(e);
        },
    }
    assert(progress(*sink, out) =~= fresh(old(sink).log()).with_entry(EntryView::Dir(base@)));
    let done = match format {
        Format::AppImage => if !appimage::is_elf(bytes) {
            Err(PkgError::Malformed("AppImage", "missing ELF magic".to_owned()))
        } else {
            match appimage::payload(bytes) {
                Ok(image) => squashfs::unpack(image, base, sink, &mut out),
                Err(e) => Err(e),
            }
        },
        Format::Snap => squashfs::unpack(bytes, base, sink, &mut out),
        Format::Deb => match ar::data_member(bytes) {
            Ok((data, codec)) => match decompress::decompress(codec, data, None) {
                Ok(tarball) => tar::unpack(tarball.as_slice(), base, sink, &mut out),
                Err(e) => Err(e),
            },
            Err(e) => Err(e),
        },
        Format::Rpm => match rpm::payload(bytes) {
            Ok((payload, codec)) => match decompress::decompress(codec, payload, None) {
                Ok(raw) => cpio::unpack(raw.as_slice(), base, sink, &mut out),
                Err(e) => Err(e),
            },
            Err(e) => Err(e),
        },
        Format::Tarball => unpack_tarball(bytes, base, sink, &mut out),
    };
    match done {
        Ok(_) => Ok(out),
        Err(e) => Err(e),
    }
}

/// What follows the base directory is sound.
proof fn lemma_payload_sound(
    log: Seq<EntryView>,
    b: Seq<u8>,
    format: Format,
    base: Seq<char>,
    limit: u64,
    start: Progress,
)
    ensures
        sound(
            log,
            base,
            limit,
            start.with_entry(EntryView::Dir(base)),
            unpack_run(b, format, base, limit, start),
        ),
{
    let p = start.with_entry(EntryView::Dir(base));
    lemma_sound_done(log, base, limit, p);
    match format {
        Format::AppImage => {
            if let Ok(image) = appimage::appimage_payload(b) {
                squashfs::lemma_unsquash_sound(log, image, base, limit, p);
            }
        },
        Format::Snap => squashfs::lemma_unsquash_sound(log, b, base, limit, p),
        Format::Deb => {
            if let Ok((data, codec)) = ar::deb_payload(b) {
                if let Ok(raw) = decompress::decompressed(codec, data, None) {
                    tar::lemma_untar_sound(log, raw, base, limit, p);
                }
            }
        },
        Format::Rpm => {
            if let Ok((payload, codec)) = rpm::rpm_payload(b) {
                if let Ok(raw) = decompress::decompressed(codec, payload, None) {
                    cpio::lemma_uncpio_sound(log, raw, base, limit, p);
                }
            }
        },
        Format::Tarball => {
            let codec = match decompress::sniffed(b) {
                Some(c) => c,
                None => Codec::Stored,
            };
            if let Ok(raw) = decompress::decompressed(codec, b, None) {
                tar::lemma_untar_sound(log, raw, base, limit, p);
            }
        },
    }
}

proof fn lemma_unpack_sound(
    log: Seq<EntryView>,
    b: Seq<u8>,
    format: Format,
    base: Seq<char>,
    limit: u64,
    start: Progress,
)
    ensures
        sound(log, base, limit, start, unpack_run(b, format, base, limit, start)),
{
    let p = start.with_entry(EntryView::Dir(base));
    lemma_within_self(base);
    lemma_sound_entry(log, base, limit, start, EntryView::Dir(base));
    lemma_payload_sound(log, b, format, base, limit, start);
    lemma_sound_trans(
        log,
        base,
        limit,
        start,
        p.done(),
        unpack_run(b, format, base, limit, start),
    );
}

/// What is reached from the base directory holds it, behind what was there before.
proof fn lemma_opens(start: Progress, base: Seq<char>, q: Progress)
    requires
        reaches(start.with_entry(EntryView::Dir(base)), q),
    ensures
        refused(start.entries, q.entries),
        q.entries[start.entries.len() as int] == EntryView::Dir(base),
{
    let p = start.with_entry(EntryView::Dir(base));
    let n = start.entries.len() as int;
    assert(q.entries.subrange(0, n + 1) == p.entries);
    assert(q.entries.subrange(0, n + 1)[n] == EntryView::Dir(base));
    assert(q.entries.subrange(0, n) =~= p.entries.subrange(0, n));
    assert(p.entries.subrange(0, n) =~= start.entries);
}

/// Whatever a package holds, whatever it claims to be and however its unpack ends: the
/// base comes first; every path handed to the sink is within the base, and so is every
/// link's target unless it is relative; and no more bytes are emitted than the limit.
/// `log` is what the sink held before.
pub proof fn lemma_unpack_stays_within(
    b: Seq<u8>,
    format: Format,
    base: Seq<char>,
    limit: u64,
    log: Seq<EntryView>,
)
    ensures
        ({
            let all = unpack_run(b, format, base, limit, fresh(log)).at.entries;
            &&& refused(log, all)
            &&& all[log.len() as int] == EntryView::Dir(base)
            &&& forall|i: int| log.len() <= i < all.len() ==> placed(base, #[trigger] all[i])
            &&& limit < u64::MAX ==> total_size(all) <= total_size(log) + limit
        }),
{
    lemma_unpack_sound(log, b, format, base, limit, fresh(log));
    lemma_payload_sound(log, b, format, base, limit, fresh(log));
    lemma_opens(fresh(log), base, unpack_run(b, format, base, limit, fresh(log)).at);
}

/// The files and bytes that a finished unpack counts are those it emitted, whatever the
/// format, and the bytes are within the limit.
pub proof fn lemma_unpack_counts_files(
    b: Seq<u8>,
    format: Format,
    base: Seq<char>,
    limit: u64,
    log: Seq<EntryView>,
)
    ensures
        ({
            let run = unpack_run(b, format, base, limit, fresh(log));
            run.result is Ok ==> tallied(log, run.at) && run.at.bytes <= limit
        }),
{
    lemma_unpack_sound(log, b, format, base, limit, fresh(log));
}

/// An unpack that is too large says by which limit: the one in force, unless the sink has
/// one of its own and refused an entry with it.
pub proof fn lemma_too_large_names_the_limit<S: Sink>(
    sink0: S,
    sink: S,
    b: Seq<u8>,
    format: Format,
    base: Seq<char>,
    limit: u64,
    e: PkgError,
    n: u64,
)
    requires
        unpacked(
            sink0,
            sink,
            format,
            base,
            limit,
            Err(e),
            unpack_run(b, format, base, limit, fresh(sink0.log())),
        ),
        e@ == Fault::TooLarge(n),
        sink.refusal() != Some(Fault::TooLarge(n)),
    ensures
        n == limit,
{
    lemma_unpack_sound(sink0.log(), b, format, base, limit, fresh(sink0.log()));
}

/// A format that doesn't match the bytes yields [`PkgError::Malformed`] rather than
/// garbage, and nothing but the base is handed to the sink.
pub proof fn lemma_mismatch_is_malformed(
    b: Seq<u8>,
    format: Format,
    base: Seq<char>,
    limit: u64,
    start: Progress,
)
    requires
        !matches_format(b, format),
    ensures
        ({
            let run = unpack_run(b, format, base, limit, start);
            &&& run.result matches Err(f) && f is Malformed
            &&& run.at == start.with_entry(EntryView::Dir(base))
        }),
{
}

/// A symlink target is either what the package recorded, and then not absolute, or
/// a path within the base.
pub proof fn lemma_rerooted(base: Seq<char>, target: Seq<char>)
    ensures
        if target.len() > 0 && target[0] == '/' {
            within(base, rerooted(base, target))
        } else {
            rerooted(base, target) == target
        },
{
    lemma_safe_join_stays_within(base, target);
    lemma_within_self(base);
}

/// The file name plays no part for a package whose magic is its own.
pub proof fn lemma_magic_decides(b: Seq<u8>, one: Seq<char>, other: Seq<char>)
    requires
        rpm::has_magic(b) || ar::has_magic(b) || squashfs::has_magic(b) || (
        appimage::has_elf_magic(b) && appimage::type_marker(b) is Some),
    ensures
        identified(b, one) == identified(b, other),
{
}

} // verus!
