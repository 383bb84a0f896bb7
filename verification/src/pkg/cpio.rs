//! The "new ASCII" (`newc`) cpio archive an RPM payload expands to.
//!
//! Every entry is a 110-byte header of hex fields, the NUL-terminated name, and
//! the body, each padded to a 4-byte boundary. The one wrinkle is hard links:
//! RPM emits every link to a file as a zero-length entry and attaches the body
//! to the *last* of them, so the earlier ones have to wait for it.

use vstd::prelude::*;

use crate::bytes::{
    begins, begins_with, copy_of, lossy_text, span_of, utf8_lossy, widened, widened_of,
};
use crate::num::{number, number_of};
use crate::path::{join_safe, lemma_safe_join_stays_within, safe_join, within};
use crate::pkg::{
    account, followed, lemma_rerooted, lemma_sound_done, lemma_sound_entry, lemma_sound_file,
    lemma_sound_trans, lemma_sound_warning, link_target, progress, refused, rerooted, sound, warn,
    EntryView, Fault, PkgError, Progress, Run, Sink, Unpacked,
};
use crate::text::{chars_of, concat, same, text_of, trim_end, trim_end_of, CharClass};

verus! {

/// The part of a mode that tells a file's type.
pub const S_IFMT: u32 = 0xf000;

pub const S_IFREG: u32 = 0x8000;

pub const S_IFDIR: u32 = 0x4000;

pub const S_IFLNK: u32 = 0xa000;

/// The `i`-th of the 13 fixed-width hex fields following the 6-byte magic.
pub open spec fn hex_field(header: Seq<u8>, i: int) -> Option<nat> {
    number(widened(header.subrange(6 + i * 8, 14 + i * 8)), 16, u32::MAX as nat)
}

/// The fields of a header that are used.
pub struct Fields {
    pub ino: u32,
    pub mode: u32,
    pub nlink: u32,
    pub filesize: u32,
    pub devmajor: u32,
    pub devminor: u32,
    pub namesize: u32,
}

/// The fields of a header, where each of them can be read.
pub open spec fn fields(header: Seq<u8>) -> Option<Fields> {
    match (
        hex_field(header, 0),
        hex_field(header, 1),
        hex_field(header, 4),
        hex_field(header, 6),
        hex_field(header, 7),
        hex_field(header, 8),
        hex_field(header, 11),
    ) {
        (
            Some(ino),
            Some(mode),
            Some(nlink),
            Some(filesize),
            Some(devmajor),
            Some(devminor),
            Some(namesize),
        ) => Some(
            Fields {
                ino: ino as u32,
                mode: mode as u32,
                nlink: nlink as u32,
                filesize: filesize as u32,
                devmajor: devmajor as u32,
                devminor: devminor as u32,
                namesize: namesize as u32,
            },
        ),
        _ => None,
    }
}

/// How an archive identifies a file that has several names.
pub open spec fn link_key(f: Fields) -> (u32, u32, u32) {
    (f.devmajor, f.devminor, f.ino)
}

/// `n` rounded up to a multiple of four.
pub open spec fn padded(n: int) -> int {
    n + (4 - n % 4) % 4
}

/// Hard-link names still waiting for the member that carries their body, in the
/// order in which they came.
pub type Waiting = Seq<((u32, u32, u32), Seq<char>)>;

/// The names that wait for `key`, each emitted as a symlink to `target`.
pub open spec fn linked(w: Waiting, key: (u32, u32, u32), target: Seq<char>, p: Progress) -> Progress
    decreases w.len(),
{
    if w.len() == 0 {
        p
    } else {
        let q = linked(w.drop_last(), key, target, p);
        if w.last().0 == key {
            q.with_entry(EntryView::Symlink { path: w.last().1, target })
        } else {
            q
        }
    }
}

/// The names that wait for another key.
pub open spec fn unlinked(w: Waiting, key: (u32, u32, u32)) -> Waiting
    decreases w.len(),
{
    if w.len() == 0 {
        w
    } else if w.last().0 == key {
        unlinked(w.drop_last(), key)
    } else {
        unlinked(w.drop_last(), key).push(w.last())
    }
}

/// The names whose body never arrived, each emitted and counted as an empty file. Dropping
/// them would silently shrink the tree the analysis walks.
pub open spec fn orphans(w: Waiting, p: Progress) -> Progress
    decreases w.len(),
{
    if w.len() == 0 {
        p
    } else {
        orphans(w.drop_last(), p).counting(0).with_entry(
            EntryView::File { path: w.last().1, data: Seq::empty(), mode: 0x1a4 },
        )
    }
}

/// The names that wait after an entry, and what it emits.
pub struct Step {
    pub waiting: Waiting,
    pub run: Run,
}

/// What one entry does.
pub open spec fn entry(
    f: Fields,
    name: Seq<char>,
    data: Seq<u8>,
    base: Seq<char>,
    limit: u64,
    waiting: Waiting,
    p: Progress,
) -> Step {
    match safe_join(base, name) {
        None => Step {
            waiting,
            run: p.with_warning("skipped cpio entry with an unsafe path: "@ + name).done(),
        },
        Some(path) => {
            let kind = f.mode & S_IFMT;
            if kind == S_IFDIR {
                Step { waiting, run: p.with_entry(EntryView::Dir(path)).done() }
            } else if kind == S_IFLNK {
                let target = trim_end(utf8_lossy(data), CharClass::Only('\0'));
                Step {
                    waiting,
                    run: p.with_entry(
                        EntryView::Symlink { path, target: rerooted(base, target) },
                    ).done(),
                }
            } else if kind == S_IFREG {
                if f.nlink > 1 && f.filesize == 0 {
                    Step { waiting: waiting.push((link_key(f), path)), run: p.done() }
                } else {
                    let run = p.emit_file(path, data, f.mode & 0xfff, limit);
                    if run.result is Err {
                        Step { waiting, run }
                    } else {
                        Step {
                            waiting: unlinked(waiting, link_key(f)),
                            run: linked(waiting, link_key(f), path, run.at).done(),
                        }
                    }
                }
            } else {
                Step { waiting, run: p.done() }
            }
        },
    }
}

/// The end of the archive: waiting names become empty files, and an archive
/// without an entry is an error.
pub open spec fn finished(saw: bool, waiting: Waiting, p: Progress) -> Run {
    let q = orphans(waiting, p);
    if saw {
        q.done()
    } else {
        q.failed(Fault::Malformed("cpio"@, "no readable entries"@))
    }
}

/// The unpack of the entries from `pos` on.
pub open spec fn cpio_run(
    b: Seq<u8>,
    base: Seq<char>,
    limit: u64,
    pos: int,
    saw: bool,
    waiting: Waiting,
    p: Progress,
) -> Run
    decreases b.len() + 4 - pos,
{
    if pos < 0 || pos + 110 > b.len() {
        finished(saw, waiting, p)
    } else {
        let header = b.subrange(pos, pos + 110);
        if !begins(header, seq![0x30u8, 0x37, 0x30, 0x37, 0x30]) {
            finished(saw, waiting, p)
        } else {
            match fields(header) {
                None => finished(saw, waiting, p),
                Some(f) => {
                    let name_end = pos + 110 + f.namesize;
                    if name_end > b.len() {
                        finished(saw, waiting, p)
                    } else {
                        let name = trim_end(
                            utf8_lossy(b.subrange(pos + 110, name_end)),
                            CharClass::Only('\0'),
                        );
                        let start = padded(name_end);
                        if name == "TRAILER!!!"@ {
                            finished(true, waiting, p)
                        } else if start + f.filesize > b.len() {
                            finished(
                                saw,
                                waiting,
                                p.with_warning(
                                    "cpio payload ends mid-entry; analysed what was readable"@,
                                ),
                            )
                        } else {
                            let data = b.subrange(start, start + f.filesize);
                            let step = entry(f, name, data, base, limit, waiting, p);
                            if step.run.result is Err {
                                step.run
                            } else {
                                cpio_run(
                                    b,
                                    base,
                                    limit,
                                    padded(start + f.filesize),
                                    true,
                                    step.waiting,
                                    step.run.at,
                                )
                            }
                        }
                    }
                },
            }
        }
    }
}

/// The unpack of a whole archive.
pub open spec fn uncpio(b: Seq<u8>, base: Seq<char>, limit: u64, p: Progress) -> Run {
    cpio_run(b, base, limit, 0, false, Seq::empty(), p)
}

fn hex_of(header: &[u8], i: usize) -> (r: Option<u32>)
    requires
        header@.len() == 110,
        i < 13,
    ensures
        match r {
            Some(v) => hex_field(header@, i as int) == Some(v as nat),
            None => hex_field(header@, i as int) is None,
        },
{
    let text = widened_of(vstd::slice::slice_subrange(header, 6 + i * 8, 14 + i * 8));
    match number_of(&text, 16, u32::MAX as u64) {
        Some(v) => Some(v as u32),
        None => None,
    }
}

impl Fields {
    fn parse(header: &[u8]) -> (r: Option<Fields>)
        requires
            header@.len() == 110,
        ensures
            r == fields(header@),
    {
        match (
            hex_of(header, 0),
            hex_of(header, 1),
            hex_of(header, 4),
            hex_of(header, 6),
            hex_of(header, 7),
            hex_of(header, 8),
            hex_of(header, 11),
        ) {
            (
                Some(ino),
                Some(mode),
                Some(nlink),
                Some(filesize),
                Some(devmajor),
                Some(devminor),
                Some(namesize),
            ) => Some(Fields { ino, mode, nlink, filesize, devmajor, devminor, namesize }),
            _ => None,
        }
    }
}

fn pad4(n: usize) -> (r: Option<usize>)
    ensures
        match r {
            Some(v) => v == padded(n as int),
            None => padded(n as int) > usize::MAX,
        },
{
    n.checked_add((4 - n % 4) % 4)
}

/// The model of the waiting names.
pub open spec fn waiting_view(v: Seq<((u32, u32, u32), String)>) -> Waiting {
    v.map_values(|w: ((u32, u32, u32), String)| (w.0, w.1@))
}

fn text_without_nuls(data: &[u8]) -> (r: String)
    ensures
        r@ == trim_end(utf8_lossy(data@), CharClass::Only('\0')),
{
    let x = chars_of(lossy_text(data).as_str());
    text_of(trim_end_of(&x, CharClass::Only('\0')).as_slice())
}

fn same_key(a: (u32, u32, u32), b: (u32, u32, u32)) -> (r: bool)
    ensures
        r == (a == b),
{
    a.0 == b.0 && a.1 == b.1 && a.2 == b.2
}

proof fn lemma_linked_grows(
    w: Waiting,
    key: (u32, u32, u32),
    target: Seq<char>,
    p: Progress,
    i: int,
)
    requires
        0 <= i <= w.len(),
    ensures
        linked(w.take(i), key, target, p).entries.is_prefix_of(linked(w, key, target, p).entries),
    decreases w.len() - i,
{
    if i < w.len() {
        lemma_linked_grows(w, key, target, p, i + 1);
        assert(w.take(i + 1).drop_last() =~= w.take(i));
    } else {
        assert(w.take(i) =~= w);
    }
}

proof fn lemma_orphans_grow(w: Waiting, p: Progress, i: int)
    requires
        0 <= i <= w.len(),
    ensures
        orphans(w.take(i), p).entries.is_prefix_of(orphans(w, p).entries),
    decreases w.len() - i,
{
    if i < w.len() {
        lemma_orphans_grow(w, p, i + 1);
        assert(w.take(i + 1).drop_last() =~= w.take(i));
    } else {
        assert(w.take(i) =~= w);
    }
}

fn resolve_links<S: Sink>(
    waiting: Vec<((u32, u32, u32), String)>,
    key: (u32, u32, u32),
    target: &str,
    sink: &mut S,
    out: &Unpacked,
) -> (r: Result<Vec<((u32, u32, u32), String)>, PkgError>)
    ensures
        old(sink).takes_all() ==> final(sink).takes_all() && r is Ok,
        match r {
            Ok(rest) => waiting_view(rest@) == unlinked(waiting_view(waiting@), key) && progress(
                *final(sink),
                *out,
            ) == linked(waiting_view(waiting@), key, target@, progress(*old(sink), *out)),
            Err(e) => final(sink).refusal() == Some(e@) && refused(
                final(sink).log(),
                linked(waiting_view(waiting@), key, target@, progress(*old(sink), *out)).entries,
            ),
        },
{
    let ghost start = progress(*sink, *out);
    let mut rest: Vec<((u32, u32, u32), String)> = Vec::new();
    let ghost all = waiting_view(waiting@);
    let mut i: usize = 0;
    assert(all.take(0) =~= Seq::empty());
    assert(waiting_view(rest@) =~= Seq::empty());
    while i < waiting.len()
        invariant
            i <= waiting@.len(),
            all == waiting_view(waiting@),
            start == progress(*old(sink), *out),
            old(sink).takes_all() ==> sink.takes_all(),
            waiting_view(rest@) == unlinked(all.take(i as int), key),
            progress(*sink, *out) == linked(
                all.take(i as int),
                key,
                target@,
                progress(*old(sink), *out),
            ),
        decreases waiting.len() - i,
    {
        let name = waiting[i].1.as_str();
        assert(all.take(i + 1).drop_last() =~= all.take(i as int));
        assert(all.take(i + 1).last() == (waiting@[i as int].0, name@));
        if same_key(waiting[i].0, key) {
            match sink.symlink(name, target) {
                Ok(_) => {},
                Err(e) => {
                    proof {
                        lemma_linked_grows(all, key, target@, start, i + 1);
                        lemma_linked_grows(all, key, target@, start, i as int);
                    }
                    return Err(e);
                },
            }
        } else {
            let ghost before = waiting_view(rest@);
            let kept_one = (waiting[i].0, name.to_owned());
            rest.push(kept_one);
            assert(waiting_view(rest@) =~= before.push((kept_one.0, kept_one.1@)));
        }
        i = i + 1;
    }
    assert(all.take(all.len() as int) =~= all);
    Ok(rest)
}

fn finish<S: Sink>(
    saw: bool,
    waiting: &Vec<((u32, u32, u32), String)>,
    sink: &mut S,
    out: &mut Unpacked,
) -> (r: Result<(), PkgError>)
    ensures
        followed(
            *old(sink),
            *old(out),
            *final(sink),
            *final(out),
            r,
            finished(saw, waiting_view(waiting@), progress(*old(sink), *old(out))),
        ),
{
    let ghost all = waiting_view(waiting@);
    let ghost start = progress(*sink, *out);
    let mut i: usize = 0;
    assert(all.take(0) =~= Seq::empty());
    while i < waiting.len()
        invariant
            i <= waiting@.len(),
            all == waiting_view(waiting@),
            start == progress(*old(sink), *old(out)),
            out.same_job(*old(out)),
            old(sink).takes_all() ==> sink.takes_all(),
            progress(*sink, *out) == orphans(all.take(i as int), start),
        decreases waiting.len() - i,
    {
        assert(all.take(i + 1).drop_last() =~= all.take(i as int));
        assert(all.take(i + 1).last() == (waiting@[i as int].0, waiting@[i as int].1@));
        let empty: Vec<u8> = Vec::new();
        assert(empty@ =~= Seq::empty());
        out.files = out.files.saturating_add(1);
        match sink.file(waiting[i].1.as_str(), empty, 0x1a4) {
            Ok(_) => {},
            Err(e) => {
                proof {
                    lemma_orphans_grow(all, start, i + 1);
                    lemma_orphans_grow(all, start, i as int);
                }
                return Err(e);
            },
        }
        i = i + 1;
    }
    assert(all.take(all.len() as int) =~= all);
    if saw {
        Ok(())
    } else {
        Err(PkgError::Malformed("cpio", "no readable entries".to_owned()))
    }
}

/// What the rest of an archive does keeps what was emitted before it.
proof fn lemma_cpio_run_grows(
    b: Seq<u8>,
    base: Seq<char>,
    limit: u64,
    pos: int,
    saw: bool,
    w: Waiting,
    p: Progress,
)
    ensures
        p.entries.is_prefix_of(cpio_run(b, base, limit, pos, saw, w, p).at.entries),
    decreases b.len() + 4 - pos,
{
    assert(w.take(0) =~= Seq::empty());
    lemma_orphans_grow(w, p, 0);
    let cut = "cpio payload ends mid-entry; analysed what was readable"@;
    lemma_orphans_grow(w, p.with_warning(cut), 0);
    if 0 <= pos && pos + 110 <= b.len() {
        let header = b.subrange(pos, pos + 110);
        if let Some(f) = fields(header) {
            let name_end = pos + 110 + f.namesize;
            if name_end <= b.len() {
                let name = trim_end(
                    utf8_lossy(b.subrange(pos + 110, name_end)),
                    CharClass::Only('\0'),
                );
                let start = padded(name_end);
                if start + f.filesize <= b.len() {
                    let data = b.subrange(start, start + f.filesize);
                    let step = entry(f, name, data, base, limit, w, p);
                    if let Some(path) = safe_join(base, name) {
                        let run = p.emit_file(path, data, f.mode & 0xfff, limit);
                        lemma_linked_grows(w, link_key(f), path, run.at, 0);
                        assert(linked(w.take(0), link_key(f), path, run.at) == run.at);
                        assert(p.entries.is_prefix_of(run.at.entries));
                    }
                    assert(p.entries.is_prefix_of(step.run.at.entries));
                    if step.run.result is Ok {
                        let next = padded(start + f.filesize);
                        lemma_cpio_run_grows(b, base, limit, next, true, step.waiting, step.run.at);
                    }
                }
            }
        }
    }
}

fn place_entry<S: Sink>(
    f: &Fields,
    name: &str,
    data: &[u8],
    base: &str,
    waiting: Vec<((u32, u32, u32), String)>,
    sink: &mut S,
    out: &mut Unpacked,
) -> (r: Result<Vec<((u32, u32, u32), String)>, PkgError>)
    ensures
        ({
            let step = entry(
                *f,
                name@,
                data@,
                base@,
                old(out).limit,
                waiting_view(waiting@),
                progress(*old(sink), *old(out)),
            );
            &&& followed(
                *old(sink),
                *old(out),
                *final(sink),
                *final(out),
                match r {
                    Ok(_) => Ok(()),
                    Err(e) => Err(e),
                },
                step.run,
            )
            &&& r matches Ok(rest) ==> waiting_view(rest@) == step.waiting
        }),
{
    let ghost before = waiting_view(waiting@);
    let ghost here = progress(*sink, *out);
    let path = match join_safe(base, name) {
        None => {
            warn(out, concat("skipped cpio entry with an unsafe path: ", name), &*sink);
            return Ok(waiting);
        },
        Some(path) => path,
    };
    let kind: u32 = f.mode & S_IFMT;
    if kind == S_IFDIR {
        match sink.dir(path.as_str()) {
            Ok(_) => Ok(waiting),
            Err(e) => Err(e),
        }
    } else if kind == S_IFLNK {
        let to = link_target(base, text_without_nuls(data).as_str());
        match sink.symlink(path.as_str(), to.as_str()) {
            Ok(_) => Ok(waiting),
            Err(e) => Err(e),
        }
    } else if kind == S_IFREG {
        let key = (f.devmajor, f.devminor, f.ino);
        if f.nlink > 1 && f.filesize == 0 {
            // A link whose body comes later.
            let mut more = waiting;
            more.push((key, path));
            assert(waiting_view(more@) =~= before.push((key, path@)));
            Ok(more)
        } else {
            match account(out, data.len(), &*sink) {
                Ok(_) => {},
                Err(e) => {
                    return Err(e);
                },
            }
            proof {
                let run = here.emit_file(path@, data@, f.mode & 0xfff, out.limit);
                assert(before.take(0) =~= Seq::empty());
                lemma_linked_grows(before, key, path@, run.at, 0);
                assert(linked(before.take(0), key, path@, run.at) == run.at);
                assert(here.entries.is_prefix_of(run.at.entries));
            }
            match sink.file(path.as_str(), copy_of(data), f.mode & 0xfff) {
                Ok(_) => {},
                Err(e) => {
                    return Err(e);
                },
            }
            resolve_links(waiting, key, path.as_str(), sink, &*out)
        }
    } else {
        Ok(waiting)
    }
}

/// Unpack every entry of the archive in `bytes` under `base`.
pub fn unpack<S: Sink>(bytes: &[u8], base: &str, sink: &mut S, out: &mut Unpacked) -> (r: Result<
    (),
    PkgError,
>)
    ensures
        followed(
            *old(sink),
            *old(out),
            *final(sink),
            *final(out),
            r,
            uncpio(bytes@, base@, old(out).limit, progress(*old(sink), *old(out))),
        ),
{
    let mut pos: usize = 0;
    let mut saw_entry: bool = false;
    // Hard-link members still waiting for the one that carries the body.
    let mut waiting: Vec<((u32, u32, u32), String)> = Vec::new();
    let magic: [u8; 5] = [0x30, 0x37, 0x30, 0x37, 0x30];
    assert(magic@ =~= seq![0x30u8, 0x37, 0x30, 0x37, 0x30]);
    assert(waiting_view(waiting@) =~= Seq::empty());
    let ghost whole = uncpio(bytes@, base@, out.limit, progress(*sink, *out));

    loop
        invariant
            magic@ == seq![0x30u8, 0x37, 0x30, 0x37, 0x30],
            whole == uncpio(bytes@, base@, old(out).limit, progress(*old(sink), *old(out))),
            whole == cpio_run(
                bytes@,
                base@,
                old(out).limit,
                pos as int,
                saw_entry,
                waiting_view(waiting@),
                progress(*sink, *out),
            ),
            out.same_job(*old(out)),
            old(sink).takes_all() ==> sink.takes_all(),
        decreases bytes.len() + 4 - pos,
    {
        let header = match span_of(bytes, pos, 110) {
            Some(h) => h,
            None => {
                return finish(saw_entry, &waiting, sink, out);
            },
        };
        if !begins_with(header, magic.as_slice()) {
            return finish(saw_entry, &waiting, sink, out);
        }
        let f = match Fields::parse(header) {
            Some(f) => f,
            None => {
                return finish(saw_entry, &waiting, sink, out);
            },
        };
        let name_start: usize = pos + 110;
        let raw_name = match span_of(bytes, name_start, f.namesize as usize) {
            Some(n) => n,
            None => {
                return finish(saw_entry, &waiting, sink, out);
            },
        };
        let name_end: usize = name_start + f.namesize as usize;
        let name = text_without_nuls(raw_name);
        if same(name.as_str(), "TRAILER!!!") {
            return finish(true, &waiting, sink, out);
        }
        // Both the name and the body are padded to a 4-byte boundary measured
        // from the start of the archive.
        let body = match pad4(name_end) {
            Some(start) => match span_of(bytes, start, f.filesize as usize) {
                Some(data) => Some((start, data)),
                None => None,
            },
            None => None,
        };
        let (start, data) = match body {
            Some(pair) => pair,
            None => {
                warn(
                    out,
                    "cpio payload ends mid-entry; analysed what was readable".to_owned(),
                    &*sink,
                );
                return finish(saw_entry, &waiting, sink, out);
            },
        };
        saw_entry = true;
        let ghost before = waiting_view(waiting@);
        proof {
            let here = progress(*sink, *out);
            let step = entry(f, name@, data@, base@, old(out).limit, before, here);
            lemma_cpio_run_grows(
                bytes@,
                base@,
                old(out).limit,
                padded(start + f.filesize),
                true,
                step.waiting,
                step.run.at,
            );
        }
        match place_entry(&f, name.as_str(), data, base, waiting, sink, out) {
            Ok(rest) => {
                waiting = rest;
            },
            Err(e) => {
                return Err(e);
            },
        }
        match pad4(start + f.filesize as usize) {
            Some(next) => {
                pos = next;
            },
            None => {
                assert(cpio_run(
                    bytes@,
                    base@,
                    out.limit,
                    padded(start + f.filesize),
                    true,
                    waiting_view(waiting@),
                    progress(*sink, *out),
                ) == finished(true, waiting_view(waiting@), progress(*sink, *out)));
                return finish(saw_entry, &waiting, sink, out);
            },
        }
    }
}

/// That every waiting name is within the base.
pub open spec fn names_within(base: Seq<char>, w: Waiting) -> bool {
    forall|i: int| 0 <= i < w.len() ==> within(base, (#[trigger] w[i]).1)
}

proof fn lemma_linked_sound(
    log: Seq<EntryView>,
    base: Seq<char>,
    limit: u64,
    w: Waiting,
    key: (u32, u32, u32),
    target: Seq<char>,
    p: Progress,
)
    requires
        names_within(base, w),
        within(base, target),
    ensures
        sound(log, base, limit, p, linked(w, key, target, p).done()),
        names_within(base, unlinked(w, key)),
    decreases w.len(),
{
    lemma_sound_done(log, base, limit, p);
    if w.len() > 0 {
        assert(names_within(base, w.drop_last())) by {
            assert forall|i: int| 0 <= i < w.drop_last().len() implies within(
                base,
                (#[trigger] w.drop_last()[i]).1,
            ) by {
                assert(w.drop_last()[i] == w[i]);
            }
        }
        lemma_linked_sound(log, base, limit, w.drop_last(), key, target, p);
        let q = linked(w.drop_last(), key, target, p);
        let e = EntryView::Symlink { path: w.last().1, target };
        assert(w.last() == w[w.len() - 1]);
        lemma_sound_entry(log, base, limit, q, e);
        lemma_sound_trans(log, base, limit, p, q.done(), q.with_entry(e).done());
        let rest = unlinked(w.drop_last(), key);
        assert forall|i: int| 0 <= i < rest.push(w.last()).len() implies within(
            base,
            (#[trigger] rest.push(w.last())[i]).1,
        ) by {
            if i < rest.len() {
                assert(rest.push(w.last())[i] == rest[i]);
            }
        }
    }
}

proof fn lemma_orphans_sound(
    log: Seq<EntryView>,
    base: Seq<char>,
    limit: u64,
    w: Waiting,
    p: Progress,
)
    requires
        names_within(base, w),
    ensures
        sound(log, base, limit, p, orphans(w, p).done()),
    decreases w.len(),
{
    lemma_sound_done(log, base, limit, p);
    if w.len() > 0 {
        assert(names_within(base, w.drop_last())) by {
            assert forall|i: int| 0 <= i < w.drop_last().len() implies within(
                base,
                (#[trigger] w.drop_last()[i]).1,
            ) by {
                assert(w.drop_last()[i] == w[i]);
            }
        }
        lemma_orphans_sound(log, base, limit, w.drop_last(), p);
        let q = orphans(w.drop_last(), p);
        let e = EntryView::File { path: w.last().1, data: Seq::empty(), mode: 0x1a4 };
        assert(w.last() == w[w.len() - 1]);
        assert(q.entries.push(e).drop_last() =~= q.entries);
        assert(sound(log, base, limit, q, q.counting(0).with_entry(e).done()));
        lemma_sound_trans(log, base, limit, p, q.done(), q.counting(0).with_entry(e).done());
    }
}

proof fn lemma_finished_sound(log: Seq<EntryView>, base: Seq<char>, limit: u64, saw: bool, w: Waiting, p: Progress)
    requires
        names_within(base, w),
    ensures
        sound(log, base, limit, p, finished(saw, w, p)),
{
    lemma_orphans_sound(log, base, limit, w, p);
    lemma_sound_done(log, base, limit, orphans(w, p));
    let why = Fault::Malformed("cpio"@, "no readable entries"@);
    lemma_sound_trans(log, base, limit, p, orphans(w, p).done(), orphans(w, p).failed(why));
}

proof fn lemma_entry_sound(
    log: Seq<EntryView>,
    f: Fields,
    name: Seq<char>,
    data: Seq<u8>,
    base: Seq<char>,
    limit: u64,
    w: Waiting,
    p: Progress,
)
    requires
        names_within(base, w),
    ensures
        sound(log, base, limit, p, entry(f, name, data, base, limit, w, p).run),
        names_within(base, entry(f, name, data, base, limit, w, p).waiting),
{
    lemma_safe_join_stays_within(base, name);
    lemma_sound_done(log, base, limit, p);
    match safe_join(base, name) {
        None => {
            lemma_sound_warning(
                log,
                base,
                limit,
                p,
                "skipped cpio entry with an unsafe path: "@ + name,
            );
        },
        Some(path) => {
            let target = trim_end(utf8_lossy(data), CharClass::Only('\0'));
            lemma_rerooted(base, target);
            lemma_sound_entry(log, base, limit, p, EntryView::Dir(path));
            lemma_sound_entry(
                log,
                base,
                limit,
                p,
                EntryView::Symlink { path, target: rerooted(base, target) },
            );
            lemma_sound_file(log, base, limit, p, path, data, f.mode & 0xfff);
            let run = p.emit_file(path, data, f.mode & 0xfff, limit);
            if run.result is Ok {
                lemma_linked_sound(log, base, limit, w, link_key(f), path, run.at);
                lemma_sound_trans(
                    log,
                    base,
                    limit,
                    p,
                    run,
                    linked(w, link_key(f), path, run.at).done(),
                );
            }
            let more = w.push((link_key(f), path));
            assert forall|i: int| 0 <= i < more.len() implies within(base, (#[trigger] more[i]).1) by {
                if i < w.len() {
                    assert(more[i] == w[i]);
                }
            }
        },
    }
}

proof fn lemma_cpio_run_sound(
    log: Seq<EntryView>,
    b: Seq<u8>,
    base: Seq<char>,
    limit: u64,
    pos: int,
    saw: bool,
    w: Waiting,
    p: Progress,
)
    requires
        names_within(base, w),
    ensures
        sound(log, base, limit, p, cpio_run(b, base, limit, pos, saw, w, p)),
    decreases b.len() + 4 - pos,
{
    lemma_finished_sound(log, base, limit, saw, w, p);
    lemma_finished_sound(log, base, limit, true, w, p);
    let cut = "cpio payload ends mid-entry; analysed what was readable"@;
    lemma_sound_warning(log, base, limit, p, cut);
    lemma_finished_sound(log, base, limit, saw, w, p.with_warning(cut));
    lemma_sound_trans(
        log,
        base,
        limit,
        p,
        p.with_warning(cut).done(),
        finished(saw, w, p.with_warning(cut)),
    );
    if 0 <= pos && pos + 110 <= b.len() {
        let header = b.subrange(pos, pos + 110);
        if let Some(f) = fields(header) {
            let name_end = pos + 110 + f.namesize;
            if name_end <= b.len() {
                let name = trim_end(
                    utf8_lossy(b.subrange(pos + 110, name_end)),
                    CharClass::Only('\0'),
                );
                let start = padded(name_end);
                if start + f.filesize <= b.len() {
                    let data = b.subrange(start, start + f.filesize);
                    let step = entry(f, name, data, base, limit, w, p);
                    lemma_entry_sound(log, f, name, data, base, limit, w, p);
                    if step.run.result is Ok {
                        let next = padded(start + f.filesize);
                        lemma_cpio_run_sound(
                            log,
                            b,
                            base,
                            limit,
                            next,
                            true,
                            step.waiting,
                            step.run.at,
                        );
                        lemma_sound_trans(
                            log,
                            base,
                            limit,
                            p,
                            step.run,
                            cpio_run(b, base, limit, next, true, step.waiting, step.run.at),
                        );
                    }
                }
            }
        }
    }
}

/// Whatever the archive holds and however it ends, unpacking it emits only entries within
/// the base and within the limit, counts exactly what it emits, and loses nothing that was
/// there before.
pub proof fn lemma_uncpio_sound(log: Seq<EntryView>, b: Seq<u8>, base: Seq<char>, limit: u64, p: Progress)
    ensures
        sound(log, base, limit, p, uncpio(b, base, limit, p)),
{
    lemma_cpio_run_sound(log, b, base, limit, 0, false, Seq::empty(), p);
}

} // verus!
