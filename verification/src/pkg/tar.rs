//! A tar reader: the payload of a `.deb`, and the whole of a vendor tarball.
//!
//! Covers what real producers emit — ustar with `prefix`, GNU `L`/`K` long
//! names, pax `x` records, and GNU base-256 sizes for members above 8 GiB.
//! Anything else (device nodes, FIFOs) is skipped.

use vstd::prelude::*;

use crate::bytes::{
    begins_with, copy_of, find_byte, first_byte, lossy_text, span, span_of, utf8_lossy, widened,
    widened_of,
};
use crate::num::{number, number_of};
use crate::path::{join_safe, lemma_safe_join_stays_within, safe_join};
use crate::pkg::{
    account, ended, followed, lemma_rerooted, lemma_sound_done, lemma_sound_entry,
    lemma_sound_file, lemma_sound_trans, lemma_sound_warning, link_target, progress, rerooted,
    sound, warn, EntryView, Fault, PkgError, Progress, Run, Sink, Unpacked,
};
use crate::text::{concat, concat3, opt_text, trim, trim_of, CharClass};

verus! {

const BLOCK: usize = 512;

/// Whether the `ustar` magic sits inside the first header.
pub open spec fn has_ustar(b: Seq<u8>) -> bool {
    span(b, 257, 5) == Some(seq![0x75u8, 0x73, 0x74, 0x61, 0x72])
}

/// True if `bytes` is an uncompressed tar — the `ustar` magic sits inside the
/// first header rather than at offset 0, which is why a `.tar` needs looking
/// *into* rather than sniffing.
pub fn is_tar(bytes: &[u8]) -> (r: bool)
    ensures
        r == has_ustar(bytes@),
{
    let magic: [u8; 5] = [0x75, 0x73, 0x74, 0x61, 0x72];
    assert(magic@ =~= seq![0x75u8, 0x73, 0x74, 0x61, 0x72]);
    match span_of(bytes, 257, 5) {
        Some(m) => {
            assert(m@.take(5) =~= m@);
            begins_with(m, magic.as_slice())
        },
        None => false,
    }
}

/// A fixed-width octal field, padded with NULs or spaces; a blank one is zero.
pub open spec fn octal(field: Seq<u8>) -> Option<nat> {
    let t = trim(widened(field), CharClass::NulOrSpace);
    if t.len() == 0 {
        Some(0)
    } else {
        number(t, 8, usize::MAX as nat)
    }
}

/// The number that bytes write, most significant first.
pub open spec fn base256(b: Seq<u8>) -> nat
    decreases b.len(),
{
    if b.len() == 0 {
        0
    } else {
        base256(b.drop_last()) * 256 + b.last() as nat
    }
}

/// Member size: octal, or GNU's base-256 form (high bit of the first byte set)
/// for sizes that don't fit in 11 octal digits.
pub open spec fn member_size(header: Seq<u8>) -> Option<nat> {
    if header[124] >= 0x80 {
        let v = base256(header.subrange(128, 136));
        if v <= usize::MAX {
            Some(v)
        } else {
            None
        }
    } else {
        octal(header.subrange(124, 136))
    }
}

/// A NUL-terminated fixed-width string field.
pub open spec fn c_string(field: Seq<u8>) -> Seq<char> {
    match first_byte(field, 0, 0) {
        Some(i) => utf8_lossy(field.take(i)),
        None => utf8_lossy(field),
    }
}

/// The member name, joining the ustar `prefix` field when it's in use.
pub open spec fn header_name(header: Seq<u8>) -> Seq<char> {
    let name = c_string(header.subrange(0, 100));
    let prefix = c_string(header.subrange(345, 500));
    if prefix.len() == 0 {
        name
    } else {
        prefix + "/"@ + name
    }
}

/// Whether a character may start at `i` of well-formed UTF-8.
pub open spec fn boundary(b: Seq<u8>, i: int) -> bool {
    i == 0 || i == b.len() || (0 < i < b.len() && !(0x80 <= b[i] <= 0xbf))
}

/// The value of the first record for `key` in a pax extended header body, from
/// `at` on. Records are `"<len> <key>=<value>\n"` with `len` counting the whole
/// record; one whose length does not cover its own prefix ends the search.
pub open spec fn pax_record(b: Seq<u8>, key: Seq<u8>, at: int) -> Option<Seq<char>>
    decreases b.len() - at,
{
    if at < 0 || at > b.len() {
        None
    } else {
        let rest = b.skip(at);
        match first_byte(rest, 0x20, 0) {
            None => None,
            Some(space) => match number(widened(rest.take(space)), 10, usize::MAX as nat) {
                None => None,
                Some(len) => if !(0 <= space < len <= rest.len()) || !boundary(rest, len as int) {
                    None
                } else {
                    let body = without_newlines(rest.subrange(space + 1, len as int));
                    match first_byte(body, 0x3d, 0) {
                        Some(eq) => if body.take(eq) == key {
                            Some(utf8_lossy(body.skip(eq + 1)))
                        } else {
                            pax_record(b, key, at + len)
                        },
                        None => pax_record(b, key, at + len),
                    }
                },
            },
        }
    }
}

/// `b` without its trailing newlines.
pub open spec fn without_newlines(b: Seq<u8>) -> Seq<u8>
    decreases b.len(),
{
    if b.len() > 0 && b.last() == 0x0a {
        without_newlines(b.drop_last())
    } else {
        b
    }
}

/// The value of `key` in a pax extended header body.
pub open spec fn pax_value(data: Seq<u8>, key: Seq<char>) -> Option<Seq<char>> {
    pax_record(vstd::utf8::encode_utf8(utf8_lossy(data)), vstd::utf8::encode_utf8(key), 0)
}

/// The permission bits of a member.
pub open spec fn member_mode(header: Seq<u8>) -> u32 {
    let m = match octal(header.subrange(100, 108)) {
        Some(m) => m,
        None => 0x1a4,
    };
    (m as u32) & 0xfff
}

/// The link name of a member: the one recorded before it, else the header's own.
pub open spec fn member_link(header: Seq<u8>, link: Option<Seq<char>>) -> Seq<char> {
    match link {
        Some(l) => l,
        None => c_string(header.subrange(157, 257)),
    }
}

/// What an ordinary member emits.
pub open spec fn place(
    header: Seq<u8>,
    data: Seq<u8>,
    base: Seq<char>,
    limit: u64,
    name: Seq<char>,
    link: Option<Seq<char>>,
    p: Progress,
) -> Run {
    let flag = header[156];
    match safe_join(base, name) {
        None => p.with_warning("skipped tar entry with an unsafe path: "@ + name).done(),
        Some(path) => if flag == 0x35 {
            p.with_entry(EntryView::Dir(path)).done()
        } else if flag == 0x32 {
            p.with_entry(
                EntryView::Symlink { path, target: rerooted(base, member_link(header, link)) },
            ).done()
        } else if flag == 0x31 {
            match safe_join(base, member_link(header, link)) {
                Some(target) => p.with_entry(EntryView::Symlink { path, target }).done(),
                None => p.done(),
            }
        } else if flag == 0x30 || flag == 0 || flag == 0x37 {
            p.emit_file(path, data, member_mode(header), limit)
        } else {
            p.done()
        },
    }
}

/// The long names in force after a member, and what it emits.
pub struct Step {
    pub name: Option<Seq<char>>,
    pub link: Option<Seq<char>>,
    pub run: Run,
}

/// What one member does: a long-name record sets the name of the next member,
/// any other member consumes it.
pub open spec fn member(
    header: Seq<u8>,
    data: Seq<u8>,
    base: Seq<char>,
    limit: u64,
    name: Option<Seq<char>>,
    link: Option<Seq<char>>,
    p: Progress,
) -> Step {
    let flag = header[156];
    if flag == 0x4c {
        Step { name: Some(c_string(data)), link, run: p.done() }
    } else if flag == 0x4b {
        Step { name, link: Some(c_string(data)), run: p.done() }
    } else if flag == 0x78 || flag == 0x58 {
        Step {
            name: match pax_value(data, "path"@) {
                Some(v) => Some(v),
                None => name,
            },
            link: match pax_value(data, "linkpath"@) {
                Some(v) => Some(v),
                None => link,
            },
            run: p.done(),
        }
    } else if flag == 0x67 {
        Step { name, link, run: p.done() }
    } else {
        let n = match name {
            Some(n) => n,
            None => header_name(header),
        };
        Step { name: None, link: None, run: place(header, data, base, limit, n, link, p) }
    }
}

/// The end of the archive: an error if no member was read.
pub open spec fn finished(saw: bool, p: Progress, why: Seq<char>) -> Run {
    if saw {
        p.done()
    } else {
        p.failed(Fault::Malformed("tar"@, why))
    }
}

/// `n` rounded up to a whole number of blocks.
pub open spec fn padded(n: int) -> int {
    n + (512 - n % 512) % 512
}

/// The unpack of the members from `pos` on.
pub open spec fn tar_run(
    b: Seq<u8>,
    base: Seq<char>,
    limit: u64,
    pos: int,
    name: Option<Seq<char>>,
    link: Option<Seq<char>>,
    saw: bool,
    p: Progress,
) -> Run
    decreases b.len() + 512 - pos,
{
    if pos < 0 || pos + 512 > b.len() {
        finished(saw, p, "no readable members"@)
    } else {
        let header = b.subrange(pos, pos + 512);
        if forall|i: int| 0 <= i < 512 ==> header[i] == 0 {
            finished(saw, p, "no readable members"@)
        } else {
            match member_size(header) {
                None => finished(saw, p, "unreadable member size"@),
                Some(size) => {
                    let start = pos + 512;
                    if start + size > b.len() {
                        finished(
                            saw,
                            p.with_warning("tar ends mid-member; analysed what was readable"@),
                            "no readable members"@,
                        )
                    } else {
                        let data = b.subrange(start, start + size);
                        let step = member(header, data, base, limit, name, link, p);
                        if step.run.result is Err {
                            step.run
                        } else {
                            tar_run(
                                b,
                                base,
                                limit,
                                padded(start + size),
                                step.name,
                                step.link,
                                true,
                                step.run.at,
                            )
                        }
                    }
                },
            }
        }
    }
}

/// The unpack of a whole archive.
pub open spec fn untar(b: Seq<u8>, base: Seq<char>, limit: u64, p: Progress) -> Run {
    tar_run(b, base, limit, 0, None, None, false, p)
}

fn field_octal(field: &[u8]) -> (r: Option<usize>)
    ensures
        match r {
            Some(v) => octal(field@) == Some(v as nat),
            None => octal(field@) is None,
        },
{
    let t = trim_of(&widened_of(field), CharClass::NulOrSpace);
    if t.len() == 0 {
        return Some(0);
    }
    match number_of(&t, 8, usize::MAX as u64) {
        Some(v) => Some(v as usize),
        None => None,
    }
}

fn field_size(header: &[u8]) -> (r: Option<usize>)
    requires
        header@.len() == 512,
    ensures
        match r {
            Some(v) => member_size(header@) == Some(v as nat),
            None => member_size(header@) is None,
        },
{
    if header[124] >= 0x80 {
        let ghost field = header@.subrange(128, 136);
        let mut value: u64 = 0;
        let mut i: usize = 0;
        let ghost mut bound: int = 1;
        assert(field.take(0) =~= Seq::<u8>::empty());
        reveal_with_fuel(base256, 1);
        while i < 8
            invariant
                header@.len() == 512,
                i <= 8,
                field == header@.subrange(128, 136),
                value == base256(field.take(i as int)),
                i == 0 ==> value < 1,
                i == 1 ==> value < 0x100,
                i == 2 ==> value < 0x1_0000,
                i == 3 ==> value < 0x100_0000,
                i == 4 ==> value < 0x1_0000_0000,
                i == 5 ==> value < 0x100_0000_0000,
                i == 6 ==> value < 0x1_0000_0000_0000,
                i == 7 ==> value < 0x100_0000_0000_0000,
            decreases 8 - i,
        {
            assert(field.take(i + 1).drop_last() =~= field.take(i as int));
            value = value * 256 + header[128 + i] as u64;
            i = i + 1;
        }
        assert(field.take(8) =~= field);
        if value <= usize::MAX as u64 {
            Some(value as usize)
        } else {
            None
        }
    } else {
        field_octal(vstd::slice::slice_subrange(header, 124, 136))
    }
}

fn cstr(field: &[u8]) -> (r: String)
    ensures
        r@ == c_string(field@),
{
    match find_byte(field, 0, 0) {
        Some(end) => {
            assert(field@.subrange(0, end as int) =~= field@.take(end as int));
            lossy_text(vstd::slice::slice_subrange(field, 0, end))
        },
        None => lossy_text(field),
    }
}

fn ustar_name(header: &[u8]) -> (r: String)
    requires
        header@.len() == 512,
    ensures
        r@ == header_name(header@),
{
    let name = cstr(vstd::slice::slice_subrange(header, 0, 100));
    let prefix = cstr(vstd::slice::slice_subrange(header, 345, 500));
    if prefix.as_str().is_empty() {
        name
    } else {
        concat3(prefix.as_str(), "/", name.as_str())
    }
}

fn strip_newlines(b: &[u8]) -> (r: usize)
    ensures
        r <= b@.len(),
        b@.take(r as int) == without_newlines(b@),
{
    let mut n: usize = b.len();
    assert(b@.take(n as int) =~= b@);
    while n > 0 && b[n - 1] == 0x0a
        invariant
            n <= b@.len(),
            without_newlines(b@) == without_newlines(b@.take(n as int)),
        decreases n,
    {
        assert(b@.take(n as int).drop_last() =~= b@.take(n - 1));
        n = n - 1;
    }
    n
}

fn same_bytes(a: &[u8], b: &[u8]) -> (r: bool)
    ensures
        r == (a@ == b@),
{
    if a.len() != b.len() {
        return false;
    }
    assert(a@.take(b@.len() as int) =~= a@);
    begins_with(a, b)
}

fn pax_field(data: &[u8], key: &str) -> (r: Option<String>)
    ensures
        opt_text(r) == pax_value(data@, key@),
{
    let text = lossy_text(data);
    let b = text.as_str().as_bytes();
    let k = key.as_bytes();
    let mut at: usize = 0;
    loop
        invariant
            at <= b@.len(),
            b@ == vstd::utf8::encode_utf8(utf8_lossy(data@)),
            k@ == vstd::utf8::encode_utf8(key@),
            pax_value(data@, key@) == pax_record(b@, k@, at as int),
        decreases b.len() - at,
    {
        let rest = vstd::slice::slice_subrange(b, at, b.len());
        assert(rest@ =~= b@.skip(at as int));
        let space = match find_byte(rest, 0x20, 0) {
            Some(i) => i,
            None => {
                return None;
            },
        };
        assert(rest@.subrange(0, space as int) =~= rest@.take(space as int));
        let digits = widened_of(vstd::slice::slice_subrange(rest, 0, space));
        let len = match number_of(&digits, 10, usize::MAX as u64) {
            Some(v) => v as usize,
            None => {
                return None;
            },
        };
        if len <= space || len > rest.len() {
            return None;
        }
        if len < rest.len() && rest[len] >= 0x80 && rest[len] <= 0xbf {
            return None;
        }
        let record = vstd::slice::slice_subrange(rest, space + 1, len);
        let end = strip_newlines(record);
        let body = vstd::slice::slice_subrange(record, 0, end);
        assert(body@ =~= record@.take(end as int));
        match find_byte(body, 0x3d, 0) {
            Some(eq) => {
                let name = vstd::slice::slice_subrange(body, 0, eq);
                assert(name@ =~= body@.take(eq as int));
                if same_bytes(name, k) {
                    let value = vstd::slice::slice_subrange(body, eq + 1, body.len());
                    assert(value@ =~= body@.skip(eq + 1));
                    return Some(lossy_text(value));
                }
            },
            None => {},
        }
        at = at + len;
    }
}

fn finish(saw: bool, why: &str) -> (r: Result<(), PkgError>)
    ensures
        forall|p: Progress| #[trigger] finished(saw, p, why@) == (Run { at: p, result: ended(r) }),
{
    if saw {
        Ok(())
    } else {
        Err(PkgError::Malformed("tar", why.to_owned()))
    }
}

fn is_blank(header: &[u8]) -> (r: bool)
    requires
        header@.len() == 512,
    ensures
        r == forall|i: int| 0 <= i < 512 ==> header@[i] == 0,
{
    let mut i: usize = 0;
    while i < 512
        invariant
            header@.len() == 512,
            i <= 512,
            forall|j: int| 0 <= j < i ==> header@[j] == 0,
        decreases 512 - i,
    {
        if header[i] != 0 {
            return false;
        }
        i = i + 1;
    }
    true
}

fn place_member<S: Sink>(
    header: &[u8],
    data: &[u8],
    base: &str,
    name: &str,
    link: Option<String>,
    sink: &mut S,
    out: &mut Unpacked,
) -> (r: Result<(), PkgError>)
    requires
        header@.len() == 512,
    ensures
        followed(
            *old(sink),
            *old(out),
            *final(sink),
            *final(out),
            r,
            place(
                header@,
                data@,
                base@,
                old(out).limit,
                name@,
                opt_text(link),
                progress(*old(sink), *old(out)),
            ),
        ),
{
    let flag = header[156];
    let path = match join_safe(base, name) {
        Some(p) => p,
        None => {
            warn(out, concat("skipped tar entry with an unsafe path: ", name), &*sink);
            return Ok(());
        },
    };
    if flag == 0x35 {
        sink.dir(path.as_str())
    } else if flag == 0x32 || flag == 0x31 {
        let target = match link {
            Some(l) => l,
            None => cstr(vstd::slice::slice_subrange(header, 157, 257)),
        };
        if flag == 0x32 {
            let to = link_target(base, target.as_str());
            sink.symlink(path.as_str(), to.as_str())
        } else {
            // A hard link points at another member of this same archive, so it
            // resolves like a symlink to that path under the payload root.
            match join_safe(base, target.as_str()) {
                Some(to) => sink.symlink(path.as_str(), to.as_str()),
                None => Ok(()),
            }
        }
    } else if flag == 0x30 || flag == 0 || flag == 0x37 {
        let bits: usize = match field_octal(vstd::slice::slice_subrange(header, 100, 108)) {
            Some(m) => m,
            None => 0x1a4,
        };
        let mode: u32 = (bits as u32) & 0xfff;
        match account(out, data.len(), &*sink) {
            Ok(_) => {},
            Err(e) => {
                return Err(e);
            },
        }
        sink.file(path.as_str(), copy_of(data), mode)
    } else {
        // Character/block devices, FIFOs, and anything unknown.
        Ok(())
    }
}

/// Unpack every member of the archive in `bytes` under `base`.
pub fn unpack<S: Sink>(bytes: &[u8], base: &str, sink: &mut S, out: &mut Unpacked) -> (r: Result<
    (),
    PkgError,
>)
    ensures
        followed(
            *old(sink),
            *old(out),
            *final(sink),
            *final(out),
            r,
            untar(bytes@, base@, old(out).limit, progress(*old(sink), *old(out))),
        ),
{
    let mut pos: usize = 0;
    // Set by a preceding GNU `L`/`K` block or pax `x` record, consumed by the
    // member that follows.
    let mut long_name: Option<String> = None;
    let mut long_link: Option<String> = None;
    let mut saw_member: bool = false;
    let ghost whole = untar(bytes@, base@, out.limit, progress(*sink, *out));

    loop
        invariant
            whole == untar(bytes@, base@, old(out).limit, progress(*old(sink), *old(out))),
            whole == tar_run(
                bytes@,
                base@,
                old(out).limit,
                pos as int,
                opt_text(long_name),
                opt_text(long_link),
                saw_member,
                progress(*sink, *out),
            ),
            out.same_job(*old(out)),
            old(sink).takes_all() ==> sink.takes_all(),
        decreases bytes.len() + 512 - pos,
    {
        let header = match span_of(bytes, pos, BLOCK) {
            Some(h) => h,
            None => {
                return finish(saw_member, "no readable members");
            },
        };
        // A block of zeroes is the end-of-archive marker (there are two, but
        // one is enough to stop on).
        if is_blank(header) {
            return finish(saw_member, "no readable members");
        }
        let size = match field_size(header) {
            Some(n) => n,
            None => {
                return finish(saw_member, "unreadable member size");
            },
        };
        let start: usize = pos + BLOCK;
        let data = match span_of(bytes, start, size) {
            Some(d) => d,
            None => {
                warn(out, "tar ends mid-member; analysed what was readable".to_owned(), &*sink);
                return finish(saw_member, "no readable members");
            },
        };
        saw_member = true;
        let flag = header[156];
        if flag == 0x4c {
            // GNU long name / long link: the *next* member's name is this
            // member's body.
            long_name = Some(cstr(data));
        } else if flag == 0x4b {
            long_link = Some(cstr(data));
        } else if flag == 0x78 || flag == 0x58 {
            match pax_field(data, "path") {
                Some(p) => {
                    long_name = Some(p);
                },
                None => {},
            }
            match pax_field(data, "linkpath") {
                Some(p) => {
                    long_link = Some(p);
                },
                None => {},
            }
        } else if flag == 0x67 {
        } else {
            let name = match long_name.take() {
                Some(n) => n,
                None => ustar_name(header),
            };
            let link = long_link.take();
            proof {
                let here = progress(*sink, *out);
                let run = place(
                    header@,
                    data@,
                    base@,
                    old(out).limit,
                    name@,
                    opt_text(link),
                    here,
                );
                lemma_tar_run_sound(
                    Seq::empty(),
                    bytes@,
                    base@,
                    old(out).limit,
                    padded(start + size),
                    None,
                    None,
                    true,
                    run.at,
                );
            }
            match place_member(header, data, base, name.as_str(), link, sink, out) {
                Ok(_) => {},
                Err(e) => {
                    return Err(e);
                },
            }
        }
        // Members are padded out to a block boundary.
        let end: usize = start + size;
        let pad: usize = (BLOCK - end % BLOCK) % BLOCK;
        match end.checked_add(pad) {
            Some(next) => {
                pos = next;
            },
            None => {
                assert(tar_run(
                    bytes@,
                    base@,
                    out.limit,
                    padded(end as int),
                    opt_text(long_name),
                    opt_text(long_link),
                    true,
                    progress(*sink, *out),
                ) == finished(true, progress(*sink, *out), "no readable members"@));
                return finish(saw_member, "no readable members");
            },
        }
    }
}

/// What an ordinary member emits is sound.
proof fn lemma_place_sound(
    log: Seq<EntryView>,
    header: Seq<u8>,
    data: Seq<u8>,
    base: Seq<char>,
    limit: u64,
    name: Seq<char>,
    link: Option<Seq<char>>,
    p: Progress,
)
    ensures
        sound(log, base, limit, p, place(header, data, base, limit, name, link, p)),
{
    lemma_safe_join_stays_within(base, name);
    lemma_sound_done(log, base, limit, p);
    match safe_join(base, name) {
        None => {
            lemma_sound_warning(
                log,
                base,
                limit,
                p,
                "skipped tar entry with an unsafe path: "@ + name,
            );
        },
        Some(path) => {
            lemma_rerooted(base, member_link(header, link));
            lemma_safe_join_stays_within(base, member_link(header, link));
            lemma_sound_entry(log, base, limit, p, EntryView::Dir(path));
            lemma_sound_entry(
                log,
                base,
                limit,
                p,
                EntryView::Symlink { path, target: rerooted(base, member_link(header, link)) },
            );
            match safe_join(base, member_link(header, link)) {
                Some(target) => lemma_sound_entry(
                    log,
                    base,
                    limit,
                    p,
                    EntryView::Symlink { path, target },
                ),
                None => {},
            }
            lemma_sound_file(log, base, limit, p, path, data, member_mode(header));
        },
    }
}

proof fn lemma_tar_run_sound(
    log: Seq<EntryView>,
    b: Seq<u8>,
    base: Seq<char>,
    limit: u64,
    pos: int,
    name: Option<Seq<char>>,
    link: Option<Seq<char>>,
    saw: bool,
    p: Progress,
)
    ensures
        sound(log, base, limit, p, tar_run(b, base, limit, pos, name, link, saw, p)),
    decreases b.len() + 512 - pos,
{
    let whole = tar_run(b, base, limit, pos, name, link, saw, p);
    lemma_sound_done(log, base, limit, p);
    lemma_sound_warning(
        log,
        base,
        limit,
        p,
        "tar ends mid-member; analysed what was readable"@,
    );
    if 0 <= pos && pos + 512 <= b.len() {
        let header = b.subrange(pos, pos + 512);
        if !(forall|i: int| 0 <= i < 512 ==> header[i] == 0) {
            if let Some(size) = member_size(header) {
                let start = pos + 512;
                if start + size <= b.len() {
                    let data = b.subrange(start, start + size);
                    let step = member(header, data, base, limit, name, link, p);
                    let n = match name {
                        Some(n) => n,
                        None => header_name(header),
                    };
                    lemma_place_sound(log, header, data, base, limit, n, link, p);
                    if step.run.result is Ok {
                        lemma_tar_run_sound(
                            log,
                            b,
                            base,
                            limit,
                            padded(start + size),
                            step.name,
                            step.link,
                            true,
                            step.run.at,
                        );
                        lemma_sound_trans(log, base, limit, p, step.run, whole);
                    }
                }
            }
        }
    }
}

/// Whatever the archive holds and however it ends, unpacking it emits only entries within
/// the base and within the limit, counts exactly what it emits, and loses nothing that was
/// there before.
pub proof fn lemma_untar_sound(log: Seq<EntryView>, b: Seq<u8>, base: Seq<char>, limit: u64, p: Progress)
    ensures
        sound(log, base, limit, p, untar(b, base, limit, p)),
{
    lemma_tar_run_sound(log, b, base, limit, 0, None, None, false, p);
}

} // verus!
