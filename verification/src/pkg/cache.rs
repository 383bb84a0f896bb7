//! Expand a package once and keep it, so that the rest can walk it.
//!
//! An AppImage is a single file: there is no installed directory to analyse,
//! and the application inside it is compressed, so nothing short of expanding
//! it reveals which framework it bundles. It is therefore unpacked to a cache
//! directory the first time it is seen, and every later scan reuses that.
//!
//! The cache key covers the file's identity *and* its size and mtime, so a
//! replaced or updated package expands again rather than being read as its
//! predecessor. Extraction goes to a `.partial` directory that is renamed into
//! place only on success, so an interrupted run can never leave a half-tree
//! that looks complete.

use vstd::prelude::*;
use vstd::utf8::*;

use crate::num::{
    decimal, decimal_of, digit, hex, hex_of, lemma_numeral_reads_back, zero_padded, zero_padded_of,
};
use crate::path::{file_name, file_name_of, name_stem, name_stem_of, push_of, pushed};
use crate::pkg::{identified, sniff, Fault, Format, PkgError};
use crate::text::{chars_of, concat3, opt_text};

verus! {

/// Where the payloads of packages are kept below a cache directory.
pub open spec fn packages_in(cache_dir: Seq<char>) -> Seq<char> {
    pushed(cache_dir, "achilles/packages"@)
}

/// Where expanded packages live below a cache directory.
pub fn default_cache_root(cache_dir: &Option<String>) -> (r: Option<String>)
    ensures
        opt_text(r) == match *cache_dir {
            Some(d) => Some(packages_in(d@)),
            None => None,
        },
{
    match cache_dir {
        Some(d) => Some(push_of(d.as_str(), "achilles/packages")),
        None => None,
    }
}

/// Whether a format is expanded to a directory rather than read in place.
pub open spec fn expands(format: Option<Format>) -> bool {
    format == Some(Format::AppImage) || format == Some(Format::Snap)
}

/// The last component of a path, or nothing.
pub open spec fn name_or_empty(path: Seq<char>) -> Seq<char> {
    match file_name(path) {
        Some(n) => n,
        None => Seq::empty(),
    }
}

/// True for a package that is expanded to a directory rather than read in
/// place — i.e. one that discovery may hand over as a single file. `prefix` is enough of
/// the file to tell its format.
pub fn is_expandable(prefix: &[u8], path: &str) -> (r: bool)
    ensures
        r == expands(identified(prefix@, name_or_empty(path@))),
{
    let name = match file_name_of(path) {
        Some(n) => n,
        None => String::new(),
    };
    assert(name@ =~= name_or_empty(path@));
    match sniff(prefix, name.as_str()) {
        Some(Format::AppImage) => true,
        Some(Format::Snap) => true,
        _ => false,
    }
}

/// The hash of the first `n` bytes.
pub open spec fn fnv_of(b: Seq<u8>, n: nat) -> u64
    decreases n,
{
    if n == 0 || n > b.len() {
        0xcbf2_9ce4_8422_2325
    } else {
        (((fnv_of(b, (n - 1) as nat) ^ (b[n - 1] as u64)) as nat * 0x100_0000_01b3)
            % 0x1_0000_0000_0000_0000) as u64
    }
}

/// FNV-1a. Not a security boundary — it only has to separate two packages that share a
/// name, size, and mtime.
pub fn fnv1a(bytes: &[u8]) -> (r: u64)
    ensures
        r == fnv_of(bytes@, bytes@.len()),
{
    let mut hash: u64 = 0xcbf2_9ce4_8422_2325;
    let mut i: usize = 0;
    while i < bytes.len()
        invariant
            i <= bytes@.len(),
            hash == fnv_of(bytes@, i as nat),
        decreases bytes.len() - i,
    {
        let mixed: u64 = hash ^ (bytes[i] as u64);
        hash = mixed.wrapping_mul(0x100_0000_01b3);
        i = i + 1;
    }
    hash
}

/// Whether a character is kept in a cache key.
pub open spec fn is_kept(c: char) -> bool {
    ||| 'a' <= c <= 'z'
    ||| 'A' <= c <= 'Z'
    ||| '0' <= c <= '9'
    ||| c == '-'
    ||| c == '_'
    ||| c == '.'
}

/// The first characters of `s` that are kept, at most `room` of them.
pub open spec fn kept_chars(s: Seq<char>, room: nat) -> Seq<char>
    decreases s.len(),
{
    if s.len() == 0 || room == 0 {
        Seq::empty()
    } else if is_kept(s[0]) {
        seq![s[0]] + kept_chars(s.skip(1), (room - 1) as nat)
    } else {
        kept_chars(s.skip(1), room)
    }
}

/// How much of a file's name a key keeps.
pub const KEY_STEM: usize = 48;

/// What a key keeps of a file's name: its stem, or a stand-in where it has none.
pub open spec fn key_stem(file: Seq<char>) -> Seq<char> {
    kept_chars(
        match file_name(file) {
            Some(n) => name_stem(n),
            None => "package"@,
        },
        KEY_STEM as nat,
    )
}

/// The directory name of one version of one file.
pub open spec fn keyed(file: Seq<char>, size: u64, mtime: u64) -> Seq<char> {
    key_stem(file) + "-"@ + zero_padded(
        hex(fnv_of(encode_utf8(file), encode_utf8(file).len()) as nat),
        16,
    ) + "-"@ + hex(size as nat) + "-"@ + hex(mtime as nat)
}

fn kept_chars_of(x: &Vec<char>, room: usize) -> (r: String)
    ensures
        r@ == kept_chars(x@, room as nat),
{
    let mut out: String = String::new();
    let mut left: usize = room;
    let mut i: usize = 0;
    assert(x@.skip(0) =~= x@);
    assert(out@ + kept_chars(x@, room as nat) =~= kept_chars(x@, room as nat));
    while i < x.len() && left > 0
        invariant
            i <= x@.len(),
            out@ + kept_chars(x@.skip(i as int), left as nat) == kept_chars(x@, room as nat),
        decreases x.len() - i,
    {
        let c = x[i];
        assert(x@.skip(i as int).skip(1) =~= x@.skip(i + 1));
        assert(x@.skip(i as int)[0] == c);
        if ('a' <= c && c <= 'z') || ('A' <= c && c <= 'Z') || ('0' <= c && c <= '9') || c == '-'
            || c == '_' || c == '.' {
            let ghost before = out@;
            out.push(c);
            left = left - 1;
            assert(before + (seq![c] + kept_chars(x@.skip(i + 1), left as nat)) =~= out@
                + kept_chars(x@.skip(i + 1), left as nat));
        }
        i = i + 1;
    }
    assert(out@ + Seq::<char>::empty() =~= out@);
    out
}

/// A directory name that is stable for one version of one file, and different
/// for any other. The stem keeps the cache browsable by a human; the rest
/// distinguishes same-named packages and catches in-place updates.
pub fn cache_key(file: &str, size: u64, mtime: u64) -> (r: String)
    ensures
        r@ == keyed(file@, size, mtime),
{
    let stem = match file_name_of(file) {
        Some(n) => name_stem_of(n.as_str()),
        None => "package".to_owned(),
    };
    let mut out = kept_chars_of(&chars_of(stem.as_str()), KEY_STEM);
    out.append("-");
    out.append(zero_padded_of(hex_of(fnv1a(file.as_bytes())).as_str(), 16).as_str());
    out.append("-");
    out.append(hex_of(size).as_str());
    out.append("-");
    out.append(hex_of(mtime).as_str());
    out
}

/// Where a package is unpacked before it is published as `key`.
pub open spec fn partial_of(cache_root: Seq<char>, key: Seq<char>, process: u32) -> Seq<char> {
    pushed(cache_root, key + ".partial-"@ + decimal(process as nat))
}

/// Where a package is unpacked before it is published as `key`: beside the destination, so
/// that the rename stays within one filesystem.
pub fn partial_path(cache_root: &str, key: &str, process: u32) -> (r: String)
    ensures
        r@ == partial_of(cache_root@, key@, process),
{
    push_of(
        cache_root,
        concat3(key, ".partial-", decimal_of(process as u64).as_str()).as_str(),
    )
}

/// How far an expansion has come.
#[derive(Debug, Clone, Copy, PartialEq, Eq, Structural)]
pub enum Stage {
    /// It asks whether the destination is there already.
    Looking,
    /// The package is being read.
    Reading,
    /// The package is being unpacked to the partial directory.
    Unpacking,
    /// The partial directory is being renamed to the destination.
    Renaming,
    Over,
}

/// What an expansion is told.
#[derive(Debug)]
pub enum Seen {
    /// Whether the destination is a directory.
    Destination(bool),
    /// The package's bytes, or why they cannot be read.
    Read(Result<Vec<u8>, String>),
    /// Whether the package was unpacked.
    Unpacked(Result<(), PkgError>),
    /// Why the rename failed, if it did, and whether the destination is a directory then.
    Renamed(Option<String>, bool),
}

/// What an expansion asks for.
#[derive(Debug)]
pub enum Todo {
    /// Read the package.
    Read,
    /// Clear the partial directory and unpack this to it.
    Unpack(Vec<u8>, Format),
    /// Rename the partial directory to the destination.
    Rename,
    /// Hand this back; before that, where the flag says so, remove the partial directory.
    Finish(bool, Result<String, PkgError>),
}

/// The model of a [`Todo`].
pub enum TodoView {
    Read,
    Unpack(Seq<u8>, Format),
    Rename,
    Finish(bool, Result<Seq<char>, Fault>),
}

impl View for Todo {
    type V = TodoView;

    open spec fn view(&self) -> TodoView {
        match *self {
            Todo::Read => TodoView::Read,
            Todo::Unpack(bytes, format) => TodoView::Unpack(bytes@, format),
            Todo::Rename => TodoView::Rename,
            Todo::Finish(clear, result) => TodoView::Finish(
                clear,
                match result {
                    Ok(p) => Ok(p@),
                    Err(e) => Err(e@),
                },
            ),
        }
    }
}

/// A package on its way into the cache.
#[derive(Debug)]
pub struct Expansion {
    pub file: String,
    /// Where its payload will stand.
    pub dest: String,
    /// Where it is unpacked before that.
    pub partial: String,
    pub stage: Stage,
}

/// The stage at which something is seen.
pub open spec fn seen_at(seen: Seen) -> Stage {
    match seen {
        Seen::Destination(_) => Stage::Looking,
        Seen::Read(_) => Stage::Reading,
        Seen::Unpacked(_) => Stage::Unpacking,
        Seen::Renamed(_, _) => Stage::Renaming,
    }
}

/// What an expansion of `file` to `dest` asks for next. A package already expanded is
/// returned untouched. Where the rename fails because another process published the same
/// package meanwhile, theirs is as good.
pub open spec fn next_step(file: Seq<char>, dest: Seq<char>, seen: Seen) -> TodoView {
    match seen {
        Seen::Destination(there) => if there {
            TodoView::Finish(false, Ok(dest))
        } else {
            TodoView::Read
        },
        Seen::Read(Err(why)) => TodoView::Finish(false, Err(Fault::Io(why@))),
        Seen::Read(Ok(bytes)) => match identified(bytes@, name_or_empty(file)) {
            Some(format) => TodoView::Unpack(bytes@, format),
            None => TodoView::Finish(false, Err(Fault::Unrecognised)),
        },
        Seen::Unpacked(Ok(_)) => TodoView::Rename,
        Seen::Unpacked(Err(e)) => TodoView::Finish(true, Err(e@)),
        Seen::Renamed(None, _) => TodoView::Finish(false, Ok(dest)),
        Seen::Renamed(Some(why), there) => if there {
            TodoView::Finish(true, Ok(dest))
        } else {
            TodoView::Finish(true, Err(Fault::Io(why@)))
        },
    }
}

/// The stage that a request leads to.
pub open spec fn stage_after(todo: TodoView) -> Stage {
    match todo {
        TodoView::Read => Stage::Reading,
        TodoView::Unpack(_, _) => Stage::Unpacking,
        TodoView::Rename => Stage::Renaming,
        TodoView::Finish(_, _) => Stage::Over,
    }
}

/// Begins to expand `file` into the cache at `cache_root`. `metadata` is its size and the
/// time of its last change in seconds, or why they cannot be read.
pub fn extract_cached_in(
    file: &str,
    metadata: Result<(u64, u64), String>,
    cache_root: &str,
    process: u32,
) -> (r: Result<Expansion, PkgError>)
    ensures
        match (metadata, r) {
            (Ok((size, mtime)), Ok(x)) => {
                &&& x.file@ == file@
                &&& x.dest@ == pushed(cache_root@, keyed(file@, size, mtime))
                &&& x.partial@ == partial_of(cache_root@, keyed(file@, size, mtime), process)
                &&& x.stage == Stage::Looking
            },
            (Err(why), Err(e)) => e@ == Fault::Io(why@),
            _ => false,
        },
{
    match metadata {
        Ok((size, mtime)) => {
            let key = cache_key(file, size, mtime);
            Ok(
                Expansion {
                    file: file.to_owned(),
                    dest: push_of(cache_root, key.as_str()),
                    partial: partial_path(cache_root, key.as_str(), process),
                    stage: Stage::Looking,
                },
            )
        },
        Err(why) => Err(PkgError::Io(why)),
    }
}

/// Begins to expand `file` into the shared cache below `cache_dir`.
pub fn extract_cached(
    file: &str,
    metadata: Result<(u64, u64), String>,
    cache_dir: &Option<String>,
    process: u32,
) -> (r: Result<Expansion, PkgError>)
    ensures
        match (cache_dir, metadata, r) {
            (Some(d), Ok((size, mtime)), Ok(x)) => {
                let root = packages_in(d@);
                &&& x.file@ == file@
                &&& x.dest@ == pushed(root, keyed(file@, size, mtime))
                &&& x.partial@ == partial_of(root, keyed(file@, size, mtime), process)
                &&& x.stage == Stage::Looking
            },
            (Some(_), Err(why), Err(e)) => e@ == Fault::Io(why@),
            (None, _, Err(e)) => e@ == Fault::Io("no cache directory available on this system"@),
            _ => false,
        },
{
    match default_cache_root(cache_dir) {
        Some(root) => extract_cached_in(file, metadata, root.as_str(), process),
        None => Err(PkgError::Io("no cache directory available on this system".to_owned())),
    }
}

impl Expansion {
    /// Takes the next step on what is seen.
    pub fn step(&mut self, seen: Seen) -> (r: Todo)
        requires
            old(self).stage == seen_at(seen),
        ensures
            r@ == next_step(old(self).file@, old(self).dest@, seen),
            final(self).stage == stage_after(r@),
            final(self).file == old(self).file,
            final(self).dest == old(self).dest,
            final(self).partial == old(self).partial,
    {
        let todo = match seen {
            Seen::Destination(there) => if there {
                Todo::Finish(false, Ok(self.dest.clone()))
            } else {
                Todo::Read
            },
            Seen::Read(Err(why)) => Todo::Finish(false, Err(PkgError::Io(why))),
            Seen::Read(Ok(bytes)) => {
                let name = match file_name_of(self.file.as_str()) {
                    Some(n) => n,
                    None => String::new(),
                };
                assert(name@ =~= name_or_empty(self.file@));
                match sniff(bytes.as_slice(), name.as_str()) {
                    Some(format) => Todo::Unpack(bytes, format),
                    None => Todo::Finish(false, Err(PkgError::Unrecognised)),
                }
            },
            Seen::Unpacked(Ok(_)) => Todo::Rename,
            Seen::Unpacked(Err(e)) => Todo::Finish(true, Err(e)),
            Seen::Renamed(None, _) => Todo::Finish(false, Ok(self.dest.clone())),
            Seen::Renamed(Some(why), there) => if there {
                Todo::Finish(true, Ok(self.dest.clone()))
            } else {
                Todo::Finish(true, Err(PkgError::Io(why)))
            },
        };
        self.stage = match &todo {
            Todo::Read => Stage::Reading,
            Todo::Unpack(_, _) => Stage::Unpacking,
            Todo::Rename => Stage::Renaming,
            Todo::Finish(_, _) => Stage::Over,
        };
        todo
    }
}

/// A package already expanded is reused: nothing is read, written or removed.
pub proof fn lemma_expanded_is_reused(file: Seq<char>, dest: Seq<char>)
    ensures
        next_step(file, dest, Seen::Destination(true)) == TodoView::Finish(false, Ok(dest)),
{
}

/// An interrupted run can never leave a half-tree that looks complete: the partial directory
/// becomes the destination only once the whole package was unpacked to it, and it is another
/// directory than that. Where an expansion fails after it began to unpack, nothing is left
/// behind; where it succeeds, the destination is handed back.
pub proof fn lemma_published_whole_or_not_at_all(
    file: Seq<char>,
    cache_root: Seq<char>,
    key: Seq<char>,
    process: u32,
    seen: Seen,
)
    ensures
        ({
            let dest = pushed(cache_root, key);
            let todo = next_step(file, dest, seen);
            &&& partial_of(cache_root, key, process) != dest
            &&& todo is Rename ==> (seen matches Seen::Unpacked(done) && done is Ok)
            &&& (todo matches TodoView::Finish(clear, Err(_)) ==> clear == (seen_at(seen)
                == Stage::Unpacking || seen_at(seen) == Stage::Renaming))
            &&& (todo matches TodoView::Finish(_, Ok(p)) ==> p == dest)
        }),
{
    reveal_strlit(".partial-");
    assert(partial_of(cache_root, key, process).len() > pushed(cache_root, key).len());
}

proof fn lemma_hex_has_no_dash(n: nat)
    ensures
        !hex(n).contains('-'),
        hex(n).len() >= 1,
{
    lemma_numeral_reads_back(n, 16);
    assert forall|i: int| 0 <= i < hex(n).len() implies hex(n)[i] != '-' by {
        assert(digit(hex(n)[i], 16) is Some);
    }
}

/// Two texts that end in a dash and a word without one are equal only if the words are,
/// and what stands before them.
proof fn lemma_last_word(a: Seq<char>, x: Seq<char>, b: Seq<char>, y: Seq<char>)
    requires
        !x.contains('-'),
        !y.contains('-'),
        a + "-"@ + x == b + "-"@ + y,
    ensures
        x == y,
        a == b,
{
    reveal_strlit("-");
    let s = a + "-"@ + x;
    let t = b + "-"@ + y;
    let m = a.len() as int;
    let n = b.len() as int;
    assert("-"@.len() == 1 && "-"@[0] == '-');
    assert(s == t && s.len() == m + 1 + x.len() && t.len() == n + 1 + y.len());
    assert(s[m] == '-' && t[n] == '-');
    if m < n {
        assert(x[n - m - 1] == s[n]);
        assert(x.contains('-'));
    }
    if n < m {
        assert(y[m - n - 1] == t[m]);
        assert(y.contains('-'));
    }
    assert(x =~= s.skip(a.len() as int + 1));
    assert(y =~= t.skip(b.len() as int + 1));
    assert(a =~= s.take(a.len() as int));
    assert(b =~= t.take(b.len() as int));
}

/// A changed file expands to a new directory: no two versions of one file, told apart by
/// size or by modification time, share a key.
pub proof fn lemma_changed_file_has_a_new_key(
    file: Seq<char>,
    size: u64,
    mtime: u64,
    new_size: u64,
    new_mtime: u64,
)
    ensures
        keyed(file, size, mtime) == keyed(file, new_size, new_mtime) <==> size == new_size
            && mtime == new_mtime,
{
    if keyed(file, size, mtime) == keyed(file, new_size, new_mtime) {
        let head = key_stem(file) + "-"@ + zero_padded(
            hex(fnv_of(encode_utf8(file), encode_utf8(file).len()) as nat),
            16,
        );
        lemma_hex_has_no_dash(size as nat);
        lemma_hex_has_no_dash(mtime as nat);
        lemma_hex_has_no_dash(new_size as nat);
        lemma_hex_has_no_dash(new_mtime as nat);
        lemma_last_word(
            head + "-"@ + hex(size as nat),
            hex(mtime as nat),
            head + "-"@ + hex(new_size as nat),
            hex(new_mtime as nat),
        );
        lemma_last_word(head, hex(size as nat), head, hex(new_size as nat));
        lemma_numeral_reads_back(size as nat, 16);
        lemma_numeral_reads_back(new_size as nat, 16);
        lemma_numeral_reads_back(mtime as nat, 16);
        lemma_numeral_reads_back(new_mtime as nat, 16);
    }
}

} // verus!
