//! Work out *what* was handed over: which OS's layout the uploaded tree follows,
//! where the application root sits inside it, and which file is the primary
//! executable.
//!
//! Without discovery there is only a directory the user dropped, and it may be a
//! macOS `.app`, a Windows install folder, or a Linux app tree. So the same three
//! facts are inferred from the tree's own shape.

use vstd::prelude::*;
use vstd::utf8::*;

use crate::bytes::{begins, begins_with, utf8_text};
use crate::detect::app::{home_of, AppView, DiscoveredApp};
use crate::path::{
    file_name, file_name_of, name_stem, name_stem_of, parent_of, push_of, pushed,
};
use crate::text::{
    chars_of, closes, contains, ends_with, holds, lower, lower_of, opens, opt_text, or_opt, or_text,
    same, slice_of, split, split_of, starts_with, text_of, texts, trim, trim_of, CharClass,
};
use crate::vfs::{
    contents, dir_at, file_at, listing, MemTree, Node, NodeView, Platform, Tree,
};

verus! {

/// How far below the upload root to look for the application. Deep enough for
/// a zip that wraps the app in a folder or two, shallow enough that we never walk
/// a whole Electron `resources/` tree.
pub const MAX_DEPTH: u32 = 4;

/// Whether the file at `p` starts with `magic`.
pub open spec fn magic_at(t: Tree, p: Seq<char>, magic: Seq<u8>) -> bool {
    match contents(t, p) {
        Some(b) => begins(b, magic),
        None => false,
    }
}

/// Whether an entry of a directory is an application bundle.
pub open spec fn is_bundle(t: Tree, dir: Seq<char>, name: Seq<char>) -> bool {
    let p = pushed(dir, name);
    dir_at(t, p) && (closes(lower(name), ".app"@) || file_at(t, pushed(p, "Contents/Info.plist"@)))
}

/// Whether an entry of a directory is a Windows binary.
pub open spec fn is_pe(t: Tree, dir: Seq<char>, name: Seq<char>) -> bool {
    let p = pushed(dir, name);
    !dir_at(t, p) && (closes(lower(name), ".exe"@) || closes(lower(name), ".dll"@) || magic_at(
        t,
        p,
        seq![0x4du8, 0x5a],
    ))
}

/// The directories among the first `n` entries of a directory.
pub open spec fn subdirs_of(t: Tree, dir: Seq<char>, names: Seq<Seq<char>>, n: nat) -> Seq<Seq<char>>
    decreases n,
{
    if n == 0 || n > names.len() {
        Seq::empty()
    } else {
        let rest = subdirs_of(t, dir, names, (n - 1) as nat);
        if dir_at(t, pushed(dir, names[n - 1])) {
            rest.push(pushed(dir, names[n - 1]))
        } else {
            rest
        }
    }
}

/// The directories directly below the first `n` of `dirs`, in order.
pub open spec fn below(t: Tree, dirs: Seq<Seq<char>>, n: nat) -> Seq<Seq<char>>
    decreases n,
{
    if n == 0 || n > dirs.len() {
        Seq::empty()
    } else {
        below(t, dirs, (n - 1) as nat) + match listing(t, dirs[n - 1]) {
            Some(names) => subdirs_of(t, dirs[n - 1], names, names.len()),
            None => Seq::empty(),
        }
    }
}

/// Whether one of `dirs` holds a bundle.
pub open spec fn any_bundle(t: Tree, dirs: Seq<Seq<char>>) -> bool {
    exists|i: int| 0 <= i < dirs.len() && bundle_in(t, #[trigger] dirs[i])
}

/// Whether a directory holds a bundle.
pub open spec fn bundle_in(t: Tree, dir: Seq<char>) -> bool {
    listing(t, dir) is Some && exists|j: int|
        0 <= j < listing(t, dir)->0.len() && is_bundle(t, dir, #[trigger] (listing(t, dir)->0)[j])
}

/// Whether a directory holds a Windows binary.
pub open spec fn pe_in(t: Tree, dir: Seq<char>) -> bool {
    listing(t, dir) is Some && exists|j: int|
        0 <= j < listing(t, dir)->0.len() && is_pe(t, dir, #[trigger] (listing(t, dir)->0)[j])
}

/// Whether one of `dirs` holds a Windows binary.
pub open spec fn any_pe(t: Tree, dirs: Seq<Seq<char>>) -> bool {
    exists|i: int| 0 <= i < dirs.len() && pe_in(t, #[trigger] dirs[i])
}

/// Whether a bundle stands in one of `dirs` or up to `left` levels below.
pub open spec fn bundle_within(t: Tree, dirs: Seq<Seq<char>>, left: nat) -> bool
    decreases left,
{
    any_bundle(t, dirs) || (left > 0 && bundle_within(
        t,
        below(t, dirs, dirs.len()),
        (left - 1) as nat,
    ))
}

/// Whether a Windows binary stands in one of `dirs` or up to `left` levels below.
pub open spec fn pe_within(t: Tree, dirs: Seq<Seq<char>>, left: nat) -> bool
    decreases left,
{
    any_pe(t, dirs) || (left > 0 && pe_within(t, below(t, dirs, dirs.len()), (left - 1) as nat))
}

/// The platform whose application layout the tree under `base` follows. One strong
/// hit decides it; Linux is the fallback.
pub open spec fn sniffed_platform(t: Tree, base: Seq<char>) -> Platform {
    if file_at(t, pushed(base, "Contents/Info.plist"@)) || bundle_within(
        t,
        seq![base],
        MAX_DEPTH as nat,
    ) {
        Platform::Macos
    } else if pe_within(t, seq![base], MAX_DEPTH as nat) {
        Platform::Windows
    } else {
        Platform::Linux
    }
}

fn has_pe_magic(tree: &MemTree, p: &str) -> (r: bool)
    ensures
        r == magic_at(tree@, p@, seq![0x4du8, 0x5a]),
{
    let magic: [u8; 2] = [0x4d, 0x5a];
    assert(magic@ =~= seq![0x4du8, 0x5a]);
    match tree.read(p) {
        Some(b) => begins_with(b, magic.as_slice()),
        None => false,
    }
}

fn has_elf_magic(tree: &MemTree, p: &str) -> (r: bool)
    ensures
        r == magic_at(tree@, p@, seq![0x7fu8, 0x45, 0x4c, 0x46]),
{
    let magic: [u8; 4] = [0x7f, 0x45, 0x4c, 0x46];
    assert(magic@ =~= seq![0x7fu8, 0x45, 0x4c, 0x46]);
    match tree.read(p) {
        Some(b) => begins_with(b, magic.as_slice()),
        None => false,
    }
}

fn is_bundle_of(tree: &MemTree, dir: &str, name: &str) -> (r: bool)
    ensures
        r == is_bundle(tree@, dir@, name@),
{
    let p = push_of(dir, name);
    tree.is_dir(p.as_str()) && (ends_with(lower_of(name).as_str(), ".app") || tree.is_file(
        push_of(p.as_str(), "Contents/Info.plist").as_str(),
    ))
}

fn is_pe_of(tree: &MemTree, dir: &str, name: &str) -> (r: bool)
    ensures
        r == is_pe(tree@, dir@, name@),
{
    let p = push_of(dir, name);
    let low = lower_of(name);
    !tree.is_dir(p.as_str()) && (ends_with(low.as_str(), ".exe") || ends_with(low.as_str(), ".dll")
        || has_pe_magic(tree, p.as_str()))
}

fn subdirs(tree: &MemTree, dir: &str, names: &Vec<String>) -> (r: Vec<String>)
    ensures
        texts(r@) == subdirs_of(tree@, dir@, texts(names@), names@.len()),
{
    let ghost all = texts(names@);
    let mut out: Vec<String> = Vec::new();
    let mut i: usize = 0;
    assert(texts(out@) =~= Seq::empty());
    while i < names.len()
        invariant
            i <= names@.len(),
            all == texts(names@),
            texts(out@) == subdirs_of(tree@, dir@, all, i as nat),
        decreases names.len() - i,
    {
        assert(all[i as int] == names@[i as int]@);
        let p = push_of(dir, names[i].as_str());
        if tree.is_dir(p.as_str()) {
            let ghost before = texts(out@);
            out.push(p);
            assert(texts(out@) =~= before.push(p@));
        }
        i = i + 1;
    }
    out
}

fn level_below(tree: &MemTree, dirs: &Vec<String>) -> (r: Vec<String>)
    ensures
        texts(r@) == below(tree@, texts(dirs@), dirs@.len()),
{
    let ghost all = texts(dirs@);
    let mut out: Vec<String> = Vec::new();
    let mut i: usize = 0;
    assert(texts(out@) =~= Seq::empty());
    while i < dirs.len()
        invariant
            i <= dirs@.len(),
            all == texts(dirs@),
            texts(out@) == below(tree@, all, i as nat),
        decreases dirs.len() - i,
    {
        assert(all[i as int] == dirs@[i as int]@);
        let ghost before = texts(out@);
        match tree.read_dir(dirs[i].as_str()) {
            Some(names) => {
                let mut more = subdirs(tree, dirs[i].as_str(), &names);
                let ghost extra = texts(more@);
                out.append(&mut more);
                assert(texts(out@) =~= before + extra);
            },
            None => {
                assert(before + Seq::<Seq<char>>::empty() =~= before);
            },
        }
        i = i + 1;
    }
    out
}

/// The first bundle among the entries of a directory, from `j` on.
pub open spec fn first_entry(t: Tree, dir: Seq<char>, names: Seq<Seq<char>>, j: int) -> Option<
    Seq<char>,
>
    decreases names.len() - j,
{
    if j < 0 || j >= names.len() {
        None
    } else if is_bundle(t, dir, names[j]) {
        Some(pushed(dir, names[j]))
    } else {
        first_entry(t, dir, names, j + 1)
    }
}

/// The first bundle in one directory.
pub open spec fn first_in_dir(t: Tree, dir: Seq<char>) -> Option<Seq<char>> {
    match listing(t, dir) {
        Some(names) => first_entry(t, dir, names, 0),
        None => None,
    }
}

/// The first bundle in the directories from `i` on.
pub open spec fn first_in_dirs(t: Tree, dirs: Seq<Seq<char>>, i: int) -> Option<Seq<char>>
    decreases dirs.len() - i,
{
    if i < 0 || i >= dirs.len() {
        None
    } else {
        match first_in_dir(t, dirs[i]) {
            Some(p) => Some(p),
            None => first_in_dirs(t, dirs, i + 1),
        }
    }
}

/// The shallowest bundle in `dirs` or up to `left` levels below, the first of a level.
pub open spec fn first_bundle(t: Tree, dirs: Seq<Seq<char>>, left: nat) -> Option<Seq<char>>
    decreases left,
{
    match first_in_dirs(t, dirs, 0) {
        Some(p) => Some(p),
        None => if left > 0 {
            first_bundle(t, below(t, dirs, dirs.len()), (left - 1) as nat)
        } else {
            None
        },
    }
}

/// The `.app` bundle root within an upload. One made from *inside* the `.app` has
/// `Contents/` at its root.
pub open spec fn bundle_at(t: Tree, base: Seq<char>) -> Option<Seq<char>> {
    if dir_at(t, pushed(base, "Contents"@)) {
        Some(base)
    } else {
        first_bundle(t, seq![base], MAX_DEPTH as nat)
    }
}

proof fn lemma_first_entry(t: Tree, dir: Seq<char>, names: Seq<Seq<char>>, j: int)
    requires
        0 <= j <= names.len(),
    ensures
        first_entry(t, dir, names, j) is Some <==> exists|k: int|
            j <= k < names.len() && is_bundle(t, dir, #[trigger] names[k]),
    decreases names.len() - j,
{
    if j < names.len() {
        lemma_first_entry(t, dir, names, j + 1);
        if is_bundle(t, dir, names[j]) {
            assert(is_bundle(t, dir, names[j]));
        }
    }
}

proof fn lemma_first_in_dirs(t: Tree, dirs: Seq<Seq<char>>, i: int)
    requires
        0 <= i <= dirs.len(),
    ensures
        first_in_dirs(t, dirs, i) is Some <==> exists|k: int|
            i <= k < dirs.len() && bundle_in(t, #[trigger] dirs[k]),
    decreases dirs.len() - i,
{
    if i < dirs.len() {
        lemma_first_in_dirs(t, dirs, i + 1);
        match listing(t, dirs[i]) {
            Some(names) => lemma_first_entry(t, dirs[i], names, 0),
            None => {},
        }
        assert(first_in_dir(t, dirs[i]) is Some == bundle_in(t, dirs[i]));
    }
}

proof fn lemma_first_bundle(t: Tree, dirs: Seq<Seq<char>>, left: nat)
    ensures
        first_bundle(t, dirs, left) is Some <==> bundle_within(t, dirs, left),
    decreases left,
{
    lemma_first_in_dirs(t, dirs, 0);
    if left > 0 {
        lemma_first_bundle(t, below(t, dirs, dirs.len()), (left - 1) as nat);
    }
}

/// A tree that is taken for one of macOS has a bundle to be found in it, wherever what
/// holds a property list is itself a directory.
pub proof fn lemma_sniffed_bundle_is_found(t: Tree, base: Seq<char>)
    requires
        file_at(t, pushed(base, "Contents/Info.plist"@)) ==> dir_at(t, pushed(base, "Contents"@)),
        sniffed_platform(t, base) == Platform::Macos,
    ensures
        app_under(t, base, Platform::Macos) is Some,
{
    lemma_first_bundle(t, seq![base], MAX_DEPTH as nat);
}

fn first_in_dir_of(tree: &MemTree, dir: &str) -> (r: Option<String>)
    ensures
        opt_text(r) == first_in_dir(tree@, dir@),
        r is Some == bundle_in(tree@, dir@),
{
    let names = match tree.read_dir(dir) {
        Some(n) => n,
        None => {
            return None;
        },
    };
    let ghost all = texts(names@);
    let mut j: usize = 0;
    while j < names.len()
        invariant
            j <= names@.len(),
            all == texts(names@),
            listing(tree@, dir@) == Some(all),
            first_in_dir(tree@, dir@) == first_entry(tree@, dir@, all, j as int),
            forall|k: int| 0 <= k < j ==> !is_bundle(tree@, dir@, #[trigger] all[k]),
        decreases names.len() - j,
    {
        let name = names[j].as_str();
        assert(all[j as int] == name@);
        if is_bundle_of(tree, dir, name) {
            assert(is_bundle(tree@, dir@, (listing(tree@, dir@)->0)[j as int]));
            return Some(push_of(dir, name));
        }
        j = j + 1;
    }
    None
}

fn first_in_dirs_of(tree: &MemTree, dirs: &Vec<String>) -> (r: Option<String>)
    ensures
        opt_text(r) == first_in_dirs(tree@, texts(dirs@), 0),
        r is Some == any_bundle(tree@, texts(dirs@)),
{
    let ghost all = texts(dirs@);
    let mut i: usize = 0;
    while i < dirs.len()
        invariant
            i <= dirs@.len(),
            all == texts(dirs@),
            first_in_dirs(tree@, all, 0) == first_in_dirs(tree@, all, i as int),
            forall|k: int| 0 <= k < i ==> !bundle_in(tree@, #[trigger] all[k]),
        decreases dirs.len() - i,
    {
        assert(all[i as int] == dirs@[i as int]@);
        match first_in_dir_of(tree, dirs[i].as_str()) {
            Some(p) => {
                assert(bundle_in(tree@, all[i as int]));
                return Some(p);
            },
            None => {},
        }
        i = i + 1;
    }
    None
}

fn find_bundle_below(tree: &MemTree, dirs: Vec<String>, left: u32) -> (r: Option<String>)
    ensures
        opt_text(r) == first_bundle(tree@, texts(dirs@), left as nat),
        r is Some == bundle_within(tree@, texts(dirs@), left as nat),
    decreases left,
{
    match first_in_dirs_of(tree, &dirs) {
        Some(p) => Some(p),
        None => {
            if left > 0 {
                find_bundle_below(tree, level_below(tree, &dirs), left - 1)
            } else {
                None
            }
        },
    }
}

fn pe_in_of(tree: &MemTree, dir: &str) -> (r: bool)
    ensures
        r == pe_in(tree@, dir@),
{
    let names = match tree.read_dir(dir) {
        Some(n) => n,
        None => {
            return false;
        },
    };
    let ghost all = texts(names@);
    let mut j: usize = 0;
    while j < names.len()
        invariant
            j <= names@.len(),
            all == texts(names@),
            listing(tree@, dir@) == Some(all),
            forall|k: int| 0 <= k < j ==> !is_pe(tree@, dir@, #[trigger] all[k]),
        decreases names.len() - j,
    {
        assert(all[j as int] == names@[j as int]@);
        if is_pe_of(tree, dir, names[j].as_str()) {
            assert(is_pe(tree@, dir@, (listing(tree@, dir@)->0)[j as int]));
            return true;
        }
        j = j + 1;
    }
    false
}

fn any_pe_below(tree: &MemTree, dirs: Vec<String>, left: u32) -> (r: bool)
    ensures
        r == pe_within(tree@, texts(dirs@), left as nat),
    decreases left,
{
    let ghost all = texts(dirs@);
    let mut i: usize = 0;
    while i < dirs.len()
        invariant
            i <= dirs@.len(),
            all == texts(dirs@),
            forall|k: int| 0 <= k < i ==> !pe_in(tree@, #[trigger] all[k]),
        decreases dirs.len() - i,
    {
        assert(all[i as int] == dirs@[i as int]@);
        if pe_in_of(tree, dirs[i].as_str()) {
            assert(pe_in(tree@, all[i as int]));
            assert(any_pe(tree@, all));
            return true;
        }
        i = i + 1;
    }
    assert(!any_pe(tree@, all));
    if left > 0 {
        any_pe_below(tree, level_below(tree, &dirs), left - 1)
    } else {
        false
    }
}

fn only(base: &str) -> (r: Vec<String>)
    ensures
        texts(r@) == seq![base@],
{
    let mut v: Vec<String> = Vec::new();
    v.push(base.to_owned());
    assert(texts(v@) =~= seq![base@]);
    v
}

/// Guess which platform's application layout the tree under `base` follows.
///
/// The markers are near-disjoint in practice — a `.app` never contains a
/// `.exe`, a Windows install never contains `Contents/Info.plist` — so a single
/// strong hit decides it. Linux is the fallback: an app that is just an ELF
/// binary plus sibling files has no marker of its own to find.
pub fn sniff_platform(tree: &MemTree, base: &str) -> (r: Platform)
    ensures
        r == sniffed_platform(tree@, base@),
{
    // A zip made from *inside* a `.app` puts `Contents/` at the archive root.
    if tree.is_file(push_of(base, "Contents/Info.plist").as_str()) {
        return Platform::Macos;
    }
    if find_bundle_below(tree, only(base), MAX_DEPTH).is_some() {
        Platform::Macos
    } else if any_pe_below(tree, only(base), MAX_DEPTH) {
        Platform::Windows
    } else {
        Platform::Linux
    }
}

/// Binaries that ship *beside* the app but aren't it — updaters, installers, and
/// Chromium's out-of-process helpers — by file stem.
pub open spec fn is_helper(stem: Seq<char>, platform: Platform) -> bool {
    if platform == Platform::Windows {
        ||| stem == "update"@
        ||| stem == "squirrel"@
        ||| stem == "setup"@
        ||| stem == "installer"@
        ||| stem == "uninstall"@
        ||| stem == "elevate"@
        ||| stem == "notification_helper"@
        ||| stem == "chrome_pwa_launcher"@
        ||| stem == "crashpad_handler"@
        ||| stem == "chrome_crashpad_handler"@
    } else {
        ||| stem == "chrome-sandbox"@
        ||| stem == "crashpad_handler"@
        ||| stem == "chrome_crashpad_handler"@
    }
}

fn is_helper_of(stem: &str, platform: Platform) -> (r: bool)
    ensures
        r == is_helper(stem@, platform),
{
    match platform {
        Platform::Windows => same(stem, "update") || same(stem, "squirrel") || same(stem, "setup")
            || same(stem, "installer") || same(stem, "uninstall") || same(stem, "elevate") || same(
            stem,
            "notification_helper",
        ) || same(stem, "chrome_pwa_launcher") || same(stem, "crashpad_handler") || same(
            stem,
            "chrome_crashpad_handler",
        ),
        _ => same(stem, "chrome-sandbox") || same(stem, "crashpad_handler") || same(
            stem,
            "chrome_crashpad_handler",
        ),
    }
}

/// Whether an entry of a directory can be the main executable. Shared objects are
/// never the entry point; off Windows everything else has to prove itself by carrying
/// ELF magic.
pub open spec fn is_candidate(t: Tree, dir: Seq<char>, name: Seq<char>, platform: Platform) -> bool {
    let p = pushed(dir, name);
    let low = lower(name);
    &&& file_at(t, p)
    &&& if platform == Platform::Windows {
        closes(low, ".exe"@)
    } else {
        !closes(low, ".so"@) && !holds(low, ".so."@) && magic_at(
            t,
            p,
            seq![0x7fu8, 0x45, 0x4c, 0x46],
        )
    }
    &&& !is_helper(lower(name_stem(name)), platform)
}

/// The lower-case name of a directory.
pub open spec fn dir_stem(dir: Seq<char>) -> Seq<char> {
    match file_name(dir) {
        Some(n) => lower(n),
        None => Seq::empty(),
    }
}

/// The size of the file at `p`.
pub open spec fn size_at(t: Tree, p: Seq<char>) -> nat {
    match contents(t, p) {
        Some(b) => b.len(),
        None => 0,
    }
}

/// Whether candidate `a` is to be preferred to candidate `b` of a directory: by being
/// named after it, then by size.
pub open spec fn preferred(t: Tree, dir: Seq<char>, a: Seq<char>, b: Seq<char>) -> bool {
    let na = lower(name_stem(a)) == dir_stem(dir);
    let nb = lower(name_stem(b)) == dir_stem(dir);
    (na && !nb) || (na == nb && size_at(t, pushed(dir, a)) > size_at(t, pushed(dir, b)))
}

/// The preferred candidate among the first `n` entries. The first of equals stays.
pub open spec fn best_of(
    t: Tree,
    dir: Seq<char>,
    names: Seq<Seq<char>>,
    platform: Platform,
    n: nat,
) -> Option<Seq<char>>
    decreases n,
{
    if n == 0 || n > names.len() {
        None
    } else {
        let best = best_of(t, dir, names, platform, (n - 1) as nat);
        let name = names[n - 1];
        if is_candidate(t, dir, name, platform) && (best is None || preferred(t, dir, name, best->0)) {
            Some(name)
        } else {
            best
        }
    }
}

/// The most plausible main executable directly inside `dir`.
pub open spec fn picked(t: Tree, dir: Seq<char>, platform: Platform) -> Option<Seq<char>> {
    match listing(t, dir) {
        Some(names) => match best_of(t, dir, names, platform, names.len()) {
            Some(name) => Some(pushed(dir, name)),
            None => None,
        },
        None => None,
    }
}

fn is_candidate_of(tree: &MemTree, dir: &str, name: &str, platform: Platform) -> (r: bool)
    ensures
        r == is_candidate(tree@, dir@, name@, platform),
{
    let p = push_of(dir, name);
    if !tree.is_file(p.as_str()) {
        return false;
    }
    let low = lower_of(name);
    let l = low.as_str();
    let fits = match platform {
        Platform::Windows => ends_with(l, ".exe"),
        _ => !ends_with(l, ".so") && !contains(l, ".so.") && has_elf_magic(tree, p.as_str()),
    };
    fits && !is_helper_of(lower_of(name_stem_of(name).as_str()).as_str(), platform)
}

fn dir_stem_of(dir: &str) -> (r: String)
    ensures
        r@ == dir_stem(dir@),
{
    match file_name_of(dir) {
        Some(n) => lower_of(n.as_str()),
        None => String::new(),
    }
}

fn size_of_file(tree: &MemTree, p: &str) -> (r: usize)
    ensures
        r == size_at(tree@, p@),
{
    match tree.read(p) {
        Some(b) => b.len(),
        None => 0,
    }
}

/// The most plausible main executable directly inside `dir`, or `None` if it
/// holds no candidates. Prefers a binary named after its directory (`Slack/
/// slack.exe`), then the largest one — the main binary dwarfs its helpers.
fn pick_executable(tree: &MemTree, dir: &str, platform: Platform) -> (r: Option<String>)
    ensures
        opt_text(r) == picked(tree@, dir@, platform),
{
    let names = match tree.read_dir(dir) {
        Some(n) => n,
        None => {
            return None;
        },
    };
    let ghost all = texts(names@);
    let stem = dir_stem_of(dir);
    let mut best: Option<(bool, usize, String)> = None;
    let mut i: usize = 0;
    while i < names.len()
        invariant
            i <= names@.len(),
            all == texts(names@),
            stem@ == dir_stem(dir@),
            match best {
                Some((named, size, name)) => {
                    &&& best_of(tree@, dir@, all, platform, i as nat) == Some(name@)
                    &&& named == (lower(name_stem(name@)) == dir_stem(dir@))
                    &&& size == size_at(tree@, pushed(dir@, name@))
                },
                None => best_of(tree@, dir@, all, platform, i as nat) is None,
            },
        decreases names.len() - i,
    {
        let name = names[i].as_str();
        assert(all[i as int] == name@);
        if is_candidate_of(tree, dir, name, platform) {
            let named = same(lower_of(name_stem_of(name).as_str()).as_str(), stem.as_str());
            let size = size_of_file(tree, push_of(dir, name).as_str());
            let better = match &best {
                Some((bn, bs, _)) => (named && !*bn) || (named == *bn && size > *bs),
                None => true,
            };
            if better {
                best = Some((named, size, name.to_owned()));
            }
        }
        i = i + 1;
    }
    match best {
        Some((_, _, name)) => Some(push_of(dir, name.as_str())),
        None => None,
    }
}

/// The application of an executable picked in `dir`. Windows / Linux key an app on
/// its executable.
pub open spec fn app_of(dir: Seq<char>, executable: Seq<char>) -> AppView {
    AppView { path: executable, name: file_name(dir), root: dir, executable: Some(executable) }
}

/// The application of the first of `dirs`, from `i` on, that holds one.
pub open spec fn first_app(t: Tree, dirs: Seq<Seq<char>>, platform: Platform, i: int) -> Option<
    AppView,
>
    decreases dirs.len() - i,
{
    if i < 0 || i >= dirs.len() {
        None
    } else {
        match picked(t, dirs[i], platform) {
            Some(e) => Some(app_of(dirs[i], e)),
            None => first_app(t, dirs, platform, i + 1),
        }
    }
}

/// The application of the shallowest directory that holds one, up to `left` levels
/// below `dirs`.
pub open spec fn portable_app(t: Tree, dirs: Seq<Seq<char>>, platform: Platform, left: nat) -> Option<
    AppView,
>
    decreases left,
{
    match first_app(t, dirs, platform, 0) {
        Some(a) => Some(a),
        None => if left > 0 {
            portable_app(t, below(t, dirs, dirs.len()), platform, (left - 1) as nat)
        } else {
            None
        },
    }
}

/// The application under `base`.
pub open spec fn app_under(t: Tree, base: Seq<char>, platform: Platform) -> Option<AppView> {
    if platform == Platform::Macos {
        match bundle_at(t, base) {
            Some(p) => Some(AppView { path: p, root: p, executable: None, name: None }),
            None => None,
        }
    } else {
        portable_app(t, seq![base], platform, MAX_DEPTH as nat)
    }
}

/// The view of an optional application.
pub open spec fn opt_app(o: Option<DiscoveredApp>) -> Option<AppView> {
    match o {
        Some(a) => Some(a@),
        None => None,
    }
}

/// Breadth-first search for the shallowest directory holding a plausible main
/// executable. Shallowest wins because that's where the app's own binary sits;
/// anything deeper is a helper or a bundled runtime.
fn find_portable(tree: &MemTree, dirs: Vec<String>, platform: Platform, left: u32) -> (r: Option<
    DiscoveredApp,
>)
    ensures
        opt_app(r) == portable_app(tree@, texts(dirs@), platform, left as nat),
    decreases left,
{
    let ghost all = texts(dirs@);
    let mut i: usize = 0;
    while i < dirs.len()
        invariant
            i <= dirs@.len(),
            all == texts(dirs@),
            first_app(tree@, all, platform, 0) == first_app(tree@, all, platform, i as int),
        decreases dirs.len() - i,
    {
        let dir = dirs[i].as_str();
        assert(all[i as int] == dir@);
        match pick_executable(tree, dir, platform) {
            Some(executable) => {
                assert(first_app(tree@, all, platform, 0) == Some(app_of(dir@, executable@)));
                return Some(
                    DiscoveredApp {
                        path: executable.clone(),
                        root: dir.to_owned(),
                        executable: Some(executable),
                        name: file_name_of(dir),
                    },
                );
            },
            None => {},
        }
        i = i + 1;
    }
    if left > 0 {
        find_portable(tree, level_below(tree, &dirs), platform, left - 1)
    } else {
        None
    }
}

fn bundle_root(tree: &MemTree, base: &str) -> (r: Option<String>)
    ensures
        opt_text(r) == bundle_at(tree@, base@),
{
    // The zip was created from *inside* the `.app` (its `Contents/` sits at the
    // archive root): the scan root itself is the bundle.
    if tree.is_dir(push_of(base, "Contents").as_str()) {
        return Some(base.to_owned());
    }
    find_bundle_below(tree, only(base), MAX_DEPTH)
}

/// Locate the application under `base` and describe it the way desktop
/// discovery would.
///
/// `base` need not be the application root: a zip may wrap it in a folder or two,
/// and a picked folder may hold the `.app` deeper. `None` when nothing app-shaped
/// was found.
pub fn find_app(tree: &MemTree, base: &str, platform: Platform) -> (r: Option<DiscoveredApp>)
    ensures
        opt_app(r) == app_under(tree@, base@, platform),
{
    if platform.is_bundle() {
        match bundle_root(tree, base) {
            Some(p) => Some(
                DiscoveredApp { path: p.clone(), root: p, executable: None, name: None },
            ),
            None => None,
        }
    } else {
        find_portable(tree, only(base), platform, MAX_DEPTH)
    }
}

/// A single uploaded binary (a bare `.exe` or ELF, no surrounding tree). There
/// are no sibling files to probe, so detection rests entirely on what the
/// binary itself carries: its import table and embedded version strings.
pub fn single_binary(path: &str) -> (r: DiscoveredApp)
    ensures
        r@ == (AppView {
            path: path@,
            root: home_of(path@),
            executable: Some(path@),
            name: file_name(path@),
        }),
{
    DiscoveredApp {
        path: path.to_owned(),
        root: match parent_of(path) {
            Some(d) => d,
            None => path.to_owned(),
        },
        executable: Some(path.to_owned()),
        name: file_name_of(path),
    }
}

/// Where an application's archive, or its unpacked `app` directory, lives.
pub open spec fn scan_target(t: Tree, root: Seq<char>, platform: Platform) -> Option<Seq<char>> {
    let dir = if platform == Platform::Macos {
        pushed(root, "Contents/Resources"@)
    } else {
        pushed(root, "resources"@)
    };
    if file_at(t, pushed(dir, "app.asar"@)) {
        Some(pushed(dir, "app.asar"@))
    } else if file_at(t, pushed(dir, "electron.asar"@)) {
        Some(pushed(dir, "electron.asar"@))
    } else if file_at(t, pushed(dir, "default_app.asar"@)) {
        Some(pushed(dir, "default_app.asar"@))
    } else if file_at(t, pushed(pushed(dir, "app"@), "package.json"@)) {
        Some(pushed(dir, "app"@))
    } else {
        None
    }
}

/// Where the app's `app.asar` (or unpacked `app/` directory) lives, for the
/// static rule scan. `Contents/Resources` under the bundle layout, `resources`
/// otherwise.
pub fn locate_scan_target(tree: &MemTree, root: &str, platform: Platform) -> (r: Option<String>)
    ensures
        opt_text(r) == scan_target(tree@, root@, platform),
{
    let dir = if platform.is_bundle() {
        push_of(root, "Contents/Resources")
    } else {
        push_of(root, "resources")
    };
    let d = dir.as_str();
    let a = push_of(d, "app.asar");
    if tree.is_file(a.as_str()) {
        return Some(a);
    }
    let b = push_of(d, "electron.asar");
    if tree.is_file(b.as_str()) {
        return Some(b);
    }
    let c = push_of(d, "default_app.asar");
    if tree.is_file(c.as_str()) {
        return Some(c);
    }
    // Unpacked apps (VS Code and friends) ship `resources/app/` as plain files.
    let unpacked = push_of(d, "app");
    if tree.is_file(push_of(unpacked.as_str(), "package.json").as_str()) {
        return Some(unpacked);
    }
    None
}

// ---- locating the app inside an unpacked package -----------------------

/// Whether an entry of a tree can be the main executable of the payload below `base`: a
/// regular file — not a link, since packages alias one binary under several names — that
/// is ELF, no shared object and no known helper.
pub open spec fn is_payload_binary(base: Seq<char>, entry: (Seq<char>, NodeView)) -> bool {
    let name = file_name(entry.0);
    &&& opens(entry.0, pushed(base, Seq::empty()))
    &&& name is Some
    &&& !closes(lower(name->0), ".so"@)
    &&& !holds(lower(name->0), ".so."@)
    &&& !is_helper(lower(name_stem(name->0)), Platform::Linux)
    &&& (entry.1 matches NodeView::File(data, _) && begins(data, seq![0x7fu8, 0x45, 0x4c, 0x46]))
}

/// The size of an entry.
pub open spec fn entry_size(node: NodeView) -> nat {
    match node {
        NodeView::File(data, _) => data.len(),
        _ => 0,
    }
}

/// The largest of the binaries among the first `n` entries of a tree; the first of equals.
pub open spec fn largest_binary(t: Tree, base: Seq<char>, n: nat) -> Option<int>
    decreases n,
{
    if n == 0 || n > t.len() {
        None
    } else {
        let best = largest_binary(t, base, (n - 1) as nat);
        if is_payload_binary(base, t[n - 1]) && (best is None || entry_size(t[n - 1].1)
            > entry_size(t[best->0].1)) {
            Some(n - 1)
        } else {
            best
        }
    }
}

/// The name that a desktop entry gives, in the lines from `i` on: the first `Name` of its
/// main section.
pub open spec fn name_line(lines: Seq<Seq<char>>, i: int, main: bool) -> Option<Seq<char>>
    decreases lines.len() - i,
{
    if i < 0 || i >= lines.len() {
        None
    } else {
        let line = trim(lines[i], CharClass::White);
        if opens(line, "["@) {
            name_line(lines, i + 1, line == "[Desktop Entry]"@)
        } else if main && opens(line, "Name="@) && trim(
            line.skip("Name="@.len() as int),
            CharClass::White,
        ).len() > 0 {
            Some(trim(line.skip("Name="@.len() as int), CharClass::White))
        } else {
            name_line(lines, i + 1, main)
        }
    }
}

/// The name that the desktop entry of a directory's entry gives.
pub open spec fn entry_name(t: Tree, dir: Seq<char>, name: Seq<char>) -> Option<Seq<char>> {
    if !closes(name, ".desktop"@) {
        None
    } else {
        match contents(t, pushed(dir, name)) {
            Some(b) => if valid_utf8(b) {
                name_line(split(decode_utf8(b), CharClass::Only('\n')), 0, false)
            } else {
                None
            },
            None => None,
        }
    }
}

/// The first name that the desktop entries among `names`, from `j` on, give.
pub open spec fn first_name(t: Tree, dir: Seq<char>, names: Seq<Seq<char>>, j: int) -> Option<
    Seq<char>,
>
    decreases names.len() - j,
{
    if j < 0 || j >= names.len() {
        None
    } else {
        match entry_name(t, dir, names[j]) {
            Some(n) => Some(n),
            None => first_name(t, dir, names, j + 1),
        }
    }
}

/// The name that the desktop entries of a directory give.
pub open spec fn name_from(t: Tree, dir: Seq<char>) -> Option<Seq<char>> {
    match listing(t, dir) {
        Some(names) => first_name(t, dir, names, 0),
        None => None,
    }
}

/// The name that a payload's own desktop entry gives: at its root, as in an AppImage, else
/// where a distribution package installs it.
pub open spec fn payload_name(t: Tree, base: Seq<char>) -> Option<Seq<char>> {
    or_text(name_from(t, base), name_from(t, pushed(base, "usr/share/applications"@)))
}

/// The application inside an unpacked payload.
pub open spec fn payload_app(t: Tree, base: Seq<char>) -> Option<AppView> {
    match largest_binary(t, base, t.len()) {
        Some(i) => Some(
            AppView {
                path: t[i].0,
                root: home_of(t[i].0),
                executable: Some(t[i].0),
                name: or_text(payload_name(t, base), file_name(t[i].0)),
            },
        ),
        None => None,
    }
}

fn is_payload_binary_of(base: &str, path: &str, node: &Node) -> (r: bool)
    ensures
        r == is_payload_binary(base@, (path@, node@)),
{
    let data = match node {
        Node::File(data, _) => data,
        _ => {
            return false;
        },
    };
    proof {
        reveal_strlit("");
        assert(""@ =~= Seq::empty());
    }
    if !starts_with(path, push_of(base, "").as_str()) {
        return false;
    }
    let name = match file_name_of(path) {
        Some(n) => n,
        None => {
            return false;
        },
    };
    let low = lower_of(name.as_str());
    let magic: [u8; 4] = [0x7f, 0x45, 0x4c, 0x46];
    assert(magic@ =~= seq![0x7fu8, 0x45, 0x4c, 0x46]);
    !ends_with(low.as_str(), ".so") && !contains(low.as_str(), ".so.") && !is_helper_of(
        lower_of(name_stem_of(name.as_str()).as_str()).as_str(),
        Platform::Linux,
    ) && begins_with(data.as_slice(), magic.as_slice())
}

fn largest_binary_of(tree: &MemTree, base: &str) -> (r: Option<usize>)
    ensures
        match r {
            Some(i) => largest_binary(tree@, base@, tree@.len()) == Some(i as int) && i
                < tree.nodes@.len(),
            None => largest_binary(tree@, base@, tree@.len()) is None,
        },
{
    let mut best: Option<(usize, usize)> = None;
    let mut i: usize = 0;
    while i < tree.nodes.len()
        invariant
            i <= tree.nodes@.len(),
            match best {
                Some((k, size)) => {
                    &&& largest_binary(tree@, base@, i as nat) == Some(k as int)
                    &&& k < i
                    &&& size == entry_size(tree@[k as int].1)
                },
                None => largest_binary(tree@, base@, i as nat) is None,
            },
        decreases tree.nodes.len() - i,
    {
        assert(tree@[i as int] == (tree.nodes@[i as int].0@, tree.nodes@[i as int].1@));
        if is_payload_binary_of(base, tree.nodes[i].0.as_str(), &tree.nodes[i].1) {
            let size: usize = match &tree.nodes[i].1 {
                Node::File(data, _) => data.len(),
                _ => 0,
            };
            let better = match best {
                Some((_, s)) => size > s,
                None => true,
            };
            if better {
                best = Some((i, size));
            }
        }
        i = i + 1;
    }
    match best {
        Some((k, _)) => Some(k),
        None => None,
    }
}

/// The name that a desktop entry gives.
pub fn desktop_name(text: &str) -> (r: Option<String>)
    ensures
        opt_text(r) == name_line(split(text@, CharClass::Only('\n')), 0, false),
{
    let lines = split_of(text, CharClass::Only('\n'));
    let ghost all = texts(lines@);
    let mark = chars_of("Name=").len();
    let mut main = false;
    let mut i: usize = 0;
    while i < lines.len()
        invariant
            i <= lines@.len(),
            all == texts(lines@),
            all == split(text@, CharClass::Only('\n')),
            mark == "Name="@.len(),
            name_line(all, 0, false) == name_line(all, i as int, main),
        decreases lines.len() - i,
    {
        assert(all[i as int] == lines@[i as int]@);
        let line = trim_of(&chars_of(lines[i].as_str()), CharClass::White);
        let s = text_of(line.as_slice());
        if starts_with(s.as_str(), "[") {
            main = same(s.as_str(), "[Desktop Entry]");
        } else if main && starts_with(s.as_str(), "Name=") {
            let n = line.len();
            let rest = slice_of(&line, mark, n);
            assert(rest@ =~= line@.skip("Name="@.len() as int));
            let value = trim_of(&rest, CharClass::White);
            if value.len() > 0 {
                return Some(text_of(value.as_slice()));
            }
        }
        i = i + 1;
    }
    None
}

fn entry_name_of(tree: &MemTree, dir: &str, name: &str) -> (r: Option<String>)
    ensures
        opt_text(r) == entry_name(tree@, dir@, name@),
{
    if !ends_with(name, ".desktop") {
        return None;
    }
    match tree.read(push_of(dir, name).as_str()) {
        Some(b) => match utf8_text(b) {
            Some(text) => desktop_name(text.as_str()),
            None => None,
        },
        None => None,
    }
}

fn name_from_of(tree: &MemTree, dir: &str) -> (r: Option<String>)
    ensures
        opt_text(r) == name_from(tree@, dir@),
{
    let names = match tree.read_dir(dir) {
        Some(n) => n,
        None => {
            return None;
        },
    };
    let ghost all = texts(names@);
    let mut j: usize = 0;
    while j < names.len()
        invariant
            j <= names@.len(),
            all == texts(names@),
            name_from(tree@, dir@) == first_name(tree@, dir@, all, j as int),
        decreases names.len() - j,
    {
        assert(all[j as int] == names@[j as int]@);
        match entry_name_of(tree, dir, names[j].as_str()) {
            Some(n) => {
                return Some(n);
            },
            None => {},
        }
        j = j + 1;
    }
    None
}

/// Locate the application inside an unpacked Linux package.
///
/// A distribution package reproduces a slice of the filesystem, so the *shallowest*
/// executable is the `usr/bin` launcher and the application is somewhere below it. Size
/// is what tells them apart. The package's own `.desktop` entry names it; with none to
/// read, the binary's own name beats the directory's, which would call every packaged app
/// "bin".
pub fn find_app_in_payload(tree: &MemTree, base: &str) -> (r: Option<DiscoveredApp>)
    ensures
        opt_app(r) == payload_app(tree@, base@),
{
    let at = match largest_binary_of(tree, base) {
        Some(i) => i,
        None => {
            return None;
        },
    };
    assert(tree@[at as int] == (tree.nodes@[at as int].0@, tree.nodes@[at as int].1@));
    let path = tree.nodes[at].0.clone();
    let root = match parent_of(path.as_str()) {
        Some(d) => d,
        None => path.clone(),
    };
    let declared = or_opt(
        name_from_of(tree, base),
        name_from_of(tree, push_of(base, "usr/share/applications").as_str()),
    );
    let name = or_opt(declared, file_name_of(path.as_str()));
    Some(DiscoveredApp { path: path.clone(), root, executable: Some(path), name })
}

/// What the payload search finds is a binary of the payload, and none is larger.
pub proof fn lemma_payload_app(t: Tree, base: Seq<char>, n: nat)
    requires
        n <= t.len(),
    ensures
        match largest_binary(t, base, n) {
            Some(i) => {
                &&& 0 <= i < n
                &&& is_payload_binary(base, t[i])
                &&& forall|j: int|
                    0 <= j < n && is_payload_binary(base, #[trigger] t[j]) ==> entry_size(t[j].1)
                        <= entry_size(t[i].1)
            },
            None => forall|j: int| 0 <= j < n ==> !is_payload_binary(base, #[trigger] t[j]),
        },
    decreases n,
{
    if n > 0 {
        lemma_payload_app(t, base, (n - 1) as nat);
    }
}

} // verus!
