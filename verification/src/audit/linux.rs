//! Linux audit backend.
//!
//! Linux has no system code-signing, so the analog of macOS's hardened-runtime
//! flags is the ELF's own exploit-mitigation posture — PIE, RELRO, NX, and
//! stack-canary instrumentation — read straight from the binary. For
//! flatpak/snap apps the declared sandbox permissions are added, which are the
//! closest thing to entitlements on Linux.

use vstd::prelude::*;
use vstd::utf8::*;

use crate::audit::asar::{info, info_view, informed, AsarInfo};
use crate::bytes::utf8_text;
use crate::object::{elf_of, parse_elf, ElfImage, ElfView};
use crate::path::{is_absolute, parts, parts_of, push_of, pushed, pushed_all};
use crate::text::{
    chars_of, closes, concat3, contains, ends_with, find_class, first_in, holds, lemma_first_in,
    opens, opt_text, same, slice_of, split, split_of, starts_with, text_of, texts, trim, trim_of,
    CharClass,
};
use crate::vfs::{contents, file_at, MemTree, Tree};

verus! {

/// GNU_RELRO state.
#[derive(Debug, Clone, Copy, PartialEq, Eq, Structural)]
pub enum RelroKind {
    /// No such segment.
    Absent,
    Partial,
    Full,
}

/// ELF exploit-mitigation flags, read from the main executable.
#[derive(Debug, Clone, Copy, PartialEq, Eq, Structural)]
pub struct ElfHardening {
    /// Parsed an ELF at all. `false` ⇒ the rest are meaningless.
    pub is_elf: bool,
    /// Position-independent executable (`ET_DYN` + interpreter).
    pub pie: bool,
    /// GNU_RELRO state.
    pub relro: RelroKind,
    /// Non-executable stack (`PT_GNU_STACK` without the execute flag).
    pub nx: bool,
    /// Compiled with stack-smashing protection (`__stack_chk_fail`).
    pub stack_canary: bool,
    /// `_FORTIFY_SOURCE` instrumentation (`*_chk` libc symbols).
    pub fortify_source: bool,
}

/// Nothing found.
pub open spec fn unhardened() -> ElfHardening {
    ElfHardening {
        is_elf: false,
        pie: false,
        relro: RelroKind::Absent,
        nx: false,
        stack_canary: false,
        fortify_source: false,
    }
}

impl Default for ElfHardening {
    fn default() -> (r: ElfHardening)
        ensures
            r == unhardened(),
    {
        ElfHardening {
            is_elf: false,
            pie: false,
            relro: RelroKind::Absent,
            nx: false,
            stack_canary: false,
            fortify_source: false,
        }
    }
}

/// `ET_DYN`.
pub const ET_DYN: u16 = 3;

/// `PT_INTERP`.
pub const PT_INTERP: u32 = 3;

/// `PT_GNU_STACK`.
pub const PT_GNU_STACK: u32 = 0x6474_e551;

/// `PT_GNU_RELRO`.
pub const PT_GNU_RELRO: u32 = 0x6474_e552;

/// `PF_X`.
pub const PF_X: u32 = 1;

/// `DT_BIND_NOW`.
pub const DT_BIND_NOW: u64 = 24;

/// `DT_FLAGS`.
pub const DT_FLAGS: u64 = 30;

/// `DT_FLAGS_1`.
pub const DT_FLAGS_1: u64 = 0x6fff_fffb;

/// `DF_BIND_NOW`.
pub const DF_BIND_NOW: u64 = 8;

/// `DF_1_NOW`.
pub const DF_1_NOW: u64 = 1;

/// The flags of the first segment of a type, from the `i`-th on.
pub open spec fn segment_flags(segments: Seq<(u32, u32)>, kind: u32, i: int) -> Option<u32>
    decreases segments.len() - i,
{
    if i < 0 || i >= segments.len() {
        None
    } else if segments[i].0 == kind {
        Some(segments[i].1)
    } else {
        segment_flags(segments, kind, i + 1)
    }
}

/// Whether a dynamic entry asks for all symbols to be bound at start.
pub open spec fn binds_now(entry: (u64, u64)) -> bool {
    ||| entry.0 == DT_BIND_NOW
    ||| entry.0 == DT_FLAGS && entry.1 & DF_BIND_NOW != 0
    ||| entry.0 == DT_FLAGS_1 && entry.1 & DF_1_NOW != 0
}

/// Whether any of the entries asks for all symbols to be bound at start.
pub open spec fn any_binds_now(entries: Seq<(u64, u64)>) -> bool {
    exists|i: int| 0 <= i < entries.len() && binds_now(#[trigger] entries[i])
}

/// Whether an image, where it is linked dynamically, has all symbols bound at start.
pub open spec fn bound_now(dynamic: Option<Seq<(u64, u64)>>) -> bool {
    match dynamic {
        Some(d) => any_binds_now(d),
        None => false,
    }
}

/// Whether a symbol comes from `_FORTIFY_SOURCE`.
pub open spec fn is_fortified(name: Seq<char>) -> bool {
    closes(name, "_chk"@) && name != "__stack_chk_fail"@
}

/// The exploit mitigations of an image.
pub open spec fn hardening(elf: Option<ElfView>) -> ElfHardening {
    match elf {
        None => unhardened(),
        Some(e) => ElfHardening {
            is_elf: true,
            pie: e.kind == ET_DYN && segment_flags(e.segments, PT_INTERP, 0) is Some,
            relro: if segment_flags(e.segments, PT_GNU_RELRO, 0) is None {
                RelroKind::Absent
            } else if bound_now(e.dynamic) {
                RelroKind::Full
            } else {
                RelroKind::Partial
            },
            nx: match segment_flags(e.segments, PT_GNU_STACK, 0) {
                Some(f) => f & PF_X == 0,
                None => false,
            },
            stack_canary: exists|i: int|
                0 <= i < e.symbols.len() && #[trigger] e.symbols[i] == Some("__stack_chk_fail"@),
            fortify_source: exists|i: int|
                0 <= i < e.symbols.len() && #[trigger] e.symbols[i] is Some && is_fortified(
                    e.symbols[i]->0,
                ),
        },
    }
}

fn segment_flags_of(segments: &Vec<(u32, u32)>, kind: u32) -> (r: Option<u32>)
    ensures
        r == segment_flags(segments@, kind, 0),
{
    let mut i: usize = 0;
    while i < segments.len()
        invariant
            i <= segments@.len(),
            segment_flags(segments@, kind, 0) == segment_flags(segments@, kind, i as int),
        decreases segments.len() - i,
    {
        if segments[i].0 == kind {
            return Some(segments[i].1);
        }
        i = i + 1;
    }
    None
}

fn bound_now_of(dynamic: &Option<Vec<(u64, u64)>>) -> (r: bool)
    ensures
        r == bound_now(
            match *dynamic {
                Some(d) => Some(d@),
                None => None,
            },
        ),
{
    let d = match dynamic {
        Some(d) => d,
        None => {
            return false;
        },
    };
    let mut i: usize = 0;
    while i < d.len()
        invariant
            i <= d@.len(),
            *dynamic == Some(*d),
            forall|k: int| 0 <= k < i ==> !binds_now(#[trigger] d@[k]),
        decreases d.len() - i,
    {
        let (tag, value) = d[i];
        if tag == DT_BIND_NOW || (tag == DT_FLAGS && value & DF_BIND_NOW != 0) || (tag
            == DT_FLAGS_1 && value & DF_1_NOW != 0) {
            assert(binds_now(d@[i as int]));
            assert(any_binds_now(d@));
            return true;
        }
        i = i + 1;
    }
    false
}

fn symbols_of(symbols: &Vec<Option<String>>) -> (r: (bool, bool))
    ensures
        ({
            let s = symbols@.map_values(|s: Option<String>| opt_text(s));
            &&& r.0 == exists|i: int|
                0 <= i < s.len() && #[trigger] s[i] == Some("__stack_chk_fail"@)
            &&& r.1 == exists|i: int|
                0 <= i < s.len() && #[trigger] s[i] is Some && is_fortified(s[i]->0)
        }),
{
    let ghost s = symbols@.map_values(|s: Option<String>| opt_text(s));
    let mut stack_canary = false;
    let mut fortify_source = false;
    let mut i: usize = 0;
    while i < symbols.len()
        invariant
            i <= symbols@.len(),
            s == symbols@.map_values(|s: Option<String>| opt_text(s)),
            stack_canary == exists|k: int|
                0 <= k < i && #[trigger] s[k] == Some("__stack_chk_fail"@),
            fortify_source == exists|k: int|
                0 <= k < i && #[trigger] s[k] is Some && is_fortified(s[k]->0),
        decreases symbols.len() - i,
    {
        assert(s[i as int] == opt_text(symbols@[i as int]));
        match &symbols[i] {
            Some(name) => {
                if same(name.as_str(), "__stack_chk_fail") {
                    stack_canary = true;
                } else if ends_with(name.as_str(), "_chk") {
                    fortify_source = true;
                }
            },
            None => {},
        }
        i = i + 1;
    }
    (stack_canary, fortify_source)
}

/// The exploit mitigations of an image.
pub fn hardening_of(elf: &Option<ElfImage>) -> (r: ElfHardening)
    ensures
        r == hardening(
            match *elf {
                Some(e) => Some(e@),
                None => None,
            },
        ),
{
    let e = match elf {
        Some(e) => e,
        None => {
            return ElfHardening::default();
        },
    };
    // A bare `ET_DYN` with no interpreter is a shared library.
    let pie = e.kind == ET_DYN && segment_flags_of(&e.segments, PT_INTERP).is_some();
    let relro = if segment_flags_of(&e.segments, PT_GNU_RELRO).is_none() {
        RelroKind::Absent
    } else if bound_now_of(&e.dynamic) {
        RelroKind::Full
    } else {
        RelroKind::Partial
    };
    // NX: a GNU_STACK segment without the execute flag. Absence of the segment
    // historically means an executable stack, so that counts as NX off.
    let nx = match segment_flags_of(&e.segments, PT_GNU_STACK) {
        Some(f) => f & PF_X == 0,
        None => false,
    };
    let (stack_canary, fortify_source) = symbols_of(&e.symbols);
    ElfHardening { is_elf: true, pie, relro, nx, stack_canary, fortify_source }
}

/// The exploit mitigations of the file at `exe`.
pub open spec fn hardening_at(t: Tree, exe: Seq<char>) -> ElfHardening {
    match contents(t, exe) {
        Some(b) => hardening(elf_of(b)),
        None => unhardened(),
    }
}

/// The exploit mitigations of the file at `exe`.
pub fn elf_hardening(tree: &MemTree, exe: &str) -> (r: ElfHardening)
    ensures
        r == hardening_at(tree@, exe@),
{
    match tree.read(exe) {
        Some(b) => hardening_of(&parse_elf(b)),
        None => ElfHardening::default(),
    }
}

/// Declared sandbox permissions for a containerised app.
#[derive(Debug)]
pub struct SandboxInfo {
    /// `"flatpak"` or `"snap"`.
    pub kind: String,
    /// Notable granted permissions (e.g. `filesystem=host`, `network`,
    /// `device=all`).
    pub permissions: Vec<String>,
}

/// The model of an optional [`SandboxInfo`]: the kind and the permissions.
pub open spec fn sandbox_view(s: Option<SandboxInfo>) -> Option<(Seq<char>, Seq<Seq<char>>)> {
    match s {
        Some(s) => Some((s.kind@, texts(s.permissions@))),
        None => None,
    }
}

/// The permissions of a key, one per item that is not blank.
pub open spec fn item_grants(key: Seq<char>, items: Seq<Seq<char>>) -> Seq<Seq<char>>
    decreases items.len(),
{
    if items.len() == 0 {
        Seq::empty()
    } else {
        let rest = item_grants(key, items.drop_last());
        let item = trim(items.last(), CharClass::White);
        if item.len() == 0 {
            rest
        } else {
            rest.push(key + "="@ + item)
        }
    }
}

/// Whether a line opens a section.
pub open spec fn is_section(line: Seq<char>) -> bool {
    opens(line, "["@)
}

/// The permissions that one line of the context section grants.
pub open spec fn line_grants(line: Seq<char>) -> Seq<Seq<char>> {
    match first_in(line, CharClass::Only('='), 0) {
        Some(i) => item_grants(
            trim(line.take(i), CharClass::White),
            split(line.skip(i + 1), CharClass::Only(';')),
        ),
        None => Seq::empty(),
    }
}

/// Whether the `n`-th line stands in the context section.
pub open spec fn in_context(lines: Seq<Seq<char>>, n: nat) -> bool
    decreases n,
{
    if n == 0 || n > lines.len() {
        false
    } else {
        let line = trim(lines[n - 1], CharClass::White);
        if is_section(line) {
            line == "[Context]"@
        } else {
            in_context(lines, (n - 1) as nat)
        }
    }
}

/// The permissions that the first `n` lines grant.
pub open spec fn grants(lines: Seq<Seq<char>>, n: nat) -> Seq<Seq<char>>
    decreases n,
{
    if n == 0 || n > lines.len() {
        Seq::empty()
    } else {
        let before = grants(lines, (n - 1) as nat);
        let line = trim(lines[n - 1], CharClass::White);
        if is_section(line) || !in_context(lines, (n - 1) as nat) {
            before
        } else {
            before + line_grants(line)
        }
    }
}

/// The permissions that a flatpak `metadata` file grants.
pub open spec fn flatpak_grants(text: Seq<char>) -> Seq<Seq<char>> {
    let lines = split(text, CharClass::Only('\n'));
    grants(lines, lines.len())
}

fn push_line_grants(line: &Vec<char>, out: &mut Vec<String>)
    ensures
        texts(final(out)@) == texts(old(out)@) + line_grants(line@),
{
    let ghost start = texts(out@);
    assert(start + Seq::<Seq<char>>::empty() =~= start);
    let at = match find_class(line, CharClass::Only('='), 0) {
        Some(i) => i,
        None => {
            return;
        },
    };
    proof {
        lemma_first_in(line@, CharClass::Only('='), 0);
    }
    let n = line.len();
    let head = slice_of(line, 0, at);
    let tail = slice_of(line, at + 1, n);
    assert(head@ =~= line@.take(at as int));
    assert(tail@ =~= line@.skip(at + 1));
    let key = text_of(trim_of(&head, CharClass::White).as_slice());
    let items = split_of(text_of(tail.as_slice()).as_str(), CharClass::Only(';'));
    let ghost all = texts(items@);
    let mut i: usize = 0;
    assert(all.take(0) =~= Seq::empty());
    while i < items.len()
        invariant
            i <= items@.len(),
            all == texts(items@),
            texts(out@) == start + item_grants(key@, all.take(i as int)),
        decreases items.len() - i,
    {
        assert(all.take(i + 1).drop_last() =~= all.take(i as int));
        assert(all.take(i + 1).last() == items@[i as int]@);
        let item = trim_of(&chars_of(items[i].as_str()), CharClass::White);
        if item.len() > 0 {
            let ghost before = texts(out@);
            let granted = concat3(key.as_str(), "=", text_of(item.as_slice()).as_str());
            out.push(granted);
            assert(texts(out@) =~= before.push(granted@));
            assert(start + item_grants(key@, all.take(i + 1)) =~= before.push(granted@));
        }
        i = i + 1;
    }
    assert(all.take(all.len() as int) =~= all);
}

/// The permissions that a flatpak `metadata` file grants: the items of each key of its
/// `[Context]` section (`shared=network;ipc;`, `filesystems=host;`, `devices=all;`, …).
pub fn flatpak_permissions(text: &str) -> (r: Vec<String>)
    ensures
        texts(r@) == flatpak_grants(text@),
{
    let lines = split_of(text, CharClass::Only('\n'));
    let ghost all = texts(lines@);
    let mut out: Vec<String> = Vec::new();
    let mut context = false;
    let mut i: usize = 0;
    assert(texts(out@) =~= Seq::empty());
    while i < lines.len()
        invariant
            i <= lines@.len(),
            all == texts(lines@),
            texts(out@) == grants(all, i as nat),
            context == in_context(all, i as nat),
        decreases lines.len() - i,
    {
        assert(all[i as int] == lines@[i as int]@);
        let line = trim_of(&chars_of(lines[i].as_str()), CharClass::White);
        let text = text_of(line.as_slice());
        if starts_with(text.as_str(), "[") {
            context = same(text.as_str(), "[Context]");
        } else if context {
            push_line_grants(&line, &mut out);
        }
        i = i + 1;
    }
    out
}

/// What the flatpak `metadata` file at `p` declares; none where it cannot be read as text.
pub open spec fn flatpak_sandbox(t: Tree, p: Seq<char>) -> Option<(Seq<char>, Seq<Seq<char>>)> {
    match contents(t, p) {
        Some(b) => if valid_utf8(b) {
            Some(("flatpak"@, flatpak_grants(decode_utf8(b))))
        } else {
            None
        },
        None => None,
    }
}

/// What the flatpak `metadata` file at `meta` declares.
pub fn parse_flatpak_metadata(tree: &MemTree, meta: &str) -> (r: Option<SandboxInfo>)
    ensures
        sandbox_view(r) == flatpak_sandbox(tree@, meta@),
{
    match tree.read(meta) {
        Some(b) => match utf8_text(b) {
            Some(text) => Some(
                SandboxInfo {
                    kind: "flatpak".to_owned(),
                    permissions: flatpak_permissions(text.as_str()),
                },
            ),
            None => None,
        },
        None => None,
    }
}

/// The `metadata` file in the directory of the first `k` components, or in the nearest one
/// above it that holds one.
pub open spec fn metadata_above(t: Tree, base: Seq<char>, comps: Seq<Seq<char>>, k: nat) -> Option<
    Seq<char>,
>
    decreases k,
{
    let meta = pushed(pushed_all(base, comps.take(k as int)), "metadata"@);
    if file_at(t, meta) {
        Some(meta)
    } else if k == 0 {
        None
    } else {
        metadata_above(t, base, comps, (k - 1) as nat)
    }
}

/// The root that a path's components count from.
pub open spec fn start_of(p: Seq<char>) -> Seq<char> {
    if is_absolute(p) {
        "/"@
    } else {
        Seq::empty()
    }
}

/// The `metadata` file nearest to `p`, going up.
pub open spec fn nearest_metadata(t: Tree, p: Seq<char>) -> Option<Seq<char>> {
    if file_at(t, pushed(p, "metadata"@)) {
        Some(pushed(p, "metadata"@))
    } else if parts(p).len() == 0 {
        None
    } else {
        metadata_above(t, start_of(p), parts(p), (parts(p).len() - 1) as nat)
    }
}

fn pushed_all_of(base: &str, comps: &Vec<String>, k: usize) -> (r: String)
    requires
        k <= comps@.len(),
    ensures
        r@ == pushed_all(base@, texts(comps@).take(k as int)),
{
    let ghost all = texts(comps@).take(k as int);
    let mut out: String = base.to_owned();
    let mut i: usize = 0;
    assert(all.skip(0) =~= all);
    while i < k
        invariant
            i <= k <= comps@.len(),
            all == texts(comps@).take(k as int),
            pushed_all(base@, all) == pushed_all(out@, all.skip(i as int)),
        decreases k - i,
    {
        assert(all.skip(i as int)[0] == comps@[i as int]@);
        assert(all.skip(i as int).skip(1) =~= all.skip(i + 1));
        out = push_of(out.as_str(), comps[i].as_str());
        i = i + 1;
    }
    assert(all.skip(i as int).len() == 0);
    out
}

fn nearest_metadata_of(tree: &MemTree, p: &str) -> (r: Option<String>)
    ensures
        opt_text(r) == nearest_metadata(tree@, p@),
{
    let here = push_of(p, "metadata");
    if tree.is_file(here.as_str()) {
        return Some(here);
    }
    let comps = parts_of(p);
    if comps.len() == 0 {
        return None;
    }
    let x = chars_of(p);
    let base: &str = if x.len() > 0 && x[0] == '/' {
        "/"
    } else {
        ""
    };
    proof {
        reveal_strlit("");
        assert(base@ =~= start_of(p@));
    }
    let mut k: usize = comps.len() - 1;
    loop
        invariant
            k < comps@.len(),
            texts(comps@) == parts(p@),
            base@ == start_of(p@),
            nearest_metadata(tree@, p@) == metadata_above(tree@, base@, parts(p@), k as nat),
        decreases k,
    {
        let meta = push_of(pushed_all_of(base, &comps, k).as_str(), "metadata");
        if tree.is_file(meta.as_str()) {
            return Some(meta);
        }
        if k == 0 {
            return None;
        }
        k = k - 1;
    }
}

/// The sandbox that an app's place tells of. `probe` is its executable, else its root.
pub open spec fn sandboxed(t: Tree, probe: Seq<char>) -> Option<(Seq<char>, Seq<Seq<char>>)> {
    if holds(probe, "/flatpak/"@) {
        match nearest_metadata(t, probe) {
            Some(meta) => flatpak_sandbox(t, meta),
            None => Some(("flatpak"@, Seq::empty())),
        }
    } else if holds(probe, "/snap/"@) {
        Some(("snap"@, Seq::empty()))
    } else {
        None
    }
}

fn bare(kind: &str) -> (r: Option<SandboxInfo>)
    ensures
        sandbox_view(r) == Some((kind@, Seq::<Seq<char>>::empty())),
{
    let permissions: Vec<String> = Vec::new();
    assert(texts(permissions@) =~= Seq::empty());
    Some(SandboxInfo { kind: kind.to_owned(), permissions })
}

/// Detect a flatpak / snap sandbox by walking up from the app's files for a
/// flatpak `metadata` file, and extract the notable permissions.
pub fn detect_sandbox(tree: &MemTree, root: &str, executable: Option<&str>) -> (r: Option<SandboxInfo>)
    ensures
        sandbox_view(r) == sandboxed(
            tree@,
            match executable {
                Some(e) => e@,
                None => root@,
            },
        ),
{
    let probe = match executable {
        Some(e) => e,
        None => root,
    };
    if contains(probe, "/flatpak/") {
        // flatpak app trees carry a `metadata` file at `.../<id>/current/active/`.
        return match nearest_metadata_of(tree, probe) {
            Some(meta) => parse_flatpak_metadata(tree, meta.as_str()),
            None => bare("flatpak"),
        };
    }
    if contains(probe, "/snap/") {
        return bare("snap");
    }
    None
}

/// What is known of a Linux application.
#[derive(Debug)]
pub struct LinuxAudit {
    pub path: String,
    pub hardening: ElfHardening,
    /// Sandbox permissions for flatpak / snap apps, if applicable.
    pub sandbox: Option<SandboxInfo>,
    /// Informational ASAR hash for Electron apps (no signed baseline on Linux).
    pub asar: Option<AsarInfo>,
}

/// Audits a Linux application.
pub fn audit(tree: &MemTree, path: &str, root: &str, executable: Option<&str>) -> (r: LinuxAudit)
    ensures
        r.path@ == path@,
        r.hardening == match executable {
            Some(e) => hardening_at(tree@, e@),
            None => unhardened(),
        },
        sandbox_view(r.sandbox) == sandboxed(
            tree@,
            match executable {
                Some(e) => e@,
                None => root@,
            },
        ),
        info_view(r.asar) == informed(tree@, root@),
{
    let hardening = match executable {
        Some(e) => elf_hardening(tree, e),
        None => ElfHardening::default(),
    };
    LinuxAudit {
        path: path.to_owned(),
        hardening,
        sandbox: detect_sandbox(tree, root, executable),
        asar: info(tree, root),
    }
}

/// Without an ELF image no mitigation is claimed, and a full RELRO takes the segment and
/// bindings at start.
pub proof fn lemma_hardening_is_earned(elf: Option<ElfView>)
    ensures
        !hardening(elf).is_elf <==> elf is None,
        !hardening(elf).is_elf ==> hardening(elf) == unhardened(),
        hardening(elf).relro == RelroKind::Full ==> bound_now(elf->0.dynamic) && segment_flags(
            elf->0.segments,
            PT_GNU_RELRO,
            0,
        ) is Some,
        hardening(elf).pie ==> elf->0.kind == ET_DYN,
{
}

} // verus!
