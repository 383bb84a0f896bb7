//! Chromium-based browser probe.
//!
//! Standalone Chromium browsers (Chrome, Arc, Brave, Edge, Vivaldi, Opera, …)
//! aren't Electron and aren't CEF — they're the full browser shell.
//!
//! * **macOS**: a `<Vendor> Framework.framework` under `Contents/Frameworks/`;
//!   the version is in its Info.plist.
//! * **Windows / Linux**: a known browser executable name next to Chromium
//!   support files (`*.pak` / `icudtl.dat`); the version is string-scanned from
//!   the binary's `Chrome/<version>` UA marker.

use vstd::prelude::*;

use crate::detect::app::{frameworks, Layout, LayoutView};
use crate::detect::strings::{chromium_in, flat, scan_chromium};
use crate::detect::{read_plist_version, version_at};
use crate::path::{
    file_name, file_name_of, name_extension, name_extension_of, name_stem, name_stem_of, push_of, pushed,
};
use crate::text::{
    chars_of, contains, holds, lower, lower_of, opt_text, or_text, same, texts,
};
use crate::version::{cmp_version, rank, Rank};
use crate::vfs::{listing, present, MemTree, Platform, Tree};

verus! {

/// What the probe found.
#[derive(Debug)]
pub struct Detection {
    /// Chromium version, from the browser framework's Info.plist (macOS) or the
    /// binary's UA string (Windows / Linux).
    pub chromium_version: Option<String>,
}

/// The view of an optional detection.
pub open spec fn opt_view(o: Option<Detection>) -> Option<Option<Seq<char>>> {
    match o {
        Some(d) => Some(opt_text(d.chromium_version)),
        None => None,
    }
}

/// Known Chromium-browser executable basenames, in lower case and without suffix.
pub open spec fn is_browser(stem: Seq<char>) -> bool {
    ||| stem == "chrome"@
    ||| stem == "msedge"@
    ||| stem == "brave"@
    ||| stem == "arc"@
    ||| stem == "opera"@
    ||| stem == "vivaldi"@
    ||| stem == "chromium"@
    ||| stem == "chromium-browser"@
    ||| stem == "thorium"@
    ||| stem == "yandex"@
}

/// Whether a file name has the extension `pak`.
pub open spec fn is_pak(name: Seq<char>) -> bool {
    name_extension(name) is Some && lower(name_extension(name)->0) == "pak"@
}

/// Whether a directory holds Chromium runtime support files.
pub open spec fn has_support(t: Tree, dir: Seq<char>) -> bool {
    ||| present(t, pushed(dir, "icudtl.dat"@))
    ||| (listing(t, dir) matches Some(names) && exists|i: int|
        0 <= i < names.len() && is_pak(#[trigger] names[i]))
}

/// Framework directory markers of Chromium-based browsers.
pub open spec fn is_marked(name: Seq<char>) -> bool {
    ||| holds(name, "Google Chrome Framework.framework"@)
    ||| holds(name, "Chromium Framework.framework"@)
    ||| holds(name, "Brave Browser Framework.framework"@)
    ||| holds(name, "Microsoft Edge Framework.framework"@)
    ||| holds(name, "Arc Framework.framework"@)
    ||| holds(name, "Opera Framework.framework"@)
    ||| holds(name, "Vivaldi Framework.framework"@)
}

/// The first marked name from `i` on.
pub open spec fn first_marked(names: Seq<Seq<char>>, i: int) -> Option<Seq<char>>
    decreases names.len() - i,
{
    if i < 0 || i >= names.len() {
        None
    } else if is_marked(names[i]) {
        Some(names[i])
    } else {
        first_marked(names, i + 1)
    }
}

/// Whether a name is that of a version directory.
pub open spec fn is_version_name(name: Seq<char>) -> bool {
    name.len() > 0 && '0' <= name[0] <= '9'
}

/// The version of one version directory: what its property list declares, else its name.
pub open spec fn dir_version(t: Tree, dir: Seq<char>, name: Seq<char>) -> Seq<char> {
    match version_at(t, pushed(pushed(dir, name), "Resources/Info.plist"@)) {
        Some(v) => v,
        None => name,
    }
}

/// The newest of the first `n` version directories. The first of equals stays.
pub open spec fn newest(t: Tree, dir: Seq<char>, names: Seq<Seq<char>>, n: nat) -> Option<Seq<char>>
    decreases n,
{
    if n == 0 || n > names.len() {
        None
    } else {
        let best = newest(t, dir, names, (n - 1) as nat);
        if !is_version_name(names[n - 1]) {
            best
        } else {
            let v = dir_version(t, dir, names[n - 1]);
            if best is None || rank(v, best->0) == Rank::Greater {
                Some(v)
            } else {
                best
            }
        }
    }
}

/// The version of a browser framework: that of `Versions/Current`, else of its
/// top-level resources, else the newest version directory. After an update the
/// *previous* version's directory lingers, so the first entry alone will not do.
pub open spec fn framework_version(t: Tree, fw: Seq<char>) -> Option<Seq<char>> {
    let versions = pushed(fw, "Versions"@);
    or_text(
        version_at(t, pushed(versions, "Current/Resources/Info.plist"@)),
        or_text(
            version_at(t, pushed(fw, "Resources/Info.plist"@)),
            match listing(t, versions) {
                Some(names) => newest(t, versions, names, names.len()),
                None => None,
            },
        ),
    )
}

/// The probe.
pub open spec fn probed(t: Tree, l: LayoutView) -> Option<Option<Seq<char>>> {
    if l.platform == Platform::Macos {
        match listing(t, frameworks(l)) {
            Some(names) => match first_marked(names, 0) {
                Some(name) => Some(framework_version(t, pushed(frameworks(l), name))),
                None => None,
            },
            None => None,
        }
    } else {
        match l.executable {
            Some(exe) => if file_name(exe) is Some && is_browser(lower(name_stem(file_name(exe)->0)))
                && has_support(t, l.root) {
                Some(flat(chromium_in(t, exe)))
            } else {
                None
            },
            None => None,
        }
    }
}

fn is_browser_of(stem: &str) -> (r: bool)
    ensures
        r == is_browser(stem@),
{
    same(stem, "chrome") || same(stem, "msedge") || same(stem, "brave") || same(stem, "arc") || same(
        stem,
        "opera",
    ) || same(stem, "vivaldi") || same(stem, "chromium") || same(stem, "chromium-browser") || same(
        stem,
        "thorium",
    ) || same(stem, "yandex")
}

fn is_pak_of(name: &str) -> (r: bool)
    ensures
        r == is_pak(name@),
{
    match name_extension_of(name) {
        Some(ext) => same(lower_of(ext.as_str()).as_str(), "pak"),
        None => false,
    }
}

/// True if `dir` contains Chromium runtime support files (`icudtl.dat` or any
/// `.pak`).
fn has_chromium_support(tree: &MemTree, dir: &str) -> (r: bool)
    ensures
        r == has_support(tree@, dir@),
{
    if tree.has(push_of(dir, "icudtl.dat").as_str()) {
        return true;
    }
    let names = match tree.read_dir(dir) {
        Some(n) => n,
        None => {
            return false;
        },
    };
    let ghost all = texts(names@);
    let mut i: usize = 0;
    while i < names.len()
        invariant
            i <= names@.len(),
            all == texts(names@),
            listing(tree@, dir@) == Some(all),
            forall|j: int| 0 <= j < i ==> !is_pak(#[trigger] all[j]),
        decreases names.len() - i,
    {
        assert(all[i as int] == names@[i as int]@);
        if is_pak_of(names[i].as_str()) {
            assert(is_pak((listing(tree@, dir@)->0)[i as int]));
            return true;
        }
        i = i + 1;
    }
    false
}

fn is_marked_of(name: &str) -> (r: bool)
    ensures
        r == is_marked(name@),
{
    contains(name, "Google Chrome Framework.framework") || contains(
        name,
        "Chromium Framework.framework",
    ) || contains(name, "Brave Browser Framework.framework") || contains(
        name,
        "Microsoft Edge Framework.framework",
    ) || contains(name, "Arc Framework.framework") || contains(name, "Opera Framework.framework")
        || contains(name, "Vivaldi Framework.framework")
}

fn first_marked_of(names: &Vec<String>) -> (r: Option<String>)
    ensures
        opt_text(r) == first_marked(texts(names@), 0),
{
    let ghost all = texts(names@);
    let mut i: usize = 0;
    while i < names.len()
        invariant
            i <= names@.len(),
            all == texts(names@),
            first_marked(all, 0) == first_marked(all, i as int),
        decreases names.len() - i,
    {
        assert(all[i as int] == names@[i as int]@);
        if is_marked_of(names[i].as_str()) {
            return Some(names[i].clone());
        }
        i = i + 1;
    }
    None
}

fn is_newer(a: &str, b: &str) -> (r: bool)
    ensures
        r == (rank(a@, b@) == Rank::Greater),
{
    cmp_version(a, b).is_gt()
}

fn newest_of(tree: &MemTree, dir: &str, names: &Vec<String>) -> (r: Option<String>)
    ensures
        opt_text(r) == newest(tree@, dir@, texts(names@), names@.len()),
{
    let ghost all = texts(names@);
    let mut best: Option<String> = None;
    let mut i: usize = 0;
    while i < names.len()
        invariant
            i <= names@.len(),
            all == texts(names@),
            opt_text(best) == newest(tree@, dir@, all, i as nat),
        decreases names.len() - i,
    {
        let name = names[i].as_str();
        assert(all[i as int] == name@);
        let x = chars_of(name);
        // Skip `Current` and anything that isn't a version directory.
        if x.len() > 0 && '0' <= x[0] && x[0] <= '9' {
            let list = push_of(push_of(dir, name).as_str(), "Resources/Info.plist");
            let version = match read_plist_version(tree, list.as_str()) {
                Some(v) => v,
                None => name.to_owned(),
            };
            let newer = match &best {
                Some(b) => is_newer(version.as_str(), b.as_str()),
                None => true,
            };
            if newer {
                best = Some(version);
            }
        }
        i = i + 1;
    }
    best
}

/// Chrome-family frameworks keep one directory per installed version under
/// `Versions/`, with a `Current` symlink pointing at the active one.
fn read_chromium_version(tree: &MemTree, fw: &str) -> (r: Option<String>)
    ensures
        opt_text(r) == framework_version(tree@, fw@),
{
    let versions = push_of(fw, "Versions");
    match read_plist_version(
        tree,
        push_of(versions.as_str(), "Current/Resources/Info.plist").as_str(),
    ) {
        Some(v) => {
            return Some(v);
        },
        None => {},
    }
    match read_plist_version(tree, push_of(fw, "Resources/Info.plist").as_str()) {
        Some(v) => {
            return Some(v);
        },
        None => {},
    }
    // Last resort: enumerate version directories and take the highest.
    match tree.read_dir(versions.as_str()) {
        Some(names) => newest_of(tree, versions.as_str(), &names),
        None => None,
    }
}

/// Looks for a Chromium-based browser.
pub fn detect(tree: &MemTree, layout: &Layout) -> (r: Option<Detection>)
    ensures
        opt_view(r) == probed(tree@, layout@),
{
    if layout.is_bundle() {
        let dir = layout.frameworks_dir();
        return match tree.read_dir(dir.as_str()) {
            Some(names) => match first_marked_of(&names) {
                Some(name) => {
                    let fw = push_of(dir.as_str(), name.as_str());
                    Some(Detection { chromium_version: read_chromium_version(tree, fw.as_str()) })
                },
                None => None,
            },
            None => None,
        };
    }
    let exe = match &layout.executable {
        Some(e) => e.as_str(),
        None => {
            return None;
        },
    };
    let stem = match file_name_of(exe) {
        Some(name) => lower_of(name_stem_of(name.as_str()).as_str()),
        None => {
            return None;
        },
    };
    // Corroborate with Chromium support files so we don't flag an unrelated
    // binary that merely shares a name.
    if !is_browser_of(stem.as_str()) || !has_chromium_support(tree, layout.root.as_str()) {
        return None;
    }
    Some(Detection { chromium_version: scan_chromium(tree, exe) })
}

} // verus!
