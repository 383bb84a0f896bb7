//! Java / OpenJDK probe for bundled JREs.
//!
//! JVM apps bundle a runtime whose `release` file carries `JAVA_VERSION="…"` —
//! the authoritative version. We probe the conventional locations per platform
//! and parse that line.
//!
//! If no `release` file matches but the launcher name looks like a JVM stub we
//! still flag the app as Java with an unknown version.

use vstd::prelude::*;
use vstd::utf8::*;

use crate::bytes::utf8_text;
use crate::detect::app::{Layout, LayoutView};
use crate::path::{file_name, file_name_of, push_of, pushed};
use crate::text::{
    chars_of, closes, ends_with, opens, opt_text, or_opt, or_text, same, slice_of, split, split_of,
    starts_with, text_of, texts, trim, trim_of, CharClass,
};
use crate::vfs::{contents, listing, MemTree, Platform, Tree};

verus! {

/// What the probe found.
#[derive(Debug)]
pub struct Detection {
    pub version: Option<String>,
}

/// The view of an optional detection.
pub open spec fn opt_view(o: Option<Detection>) -> Option<Option<Seq<char>>> {
    match o {
        Some(d) => Some(opt_text(d.version)),
        None => None,
    }
}

/// The version that one line of a release file declares.
pub open spec fn line_version(line: Seq<char>) -> Option<Seq<char>> {
    let s = trim(line, CharClass::White);
    if opens(s, "JAVA_VERSION="@) {
        Some(trim(s.skip("JAVA_VERSION="@.len() as int), CharClass::Only('"')))
    } else {
        None
    }
}

/// The version that the lines from `i` on declare first.
pub open spec fn first_version(lines: Seq<Seq<char>>, i: int) -> Option<Seq<char>>
    decreases lines.len() - i,
{
    if i < 0 || i >= lines.len() {
        None
    } else {
        match line_version(lines[i]) {
            Some(v) => Some(v),
            None => first_version(lines, i + 1),
        }
    }
}

/// The version that the text of a release file declares.
pub open spec fn release_version(text: Seq<char>) -> Option<Seq<char>> {
    first_version(split(text, CharClass::Only('\n')), 0)
}

/// The version that the release file at `p` declares.
pub open spec fn release_at(t: Tree, p: Seq<char>) -> Option<Seq<char>> {
    match contents(t, p) {
        Some(b) => if valid_utf8(b) {
            release_version(decode_utf8(b))
        } else {
            None
        },
        None => None,
    }
}

/// The launcher names of JVM stubs.
pub open spec fn is_launcher(name: Seq<char>) -> bool {
    ||| name == "JavaAppLauncher"@
    ||| name == "JavaApplicationStub"@
    ||| name == "java"@
    ||| name == "javaw"@
    ||| name == "java.exe"@
    ||| name == "javaw.exe"@
}

/// Whether a plug-in directory name is that of a runtime.
pub open spec fn is_runtime_name(name: Seq<char>) -> bool {
    closes(name, ".jdk"@) || name == "jre"@ || closes(name, ".jre"@)
}

/// The version of the first runtime among the plug-ins from `i` on.
pub open spec fn plugin_version(t: Tree, dir: Seq<char>, names: Seq<Seq<char>>, i: int) -> Option<
    Seq<char>,
>
    decreases names.len() - i,
{
    if i < 0 || i >= names.len() {
        None
    } else {
        let here = if is_runtime_name(names[i]) {
            release_at(t, pushed(pushed(dir, names[i]), "Contents/Home/release"@))
        } else {
            None
        };
        match here {
            Some(v) => Some(v),
            None => plugin_version(t, dir, names, i + 1),
        }
    }
}

/// The version of a bundled runtime.
pub open spec fn bundled_version(t: Tree, l: LayoutView) -> Option<Seq<char>> {
    if l.platform == Platform::Macos {
        let dir = pushed(l.root, "Contents/PlugIns"@);
        or_text(
            release_at(t, pushed(l.root, "Contents/Runtime/Contents/Home/release"@)),
            or_text(
                release_at(t, pushed(l.root, "Contents/Resources/Java/jre/release"@)),
                match listing(t, dir) {
                    Some(names) => plugin_version(t, dir, names, 0),
                    None => None,
                },
            ),
        )
    } else {
        or_text(
            release_at(t, pushed(l.root, "runtime/release"@)),
            or_text(
                release_at(t, pushed(l.root, "jre/release"@)),
                release_at(t, pushed(l.root, "lib/runtime/release"@)),
            ),
        )
    }
}

/// The probe.
pub open spec fn probed(t: Tree, l: LayoutView) -> Option<Option<Seq<char>>> {
    match bundled_version(t, l) {
        Some(v) => Some(Some(v)),
        None => if l.executable is Some && file_name(l.executable->0) is Some && is_launcher(
            file_name(l.executable->0)->0,
        ) {
            Some(Some("unknown"@))
        } else {
            None
        },
    }
}

fn is_java_launcher(name: &str) -> (r: bool)
    ensures
        r == is_launcher(name@),
{
    same(name, "JavaAppLauncher") || same(name, "JavaApplicationStub") || same(name, "java") || same(
        name,
        "javaw",
    ) || same(name, "java.exe") || same(name, "javaw.exe")
}

fn line_version_of(line: &str) -> (r: Option<String>)
    ensures
        opt_text(r) == line_version(line@),
{
    let x = trim_of(&chars_of(line), CharClass::White);
    let s = text_of(x.as_slice());
    if !starts_with(s.as_str(), "JAVA_VERSION=") {
        return None;
    }
    let n = chars_of("JAVA_VERSION=").len();
    let rest = slice_of(&x, n, x.len());
    assert(rest@ =~= s@.skip("JAVA_VERSION="@.len() as int));
    // Value is quoted like `"24.0.1"`.
    Some(text_of(trim_of(&rest, CharClass::Only('"')).as_slice()))
}

/// The version that the text of a release file declares.
pub fn parse_release(text: &str) -> (r: Option<String>)
    ensures
        opt_text(r) == release_version(text@),
{
    let lines = split_of(text, CharClass::Only('\n'));
    let ghost all = texts(lines@);
    let mut i: usize = 0;
    while i < lines.len()
        invariant
            i <= lines@.len(),
            all == texts(lines@),
            release_version(text@) == first_version(all, i as int),
        decreases lines.len() - i,
    {
        assert(all[i as int] == lines@[i as int]@);
        match line_version_of(lines[i].as_str()) {
            Some(v) => {
                return Some(v);
            },
            None => {},
        }
        i = i + 1;
    }
    None
}

fn parse_release_file(tree: &MemTree, path: &str) -> (r: Option<String>)
    ensures
        opt_text(r) == release_at(tree@, path@),
{
    match tree.read(path) {
        Some(b) => match utf8_text(b) {
            Some(text) => parse_release(text.as_str()),
            None => None,
        },
        None => None,
    }
}

fn plugin_version_of(tree: &MemTree, dir: &str) -> (r: Option<String>)
    ensures
        opt_text(r) == match listing(tree@, dir@) {
            Some(names) => plugin_version(tree@, dir@, names, 0),
            None => None,
        },
{
    let names = match tree.read_dir(dir) {
        Some(n) => n,
        None => {
            return None;
        },
    };
    let ghost all = texts(names@);
    let mut i: usize = 0;
    while i < names.len()
        invariant
            i <= names@.len(),
            all == texts(names@),
            listing(tree@, dir@) == Some(all),
            plugin_version(tree@, dir@, all, 0) == plugin_version(tree@, dir@, all, i as int),
        decreases names.len() - i,
    {
        let name = names[i].as_str();
        assert(all[i as int] == name@);
        if ends_with(name, ".jdk") || same(name, "jre") || ends_with(name, ".jre") {
            let release = push_of(push_of(dir, name).as_str(), "Contents/Home/release");
            match parse_release_file(tree, release.as_str()) {
                Some(v) => {
                    return Some(v);
                },
                None => {},
            }
        }
        i = i + 1;
    }
    None
}

fn bundled_version_of(tree: &MemTree, layout: &Layout) -> (r: Option<String>)
    ensures
        opt_text(r) == bundled_version(tree@, layout@),
{
    let root = layout.root.as_str();
    if layout.is_bundle() {
        or_opt(
            parse_release_file(
                tree,
                push_of(root, "Contents/Runtime/Contents/Home/release").as_str(),
            ),
            or_opt(
                parse_release_file(
                    tree,
                    push_of(root, "Contents/Resources/Java/jre/release").as_str(),
                ),
                plugin_version_of(tree, push_of(root, "Contents/PlugIns").as_str()),
            ),
        )
    } else {
        or_opt(
            parse_release_file(tree, push_of(root, "runtime/release").as_str()),
            or_opt(
                parse_release_file(tree, push_of(root, "jre/release").as_str()),
                parse_release_file(tree, push_of(root, "lib/runtime/release").as_str()),
            ),
        )
    }
}

/// Looks for a bundled Java runtime.
pub fn detect(tree: &MemTree, layout: &Layout) -> (r: Option<Detection>)
    ensures
        opt_view(r) == probed(tree@, layout@),
{
    match bundled_version_of(tree, layout) {
        Some(v) => {
            return Some(Detection { version: Some(v) });
        },
        None => {},
    }
    // Last-ditch: executable name hints at Java.
    match &layout.executable {
        Some(exe) => match file_name_of(exe.as_str()) {
            Some(name) => {
                if is_java_launcher(name.as_str()) {
                    return Some(Detection { version: Some("unknown".to_owned()) });
                }
            },
            None => {},
        },
        None => {},
    }
    None
}

} // verus!
