//! Electron detection.
//!
//! * **macOS**: `Contents/Frameworks/Electron Framework.framework` — its
//!   Info.plist carries the Electron version; string-scanning its Mach-O
//!   yields Chromium and Node.js. Two layouts exist: *versioned*
//!   (`Versions/A/...`) and *flat*.
//! * **Windows / Linux**: no framework bundle. The signal is a
//!   `resources/{app,electron}.asar` archive next to Chromium support files;
//!   the Electron / Chromium / Node versions come from string-scanning the main
//!   executable.

use vstd::prelude::*;

use crate::detect::app::{frameworks, resources, Layout, LayoutView};
use crate::detect::strings::{
    captured, chromium_pattern, electron_pattern, node_pattern, scan_electron_version,
    scan_electron_versions,
};
use crate::detect::{
    no_versions, plist_at, read_plist, unreadable, unreadable_of, Confidence, DetectError, DetectFault,
    Versions, VersionsView,
};
use crate::path::{push_of, pushed};
use crate::plist::{get_text, get_text_of};
use crate::text::opt_text;
use crate::vfs::{contents, dir_at, file_at, present, MemTree, Platform, Tree};

verus! {

/// What the probe found.
#[derive(Debug)]
pub struct Detection {
    pub confidence: Confidence,
    pub versions: Versions,
}

/// The view of an optional detection.
pub open spec fn opt_view(o: Option<Detection>) -> Option<(Confidence, VersionsView)> {
    match o {
        Some(d) => Some((d.confidence, d.versions@)),
        None => None,
    }
}

/// The view of a fallible detection.
pub open spec fn result_view(r: Result<Option<Detection>, DetectError>) -> Result<
    Option<(Confidence, VersionsView)>,
    DetectFault,
> {
    match r {
        Ok(o) => Ok(opt_view(o)),
        Err(e) => Err(e@),
    }
}

/// How sure two versions make it.
pub open spec fn confidence(electron: bool, chromium: bool) -> Confidence {
    if electron && chromium {
        Confidence::High
    } else if electron || chromium {
        Confidence::Medium
    } else {
        Confidence::Low
    }
}

/// A detection with these versions.
pub open spec fn detected(
    electron: Option<Seq<char>>,
    chromium: Option<Seq<char>>,
    node: Option<Seq<char>>,
) -> (Confidence, VersionsView) {
    (
        confidence(electron is Some, chromium is Some),
        VersionsView { electron, chromium, node, ..no_versions() },
    )
}

/// Whether an archive or an unpacked tree that only Electron ships is there.
pub open spec fn has_asar(t: Tree, l: LayoutView) -> bool {
    let r = resources(l);
    ||| file_at(t, pushed(r, "app.asar"@))
    ||| file_at(t, pushed(r, "electron.asar"@))
    ||| file_at(t, pushed(r, "default_app.asar"@))
    ||| file_at(t, pushed(pushed(r, "app"@), "package.json"@))
    ||| file_at(t, pushed(l.root, "node_modules.asar"@))
}

/// The probe outside the bundle layout. The `Electron/<v>` user-agent token and the
/// bundled `node-v` URL distinguish Electron from a plain Chromium browser.
pub open spec fn portable(t: Tree, l: LayoutView) -> Result<
    Option<(Confidence, VersionsView)>,
    DetectFault,
> {
    if l.executable is Some && present(t, l.executable->0) {
        match contents(t, l.executable->0) {
            None => Err(unreadable(l.executable->0)),
            Some(b) => {
                let electron = captured(electron_pattern(), b);
                let node = captured(node_pattern(), b);
                if has_asar(t, l) || electron is Some || node is Some {
                    Ok(Some(detected(electron, captured(chromium_pattern(), b), node)))
                } else {
                    Ok(None)
                }
            },
        }
    } else if has_asar(t, l) {
        Ok(Some(detected(None, None, None)))
    } else {
        Ok(None)
    }
}

/// The first of two paths that names something.
pub open spec fn first_present(t: Tree, a: Seq<char>, b: Seq<char>) -> Option<Seq<char>> {
    if present(t, a) {
        Some(a)
    } else if present(t, b) {
        Some(b)
    } else {
        None
    }
}

/// The property list and the binary of an Electron framework: of one layout where it
/// is whole, else the first of each.
pub open spec fn framework_files(t: Tree, dir: Seq<char>) -> (Option<Seq<char>>, Option<Seq<char>>) {
    let p1 = pushed(dir, "Versions/A/Resources/Info.plist"@);
    let b1 = pushed(dir, "Versions/A/Electron Framework"@);
    let p2 = pushed(dir, "Resources/Info.plist"@);
    let b2 = pushed(dir, "Electron Framework"@);
    if present(t, p1) && present(t, b1) {
        (Some(p1), Some(b1))
    } else if present(t, p2) && present(t, b2) {
        (Some(p2), Some(b2))
    } else {
        (first_present(t, p1, p2), first_present(t, b1, b2))
    }
}

/// The probe under the bundle layout.
pub open spec fn bundled(t: Tree, l: LayoutView) -> Result<
    Option<(Confidence, VersionsView)>,
    DetectFault,
> {
    let dir = pushed(frameworks(l), "Electron Framework.framework"@);
    if !dir_at(t, dir) {
        Ok(None)
    } else {
        let (plist, bin) = framework_files(t, dir);
        let electron = match plist {
            Some(p) => match plist_at(t, p) {
                Some(v) => get_text(v, 0, "CFBundleVersion"@),
                None => None,
            },
            None => None,
        };
        match bin {
            None => Ok(Some(detected(electron, None, None))),
            Some(b) => match contents(t, b) {
                None => Err(unreadable(b)),
                Some(data) => Ok(
                    Some(
                        detected(
                            electron,
                            captured(chromium_pattern(), data),
                            captured(node_pattern(), data),
                        ),
                    ),
                ),
            },
        }
    }
}

/// The probe.
pub open spec fn probed(t: Tree, l: LayoutView) -> Result<
    Option<(Confidence, VersionsView)>,
    DetectFault,
> {
    if l.platform == Platform::Macos {
        bundled(t, l)
    } else {
        portable(t, l)
    }
}

fn detection_of(
    electron: Option<String>,
    chromium: Option<String>,
    node: Option<String>,
) -> (r: Detection)
    ensures
        (r.confidence, r.versions@) == detected(
            opt_text(electron),
            opt_text(chromium),
            opt_text(node),
        ),
{
    let confidence = if electron.is_some() && chromium.is_some() {
        Confidence::High
    } else if electron.is_some() || chromium.is_some() {
        Confidence::Medium
    } else {
        // Only the `.asar` matched (stripped binary) — still Electron.
        Confidence::Low
    };
    let mut versions = Versions::default();
    versions.electron = electron;
    versions.chromium = chromium;
    versions.node = node;
    Detection { confidence, versions }
}

fn has_asar_of(tree: &MemTree, layout: &Layout) -> (r: bool)
    ensures
        r == has_asar(tree@, layout@),
{
    let dir = layout.resources_dir();
    let d = dir.as_str();
    // An `.asar` is Electron-specific. The `resources/app` unpacked layout
    // and a top-level `node_modules.asar` are equally telling.
    tree.is_file(push_of(d, "app.asar").as_str()) || tree.is_file(push_of(d, "electron.asar").as_str())
        || tree.is_file(push_of(d, "default_app.asar").as_str()) || tree.is_file(
        push_of(push_of(d, "app").as_str(), "package.json").as_str(),
    ) || tree.is_file(push_of(layout.root.as_str(), "node_modules.asar").as_str())
}

fn detect_portable(tree: &MemTree, layout: &Layout) -> (r: Result<Option<Detection>, DetectError>)
    ensures
        result_view(r) == portable(tree@, layout@),
{
    let asar = has_asar_of(tree, layout);
    match &layout.executable {
        Some(exe) => {
            if tree.has(exe.as_str()) {
                let electron = match scan_electron_version(tree, exe.as_str()) {
                    Some(v) => v,
                    None => {
                        return Err(unreadable_of(exe.as_str()));
                    },
                };
                let (chromium, node) = match scan_electron_versions(tree, exe.as_str()) {
                    Some(pair) => pair,
                    None => {
                        return Err(unreadable_of(exe.as_str()));
                    },
                };
                if asar || electron.is_some() || node.is_some() {
                    return Ok(Some(detection_of(electron, chromium, node)));
                }
                return Ok(None);
            }
        },
        None => {},
    }
    if asar {
        Ok(Some(detection_of(None, None, None)))
    } else {
        Ok(None)
    }
}

fn first_present_of(tree: &MemTree, a: String, b: String) -> (r: Option<String>)
    ensures
        opt_text(r) == first_present(tree@, a@, b@),
{
    if tree.has(a.as_str()) {
        Some(a)
    } else if tree.has(b.as_str()) {
        Some(b)
    } else {
        None
    }
}

fn resolve_layout(tree: &MemTree, dir: &str) -> (r: (Option<String>, Option<String>))
    ensures
        (opt_text(r.0), opt_text(r.1)) == framework_files(tree@, dir@),
{
    let p1 = push_of(dir, "Versions/A/Resources/Info.plist");
    let b1 = push_of(dir, "Versions/A/Electron Framework");
    let p2 = push_of(dir, "Resources/Info.plist");
    let b2 = push_of(dir, "Electron Framework");
    if tree.has(p1.as_str()) && tree.has(b1.as_str()) {
        return (Some(p1), Some(b1));
    }
    if tree.has(p2.as_str()) && tree.has(b2.as_str()) {
        return (Some(p2), Some(b2));
    }
    (first_present_of(tree, p1, p2), first_present_of(tree, b1, b2))
}

fn detect_bundled(tree: &MemTree, layout: &Layout) -> (r: Result<Option<Detection>, DetectError>)
    ensures
        result_view(r) == bundled(tree@, layout@),
{
    let dir = push_of(layout.frameworks_dir().as_str(), "Electron Framework.framework");
    if !tree.is_dir(dir.as_str()) {
        return Ok(None);
    }
    let (plist, bin) = resolve_layout(tree, dir.as_str());
    let electron = match &plist {
        Some(p) => match read_plist(tree, p.as_str()) {
            Some(v) => get_text_of(&v, 0, "CFBundleVersion"),
            None => None,
        },
        None => None,
    };
    match &bin {
        None => Ok(Some(detection_of(electron, None, None))),
        Some(b) => match scan_electron_versions(tree, b.as_str()) {
            Some((chromium, node)) => Ok(Some(detection_of(electron, chromium, node))),
            None => Err(unreadable_of(b.as_str())),
        },
    }
}

/// Looks for Electron.
pub fn detect(tree: &MemTree, layout: &Layout) -> (r: Result<Option<Detection>, DetectError>)
    ensures
        result_view(r) == probed(tree@, layout@),
{
    if layout.is_bundle() {
        detect_bundled(tree, layout)
    } else {
        detect_portable(tree, layout)
    }
}

} // verus!
