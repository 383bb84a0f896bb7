//! Qt probe.
//!
//! * **macOS**: `Qt*.framework` bundles under `Contents/Frameworks/`.
//!   `QtCore.framework` pins the Qt version (its Info.plist); a
//!   `QtWebEngineCore.framework` means Qt embeds Chromium, which we
//!   string-scan for the `Chrome/<version>` UA marker.
//! * **Windows**: `Qt{5,6}Core.dll` (+ `Qt{5,6}WebEngineCore.dll`).
//! * **Linux**: `libQt{5,6}Core.so*` (+ `libQt{5,6}WebEngineCore.so*`), bundled
//!   or imported by the binary.
//!
//! Off macOS the Qt version is read by string-scanning the Qt core library for
//! a `Qt x.y.z` marker, falling back to `"unknown"`.

use vstd::prelude::*;

use crate::detect::app::{frameworks, has_lib, sibling, Layout, LayoutView};
use crate::detect::strings::{
    chromium_in, find_first, flat, qt_pattern, scan_chromium, scan_electron_versions, scanned,
};
use crate::detect::{read_plist_version, unreadable, unreadable_of, version_at, DetectError, DetectFault};
use crate::path::{push_of, pushed};
use crate::text::{opt_text, or_opt, or_text};
use crate::vfs::{dir_at, present, MemTree, Platform, Tree};

verus! {

/// What the probe found.
#[derive(Debug)]
pub struct Detection {
    pub qt_version: Option<String>,
    pub chromium_version: Option<String>,
}

/// The view of an optional detection.
pub open spec fn opt_view(o: Option<Detection>) -> Option<(Option<Seq<char>>, Option<Seq<char>>)> {
    match o {
        Some(d) => Some((opt_text(d.qt_version), opt_text(d.chromium_version))),
        None => None,
    }
}

/// The view of a fallible detection.
pub open spec fn result_view(r: Result<Option<Detection>, DetectError>) -> Result<
    Option<(Option<Seq<char>>, Option<Seq<char>>)>,
    DetectFault,
> {
    match r {
        Ok(o) => Ok(opt_view(o)),
        Err(e) => Err(e@),
    }
}

/// The version that one of the property lists of a Qt core framework declares.
pub open spec fn core_version(t: Tree, dir: Seq<char>) -> Option<Seq<char>> {
    or_text(
        version_at(t, pushed(dir, "Versions/A/Resources/Info.plist"@)),
        or_text(
            version_at(t, pushed(dir, "Versions/5/Resources/Info.plist"@)),
            or_text(
                version_at(t, pushed(dir, "Versions/6/Resources/Info.plist"@)),
                version_at(t, pushed(dir, "Resources/Info.plist"@)),
            ),
        ),
    )
}

/// The first binary of a Qt web engine framework that is there.
pub open spec fn engine_binary(t: Tree, dir: Seq<char>) -> Option<Seq<char>> {
    if present(t, pushed(dir, "Versions/A/QtWebEngineCore"@)) {
        Some(pushed(dir, "Versions/A/QtWebEngineCore"@))
    } else if present(t, pushed(dir, "Versions/5/QtWebEngineCore"@)) {
        Some(pushed(dir, "Versions/5/QtWebEngineCore"@))
    } else if present(t, pushed(dir, "Versions/6/QtWebEngineCore"@)) {
        Some(pushed(dir, "Versions/6/QtWebEngineCore"@))
    } else if present(t, pushed(dir, "QtWebEngineCore"@)) {
        Some(pushed(dir, "QtWebEngineCore"@))
    } else {
        None
    }
}

/// The Chromium build that a bundled Qt web engine embeds.
pub open spec fn engine_chromium(t: Tree, frameworks: Seq<char>) -> Result<
    Option<Seq<char>>,
    DetectFault,
> {
    let dir = pushed(frameworks, "QtWebEngineCore.framework"@);
    if !dir_at(t, dir) {
        Ok(None)
    } else {
        match engine_binary(t, dir) {
            None => Ok(None),
            Some(b) => match chromium_in(t, b) {
                Some(v) => Ok(v),
                None => Err(unreadable(b)),
            },
        }
    }
}

/// The probe.
pub open spec fn probed(t: Tree, l: LayoutView) -> Result<
    Option<(Option<Seq<char>>, Option<Seq<char>>)>,
    DetectFault,
> {
    if l.platform == Platform::Macos {
        let core = pushed(frameworks(l), "QtCore.framework"@);
        if !dir_at(t, core) {
            Ok(None)
        } else {
            match engine_chromium(t, frameworks(l)) {
                Ok(chromium) => Ok(Some((core_version(t, core), chromium))),
                Err(e) => Err(e),
            }
        }
    } else if has_lib(t, l, "qt5core"@) || has_lib(t, l, "qt6core"@) {
        let lib = or_text(sibling(t, l, "qt5core"@), sibling(t, l, "qt6core"@));
        let engine = or_text(
            sibling(t, l, "qt5webenginecore"@),
            sibling(t, l, "qt6webenginecore"@),
        );
        Ok(
            Some(
                (
                    or_text(
                        match lib {
                            Some(p) => flat(scanned(t, p, qt_pattern())),
                            None => None,
                        },
                        Some("unknown"@),
                    ),
                    match engine {
                        Some(p) => flat(chromium_in(t, p)),
                        None => None,
                    },
                ),
            ),
        )
    } else {
        Ok(None)
    }
}

fn read_qt_core_version(tree: &MemTree, dir: &str) -> (r: Option<String>)
    ensures
        opt_text(r) == core_version(tree@, dir@),
{
    or_opt(
        read_plist_version(tree, push_of(dir, "Versions/A/Resources/Info.plist").as_str()),
        or_opt(
            read_plist_version(tree, push_of(dir, "Versions/5/Resources/Info.plist").as_str()),
            or_opt(
                read_plist_version(tree, push_of(dir, "Versions/6/Resources/Info.plist").as_str()),
                read_plist_version(tree, push_of(dir, "Resources/Info.plist").as_str()),
            ),
        ),
    )
}

fn engine_binary_of(tree: &MemTree, dir: &str) -> (r: Option<String>)
    ensures
        opt_text(r) == engine_binary(tree@, dir@),
{
    let a = push_of(dir, "Versions/A/QtWebEngineCore");
    if tree.has(a.as_str()) {
        return Some(a);
    }
    let b = push_of(dir, "Versions/5/QtWebEngineCore");
    if tree.has(b.as_str()) {
        return Some(b);
    }
    let c = push_of(dir, "Versions/6/QtWebEngineCore");
    if tree.has(c.as_str()) {
        return Some(c);
    }
    let d = push_of(dir, "QtWebEngineCore");
    if tree.has(d.as_str()) {
        return Some(d);
    }
    None
}

fn scan_qt_webengine_chromium(tree: &MemTree, frameworks: &str) -> (r: Result<
    Option<String>,
    DetectError,
>)
    ensures
        match r {
            Ok(o) => engine_chromium(tree@, frameworks@) == Ok::<_, DetectFault>(opt_text(o)),
            Err(e) => engine_chromium(tree@, frameworks@) == Err::<Option<Seq<char>>, _>(e@),
        },
{
    let dir = push_of(frameworks, "QtWebEngineCore.framework");
    if !tree.is_dir(dir.as_str()) {
        return Ok(None);
    }
    match engine_binary_of(tree, dir.as_str()) {
        None => Ok(None),
        Some(b) => match scan_electron_versions(tree, b.as_str()) {
            Some((chromium, _)) => Ok(chromium),
            None => Err(unreadable_of(b.as_str())),
        },
    }
}

fn scan_qt_version(tree: &MemTree, lib: &str) -> (r: Option<String>)
    ensures
        opt_text(r) == flat(scanned(tree@, lib@, qt_pattern())),
{
    match tree.read(lib) {
        Some(b) => find_first("Qt (\\d+\\.\\d+\\.\\d+)", b),
        None => None,
    }
}

/// Looks for Qt.
pub fn detect(tree: &MemTree, layout: &Layout) -> (r: Result<Option<Detection>, DetectError>)
    requires
        layout.fits(tree@),
    ensures
        result_view(r) == probed(tree@, layout@),
{
    if layout.is_bundle() {
        let frameworks = layout.frameworks_dir();
        let core = push_of(frameworks.as_str(), "QtCore.framework");
        if !tree.is_dir(core.as_str()) {
            return Ok(None);
        }
        return match scan_qt_webengine_chromium(tree, frameworks.as_str()) {
            Ok(chromium_version) => Ok(
                Some(
                    Detection {
                        qt_version: read_qt_core_version(tree, core.as_str()),
                        chromium_version,
                    },
                ),
            ),
            Err(e) => Err(e),
        };
    }
    if !(layout.has_library(tree, "qt5core") || layout.has_library(tree, "qt6core")) {
        return Ok(None);
    }
    let lib = or_opt(layout.find_file(tree, "qt5core"), layout.find_file(tree, "qt6core"));
    let marker = match &lib {
        Some(p) => scan_qt_version(tree, p.as_str()),
        None => None,
    };
    let qt_version = or_opt(marker, Some("unknown".to_owned()));
    // QtWebEngine bundles a Chromium content shell.
    let engine = or_opt(
        layout.find_file(tree, "qt5webenginecore"),
        layout.find_file(tree, "qt6webenginecore"),
    );
    let chromium_version = match &engine {
        Some(p) => scan_chromium(tree, p.as_str()),
        None => None,
    };
    Ok(Some(Detection { qt_version, chromium_version }))
}

} // verus!
