//! NW.js probe.
//!
//! * **macOS**: `Contents/Frameworks/nwjs Framework.framework`; the Info.plist
//!   gives the NW.js version and string-scanning the framework binary yields
//!   the embedded Chromium version.
//! * **Windows**: `nw.dll` beside the executable.
//! * **Linux**: `lib/libnw.so` (or the `nw` binary).
//!
//! Off macOS there's no NW.js version string to read, so we report `"unknown"`
//! for it but still recover the Chromium version from the binary.

use vstd::prelude::*;

use crate::detect::app::{frameworks, has_lib, sibling, Layout, LayoutView};
use crate::detect::strings::{chromium_in, flat, scan_chromium, scan_electron_versions};
use crate::detect::{read_plist_version, unreadable, unreadable_of, version_at, DetectError, DetectFault};
use crate::path::{file_name, file_name_of, push_of, pushed};
use crate::text::{copy_opt, is_text, opt_text, or_opt, or_text};
use crate::vfs::{dir_at, present, MemTree, Platform, Tree};

verus! {

/// What the probe found.
#[derive(Debug)]
pub struct Detection {
    pub nwjs_version: Option<String>,
    pub chromium_version: Option<String>,
}

/// The view of an optional detection.
pub open spec fn opt_view(o: Option<Detection>) -> Option<(Option<Seq<char>>, Option<Seq<char>>)> {
    match o {
        Some(d) => Some((opt_text(d.nwjs_version), opt_text(d.chromium_version))),
        None => None,
    }
}

/// The view of a fallible detection.
pub open spec fn result_view(r: Result<Option<Detection>, DetectError>) -> Result<
    Option<(Option<Seq<char>>, Option<Seq<char>>)>,
    DetectFault,
> {
    match r {
        Ok(o) => Ok(opt_view(o)),
        Err(e) => Err(e@),
    }
}

/// The property list and the binary of an NW.js framework: those of the first layout
/// that has the property list.
pub open spec fn framework_files(t: Tree, dir: Seq<char>) -> (Option<Seq<char>>, Option<Seq<char>>) {
    let p1 = pushed(dir, "Versions/A/Resources/Info.plist"@);
    let b1 = pushed(dir, "Versions/A/nwjs Framework"@);
    let p2 = pushed(dir, "Resources/Info.plist"@);
    let b2 = pushed(dir, "nwjs Framework"@);
    let if_present = |b: Seq<char>|
        if present(t, b) {
            Some(b)
        } else {
            None
        };
    if present(t, p1) {
        (Some(p1), if_present(b1))
    } else if present(t, p2) {
        (Some(p2), if_present(b2))
    } else {
        (None, None)
    }
}

/// Whether an application's executable is the `nw` binary itself.
pub open spec fn is_nw_binary(l: LayoutView) -> bool {
    match l.executable {
        Some(e) => l.platform == Platform::Linux && file_name(e) == Some("nw"@),
        None => false,
    }
}

fn is_nw_binary_of(layout: &Layout) -> (r: bool)
    ensures
        r == is_nw_binary(layout@),
{
    match (&layout.executable, layout.platform) {
        (Some(e), Platform::Linux) => is_text(&file_name_of(e.as_str()), "nw"),
        _ => false,
    }
}

/// The probe.
pub open spec fn probed(t: Tree, l: LayoutView) -> Result<
    Option<(Option<Seq<char>>, Option<Seq<char>>)>,
    DetectFault,
> {
    if l.platform == Platform::Macos {
        let dir = pushed(frameworks(l), "nwjs Framework.framework"@);
        if !dir_at(t, dir) {
            Ok(None)
        } else {
            let (plist, bin) = framework_files(t, dir);
            let version = match plist {
                Some(p) => version_at(t, p),
                None => None,
            };
            match bin {
                None => Ok(Some((version, None))),
                Some(b) => match chromium_in(t, b) {
                    Some(chromium) => Ok(Some((version, chromium))),
                    None => Err(unreadable(b)),
                },
            }
        }
    } else if has_lib(t, l, "nw.dll"@) || sibling(t, l, "libnw"@) is Some || is_nw_binary(l) {
        let target = or_text(
            sibling(t, l, "nw.dll"@),
            or_text(sibling(t, l, "libnw"@), l.executable),
        );
        Ok(
            Some(
                (
                    Some("unknown"@),
                    match target {
                        Some(p) => flat(chromium_in(t, p)),
                        None => None,
                    },
                ),
            ),
        )
    } else {
        Ok(None)
    }
}

fn resolve_layout(tree: &MemTree, dir: &str) -> (r: (Option<String>, Option<String>))
    ensures
        (opt_text(r.0), opt_text(r.1)) == framework_files(tree@, dir@),
{
    let p1 = push_of(dir, "Versions/A/Resources/Info.plist");
    let b1 = push_of(dir, "Versions/A/nwjs Framework");
    let p2 = push_of(dir, "Resources/Info.plist");
    let b2 = push_of(dir, "nwjs Framework");
    if tree.has(p1.as_str()) {
        if tree.has(b1.as_str()) {
            (Some(p1), Some(b1))
        } else {
            (Some(p1), None)
        }
    } else if tree.has(p2.as_str()) {
        if tree.has(b2.as_str()) {
            (Some(p2), Some(b2))
        } else {
            (Some(p2), None)
        }
    } else {
        (None, None)
    }
}

/// Looks for NW.js.
pub fn detect(tree: &MemTree, layout: &Layout) -> (r: Result<Option<Detection>, DetectError>)
    requires
        layout.fits(tree@),
    ensures
        result_view(r) == probed(tree@, layout@),
{
    if layout.is_bundle() {
        let dir = push_of(layout.frameworks_dir().as_str(), "nwjs Framework.framework");
        if !tree.is_dir(dir.as_str()) {
            return Ok(None);
        }
        let (plist, bin) = resolve_layout(tree, dir.as_str());
        let nwjs_version = match &plist {
            Some(p) => read_plist_version(tree, p.as_str()),
            None => None,
        };
        return match &bin {
            None => Ok(Some(Detection { nwjs_version, chromium_version: None })),
            Some(b) => match scan_electron_versions(tree, b.as_str()) {
                Some((chromium_version, _)) => Ok(
                    Some(Detection { nwjs_version, chromium_version }),
                ),
                None => Err(unreadable_of(b.as_str())),
            },
        };
    }
    if !(layout.has_library(tree, "nw.dll") || layout.find_file(tree, "libnw").is_some()
        || is_nw_binary_of(layout)) {
        return Ok(None);
    }
    let target = or_opt(
        layout.find_file(tree, "nw.dll"),
        or_opt(layout.find_file(tree, "libnw"), copy_opt(&layout.executable)),
    );
    let chromium_version = match &target {
        Some(p) => scan_chromium(tree, p.as_str()),
        None => None,
    };
    Ok(Some(Detection { nwjs_version: Some("unknown".to_owned()), chromium_version }))
}

} // verus!
