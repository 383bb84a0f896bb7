//! CEF (Chromium Embedded Framework) probe.
//!
//! CEF ships its own runtime, independent of Electron. An app can be *both*
//! Tauri and CEF, so this probe runs regardless of the primary verdict.
//!
//! We report the **embedded Chromium build** so it can be matched against
//! Chromium advisories.
//!
//! * **macOS**: the framework's plist declares the *CEF* release version, so we
//!   string-scan the framework binary's `Chrome/<version>` UA marker for the real
//!   Chromium build, falling back to the plist only if that fails.
//! * **Windows / Linux**: `libcef.dll` / `libcef.so` beside the executable (or
//!   imported by it). The Chromium version is string-scanned from that library.

use vstd::prelude::*;

use crate::detect::app::{frameworks, has_lib, sibling, Layout, LayoutView};
use crate::detect::flutter::{framework_version, framework_version_of};
use crate::detect::strings::{chromium_in, flat, scan_chromium};
use crate::path::{push_of, pushed};
use crate::text::{copy_opt, opt_text, or_opt, or_text};
use crate::vfs::{dir_at, MemTree, Platform, Tree};

verus! {

/// The Chromium build that one of the binaries of a CEF framework embeds.
pub open spec fn framework_build(t: Tree, dir: Seq<char>) -> Option<Seq<char>> {
    or_text(
        flat(chromium_in(t, pushed(dir, "Chromium Embedded Framework"@))),
        or_text(
            flat(chromium_in(t, pushed(dir, "Versions/Current/Chromium Embedded Framework"@))),
            flat(chromium_in(t, pushed(dir, "Versions/A/Chromium Embedded Framework"@))),
        ),
    )
}

/// The probe.
pub open spec fn probed(t: Tree, l: LayoutView) -> Option<Seq<char>> {
    if l.platform == Platform::Macos {
        let dir = pushed(frameworks(l), "Chromium Embedded Framework.framework"@);
        if dir_at(t, dir) {
            or_text(framework_build(t, dir), or_text(framework_version(t, dir), Some("unknown"@)))
        } else {
            None
        }
    } else if has_lib(t, l, "libcef"@) {
        let target = or_text(sibling(t, l, "libcef"@), l.executable);
        or_text(
            match target {
                Some(p) => flat(chromium_in(t, p)),
                None => None,
            },
            Some("unknown"@),
        )
    } else {
        None
    }
}

/// Return the embedded Chromium build if the app embeds CEF, else `None`.
pub fn detect(tree: &MemTree, layout: &Layout) -> (r: Option<String>)
    requires
        layout.fits(tree@),
    ensures
        opt_text(r) == probed(tree@, layout@),
{
    if layout.is_bundle() {
        let dir = push_of(
            layout.frameworks_dir().as_str(),
            "Chromium Embedded Framework.framework",
        );
        let d = dir.as_str();
        if !tree.is_dir(d) {
            return None;
        }
        // Prefer the real Chromium build scanned from the framework binary's
        // UA string. The binary lives at the framework root (a symlink into
        // `Versions/Current`) on a normal layout; try the versioned paths too.
        let build = or_opt(
            scan_chromium(tree, push_of(d, "Chromium Embedded Framework").as_str()),
            or_opt(
                scan_chromium(
                    tree,
                    push_of(d, "Versions/Current/Chromium Embedded Framework").as_str(),
                ),
                scan_chromium(tree, push_of(d, "Versions/A/Chromium Embedded Framework").as_str()),
            ),
        );
        // Fall back to the plist's CEF version if the scan found nothing.
        return or_opt(build, or_opt(framework_version_of(tree, d), Some("unknown".to_owned())));
    }
    if !layout.has_library(tree, "libcef") {
        return None;
    }
    // Scan the CEF library (or the main exe) for the Chromium UA version.
    let target = or_opt(layout.find_file(tree, "libcef"), copy_opt(&layout.executable));
    let version = match &target {
        Some(p) => scan_chromium(tree, p.as_str()),
        None => None,
    };
    or_opt(version, Some("unknown".to_owned()))
}

} // verus!
