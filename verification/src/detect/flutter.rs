//! Flutter (Dart) desktop-app probe.
//!
//! * **macOS**: `Contents/Frameworks/FlutterMacOS.framework`; the engine
//!   version lives in its Info.plist.
//! * **Windows**: `flutter_windows.dll` beside the executable.
//! * **Linux**: `lib/libflutter_linux_gtk.so` (or imported by the binary).
//!
//! Off macOS there's no on-disk version to read, so we report `"unknown"` and
//! still flag the app as Flutter.

use vstd::prelude::*;

use crate::detect::app::{frameworks, has_lib, Layout, LayoutView};
use crate::detect::{read_plist_version, version_at};
use crate::path::{push_of, pushed};
use crate::text::{opt_text, or_opt, or_text};
use crate::vfs::{dir_at, MemTree, Platform, Tree};

verus! {

/// The version that one of the two property lists of a framework declares.
pub open spec fn framework_version(t: Tree, dir: Seq<char>) -> Option<Seq<char>> {
    or_text(
        version_at(t, pushed(dir, "Versions/A/Resources/Info.plist"@)),
        version_at(t, pushed(dir, "Resources/Info.plist"@)),
    )
}

/// The version that one of the two property lists of a framework declares.
pub fn framework_version_of(tree: &MemTree, dir: &str) -> (r: Option<String>)
    ensures
        opt_text(r) == framework_version(tree@, dir@),
{
    or_opt(
        read_plist_version(tree, push_of(dir, "Versions/A/Resources/Info.plist").as_str()),
        read_plist_version(tree, push_of(dir, "Resources/Info.plist").as_str()),
    )
}

/// The probe.
pub open spec fn probed(t: Tree, l: LayoutView) -> Option<Seq<char>> {
    if l.platform == Platform::Macos {
        let dir = pushed(frameworks(l), "FlutterMacOS.framework"@);
        if dir_at(t, dir) {
            or_text(framework_version(t, dir), Some("unknown"@))
        } else {
            None
        }
    } else if has_lib(t, l, "flutter_windows"@) || has_lib(t, l, "flutter_linux"@) {
        Some("unknown"@)
    } else {
        None
    }
}

/// Return the Flutter engine version string if this is a Flutter app.
pub fn detect(tree: &MemTree, layout: &Layout) -> (r: Option<String>)
    requires
        layout.fits(tree@),
    ensures
        opt_text(r) == probed(tree@, layout@),
{
    if layout.is_bundle() {
        let dir = push_of(layout.frameworks_dir().as_str(), "FlutterMacOS.framework");
        if !tree.is_dir(dir.as_str()) {
            return None;
        }
        return or_opt(framework_version_of(tree, dir.as_str()), Some("unknown".to_owned()));
    }
    if layout.has_library(tree, "flutter_windows") || layout.has_library(tree, "flutter_linux") {
        Some("unknown".to_owned())
    } else {
        None
    }
}

} // verus!
