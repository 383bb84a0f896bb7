//! Safari / WKWebView probe.
//!
//! Two distinct uses:
//!
//! 1. **Primary verdict**: if the bundle-id is `com.apple.Safari`, the app
//!    is Safari and the version comes from the bundle's own Info.plist.
//! 2. **System WKWebView signal**: the Safari version installed on a machine is
//!    the effective WebKit engine version for every WKWebView-backed app on it.

use vstd::prelude::*;

use crate::detect::{read_plist_version, version_at};
use crate::path::{push_of, pushed};
use crate::text::{is_text, opt_text};
use crate::vfs::{dir_at, MemTree, Tree};

verus! {

/// The version a bundle declares.
pub open spec fn bundle_version(t: Tree, app: Seq<char>) -> Option<Seq<char>> {
    version_at(t, pushed(app, "Contents/Info.plist"@))
}

/// The version of a bundle that is Safari.
pub open spec fn safari_version(t: Tree, bundle_id: Option<Seq<char>>, app: Seq<char>) -> Option<
    Seq<char>,
> {
    if bundle_id == Some("com.apple.Safari"@) {
        bundle_version(t, app)
    } else {
        None
    }
}

/// The version of the first of the places, in order, where a system keeps Safari.
pub open spec fn system_version(t: Tree) -> Option<Seq<char>> {
    match installed_version(t, "/Applications/Safari.app"@) {
        Some(v) => Some(v),
        None => match installed_version(t, "/System/Applications/Safari.app"@) {
            Some(v) => Some(v),
            None => installed_version(
                t,
                "/System/Volumes/Preboot/Cryptexes/App/System/Applications/Safari.app"@,
            ),
        },
    }
}

/// The version of the bundle directory at `p`.
pub open spec fn installed_version(t: Tree, p: Seq<char>) -> Option<Seq<char>> {
    if dir_at(t, p) {
        bundle_version(t, p)
    } else {
        None
    }
}

fn read_bundle_version(tree: &MemTree, app: &str) -> (r: Option<String>)
    ensures
        opt_text(r) == bundle_version(tree@, app@),
{
    read_plist_version(tree, push_of(app, "Contents/Info.plist").as_str())
}

/// Return `Some(version)` if this bundle *is* Safari.
pub fn detect_app(tree: &MemTree, bundle_id: &Option<String>, app_path: &str) -> (r: Option<String>)
    ensures
        opt_text(r) == safari_version(tree@, opt_text(*bundle_id), app_path@),
{
    if !is_text(bundle_id, "com.apple.Safari") {
        return None;
    }
    read_bundle_version(tree, app_path)
}

fn installed_version_of(tree: &MemTree, p: &str) -> (r: Option<String>)
    ensures
        opt_text(r) == installed_version(tree@, p@),
{
    if tree.is_dir(p) {
        read_bundle_version(tree, p)
    } else {
        None
    }
}

/// The effective WKWebView version of a machine: that of its Safari. `tree` is the
/// machine's own filesystem.
pub fn system_webkit_version(tree: &MemTree) -> (r: Option<String>)
    ensures
        opt_text(r) == system_version(tree@),
{
    match installed_version_of(tree, "/Applications/Safari.app") {
        Some(v) => Some(v),
        None => match installed_version_of(tree, "/System/Applications/Safari.app") {
            Some(v) => Some(v),
            None => installed_version_of(
                tree,
                "/System/Volumes/Preboot/Cryptexes/App/System/Applications/Safari.app",
            ),
        },
    }
}

} // verus!
