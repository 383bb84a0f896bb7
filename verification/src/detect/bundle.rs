//! Parse the top-level `Contents/Info.plist` of a macOS bundle.

use vstd::prelude::*;

use crate::detect::{plist_at, read_plist};
use crate::path::{push_of, pushed};
use crate::plist::{get_text, get_text_of, tokens, Token, TokenView};
use crate::text::{opt_text, or_opt, or_text};
use crate::vfs::{MemTree, Tree};

verus! {

/// The subset of `Contents/Info.plist` we care about.
#[derive(Debug)]
pub struct BundleInfo {
    pub bundle_id: Option<String>,
    pub display_name: Option<String>,
    pub bundle_version: Option<String>,
    /// Absolute path to `Contents/MacOS/<CFBundleExecutable>`, if declared.
    /// Not verified to exist on disk — callers check before reading.
    pub executable: Option<String>,
}

/// The model of a [`BundleInfo`].
pub struct BundleView {
    pub bundle_id: Option<Seq<char>>,
    pub display_name: Option<Seq<char>>,
    pub bundle_version: Option<Seq<char>>,
    pub executable: Option<Seq<char>>,
}

impl View for BundleInfo {
    type V = BundleView;

    open spec fn view(&self) -> BundleView {
        BundleView {
            bundle_id: opt_text(self.bundle_id),
            display_name: opt_text(self.display_name),
            bundle_version: opt_text(self.bundle_version),
            executable: opt_text(self.executable),
        }
    }
}

/// Nothing known.
pub open spec fn no_info() -> BundleView {
    BundleView { bundle_id: None, display_name: None, bundle_version: None, executable: None }
}

impl Default for BundleInfo {
    fn default() -> (r: BundleInfo)
        ensures
            r@ == no_info(),
    {
        BundleInfo { bundle_id: None, display_name: None, bundle_version: None, executable: None }
    }
}

/// What a bundle's property list says of it. One that is no dictionary says nothing.
pub open spec fn described(t: Seq<TokenView>, app: Seq<char>) -> BundleView {
    BundleView {
        bundle_id: get_text(t, 0, "CFBundleIdentifier"@),
        display_name: or_text(
            get_text(t, 0, "CFBundleDisplayName"@),
            get_text(t, 0, "CFBundleName"@),
        ),
        bundle_version: or_text(
            get_text(t, 0, "CFBundleShortVersionString"@),
            get_text(t, 0, "CFBundleVersion"@),
        ),
        executable: match get_text(t, 0, "CFBundleExecutable"@) {
            Some(name) => Some(pushed(pushed(app, "Contents/MacOS"@), name)),
            None => None,
        },
    }
}

/// What the bundle at `app` says of itself.
pub open spec fn info_at(t: Tree, app: Seq<char>) -> BundleView {
    match plist_at(t, pushed(app, "Contents/Info.plist"@)) {
        Some(v) => described(v, app),
        None => no_info(),
    }
}

/// Reads a parsed property list.
pub fn describe(t: &Vec<Token>, app_path: &str) -> (r: BundleInfo)
    ensures
        r@ == described(tokens(t@), app_path@),
{
    let executable = match get_text_of(t, 0, "CFBundleExecutable") {
        Some(name) => Some(push_of(push_of(app_path, "Contents/MacOS").as_str(), name.as_str())),
        None => None,
    };
    BundleInfo {
        bundle_id: get_text_of(t, 0, "CFBundleIdentifier"),
        display_name: or_opt(
            get_text_of(t, 0, "CFBundleDisplayName"),
            get_text_of(t, 0, "CFBundleName"),
        ),
        bundle_version: or_opt(
            get_text_of(t, 0, "CFBundleShortVersionString"),
            get_text_of(t, 0, "CFBundleVersion"),
        ),
        executable,
    }
}

/// Read and parse `Contents/Info.plist`. Missing or malformed plists return
/// [`BundleInfo::default`] rather than erroring — we want the scanner to keep
/// going.
pub fn read(tree: &MemTree, app_path: &str) -> (r: BundleInfo)
    ensures
        r@ == info_at(tree@, app_path@),
{
    match read_plist(tree, push_of(app_path, "Contents/Info.plist").as_str()) {
        Some(t) => describe(&t, app_path),
        None => BundleInfo::default(),
    }
}

} // verus!
