//! React Native probe.
//!
//! RN apps ship a JS engine — usually **Hermes** — plus recognisable RN
//! symbols in the main binary.
//!
//! * **macOS**: `Contents/Frameworks/hermes.framework` (strong signal, version
//!   in its Info.plist), else a string-scan fallback.
//! * **Windows**: `hermes.dll` / `Microsoft.ReactNative.dll`.
//! * **Linux**: `libhermes.so` (or RN symbols in the binary).
//!
//! A bundled engine is the high-confidence signal; the string-scan fallback is
//! medium. `bundled_engine` records which fired so the caller can rate it.

use vstd::prelude::*;
use vstd::utf8::*;

use crate::detect::app::{frameworks, has_lib, Layout, LayoutView};
use crate::detect::strings::{holds_bytes, holds_text};
use crate::detect::{plist_at, read_plist};
use crate::path::{push_of, pushed};
use crate::plist::{declared_version, declared_version_of, dict_at, is_dict_of};
use crate::text::{opt_text, or_opt, or_text};
use crate::vfs::{dir_at, present, MemTree, Platform, Tree};

verus! {

/// What the probe found.
#[derive(Debug)]
pub struct Detection {
    pub version: Option<String>,
    /// True when a bundled JS engine (Hermes framework / library) was found,
    /// vs. only the binary-string fallback.
    pub bundled_engine: bool,
}

/// The view of an optional detection.
pub open spec fn opt_view(o: Option<Detection>) -> Option<(Option<Seq<char>>, bool)> {
    match o {
        Some(d) => Some((opt_text(d.version), d.bundled_engine)),
        None => None,
    }
}

/// What one property list of the engine says: `Err` where the next one is to be
/// asked, because it is missing or declares no version.
pub open spec fn hermes_list(t: Tree, p: Seq<char>) -> Result<Option<Seq<char>>, ()> {
    if !present(t, p) {
        Err(())
    } else {
        match plist_at(t, p) {
            None => Ok(None),
            Some(v) => if !dict_at(v, 0) {
                Ok(None)
            } else {
                match declared_version(v) {
                    Some(s) => Ok(Some(s)),
                    None => Err(()),
                }
            },
        }
    }
}

/// The engine version that a Hermes framework declares. A property list that cannot
/// be read ends the search.
pub open spec fn hermes_version(t: Tree, dir: Seq<char>) -> Option<Seq<char>> {
    match hermes_list(t, pushed(dir, "Versions/A/Resources/Info.plist"@)) {
        Ok(v) => v,
        Err(_) => match hermes_list(t, pushed(dir, "Resources/Info.plist"@)) {
            Ok(v) => v,
            Err(_) => None,
        },
    }
}

/// Whether the executable carries React Native's own symbols.
pub open spec fn has_symbols(t: Tree, l: LayoutView) -> bool {
    match l.executable {
        Some(e) => {
            ||| holds_bytes(t, e, encode_utf8("facebook::react"@)) == Some(true)
            ||| holds_bytes(t, e, encode_utf8("RCTBridge"@)) == Some(true)
            ||| holds_bytes(t, e, encode_utf8("RCTRootView"@)) == Some(true)
        },
        None => false,
    }
}

/// The probe.
pub open spec fn probed(t: Tree, l: LayoutView) -> Option<(Option<Seq<char>>, bool)> {
    let dir = pushed(frameworks(l), "hermes.framework"@);
    if l.platform == Platform::Macos && dir_at(t, dir) {
        Some((or_text(hermes_version(t, dir), Some("unknown"@)), true))
    } else if l.platform != Platform::Macos && (has_lib(t, l, "hermes"@) || has_lib(
        t,
        l,
        "reactnative"@,
    )) {
        Some((Some("unknown"@), true))
    } else if has_symbols(t, l) {
        Some((Some("unknown"@), false))
    } else {
        None
    }
}

fn hermes_list_of(tree: &MemTree, p: &str) -> (r: Result<Option<String>, ()>)
    ensures
        match r {
            Ok(o) => hermes_list(tree@, p@) == Ok::<_, ()>(opt_text(o)),
            Err(_) => hermes_list(tree@, p@) is Err,
        },
{
    if !tree.has(p) {
        return Err(());
    }
    match read_plist(tree, p) {
        None => Ok(None),
        Some(v) => {
            if !is_dict_of(&v, 0) {
                return Ok(None);
            }
            match declared_version_of(&v) {
                Some(s) => Ok(Some(s)),
                None => Err(()),
            }
        },
    }
}

fn read_hermes_version(tree: &MemTree, dir: &str) -> (r: Option<String>)
    ensures
        opt_text(r) == hermes_version(tree@, dir@),
{
    match hermes_list_of(tree, push_of(dir, "Versions/A/Resources/Info.plist").as_str()) {
        Ok(v) => v,
        Err(_) => match hermes_list_of(tree, push_of(dir, "Resources/Info.plist").as_str()) {
            Ok(v) => v,
            Err(_) => None,
        },
    }
}

/// Looks for React Native.
pub fn detect(tree: &MemTree, layout: &Layout) -> (r: Option<Detection>)
    requires
        layout.fits(tree@),
    ensures
        opt_view(r) == probed(tree@, layout@),
{
    if layout.is_bundle() {
        let dir = push_of(layout.frameworks_dir().as_str(), "hermes.framework");
        if tree.is_dir(dir.as_str()) {
            let version = or_opt(
                read_hermes_version(tree, dir.as_str()),
                Some("unknown".to_owned()),
            );
            return Some(Detection { version, bundled_engine: true });
        }
    } else if layout.has_library(tree, "hermes") || layout.has_library(tree, "reactnative") {
        return Some(Detection { version: Some("unknown".to_owned()), bundled_engine: true });
    }
    // Engine not bundled separately — fall back to string-scanning the main
    // executable for RN-specific symbols.
    match &layout.executable {
        Some(exe) => {
            let e = exe.as_str();
            if holds_text(tree, e, "facebook::react") || holds_text(tree, e, "RCTBridge")
                || holds_text(tree, e, "RCTRootView") {
                return Some(
                    Detection { version: Some("unknown".to_owned()), bundled_engine: false },
                );
            }
        },
        None => {},
    }
    None
}

} // verus!
