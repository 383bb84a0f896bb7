//! Tauri detection.
//!
//! Tauri apps statically link the Tauri runtime into the main binary, so
//! detection is identical on macOS, Windows, and Linux. We string-scan the main
//! executable for three independent fingerprints and vote:
//!
//! 1. A cargo-registry debug path referencing a `tauri-*` crate with a
//!    semver tag. This also gives us the crate version.
//! 2. `tauri.localhost` — Tauri's internal IPC host, baked in as a literal.
//! 3. `__TAURI_INTERNALS__` (Tauri 2) or `__TAURI__` (Tauri 1) — the JS-side
//!    globals.
//!
//! Any single one of these can false-positive or false-negative on its own. Two
//! or more signals → High confidence.

use vstd::prelude::*;
use vstd::utf8::*;

use crate::detect::app::{Layout, LayoutView};
use crate::detect::strings::{captured, holds_text, occurs, scan_tauri_version, tauri_pattern};
use crate::detect::{
    no_versions, unreadable, unreadable_of, Confidence, DetectError, DetectFault, Versions, VersionsView,
};
use crate::text::opt_text;
use crate::vfs::{contents, present, MemTree, Tree};

verus! {

/// What the probe found.
#[derive(Debug)]
pub struct Detection {
    pub confidence: Confidence,
    pub versions: Versions,
}

/// The view of an optional detection.
pub open spec fn opt_view(o: Option<Detection>) -> Option<(Confidence, VersionsView)> {
    match o {
        Some(d) => Some((d.confidence, d.versions@)),
        None => None,
    }
}

/// The view of a fallible detection.
pub open spec fn result_view(r: Result<Option<Detection>, DetectError>) -> Result<
    Option<(Confidence, VersionsView)>,
    DetectFault,
> {
    match r {
        Ok(o) => Ok(opt_view(o)),
        Err(e) => Err(e@),
    }
}

/// One for a signal that is there.
pub open spec fn one_if(b: bool) -> nat {
    if b {
        1
    } else {
        0
    }
}

/// What the three signals amount to. One signal alone is Medium if it is the version
/// path (distinctive) and Low if it is just a string literal.
pub open spec fn vote(version: Option<Seq<char>>, localhost: bool, internals: bool) -> Option<
    (Confidence, VersionsView),
> {
    let signals = one_if(version is Some) + one_if(localhost) + one_if(internals);
    if signals == 0 {
        None
    } else {
        Some(
            (
                if signals >= 2 {
                    Confidence::High
                } else if version is Some {
                    Confidence::Medium
                } else {
                    Confidence::Low
                },
                VersionsView { tauri: version, ..no_versions() },
            ),
        )
    }
}

/// The probe.
pub open spec fn probed(t: Tree, l: LayoutView) -> Result<
    Option<(Confidence, VersionsView)>,
    DetectFault,
> {
    if l.executable is None || !present(t, l.executable->0) {
        Ok(None)
    } else {
        match contents(t, l.executable->0) {
            None => Err(unreadable(l.executable->0)),
            Some(b) => Ok(
                vote(
                    captured(tauri_pattern(), b),
                    occurs(b, encode_utf8("tauri.localhost"@)),
                    occurs(b, encode_utf8("__TAURI_INTERNALS__"@)) || occurs(
                        b,
                        encode_utf8("__TAURI__"@),
                    ),
                ),
            ),
        }
    }
}

/// Counts the signals.
pub fn weigh(version: Option<String>, localhost: bool, internals: bool) -> (r: Option<Detection>)
    ensures
        opt_view(r) == vote(opt_text(version), localhost, internals),
{
    let mut signals: u32 = 0;
    if version.is_some() {
        signals = signals + 1;
    }
    if localhost {
        signals = signals + 1;
    }
    if internals {
        signals = signals + 1;
    }
    if signals == 0 {
        return None;
    }
    let confidence = if signals >= 2 {
        Confidence::High
    } else if version.is_some() {
        Confidence::Medium
    } else {
        Confidence::Low
    };
    let mut versions = Versions::default();
    versions.tauri = version;
    Some(Detection { confidence, versions })
}

/// Looks for Tauri.
pub fn detect(tree: &MemTree, layout: &Layout) -> (r: Result<Option<Detection>, DetectError>)
    ensures
        result_view(r) == probed(tree@, layout@),
{
    let exe = match &layout.executable {
        Some(e) => e.as_str(),
        None => {
            return Ok(None);
        },
    };
    if !tree.has(exe) {
        return Ok(None);
    }
    let version = match scan_tauri_version(tree, exe) {
        Some(v) => v,
        None => {
            return Err(unreadable_of(exe));
        },
    };
    let localhost = holds_text(tree, exe, "tauri.localhost");
    let internals = holds_text(tree, exe, "__TAURI_INTERNALS__") || holds_text(
        tree,
        exe,
        "__TAURI__",
    );
    Ok(weigh(version, localhost, internals))
}

} // verus!
