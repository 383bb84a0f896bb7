//! Wails probe.
//!
//! Wails is Go + system webview. There's no bundled framework — every signal
//! lives in the main binary. Go embeds build-info for every linked module, so the
//! Wails version appears as a literal string like
//! `github.com/wailsapp/wails/v2@v2.9.2` (or `/v3@…`).

use vstd::prelude::*;

use crate::detect::strings::{find_first, scanned, wails_pattern};
use crate::detect::{unreadable, unreadable_of, DetectError, DetectFault};
use crate::text::opt_text;
use crate::vfs::{present, MemTree, Tree};

verus! {

/// The probe of one executable.
pub open spec fn probed(t: Tree, exe: Seq<char>, pattern: Seq<char>) -> Result<
    Option<Seq<char>>,
    DetectFault,
> {
    if !present(t, exe) {
        Ok(None)
    } else {
        match scanned(t, exe, pattern) {
            Some(v) => Ok(v),
            None => Err(unreadable(exe)),
        }
    }
}

/// The view of a fallible scan.
pub open spec fn result_view(r: Result<Option<String>, DetectError>) -> Result<
    Option<Seq<char>>,
    DetectFault,
> {
    match r {
        Ok(o) => Ok(opt_text(o)),
        Err(e) => Err(e@),
    }
}

/// The Wails version in an executable.
pub fn detect(tree: &MemTree, executable: &str) -> (r: Result<Option<String>, DetectError>)
    ensures
        result_view(r) == probed(tree@, executable@, wails_pattern()),
{
    if !tree.has(executable) {
        return Ok(None);
    }
    match tree.read(executable) {
        Some(b) => Ok(
            find_first(
                "github\\.com/wailsapp/wails(?:/v\\d+)?@v(\\d+\\.\\d+\\.\\d+(?:-[A-Za-z0-9.]+)?)",
                b,
            ),
        ),
        None => Err(unreadable_of(executable)),
    }
}

} // verus!
