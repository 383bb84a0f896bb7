//! macOS audit backend: entitlements, `codesign` authority chain, Info.plist
//! hardening flags, and `ElectronAsarIntegrity` verification.

pub mod code_signature;
pub mod entitlements;
pub mod info_plist;

pub use code_signature::CodeSignature;
pub use entitlements::Entitlements;
pub use info_plist::{InfoPlistFlags, TlsException};

use vstd::prelude::*;

use crate::audit::asar::{
    check_views, info_plist_path, verified, verify_all, AsarIntegrityCheck, CheckView,
};
use crate::audit::macos::info_plist::flags_at;
use crate::detect::plist_at;
use crate::vfs::{MemTree, Tree};

verus! {

/// What is known of a macOS application.
#[derive(Debug)]
pub struct MacosAudit {
    pub path: String,
    pub entitlements: Entitlements,
    pub code_signature: CodeSignature,
    pub info_plist: InfoPlistFlags,
    /// One entry per ASAR archive declared in `ElectronAsarIntegrity`.
    /// `None` for non-Electron bundles.
    pub asar_integrity: Option<Vec<AsarIntegrityCheck>>,
}

/// The integrity checks of the bundle at `app`.
pub open spec fn verified_at(t: Tree, app: Seq<char>) -> Option<Seq<CheckView>> {
    match plist_at(t, info_plist_path(app)) {
        Some(plist) => verified(t, app, plist),
        None => None,
    }
}

/// Audit the `.app` bundle at `app_path`. Signature + entitlements come from `codesign`;
/// without it those are left at their defaults and only the Info.plist + ASAR-integrity
/// facts — which need no external tools — are filled.
pub fn audit(
    tree: &MemTree,
    app_path: &str,
    code_signature: CodeSignature,
    entitlements: Entitlements,
) -> (r: MacosAudit)
    ensures
        r.path@ == app_path@,
        r.code_signature == code_signature,
        r.entitlements == entitlements,
        r.info_plist@ == flags_at(tree@, app_path@),
        match r.asar_integrity {
            Some(v) => verified_at(tree@, app_path@) == Some(check_views(v@)),
            None => verified_at(tree@, app_path@) is None,
        },
{
    MacosAudit {
        path: app_path.to_owned(),
        entitlements,
        code_signature,
        info_plist: info_plist::read(tree, app_path),
        asar_integrity: verify_all(tree, app_path),
    }
}

} // verus!
