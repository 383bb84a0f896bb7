//! Audit an installed application for code-signing / integrity / hardening,
//! across macOS, Windows, and Linux.
//!
//! The reportable facts differ per platform, so [`AppAudit`] has a variant for each:
//!
//! * **macOS**: hardened-runtime entitlements, `codesign` authority chain,
//!   Info.plist hardening flags, and `ElectronAsarIntegrity` verification.
//! * **Windows**: Authenticode signature presence, PE hardening flags
//!   (ASLR / DEP / CFG / high-entropy VA), and the manifest's requested
//!   execution level.
//! * **Linux**: ELF hardening (PIE / RELRO / NX / stack-canary) and, for
//!   flatpak/snap apps, the declared sandbox permissions.
//!
//! ASAR integrity is reported on every platform for Electron apps. The few facts that
//! genuinely need the host OS — `codesign`'s authority chain, the trust store's
//! verdict — come in as [`HostFacts`].

pub mod asar;
pub mod laws;
pub mod linux;
pub mod macos;
pub mod windows;

pub use asar::{AsarInfo, AsarIntegrityCheck};
pub use linux::{ElfHardening, LinuxAudit, RelroKind, SandboxInfo};
pub use macos::{CodeSignature, Entitlements, InfoPlistFlags, MacosAudit, TlsException};
pub use windows::{PeHardening, Trust, WindowsAudit, WindowsManifest, WindowsSignature};

use vstd::prelude::*;

use crate::audit::asar::{check_views, info_view, informed};
use crate::audit::linux::{hardening_at, sandbox_view, sandboxed, unhardened};
use crate::audit::macos::info_plist::flags_at;
use crate::audit::macos::verified_at;
use crate::audit::windows::{
    executable_bytes, execution_level, mitigations, no_mitigation, signature, unsigned, with_trust,
};
use crate::object::object_of;
use crate::text::{concat, opt_text};
use crate::vfs::{present, MemTree, Platform, Tree};

verus! {

/// Platform-tagged audit result.
#[derive(Debug)]
pub enum AppAudit {
    Macos(MacosAudit),
    Windows(WindowsAudit),
    Linux(LinuxAudit),
}

/// Why an audit failed.
#[derive(Debug)]
pub enum AuditError {
    NotFound(String),
    /// Reading failed, with the reason.
    Io(String),
}

impl AuditError {
    /// The message of an error.
    pub open spec fn text(self) -> Seq<char> {
        match self {
            AuditError::NotFound(p) => "path not found: "@ + p@,
            AuditError::Io(m) => "io: "@ + m@,
        }
    }

    /// The message of the error.
    pub fn message(&self) -> (r: String)
        ensures
            r@ == self.text(),
    {
        match self {
            AuditError::NotFound(p) => concat("path not found: ", p.as_str()),
            AuditError::Io(m) => concat("io: ", m.as_str()),
        }
    }
}

/// What only the operating system can tell.
#[derive(Debug)]
pub struct HostFacts {
    /// What `codesign` says of the signature; the default where it cannot be asked.
    pub code_signature: CodeSignature,
    /// What `codesign` says of the entitlements; the default where it cannot be asked.
    pub entitlements: Entitlements,
    /// What the Windows trust store says of the signature.
    pub trust: Trust,
}

/// What an audit says of an application.
pub open spec fn audits(
    a: AppAudit,
    t: Tree,
    platform: Platform,
    path: Seq<char>,
    root: Seq<char>,
    executable: Option<Seq<char>>,
    facts: HostFacts,
) -> bool {
    match (platform, a) {
        (Platform::Macos, AppAudit::Macos(m)) => {
            &&& m.path@ == path
            &&& m.code_signature == facts.code_signature
            &&& m.entitlements == facts.entitlements
            &&& m.info_plist@ == flags_at(t, path)
            &&& match m.asar_integrity {
                Some(v) => verified_at(t, path) == Some(check_views(v@)),
                None => verified_at(t, path) is None,
            }
        },
        (Platform::Windows, AppAudit::Windows(w)) => {
            &&& w.path@ == path
            &&& info_view(w.asar) == informed(t, root)
            &&& match executable_bytes(t, executable) {
                Some(b) => {
                    &&& w.signature@ == with_trust(signature(object_of(b), b), facts.trust)
                    &&& w.hardening == mitigations(object_of(b))
                    &&& opt_text(w.manifest.requested_execution_level) == execution_level(b)
                },
                None => {
                    &&& w.signature@ == unsigned(None)
                    &&& w.hardening == no_mitigation(false)
                    &&& w.manifest.requested_execution_level is None
                },
            }
        },
        (Platform::Linux, AppAudit::Linux(l)) => {
            &&& l.path@ == path
            &&& l.hardening == match executable {
                Some(e) => hardening_at(t, e),
                None => unhardened(),
            }
            &&& sandbox_view(l.sandbox) == sandboxed(
                t,
                match executable {
                    Some(e) => e,
                    None => root,
                },
            )
            &&& info_view(l.asar) == informed(t, root)
        },
        _ => false,
    }
}

/// Audit the app identified by `path` (its stable identity), rooted at `root`
/// (where sibling files live), with primary `executable`. Returns a best-effort
/// report; every subcomponent has its own "nothing found" representation rather
/// than failing the whole audit.
pub fn audit(
    tree: &MemTree,
    platform: Platform,
    path: &str,
    root: &str,
    executable: Option<&str>,
    facts: HostFacts,
) -> (r: Result<AppAudit, AuditError>)
    ensures
        match r {
            Ok(a) => present(tree@, path@) && audits(
                a,
                tree@,
                platform,
                path@,
                root@,
                match executable {
                    Some(e) => Some(e@),
                    None => None,
                },
                facts,
            ),
            Err(e) => !present(tree@, path@) && (e matches AuditError::NotFound(p) && p@ == path@),
        },
{
    if !tree.has(path) {
        return Err(AuditError::NotFound(path.to_owned()));
    }
    Ok(
        match platform {
            Platform::Macos => AppAudit::Macos(
                macos::audit(tree, path, facts.code_signature, facts.entitlements),
            ),
            Platform::Windows => AppAudit::Windows(
                windows::audit(tree, path, root, executable, facts.trust),
            ),
            Platform::Linux => AppAudit::Linux(linux::audit(tree, path, root, executable)),
        },
    )
}

} // verus!
