//! Windows audit backend.
//!
//! The analog of macOS's signing + hardened-runtime report is:
//!
//! * **Authenticode**: whether the PE carries an embedded signature, the
//!   signer certificate (subject + issuer, parsed from the embedded PKCS#7),
//!   and whether the OS trust store accepts the signature.
//! * **PE hardening**: the `DllCharacteristics` mitigation bits — ASLR
//!   (`DYNAMIC_BASE`), DEP (`NX_COMPAT`), Control Flow Guard (`GUARD_CF`), and
//!   high-entropy (64-bit) ASLR.
//! * **Manifest**: the `requestedExecutionLevel` (asInvoker vs
//!   requireAdministrator) embedded in the application manifest.

use cms::cert::{CertificateChoices, IssuerAndSerialNumber};
use cms::content_info::ContentInfo;
use cms::signed_data::{SignedData, SignerIdentifier};
use vstd::prelude::*;
use vstd::utf8::*;
use x509_cert::der::{Decode, Encode};

use crate::audit::asar::{info, info_view, informed, AsarInfo};
use crate::bytes::{find_byte, first_byte, le16, le16_of, le32, le32_of, span, span_of, utf8_text};
use crate::detect::strings::{find_place, first_place};
use crate::object::{object_of, parse_object, Object, ObjectView};
use crate::text::opt_text;
use crate::vfs::{contents, MemTree, Tree};

verus! {

/// ASLR.
pub const DYNAMIC_BASE: u16 = 0x0040;

/// 64-bit ASLR.
pub const HIGH_ENTROPY_VA: u16 = 0x0020;

/// DEP.
pub const NX_COMPAT: u16 = 0x0100;

/// Control Flow Guard.
pub const GUARD_CF: u16 = 0x4000;

/// The only certificate type Authenticode uses.
pub const WIN_CERT_TYPE_PKCS_SIGNED_DATA: u16 = 0x0002;

/// Mitigations that a PE image opts into.
#[derive(Debug, Clone, Copy, PartialEq, Eq, Structural)]
pub struct PeHardening {
    /// Parsed a PE at all. `false` ⇒ the rest are meaningless.
    pub is_pe: bool,
    /// ASLR (`IMAGE_DLLCHARACTERISTICS_DYNAMIC_BASE`).
    pub aslr: bool,
    /// DEP / NX (`IMAGE_DLLCHARACTERISTICS_NX_COMPAT`).
    pub dep: bool,
    /// Control Flow Guard (`IMAGE_DLLCHARACTERISTICS_GUARD_CF`).
    pub cfg: bool,
    /// High-entropy (64-bit) ASLR.
    pub high_entropy_va: bool,
}

/// No mitigation, on an image or on none.
pub open spec fn no_mitigation(is_pe: bool) -> PeHardening {
    PeHardening { is_pe, aslr: false, dep: false, cfg: false, high_entropy_va: false }
}

impl Default for PeHardening {
    fn default() -> (r: PeHardening)
        ensures
            r == no_mitigation(false),
    {
        PeHardening { is_pe: false, aslr: false, dep: false, cfg: false, high_entropy_va: false }
    }
}

/// The mitigations of an image.
pub open spec fn mitigations(object: ObjectView) -> PeHardening {
    match object {
        ObjectView::Pe(_, Some(o)) => PeHardening {
            is_pe: true,
            aslr: o.characteristics & DYNAMIC_BASE != 0,
            dep: o.characteristics & NX_COMPAT != 0,
            cfg: o.characteristics & GUARD_CF != 0,
            high_entropy_va: o.characteristics & HIGH_ENTROPY_VA != 0,
        },
        ObjectView::Pe(_, None) => no_mitigation(true),
        _ => no_mitigation(false),
    }
}

/// The mitigations of an image.
pub fn pe_hardening(object: &Object) -> (r: PeHardening)
    ensures
        r == mitigations(object@),
{
    match object {
        Object::Pe { optional: Some(o), .. } => {
            let bits = o.characteristics;
            PeHardening {
                is_pe: true,
                aslr: bits & DYNAMIC_BASE != 0,
                dep: bits & NX_COMPAT != 0,
                cfg: bits & GUARD_CF != 0,
                high_entropy_va: bits & HIGH_ENTROPY_VA != 0,
            }
        },
        Object::Pe { optional: None, .. } => PeHardening {
            is_pe: true,
            aslr: false,
            dep: false,
            cfg: false,
            high_entropy_va: false,
        },
        _ => PeHardening::default(),
    }
}

/// The view of optional bytes.
pub open spec fn octets(o: Option<Vec<u8>>) -> Option<Seq<u8>> {
    match o {
        Some(v) => Some(v@),
        None => None,
    }
}

/// A certificate: its subject's and issuer's distinguished names, and how it was issued.
#[derive(Debug)]
pub struct Certificate {
    pub subject: String,
    pub issuer: String,
    /// By whom, and under which number, in DER; always there for a certificate that was
    /// read out of DER.
    pub issued: Option<Vec<u8>>,
}

/// The model of a [`Certificate`].
pub struct CertificateView {
    pub subject: Seq<char>,
    pub issuer: Seq<char>,
    pub issued: Option<Seq<u8>>,
}

impl View for Certificate {
    type V = CertificateView;

    open spec fn view(&self) -> CertificateView {
        CertificateView {
            subject: self.subject@,
            issuer: self.issuer@,
            issued: octets(self.issued),
        }
    }
}

/// A PKCS#7 signature.
#[derive(Debug)]
pub struct Signed {
    /// How each signer's certificate was issued; none in the place of a signer that is
    /// identified in another way.
    pub signers: Vec<Option<Vec<u8>>>,
    /// The certificates that come with it; none in the place of one in another format.
    pub certificates: Option<Vec<Option<Certificate>>>,
}

/// The model of a [`Signed`].
pub struct SignedView {
    pub signers: Seq<Option<Seq<u8>>>,
    pub certificates: Option<Seq<Option<CertificateView>>>,
}

/// The models of a list of certificates.
pub open spec fn certificate_views(v: Seq<Option<Certificate>>) -> Seq<Option<CertificateView>> {
    v.map_values(
        |c: Option<Certificate>|
            match c {
                Some(c) => Some(c@),
                None => None::<CertificateView>,
            },
    )
}

/// The models of a list of optional byte strings.
pub open spec fn octet_views(v: Seq<Option<Vec<u8>>>) -> Seq<Option<Seq<u8>>> {
    v.map_values(|o: Option<Vec<u8>>| octets(o))
}

impl View for Signed {
    type V = SignedView;

    open spec fn view(&self) -> SignedView {
        SignedView {
            signers: octet_views(self.signers@),
            certificates: match self.certificates {
                Some(v) => Some(certificate_views(v@)),
                None => None,
            },
        }
    }
}

/// The signature that the cms crate reads out of a DER-encoded `ContentInfo`; none where
/// it cannot.
pub uninterp spec fn signed_of(der: Seq<u8>) -> Option<SignedView>;

/// `cms::content_info::ContentInfo::from_der`, its content decoded as
/// `cms::signed_data::SignedData`: the issuer and serial number that identify each signer,
/// in order, and, of each certificate, its own and its names as x509-cert writes them. The
/// outcome depends on the bytes alone.
#[verifier::external_body]
pub(crate) fn parse_signed(der: &[u8]) -> (r: Option<Signed>)
    ensures
        match r {
            Some(s) => signed_of(der@) == Some(s@),
            None => signed_of(der@) is None,
        },
{
    let data: SignedData = ContentInfo::from_der(der).ok()?.content.decode_as().ok()?;
    Some(Signed {
        signers: data.signer_infos.0.iter().map(|s| match &s.sid {
            SignerIdentifier::IssuerAndSerialNumber(i) => i.to_der().ok(),
            _ => None,
        }).collect(),
        certificates: data.certificates.map(|set| set.0.iter().map(|choice| match choice {
            CertificateChoices::Certificate(c) => { let t = &c.tbs_certificate; Some(Certificate {
                subject: t.subject.to_string(),
                issuer: t.issuer.to_string(),
                issued: IssuerAndSerialNumber { issuer: t.issuer.clone(), serial_number: t.serial_number.clone() }.to_der().ok() }) },
            _ => None,
        }).collect()),
    })
}

/// The names of the first certificate, from the `i`-th on, that was issued as stated.
pub open spec fn names_issued(
    certificates: Seq<Option<CertificateView>>,
    issued: Seq<u8>,
    i: int,
) -> Option<(Seq<char>, Seq<char>)>
    decreases certificates.len() - i,
{
    if i < 0 || i >= certificates.len() {
        None
    } else {
        match certificates[i] {
            Some(c) if c.issued == Some(issued) => Some((c.subject, c.issuer)),
            _ => names_issued(certificates, issued, i + 1),
        }
    }
}

/// The names of the first certificate from the `i`-th on.
pub open spec fn first_names(certificates: Seq<Option<CertificateView>>, i: int) -> Option<
    (Seq<char>, Seq<char>),
>
    decreases certificates.len() - i,
{
    if i < 0 || i >= certificates.len() {
        None
    } else {
        match certificates[i] {
            Some(c) => Some((c.subject, c.issuer)),
            None => first_names(certificates, i + 1),
        }
    }
}

/// How the certificate of the first signer was issued, where it is identified so.
pub open spec fn first_signer(signers: Seq<Option<Seq<u8>>>) -> Option<Seq<u8>> {
    if signers.len() == 0 {
        None
    } else {
        signers[0]
    }
}

/// The subject and the issuer of the signer's certificate: the one that the first signer is
/// identified by, else the first, which is conventionally the leaf.
pub open spec fn signer_names(signed: Option<SignedView>) -> Option<(Seq<char>, Seq<char>)> {
    match signed {
        Some(s) => match s.certificates {
            Some(certificates) => {
                let exact = match first_signer(s.signers) {
                    Some(issued) => names_issued(certificates, issued, 0),
                    None => None,
                };
                if exact is Some {
                    exact
                } else {
                    first_names(certificates, 0)
                }
            },
            None => None,
        },
        None => None,
    }
}

/// The model of an optional pair of names.
pub open spec fn names_view(o: Option<(String, String)>) -> Option<(Seq<char>, Seq<char>)> {
    match o {
        Some(n) => Some((n.0@, n.1@)),
        None => None,
    }
}

fn same_bytes(a: &Vec<u8>, b: &Vec<u8>) -> (r: bool)
    ensures
        r == (a@ == b@),
{
    if a.len() != b.len() {
        return false;
    }
    let mut i: usize = 0;
    while i < a.len()
        invariant
            i <= a@.len() == b@.len(),
            forall|k: int| 0 <= k < i ==> a@[k] == b@[k],
        decreases a.len() - i,
    {
        if a[i] != b[i] {
            assert(a@[i as int] != b@[i as int]);
            return false;
        }
        i = i + 1;
    }
    assert(a@ =~= b@);
    true
}

fn was_issued(c: &Certificate, issued: &Vec<u8>) -> (r: bool)
    ensures
        r == (c@.issued == Some(issued@)),
{
    match &c.issued {
        Some(own) => same_bytes(own, issued),
        None => false,
    }
}

/// The subject and the issuer of the signer's certificate.
pub fn signer_names_of(signed: &Option<Signed>) -> (r: Option<(String, String)>)
    ensures
        names_view(r) == signer_names(
            match *signed {
                Some(s) => Some(s@),
                None => None,
            },
        ),
{
    let s = match signed {
        Some(s) => s,
        None => {
            return None;
        },
    };
    let list = match &s.certificates {
        Some(list) => list,
        None => {
            return None;
        },
    };
    let ghost all = certificate_views(list@);
    let lead: Option<&Vec<u8>> = if s.signers.len() == 0 {
        None
    } else {
        match &s.signers[0] {
            Some(issued) => Some(issued),
            None => None,
        }
    };
    let ghost first = first_signer(s@.signers);
    assert(first == match lead {
        Some(issued) => Some(issued@),
        None => None,
    });
    let ghost exact = match first {
        Some(issued) => names_issued(all, issued, 0),
        None => None,
    };
    let mut fallback: Option<(String, String)> = None;
    let mut i: usize = 0;
    while i < list.len()
        invariant
            i <= list@.len(),
            *signed == Some(*s),
            s.certificates == Some(*list),
            all == certificate_views(list@),
            first == first_signer(s@.signers),
            first == (match lead {
                Some(issued) => Some(issued@),
                None => None,
            }),
            exact == (match first {
                Some(issued) => names_issued(all, issued, 0),
                None => None,
            }),
            match first {
                Some(issued) => exact == names_issued(all, issued, i as int),
                None => true,
            },
            first_names(all, 0) == if fallback is Some {
                names_view(fallback)
            } else {
                first_names(all, i as int)
            },
        decreases list.len() - i,
    {
        assert(all[i as int] == match list@[i as int] {
            Some(c) => Some(c@),
            None => None::<CertificateView>,
        });
        match &list[i] {
            Some(c) => {
                match lead {
                    Some(issued) => {
                        if was_issued(c, issued) {
                            return Some((c.subject.clone(), c.issuer.clone()));
                        }
                    },
                    None => {},
                }
                if fallback.is_none() {
                    fallback = Some((c.subject.clone(), c.issuer.clone()));
                }
            },
            None => {},
        }
        i = i + 1;
    }
    fallback
}

/// The PKCS#7 blob of the certificate table at `start`: what follows the 8-byte
/// `WIN_CERTIFICATE` header, up to the length it states.
pub open spec fn certificate_der(bytes: Seq<u8>, start: int, size: int) -> Option<Seq<u8>> {
    match span(bytes, start, size) {
        None => None,
        Some(table) => if table.len() < 8 || le16(table, 6) != WIN_CERT_TYPE_PKCS_SIGNED_DATA
            || le32(table, 0) < 8 || le32(table, 0) > table.len() {
            None
        } else {
            Some(table.subrange(8, le32(table, 0) as int))
        },
    }
}

/// The subject and the issuer of the certificate that a signature was made with.
pub open spec fn signer(bytes: Seq<u8>, start: int, size: int) -> Option<(Seq<char>, Seq<char>)> {
    match certificate_der(bytes, start, size) {
        Some(der) => signer_names(signed_of(der)),
        None => None,
    }
}

/// Parse the embedded PKCS#7 certificate table to recover the signer
/// certificate's subject and issuer distinguished names.
pub fn extract_signer(bytes: &[u8], start: usize, size: usize) -> (r: Option<(String, String)>)
    ensures
        names_view(r) == signer(bytes@, start as int, size as int),
{
    let table = match span_of(bytes, start, size) {
        Some(t) => t,
        None => {
            return None;
        },
    };
    if table.len() < 8 {
        return None;
    }
    // WIN_CERTIFICATE: dwLength(u32), wRevision(u16), wCertificateType(u16),
    // then the PKCS#7 DER blob.
    let stated = le32_of(table, 0) as usize;
    if le16_of(table, 6) != WIN_CERT_TYPE_PKCS_SIGNED_DATA || stated < 8 {
        return None;
    }
    match span_of(table, 8, stated - 8) {
        Some(der) => signer_names_of(&parse_signed(der)),
        None => None,
    }
}

/// Whether and by whom an image was signed.
#[derive(Debug)]
pub struct WindowsSignature {
    /// The PE carries an embedded Authenticode certificate table.
    pub signed: bool,
    /// Whether the OS trust store accepts the signature (chain valid, not
    /// revoked, root trusted). `None` if it couldn't be evaluated.
    pub trusted: Option<bool>,
    /// Signer certificate subject (distinguished name, e.g.
    /// `CN=Example Corp, O=Example Corp, C=US`).
    pub subject: Option<String>,
    /// Signer certificate issuer (the CA that issued the signing cert).
    pub issuer: Option<String>,
    /// Extra context (e.g. why trust couldn't be evaluated).
    pub note: Option<String>,
}

/// The model of a [`WindowsSignature`].
pub struct SignatureView {
    pub signed: bool,
    pub trusted: Option<bool>,
    pub subject: Option<Seq<char>>,
    pub issuer: Option<Seq<char>>,
    pub note: Option<Seq<char>>,
}

impl View for WindowsSignature {
    type V = SignatureView;

    open spec fn view(&self) -> SignatureView {
        SignatureView {
            signed: self.signed,
            trusted: self.trusted,
            subject: opt_text(self.subject),
            issuer: opt_text(self.issuer),
            note: opt_text(self.note),
        }
    }
}

/// No signature, with a note or without.
pub open spec fn unsigned(note: Option<Seq<char>>) -> SignatureView {
    SignatureView { signed: false, trusted: None, subject: None, issuer: None, note }
}

impl Default for WindowsSignature {
    fn default() -> (r: WindowsSignature)
        ensures
            r@ == unsigned(None),
    {
        WindowsSignature { signed: false, trusted: None, subject: None, issuer: None, note: None }
    }
}

/// What an image tells of its signature. The certificate table's entry states a *file
/// offset*, unlike the others.
pub open spec fn signature(object: ObjectView, bytes: Seq<u8>) -> SignatureView {
    match object {
        ObjectView::Pe(_, None) => unsigned(Some("no optional header"@)),
        ObjectView::Pe(_, Some(o)) => match o.certificates {
            Some((start, size)) if size > 0 => match signer(bytes, start as int, size as int) {
                Some((subject, issuer)) => SignatureView {
                    signed: true,
                    trusted: None,
                    subject: Some(subject),
                    issuer: Some(issuer),
                    note: None,
                },
                None => SignatureView {
                    signed: true,
                    trusted: None,
                    subject: None,
                    issuer: None,
                    note: Some("signature present; signer certificate unparsed"@),
                },
            },
            _ => unsigned(None),
        },
        _ => unsigned(None),
    }
}

/// What an image tells of its signature.
pub fn pe_signature(object: &Object, bytes: &[u8]) -> (r: WindowsSignature)
    ensures
        r@ == signature(object@, bytes@),
{
    let optional = match object {
        Object::Pe { optional, .. } => optional,
        _ => {
            return WindowsSignature::default();
        },
    };
    let header = match optional {
        Some(o) => o,
        None => {
            return WindowsSignature {
                signed: false,
                trusted: None,
                subject: None,
                issuer: None,
                note: Some("no optional header".to_owned()),
            };
        },
    };
    let (start, size) = match header.certificates {
        Some((start, size)) => (start, size),
        None => {
            return WindowsSignature::default();
        },
    };
    if size == 0 {
        return WindowsSignature::default();
    }
    match extract_signer(bytes, start as usize, size as usize) {
        Some((subject, issuer)) => WindowsSignature {
            signed: true,
            trusted: None,
            subject: Some(subject),
            issuer: Some(issuer),
            note: None,
        },
        None => WindowsSignature {
            signed: true,
            trusted: None,
            subject: None,
            issuer: None,
            note: Some("signature present; signer certificate unparsed".to_owned()),
        },
    }
}

/// The signature and the mitigations of a file.
pub fn parse_pe(bytes: &[u8]) -> (r: (WindowsSignature, PeHardening))
    ensures
        r.0@ == signature(object_of(bytes@), bytes@),
        r.1 == mitigations(object_of(bytes@)),
{
    let object = parse_object(bytes);
    (pe_signature(&object, bytes), pe_hardening(&object))
}

/// What the operating system says of a signature.
#[derive(Debug, Clone, Copy, PartialEq, Eq, Structural)]
pub struct Trust {
    /// Its verdict, where it gave one.
    pub verdict: Option<bool>,
    /// Whether there is a trust store to ask — i.e. a real Windows host, not one that
    /// audits an uploaded `.exe`.
    pub store: bool,
}

/// A signature with the verdict on it. Trust only means anything where there is a
/// signature; without a verdict and a trust store the note says why, unless there is
/// one already.
pub open spec fn with_trust(s: SignatureView, trust: Trust) -> SignatureView {
    if !s.signed {
        s
    } else {
        SignatureView {
            trusted: trust.verdict,
            note: if trust.verdict is None && !trust.store && s.note is None {
                Some(
                    "signature present; chain not verified (needs a Windows host's trust store)"@,
                )
            } else {
                s.note
            },
            ..s
        }
    }
}

/// A signature with the verdict on it.
pub fn settle_trust(s: WindowsSignature, trust: Trust) -> (r: WindowsSignature)
    ensures
        r@ == with_trust(s@, trust),
{
    if !s.signed {
        return s;
    }
    let note = match s.note {
        Some(n) => Some(n),
        None => {
            if trust.verdict.is_none() && !trust.store {
                Some(
                    "signature present; chain not verified (needs a Windows host's trust store)".to_owned(),
                )
            } else {
                None
            }
        },
    };
    WindowsSignature {
        signed: s.signed,
        trusted: trust.verdict,
        subject: s.subject,
        issuer: s.issuer,
        note,
    }
}

/// How much of the manifest is searched for the level.
pub const LEVEL_WINDOW: usize = 256;

/// The quoted text that stands first in `b`.
pub open spec fn quoted_value(b: Seq<u8>) -> Option<Seq<char>> {
    if b.len() == 0 || (b[0] != 0x22 && b[0] != 0x27) {
        None
    } else {
        match first_byte(b, b[0], 1) {
            Some(end) => if valid_utf8(b.subrange(1, end)) {
                Some(decode_utf8(b.subrange(1, end)))
            } else {
                None
            },
            None => None,
        }
    }
}

/// The execution level that an embedded manifest requests.
pub open spec fn execution_level(bytes: Seq<u8>) -> Option<Seq<char>> {
    match first_place(bytes, encode_utf8("requestedExecutionLevel"@), 0) {
        Some(anchor) => {
            let end = if bytes.len() < anchor + LEVEL_WINDOW {
                bytes.len() as int
            } else {
                anchor + LEVEL_WINDOW
            };
            let window = bytes.subrange(anchor, end);
            match first_place(window, encode_utf8("level="@), 0) {
                Some(at) => quoted_value(window.skip(at + encode_utf8("level="@).len())),
                None => None,
            }
        },
        None => None,
    }
}

fn quoted_value_of(b: &[u8]) -> (r: Option<String>)
    ensures
        opt_text(r) == quoted_value(b@),
{
    if b.len() == 0 {
        return None;
    }
    let quote = b[0];
    if quote != 0x22 && quote != 0x27 {
        return None;
    }
    match find_byte(b, quote, 1) {
        Some(end) => utf8_text(vstd::slice::slice_subrange(b, 1, end)),
        None => None,
    }
}

/// Scan the embedded application manifest for
/// `<requestedExecutionLevel level="…">`. The manifest is an `RT_MANIFEST`
/// resource but its XML appears verbatim in the file, so a byte search finds it
/// without parsing the resource tree.
pub fn scan_execution_level(bytes: &[u8]) -> (r: Option<String>)
    ensures
        opt_text(r) == execution_level(bytes@),
{
    let anchor = match find_place(bytes, "requestedExecutionLevel".as_bytes()) {
        Some(a) => a,
        None => {
            return None;
        },
    };
    let end: usize = if bytes.len() - anchor < LEVEL_WINDOW {
        bytes.len()
    } else {
        anchor + LEVEL_WINDOW
    };
    let window = vstd::slice::slice_subrange(bytes, anchor, end);
    let mark = "level=".as_bytes();
    match find_place(window, mark) {
        Some(at) => {
            let rest = vstd::slice::slice_subrange(window, at + mark.len(), window.len());
            assert(rest@ =~= window@.skip(at + mark@.len()));
            quoted_value_of(rest)
        },
        None => None,
    }
}

/// What the application manifest requests.
#[derive(Debug)]
pub struct WindowsManifest {
    /// `asInvoker`, `highestAvailable`, or `requireAdministrator` if declared.
    pub requested_execution_level: Option<String>,
}

/// What is known of a Windows application.
#[derive(Debug)]
pub struct WindowsAudit {
    pub path: String,
    pub signature: WindowsSignature,
    pub hardening: PeHardening,
    pub manifest: WindowsManifest,
    /// Informational ASAR hash for Electron apps (no signed baseline here).
    pub asar: Option<AsarInfo>,
}

/// The bytes of the executable, where there is one and it can be read.
pub open spec fn executable_bytes(t: Tree, executable: Option<Seq<char>>) -> Option<Seq<u8>> {
    match executable {
        Some(e) => contents(t, e),
        None => None,
    }
}

/// Audits a Windows application. `trust` is what the operating system says of the
/// executable's signature; the signature's *presence* and signer are read from the PE
/// either way.
pub fn audit(tree: &MemTree, path: &str, root: &str, executable: Option<&str>, trust: Trust) -> (r:
    WindowsAudit)
    ensures
        r.path@ == path@,
        match executable_bytes(
            tree@,
            match executable {
                Some(e) => Some(e@),
                None => None,
            },
        ) {
            Some(b) => {
                &&& r.signature@ == with_trust(signature(object_of(b), b), trust)
                &&& r.hardening == mitigations(object_of(b))
                &&& opt_text(r.manifest.requested_execution_level) == execution_level(b)
            },
            None => {
                &&& r.signature@ == unsigned(None)
                &&& r.hardening == no_mitigation(false)
                &&& r.manifest.requested_execution_level is None
            },
        },
        info_view(r.asar) == informed(tree@, root@),
{
    let bytes = match executable {
        Some(e) => tree.read(e),
        None => None,
    };
    let asar = info(tree, root);
    match bytes {
        Some(b) => {
            let (signature, hardening) = parse_pe(b);
            WindowsAudit {
                path: path.to_owned(),
                signature: settle_trust(signature, trust),
                hardening,
                manifest: WindowsManifest { requested_execution_level: scan_execution_level(b) },
                asar,
            }
        },
        None => WindowsAudit {
            path: path.to_owned(),
            signature: WindowsSignature::default(),
            hardening: PeHardening::default(),
            manifest: WindowsManifest { requested_execution_level: None },
            asar,
        },
    }
}

/// Nothing is said of trust, signer or chain where there is no signature.
pub proof fn lemma_unsigned_is_silent(object: ObjectView, bytes: Seq<u8>, trust: Trust)
    ensures
        !with_trust(signature(object, bytes), trust).signed ==> {
            &&& with_trust(signature(object, bytes), trust).trusted is None
            &&& with_trust(signature(object, bytes), trust).subject is None
            &&& with_trust(signature(object, bytes), trust).issuer is None
        },
        with_trust(signature(object, bytes), trust).signed ==> object is Pe,
{
}

} // verus!
