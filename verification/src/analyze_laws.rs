//! What an analysis of an upload promises, whatever is uploaded.

use vstd::prelude::*;
use vstd::utf8::{decode_utf8, valid_utf8};

use crate::analyze::{
    analyses, analyses_upload, classified, forced_platform, package_fault, scan_root, unpacked_note,
    unsupported, AnalyzeResult, Upload,
};
use crate::audit::linux::hardening;
use crate::audit::windows::mitigations;
use crate::audit::{AppAudit, HostFacts};
use crate::detect::app::AppView;
use crate::detect::WebviewView;
use crate::num::decimal;
use crate::object::{elf_of, object_of};
use crate::path::{file_name, parent, pushed};
use crate::pkg::{Fault, Format};
use crate::text::{closes, opens, opt_text, split, CharClass};
use crate::upload::{
    entry_name, entry_size, first_name, is_payload_binary, largest_binary, name_from, name_line,
    payload_app, scan_target,
};
use crate::vfs::{contents, listing, present, NodeView, Platform, Tree};

verus! {

// ---------- the application of a package ------------------------------------

proof fn lemma_largest(t: Tree, base: Seq<char>, n: nat)
    requires
        n <= t.len(),
    ensures
        match largest_binary(t, base, n) {
            Some(i) => 0 <= i < n && is_payload_binary(base, t[i]) && forall|k: int|
                0 <= k < n && is_payload_binary(base, #[trigger] t[k]) ==> entry_size(t[k].1)
                    <= entry_size(t[i].1) && (k < i ==> entry_size(t[k].1) < entry_size(t[i].1)),
            None => forall|k: int| 0 <= k < n ==> !is_payload_binary(base, #[trigger] t[k]),
        },
    decreases n,
{
    if n > 0 {
        lemma_largest(t, base, (n - 1) as nat);
    }
}

/// The application of a package is its largest executable, the first of equals, with the
/// directory that it lies in; a package without one has no application.
pub proof fn lemma_payload_app(t: Tree, base: Seq<char>)
    ensures
        match payload_app(t, base) {
            Some(a) => {
                &&& a.executable == Some(a.path)
                &&& parent(a.path) matches Some(d) ==> a.root == d
                &&& exists|i: int|
                    0 <= i < t.len() && is_payload_binary(base, t[i]) && (#[trigger] t[i]).0 == a.path
                        && forall|k: int|
                        0 <= k < t.len() && is_payload_binary(base, #[trigger] t[k]) ==> entry_size(
                            t[k].1,
                        ) <= entry_size(t[i].1) && (k < i ==> entry_size(t[k].1) < entry_size(t[i].1))
            },
            None => forall|k: int| 0 <= k < t.len() ==> !is_payload_binary(base, #[trigger] t[k]),
        },
{
    lemma_largest(t, base, t.len());
}

/// Size is what is written, of files alone.
pub proof fn lemma_entry_size(data: Seq<u8>, mode: u32)
    ensures
        entry_size(NodeView::File(data, mode)) == data.len(),
        entry_size(NodeView::Dir) == 0,
{
}

proof fn lemma_first_name(t: Tree, dir: Seq<char>, names: Seq<Seq<char>>, j: int, k: int)
    requires
        0 <= j <= k < names.len(),
        forall|i: int| j <= i < k ==> entry_name(t, dir, #[trigger] names[i]) is None,
    ensures
        entry_name(t, dir, names[k]) is Some ==> first_name(t, dir, names, j) == entry_name(
            t,
            dir,
            names[k],
        ),
    decreases k - j,
{
    if j < k {
        assert(entry_name(t, dir, names[j]) is None);
        lemma_first_name(t, dir, names, j + 1, k);
    }
}

/// The name that a directory's desktop entries give is the first of them, and other files give
/// none.
pub proof fn lemma_name_from(t: Tree, dir: Seq<char>, names: Seq<Seq<char>>, k: int, b: Seq<u8>)
    requires
        listing(t, dir) == Some(names),
        0 <= k < names.len(),
        forall|i: int| 0 <= i < k ==> !closes(#[trigger] names[i], ".desktop"@),
        closes(names[k], ".desktop"@),
        contents(t, pushed(dir, names[k])) == Some(b),
        valid_utf8(b),
    ensures
        name_line(split(decode_utf8(b), CharClass::Only('\n')), 0, false) matches Some(n) ==> name_from(
            t,
            dir,
        ) == Some(n),
{
    assert forall|i: int| 0 <= i < k implies entry_name(t, dir, #[trigger] names[i]) is None by {
        assert(!closes(names[i], ".desktop"@));
    }
    lemma_first_name(t, dir, names, 0, k);
}

/// The desktop entry at a package's root names its application, else one where distributions
/// keep theirs, else the executable's own file name does.
pub proof fn lemma_payload_name(t: Tree, base: Seq<char>)
    ensures
        payload_app(t, base) matches Some(a) ==> {
            let shared = pushed(base, "usr/share/applications"@);
            &&& name_from(t, base) is Some ==> a.name == name_from(t, base)
            &&& name_from(t, base) is None && name_from(t, shared) is Some ==> a.name == name_from(
                t,
                shared,
            )
            &&& name_from(t, base) is None && name_from(t, shared) is None ==> a.name == file_name(
                a.path,
            )
        },
{
}

// ---------- results ---------------------------------------------------------

/// A platform is forced by its name, and an unknown name forces nothing.
pub proof fn lemma_forced_platform(name: Seq<char>)
    ensures
        forced_platform(None) is None,
        name == "macos"@ ==> forced_platform(Some(name)) == Some(Platform::Macos),
        name == "windows"@ ==> forced_platform(Some(name)) == Some(Platform::Windows),
        name == "linux"@ ==> forced_platform(Some(name)) == Some(Platform::Linux),
        name != "macos"@ && name != "windows"@ && name != "linux"@ ==> forced_platform(Some(name))
            is None,
{
    crate::laws::lemma_platform_names(name);
}

/// An application that is there is audited as of its platform, and its detection decides what
/// is scanned; without an application there is neither.
pub proof fn lemma_analysis(
    r: AnalyzeResult,
    t: Tree,
    app: Option<AppView>,
    platform: Platform,
    sciter: Option<Seq<char>>,
    webview: WebviewView,
    facts: HostFacts,
)
    requires
        analyses(r, t, app, platform, sciter, webview, facts),
    ensures
        r.platform == platform,
        app is None ==> r.detection is None && r.audit is None,
        app matches Some(a) ==> (r.audit is Some <==> present(t, a.path)),
        app matches Some(a) ==> (r.audit matches Some(x) ==> match x {
            AppAudit::Macos(m) => platform == Platform::Macos && m.path@ == a.path,
            AppAudit::Windows(w) => platform == Platform::Windows && w.path@ == a.path,
            AppAudit::Linux(l) => platform == Platform::Linux && l.path@ == a.path,
        }),
        r.detection matches Some(d) ==> opt_text(r.scan_target) == scan_target(t, d@.root, platform),
        r.detection is None ==> (app matches Some(a) ==> opt_text(r.scan_target) == scan_target(
            t,
            a.root,
            platform,
        )),
        r.detection matches Some(d) ==> (d@.executable matches Some(e) ==> (contents(t, e) matches Some(
            b,
        ) ==> match r.audit {
            Some(AppAudit::Windows(w)) => w.hardening == mitigations(object_of(b)),
            Some(AppAudit::Linux(l)) => l.hardening == hardening(elf_of(b)),
            _ => true,
        })),
{
}

/// An upload that is no known kind is refused; one that is known is read as the platform that
/// the caller forces.
pub proof fn lemma_upload(
    r: Result<AnalyzeResult, Seq<char>>,
    b: Seq<u8>,
    filename: Seq<char>,
    forced: Option<Platform>,
    sciter: Option<Seq<char>>,
    webview: WebviewView,
    facts: HostFacts,
)
    requires
        analyses_upload(r, b, filename, forced, sciter, webview, facts),
    ensures
        classified(b, filename) is None ==> r == Err::<AnalyzeResult, Seq<char>>(unsupported(b)),
        r matches Ok(a) ==> (forced matches Some(p) ==> a.platform == p),
        r matches Ok(a) ==> (classified(b, filename) matches Some(Upload::Package(_)) ==> (forced is None
            ==> a.platform == Platform::Linux)),
        classified(b, filename) matches Some(Upload::Binary(p)) ==> r is Ok,
        classified(b, filename) matches Some(Upload::Asar) ==> r is Ok,
        r matches Err(m) ==> (classified(b, filename) matches Some(Upload::Package(f)) ==> opens(
            m,
            "could not read this "@ + f.name() + ": "@,
        )),
        r matches Err(m) ==> (classified(b, filename) matches Some(Upload::Zip) ==> opens(
            m,
            "could not read the uploaded zip: "@,
        )),
{
    if let Err(m) = r {
        match classified(b, filename) {
            Some(Upload::Package(f)) => {
                let head = "could not read this "@ + f.name() + ": "@;
                assert(m.take(head.len() as int) =~= head);
            },
            Some(Upload::Zip) => {
                let why = choose|why: Seq<char>|
                    crate::analyze::unzips_to(Seq::empty(), b, scan_root(), Err(why)) && m
                        == #[trigger] ("could not read the uploaded zip: "@ + why);
                let head = "could not read the uploaded zip: "@;
                assert(m.take(head.len() as int) =~= head);
            },
            _ => {},
        }
    }
}

/// What was unpacked is told by its format, the number of files and the mebibytes that they
/// take, to the nearest one.
pub proof fn lemma_unpacked_note(format: Format, files: nat, bytes: nat, m: nat)
    requires
        -0x8_0000 < bytes - m * 0x10_0000 < 0x8_0000,
    ensures
        opens(
            unpacked_note(format, files, bytes),
            "Unpacked a "@ + format.name() + " ("@ + decimal(files) + " files, "@ + decimal(m)
                + " MB)"@,
        ),
{
    crate::laws::lemma_mebibytes(bytes);
    reveal_strlit(" MB)");
    reveal_strlit(" MB) and analysed the application inside it.");
    let head = "Unpacked a "@ + format.name() + " ("@ + decimal(files) + " files, "@ + decimal(m)
        + " MB)"@;
    assert(unpacked_note(format, files, bytes).take(head.len() as int) =~= head);
}

/// A package that cannot be read is answered with its fault, and one past the limit of an
/// upload with that limit.
pub proof fn lemma_package_fault(what: Seq<char>, why: Seq<char>)
    ensures
        package_fault(Fault::Malformed(what, why)) == "malformed "@ + what + ": "@ + why,
        package_fault(Fault::Decompress(what, why)) == what + " decompression failed: "@ + why,
        package_fault(Fault::TooLarge(crate::analyze::MAX_PACKAGE_BYTES))
            == "the payload expands past the "@ + decimal(2) + " GiB limit for this scan"@,
        package_fault(Fault::Unsupported(why)) == why,
        package_fault(Fault::UnsupportedCompression(what)) == what
            + "-compressed payloads are not supported"@,
        package_fault(Fault::Io(why)) == "writing the unpacked payload failed: "@ + why,
        package_fault(Fault::Unrecognised) == "not a package format we recognise"@,
{
}

} // verus!
