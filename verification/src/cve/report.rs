//! The report on one application, and how answers are gathered into it.

use vstd::prelude::*;

use crate::cve::advisory::{advisories, copy_texts, Advisory, AdvisoryView, Source};
use crate::num::{decimal, decimal_of};
use crate::text::{chars_of, concat, concat3, slice_of, text_of, texts};

verus! {

/// Grouped advisories for a single app's detected runtimes.
///
/// Each field is a separate bucket so a reader can tell present-but-empty
/// (runtime detected, no advisories) from absent (runtime not detected at all).
#[derive(Debug)]
pub struct CveReport {
    pub electron: Vec<Advisory>,
    pub tauri: Vec<Advisory>,
    pub node: Vec<Advisory>,
    pub deno: Vec<Advisory>,
    pub chromium: Vec<Advisory>,
    pub flutter: Vec<Advisory>,
    pub qt: Vec<Advisory>,
    pub nwjs: Vec<Advisory>,
    pub react_native: Vec<Advisory>,
    pub wails: Vec<Advisory>,
    pub sciter: Vec<Advisory>,
    pub java: Vec<Advisory>,
    /// Safari / system WKWebView advisories.
    pub webkit: Vec<Advisory>,
    /// Chromium Embedded Framework advisories. CEF embeds Chromium, so these
    /// are Chromium CVEs looked up by the embedded Chromium version.
    pub cef: Vec<Advisory>,
    /// Per-source error messages. A single source failing never aborts the whole
    /// report — it just shows up here.
    pub errors: Vec<String>,
    /// Names of sources (e.g. `"NVD"`) that were transiently unavailable this
    /// run, deduplicated: "looked up, found nothing" is not "couldn't look up".
    pub unavailable: Vec<String>,
}

/// Which [`CveReport`] field a lookup feeds into.
#[derive(Debug, Clone, Copy, PartialEq, Eq, Structural)]
pub enum Bucket {
    Electron,
    Tauri,
    Node,
    Deno,
    Chromium,
    Flutter,
    Qt,
    Nwjs,
    ReactNative,
    Wails,
    Sciter,
    Java,
    Webkit,
    Cef,
}

impl CveReport {
    /// The advisories in a bucket.
    pub open spec fn bucket(self, b: Bucket) -> Seq<AdvisoryView> {
        match b {
            Bucket::Electron => advisories(self.electron@),
            Bucket::Tauri => advisories(self.tauri@),
            Bucket::Node => advisories(self.node@),
            Bucket::Deno => advisories(self.deno@),
            Bucket::Chromium => advisories(self.chromium@),
            Bucket::Flutter => advisories(self.flutter@),
            Bucket::Qt => advisories(self.qt@),
            Bucket::Nwjs => advisories(self.nwjs@),
            Bucket::ReactNative => advisories(self.react_native@),
            Bucket::Wails => advisories(self.wails@),
            Bucket::Sciter => advisories(self.sciter@),
            Bucket::Java => advisories(self.java@),
            Bucket::Webkit => advisories(self.webkit@),
            Bucket::Cef => advisories(self.cef@),
        }
    }

    /// The advisories in a bucket.
    pub fn in_bucket(&self, b: Bucket) -> (r: &Vec<Advisory>)
        ensures
            advisories(r@) == self.bucket(b),
    {
        match b {
            Bucket::Electron => &self.electron,
            Bucket::Tauri => &self.tauri,
            Bucket::Node => &self.node,
            Bucket::Deno => &self.deno,
            Bucket::Chromium => &self.chromium,
            Bucket::Flutter => &self.flutter,
            Bucket::Qt => &self.qt,
            Bucket::Nwjs => &self.nwjs,
            Bucket::ReactNative => &self.react_native,
            Bucket::Wails => &self.wails,
            Bucket::Sciter => &self.sciter,
            Bucket::Java => &self.java,
            Bucket::Webkit => &self.webkit,
            Bucket::Cef => &self.cef,
        }
    }

    /// Adds advisories to a bucket, after those that are there.
    pub fn extend(&mut self, b: Bucket, more: Vec<Advisory>)
        ensures
            forall|c: Bucket|
                #[trigger] final(self).bucket(c) == if c == b {
                    old(self).bucket(c) + advisories(more@)
                } else {
                    old(self).bucket(c)
                },
            final(self).errors == old(self).errors,
            final(self).unavailable == old(self).unavailable,
    {
        match b {
            Bucket::Electron => append(&mut self.electron, more),
            Bucket::Tauri => append(&mut self.tauri, more),
            Bucket::Node => append(&mut self.node, more),
            Bucket::Deno => append(&mut self.deno, more),
            Bucket::Chromium => append(&mut self.chromium, more),
            Bucket::Flutter => append(&mut self.flutter, more),
            Bucket::Qt => append(&mut self.qt, more),
            Bucket::Nwjs => append(&mut self.nwjs, more),
            Bucket::ReactNative => append(&mut self.react_native, more),
            Bucket::Wails => append(&mut self.wails, more),
            Bucket::Sciter => append(&mut self.sciter, more),
            Bucket::Java => append(&mut self.java, more),
            Bucket::Webkit => append(&mut self.webkit, more),
            Bucket::Cef => append(&mut self.cef, more),
        }
    }

    /// A copy of the report.
    pub fn copy(&self) -> (r: CveReport)
        ensures
            forall|b: Bucket| #[trigger] r.bucket(b) == self.bucket(b),
            texts(r.errors@) == texts(self.errors@),
            texts(r.unavailable@) == texts(self.unavailable@),
    {
        CveReport {
            electron: copy_list(&self.electron),
            tauri: copy_list(&self.tauri),
            node: copy_list(&self.node),
            deno: copy_list(&self.deno),
            chromium: copy_list(&self.chromium),
            flutter: copy_list(&self.flutter),
            qt: copy_list(&self.qt),
            nwjs: copy_list(&self.nwjs),
            react_native: copy_list(&self.react_native),
            wails: copy_list(&self.wails),
            sciter: copy_list(&self.sciter),
            java: copy_list(&self.java),
            webkit: copy_list(&self.webkit),
            cef: copy_list(&self.cef),
            errors: copy_texts(&self.errors),
            unavailable: copy_texts(&self.unavailable),
        }
    }
}

impl Default for CveReport {
    fn default() -> (r: CveReport)
        ensures
            forall|b: Bucket| #[trigger] r.bucket(b) == Seq::<AdvisoryView>::empty(),
            texts(r.errors@) == Seq::<Seq<char>>::empty(),
            texts(r.unavailable@) == Seq::<Seq<char>>::empty(),
    {
        let r = CveReport {
            electron: Vec::new(),
            tauri: Vec::new(),
            node: Vec::new(),
            deno: Vec::new(),
            chromium: Vec::new(),
            flutter: Vec::new(),
            qt: Vec::new(),
            nwjs: Vec::new(),
            react_native: Vec::new(),
            wails: Vec::new(),
            sciter: Vec::new(),
            java: Vec::new(),
            webkit: Vec::new(),
            cef: Vec::new(),
            errors: Vec::new(),
            unavailable: Vec::new(),
        };
        assert forall|b: Bucket| #[trigger] r.bucket(b) == Seq::<AdvisoryView>::empty() by {
            assert(r.bucket(b) =~= Seq::empty());
        }
        assert(texts(r.errors@) =~= Seq::empty());
        assert(texts(r.unavailable@) =~= Seq::empty());
        r
    }
}

fn append(list: &mut Vec<Advisory>, more: Vec<Advisory>)
    ensures
        advisories(final(list)@) == advisories(old(list)@) + advisories(more@),
{
    let ghost before = list@;
    let ghost extra = more@;
    let mut more = more;
    list.append(&mut more);
    assert(advisories(list@) =~= advisories(before) + advisories(extra));
}

fn copy_list(list: &Vec<Advisory>) -> (r: Vec<Advisory>)
    ensures
        advisories(r@) == advisories(list@),
{
    let ghost all = advisories(list@);
    let mut out: Vec<Advisory> = Vec::new();
    let mut i: usize = 0;
    assert(advisories(out@) =~= all.take(0));
    while i < list.len()
        invariant
            i <= list@.len(),
            all == advisories(list@),
            advisories(out@) == all.take(i as int),
        decreases list.len() - i,
    {
        let ghost before = advisories(out@);
        let a = list[i].copy();
        out.push(a);
        assert(advisories(out@) =~= before.push(a@));
        assert(advisories(out@) =~= all.take(i + 1));
        i = i + 1;
    }
    assert(all.take(all.len() as int) =~= all);
    out
}

/// One npm dependency extracted from a bundle's `package.json` /
/// `package-lock.json`.
#[derive(Debug)]
pub struct NpmPackage {
    pub name: String,
    pub version: String,
}

/// Advisories matched against a single bundled npm dependency.
#[derive(Debug)]
pub struct NpmPackageAdvisories {
    pub package: NpmPackage,
    pub advisories: Vec<Advisory>,
}

/// The name of a source in a message.
pub open spec fn source_name(s: Source) -> Seq<char> {
    match s {
        Source::Nvd => "nvd"@,
        Source::Euvd => "euvd"@,
        Source::Osv => "osv"@,
        Source::Ghsa => "ghsa"@,
    }
}

/// The name of a source in a message.
pub fn name_of_source(s: Source) -> (r: &'static str)
    ensures
        r@ == source_name(s),
{
    match s {
        Source::Nvd => "nvd",
        Source::Euvd => "euvd",
        Source::Osv => "osv",
        Source::Ghsa => "ghsa",
    }
}

/// Why a request over the network failed.
#[derive(Debug)]
pub struct HttpFailure {
    pub timeout: bool,
    /// No connection could be made. Never so in a browser, whose fetch has no separate
    /// connect phase.
    pub connect: bool,
    pub request: bool,
    pub message: String,
}

/// Why a lookup failed.
#[derive(Debug)]
pub enum Error {
    Http(HttpFailure),
    BadPayload(String),
    /// An upstream source was transiently unavailable (5xx / rate-limited)
    /// even after retries. Not actionable to the user, so it's kept out of the
    /// report's user-facing `errors` — see [`Error::is_transient`].
    Unavailable(String),
}

impl Error {
    /// True for upstream-availability failures that aren't actionable to the user.
    pub open spec fn transient(self) -> bool {
        match self {
            Error::Unavailable(_) => true,
            Error::Http(e) => e.timeout || e.connect || e.request,
            Error::BadPayload(_) => false,
        }
    }

    /// The message of an error.
    pub open spec fn text(self) -> Seq<char> {
        match self {
            Error::Http(e) => "http error: "@ + e.message@,
            Error::BadPayload(m) => "unexpected payload: "@ + m@,
            Error::Unavailable(m) => "temporarily unavailable: "@ + m@,
        }
    }

    /// True for upstream-availability failures that aren't actionable to the
    /// user: transient server errors, rate limits, and network blips. These are
    /// already retried, so when they still fail they are dropped from the report's
    /// user-facing `errors` rather than surfacing raw 503 noise.
    pub fn is_transient(&self) -> (r: bool)
        ensures
            r == self.transient(),
    {
        match self {
            Error::Unavailable(_) => true,
            Error::Http(e) => e.timeout || e.connect || e.request,
            Error::BadPayload(_) => false,
        }
    }

    /// The message of the error.
    pub fn message(&self) -> (r: String)
        ensures
            r@ == self.text(),
    {
        match self {
            Error::Http(e) => concat("http error: ", e.message.as_str()),
            Error::BadPayload(m) => concat("unexpected payload: ", m.as_str()),
            Error::Unavailable(m) => concat("temporarily unavailable: ", m.as_str()),
        }
    }
}

/// Whether a service that answers so may answer otherwise later: it is down, or throttles.
pub open spec fn passes(status: u16) -> bool {
    status == 429 || 500 <= status <= 599
}

/// What the refusal of a lookup says: which one, the status, and how the answer starts.
pub open spec fn refusal(label: Seq<char>, status: u16, text: Seq<char>, shown: nat) -> Seq<char> {
    label + ": HTTP "@ + decimal(status as nat) + ": "@ + if text.len() <= shown {
        text
    } else {
        text.take(shown as int)
    }
}

/// How a refusal counts.
pub enum ErrorKind {
    Unavailable,
    BadPayload,
}

/// How a refusal with a status counts.
pub open spec fn answer_kind(status: u16) -> ErrorKind {
    if passes(status) {
        ErrorKind::Unavailable
    } else {
        ErrorKind::BadPayload
    }
}

/// What a refused lookup fails with.
pub fn http_error(label: &str, status: u16, text: &str, shown: usize) -> (r: Error)
    ensures
        match r {
            Error::Unavailable(m) => answer_kind(status) is Unavailable && m@ == refusal(
                label@,
                status,
                text@,
                shown as nat,
            ),
            Error::BadPayload(m) => answer_kind(status) is BadPayload && m@ == refusal(
                label@,
                status,
                text@,
                shown as nat,
            ),
            Error::Http(_) => false,
        },
{
    let x = chars_of(text);
    let end: usize = if x.len() <= shown {
        x.len()
    } else {
        shown
    };
    let head = text_of(&slice_of(&x, 0, end));
    assert(head@ =~= if text@.len() <= shown {
        text@
    } else {
        text@.take(shown as int)
    });
    let mut m = concat3(label, ": HTTP ", decimal_of(status as u64).as_str());
    m.append(": ");
    m.append(head.as_str());
    if status == 429 || (500 <= status && status <= 599) {
        Error::Unavailable(m)
    } else {
        Error::BadPayload(m)
    }
}

/// Which sources were unavailable.
#[derive(Debug, Clone, Copy, PartialEq, Eq, Structural)]
pub struct Outages {
    pub euvd: bool,
    pub ghsa: bool,
    pub nvd: bool,
    pub osv: bool,
}

impl Outages {
    /// With one more source.
    pub open spec fn with(self, s: Source) -> Outages {
        match s {
            Source::Euvd => Outages { euvd: true, ..self },
            Source::Ghsa => Outages { ghsa: true, ..self },
            Source::Nvd => Outages { nvd: true, ..self },
            Source::Osv => Outages { osv: true, ..self },
        }
    }

    /// The names of the sources, each once, in alphabetical order.
    pub open spec fn names(self) -> Seq<Seq<char>> {
        name_if(self.euvd, "EUVD"@) + name_if(self.ghsa, "GHSA"@) + name_if(self.nvd, "NVD"@)
            + name_if(self.osv, "OSV"@)
    }
}

/// The name, where it is to be given.
pub open spec fn name_if(b: bool, name: Seq<char>) -> Seq<Seq<char>> {
    if b {
        seq![name]
    } else {
        Seq::empty()
    }
}

fn push_if(out: &mut Vec<String>, b: bool, name: &str)
    ensures
        texts(final(out)@) == texts(old(out)@) + name_if(b, name@),
{
    let ghost before = texts(out@);
    if b {
        out.push(name.to_owned());
        assert(texts(out@) =~= before + seq![name@]);
    } else {
        assert(before + Seq::<Seq<char>>::empty() =~= before);
    }
}

fn names_of(o: Outages) -> (r: Vec<String>)
    ensures
        texts(r@) == o.names(),
{
    let mut out: Vec<String> = Vec::new();
    assert(texts(out@) =~= Seq::empty());
    push_if(&mut out, o.euvd, "EUVD");
    push_if(&mut out, o.ghsa, "GHSA");
    push_if(&mut out, o.nvd, "NVD");
    push_if(&mut out, o.osv, "OSV");
    assert(texts(out@) =~= o.names());
    out
}

/// A report in the making: what has been found so far, unfiltered.
#[derive(Debug)]
pub struct Session {
    pub report: CveReport,
    pub outages: Outages,
}

impl Session {
    /// That the report names the sources that were unavailable.
    pub open spec fn consistent(self) -> bool {
        texts(self.report.unavailable@) == self.outages.names()
    }

    /// Nothing found yet.
    pub fn new() -> (r: Session)
        ensures
            forall|b: Bucket| #[trigger] r.report.bucket(b) == Seq::<AdvisoryView>::empty(),
            texts(r.report.errors@) == Seq::<Seq<char>>::empty(),
            !r.outages.euvd && !r.outages.ghsa && !r.outages.nvd && !r.outages.osv,
            r.consistent(),
    {
        let r = Session {
            report: CveReport::default(),
            outages: Outages { euvd: false, ghsa: false, nvd: false, osv: false },
        };
        assert(r.outages.names() =~= Seq::empty());
        r
    }

    /// Takes what the snapshot answers for a runtime.
    pub fn answer(&mut self, bucket: Bucket, found: Vec<Advisory>)
        requires
            old(self).consistent(),
        ensures
            final(self).consistent(),
            forall|c: Bucket| #[trigger]
                final(self).report.bucket(c) == if c == bucket {
                    old(self).report.bucket(c) + advisories(found@)
                } else {
                    old(self).report.bucket(c)
                },
            final(self).report.errors == old(self).report.errors,
            final(self).outages == old(self).outages,
    {
        self.report.extend(bucket, found);
    }

    /// Takes what came of one lookup. `prefix` names the lookup in an error message.
    pub fn absorb(
        &mut self,
        bucket: Bucket,
        source: Source,
        prefix: &str,
        result: Result<Vec<Advisory>, Error>,
    )
        requires
            old(self).consistent(),
        ensures
            final(self).consistent(),
            forall|c: Bucket| #[trigger]
                final(self).report.bucket(c) == match result {
                    Ok(found) if c == bucket => old(self).report.bucket(c) + advisories(found@),
                    _ => old(self).report.bucket(c),
                },
            texts(final(self).report.errors@) == match result {
                Err(e) if !e.transient() => texts(old(self).report.errors@).push(
                    prefix@ + ": "@ + e.text(),
                ),
                _ => texts(old(self).report.errors@),
            },
            final(self).outages == match result {
                Err(e) if e.transient() => old(self).outages.with(source),
                _ => old(self).outages,
            },
    {
        match result {
            Ok(found) => {
                self.report.extend(bucket, found);
            },
            Err(e) => {
                // Transient upstream failures aren't actionable and their raw bodies are
                // noise — but the source name is recorded so a rate-limited source doesn't
                // masquerade as "no advisories" for runtimes that only it covers.
                if e.is_transient() {
                    match source {
                        Source::Euvd => {
                            self.outages.euvd = true;
                        },
                        Source::Ghsa => {
                            self.outages.ghsa = true;
                        },
                        Source::Nvd => {
                            self.outages.nvd = true;
                        },
                        Source::Osv => {
                            self.outages.osv = true;
                        },
                    }
                    self.report.unavailable = names_of(self.outages);
                } else {
                    let ghost before = texts(self.report.errors@);
                    let message = concat3(prefix, ": ", e.message().as_str());
                    self.report.errors.push(message);
                    assert(texts(self.report.errors@) =~= before.push(message@));
                }
            },
        }
    }
}

/// Which sources were unavailable does not depend on the order in which they failed,
/// nor on how often.
pub proof fn lemma_outages_commute(o: Outages, s: Source, t: Source)
    ensures
        o.with(s).with(t) == o.with(t).with(s),
        o.with(s).with(s) == o.with(s),
{
}

} // verus!
