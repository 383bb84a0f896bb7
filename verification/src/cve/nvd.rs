//! NVD records, keyed by CPE.
//!
//! Used for runtimes that OSV doesn't cover as an ecosystem: Node.js core
//! (`cpe:2.3:a:nodejs:node.js:<ver>`) and Chromium
//! (`cpe:2.3:a:google:chrome:<ver>`).

use vstd::prelude::*;

use crate::cve::advisory::{
    advisories, copy_texts, severity_named, Advisory, AdvisoryView, Severity, Source,
};
use crate::text::{
    concat3, contains, copy_opt, holds, opt_text, same, split, split_of, texts, CharClass,
};
use crate::version::{cmp_version, rank, Rank};

verus! {

/// One vulnerability record, trimmed to what is read.
#[derive(Debug)]
pub struct Cve {
    pub id: String,
    pub published: Option<String>,
    pub descriptions: Vec<Description>,
    /// Reference URLs.
    pub references: Vec<String>,
    pub metrics: Metrics,
    /// The CPE matches of all configurations' nodes, in order.
    pub cpe_matches: Vec<CpeMatch>,
}

/// A description in one language.
#[derive(Debug)]
pub struct Description {
    pub lang: String,
    pub value: String,
}

/// Ratings, by CVSS version.
#[derive(Debug)]
pub struct Metrics {
    pub cvss_v31: Vec<CvssMetric>,
    pub cvss_v30: Vec<CvssMetric>,
    pub cvss_v2: Vec<CvssMetric>,
}

/// One rating.
#[derive(Debug)]
pub struct CvssMetric {
    /// The severity that the base score falls under.
    pub score_severity: Option<Severity>,
    pub base_severity: Option<String>,
}

/// A CPE applicability match. The version boundaries describe the affected range;
/// `version_end_excluding` is also NVD's way of saying "fixed in".
#[derive(Debug)]
pub struct CpeMatch {
    pub criteria: Option<String>,
    /// Whether this match marks the product as vulnerable (vs. merely a
    /// platform/running-on constraint).
    pub vulnerable: bool,
    pub version_start_including: Option<String>,
    pub version_start_excluding: Option<String>,
    pub version_end_including: Option<String>,
    pub version_end_excluding: Option<String>,
}

/// The version field (index 5) of a CPE 2.3 string.
pub open spec fn cpe_field(criteria: Seq<char>) -> Option<Seq<char>> {
    let parts = split(criteria, CharClass::Only(':'));
    if parts.len() > 5 {
        Some(parts[5])
    } else {
        None
    }
}

/// Extract the version field (index 5) from a CPE 2.3 string:
/// `cpe:2.3:<part>:<vendor>:<product>:<version>:…`.
pub fn cpe_version(criteria: &str) -> (r: Option<String>)
    ensures
        opt_text(r) == cpe_field(criteria@),
{
    let parts = split_of(criteria, CharClass::Only(':'));
    if parts.len() > 5 {
        assert(texts(parts@)[5] == parts@[5]@);
        Some(parts[5].clone())
    } else {
        None
    }
}

impl CpeMatch {
    /// Whether any boundary constrains the version.
    pub open spec fn has_bounds(self) -> bool {
        self.version_start_including is Some || self.version_start_excluding is Some
            || self.version_end_including is Some || self.version_end_excluding is Some
    }

    /// Whether `version` respects every boundary that is given.
    pub open spec fn in_bounds(self, version: Seq<char>) -> bool {
        &&& opt_text(self.version_start_including) matches Some(s) ==> rank(version, s) != Rank::Less
        &&& opt_text(self.version_start_excluding) matches Some(s) ==> rank(version, s)
            == Rank::Greater
        &&& opt_text(self.version_end_including) matches Some(e) ==> rank(version, e)
            != Rank::Greater
        &&& opt_text(self.version_end_excluding) matches Some(e) ==> rank(version, e) == Rank::Less
    }

    /// The version pinned in the criteria; `*` and `-` mean any.
    pub open spec fn pinned(self) -> Option<Seq<char>> {
        match opt_text(self.criteria) {
            Some(c) => match cpe_field(c) {
                Some(v) => if v == "*"@ || v == "-"@ {
                    None
                } else {
                    Some(v)
                },
                None => None,
            },
            None => None,
        }
    }

    /// Whether this match covers `version`: by its boundaries, else by the version
    /// pinned in its criteria, else any version is.
    pub open spec fn covers(self, version: Seq<char>) -> bool {
        if self.has_bounds() {
            self.in_bounds(version)
        } else {
            match self.pinned() {
                Some(v) => rank(version, v) == Rank::Equal,
                None => true,
            }
        }
    }

    /// Whether this match concerns the product that `wanted` spells.
    pub open spec fn concerns(self, wanted: Seq<char>) -> bool {
        match opt_text(self.criteria) {
            Some(c) => holds(c, wanted),
            None => false,
        }
    }

    /// Whether this match makes `version` of the product vulnerable.
    pub open spec fn applies(self, wanted: Seq<char>, version: Seq<char>) -> bool {
        self.concerns(wanted) && self.vulnerable && self.covers(version)
    }
}

/// Does this CPE match cover `version`?
///
/// Two shapes appear in NVD data:
///   * a wildcard criteria (`…:chrome:*:…`) constrained by version boundaries —
///     check the boundaries.
///   * an explicit version pinned in the criteria (`…:chrome:148.0.7778.1:…`)
///     with no boundaries — the queried version must equal it.
pub fn match_covers_version(m: &CpeMatch, version: &str) -> (r: bool)
    ensures
        r == m.covers(version@),
{
    let has_bounds = m.version_start_including.is_some() || m.version_start_excluding.is_some()
        || m.version_end_including.is_some() || m.version_end_excluding.is_some();
    if !has_bounds {
        // No range: fall back to the version embedded in the CPE criteria.
        // `*` / `-` mean "any version" — conservatively treat as covered.
        let field = match &m.criteria {
            Some(c) => cpe_version(c.as_str()),
            None => None,
        };
        return match field {
            Some(v) => {
                if same(v.as_str(), "*") || same(v.as_str(), "-") {
                    true
                } else {
                    cmp_version(version, v.as_str()).is_eq()
                }
            },
            None => true,
        };
    }
    match &m.version_start_including {
        Some(s) => match cmp_version(version, s.as_str()) {
            Rank::Less => {
                return false;
            },
            _ => {},
        },
        None => {},
    }
    match &m.version_start_excluding {
        Some(s) => match cmp_version(version, s.as_str()) {
            Rank::Greater => {},
            _ => {
                return false;
            },
        },
        None => {},
    }
    match &m.version_end_including {
        Some(e) => match cmp_version(version, e.as_str()) {
            Rank::Greater => {
                return false;
            },
            _ => {},
        },
        None => {},
    }
    match &m.version_end_excluding {
        Some(e) => match cmp_version(version, e.as_str()) {
            Rank::Less => {},
            _ => {
                return false;
            },
        },
        None => {},
    }
    true
}

/// How the criteria of a product are recognised.
pub open spec fn wanted(vendor: Seq<char>, product: Seq<char>) -> Seq<char> {
    ":"@ + vendor + ":"@ + product + ":"@
}

/// The first match, from `i` on, that makes `version` vulnerable.
pub open spec fn first_applying(
    m: Seq<CpeMatch>,
    wanted: Seq<char>,
    version: Seq<char>,
    i: int,
) -> Option<CpeMatch>
    decreases m.len() - i,
{
    if i < 0 || i >= m.len() {
        None
    } else if m[i].applies(wanted, version) {
        Some(m[i])
    } else {
        first_applying(m, wanted, version, i + 1)
    }
}

/// The first English description from `i` on.
pub open spec fn english(d: Seq<Description>, i: int) -> Seq<char>
    decreases d.len() - i,
{
    if i < 0 || i >= d.len() {
        Seq::empty()
    } else if d[i].lang@ == "en"@ {
        d[i].value@
    } else {
        english(d, i + 1)
    }
}

/// The rating that counts: the first of the newest CVSS version that has one.
pub open spec fn leading_metric(m: Metrics) -> Option<CvssMetric> {
    if m.cvss_v31@.len() > 0 {
        Some(m.cvss_v31@[0])
    } else if m.cvss_v30@.len() > 0 {
        Some(m.cvss_v30@[0])
    } else if m.cvss_v2@.len() > 0 {
        Some(m.cvss_v2@[0])
    } else {
        None
    }
}

/// The severity of a rating: the one it names, else that of its score.
pub open spec fn rated(m: Option<CvssMetric>) -> Option<Severity> {
    match m {
        Some(x) => {
            let named = match opt_text(x.base_severity) {
                Some(s) => severity_named(s),
                None => None,
            };
            match named {
                Some(s) => Some(s),
                None => x.score_severity,
            }
        },
        None => None,
    }
}

/// The advisory that a record makes for a version of a product; none where no match
/// makes that version vulnerable.
pub open spec fn advised(
    cve: Cve,
    vendor: Seq<char>,
    product: Seq<char>,
    version: Seq<char>,
) -> Option<AdvisoryView> {
    match first_applying(cve.cpe_matches@, wanted(vendor, product), version, 0) {
        None => None,
        Some(m) => Some(
            AdvisoryView {
                id: cve.id@,
                source: Source::Nvd,
                summary: english(cve.descriptions@, 0),
                severity: rated(leading_metric(cve.metrics)),
                fixed_in: opt_text(m.version_end_excluding),
                aliases: Seq::empty(),
                published: opt_text(cve.published),
                references: texts(cve.references@),
            },
        ),
    }
}

fn concerns_of(m: &CpeMatch, wanted: &str) -> (r: bool)
    ensures
        r == m.concerns(wanted@),
{
    match &m.criteria {
        Some(c) => contains(c.as_str(), wanted),
        None => false,
    }
}

fn find_applying(m: &Vec<CpeMatch>, wanted: &str, version: &str) -> (r: Option<usize>)
    ensures
        match r {
            Some(i) => i < m@.len() && first_applying(m@, wanted@, version@, 0) == Some(m@[i as int]),
            None => first_applying(m@, wanted@, version@, 0) is None,
        },
{
    let mut i: usize = 0;
    while i < m.len()
        invariant
            i <= m@.len(),
            first_applying(m@, wanted@, version@, 0) == first_applying(
                m@,
                wanted@,
                version@,
                i as int,
            ),
        decreases m.len() - i,
    {
        if concerns_of(&m[i], wanted) && m[i].vulnerable && match_covers_version(&m[i], version) {
            return Some(i);
        }
        i = i + 1;
    }
    None
}

fn english_of(d: &Vec<Description>) -> (r: String)
    ensures
        r@ == english(d@, 0),
{
    let mut i: usize = 0;
    while i < d.len()
        invariant
            i <= d@.len(),
            english(d@, 0) == english(d@, i as int),
        decreases d.len() - i,
    {
        if same(d[i].lang.as_str(), "en") {
            return d[i].value.clone();
        }
        i = i + 1;
    }
    String::new()
}

fn rated_of(m: &CvssMetric) -> (r: Option<Severity>)
    ensures
        r == rated(Some(*m)),
{
    let named = match &m.base_severity {
        Some(s) => Severity::parse(s.as_str()),
        None => None,
    };
    match named {
        Some(s) => Some(s),
        None => m.score_severity,
    }
}

fn severity_of(m: &Metrics) -> (r: Option<Severity>)
    ensures
        r == rated(leading_metric(*m)),
{
    if m.cvss_v31.len() > 0 {
        rated_of(&m.cvss_v31[0])
    } else if m.cvss_v30.len() > 0 {
        rated_of(&m.cvss_v30[0])
    } else if m.cvss_v2.len() > 0 {
        rated_of(&m.cvss_v2[0])
    } else {
        None
    }
}

/// Returns `Some(advisory)` only when `version` genuinely falls inside the
/// affected range described by one of the CVE's CPE matches for our
/// vendor/product. Returns `None` when the version is at or past the fix (or
/// otherwise outside every affected range), so already-patched runtimes don't
/// get flagged.
pub fn to_advisory(cve: &Cve, vendor: &str, product: &str, version: &str) -> (r: Option<Advisory>)
    ensures
        match r {
            Some(a) => advised(*cve, vendor@, product@, version@) == Some(a@),
            None => advised(*cve, vendor@, product@, version@) is None,
        },
{
    // CPE matches that reference the runtime we actually queried. NVD entries
    // can list multiple CPEs (e.g. an OS the product runs on); we only care
    // about our own vendor/product.
    let mut pattern = concat3(":", vendor, ":");
    pattern.append(product);
    pattern.append(":");
    let at = match find_applying(&cve.cpe_matches, pattern.as_str(), version) {
        Some(i) => i,
        None => {
            return None;
        },
    };
    let aliases: Vec<String> = Vec::new();
    assert(texts(aliases@) =~= Seq::empty());
    Some(
        Advisory {
            id: cve.id.clone(),
            source: Source::Nvd,
            summary: english_of(&cve.descriptions),
            severity: severity_of(&cve.metrics),
            // Report the fix from the range that applies to our version.
            fixed_in: copy_opt(&cve.cpe_matches[at].version_end_excluding),
            aliases,
            published: copy_opt(&cve.published),
            references: copy_texts(&cve.references),
        },
    )
}

/// The advisories that a list of records makes for a version of a product, in order.
pub open spec fn matches(
    cves: Seq<Cve>,
    vendor: Seq<char>,
    product: Seq<char>,
    version: Seq<char>,
) -> Seq<AdvisoryView>
    decreases cves.len(),
{
    if cves.len() == 0 {
        Seq::empty()
    } else {
        let rest = matches(cves.drop_last(), vendor, product, version);
        match advised(cves.last(), vendor, product, version) {
            Some(a) => rest.push(a),
            None => rest,
        }
    }
}

/// The advisories that a response makes for a version of a product.
///
/// NVD's query is not reliable at range boundaries — it can return a CVE whose
/// `versionEndExcluding` equals the queried version, i.e. the version that *fixed* it. So
/// every match is checked again against the affected range.
pub fn select(cves: &Vec<Cve>, vendor: &str, product: &str, version: &str) -> (r: Vec<Advisory>)
    ensures
        advisories(r@) == matches(cves@, vendor@, product@, version@),
{
    let mut out: Vec<Advisory> = Vec::new();
    let mut i: usize = 0;
    assert(cves@.take(0) =~= Seq::empty());
    assert(advisories(out@) =~= Seq::empty());
    while i < cves.len()
        invariant
            i <= cves@.len(),
            advisories(out@) == matches(cves@.take(i as int), vendor@, product@, version@),
        decreases cves.len() - i,
    {
        assert(cves@.take(i + 1).drop_last() =~= cves@.take(i as int));
        match to_advisory(&cves[i], vendor, product, version) {
            Some(a) => {
                let ghost before = advisories(out@);
                out.push(a);
                assert(advisories(out@) =~= before.push(a@));
            },
            None => {},
        }
        i = i + 1;
    }
    assert(cves@.take(cves@.len() as int) =~= cves@);
    out
}

/// The CPE name of a version of a product, as a text.
pub open spec fn cpe_text(vendor: Seq<char>, product: Seq<char>, version: Seq<char>) -> Seq<char> {
    "cpe:2.3:a:"@ + vendor + ":"@ + product + ":"@ + version + ":*:*:*:*:*:*:*"@
}

/// The CPE name of a version of a product.
pub fn cpe_name(vendor: &str, product: &str, version: &str) -> (r: String)
    ensures
        r@ == cpe_text(vendor@, product@, version@),
{
    let mut s = concat3("cpe:2.3:a:", vendor, ":");
    s.append(product);
    s.append(":");
    s.append(version);
    s.append(":*:*:*:*:*:*:*");
    s
}

/// A version at or past the end of a range is never reported for it.
pub proof fn lemma_fixed_is_not_covered(m: CpeMatch, version: Seq<char>)
    requires
        m.version_end_excluding is Some,
        rank(version, m.version_end_excluding->0@) != Rank::Less,
    ensures
        !m.covers(version),
{
}

/// The fix that an advisory reports lies above the version it is reported for.
pub proof fn lemma_reported_fix_is_ahead(
    cve: Cve,
    vendor: Seq<char>,
    product: Seq<char>,
    version: Seq<char>,
)
    ensures
        advised(cve, vendor, product, version) matches Some(a) ==> (a.fixed_in matches Some(f)
            ==> rank(version, f) == Rank::Less),
{
    lemma_first_applying(cve.cpe_matches@, wanted(vendor, product), version, 0);
}

proof fn lemma_first_applying(m: Seq<CpeMatch>, wanted: Seq<char>, version: Seq<char>, i: int)
    ensures
        first_applying(m, wanted, version, i) matches Some(x) ==> x.applies(wanted, version),
    decreases m.len() - i,
{
    if 0 <= i < m.len() && !m[i].applies(wanted, version) {
        lemma_first_applying(m, wanted, version, i + 1);
    }
}

/// Maximum number of attempts (one initial try + retries) for a single request.
pub const MAX_ATTEMPTS: u32 = 4;

/// What came of one attempt.
#[derive(Debug, Clone, Copy, PartialEq, Eq, Structural)]
pub enum Attempt {
    /// A response with this status.
    Status(u16),
    /// No response: a timeout, a dropped or refused connection.
    Transient,
    /// No response, for a reason that another try would not change.
    Broken,
}

/// What to do next.
#[derive(Debug, Clone, Copy, PartialEq, Eq, Structural)]
pub enum Next {
    /// Use the response.
    Accept,
    /// Wait this many seconds, then try again.
    Retry(u64),
    /// Give up.
    Fail,
}

/// How long to wait after the `n`-th attempt: two seconds, four, eight, and no more.
pub open spec fn backoff_secs(n: u32) -> u64 {
    if n == 0 {
        1
    } else if n == 1 {
        2
    } else if n == 2 {
        4
    } else {
        8
    }
}

/// Whether another try may help: after a rate limit, a server error or a transport
/// failure.
pub open spec fn is_retryable(a: Attempt) -> bool {
    match a {
        Attempt::Status(s) => s == 429 || 500 <= s < 600,
        Attempt::Transient => true,
        Attempt::Broken => false,
    }
}

/// What follows the `n`-th attempt.
pub open spec fn decided(a: Attempt, n: u32) -> Next {
    if a matches Attempt::Status(s) && 200 <= s < 300 {
        Next::Accept
    } else if is_retryable(a) && n < MAX_ATTEMPTS {
        Next::Retry(backoff_secs(n))
    } else {
        Next::Fail
    }
}

/// Exponential backoff sized to NVD's 30-second window: ~2s, 4s, 8s. Capped so
/// a stuck runtime can't stall a scan indefinitely.
pub fn backoff(attempt: u32) -> (r: u64)
    ensures
        r == backoff_secs(attempt),
{
    if attempt == 0 {
        1
    } else if attempt == 1 {
        2
    } else if attempt == 2 {
        4
    } else {
        8
    }
}

/// Decides what follows the `attempt`-th try of a request.
///
/// NVD throttles aggressively when unauthenticated and tends to surface that as a
/// dropped connection or timeout rather than a clean 429 — so a single blip would
/// otherwise blank out a whole runtime's advisories. Transport errors and
/// throttle/server statuses are retried with exponential backoff; everything else
/// fails fast.
pub fn decide(outcome: Attempt, attempt: u32) -> (r: Next)
    ensures
        r == decided(outcome, attempt),
{
    let retryable = match outcome {
        Attempt::Status(s) => {
            if 200 <= s && s < 300 {
                return Next::Accept;
            }
            s == 429 || (500 <= s && s < 600)
        },
        Attempt::Transient => true,
        Attempt::Broken => false,
    };
    if retryable && attempt < MAX_ATTEMPTS {
        Next::Retry(backoff(attempt))
    } else {
        Next::Fail
    }
}

/// No request is tried more often than the maximum.
pub proof fn lemma_retries_end(a: Attempt, n: u32)
    requires
        n >= MAX_ATTEMPTS,
    ensures
        !(decided(a, n) is Retry),
{
}

} // verus!
