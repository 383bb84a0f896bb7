//! Which of the advisories found are worth reporting.

use vstd::prelude::*;

use crate::cve::advisory::{advisories, Advisory, AdvisoryView};
use crate::cve::plan::{version_for, version_of};
use crate::cve::report::{Bucket, CveReport, NpmPackageAdvisories};
use crate::cve::snapshot::{open_advisories, open_for};
use crate::cve::version::{
    at_or_above, fixed_ceiling_from_text, is_digit, reaches_ceiling, scoped_elsewhere,
    scoped_to_other_os, text_ceiling, version_run, Os,
};
use crate::detect::{Versions, VersionsView};
use crate::num::{number, number_of};
use crate::text::{
    chars_of, find_from, first_stand, lemma_first_stand, opt_text, or_text, slice_of, split,
    split_of, text_of, texts, trim, trim_of, CharClass,
};

verus! {

/// The advisories of `list` that `keep` holds of, in order.
pub open spec fn kept(list: Seq<AdvisoryView>, keep: spec_fn(AdvisoryView) -> bool) -> Seq<
    AdvisoryView,
>
    decreases list.len(),
{
    if list.len() == 0 {
        Seq::empty()
    } else {
        let rest = kept(list.drop_last(), keep);
        if keep(list.last()) {
            rest.push(list.last())
        } else {
            rest
        }
    }
}

// ---------- relevance ----------------------------------------------------

/// Whether every character is a digit.
pub open spec fn all_digits(s: Seq<char>) -> bool {
    forall|i: int| 0 <= i < s.len() ==> is_digit(#[trigger] s[i])
}

/// Whether a text is a dotted version: at least two components, all of them numbers.
pub open spec fn is_dotted(s: Seq<char>) -> bool {
    let parts = split(s, CharClass::Only('.'));
    parts.len() >= 2 && forall|i: int|
        0 <= i < parts.len() ==> (#[trigger] parts[i]).len() > 0 && all_digits(parts[i])
}

/// The part of a CEF version that can name a Chromium build: what follows the first
/// `chromium-`, else all of it.
pub open spec fn build_part(cef: Seq<char>) -> Seq<char> {
    match first_stand(cef, "chromium-"@, 0) {
        Some(i) => {
            let from = i + "chromium-"@.len();
            cef.subrange(from, from + version_run(cef, from))
        },
        None => trim(cef, CharClass::White),
    }
}

/// The Chromium build that a CEF version embeds.
pub open spec fn cef_build(cef: Seq<char>) -> Option<Seq<char>> {
    if is_dotted(build_part(cef)) {
        Some(build_part(cef))
    } else {
        None
    }
}

fn is_dotted_of(s: &str) -> (r: bool)
    ensures
        r == is_dotted(s@),
{
    let parts = split_of(s, CharClass::Only('.'));
    let ghost all = split(s@, CharClass::Only('.'));
    if parts.len() < 2 {
        assert(all.len() == parts@.len());
        return false;
    }
    let mut i: usize = 0;
    while i < parts.len()
        invariant
            i <= parts@.len(),
            all == texts(parts@),
            all == split(s@, CharClass::Only('.')),
            forall|k: int| 0 <= k < i ==> (#[trigger] all[k]).len() > 0 && all_digits(all[k]),
        decreases parts.len() - i,
    {
        let x = chars_of(parts[i].as_str());
        assert(all[i as int] == x@);
        if x.len() == 0 {
            return false;
        }
        let mut j: usize = 0;
        while j < x.len()
            invariant
                j <= x@.len(),
                i < all.len(),
                all[i as int] == x@,
                all == split(s@, CharClass::Only('.')),
                forall|k: int| 0 <= k < j ==> is_digit(#[trigger] x@[k]),
            decreases x.len() - j,
        {
            if !('0' <= x[j] && x[j] <= '9') {
                assert(!is_digit(x@[j as int]));
                assert(!all_digits(all[i as int]));
                return false;
            }
            j = j + 1;
        }
        i = i + 1;
    }
    true
}

/// Extract the embedded Chromium version from a CEF version string.
///
/// macOS CEF versions look like `130.1.18+g5e85b92+chromium-130.0.6723.117`
/// (the trailing `chromium-…` is the embedded Chromium build); the Windows /
/// Linux probe already yields a bare Chromium version. Returns `None` for
/// `"unknown"` or anything without a usable dotted-numeric version.
pub fn cef_chromium_version(cef: &str) -> (r: Option<String>)
    ensures
        opt_text(r) == cef_build(cef@),
{
    let x = chars_of(cef);
    let mark = chars_of("chromium-");
    let candidate = match find_from(&x, &mark, 0) {
        Some(at) => {
            proof {
                lemma_first_stand(cef@, mark@, 0);
            }
            let from: usize = at + mark.len();
            let mut to: usize = from;
            while to < x.len() && (('0' <= x[to] && x[to] <= '9') || x[to] == '.')
                invariant
                    from <= to <= x@.len(),
                    version_run(x@, from as int) == to - from + version_run(x@, to as int),
                decreases x.len() - to,
            {
                to = to + 1;
            }
            assert(version_run(x@, to as int) == 0);
            text_of(slice_of(&x, from, to).as_slice())
        },
        None => text_of(trim_of(&x, CharClass::White).as_slice()),
    };
    assert(candidate@ == build_part(cef@));
    if is_dotted_of(candidate.as_str()) {
        Some(candidate)
    } else {
        None
    }
}

/// Whether an advisory applies to the `scanned` version on `os`.
pub open spec fn applies(
    a: AdvisoryView,
    scanned: Option<Seq<char>>,
    product: Option<Seq<char>>,
    os: Os,
) -> bool {
    !scoped_elsewhere(a.summary, os) && match (
        scanned,
        or_text(a.fixed_in, text_ceiling(a.summary, product)),
    ) {
        (Some(v), Some(ceiling)) => !reaches_ceiling(v, ceiling),
        _ => true,
    }
}

/// Decide whether a single advisory applies to `scanned` version on `os`.
///
/// A fix ceiling can come from the structured `fixed_in` field or from the prose. If
/// the scanned build is at or past it, the build is patched.
pub fn is_relevant(advisory: &Advisory, scanned: Option<&String>, product: Option<&str>, os: Os) -> (r:
    bool)
    ensures
        r == applies(
            advisory@,
            match scanned {
                Some(v) => Some(v@),
                None => None,
            },
            match product {
                Some(p) => Some(p@),
                None => None,
            },
            os,
        ),
{
    if scoped_to_other_os(advisory.summary.as_str(), os) {
        return false;
    }
    let version = match scanned {
        Some(v) => v,
        None => {
            return true;
        },
    };
    match &advisory.fixed_in {
        Some(c) => !at_or_above(version.as_str(), c.as_str()),
        None => match fixed_ceiling_from_text(advisory.summary.as_str(), product) {
            Some(c) => !at_or_above(version.as_str(), c.as_str()),
            None => true,
        },
    }
}

/// The marketing name that a source's prose uses for a runtime, where the vendor's lists
/// pair each product with its *fixed* version. Elsewhere a product-adjacent number can
/// be an *affected* version.
pub open spec fn marketing_name(b: Bucket) -> Option<Seq<char>> {
    match b {
        Bucket::Webkit => Some("Safari"@),
        _ => None,
    }
}

/// The criterion by which the advisories of a bucket are kept: they apply to the version
/// that was detected. CEF goes by the Chromium build it embeds.
pub open spec fn relevance(b: Bucket, v: VersionsView, os: Os) -> spec_fn(AdvisoryView) -> bool {
    |a: AdvisoryView| applies(a, version_of(v, b), marketing_name(b), os)
}

fn relevant_of(report: &CveReport, b: Bucket, versions: &Versions, os: Os) -> (r: Vec<Advisory>)
    ensures
        advisories(r@) == kept(report.bucket(b), relevance(b, versions@, os)),
{
    let list = report.in_bucket(b);
    let version = version_for(versions, b);
    let scanned = match &version {
        Some(v) => Some(v),
        None => None,
    };
    let product: Option<&str> = match b {
        Bucket::Webkit => Some("Safari"),
        _ => None,
    };
    let ghost all = advisories(list@);
    let ghost keep = relevance(b, versions@, os);
    let mut out: Vec<Advisory> = Vec::new();
    let mut i: usize = 0;
    assert(advisories(out@) =~= Seq::empty());
    assert(all.take(0) =~= Seq::empty());
    while i < list.len()
        invariant
            i <= list@.len(),
            all == advisories(list@),
            keep == relevance(b, versions@, os),
            match scanned {
                Some(v) => version_of(versions@, b) == Some(v@),
                None => version_of(versions@, b) is None,
            },
            match product {
                Some(p) => marketing_name(b) == Some(p@),
                None => marketing_name(b) is None,
            },
            advisories(out@) == kept(all.take(i as int), keep),
        decreases list.len() - i,
    {
        assert(all.take(i + 1).drop_last() =~= all.take(i as int));
        assert(all.take(i + 1).last() == list@[i as int]@);
        if is_relevant(&list[i], scanned, product, os) {
            let ghost before = advisories(out@);
            let copy = list[i].copy();
            out.push(copy);
            assert(advisories(out@) =~= before.push(copy@));
        }
        i = i + 1;
    }
    assert(all.take(all.len() as int) =~= all);
    out
}

/// Drop advisories that don't actually apply to the scanned build:
///
///   * **already patched** — the advisory names a fix ceiling (via NVD's
///     `fixed_in`, or "prior to X" / "before X" in the description) that the
///     scanned version is at or past. This is what stops a runtime from being
///     flagged by the very CVE whose fix it already ships, and it covers
///     sources like EUVD that do only a coarse substring version match.
///   * **wrong platform** — the advisory is explicitly scoped to a different
///     OS ("on Android" while macOS is audited).
///
/// Conservative by construction: an advisory is kept whenever the version
/// can't be parsed or no clear ceiling/scope is stated.
pub fn apply_relevance_filter(report: &mut CveReport, versions: &Versions, os: Os)
    ensures
        forall|b: Bucket| #[trigger]
            final(report).bucket(b) == kept(old(report).bucket(b), relevance(b, versions@, os)),
        final(report).errors == old(report).errors,
        final(report).unavailable == old(report).unavailable,
{
    report.electron = relevant_of(report, Bucket::Electron, versions, os);
    report.tauri = relevant_of(report, Bucket::Tauri, versions, os);
    report.node = relevant_of(report, Bucket::Node, versions, os);
    report.deno = relevant_of(report, Bucket::Deno, versions, os);
    report.chromium = relevant_of(report, Bucket::Chromium, versions, os);
    report.flutter = relevant_of(report, Bucket::Flutter, versions, os);
    report.qt = relevant_of(report, Bucket::Qt, versions, os);
    report.nwjs = relevant_of(report, Bucket::Nwjs, versions, os);
    report.react_native = relevant_of(report, Bucket::ReactNative, versions, os);
    report.wails = relevant_of(report, Bucket::Wails, versions, os);
    report.sciter = relevant_of(report, Bucket::Sciter, versions, os);
    report.java = relevant_of(report, Bucket::Java, versions, os);
    report.webkit = relevant_of(report, Bucket::Webkit, versions, os);
    report.cef = relevant_of(report, Bucket::Cef, versions, os);
}

// ---------- age ----------------------------------------------------------

/// Whether a year has a leap day.
pub open spec fn is_leap(year: nat) -> bool {
    (year % 4 == 0 && year % 100 != 0) || year % 400 == 0
}

/// How many days a year has.
pub open spec fn year_length(year: nat) -> nat {
    if is_leap(year) {
        366
    } else {
        365
    }
}

/// The year of the day that lies `days` days after the first of `year`.
pub open spec fn year_after(days: nat, year: nat) -> nat
    decreases days,
{
    if days < year_length(year) {
        year
    } else {
        year_after((days - year_length(year)) as nat, year + 1)
    }
}

/// The Gregorian year at a time in Unix seconds.
pub open spec fn year_at(secs: nat) -> nat {
    year_after(secs / 86_400, 1970)
}

/// How many days lie between the first of 1970 and the first of `year`.
pub open spec fn days_before(year: nat) -> int {
    365 * (year - 1970) + ((year - 1) / 4 - 492) - ((year - 1) / 100 - 19) + ((year - 1) / 400 - 4)
}

/// The year that is computed is the one that the day falls into: not before its first
/// day, and before the first of the next.
pub proof fn lemma_year_at(secs: nat)
    ensures
        year_at(secs) >= 1970,
        days_before(year_at(secs)) <= secs / 86_400 < days_before(year_at(secs) + 1),
{
    lemma_year_after(secs / 86_400, 1970);
}

proof fn lemma_year_after(days: nat, year: nat)
    requires
        year >= 1970,
    ensures
        year_after(days, year) >= year,
        days_before(year_after(days, year)) <= days_before(year) + days < days_before(
            year_after(days, year) + 1,
        ),
    decreases days,
{
    assert(days_before(year + 1) == days_before(year) + year_length(year));
    if days >= year_length(year) {
        lemma_year_after((days - year_length(year)) as nat, year + 1);
    }
}

/// Current Gregorian year, from the clock in Unix seconds. `None` past the last year
/// that can be counted.
pub fn current_year(secs: u64) -> (r: Option<u32>)
    ensures
        match r {
            Some(y) => y == year_at(secs as nat),
            None => year_at(secs as nat) > u32::MAX,
        },
{
    let mut year: u32 = 1970;
    let mut remaining: u64 = secs / 86_400;
    loop
        invariant
            year >= 1970,
            year_after(remaining as nat, year as nat) == year_at(secs as nat),
        decreases remaining,
    {
        let leap = (year % 4 == 0 && year % 100 != 0) || year % 400 == 0;
        let in_year: u64 = if leap {
            366
        } else {
            365
        };
        if remaining < in_year {
            return Some(year);
        }
        remaining = remaining - in_year;
        if year == u32::MAX {
            proof {
                lemma_year_after(remaining as nat, (year + 1) as nat);
            }
            return None;
        }
        year = year + 1;
    }
}

/// The year that an advisory was published in, where its date starts with one.
pub open spec fn published_year(a: AdvisoryView) -> Option<nat> {
    match a.published {
        Some(s) => if s.len() < 4 {
            None
        } else {
            number(s.take(4), 10, u32::MAX as nat)
        },
        None => None,
    }
}

/// The year that an advisory was published in.
pub fn advisory_year(advisory: &Advisory) -> (r: Option<u32>)
    ensures
        match r {
            Some(y) => published_year(advisory@) == Some(y as nat),
            None => published_year(advisory@) is None,
        },
{
    match &advisory.published {
        Some(s) => {
            let x = chars_of(s.as_str());
            if x.len() < 4 {
                return None;
            }
            let head = slice_of(&x, 0, 4);
            assert(head@ =~= s@.take(4));
            match number_of(&head, 10, u32::MAX as u64) {
                Some(y) => Some(y as u32),
                None => None,
            }
        },
        None => None,
    }
}

/// The first year whose advisories are kept at time `now`; none where all are.
pub open spec fn cutoff(max_age_years: Option<u32>, now: u64) -> Option<nat> {
    match max_age_years {
        Some(max) => if year_at(now as nat) > u32::MAX {
            None
        } else if year_at(now as nat) < max {
            Some(0)
        } else {
            Some((year_at(now as nat) - max) as nat)
        },
        None => None,
    }
}

/// The criterion by which advisories are kept: they carry no year, or one that is recent
/// enough.
pub open spec fn recency(max_age_years: Option<u32>, now: u64) -> spec_fn(AdvisoryView) -> bool {
    |a: AdvisoryView|
        match (published_year(a), cutoff(max_age_years, now)) {
            (Some(y), Some(c)) => y >= c,
            _ => true,
        }
}

fn cutoff_of(max_age_years: Option<u32>, now: u64) -> (r: Option<u32>)
    ensures
        match r {
            Some(c) => cutoff(max_age_years, now) == Some(c as nat),
            None => cutoff(max_age_years, now) is None,
        },
{
    match (max_age_years, current_year(now)) {
        (Some(max), Some(current)) => Some(current.saturating_sub(max)),
        _ => None,
    }
}

fn recent_of(list: &Vec<Advisory>, max_age_years: Option<u32>, now: u64) -> (r: Vec<Advisory>)
    ensures
        advisories(r@) == kept(advisories(list@), recency(max_age_years, now)),
{
    let first = cutoff_of(max_age_years, now);
    let ghost all = advisories(list@);
    let ghost keep = recency(max_age_years, now);
    let mut out: Vec<Advisory> = Vec::new();
    let mut i: usize = 0;
    assert(advisories(out@) =~= Seq::empty());
    assert(all.take(0) =~= Seq::empty());
    while i < list.len()
        invariant
            i <= list@.len(),
            all == advisories(list@),
            keep == recency(max_age_years, now),
            match first {
                Some(c) => cutoff(max_age_years, now) == Some(c as nat),
                None => cutoff(max_age_years, now) is None,
            },
            advisories(out@) == kept(all.take(i as int), keep),
        decreases list.len() - i,
    {
        assert(all.take(i + 1).drop_last() =~= all.take(i as int));
        assert(all.take(i + 1).last() == list@[i as int]@);
        let recent = match (advisory_year(&list[i]), first) {
            (Some(y), Some(c)) => y >= c,
            _ => true,
        };
        if recent {
            let ghost before = advisories(out@);
            let copy = list[i].copy();
            out.push(copy);
            assert(advisories(out@) =~= before.push(copy@));
        }
        i = i + 1;
    }
    assert(all.take(all.len() as int) =~= all);
    out
}

/// Strip advisories older than `max_age_years` years at time `now`, in Unix seconds.
/// `None` is a no-op.
///
/// Advisories with no parseable `published` date are *kept* — better to
/// show a non-dated advisory than to silently drop a possibly-relevant one.
pub fn apply_age_filter(report: &mut CveReport, max_age_years: Option<u32>, now: u64)
    ensures
        forall|b: Bucket| #[trigger]
            final(report).bucket(b) == kept(old(report).bucket(b), recency(max_age_years, now)),
        final(report).errors == old(report).errors,
        final(report).unavailable == old(report).unavailable,
{
    report.electron = recent_of(&report.electron, max_age_years, now);
    report.tauri = recent_of(&report.tauri, max_age_years, now);
    report.node = recent_of(&report.node, max_age_years, now);
    report.deno = recent_of(&report.deno, max_age_years, now);
    report.chromium = recent_of(&report.chromium, max_age_years, now);
    report.flutter = recent_of(&report.flutter, max_age_years, now);
    report.qt = recent_of(&report.qt, max_age_years, now);
    report.nwjs = recent_of(&report.nwjs, max_age_years, now);
    report.react_native = recent_of(&report.react_native, max_age_years, now);
    report.wails = recent_of(&report.wails, max_age_years, now);
    report.sciter = recent_of(&report.sciter, max_age_years, now);
    report.java = recent_of(&report.java, max_age_years, now);
    report.webkit = recent_of(&report.webkit, max_age_years, now);
    report.cef = recent_of(&report.cef, max_age_years, now);
}

/// Same filter applied to the advisory lists of bundled npm dependencies.
pub fn filter_npm_by_age(
    results: &mut Vec<NpmPackageAdvisories>,
    max_age_years: Option<u32>,
    now: u64,
)
    ensures
        final(results)@.len() == old(results)@.len(),
        forall|i: int|
            0 <= i < old(results)@.len() ==> (#[trigger] final(results)@[i]).package == old(
                results,
            )@[i].package && advisories(final(results)@[i].advisories@) == kept(
                advisories(old(results)@[i].advisories@),
                recency(max_age_years, now),
            ),
{
    let ghost before = results@;
    let mut i: usize = 0;
    while i < results.len()
        invariant
            i <= results@.len(),
            results@.len() == before.len(),
            forall|k: int|
                0 <= k < i ==> (#[trigger] results@[k]).package == before[k].package
                    && advisories(results@[k].advisories@) == kept(
                    advisories(before[k].advisories@),
                    recency(max_age_years, now),
                ),
            forall|k: int| i <= k < before.len() ==> #[trigger] results@[k] == before[k],
        decreases results.len() - i,
    {
        let recent = recent_of(&results[i].advisories, max_age_years, now);
        results[i].advisories = recent;
        i = i + 1;
    }
}

/// What a report holds once its advisories are filtered. The raw report is kept apart, so
/// that more can be added to it.
pub fn finalize(
    raw: &CveReport,
    versions: &Versions,
    os: Os,
    max_age_years: Option<u32>,
    now: u64,
) -> (r: CveReport)
    ensures
        forall|b: Bucket| #[trigger]
            r.bucket(b) == kept(
                kept(raw.bucket(b), relevance(b, versions@, os)),
                recency(max_age_years, now),
            ),
        texts(r.errors@) == texts(raw.errors@),
        texts(r.unavailable@) == texts(raw.unavailable@),
{
    let mut snapshot = raw.copy();
    apply_relevance_filter(&mut snapshot, versions, os);
    apply_age_filter(&mut snapshot, max_age_years, now);
    snapshot
}

// ---------- what the filters promise -------------------------------------

/// Filtering what was found first and what was found later apart, and filtering all of it
/// at once, come to the same: each intermediate report is filtered exactly like the
/// final one.
pub proof fn lemma_kept_append(
    a: Seq<AdvisoryView>,
    b: Seq<AdvisoryView>,
    keep: spec_fn(AdvisoryView) -> bool,
)
    ensures
        kept(a + b, keep) == kept(a, keep) + kept(b, keep),
    decreases b.len(),
{
    if b.len() == 0 {
        assert(a + b =~= a);
        assert(kept(a, keep) + kept(b, keep) =~= kept(a, keep));
    } else {
        lemma_kept_append(a, b.drop_last(), keep);
        assert((a + b).drop_last() =~= a + b.drop_last());
        assert((a + b).last() == b.last());
        assert(kept(a + b, keep) =~= kept(a, keep) + kept(b, keep));
    }
}

/// What is kept is what was there and meets the criterion, and nothing else.
pub proof fn lemma_kept_members(
    list: Seq<AdvisoryView>,
    keep: spec_fn(AdvisoryView) -> bool,
    a: AdvisoryView,
)
    ensures
        kept(list, keep).contains(a) <==> list.contains(a) && keep(a),
    decreases list.len(),
{
    if list.len() > 0 {
        lemma_kept_members(list.drop_last(), keep, a);
        let rest = kept(list.drop_last(), keep);
        assert(list =~= list.drop_last().push(list.last()));
        if list.drop_last().contains(a) {
            let i = choose|i: int|
                0 <= i < list.drop_last().len() && #[trigger] list.drop_last()[i] == a;
            assert(list[i] == a);
        }
        if list.contains(a) && list.last() != a {
            let i = choose|i: int| 0 <= i < list.len() && #[trigger] list[i] == a;
            assert(list.drop_last()[i] == a);
        }
        if list.last() == a {
            assert(list[list.len() - 1] == a);
        }
        if keep(list.last()) {
            let all = rest.push(list.last());
            assert(all[rest.len() as int] == list.last());
            if rest.contains(a) {
                let i = choose|i: int| 0 <= i < rest.len() && #[trigger] rest[i] == a;
                assert(all[i] == a);
            }
            if all.contains(a) && list.last() != a {
                let i = choose|i: int| 0 <= i < all.len() && #[trigger] all[i] == a;
                assert(rest[i] == a);
            }
        }
    }
}

/// Filtering twice is filtering once.
pub proof fn lemma_kept_twice(list: Seq<AdvisoryView>, keep: spec_fn(AdvisoryView) -> bool)
    ensures
        kept(kept(list, keep), keep) == kept(list, keep),
    decreases list.len(),
{
    if list.len() > 0 {
        lemma_kept_twice(list.drop_last(), keep);
        let rest = kept(list.drop_last(), keep);
        if keep(list.last()) {
            assert(rest.push(list.last()).drop_last() =~= rest);
        }
    }
}

/// A build that ships the fix an advisory names is not flagged by it, whichever way the
/// advisory names it.
pub proof fn lemma_patched_is_dropped(
    list: Seq<AdvisoryView>,
    a: AdvisoryView,
    b: Bucket,
    v: VersionsView,
    os: Os,
)
    requires
        version_of(v, b) is Some,
        or_text(a.fixed_in, text_ceiling(a.summary, marketing_name(b))) is Some,
        reaches_ceiling(
            version_of(v, b)->0,
            or_text(a.fixed_in, text_ceiling(a.summary, marketing_name(b)))->0,
        ),
    ensures
        !kept(list, relevance(b, v, os)).contains(a),
{
    lemma_kept_members(list, relevance(b, v, os), a);
}

/// What a snapshot leaves out beforehand, the relevance filter would leave out anyway: the
/// report is the same whether the snapshot answers with all it has or only with what can
/// apply.
pub proof fn lemma_snapshot_is_consistent(
    list: Seq<AdvisoryView>,
    b: Bucket,
    v: VersionsView,
    os: Os,
)
    requires
        version_of(v, b) is Some,
    ensures
        kept(open_advisories(list, version_of(v, b)->0), relevance(b, v, os)) == kept(
            list,
            relevance(b, v, os),
        ),
    decreases list.len(),
{
    if list.len() > 0 {
        lemma_snapshot_is_consistent(list.drop_last(), b, v, os);
        let rest = open_advisories(list.drop_last(), version_of(v, b)->0);
        if open_for(list.last(), version_of(v, b)->0) {
            assert(rest.push(list.last()).drop_last() =~= rest);
        }
    }
}

/// An advisory without a year is never dropped for its age, and without a limit none is.
pub proof fn lemma_undated_is_kept(list: Seq<AdvisoryView>, max_age_years: Option<u32>, now: u64)
    ensures
        forall|a: AdvisoryView|
            list.contains(a) && published_year(a) is None ==> #[trigger] kept(
                list,
                recency(max_age_years, now),
            ).contains(a),
        max_age_years is None ==> kept(list, recency(max_age_years, now)) == list,
{
    assert forall|a: AdvisoryView| list.contains(a) && published_year(a) is None implies #[trigger] kept(
        list,
        recency(max_age_years, now),
    ).contains(a) by {
        lemma_kept_members(list, recency(max_age_years, now), a);
    }
    if max_age_years is None {
        lemma_kept_all(list, recency(max_age_years, now));
    }
}

proof fn lemma_kept_all(list: Seq<AdvisoryView>, keep: spec_fn(AdvisoryView) -> bool)
    requires
        forall|a: AdvisoryView| #[trigger] keep(a),
    ensures
        kept(list, keep) == list,
    decreases list.len(),
{
    if list.len() > 0 {
        lemma_kept_all(list.drop_last(), keep);
        assert(list.drop_last().push(list.last()) =~= list);
    } else {
        assert(list =~= Seq::empty());
    }
}

/// A longer memory keeps no less.
pub proof fn lemma_longer_memory(list: Seq<AdvisoryView>, short: u32, long: u32, now: u64, a: AdvisoryView)
    requires
        short <= long,
        kept(list, recency(Some(short), now)).contains(a),
    ensures
        kept(list, recency(Some(long), now)).contains(a),
{
    lemma_kept_members(list, recency(Some(short), now), a);
    lemma_kept_members(list, recency(Some(long), now), a);
}

} // verus!
