//! What the advisory services are asked, and what their records promise.

use vstd::prelude::*;

use crate::cve::advisory::{AdvisoryView, Severity, Source};
use crate::cve::euvd::{self, in_range, list_items, page_count, range_of};
use crate::cve::laws::{is_release, lemma_release_is_found, lemma_word_is_no_release, stops_of};
use crate::cve::nvd::{
    self, backoff_secs, cpe_field, cpe_text, decided, english, first_applying, leading_metric, rated,
    wanted, Attempt, CpeMatch, Cve, Next,
};
use crate::cve::plan::{
    called_for, covered, enabled, lemma_all_planned, lookup_prefix, planned, question, snapshot_key,
    version_of, LookupView, QueryView, RUNTIMES,
};
use crate::cve::report::{passes, refusal, Bucket, CveReport, Error, Outages};
use crate::cve::settings::{settings_file, SourceSettings};
use crate::cve::snapshot::product_place;
use crate::cve::version::prose_ceiling;
use crate::detect::{no_versions, VersionsView};
use crate::num::decimal;
use crate::text::{
    first_in, holds, lemma_first_in, lemma_first_stand, lemma_split_head, lower, opens, opt_text,
    split, stands_at, texts, trim, trim_start, CharClass,
};
use crate::version::{lemma_rank_flips, lemma_rank_transitive, rank, Rank};

verus! {

// ---------- NVD -------------------------------------------------------------

/// A bound that includes its version covers it, and one that excludes its version does not;
/// on the far side every version is covered, on the near side none.
pub proof fn lemma_single_bounds(m: CpeMatch, version: Seq<char>)
    ensures
        m.version_start_including is Some && m.version_start_excluding is None
            && m.version_end_including is None && m.version_end_excluding is None ==> (m.covers(
            version,
        ) <==> rank(version, m.version_start_including->0@) == Rank::Greater || rank(
            version,
            m.version_start_including->0@,
        ) == Rank::Equal),
        m.version_start_excluding is Some && m.version_start_including is None
            && m.version_end_including is None && m.version_end_excluding is None ==> (m.covers(
            version,
        ) <==> rank(version, m.version_start_excluding->0@) == Rank::Greater),
        m.version_end_including is Some && m.version_start_including is None
            && m.version_start_excluding is None && m.version_end_excluding is None ==> (m.covers(
            version,
        ) <==> rank(version, m.version_end_including->0@) == Rank::Less || rank(
            version,
            m.version_end_including->0@,
        ) == Rank::Equal),
        m.version_end_excluding is Some && m.version_start_including is None
            && m.version_start_excluding is None && m.version_end_including is None ==> (m.covers(
            version,
        ) <==> rank(version, m.version_end_excluding->0@) == Rank::Less),
{
}

/// The match with one of the bounds of another, and nothing else.
pub open spec fn only_bound(m: CpeMatch, which: int) -> CpeMatch {
    CpeMatch {
        version_start_including: if which == 0 {
            m.version_start_including
        } else {
            None
        },
        version_start_excluding: if which == 1 {
            m.version_start_excluding
        } else {
            None
        },
        version_end_including: if which == 2 {
            m.version_end_including
        } else {
            None
        },
        version_end_excluding: if which == 3 {
            m.version_end_excluding
        } else {
            None
        },
        ..m
    }
}

/// Bounds add up: a version is covered exactly where each bound alone covers it.
pub proof fn lemma_bounds_add_up(m: CpeMatch, version: Seq<char>)
    requires
        m.version_start_including is Some || m.version_start_excluding is Some
            || m.version_end_including is Some || m.version_end_excluding is Some,
    ensures
        m.covers(version) <==> {
            &&& m.version_start_including is Some ==> only_bound(m, 0).covers(version)
            &&& m.version_start_excluding is Some ==> only_bound(m, 1).covers(version)
            &&& m.version_end_including is Some ==> only_bound(m, 2).covers(version)
            &&& m.version_end_excluding is Some ==> only_bound(m, 3).covers(version)
        },
{
}

/// The last affected version is covered, and so is the first, where the other bounds allow.
pub proof fn lemma_including_bounds_include(m: CpeMatch, version: Seq<char>)
    requires
        m.version_start_excluding is None && m.version_end_excluding is None,
        m.version_start_including is Some || m.version_end_including is Some,
        m.version_start_including matches Some(s) ==> rank(version, s@) != Rank::Less,
        m.version_end_including matches Some(e) ==> rank(version, e@) == Rank::Equal || rank(
            version,
            e@,
        ) == Rank::Less,
    ensures
        m.covers(version),
{
}

/// What is covered by bounds is a range: a version between two that are covered is, too.
pub proof fn lemma_covered_is_a_range(m: CpeMatch, low: Seq<char>, mid: Seq<char>, high: Seq<char>)
    requires
        m.has_bounds(),
        m.covers(low),
        m.covers(high),
        rank(low, mid) != Rank::Greater,
        rank(mid, high) != Rank::Greater,
    ensures
        m.covers(mid),
{
    if let Some(s) = m.version_start_including {
        lemma_rank_flips(low, s@);
        lemma_rank_flips(mid, s@);
        lemma_rank_transitive(s@, low, mid);
    }
    if let Some(s) = m.version_start_excluding {
        lemma_rank_flips(low, s@);
        lemma_rank_flips(mid, s@);
        lemma_rank_transitive(s@, low, mid);
    }
    if let Some(e) = m.version_end_including {
        lemma_rank_transitive(mid, high, e@);
    }
    if let Some(e) = m.version_end_excluding {
        lemma_rank_transitive(mid, high, e@);
    }
}

proof fn lemma_field_behind(a: Seq<char>, rest: Seq<char>)
    requires
        !a.contains(':'),
    ensures
        split(a.push(':') + rest, CharClass::Only(':')) == seq![a] + split(
            rest,
            CharClass::Only(':'),
        ),
{
    assert forall|i: int| 0 <= i < a.len() implies !CharClass::Only(':').has(#[trigger] a[i]) by {
        assert(a.contains(a[i]));
    }
    lemma_split_head(a, ':', rest, CharClass::Only(':'));
}

/// A CPE name reads back: the version that it was made for, and the product that it is about.
pub proof fn lemma_cpe_reads_back(vendor: Seq<char>, product: Seq<char>, version: Seq<char>)
    requires
        !vendor.contains(':') && !product.contains(':') && !version.contains(':'),
    ensures
        cpe_field(cpe_text(vendor, product, version)) == Some(version),
        holds(cpe_text(vendor, product, version), wanted(vendor, product)),
{
    reveal_strlit("cpe:2.3:a:");
    reveal_strlit(":");
    reveal_strlit(":*:*:*:*:*:*:*");
    let s = cpe_text(vendor, product, version);
    let end = seq!['*', ':', '*', ':', '*', ':', '*', ':', '*', ':', '*', ':', '*'];
    let c = seq!['c', 'p', 'e'];
    let n = seq!['2', '.', '3'];
    let a = seq!['a'];
    let r5 = version.push(':') + end;
    let r4 = product.push(':') + r5;
    let r3 = vendor.push(':') + r4;
    let r2 = a.push(':') + r3;
    let r1 = n.push(':') + r2;
    assert(s =~= c.push(':') + r1);
    lemma_field_behind(c, r1);
    lemma_field_behind(n, r2);
    lemma_field_behind(a, r3);
    lemma_field_behind(vendor, r4);
    lemma_field_behind(product, r5);
    lemma_field_behind(version, end);
    let class = CharClass::Only(':');
    assert(split(s, class)[5] == version);
    let w = wanted(vendor, product);
    assert(s.subrange(9, 9 + w.len() as int) =~= w);
    assert(stands_at(s, w, 9));
}

/// Without bounds a match is about the version that its name pins, or about every version
/// where that is a wildcard.
pub proof fn lemma_pinned_version(
    m: CpeMatch,
    vendor: Seq<char>,
    product: Seq<char>,
    pinned: Seq<char>,
    version: Seq<char>,
)
    requires
        !vendor.contains(':') && !product.contains(':') && !pinned.contains(':'),
        opt_text(m.criteria) == Some(cpe_text(vendor, product, pinned)),
        m.version_start_including is None && m.version_start_excluding is None
            && m.version_end_including is None && m.version_end_excluding is None,
    ensures
        pinned == "*"@ || pinned == "-"@ ==> m.covers(version),
        pinned != "*"@ && pinned != "-"@ ==> (m.covers(version) <==> rank(version, pinned)
            == Rank::Equal),
        m.vulnerable ==> (m.applies(wanted(vendor, product), version) <==> m.covers(version)),
        !m.vulnerable ==> !m.applies(wanted(vendor, product), version),
{
    lemma_cpe_reads_back(vendor, product, pinned);
}

proof fn lemma_first_applying(m: Seq<CpeMatch>, w: Seq<char>, version: Seq<char>, i: int)
    requires
        0 <= i <= m.len(),
    ensures
        match first_applying(m, w, version, i) {
            Some(x) => exists|k: int|
                i <= k < m.len() && m[k] == x && (#[trigger] m[k]).applies(w, version) && forall|j: int|
                    i <= j < k ==> !(#[trigger] m[j]).applies(w, version),
            None => forall|k: int| i <= k < m.len() ==> !(#[trigger] m[k]).applies(w, version),
        },
    decreases m.len() - i,
{
    if i < m.len() && !m[i].applies(w, version) {
        lemma_first_applying(m, w, version, i + 1);
    }
}

/// A record is reported exactly where one of its matches is vulnerable, about the product and
/// covers the version; the report keeps the record's identity, and its fix is where the first
/// such match ends.
pub proof fn lemma_nvd_record(cve: Cve, vendor: Seq<char>, product: Seq<char>, version: Seq<char>)
    ensures
        nvd::advised(cve, vendor, product, version) is Some <==> exists|k: int|
            0 <= k < cve.cpe_matches@.len() && (#[trigger] cve.cpe_matches@[k]).vulnerable
                && cve.cpe_matches@[k].concerns(wanted(vendor, product))
                && cve.cpe_matches@[k].covers(version),
        nvd::advised(cve, vendor, product, version) matches Some(a) ==> {
            &&& a.id == cve.id@
            &&& a.source == Source::Nvd
            &&& a.published == opt_text(cve.published)
            &&& a.references == texts(cve.references@)
            &&& a.aliases.len() == 0
            &&& exists|k: int|
                0 <= k < cve.cpe_matches@.len() && (#[trigger] cve.cpe_matches@[k]).covers(version)
                    && a.fixed_in == opt_text(cve.cpe_matches@[k].version_end_excluding)
        },
{
    lemma_first_applying(cve.cpe_matches@, wanted(vendor, product), version, 0);
    let found = first_applying(cve.cpe_matches@, wanted(vendor, product), version, 0);
    if let Some(x) = found {
        let k = choose|k: int|
            0 <= k < cve.cpe_matches@.len() && cve.cpe_matches@[k] == x && (
            #[trigger] cve.cpe_matches@[k]).applies(wanted(vendor, product), version);
        assert(cve.cpe_matches@[k].vulnerable);
    }
}

/// The summary is the first description in English, and empty where there is none.
pub proof fn lemma_summary_is_english(d: Seq<nvd::Description>, i: int, k: int)
    requires
        0 <= i,
    ensures
        i <= k < d.len() && d[k].lang@ == "en"@ && (forall|j: int|
            i <= j < k ==> (#[trigger] d[j]).lang@ != "en"@) ==> english(d, i) == d[k].value@,
        (forall|j: int| i <= j < d.len() ==> (#[trigger] d[j]).lang@ != "en"@) ==> english(d, i)
            == Seq::<char>::empty(),
    decreases d.len() - i,
{
    if i < d.len() && d[i].lang@ != "en"@ {
        lemma_summary_is_english(d, i + 1, k);
    }
}

/// The newest scoring scheme that rated a record counts, and in it the rating's own word
/// before the score.
pub proof fn lemma_newest_rating(m: nvd::Metrics)
    ensures
        m.cvss_v31@.len() > 0 ==> rated(leading_metric(m)) == rated(Some(m.cvss_v31@[0])),
        m.cvss_v31@.len() == 0 && m.cvss_v30@.len() > 0 ==> rated(leading_metric(m)) == rated(
            Some(m.cvss_v30@[0]),
        ),
        m.cvss_v31@.len() == 0 && m.cvss_v30@.len() == 0 && m.cvss_v2@.len() > 0 ==> rated(
            leading_metric(m),
        ) == rated(Some(m.cvss_v2@[0])),
        m.cvss_v31@.len() == 0 && m.cvss_v30@.len() == 0 && m.cvss_v2@.len() == 0 ==> rated(
            leading_metric(m),
        ) is None,
        forall|x: nvd::CvssMetric|
            x.base_severity is None ==> #[trigger] rated(Some(x)) == x.score_severity,
        forall|x: nvd::CvssMetric|
            opt_text(x.base_severity) == Some("HIGH"@) ==> #[trigger] rated(Some(x)) == Some(
                Severity::High,
            ),
{
    reveal_strlit("HIGH");
    assert(crate::text::upper("HIGH"@) =~= "HIGH"@);
    crate::cve::laws::lemma_severity_names("HIGH"@);
}

/// What is selected from records is exactly what each of them has to say.
pub proof fn lemma_nvd_selects_all(
    cves: Seq<Cve>,
    vendor: Seq<char>,
    product: Seq<char>,
    version: Seq<char>,
    a: AdvisoryView,
)
    ensures
        nvd::matches(cves, vendor, product, version).contains(a) <==> exists|i: int|
            0 <= i < cves.len() && nvd::advised(#[trigger] cves[i], vendor, product, version) == Some(
                a,
            ),
    decreases cves.len(),
{
    let all = nvd::matches(cves, vendor, product, version);
    if cves.len() > 0 {
        let rest = cves.drop_last();
        let before = nvd::matches(rest, vendor, product, version);
        lemma_nvd_selects_all(rest, vendor, product, version, a);
        if all.contains(a) {
            let k = choose|k: int| 0 <= k < all.len() && all[k] == a;
            if k < before.len() {
                assert(before[k] == a);
                let i = choose|i: int|
                    0 <= i < rest.len() && nvd::advised(
                        #[trigger] rest[i],
                        vendor,
                        product,
                        version,
                    ) == Some(a);
                assert(cves[i] == rest[i]);
            } else {
                assert(nvd::advised(cves[cves.len() - 1], vendor, product, version) == Some(a));
            }
        }
        if exists|i: int|
            0 <= i < cves.len() && nvd::advised(#[trigger] cves[i], vendor, product, version) == Some(
                a,
            ) {
            let i = choose|i: int|
                0 <= i < cves.len() && nvd::advised(#[trigger] cves[i], vendor, product, version)
                    == Some(a);
            if i < rest.len() {
                assert(rest[i] == cves[i]);
                let k = choose|k: int| 0 <= k < before.len() && before[k] == a;
                assert(all[k] == a);
            } else {
                assert(all[before.len() as int] == a);
            }
        }
    }
}

/// A response is accepted exactly where it is a success; only a busy or failing service, or a
/// connection that may come back, is tried again, four times at most, and each wait is twice
/// the one before.
pub proof fn lemma_retries(a: Attempt, n: u32)
    ensures
        decided(a, n) is Accept <==> (a matches Attempt::Status(s) && 200 <= s <= 299),
        decided(a, n) is Retry ==> n < 4 && ((a matches Attempt::Status(s) && (s == 429 || 500 <= s
            <= 599)) || a is Transient),
        n < 4 && a is Transient ==> decided(a, n) is Retry,
        n < 4 && (a matches Attempt::Status(s) && (s == 429 || 500 <= s <= 599)) ==> decided(a, n)
            is Retry,
        decided(a, n) matches Next::Retry(wait) ==> wait == backoff_secs(n),
        backoff_secs(0) == 1,
        n < 3 ==> backoff_secs((n + 1) as u32) == 2 * backoff_secs(n),
        a is Broken ==> decided(a, n) is Fail,
{
}

// ---------- EUVD ------------------------------------------------------------

proof fn lemma_less_than_splits(low: Seq<char>, up: Seq<char>)
    requires
        low.len() > 0,
        up.len() > 0,
        !CharClass::White.has(low[0]),
        !CharClass::White.has(up.last()),
        !low.contains('<'),
    ensures
        ({
            let raw = low.push('<') + up;
            &&& trim(raw, CharClass::White) == raw
            &&& first_in(raw, CharClass::Only('<'), 0) == Some(low.len() as int)
            &&& raw.take(low.len() as int) == low
            &&& raw.skip(low.len() as int + 1) == up
        }),
{
    let raw = low.push('<') + up;
    assert(raw[0] == low[0]);
    assert(trim_start(raw, CharClass::White) == raw);
    assert(raw.last() == up.last());
    let class = CharClass::Only('<');
    lemma_first_in(raw, class, 0);
    assert(raw[low.len() as int] == '<');
    assert forall|i: int| 0 <= i < low.len() implies !class.has(#[trigger] raw[i]) by {
        assert(raw[i] == low[i]);
        assert(low.contains(low[i]));
    }
    assert(raw.take(low.len() as int) =~= low);
    assert(raw.skip(low.len() as int + 1) =~= up);
}

/// A product's range takes in its lower end and leaves out its upper one.
pub proof fn lemma_euvd_range(low: Seq<char>, up: Seq<char>, version: Seq<char>)
    requires
        is_release(low),
        is_release(up),
        rank(low, up) == Rank::Less,
    ensures
        in_range(range_of(low + " <"@ + up), version) <==> rank(version, low) != Rank::Less && rank(
            version,
            up,
        ) == Rank::Less,
{
    reveal_strlit(" <");
    let first = low.push(' ');
    assert(low + " <"@ + up =~= first.push('<') + up);
    assert forall|i: int| 0 <= i < first.len() implies first[i] != '<' by {
        if i < low.len() {
            assert(first[i] == low[i]);
        }
    }
    assert(first[0] == low[0]);
    lemma_less_than_splits(first, up);
    assert(first =~= low + stops_of(0) + seq![' ']);
    lemma_release_is_found(low, 0, seq![' ']);
    assert(up =~= up + stops_of(0) + Seq::empty());
    lemma_release_is_found(up, 0, Seq::empty());
}

/// A product without a lower end is affected below the upper one.
pub proof fn lemma_euvd_unspecified(word: Seq<char>, up: Seq<char>, version: Seq<char>)
    requires
        word.len() > 0,
        'a' <= word[0] <= 'z',
        !word.contains('<'),
        is_release(up),
    ensures
        in_range(range_of(word + " <"@ + up), version) <==> rank(version, up) == Rank::Less,
{
    reveal_strlit(" <");
    let first = word.push(' ');
    assert(word + " <"@ + up =~= first.push('<') + up);
    assert forall|i: int| 0 <= i < first.len() implies first[i] != '<' by {
        if i < word.len() {
            assert(first[i] == word[i]);
            assert(word.contains(word[i]));
        }
    }
    assert(first[0] == word[0]);
    lemma_less_than_splits(first, up);
    lemma_word_is_no_release(first);
    assert(up =~= up + stops_of(0) + Seq::empty());
    lemma_release_is_found(up, 0, Seq::empty());
}

/// A product that names one version only is affected in that one.
pub proof fn lemma_euvd_single_version(v: Seq<char>, version: Seq<char>)
    requires
        is_release(v),
    ensures
        in_range(range_of(v), version) <==> rank(version, v) == Rank::Equal,
{
    let class = CharClass::Only('<');
    lemma_first_in(v, class, 0);
    assert(trim_start(v, CharClass::White) == v);
    assert(trim(v, CharClass::White) == v);
    assert(v =~= v + stops_of(0) + Seq::empty());
    lemma_release_is_found(v, 0, Seq::empty());
    reveal_strlit("prior to ");
    reveal_strlit("before ");
    reveal_strlit("earlier than ");
    assert forall|p: Seq<char>, j: int|
        p.len() > 0 && 'a' <= p[0] <= 'z' implies !#[trigger] stands_at(lower(v), p, j) by {
        if stands_at(lower(v), p, j) {
            assert(lower(v).subrange(j, j + p.len())[0] == p[0]);
            assert(lower(v)[j] == v[j]);
        }
    }
    assert("prior to "@[0] == 'p' && "before "@[0] == 'b' && "earlier than "@[0] == 'e');
    lemma_first_stand(lower(v), "prior to "@, 0);
    lemma_first_stand(lower(v), "before "@, 0);
    lemma_first_stand(lower(v), "earlier than "@, 0);
    assert(prose_ceiling(v) is None);
}

/// An entry is about a version exactly where one of its products is affected in it.
pub proof fn lemma_euvd_entry(entries: Seq<euvd::Entry>, version: Seq<char>, a: AdvisoryView)
    ensures
        euvd::matches(entries, version).contains(a) <==> exists|i: int, k: int|
            0 <= i < entries.len() && 0 <= k < entries[i].products@.len() && (
            #[trigger] entries[i].products@[k]).product_version is Some && in_range(
                range_of(entries[i].products@[k].product_version->0@),
                version,
            ) && euvd::advised(entries[i]) == a,
    decreases entries.len(),
{
    let all = euvd::matches(entries, version);
    if entries.len() > 0 {
        let rest = entries.drop_last();
        let before = euvd::matches(rest, version);
        let last = entries.last();
        lemma_euvd_entry(rest, version, a);
        if all.contains(a) {
            let n = choose|n: int| 0 <= n < all.len() && all[n] == a;
            if n < before.len() {
                assert(before[n] == a);
                let (i, k) = choose|i: int, k: int|
                    0 <= i < rest.len() && 0 <= k < rest[i].products@.len() && (
                    #[trigger] rest[i].products@[k]).product_version is Some && in_range(
                        range_of(rest[i].products@[k].product_version->0@),
                        version,
                    ) && euvd::advised(rest[i]) == a;
                assert(entries[i] == rest[i]);
                assert(entries[i].products@[k].product_version is Some);
            } else {
                let k = choose|k: int|
                    0 <= k < last.products@.len() && euvd::product_affected(
                        #[trigger] last.products@[k],
                        version,
                    );
                assert(entries[entries.len() - 1].products@[k].product_version is Some);
            }
        }
        if exists|i: int, k: int|
            0 <= i < entries.len() && 0 <= k < entries[i].products@.len() && (
            #[trigger] entries[i].products@[k]).product_version is Some && in_range(
                range_of(entries[i].products@[k].product_version->0@),
                version,
            ) && euvd::advised(entries[i]) == a {
            let (i, k) = choose|i: int, k: int|
                0 <= i < entries.len() && 0 <= k < entries[i].products@.len() && (
                #[trigger] entries[i].products@[k]).product_version is Some && in_range(
                    range_of(entries[i].products@[k].product_version->0@),
                    version,
                ) && euvd::advised(entries[i]) == a;
            if i < rest.len() {
                assert(rest[i] == entries[i]);
                assert(rest[i].products@[k].product_version is Some);
                assert(before.contains(a));
                let n = choose|n: int| 0 <= n < before.len() && before[n] == a;
                assert(all[n] == a);
            } else {
                assert(euvd::product_affected(last.products@[k], version));
                assert(all[before.len() as int] == a);
            }
        }
    }
}

proof fn lemma_first_cve(items: Seq<Seq<char>>, i: int)
    requires
        0 <= i,
    ensures
        match euvd::first_cve(items, i) {
            Some(id) => opens(id, "CVE-"@) && exists|k: int|
                i <= k < items.len() && #[trigger] items[k] == id,
            None => forall|k: int| i <= k < items.len() ==> !opens(#[trigger] items[k], "CVE-"@),
        },
    decreases items.len() - i,
{
    if i < items.len() && !opens(items[i], "CVE-"@) {
        lemma_first_cve(items, i + 1);
    }
}

proof fn lemma_web_items(items: Seq<Seq<char>>, u: Seq<char>)
    ensures
        euvd::web_items(items).contains(u) <==> items.contains(u) && (opens(u, "http://"@) || opens(
            u,
            "https://"@,
        )),
    decreases items.len(),
{
    let all = euvd::web_items(items);
    if items.len() > 0 {
        let rest = items.drop_last();
        let before = euvd::web_items(rest);
        lemma_web_items(rest, u);
        if all.contains(u) {
            let k = choose|k: int| 0 <= k < all.len() && all[k] == u;
            if k < before.len() {
                assert(before[k] == u);
                let j = choose|j: int| 0 <= j < rest.len() && rest[j] == u;
                assert(items[j] == u);
            } else {
                assert(items[items.len() - 1] == u);
            }
        }
        if items.contains(u) && (opens(u, "http://"@) || opens(u, "https://"@)) {
            let j = choose|j: int| 0 <= j < items.len() && items[j] == u;
            if j < rest.len() {
                assert(rest[j] == u);
                let k = choose|k: int| 0 <= k < before.len() && before[k] == u;
                assert(all[k] == u);
            } else {
                assert(all[before.len() as int] == u);
            }
        }
    }
}

/// An entry goes by the first CVE among its aliases, or by its own identifier, which is then
/// an alias where there is no other; its references are the web addresses among those listed.
pub proof fn lemma_euvd_identity(e: euvd::Entry, u: Seq<char>)
    ensures
        ({
            let a = euvd::advised(e);
            let aliases = list_items(opt_text(e.aliases));
            &&& a.source == Source::Euvd
            &&& a.severity == e.score_severity
            &&& a.published == opt_text(e.date_published)
            &&& e.description matches Some(d) ==> a.summary == d@
            &&& opens(a.id, "CVE-"@) && aliases.contains(a.id) || (a.id == e.id@ && forall|k: int|
                0 <= k < aliases.len() ==> !opens(#[trigger] aliases[k], "CVE-"@))
            &&& aliases.len() == 0 ==> a.aliases == seq![e.id@]
            &&& aliases.len() > 0 ==> a.aliases == aliases
            &&& a.references.contains(u) <==> list_items(opt_text(e.references)).contains(u) && (
            opens(u, "http://"@) || opens(u, "https://"@))
        }),
{
    lemma_first_cve(list_items(opt_text(e.aliases)), 0);
    lemma_web_items(list_items(opt_text(e.references)), u);
}

/// A hundred entries go on a page, all of them are asked for, and eighty pages at most.
pub proof fn lemma_pages(total: nat)
    ensures
        total <= 8000 ==> 100 * page_count(total) >= total && (page_count(total) > 0 ==> 100 * (
        page_count(total) - 1) < total),
        total > 8000 ==> page_count(total) == 80,
{
}

// ---------- what is asked ---------------------------------------------------

/// Whether only `b` is scanned in versions.
pub open spec fn only_scanned(v: VersionsView, b: Bucket) -> bool {
    forall|c: Bucket| #[trigger] version_of(v, c) is Some <==> c == b
}

/// Each runtime is looked up by its own version.
pub proof fn lemma_own_version(x: Seq<char>)
    ensures
        only_scanned(VersionsView { electron: Some(x), ..no_versions() }, Bucket::Electron),
        only_scanned(VersionsView { tauri: Some(x), ..no_versions() }, Bucket::Tauri),
        only_scanned(VersionsView { node: Some(x), ..no_versions() }, Bucket::Node),
        only_scanned(VersionsView { deno: Some(x), ..no_versions() }, Bucket::Deno),
        only_scanned(VersionsView { chromium: Some(x), ..no_versions() }, Bucket::Chromium),
        only_scanned(VersionsView { flutter: Some(x), ..no_versions() }, Bucket::Flutter),
        only_scanned(VersionsView { qt: Some(x), ..no_versions() }, Bucket::Qt),
        only_scanned(VersionsView { nwjs: Some(x), ..no_versions() }, Bucket::Nwjs),
        only_scanned(VersionsView { react_native: Some(x), ..no_versions() }, Bucket::ReactNative),
        only_scanned(VersionsView { wails: Some(x), ..no_versions() }, Bucket::Wails),
        only_scanned(VersionsView { sciter: Some(x), ..no_versions() }, Bucket::Sciter),
        only_scanned(VersionsView { java: Some(x), ..no_versions() }, Bucket::Java),
        only_scanned(VersionsView { webkit: Some(x), ..no_versions() }, Bucket::Webkit),
        forall|v: VersionsView| #[trigger]
            version_of(v, Bucket::Node) matches Some(y) ==> v.node == Some(y),
        forall|v: VersionsView| #[trigger]
            version_of(v, Bucket::Chromium) matches Some(y) ==> v.chromium == Some(y),
{
}

/// The report keeps each runtime's advisories under its own name.
pub proof fn lemma_own_bucket(r: CveReport)
    ensures
        r.bucket(Bucket::Electron) == crate::cve::advisory::advisories(r.electron@),
        r.bucket(Bucket::Tauri) == crate::cve::advisory::advisories(r.tauri@),
        r.bucket(Bucket::Node) == crate::cve::advisory::advisories(r.node@),
        r.bucket(Bucket::Deno) == crate::cve::advisory::advisories(r.deno@),
        r.bucket(Bucket::Chromium) == crate::cve::advisory::advisories(r.chromium@),
        r.bucket(Bucket::Flutter) == crate::cve::advisory::advisories(r.flutter@),
        r.bucket(Bucket::Qt) == crate::cve::advisory::advisories(r.qt@),
        r.bucket(Bucket::Nwjs) == crate::cve::advisory::advisories(r.nwjs@),
        r.bucket(Bucket::ReactNative) == crate::cve::advisory::advisories(r.react_native@),
        r.bucket(Bucket::Wails) == crate::cve::advisory::advisories(r.wails@),
        r.bucket(Bucket::Sciter) == crate::cve::advisory::advisories(r.sciter@),
        r.bucket(Bucket::Java) == crate::cve::advisory::advisories(r.java@),
        r.bucket(Bucket::Webkit) == crate::cve::advisory::advisories(r.webkit@),
        r.bucket(Bucket::Cef) == crate::cve::advisory::advisories(r.cef@),
{
}

/// Whether a lookup of a runtime is planned: for its own version, at one service, by one
/// question.
pub open spec fn asks(
    plan: Seq<LookupView>,
    b: Bucket,
    source: Source,
    query: QueryView,
    version: Seq<char>,
) -> bool {
    exists|i: int|
        0 <= i < plan.len() && (#[trigger] plan[i]).bucket == b && plan[i].source == source
            && plan[i].query == query && plan[i].version == version
}

proof fn lemma_asked(v: VersionsView, s: SourceSettings, b: Bucket, source: Source)
    requires
        version_of(v, b) is Some,
        enabled(s, source),
        question(b, source) is Some,
    ensures
        asks(
            planned(v, s, None, RUNTIMES as nat),
            b,
            source,
            question(b, source)->0,
            version_of(v, b)->0,
        ),
{
    lemma_all_planned(v, s, None, b, source);
    let plan = planned(v, s, None, RUNTIMES as nat);
    let l = LookupView {
        bucket: b,
        source,
        query: question(b, source)->0,
        version: version_of(v, b)->0,
        prefix: lookup_prefix(b, source, version_of(v, b)->0),
    };
    let i = choose|i: int| 0 <= i < plan.len() && plan[i] == l;
    assert(plan[i].bucket == b);
}

/// NVD, where it is enabled, is asked for each runtime under the vendor and product that it
/// lists it by; Chromium's advisories are those of Chrome, and CEF's are those of Chromium.
pub proof fn lemma_nvd_is_asked(v: VersionsView, s: SourceSettings)
    requires
        s.nvd.enabled,
    ensures
        ({
            let plan = planned(v, s, None, RUNTIMES as nat);
            let ask = |b: Bucket, vendor: Seq<char>, product: Seq<char>, x: Option<Seq<char>>|
                x is Some ==> asks(plan, b, Source::Nvd, QueryView::Product(vendor, product), x->0);
            &&& ask(Bucket::Node, "nodejs"@, "node.js"@, v.node)
            &&& ask(Bucket::Deno, "deno"@, "deno"@, v.deno)
            &&& ask(Bucket::Chromium, "google"@, "chrome"@, v.chromium)
            &&& ask(Bucket::Cef, "google"@, "chrome"@, version_of(v, Bucket::Cef))
            &&& ask(Bucket::Flutter, "google"@, "flutter"@, v.flutter)
            &&& ask(Bucket::Qt, "qt"@, "qt"@, v.qt)
            &&& ask(Bucket::Nwjs, "nwjs"@, "nwjs"@, v.nwjs)
            &&& ask(Bucket::ReactNative, "facebook"@, "react_native"@, v.react_native)
            &&& ask(Bucket::Wails, "wailsapp"@, "wails"@, v.wails)
            &&& ask(Bucket::Sciter, "terrainformatica"@, "sciter"@, v.sciter)
            &&& ask(Bucket::Webkit, "apple"@, "safari"@, v.webkit)
            &&& ask(Bucket::Java, "oracle"@, "jdk"@, v.java)
        }),
{
    assert forall|b: Bucket|
        version_of(v, b) is Some && question(b, Source::Nvd) is Some implies #[trigger] asks(
        planned(v, s, None, RUNTIMES as nat),
        b,
        Source::Nvd,
        question(b, Source::Nvd)->0,
        version_of(v, b)->0,
    ) by {
        lemma_asked(v, s, b, Source::Nvd);
    }
    if v.node is Some { lemma_asked(v, s, Bucket::Node, Source::Nvd); }
    if v.deno is Some { lemma_asked(v, s, Bucket::Deno, Source::Nvd); }
    if v.chromium is Some { lemma_asked(v, s, Bucket::Chromium, Source::Nvd); }
    if version_of(v, Bucket::Cef) is Some { lemma_asked(v, s, Bucket::Cef, Source::Nvd); }
    if v.flutter is Some { lemma_asked(v, s, Bucket::Flutter, Source::Nvd); }
    if v.qt is Some { lemma_asked(v, s, Bucket::Qt, Source::Nvd); }
    if v.nwjs is Some { lemma_asked(v, s, Bucket::Nwjs, Source::Nvd); }
    if v.react_native is Some { lemma_asked(v, s, Bucket::ReactNative, Source::Nvd); }
    if v.wails is Some { lemma_asked(v, s, Bucket::Wails, Source::Nvd); }
    if v.sciter is Some { lemma_asked(v, s, Bucket::Sciter, Source::Nvd); }
    if v.webkit is Some { lemma_asked(v, s, Bucket::Webkit, Source::Nvd); }
    if v.java is Some { lemma_asked(v, s, Bucket::Java, Source::Nvd); }
}

/// EUVD, where it is enabled, is asked under its own names for vendor and product.
pub proof fn lemma_euvd_is_asked(v: VersionsView, s: SourceSettings)
    requires
        s.euvd.enabled,
    ensures
        ({
            let plan = planned(v, s, None, RUNTIMES as nat);
            let ask = |b: Bucket, vendor: Seq<char>, product: Seq<char>, x: Option<Seq<char>>|
                x is Some ==> asks(plan, b, Source::Euvd, QueryView::Product(vendor, product), x->0);
            &&& ask(Bucket::Electron, "Electron"@, "Electron"@, v.electron)
            &&& ask(Bucket::Tauri, "Tauri"@, "Tauri"@, v.tauri)
            &&& ask(Bucket::Node, "Node.js"@, "Node.js"@, v.node)
            &&& ask(Bucket::Deno, "Deno"@, "Deno"@, v.deno)
            &&& ask(Bucket::Chromium, "Google"@, "Chrome"@, v.chromium)
            &&& ask(Bucket::Cef, "Google"@, "Chrome"@, version_of(v, Bucket::Cef))
            &&& ask(Bucket::Flutter, "Google"@, "Flutter"@, v.flutter)
            &&& ask(Bucket::Qt, "Qt"@, "Qt"@, v.qt)
            &&& ask(Bucket::Nwjs, "nwjs"@, "NW.js"@, v.nwjs)
            &&& ask(Bucket::Webkit, "Apple"@, "Safari"@, v.webkit)
            &&& ask(Bucket::Java, "Oracle"@, "JDK"@, v.java)
        }),
{
    if v.electron is Some { lemma_asked(v, s, Bucket::Electron, Source::Euvd); }
    if v.tauri is Some { lemma_asked(v, s, Bucket::Tauri, Source::Euvd); }
    if v.node is Some { lemma_asked(v, s, Bucket::Node, Source::Euvd); }
    if v.deno is Some { lemma_asked(v, s, Bucket::Deno, Source::Euvd); }
    if v.chromium is Some { lemma_asked(v, s, Bucket::Chromium, Source::Euvd); }
    if version_of(v, Bucket::Cef) is Some { lemma_asked(v, s, Bucket::Cef, Source::Euvd); }
    if v.flutter is Some { lemma_asked(v, s, Bucket::Flutter, Source::Euvd); }
    if v.qt is Some { lemma_asked(v, s, Bucket::Qt, Source::Euvd); }
    if v.nwjs is Some { lemma_asked(v, s, Bucket::Nwjs, Source::Euvd); }
    if v.webkit is Some { lemma_asked(v, s, Bucket::Webkit, Source::Euvd); }
    if v.java is Some { lemma_asked(v, s, Bucket::Java, Source::Euvd); }
}

/// OSV and GHSA, where they are enabled, are asked for the packages that the runtimes are
/// published as.
pub proof fn lemma_package_services_are_asked(v: VersionsView, s: SourceSettings)
    ensures
        ({
            let plan = planned(v, s, None, RUNTIMES as nat);
            let ask = |b: Bucket, from: Source, eco: Seq<char>, name: Seq<char>, x: Option<Seq<char>>|
                x is Some ==> asks(plan, b, from, QueryView::Package(eco, name), x->0);
            &&& s.osv.enabled ==> {
                &&& ask(Bucket::Electron, Source::Osv, "npm"@, "electron"@, v.electron)
                &&& ask(Bucket::Tauri, Source::Osv, "crates.io"@, "tauri"@, v.tauri)
                &&& ask(Bucket::ReactNative, Source::Osv, "npm"@, "react-native"@, v.react_native)
            }
            &&& s.ghsa.enabled ==> {
                &&& ask(Bucket::Electron, Source::Ghsa, "npm"@, "electron"@, v.electron)
                &&& ask(Bucket::Tauri, Source::Ghsa, "rust"@, "tauri"@, v.tauri)
                &&& ask(Bucket::ReactNative, Source::Ghsa, "npm"@, "react-native"@, v.react_native)
                &&& ask(
                    Bucket::Wails,
                    Source::Ghsa,
                    "go"@,
                    "github.com/wailsapp/wails/v2"@,
                    v.wails,
                )
            }
        }),
{
    if s.osv.enabled {
        if v.electron is Some { lemma_asked(v, s, Bucket::Electron, Source::Osv); }
        if v.tauri is Some { lemma_asked(v, s, Bucket::Tauri, Source::Osv); }
        if v.react_native is Some { lemma_asked(v, s, Bucket::ReactNative, Source::Osv); }
    }
    if s.ghsa.enabled {
        if v.electron is Some { lemma_asked(v, s, Bucket::Electron, Source::Ghsa); }
        if v.tauri is Some { lemma_asked(v, s, Bucket::Tauri, Source::Ghsa); }
        if v.react_native is Some { lemma_asked(v, s, Bucket::ReactNative, Source::Ghsa); }
        if v.wails is Some { lemma_asked(v, s, Bucket::Wails, Source::Ghsa); }
    }
}

/// A service that is switched off is not asked, and neither is any for a runtime that was not
/// found or that the snapshot knows.
pub proof fn lemma_nothing_else_is_asked(
    v: VersionsView,
    s: SourceSettings,
    snap: Option<Seq<(Seq<char>, Seq<AdvisoryView>)>>,
    i: int,
)
    requires
        0 <= i < planned(v, s, snap, RUNTIMES as nat).len(),
    ensures
        ({
            let l = planned(v, s, snap, RUNTIMES as nat)[i];
            &&& l.source == Source::Nvd ==> s.nvd.enabled
            &&& l.source == Source::Euvd ==> s.euvd.enabled
            &&& l.source == Source::Osv ==> s.osv.enabled
            &&& l.source == Source::Ghsa ==> s.ghsa.enabled
            &&& version_of(v, l.bucket) == Some(l.version)
            &&& snap matches Some(p) ==> product_place(p, snapshot_key(l.bucket), 0) is None
        }),
{
    crate::cve::plan::lemma_planned(v, s, snap, RUNTIMES as nat);
    let l = planned(v, s, snap, RUNTIMES as nat)[i];
    assert(called_for(l, v, s, snap));
}

/// CEF is known to a snapshot as the Chromium that it embeds; every other runtime by its own
/// name.
pub proof fn lemma_snapshot_names(b: Bucket, c: Bucket)
    ensures
        snapshot_key(Bucket::Cef) == "chromium"@,
        snapshot_key(Bucket::Chromium) == "chromium"@,
        snapshot_key(Bucket::Electron) == "electron"@,
        snapshot_key(Bucket::Node) == "node"@,
        snapshot_key(Bucket::Tauri) == "tauri"@,
        snapshot_key(Bucket::Deno) == "deno"@,
        snapshot_key(Bucket::Flutter) == "flutter"@,
        snapshot_key(Bucket::Qt) == "qt"@,
        snapshot_key(Bucket::Nwjs) == "nwjs"@,
        snapshot_key(Bucket::ReactNative) == "react_native"@,
        snapshot_key(Bucket::Wails) == "wails"@,
        snapshot_key(Bucket::Sciter) == "sciter"@,
        snapshot_key(Bucket::Java) == "java"@,
        snapshot_key(Bucket::Webkit) == "webkit"@,
{
}

/// A lookup is named by its service, its runtime and the version.
pub proof fn lemma_lookup_is_named(version: Seq<char>)
    ensures
        lookup_prefix(Bucket::Node, Source::Nvd, version) == "[nvd] node "@ + version,
        lookup_prefix(Bucket::Cef, Source::Euvd, version) == "[euvd] cef "@ + version,
        lookup_prefix(Bucket::ReactNative, Source::Osv, version) == "[osv] react-native "@
            + version,
        lookup_prefix(Bucket::Wails, Source::Ghsa, version) == "[ghsa] wails "@ + version,
{
    reveal_strlit("[");
    reveal_strlit("] ");
    reveal_strlit(" ");
    reveal_strlit("nvd");
    reveal_strlit("euvd");
    reveal_strlit("osv");
    reveal_strlit("ghsa");
    reveal_strlit("node");
    reveal_strlit("cef");
    reveal_strlit("react-native");
    reveal_strlit("wails");
    reveal_strlit("[nvd] node ");
    reveal_strlit("[euvd] cef ");
    reveal_strlit("[osv] react-native ");
    reveal_strlit("[ghsa] wails ");
    assert(lookup_prefix(Bucket::Node, Source::Nvd, version) =~= "[nvd] node "@ + version);
    assert(lookup_prefix(Bucket::Cef, Source::Euvd, version) =~= "[euvd] cef "@ + version);
    assert(lookup_prefix(Bucket::ReactNative, Source::Osv, version) =~= "[osv] react-native "@
        + version);
    assert(lookup_prefix(Bucket::Wails, Source::Ghsa, version) =~= "[ghsa] wails "@ + version);
}

// ---------- failures --------------------------------------------------------

/// A failure passes where the service is busy or broken, or where no connection came about;
/// a payload that makes no sense does not.
pub proof fn lemma_what_passes(e: Error, status: u16)
    ensures
        e is Unavailable ==> e.transient(),
        e is BadPayload ==> !e.transient(),
        e matches Error::Http(h) ==> (e.transient() <==> h.timeout || h.connect || h.request),
        passes(status) <==> status == 429 || (500 <= status && status < 600),
{
}

/// A refusal tells who refused, the status, and so much of the text as is shown.
pub proof fn lemma_refusal(label: Seq<char>, status: u16, text: Seq<char>, shown: nat)
    ensures
        opens(refusal(label, status, text, shown), label + ": HTTP "@ + decimal(status as nat)),
        text.len() <= shown ==> refusal(label, status, text, shown) == label + ": HTTP "@ + decimal(
            status as nat,
        ) + ": "@ + text,
        text.len() > shown ==> refusal(label, status, text, shown) == refusal(
            label,
            status,
            text.take(shown as int),
            shown,
        ),
{
    let head = label + ": HTTP "@ + decimal(status as nat);
    let all = refusal(label, status, text, shown);
    assert(all.take(head.len() as int) =~= head);
}

/// A service is named as missing exactly where it was, once, in alphabetical order.
pub proof fn lemma_outages_are_named(o: Outages)
    ensures
        o.names().contains("EUVD"@) <==> o.euvd,
        o.names().contains("GHSA"@) <==> o.ghsa,
        o.names().contains("NVD"@) <==> o.nvd,
        o.names().contains("OSV"@) <==> o.osv,
        o.names().len() == (if o.euvd { 1int } else { 0 }) + (if o.ghsa { 1int } else { 0 }) + (
        if o.nvd { 1int } else { 0 }) + (if o.osv { 1int } else { 0 }),
{
    reveal_strlit("EUVD");
    reveal_strlit("GHSA");
    reveal_strlit("NVD");
    reveal_strlit("OSV");
    assert("EUVD"@[0] == 'E' && "GHSA"@[0] == 'G' && "NVD"@[0] == 'N' && "OSV"@[0] == 'O');
    let n = o.names();
    let at: int = if o.euvd { 1 } else { 0 };
    let to: int = at + if o.ghsa { 1int } else { 0 };
    let on: int = to + if o.nvd { 1int } else { 0 };
    if o.euvd { assert(n[0] == "EUVD"@); }
    if o.ghsa { assert(n[at] == "GHSA"@); }
    if o.nvd { assert(n[to] == "NVD"@); }
    if o.osv { assert(n[on] == "OSV"@); }
}

// ---------- settings --------------------------------------------------------

/// Out of the box OSV is asked, and of the two that list products NVD natively and EUVD in a
/// browser; GHSA waits for a token.
pub proof fn lemma_out_of_the_box(s: SourceSettings, browser: bool)
    requires
        s.is_default(browser),
    ensures
        s.osv.enabled && !s.ghsa.enabled,
        browser ==> s.euvd.enabled && !s.nvd.enabled,
        !browser ==> s.nvd.enabled && !s.euvd.enabled,
        s.nvd.api_key is None && s.ghsa.token is None,
{
}

/// Settings lie in the application's own directory of the configuration.
pub proof fn lemma_settings_file(dir: Seq<char>)
    requires
        dir.len() > 0,
        dir.last() != '/',
    ensures
        settings_file(Some(dir)) == Some(dir + "/achilles/settings.json"@),
        settings_file(None) is None,
{
    reveal_strlit("achilles");
    reveal_strlit("settings.json");
    reveal_strlit("/achilles/settings.json");
    assert(settings_file(Some(dir))->0 =~= dir + "/achilles/settings.json"@);
}

/// A range that ends where it starts, or before, is everything below its end.
pub proof fn lemma_euvd_empty_range(low: Seq<char>, up: Seq<char>, version: Seq<char>)
    requires
        is_release(low),
        is_release(up),
        rank(low, up) != Rank::Less,
    ensures
        in_range(range_of(low + " <"@ + up), version) <==> rank(version, up) == Rank::Less,
{
    reveal_strlit(" <");
    let raw = low + " <"@ + up;
    let head = low.push(' ');
    assert(raw =~= head.push('<') + up);
    assert forall|i: int| 0 <= i < head.len() implies head[i] != '<' by {
        if i < low.len() {
            assert(head[i] == low[i]);
        }
    }
    lemma_less_than_splits(head, up);
    lemma_release_is_found(low, 0, seq![' ']);
    lemma_release_is_found(up, 0, Seq::empty());
    assert(stops_of(0) =~= Seq::empty());
    assert(low + stops_of(0) + seq![' '] =~= head);
    assert(up + stops_of(0) + Seq::<char>::empty() =~= up);
}

/// The version that an entry is fixed in is the upper end of a product's range.
pub proof fn lemma_euvd_fix(p: euvd::Product, low: Seq<char>, up: Seq<char>)
    requires
        is_release(low),
        is_release(up),
        opt_text(p.product_version) == Some(low + " <"@ + up),
    ensures
        euvd::product_ceiling(p) == Some(up),
{
    reveal_strlit(" <");
    let raw = low + " <"@ + up;
    let head = low.push(' ');
    assert(raw =~= head.push('<') + up);
    assert forall|i: int| 0 <= i < head.len() implies head[i] != '<' by {
        if i < low.len() {
            assert(head[i] == low[i]);
        }
    }
    lemma_less_than_splits(head, up);
    lemma_release_is_found(low, 0, seq![' ']);
    lemma_release_is_found(up, 0, Seq::empty());
    assert(stops_of(0) =~= Seq::empty());
    assert(low + stops_of(0) + seq![' '] =~= head);
    assert(up + stops_of(0) + Seq::<char>::empty() =~= up);
}

} // verus!
