//! What advisory matching promises, whatever the advisory.

use vstd::prelude::*;

use crate::cve::advisory::{severity_named, AdvisoryView, Severity};
use crate::cve::cache::fresh;
use crate::cve::filter::{
    cef_build, is_dotted, kept, lemma_kept_members, recency, relevance, year_at,
};
use crate::cve::plan::version_of;
use crate::cve::report::Bucket;
use crate::cve::snapshot::{answer, open_advisories, open_for, product_place};
use crate::cve::version::{
    after_phrase, filled, prose_ceiling, says, scoped_elsewhere, text_ceiling, version_run,
    version_token, words_at, Os,
};
use crate::detect::VersionsView;
use crate::num::{decimal, digit, lemma_numeral_reads_back};
use crate::text::{
    first_in, first_stand, lemma_first_in, lemma_first_stand, lemma_split_head, lemma_trim_end,
    lower, split, stands_at, trim, trim_end, trim_start, upper, CharClass,
};
use crate::version::{rank, Rank};

verus! {

// ---------- versions in prose -----------------------------------------------

/// Whether a text is a release number: digits and dots, a digit at either end, and a dot.
pub open spec fn is_release(v: Seq<char>) -> bool {
    &&& v.len() > 0
    &&& '0' <= v[0] <= '9'
    &&& '0' <= v.last() <= '9'
    &&& v.contains('.')
    &&& forall|i: int| 0 <= i < v.len() ==> '0' <= #[trigger] v[i] <= '9' || v[i] == '.'
}

/// Whether a text goes on, or ends, behind a release number: with full stops only, up to
/// something that could not belong to it.
pub open spec fn ends_release(stops: nat, rest: Seq<char>) -> bool {
    rest.len() > 0 ==> !('0' <= rest[0] <= '9') && rest[0] != '.'
}

/// `n` full stops.
pub open spec fn stops_of(n: nat) -> Seq<char> {
    Seq::new(n, |i: int| '.')
}

proof fn lemma_version_run(s: Seq<char>, i: int, k: int)
    requires
        0 <= i <= k <= s.len(),
        forall|j: int| i <= j < k ==> '0' <= #[trigger] s[j] <= '9' || s[j] == '.',
        k < s.len() ==> !('0' <= s[k] <= '9') && s[k] != '.',
    ensures
        version_run(s, i) == k - i,
    decreases k - i,
{
    if i < k {
        lemma_version_run(s, i + 1, k);
    }
}

proof fn lemma_filled_behind(a: Seq<char>, parts: Seq<Seq<char>>)
    ensures
        filled(seq![a] + parts) == filled(parts) + if a.len() > 0 {
            1nat
        } else {
            0
        },
    decreases parts.len(),
{
    let all = seq![a] + parts;
    if parts.len() == 0 {
        assert(all.drop_last() =~= Seq::empty());
        assert(filled(Seq::<Seq<char>>::empty()) == 0);
    } else {
        assert(all.drop_last() =~= seq![a] + parts.drop_last());
        lemma_filled_behind(a, parts.drop_last());
    }
}

proof fn lemma_ends_filled(s: Seq<char>)
    requires
        s.len() > 0,
        s.last() != '.',
    ensures
        filled(split(s, CharClass::Only('.'))) >= 1,
    decreases s.len(),
{
    let class = CharClass::Only('.');
    lemma_first_in(s, class, 0);
    match first_in(s, class, 0) {
        Some(i) => {
            let a = s.take(i);
            let rest = s.skip(i + 1);
            assert(s =~= a.push('.') + rest);
            lemma_split_head(a, '.', rest, class);
            lemma_ends_filled(rest);
            lemma_filled_behind(a, split(rest, class));
        },
        None => {
            lemma_split_head(s, '.', Seq::empty(), class);
            assert(seq![s] =~= seq![s] + Seq::<Seq<char>>::empty());
            lemma_filled_behind(s, Seq::empty());
        },
    }
}

proof fn lemma_release_filled(v: Seq<char>)
    requires
        is_release(v),
    ensures
        filled(split(v, CharClass::Only('.'))) >= 2,
{
    let class = CharClass::Only('.');
    lemma_first_in(v, class, 0);
    let k = choose|k: int| 0 <= k < v.len() && v[k] == '.';
    assert(class.has(v[k]));
    let i = first_in(v, class, 0)->0;
    let a = v.take(i);
    let rest = v.skip(i + 1);
    assert(v =~= a.push('.') + rest);
    assert(i > 0);
    assert(rest.len() > 0);
    assert(rest.last() == v.last());
    lemma_split_head(a, '.', rest, class);
    lemma_ends_filled(rest);
    lemma_filled_behind(a, split(rest, class));
}

/// A release number in front of a text is the version that the text opens with, whatever
/// full stops or words follow.
pub proof fn lemma_release_is_found(v: Seq<char>, stops: nat, rest: Seq<char>)
    requires
        is_release(v),
        ends_release(stops, rest),
    ensures
        version_token(v + stops_of(stops) + rest) == Some(v),
{
    let s = v + stops_of(stops) + rest;
    let n = v.len() + stops;
    assert(s[0] == v[0]);
    assert(trim_start(s, CharClass::White) == s);
    lemma_trim_end(s, CharClass::White);
    let t = trim(s, CharClass::White);
    assert(t.len() >= n) by {
        if t.len() < n {
            assert(s[n - 1] == if stops == 0 {
                v.last()
            } else {
                '.'
            });
            assert(CharClass::White.has(s[n - 1]));
        }
    }
    assert forall|j: int| 0 <= j < n implies '0' <= #[trigger] t[j] <= '9' || t[j] == '.' by {
        assert(t[j] == s[j]);
        if j < v.len() {
            assert(s[j] == v[j]);
        }
    }
    if n < t.len() {
        assert(t[n as int] == s[n as int]);
        assert(s[n as int] == rest[0]);
    }
    lemma_version_run(t, 0, n as int);
    let u = t.take(n as int);
    assert(u =~= v + stops_of(stops));
    let class = CharClass::Only('.');
    assert(u[0] == v[0]);
    assert(trim_start(u, class) == u);
    lemma_trim_end(u, class);
    let w = trim_end(u, class);
    assert(w.len() >= v.len()) by {
        if w.len() < v.len() {
            assert(u[v.len() - 1] == v.last());
            assert(class.has(u[v.len() - 1]));
        }
    }
    if w.len() > v.len() {
        assert(w.last() == u[w.len() - 1]);
    }
    assert(w =~= v);
    lemma_release_filled(v);
}

/// A text that opens with neither a digit, a full stop nor white space opens with no version.
pub proof fn lemma_word_is_no_release(s: Seq<char>)
    requires
        s.len() > 0,
        !('0' <= s[0] <= '9') && s[0] != '.' && !CharClass::White.has(s[0]),
    ensures
        version_token(s) is None,
{
    assert(trim_start(s, CharClass::White) == s);
    lemma_trim_end(s, CharClass::White);
    let t = trim(s, CharClass::White);
    if t.len() > 0 {
        assert(t[0] == s[0]);
        lemma_version_run(t, 0, 0);
    }
    assert(t.take(0) =~= Seq::empty());
    let class = CharClass::Only('.');
    assert(trim(Seq::<char>::empty(), class) =~= Seq::<char>::empty());
    lemma_split_head(Seq::empty(), '.', Seq::empty(), class);
    lemma_filled_behind(Seq::empty(), Seq::empty());
    assert(seq![Seq::<char>::empty()] =~= seq![Seq::<char>::empty()] + Seq::<Seq<char>>::empty());
    assert(filled(Seq::<Seq<char>>::empty()) == 0);
}

/// Where a phrase first stands in a text, in capitals or not, the release number behind it is
/// the one that the phrase speaks of.
pub proof fn lemma_phrase_names_release(
    head: Seq<char>,
    said: Seq<char>,
    v: Seq<char>,
    stops: nat,
    rest: Seq<char>,
)
    requires
        is_release(v),
        ends_release(stops, rest),
        said.len() > 0,
        forall|j: int|
            0 <= j < head.len() ==> !stands_at(
                lower(head + said + (v + stops_of(stops) + rest)),
                lower(said),
                j,
            ),
    ensures
        after_phrase(head + said + (v + stops_of(stops) + rest), lower(said)) == Some(v),
{
    let tail = v + stops_of(stops) + rest;
    let s = head + said + tail;
    let low = lower(s);
    let phrase = lower(said);
    assert(low.subrange(head.len() as int, (head.len() + phrase.len()) as int) =~= phrase);
    assert(stands_at(low, phrase, head.len() as int));
    lemma_first_stand(low, phrase, 0);
    assert(first_stand(low, phrase, 0) == Some(head.len() as int));
    assert(s.skip((head.len() + phrase.len()) as int) =~= tail);
    lemma_release_is_found(v, stops, rest);
}

/// Whether a text says, in capitals or not, that what comes before a release is affected:
/// the phrase first stands behind `head`, and the release number follows.
pub open spec fn says_until(
    s: Seq<char>,
    phrase: Seq<char>,
    head: Seq<char>,
    said: Seq<char>,
    v: Seq<char>,
    stops: nat,
    rest: Seq<char>,
) -> bool {
    &&& s == head + said + (v + stops_of(stops) + rest)
    &&& lower(said) == phrase
    &&& is_release(v)
    &&& ends_release(stops, rest)
    &&& forall|j: int| 0 <= j < head.len() ==> !stands_at(lower(s), phrase, j)
}

/// "Prior to", "before" and "earlier than" a release all make it the ceiling, in that order
/// where a text uses more than one.
pub proof fn lemma_prose_ceiling(
    s: Seq<char>,
    head: Seq<char>,
    said: Seq<char>,
    v: Seq<char>,
    stops: nat,
    rest: Seq<char>,
)
    ensures
        says_until(s, "prior to "@, head, said, v, stops, rest) ==> prose_ceiling(s) == Some(v),
        says_until(s, "before "@, head, said, v, stops, rest) && after_phrase(s, "prior to "@)
            is None ==> prose_ceiling(s) == Some(v),
        says_until(s, "earlier than "@, head, said, v, stops, rest) && after_phrase(
            s,
            "prior to "@,
        ) is None && after_phrase(s, "before "@) is None ==> prose_ceiling(s) == Some(v),
{
    reveal_strlit("prior to ");
    reveal_strlit("before ");
    reveal_strlit("earlier than ");
    if says_until(s, "prior to "@, head, said, v, stops, rest) || says_until(
        s,
        "before "@,
        head,
        said,
        v,
        stops,
        rest,
    ) || says_until(s, "earlier than "@, head, said, v, stops, rest) {
        assert(lower(said).len() == said.len());
        lemma_phrase_names_release(head, said, v, stops, rest);
    }
}

/// A text in which none of the phrases stands has no ceiling.
pub proof fn lemma_no_phrase_no_ceiling(s: Seq<char>)
    requires
        forall|j: int|
            !stands_at(lower(s), "prior to "@, j) && !stands_at(lower(s), "before "@, j)
                && !stands_at(lower(s), "earlier than "@, j),
    ensures
        prose_ceiling(s) is None,
        text_ceiling(s, None) is None,
{
    lemma_first_stand(lower(s), "prior to "@, 0);
    lemma_first_stand(lower(s), "before "@, 0);
    lemma_first_stand(lower(s), "earlier than "@, 0);
}

/// An advisory whose text names its fix is not kept for a build at or past it, whichever
/// phrase names it.
pub proof fn lemma_patched_by_prose_is_dropped(
    list: Seq<AdvisoryView>,
    a: AdvisoryView,
    b: Bucket,
    versions: VersionsView,
    os: Os,
    head: Seq<char>,
    said: Seq<char>,
    v: Seq<char>,
    stops: nat,
    rest: Seq<char>,
)
    requires
        a.fixed_in is None,
        says_until(a.summary, "prior to "@, head, said, v, stops, rest) || (says_until(
            a.summary,
            "before "@,
            head,
            said,
            v,
            stops,
            rest,
        ) && after_phrase(a.summary, "prior to "@) is None) || (says_until(
            a.summary,
            "earlier than "@,
            head,
            said,
            v,
            stops,
            rest,
        ) && after_phrase(a.summary, "prior to "@) is None && after_phrase(a.summary, "before "@)
            is None),
        version_of(versions, b) matches Some(scanned) && scanned.len() > 0 && '0' <= scanned[0]
            <= '9' && rank(scanned, v) != Rank::Less,
    ensures
        !kept(list, relevance(b, versions, os)).contains(a),
{
    lemma_prose_ceiling(a.summary, head, said, v, stops, rest);
    lemma_kept_members(list, relevance(b, versions, os), a);
}

/// An advisory that states its fix is not kept for a build at or past it; for one before it
/// the text is not asked, and it is kept unless it is about other platforms.
pub proof fn lemma_stated_fix_decides(
    list: Seq<AdvisoryView>,
    a: AdvisoryView,
    b: Bucket,
    versions: VersionsView,
    os: Os,
    fix: Seq<char>,
    scanned: Seq<char>,
)
    requires
        list.contains(a),
        a.fixed_in == Some(fix),
        version_of(versions, b) == Some(scanned),
        scanned.len() > 0 && '0' <= scanned[0] <= '9',
        fix.len() > 0 && '0' <= fix[0] <= '9',
    ensures
        rank(scanned, fix) != Rank::Less ==> !kept(list, relevance(b, versions, os)).contains(a),
        rank(scanned, fix) == Rank::Less ==> (kept(list, relevance(b, versions, os)).contains(a)
            <==> !scoped_elsewhere(a.summary, os)),
{
    lemma_kept_members(list, relevance(b, versions, os), a);
}

/// Without a version, or without a ceiling, an advisory is never taken for patched.
pub proof fn lemma_doubt_keeps(
    list: Seq<AdvisoryView>,
    a: AdvisoryView,
    b: Bucket,
    versions: VersionsView,
    os: Os,
)
    requires
        list.contains(a),
        !scoped_elsewhere(a.summary, os),
        version_of(versions, b) is None || (a.fixed_in is None && prose_ceiling(a.summary) is None
            && b != Bucket::Webkit) || (a.fixed_in matches Some(f) && (f.len() == 0 || !('0' <= f[0]
            <= '9'))) || (version_of(versions, b) matches Some(v) && (v.len() == 0 || !('0' <= v[0]
            <= '9'))),
    ensures
        kept(list, relevance(b, versions, os)).contains(a),
{
    lemma_kept_members(list, relevance(b, versions, os), a);
}

/// An advisory on WebKit names the fix by Safari's version.
pub proof fn lemma_safari_names_the_fix(
    list: Seq<AdvisoryView>,
    a: AdvisoryView,
    versions: VersionsView,
    os: Os,
    head: Seq<char>,
    said: Seq<char>,
    v: Seq<char>,
    stops: nat,
    rest: Seq<char>,
    scanned: Seq<char>,
)
    requires
        a.fixed_in is None,
        prose_ceiling(a.summary) is None,
        says_until(a.summary, "safari "@, head, said, v, stops, rest),
        version_of(versions, Bucket::Webkit) == Some(scanned),
        scanned.len() > 0 && '0' <= scanned[0] <= '9',
        rank(scanned, v) != Rank::Less,
    ensures
        !kept(list, relevance(Bucket::Webkit, versions, os)).contains(a),
{
    reveal_strlit("Safari");
    reveal_strlit("safari ");
    reveal_strlit(" ");
    assert(lower("Safari"@) + " "@ =~= "safari "@);
    assert(lower(said).len() == said.len());
    lemma_phrase_names_release(head, said, v, stops, rest);
    lemma_kept_members(list, relevance(Bucket::Webkit, versions, os), a);
}

// ---------- platforms -------------------------------------------------------

/// An advisory that says it is about another platform, and does not mention this one, is not
/// about this one.
pub proof fn lemma_other_platform(summary: Seq<char>)
    ensures
        ({
            let s = lower(summary);
            let mac = says(s, "macos"@) || says(s, "mac"@) || says(s, "os x"@);
            let win = says(s, "windows"@);
            let lin = says(s, "linux"@);
            let on_mac = says(s, "on macos"@) || says(s, "on mac"@) || says(s, "on os x"@);
            let on_mobile = says(s, "on android"@) || says(s, "on ios"@) || says(s, "on ipados"@)
                || says(s, "on chromeos"@) || says(s, "on chrome os"@);
            &&& on_mobile && !mac ==> scoped_elsewhere(summary, Os::Macos)
            &&& on_mobile && !win ==> scoped_elsewhere(summary, Os::Windows)
            &&& on_mobile && !lin ==> scoped_elsewhere(summary, Os::Linux)
            &&& on_mac && !win ==> scoped_elsewhere(summary, Os::Windows)
            &&& on_mac && !lin ==> scoped_elsewhere(summary, Os::Linux)
            &&& says(s, "on windows"@) && !mac ==> scoped_elsewhere(summary, Os::Macos)
            &&& says(s, "on windows"@) && !lin ==> scoped_elsewhere(summary, Os::Linux)
            &&& says(s, "on linux"@) && !mac ==> scoped_elsewhere(summary, Os::Macos)
            &&& says(s, "on linux"@) && !win ==> scoped_elsewhere(summary, Os::Windows)
            &&& mac ==> !scoped_elsewhere(summary, Os::Macos)
            &&& win ==> !scoped_elsewhere(summary, Os::Windows)
            &&& lin ==> !scoped_elsewhere(summary, Os::Linux)
            &&& !on_mobile && !on_mac && !says(s, "on windows"@) && !says(s, "on linux"@) ==> (
            forall|os: Os| !#[trigger] scoped_elsewhere(summary, os))
        }),
{
}

/// A phrase is said where it stands as whole words.
pub proof fn lemma_says_whole_words(a: Seq<char>, p: Seq<char>, b: Seq<char>)
    requires
        a.len() > 0 ==> !('a' <= a.last() <= 'z' || 'A' <= a.last() <= 'Z' || '0' <= a.last() <= '9'),
        b.len() > 0 ==> !('a' <= b[0] <= 'z' || 'A' <= b[0] <= 'Z' || '0' <= b[0] <= '9'),
    ensures
        says(a + p + b, p),
{
    let s = a + p + b;
    assert(s.subrange(a.len() as int, (a.len() + p.len()) as int) =~= p);
    assert(words_at(s, p, a.len() as int));
}

/// A phrase that only stands inside longer words is not said.
pub proof fn lemma_part_of_a_word_is_not_said(s: Seq<char>, p: Seq<char>)
    requires
        forall|i: int| #[trigger]
            stands_at(s, p, i) ==> (i > 0 && ('a' <= s[i - 1] <= 'z' || '0' <= s[i - 1] <= '9')) || (i
                + p.len() < s.len() && ('a' <= s[i + p.len()] <= 'z' || '0' <= s[i + p.len()]
                <= '9')),
    ensures
        !says(s, p),
{
}

// ---------- age -------------------------------------------------------------

/// An advisory published in a year of four digits is kept exactly while that year is at most
/// so many years back.
pub proof fn lemma_age_counts_in_years(
    list: Seq<AdvisoryView>,
    a: AdvisoryView,
    year: nat,
    rest: Seq<char>,
    max: u32,
    now: u64,
)
    requires
        list.contains(a),
        1000 <= year <= 9999,
        a.published == Some(decimal(year) + rest),
        year_at(now as nat) <= u32::MAX,
    ensures
        kept(list, recency(Some(max), now)).contains(a) <==> year + max >= year_at(now as nat),
{
    lemma_numeral_reads_back(year, 10);
    reveal_with_fuel(crate::num::numeral, 5);
    assert(decimal(year).len() == 4);
    let s = decimal(year) + rest;
    assert(s.take(4) =~= decimal(year));
    assert(digit(decimal(year)[0], 10) is Some);
    lemma_kept_members(list, recency(Some(max), now), a);
}

/// An answer stays fresh for a day.
pub proof fn lemma_fresh_for_a_day(stored_at: u64, now: u64)
    ensures
        fresh(stored_at, now) <==> now <= stored_at + 24 * 60 * 60,
{
}

// ---------- CEF -------------------------------------------------------------

/// CEF's own version carries that of Chromium behind its name.
pub proof fn lemma_cef_carries_chromium(head: Seq<char>, v: Seq<char>, rest: Seq<char>)
    requires
        is_dotted(v),
        forall|i: int| 0 <= i < v.len() ==> '0' <= #[trigger] v[i] <= '9' || v[i] == '.',
        rest.len() > 0 ==> !('0' <= rest[0] <= '9') && rest[0] != '.',
        forall|j: int|
            0 <= j < head.len() ==> !stands_at(head + "chromium-"@ + v + rest, "chromium-"@, j),
    ensures
        cef_build(head + "chromium-"@ + v + rest) == Some(v),
{
    let p = "chromium-"@;
    let s = head + p + v + rest;
    assert(s.subrange(head.len() as int, (head.len() + p.len()) as int) =~= p);
    lemma_first_stand(s, p, 0);
    assert(stands_at(s, p, head.len() as int));
    assert(first_stand(s, p, 0) == Some(head.len() as int));
    let from = head.len() + p.len();
    let end = from + v.len();
    assert forall|j: int| from <= j < end implies '0' <= #[trigger] s[j] <= '9' || s[j] == '.' by {
        assert(s[j] == v[j - from]);
    }
    if end < s.len() {
        assert(s[end as int] == rest[0]);
    }
    lemma_version_run(s, from as int, end as int);
    assert(s.subrange(from as int, end as int) =~= v);
}

// ---------- severity --------------------------------------------------------

/// Severities go by their names, however they are capitalised; "moderate" is another word
/// for medium.
pub proof fn lemma_severity_names(name: Seq<char>)
    ensures
        upper(name) == "CRITICAL"@ <==> severity_named(name) == Some(Severity::Critical),
        upper(name) == "HIGH"@ <==> severity_named(name) == Some(Severity::High),
        upper(name) == "MEDIUM"@ || upper(name) == "MODERATE"@ <==> severity_named(name) == Some(
            Severity::Medium,
        ),
        upper(name) == "LOW"@ <==> severity_named(name) == Some(Severity::Low),
        severity_named(upper(name)) == severity_named(name),
{
    reveal_strlit("CRITICAL");
    reveal_strlit("HIGH");
    reveal_strlit("MEDIUM");
    reveal_strlit("MODERATE");
    reveal_strlit("LOW");
    assert("CRITICAL"@.len() == 8 && "HIGH"@.len() == 4 && "MEDIUM"@.len() == 6 && "MODERATE"@.len()
        == 8 && "LOW"@.len() == 3);
    assert("CRITICAL"@[0] == 'C' && "MODERATE"@[0] == 'M');
    assert(upper(upper(name)) =~= upper(name));
}

// ---------- snapshot --------------------------------------------------------

proof fn lemma_open_members(list: Seq<AdvisoryView>, version: Seq<char>, a: AdvisoryView)
    ensures
        open_advisories(list, version).contains(a) <==> list.contains(a) && open_for(a, version),
    decreases list.len(),
{
    if list.len() > 0 {
        let rest = list.drop_last();
        let x = list.last();
        lemma_open_members(rest, version, a);
        let before = open_advisories(rest, version);
        let now = open_advisories(list, version);
        assert(list =~= rest.push(x));
        if list.contains(a) {
            let k = choose|k: int| 0 <= k < list.len() && list[k] == a;
            if k < rest.len() {
                assert(rest[k] == a);
            }
        }
        if rest.contains(a) {
            let k = choose|k: int| 0 <= k < rest.len() && rest[k] == a;
            assert(list[k] == a);
        }
        if now.contains(a) {
            let k = choose|k: int| 0 <= k < now.len() && now[k] == a;
            if k < before.len() {
                assert(before[k] == a);
            } else {
                assert(list[list.len() - 1] == a);
            }
        }
        if before.contains(a) {
            let k = choose|k: int| 0 <= k < before.len() && before[k] == a;
            assert(now[k] == a);
        }
        if x == a && open_for(a, version) {
            assert(now[before.len() as int] == a);
        }
    }
}

/// A snapshot answers with exactly those advisories on a product that the version is not past.
pub proof fn lemma_snapshot_answers(
    products: Seq<(Seq<char>, Seq<AdvisoryView>)>,
    product: Seq<char>,
    version: Seq<char>,
    i: int,
    a: AdvisoryView,
)
    requires
        0 <= i < products.len(),
        products[i].0 == product,
        forall|k: int| 0 <= k < i ==> (#[trigger] products[k]).0 != product,
        version.len() > 0 && '0' <= version[0] <= '9',
        a.fixed_in matches Some(f) ==> f.len() > 0 && '0' <= f[0] <= '9',
    ensures
        answer(products, product, version).contains(a) <==> products[i].1.contains(a) && (
        a.fixed_in matches Some(f) ==> rank(version, f) == Rank::Less),
{
    lemma_product_place(products, product, 0, i);
    lemma_open_members(products[i].1, version, a);
}

proof fn lemma_product_place(
    products: Seq<(Seq<char>, Seq<AdvisoryView>)>,
    product: Seq<char>,
    from: int,
    i: int,
)
    requires
        0 <= from <= i < products.len(),
        products[i].0 == product,
        forall|k: int| 0 <= k < i ==> (#[trigger] products[k]).0 != product,
    ensures
        product_place(products, product, from) == Some(i),
    decreases i - from,
{
    if from < i {
        lemma_product_place(products, product, from + 1, i);
    }
}

/// A number without a dot is no release.
pub proof fn lemma_number_is_no_release(s: Seq<char>)
    requires
        s.len() > 0,
        forall|i: int| 0 <= i < s.len() ==> '0' <= #[trigger] s[i] <= '9',
    ensures
        version_token(s) is None,
{
    let dot = CharClass::Only('.');
    lemma_version_run(s, 0, s.len() as int);
    assert(crate::text::trim_start(s, CharClass::White) == s);
    assert(crate::text::trim(s, CharClass::White) == s);
    assert(s.take(s.len() as int) =~= s);
    assert(crate::text::trim_start(s, dot) == s);
    assert(crate::text::trim(s, dot) == s);
    crate::text::lemma_split_head(s, '.', Seq::empty(), dot);
    assert(split(s, dot) == seq![s]);
    assert(seq![s].drop_last() =~= Seq::empty());
    assert(filled(Seq::empty()) == 0);
}

/// A CEF version that is a Chromium version alone stands for itself.
pub proof fn lemma_plain_cef_version(v: Seq<char>)
    requires
        is_dotted(v),
        v.len() > 0,
        forall|i: int| 0 <= i < v.len() ==> '0' <= #[trigger] v[i] <= '9' || v[i] == '.',
    ensures
        cef_build(v) == Some(v),
{
    reveal_strlit("chromium-");
    crate::text::lemma_first_stand(v, "chromium-"@, 0);
    assert forall|j: int| 0 <= j implies !stands_at(v, "chromium-"@, j) by {
        if stands_at(v, "chromium-"@, j) {
            assert(v.subrange(j, j + 9)[0] == 'c');
            assert(v[j] == 'c');
        }
    }
    assert(crate::text::trim_start(v, CharClass::White) == v);
    assert(crate::text::trim(v, CharClass::White) == v);
}

} // verus!
