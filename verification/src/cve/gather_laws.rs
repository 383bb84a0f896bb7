//! What holds of gathering answers: nothing that was found is lost, and what went wrong is
//! told.

use vstd::prelude::*;

use crate::cve::advisory::{advisories, AdvisoryView, Source};
use crate::cve::cache::{entry_file, key_text, sanitised};
use crate::cve::euvd::{list_items, not_empty, search_term};
use crate::cve::gather::{failures, found, known, outages, Answer};
use crate::cve::plan::{
    answered, covered, runtime, snapshot_key, version_of, LookupView, RUNTIMES,
};
use crate::cve::report::{answer_kind, Bucket, Error, ErrorKind};
use crate::cve::settings::{settings_dir, settings_file, SETTINGS_MODE};
use crate::cve::snapshot::{answer, snapshot_file};
use crate::detect::VersionsView;
use crate::path::pushed;
use crate::text::{lemma_split_head, split, CharClass};

verus! {

proof fn lemma_appended(a: Seq<AdvisoryView>, b: Seq<AdvisoryView>, x: AdvisoryView)
    ensures
        (a + b).contains(x) <==> a.contains(x) || b.contains(x),
{
    let all = a + b;
    if all.contains(x) {
        let i = choose|i: int| 0 <= i < all.len() && all[i] == x;
        if i < a.len() {
            assert(a[i] == x);
        } else {
            assert(b[i - a.len()] == x);
        }
    }
    if a.contains(x) {
        let i = choose|i: int| 0 <= i < a.len() && a[i] == x;
        assert(all[i] == x);
    }
    if b.contains(x) {
        let i = choose|i: int| 0 <= i < b.len() && b[i] == x;
        assert(all[a.len() + i] == x);
    }
}

/// An advisory is found for a runtime exactly where an answer to a lookup for that runtime
/// holds it.
pub proof fn lemma_answers_are_kept(
    plan: Seq<LookupView>,
    answers: Seq<Answer>,
    b: Bucket,
    n: nat,
    a: AdvisoryView,
)
    requires
        n <= answers.len(),
    ensures
        found(plan, answers, b, n).contains(a) <==> exists|k: int|
            0 <= k < n && (#[trigger] answers[k]).1 is Ok && plan[answers[k].0 as int].bucket == b
                && advisories(answers[k].1->Ok_0@).contains(a),
    decreases n,
{
    if n > 0 {
        let m = (n - 1) as nat;
        lemma_answers_are_kept(plan, answers, b, m, a);
        if let Ok(v) = answers[n - 1].1 {
            lemma_appended(found(plan, answers, b, m), advisories(v@), a);
            if plan[answers[n - 1].0 as int].bucket == b && advisories(v@).contains(a) {
                assert(answers[n - 1].1 is Ok);
            }
        }
        if exists|k: int|
            0 <= k < n && (#[trigger] answers[k]).1 is Ok && plan[answers[k].0 as int].bucket == b
                && advisories(answers[k].1->Ok_0@).contains(a) {
            let k = choose|k: int|
                0 <= k < n && (#[trigger] answers[k]).1 is Ok && plan[answers[k].0 as int].bucket == b
                    && advisories(answers[k].1->Ok_0@).contains(a);
            if k < n - 1 {
                assert(answers[k].1 is Ok);
            }
        }
    }
}

/// What a snapshot answers for a runtime is known of it, and of no other.
pub proof fn lemma_known_is_kept(
    answers: Seq<(Bucket, Seq<AdvisoryView>)>,
    b: Bucket,
    n: nat,
    a: AdvisoryView,
)
    requires
        n <= answers.len(),
    ensures
        known(answers, b, n).contains(a) <==> exists|k: int|
            0 <= k < n && (#[trigger] answers[k]).0 == b && answers[k].1.contains(a),
    decreases n,
{
    if n > 0 {
        let m = (n - 1) as nat;
        lemma_known_is_kept(answers, b, m, a);
        lemma_appended(known(answers, b, m), answers[n - 1].1, a);
        if answers[n - 1].0 == b && answers[n - 1].1.contains(a) {
            assert(answers[n - 1].0 == b);
        }
        if exists|k: int| 0 <= k < n && (#[trigger] answers[k]).0 == b && answers[k].1.contains(a) {
            let k = choose|k: int|
                0 <= k < n && (#[trigger] answers[k]).0 == b && answers[k].1.contains(a);
            if k < n - 1 {
                assert(answers[k].0 == b);
            }
        }
    }
}

/// A failure is told of, with the lookup that it befell, exactly where another try would not
/// help.
pub proof fn lemma_failures_are_told(
    plan: Seq<LookupView>,
    answers: Seq<Answer>,
    n: nat,
    m: Seq<char>,
)
    requires
        n <= answers.len(),
    ensures
        failures(plan, answers, n).contains(m) <==> exists|k: int|
            0 <= k < n && (#[trigger] answers[k]).1 is Err && !(answers[k].1->Err_0).transient() && m
                == plan[answers[k].0 as int].prefix + ": "@ + (answers[k].1->Err_0).text(),
    decreases n,
{
    if n > 0 {
        let before = failures(plan, answers, (n - 1) as nat);
        let all = failures(plan, answers, n);
        lemma_failures_are_told(plan, answers, (n - 1) as nat, m);
        if all.contains(m) {
            let i = choose|i: int| 0 <= i < all.len() && all[i] == m;
            if i < before.len() {
                assert(before[i] == m);
            } else {
                assert(answers[n - 1].1 is Err);
            }
        }
        if exists|k: int|
            0 <= k < n && (#[trigger] answers[k]).1 is Err && !(answers[k].1->Err_0).transient() && m
                == plan[answers[k].0 as int].prefix + ": "@ + (answers[k].1->Err_0).text() {
            let k = choose|k: int|
                0 <= k < n && (#[trigger] answers[k]).1 is Err && !(answers[k].1->Err_0).transient()
                    && m == plan[answers[k].0 as int].prefix + ": "@ + (answers[k].1->Err_0).text();
            if k < n - 1 {
                assert(answers[k].1 is Err);
                let i = choose|i: int| 0 <= i < before.len() && before[i] == m;
                assert(all[i] == m);
            } else {
                assert(all[all.len() - 1] == m);
            }
        }
    }
}

/// Whether a lookup at a source failed in passing.
pub open spec fn went_missing(
    plan: Seq<LookupView>,
    answers: Seq<Answer>,
    n: nat,
    source: Source,
) -> bool {
    exists|k: int|
        0 <= k < n && (#[trigger] answers[k]).1 is Err && (answers[k].1->Err_0).transient()
            && plan[answers[k].0 as int].source == source
}

/// A source counts as unavailable exactly where a lookup at it failed in passing.
pub proof fn lemma_outages_are_told(plan: Seq<LookupView>, answers: Seq<Answer>, n: nat)
    requires
        n <= answers.len(),
    ensures
        outages(plan, answers, n).euvd <==> went_missing(plan, answers, n, Source::Euvd),
        outages(plan, answers, n).ghsa <==> went_missing(plan, answers, n, Source::Ghsa),
        outages(plan, answers, n).nvd <==> went_missing(plan, answers, n, Source::Nvd),
        outages(plan, answers, n).osv <==> went_missing(plan, answers, n, Source::Osv),
    decreases n,
{
    if n > 0 {
        let m = (n - 1) as nat;
        lemma_outages_are_told(plan, answers, m);
        lemma_went_missing(plan, answers, n, Source::Euvd);
        lemma_went_missing(plan, answers, n, Source::Ghsa);
        lemma_went_missing(plan, answers, n, Source::Nvd);
        lemma_went_missing(plan, answers, n, Source::Osv);
    }
}

proof fn lemma_went_missing(plan: Seq<LookupView>, answers: Seq<Answer>, n: nat, source: Source)
    requires
        0 < n <= answers.len(),
    ensures
        went_missing(plan, answers, n, source) <==> went_missing(
            plan,
            answers,
            (n - 1) as nat,
            source,
        ) || (answers[n - 1].1 is Err && (answers[n - 1].1->Err_0).transient()
            && plan[answers[n - 1].0 as int].source == source),
{
    if went_missing(plan, answers, n, source) {
        let k = choose|k: int|
            0 <= k < n && (#[trigger] answers[k]).1 is Err && (answers[k].1->Err_0).transient()
                && plan[answers[k].0 as int].source == source;
        if k < n - 1 {
            assert(answers[k].1 is Err);
        }
    }
    if went_missing(plan, answers, (n - 1) as nat, source) {
        let k = choose|k: int|
            0 <= k < n - 1 && (#[trigger] answers[k]).1 is Err && (answers[k].1->Err_0).transient()
                && plan[answers[k].0 as int].source == source;
        assert(answers[k].1 is Err);
    }
}

/// A refusal that may pass makes a source unavailable; any other is a payload that was not
/// expected.
pub proof fn lemma_refusals(status: u16)
    ensures
        status == 429 ==> answer_kind(status) == ErrorKind::Unavailable,
        500 <= status < 600 ==> answer_kind(status) == ErrorKind::Unavailable,
        status != 429 && !(500 <= status < 600) ==> answer_kind(status) == ErrorKind::BadPayload,
{
}

proof fn lemma_not_empty(parts: Seq<Seq<char>>, x: Seq<char>)
    ensures
        not_empty(parts).contains(x) <==> x.len() > 0 && parts.contains(x),
    decreases parts.len(),
{
    let all = not_empty(parts);
    if parts.len() > 0 {
        let rest = parts.drop_last();
        let before = not_empty(rest);
        lemma_not_empty(rest, x);
        if all.contains(x) {
            let i = choose|i: int| 0 <= i < all.len() && all[i] == x;
            if i < before.len() {
                assert(before[i] == x);
                let k = choose|k: int| 0 <= k < rest.len() && rest[k] == x;
                assert(parts[k] == x);
            } else {
                assert(parts[parts.len() - 1] == x);
            }
        }
        if x.len() > 0 && parts.contains(x) {
            let k = choose|k: int| 0 <= k < parts.len() && parts[k] == x;
            if k < rest.len() {
                assert(rest[k] == x);
                let i = choose|i: int| 0 <= i < before.len() && before[i] == x;
                assert(all[i] == x);
            } else {
                assert(all[all.len() - 1] == x);
            }
        }
    }
}

/// The items of a list are what stands between its commas, semicolons and white space.
pub proof fn lemma_list_items(head: Seq<char>, c: char, rest: Seq<char>, x: Seq<char>)
    requires
        head.len() > 0,
        forall|i: int| 0 <= i < head.len() ==> !CharClass::ListBreak.has(#[trigger] head[i]),
        c == ',' || c == ';' || c == ' ' || c == '\n',
    ensures
        list_items(Some(head)) == seq![head],
        list_items(Some(head.push(c) + rest)).contains(x) <==> x == head || list_items(
            Some(rest),
        ).contains(x),
        list_items(None).len() == 0,
{
    let class = CharClass::ListBreak;
    lemma_split_head(head, c, rest, class);
    assert(seq![head].drop_last() =~= Seq::empty());
    assert(not_empty(Seq::empty()) == Seq::<Seq<char>>::empty());
    let all = split(head.push(c) + rest, class);
    let tail = split(rest, class);
    lemma_not_empty(all, x);
    lemma_not_empty(tail, x);
    if all.contains(x) {
        let k = choose|k: int| 0 <= k < all.len() && all[k] == x;
        if k > 0 {
            assert(tail[k - 1] == x);
        }
    }
    if tail.contains(x) {
        let k = choose|k: int| 0 <= k < tail.len() && tail[k] == x;
        assert(all[k + 1] == x);
    }
    assert(all[0] == head);
}

/// A search term has plus signs for its spaces and is otherwise as it was.
pub proof fn lemma_search_term(s: Seq<char>, i: int)
    requires
        0 <= i < s.len(),
    ensures
        search_term(s).len() == s.len(),
        s[i] == ' ' ==> search_term(s)[i] == '+',
        s[i] != ' ' ==> search_term(s)[i] == s[i],
{
}

/// Where things are kept: each cached answer by its own key, the snapshot and the settings
/// beside them.
pub proof fn lemma_where_things_are_kept(dir: Seq<char>, key: Seq<char>)
    requires
        dir.len() > 0,
        dir.last() != '/',
    ensures
        entry_file(Some(dir), key) == Some(dir + "/achilles/cve/"@ + key + ".json"@),
        snapshot_file(Some(dir)) == Some(dir + "/achilles/vdb-snapshot.json"@),
        settings_dir(dir) == dir + "/achilles"@,
        settings_file(Some(dir)) == Some(pushed(settings_dir(dir), "settings.json"@)),
        entry_file(None, key) is None && snapshot_file(None) is None,
        SETTINGS_MODE == 0o600,
{
    reveal_strlit("achilles");
    reveal_strlit("cve");
    reveal_strlit(".json");
    reveal_strlit("vdb-snapshot.json");
    reveal_strlit("/achilles");
    reveal_strlit("/achilles/cve/");
    reveal_strlit("/achilles/vdb-snapshot.json");
    let a = pushed(dir, "achilles"@);
    assert(a =~= dir + "/achilles"@);
    assert(a.last() == 's');
    let c = pushed(a, "cve"@);
    assert(c.last() == 'e');
    assert(pushed(c, key + ".json"@) =~= dir + "/achilles/cve/"@ + key + ".json"@);
    assert(pushed(a, "vdb-snapshot.json"@) =~= dir + "/achilles/vdb-snapshot.json"@);
}

/// A lookup's key names the source, the vendor, the product and the version, in that order.
pub proof fn lemma_lookup_key(source: Seq<char>, vendor: Seq<char>, product: Seq<char>, version: Seq<char>)
    requires
        !source.contains('-') && !vendor.contains('-') && !product.contains('-') && !version.contains(
            '-',
        ),
    ensures
        split(key_text(source, vendor, product, version), CharClass::Only('-')) == seq![
            source,
            vendor,
            product,
            version,
        ],
{
    reveal_strlit("-");
    let dash = CharClass::Only('-');
    let k = key_text(source, vendor, product, version);
    let two = product.push('-') + version;
    let three = vendor.push('-') + two;
    assert(k =~= source.push('-') + three);
    assert forall|i: int| 0 <= i < source.len() implies !dash.has(#[trigger] source[i]) by {
        assert(source.contains(source[i]));
    }
    assert forall|i: int| 0 <= i < vendor.len() implies !dash.has(#[trigger] vendor[i]) by {
        assert(vendor.contains(vendor[i]));
    }
    assert forall|i: int| 0 <= i < product.len() implies !dash.has(#[trigger] product[i]) by {
        assert(product.contains(product[i]));
    }
    assert forall|i: int| 0 <= i < version.len() implies !dash.has(#[trigger] version[i]) by {
        assert(version.contains(version[i]));
    }
    lemma_split_head(source, '-', three, dash);
    lemma_split_head(vendor, '-', two, dash);
    lemma_split_head(product, '-', version, dash);
    lemma_split_head(version, '-', Seq::empty(), dash);
    assert(split(k, dash) =~= seq![source, vendor, product, version]);
}

/// A key's safe form keeps letters, digits and a few signs, and writes everything else as an
/// underscore, so that it names a file and no directory.
pub proof fn lemma_safe_keys(key: Seq<char>, i: int)
    requires
        0 <= i < key.len(),
    ensures
        ({
            let c = key[i];
            let plain = 'a' <= c <= 'z' || 'A' <= c <= 'Z' || '0' <= c <= '9' || c == '-' || c == '.' || c
                == '_' || c == '@';
            &&& plain ==> sanitised(key)[i] == c
            &&& !plain ==> sanitised(key)[i] == '_'
        }),
        !sanitised(key).contains('/') && !sanitised(key).contains('\\'),
{
}

// ---------- what the snapshot answers ---------------------------------------

/// A snapshot is asked for every runtime that it covers and whose version is known, about that
/// runtime's product and that version, and for no other.
pub proof fn lemma_snapshot_is_asked(
    v: VersionsView,
    products: Seq<(Seq<char>, Seq<AdvisoryView>)>,
    n: nat,
    b: Bucket,
    list: Seq<AdvisoryView>,
)
    ensures
        answered(v, products, n).contains((b, list)) <==> (exists|k: int|
            0 <= k < n && #[trigger] runtime(k) == b) && covered(Some(products), b) && (version_of(v, b)
            matches Some(x) && list == answer(products, snapshot_key(b), x)),
    decreases n,
{
    let all = answered(v, products, n);
    if n > 0 {
        let before = answered(v, products, (n - 1) as nat);
        lemma_snapshot_is_asked(v, products, (n - 1) as nat, b, list);
        if all.contains((b, list)) {
            let i = choose|i: int| 0 <= i < all.len() && all[i] == (b, list);
            if i < before.len() {
                assert(before[i] == (b, list));
                let k = choose|k: int| 0 <= k < n - 1 && #[trigger] runtime(k) == b;
                assert(runtime(k) == b);
            } else {
                assert(runtime(n - 1) == b);
            }
        }
        if before.contains((b, list)) {
            let i = choose|i: int| 0 <= i < before.len() && before[i] == (b, list);
            assert(all[i] == (b, list));
        }
        if exists|k: int| 0 <= k < n && #[trigger] runtime(k) == b {
            let k = choose|k: int| 0 <= k < n && #[trigger] runtime(k) == b;
            if k < n - 1 {
                assert(runtime(k) == b);
            } else if covered(Some(products), b) && version_of(v, b) is Some {
                assert(all[before.len() as int].0 == b);
                assert(all.contains(all[before.len() as int]));
            }
        }
    }
}

/// No runtime is asked about twice.
pub proof fn lemma_runtimes_differ(i: int, j: int)
    requires
        0 <= i < j < RUNTIMES,
    ensures
        runtime(i) != runtime(j),
{
}

/// An error's message says which kind it is and what went wrong, and no two kinds read alike.
pub proof fn lemma_error_text(a: Error, b: Error)
    ensures
        a matches Error::Http(e) ==> a.text() == "http error: "@ + e.message@,
        a matches Error::BadPayload(m) ==> a.text() == "unexpected payload: "@ + m@,
        a matches Error::Unavailable(m) ==> a.text() == "temporarily unavailable: "@ + m@,
        a is Http && b !is Http ==> a.text() != b.text(),
        a is BadPayload && b is Unavailable ==> a.text() != b.text(),
{
    reveal_strlit("http error: ");
    reveal_strlit("unexpected payload: ");
    reveal_strlit("temporarily unavailable: ");
    let x = a.text();
    let y = b.text();
    assert(a is Http ==> x[0] == 'h');
    assert(a is BadPayload ==> x[0] == 'u');
    assert(b is BadPayload ==> y[0] == 'u');
    assert(b is Unavailable ==> y[0] == 't');
}

} // verus!
