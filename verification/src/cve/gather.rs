//! A report on an application, from the answers to its lookups.

use vstd::prelude::*;

use crate::cve::advisory::{advisories, Advisory, AdvisoryView};
use crate::cve::filter::{finalize, kept, lemma_kept_append, recency, relevance};
use crate::cve::plan::{
    answered, answers_view, lookups, planned, runtime, snap_view, snapshot_answers, version_of,
    Lookup, LookupView, RUNTIMES,
};
use crate::cve::report::{Bucket, CveReport, Error, Outages, Session};
use crate::cve::settings::SourceSettings;
use crate::cve::snapshot::Snapshot;
use crate::cve::version::Os;
use crate::detect::{Versions, VersionsView};
use crate::text::texts;

verus! {

/// What came of a lookup, by its place in the plan.
pub type Answer = (usize, Result<Vec<Advisory>, Error>);

/// What the first `n` of a snapshot's answers hold for a runtime.
pub open spec fn known(answers: Seq<(Bucket, Seq<AdvisoryView>)>, b: Bucket, n: nat) -> Seq<
    AdvisoryView,
>
    decreases n,
{
    if n == 0 || n > answers.len() {
        Seq::empty()
    } else if answers[n - 1].0 == b {
        known(answers, b, (n - 1) as nat) + answers[n - 1].1
    } else {
        known(answers, b, (n - 1) as nat)
    }
}

/// What the first `n` answers hold for a runtime, in the order in which they came.
pub open spec fn found(plan: Seq<LookupView>, answers: Seq<Answer>, b: Bucket, n: nat) -> Seq<
    AdvisoryView,
>
    decreases n,
{
    if n == 0 || n > answers.len() {
        Seq::empty()
    } else {
        let before = found(plan, answers, b, (n - 1) as nat);
        match answers[n - 1].1 {
            Ok(v) => if plan[answers[n - 1].0 as int].bucket == b {
                before + advisories(v@)
            } else {
                before
            },
            Err(_) => before,
        }
    }
}

/// The messages of the lasting failures among the first `n` answers.
pub open spec fn failures(plan: Seq<LookupView>, answers: Seq<Answer>, n: nat) -> Seq<Seq<char>>
    decreases n,
{
    if n == 0 || n > answers.len() {
        Seq::empty()
    } else {
        let before = failures(plan, answers, (n - 1) as nat);
        match answers[n - 1].1 {
            Err(e) => if e.transient() {
                before
            } else {
                before.push(plan[answers[n - 1].0 as int].prefix + ": "@ + e.text())
            },
            Ok(_) => before,
        }
    }
}

/// The sources that were unavailable among the first `n` answers.
pub open spec fn outages(plan: Seq<LookupView>, answers: Seq<Answer>, n: nat) -> Outages
    decreases n,
{
    if n == 0 || n > answers.len() {
        Outages { euvd: false, ghsa: false, nvd: false, osv: false }
    } else {
        let before = outages(plan, answers, (n - 1) as nat);
        match answers[n - 1].1 {
            Err(e) => if e.transient() {
                before.with(plan[answers[n - 1].0 as int].source)
            } else {
                before
            },
            Ok(_) => before,
        }
    }
}

/// What the snapshot, where there is one, answers, each with its runtime.
pub open spec fn snapshot_list(versions: Versions, snapshot: Option<&Snapshot>) -> Seq<
    (Bucket, Seq<AdvisoryView>),
> {
    match snapshot {
        Some(s) => answered(versions@, s@, RUNTIMES as nat),
        None => Seq::empty(),
    }
}

/// What is shown of the advisories found for a runtime: those that concern it, and are
/// recent enough.
pub open spec fn shown(
    all: Seq<AdvisoryView>,
    b: Bucket,
    v: VersionsView,
    os: Os,
    max_age_years: Option<u32>,
    now: u64,
) -> Seq<AdvisoryView> {
    kept(kept(all, relevance(b, v, os)), recency(max_age_years, now))
}

/// Whether a report shows what a session holds.
pub open spec fn is_shown(
    r: CveReport,
    s: Session,
    v: VersionsView,
    os: Os,
    max_age_years: Option<u32>,
    now: u64,
) -> bool {
    &&& forall|b: Bucket| #[trigger]
        r.bucket(b) == shown(s.report.bucket(b), b, v, os, max_age_years, now)
    &&& texts(r.errors@) == texts(s.report.errors@)
    &&& texts(r.unavailable@) == s.outages.names()
}

/// What is asked about an application, and what comes back: what the snapshot answers, the
/// lookups that are left, and their answers in the order in which they came.
#[verifier::ext_equal]
pub ghost struct Course {
    pub versions: VersionsView,
    pub known: Seq<(Bucket, Seq<AdvisoryView>)>,
    pub plan: Seq<LookupView>,
    pub answers: Seq<Answer>,
    pub os: Os,
    pub max_age_years: Option<u32>,
    pub now: u64,
}

impl Course {
    /// How many lookups finish.
    pub open spec fn finished(self) -> nat {
        self.known.len() + self.answers.len()
    }

    /// How many of the first `i` lookups to finish the snapshot answers: its answers are at
    /// hand, so they come first.
    pub open spec fn known_among(self, i: nat) -> nat {
        if i <= self.known.len() {
            i
        } else {
            self.known.len()
        }
    }

    /// What the first `i` lookups to finish found for a runtime.
    pub open spec fn raw(self, b: Bucket, i: nat) -> Seq<AdvisoryView> {
        known(self.known, b, self.known_among(i)) + found(
            self.plan,
            self.answers,
            b,
            (i - self.known_among(i)) as nat,
        )
    }

    /// The lasting failures among the first `i` lookups to finish.
    pub open spec fn errors(self, i: nat) -> Seq<Seq<char>> {
        failures(self.plan, self.answers, (i - self.known_among(i)) as nat)
    }

    /// The sources that were unavailable to the first `i` lookups to finish.
    pub open spec fn missing(self, i: nat) -> Outages {
        outages(self.plan, self.answers, (i - self.known_among(i)) as nat)
    }

    /// Whether a session holds what the first `i` lookups to finish brought.
    pub open spec fn holds(self, s: Session, i: nat) -> bool {
        &&& s.consistent()
        &&& forall|b: Bucket| #[trigger] s.report.bucket(b) == self.raw(b, i)
        &&& texts(s.report.errors@) == self.errors(i)
        &&& s.outages == self.missing(i)
    }

    /// Whether a report is the one to show once `i` lookups have finished.
    pub open spec fn reports(self, r: CveReport, i: nat) -> bool {
        &&& forall|b: Bucket| #[trigger]
            r.bucket(b) == shown(
                self.raw(b, i),
                b,
                self.versions,
                self.os,
                self.max_age_years,
                self.now,
            )
        &&& texts(r.errors@) == self.errors(i)
        &&& texts(r.unavailable@) == self.missing(i).names()
    }
}

/// The course that a plan and its answers take.
pub open spec fn course(
    versions: Versions,
    snapshot: Option<&Snapshot>,
    plan: Seq<Lookup>,
    answers: Seq<Answer>,
    os: Os,
    max_age_years: Option<u32>,
    now: u64,
) -> Course {
    Course {
        versions: versions@,
        known: snapshot_list(versions, snapshot),
        plan: lookups(plan),
        answers,
        os,
        max_age_years,
        now,
    }
}

/// Takes what the snapshot answers for a runtime, and gives the report to show for it.
pub fn take_known(
    session: &mut Session,
    bucket: Bucket,
    found: Vec<Advisory>,
    versions: &Versions,
    os: Os,
    max_age_years: Option<u32>,
    now: u64,
) -> (r: CveReport)
    requires
        old(session).consistent(),
    ensures
        final(session).consistent(),
        forall|c: Bucket| #[trigger]
            final(session).report.bucket(c) == if c == bucket {
                old(session).report.bucket(c) + advisories(found@)
            } else {
                old(session).report.bucket(c)
            },
        final(session).report.errors == old(session).report.errors,
        final(session).outages == old(session).outages,
        is_shown(r, *final(session), versions@, os, max_age_years, now),
{
    session.answer(bucket, found);
    finalize(&session.report, versions, os, max_age_years, now)
}

/// Takes what came of a lookup, and gives the report to show for it.
pub fn take_answer(
    session: &mut Session,
    lookup: &Lookup,
    result: Result<Vec<Advisory>, Error>,
    versions: &Versions,
    os: Os,
    max_age_years: Option<u32>,
    now: u64,
) -> (r: CveReport)
    requires
        old(session).consistent(),
    ensures
        final(session).consistent(),
        forall|c: Bucket| #[trigger]
            final(session).report.bucket(c) == match result {
                Ok(found) if c == lookup.bucket => old(session).report.bucket(c) + advisories(
                    found@,
                ),
                _ => old(session).report.bucket(c),
            },
        texts(final(session).report.errors@) == match result {
            Err(e) if !e.transient() => texts(old(session).report.errors@).push(
                lookup.prefix@ + ": "@ + e.text(),
            ),
            _ => texts(old(session).report.errors@),
        },
        final(session).outages == match result {
            Err(e) if e.transient() => old(session).outages.with(lookup.source),
            _ => old(session).outages,
        },
        is_shown(r, *final(session), versions@, os, max_age_years, now),
{
    session.absorb(lookup.bucket, lookup.source, lookup.prefix.as_str(), result);
    finalize(&session.report, versions, os, max_age_years, now)
}

/// The answers of the snapshot, where there is one.
fn at_hand(versions: &Versions, snapshot: Option<&Snapshot>) -> (r: Vec<(Bucket, Vec<Advisory>)>)
    ensures
        answers_view(r@) == snapshot_list(*versions, snapshot),
{
    match snapshot {
        Some(s) => snapshot_answers(versions, s),
        None => {
            let none: Vec<(Bucket, Vec<Advisory>)> = Vec::new();
            assert(answers_view(none@) =~= Seq::empty());
            none
        },
    }
}

/// Every report that is shown while the answers come in, in that order, and the report that
/// they make in the end. One is shown each time a lookup finishes, filtered exactly like
/// the last, so that a slow source does not hold up the others; a lookup that the snapshot
/// answers finishes too.
pub fn report_for_streaming(
    versions: &Versions,
    snapshot: Option<&Snapshot>,
    plan: &Vec<Lookup>,
    answers: Vec<Answer>,
    os: Os,
    max_age_years: Option<u32>,
    now: u64,
) -> (r: (Vec<CveReport>, CveReport))
    requires
        forall|i: int| 0 <= i < answers@.len() ==> (#[trigger] answers@[i]).0 < plan@.len(),
    ensures
        ({
            let c = course(*versions, snapshot, plan@, answers@, os, max_age_years, now);
            &&& r.0@.len() == c.finished()
            &&& forall|i: int|
                0 <= i < r.0@.len() ==> c.reports(#[trigger] r.0@[i], (i + 1) as nat)
            &&& c.reports(r.1, c.finished())
        }),
{
    let ghost c = course(*versions, snapshot, plan@, answers@, os, max_age_years, now);
    let mut emitted: Vec<CveReport> = Vec::new();
    let mut session = Session::new();
    let list = at_hand(versions, snapshot);
    let mut rest = list;
    let n = rest.len();
    let mut i: usize = 0;
    assert(rest@ =~= list@.skip(0));
    assert forall|b: Bucket| #[trigger] session.report.bucket(b) == c.raw(b, 0) by {
        assert(c.raw(b, 0) =~= Seq::empty());
    }
    while i < n
        invariant
            i <= n,
            n == list@.len(),
            rest@ == list@.skip(i as int),
            c == course(*versions, snapshot, plan@, answers@, os, max_age_years, now),
            c.known == answers_view(list@),
            c.holds(session, i as nat),
            emitted@.len() == i,
            forall|k: int|
                0 <= k < emitted@.len() ==> c.reports(#[trigger] emitted@[k], (k + 1) as nat),
        decreases n - i,
    {
        let ghost before = session;
        let a = rest.remove(0);
        assert(a == list@[i as int]);
        assert(rest@ =~= list@.skip(i + 1));
        assert(c.known[i as int] == (a.0, advisories((a.1)@)));
        let (bucket, advisories) = a;
        let report = take_known(
            &mut session,
            bucket,
            advisories,
            versions,
            os,
            max_age_years,
            now,
        );
        assert forall|b: Bucket| #[trigger] session.report.bucket(b) == c.raw(
            b,
            (i + 1) as nat,
        ) by {
            assert(before.report.bucket(b) == c.raw(b, i as nat));
            assert(session.report.bucket(b) =~= c.raw(b, (i + 1) as nat));
        }
        assert(c.reports(report, (i + 1) as nat));
        emitted.push(report);
        i = i + 1;
    }
    let mut left = answers;
    let m = left.len();
    let mut j: usize = 0;
    assert(left@ =~= answers@.skip(0));
    while j < m
        invariant
            j <= m,
            m == answers@.len(),
            n == c.known.len(),
            left@ == answers@.skip(j as int),
            c == course(*versions, snapshot, plan@, answers@, os, max_age_years, now),
            forall|k: int| 0 <= k < answers@.len() ==> (#[trigger] answers@[k]).0 < plan@.len(),
            c.holds(session, (n + j) as nat),
            emitted@.len() == n + j,
            forall|k: int|
                0 <= k < emitted@.len() ==> c.reports(#[trigger] emitted@[k], (k + 1) as nat),
        decreases m - j,
    {
        let ghost before = session;
        let a = left.remove(0);
        assert(a == answers@[j as int]);
        assert(left@ =~= answers@.skip(j + 1));
        let (at, result) = a;
        let l = &plan[at];
        assert(c.plan[at as int] == l@);
        let report = take_answer(&mut session, l, result, versions, os, max_age_years, now);
        assert forall|b: Bucket| #[trigger] session.report.bucket(b) == c.raw(
            b,
            (n + j + 1) as nat,
        ) by {
            assert(before.report.bucket(b) == c.raw(b, (n + j) as nat));
            assert(session.report.bucket(b) =~= c.raw(b, (n + j + 1) as nat));
        }
        assert(c.holds(session, (n + j + 1) as nat));
        assert(c.reports(report, (n + j + 1) as nat));
        emitted.push(report);
        j = j + 1;
    }
    let report = finalize(&session.report, versions, os, max_age_years, now);
    (emitted, report)
}

/// The report that the answers to a plan make, in the order in which they came, together
/// with what the snapshot answers.
pub fn report_for(
    versions: &Versions,
    snapshot: Option<&Snapshot>,
    plan: &Vec<Lookup>,
    answers: Vec<Answer>,
    os: Os,
    max_age_years: Option<u32>,
    now: u64,
) -> (r: CveReport)
    requires
        forall|i: int| 0 <= i < answers@.len() ==> (#[trigger] answers@[i]).0 < plan@.len(),
    ensures
        ({
            let c = course(*versions, snapshot, plan@, answers@, os, max_age_years, now);
            c.reports(r, c.finished())
        }),
{
    report_for_streaming(versions, snapshot, plan, answers, os, max_age_years, now).1
}

/// The last report that is shown while answers come in is the report that they make: it
/// shows the same advisories, errors and missing sources.
pub proof fn lemma_last_shown_is_final(c: Course, emitted: Seq<CveReport>, last: CveReport)
    requires
        emitted.len() == c.finished(),
        forall|i: int|
            0 <= i < emitted.len() ==> c.reports(#[trigger] emitted[i], (i + 1) as nat),
        c.reports(last, c.finished()),
        c.finished() > 0,
    ensures
        forall|b: Bucket| #[trigger] emitted.last().bucket(b) == last.bucket(b),
        texts(emitted.last().errors@) == texts(last.errors@),
        texts(emitted.last().unavailable@) == texts(last.unavailable@),
{
    assert(c.reports(emitted[emitted.len() - 1], c.finished()));
}

/// Where no version of any runtime is known, nothing is looked up: the plan is empty and so
/// is what the snapshot answers. No report is then shown on the way, and the one that is
/// made is empty.
pub proof fn lemma_nothing_to_look_up(
    versions: Versions,
    sources: SourceSettings,
    snapshot: Option<&Snapshot>,
    plan: Seq<Lookup>,
    answers: Seq<Answer>,
    os: Os,
    max_age_years: Option<u32>,
    now: u64,
    r: CveReport,
)
    requires
        forall|b: Bucket| version_of(versions@, b) is None,
        lookups(plan) == planned(versions@, sources, snap_view(snapshot), RUNTIMES as nat),
        forall|i: int| 0 <= i < answers.len() ==> (#[trigger] answers[i]).0 < plan.len(),
        course(versions, snapshot, plan, answers, os, max_age_years, now).reports(
            r,
            course(versions, snapshot, plan, answers, os, max_age_years, now).finished(),
        ),
    ensures
        plan.len() == 0,
        course(versions, snapshot, plan, answers, os, max_age_years, now).finished() == 0,
        forall|b: Bucket| #[trigger] r.bucket(b) == Seq::<AdvisoryView>::empty(),
        texts(r.errors@) == Seq::<Seq<char>>::empty(),
        texts(r.unavailable@) == Seq::<Seq<char>>::empty(),
{
    let c = course(versions, snapshot, plan, answers, os, max_age_years, now);
    lemma_none_planned(versions@, sources, snap_view(snapshot), RUNTIMES as nat);
    if let Some(s) = snapshot {
        lemma_none_answered(versions@, s@, RUNTIMES as nat);
    }
    assert(lookups(plan).len() == plan.len());
    assert(answers.len() == 0) by {
        if answers.len() > 0 {
            assert(answers[0].0 < plan.len());
        }
    }
    assert forall|b: Bucket| #[trigger] r.bucket(b) == Seq::<AdvisoryView>::empty() by {
        assert(c.raw(b, 0) =~= Seq::empty());
        assert(kept(Seq::empty(), relevance(b, versions@, os)) =~= Seq::empty());
        assert(kept(Seq::empty(), recency(max_age_years, now)) =~= Seq::empty());
    }
    assert(c.missing(0).names() =~= Seq::empty());
}

proof fn lemma_none_planned(
    v: VersionsView,
    s: SourceSettings,
    snap: Option<Seq<(Seq<char>, Seq<AdvisoryView>)>>,
    n: nat,
)
    requires
        forall|b: Bucket| version_of(v, b) is None,
    ensures
        planned(v, s, snap, n).len() == 0,
    decreases n,
{
    if n > 0 {
        lemma_none_planned(v, s, snap, (n - 1) as nat);
        assert(version_of(v, runtime(n - 1)) is None);
    }
}

proof fn lemma_none_answered(
    v: VersionsView,
    products: Seq<(Seq<char>, Seq<AdvisoryView>)>,
    n: nat,
)
    requires
        forall|b: Bucket| version_of(v, b) is None,
    ensures
        answered(v, products, n).len() == 0,
    decreases n,
{
    if n > 0 {
        lemma_none_answered(v, products, (n - 1) as nat);
        assert(version_of(v, runtime(n - 1)) is None);
    }
}

/// What fewer lookups found for a runtime starts what more of them found.
proof fn lemma_raw_grows(c: Course, b: Bucket, m: nat, n: nat)
    requires
        m <= n <= c.finished(),
    ensures
        c.raw(b, m).is_prefix_of(c.raw(b, n)),
    decreases n - m,
{
    if m < n {
        lemma_raw_grows(c, b, m, (n - 1) as nat);
        assert(c.raw(b, (n - 1) as nat).is_prefix_of(c.raw(b, n)));
    }
}

/// Results stream in: a report shown after more lookups have finished shows, for each
/// runtime, all that one shown earlier does, in the same places, and maybe more behind it.
pub proof fn lemma_stream_only_grows(
    c: Course,
    early: CveReport,
    late: CveReport,
    b: Bucket,
    m: nat,
    n: nat,
)
    requires
        m <= n <= c.finished(),
        c.reports(early, m),
        c.reports(late, n),
    ensures
        early.bucket(b).is_prefix_of(late.bucket(b)),
{
    lemma_raw_grows(c, b, m, n);
    let more = c.raw(b, n).skip(c.raw(b, m).len() as int);
    let keep = relevance(b, c.versions, c.os);
    assert(c.raw(b, n) =~= c.raw(b, m) + more);
    lemma_kept_append(c.raw(b, m), more, keep);
    lemma_kept_append(
        kept(c.raw(b, m), keep),
        kept(more, keep),
        recency(c.max_age_years, c.now),
    );
}

} // verus!
