//! Hold what the analyzers found against a human-verified list of expected findings.
//!
//! The expectation is a lower bound: a fresh run must still surface everything listed, but
//! may also surface more. Values are compared as the JSON they are written in.

use vstd::prelude::*;

use crate::text::{any_same, concat, concat3, opt_text, same, texts};

verus! {

/// An expected value: how it is called, and what it is compared by: the JSON it is written
/// in or, for a rule, the rule itself.
#[derive(Debug)]
pub struct Item {
    pub label: String,
    pub json: String,
}

/// The model of an [`Item`].
pub struct ItemView {
    pub label: Seq<char>,
    pub json: Seq<char>,
}

impl View for Item {
    type V = ItemView;

    open spec fn view(&self) -> ItemView {
        ItemView { label: self.label@, json: self.json@ }
    }
}

/// The models of a list of items.
pub open spec fn item_views(v: Seq<Item>) -> Seq<ItemView> {
    v.map_values(|i: Item| i@)
}

/// What is expected.
#[derive(Debug)]
pub struct Expected {
    pub framework: String,
    /// None where it is not stated.
    pub confidence: Option<String>,
    /// By runtime.
    pub versions: Vec<Item>,
    /// Rules that must have fired.
    pub findings: Vec<Item>,
    /// Names with the JSON of name and version.
    pub dependencies: Vec<Item>,
    pub arbitrary_loads: Option<bool>,
    pub url_schemes: Vec<Item>,
    pub tls_domains: Vec<Item>,
    pub archive: Item,
    pub archive_matches: bool,
}

/// The model of an [`Expected`].
pub struct ExpectedView {
    pub framework: Seq<char>,
    pub confidence: Option<Seq<char>>,
    pub versions: Seq<ItemView>,
    pub findings: Seq<ItemView>,
    pub dependencies: Seq<ItemView>,
    pub arbitrary_loads: Option<bool>,
    pub url_schemes: Seq<ItemView>,
    pub tls_domains: Seq<ItemView>,
    pub archive: ItemView,
    pub archive_matches: bool,
}

impl View for Expected {
    type V = ExpectedView;

    open spec fn view(&self) -> ExpectedView {
        ExpectedView {
            framework: self.framework@,
            confidence: opt_text(self.confidence),
            versions: item_views(self.versions@),
            findings: item_views(self.findings@),
            dependencies: item_views(self.dependencies@),
            arbitrary_loads: self.arbitrary_loads,
            url_schemes: item_views(self.url_schemes@),
            tls_domains: item_views(self.tls_domains@),
            archive: self.archive@,
            archive_matches: self.archive_matches,
        }
    }
}

/// What was found.
#[derive(Debug)]
pub struct Observed {
    pub framework: String,
    pub confidence: String,
    /// The version of each expected runtime, in the same order.
    pub versions: Vec<String>,
    pub findings: Vec<String>,
    pub dependencies: Vec<String>,
    pub arbitrary_loads: Option<bool>,
    pub url_schemes: Vec<String>,
    pub tls_domains: Vec<String>,
    /// The keys of the archives that match what is declared of them.
    pub matching_archives: Vec<String>,
    /// The keys of those that do not.
    pub differing_archives: Vec<String>,
}

/// The model of an [`Observed`].
pub struct ObservedView {
    pub framework: Seq<char>,
    pub confidence: Seq<char>,
    pub versions: Seq<Seq<char>>,
    pub findings: Seq<Seq<char>>,
    pub dependencies: Seq<Seq<char>>,
    pub arbitrary_loads: Option<bool>,
    pub url_schemes: Seq<Seq<char>>,
    pub tls_domains: Seq<Seq<char>>,
    pub matching_archives: Seq<Seq<char>>,
    pub differing_archives: Seq<Seq<char>>,
}

impl View for Observed {
    type V = ObservedView;

    open spec fn view(&self) -> ObservedView {
        ObservedView {
            framework: self.framework@,
            confidence: self.confidence@,
            versions: texts(self.versions@),
            findings: texts(self.findings@),
            dependencies: texts(self.dependencies@),
            arbitrary_loads: self.arbitrary_loads,
            url_schemes: texts(self.url_schemes@),
            tls_domains: texts(self.tls_domains@),
            matching_archives: texts(self.matching_archives@),
            differing_archives: texts(self.differing_archives@),
        }
    }
}

/// The outcome of one check: what was checked, and whether it holds.
pub struct CheckView {
    pub label: Seq<char>,
    pub ok: bool,
}

/// The outcome of one check.
#[derive(Debug)]
pub struct Check {
    pub label: String,
    pub ok: bool,
}

impl View for Check {
    type V = CheckView;

    open spec fn view(&self) -> CheckView {
        CheckView { label: self.label@, ok: self.ok }
    }
}

/// The models of a list of checks.
pub open spec fn check_views(v: Seq<Check>) -> Seq<CheckView> {
    v.map_values(|c: Check| c@)
}

/// One check per expected item: that it is among what was found.
pub open spec fn membership(prefix: Seq<char>, wanted: Seq<ItemView>, found: Seq<Seq<char>>) -> Seq<
    CheckView,
> {
    Seq::new(
        wanted.len(),
        |i: int| CheckView { label: prefix + wanted[i].label, ok: found.contains(wanted[i].json) },
    )
}

/// One check per expected version: that the one found is the same.
pub open spec fn version_checks(wanted: Seq<ItemView>, found: Seq<Seq<char>>) -> Seq<CheckView> {
    Seq::new(
        wanted.len(),
        |i: int|
            CheckView {
                label: "version."@ + wanted[i].label,
                ok: i < found.len() && found[i] == wanted[i].json,
            },
    )
}

/// One check where a value is stated, none where it is not.
pub open spec fn stated(label: Seq<char>, is_stated: bool, ok: bool) -> Seq<CheckView> {
    if is_stated {
        seq![CheckView { label, ok }]
    } else {
        Seq::empty()
    }
}

/// The checks on the detection.
pub open spec fn detection_checks(e: ExpectedView, o: ObservedView) -> Seq<CheckView> {
    seq![CheckView { label: "framework"@, ok: o.framework == e.framework }] + stated(
        "confidence"@,
        e.confidence is Some,
        Some(o.confidence) == e.confidence,
    ) + version_checks(e.versions, o.versions)
}

/// The checks on the audit.
pub open spec fn audit_checks(e: ExpectedView, o: ObservedView) -> Seq<CheckView> {
    stated(
        "infoPlist.allowsArbitraryLoads"@,
        e.arbitrary_loads is Some,
        o.arbitrary_loads == e.arbitrary_loads,
    ) + membership("infoPlist.urlScheme "@, e.url_schemes, o.url_schemes)
        + membership("infoPlist.tlsException "@, e.tls_domains, o.tls_domains)
        + seq![
        CheckView {
            label: "asarIntegrity "@ + e.archive.label + " matches="@ + if e.archive_matches {
                "true"@
            } else {
                "false"@
            },
            ok: if e.archive_matches {
                o.matching_archives.contains(e.archive.json)
            } else {
                o.differing_archives.contains(e.archive.json)
            },
        },
    ]
}

/// All the checks, in order.
pub open spec fn checks(e: ExpectedView, o: ObservedView) -> Seq<CheckView> {
    detection_checks(e, o) + membership(
        Seq::empty(),
        e.findings,
        o.findings,
    ) + membership(Seq::empty(), e.dependencies, o.dependencies)
        + audit_checks(e, o)
}

fn push_check(out: &mut Vec<Check>, label: String, ok: bool)
    ensures
        check_views(final(out)@) == check_views(old(out)@) + seq![
            CheckView { label: label@, ok },
        ],
{
    let ghost before = check_views(out@);
    out.push(Check { label, ok });
    assert(check_views(out@) =~= before + seq![CheckView { label: label@, ok }]);
}

fn push_membership(out: &mut Vec<Check>, prefix: &str, wanted: &Vec<Item>, found: &Vec<String>)
    ensures
        check_views(final(out)@) == check_views(old(out)@) + membership(
            prefix@,
            item_views(wanted@),
            texts(found@),
        ),
{
    let ghost start = check_views(out@);
    let ghost all = membership(prefix@, item_views(wanted@), texts(found@));
    let mut i: usize = 0;
    assert(start + all.take(0) =~= start);
    while i < wanted.len()
        invariant
            i <= wanted@.len(),
            all == membership(prefix@, item_views(wanted@), texts(found@)),
            check_views(out@) == start + all.take(i as int),
        decreases wanted.len() - i,
    {
        let label = concat(prefix, wanted[i].label.as_str());
        let ok = any_same(found, wanted[i].json.as_str());
        push_check(out, label, ok);
        assert(item_views(wanted@)[i as int] == wanted@[i as int]@);
        assert(all[i as int] == (CheckView { label: label@, ok }));
        assert(start + all.take(i + 1) =~= start + all.take(i as int) + seq![all[i as int]]);
        i = i + 1;
    }
    assert(all.take(all.len() as int) =~= all);
}

fn push_versions(out: &mut Vec<Check>, wanted: &Vec<Item>, found: &Vec<String>)
    ensures
        check_views(final(out)@) == check_views(old(out)@) + version_checks(
            item_views(wanted@),
            texts(found@),
        ),
{
    let ghost start = check_views(out@);
    let ghost all = version_checks(item_views(wanted@), texts(found@));
    let mut i: usize = 0;
    assert(start + all.take(0) =~= start);
    while i < wanted.len()
        invariant
            i <= wanted@.len(),
            all == version_checks(item_views(wanted@), texts(found@)),
            check_views(out@) == start + all.take(i as int),
        decreases wanted.len() - i,
    {
        let label = concat("version.", wanted[i].label.as_str());
        let ok = i < found.len() && same(found[i].as_str(), wanted[i].json.as_str());
        push_check(out, label, ok);
        assert(item_views(wanted@)[i as int] == wanted@[i as int]@);
        assert(i < found@.len() ==> texts(found@)[i as int] == found@[i as int]@);
        assert(all[i as int] == (CheckView { label: label@, ok }));
        assert(start + all.take(i + 1) =~= start + all.take(i as int) + seq![all[i as int]]);
        i = i + 1;
    }
    assert(all.take(all.len() as int) =~= all);
}

fn push_detection(out: &mut Vec<Check>, e: &Expected, o: &Observed)
    ensures
        check_views(final(out)@) == check_views(old(out)@) + detection_checks(e@, o@),
{
    let ghost start = check_views(out@);
    push_check(
        out,
        "framework".to_owned(),
        same(o.framework.as_str(), e.framework.as_str()),
    );
    match &e.confidence {
        Some(c) => {
            push_check(out, "confidence".to_owned(), same(o.confidence.as_str(), c.as_str()));
        },
        None => {},
    }
    push_versions(out, &e.versions, &o.versions);
    assert(check_views(out@) =~= start + detection_checks(e@, o@));
}

fn push_audit(out: &mut Vec<Check>, e: &Expected, o: &Observed)
    ensures
        check_views(final(out)@) == check_views(old(out)@) + audit_checks(e@, o@),
{
    let ghost start = check_views(out@);
    match e.arbitrary_loads {
        Some(want) => {
            let ok = match o.arbitrary_loads {
                Some(got) => got == want,
                None => false,
            };
            push_check(out, "infoPlist.allowsArbitraryLoads".to_owned(), ok);
        },
        None => {},
    }
    push_membership(out, "infoPlist.urlScheme ", &e.url_schemes, &o.url_schemes);
    push_membership(out, "infoPlist.tlsException ", &e.tls_domains, &o.tls_domains);
    let archives = if e.archive_matches {
        &o.matching_archives
    } else {
        &o.differing_archives
    };
    let mut label = concat3("asarIntegrity ", e.archive.label.as_str(), " matches=");
    label.append(
        if e.archive_matches {
            "true"
        } else {
            "false"
        },
    );
    push_check(out, label, any_same(archives, e.archive.json.as_str()));
    assert(check_views(out@) =~= start + audit_checks(e@, o@));
}

/// Checks everything that is expected against what was found.
pub fn assess(e: &Expected, o: &Observed) -> (r: Vec<Check>)
    ensures
        check_views(r@) == checks(e@, o@),
{
    let mut out: Vec<Check> = Vec::new();
    assert(check_views(out@) =~= Seq::empty());
    push_detection(&mut out, e, o);
    proof {
        reveal_strlit("");
        assert(""@ =~= Seq::empty());
    }
    push_membership(&mut out, "", &e.findings, &o.findings);
    push_membership(&mut out, "", &e.dependencies, &o.dependencies);
    push_audit(&mut out, e, o);
    assert(check_views(out@) =~= checks(e@, o@));
    out
}

/// How many of the first `n` checks hold.
pub open spec fn passes(list: Seq<CheckView>, n: nat) -> nat
    decreases n,
{
    if n == 0 || n > list.len() {
        0
    } else {
        passes(list, (n - 1) as nat) + if list[n - 1].ok {
            1nat
        } else {
            0
        }
    }
}

/// How many checks passed and how many failed.
#[derive(Debug, Clone, Copy, PartialEq, Eq, Structural)]
pub struct Report {
    pub pass: usize,
    pub fail: usize,
}

impl Report {
    /// Counts the outcomes.
    pub fn of(list: &Vec<Check>) -> (r: Report)
        ensures
            r.pass == passes(check_views(list@), list@.len()),
            r.pass + r.fail == list@.len(),
    {
        let ghost all = check_views(list@);
        let mut pass: usize = 0;
        let mut i: usize = 0;
        while i < list.len()
            invariant
                i <= list@.len(),
                pass <= i,
                all == check_views(list@),
                pass == passes(all, i as nat),
            decreases list.len() - i,
        {
            assert(all[i as int] == list@[i as int]@);
            if list[i].ok {
                pass = pass + 1;
            }
            i = i + 1;
        }
        Report { pass, fail: list.len() - pass }
    }
}

/// Nothing failed if and only if every check holds.
pub proof fn lemma_passes(list: Seq<CheckView>, n: nat)
    requires
        n <= list.len(),
    ensures
        passes(list, n) <= n,
        passes(list, n) == n <==> forall|i: int| 0 <= i < n ==> (#[trigger] list[i]).ok,
    decreases n,
{
    if n > 0 {
        lemma_passes(list, (n - 1) as nat);
    }
}

/// The expectation is a lower bound: what holds still holds when more is found.
pub proof fn lemma_more_is_fine(
    prefix: Seq<char>,
    wanted: Seq<ItemView>,
    found: Seq<Seq<char>>,
    more: Seq<Seq<char>>,
    i: int,
)
    requires
        0 <= i < wanted.len(),
        membership(prefix, wanted, found)[i].ok,
    ensures
        membership(prefix, wanted, found + more)[i].ok,
{
    let k = choose|k: int| 0 <= k < found.len() && found[k] == wanted[i].json;
    assert((found + more)[k] == wanted[i].json);
}

} // verus!
