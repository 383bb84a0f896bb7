//! One published vulnerability, in the form every source is normalised to.

use vstd::prelude::*;

use crate::text::{copy_opt, opt_text, same, texts, upper, upper_of};

verus! {

/// Where an advisory came from.
#[derive(Debug, Clone, Copy, PartialEq, Eq, Structural)]
pub enum Source {
    Nvd,
    Euvd,
    Osv,
    Ghsa,
}

/// How severe a vulnerability is.
#[derive(Debug, Clone, Copy, PartialEq, Eq, Structural)]
pub enum Severity {
    Low,
    Medium,
    High,
    Critical,
}

/// The severity of a rating name, whatever its case.
pub open spec fn severity_named(name: Seq<char>) -> Option<Severity> {
    let n = upper(name);
    if n == "CRITICAL"@ {
        Some(Severity::Critical)
    } else if n == "HIGH"@ {
        Some(Severity::High)
    } else if n == "MEDIUM"@ || n == "MODERATE"@ {
        Some(Severity::Medium)
    } else if n == "LOW"@ {
        Some(Severity::Low)
    } else {
        None
    }
}

impl Severity {
    /// The severity of a rating name, whatever its case.
    pub fn parse(name: &str) -> (r: Option<Severity>)
        ensures
            r == severity_named(name@),
    {
        let u = upper_of(name);
        let n = u.as_str();
        if same(n, "CRITICAL") {
            Some(Severity::Critical)
        } else if same(n, "HIGH") {
            Some(Severity::High)
        } else if same(n, "MEDIUM") || same(n, "MODERATE") {
            Some(Severity::Medium)
        } else if same(n, "LOW") {
            Some(Severity::Low)
        } else {
            None
        }
    }
}

/// One published vulnerability.
#[derive(Debug, PartialEq, Eq)]
pub struct Advisory {
    pub id: String,
    pub source: Source,
    pub summary: String,
    pub severity: Option<Severity>,
    /// The first version that is not affected.
    pub fixed_in: Option<String>,
    pub aliases: Vec<String>,
    /// When it was published, as an ISO date.
    pub published: Option<String>,
    pub references: Vec<String>,
}

/// The model of an [`Advisory`].
#[verifier::ext_equal]
pub struct AdvisoryView {
    pub id: Seq<char>,
    pub source: Source,
    pub summary: Seq<char>,
    pub severity: Option<Severity>,
    pub fixed_in: Option<Seq<char>>,
    pub aliases: Seq<Seq<char>>,
    pub published: Option<Seq<char>>,
    pub references: Seq<Seq<char>>,
}

impl View for Advisory {
    type V = AdvisoryView;

    open spec fn view(&self) -> AdvisoryView {
        AdvisoryView {
            id: self.id@,
            source: self.source,
            summary: self.summary@,
            severity: self.severity,
            fixed_in: opt_text(self.fixed_in),
            aliases: texts(self.aliases@),
            published: opt_text(self.published),
            references: texts(self.references@),
        }
    }
}

/// The views of a list of advisories.
pub open spec fn advisories(v: Seq<Advisory>) -> Seq<AdvisoryView> {
    v.map_values(|a: Advisory| a@)
}

/// A copy of a list of strings.
pub fn copy_texts(v: &Vec<String>) -> (r: Vec<String>)
    ensures
        texts(r@) == texts(v@),
{
    let mut out: Vec<String> = Vec::new();
    let mut i: usize = 0;
    assert(texts(out@) =~= texts(v@).take(0));
    while i < v.len()
        invariant
            i <= v@.len(),
            texts(out@) == texts(v@).take(i as int),
        decreases v.len() - i,
    {
        let ghost before = texts(out@);
        out.push(v[i].clone());
        assert(texts(out@) =~= before.push(texts(v@)[i as int]));
        assert(texts(out@) =~= texts(v@).take(i + 1));
        i = i + 1;
    }
    assert(texts(v@).take(v@.len() as int) =~= texts(v@));
    out
}

impl Advisory {
    /// A copy of the advisory.
    pub fn copy(&self) -> (r: Advisory)
        ensures
            r@ == self@,
    {
        Advisory {
            id: self.id.clone(),
            source: self.source,
            summary: self.summary.clone(),
            severity: self.severity,
            fixed_in: copy_opt(&self.fixed_in),
            aliases: copy_texts(&self.aliases),
            published: copy_opt(&self.published),
            references: copy_texts(&self.references),
        }
    }
}

} // verus!
