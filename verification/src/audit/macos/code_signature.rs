//! Summarise a bundle's code signature from the report of `codesign -dvvv`.
//!
//! `codesign` writes its report to stderr in a stable line-oriented format
//! that's easy to parse with substring matches. Only what the audit actually
//! needs is extracted: team identifier, authority chain, hardened-runtime
//! flag, and notarization-staple presence.

use vstd::prelude::*;

use crate::bytes::{lossy_text, utf8_lossy};
use crate::text::{
    chars_of, contains, holds, opens, opt_text, same, slice_of, split, split_of, starts_with,
    text_of, texts, trim, trim_of, CharClass,
};

verus! {

/// A bundle's code signature.
#[derive(Debug)]
pub struct CodeSignature {
    pub signed: bool,
    pub hardened_runtime: bool,
    pub notarized: bool,
    pub team_identifier: Option<String>,
    pub authority: Vec<String>,
    /// Raw `codesign -dvvv` stderr. Handy for surfacing to users when the
    /// parser misses something.
    pub raw: String,
}

/// The model of a [`CodeSignature`].
pub struct CodeSignatureView {
    pub signed: bool,
    pub hardened_runtime: bool,
    pub notarized: bool,
    pub team_identifier: Option<Seq<char>>,
    pub authority: Seq<Seq<char>>,
    pub raw: Seq<char>,
}

impl View for CodeSignature {
    type V = CodeSignatureView;

    open spec fn view(&self) -> CodeSignatureView {
        CodeSignatureView {
            signed: self.signed,
            hardened_runtime: self.hardened_runtime,
            notarized: self.notarized,
            team_identifier: opt_text(self.team_identifier),
            authority: texts(self.authority@),
            raw: self.raw@,
        }
    }
}

/// No signature, with the report that says so.
pub open spec fn unsigned(raw: Seq<char>) -> CodeSignatureView {
    CodeSignatureView {
        signed: false,
        hardened_runtime: false,
        notarized: false,
        team_identifier: None,
        authority: Seq::empty(),
        raw,
    }
}

fn unsigned_of(raw: String) -> (r: CodeSignature)
    ensures
        r@ == unsigned(raw@),
{
    let authority: Vec<String> = Vec::new();
    assert(texts(authority@) =~= Seq::empty());
    CodeSignature {
        signed: false,
        hardened_runtime: false,
        notarized: false,
        team_identifier: None,
        authority,
        raw,
    }
}

impl Default for CodeSignature {
    fn default() -> (r: CodeSignature)
        ensures
            r@ == unsigned(Seq::empty()),
    {
        let raw = String::new();
        assert(raw@ =~= Seq::empty());
        unsigned_of(raw)
    }
}

/// Whether a report speaks of a signature.
pub open spec fn is_signed(report: Seq<char>) -> bool {
    !holds(report, "not signed at all"@) && !holds(report, "is not signed"@) && holds(
        report,
        "Identifier="@,
    )
}

/// Whether a line tells of the hardened runtime: `flags=0x10000(runtime)` on the
/// CodeDirectory line.
pub open spec fn tells_runtime(line: Seq<char>) -> bool {
    opens(line, "CodeDirectory"@) && holds(line, "(runtime)"@)
}

/// The team that a line names.
pub open spec fn team_in(line: Seq<char>) -> Option<Seq<char>> {
    if opens(line, "TeamIdentifier="@) {
        let id = trim(
            trim(line.skip("TeamIdentifier="@.len() as int), CharClass::White),
            CharClass::Only('"'),
        );
        if id.len() == 0 || id == "not set"@ {
            None
        } else {
            Some(id)
        }
    } else {
        None
    }
}

/// The team that the first `n` lines name: the last one counts.
pub open spec fn team(lines: Seq<Seq<char>>, n: nat) -> Option<Seq<char>>
    decreases n,
{
    if n == 0 || n > lines.len() {
        None
    } else {
        match team_in(lines[n - 1]) {
            Some(id) => Some(id),
            None => team(lines, (n - 1) as nat),
        }
    }
}

/// The authorities that the first `n` lines name, in order.
pub open spec fn authorities(lines: Seq<Seq<char>>, n: nat) -> Seq<Seq<char>>
    decreases n,
{
    if n == 0 || n > lines.len() {
        Seq::empty()
    } else {
        let before = authorities(lines, (n - 1) as nat);
        let line = lines[n - 1];
        if opens(line, "Authority="@) {
            before.push(trim(line.skip("Authority="@.len() as int), CharClass::White))
        } else {
            before
        }
    }
}

/// Whether any of the first `n` lines tells of the hardened runtime.
pub open spec fn any_runtime(lines: Seq<Seq<char>>, n: nat) -> bool {
    exists|i: int| 0 <= i < n && tells_runtime(#[trigger] lines[i])
}

/// The signature that a report describes.
pub open spec fn reported(report: Seq<char>) -> CodeSignatureView {
    let lines = split(report, CharClass::Only('\n'));
    if !is_signed(report) {
        unsigned(report)
    } else {
        CodeSignatureView {
            signed: true,
            hardened_runtime: any_runtime(lines, lines.len()),
            notarized: holds(report, "Notarization Ticket=stapled"@),
            team_identifier: team(lines, lines.len()),
            authority: authorities(lines, lines.len()),
            raw: report,
        }
    }
}

fn after(line: &str, prefix: &str) -> (r: Vec<char>)
    requires
        opens(line@, prefix@),
    ensures
        r@ == trim(line@.skip(prefix@.len() as int), CharClass::White),
{
    let x = chars_of(line);
    let p = chars_of(prefix);
    let n = x.len();
    let rest = slice_of(&x, p.len(), n);
    assert(rest@ =~= line@.skip(prefix@.len() as int));
    trim_of(&rest, CharClass::White)
}

fn team_in_of(line: &str) -> (r: Option<String>)
    ensures
        opt_text(r) == team_in(line@),
{
    if !starts_with(line, "TeamIdentifier=") {
        return None;
    }
    let id = text_of(trim_of(&after(line, "TeamIdentifier="), CharClass::Only('"')).as_slice());
    if id.as_str().is_empty() || same(id.as_str(), "not set") {
        None
    } else {
        Some(id)
    }
}

/// The signature that a report describes.
pub fn parse_report(report: String) -> (r: CodeSignature)
    ensures
        r@ == reported(report@),
{
    let s = report.as_str();
    // "code object is not signed" → unsigned.
    if contains(s, "not signed at all") || contains(s, "is not signed") || !contains(
        s,
        "Identifier=",
    ) {
        return unsigned_of(report);
    }
    let lines = split_of(s, CharClass::Only('\n'));
    let ghost all = texts(lines@);
    let notarized = contains(s, "Notarization Ticket=stapled");
    let mut hardened_runtime = false;
    let mut team_identifier: Option<String> = None;
    let mut authority: Vec<String> = Vec::new();
    let mut i: usize = 0;
    assert(texts(authority@) =~= Seq::empty());
    while i < lines.len()
        invariant
            i <= lines@.len(),
            all == texts(lines@),
            hardened_runtime == any_runtime(all, i as nat),
            opt_text(team_identifier) == team(all, i as nat),
            texts(authority@) == authorities(all, i as nat),
        decreases lines.len() - i,
    {
        let line = lines[i].as_str();
        assert(all[i as int] == line@);
        if starts_with(line, "CodeDirectory") && contains(line, "(runtime)") {
            assert(tells_runtime(all[i as int]));
            hardened_runtime = true;
        }
        assert(hardened_runtime == any_runtime(all, (i + 1) as nat));
        match team_in_of(line) {
            Some(id) => {
                team_identifier = Some(id);
            },
            None => {},
        }
        if starts_with(line, "Authority=") {
            let ghost before = texts(authority@);
            let a = text_of(after(line, "Authority=").as_slice());
            authority.push(a);
            assert(texts(authority@) =~= before.push(a@));
        }
        i = i + 1;
    }
    CodeSignature {
        signed: true,
        hardened_runtime,
        notarized,
        team_identifier,
        authority,
        raw: report,
    }
}

/// The signature that the output of `codesign` describes. It writes the summary to stderr
/// regardless of status; without any output nothing is known.
pub fn read(stderr: Option<&[u8]>) -> (r: CodeSignature)
    ensures
        r@ == match stderr {
            Some(b) => reported(utf8_lossy(b@)),
            None => unsigned(Seq::empty()),
        },
{
    match stderr {
        Some(b) => parse_report(lossy_text(b)),
        None => CodeSignature::default(),
    }
}

/// Nothing but the report itself is claimed of a bundle that is not signed.
pub proof fn lemma_unsigned_claims_nothing(report: Seq<char>)
    requires
        !is_signed(report),
    ensures
        reported(report) == unsigned(report),
        !reported(report).hardened_runtime && !reported(report).notarized,
{
}

} // verus!
