//! Which versions and platforms an advisory's text speaks of.
//!
//! Conservative by construction: a version that does not parse is never at or past
//! a fix, and text that names no platform or ceiling scopes nothing.

use vstd::prelude::*;

use crate::text::{
    chars_of, concat, first_stand, find_from, lemma_first_stand, lower, lower_of, opt_text, or_text,
    slice_of, split, split_of, stands_at, text_of, texts, trim, trim_of, CharClass,
};
use crate::version::{cmp_version, rank, Rank};

verus! {

/// Whether a character is a digit.
pub open spec fn is_digit(c: char) -> bool {
    '0' <= c <= '9'
}

/// Whether a character may stand in a dotted version.
pub open spec fn in_version(c: char) -> bool {
    is_digit(c) || c == '.'
}

/// How many characters from `i` on may stand in a dotted version.
pub open spec fn version_run(s: Seq<char>, i: int) -> nat
    decreases s.len() - i,
{
    if 0 <= i < s.len() && in_version(s[i]) {
        1 + version_run(s, i + 1)
    } else {
        0
    }
}

/// How many of `parts` are not empty.
pub open spec fn filled(parts: Seq<Seq<char>>) -> nat
    decreases parts.len(),
{
    if parts.len() == 0 {
        0
    } else {
        filled(parts.drop_last()) + if parts.last().len() > 0 {
            1nat
        } else {
            0
        }
    }
}

/// The dotted version that opens `s`: digits and dots, without dots at either end,
/// of at least two components, so that a bare number isn't mistaken for one.
pub open spec fn version_token(s: Seq<char>) -> Option<Seq<char>> {
    let t = trim(s, CharClass::White);
    let token = trim(t.take(version_run(t, 0) as int), CharClass::Only('.'));
    if filled(split(token, CharClass::Only('.'))) >= 2 {
        Some(token)
    } else {
        None
    }
}

fn filled_of(parts: &Vec<String>) -> (r: usize)
    ensures
        r == filled(texts(parts@)),
{
    let ghost all = texts(parts@);
    let mut n: usize = 0;
    let mut i: usize = 0;
    assert(all.take(0) =~= Seq::empty());
    while i < parts.len()
        invariant
            i <= parts@.len(),
            n <= i,
            all == texts(parts@),
            n == filled(all.take(i as int)),
        decreases parts.len() - i,
    {
        assert(all.take(i + 1).drop_last() =~= all.take(i as int));
        assert(all.take(i + 1).last() == parts@[i as int]@);
        if !parts[i].as_str().is_empty() {
            n = n + 1;
        }
        i = i + 1;
    }
    assert(all.take(all.len() as int) =~= all);
    n
}

/// Extract a leading dotted-numeric version (`138.0.7204.251`) from the start of
/// `s`, or `None` for non-version tokens like `"unspecified"`. Requires at least
/// two components so a bare number isn't mistaken for a version.
pub fn version_token_of(s: &str) -> (r: Option<String>)
    ensures
        opt_text(r) == version_token(s@),
{
    let t = trim_of(&chars_of(s), CharClass::White);
    let mut n: usize = 0;
    while n < t.len() && (('0' <= t[n] && t[n] <= '9') || t[n] == '.')
        invariant
            n <= t@.len(),
            version_run(t@, 0) == n + version_run(t@, n as int),
        decreases t.len() - n,
    {
        n = n + 1;
    }
    proof {
        assert(version_run(t@, n as int) == 0);
        assert(t@.subrange(0, n as int) =~= t@.take(n as int));
    }
    let token = text_of(trim_of(&slice_of(&t, 0, n), CharClass::Only('.')).as_slice());
    if filled_of(&split_of(token.as_str(), CharClass::Only('.'))) >= 2 {
        Some(token)
    } else {
        None
    }
}

/// The version that follows the first `phrase` in `s`, whatever the case of the text.
pub open spec fn after_phrase(s: Seq<char>, phrase: Seq<char>) -> Option<Seq<char>> {
    match first_stand(lower(s), phrase, 0) {
        Some(i) => if i + phrase.len() <= s.len() {
            version_token(s.skip(i + phrase.len()))
        } else {
            None
        },
        None => None,
    }
}

/// The fix ceiling that prose states: "prior to X", "before X", "earlier than X".
pub open spec fn prose_ceiling(s: Seq<char>) -> Option<Seq<char>> {
    or_text(
        after_phrase(s, "prior to "@),
        or_text(after_phrase(s, "before "@), after_phrase(s, "earlier than "@)),
    )
}

fn after_phrase_of(s: &str, phrase: &str) -> (r: Option<String>)
    ensures
        opt_text(r) == after_phrase(s@, phrase@),
{
    let low = chars_of(lower_of(s).as_str());
    let p = chars_of(phrase);
    let x = chars_of(s);
    proof {
        lemma_first_stand(lower(s@), phrase@, 0);
    }
    match find_from(&low, &p, 0) {
        Some(i) => {
            let n = x.len();
            assert(i + p@.len() <= n);
            let rest = slice_of(&x, i + p.len(), n);
            assert(rest@ =~= s@.skip(i + phrase@.len()));
            version_token_of(text_of(rest.as_slice()).as_str())
        },
        None => None,
    }
}

/// The fix ceiling that prose states.
pub fn prose_ceiling_of(s: &str) -> (r: Option<String>)
    ensures
        opt_text(r) == prose_ceiling(s@),
{
    match after_phrase_of(s, "prior to ") {
        Some(v) => Some(v),
        None => match after_phrase_of(s, "before ") {
            Some(v) => Some(v),
            None => after_phrase_of(s, "earlier than "),
        },
    }
}

/// The fix ceiling that a description states: in prose, else, for a product whose
/// vendor lists *fixed* versions, beside the product's name.
pub open spec fn text_ceiling(summary: Seq<char>, product: Option<Seq<char>>) -> Option<Seq<char>> {
    or_text(
        prose_ceiling(summary),
        match product {
            Some(p) => after_phrase(summary, lower(p) + " "@),
            None => None,
        },
    )
}

/// The fix ceiling that a description states.
pub fn fixed_ceiling_from_text(summary: &str, product: Option<&str>) -> (r: Option<String>)
    ensures
        opt_text(r) == text_ceiling(
            summary@,
            match product {
                Some(p) => Some(p@),
                None => None,
            },
        ),
{
    match prose_ceiling_of(summary) {
        Some(v) => Some(v),
        None => match product {
            Some(p) => after_phrase_of(summary, concat(lower_of(p).as_str(), " ").as_str()),
            None => None,
        },
    }
}

/// Whether a version can be compared at all: its first component is a number.
pub open spec fn is_comparable(v: Seq<char>) -> bool {
    v.len() > 0 && is_digit(v[0])
}

/// Whether `scanned` is at or past `ceiling`. A version that cannot be compared is not.
pub open spec fn reaches_ceiling(scanned: Seq<char>, ceiling: Seq<char>) -> bool {
    is_comparable(scanned) && is_comparable(ceiling) && rank(scanned, ceiling) != Rank::Less
}

fn is_comparable_of(v: &str) -> (r: bool)
    ensures
        r == is_comparable(v@),
{
    let x = chars_of(v);
    x.len() > 0 && '0' <= x[0] && x[0] <= '9'
}

/// Whether `scanned` is at or past `ceiling`.
pub fn at_or_above(scanned: &str, ceiling: &str) -> (r: bool)
    ensures
        r == reaches_ceiling(scanned@, ceiling@),
{
    if !is_comparable_of(scanned) || !is_comparable_of(ceiling) {
        return false;
    }
    match cmp_version(scanned, ceiling) {
        Rank::Less => false,
        _ => true,
    }
}

/// The operating system that is audited.
#[derive(Debug, Clone, Copy, PartialEq, Eq, Structural)]
pub enum Os {
    Macos,
    Windows,
    Linux,
}

/// Whether a character is a letter or a digit of ASCII.
pub open spec fn is_word_char(c: char) -> bool {
    is_digit(c) || 'a' <= c <= 'z' || 'A' <= c <= 'Z'
}

/// Whether `phrase` stands in `s` at `i`, as whole words.
pub open spec fn words_at(s: Seq<char>, phrase: Seq<char>, i: int) -> bool {
    &&& stands_at(s, phrase, i)
    &&& i == 0 || !is_word_char(s[i - 1])
    &&& i + phrase.len() == s.len() || !is_word_char(s[i + phrase.len()])
}

/// Whether `s` says `phrase`, as whole words.
pub open spec fn says(s: Seq<char>, phrase: Seq<char>) -> bool {
    exists|i: int| words_at(s, phrase, i)
}

fn is_word_char_of(c: char) -> (r: bool)
    ensures
        r == is_word_char(c),
{
    ('0' <= c && c <= '9') || ('a' <= c && c <= 'z') || ('A' <= c && c <= 'Z')
}

fn says_of(s: &Vec<char>, phrase: &str) -> (r: bool)
    ensures
        r == says(s@, phrase@),
{
    let p = chars_of(phrase);
    let mut from: usize = 0;
    while from <= s.len()
        invariant
            p@ == phrase@,
            from <= s@.len() + 1,
            forall|j: int| 0 <= j < from ==> !words_at(s@, phrase@, j),
        decreases s.len() + 1 - from,
    {
        proof {
            lemma_first_stand(s@, phrase@, from as int);
        }
        match find_from(s, &p, from) {
            Some(i) => {
                let end: usize = i + p.len();
                if (i == 0 || !is_word_char_of(s[i - 1])) && (end == s.len() || !is_word_char_of(
                    s[end],
                )) {
                    assert(words_at(s@, phrase@, i as int));
                    return true;
                }
                assert(!words_at(s@, phrase@, i as int));
                if i == s.len() {
                    assert forall|j: int| !words_at(s@, phrase@, j) by {}
                    return false;
                }
                from = i + 1;
            },
            None => {
                assert forall|j: int| !words_at(s@, phrase@, j) by {}
                return false;
            },
        }
    }
    assert forall|j: int| !words_at(s@, phrase@, j) by {}
    false
}

/// Whether a description is about the platform `os`.
pub open spec fn names_os(lower_summary: Seq<char>, os: Os) -> bool {
    match os {
        Os::Macos => says(lower_summary, "on macos"@) || says(lower_summary, "on mac"@) || says(
            lower_summary,
            "on os x"@,
        ),
        Os::Windows => says(lower_summary, "on windows"@),
        Os::Linux => says(lower_summary, "on linux"@),
    }
}

/// Whether a description mentions the platform `os` at all.
pub open spec fn mentions_os(lower_summary: Seq<char>, os: Os) -> bool {
    match os {
        Os::Macos => says(lower_summary, "macos"@) || says(lower_summary, "mac"@) || says(
            lower_summary,
            "os x"@,
        ),
        Os::Windows => says(lower_summary, "windows"@),
        Os::Linux => says(lower_summary, "linux"@),
    }
}

/// Whether a description is about a platform that is never audited.
pub open spec fn names_mobile(lower_summary: Seq<char>) -> bool {
    says(lower_summary, "on android"@) || says(lower_summary, "on ios"@) || says(
        lower_summary,
        "on ipados"@,
    ) || says(lower_summary, "on chromeos"@) || says(lower_summary, "on chrome os"@)
}

/// Whether a description is scoped to platforms other than `os`: it is about one, and
/// does not mention this.
pub open spec fn scoped_elsewhere(summary: Seq<char>, os: Os) -> bool {
    let s = lower(summary);
    !mentions_os(s, os) && (names_mobile(s) || names_os(s, Os::Macos) || names_os(s, Os::Windows)
        || names_os(s, Os::Linux))
}

fn names_os_of(s: &Vec<char>, os: Os) -> (r: bool)
    ensures
        r == names_os(s@, os),
{
    match os {
        Os::Macos => says_of(s, "on macos") || says_of(s, "on mac") || says_of(s, "on os x"),
        Os::Windows => says_of(s, "on windows"),
        Os::Linux => says_of(s, "on linux"),
    }
}

fn mentions_os_of(s: &Vec<char>, os: Os) -> (r: bool)
    ensures
        r == mentions_os(s@, os),
{
    match os {
        Os::Macos => says_of(s, "macos") || says_of(s, "mac") || says_of(s, "os x"),
        Os::Windows => says_of(s, "windows"),
        Os::Linux => says_of(s, "linux"),
    }
}

/// Whether a description is scoped to platforms other than `os`.
pub fn scoped_to_other_os(summary: &str, os: Os) -> (r: bool)
    ensures
        r == scoped_elsewhere(summary@, os),
{
    let s = chars_of(lower_of(summary).as_str());
    if mentions_os_of(&s, os) {
        return false;
    }
    says_of(&s, "on android") || says_of(&s, "on ios") || says_of(&s, "on ipados") || says_of(
        &s,
        "on chromeos",
    ) || says_of(&s, "on chrome os") || names_os_of(&s, Os::Macos) || names_os_of(&s, Os::Windows)
        || names_os_of(&s, Os::Linux)
}

/// A version that has reached a ceiling has reached every lower one.
pub proof fn lemma_ceiling_downward(v: Seq<char>, high: Seq<char>, low: Seq<char>)
    requires
        reaches_ceiling(v, high),
        reaches_ceiling(high, low),
    ensures
        reaches_ceiling(v, low),
{
    crate::version::lemma_rank_flips(v, high);
    crate::version::lemma_rank_flips(high, low);
    crate::version::lemma_rank_flips(v, low);
    crate::version::lemma_rank_transitive(low, high, v);
}

} // verus!
