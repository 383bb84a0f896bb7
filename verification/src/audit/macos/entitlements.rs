//! Hardened-runtime entitlements of a macOS bundle.
//!
//! `codesign -d --entitlements - --xml <path>` emits the XML property list
//! for the app's entitlements on every current macOS. Older SDKs used
//! `--entitlements :-` which is still accepted on recent macOS but noisy; so
//! the modern form comes first, the legacy form second.

use vstd::prelude::*;

use crate::num::{decimal, decimal_of};
use crate::plist::{
    dict_at, entries, entries_of, get_bool, get_bool_of, is_dict_of, keyed, moment_text, moment_text_of, parse, parse_xml,
    plist_tokens, plist_xml_tokens, tokens, value_end, value_end_of, Token, TokenView,
};
use crate::sorted::{filed, is_sorted, key_texts, keys, lemma_filed, slot_of};
use crate::text::{concat3, same};

verus! {

/// One token of a JSON value. A value is spelled out as a property list is: a collection
/// runs to the token that closes it, and in an object each value follows its key.
#[derive(Debug)]
pub enum Json {
    StartArray,
    StartObject,
    End,
    Null,
    Bool(bool),
    /// A number, in decimal.
    Number(String),
    Text(String),
}

/// The model of a [`Json`] token.
pub enum JsonView {
    StartArray,
    StartObject,
    End,
    Null,
    Bool(bool),
    Number(Seq<char>),
    Text(Seq<char>),
}

impl View for Json {
    type V = JsonView;

    open spec fn view(&self) -> JsonView {
        match *self {
            Json::StartArray => JsonView::StartArray,
            Json::StartObject => JsonView::StartObject,
            Json::End => JsonView::End,
            Json::Null => JsonView::Null,
            Json::Bool(b) => JsonView::Bool(b),
            Json::Number(n) => JsonView::Number(n@),
            Json::Text(s) => JsonView::Text(s@),
        }
    }
}

/// The models of a list of tokens.
pub open spec fn json_views(v: Seq<Json>) -> Seq<JsonView> {
    v.map_values(|j: Json| j@)
}

/// A property-list token, coerced to JSON. What JSON has no form for becomes text, or
/// null where it is a number that is none or a date that cannot be written.
pub open spec fn coerced(t: TokenView) -> JsonView {
    match t {
        TokenView::Array => JsonView::StartArray,
        TokenView::Dict => JsonView::StartObject,
        TokenView::End => JsonView::End,
        TokenView::Bool(b) => JsonView::Bool(b),
        TokenView::Bytes(d) => JsonView::Text("<"@ + decimal(d.len()) + " bytes>"@),
        TokenView::Moment(d) => match moment_text(d) {
            Some(s) => JsonView::Text(s),
            None => JsonView::Null,
        },
        TokenView::Int(n) => JsonView::Number(n),
        TokenView::Fraction(r) => if r == "NaN"@ || r == "inf"@ || r == "-inf"@ {
            JsonView::Null
        } else {
            JsonView::Number(r)
        },
        TokenView::Text(s) => JsonView::Text(s),
        TokenView::Ident(n) => JsonView::Number(decimal(n as nat)),
    }
}

/// The value that starts at `at`, coerced to JSON.
pub open spec fn value_json(plist: Seq<TokenView>, at: int) -> Seq<JsonView> {
    plist.subrange(at, value_end(plist, at)).map_values(|t: TokenView| coerced(t))
}

fn coerced_of(t: &Token) -> (r: Json)
    ensures
        r@ == coerced(t@),
{
    match t {
        Token::Array => Json::StartArray,
        Token::Dict => Json::StartObject,
        Token::End => Json::End,
        Token::Bool(b) => Json::Bool(*b),
        Token::Bytes(d) => Json::Text(concat3("<", decimal_of(d.len() as u64).as_str(), " bytes>")),
        Token::Moment(d) => match moment_text_of(d) {
            Some(s) => Json::Text(s),
            None => Json::Null,
        },
        Token::Int(n) => Json::Number(n.clone()),
        Token::Fraction(r) => {
            let s = r.as_str();
            if same(s, "NaN") || same(s, "inf") || same(s, "-inf") {
                Json::Null
            } else {
                Json::Number(r.clone())
            }
        },
        Token::Text(s) => Json::Text(s.clone()),
        Token::Ident(n) => Json::Number(decimal_of(*n)),
    }
}

/// The value that starts at `at`, coerced to JSON.
pub fn plist_to_json(plist: &Vec<Token>, at: usize) -> (r: Vec<Json>)
    requires
        at < plist.len(),
    ensures
        json_views(r@) == value_json(tokens(plist@), at as int),
{
    let end = value_end_of(plist, at);
    let ghost toks = tokens(plist@);
    let ghost all = value_json(toks, at as int);
    let mut out: Vec<Json> = Vec::new();
    let mut i: usize = at;
    assert(json_views(out@) =~= all.take(0));
    while i < end
        invariant
            at <= i <= end <= plist@.len(),
            toks == tokens(plist@),
            all == value_json(toks, at as int),
            end == value_end(toks, at as int),
            json_views(out@) == all.take(i - at),
        decreases end - i,
    {
        let j = coerced_of(&plist[i]);
        assert(all[i - at] == coerced(toks[i as int]));
        let ghost before = json_views(out@);
        out.push(j);
        assert(json_views(out@) =~= before.push(j@));
        assert(json_views(out@) =~= all.take(i + 1 - at));
        i = i + 1;
    }
    assert(all.take(end - at) =~= all);
    out
}

/// The first `n` entries of a dictionary, coerced to JSON and sorted by key.
pub open spec fn raw_entries(
    plist: Seq<TokenView>,
    list: Seq<(Seq<char>, int)>,
    n: nat,
) -> Seq<(Seq<char>, Seq<JsonView>)>
    decreases n,
{
    if n == 0 || n > list.len() {
        Seq::empty()
    } else {
        filed(
            raw_entries(plist, list, (n - 1) as nat),
            list[n - 1].0,
            value_json(plist, list[n - 1].1),
        )
    }
}

/// The models of a list of keyed values.
pub open spec fn raw_views(v: Seq<(String, Vec<Json>)>) -> Seq<(Seq<char>, Seq<JsonView>)> {
    v.map_values(|e: (String, Vec<Json>)| (e.0@, json_views(e.1@)))
}

/// The entitlements of a bundle.
#[derive(Debug)]
pub struct Entitlements {
    /// Whether `codesign` returned any entitlements at all.
    pub present: bool,
    /// Every entitlement key/value pair parsed from the plist, JSON-coerced, by key.
    pub raw: Vec<(String, Vec<Json>)>,
    pub allow_jit: bool,
    pub allow_unsigned_executable_memory: bool,
    pub disable_executable_page_protection: bool,
    pub allow_dyld_environment_variables: bool,
    pub disable_library_validation: bool,
    pub get_task_allow: bool,
}

/// The model of [`Entitlements`].
pub struct EntitlementsView {
    pub present: bool,
    pub raw: Seq<(Seq<char>, Seq<JsonView>)>,
    pub allow_jit: bool,
    pub allow_unsigned_executable_memory: bool,
    pub disable_executable_page_protection: bool,
    pub allow_dyld_environment_variables: bool,
    pub disable_library_validation: bool,
    pub get_task_allow: bool,
}

impl View for Entitlements {
    type V = EntitlementsView;

    open spec fn view(&self) -> EntitlementsView {
        EntitlementsView {
            present: self.present,
            raw: raw_views(self.raw@),
            allow_jit: self.allow_jit,
            allow_unsigned_executable_memory: self.allow_unsigned_executable_memory,
            disable_executable_page_protection: self.disable_executable_page_protection,
            allow_dyld_environment_variables: self.allow_dyld_environment_variables,
            disable_library_validation: self.disable_library_validation,
            get_task_allow: self.get_task_allow,
        }
    }
}

/// No entitlements.
pub open spec fn no_entitlements() -> EntitlementsView {
    EntitlementsView {
        present: false,
        raw: Seq::empty(),
        allow_jit: false,
        allow_unsigned_executable_memory: false,
        disable_executable_page_protection: false,
        allow_dyld_environment_variables: false,
        disable_library_validation: false,
        get_task_allow: false,
    }
}

impl Default for Entitlements {
    fn default() -> (r: Entitlements)
        ensures
            r@ == no_entitlements(),
    {
        let r = Entitlements {
            present: false,
            raw: Vec::new(),
            allow_jit: false,
            allow_unsigned_executable_memory: false,
            disable_executable_page_protection: false,
            allow_dyld_environment_variables: false,
            disable_library_validation: false,
            get_task_allow: false,
        };
        assert(raw_views(r.raw@) =~= Seq::empty());
        r
    }
}

/// The entitlements that a property list states.
pub open spec fn entitled(plist: Seq<TokenView>) -> EntitlementsView {
    if !dict_at(plist, 0) {
        no_entitlements()
    } else {
        EntitlementsView {
            present: true,
            raw: raw_entries(plist, entries(plist, 0), entries(plist, 0).len()),
            allow_jit: get_bool(plist, 0, "com.apple.security.cs.allow-jit"@) == Some(true),
            allow_unsigned_executable_memory: get_bool(
                plist,
                0,
                "com.apple.security.cs.allow-unsigned-executable-memory"@,
            ) == Some(true),
            disable_executable_page_protection: get_bool(
                plist,
                0,
                "com.apple.security.cs.disable-executable-page-protection"@,
            ) == Some(true),
            allow_dyld_environment_variables: get_bool(
                plist,
                0,
                "com.apple.security.cs.allow-dyld-environment-variables"@,
            ) == Some(true),
            disable_library_validation: get_bool(
                plist,
                0,
                "com.apple.security.cs.disable-library-validation"@,
            ) == Some(true),
            get_task_allow: get_bool(plist, 0, "com.apple.security.get-task-allow"@) == Some(true),
        }
    }
}

fn flag(plist: &Vec<Token>, key: &str) -> (r: bool)
    ensures
        r == (get_bool(tokens(plist@), 0, key@) == Some(true)),
{
    match get_bool_of(plist, 0, key) {
        Some(b) => b,
        None => false,
    }
}

fn file_entry(raw: &mut Vec<(String, Vec<Json>)>, key: String, value: Vec<Json>)
    ensures
        raw_views(final(raw)@) == filed(raw_views(old(raw)@), key@, json_views(value@)),
{
    let ghost list = raw_views(raw@);
    assert(key_texts(raw@) =~= keys(list));
    let k = slot_of(raw, key.as_str());
    assert(k < list.len() ==> list[k as int].0 == raw@[k as int].0@);
    if k < raw.len() && same(raw[k].0.as_str(), key.as_str()) {
        raw.set(k, (key, value));
        assert(raw_views(raw@) =~= list.update(k as int, (key@, json_views(value@))));
    } else {
        raw.insert(k, (key, value));
        assert(raw_views(raw@) =~= list.insert(k as int, (key@, json_views(value@))));
    }
}

/// The entitlements that a parsed property list states.
pub fn entitlements_of(plist: &Vec<Token>) -> (r: Entitlements)
    ensures
        r@ == entitled(tokens(plist@)),
{
    if !is_dict_of(plist, 0) {
        return Entitlements::default();
    }
    let list = entries_of(plist, 0);
    let ghost all = keyed(list@);
    let ghost toks = tokens(plist@);
    let mut raw: Vec<(String, Vec<Json>)> = Vec::new();
    let mut i: usize = 0;
    assert(raw_views(raw@) =~= Seq::empty());
    while i < list.len()
        invariant
            i <= list@.len(),
            all == keyed(list@),
            toks == tokens(plist@),
            forall|k: int| 0 <= k < list@.len() ==> (#[trigger] list@[k]).1 < plist@.len(),
            raw_views(raw@) == raw_entries(toks, all, i as nat),
        decreases list.len() - i,
    {
        assert(all[i as int] == (list@[i as int].0@, list@[i as int].1 as int));
        let value = plist_to_json(plist, list[i].1);
        file_entry(&mut raw, list[i].0.clone(), value);
        i = i + 1;
    }
    Entitlements {
        present: true,
        raw,
        allow_jit: flag(plist, "com.apple.security.cs.allow-jit"),
        allow_unsigned_executable_memory: flag(
            plist,
            "com.apple.security.cs.allow-unsigned-executable-memory",
        ),
        disable_executable_page_protection: flag(
            plist,
            "com.apple.security.cs.disable-executable-page-protection",
        ),
        allow_dyld_environment_variables: flag(
            plist,
            "com.apple.security.cs.allow-dyld-environment-variables",
        ),
        disable_library_validation: flag(plist, "com.apple.security.cs.disable-library-validation"),
        get_task_allow: flag(plist, "com.apple.security.get-task-allow"),
    }
}

/// What one run of `codesign` printed: some entitlements come on stdout, some on stderr.
pub fn combined(stdout: Vec<u8>, stderr: Vec<u8>) -> (r: Vec<u8>)
    ensures
        r@ == if stdout@.len() == 0 {
            stderr@
        } else {
            stdout@
        },
{
    if stdout.len() == 0 {
        stderr
    } else {
        stdout
    }
}

/// Whether the legacy form of the command is to be run: the modern one could not be, or
/// printed nothing.
pub fn needs_legacy(modern: &Option<Vec<u8>>) -> (r: bool)
    ensures
        r == match *modern {
            Some(b) => b@.len() == 0,
            None => true,
        },
{
    match modern {
        Some(b) => b.len() == 0,
        None => true,
    }
}

/// The entitlements in what `codesign` printed.
pub open spec fn printed(bytes: Seq<u8>) -> EntitlementsView {
    if bytes.len() == 0 {
        no_entitlements()
    } else {
        match plist_xml_tokens(bytes) {
            Some(plist) => entitled(plist),
            None => match plist_tokens(bytes) {
                Some(plist) => entitled(plist),
                None => no_entitlements(),
            },
        }
    }
}

/// The entitlements in what the two forms of the command printed, where they ran.
pub open spec fn printed_by(modern: Option<Seq<u8>>, legacy: Option<Seq<u8>>) -> EntitlementsView {
    match (modern, legacy) {
        (Some(m), _) if m.len() > 0 => printed(m),
        (_, Some(l)) => printed(l),
        _ => no_entitlements(),
    }
}

/// The entitlements in what `codesign` printed, `modern` unless the legacy form had to be
/// run.
pub fn read(modern: Option<Vec<u8>>, legacy: Option<Vec<u8>>) -> (r: Entitlements)
    ensures
        r@ == printed_by(
            match modern {
                Some(m) => Some(m@),
                None => None,
            },
            match legacy {
                Some(l) => Some(l@),
                None => None,
            },
        ),
{
    let chosen = if needs_legacy(&modern) {
        legacy
    } else {
        modern
    };
    let bytes = match chosen {
        Some(b) => b,
        None => {
            return Entitlements::default();
        },
    };
    if bytes.len() == 0 {
        return Entitlements::default();
    }
    match parse_xml(bytes.as_slice()) {
        Some(plist) => entitlements_of(&plist),
        // Some macOS versions emit binary plist when asked via `:-`.
        None => match parse(bytes.as_slice()) {
            Some(plist) => entitlements_of(&plist),
            None => Entitlements::default(),
        },
    }
}

/// The raw entitlements are sorted by key, each key once.
pub proof fn lemma_raw_is_sorted(plist: Seq<TokenView>)
    ensures
        is_sorted(entitled(plist).raw),
{
    if dict_at(plist, 0) {
        lemma_raw_entries(plist, entries(plist, 0), entries(plist, 0).len());
    }
}

proof fn lemma_raw_entries(plist: Seq<TokenView>, list: Seq<(Seq<char>, int)>, n: nat)
    ensures
        is_sorted(raw_entries(plist, list, n)),
    decreases n,
{
    if n > 0 && n <= list.len() {
        lemma_raw_entries(plist, list, (n - 1) as nat);
        lemma_filed(
            raw_entries(plist, list, (n - 1) as nat),
            list[n - 1].0,
            value_json(plist, list[n - 1].1),
        );
    }
}

} // verus!
