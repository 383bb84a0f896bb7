//! Surface hardening-relevant fields from `Contents/Info.plist`.
//!
//! The goal isn't to reproduce every property — just the ones that materially
//! change the app's security posture:
//!
//! - `NSAllowsArbitraryLoads` and domain-specific ATS exceptions
//! - Registered URL schemes (an attack surface for any scheme handler)
//! - TLS minimum-version and insecure-HTTP exception dicts

use vstd::prelude::*;

use crate::audit::asar::info_plist_path;
use crate::detect::{plist_at, read_plist};
use crate::path::push_of;
use crate::plist::{
    bool_at, bool_at_of, dict_at, entries, entries_of, get, get_bool, get_bool_of, get_either,
    get_either_of, get_of, is_dict_of, items, items_of, keyed, positions, text_at, text_at_of,
    tokens, Token, TokenView,
};
use crate::text::{opt_text, texts};
use crate::vfs::{MemTree, Tree};

verus! {

/// An exception that an app makes for a domain.
#[derive(Debug)]
pub struct TlsException {
    pub domain: String,
    pub allows_insecure_http: bool,
    pub minimum_tls_version: Option<String>,
    pub requires_forward_secrecy: bool,
}

/// The model of a [`TlsException`].
pub struct ExceptionView {
    pub domain: Seq<char>,
    pub allows_insecure_http: bool,
    pub minimum_tls_version: Option<Seq<char>>,
    pub requires_forward_secrecy: bool,
}

impl View for TlsException {
    type V = ExceptionView;

    open spec fn view(&self) -> ExceptionView {
        ExceptionView {
            domain: self.domain@,
            allows_insecure_http: self.allows_insecure_http,
            minimum_tls_version: opt_text(self.minimum_tls_version),
            requires_forward_secrecy: self.requires_forward_secrecy,
        }
    }
}

/// The models of a list of exceptions.
pub open spec fn exception_views(v: Seq<TlsException>) -> Seq<ExceptionView> {
    v.map_values(|e: TlsException| e@)
}

/// What an `Info.plist` declares.
#[derive(Debug)]
pub struct InfoPlistFlags {
    /// Whether `Contents/Info.plist` was found and parsed at all.
    pub present: bool,
    /// `NSAppTransportSecurity.NSAllowsArbitraryLoads`. Usually a red flag.
    pub allows_arbitrary_loads: bool,
    /// `NSAppTransportSecurity.NSAllowsLocalNetworking`.
    pub allows_local_networking: bool,
    /// Every URL scheme the bundle registers (`CFBundleURLTypes`).
    pub url_schemes: Vec<String>,
    /// Per-domain TLS exceptions from `NSExceptionDomains`.
    pub tls_exceptions: Vec<TlsException>,
}

/// The model of [`InfoPlistFlags`].
pub struct FlagsView {
    pub present: bool,
    pub allows_arbitrary_loads: bool,
    pub allows_local_networking: bool,
    pub url_schemes: Seq<Seq<char>>,
    pub tls_exceptions: Seq<ExceptionView>,
}

impl View for InfoPlistFlags {
    type V = FlagsView;

    open spec fn view(&self) -> FlagsView {
        FlagsView {
            present: self.present,
            allows_arbitrary_loads: self.allows_arbitrary_loads,
            allows_local_networking: self.allows_local_networking,
            url_schemes: texts(self.url_schemes@),
            tls_exceptions: exception_views(self.tls_exceptions@),
        }
    }
}

/// Nothing declared.
pub open spec fn no_flags() -> FlagsView {
    FlagsView {
        present: false,
        allows_arbitrary_loads: false,
        allows_local_networking: false,
        url_schemes: Seq::empty(),
        tls_exceptions: Seq::empty(),
    }
}

impl Default for InfoPlistFlags {
    fn default() -> (r: InfoPlistFlags)
        ensures
            r@ == no_flags(),
    {
        let r = InfoPlistFlags {
            present: false,
            allows_arbitrary_loads: false,
            allows_local_networking: false,
            url_schemes: Vec::new(),
            tls_exceptions: Vec::new(),
        };
        assert(texts(r.url_schemes@) =~= Seq::empty());
        assert(exception_views(r.tls_exceptions@) =~= Seq::empty());
        r
    }
}

/// A flag of a dictionary, by the temporary key before the lasting one; `otherwise` where
/// it is not there or no boolean.
pub open spec fn either_flag(
    plist: Seq<TokenView>,
    at: int,
    first: Seq<char>,
    second: Seq<char>,
    otherwise: bool,
) -> bool {
    match get_either(plist, at, first, second) {
        Some(j) => match bool_at(plist, j) {
            Some(b) => b,
            None => otherwise,
        },
        None => otherwise,
    }
}

/// The exception that a domain's entry makes; none where it is no dictionary.
pub open spec fn exception(plist: Seq<TokenView>, entry: (Seq<char>, int)) -> Option<ExceptionView> {
    if !dict_at(plist, entry.1) {
        None
    } else {
        Some(
            ExceptionView {
                domain: entry.0,
                allows_insecure_http: either_flag(
                    plist,
                    entry.1,
                    "NSTemporaryExceptionAllowsInsecureHTTPLoads"@,
                    "NSExceptionAllowsInsecureHTTPLoads"@,
                    false,
                ),
                minimum_tls_version: match get_either(
                    plist,
                    entry.1,
                    "NSTemporaryExceptionMinimumTLSVersion"@,
                    "NSExceptionMinimumTLSVersion"@,
                ) {
                    Some(j) => text_at(plist, j),
                    None => None,
                },
                requires_forward_secrecy: either_flag(
                    plist,
                    entry.1,
                    "NSTemporaryExceptionRequiresForwardSecrecy"@,
                    "NSExceptionRequiresForwardSecrecy"@,
                    true,
                ),
            },
        )
    }
}

/// The exceptions that a list of domains makes, in order.
pub open spec fn exceptions(plist: Seq<TokenView>, list: Seq<(Seq<char>, int)>) -> Seq<
    ExceptionView,
>
    decreases list.len(),
{
    if list.len() == 0 {
        Seq::empty()
    } else {
        let rest = exceptions(plist, list.drop_last());
        match exception(plist, list.last()) {
            Some(e) => rest.push(e),
            None => rest,
        }
    }
}

/// The texts among a list of values, in order.
pub open spec fn texts_among(plist: Seq<TokenView>, list: Seq<int>) -> Seq<Seq<char>>
    decreases list.len(),
{
    if list.len() == 0 {
        Seq::empty()
    } else {
        let rest = texts_among(plist, list.drop_last());
        match text_at(plist, list.last()) {
            Some(s) => rest.push(s),
            None => rest,
        }
    }
}

/// The schemes that a URL type registers.
pub open spec fn type_schemes(plist: Seq<TokenView>, at: int) -> Seq<Seq<char>> {
    match get(plist, at, "CFBundleURLSchemes"@) {
        Some(j) => texts_among(plist, items(plist, j)),
        None => Seq::empty(),
    }
}

/// The schemes that a list of URL types registers, in order.
pub open spec fn schemes(plist: Seq<TokenView>, list: Seq<int>) -> Seq<Seq<char>>
    decreases list.len(),
{
    if list.len() == 0 {
        Seq::empty()
    } else {
        schemes(plist, list.drop_last()) + type_schemes(plist, list.last())
    }
}

/// The dictionary under `key` in the dictionary at `at`.
pub open spec fn dict_under(plist: Seq<TokenView>, at: int, key: Seq<char>) -> Option<int> {
    match get(plist, at, key) {
        Some(j) => if dict_at(plist, j) {
            Some(j)
        } else {
            None
        },
        None => None,
    }
}

/// What a property list declares.
pub open spec fn flags(plist: Seq<TokenView>) -> FlagsView {
    if !dict_at(plist, 0) {
        no_flags()
    } else {
        let ats = dict_under(plist, 0, "NSAppTransportSecurity"@);
        FlagsView {
            present: true,
            allows_arbitrary_loads: ats is Some && get_bool(
                plist,
                ats->0,
                "NSAllowsArbitraryLoads"@,
            ) == Some(true),
            allows_local_networking: ats is Some && get_bool(
                plist,
                ats->0,
                "NSAllowsLocalNetworking"@,
            ) == Some(true),
            url_schemes: match get(plist, 0, "CFBundleURLTypes"@) {
                Some(j) => schemes(plist, items(plist, j)),
                None => Seq::empty(),
            },
            tls_exceptions: if ats is Some {
                match dict_under(plist, ats->0, "NSExceptionDomains"@) {
                    Some(j) => exceptions(plist, entries(plist, j)),
                    None => Seq::empty(),
                }
            } else {
                Seq::empty()
            },
        }
    }
}

fn dict_under_of(plist: &Vec<Token>, at: usize, key: &str) -> (r: Option<usize>)
    ensures
        match r {
            Some(j) => dict_under(tokens(plist@), at as int, key@) == Some(j as int),
            None => dict_under(tokens(plist@), at as int, key@) is None,
        },
{
    match get_of(plist, at, key) {
        Some(j) => {
            if is_dict_of(plist, j) {
                Some(j)
            } else {
                None
            }
        },
        None => None,
    }
}

fn either_flag_of(plist: &Vec<Token>, at: usize, first: &str, second: &str, otherwise: bool) -> (r:
    bool)
    ensures
        r == either_flag(tokens(plist@), at as int, first@, second@, otherwise),
{
    match get_either_of(plist, at, first, second) {
        Some(j) => match bool_at_of(plist, j) {
            Some(b) => b,
            None => otherwise,
        },
        None => otherwise,
    }
}

fn exception_of(plist: &Vec<Token>, domain: &str, at: usize) -> (r: Option<TlsException>)
    ensures
        match r {
            Some(e) => exception(tokens(plist@), (domain@, at as int)) == Some(e@),
            None => exception(tokens(plist@), (domain@, at as int)) is None,
        },
{
    if !is_dict_of(plist, at) {
        return None;
    }
    let minimum_tls_version = match get_either_of(
        plist,
        at,
        "NSTemporaryExceptionMinimumTLSVersion",
        "NSExceptionMinimumTLSVersion",
    ) {
        Some(j) => text_at_of(plist, j),
        None => None,
    };
    Some(
        TlsException {
            domain: domain.to_owned(),
            allows_insecure_http: either_flag_of(
                plist,
                at,
                "NSTemporaryExceptionAllowsInsecureHTTPLoads",
                "NSExceptionAllowsInsecureHTTPLoads",
                false,
            ),
            minimum_tls_version,
            requires_forward_secrecy: either_flag_of(
                plist,
                at,
                "NSTemporaryExceptionRequiresForwardSecrecy",
                "NSExceptionRequiresForwardSecrecy",
                true,
            ),
        },
    )
}

fn exceptions_of(plist: &Vec<Token>, at: usize) -> (r: Vec<TlsException>)
    ensures
        exception_views(r@) == exceptions(tokens(plist@), entries(tokens(plist@), at as int)),
{
    let list = entries_of(plist, at);
    let ghost all = keyed(list@);
    let ghost toks = tokens(plist@);
    let mut out: Vec<TlsException> = Vec::new();
    let mut i: usize = 0;
    assert(all.take(0) =~= Seq::empty());
    assert(exception_views(out@) =~= Seq::empty());
    while i < list.len()
        invariant
            i <= list@.len(),
            all == keyed(list@),
            toks == tokens(plist@),
            exception_views(out@) == exceptions(toks, all.take(i as int)),
        decreases list.len() - i,
    {
        assert(all.take(i + 1).drop_last() =~= all.take(i as int));
        assert(all.take(i + 1).last() == (list@[i as int].0@, list@[i as int].1 as int));
        match exception_of(plist, list[i].0.as_str(), list[i].1) {
            Some(e) => {
                let ghost before = exception_views(out@);
                out.push(e);
                assert(exception_views(out@) =~= before.push(e@));
            },
            None => {},
        }
        i = i + 1;
    }
    assert(all.take(all.len() as int) =~= all);
    out
}

fn push_schemes(plist: &Vec<Token>, at: usize, out: &mut Vec<String>)
    ensures
        texts(final(out)@) == texts(old(out)@) + type_schemes(tokens(plist@), at as int),
{
    let ghost start = texts(out@);
    assert(start + Seq::<Seq<char>>::empty() =~= start);
    let list = match get_of(plist, at, "CFBundleURLSchemes") {
        Some(j) => items_of(plist, j),
        None => {
            return;
        },
    };
    let ghost all = positions(list@);
    let ghost toks = tokens(plist@);
    let mut i: usize = 0;
    assert(all.take(0) =~= Seq::empty());
    while i < list.len()
        invariant
            i <= list@.len(),
            all == positions(list@),
            toks == tokens(plist@),
            texts(out@) == start + texts_among(toks, all.take(i as int)),
        decreases list.len() - i,
    {
        assert(all.take(i + 1).drop_last() =~= all.take(i as int));
        assert(all.take(i + 1).last() == list@[i as int] as int);
        match text_at_of(plist, list[i]) {
            Some(s) => {
                let ghost before = texts(out@);
                out.push(s);
                assert(texts(out@) =~= before.push(s@));
                assert(start + texts_among(toks, all.take(i + 1)) =~= before.push(s@));
            },
            None => {},
        }
        i = i + 1;
    }
    assert(all.take(all.len() as int) =~= all);
}

fn schemes_of(plist: &Vec<Token>) -> (r: Vec<String>)
    ensures
        texts(r@) == match get(tokens(plist@), 0, "CFBundleURLTypes"@) {
            Some(j) => schemes(tokens(plist@), items(tokens(plist@), j)),
            None => Seq::empty(),
        },
{
    let mut out: Vec<String> = Vec::new();
    assert(texts(out@) =~= Seq::empty());
    let list = match get_of(plist, 0, "CFBundleURLTypes") {
        Some(j) => items_of(plist, j),
        None => {
            return out;
        },
    };
    let ghost all = positions(list@);
    let ghost toks = tokens(plist@);
    let mut i: usize = 0;
    assert(all.take(0) =~= Seq::empty());
    while i < list.len()
        invariant
            i <= list@.len(),
            all == positions(list@),
            toks == tokens(plist@),
            texts(out@) == schemes(toks, all.take(i as int)),
        decreases list.len() - i,
    {
        assert(all.take(i + 1).drop_last() =~= all.take(i as int));
        assert(all.take(i + 1).last() == list@[i as int] as int);
        push_schemes(plist, list[i], &mut out);
        i = i + 1;
    }
    assert(all.take(all.len() as int) =~= all);
    out
}

/// What a parsed property list declares.
pub fn flags_of(plist: &Vec<Token>) -> (r: InfoPlistFlags)
    ensures
        r@ == flags(tokens(plist@)),
{
    if !is_dict_of(plist, 0) {
        return InfoPlistFlags::default();
    }
    let mut r = InfoPlistFlags::default();
    r.present = true;
    r.url_schemes = schemes_of(plist);
    match dict_under_of(plist, 0, "NSAppTransportSecurity") {
        Some(ats) => {
            r.allows_arbitrary_loads = match get_bool_of(plist, ats, "NSAllowsArbitraryLoads") {
                Some(b) => b,
                None => false,
            };
            r.allows_local_networking = match get_bool_of(plist, ats, "NSAllowsLocalNetworking") {
                Some(b) => b,
                None => false,
            };
            match dict_under_of(plist, ats, "NSExceptionDomains") {
                Some(j) => {
                    r.tls_exceptions = exceptions_of(plist, j);
                },
                None => {},
            }
        },
        None => {},
    }
    r
}

/// What the `Info.plist` of the bundle at `app` declares.
pub open spec fn flags_at(t: Tree, app: Seq<char>) -> FlagsView {
    match plist_at(t, info_plist_path(app)) {
        Some(plist) => flags(plist),
        None => no_flags(),
    }
}

/// What the `Info.plist` of a bundle declares.
pub fn read(tree: &MemTree, app_path: &str) -> (r: InfoPlistFlags)
    ensures
        r@ == flags_at(tree@, app_path@),
{
    match read_plist(tree, push_of(app_path, "Contents/Info.plist").as_str()) {
        Some(plist) => flags_of(&plist),
        None => InfoPlistFlags::default(),
    }
}

/// A list that declares no transport security makes no exception, and forward secrecy is
/// waived only where an exception says so.
pub proof fn lemma_exceptions_are_declared(plist: Seq<TokenView>)
    ensures
        dict_under(plist, 0, "NSAppTransportSecurity"@) is None ==> {
            &&& !flags(plist).allows_arbitrary_loads
            &&& !flags(plist).allows_local_networking
            &&& flags(plist).tls_exceptions == Seq::<ExceptionView>::empty()
        },
        forall|entry: (Seq<char>, int)|
            (#[trigger] exception(plist, entry)) matches Some(e) && !e.requires_forward_secrecy
                ==> get_either(
                plist,
                entry.1,
                "NSTemporaryExceptionRequiresForwardSecrecy"@,
                "NSExceptionRequiresForwardSecrecy"@,
            ) is Some,
{
}

} // verus!
