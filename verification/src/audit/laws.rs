//! What the audit promises, whatever the application.

use vstd::prelude::*;
use vstd::utf8::{decode_utf8, encode_utf8, encode_utf8_decode_utf8, encode_utf8_valid_utf8, valid_utf8};

use crate::audit::asar::{
    check_views, checked, checked_all, file_hash, header, hex_digits, informed, sha256, verified,
    CheckView,
};
use crate::audit::linux::{
    binds_now, flatpak_grants, grants, hardening, in_context, item_grants, line_grants,
    metadata_above, nearest_metadata, sandboxed, segment_flags, RelroKind,
};
use crate::audit::macos::code_signature::{authorities, reported, team, team_in};
use crate::audit::macos::entitlements::{
    coerced, entitled, printed, printed_by, raw_entries, value_json, JsonView,
};
use crate::audit::macos::info_plist::{
    either_flag, exception, exceptions, flags, schemes, texts_among, type_schemes, ExceptionView,
};
use crate::audit::windows::{
    certificate_der, execution_level, mitigations, quoted_value, signature, signer_names, with_trust,
    CertificateView, SignedView, Trust,
};
use crate::audit::{audits, AppAudit, HostFacts};
use crate::bytes::{first_byte, le16, le32};
use crate::detect::plist_at;
use crate::detect::strings::{first_place, occurs_at};
use crate::num::decimal;
use crate::object::{elf_of, object_of, ElfView, ObjectView, PeOptional};
use crate::path::{is_absolute, parts, pushed, pushed_all, seen_from};
use crate::plist::{
    dict_at, entries, get, get_bool, get_text, items, lemma_get_is_first_entry, lemma_value_end,
    moment_text, plist_tokens, plist_xml_tokens, text_at, value_end, TokenView,
};
use crate::sorted::{is_sorted, lemma_filed, lemma_filed_members};
use crate::text::{
    closes, first_in, holds, lemma_first_in, lemma_split_head, lower, opens, split, trim, trim_start,
    CharClass,
};
use crate::vfs::{contents, file_at, Platform, Tree};

verus! {

// ---------- entitlements ----------------------------------------------------

/// Whether no key of the dictionary at the front occurs twice.
pub open spec fn has_own_keys(plist: Seq<TokenView>) -> bool {
    forall|i: int, j: int|
        0 <= i < j < entries(plist, 0).len() ==> (#[trigger] entries(plist, 0)[i]).0 != (
        #[trigger] entries(plist, 0)[j]).0
}

proof fn lemma_raw(plist: Seq<TokenView>, n: nat, key: Seq<char>, v: Seq<JsonView>)
    requires
        n <= entries(plist, 0).len(),
        has_own_keys(plist),
    ensures
        is_sorted(raw_entries(plist, entries(plist, 0), n)),
        raw_entries(plist, entries(plist, 0), n).contains((key, v)) <==> exists|k: int|
            0 <= k < n && (#[trigger] entries(plist, 0)[k]).0 == key && value_json(
                plist,
                entries(plist, 0)[k].1,
            ) == v,
    decreases n,
{
    let list = entries(plist, 0);
    if n > 0 {
        lemma_raw(plist, (n - 1) as nat, key, v);
        let before = raw_entries(plist, list, (n - 1) as nat);
        let last = list[n - 1];
        let value = value_json(plist, last.1);
        lemma_filed(before, last.0, value);
        lemma_filed_members(before, last.0, value, key, v);
        if key == last.0 {
            assert forall|k: int| 0 <= k < n && (#[trigger] list[k]).0 == key implies k == n - 1 by {
                if k < n - 1 {
                    assert(list[k].0 != list[n - 1].0);
                }
            }
            if v == value {
                assert(list[n - 1].0 == key);
            }
        }
    }
}

/// Whether the listed entitlements map a key to true.
pub open spec fn grants_true(raw: Seq<(Seq<char>, Seq<JsonView>)>, key: Seq<char>) -> bool {
    raw.contains((key, seq![JsonView::Bool(true)]))
}

proof fn lemma_flag(plist: Seq<TokenView>, key: Seq<char>)
    requires
        has_own_keys(plist),
        dict_at(plist, 0),
    ensures
        get_bool(plist, 0, key) == Some(true) <==> grants_true(entitled(plist).raw, key),
{
    let list = entries(plist, 0);
    let yes = seq![JsonView::Bool(true)];
    lemma_raw(plist, list.len(), key, yes);
    lemma_get_is_first_entry(plist, 0, key);
    if get_bool(plist, 0, key) == Some(true) {
        let j = get(plist, 0, key)->0;
        let k = choose|k: int| 0 <= k < list.len() && #[trigger] list[k] == (key, j);
        assert(value_json(plist, j) =~= yes);
        assert(list[k].0 == key);
    }
    if grants_true(entitled(plist).raw, key) {
        let k = choose|k: int|
            0 <= k < list.len() && (#[trigger] list[k]).0 == key && value_json(plist, list[k].1)
                == yes;
        let j = get(plist, 0, key)->0;
        let m = choose|m: int|
            0 <= m < list.len() && #[trigger] list[m] == (key, j) && forall|x: int|
                0 <= x < m ==> (#[trigger] list[x]).0 != key;
        if m < k {
            assert(list[m].0 != list[k].0);
        }
        assert(m == k);
        lemma_entry_lies_within(plist, k);
        let v = value_json(plist, j);
        lemma_value_end(plist, j);
        assert(v[0] == coerced(plist[j]));
    }
}

proof fn lemma_entries_lie_within(t: Seq<TokenView>, i: int, k: int)
    requires
        0 <= i <= t.len(),
        0 <= k < crate::plist::entries_from(t, i).len(),
    ensures
        0 <= crate::plist::entries_from(t, i)[k].1 < t.len(),
    decreases t.len() - i,
{
    lemma_value_end(t, i + 1);
    let next = value_end(t, i + 1);
    let rest = crate::plist::entries_from(t, next);
    if k > 0 {
        assert(crate::plist::entries_from(t, i)[k] == rest[k - 1]);
        lemma_entries_lie_within(t, next, k - 1);
    }
}

proof fn lemma_entry_lies_within(plist: Seq<TokenView>, k: int)
    requires
        0 <= k < entries(plist, 0).len(),
    ensures
        0 <= entries(plist, 0)[k].1 < plist.len(),
{
    lemma_entries_lie_within(plist, 1, k);
}

/// Each flag agrees with the entitlements listed beside it: it holds exactly where its own
/// key, as Apple names it, is mapped to true.
pub proof fn lemma_flags_agree_with_raw(plist: Seq<TokenView>)
    requires
        has_own_keys(plist),
    ensures
        ({
            let e = entitled(plist);
            &&& e.present <==> dict_at(plist, 0)
            &&& e.allow_jit <==> grants_true(e.raw, "com.apple.security.cs.allow-jit"@)
            &&& e.allow_unsigned_executable_memory <==> grants_true(
                e.raw,
                "com.apple.security.cs.allow-unsigned-executable-memory"@,
            )
            &&& e.disable_executable_page_protection <==> grants_true(
                e.raw,
                "com.apple.security.cs.disable-executable-page-protection"@,
            )
            &&& e.allow_dyld_environment_variables <==> grants_true(
                e.raw,
                "com.apple.security.cs.allow-dyld-environment-variables"@,
            )
            &&& e.disable_library_validation <==> grants_true(
                e.raw,
                "com.apple.security.cs.disable-library-validation"@,
            )
            &&& e.get_task_allow <==> grants_true(e.raw, "com.apple.security.get-task-allow"@)
        }),
{
    if dict_at(plist, 0) {
        lemma_flag(plist, "com.apple.security.cs.allow-jit"@);
        lemma_flag(plist, "com.apple.security.cs.allow-unsigned-executable-memory"@);
        lemma_flag(plist, "com.apple.security.cs.disable-executable-page-protection"@);
        lemma_flag(plist, "com.apple.security.cs.allow-dyld-environment-variables"@);
        lemma_flag(plist, "com.apple.security.cs.disable-library-validation"@);
        lemma_flag(plist, "com.apple.security.get-task-allow"@);
    }
}

/// Every entitlement is listed once, under its key, with its value.
pub proof fn lemma_every_entitlement_is_listed(
    plist: Seq<TokenView>,
    key: Seq<char>,
    v: Seq<JsonView>,
)
    requires
        has_own_keys(plist),
        dict_at(plist, 0),
    ensures
        entitled(plist).raw.contains((key, v)) <==> exists|k: int|
            0 <= k < entries(plist, 0).len() && (#[trigger] entries(plist, 0)[k]).0 == key
                && value_json(plist, entries(plist, 0)[k].1) == v,
{
    lemma_raw(plist, entries(plist, 0).len(), key, v);
}

/// What JSON has a form for keeps it: text, truth values, numbers that are finite, and the
/// shape of collections; other things become text or nothing.
pub proof fn lemma_coerced_keeps(t: TokenView)
    ensures
        match t {
            TokenView::Array => coerced(t) == JsonView::StartArray,
            TokenView::Dict => coerced(t) == JsonView::StartObject,
            TokenView::End => coerced(t) == JsonView::End,
            TokenView::Bool(b) => coerced(t) == JsonView::Bool(b),
            TokenView::Text(s) => coerced(t) == JsonView::Text(s),
            TokenView::Int(n) => coerced(t) == JsonView::Number(n),
            TokenView::Fraction(r) => coerced(t) == JsonView::Number(r) || (coerced(t)
                == JsonView::Null && (r == "NaN"@ || r == "inf"@ || r == "-inf"@)),
            TokenView::Ident(n) => coerced(t) == JsonView::Number(decimal(n as nat)),
            TokenView::Bytes(d) => coerced(t) == JsonView::Text(
                "<"@ + decimal(d.len()) + " bytes>"@,
            ),
            TokenView::Moment(m) => moment_text(m) is Some ==> coerced(t) == JsonView::Text(
                moment_text(m)->0,
            ),
        },
{
}

/// The modern form of the command decides wherever it printed something, XML is tried first,
/// and what neither parser takes makes no entitlements.
pub proof fn lemma_modern_form_decides(modern: Option<Seq<u8>>, legacy: Option<Seq<u8>>)
    ensures
        modern matches Some(m) ==> (m.len() > 0 ==> printed_by(modern, legacy) == printed_by(
            modern,
            None,
        )),
        modern is None || modern == Some(Seq::<u8>::empty()) ==> printed_by(modern, legacy)
            == printed_by(legacy, None),
        modern matches Some(m) ==> (m.len() > 0 ==> (plist_xml_tokens(m) matches Some(p)
            ==> printed_by(modern, legacy) == entitled(p))),
        modern matches Some(m) ==> (m.len() > 0 && plist_xml_tokens(m) is None ==> (plist_tokens(m)
            matches Some(p) ==> printed_by(modern, legacy) == entitled(p))),
        modern is None && legacy is None ==> !printed_by(modern, legacy).present,
{
}

// ---------- code signatures -------------------------------------------------

/// A report is of a signed bundle exactly where it names an identifier and does not say
/// otherwise.
pub proof fn lemma_signed(report: Seq<char>)
    ensures
        reported(report).signed <==> holds(report, "Identifier="@) && !holds(
            report,
            "not signed at all"@,
        ) && !holds(report, "is not signed"@),
        reported(report).raw == report,
        reported(report).notarized <==> reported(report).signed && holds(
            report,
            "Notarization Ticket=stapled"@,
        ),
        reported(report).hardened_runtime <==> reported(report).signed && exists|i: int|
            0 <= i < split(report, CharClass::Only('\n')).len() && opens(
                #[trigger] split(report, CharClass::Only('\n'))[i],
                "CodeDirectory"@,
            ) && holds(split(report, CharClass::Only('\n'))[i], "(runtime)"@),
{
    let lines = split(report, CharClass::Only('\n'));
    assert forall|i: int| 0 <= i < lines.len() implies #[trigger]
    crate::audit::macos::code_signature::tells_runtime(lines[i]) == (opens(
        lines[i],
        "CodeDirectory"@,
    ) && holds(lines[i], "(runtime)"@)) by {}
    if exists|i: int|
        0 <= i < lines.len() && opens(#[trigger] lines[i], "CodeDirectory"@) && holds(
            lines[i],
            "(runtime)"@,
        ) {
        let i = choose|i: int|
            0 <= i < lines.len() && opens(#[trigger] lines[i], "CodeDirectory"@) && holds(
                lines[i],
                "(runtime)"@,
            );
        assert(crate::audit::macos::code_signature::tells_runtime(lines[i]));
    }
}

/// The team is the one that the last line on it names.
pub proof fn lemma_team(lines: Seq<Seq<char>>, id: Seq<char>)
    requires
        id.len() > 0,
        id != "not set"@,
        !CharClass::White.has(id[0]) && !CharClass::White.has(id.last()),
        id[0] != '"' && id.last() != '"',
    ensures
        team(lines.push("TeamIdentifier="@ + id), lines.len() + 1) == Some(id),
{
    let p = "TeamIdentifier="@;
    let line = p + id;
    let all = lines.push(line);
    assert(line.take(p.len() as int) =~= p);
    assert(line.skip(p.len() as int) =~= id);
    assert(trim_start(id, CharClass::White) == id);
    assert(trim(id, CharClass::White) == id);
    assert(trim_start(id, CharClass::Only('"')) == id);
    assert(trim(id, CharClass::Only('"')) == id);
    assert(all[all.len() - 1] == line);
}

/// A line that says that no team is set, or nothing on it, changes nothing.
pub proof fn lemma_no_team(lines: Seq<Seq<char>>, line: Seq<char>)
    requires
        !opens(line, "TeamIdentifier="@) || line == "TeamIdentifier=not set"@,
    ensures
        team(lines.push(line), lines.len() + 1) == team(lines, lines.len()),
{
    reveal_strlit("TeamIdentifier=");
    reveal_strlit("not set");
    reveal_strlit("TeamIdentifier=not set");
    if opens(line, "TeamIdentifier="@) {
        let id = line.skip(15);
        assert(id =~= "not set"@);
        assert("TeamIdentifier="@.len() == 15);
        assert(trim_start(id, CharClass::White) == id);
        assert(trim(id, CharClass::White) == id);
        assert(trim_start(id, CharClass::Only('"')) == id);
        assert(trim(id, CharClass::Only('"')) == id);
    }
    assert(team_in(line) is None);
    lemma_team_prefix(lines, line, lines.len());
}

proof fn lemma_team_prefix(lines: Seq<Seq<char>>, line: Seq<char>, n: nat)
    requires
        n <= lines.len(),
    ensures
        team(lines.push(line), n) == team(lines, n),
    decreases n,
{
    if n > 0 {
        lemma_team_prefix(lines, line, (n - 1) as nat);
    }
}

/// The authorities are listed in the order of their lines, and nothing else is.
pub proof fn lemma_authorities(lines: Seq<Seq<char>>, line: Seq<char>)
    ensures
        !opens(line, "Authority="@) ==> authorities(lines.push(line), lines.len() + 1)
            == authorities(lines, lines.len()),
        opens(line, "Authority="@) ==> authorities(lines.push(line), lines.len() + 1)
            == authorities(lines, lines.len()).push(
            trim(line.skip("Authority="@.len() as int), CharClass::White),
        ),
{
    lemma_authorities_prefix(lines, line, lines.len());
}

proof fn lemma_authorities_prefix(lines: Seq<Seq<char>>, line: Seq<char>, n: nat)
    requires
        n <= lines.len(),
    ensures
        authorities(lines.push(line), n) == authorities(lines, n),
    decreases n,
{
    if n > 0 {
        lemma_authorities_prefix(lines, line, (n - 1) as nat);
    }
}

// ---------- transport security ----------------------------------------------

/// The two global switches are read from the dictionary on transport security, and each from
/// its own key.
pub proof fn lemma_transport_switches(plist: Seq<TokenView>, at: int)
    requires
        dict_at(plist, 0),
        get(plist, 0, "NSAppTransportSecurity"@) == Some(at),
        dict_at(plist, at),
    ensures
        flags(plist).allows_arbitrary_loads <==> get_bool(plist, at, "NSAllowsArbitraryLoads"@)
            == Some(true),
        flags(plist).allows_local_networking <==> get_bool(plist, at, "NSAllowsLocalNetworking"@)
            == Some(true),
{
}

/// What an exception allows: the temporary form of a key comes first; insecure loads are
/// refused and forward secrecy is asked for unless it says otherwise.
pub proof fn lemma_exception_says(plist: Seq<TokenView>, domain: Seq<char>, at: int)
    requires
        dict_at(plist, at),
    ensures
        ({
            let e = exception(plist, (domain, at))->0;
            &&& exception(plist, (domain, at)) is Some
            &&& e.domain == domain
            &&& get(plist, at, "NSTemporaryExceptionAllowsInsecureHTTPLoads"@) is None && get(
                plist,
                at,
                "NSExceptionAllowsInsecureHTTPLoads"@,
            ) is None ==> !e.allows_insecure_http
            &&& get_bool(plist, at, "NSTemporaryExceptionAllowsInsecureHTTPLoads"@) matches Some(b)
                ==> e.allows_insecure_http == b
            &&& get(plist, at, "NSTemporaryExceptionAllowsInsecureHTTPLoads"@) is None ==> (get_bool(
                plist,
                at,
                "NSExceptionAllowsInsecureHTTPLoads"@,
            ) matches Some(b) ==> e.allows_insecure_http == b)
            &&& get(plist, at, "NSTemporaryExceptionRequiresForwardSecrecy"@) is None && get(
                plist,
                at,
                "NSExceptionRequiresForwardSecrecy"@,
            ) is None ==> e.requires_forward_secrecy
            &&& get_bool(plist, at, "NSTemporaryExceptionRequiresForwardSecrecy"@) matches Some(b)
                ==> e.requires_forward_secrecy == b
            &&& get(plist, at, "NSTemporaryExceptionRequiresForwardSecrecy"@) is None ==> (get_bool(
                plist,
                at,
                "NSExceptionRequiresForwardSecrecy"@,
            ) matches Some(b) ==> e.requires_forward_secrecy == b)
            &&& get_text(plist, at, "NSTemporaryExceptionMinimumTLSVersion"@) is Some
                ==> e.minimum_tls_version == get_text(
                plist,
                at,
                "NSTemporaryExceptionMinimumTLSVersion"@,
            )
            &&& get(plist, at, "NSTemporaryExceptionMinimumTLSVersion"@) is None
                ==> e.minimum_tls_version == get_text(plist, at, "NSExceptionMinimumTLSVersion"@)
        }),
{
}

proof fn lemma_exceptions_members(
    plist: Seq<TokenView>,
    list: Seq<(Seq<char>, int)>,
    e: ExceptionView,
)
    ensures
        exceptions(plist, list).contains(e) <==> exists|k: int|
            0 <= k < list.len() && exception(plist, #[trigger] list[k]) == Some(e),
    decreases list.len(),
{
    let all = exceptions(plist, list);
    if list.len() > 0 {
        let rest = list.drop_last();
        let before = exceptions(plist, rest);
        lemma_exceptions_members(plist, rest, e);
        if all.contains(e) {
            let n = choose|n: int| 0 <= n < all.len() && all[n] == e;
            if n < before.len() {
                assert(before[n] == e);
                let k = choose|k: int|
                    0 <= k < rest.len() && exception(plist, #[trigger] rest[k]) == Some(e);
                assert(list[k] == rest[k]);
            } else {
                assert(exception(plist, list[list.len() - 1]) == Some(e));
            }
        }
        if exists|k: int| 0 <= k < list.len() && exception(plist, #[trigger] list[k]) == Some(e) {
            let k = choose|k: int|
                0 <= k < list.len() && exception(plist, #[trigger] list[k]) == Some(e);
            if k < rest.len() {
                assert(rest[k] == list[k]);
                let n = choose|n: int| 0 <= n < before.len() && before[n] == e;
                assert(all[n] == e);
            } else {
                assert(all[before.len() as int] == e);
            }
        }
    }
}

/// Every domain with an exception of its own is listed, and no other.
pub proof fn lemma_exceptions_are_listed(plist: Seq<TokenView>, at: int, under: int, e: ExceptionView)
    requires
        dict_at(plist, 0),
        get(plist, 0, "NSAppTransportSecurity"@) == Some(at),
        dict_at(plist, at),
        get(plist, at, "NSExceptionDomains"@) == Some(under),
        dict_at(plist, under),
    ensures
        flags(plist).tls_exceptions.contains(e) <==> exists|k: int|
            0 <= k < entries(plist, under).len() && exception(
                plist,
                #[trigger] entries(plist, under)[k],
            ) == Some(e),
{
    lemma_exceptions_members(plist, entries(plist, under), e);
}

proof fn lemma_texts_among(plist: Seq<TokenView>, list: Seq<int>, s: Seq<char>)
    ensures
        texts_among(plist, list).contains(s) <==> exists|k: int|
            0 <= k < list.len() && text_at(plist, #[trigger] list[k]) == Some(s),
    decreases list.len(),
{
    let all = texts_among(plist, list);
    if list.len() > 0 {
        let rest = list.drop_last();
        let before = texts_among(plist, rest);
        lemma_texts_among(plist, rest, s);
        if all.contains(s) {
            let n = choose|n: int| 0 <= n < all.len() && all[n] == s;
            if n < before.len() {
                assert(before[n] == s);
                let k = choose|k: int|
                    0 <= k < rest.len() && text_at(plist, #[trigger] rest[k]) == Some(s);
                assert(list[k] == rest[k]);
            } else {
                assert(text_at(plist, list[list.len() - 1]) == Some(s));
            }
        }
        if exists|k: int| 0 <= k < list.len() && text_at(plist, #[trigger] list[k]) == Some(s) {
            let k = choose|k: int| 0 <= k < list.len() && text_at(plist, #[trigger] list[k]) == Some(s);
            if k < rest.len() {
                assert(rest[k] == list[k]);
                let n = choose|n: int| 0 <= n < before.len() && before[n] == s;
                assert(all[n] == s);
            } else {
                assert(all[before.len() as int] == s);
            }
        }
    }
}

proof fn lemma_schemes_members(plist: Seq<TokenView>, list: Seq<int>, s: Seq<char>)
    ensures
        schemes(plist, list).contains(s) <==> exists|k: int|
            0 <= k < list.len() && type_schemes(plist, #[trigger] list[k]).contains(s),
    decreases list.len(),
{
    let all = schemes(plist, list);
    if list.len() > 0 {
        let rest = list.drop_last();
        let before = schemes(plist, rest);
        let last = type_schemes(plist, list.last());
        lemma_schemes_members(plist, rest, s);
        if all.contains(s) {
            let n = choose|n: int| 0 <= n < all.len() && all[n] == s;
            if n < before.len() {
                assert(before[n] == s);
                let k = choose|k: int|
                    0 <= k < rest.len() && type_schemes(plist, #[trigger] rest[k]).contains(s);
                assert(list[k] == rest[k]);
            } else {
                assert(last[n - before.len()] == s);
                assert(type_schemes(plist, list[list.len() - 1]).contains(s));
            }
        }
        if exists|k: int| 0 <= k < list.len() && type_schemes(plist, #[trigger] list[k]).contains(s) {
            let k = choose|k: int|
                0 <= k < list.len() && type_schemes(plist, #[trigger] list[k]).contains(s);
            if k < rest.len() {
                assert(rest[k] == list[k]);
                let n = choose|n: int| 0 <= n < before.len() && before[n] == s;
                assert(all[n] == s);
            } else {
                let n = choose|n: int| 0 <= n < last.len() && last[n] == s;
                assert(all[before.len() + n] == s);
            }
        }
    }
}

/// A scheme is listed exactly where one of the URL types registers it.
pub proof fn lemma_schemes_are_listed(plist: Seq<TokenView>, types: int, s: Seq<char>)
    requires
        dict_at(plist, 0),
        get(plist, 0, "CFBundleURLTypes"@) == Some(types),
    ensures
        flags(plist).url_schemes.contains(s) <==> exists|k: int, m: int|
            #![trigger items(plist, types)[k], items(plist, get(plist, items(plist, types)[k], "CFBundleURLSchemes"@)->0)[m]]
            0 <= k < items(plist, types).len() && get(
                plist,
                items(plist, types)[k],
                "CFBundleURLSchemes"@,
            ) is Some && 0 <= m < items(
                plist,
                get(plist, items(plist, types)[k], "CFBundleURLSchemes"@)->0,
            ).len() && text_at(
                plist,
                items(plist, get(plist, items(plist, types)[k], "CFBundleURLSchemes"@)->0)[m],
            ) == Some(s),
{
    let list = items(plist, types);
    lemma_schemes_members(plist, list, s);
    if flags(plist).url_schemes.contains(s) {
        let k = choose|k: int|
            0 <= k < list.len() && type_schemes(plist, #[trigger] list[k]).contains(s);
        let j = get(plist, list[k], "CFBundleURLSchemes"@)->0;
        lemma_texts_among(plist, items(plist, j), s);
        let m = choose|m: int|
            0 <= m < items(plist, j).len() && text_at(plist, #[trigger] items(plist, j)[m]) == Some(
                s,
            );
        assert(text_at(
            plist,
            items(plist, get(plist, items(plist, types)[k], "CFBundleURLSchemes"@)->0)[m],
        ) == Some(s));
    }
    if exists|k: int, m: int|
        #![trigger items(plist, types)[k], items(plist, get(plist, items(plist, types)[k], "CFBundleURLSchemes"@)->0)[m]]
        0 <= k < items(plist, types).len() && get(
            plist,
            items(plist, types)[k],
            "CFBundleURLSchemes"@,
        ) is Some && 0 <= m < items(
            plist,
            get(plist, items(plist, types)[k], "CFBundleURLSchemes"@)->0,
        ).len() && text_at(
            plist,
            items(plist, get(plist, items(plist, types)[k], "CFBundleURLSchemes"@)->0)[m],
        ) == Some(s) {
        let (k, m) = choose|k: int, m: int|
            #![trigger items(plist, types)[k], items(plist, get(plist, items(plist, types)[k], "CFBundleURLSchemes"@)->0)[m]]
            0 <= k < items(plist, types).len() && get(
                plist,
                items(plist, types)[k],
                "CFBundleURLSchemes"@,
            ) is Some && 0 <= m < items(
                plist,
                get(plist, items(plist, types)[k], "CFBundleURLSchemes"@)->0,
            ).len() && text_at(
                plist,
                items(plist, get(plist, items(plist, types)[k], "CFBundleURLSchemes"@)->0)[m],
            ) == Some(s);
        let j = get(plist, list[k], "CFBundleURLSchemes"@)->0;
        lemma_texts_among(plist, items(plist, j), s);
        assert(text_at(plist, items(plist, j)[m]) == Some(s));
        assert(type_schemes(plist, list[k]).contains(s));
    }
}

// ---------- Windows ---------------------------------------------------------

/// Each mitigation goes by its own bit of the image's characteristics, and an image without
/// an optional header has none.
pub proof fn lemma_mitigation_bits(libraries: Seq<Seq<char>>, o: PeOptional)
    ensures
        ({
            let m = mitigations(ObjectView::Pe(libraries, Some(o)));
            &&& m.is_pe
            &&& m.high_entropy_va <==> o.characteristics & 0x20 != 0
            &&& m.aslr <==> o.characteristics & 0x40 != 0
            &&& m.dep <==> o.characteristics & 0x100 != 0
            &&& m.cfg <==> o.characteristics & 0x4000 != 0
        }),
        ({
            let m = mitigations(ObjectView::Pe(libraries, None));
            m.is_pe && !m.aslr && !m.dep && !m.cfg && !m.high_entropy_va
        }),
        !mitigations(ObjectView::Other).is_pe,
        !mitigations(ObjectView::Elf(libraries)).is_pe,
{
}

/// The PKCS#7 blob is what follows the eight bytes of its header, up to the length that they
/// state; only the PKCS type will do.
pub proof fn lemma_certificate_blob(bytes: Seq<u8>, start: int, size: int)
    requires
        0 <= start,
        8 <= size,
        start + size <= bytes.len(),
    ensures
        ({
            let table = bytes.subrange(start, start + size);
            let n = le32(table, 0);
            match certificate_der(bytes, start, size) {
                Some(der) => le16(table, 6) == 2 && 8 <= n <= size && der == bytes.subrange(
                    start + 8,
                    start + n,
                ),
                None => le16(table, 6) != 2 || n < 8 || n > size,
            }
        }),
{
    let table = bytes.subrange(start, start + size);
    let n = le32(table, 0);
    if certificate_der(bytes, start, size) is Some {
        assert(table.subrange(8, n as int) =~= bytes.subrange(start + 8, start + n));
    }
}

proof fn lemma_names_issued(certificates: Seq<Option<CertificateView>>, issued: Seq<u8>, i: int, k: int)
    requires
        0 <= i <= k < certificates.len(),
        certificates[k] is Some && certificates[k]->0.issued == Some(issued),
        forall|j: int|
            i <= j < k ==> ((#[trigger] certificates[j]) matches Some(c) ==> c.issued != Some(issued)),
    ensures
        crate::audit::windows::names_issued(certificates, issued, i) == Some(
            (certificates[k]->0.subject, certificates[k]->0.issuer),
        ),
    decreases k - i,
{
    if i < k {
        lemma_names_issued(certificates, issued, i + 1, k);
    }
}

proof fn lemma_not_issued(certificates: Seq<Option<CertificateView>>, issued: Seq<u8>, i: int)
    requires
        0 <= i,
        forall|j: int|
            i <= j < certificates.len() ==> ((#[trigger] certificates[j]) matches Some(c) ==> c.issued
                != Some(issued)),
    ensures
        crate::audit::windows::names_issued(certificates, issued, i) is None,
    decreases certificates.len() - i,
{
    if i < certificates.len() {
        lemma_not_issued(certificates, issued, i + 1);
    }
}

/// The names are those of the certificate that the first signer is identified by.
pub proof fn lemma_signer_is_identified(s: SignedView, issued: Seq<u8>, k: int)
    requires
        s.signers.len() > 0,
        s.signers[0] == Some(issued),
        s.certificates matches Some(c) && 0 <= k < c.len() && c[k] is Some && c[k]->0.issued == Some(
            issued,
        ) && forall|j: int|
            0 <= j < k ==> ((#[trigger] c[j]) matches Some(x) ==> x.issued != Some(issued)),
    ensures
        signer_names(Some(s)) == Some(
            (s.certificates->0[k]->0.subject, s.certificates->0[k]->0.issuer),
        ),
{
    lemma_names_issued(s.certificates->0, issued, 0, k);
}

/// Where no certificate is the signer's, the first one is taken, which is conventionally the
/// leaf.
pub proof fn lemma_first_certificate_stands_in(s: SignedView, c: CertificateView)
    requires
        s.certificates matches Some(list) && list.len() > 0 && list[0] == Some(c) && (
        s.signers.len() == 0 || s.signers[0] is None || forall|j: int|
            0 <= j < list.len() ==> ((#[trigger] list[j]) matches Some(x) ==> x.issued
                != s.signers[0])),
    ensures
        signer_names(Some(s)) == Some((c.subject, c.issuer)),
{
    if s.signers.len() > 0 && s.signers[0] is Some {
        lemma_not_issued(s.certificates->0, s.signers[0]->0, 0);
    }
}

/// An image is signed exactly where it has a certificate table, whoever signed it; trust is a
/// matter for a signed image only, and the host's verdict is what is reported.
pub proof fn lemma_signed_image(libraries: Seq<Seq<char>>, o: PeOptional, bytes: Seq<u8>, trust: Trust)
    ensures
        ({
            let s = signature(ObjectView::Pe(libraries, Some(o)), bytes);
            let settled = with_trust(s, trust);
            &&& s.signed <==> (o.certificates matches Some((_, size)) && size > 0)
            &&& s.signed ==> (s.subject is Some <==> s.issuer is Some) && (s.subject is None
                <==> s.note is Some)
            &&& settled.signed == s.signed && settled.subject == s.subject && settled.issuer
                == s.issuer
            &&& s.signed ==> settled.trusted == trust.verdict
            &&& !s.signed ==> settled == s
            &&& trust.verdict is Some || trust.store ==> settled.note == s.note
            &&& s.signed && trust.verdict is None && !trust.store ==> settled.note is Some
        }),
{
}

/// A value in quotes is what stands between them.
pub proof fn lemma_quoted_value(quote: u8, v: Seq<char>, rest: Seq<u8>)
    requires
        quote == 0x22 || quote == 0x27,
        !encode_utf8(v).contains(quote),
    ensures
        quoted_value(seq![quote] + encode_utf8(v) + (seq![quote] + rest)) == Some(v),
{
    let e = encode_utf8(v);
    let b = seq![quote] + e + (seq![quote] + rest);
    encode_utf8_valid_utf8(v);
    encode_utf8_decode_utf8(v);
    assert(b[0] == quote);
    assert forall|i: int| 1 <= i < 1 + e.len() implies b[i] != quote by {
        assert(b[i] == e[i - 1]);
        assert(e.contains(e[i - 1]));
    }
    assert(b[1 + e.len() as int] == quote);
    lemma_first_byte_at(b, quote, 1, 1 + e.len() as int);
    assert(b.subrange(1, 1 + e.len() as int) =~= e);
}

proof fn lemma_first_byte_at(b: Seq<u8>, needle: u8, from: int, at: int)
    requires
        0 <= from <= at < b.len(),
        b[at] == needle,
        forall|i: int| from <= i < at ==> b[i] != needle,
    ensures
        first_byte(b, needle, from) == Some(at),
    decreases at - from,
{
    if from < at {
        lemma_first_byte_at(b, needle, from + 1, at);
    }
}

proof fn lemma_first_place_at(b: Seq<u8>, needle: Seq<u8>, from: int, at: int)
    requires
        0 <= from <= at,
        occurs_at(b, needle, at),
        forall|i: int| from <= i < at ==> !occurs_at(b, needle, i),
    ensures
        first_place(b, needle, from) == Some(at),
    decreases at - from,
{
    if from < at {
        lemma_first_place_at(b, needle, from + 1, at);
    }
}

/// The execution level is the quoted value of the attribute that follows the element's name
/// closely enough.
pub proof fn lemma_execution_level(
    bytes: Seq<u8>,
    anchor: int,
    at: int,
    quote: u8,
    v: Seq<char>,
    rest: Seq<u8>,
)
    requires
        occurs_at(bytes, encode_utf8("requestedExecutionLevel"@), anchor),
        forall|i: int|
            0 <= i < anchor ==> !occurs_at(bytes, encode_utf8("requestedExecutionLevel"@), i),
        bytes.len() <= anchor + 256,
        0 <= at,
        occurs_at(bytes.skip(anchor), encode_utf8("level="@), at),
        forall|i: int| 0 <= i < at ==> !occurs_at(bytes.skip(anchor), encode_utf8("level="@), i),
        bytes.skip(anchor).skip(at + encode_utf8("level="@).len()) == seq![quote] + encode_utf8(v)
            + (seq![quote] + rest),
        quote == 0x22 || quote == 0x27,
        !encode_utf8(v).contains(quote),
    ensures
        execution_level(bytes) == Some(v),
{
    lemma_first_place_at(bytes, encode_utf8("requestedExecutionLevel"@), 0, anchor);
    let window = bytes.subrange(anchor, bytes.len() as int);
    assert(window =~= bytes.skip(anchor));
    lemma_first_place_at(window, encode_utf8("level="@), 0, at);
    lemma_quoted_value(quote, v, rest);
}

/// Without the element there is no execution level.
pub proof fn lemma_no_execution_level(bytes: Seq<u8>)
    requires
        forall|i: int| !occurs_at(bytes, encode_utf8("requestedExecutionLevel"@), i),
    ensures
        execution_level(bytes) is None,
{
    lemma_no_place(bytes, encode_utf8("requestedExecutionLevel"@), 0);
}

proof fn lemma_no_place(b: Seq<u8>, needle: Seq<u8>, from: int)
    requires
        0 <= from,
        forall|i: int| !occurs_at(b, needle, i),
    ensures
        first_place(b, needle, from) is None,
    decreases b.len() - from,
{
    if from < b.len() {
        lemma_no_place(b, needle, from + 1);
    }
}

// ---------- Linux -----------------------------------------------------------

proof fn lemma_segment(segments: Seq<(u32, u32)>, kind: u32, i: int)
    requires
        0 <= i,
    ensures
        match segment_flags(segments, kind, i) {
            Some(f) => exists|k: int|
                i <= k < segments.len() && #[trigger] segments[k] == (kind, f) && forall|j: int|
                    i <= j < k ==> (#[trigger] segments[j]).0 != kind,
            None => forall|k: int| i <= k < segments.len() ==> (#[trigger] segments[k]).0 != kind,
        },
    decreases segments.len() - i,
{
    if i < segments.len() && segments[i].0 != kind {
        lemma_segment(segments, kind, i + 1);
    }
}

/// Whether an image has a segment of a kind.
pub open spec fn has_segment(e: ElfView, kind: u32) -> bool {
    exists|k: int| 0 <= k < e.segments.len() && (#[trigger] e.segments[k]).0 == kind
}

/// What each mitigation of an ELF image means: a shared object with an interpreter is
/// position independent, relocations are read-only where they are marked so, fully where they
/// are bound at once, the stack is not executable where its segment says so, and the symbols
/// tell the rest.
pub proof fn lemma_elf_mitigations(e: ElfView)
    ensures
        ({
            let h = hardening(Some(e));
            &&& h.is_elf
            &&& h.pie <==> e.kind == 3 && has_segment(e, 3)
            &&& h.relro == RelroKind::Absent <==> !has_segment(e, 0x6474_e552)
            &&& h.relro == RelroKind::Full <==> has_segment(e, 0x6474_e552) && e.dynamic is Some
                && exists|i: int|
                0 <= i < e.dynamic->0.len() && ((#[trigger] e.dynamic->0[i]).0 == 24 || (
                e.dynamic->0[i].0 == 30 && e.dynamic->0[i].1 & 8 != 0) || (e.dynamic->0[i].0
                    == 0x6fff_fffb && e.dynamic->0[i].1 & 1 != 0))
            &&& !has_segment(e, 0x6474_e551) ==> !h.nx
            &&& forall|k: int|
                0 <= k < e.segments.len() && (#[trigger] e.segments[k]).0 == 0x6474_e551 && (
                forall|j: int| 0 <= j < k ==> (#[trigger] e.segments[j]).0 != 0x6474_e551) ==> (h.nx
                    <==> e.segments[k].1 & 1 == 0)
            &&& h.stack_canary <==> e.symbols.contains(Some("__stack_chk_fail"@))
            &&& h.fortify_source <==> exists|i: int|
                0 <= i < e.symbols.len() && (#[trigger] e.symbols[i]) is Some && closes(
                    e.symbols[i]->0,
                    "_chk"@,
                ) && e.symbols[i]->0 != "__stack_chk_fail"@
        }),
{
    let h = hardening(Some(e));
    lemma_segment(e.segments, 3, 0);
    lemma_segment(e.segments, 0x6474_e552, 0);
    lemma_segment(e.segments, 0x6474_e551, 0);
    if let Some(d) = e.dynamic {
        assert forall|i: int| 0 <= i < d.len() implies #[trigger] binds_now(d[i]) == (d[i].0 == 24 || (
        d[i].0 == 30 && d[i].1 & 8 != 0) || (d[i].0 == 0x6fff_fffb && d[i].1 & 1 != 0)) by {}
        if exists|i: int|
            0 <= i < d.len() && ((#[trigger] d[i]).0 == 24 || (d[i].0 == 30 && d[i].1 & 8 != 0) || (
            d[i].0 == 0x6fff_fffb && d[i].1 & 1 != 0)) {
            let i = choose|i: int|
                0 <= i < d.len() && ((#[trigger] d[i]).0 == 24 || (d[i].0 == 30 && d[i].1 & 8 != 0)
                    || (d[i].0 == 0x6fff_fffb && d[i].1 & 1 != 0));
            assert(binds_now(d[i]));
        }
    }
    if h.stack_canary {
        let i = choose|i: int|
            0 <= i < e.symbols.len() && #[trigger] e.symbols[i] == Some("__stack_chk_fail"@);
        assert(e.symbols.contains(e.symbols[i]));
    }
    if e.symbols.contains(Some("__stack_chk_fail"@)) {
        let i = choose|i: int| 0 <= i < e.symbols.len() && e.symbols[i] == Some("__stack_chk_fail"@);
        assert(e.symbols[i] == Some("__stack_chk_fail"@));
    }
}

/// Where an application lies tells its sandbox; a flatpak's metadata lists what it may do.
pub proof fn lemma_sandbox_by_place(t: Tree, probe: Seq<char>)
    ensures
        sandboxed(t, probe) matches Some(s) ==> (s.0 == "flatpak"@ && holds(probe, "/flatpak/"@)) || (
        s.0 == "snap"@ && holds(probe, "/snap/"@) && s.1.len() == 0),
        sandboxed(t, probe) is None ==> holds(probe, "/flatpak/"@) || !holds(probe, "/snap/"@),
        holds(probe, "/flatpak/"@) ==> (contents(t, pushed(probe, "metadata"@)) matches Some(b) ==> (
        valid_utf8(b) ==> sandboxed(t, probe) == Some(
            ("flatpak"@, flatpak_grants(decode_utf8(b))),
        ))),
{
    if contents(t, pushed(probe, "metadata"@)) is Some {
        assert(file_at(t, pushed(probe, "metadata"@)));
    }
}

proof fn lemma_grants_prefix(lines: Seq<Seq<char>>, line: Seq<char>, n: nat)
    requires
        n <= lines.len(),
    ensures
        grants(lines.push(line), n) == grants(lines, n),
        in_context(lines.push(line), n) == in_context(lines, n),
    decreases n,
{
    if n > 0 {
        lemma_grants_prefix(lines, line, (n - 1) as nat);
    }
}

/// Permissions are those of the context section only, line by line.
pub proof fn lemma_permissions_are_in_context(lines: Seq<Seq<char>>, line: Seq<char>)
    ensures
        ({
            let all = lines.push(line);
            let n = lines.len();
            let t = trim(line, CharClass::White);
            &&& t == "[Context]"@ ==> in_context(all, n + 1)
            &&& opens(t, "["@) && t != "[Context]"@ ==> !in_context(all, n + 1)
            &&& !opens(t, "["@) ==> in_context(all, n + 1) == in_context(lines, n)
            &&& opens(t, "["@) || !in_context(lines, n) ==> grants(all, n + 1) == grants(lines, n)
            &&& !opens(t, "["@) && in_context(lines, n) ==> grants(all, n + 1) == grants(lines, n)
                + line_grants(t)
        }),
{
    lemma_grants_prefix(lines, line, lines.len());
    reveal_strlit("[");
    reveal_strlit("[Context]");
    assert("[Context]"@.take(1) =~= "["@);
}

/// A line grants each item of its list under its key.
pub proof fn lemma_line_grants(key: Seq<char>, item: Seq<char>, rest: Seq<char>)
    requires
        key.len() > 0 && !key.contains('=') && !CharClass::White.has(key[0]) && !CharClass::White.has(
            key.last(),
        ),
        item.len() > 0 && !item.contains(';') && !CharClass::White.has(item[0])
            && !CharClass::White.has(item.last()),
    ensures
        line_grants(key.push('=') + item) == seq![key + "="@ + item],
        line_grants(key.push('=') + (item.push(';') + rest)).len() > 0,
        line_grants(key.push('=') + (item.push(';') + rest))[0] == key + "="@ + item,
        line_grants(key.push('=') + (item.push(';') + rest)).skip(1) == item_grants(
            key,
            split(rest, CharClass::Only(';')),
        ),
{
    let eq = CharClass::Only('=');
    let semi = CharClass::Only(';');
    assert forall|i: int| 0 <= i < key.len() implies !eq.has(#[trigger] key[i]) by {
        assert(key.contains(key[i]));
    }
    assert forall|i: int| 0 <= i < item.len() implies !semi.has(#[trigger] item[i]) by {
        assert(item.contains(item[i]));
    }
    assert(trim_start(key, CharClass::White) == key);
    assert(trim(key, CharClass::White) == key);
    assert(trim_start(item, CharClass::White) == item);
    assert(trim(item, CharClass::White) == item);
    lemma_split_head(item, ';', rest, semi);
    let one = key.push('=') + item;
    let many = key.push('=') + (item.push(';') + rest);
    lemma_after_equals(key, item);
    lemma_after_equals(key, item.push(';') + rest);
    lemma_item_grants(key, item, Seq::empty());
    lemma_item_grants(key, item, split(rest, semi));
    assert(seq![item] =~= seq![item] + Seq::<Seq<char>>::empty());
    assert(item_grants(key, Seq::empty()).len() == 0);
    let g = line_grants(many);
    assert(g == seq![key + "="@ + item] + item_grants(key, split(rest, semi)));
    assert(g.skip(1) =~= item_grants(key, split(rest, semi)));
    assert(line_grants(one) =~= seq![key + "="@ + item]);
}

proof fn lemma_after_equals(key: Seq<char>, rest: Seq<char>)
    requires
        !key.contains('='),
    ensures
        first_in(key.push('=') + rest, CharClass::Only('='), 0) == Some(key.len() as int),
        (key.push('=') + rest).take(key.len() as int) == key,
        (key.push('=') + rest).skip(key.len() as int + 1) == rest,
{
    let s = key.push('=') + rest;
    let class = CharClass::Only('=');
    lemma_first_in(s, class, 0);
    assert(s[key.len() as int] == '=');
    assert forall|i: int| 0 <= i < key.len() implies !class.has(#[trigger] s[i]) by {
        assert(s[i] == key[i]);
        assert(key.contains(key[i]));
    }
    assert(s.take(key.len() as int) =~= key);
    assert(s.skip(key.len() as int + 1) =~= rest);
}

proof fn lemma_item_grants(key: Seq<char>, item: Seq<char>, rest: Seq<Seq<char>>)
    requires
        trim(item, CharClass::White) == item,
        item.len() > 0,
    ensures
        item_grants(key, seq![item] + rest) == seq![key + "="@ + item] + item_grants(key, rest),
    decreases rest.len(),
{
    let all = seq![item] + rest;
    if rest.len() == 0 {
        assert(all.drop_last() =~= Seq::empty());
        assert(item_grants(key, Seq::empty()) == Seq::<Seq<char>>::empty());
        assert(all.last() == item);
        assert(item_grants(key, all) =~= seq![key + "="@ + item] + item_grants(key, rest));
    } else {
        assert(all.drop_last() =~= seq![item] + rest.drop_last());
        lemma_item_grants(key, item, rest.drop_last());
        assert(item_grants(key, all) =~= seq![key + "="@ + item] + item_grants(key, rest));
    }
}

// ---------- archives --------------------------------------------------------

/// A hash is written with two lower-case hexadecimal digits to a byte, and two hashes are
/// written alike only where they are alike.
pub proof fn lemma_hex_tells_apart(a: Seq<u8>, b: Seq<u8>)
    ensures
        hex_digits(a).len() == 2 * a.len(),
        forall|i: int|
            0 <= i < 2 * a.len() ==> '0' <= #[trigger] hex_digits(a)[i] <= '9' || 'a' <= hex_digits(
                a,
            )[i] <= 'f',
        hex_digits(a) == hex_digits(b) <==> a == b,
        a.len() > 0 && a[0] == 0x0f ==> hex_digits(a)[0] == '0' && hex_digits(a)[1] == 'f',
{
    if hex_digits(a) == hex_digits(b) {
        assert(hex_digits(a).len() == 2 * a.len() && hex_digits(b).len() == 2 * b.len());
        assert forall|i: int| 0 <= i < a.len() implies a[i] == b[i] by {
            assert(hex_digits(a)[2 * i] == hex_digits(b)[2 * i]);
            assert(hex_digits(a)[2 * i + 1] == hex_digits(b)[2 * i + 1]);
            assert((2 * i) / 2 == i && (2 * i + 1) / 2 == i && (2 * i) % 2 == 0 && (2 * i + 1) % 2
                == 1);
            assert(a[i] == 16 * (a[i] as int / 16) + a[i] as int % 16);
            assert(b[i] == 16 * (b[i] as int / 16) + b[i] as int % 16);
        }
        assert(a =~= b);
    }
}

/// The header of an archive is what its four words announce: the first is four, the last the
/// header's length, and the header follows them.
pub proof fn lemma_asar_header(bytes: Seq<u8>, n: int)
    requires
        bytes.len() >= 16,
        le32(bytes, 12) == n,
    ensures
        header(bytes) is Ok <==> le32(bytes, 0) == 4 && n <= 0x1000_0000 && 16 + n <= bytes.len(),
        header(bytes) matches Ok(h) ==> h == bytes.subrange(16, 16 + n),
{
}

/// A declared archive is looked up below the bundle's contents, hashed, and held against what
/// is declared, whatever the case of the digits; without an algorithm SHA-256 is meant, and
/// another one cannot be checked.
pub proof fn lemma_declared_archive(
    t: Tree,
    app: Seq<char>,
    plist: Seq<TokenView>,
    key: Seq<char>,
    at: int,
    hash: Seq<char>,
)
    requires
        get_text(plist, at, "hash"@) == Some(hash),
    ensures
        ({
            let c = checked(t, app, plist, (key, at))->0;
            let path = seen_from(pushed(app, "Contents"@), key);
            &&& checked(t, app, plist, (key, at)) is Some
            &&& c.archive_key == key && c.archive_path == path && c.declared_hash == hash
            &&& get_text(plist, at, "algorithm"@) matches Some(a) ==> c.declared_algorithm == a
            &&& get_text(plist, at, "algorithm"@) is None ==> c.declared_algorithm == "SHA256"@
            &&& c.declared_algorithm != "SHA256"@ ==> !c.matches && c.actual_hash is None
            &&& c.declared_algorithm == "SHA256"@ ==> (contents(t, path) matches Some(b) ==> (header(
                b,
            ) matches Ok(json) ==> c.actual_hash == Some(hex_digits(sha256(json))) && (c.matches
                <==> lower(hex_digits(sha256(json))) == lower(hash))))
            &&& contents(t, path) is None ==> !c.matches && c.actual_hash is None
        }),
{
}

proof fn lemma_checked_members(
    t: Tree,
    app: Seq<char>,
    plist: Seq<TokenView>,
    list: Seq<(Seq<char>, int)>,
    c: CheckView,
)
    ensures
        checked_all(t, app, plist, list).contains(c) <==> exists|k: int|
            0 <= k < list.len() && checked(t, app, plist, #[trigger] list[k]) == Some(c),
    decreases list.len(),
{
    let all = checked_all(t, app, plist, list);
    if list.len() > 0 {
        let rest = list.drop_last();
        let before = checked_all(t, app, plist, rest);
        lemma_checked_members(t, app, plist, rest, c);
        if all.contains(c) {
            let n = choose|n: int| 0 <= n < all.len() && all[n] == c;
            if n < before.len() {
                assert(before[n] == c);
                let k = choose|k: int|
                    0 <= k < rest.len() && checked(t, app, plist, #[trigger] rest[k]) == Some(c);
                assert(list[k] == rest[k]);
            } else {
                assert(checked(t, app, plist, list[list.len() - 1]) == Some(c));
            }
        }
        if exists|k: int| 0 <= k < list.len() && checked(t, app, plist, #[trigger] list[k]) == Some(c) {
            let k = choose|k: int|
                0 <= k < list.len() && checked(t, app, plist, #[trigger] list[k]) == Some(c);
            if k < rest.len() {
                assert(rest[k] == list[k]);
                let n = choose|n: int| 0 <= n < before.len() && before[n] == c;
                assert(all[n] == c);
            } else {
                assert(all[before.len() as int] == c);
            }
        }
    }
}

/// Every archive that a bundle declares is checked, and no other.
pub proof fn lemma_every_archive_is_checked(
    t: Tree,
    app: Seq<char>,
    plist: Seq<TokenView>,
    at: int,
    c: CheckView,
)
    requires
        get(plist, 0, "ElectronAsarIntegrity"@) == Some(at),
        dict_at(plist, at),
    ensures
        verified(t, app, plist) matches Some(list) && (list.contains(c) <==> exists|k: int|
            0 <= k < entries(plist, at).len() && checked(
                t,
                app,
                plist,
                #[trigger] entries(plist, at)[k],
            ) == Some(c)),
{
    lemma_checked_members(t, app, plist, entries(plist, at), c);
}

/// Off macOS an archive is only told about, by its place and its hash.
pub proof fn lemma_archive_is_told(t: Tree, root: Seq<char>)
    ensures
        ({
            let p = pushed(pushed(root, "resources"@), "app.asar"@);
            &&& informed(t, root) is Some <==> file_at(t, p)
            &&& informed(t, root) matches Some(i) ==> i.0 == p && i.1 == file_hash(t, p)
        }),
{
}

/// Each platform has its own audit, of the application that was asked about.
pub proof fn lemma_audit_is_of_the_platform(
    a: AppAudit,
    t: Tree,
    platform: Platform,
    path: Seq<char>,
    root: Seq<char>,
    executable: Option<Seq<char>>,
    facts: HostFacts,
)
    requires
        audits(a, t, platform, path, root, executable, facts),
    ensures
        match a {
            AppAudit::Macos(m) => platform == Platform::Macos && m.path@ == path && m.entitlements
                == facts.entitlements && m.code_signature == facts.code_signature,
            AppAudit::Windows(w) => platform == Platform::Windows && w.path@ == path && (executable
                is None ==> !w.signature.signed && !w.hardening.is_pe),
            AppAudit::Linux(l) => platform == Platform::Linux && l.path@ == path && (executable is None
                ==> !l.hardening.is_elf),
        },
{
}

// ---------- where a flatpak tells what it may do ----------------------------

/// The `metadata` file of the directory that the first `k` parts of a path lead to.
pub open spec fn metadata_of(p: Seq<char>, k: int) -> Seq<char> {
    let root = if is_absolute(p) {
        "/"@
    } else {
        Seq::<char>::empty()
    };
    pushed(pushed_all(root, parts(p).take(k)), "metadata"@)
}

proof fn lemma_metadata_above(t: Tree, p: Seq<char>, root: Seq<char>, k: nat)
    requires
        k <= parts(p).len(),
        is_absolute(p) ==> root == "/"@,
        !is_absolute(p) ==> root == Seq::<char>::empty(),
    ensures
        match metadata_above(t, root, parts(p), k) {
            Some(m) => exists|j: int|
                0 <= j <= k && m == #[trigger] metadata_of(p, j) && file_at(t, m) && forall|i: int|
                    j < i <= k ==> !file_at(t, #[trigger] metadata_of(p, i)),
            None => forall|i: int| 0 <= i <= k ==> !file_at(t, #[trigger] metadata_of(p, i)),
        },
    decreases k,
{
    assert(metadata_of(p, k as int) == pushed(pushed_all(root, parts(p).take(k as int)), "metadata"@));
    if !file_at(t, metadata_of(p, k as int)) && k > 0 {
        lemma_metadata_above(t, p, root, (k - 1) as nat);
    }
}

/// A flatpak's metadata is that of the nearest directory above that has some; only where none
/// has is there none.
pub proof fn lemma_nearest_metadata(t: Tree, p: Seq<char>)
    ensures
        file_at(t, pushed(p, "metadata"@)) ==> nearest_metadata(t, p) == Some(pushed(p, "metadata"@)),
        !file_at(t, pushed(p, "metadata"@)) ==> match nearest_metadata(t, p) {
            Some(m) => exists|j: int|
                0 <= j < parts(p).len() && m == #[trigger] metadata_of(p, j) && file_at(t, m)
                    && forall|i: int|
                    j < i < parts(p).len() ==> !file_at(t, #[trigger] metadata_of(p, i)),
            None => forall|i: int|
                0 <= i < parts(p).len() ==> !file_at(t, #[trigger] metadata_of(p, i)),
        },
{
    if !file_at(t, pushed(p, "metadata"@)) && parts(p).len() > 0 {
        let root = if is_absolute(p) {
            "/"@
        } else {
            Seq::<char>::empty()
        };
        lemma_metadata_above(t, p, root, (parts(p).len() - 1) as nat);
    }
}

/// What a flatpak may do is what its metadata says; metadata that cannot be read leaves
/// nothing to say, and without any a flatpak is still told as one.
pub proof fn lemma_flatpak_is_told(t: Tree, probe: Seq<char>, m: Seq<char>, b: Seq<u8>)
    requires
        holds(probe, "/flatpak/"@),
    ensures
        nearest_metadata(t, probe) is None ==> sandboxed(t, probe) == Some(
            ("flatpak"@, Seq::<Seq<char>>::empty()),
        ),
        nearest_metadata(t, probe) == Some(m) && contents(t, m) == Some(b) && valid_utf8(b)
            ==> sandboxed(t, probe) == Some(("flatpak"@, flatpak_grants(decode_utf8(b)))),
        nearest_metadata(t, probe) == Some(m) && contents(t, m) == Some(b) && !valid_utf8(b)
            ==> sandboxed(t, probe) is None,
{
}

// ---------- what an audit reads ---------------------------------------------

/// An audit on Windows and on Linux reads the executable that it is given, and one that is not
/// there tells nothing.
pub proof fn lemma_audit_reads_the_executable(
    a: AppAudit,
    t: Tree,
    platform: Platform,
    path: Seq<char>,
    root: Seq<char>,
    exe: Seq<char>,
    facts: HostFacts,
)
    requires
        audits(a, t, platform, path, root, Some(exe), facts),
    ensures
        a matches AppAudit::Windows(w) ==> (contents(t, exe) matches Some(b) ==> w.hardening
            == mitigations(object_of(b)) && w.signature@ == with_trust(
            signature(object_of(b), b),
            facts.trust,
        )),
        a matches AppAudit::Windows(w) ==> (contents(t, exe) is None ==> !w.signature.signed
            && !w.hardening.is_pe && w.manifest.requested_execution_level is None),
        a matches AppAudit::Linux(l) ==> (contents(t, exe) matches Some(b) ==> l.hardening
            == hardening(elf_of(b))),
        a matches AppAudit::Linux(l) ==> (contents(t, exe) is None ==> !l.hardening.is_elf),
{
}

/// A bundle's declarations and archives are those of the `Info.plist` in its contents; without
/// one nothing is declared and no archive is checked.
pub proof fn lemma_bundle_is_audited(
    a: AppAudit,
    t: Tree,
    path: Seq<char>,
    root: Seq<char>,
    executable: Option<Seq<char>>,
    facts: HostFacts,
)
    requires
        audits(a, t, Platform::Macos, path, root, executable, facts),
    ensures
        a matches AppAudit::Macos(m) && {
            let p = pushed(path, "Contents/Info.plist"@);
            &&& plist_at(t, p) matches Some(plist) ==> m.info_plist@ == flags(plist) && (
            m.asar_integrity is Some <==> verified(t, path, plist) is Some)
            &&& plist_at(t, p) matches Some(plist) ==> (m.asar_integrity matches Some(v)
                ==> verified(t, path, plist) == Some(check_views(v@)))
            &&& plist_at(t, p) is None ==> m.asar_integrity is None
        },
{
}

/// Where both spellings of a switch are there the modern one counts, whatever the other says;
/// a value that is no boolean leaves what is usual.
pub proof fn lemma_either_flag(
    plist: Seq<TokenView>,
    at: int,
    first: Seq<char>,
    second: Seq<char>,
    usual: bool,
    b: bool,
)
    ensures
        get_bool(plist, at, first) == Some(b) ==> either_flag(plist, at, first, second, usual) == b,
        get(plist, at, first) is None && get_bool(plist, at, second) == Some(b) ==> either_flag(
            plist,
            at,
            first,
            second,
            usual,
        ) == b,
        get(plist, at, first) is None && get(plist, at, second) is None ==> either_flag(
            plist,
            at,
            first,
            second,
            usual,
        ) == usual,
        get(plist, at, first) is Some && get_bool(plist, at, first) is None ==> either_flag(
            plist,
            at,
            first,
            second,
            usual,
        ) == usual,
{
}

} // verus!
