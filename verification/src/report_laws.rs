//! What holds of the sample application and of the checks that are made on it.

use vstd::prelude::*;
use vstd::utf8::encode_utf8;

use crate::assess::{
    audit_checks, checks, detection_checks, membership, stated, version_checks, CheckView,
    ExpectedView, ItemView, ObservedView,
};
use crate::audit::asar::{header, hex_digits, sha256, AsarError};
use crate::bytes::le32;
use crate::fixture::{
    app_plist, archive, bodies, bundle_files, entry_json, json_char, json_chars, json_text, places,
};
use crate::num::decimal;
use crate::path::pushed;
use crate::reports::{
    archives, cell, column, dependencies, dependency, entries, expected, item, json, json_value,
    jsons, label, observed, rule, strings, truth, under, FoundView,
};
use crate::sorted::{is_sorted, lemma_filed, lemma_filed_members};
use crate::text::{holds, stands_at};

verus! {

// ---------- the sample archive ----------------------------------------------

/// Whether no two of the first `n` files share a name.
pub open spec fn named_apart(files: Seq<(Seq<char>, Seq<u8>)>, n: nat) -> bool {
    forall|i: int, j: int| 0 <= i < j < n ==> (#[trigger] files[i]).0 != (#[trigger] files[j]).0
}

proof fn lemma_bodies_prefix(files: Seq<(Seq<char>, Seq<u8>)>, m: nat, n: nat)
    requires
        m <= n <= files.len(),
    ensures
        bodies(files, m).is_prefix_of(bodies(files, n)),
    decreases n,
{
    if m < n {
        lemma_bodies_prefix(files, m, (n - 1) as nat);
        let before = bodies(files, (n - 1) as nat);
        assert(bodies(files, n).take(bodies(files, m).len() as int) =~= before.take(
            bodies(files, m).len() as int,
        ));
    }
}

proof fn lemma_places(files: Seq<(Seq<char>, Seq<u8>)>, n: nat, name: Seq<char>, at: (nat, nat))
    requires
        n <= files.len(),
        named_apart(files, n),
    ensures
        is_sorted(places(files, n)),
        places(files, n).contains((name, at)) <==> exists|k: int|
            0 <= k < n && (#[trigger] files[k]).0 == name && at == (
                bodies(files, k as nat).len(),
                files[k].1.len(),
            ),
    decreases n,
{
    if n > 0 {
        lemma_places(files, (n - 1) as nat, name, at);
        let before = places(files, (n - 1) as nat);
        let last = files[n - 1];
        let value = (bodies(files, (n - 1) as nat).len(), last.1.len());
        lemma_filed(before, last.0, value);
        lemma_filed_members(before, last.0, value, name, at);
        if name == last.0 {
            assert forall|k: int| 0 <= k < n && (#[trigger] files[k]).0 == name implies k == n - 1 by {
                if k < n - 1 {
                    assert(files[k].0 != files[n - 1].0);
                }
            }
            if at == value {
                assert(files[n - 1].0 == name);
            }
        }
    }
}

/// The header of an archive says of every file where its bytes are: those bytes are the
/// file's.
pub proof fn lemma_places_lead_to_files(files: Seq<(Seq<char>, Seq<u8>)>, k: int)
    requires
        0 <= k < files.len(),
        named_apart(files, files.len()),
    ensures
        ({
            let offset = bodies(files, k as nat).len();
            let size = files[k].1.len();
            let all = bodies(files, files.len());
            &&& places(files, files.len()).contains((files[k].0, (offset, size)))
            &&& offset + size <= all.len()
            &&& all.subrange(offset as int, (offset + size) as int) == files[k].1
        }),
{
    let offset = bodies(files, k as nat).len();
    let size = files[k].1.len();
    let all = bodies(files, files.len());
    lemma_places(files, files.len(), files[k].0, (offset, size));
    assert(files[k].0 == files[k].0);
    lemma_bodies_prefix(files, (k + 1) as nat, files.len());
    let upto = bodies(files, (k + 1) as nat);
    assert(upto == bodies(files, k as nat) + files[k].1);
    assert(all.subrange(offset as int, (offset + size) as int) =~= files[k].1) by {
        assert forall|i: int| 0 <= i < size implies all[offset + i] == files[k].1[i] by {
            assert(all[offset + i] == upto[offset + i]);
        }
    }
}

/// No file is said to be in an archive that is not.
pub proof fn lemma_no_place_without_file(
    files: Seq<(Seq<char>, Seq<u8>)>,
    name: Seq<char>,
    at: (nat, nat),
)
    requires
        named_apart(files, files.len()),
        places(files, files.len()).contains((name, at)),
    ensures
        exists|k: int| 0 <= k < files.len() && (#[trigger] files[k]).0 == name && files[k].1.len() == at.1,
{
    lemma_places(files, files.len(), name, at);
}

/// Text that needs no escape is only put in quotes.
pub proof fn lemma_plain_json(s: Seq<char>)
    requires
        forall|i: int| 0 <= i < s.len() ==> (#[trigger] s[i]) as int >= 32 && s[i] != '"' && s[i] != '\\',
    ensures
        json_chars(s) == s,
        json_text(s) == seq!['"'] + s + seq!['"'],
    decreases s.len(),
{
    if s.len() > 0 {
        lemma_plain_json(s.drop_last());
        assert(json_char(s.last()) == seq![s.last()]);
        assert(json_chars(s) =~= s);
    } else {
        assert(json_chars(s) =~= s);
    }
}

/// Quotes, backslashes and control characters never stand in a JSON string as they are.
pub proof fn lemma_json_escapes(c: char)
    ensures
        json_char('"') == seq!['\\', '"'] && json_char('\\') == seq!['\\', '\\'],
        json_char('\n') == seq!['\\', 'n'] && json_char('\r') == seq!['\\', 'r'],
        json_char('\t') == seq!['\\', 't'] && json_char('\u{8}') == seq!['\\', 'b'] && json_char(
            '\u{c}',
        ) == seq!['\\', 'f'],
        json_char('\u{0}') == seq!['\\', 'u', '0', '0', '0', '0'],
        json_char('\u{1f}') == seq!['\\', 'u', '0', '0', '1', 'f'],
        c as int >= 32 && c != '"' && c != '\\' ==> json_char(c) == seq![c],
        forall|i: int| 0 <= i < json_char(c).len() ==> (#[trigger] json_char(c)[i]) as int >= 32,
{
}

/// No control character stands in a JSON string.
pub proof fn lemma_json_is_printable(s: Seq<char>)
    ensures
        forall|i: int| 0 <= i < json_chars(s).len() ==> (#[trigger] json_chars(s)[i]) as int >= 32,
    decreases s.len(),
{
    if s.len() > 0 {
        let before = json_chars(s.drop_last());
        let last = json_char(s.last());
        lemma_json_is_printable(s.drop_last());
        lemma_json_escapes(s.last());
        assert forall|i: int| 0 <= i < json_chars(s).len() implies (#[trigger] json_chars(s)[i]) as int
            >= 32 by {
            if i < before.len() {
                assert(json_chars(s)[i] == before[i]);
            } else {
                assert(json_chars(s)[i] == last[i - before.len()]);
            }
        }
    }
}

/// An entry of a header names the file and says its offset, as text, and its size, as a
/// number.
pub proof fn lemma_entry_says(name: Seq<char>, offset: nat, size: nat)
    ensures
        ({
            let e = entry_json(name, (offset, size));
            &&& e == json_text(name) + (":{\"offset\":"@ + (json_text(decimal(offset)) + (
            ",\"size\":"@ + (decimal(size) + "}"@))))
        }),
{
    assert(entry_json(name, (offset, size)) =~= json_text(name) + (":{\"offset\":"@ + (json_text(
        decimal(offset),
    ) + (",\"size\":"@ + (decimal(size) + "}"@)))));
}

/// The bundle declares the hash that its own archive has, so that the archive passes the
/// check.
pub proof fn lemma_bundle_declares_its_archive(dir: Seq<char>, asar: Seq<u8>, json: Seq<u8>)
    requires
        asar.len() >= 16,
        header(asar) == Ok::<Seq<u8>, AsarError>(json),
    ensures
        ({
            let files = bundle_files(dir, asar);
            &&& files.contains((pushed(dir, "Resources/app.asar"@), asar))
            &&& files.contains(
                (pushed(dir, "Info.plist"@), encode_utf8(app_plist(hex_digits(sha256(json))))),
            )
            &&& holds(app_plist(hex_digits(sha256(json))), hex_digits(sha256(json)))
        }),
{
    let files = bundle_files(dir, asar);
    assert(json == asar.subrange(16, 16 + le32(asar, 12)));
    assert(files[0] == (pushed(dir, "Resources/app.asar"@), asar));
    assert(files[4].0 == pushed(dir, "Info.plist"@));
    assert(files.contains(files[0]) && files.contains(files[4]));
    let hash = hex_digits(sha256(json));
    let p = app_plist(hash);
    let tail = "</string>\n\t\t</dict>\n\t</dict>\n</dict>\n</plist>\n"@;
    let at = p.len() - tail.len() - hash.len();
    assert(p.subrange(at, at + hash.len()) =~= hash);
    assert(stands_at(p, hash, at));
}

// ---------- the checks ------------------------------------------------------

/// Whether every check passed.
pub open spec fn all_pass(list: Seq<CheckView>) -> bool {
    forall|i: int| 0 <= i < list.len() ==> (#[trigger] list[i]).ok
}

proof fn lemma_all_pass(a: Seq<CheckView>, b: Seq<CheckView>)
    ensures
        all_pass(a + b) <==> all_pass(a) && all_pass(b),
{
    let all = a + b;
    if all_pass(all) {
        assert forall|i: int| 0 <= i < a.len() implies (#[trigger] a[i]).ok by {
            assert(all[i].ok);
        }
        assert forall|i: int| 0 <= i < b.len() implies (#[trigger] b[i]).ok by {
            assert(all[a.len() + i].ok);
        }
    }
}

/// Whether everything that is wanted was found.
pub open spec fn holds_all(wanted: Seq<ItemView>, found: Seq<Seq<char>>) -> bool {
    forall|i: int| 0 <= i < wanted.len() ==> found.contains((#[trigger] wanted[i]).json)
}

proof fn lemma_membership(prefix: Seq<char>, wanted: Seq<ItemView>, found: Seq<Seq<char>>)
    ensures
        all_pass(membership(prefix, wanted, found)) <==> holds_all(wanted, found),
{
    let list = membership(prefix, wanted, found);
    if all_pass(list) {
        assert forall|i: int| 0 <= i < wanted.len() implies found.contains((#[trigger] wanted[i]).json) by {
            assert(list[i].ok);
        }
    }
}

/// Whether each version that is wanted is the one that was found.
pub open spec fn same_versions(wanted: Seq<ItemView>, found: Seq<Seq<char>>) -> bool {
    forall|i: int| 0 <= i < wanted.len() ==> is_version(#[trigger] wanted[i], found, i)
}

/// Whether a version that is wanted is the one found at its place.
pub open spec fn is_version(wanted: ItemView, found: Seq<Seq<char>>, i: int) -> bool {
    i < found.len() && found[i] == wanted.json
}

proof fn lemma_versions(wanted: Seq<ItemView>, found: Seq<Seq<char>>)
    ensures
        all_pass(version_checks(wanted, found)) <==> same_versions(wanted, found),
{
    let list = version_checks(wanted, found);
    if all_pass(list) {
        assert forall|i: int| 0 <= i < wanted.len() implies is_version(#[trigger] wanted[i], found, i) by {
            assert(list[i].ok);
        }
    }
    if same_versions(wanted, found) {
        assert forall|i: int| 0 <= i < list.len() implies (#[trigger] list[i]).ok by {
            assert(is_version(wanted[i], found, i));
        }
    }
}

/// Whether what was observed is what is expected.
pub open spec fn agrees(e: ExpectedView, o: ObservedView) -> bool {
    &&& o.framework == e.framework
    &&& e.confidence is Some ==> e.confidence == Some(o.confidence)
    &&& same_versions(e.versions, o.versions)
    &&& holds_all(e.findings, o.findings)
    &&& holds_all(e.dependencies, o.dependencies)
    &&& e.arbitrary_loads is Some ==> o.arbitrary_loads == e.arbitrary_loads
    &&& holds_all(e.url_schemes, o.url_schemes)
    &&& holds_all(e.tls_domains, o.tls_domains)
    &&& e.archive_matches ==> o.matching_archives.contains(e.archive.json)
    &&& !e.archive_matches ==> o.differing_archives.contains(e.archive.json)
}

proof fn lemma_detection(e: ExpectedView, o: ObservedView)
    ensures
        all_pass(detection_checks(e, o)) <==> o.framework == e.framework && (e.confidence is Some
            ==> e.confidence == Some(o.confidence)) && same_versions(e.versions, o.versions),
{
    let first = seq![CheckView { label: "framework"@, ok: o.framework == e.framework }];
    let second = stated("confidence"@, e.confidence is Some, Some(o.confidence) == e.confidence);
    let third = version_checks(e.versions, o.versions);
    lemma_all_pass(first, second);
    lemma_all_pass(first + second, third);
    assert(all_pass(first) <==> o.framework == e.framework) by {
        if all_pass(first) {
            assert(first[0].ok);
        }
    }
    assert(all_pass(second) <==> (e.confidence is Some ==> e.confidence == Some(o.confidence))) by {
        if all_pass(second) && e.confidence is Some {
            assert(second[0].ok);
        }
    }
    lemma_versions(e.versions, o.versions);
}

proof fn lemma_audit(e: ExpectedView, o: ObservedView)
    ensures
        all_pass(audit_checks(e, o)) <==> (e.arbitrary_loads is Some ==> o.arbitrary_loads
            == e.arbitrary_loads) && holds_all(e.url_schemes, o.url_schemes) && holds_all(
            e.tls_domains,
            o.tls_domains,
        ) && (e.archive_matches ==> o.matching_archives.contains(e.archive.json)) && (
        !e.archive_matches ==> o.differing_archives.contains(e.archive.json)),
{
    let first = stated(
        "infoPlist.allowsArbitraryLoads"@,
        e.arbitrary_loads is Some,
        o.arbitrary_loads == e.arbitrary_loads,
    );
    let second = membership("infoPlist.urlScheme "@, e.url_schemes, o.url_schemes);
    let third = membership("infoPlist.tlsException "@, e.tls_domains, o.tls_domains);
    let all = audit_checks(e, o);
    let n = first.len() + second.len() + third.len();
    assert(all.len() == n + 1);
    let last = all.skip(n as int);
    assert(all =~= first + second + third + last);
    lemma_all_pass(first, second);
    lemma_all_pass(first + second, third);
    lemma_all_pass(first + second + third, last);
    lemma_membership("infoPlist.urlScheme "@, e.url_schemes, o.url_schemes);
    lemma_membership("infoPlist.tlsException "@, e.tls_domains, o.tls_domains);
    assert(all_pass(first) <==> (e.arbitrary_loads is Some ==> o.arbitrary_loads
        == e.arbitrary_loads)) by {
        if all_pass(first) && e.arbitrary_loads is Some {
            assert(first[0].ok);
        }
    }
    assert(last.len() == 1);
    assert(all_pass(last) <==> last[0].ok);
}

/// Every check passes exactly where what was observed is what is expected.
pub proof fn lemma_checks_tell_agreement(e: ExpectedView, o: ObservedView)
    ensures
        all_pass(checks(e, o)) <==> agrees(e, o),
{
    let first = detection_checks(e, o);
    let second = membership(Seq::empty(), e.findings, o.findings);
    let third = membership(Seq::empty(), e.dependencies, o.dependencies);
    let last = audit_checks(e, o);
    lemma_all_pass(first, second);
    lemma_all_pass(first + second, third);
    lemma_all_pass(first + second + third, last);
    lemma_detection(e, o);
    lemma_membership(Seq::empty(), e.findings, o.findings);
    lemma_membership(Seq::empty(), e.dependencies, o.dependencies);
    lemma_audit(e, o);
}

/// There is a check for each thing that is stated, and no other.
pub proof fn lemma_number_of_checks(e: ExpectedView, o: ObservedView)
    ensures
        checks(e, o).len() == 2 + (if e.confidence is Some {
            1int
        } else {
            0
        }) + e.versions.len() + e.findings.len() + e.dependencies.len() + (if e.arbitrary_loads
            is Some {
            1int
        } else {
            0
        }) + e.url_schemes.len() + e.tls_domains.len(),
{
}

// ---------- the reports -----------------------------------------------------

/// The JSON text of what a pointer leads to.
pub open spec fn said(doc: Seq<u8>, pointer: Seq<char>) -> Seq<char> {
    match json_value(doc, pointer) {
        Some(v) => v.json,
        None => "null"@,
    }
}

/// A report that says what the manifest says, wherever the manifest says something, agrees
/// with it.
pub proof fn lemma_reports_that_agree(
    manifest: Seq<u8>,
    detect: Seq<u8>,
    scan: Seq<u8>,
    audit: Seq<u8>,
)
    requires
        said(detect, "/framework"@) == said(manifest, "/detection/framework"@),
        said(manifest, "/detection/confidence"@) == "null"@ || said(
            manifest,
            "/detection/confidence"@,
        ) == said(detect, "/confidence"@),
        forall|i: int|
            0 <= i < entries(manifest, "/detection/versions"@).len() ==> json(
                under(
                    entries(detect, "/versions"@),
                    (#[trigger] entries(manifest, "/detection/versions"@)[i]).0,
                    0,
                ),
            ) == entries(manifest, "/detection/versions"@)[i].1.json,
        forall|i: int|
            0 <= i < column(manifest, "/staticFindings"@, ""@).len() ==> strings(
                column(scan, "/findings"@, "/rule_id"@),
            ).contains(label(#[trigger] column(manifest, "/staticFindings"@, ""@)[i])),
        forall|i: int|
            0 <= i < column(manifest, "/dependencies"@, "/name"@).len() ==> exists|k: int|
                0 <= k < column(scan, "/dependencies"@, "/name"@).len() && json(
                    #[trigger] column(scan, "/dependencies"@, "/name"@)[k],
                ) == json(#[trigger] column(manifest, "/dependencies"@, "/name"@)[i]) && json(
                    cell(column(scan, "/dependencies"@, "/version"@), k),
                ) == json(cell(column(manifest, "/dependencies"@, "/version"@), i)),
        truth(json_value(manifest, "/audit/infoPlist/allowsArbitraryLoads"@)) is Some ==> truth(
            json_value(audit, "/info_plist/allows_arbitrary_loads"@),
        ) == truth(json_value(manifest, "/audit/infoPlist/allowsArbitraryLoads"@)),
        forall|i: int|
            0 <= i < column(manifest, "/audit/infoPlist/urlSchemes"@, ""@).len() ==> jsons(
                column(audit, "/info_plist/url_schemes"@, ""@),
            ).contains(json(#[trigger] column(manifest, "/audit/infoPlist/urlSchemes"@, ""@)[i])),
        forall|i: int|
            0 <= i < column(manifest, "/audit/infoPlist/tlsExceptionDomains"@, ""@).len() ==> jsons(
                column(audit, "/info_plist/tls_exceptions"@, "/domain"@),
            ).contains(
                json(#[trigger] column(manifest, "/audit/infoPlist/tlsExceptionDomains"@, ""@)[i]),
            ),
        ({
            let keys = column(audit, "/asar_integrity"@, "/archive_key"@);
            let matching = column(audit, "/asar_integrity"@, "/matches"@);
            let wanted = truth(json_value(manifest, "/audit/asarIntegrity/matches"@)) != Some(false);
            exists|k: int|
                0 <= k < keys.len() && json(#[trigger] keys[k]) == said(
                    manifest,
                    "/audit/asarIntegrity/archiveKey"@,
                ) && truth(cell(matching, k)) == Some(wanted)
        }),
    ensures
        agrees(expected(manifest), observed(manifest, detect, scan, audit)),
        all_pass(checks(expected(manifest), observed(manifest, detect, scan, audit))),
{
    let e = expected(manifest);
    let o = observed(manifest, detect, scan, audit);
    let versions = entries(manifest, "/detection/versions"@);
    assert forall|i: int| 0 <= i < e.versions.len() implies is_version(
        #[trigger] e.versions[i],
        o.versions,
        i,
    ) by {
        assert(versions[i].0 == versions[i].0);
    }
    let findings = column(manifest, "/staticFindings"@, ""@);
    assert forall|i: int| 0 <= i < e.findings.len() implies o.findings.contains(
        (#[trigger] e.findings[i]).json,
    ) by {
        assert(e.findings[i] == rule(findings[i]));
    }
    let names = column(manifest, "/dependencies"@, "/name"@);
    let numbers = column(manifest, "/dependencies"@, "/version"@);
    let there = column(scan, "/dependencies"@, "/name"@);
    let at = column(scan, "/dependencies"@, "/version"@);
    assert forall|i: int| 0 <= i < e.dependencies.len() implies o.dependencies.contains(
        (#[trigger] e.dependencies[i]).json,
    ) by {
        assert(e.dependencies[i] == dependency(names[i], cell(numbers, i)));
        let k = choose|k: int|
            0 <= k < there.len() && json(#[trigger] there[k]) == json(names[i]) && json(cell(at, k))
                == json(cell(numbers, i));
        assert(dependencies(scan)[k] == dependency(there[k], cell(at, k)));
        assert(o.dependencies[k] == e.dependencies[i].json);
    }
    let schemes = column(manifest, "/audit/infoPlist/urlSchemes"@, ""@);
    assert forall|i: int| 0 <= i < e.url_schemes.len() implies o.url_schemes.contains(
        (#[trigger] e.url_schemes[i]).json,
    ) by {
        assert(e.url_schemes[i] == item(schemes[i]));
    }
    let domains = column(manifest, "/audit/infoPlist/tlsExceptionDomains"@, ""@);
    assert forall|i: int| 0 <= i < e.tls_domains.len() implies o.tls_domains.contains(
        (#[trigger] e.tls_domains[i]).json,
    ) by {
        assert(e.tls_domains[i] == item(domains[i]));
    }
    let keys = column(audit, "/asar_integrity"@, "/archive_key"@);
    let matching = column(audit, "/asar_integrity"@, "/matches"@);
    let wanted = truth(json_value(manifest, "/audit/asarIntegrity/matches"@)) != Some(false);
    let k = choose|k: int|
        0 <= k < keys.len() && json(#[trigger] keys[k]) == said(
            manifest,
            "/audit/asarIntegrity/archiveKey"@,
        ) && truth(cell(matching, k)) == Some(wanted);
    lemma_archives(keys, matching, wanted, keys.len(), e.archive.json);
    assert(json(cell(keys, k)) == e.archive.json);
    lemma_checks_tell_agreement(e, o);
}

/// The archives that match, or do not, are those of which it is said.
pub proof fn lemma_archives(
    keys: Seq<Option<FoundView>>,
    matches: Seq<Option<FoundView>>,
    stated: bool,
    n: nat,
    key: Seq<char>,
)
    ensures
        archives(keys, matches, stated, n).contains(key) <==> exists|k: int|
            0 <= k < n && #[trigger] truth(cell(matches, k)) == Some(stated) && json(cell(keys, k))
                == key,
    decreases n,
{
    let all = archives(keys, matches, stated, n);
    if n > 0 {
        let before = archives(keys, matches, stated, (n - 1) as nat);
        lemma_archives(keys, matches, stated, (n - 1) as nat, key);
        if all.contains(key) {
            let i = choose|i: int| 0 <= i < all.len() && all[i] == key;
            if i < before.len() {
                assert(before[i] == key);
            } else {
                assert(truth(cell(matches, n - 1)) == Some(stated));
            }
        }
        if exists|k: int|
            0 <= k < n && #[trigger] truth(cell(matches, k)) == Some(stated) && json(cell(keys, k))
                == key {
            let k = choose|k: int|
                0 <= k < n && #[trigger] truth(cell(matches, k)) == Some(stated) && json(cell(keys, k))
                    == key;
            if k < n - 1 {
                let i = choose|i: int| 0 <= i < before.len() && before[i] == key;
                assert(all[i] == key);
            } else {
                assert(all[all.len() - 1] == key);
            }
        }
    }
}

/// The texts of a column are those of its cells that hold text.
pub proof fn lemma_strings(c: Seq<Option<FoundView>>, s: Seq<char>)
    ensures
        strings(c).contains(s) <==> exists|k: int|
            0 <= k < c.len() && (#[trigger] c[k]) is Some && c[k]->0.text == Some(s),
    decreases c.len(),
{
    let all = strings(c);
    if c.len() > 0 {
        let rest = c.drop_last();
        let before = strings(rest);
        lemma_strings(rest, s);
        if all.contains(s) {
            let i = choose|i: int| 0 <= i < all.len() && all[i] == s;
            if i < before.len() {
                assert(before[i] == s);
                let k = choose|k: int|
                    0 <= k < rest.len() && (#[trigger] rest[k]) is Some && rest[k]->0.text == Some(s);
                assert(c[k] == rest[k]);
            } else {
                assert(c[c.len() - 1]->0.text == Some(s));
            }
        }
        if exists|k: int| 0 <= k < c.len() && (#[trigger] c[k]) is Some && c[k]->0.text == Some(s) {
            let k = choose|k: int|
                0 <= k < c.len() && (#[trigger] c[k]) is Some && c[k]->0.text == Some(s);
            if k < rest.len() {
                assert(rest[k] == c[k]);
                let i = choose|i: int| 0 <= i < before.len() && before[i] == s;
                assert(all[i] == s);
            } else {
                assert(all[all.len() - 1] == s);
            }
        }
    }
}

/// The value under a key is that of the first entry of that key.
pub proof fn lemma_under(e: Seq<(Seq<char>, FoundView)>, key: Seq<char>, i: int)
    requires
        0 <= i,
    ensures
        match under(e, key, i) {
            Some(v) => exists|k: int|
                i <= k < e.len() && #[trigger] e[k] == (key, v) && forall|j: int|
                    i <= j < k ==> (#[trigger] e[j]).0 != key,
            None => forall|k: int| i <= k < e.len() ==> (#[trigger] e[k]).0 != key,
        },
    decreases e.len() - i,
{
    if i < e.len() && e[i].0 != key {
        lemma_under(e, key, i + 1);
    }
}

/// What stands for a value: its JSON text and its own; what is missing is null and has no
/// text, and only the two truth values are true or false.
pub proof fn lemma_values(v: FoundView)
    ensures
        json(Some(v)) == v.json,
        json(None) == "null"@,
        v.text matches Some(t) ==> label(Some(v)) == t,
        v.text is None ==> label(Some(v)) == ""@,
        label(None) == ""@,
        truth(Some(v)) == Some(true) <==> v.json == "true"@,
        truth(Some(v)) == Some(false) <==> v.json == "false"@,
        truth(None) is None,
        item(Some(v)) == (ItemView { label: label(Some(v)), json: v.json }),
        rule(Some(v)) == (ItemView { label: label(Some(v)), json: label(Some(v)) }),
        dependency(Some(v), None) == (ItemView {
            label: label(Some(v)) + "@"@ + ""@,
            json: v.json + " "@ + "null"@,
        }),
{
    reveal_strlit("true");
    reveal_strlit("false");
    assert("true"@.len() == 4 && "false"@.len() == 5);
}

} // verus!
