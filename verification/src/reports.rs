//! What the assessment reads out of the analyzers' reports and of the manifest of expected
//! findings, all of them JSON documents.
//!
//! A value that is missing reads as null, and a list that is missing as an empty one.

use vstd::prelude::*;

use crate::assess::{
    item_views, Expected, ExpectedView, Item, ItemView, Observed, ObservedView,
};
use crate::text::{concat3, opt_text, same, texts};

verus! {

/// A value of a document: its compact JSON, and the text where it is a string.
#[derive(Debug)]
pub struct Found {
    pub json: String,
    pub text: Option<String>,
}

/// The model of a [`Found`].
pub struct FoundView {
    pub json: Seq<char>,
    pub text: Option<Seq<char>>,
}

impl View for Found {
    type V = FoundView;

    open spec fn view(&self) -> FoundView {
        FoundView { json: self.json@, text: opt_text(self.text) }
    }
}

/// The model of a value that may be missing.
pub open spec fn found_view(f: Option<Found>) -> Option<FoundView> {
    match f {
        Some(f) => Some(f@),
        None => None,
    }
}

/// The models of a list of values that may be missing.
pub open spec fn column_view(v: Seq<Option<Found>>) -> Seq<Option<FoundView>> {
    v.map_values(|f: Option<Found>| found_view(f))
}

/// The models of a list of keys with their values.
pub open spec fn entries_view(v: Seq<(String, Found)>) -> Seq<(Seq<char>, FoundView)> {
    v.map_values(|e: (String, Found)| (e.0@, e.1@))
}

/// Why serde_json does not take bytes for a document; none where it does.
pub uninterp spec fn json_fault(bytes: Seq<u8>) -> Option<Seq<char>>;

/// The value that a JSON pointer leads to, as serde_json reads a document and writes the
/// value; none where there is no such value or no document.
pub uninterp spec fn json_value(bytes: Seq<u8>, pointer: Seq<char>) -> Option<FoundView>;

/// Of each element of the list that a JSON pointer leads to, the value that a second pointer
/// leads to from there; none where there is no such list or no document.
pub uninterp spec fn json_column(bytes: Seq<u8>, list: Seq<char>, inner: Seq<char>) -> Option<
    Seq<Option<FoundView>>,
>;

/// The keys, with their values, of the object that a JSON pointer leads to; none where there
/// is no such object or no document.
pub uninterp spec fn json_entries(bytes: Seq<u8>, pointer: Seq<char>) -> Option<
    Seq<(Seq<char>, FoundView)>,
>;

/// `serde_json::from_slice` into a `serde_json::Value`, and the text of its error. Which of
/// the two comes depends on the bytes alone.
#[verifier::external_body]
fn json_fault_of(bytes: &[u8]) -> (r: Option<String>)
    ensures
        opt_text(r) == json_fault(bytes@),
{
    serde_json::from_slice::<serde_json::Value>(bytes).err().map(|e| e.to_string())
}

/// `serde_json::from_slice` and `serde_json::Value::pointer`, with the value's `to_string`
/// and `as_str`. The outcome depends on the arguments alone.
#[verifier::external_body]
fn json_value_of(bytes: &[u8], pointer: &str) -> (r: Option<Found>)
    ensures
        found_view(r) == json_value(bytes@, pointer@),
{
    let document: serde_json::Value = serde_json::from_slice(bytes).ok()?;
    let value = document.pointer(pointer)?;
    Some(Found { json: value.to_string(), text: value.as_str().map(str::to_owned) })
}

/// `serde_json::from_slice`, `serde_json::Value::pointer` and its `as_array`, then `pointer`
/// again on each element, in order. The outcome depends on the arguments alone.
#[verifier::external_body]
fn json_column_of(bytes: &[u8], list: &str, inner: &str) -> (r: Option<Vec<Option<Found>>>)
    ensures
        match r {
            Some(v) => json_column(bytes@, list@, inner@) == Some(column_view(v@)),
            None => json_column(bytes@, list@, inner@) is None,
        },
{
    let document: serde_json::Value = serde_json::from_slice(bytes).ok()?;
    let elements = document.pointer(list)?.as_array()?.iter();
    let found = elements.map(|e| {
        e.pointer(inner).map(|v| Found { json: v.to_string(), text: v.as_str().map(str::to_owned) })
    });
    Some(found.collect())
}

/// `serde_json::from_slice`, `serde_json::Value::pointer` and its `as_object`, each entry in
/// the order in which the object is walked, which depends on the document alone.
#[verifier::external_body]
fn json_entries_of(bytes: &[u8], pointer: &str) -> (r: Option<Vec<(String, Found)>>)
    ensures
        match r {
            Some(v) => json_entries(bytes@, pointer@) == Some(entries_view(v@)),
            None => json_entries(bytes@, pointer@) is None,
        },
{
    let document: serde_json::Value = serde_json::from_slice(bytes).ok()?;
    let entries = document.pointer(pointer)?.as_object()?.iter();
    let found = entries.map(|(k, v)| {
        (k.clone(), Found { json: v.to_string(), text: v.as_str().map(str::to_owned) })
    });
    Some(found.collect())
}

/// The list that a pointer leads to, with one value of each element.
pub open spec fn column(bytes: Seq<u8>, list: Seq<char>, inner: Seq<char>) -> Seq<
    Option<FoundView>,
> {
    match json_column(bytes, list, inner) {
        Some(c) => c,
        None => Seq::empty(),
    }
}

/// The object that a pointer leads to.
pub open spec fn entries(bytes: Seq<u8>, pointer: Seq<char>) -> Seq<(Seq<char>, FoundView)> {
    match json_entries(bytes, pointer) {
        Some(e) => e,
        None => Seq::empty(),
    }
}

/// The JSON of a value.
pub open spec fn json(f: Option<FoundView>) -> Seq<char> {
    match f {
        Some(v) => v.json,
        None => "null"@,
    }
}

/// The text of a value; empty where it is not a string.
pub open spec fn label(f: Option<FoundView>) -> Seq<char> {
    match f {
        Some(v) => match v.text {
            Some(t) => t,
            None => ""@,
        },
        None => ""@,
    }
}

/// The truth value that a value is, where it is one.
pub open spec fn truth(f: Option<FoundView>) -> Option<bool> {
    match f {
        Some(v) => if v.json == "true"@ {
            Some(true)
        } else if v.json == "false"@ {
            Some(false)
        } else {
            None
        },
        None => None,
    }
}

/// The value in a row of a column.
pub open spec fn cell(c: Seq<Option<FoundView>>, i: int) -> Option<FoundView> {
    if 0 <= i < c.len() {
        c[i]
    } else {
        None
    }
}

/// A value as it is expected.
pub open spec fn item(f: Option<FoundView>) -> ItemView {
    ItemView { label: label(f), json: json(f) }
}

/// A rule as it is expected, which goes by its text.
pub open spec fn rule(f: Option<FoundView>) -> ItemView {
    ItemView { label: label(f), json: label(f) }
}

/// A dependency by name and version.
pub open spec fn dependency(name: Option<FoundView>, version: Option<FoundView>) -> ItemView {
    ItemView {
        label: label(name) + "@"@ + label(version),
        json: json(name) + " "@ + json(version),
    }
}

/// Dependencies by their names and versions.
pub open spec fn paired(names: Seq<Option<FoundView>>, versions: Seq<Option<FoundView>>) -> Seq<
    ItemView,
> {
    Seq::new(names.len(), |i: int| dependency(names[i], cell(versions, i)))
}

/// The dependencies in a document.
pub open spec fn dependencies(bytes: Seq<u8>) -> Seq<ItemView> {
    paired(
        column(bytes, "/dependencies"@, "/name"@),
        column(bytes, "/dependencies"@, "/version"@),
    )
}

/// The JSON of the values of a column.
pub open spec fn jsons(c: Seq<Option<FoundView>>) -> Seq<Seq<char>> {
    c.map_values(|f: Option<FoundView>| json(f))
}

/// The texts of those values of a column that are strings.
pub open spec fn strings(c: Seq<Option<FoundView>>) -> Seq<Seq<char>>
    decreases c.len(),
{
    if c.len() == 0 {
        Seq::empty()
    } else {
        match c.last() {
            Some(v) => match v.text {
                Some(t) => strings(c.drop_last()).push(t),
                None => strings(c.drop_last()),
            },
            None => strings(c.drop_last()),
        }
    }
}

/// The value under a key.
pub open spec fn under(e: Seq<(Seq<char>, FoundView)>, key: Seq<char>, i: int) -> Option<FoundView>
    decreases e.len() - i,
{
    if i < 0 || i >= e.len() {
        None
    } else if e[i].0 == key {
        Some(e[i].1)
    } else {
        under(e, key, i + 1)
    }
}

/// The keys of those of the first `n` archives whose integrity is as stated.
pub open spec fn archives(
    keys: Seq<Option<FoundView>>,
    matches: Seq<Option<FoundView>>,
    stated: bool,
    n: nat,
) -> Seq<Seq<char>>
    decreases n,
{
    if n == 0 {
        Seq::empty()
    } else {
        let before = archives(keys, matches, stated, (n - 1) as nat);
        if truth(cell(matches, n - 1)) == Some(stated) {
            before.push(json(cell(keys, n - 1)))
        } else {
            before
        }
    }
}

/// What a manifest expects.
pub open spec fn expected(manifest: Seq<u8>) -> ExpectedView {
    let confidence = json(json_value(manifest, "/detection/confidence"@));
    ExpectedView {
        framework: json(json_value(manifest, "/detection/framework"@)),
        confidence: if confidence == "null"@ {
            None
        } else {
            Some(confidence)
        },
        versions: entries(manifest, "/detection/versions"@).map_values(
            |e: (Seq<char>, FoundView)| ItemView { label: e.0, json: e.1.json },
        ),
        findings: column(manifest, "/staticFindings"@, ""@).map_values(
            |f: Option<FoundView>| rule(f),
        ),
        dependencies: dependencies(manifest),
        arbitrary_loads: truth(json_value(manifest, "/audit/infoPlist/allowsArbitraryLoads"@)),
        url_schemes: column(manifest, "/audit/infoPlist/urlSchemes"@, ""@).map_values(
            |f: Option<FoundView>| item(f),
        ),
        tls_domains: column(manifest, "/audit/infoPlist/tlsExceptionDomains"@, ""@).map_values(
            |f: Option<FoundView>| item(f),
        ),
        archive: item(json_value(manifest, "/audit/asarIntegrity/archiveKey"@)),
        archive_matches: truth(json_value(manifest, "/audit/asarIntegrity/matches"@)) != Some(
            false,
        ),
    }
}

/// What the reports of the detection, the scan and the audit found, as far as the manifest
/// asks for it.
pub open spec fn observed(manifest: Seq<u8>, detect: Seq<u8>, scan: Seq<u8>, audit: Seq<u8>) -> ObservedView {
    let keys = column(audit, "/asar_integrity"@, "/archive_key"@);
    let matches = column(audit, "/asar_integrity"@, "/matches"@);
    ObservedView {
        framework: json(json_value(detect, "/framework"@)),
        confidence: json(json_value(detect, "/confidence"@)),
        versions: entries(manifest, "/detection/versions"@).map_values(
            |e: (Seq<char>, FoundView)| json(under(entries(detect, "/versions"@), e.0, 0)),
        ),
        findings: strings(column(scan, "/findings"@, "/rule_id"@)),
        dependencies: dependencies(scan).map_values(|d: ItemView| d.json),
        arbitrary_loads: truth(json_value(audit, "/info_plist/allows_arbitrary_loads"@)),
        url_schemes: jsons(column(audit, "/info_plist/url_schemes"@, ""@)),
        tls_domains: jsons(column(audit, "/info_plist/tls_exceptions"@, "/domain"@)),
        matching_archives: archives(keys, matches, true, keys.len()),
        differing_archives: archives(keys, matches, false, keys.len()),
    }
}

/// Why bytes are no document.
pub fn document_fault(bytes: &[u8]) -> (r: Option<String>)
    ensures
        opt_text(r) == json_fault(bytes@),
{
    json_fault_of(bytes)
}

fn column_of(bytes: &[u8], list: &str, inner: &str) -> (r: Vec<Option<Found>>)
    ensures
        column_view(r@) == column(bytes@, list@, inner@),
{
    match json_column_of(bytes, list, inner) {
        Some(c) => c,
        None => {
            let none: Vec<Option<Found>> = Vec::new();
            assert(column_view(none@) =~= Seq::empty());
            none
        },
    }
}

fn entries_of(bytes: &[u8], pointer: &str) -> (r: Vec<(String, Found)>)
    ensures
        entries_view(r@) == entries(bytes@, pointer@),
{
    match json_entries_of(bytes, pointer) {
        Some(e) => e,
        None => {
            let none: Vec<(String, Found)> = Vec::new();
            assert(entries_view(none@) =~= Seq::empty());
            none
        },
    }
}

/// The JSON of a value.
pub fn json_of(f: &Option<Found>) -> (r: String)
    ensures
        r@ == json(found_view(*f)),
{
    match f {
        Some(v) => v.json.clone(),
        None => "null".to_owned(),
    }
}

/// The text of a value.
pub fn label_of(f: &Option<Found>) -> (r: String)
    ensures
        r@ == label(found_view(*f)),
{
    match f {
        Some(v) => match &v.text {
            Some(t) => t.clone(),
            None => "".to_owned(),
        },
        None => "".to_owned(),
    }
}

/// The truth value that a value is.
pub fn truth_of(f: &Option<Found>) -> (r: Option<bool>)
    ensures
        r == truth(found_view(*f)),
{
    match f {
        Some(v) => if same(v.json.as_str(), "true") {
            Some(true)
        } else if same(v.json.as_str(), "false") {
            Some(false)
        } else {
            None
        },
        None => None,
    }
}

/// A value as it is expected.
pub fn item_of(f: &Option<Found>) -> (r: Item)
    ensures
        r@ == item(found_view(*f)),
{
    Item { label: label_of(f), json: json_of(f) }
}

/// Values as they are expected.
pub fn items_of(c: &Vec<Option<Found>>) -> (r: Vec<Item>)
    ensures
        item_views(r@) == column_view(c@).map_values(|f: Option<FoundView>| item(f)),
{
    let mut out: Vec<Item> = Vec::new();
    let mut i: usize = 0;
    while i < c.len()
        invariant
            i <= c@.len(),
            out@.len() == i,
            forall|k: int| 0 <= k < i ==> (#[trigger] out@[k])@ == item(found_view(c@[k])),
        decreases c.len() - i,
    {
        out.push(item_of(&c[i]));
        i = i + 1;
    }
    assert(item_views(out@) =~= column_view(c@).map_values(|f: Option<FoundView>| item(f)));
    out
}

/// Rules as they are expected.
pub fn rules_of(c: &Vec<Option<Found>>) -> (r: Vec<Item>)
    ensures
        item_views(r@) == column_view(c@).map_values(|f: Option<FoundView>| rule(f)),
{
    let mut out: Vec<Item> = Vec::new();
    let mut i: usize = 0;
    while i < c.len()
        invariant
            i <= c@.len(),
            out@.len() == i,
            forall|k: int| 0 <= k < i ==> (#[trigger] out@[k])@ == rule(found_view(c@[k])),
        decreases c.len() - i,
    {
        out.push(Item { label: label_of(&c[i]), json: label_of(&c[i]) });
        i = i + 1;
    }
    assert(item_views(out@) =~= column_view(c@).map_values(|f: Option<FoundView>| rule(f)));
    out
}

/// The JSON of the values of a column.
pub fn jsons_of(c: &Vec<Option<Found>>) -> (r: Vec<String>)
    ensures
        texts(r@) == jsons(column_view(c@)),
{
    let mut out: Vec<String> = Vec::new();
    let mut i: usize = 0;
    while i < c.len()
        invariant
            i <= c@.len(),
            out@.len() == i,
            forall|k: int| 0 <= k < i ==> (#[trigger] out@[k])@ == json(found_view(c@[k])),
        decreases c.len() - i,
    {
        out.push(json_of(&c[i]));
        i = i + 1;
    }
    assert(texts(out@) =~= jsons(column_view(c@)));
    out
}

/// The texts of those values of a column that are strings.
pub fn strings_of(c: &Vec<Option<Found>>) -> (r: Vec<String>)
    ensures
        texts(r@) == strings(column_view(c@)),
{
    let ghost all = column_view(c@);
    let mut out: Vec<String> = Vec::new();
    let mut i: usize = 0;
    assert(all.take(0) =~= Seq::empty());
    assert(texts(out@) =~= Seq::empty());
    while i < c.len()
        invariant
            i <= c@.len(),
            all == column_view(c@),
            texts(out@) == strings(all.take(i as int)),
        decreases c.len() - i,
    {
        let ghost before = out@;
        assert(all.take(i + 1).drop_last() =~= all.take(i as int));
        assert(all.take(i + 1).last() == found_view(c@[i as int]));
        match &c[i] {
            Some(v) => match &v.text {
                Some(t) => {
                    out.push(t.clone());
                    assert(texts(out@) =~= texts(before).push(t@));
                },
                None => {},
            },
            None => {},
        }
        i = i + 1;
    }
    assert(all.take(all.len() as int) =~= all);
    out
}

/// Dependencies by their names and versions.
pub fn paired_of(names: &Vec<Option<Found>>, versions: &Vec<Option<Found>>) -> (r: Vec<Item>)
    ensures
        item_views(r@) == paired(column_view(names@), column_view(versions@)),
{
    let ghost all = paired(column_view(names@), column_view(versions@));
    let mut out: Vec<Item> = Vec::new();
    let mut i: usize = 0;
    while i < names.len()
        invariant
            i <= names@.len(),
            out@.len() == i,
            all == paired(column_view(names@), column_view(versions@)),
            all.len() == names@.len(),
            forall|k: int| 0 <= k < i ==> (#[trigger] out@[k])@ == all[k],
        decreases names.len() - i,
    {
        let none: Option<Found> = None;
        let version = if i < versions.len() {
            &versions[i]
        } else {
            &none
        };
        assert(found_view(*version) == cell(column_view(versions@), i as int));
        assert(found_view(names@[i as int]) == column_view(names@)[i as int]);
        let name = &names[i];
        out.push(
            Item {
                label: concat3(label_of(name).as_str(), "@", label_of(version).as_str()),
                json: concat3(json_of(name).as_str(), " ", json_of(version).as_str()),
            },
        );
        i = i + 1;
    }
    assert(item_views(out@) =~= all);
    out
}

fn dependencies_of(bytes: &[u8]) -> (r: Vec<Item>)
    ensures
        item_views(r@) == dependencies(bytes@),
{
    let names = column_of(bytes, "/dependencies", "/name");
    let versions = column_of(bytes, "/dependencies", "/version");
    paired_of(&names, &versions)
}

/// What items are compared by.
pub fn item_jsons_of(items: Vec<Item>) -> (r: Vec<String>)
    ensures
        texts(r@) == item_views(items@).map_values(|d: ItemView| d.json),
{
    let mut out: Vec<String> = Vec::new();
    let mut i: usize = 0;
    while i < items.len()
        invariant
            i <= items@.len(),
            out@.len() == i,
            forall|k: int| 0 <= k < i ==> (#[trigger] out@[k])@ == items@[k].json@,
        decreases items.len() - i,
    {
        out.push(items[i].json.clone());
        i = i + 1;
    }
    assert(texts(out@) =~= item_views(items@).map_values(|d: ItemView| d.json));
    out
}

/// Values under keys as they are expected.
pub fn entry_items_of(e: &Vec<(String, Found)>) -> (r: Vec<Item>)
    ensures
        item_views(r@) == entries_view(e@).map_values(
            |e: (Seq<char>, FoundView)| ItemView { label: e.0, json: e.1.json },
        ),
{
    let mut out: Vec<Item> = Vec::new();
    let mut i: usize = 0;
    while i < e.len()
        invariant
            i <= e@.len(),
            out@.len() == i,
            forall|k: int|
                0 <= k < i ==> (#[trigger] out@[k])@ == (ItemView {
                    label: e@[k].0@,
                    json: e@[k].1.json@,
                }),
        decreases e.len() - i,
    {
        out.push(Item { label: e[i].0.clone(), json: e[i].1.json.clone() });
        i = i + 1;
    }
    assert(item_views(out@) =~= entries_view(e@).map_values(
        |e: (Seq<char>, FoundView)| ItemView { label: e.0, json: e.1.json },
    ));
    out
}

/// The JSON of the value under a key.
pub fn json_under(e: &Vec<(String, Found)>, key: &str) -> (r: String)
    ensures
        r@ == json(under(entries_view(e@), key@, 0)),
{
    let ghost all = entries_view(e@);
    let mut i: usize = 0;
    while i < e.len()
        invariant
            i <= e@.len(),
            all == entries_view(e@),
            under(all, key@, 0) == under(all, key@, i as int),
        decreases e.len() - i,
    {
        assert(all[i as int] == (e@[i as int].0@, e@[i as int].1@));
        if same(e[i].0.as_str(), key) {
            return e[i].1.json.clone();
        }
        i = i + 1;
    }
    "null".to_owned()
}

/// The JSON of the values under the keys that are wanted.
pub fn versions_of(wanted: &Vec<(String, Found)>, found: &Vec<(String, Found)>) -> (r: Vec<String>)
    ensures
        texts(r@) == entries_view(wanted@).map_values(
            |e: (Seq<char>, FoundView)| json(under(entries_view(found@), e.0, 0)),
        ),
{
    let mut out: Vec<String> = Vec::new();
    let mut i: usize = 0;
    while i < wanted.len()
        invariant
            i <= wanted@.len(),
            out@.len() == i,
            forall|k: int|
                0 <= k < i ==> (#[trigger] out@[k])@ == json(
                    under(entries_view(found@), wanted@[k].0@, 0),
                ),
        decreases wanted.len() - i,
    {
        out.push(json_under(found, wanted[i].0.as_str()));
        i = i + 1;
    }
    assert(texts(out@) =~= entries_view(wanted@).map_values(
        |e: (Seq<char>, FoundView)| json(under(entries_view(found@), e.0, 0)),
    ));
    out
}

/// The keys of the archives whose integrity is as stated.
pub fn archives_of(keys: &Vec<Option<Found>>, matches: &Vec<Option<Found>>, stated: bool) -> (r: Vec<
    String,
>)
    ensures
        texts(r@) == archives(column_view(keys@), column_view(matches@), stated, keys@.len()),
{
    let ghost k = column_view(keys@);
    let ghost m = column_view(matches@);
    let mut out: Vec<String> = Vec::new();
    let mut i: usize = 0;
    assert(texts(out@) =~= Seq::empty());
    while i < keys.len()
        invariant
            i <= keys@.len(),
            k == column_view(keys@),
            m == column_view(matches@),
            texts(out@) == archives(k, m, stated, i as nat),
        decreases keys.len() - i,
    {
        let ghost before = out@;
        let none: Option<Found> = None;
        let verdict = if i < matches.len() {
            &matches[i]
        } else {
            &none
        };
        assert(found_view(*verdict) == cell(m, i as int));
        assert(found_view(keys@[i as int]) == cell(k, i as int));
        let as_stated = match truth_of(verdict) {
            Some(t) => t == stated,
            None => false,
        };
        if as_stated {
            let key = json_of(&keys[i]);
            out.push(key);
            assert(texts(out@) =~= texts(before).push(key@));
        }
        i = i + 1;
    }
    out
}

/// Reads what a manifest expects.
pub fn read_expected(manifest: &[u8]) -> (r: Expected)
    ensures
        r@ == expected(manifest@),
{
    let confidence = json_of(&json_value_of(manifest, "/detection/confidence"));
    Expected {
        framework: json_of(&json_value_of(manifest, "/detection/framework")),
        confidence: if same(confidence.as_str(), "null") {
            None
        } else {
            Some(confidence)
        },
        versions: entry_items_of(&entries_of(manifest, "/detection/versions")),
        findings: rules_of(&column_of(manifest, "/staticFindings", "")),
        dependencies: dependencies_of(manifest),
        arbitrary_loads: truth_of(
            &json_value_of(manifest, "/audit/infoPlist/allowsArbitraryLoads"),
        ),
        url_schemes: items_of(&column_of(manifest, "/audit/infoPlist/urlSchemes", "")),
        tls_domains: items_of(&column_of(manifest, "/audit/infoPlist/tlsExceptionDomains", "")),
        archive: item_of(&json_value_of(manifest, "/audit/asarIntegrity/archiveKey")),
        archive_matches: match truth_of(
            &json_value_of(manifest, "/audit/asarIntegrity/matches"),
        ) {
            Some(stated) => stated,
            None => true,
        },
    }
}

/// Reads what the reports found.
pub fn read_observed(manifest: &[u8], detect: &[u8], scan: &[u8], audit: &[u8]) -> (r: Observed)
    ensures
        r@ == observed(manifest@, detect@, scan@, audit@),
{
    let keys = column_of(audit, "/asar_integrity", "/archive_key");
    let matches = column_of(audit, "/asar_integrity", "/matches");
    Observed {
        framework: json_of(&json_value_of(detect, "/framework")),
        confidence: json_of(&json_value_of(detect, "/confidence")),
        versions: versions_of(
            &entries_of(manifest, "/detection/versions"),
            &entries_of(detect, "/versions"),
        ),
        findings: strings_of(&column_of(scan, "/findings", "/rule_id")),
        dependencies: item_jsons_of(dependencies_of(scan)),
        arbitrary_loads: truth_of(&json_value_of(audit, "/info_plist/allows_arbitrary_loads")),
        url_schemes: jsons_of(&column_of(audit, "/info_plist/url_schemes", "")),
        tls_domains: jsons_of(&column_of(audit, "/info_plist/tls_exceptions", "/domain")),
        matching_archives: archives_of(&keys, &matches, true),
        differing_archives: archives_of(&keys, &matches, false),
    }
}

} // verus!
