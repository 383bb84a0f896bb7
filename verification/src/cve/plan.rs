//! Which lookups a set of detected versions calls for.

use vstd::prelude::*;

use crate::cve::advisory::{advisories, Advisory, AdvisoryView, Source};
use crate::cve::filter::{cef_build, cef_chromium_version};
use crate::cve::report::{name_of_source, source_name, Bucket};
use crate::cve::settings::SourceSettings;
use crate::cve::snapshot::{answer, product_place, Snapshot};
use crate::detect::{Versions, VersionsView};
use crate::text::{concat3, copy_opt, opt_text};

verus! {

/// How a source is asked.
#[derive(Debug)]
pub enum Query {
    /// By package of an ecosystem (OSV, GHSA).
    Package { ecosystem: &'static str, name: &'static str },
    /// By vendor and product (NVD's CPE, EUVD).
    Product { vendor: &'static str, product: &'static str },
}

/// The model of a [`Query`].
pub enum QueryView {
    Package(Seq<char>, Seq<char>),
    Product(Seq<char>, Seq<char>),
}

impl View for Query {
    type V = QueryView;

    open spec fn view(&self) -> QueryView {
        match *self {
            Query::Package { ecosystem, name } => QueryView::Package(ecosystem@, name@),
            Query::Product { vendor, product } => QueryView::Product(vendor@, product@),
        }
    }
}

/// One question to one source.
#[derive(Debug)]
pub struct Lookup {
    pub bucket: Bucket,
    pub source: Source,
    pub query: Query,
    pub version: String,
    /// How an error message names the lookup.
    pub prefix: String,
}

/// The model of a [`Lookup`].
pub struct LookupView {
    pub bucket: Bucket,
    pub source: Source,
    pub query: QueryView,
    pub version: Seq<char>,
    pub prefix: Seq<char>,
}

impl View for Lookup {
    type V = LookupView;

    open spec fn view(&self) -> LookupView {
        LookupView {
            bucket: self.bucket,
            source: self.source,
            query: self.query@,
            version: self.version@,
            prefix: self.prefix@,
        }
    }
}

/// The views of a list of lookups.
pub open spec fn lookups(v: Seq<Lookup>) -> Seq<LookupView> {
    v.map_values(|l: Lookup| l@)
}

/// The runtimes in the order in which they are looked up.
pub open spec fn runtime(i: int) -> Bucket {
    if i == 0 {
        Bucket::Electron
    } else if i == 1 {
        Bucket::Tauri
    } else if i == 2 {
        Bucket::Node
    } else if i == 3 {
        Bucket::Deno
    } else if i == 4 {
        Bucket::Chromium
    } else if i == 5 {
        Bucket::Cef
    } else if i == 6 {
        Bucket::Flutter
    } else if i == 7 {
        Bucket::Qt
    } else if i == 8 {
        Bucket::Nwjs
    } else if i == 9 {
        Bucket::ReactNative
    } else if i == 10 {
        Bucket::Wails
    } else if i == 11 {
        Bucket::Sciter
    } else if i == 12 {
        Bucket::Webkit
    } else {
        Bucket::Java
    }
}

/// The version that a runtime is looked up by. CEF goes by the Chromium build it embeds.
pub open spec fn version_of(v: VersionsView, b: Bucket) -> Option<Seq<char>> {
    match b {
        Bucket::Electron => v.electron,
        Bucket::Tauri => v.tauri,
        Bucket::Node => v.node,
        Bucket::Deno => v.deno,
        Bucket::Chromium => v.chromium,
        Bucket::Flutter => v.flutter,
        Bucket::Qt => v.qt,
        Bucket::Nwjs => v.nwjs,
        Bucket::ReactNative => v.react_native,
        Bucket::Wails => v.wails,
        Bucket::Sciter => v.sciter,
        Bucket::Java => v.java,
        Bucket::Webkit => v.webkit,
        Bucket::Cef => match v.cef {
            Some(c) => cef_build(c),
            None => None,
        },
    }
}

/// The product key under which a snapshot holds a runtime.
pub open spec fn snapshot_key(b: Bucket) -> Seq<char> {
    match b {
        Bucket::Electron => "electron"@,
        Bucket::Tauri => "tauri"@,
        Bucket::Node => "node"@,
        Bucket::Deno => "deno"@,
        Bucket::Chromium => "chromium"@,
        Bucket::Flutter => "flutter"@,
        Bucket::Qt => "qt"@,
        Bucket::Nwjs => "nwjs"@,
        Bucket::ReactNative => "react_native"@,
        Bucket::Wails => "wails"@,
        Bucket::Sciter => "sciter"@,
        Bucket::Java => "java"@,
        Bucket::Webkit => "webkit"@,
        Bucket::Cef => "chromium"@,
    }
}

/// The name of a runtime in a message.
pub open spec fn label(b: Bucket) -> Seq<char> {
    match b {
        Bucket::ReactNative => "react-native"@,
        Bucket::Cef => "cef"@,
        _ => snapshot_key(b),
    }
}

/// How `source` is asked for a runtime; none where it is not.
pub open spec fn question(b: Bucket, s: Source) -> Option<QueryView> {
    match (b, s) {
        (Bucket::Electron, Source::Osv) => Some(QueryView::Package("npm"@, "electron"@)),
        (Bucket::Electron, Source::Ghsa) => Some(QueryView::Package("npm"@, "electron"@)),
        (Bucket::Electron, Source::Euvd) => Some(QueryView::Product("Electron"@, "Electron"@)),
        (Bucket::Tauri, Source::Osv) => Some(QueryView::Package("crates.io"@, "tauri"@)),
        (Bucket::Tauri, Source::Ghsa) => Some(QueryView::Package("rust"@, "tauri"@)),
        (Bucket::Tauri, Source::Euvd) => Some(QueryView::Product("Tauri"@, "Tauri"@)),
        (Bucket::Node, Source::Nvd) => Some(QueryView::Product("nodejs"@, "node.js"@)),
        (Bucket::Node, Source::Euvd) => Some(QueryView::Product("Node.js"@, "Node.js"@)),
        (Bucket::Deno, Source::Nvd) => Some(QueryView::Product("deno"@, "deno"@)),
        (Bucket::Deno, Source::Euvd) => Some(QueryView::Product("Deno"@, "Deno"@)),
        (Bucket::Chromium, Source::Nvd) => Some(QueryView::Product("google"@, "chrome"@)),
        (Bucket::Chromium, Source::Euvd) => Some(QueryView::Product("Google"@, "Chrome"@)),
        (Bucket::Cef, Source::Nvd) => Some(QueryView::Product("google"@, "chrome"@)),
        (Bucket::Cef, Source::Euvd) => Some(QueryView::Product("Google"@, "Chrome"@)),
        (Bucket::Flutter, Source::Nvd) => Some(QueryView::Product("google"@, "flutter"@)),
        (Bucket::Flutter, Source::Euvd) => Some(QueryView::Product("Google"@, "Flutter"@)),
        (Bucket::Qt, Source::Nvd) => Some(QueryView::Product("qt"@, "qt"@)),
        (Bucket::Qt, Source::Euvd) => Some(QueryView::Product("Qt"@, "Qt"@)),
        (Bucket::Nwjs, Source::Nvd) => Some(QueryView::Product("nwjs"@, "nwjs"@)),
        (Bucket::Nwjs, Source::Euvd) => Some(QueryView::Product("nwjs"@, "NW.js"@)),
        (Bucket::ReactNative, Source::Nvd) => Some(
            QueryView::Product("facebook"@, "react_native"@),
        ),
        (Bucket::ReactNative, Source::Osv) => Some(QueryView::Package("npm"@, "react-native"@)),
        (Bucket::ReactNative, Source::Ghsa) => Some(QueryView::Package("npm"@, "react-native"@)),
        (Bucket::Wails, Source::Nvd) => Some(QueryView::Product("wailsapp"@, "wails"@)),
        (Bucket::Wails, Source::Ghsa) => Some(
            QueryView::Package("go"@, "github.com/wailsapp/wails/v2"@),
        ),
        (Bucket::Sciter, Source::Nvd) => Some(QueryView::Product("terrainformatica"@, "sciter"@)),
        (Bucket::Webkit, Source::Nvd) => Some(QueryView::Product("apple"@, "safari"@)),
        (Bucket::Webkit, Source::Euvd) => Some(QueryView::Product("Apple"@, "Safari"@)),
        (Bucket::Java, Source::Nvd) => Some(QueryView::Product("oracle"@, "jdk"@)),
        (Bucket::Java, Source::Euvd) => Some(QueryView::Product("Oracle"@, "JDK"@)),
        _ => None,
    }
}

/// Whether a source is switched on.
pub open spec fn enabled(s: SourceSettings, source: Source) -> bool {
    match source {
        Source::Nvd => s.nvd.enabled,
        Source::Euvd => s.euvd.enabled,
        Source::Osv => s.osv.enabled,
        Source::Ghsa => s.ghsa.enabled,
    }
}

/// How an error message names a lookup.
pub open spec fn lookup_prefix(b: Bucket, source: Source, version: Seq<char>) -> Seq<char> {
    "["@ + source_name(source) + "] "@ + label(b) + " "@ + version
}

/// The lookup of a runtime in one source, where there is one and it is switched on.
pub open spec fn one_lookup(
    b: Bucket,
    source: Source,
    version: Seq<char>,
    s: SourceSettings,
) -> Seq<LookupView> {
    match question(b, source) {
        Some(query) => if enabled(s, source) {
            seq![
                LookupView {
                    bucket: b,
                    source,
                    query,
                    version,
                    prefix: lookup_prefix(b, source, version),
                },
            ]
        } else {
            Seq::empty()
        },
        None => Seq::empty(),
    }
}

/// The lookups of a runtime: NVD, OSV, GHSA and EUVD, in this order.
pub open spec fn runtime_lookups(b: Bucket, version: Seq<char>, s: SourceSettings) -> Seq<LookupView> {
    one_lookup(b, Source::Nvd, version, s) + one_lookup(b, Source::Osv, version, s) + one_lookup(
        b,
        Source::Ghsa,
        version,
        s,
    ) + one_lookup(b, Source::Euvd, version, s)
}

/// Whether a snapshot answers for a runtime.
pub open spec fn covered(
    snap: Option<Seq<(Seq<char>, Seq<AdvisoryView>)>>,
    b: Bucket,
) -> bool {
    match snap {
        Some(p) => product_place(p, snapshot_key(b), 0) is Some,
        None => false,
    }
}

/// The lookups that the first `n` runtimes call for. One that the snapshot answers
/// never goes to the network.
pub open spec fn planned(
    v: VersionsView,
    s: SourceSettings,
    snap: Option<Seq<(Seq<char>, Seq<AdvisoryView>)>>,
    n: nat,
) -> Seq<LookupView>
    decreases n,
{
    if n == 0 {
        Seq::empty()
    } else {
        let before = planned(v, s, snap, (n - 1) as nat);
        let b = runtime(n - 1);
        match version_of(v, b) {
            Some(version) => if covered(snap, b) {
                before
            } else {
                before + runtime_lookups(b, version, s)
            },
            None => before,
        }
    }
}

/// How many runtimes there are.
pub const RUNTIMES: usize = 14;

fn runtime_at(i: usize) -> (r: Bucket)
    ensures
        r == runtime(i as int),
{
    if i == 0 {
        Bucket::Electron
    } else if i == 1 {
        Bucket::Tauri
    } else if i == 2 {
        Bucket::Node
    } else if i == 3 {
        Bucket::Deno
    } else if i == 4 {
        Bucket::Chromium
    } else if i == 5 {
        Bucket::Cef
    } else if i == 6 {
        Bucket::Flutter
    } else if i == 7 {
        Bucket::Qt
    } else if i == 8 {
        Bucket::Nwjs
    } else if i == 9 {
        Bucket::ReactNative
    } else if i == 10 {
        Bucket::Wails
    } else if i == 11 {
        Bucket::Sciter
    } else if i == 12 {
        Bucket::Webkit
    } else {
        Bucket::Java
    }
}

/// The version that a runtime is looked up by.
pub fn version_for(v: &Versions, b: Bucket) -> (r: Option<String>)
    ensures
        opt_text(r) == version_of(v@, b),
{
    match b {
        Bucket::Electron => copy_opt(&v.electron),
        Bucket::Tauri => copy_opt(&v.tauri),
        Bucket::Node => copy_opt(&v.node),
        Bucket::Deno => copy_opt(&v.deno),
        Bucket::Chromium => copy_opt(&v.chromium),
        Bucket::Flutter => copy_opt(&v.flutter),
        Bucket::Qt => copy_opt(&v.qt),
        Bucket::Nwjs => copy_opt(&v.nwjs),
        Bucket::ReactNative => copy_opt(&v.react_native),
        Bucket::Wails => copy_opt(&v.wails),
        Bucket::Sciter => copy_opt(&v.sciter),
        Bucket::Java => copy_opt(&v.java),
        Bucket::Webkit => copy_opt(&v.webkit),
        Bucket::Cef => match &v.cef {
            Some(c) => cef_chromium_version(c.as_str()),
            None => None,
        },
    }
}

fn key_of(b: Bucket) -> (r: &'static str)
    ensures
        r@ == snapshot_key(b),
{
    match b {
        Bucket::Electron => "electron",
        Bucket::Tauri => "tauri",
        Bucket::Node => "node",
        Bucket::Deno => "deno",
        Bucket::Chromium => "chromium",
        Bucket::Flutter => "flutter",
        Bucket::Qt => "qt",
        Bucket::Nwjs => "nwjs",
        Bucket::ReactNative => "react_native",
        Bucket::Wails => "wails",
        Bucket::Sciter => "sciter",
        Bucket::Java => "java",
        Bucket::Webkit => "webkit",
        Bucket::Cef => "chromium",
    }
}

fn label_of(b: Bucket) -> (r: &'static str)
    ensures
        r@ == label(b),
{
    match b {
        Bucket::ReactNative => "react-native",
        Bucket::Cef => "cef",
        _ => key_of(b),
    }
}

fn by_package(ecosystem: &'static str, name: &'static str) -> (r: Option<Query>)
    ensures
        r is Some && r->0@ == QueryView::Package(ecosystem@, name@),
{
    Some(Query::Package { ecosystem, name })
}

fn by_product(vendor: &'static str, product: &'static str) -> (r: Option<Query>)
    ensures
        r is Some && r->0@ == QueryView::Product(vendor@, product@),
{
    Some(Query::Product { vendor, product })
}

fn question_of(b: Bucket, s: Source) -> (r: Option<Query>)
    ensures
        match r {
            Some(q) => question(b, s) == Some(q@),
            None => question(b, s) is None,
        },
{
    match (b, s) {
        (Bucket::Electron, Source::Osv) => by_package("npm", "electron"),
        (Bucket::Electron, Source::Ghsa) => by_package("npm", "electron"),
        (Bucket::Electron, Source::Euvd) => by_product("Electron", "Electron"),
        (Bucket::Tauri, Source::Osv) => by_package("crates.io", "tauri"),
        (Bucket::Tauri, Source::Ghsa) => by_package("rust", "tauri"),
        (Bucket::Tauri, Source::Euvd) => by_product("Tauri", "Tauri"),
        (Bucket::Node, Source::Nvd) => by_product("nodejs", "node.js"),
        (Bucket::Node, Source::Euvd) => by_product("Node.js", "Node.js"),
        (Bucket::Deno, Source::Nvd) => by_product("deno", "deno"),
        (Bucket::Deno, Source::Euvd) => by_product("Deno", "Deno"),
        (Bucket::Chromium, Source::Nvd) => by_product("google", "chrome"),
        (Bucket::Chromium, Source::Euvd) => by_product("Google", "Chrome"),
        // CEF embeds Chromium; its CVEs are Chromium's.
        (Bucket::Cef, Source::Nvd) => by_product("google", "chrome"),
        (Bucket::Cef, Source::Euvd) => by_product("Google", "Chrome"),
        (Bucket::Flutter, Source::Nvd) => by_product("google", "flutter"),
        (Bucket::Flutter, Source::Euvd) => by_product("Google", "Flutter"),
        (Bucket::Qt, Source::Nvd) => by_product("qt", "qt"),
        (Bucket::Qt, Source::Euvd) => by_product("Qt", "Qt"),
        (Bucket::Nwjs, Source::Nvd) => by_product("nwjs", "nwjs"),
        (Bucket::Nwjs, Source::Euvd) => by_product("nwjs", "NW.js"),
        (Bucket::ReactNative, Source::Nvd) => by_product("facebook", "react_native"),
        (Bucket::ReactNative, Source::Osv) => by_package("npm", "react-native"),
        (Bucket::ReactNative, Source::Ghsa) => by_package("npm", "react-native"),
        (Bucket::Wails, Source::Nvd) => by_product("wailsapp", "wails"),
        (Bucket::Wails, Source::Ghsa) => by_package("go", "github.com/wailsapp/wails/v2"),
        (Bucket::Sciter, Source::Nvd) => by_product("terrainformatica", "sciter"),
        (Bucket::Webkit, Source::Nvd) => by_product("apple", "safari"),
        (Bucket::Webkit, Source::Euvd) => by_product("Apple", "Safari"),
        // Oracle JDK is the canonical CPE; OpenJDK advisories are typically
        // echoed there because they share a codebase.
        (Bucket::Java, Source::Nvd) => by_product("oracle", "jdk"),
        (Bucket::Java, Source::Euvd) => by_product("Oracle", "JDK"),
        _ => None,
    }
}

fn is_enabled(s: &SourceSettings, source: Source) -> (r: bool)
    ensures
        r == enabled(*s, source),
{
    match source {
        Source::Nvd => s.nvd.enabled,
        Source::Euvd => s.euvd.enabled,
        Source::Osv => s.osv.enabled,
        Source::Ghsa => s.ghsa.enabled,
    }
}

fn push_lookup(out: &mut Vec<Lookup>, b: Bucket, source: Source, version: &str, s: &SourceSettings)
    ensures
        lookups(final(out)@) == lookups(old(out)@) + one_lookup(b, source, version@, *s),
{
    let ghost before = lookups(out@);
    assert(before + Seq::<LookupView>::empty() =~= before);
    match question_of(b, source) {
        Some(query) => {
            if is_enabled(s, source) {
                let mut prefix = concat3("[", name_of_source(source), "] ");
                prefix.append(label_of(b));
                prefix.append(" ");
                prefix.append(version);
                let l = Lookup { bucket: b, source, query, version: version.to_owned(), prefix };
                out.push(l);
                assert(lookups(out@) =~= before + seq![l@]);
            }
        },
        None => {},
    }
}

/// The model of a snapshot that may be there.
pub open spec fn snap_view(snap: Option<&Snapshot>) -> Option<Seq<(Seq<char>, Seq<AdvisoryView>)>> {
    match snap {
        Some(s) => Some(s@),
        None => None,
    }
}

fn is_covered(snap: Option<&Snapshot>, b: Bucket) -> (r: bool)
    ensures
        r == covered(snap_view(snap), b),
{
    match snap {
        Some(s) => s.covers(key_of(b)),
        None => false,
    }
}

/// The lookups that a set of detected versions calls for, one per runtime and source.
/// Sources disabled in the settings are skipped silently, and so is a runtime that
/// the snapshot answers.
pub fn plan(versions: &Versions, sources: &SourceSettings, snapshot: Option<&Snapshot>) -> (r: Vec<
    Lookup,
>)
    ensures
        lookups(r@) == planned(versions@, *sources, snap_view(snapshot), RUNTIMES as nat),
{
    let mut out: Vec<Lookup> = Vec::new();
    let mut i: usize = 0;
    assert(lookups(out@) =~= Seq::empty());
    while i < RUNTIMES
        invariant
            i <= RUNTIMES,
            lookups(out@) == planned(versions@, *sources, snap_view(snapshot), i as nat),
        decreases RUNTIMES - i,
    {
        let b = runtime_at(i);
        match version_for(versions, b) {
            Some(version) => {
                if !is_covered(snapshot, b) {
                    let v = version.as_str();
                    let ghost before = lookups(out@);
                    push_lookup(&mut out, b, Source::Nvd, v, sources);
                    push_lookup(&mut out, b, Source::Osv, v, sources);
                    push_lookup(&mut out, b, Source::Ghsa, v, sources);
                    push_lookup(&mut out, b, Source::Euvd, v, sources);
                    assert(lookups(out@) =~= before + runtime_lookups(b, v@, *sources));
                }
            },
            None => {},
        }
        i = i + 1;
    }
    out
}

/// What the snapshot answers for the first `n` runtimes, each with its bucket.
pub open spec fn answered(
    v: VersionsView,
    products: Seq<(Seq<char>, Seq<AdvisoryView>)>,
    n: nat,
) -> Seq<(Bucket, Seq<AdvisoryView>)>
    decreases n,
{
    if n == 0 {
        Seq::empty()
    } else {
        let before = answered(v, products, (n - 1) as nat);
        let b = runtime(n - 1);
        match version_of(v, b) {
            Some(version) => if covered(Some(products), b) {
                before.push((b, answer(products, snapshot_key(b), version)))
            } else {
                before
            },
            None => before,
        }
    }
}

/// The view of a list of answers.
pub open spec fn answers_view(v: Seq<(Bucket, Vec<Advisory>)>) -> Seq<(Bucket, Seq<AdvisoryView>)> {
    v.map_values(|a: (Bucket, Vec<Advisory>)| (a.0, advisories(a.1@)))
}

/// What the snapshot answers, runtime by runtime, without touching the network.
pub fn snapshot_answers(versions: &Versions, snapshot: &Snapshot) -> (r: Vec<
    (Bucket, Vec<Advisory>),
>)
    ensures
        answers_view(r@) == answered(versions@, snapshot@, RUNTIMES as nat),
{
    let mut out: Vec<(Bucket, Vec<Advisory>)> = Vec::new();
    let mut i: usize = 0;
    assert(answers_view(out@) =~= Seq::empty());
    while i < RUNTIMES
        invariant
            i <= RUNTIMES,
            answers_view(out@) == answered(versions@, snapshot@, i as nat),
        decreases RUNTIMES - i,
    {
        let b = runtime_at(i);
        match version_for(versions, b) {
            Some(version) => {
                if is_covered(Some(snapshot), b) {
                    let ghost before = answers_view(out@);
                    let a = (b, snapshot.advisories_for(key_of(b), version.as_str()));
                    out.push(a);
                    assert(answers_view(out@) =~= before.push((a.0, advisories(a.1@))));
                }
            },
            None => {},
        }
        i = i + 1;
    }
    out
}

/// Whether a lookup asks an enabled source, the way that source is asked, for the version
/// that was detected, of a runtime that the snapshot does not answer.
pub open spec fn called_for(
    l: LookupView,
    v: VersionsView,
    s: SourceSettings,
    snap: Option<Seq<(Seq<char>, Seq<AdvisoryView>)>>,
) -> bool {
    &&& enabled(s, l.source)
    &&& question(l.bucket, l.source) == Some(l.query)
    &&& version_of(v, l.bucket) == Some(l.version)
    &&& !covered(snap, l.bucket)
}

proof fn lemma_one_lookup(b: Bucket, source: Source, version: Seq<char>, s: SourceSettings)
    ensures
        forall|i: int|
            0 <= i < one_lookup(b, source, version, s).len() ==> {
                let l = #[trigger] one_lookup(b, source, version, s)[i];
                &&& l.bucket == b
                &&& l.source == source
                &&& enabled(s, source)
                &&& question(b, source) == Some(l.query)
                &&& l.version == version
            },
{
}

#[verifier::spinoff_prover]
proof fn lemma_runtime_lookups(
    v: VersionsView,
    s: SourceSettings,
    snap: Option<Seq<(Seq<char>, Seq<AdvisoryView>)>>,
    b: Bucket,
)
    requires
        version_of(v, b) is Some,
        !covered(snap, b),
    ensures
        forall|i: int|
            0 <= i < runtime_lookups(b, version_of(v, b)->0, s).len() ==> called_for(
                #[trigger] runtime_lookups(b, version_of(v, b)->0, s)[i],
                v,
                s,
                snap,
            ),
{
    let version = version_of(v, b)->0;
    lemma_one_lookup(b, Source::Nvd, version, s);
    lemma_one_lookup(b, Source::Osv, version, s);
    lemma_one_lookup(b, Source::Ghsa, version, s);
    lemma_one_lookup(b, Source::Euvd, version, s);
    let nvd = one_lookup(b, Source::Nvd, version, s);
    let osv = one_lookup(b, Source::Osv, version, s);
    let ghsa = one_lookup(b, Source::Ghsa, version, s);
    let euvd = one_lookup(b, Source::Euvd, version, s);
    let all = runtime_lookups(b, version, s);
    assert forall|i: int| 0 <= i < all.len() implies called_for(#[trigger] all[i], v, s, snap) by {
        if i < nvd.len() {
            assert(all[i] == nvd[i]);
        } else if i < nvd.len() + osv.len() {
            assert(all[i] == osv[i - nvd.len()]);
        } else if i < nvd.len() + osv.len() + ghsa.len() {
            assert(all[i] == ghsa[i - nvd.len() - osv.len()]);
        } else {
            assert(all[i] == euvd[i - nvd.len() - osv.len() - ghsa.len()]);
        }
    }
}

/// Every lookup that is planned is called for.
pub proof fn lemma_planned(
    v: VersionsView,
    s: SourceSettings,
    snap: Option<Seq<(Seq<char>, Seq<AdvisoryView>)>>,
    n: nat,
)
    ensures
        forall|i: int|
            0 <= i < planned(v, s, snap, n).len() ==> called_for(
                #[trigger] planned(v, s, snap, n)[i],
                v,
                s,
                snap,
            ),
    decreases n,
{
    if n > 0 {
        let b = runtime(n - 1);
        lemma_planned(v, s, snap, (n - 1) as nat);
        if version_of(v, b) is Some && !covered(snap, b) {
            lemma_runtime_lookups(v, s, snap, b);
            let before = planned(v, s, snap, (n - 1) as nat);
            let more = runtime_lookups(b, version_of(v, b)->0, s);
            let all = planned(v, s, snap, n);
            assert(all == before + more);
            assert forall|i: int| 0 <= i < all.len() implies called_for(
                #[trigger] all[i],
                v,
                s,
                snap,
            ) by {
                if i < before.len() {
                    assert(all[i] == before[i]);
                } else {
                    assert(all[i] == more[i - before.len()]);
                }
            }
        }
    }
}

proof fn lemma_planned_grows(
    v: VersionsView,
    s: SourceSettings,
    snap: Option<Seq<(Seq<char>, Seq<AdvisoryView>)>>,
    m: nat,
    n: nat,
    l: LookupView,
)
    requires
        m <= n,
        planned(v, s, snap, m).contains(l),
    ensures
        planned(v, s, snap, n).contains(l),
    decreases n - m,
{
    if m < n {
        lemma_planned_grows(v, s, snap, m, (n - 1) as nat, l);
        let before = planned(v, s, snap, (n - 1) as nat);
        let all = planned(v, s, snap, n);
        let i = choose|i: int| 0 <= i < before.len() && #[trigger] before[i] == l;
        assert(all[i] == l);
    }
}

/// Every lookup that is called for is planned: a runtime that was detected and that the
/// snapshot does not answer is looked up in every enabled source that can be asked for it.
pub proof fn lemma_all_planned(
    v: VersionsView,
    s: SourceSettings,
    snap: Option<Seq<(Seq<char>, Seq<AdvisoryView>)>>,
    b: Bucket,
    source: Source,
)
    requires
        version_of(v, b) is Some,
        !covered(snap, b),
        enabled(s, source),
        question(b, source) is Some,
    ensures
        planned(v, s, snap, RUNTIMES as nat).contains(
            (LookupView {
                bucket: b,
                source,
                query: question(b, source)->0,
                version: version_of(v, b)->0,
                prefix: lookup_prefix(b, source, version_of(v, b)->0),
            }),
        ),
{
    let k: nat = match b {
        Bucket::Electron => 0,
        Bucket::Tauri => 1,
        Bucket::Node => 2,
        Bucket::Deno => 3,
        Bucket::Chromium => 4,
        Bucket::Cef => 5,
        Bucket::Flutter => 6,
        Bucket::Qt => 7,
        Bucket::Nwjs => 8,
        Bucket::ReactNative => 9,
        Bucket::Wails => 10,
        Bucket::Sciter => 11,
        Bucket::Webkit => 12,
        Bucket::Java => 13,
    };
    assert(runtime(k as int) == b);
    let version = version_of(v, b)->0;
    let l = LookupView {
        bucket: b,
        source,
        query: question(b, source)->0,
        version,
        prefix: lookup_prefix(b, source, version),
    };
    let before = planned(v, s, snap, k);
    let all = planned(v, s, snap, k + 1);
    let nvd = one_lookup(b, Source::Nvd, version, s);
    let osv = one_lookup(b, Source::Osv, version, s);
    let ghsa = one_lookup(b, Source::Ghsa, version, s);
    assert(all == before + runtime_lookups(b, version, s));
    assert(one_lookup(b, source, version, s) == seq![l]);
    let skipped: nat = match source {
        Source::Nvd => 0,
        Source::Osv => nvd.len(),
        Source::Ghsa => nvd.len() + osv.len(),
        Source::Euvd => nvd.len() + osv.len() + ghsa.len(),
    };
    let at: int = (before.len() + skipped) as int;
    assert(all[at] == one_lookup(b, source, version, s)[0]);
    lemma_planned_grows(v, s, snap, k + 1, RUNTIMES as nat, l);
}

} // verus!
