//! What detection promises, whatever the application.

use vstd::prelude::*;
use vstd::utf8::encode_utf8;

use crate::detect::app::{
    app_at, has_lib, imports, newest_among, newest_squirrel, outranks, sibling, squirrel_target,
    squirrel_version, AppView, LayoutView,
};
use crate::detect::bundle::{info_at, BundleView};
use crate::detect::chromium_browser;
use crate::detect::strings::{captured_text, occurs, regex_capture};
use crate::detect::{
    cef, detected, effective, DetectionView, electron, flutter, java, judged, merged, nwjs, qt,
    react_native, safari, signals, tauri, wails, Confidence, DetectFault, Framework, Signals,
    VersionsView, WebviewView,
};
use crate::path::{file_name, parent, pushed};
use crate::plist::{declared_version, get_text, plist_tokens};
use crate::text::{holds, lower};
use crate::version::{rank, Rank};
use crate::vfs::{contents, dir_at, file_at, listing, present, Platform, Tree};

verus! {

/// The first probe that found something gives the framework, in the order in which a runtime
/// that others are built on comes after them; with none, an executable makes a native
/// application.
pub proof fn lemma_first_probe_wins(s: Signals)
    ensures
        ({
            let web = s.electron is None && s.tauri is None && s.nwjs is None;
            let kits = web && s.flutter is None && s.qt is None && s.react_native is None;
            let shells = kits && s.wails is None && s.deno is None && s.sciter is None;
            let hosts = shells && s.java is None && s.safari is None && s.browser is None;
            match judged(s).framework {
                Framework::Electron => s.electron is Some,
                Framework::Tauri => s.electron is None && s.tauri is Some,
                Framework::NwJs => s.electron is None && s.tauri is None && s.nwjs is Some,
                Framework::Flutter => web && s.flutter is Some,
                Framework::Qt => web && s.flutter is None && s.qt is Some,
                Framework::ReactNative => web && s.flutter is None && s.qt is None
                    && s.react_native is Some,
                Framework::Wails => kits && s.wails is Some,
                Framework::Deno => kits && s.wails is None && s.deno is Some,
                Framework::Sciter => kits && s.wails is None && s.deno is None && s.sciter is Some,
                Framework::Java => shells && s.java is Some,
                Framework::Safari => shells && s.java is None && s.safari is Some,
                Framework::ChromiumBrowser => shells && s.java is None && s.safari is None
                    && s.browser is Some,
                Framework::Cef => hosts && s.cef is Some,
                Framework::Native => hosts && s.cef is None && s.has_executable,
                Framework::Unknown => hosts && s.cef is None && !s.has_executable,
            }
        }),
{
}

/// The versions that the probe of the framework itself found, where it finds several.
pub open spec fn own_versions(s: Signals) -> Option<VersionsView> {
    match (s.electron, s.tauri) {
        (Some(e), _) => Some(e.1),
        (None, Some(t)) => Some(t.1),
        _ => None,
    }
}

/// Whether a version is the one that was found, unless the framework's own probe found one.
pub open spec fn is_kept(
    reported: Option<Seq<char>>,
    own: Option<Seq<char>>,
    found: Option<Seq<char>>,
) -> bool {
    reported == if own is Some {
        own
    } else {
        found
    }
}

/// No version that a probe found is lost, and each is reported under its own runtime: what
/// the framework's own probe found first, then what the others found.
pub proof fn lemma_no_version_is_lost(s: Signals)
    ensures
        ({
            let v = judged(s).versions;
            let own = |f: spec_fn(VersionsView) -> Option<Seq<char>>|
                match own_versions(s) {
                    Some(o) => f(o),
                    None => None::<Seq<char>>,
                };
            &&& v.electron == own(|o: VersionsView| o.electron)
            &&& v.node == own(|o: VersionsView| o.node)
            &&& v.tauri == own(|o: VersionsView| o.tauri)
            &&& is_kept(v.cef, own(|o: VersionsView| o.cef), s.cef)
            &&& is_kept(v.flutter, own(|o: VersionsView| o.flutter), s.flutter)
            &&& is_kept(v.wails, own(|o: VersionsView| o.wails), s.wails)
            &&& is_kept(v.deno, own(|o: VersionsView| o.deno), s.deno)
            &&& is_kept(v.sciter, own(|o: VersionsView| o.sciter), s.sciter)
            &&& s.qt matches Some(q) ==> is_kept(v.qt, own(|o: VersionsView| o.qt), q.0)
            &&& s.nwjs matches Some(n) ==> is_kept(v.nwjs, own(|o: VersionsView| o.nwjs), n.0)
            &&& s.react_native matches Some(r) ==> is_kept(
                v.react_native,
                own(|o: VersionsView| o.react_native),
                r.0,
            )
            &&& s.java matches Some(j) ==> is_kept(v.java, own(|o: VersionsView| o.java), j)
            &&& s.qt is None ==> v.qt == own(|o: VersionsView| o.qt)
            &&& s.nwjs is None ==> v.nwjs == own(|o: VersionsView| o.nwjs)
            &&& s.react_native is None ==> v.react_native == own(|o: VersionsView| o.react_native)
            &&& s.java is None ==> v.java == own(|o: VersionsView| o.java)
        }),
{
}

/// The Chromium version is that of the framework's own probe, else of QtWebEngine, else of
/// NW.js, else of the browser where the application is one, else of the system's webview
/// where the application renders with that; it is missing only where none of them has one.
pub proof fn lemma_chromium_comes_from_somewhere(s: Signals)
    ensures
        ({
            let v = judged(s).versions.chromium;
            let framework = judged(s).framework;
            let renders = framework == Framework::Tauri || framework == Framework::Wails
                || framework == Framework::Deno;
            if own_versions(s) is Some && own_versions(s)->0.chromium is Some {
                v == own_versions(s)->0.chromium
            } else if s.qt is Some && (s.qt->0).1 is Some {
                v == (s.qt->0).1
            } else if s.nwjs is Some && (s.nwjs->0).1 is Some {
                v == (s.nwjs->0).1
            } else if framework == Framework::ChromiumBrowser {
                s.browser == Some(v)
            } else if renders && s.webview is Chromium {
                v == Some(s.webview->Chromium_0)
            } else {
                v is None
            }
        }),
{
}

/// The WebKit version is that of Safari where the application is Safari, and of the system's
/// webview where the application renders with that.
pub proof fn lemma_webkit_comes_from_somewhere(s: Signals)
    ensures
        ({
            let v = judged(s).versions.webkit;
            let framework = judged(s).framework;
            let renders = framework == Framework::Tauri || framework == Framework::Wails
                || framework == Framework::Deno;
            if own_versions(s) is Some && own_versions(s)->0.webkit is Some {
                v == own_versions(s)->0.webkit
            } else if framework == Framework::Safari {
                v == s.safari
            } else if renders && s.webview is WebKit {
                v == Some(s.webview->WebKit_0)
            } else {
                v is None
            }
        }),
{
}

/// A verdict is less than sure only where its own probe says so: Electron and Tauri carry
/// their own confidence, React Native without a bundled engine and Java without a release
/// file are told apart.
pub proof fn lemma_confidence_is_earned(s: Signals)
    ensures
        match judged(s).framework {
            Framework::Electron => judged(s).confidence == (s.electron->0).0,
            Framework::Tauri => judged(s).confidence == (s.tauri->0).0,
            Framework::ReactNative => judged(s).confidence == if (s.react_native->0).1 {
                Confidence::High
            } else {
                Confidence::Medium
            },
            Framework::Java => judged(s).confidence == if s.java == Some(None::<Seq<char>>)
                || s.java == Some(Some("unknown"@)) {
                Confidence::Medium
            } else {
                Confidence::High
            },
            _ => judged(s).confidence == Confidence::High,
        },
{
}

/// Merging keeps every version of the first, and fills in only what it lacks.
pub proof fn lemma_merge_fills_in(a: VersionsView, b: VersionsView)
    ensures
        ({
            let m = merged(a, b);
            &&& is_kept(m.electron, a.electron, b.electron)
            &&& is_kept(m.chromium, a.chromium, b.chromium)
            &&& is_kept(m.node, a.node, b.node)
            &&& is_kept(m.tauri, a.tauri, b.tauri)
            &&& is_kept(m.deno, a.deno, b.deno)
            &&& is_kept(m.cef, a.cef, b.cef)
            &&& is_kept(m.nwjs, a.nwjs, b.nwjs)
            &&& is_kept(m.flutter, a.flutter, b.flutter)
            &&& is_kept(m.qt, a.qt, b.qt)
            &&& is_kept(m.react_native, a.react_native, b.react_native)
            &&& is_kept(m.wails, a.wails, b.wails)
            &&& is_kept(m.sciter, a.sciter, b.sciter)
            &&& is_kept(m.java, a.java, b.java)
            &&& is_kept(m.webkit, a.webkit, b.webkit)
        }),
{
}

/// Every probe is asked about the application, and each answer counts for its own runtime.
pub proof fn lemma_every_probe_is_asked(
    t: Tree,
    l: LayoutView,
    info: BundleView,
    sciter: Option<Seq<char>>,
    webview: WebviewView,
)
    ensures
        signals(t, l, info, sciter, webview) matches Ok(s) ==> {
            &&& electron::probed(t, l) == Ok::<_, DetectFault>(s.electron)
            &&& tauri::probed(t, l) == Ok::<_, DetectFault>(s.tauri)
            &&& qt::probed(t, l) == Ok::<_, DetectFault>(s.qt)
            &&& nwjs::probed(t, l) == Ok::<_, DetectFault>(s.nwjs)
            &&& s.cef == cef::probed(t, l)
            &&& s.flutter == flutter::probed(t, l)
            &&& s.react_native == react_native::probed(t, l)
            &&& s.java == java::probed(t, l)
            &&& s.browser == chromium_browser::probed(t, l)
            &&& s.sciter == sciter
            &&& s.webview == webview
            &&& s.has_executable == (l.executable is Some)
            &&& l.platform != Platform::Macos ==> s.safari is None
            &&& l.executable matches Some(e) ==> (contents(t, e) matches Some(b) ==> {
                &&& s.wails == captured_text(
                    regex_capture(
                        "github\\.com/wailsapp/wails(?:/v\\d+)?@v(\\d+\\.\\d+\\.\\d+(?:-[A-Za-z0-9.]+)?)"@,
                        b,
                    ),
                )
                &&& s.deno == captured_text(regex_capture("Deno/(\\d+\\.\\d+\\.\\d+)"@, b))
            })
            &&& l.executable is None ==> s.wails is None && s.deno is None
        },
{
}

/// A path that is not there is the only thing that is not found, and what is found keeps its
/// identity; on any platform but Windows that is where the application is looked at, too.
pub proof fn lemma_identity_is_kept(
    t: Tree,
    platform: Platform,
    p: Seq<char>,
    sciter: Option<Seq<char>>,
    webview: WebviewView,
)
    ensures
        detected(t, platform, app_at(platform, p), sciter, webview) == Err::<
            DetectionView,
            DetectFault,
        >(DetectFault::NotFound(p)) <==> !present(t, p),
        detected(t, platform, app_at(platform, p), sciter, webview) matches Ok(d) ==> d.path == p
            && (d.executable matches Some(e) ==> file_at(t, e)),
        platform == Platform::Macos ==> (detected(
            t,
            platform,
            app_at(platform, p),
            sciter,
            webview,
        ) matches Ok(d) ==> d.root == p && d.bundle_id == info_at(t, p).bundle_id),
        platform == Platform::Linux ==> (detected(
            t,
            platform,
            app_at(platform, p),
            sciter,
            webview,
        ) matches Ok(d) ==> (d.executable == if file_at(t, p) {
            Some(p)
        } else {
            None
        }) && (parent(p) matches Some(dir) ==> d.root == dir)),
{
    let app = app_at(platform, p);
    assert(effective(t, platform, app).path == p);
}

// ---------- the probes, one by one ------------------------------------------

/// An Electron application off macOS is known by its archive or by what its executable says
/// of itself, and its versions are read from the executable.
pub proof fn lemma_portable_electron(t: Tree, l: LayoutView, e: Seq<char>, b: Seq<u8>)
    requires
        l.platform != Platform::Macos,
        l.executable == Some(e),
        contents(t, e) == Some(b),
    ensures
        ({
            let version = captured_text(regex_capture("Electron/(\\d+\\.\\d+\\.\\d+)"@, b));
            let node = captured_text(regex_capture("node-v(\\d+\\.\\d+\\.\\d+)"@, b));
            let chromium = captured_text(
                regex_capture("Chrome/(\\d+\\.\\d+\\.\\d+\\.\\d+)"@, b),
            );
            let resources = pushed(l.root, "resources"@);
            let packed = file_at(t, pushed(resources, "app.asar"@)) || file_at(
                t,
                pushed(resources, "electron.asar"@),
            ) || file_at(t, pushed(resources, "default_app.asar"@)) || file_at(
                t,
                pushed(pushed(resources, "app"@), "package.json"@),
            ) || file_at(t, pushed(l.root, "node_modules.asar"@));
            match electron::probed(t, l) {
                Ok(Some((c, v))) => {
                    &&& packed || version is Some || node is Some
                    &&& v.electron == version && v.node == node && v.chromium == chromium
                    &&& c == Confidence::High <==> version is Some && chromium is Some
                    &&& c == Confidence::Low <==> version is None && chromium is None
                },
                Ok(None) => !packed && version is None && node is None,
                Err(_) => false,
            }
        }),
{
}

/// An Electron bundle is known by its framework, whose property list gives the version and
/// whose binary the other two.
pub proof fn lemma_bundled_electron(t: Tree, l: LayoutView)
    requires
        l.platform == Platform::Macos,
    ensures
        ({
            let dir = pushed(
                pushed(l.root, "Contents/Frameworks"@),
                "Electron Framework.framework"@,
            );
            let list = pushed(dir, "Versions/A/Resources/Info.plist"@);
            let binary = pushed(dir, "Versions/A/Electron Framework"@);
            &&& !dir_at(t, dir) <==> electron::probed(t, l) == Ok::<
                Option<(Confidence, VersionsView)>,
                DetectFault,
            >(None)
            &&& dir_at(t, dir) && contents(t, list) is Some && contents(t, binary) is Some ==> (
            electron::probed(t, l) matches Ok(Some((c, v))) && {
                &&& v.electron == match plist_tokens(contents(t, list)->0) {
                    Some(tokens) => get_text(tokens, 0, "CFBundleVersion"@),
                    None => None,
                }
                &&& v.chromium == captured_text(
                    regex_capture(
                        "Chrome/(\\d+\\.\\d+\\.\\d+\\.\\d+)"@,
                        contents(t, binary)->0,
                    ),
                )
                &&& v.node == captured_text(
                    regex_capture("node-v(\\d+\\.\\d+\\.\\d+)"@, contents(t, binary)->0),
                )
            })
        }),
{
}

/// What Tauri leaves in a binary is evidence of three kinds: two of them make a sure verdict,
/// the version alone a fair one, any other alone a weak one.
pub proof fn lemma_tauri_evidence(version: Option<Seq<char>>, localhost: bool, internals: bool)
    ensures
        match tauri::vote(version, localhost, internals) {
            None => version is None && !localhost && !internals,
            Some((c, v)) => {
                &&& v.tauri == version
                &&& v.electron is None && v.chromium is None && v.cef is None && v.webkit is None
                &&& c == Confidence::High <==> (version is Some && (localhost || internals)) || (
                localhost && internals)
                &&& c == Confidence::Medium <==> version is Some && !localhost && !internals
                &&& c == Confidence::Low <==> version is None && (localhost != internals)
            },
        },
{
}

/// The evidence for Tauri is read from the executable.
pub proof fn lemma_tauri_in_executable(t: Tree, l: LayoutView, e: Seq<char>, b: Seq<u8>)
    requires
        l.executable == Some(e),
        contents(t, e) == Some(b),
    ensures
        ({
            let version = captured_text(
                regex_capture("/tauri-(\\d+\\.\\d+\\.\\d+)(?:-[a-zA-Z0-9.]+)?/"@, b),
            );
            let named = version is Some || occurs(b, encode_utf8("tauri.localhost"@)) || occurs(
                b,
                encode_utf8("__TAURI_INTERNALS__"@),
            ) || occurs(b, encode_utf8("__TAURI__"@));
            match tauri::probed(t, l) {
                Ok(Some((_, v))) => named && v.tauri == version,
                Ok(None) => !named,
                Err(_) => false,
            }
        }),
{
}

/// A file that is there but cannot be read as one is an error, not an answer.
pub proof fn lemma_unreadable_is_an_error(t: Tree, l: LayoutView, e: Seq<char>)
    requires
        l.executable == Some(e),
        present(t, e),
        contents(t, e) is None,
    ensures
        tauri::probed(t, l) is Err,
        l.platform != Platform::Macos ==> electron::probed(t, l) is Err,
        forall|p: Seq<char>| #[trigger] wails::probed(t, e, p) is Err,
{
}

/// Qt off macOS is known by its core library; the version is what the library says of
/// itself, and the engine's library gives that of Chromium.
pub proof fn lemma_portable_qt(t: Tree, l: LayoutView)
    requires
        l.platform != Platform::Macos,
    ensures
        ({
            let known = has_lib(t, l, "qt5core"@) || has_lib(t, l, "qt6core"@);
            match qt::probed(t, l) {
                Ok(Some((version, chromium))) => {
                    &&& known
                    &&& version is Some
                    &&& sibling(t, l, "qt5core"@) matches Some(lib) ==> (contents(t, lib) matches Some(
                        b,
                    ) ==> version == match captured_text(
                        regex_capture("Qt (\\d+\\.\\d+\\.\\d+)"@, b),
                    ) {
                        Some(v) => Some(v),
                        None => Some("unknown"@),
                    })
                    &&& sibling(t, l, "qt5core"@) is None && sibling(t, l, "qt6core"@) is None
                        ==> version == Some("unknown"@)
                    &&& sibling(t, l, "qt5webenginecore"@) is None && sibling(
                        t,
                        l,
                        "qt6webenginecore"@,
                    ) is None ==> chromium is None
                    &&& sibling(t, l, "qt5webenginecore"@) is None ==> (sibling(
                        t,
                        l,
                        "qt6webenginecore"@,
                    ) matches Some(engine) ==> (contents(t, engine) matches Some(b) ==> chromium
                        == captured_text(
                        regex_capture("Chrome/(\\d+\\.\\d+\\.\\d+\\.\\d+)"@, b),
                    )))
                },
                Ok(None) => !known,
                Err(_) => false,
            }
        }),
{
}

/// A framework of a bundle is known by its directory: Qt, NW.js, Flutter, CEF and Hermes.
pub proof fn lemma_bundled_frameworks(t: Tree, l: LayoutView)
    requires
        l.platform == Platform::Macos,
    ensures
        ({
            let home = pushed(l.root, "Contents/Frameworks"@);
            &&& !dir_at(t, pushed(home, "QtCore.framework"@)) <==> qt::probed(t, l) == Ok::<
                Option<(Option<Seq<char>>, Option<Seq<char>>)>,
                DetectFault,
            >(None)
            &&& !dir_at(t, pushed(home, "nwjs Framework.framework"@)) <==> nwjs::probed(t, l)
                == Ok::<Option<(Option<Seq<char>>, Option<Seq<char>>)>, DetectFault>(None)
            &&& dir_at(t, pushed(home, "FlutterMacOS.framework"@)) <==> flutter::probed(t, l) is Some
            &&& dir_at(t, pushed(home, "Chromium Embedded Framework.framework"@)) <==> cef::probed(
                t,
                l,
            ) is Some
            &&& dir_at(t, pushed(home, "hermes.framework"@)) ==> (react_native::probed(
                t,
                l,
            ) matches Some((v, bundled)) && bundled && v is Some)
        }),
{
}

/// Off macOS a runtime is known by a library that the executable imports or that lies beside
/// it.
pub proof fn lemma_portable_libraries(t: Tree, l: LayoutView)
    requires
        l.platform != Platform::Macos,
    ensures
        has_lib(t, l, "flutter_windows"@) || has_lib(t, l, "flutter_linux"@) <==> flutter::probed(
            t,
            l,
        ) is Some,
        has_lib(t, l, "libcef"@) <==> cef::probed(t, l) is Some,
        has_lib(t, l, "hermes"@) || has_lib(t, l, "reactnative"@) <==> (react_native::probed(
            t,
            l,
        ) matches Some((_, bundled)) && bundled),
        has_lib(t, l, "nw.dll"@) || sibling(t, l, "libnw"@) is Some ==> nwjs::probed(t, l)
            matches Ok(Some(_)),
        l.platform == Platform::Linux && (l.executable matches Some(e) && file_name(e) == Some(
            "nw"@,
        )) ==> nwjs::probed(t, l) matches Ok(Some(_)),
{
}

/// Without a bundled engine, React Native is known by its symbols.
pub proof fn lemma_react_native_symbols(t: Tree, l: LayoutView, e: Seq<char>, b: Seq<u8>)
    requires
        l.executable == Some(e),
        contents(t, e) == Some(b),
    ensures
        react_native::probed(t, l) is None ==> !occurs(b, encode_utf8("facebook::react"@))
            && !occurs(b, encode_utf8("RCTBridge"@)) && !occurs(b, encode_utf8("RCTRootView"@)),
        react_native::probed(t, l) matches Some((_, false)) ==> occurs(
            b,
            encode_utf8("facebook::react"@),
        ) || occurs(b, encode_utf8("RCTBridge"@)) || occurs(b, encode_utf8("RCTRootView"@)),
{
}

/// A Java application is known by the release file of a runtime that it bundles, or by the
/// name of its launcher.
pub proof fn lemma_portable_java(t: Tree, l: LayoutView)
    requires
        l.platform != Platform::Macos,
    ensures
        java::release_at(t, pushed(l.root, "runtime/release"@)) matches Some(v)
            ==> java::probed(t, l) == Some(Some(v)),
        java::release_at(t, pushed(l.root, "runtime/release"@)) is None ==> (java::release_at(
            t,
            pushed(l.root, "jre/release"@),
        ) matches Some(v) ==> java::probed(t, l) == Some(Some(v))),
        java::probed(t, l) == Some(Some("unknown"@)) || java::probed(t, l) is None
            || java::release_at(t, pushed(l.root, "runtime/release"@)) is Some
            || java::release_at(t, pushed(l.root, "jre/release"@)) is Some || java::release_at(
            t,
            pushed(l.root, "lib/runtime/release"@),
        ) is Some,
        l.executable matches Some(e) ==> (file_name(e) == Some("java"@) || file_name(e) == Some(
            "javaw.exe"@,
        ) || file_name(e) == Some("javaw"@) || file_name(e) == Some("java.exe"@) ==> java::probed(
            t,
            l,
        ) is Some),
{
}

/// A browser off macOS is known by its executable's name and by what Chromium ships beside
/// it, and its version is what the executable says of itself.
pub proof fn lemma_portable_browser(t: Tree, l: LayoutView, e: Seq<char>, b: Seq<u8>, name: Seq<char>)
    requires
        l.platform != Platform::Macos,
        l.executable == Some(e),
        contents(t, e) == Some(b),
        file_name(e) == Some(name),
    ensures
        ({
            let stem = lower(crate::path::name_stem(name));
            let known = stem == "chrome"@ || stem == "msedge"@ || stem == "brave"@ || stem == "arc"@
                || stem == "opera"@ || stem == "vivaldi"@ || stem == "chromium"@ || stem
                == "chromium-browser"@ || stem == "thorium"@ || stem == "yandex"@;
            &&& !known ==> chromium_browser::probed(t, l) is None
            &&& known && present(t, pushed(l.root, "icudtl.dat"@)) ==> chromium_browser::probed(
                t,
                l,
            ) == Some(
                captured_text(regex_capture("Chrome/(\\d+\\.\\d+\\.\\d+\\.\\d+)"@, b)),
            )
            &&& known && listing(t, l.root) is None && !present(t, pushed(l.root, "icudtl.dat"@))
                ==> chromium_browser::probed(t, l) is None
        }),
{
}

/// A resource pack beside the executable is as good as the data file.
pub proof fn lemma_browser_by_resource_pack(
    t: Tree,
    l: LayoutView,
    e: Seq<char>,
    b: Seq<u8>,
    name: Seq<char>,
    names: Seq<Seq<char>>,
    i: int,
)
    requires
        l.platform != Platform::Macos,
        l.executable == Some(e),
        contents(t, e) == Some(b),
        file_name(e) == Some(name),
        lower(crate::path::name_stem(name)) == "chrome"@,
        listing(t, l.root) == Some(names),
        0 <= i < names.len(),
        crate::path::name_extension(names[i]) == Some("pak"@),
    ensures
        chromium_browser::probed(t, l) == Some(
            captured_text(regex_capture("Chrome/(\\d+\\.\\d+\\.\\d+\\.\\d+)"@, b)),
        ),
{
    reveal_strlit("pak");
    assert(lower("pak"@) =~= "pak"@);
    assert(chromium_browser::is_pak(names[i]));
}

/// A browser bundle is known by its framework's name, wherever in the list it stands.
pub proof fn lemma_marked_framework(names: Seq<Seq<char>>, from: int, i: int)
    requires
        0 <= from <= i < names.len(),
        holds(names[i], "Google Chrome Framework.framework"@) || holds(
            names[i],
            "Chromium Framework.framework"@,
        ) || holds(names[i], "Brave Browser Framework.framework"@) || holds(
            names[i],
            "Microsoft Edge Framework.framework"@,
        ) || holds(names[i], "Arc Framework.framework"@) || holds(
            names[i],
            "Opera Framework.framework"@,
        ) || holds(names[i], "Vivaldi Framework.framework"@),
    ensures
        chromium_browser::first_marked(names, from) matches Some(n) && exists|k: int|
            from <= k <= i && names[k] == n,
    decreases i - from,
{
    if !chromium_browser::is_marked(names[from]) {
        lemma_marked_framework(names, from + 1, i);
    }
}

/// Whether a name starts with a digit.
pub open spec fn is_numbered(name: Seq<char>) -> bool {
    name.len() > 0 && '0' <= name[0] <= '9'
}

/// Of the version directories of a browser's framework the newest counts: no other is newer.
pub proof fn lemma_newest_version(t: Tree, dir: Seq<char>, names: Seq<Seq<char>>, n: nat)
    requires
        n <= names.len(),
    ensures
        match chromium_browser::newest(t, dir, names, n) {
            Some(v) => {
                &&& exists|k: int|
                    0 <= k < n && is_numbered(#[trigger] names[k])
                        && chromium_browser::dir_version(t, dir, names[k]) == v
                &&& forall|k: int|
                    0 <= k < n && is_numbered(#[trigger] names[k]) ==> rank(
                        chromium_browser::dir_version(t, dir, names[k]),
                        v,
                    ) != Rank::Greater
            },
            None => forall|k: int| 0 <= k < n ==> !is_numbered(#[trigger] names[k]),
        },
    decreases n,
{
    if n > 0 {
        let before = chromium_browser::newest(t, dir, names, (n - 1) as nat);
        let now = chromium_browser::newest(t, dir, names, n);
        lemma_newest_version(t, dir, names, (n - 1) as nat);
        let last = names[n - 1];
        assert(chromium_browser::is_version_name(last) == is_numbered(last));
        if is_numbered(last) {
            let v = chromium_browser::dir_version(t, dir, last);
            crate::version::lemma_rank_reflexive(v);
            if before is Some {
                let best = before->0;
                crate::version::lemma_rank_flips(v, best);
                if rank(v, best) == Rank::Greater {
                    assert(now == Some(v));
                    assert forall|k: int| 0 <= k < n && is_numbered(#[trigger] names[k]) implies rank(
                        chromium_browser::dir_version(t, dir, names[k]),
                        v,
                    ) != Rank::Greater by {
                        if k < n - 1 {
                            crate::version::lemma_rank_transitive(
                                chromium_browser::dir_version(t, dir, names[k]),
                                best,
                                v,
                            );
                        }
                    }
                } else {
                    assert(now == before);
                }
            } else {
                assert(now == Some(v));
            }
        } else {
            assert(now == before);
        }
    }
}

/// An application is Safari only by Apple's identifier, and its version is that of its own
/// bundle.
pub proof fn lemma_safari_is_itself(t: Tree, id: Option<Seq<char>>, app: Seq<char>)
    ensures
        safari::safari_version(t, id, app) matches Some(v) ==> id == Some("com.apple.Safari"@)
            && declared_version(
            plist_tokens(contents(t, pushed(app, "Contents/Info.plist"@))->0)->0,
        ) == Some(v),
        id == Some("com.apple.Safari"@) ==> (contents(t, pushed(app, "Contents/Info.plist"@))
            matches Some(b) ==> (plist_tokens(b) matches Some(list) ==> safari::safari_version(
            t,
            id,
            app,
        ) == declared_version(list))),
{
}

// ---------- Squirrel --------------------------------------------------------

proof fn lemma_outranks_itself(a: Seq<nat>)
    ensures
        !outranks(a, a),
    decreases a.len(),
{
    if a.len() > 0 {
        lemma_outranks_itself(a.skip(1));
    }
}

proof fn lemma_outranks(a: Seq<nat>, b: Seq<nat>, c: Seq<nat>)
    ensures
        outranks(a, b) ==> !outranks(b, a),
        !outranks(a, b) && outranks(c, b) ==> !outranks(a, c),
    decreases a.len(),
{
    if a.len() > 0 && b.len() > 0 && c.len() > 0 {
        lemma_outranks(a.skip(1), b.skip(1), c.skip(1));
    } else if a.len() > 0 && b.len() > 0 {
        lemma_outranks(a.skip(1), b.skip(1), c);
    }
}

/// The version that is looked at is the newest: a directory that is named for one, and none
/// that is there is named for a newer one.
pub proof fn lemma_newest_squirrel(t: Tree, root: Seq<char>, names: Seq<Seq<char>>, n: nat)
    requires
        n <= names.len(),
    ensures
        match newest_among(t, root, names, n) {
            Some(best) => {
                &&& squirrel_version(best) is Some
                &&& dir_at(t, pushed(root, best))
                &&& exists|k: int| 0 <= k < n && #[trigger] names[k] == best
                &&& forall|k: int|
                    0 <= k < n && squirrel_version(#[trigger] names[k]) is Some && dir_at(
                        t,
                        pushed(root, names[k]),
                    ) ==> !outranks(squirrel_version(names[k])->0, squirrel_version(best)->0)
            },
            None => forall|k: int|
                0 <= k < n && squirrel_version(#[trigger] names[k]) is Some ==> !dir_at(
                    t,
                    pushed(root, names[k]),
                ),
        },
    decreases n,
{
    if n > 0 {
        lemma_newest_squirrel(t, root, names, (n - 1) as nat);
        let name = names[n - 1];
        if let Some(key) = squirrel_version(name) {
            lemma_outranks_itself(key);
            if dir_at(t, pushed(root, name)) {
                if let Some(best) = newest_among(t, root, names, (n - 1) as nat) {
                    let top = squirrel_version(best)->0;
                    lemma_outranks(key, top, top);
                    assert forall|k: int|
                        0 <= k < n && squirrel_version(#[trigger] names[k]) is Some && dir_at(
                            t,
                            pushed(root, names[k]),
                        ) implies !outranks(
                        squirrel_version(names[k])->0,
                        squirrel_version(newest_among(t, root, names, n)->0)->0,
                    ) by {
                        if k < n - 1 {
                            lemma_outranks(squirrel_version(names[k])->0, top, key);
                        }
                    }
                }
            }
        }
    }
}

/// A stub is followed only where the updater lies beside it, and the application keeps its
/// identity and name; its executable is the namesake of the stub, where there is one.
pub proof fn lemma_stub_is_followed(t: Tree, app: AppView)
    ensures
        squirrel_target(t, app) is Some <==> file_at(t, pushed(app.root, "Update.exe"@))
            && newest_squirrel(t, app.root) is Some,
        squirrel_target(t, app) matches Some(a) ==> {
            &&& a.path == app.path
            &&& a.name == app.name
            &&& newest_squirrel(t, app.root) == Some(a.root)
            &&& app.executable matches Some(e) ==> (file_name(e) matches Some(n) ==> (file_at(
                t,
                pushed(a.root, n),
            ) ==> a.executable == Some(pushed(a.root, n))))
        },
{
}

} // verus!
