//! Framework and runtime-version detection for installed applications, across
//! macOS, Windows, and Linux.
//!
//! Given a [`DiscoveredApp`] (or a path, via [`detect`]), [`detect_app`] returns a
//! [`Detection`] describing whether the app is an Electron app, a Tauri app, a
//! plain native app, or something unrecognised, along with any runtime version
//! strings that could be extracted.
//!
//! The shape on disk differs per OS — a macOS `.app` bundle vs. a Windows / Linux
//! executable with sibling files — but the version fingerprints live as literal
//! strings in the binary (and its import table), so most of the work is shared.
//! The per-OS specifics are hidden behind a [`Layout`].
//!
//! The detector prefers partial results over errors: if a path is malformed or a
//! binary can't be read, the affected fields are left `None` and the
//! [`Confidence`] downgraded.

pub mod app;
pub mod bundle;
pub mod cef;
pub mod chromium_browser;
pub mod electron;
pub mod flutter;
pub mod java;
pub mod laws;
pub mod layout_laws;
pub mod metadata;
pub mod nwjs;
pub mod qt;
pub mod react_native;
pub mod safari;
pub mod strings;
pub mod tauri;
pub mod version_resource;
pub mod wails;

pub use app::{DiscoveredApp, Layout};
pub use bundle::BundleInfo;

use vstd::prelude::*;

use crate::detect::app::{
    app_at, redirect_squirrel_stub, squirrel_target, AppView, LayoutView,
};
use crate::detect::bundle::BundleView;
use crate::plist::{declared_version, declared_version_of, opt_tokens, parse, plist_tokens, Token, TokenView};
use crate::text::{copy_opt, is_text, opt_text, or_opt, or_text};
use crate::vfs::{contents, file_at, present, MemTree, Platform, Tree};

verus! {

/// The property list in the file at `p`.
pub open spec fn plist_at(t: Tree, p: Seq<char>) -> Option<Seq<TokenView>> {
    match contents(t, p) {
        Some(b) => plist_tokens(b),
        None => None,
    }
}

/// The version that the property list in the file at `p` declares.
pub open spec fn version_at(t: Tree, p: Seq<char>) -> Option<Seq<char>> {
    match plist_at(t, p) {
        Some(v) => declared_version(v),
        None => None,
    }
}

/// Read and parse a property list. `None` if the file is missing or malformed.
pub fn read_plist(tree: &MemTree, path: &str) -> (r: Option<Vec<Token>>)
    ensures
        opt_tokens(r) == plist_at(tree@, path@),
{
    match tree.read(path) {
        Some(b) => parse(b),
        None => None,
    }
}

/// Read the version a property list declares.
pub fn read_plist_version(tree: &MemTree, path: &str) -> (r: Option<String>)
    ensures
        opt_text(r) == version_at(tree@, path@),
{
    match read_plist(tree, path) {
        Some(v) => declared_version_of(&v),
        None => None,
    }
}

/// Framework class of an application.
#[derive(Debug, Clone, Copy, PartialEq, Eq, Structural)]
pub enum Framework {
    /// Electron — `Electron Framework.framework` (macOS) or a
    /// `resources/{app,electron}.asar` + the `Electron/` UA string in the
    /// binary (Windows / Linux).
    Electron,
    /// Uses the Tauri Rust runtime (system webview).
    Tauri,
    /// NW.js (`nwjs Framework.framework` / `nw.dll` / `libnw.so`).
    NwJs,
    /// Flutter (`FlutterMacOS.framework` / `flutter_windows.dll` /
    /// `libflutter_linux_gtk.so`).
    Flutter,
    /// Qt (`QtCore.framework` / `Qt{5,6}Core.dll` / `libQt{5,6}Core.so`).
    Qt,
    /// React Native (Hermes framework / `hermes.dll` / `libhermes.so`, or
    /// RN symbols in the binary).
    ReactNative,
    /// Uses Wails (Go + system webview).
    Wails,
    /// Deno-desktop app: a bundled Deno runtime driving a system webview.
    Deno,
    /// Uses Sciter (HTML/CSS UI engine).
    Sciter,
    /// JVM-based app (bundled JRE with a `release` file).
    Java,
    /// Apple Safari itself (macOS).
    Safari,
    /// Bundles the Chromium Embedded Framework (`libcef`) as the *only* runtime
    /// signal.
    Cef,
    /// Chromium-based browser (Chrome, Arc, Brave, …).
    ChromiumBrowser,
    /// Native (non-embedded-webview) application.
    Native,
    /// Could not determine.
    Unknown,
}

/// How sure the detector is about its [`Framework`] verdict.
#[derive(Debug, Clone, Copy, PartialEq, Eq, Structural)]
pub enum Confidence {
    High,
    Medium,
    Low,
}

/// Runtime version strings extracted from a bundle's binaries.
///
/// Every field is optional: detectors populate what they can find and leave
/// the rest `None`.
#[derive(Debug, PartialEq, Eq)]
pub struct Versions {
    /// Electron framework version.
    pub electron: Option<String>,
    /// Bundled Chromium version.
    pub chromium: Option<String>,
    /// Bundled Node.js version without the leading `v`.
    pub node: Option<String>,
    /// Tauri crate version.
    pub tauri: Option<String>,
    /// Deno runtime version, for Deno-desktop apps that bundle the Deno runtime.
    pub deno: Option<String>,
    /// Chromium Embedded Framework version. Populated independently of
    /// [`Framework`]: a Tauri app that also bundles CEF will show both.
    pub cef: Option<String>,
    /// NW.js framework version.
    pub nwjs: Option<String>,
    /// Flutter engine version.
    pub flutter: Option<String>,
    /// Qt runtime version.
    pub qt: Option<String>,
    /// React Native version.
    pub react_native: Option<String>,
    /// Wails version.
    pub wails: Option<String>,
    /// Sciter library version.
    pub sciter: Option<String>,
    /// Java runtime version (from a bundled JRE's `release` file).
    pub java: Option<String>,
    /// System Safari / WKWebView version on the scanning machine, for apps that
    /// render with it.
    pub webkit: Option<String>,
}

/// The model of [`Versions`].
pub struct VersionsView {
    pub electron: Option<Seq<char>>,
    pub chromium: Option<Seq<char>>,
    pub node: Option<Seq<char>>,
    pub tauri: Option<Seq<char>>,
    pub deno: Option<Seq<char>>,
    pub cef: Option<Seq<char>>,
    pub nwjs: Option<Seq<char>>,
    pub flutter: Option<Seq<char>>,
    pub qt: Option<Seq<char>>,
    pub react_native: Option<Seq<char>>,
    pub wails: Option<Seq<char>>,
    pub sciter: Option<Seq<char>>,
    pub java: Option<Seq<char>>,
    pub webkit: Option<Seq<char>>,
}

impl View for Versions {
    type V = VersionsView;

    open spec fn view(&self) -> VersionsView {
        VersionsView {
            electron: opt_text(self.electron),
            chromium: opt_text(self.chromium),
            node: opt_text(self.node),
            tauri: opt_text(self.tauri),
            deno: opt_text(self.deno),
            cef: opt_text(self.cef),
            nwjs: opt_text(self.nwjs),
            flutter: opt_text(self.flutter),
            qt: opt_text(self.qt),
            react_native: opt_text(self.react_native),
            wails: opt_text(self.wails),
            sciter: opt_text(self.sciter),
            java: opt_text(self.java),
            webkit: opt_text(self.webkit),
        }
    }
}

/// No version found.
pub open spec fn no_versions() -> VersionsView {
    VersionsView {
        electron: None,
        chromium: None,
        node: None,
        tauri: None,
        deno: None,
        cef: None,
        nwjs: None,
        flutter: None,
        qt: None,
        react_native: None,
        wails: None,
        sciter: None,
        java: None,
        webkit: None,
    }
}

impl Default for Versions {
    fn default() -> (r: Versions)
        ensures
            r@ == no_versions(),
    {
        Versions {
            electron: None,
            chromium: None,
            node: None,
            tauri: None,
            deno: None,
            cef: None,
            nwjs: None,
            flutter: None,
            qt: None,
            react_native: None,
            wails: None,
            sciter: None,
            java: None,
            webkit: None,
        }
    }
}

/// `extra` laid under `base`: fields that `base` sets win.
pub open spec fn merged(base: VersionsView, extra: VersionsView) -> VersionsView {
    VersionsView {
        electron: or_text(base.electron, extra.electron),
        chromium: or_text(base.chromium, extra.chromium),
        node: or_text(base.node, extra.node),
        tauri: or_text(base.tauri, extra.tauri),
        deno: or_text(base.deno, extra.deno),
        cef: or_text(base.cef, extra.cef),
        nwjs: or_text(base.nwjs, extra.nwjs),
        flutter: or_text(base.flutter, extra.flutter),
        qt: or_text(base.qt, extra.qt),
        react_native: or_text(base.react_native, extra.react_native),
        wails: or_text(base.wails, extra.wails),
        sciter: or_text(base.sciter, extra.sciter),
        java: or_text(base.java, extra.java),
        webkit: or_text(base.webkit, extra.webkit),
    }
}

/// Overlay any `Some(..)` fields from `extra` onto `base`. Fields already
/// set on `base` (e.g. Electron's own Electron/Chromium/Node versions) win.
pub fn merge_versions(base: Versions, extra: &Versions) -> (r: Versions)
    ensures
        r@ == merged(base@, extra@),
{
    Versions {
        electron: or_opt(base.electron, copy_opt(&extra.electron)),
        chromium: or_opt(base.chromium, copy_opt(&extra.chromium)),
        node: or_opt(base.node, copy_opt(&extra.node)),
        tauri: or_opt(base.tauri, copy_opt(&extra.tauri)),
        deno: or_opt(base.deno, copy_opt(&extra.deno)),
        cef: or_opt(base.cef, copy_opt(&extra.cef)),
        nwjs: or_opt(base.nwjs, copy_opt(&extra.nwjs)),
        flutter: or_opt(base.flutter, copy_opt(&extra.flutter)),
        qt: or_opt(base.qt, copy_opt(&extra.qt)),
        react_native: or_opt(base.react_native, copy_opt(&extra.react_native)),
        wails: or_opt(base.wails, copy_opt(&extra.wails)),
        sciter: or_opt(base.sciter, copy_opt(&extra.sciter)),
        java: or_opt(base.java, copy_opt(&extra.java)),
        webkit: or_opt(base.webkit, copy_opt(&extra.webkit)),
    }
}

/// Merging nothing changes nothing, on either side.
pub proof fn lemma_merge_unit(v: VersionsView)
    ensures
        merged(v, no_versions()) == v,
        merged(no_versions(), v) == v,
{
}

/// The order in which layers are merged does not matter, only which is on top.
pub proof fn lemma_merge_associative(a: VersionsView, b: VersionsView, c: VersionsView)
    ensures
        merged(merged(a, b), c) == merged(a, merged(b, c)),
{
}

/// Result of running [`detect`] on one app.
#[derive(Debug)]
pub struct Detection {
    /// Stable identity: the `.app` dir (macOS) or primary executable
    /// (Windows / Linux).
    pub path: String,
    /// Directory holding the app's sibling runtime files.
    pub root: String,
    /// Primary executable. `None` when no readable executable was found.
    pub executable: Option<String>,
    pub bundle_id: Option<String>,
    pub display_name: Option<String>,
    pub bundle_version: Option<String>,
    pub framework: Framework,
    pub confidence: Confidence,
    pub versions: Versions,
}

/// The model of a [`Detection`].
pub struct DetectionView {
    pub path: Seq<char>,
    pub root: Seq<char>,
    pub executable: Option<Seq<char>>,
    pub bundle_id: Option<Seq<char>>,
    pub display_name: Option<Seq<char>>,
    pub bundle_version: Option<Seq<char>>,
    pub verdict: Verdict,
}

/// What kind of application it is, how sure that is, and the versions found.
pub struct Verdict {
    pub framework: Framework,
    pub confidence: Confidence,
    pub versions: VersionsView,
}

impl View for Detection {
    type V = DetectionView;

    open spec fn view(&self) -> DetectionView {
        DetectionView {
            path: self.path@,
            root: self.root@,
            executable: opt_text(self.executable),
            bundle_id: opt_text(self.bundle_id),
            display_name: opt_text(self.display_name),
            bundle_version: opt_text(self.bundle_version),
            verdict: Verdict {
                framework: self.framework,
                confidence: self.confidence,
                versions: self.versions@,
            },
        }
    }
}

/// Why an application could not be inspected.
#[derive(Debug)]
pub enum DetectError {
    NotFound(String),
    NotADirectory(String),
    Io { path: String, source: String },
}

/// The model of a [`DetectError`].
pub enum DetectFault {
    NotFound(Seq<char>),
    NotADirectory(Seq<char>),
    Io { path: Seq<char>, source: Seq<char> },
}

impl View for DetectError {
    type V = DetectFault;

    open spec fn view(&self) -> DetectFault {
        match *self {
            DetectError::NotFound(path) => DetectFault::NotFound(path@),
            DetectError::NotADirectory(path) => DetectFault::NotADirectory(path@),
            DetectError::Io { path, source } => DetectFault::Io { path: path@, source: source@ },
        }
    }
}

impl DetectError {
    /// The user-facing message.
    pub fn message(&self) -> (r: String)
        ensures
            r@ == match self@ {
                DetectFault::NotFound(path) => "path not found: "@ + path,
                DetectFault::NotADirectory(path) => "not a directory: "@ + path,
                DetectFault::Io { path, source } => "io error on "@ + path + ": "@ + source,
            },
    {
        match self {
            DetectError::NotFound(path) => crate::text::concat("path not found: ", path.as_str()),
            DetectError::NotADirectory(path) => crate::text::concat(
                "not a directory: ",
                path.as_str(),
            ),
            DetectError::Io { path, source } => {
                let mut m = crate::text::concat3("io error on ", path.as_str(), ": ");
                m.append(source.as_str());
                m
            },
        }
    }
}

/// The error of reading a path that names no file.
pub open spec fn unreadable(path: Seq<char>) -> DetectFault {
    DetectFault::Io { path, source: "not a regular file"@ }
}

/// The error of reading a path that names no file.
pub fn unreadable_of(path: &str) -> (r: DetectError)
    ensures
        r@ == unreadable(path@),
{
    DetectError::Io { path: path.to_owned(), source: "not a regular file".to_owned() }
}

/// The webview engine that the machine offers to applications without one of their
/// own: WebKit on macOS and Linux, Chromium on Windows.
#[derive(Debug)]
pub enum SystemWebview {
    WebKit(String),
    Chromium(String),
}

/// The model of an optional [`SystemWebview`].
pub enum WebviewView {
    Missing,
    WebKit(Seq<char>),
    Chromium(Seq<char>),
}

/// The view of an optional webview.
pub open spec fn webview_view(w: Option<SystemWebview>) -> WebviewView {
    match w {
        None => WebviewView::Missing,
        Some(SystemWebview::WebKit(v)) => WebviewView::WebKit(v@),
        Some(SystemWebview::Chromium(v)) => WebviewView::Chromium(v@),
    }
}

/// Versions with the system webview's engine added, where none is set.
pub open spec fn with_webview(v: VersionsView, w: WebviewView) -> VersionsView {
    match w {
        WebviewView::Missing => v,
        WebviewView::WebKit(s) => VersionsView { webkit: or_text(v.webkit, Some(s)), ..v },
        WebviewView::Chromium(s) => VersionsView { chromium: or_text(v.chromium, Some(s)), ..v },
    }
}

fn apply_webview(w: &Option<SystemWebview>, v: Versions) -> (r: Versions)
    ensures
        r@ == with_webview(v@, webview_view(*w)),
{
    let mut v = v;
    match w {
        None => {},
        Some(SystemWebview::WebKit(s)) => {
            if v.webkit.is_none() {
                v.webkit = Some(s.clone());
            }
        },
        Some(SystemWebview::Chromium(s)) => {
            if v.chromium.is_none() {
                v.chromium = Some(s.clone());
            }
        },
    }
    v
}

/// What each probe found.
pub struct Probes {
    /// Primary verdicts with their own confidence and versions.
    pub electron: Option<electron::Detection>,
    pub tauri: Option<tauri::Detection>,
    pub cef: Option<String>,
    pub flutter: Option<String>,
    pub qt: Option<qt::Detection>,
    pub nwjs: Option<nwjs::Detection>,
    pub react_native: Option<react_native::Detection>,
    pub wails: Option<String>,
    pub deno: Option<String>,
    pub sciter: Option<String>,
    pub java: Option<java::Detection>,
    pub safari: Option<String>,
    pub browser: Option<chromium_browser::Detection>,
    pub webview: Option<SystemWebview>,
    /// Whether a readable executable was found.
    pub has_executable: bool,
}

/// The model of [`Probes`].
pub struct Signals {
    pub electron: Option<(Confidence, VersionsView)>,
    pub tauri: Option<(Confidence, VersionsView)>,
    pub cef: Option<Seq<char>>,
    pub flutter: Option<Seq<char>>,
    /// Qt and Chromium versions.
    pub qt: Option<(Option<Seq<char>>, Option<Seq<char>>)>,
    /// NW.js and Chromium versions.
    pub nwjs: Option<(Option<Seq<char>>, Option<Seq<char>>)>,
    /// Version, and whether the engine is bundled.
    pub react_native: Option<(Option<Seq<char>>, bool)>,
    pub wails: Option<Seq<char>>,
    pub deno: Option<Seq<char>>,
    pub sciter: Option<Seq<char>>,
    pub java: Option<Option<Seq<char>>>,
    pub safari: Option<Seq<char>>,
    pub browser: Option<Option<Seq<char>>>,
    pub webview: WebviewView,
    pub has_executable: bool,
}

impl View for Probes {
    type V = Signals;

    open spec fn view(&self) -> Signals {
        Signals {
            electron: electron::opt_view(self.electron),
            tauri: tauri::opt_view(self.tauri),
            cef: opt_text(self.cef),
            flutter: opt_text(self.flutter),
            qt: qt::opt_view(self.qt),
            nwjs: nwjs::opt_view(self.nwjs),
            react_native: react_native::opt_view(self.react_native),
            wails: opt_text(self.wails),
            deno: opt_text(self.deno),
            sciter: opt_text(self.sciter),
            java: java::opt_view(self.java),
            safari: opt_text(self.safari),
            browser: chromium_browser::opt_view(self.browser),
            webview: webview_view(self.webview),
            has_executable: self.has_executable,
        }
    }
}

/// The versions that every verdict carries, whichever wins. Chromium from
/// QtWebEngine takes precedence over that of NW.js.
pub open spec fn secondary(s: Signals) -> VersionsView {
    VersionsView {
        cef: s.cef,
        flutter: s.flutter,
        qt: match s.qt {
            Some(q) => q.0,
            None => None,
        },
        nwjs: match s.nwjs {
            Some(n) => n.0,
            None => None,
        },
        react_native: match s.react_native {
            Some(r) => r.0,
            None => None,
        },
        wails: s.wails,
        deno: s.deno,
        sciter: s.sciter,
        java: match s.java {
            Some(j) => j,
            None => None,
        },
        chromium: or_text(
            match s.qt {
                Some(q) => q.1,
                None => None,
            },
            match s.nwjs {
                Some(n) => n.1,
                None => None,
            },
        ),
        ..no_versions()
    }
}

/// The verdict on an application: the first of the frameworks, in this order, that
/// a probe found.
pub open spec fn judged(s: Signals) -> Verdict {
    let extra = secondary(s);
    let sure = |framework: Framework, versions: VersionsView|
        Verdict { framework, confidence: Confidence::High, versions };
    if s.electron is Some {
        Verdict {
            framework: Framework::Electron,
            confidence: (s.electron->0).0,
            versions: merged((s.electron->0).1, extra),
        }
    } else if s.tauri is Some {
        Verdict {
            framework: Framework::Tauri,
            confidence: (s.tauri->0).0,
            versions: with_webview(merged((s.tauri->0).1, extra), s.webview),
        }
    } else if s.nwjs is Some {
        sure(Framework::NwJs, extra)
    } else if s.flutter is Some {
        sure(Framework::Flutter, extra)
    } else if s.qt is Some {
        sure(Framework::Qt, extra)
    } else if s.react_native is Some {
        Verdict {
            framework: Framework::ReactNative,
            confidence: if (s.react_native->0).1 {
                Confidence::High
            } else {
                Confidence::Medium
            },
            versions: extra,
        }
    } else if s.wails is Some {
        sure(Framework::Wails, with_webview(extra, s.webview))
    } else if s.deno is Some {
        sure(Framework::Deno, with_webview(extra, s.webview))
    } else if s.sciter is Some {
        sure(Framework::Sciter, extra)
    } else if s.java is Some {
        Verdict {
            framework: Framework::Java,
            confidence: if s.java->0 is Some && s.java->0->0 != "unknown"@ {
                Confidence::High
            } else {
                Confidence::Medium
            },
            versions: extra,
        }
    } else if s.safari is Some {
        sure(Framework::Safari, VersionsView { webkit: s.safari, ..extra })
    } else if s.browser is Some {
        sure(
            Framework::ChromiumBrowser,
            VersionsView { chromium: or_text(extra.chromium, s.browser->0), ..extra },
        )
    } else if s.cef is Some {
        sure(Framework::Cef, extra)
    } else if s.has_executable {
        sure(Framework::Native, extra)
    } else {
        sure(Framework::Unknown, extra)
    }
}

fn secondary_of(p: &Probes) -> (r: Versions)
    ensures
        r@ == secondary(p@),
{
    let qt_chromium = match &p.qt {
        Some(q) => copy_opt(&q.chromium_version),
        None => None,
    };
    let nwjs_chromium = match &p.nwjs {
        Some(n) => copy_opt(&n.chromium_version),
        None => None,
    };
    Versions {
        electron: None,
        chromium: or_opt(qt_chromium, nwjs_chromium),
        node: None,
        tauri: None,
        deno: copy_opt(&p.deno),
        cef: copy_opt(&p.cef),
        nwjs: match &p.nwjs {
            Some(n) => copy_opt(&n.nwjs_version),
            None => None,
        },
        flutter: copy_opt(&p.flutter),
        qt: match &p.qt {
            Some(q) => copy_opt(&q.qt_version),
            None => None,
        },
        react_native: match &p.react_native {
            Some(r) => copy_opt(&r.version),
            None => None,
        },
        wails: copy_opt(&p.wails),
        sciter: copy_opt(&p.sciter),
        java: match &p.java {
            Some(j) => copy_opt(&j.version),
            None => None,
        },
        webkit: None,
    }
}

/// The view of a verdict as a tuple.
pub open spec fn verdict_view(v: (Framework, Confidence, Versions)) -> Verdict {
    Verdict { framework: v.0, confidence: v.1, versions: v.2@ }
}

/// Weighs what the probes found: the first framework of the list wins, and carries
/// the versions of all the others along.
pub fn judge(p: Probes) -> (r: (Framework, Confidence, Versions))
    ensures
        verdict_view(r) == judged(p@),
{
    let extra = secondary_of(&p);
    // Electron is the highest-signal primary verdict.
    if let Some(found) = p.electron {
        return (Framework::Electron, found.confidence, merge_versions(found.versions, &extra));
    }
    if let Some(found) = p.tauri {
        let versions = merge_versions(found.versions, &extra);
        return (Framework::Tauri, found.confidence, apply_webview(&p.webview, versions));
    }
    if p.nwjs.is_some() {
        return (Framework::NwJs, Confidence::High, extra);
    }
    if p.flutter.is_some() {
        return (Framework::Flutter, Confidence::High, extra);
    }
    if p.qt.is_some() {
        return (Framework::Qt, Confidence::High, extra);
    }
    if let Some(rn) = &p.react_native {
        // A bundled engine (Hermes framework / library) is High; the
        // binary-string fallback is Medium.
        let confidence = if rn.bundled_engine {
            Confidence::High
        } else {
            Confidence::Medium
        };
        return (Framework::ReactNative, confidence, extra);
    }
    if p.wails.is_some() {
        return (Framework::Wails, Confidence::High, apply_webview(&p.webview, extra));
    }
    if p.deno.is_some() {
        // Deno desktop renders via the system webview unless it bundles CEF.
        return (Framework::Deno, Confidence::High, apply_webview(&p.webview, extra));
    }
    if p.sciter.is_some() {
        return (Framework::Sciter, Confidence::High, extra);
    }
    if let Some(j) = &p.java {
        // Release-file hit = High; launcher-name-only = Medium.
        let confidence = if j.version.is_some() && !is_text(&j.version, "unknown") {
            Confidence::High
        } else {
            Confidence::Medium
        };
        return (Framework::Java, confidence, extra);
    }
    if p.safari.is_some() {
        let mut versions = extra;
        versions.webkit = p.safari;
        return (Framework::Safari, Confidence::High, versions);
    }
    // Chromium-based browsers (Chrome, Arc, Brave, …). Check after Electron
    // because Electron apps also ship a Chromium; those are caught above.
    if let Some(browser) = p.browser {
        let mut versions = extra;
        versions.chromium = or_opt(versions.chromium, browser.chromium_version);
        return (Framework::ChromiumBrowser, Confidence::High, versions);
    }
    if p.cef.is_some() {
        return (Framework::Cef, Confidence::High, extra);
    }
    // Fall through: treat an app with an executable as Native, anything
    // else as Unknown. Still carry any secondary-signal versions we found.
    if p.has_executable {
        (Framework::Native, Confidence::High, extra)
    } else {
        (Framework::Unknown, Confidence::High, extra)
    }
}

/// An application with no recognisable framework has no versions.
pub proof fn lemma_unrecognised_has_no_versions(s: Signals)
    ensures
        judged(s).framework == Framework::Native || judged(s).framework == Framework::Unknown
            ==> judged(s).versions == no_versions(),
{
}

/// Every verdict carries the secondary versions it does not itself override: no
/// version that a probe found is lost.
pub proof fn lemma_judged_keeps_secondary(s: Signals)
    ensures
        ({
            let v = judged(s).versions;
            let x = secondary(s);
            &&& x.cef is Some ==> v.cef is Some
            &&& x.chromium is Some ==> v.chromium is Some
            &&& x.deno is Some ==> v.deno is Some
            &&& x.nwjs is Some ==> v.nwjs is Some
            &&& x.flutter is Some ==> v.flutter is Some
            &&& x.qt is Some ==> v.qt is Some
            &&& x.react_native is Some ==> v.react_native is Some
            &&& x.wails is Some ==> v.wails is Some
            &&& x.sciter is Some ==> v.sciter is Some
            &&& x.java is Some ==> v.java is Some
        }),
{
}

/// What the machine and discovery contribute besides the tree: the system webview,
/// and the Sciter library that the application links.
#[derive(Debug)]
pub struct Host {
    pub webview: Option<SystemWebview>,
    pub sciter: Option<String>,
}

/// The layout of an application: its own executable, else the one that its metadata
/// declares, where that is a regular file.
pub open spec fn layout_of(t: Tree, platform: Platform, app: AppView, info: BundleView) -> LayoutView {
    let exe = or_text(app.executable, info.executable);
    LayoutView {
        root: app.root,
        executable: if exe is Some && file_at(t, exe->0) {
            exe
        } else {
            None
        },
        platform,
    }
}

/// What a scan of the executable for `pattern` finds.
pub open spec fn exe_scan(t: Tree, l: LayoutView, pattern: Seq<char>) -> Result<
    Option<Seq<char>>,
    DetectFault,
> {
    match l.executable {
        Some(e) => wails::probed(t, e, pattern),
        None => Ok(None),
    }
}

/// What the probes find in a tree. The first probe that cannot read what it needs
/// ends the inspection.
pub open spec fn signals(
    t: Tree,
    l: LayoutView,
    info: BundleView,
    sciter: Option<Seq<char>>,
    webview: WebviewView,
) -> Result<Signals, DetectFault> {
    match (qt::probed(t, l), nwjs::probed(t, l)) {
        (Err(e), _) => Err(e),
        (_, Err(e)) => Err(e),
        (Ok(qt), Ok(nwjs)) => match (
            exe_scan(t, l, strings::wails_pattern()),
            exe_scan(t, l, strings::deno_pattern()),
        ) {
            (Err(e), _) => Err(e),
            (_, Err(e)) => Err(e),
            (Ok(wails), Ok(deno)) => match (electron::probed(t, l), tauri::probed(t, l)) {
                (Err(e), _) => Err(e),
                (_, Err(e)) => Err(e),
                (Ok(electron), Ok(tauri)) => Ok(
                    Signals {
                        electron,
                        tauri,
                        cef: cef::probed(t, l),
                        flutter: flutter::probed(t, l),
                        qt,
                        nwjs,
                        react_native: react_native::probed(t, l),
                        wails,
                        deno,
                        sciter,
                        java: java::probed(t, l),
                        safari: if l.platform == Platform::Macos {
                            safari::safari_version(t, info.bundle_id, l.root)
                        } else {
                            None
                        },
                        browser: chromium_browser::probed(t, l),
                        webview,
                        has_executable: l.executable is Some,
                    },
                ),
            },
        },
    }
}

/// The detection of an application whose metadata is `info`.
pub open spec fn inspected(
    t: Tree,
    platform: Platform,
    app: AppView,
    info: BundleView,
    sciter: Option<Seq<char>>,
    webview: WebviewView,
) -> Result<DetectionView, DetectFault> {
    let l = layout_of(t, platform, app, info);
    match signals(t, l, info, sciter, webview) {
        Err(e) => Err(e),
        Ok(s) => Ok(
            DetectionView {
                path: app.path,
                root: l.root,
                executable: l.executable,
                bundle_id: info.bundle_id,
                display_name: info.display_name,
                bundle_version: info.bundle_version,
                verdict: judged(s),
            },
        ),
    }
}

/// The application that is inspected: on Windows, the one behind a Squirrel stub.
pub open spec fn effective(t: Tree, platform: Platform, app: AppView) -> AppView {
    if platform == Platform::Windows {
        match squirrel_target(t, app) {
            Some(a) => a,
            None => app,
        }
    } else {
        app
    }
}

/// What inspecting an application gives.
pub open spec fn detected(
    t: Tree,
    platform: Platform,
    app: AppView,
    sciter: Option<Seq<char>>,
    webview: WebviewView,
) -> Result<DetectionView, DetectFault> {
    if !present(t, app.path) {
        Err(DetectFault::NotFound(app.path))
    } else {
        let app = effective(t, platform, app);
        inspected(t, platform, app, metadata::metadata_of(t, platform, app), sciter, webview)
    }
}

/// The view of a fallible detection.
pub open spec fn detection_view(r: Result<Detection, DetectError>) -> Result<
    DetectionView,
    DetectFault,
> {
    match r {
        Ok(d) => Ok(d@),
        Err(e) => Err(e@),
    }
}

fn scan_deno(tree: &MemTree, exe: &str) -> (r: Result<Option<String>, DetectError>)
    ensures
        wails::result_view(r) == wails::probed(tree@, exe@, strings::deno_pattern()),
{
    if !tree.has(exe) {
        return Ok(None);
    }
    match strings::scan_deno_version(tree, exe) {
        Some(v) => Ok(v),
        None => Err(unreadable_of(exe)),
    }
}

fn run_probes(
    tree: &MemTree,
    layout: &Layout,
    bundle_id: &Option<String>,
    host: Host,
) -> (r: Result<Probes, DetectError>)
    requires
        layout.fits(tree@),
    ensures
        forall|info: BundleView|
            info.bundle_id == opt_text(*bundle_id) ==> match r {
                Ok(p) => #[trigger] signals(
                    tree@,
                    layout@,
                    info,
                    opt_text(host.sciter),
                    webview_view(host.webview),
                ) == Ok::<_, DetectFault>(p@),
                Err(e) => signals(
                    tree@,
                    layout@,
                    info,
                    opt_text(host.sciter),
                    webview_view(host.webview),
                ) == Err::<Signals, _>(e@),
            },
{
    let cef = cef::detect(tree, layout);
    let flutter = flutter::detect(tree, layout);
    let qt = match qt::detect(tree, layout) {
        Ok(v) => v,
        Err(e) => {
            return Err(e);
        },
    };
    let nwjs = match nwjs::detect(tree, layout) {
        Ok(v) => v,
        Err(e) => {
            return Err(e);
        },
    };
    let react_native = react_native::detect(tree, layout);
    let wails = match &layout.executable {
        Some(exe) => match wails::detect(tree, exe.as_str()) {
            Ok(v) => v,
            Err(e) => {
                return Err(e);
            },
        },
        None => None,
    };
    let deno = match &layout.executable {
        Some(exe) => match scan_deno(tree, exe.as_str()) {
            Ok(v) => v,
            Err(e) => {
                return Err(e);
            },
        },
        None => None,
    };
    let java = java::detect(tree, layout);
    let electron = match electron::detect(tree, layout) {
        Ok(v) => v,
        Err(e) => {
            return Err(e);
        },
    };
    let tauri = match tauri::detect(tree, layout) {
        Ok(v) => v,
        Err(e) => {
            return Err(e);
        },
    };
    let safari = if layout.is_bundle() {
        safari::detect_app(tree, bundle_id, layout.root.as_str())
    } else {
        None
    };
    let browser = chromium_browser::detect(tree, layout);
    Ok(
        Probes {
            electron,
            tauri,
            cef,
            flutter,
            qt,
            nwjs,
            react_native,
            wails,
            deno,
            sciter: host.sciter,
            java,
            safari,
            browser,
            webview: host.webview,
            has_executable: layout.executable.is_some(),
        },
    )
}

/// Inspect an application whose metadata has been read.
pub fn inspect(
    tree: &MemTree,
    platform: Platform,
    app: &DiscoveredApp,
    info: BundleInfo,
    host: Host,
) -> (r: Result<Detection, DetectError>)
    ensures
        detection_view(r) == inspected(
            tree@,
            platform,
            app@,
            info@,
            opt_text(host.sciter),
            webview_view(host.webview),
        ),
{
    // Effective executable: discovery's, falling back to the one declared in
    // platform metadata. Must be a regular file, so anything else is dropped,
    // leaving framework probes to skip cleanly.
    let exe = or_opt(copy_opt(&app.executable), copy_opt(&info.executable));
    let executable = match exe {
        Some(e) => {
            if tree.is_file(e.as_str()) {
                Some(e)
            } else {
                None
            }
        },
        None => None,
    };
    let layout = Layout::new(tree, app.root.clone(), executable, platform);
    assert(layout@ == layout_of(tree@, platform, app@, info@));
    let probes = match run_probes(tree, &layout, &info.bundle_id, host) {
        Ok(p) => p,
        Err(e) => {
            return Err(e);
        },
    };
    let (framework, confidence, versions) = judge(probes);
    Ok(
        Detection {
            path: app.path.clone(),
            root: layout.root,
            executable: layout.executable,
            bundle_id: info.bundle_id,
            display_name: info.display_name,
            bundle_version: info.bundle_version,
            framework,
            confidence,
            versions,
        },
    )
}

/// Inspect a [`DiscoveredApp`] and return a best-effort [`Detection`]. This is
/// the entry point the scanner uses: discovery has already resolved the root,
/// executable, and display name per-OS.
pub fn detect_app(tree: &MemTree, platform: Platform, app: &DiscoveredApp, host: Host) -> (r: Result<
    Detection,
    DetectError,
>)
    ensures
        detection_view(r) == detected(
            tree@,
            platform,
            app@,
            opt_text(host.sciter),
            webview_view(host.webview),
        ),
{
    if !tree.has(app.path.as_str()) {
        return Err(DetectError::NotFound(app.path.clone()));
    }
    // A Windows Squirrel launcher stub points discovery at the install root,
    // which has no runtime markers; redirect to the real versioned app dir so
    // probes see it. `app.path` is preserved as the stable identity.
    let redirected = match platform {
        Platform::Windows => redirect_squirrel_stub(tree, app),
        _ => None,
    };
    match redirected {
        Some(behind) => {
            let info = metadata::read(tree, platform, &behind);
            inspect(tree, platform, &behind, info, host)
        },
        None => {
            let info = metadata::read(tree, platform, app);
            inspect(tree, platform, app, info, host)
        },
    }
}

/// Inspect the application at `app_path` and return a best-effort [`Detection`].
///
/// The path should point at a `.app` directory (macOS) or the primary executable
/// (Windows / Linux). One with no recognisable framework yields `Native` where there is an
/// executable and `Unknown` where there is none, with no versions populated; that is still
/// `Ok(..)` rather than an error so a scanner can list every entry it walked.
pub fn detect(tree: &MemTree, platform: Platform, app_path: &str, host: Host) -> (r: Result<
    Detection,
    DetectError,
>)
    ensures
        detection_view(r) == detected(
            tree@,
            platform,
            app_at(platform, app_path@),
            opt_text(host.sciter),
            webview_view(host.webview),
        ),
{
    detect_app(tree, platform, &DiscoveredApp::from_path(platform, app_path), host)
}

} // verus!
