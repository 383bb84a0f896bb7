//! What holds of the places that probes look at, and of what an application says of itself.

use vstd::prelude::*;
use vstd::utf8::{decode_utf8, valid_utf8};

use crate::detect::app::{
    app_at, file_holding, first_exe, first_holding, frameworks, has_lib, imports, is_system,
    is_versioned_exe, library_name, library_names, linked_libraries, resources, sibling, AppView,
    LayoutView,
};
use crate::detect::bundle::{described, info_at, no_info, BundleView};
use crate::detect::metadata::{
    executable_info, metadata_of, resource_info, version_texts, VersionTexts,
};
use crate::detect::strings::{captured_text, flat, regex_capture};
use crate::detect::version_resource::{resource_languages, resource_text, version_resource};
use crate::detect::{
    cef, chromium_browser, effective, flutter, java, layout_of, nwjs, plist_at, qt, react_native,
    safari, version_at, with_webview, DetectFault, VersionsView, WebviewView,
};
use crate::object::{object_of, ObjectView, PeOptional};
use crate::path::{name_extension, name_stem, normal, parent, pushed};
use crate::plist::{declared_version, get_text, plist_tokens, TokenView};
use crate::text::{holds, lemma_split_head, lower, opens, or_text, split, trim, trim_start, CharClass};
use crate::vfs::{contents, dir_at, file_at, listing, present, Platform, Tree};

verus! {

// ---------- what an application says of itself ------------------------------

/// Each part of a bundle's identity goes by its own key; the display name comes before the
/// name, the short version before the build's, and the executable lies with the others.
pub proof fn lemma_bundle_keys(t: Seq<TokenView>, app: Seq<char>)
    ensures
        ({
            let b = described(t, app);
            let shown = get_text(t, 0, "CFBundleDisplayName"@);
            let short = get_text(t, 0, "CFBundleShortVersionString"@);
            &&& b.bundle_id == get_text(t, 0, "CFBundleIdentifier"@)
            &&& shown is Some ==> b.display_name == shown
            &&& shown is None ==> b.display_name == get_text(t, 0, "CFBundleName"@)
            &&& short is Some ==> b.bundle_version == short
            &&& short is None ==> b.bundle_version == get_text(t, 0, "CFBundleVersion"@)
            &&& get_text(t, 0, "CFBundleExecutable"@) is None ==> b.executable is None
            &&& get_text(t, 0, "CFBundleExecutable"@) matches Some(name) ==> b.executable == Some(
                pushed(pushed(app, "Contents/MacOS"@), name),
            )
        }),
{
}

/// A bundle is described by the list in its contents; without one nothing is known of it.
pub proof fn lemma_bundle_list(t: Tree, app: Seq<char>)
    ensures
        contents(t, pushed(app, "Contents/Info.plist"@)) matches Some(b) ==> (plist_tokens(
            b,
        ) matches Some(list) ==> info_at(t, app) == described(list, app)),
        contents(t, pushed(app, "Contents/Info.plist"@)) is None ==> info_at(t, app) == no_info(),
{
}

/// A version resource names the product, by what it is called or else what it is described
/// as, and the one who made it; what is blank says nothing.
pub proof fn lemma_resource_names(v: VersionTexts, exe: Seq<char>)
    ensures
        ({
            let b = resource_info(v, exe);
            let said = |s: Option<Seq<char>>| s is Some && trim(s->0, CharClass::White).len() > 0;
            &&& b.executable == Some(exe)
            &&& said(v.product_name) ==> b.display_name == v.product_name
            &&& !said(v.product_name) && said(v.file_description) ==> b.display_name
                == v.file_description
            &&& !said(v.product_name) && !said(v.file_description) ==> b.display_name is None
                && b.bundle_id is None
            &&& said(v.product_version) ==> b.bundle_version == v.product_version
            &&& !said(v.product_version) && said(v.file_version) ==> b.bundle_version
                == v.file_version
            &&& !said(v.product_version) && !said(v.file_version) ==> b.bundle_version is None
            &&& said(v.company_name) && b.display_name is Some ==> b.bundle_id == Some(
                v.company_name->0 + "."@ + b.display_name->0,
            )
            &&& !said(v.company_name) && b.display_name is Some ==> b.bundle_id == b.display_name
        }),
{
}

/// The texts of a version resource go by their own keys, in the first language that it
/// offers.
pub proof fn lemma_resource_keys(image: Seq<u8>, resource: Seq<u8>)
    requires
        version_resource(image) == Some(resource),
        resource_languages(resource).len() > 0,
    ensures
        ({
            let v = version_texts(image);
            let first = resource_languages(resource)[0];
            &&& v.product_name == resource_text(resource, first, "ProductName"@)
            &&& v.file_description == resource_text(resource, first, "FileDescription"@)
            &&& v.company_name == resource_text(resource, first, "CompanyName"@)
            &&& v.product_version == resource_text(resource, first, "ProductVersion"@)
            &&& v.file_version == resource_text(resource, first, "FileVersion"@)
        }),
{
}

/// What is known of an application, by platform: from its list, from its image, or from how it
/// was found.
pub proof fn lemma_metadata_by_platform(t: Tree, app: AppView)
    ensures
        ({
            let m = metadata_of(t, Platform::Macos, app);
            let i = info_at(t, app.root);
            &&& m.bundle_id == i.bundle_id && m.display_name == i.display_name && m.bundle_version
                == i.bundle_version
            &&& i.executable is Some ==> m.executable == i.executable
            &&& i.executable is None ==> m.executable == app.executable
        }),
        app.executable matches Some(exe) ==> ({
            let m = metadata_of(t, Platform::Windows, app);
            let i = executable_info(t, exe);
            &&& m.executable == Some(exe)
            &&& m.bundle_id == i.bundle_id && m.bundle_version == i.bundle_version
            &&& i.display_name is Some ==> m.display_name == i.display_name
            &&& i.display_name is None ==> m.display_name == app.name
        }),
        ({
            let m = metadata_of(t, Platform::Linux, app);
            m.display_name == app.name && m.executable == app.executable && m.bundle_id is None
                && m.bundle_version is None
        }),
{
}

// ---------- where an application lies ---------------------------------------

/// A bundle is its own root; elsewhere the root is the directory of the executable.
pub proof fn lemma_app_of_path(p: Seq<char>)
    ensures
        app_at(Platform::Macos, p) == (AppView { path: p, root: p, executable: None, name: None }),
        parent(p) matches Some(dir) ==> app_at(Platform::Windows, p) == (AppView {
            path: p,
            root: dir,
            executable: Some(p),
            name: None,
        }),
        app_at(Platform::Linux, p) == app_at(Platform::Windows, p),
{
}

/// Where frameworks and resources lie.
pub proof fn lemma_places(l: LayoutView)
    ensures
        l.platform == Platform::Macos ==> frameworks(l) == pushed(l.root, "Contents/Frameworks"@)
            && resources(l) == pushed(l.root, "Contents/Resources"@),
        l.platform != Platform::Macos ==> frameworks(l) == l.root && resources(l) == pushed(
            l.root,
            "resources"@,
        ),
{
}

/// The executable is the one that the application was found by, or else the one that it
/// names, as long as it is there.
pub proof fn lemma_layout_executable(t: Tree, platform: Platform, app: AppView, info: BundleView)
    ensures
        ({
            let l = layout_of(t, platform, app, info);
            let e = or_text(app.executable, info.executable);
            &&& l.root == app.root && l.platform == platform
            &&& e matches Some(p) ==> (file_at(t, p) ==> l.executable == Some(p)) && (!file_at(t, p)
                ==> l.executable is None)
            &&& e is None ==> l.executable is None
        }),
{
}

/// Directories that are shared by all applications hold nothing of one of them.
pub proof fn lemma_shared_directories(dir: Seq<char>)
    ensures
        ({
            let d = normal(dir);
            is_system(dir) <==> d == "/"@ || d == "/usr"@ || d == "/usr/bin"@ || d == "/usr/sbin"@ || d
                == "/usr/lib"@ || d == "/usr/lib64"@ || d == "/usr/local"@ || d == "/usr/local/bin"@
                || d == "/usr/local/lib"@ || d == "/bin"@ || d == "/sbin"@ || d == "/lib"@ || d
                == "/lib64"@ || d == "/opt"@ || d == "/tmp"@ || d == "/var"@
        }),
        forall|t: Tree, l: LayoutView, needle: Seq<char>|
            l.root == dir && is_system(dir) ==> (#[trigger] sibling(t, l, needle)) is None,
{
}

proof fn lemma_first_holding(names: Seq<Seq<char>>, needle: Seq<char>, i: int)
    requires
        0 <= i,
    ensures
        match first_holding(names, needle, i) {
            Some(n) => exists|k: int|
                i <= k < names.len() && #[trigger] names[k] == n && holds(lower(n), needle)
                    && forall|j: int| i <= j < k ==> !holds(lower(#[trigger] names[j]), needle),
            None => forall|k: int| i <= k < names.len() ==> !holds(lower(#[trigger] names[k]), needle),
        },
    decreases names.len() - i,
{
    if i < names.len() {
        if holds(lower(names[i]), needle) {
            assert(names[i] == first_holding(names, needle, i)->0);
        } else {
            lemma_first_holding(names, needle, i + 1);
        }
    }
}

/// A file is found by a part of its name, in any case; the first one of a directory is taken,
/// and the root comes before its library directory.
pub proof fn lemma_sibling(t: Tree, l: LayoutView, needle: Seq<char>)
    requires
        !is_system(l.root),
    ensures
        file_holding(t, l.root, needle) is Some ==> sibling(t, l, needle) == file_holding(
            t,
            l.root,
            needle,
        ),
        file_holding(t, l.root, needle) is None ==> sibling(t, l, needle) == file_holding(
            t,
            pushed(l.root, "lib"@),
            needle,
        ),
{
}

/// What is found in a directory is listed there, and holds what was looked for; nothing is
/// found only where nothing does.
pub proof fn lemma_file_holding(t: Tree, dir: Seq<char>, needle: Seq<char>)
    ensures
        match (listing(t, dir), file_holding(t, dir, needle)) {
            (Some(names), Some(p)) => exists|k: int|
                0 <= k < names.len() && p == pushed(dir, #[trigger] names[k]) && holds(
                    lower(names[k]),
                    lower(needle),
                ),
            (Some(names), None) => forall|k: int|
                0 <= k < names.len() ==> !holds(lower(#[trigger] names[k]), lower(needle)),
            (None, p) => p is None,
        },
{
    if let Some(names) = listing(t, dir) {
        lemma_first_holding(names, lower(needle), 0);
        if let Some(n) = first_holding(names, lower(needle), 0) {
            let k = choose|k: int|
                0 <= k < names.len() && #[trigger] names[k] == n && holds(lower(n), lower(needle));
            assert(file_holding(t, dir, needle) == Some(pushed(dir, names[k])));
        }
    }
}

/// A library is known by what the executable imports or by what lies beside it.
pub proof fn lemma_has_library(t: Tree, l: LayoutView, needle: Seq<char>, k: int)
    ensures
        sibling(t, l, needle) is Some ==> has_lib(t, l, needle),
        0 <= k < imports(t, l).len() && holds(imports(t, l)[k], lower(needle)) ==> has_lib(
            t,
            l,
            needle,
        ),
        l.platform == Platform::Macos ==> imports(t, l).len() == 0,
        l.platform != Platform::Macos ==> (l.executable matches Some(e) ==> (contents(t, e) matches Some(
            b,
        ) ==> imports(t, l) == library_names(linked_libraries(object_of(b))))),
{
}

/// A library goes by the last part of its path, in lower case, whichever way its path is
/// written.
pub proof fn lemma_library_name(dir: Seq<char>, name: Seq<char>)
    requires
        !dir.contains('/') && !dir.contains('\\'),
        !name.contains('/') && !name.contains('\\'),
    ensures
        library_name(name) == lower(name),
        library_name(dir.push('\\') + name) == lower(name),
        library_name(dir.push('/') + name) == lower(name),
{
    let slashes = CharClass::Slashes;
    assert forall|i: int| 0 <= i < name.len() implies !slashes.has(#[trigger] name[i]) by {
        assert(name.contains(name[i]));
    }
    assert forall|i: int| 0 <= i < dir.len() implies !slashes.has(#[trigger] dir[i]) by {
        assert(dir.contains(dir[i]));
    }
    lemma_split_head(name, '/', Seq::empty(), slashes);
    lemma_split_head(dir, '\\', name, slashes);
    lemma_split_head(dir, '/', name, slashes);
    assert(split(dir.push('/') + name, slashes).last() == name);
    assert(split(dir.push('\\') + name, slashes).last() == name);
}

/// Images of either kind say what they link; other files link nothing.
pub proof fn lemma_linked(libraries: Seq<Seq<char>>, o: Option<PeOptional>)
    ensures
        linked_libraries(ObjectView::Elf(libraries)) == libraries,
        linked_libraries(ObjectView::Pe(libraries, o)) == libraries,
        linked_libraries(ObjectView::Other).len() == 0,
{
}

proof fn lemma_first_exe_from(names: Seq<Seq<char>>, i: int)
    requires
        0 <= i,
    ensures
        match first_exe(names, i) {
            Some(n) => exists|k: int|
                i <= k < names.len() && #[trigger] names[k] == n && is_versioned_exe(n) && forall|j: int|
                    i <= j < k ==> !is_versioned_exe(#[trigger] names[j]),
            None => forall|k: int| i <= k < names.len() ==> !is_versioned_exe(#[trigger] names[k]),
        },
    decreases names.len() - i,
{
    if i < names.len() && !is_versioned_exe(names[i]) {
        lemma_first_exe_from(names, i + 1);
    }
}

/// The executable of a version's directory is the first one there that is not the updater's.
pub proof fn lemma_first_exe(names: Seq<Seq<char>>)
    ensures
        first_exe(names, 0) matches Some(n) ==> {
            &&& names.contains(n)
            &&& name_extension(n) matches Some(x) && lower(x) == "exe"@
            &&& lower(name_stem(n)) != "squirrel"@ && lower(name_stem(n)) != "update"@
        },
        first_exe(names, 0) is None ==> forall|k: int|
            0 <= k < names.len() && (name_extension(#[trigger] names[k]) matches Some(x) && lower(x)
                == "exe"@) ==> lower(name_stem(names[k])) == "squirrel"@ || lower(
                name_stem(names[k]),
            ) == "update"@,
{
    lemma_first_exe_from(names, 0);
}

/// Only a Windows application is followed to its newest version.
pub proof fn lemma_only_windows_is_followed(t: Tree, app: AppView)
    ensures
        effective(t, Platform::Macos, app) == app,
        effective(t, Platform::Linux, app) == app,
        effective(t, Platform::Windows, app).path == app.path,
{
}

// ---------- where versions are read -----------------------------------------

/// The version of a list is the one that it declares.
pub proof fn lemma_version_at(t: Tree, p: Seq<char>, b: Seq<u8>)
    requires
        contents(t, p) == Some(b),
    ensures
        plist_tokens(b) matches Some(list) ==> version_at(t, p) == declared_version(list),
        plist_tokens(b) is None ==> version_at(t, p) is None,
{
}

/// The order in which Qt's lists are asked for its version, and its engine is looked for.
pub proof fn lemma_qt_places(t: Tree, dir: Seq<char>)
    ensures
        ({
            let at = |p: Seq<char>| version_at(t, pushed(dir, p));
            let a = at("Versions/A/Resources/Info.plist"@);
            let five = at("Versions/5/Resources/Info.plist"@);
            let six = at("Versions/6/Resources/Info.plist"@);
            let flat = at("Resources/Info.plist"@);
            &&& a is Some ==> qt::core_version(t, dir) == a
            &&& a is None && five is Some ==> qt::core_version(t, dir) == five
            &&& a is None && five is None && six is Some ==> qt::core_version(t, dir) == six
            &&& a is None && five is None && six is None ==> qt::core_version(t, dir) == flat
        }),
        ({
            let a = pushed(dir, "Versions/A/QtWebEngineCore"@);
            let five = pushed(dir, "Versions/5/QtWebEngineCore"@);
            let six = pushed(dir, "Versions/6/QtWebEngineCore"@);
            let flat = pushed(dir, "QtWebEngineCore"@);
            &&& present(t, a) ==> qt::engine_binary(t, dir) == Some(a)
            &&& !present(t, a) && present(t, five) ==> qt::engine_binary(t, dir) == Some(five)
            &&& !present(t, a) && !present(t, five) && present(t, six) ==> qt::engine_binary(t, dir)
                == Some(six)
            &&& !present(t, a) && !present(t, five) && !present(t, six) && present(t, flat)
                ==> qt::engine_binary(t, dir) == Some(flat)
        }),
{
}

/// The version of Qt's engine is the Chromium version that its binary holds.
pub proof fn lemma_qt_engine(t: Tree, frameworks: Seq<char>, binary: Seq<char>, b: Seq<u8>)
    requires
        dir_at(t, pushed(frameworks, "QtWebEngineCore.framework"@)),
        qt::engine_binary(t, pushed(frameworks, "QtWebEngineCore.framework"@)) == Some(binary),
        contents(t, binary) == Some(b),
    ensures
        qt::engine_chromium(t, frameworks) == Ok::<Option<Seq<char>>, DetectFault>(
            captured_text(regex_capture("Chrome/(\\d+\\.\\d+\\.\\d+\\.\\d+)"@, b)),
        ),
{
}

/// Without a web engine, or without its binary, a Qt bundle embeds no Chromium; an engine that
/// cannot be read ends the inspection.
pub proof fn lemma_no_qt_engine(t: Tree, frameworks: Seq<char>, binary: Seq<char>)
    ensures
        !dir_at(t, pushed(frameworks, "QtWebEngineCore.framework"@)) ==> qt::engine_chromium(
            t,
            frameworks,
        ) == Ok::<Option<Seq<char>>, DetectFault>(None),
        qt::engine_binary(t, pushed(frameworks, "QtWebEngineCore.framework"@)) is None
            ==> qt::engine_chromium(t, frameworks) == Ok::<Option<Seq<char>>, DetectFault>(None),
        dir_at(t, pushed(frameworks, "QtWebEngineCore.framework"@)) && qt::engine_binary(
            t,
            pushed(frameworks, "QtWebEngineCore.framework"@),
        ) == Some(binary) && contents(t, binary) is None ==> qt::engine_chromium(t, frameworks) is Err,
{
}

/// Flutter's version is that of the versioned list, or else of the flat one.
pub proof fn lemma_flutter_version(t: Tree, dir: Seq<char>)
    ensures
        ({
            let a = version_at(t, pushed(dir, "Versions/A/Resources/Info.plist"@));
            let flat = version_at(t, pushed(dir, "Resources/Info.plist"@));
            &&& a is Some ==> flutter::framework_version(t, dir) == a
            &&& a is None ==> flutter::framework_version(t, dir) == flat
        }),
        forall|l: LayoutView|
            l.platform == Platform::Macos && dir == pushed(frameworks(l), "FlutterMacOS.framework"@)
                && dir_at(t, dir) ==> (#[trigger] flutter::probed(t, l)) == Some(
                match flutter::framework_version(t, dir) {
                    Some(v) => v,
                    None => "unknown"@,
                },
            ),
{
}

/// A bundled CEF is known by the Chromium that its binary holds, or else by its list.
pub proof fn lemma_cef_version(t: Tree, l: LayoutView, b: Seq<u8>, v: Seq<char>)
    requires
        l.platform == Platform::Macos,
        dir_at(
            t,
            pushed(
                pushed(l.root, "Contents/Frameworks"@),
                "Chromium Embedded Framework.framework"@,
            ),
        ),
    ensures
        ({
            let dir = pushed(
                pushed(l.root, "Contents/Frameworks"@),
                "Chromium Embedded Framework.framework"@,
            );
            &&& contents(t, pushed(dir, "Chromium Embedded Framework"@)) == Some(b) && captured_text(
                regex_capture("Chrome/(\\d+\\.\\d+\\.\\d+\\.\\d+)"@, b),
            ) == Some(v) ==> cef::probed(t, l) == Some(v)
            &&& contents(t, pushed(dir, "Chromium Embedded Framework"@)) is None && contents(
                t,
                pushed(dir, "Versions/Current/Chromium Embedded Framework"@),
            ) == Some(b) && captured_text(
                regex_capture("Chrome/(\\d+\\.\\d+\\.\\d+\\.\\d+)"@, b),
            ) == Some(v) ==> cef::probed(t, l) == Some(v)
            &&& contents(t, pushed(dir, "Chromium Embedded Framework"@)) is None && contents(
                t,
                pushed(dir, "Versions/Current/Chromium Embedded Framework"@),
            ) is None && contents(t, pushed(dir, "Versions/A/Chromium Embedded Framework"@)) == Some(b)
                && captured_text(regex_capture("Chrome/(\\d+\\.\\d+\\.\\d+\\.\\d+)"@, b)) == Some(v)
                ==> cef::probed(t, l) == Some(v)
            &&& contents(t, pushed(dir, "Chromium Embedded Framework"@)) is None && contents(
                t,
                pushed(dir, "Versions/Current/Chromium Embedded Framework"@),
            ) is None && contents(t, pushed(dir, "Versions/A/Chromium Embedded Framework"@)) is None
                && flutter::framework_version(t, dir) == Some(v) ==> cef::probed(t, l) == Some(v)
            &&& cef::probed(t, l) is Some
        }),
{
}

/// A CEF that lies beside the executable is known by the library's own bytes, or else by the
/// executable's.
pub proof fn lemma_portable_cef(t: Tree, l: LayoutView, p: Seq<char>, b: Seq<u8>)
    requires
        l.platform != Platform::Macos,
        has_lib(t, l, "libcef"@),
        contents(t, p) == Some(b),
    ensures
        sibling(t, l, "libcef"@) == Some(p) || (sibling(t, l, "libcef"@) is None && l.executable
            == Some(p)) ==> cef::probed(t, l) == Some(
            match captured_text(regex_capture("Chrome/(\\d+\\.\\d+\\.\\d+\\.\\d+)"@, b)) {
                Some(v) => v,
                None => "unknown"@,
            },
        ),
{
}

/// NW.js is known by the list of its framework, and its Chromium by the binary beside it.
pub proof fn lemma_nwjs_version(t: Tree, l: LayoutView, binary: Seq<u8>)
    requires
        l.platform == Platform::Macos,
    ensures
        ({
            let dir = pushed(
                pushed(l.root, "Contents/Frameworks"@),
                "nwjs Framework.framework"@,
            );
            let list = pushed(dir, "Versions/A/Resources/Info.plist"@);
            let bin = pushed(dir, "Versions/A/nwjs Framework"@);
            &&& dir_at(t, dir) && present(t, list) && contents(t, bin) == Some(binary)
                ==> nwjs::probed(t, l) == Ok::<
                Option<(Option<Seq<char>>, Option<Seq<char>>)>,
                DetectFault,
            >(
                Some(
                    (
                        version_at(t, list),
                        captured_text(
                            regex_capture("Chrome/(\\d+\\.\\d+\\.\\d+\\.\\d+)"@, binary),
                        ),
                    ),
                ),
            )
            &&& dir_at(t, dir) && present(t, list) && present(t, bin) && contents(t, bin) is None
                ==> nwjs::probed(t, l) is Err
            &&& dir_at(t, dir) && present(t, list) && !present(t, bin) ==> nwjs::probed(t, l)
                == Ok::<Option<(Option<Seq<char>>, Option<Seq<char>>)>, DetectFault>(
                Some((version_at(t, list), None)),
            )
        }),
{
}

/// NW.js beside an executable is scanned in its own library first.
pub proof fn lemma_portable_nwjs(t: Tree, l: LayoutView, p: Seq<char>, b: Seq<u8>)
    requires
        l.platform != Platform::Macos,
        contents(t, p) == Some(b),
        sibling(t, l, "nw.dll"@) == Some(p) || (sibling(t, l, "nw.dll"@) is None && sibling(
            t,
            l,
            "libnw"@,
        ) == Some(p)),
    ensures
        nwjs::probed(t, l) == Ok::<Option<(Option<Seq<char>>, Option<Seq<char>>)>, DetectFault>(
            Some(
                (
                    Some("unknown"@),
                    captured_text(regex_capture("Chrome/(\\d+\\.\\d+\\.\\d+\\.\\d+)"@, b)),
                ),
            ),
        ),
{
}

/// A browser's version is that of its current framework, or else of the flat list.
pub proof fn lemma_browser_framework(t: Tree, fw: Seq<char>)
    ensures
        ({
            let current = version_at(
                t,
                pushed(pushed(fw, "Versions"@), "Current/Resources/Info.plist"@),
            );
            let flat = version_at(t, pushed(fw, "Resources/Info.plist"@));
            &&& current is Some ==> chromium_browser::framework_version(t, fw) == current
            &&& current is None && flat is Some ==> chromium_browser::framework_version(t, fw) == flat
            &&& current is None && flat is None && listing(t, pushed(fw, "Versions"@)) is None
                ==> chromium_browser::framework_version(t, fw) is None
        }),
        forall|dir: Seq<char>, name: Seq<char>|
            version_at(t, pushed(pushed(dir, name), "Resources/Info.plist"@)) is None ==> (
            #[trigger] chromium_browser::dir_version(t, dir, name)) == name,
        forall|dir: Seq<char>, name: Seq<char>|
            (version_at(t, pushed(pushed(dir, name), "Resources/Info.plist"@)) matches Some(v)
                ==> (#[trigger] chromium_browser::dir_version(t, dir, name)) == v),
{
}

/// The bundled Hermes is known by the versioned list where that is there and says something.
pub proof fn lemma_hermes_version(t: Tree, dir: Seq<char>, v: Seq<char>)
    ensures
        version_at(t, pushed(dir, "Versions/A/Resources/Info.plist"@)) == Some(v) && present(
            t,
            pushed(dir, "Versions/A/Resources/Info.plist"@),
        ) && crate::plist::dict_at(
            plist_at(t, pushed(dir, "Versions/A/Resources/Info.plist"@))->0,
            0,
        ) ==> react_native::hermes_version(t, dir) == Some(v),
        !present(t, pushed(dir, "Versions/A/Resources/Info.plist"@)) && version_at(
            t,
            pushed(dir, "Resources/Info.plist"@),
        ) == Some(v) && present(t, pushed(dir, "Resources/Info.plist"@)) && crate::plist::dict_at(
            plist_at(t, pushed(dir, "Resources/Info.plist"@))->0,
            0,
        ) ==> react_native::hermes_version(t, dir) == Some(v),
        !present(t, pushed(dir, "Versions/A/Resources/Info.plist"@)) && !present(
            t,
            pushed(dir, "Resources/Info.plist"@),
        ) ==> react_native::hermes_version(t, dir) is None,
{
}

/// The system's Safari is the one among the applications, or else the one that comes with the
/// system.
pub proof fn lemma_system_safari(t: Tree)
    ensures
        ({
            let at = |p: Seq<char>|
                if dir_at(t, p) {
                    version_at(t, pushed(p, "Contents/Info.plist"@))
                } else {
                    None
                };
            let own = at("/Applications/Safari.app"@);
            let shipped = at("/System/Applications/Safari.app"@);
            let sealed = at(
                "/System/Volumes/Preboot/Cryptexes/App/System/Applications/Safari.app"@,
            );
            &&& own is Some ==> safari::system_version(t) == own
            &&& own is None && shipped is Some ==> safari::system_version(t) == shipped
            &&& own is None && shipped is None ==> safari::system_version(t) == sealed
        }),
{
}

/// The system's web view fills in what no probe found, and nothing else.
pub proof fn lemma_webview_fills_in(v: VersionsView, s: Seq<char>)
    ensures
        with_webview(v, WebviewView::Missing) == v,
        v.webkit is None ==> with_webview(v, WebviewView::WebKit(s)) == (VersionsView {
            webkit: Some(s),
            ..v
        }),
        v.webkit is Some ==> with_webview(v, WebviewView::WebKit(s)) == v,
        v.chromium is None ==> with_webview(v, WebviewView::Chromium(s)) == (VersionsView {
            chromium: Some(s),
            ..v
        }),
        v.chromium is Some ==> with_webview(v, WebviewView::Chromium(s)) == v,
{
}

/// A Java runtime's release file states its version, in quotes, on a line of its own.
pub proof fn lemma_java_release(head: Seq<char>, version: Seq<char>, rest: Seq<char>)
    requires
        !version.contains('\n') && !version.contains('"'),
        version.len() > 0,
        !head.contains('\n'),
        !opens(trim(head, CharClass::White), "JAVA_VERSION="@),
    ensures
        ({
            let line = "JAVA_VERSION=\""@ + version + "\""@;
            &&& java::line_version(line) == Some(version)
            &&& java::release_version(line) == Some(version)
            &&& java::release_version(line.push('\n') + rest) == Some(version)
            &&& java::release_version(head.push('\n') + line) == Some(version)
            &&& java::release_version(head) is None
        }),
{
    reveal_strlit("JAVA_VERSION=\"");
    reveal_strlit("JAVA_VERSION=");
    reveal_strlit("\"");
    let line = "JAVA_VERSION=\""@ + version + "\""@;
    let newline = CharClass::Only('\n');
    let quote = CharClass::Only('"');
    assert(line[0] == 'J' && line.last() == '"');
    assert(trim_start(line, CharClass::White) == line);
    assert(trim(line, CharClass::White) == line);
    assert(line.take(13) =~= "JAVA_VERSION="@);
    let q = line.skip(13);
    assert(q =~= seq!['"'] + version + seq!['"']);
    let inner = version.push('"');
    assert(q.skip(1) =~= inner);
    assert(version.contains(version[0]) && version.contains(version.last()));
    assert(inner[0] == version[0]);
    assert(trim_start(inner, quote) == inner);
    assert(trim_start(q, quote) == inner);
    assert(inner.drop_last() =~= version);
    assert(crate::text::trim_end(version, quote) == version);
    assert(trim(q, quote) == version);
    assert forall|i: int| 0 <= i < line.len() implies !newline.has(#[trigger] line[i]) by {
        if 14 <= i < line.len() - 1 {
            assert(line[i] == version[i - 14]);
            assert(version.contains(version[i - 14]));
        }
    }
    assert forall|i: int| 0 <= i < head.len() implies !newline.has(#[trigger] head[i]) by {
        assert(head.contains(head[i]));
    }
    lemma_split_head(line, '\n', rest, newline);
    lemma_split_head(head, '\n', line, newline);
    let one = seq![head] + seq![line];
    assert(one[0] == head && one[1] == line);
    assert(java::first_version(one, 1) == Some(version));
    assert(java::first_version(one, 0) == Some(version));
    assert(java::first_version(seq![head], 1) is None);
}

/// Where a bundled runtime may be, and what its directory may be called.
pub proof fn lemma_java_places(t: Tree, l: LayoutView, name: Seq<char>)
    ensures
        l.platform == Platform::Macos ==> (java::release_at(
            t,
            pushed(l.root, "Contents/Runtime/Contents/Home/release"@),
        ) matches Some(v) ==> java::probed(t, l) == Some(Some(v))),
        l.platform == Platform::Macos && java::release_at(
            t,
            pushed(l.root, "Contents/Runtime/Contents/Home/release"@),
        ) is None ==> (java::release_at(
            t,
            pushed(l.root, "Contents/Resources/Java/jre/release"@),
        ) matches Some(v) ==> java::probed(t, l) == Some(Some(v))),
        l.platform != Platform::Macos && java::release_at(t, pushed(l.root, "runtime/release"@))
            is None && java::release_at(t, pushed(l.root, "jre/release"@)) is None ==> (
        java::release_at(t, pushed(l.root, "lib/runtime/release"@)) matches Some(v)
            ==> java::probed(t, l) == Some(Some(v))),
        java::is_runtime_name("jre"@),
        java::is_runtime_name(name + ".jdk"@) && java::is_runtime_name(name + ".jre"@),
        forall|p: Seq<char>, b: Seq<u8>|
            contents(t, p) == Some(b) && #[trigger] valid_utf8(b) ==> #[trigger] java::release_at(t, p)
                == java::release_version(decode_utf8(b)),
{
    assert((name + ".jdk"@).skip((name + ".jdk"@).len() - ".jdk"@.len()) =~= ".jdk"@);
    assert((name + ".jre"@).skip((name + ".jre"@).len() - ".jre"@.len()) =~= ".jre"@);
}

/// The names of Java's launchers.
pub proof fn lemma_java_launchers(name: Seq<char>)
    ensures
        java::is_launcher(name) <==> name == "JavaAppLauncher"@ || name == "JavaApplicationStub"@
            || name == "java"@ || name == "javaw"@ || name == "java.exe"@ || name == "javaw.exe"@,
        java::is_runtime_name(name) <==> crate::text::closes(name, ".jdk"@) || crate::text::closes(
            name,
            ".jre"@,
        ) || name == "jre"@,
{
}

proof fn lemma_first_plugin(t: Tree, dir: Seq<char>, names: Seq<Seq<char>>, from: int, k: int)
    requires
        0 <= from <= k < names.len(),
        forall|i: int| from <= i < k ==> !java::is_runtime_name(#[trigger] names[i]),
        java::is_runtime_name(names[k]),
    ensures
        java::release_at(t, pushed(pushed(dir, names[k]), "Contents/Home/release"@)) matches Some(v)
            ==> java::plugin_version(t, dir, names, from) == Some(v),
    decreases k - from,
{
    if from < k {
        assert(!java::is_runtime_name(names[from]));
        lemma_first_plugin(t, dir, names, from + 1, k);
    }
}

/// A runtime among a bundle's plug-ins tells its version where no other place does.
pub proof fn lemma_java_plugin(t: Tree, l: LayoutView, names: Seq<Seq<char>>, k: int)
    requires
        l.platform == Platform::Macos,
        java::release_at(t, pushed(l.root, "Contents/Runtime/Contents/Home/release"@)) is None,
        java::release_at(t, pushed(l.root, "Contents/Resources/Java/jre/release"@)) is None,
        listing(t, pushed(l.root, "Contents/PlugIns"@)) == Some(names),
        0 <= k < names.len(),
        forall|i: int| 0 <= i < k ==> !java::is_runtime_name(#[trigger] names[i]),
        java::is_runtime_name(names[k]),
    ensures
        java::release_at(
            t,
            pushed(
                pushed(pushed(l.root, "Contents/PlugIns"@), names[k]),
                "Contents/Home/release"@,
            ),
        ) matches Some(v) ==> java::probed(t, l) == Some(Some(v)),
{
    lemma_first_plugin(t, pushed(l.root, "Contents/PlugIns"@), names, 0, k);
}

} // verus!
