//! Platform-neutral description of a discovered application and the on-disk
//! [`Layout`] probes use to find runtime markers.
//!
//! macOS apps are `.app` *directories* with everything under `Contents/`.
//! Windows and Linux apps are an executable plus sibling files (DLLs / shared
//! objects / a `resources/` dir). [`Layout`] hides that difference: a probe
//! asks "where do frameworks live?" / "is library X present?" instead of
//! hardcoding `Contents/Frameworks/...`.

use vstd::prelude::*;

use crate::object::{object_of, parse_object, Object, ObjectView};
use crate::path::{
    file_name, file_name_of, name_extension, name_extension_of, name_stem, name_stem_of, normal,
    normal_of, parent, parent_of, push_of, pushed,
};
use crate::text::{
    contains, copy_opt, holds, lower, lower_of, opens, opt_text, same, slice_of, split, split_of,
    starts_with, text_of, texts, chars_of, CharClass,
};
use crate::version::{components, components_of, naturals};
use crate::vfs::{contents, dir_at, file_at, listing, MemTree, Platform, Tree};

verus! {

/// One application found by discovery.
#[derive(Debug)]
pub struct DiscoveredApp {
    /// Stable identity and what a listing keys on.
    ///
    /// * macOS: the `.app` bundle directory.
    /// * Windows / Linux: the primary executable.
    pub path: String,
    /// Directory to look in for sibling runtime files.
    ///
    /// * macOS: the `.app` directory (probes join `Contents/...`).
    /// * Windows / Linux: the directory containing the executable.
    pub root: String,
    /// Primary executable to string-scan, if known up front. On macOS this is
    /// usually `None` and resolved from `Info.plist`'s `CFBundleExecutable`.
    pub executable: Option<String>,
    /// Human-facing name from discovery (`.desktop` `Name=`, `.lnk` title).
    pub name: Option<String>,
}

/// The model of a [`DiscoveredApp`].
pub struct AppView {
    pub path: Seq<char>,
    pub root: Seq<char>,
    pub executable: Option<Seq<char>>,
    pub name: Option<Seq<char>>,
}

impl View for DiscoveredApp {
    type V = AppView;

    open spec fn view(&self) -> AppView {
        AppView {
            path: self.path@,
            root: self.root@,
            executable: opt_text(self.executable),
            name: opt_text(self.name),
        }
    }
}

/// The directory of a file: the path above it, else the path itself.
pub open spec fn home_of(p: Seq<char>) -> Seq<char> {
    match parent(p) {
        Some(d) => d,
        None => p,
    }
}

/// The application that a single path means.
pub open spec fn app_at(platform: Platform, p: Seq<char>) -> AppView {
    if platform == Platform::Macos {
        AppView { path: p, root: p, executable: None, name: None }
    } else {
        AppView { path: p, root: home_of(p), executable: Some(p), name: None }
    }
}

impl DiscoveredApp {
    /// Build a [`DiscoveredApp`] from a single user-supplied path (the
    /// "open this specific app" case). The path means different things per
    /// platform: a `.app` directory on macOS, an executable elsewhere.
    pub fn from_path(platform: Platform, path: &str) -> (r: DiscoveredApp)
        ensures
            r@ == app_at(platform, path@),
    {
        if platform.is_bundle() {
            return DiscoveredApp {
                path: path.to_owned(),
                root: path.to_owned(),
                executable: None,
                name: None,
            };
        }
        let root = match parent_of(path) {
            Some(d) => d,
            None => path.to_owned(),
        };
        DiscoveredApp { path: path.to_owned(), root, executable: Some(path.to_owned()), name: None }
    }
}

/// Whether list `a` comes after list `b` in dictionary order: at the first
/// difference it is greater, or `b` ends where `a` goes on.
pub open spec fn outranks(a: Seq<nat>, b: Seq<nat>) -> bool
    decreases a.len(),
{
    if a.len() == 0 {
        false
    } else if b.len() == 0 {
        true
    } else if a[0] != b[0] {
        a[0] > b[0]
    } else {
        outranks(a.skip(1), b.skip(1))
    }
}

fn outranks_of(a: &Vec<u64>, b: &Vec<u64>) -> (r: bool)
    ensures
        r == outranks(naturals(a@), naturals(b@)),
{
    let ghost x = naturals(a@);
    let ghost y = naturals(b@);
    let mut i: usize = 0;
    assert(x.skip(0) =~= x);
    assert(y.skip(0) =~= y);
    loop
        invariant
            i <= a@.len(),
            i <= b@.len(),
            x == naturals(a@),
            y == naturals(b@),
            outranks(x, y) == outranks(x.skip(i as int), y.skip(i as int)),
        decreases a.len() - i,
    {
        if i == a.len() {
            return false;
        }
        if i == b.len() {
            return true;
        }
        assert(x.skip(i as int)[0] == a@[i as int]);
        assert(y.skip(i as int)[0] == b@[i as int]);
        if a[i] != b[i] {
            return a[i] > b[i];
        }
        assert(x.skip(i as int).skip(1) =~= x.skip(i + 1));
        assert(y.skip(i as int).skip(1) =~= y.skip(i + 1));
        i = i + 1;
    }
}

/// The version of a Squirrel `app-<version>` directory name.
pub open spec fn squirrel_version(name: Seq<char>) -> Option<Seq<nat>> {
    if opens(name, "app-"@) {
        Some(components(name.skip(4)))
    } else {
        None
    }
}

/// The newest of the `app-<version>` directories among the first `n` names of
/// `root`: its name. The first of equals stays.
pub open spec fn newest_among(t: Tree, root: Seq<char>, names: Seq<Seq<char>>, n: nat) -> Option<
    Seq<char>,
>
    decreases n,
{
    if n == 0 || n > names.len() {
        None
    } else {
        let best = newest_among(t, root, names, (n - 1) as nat);
        let name = names[n - 1];
        match squirrel_version(name) {
            Some(key) => if dir_at(t, pushed(root, name)) && (best is None || outranks(
                key,
                squirrel_version(best->0)->0,
            )) {
                Some(name)
            } else {
                best
            },
            None => best,
        }
    }
}

/// Newest `app-<version>` subdirectory of a Squirrel install root.
pub open spec fn newest_squirrel(t: Tree, root: Seq<char>) -> Option<Seq<char>> {
    match listing(t, root) {
        Some(names) => match newest_among(t, root, names, names.len()) {
            Some(name) => Some(pushed(root, name)),
            None => None,
        },
        None => None,
    }
}

/// Whether a file name is an executable other than Squirrel's own tools.
pub open spec fn is_versioned_exe(name: Seq<char>) -> bool {
    &&& name_extension(name) is Some
    &&& lower(name_extension(name)->0) == "exe"@
    &&& lower(name_stem(name)) != "squirrel"@
    &&& lower(name_stem(name)) != "update"@
}

/// The first name from `i` on that is such an executable.
pub open spec fn first_exe(names: Seq<Seq<char>>, i: int) -> Option<Seq<char>>
    decreases names.len() - i,
{
    if i < 0 || i >= names.len() {
        None
    } else if is_versioned_exe(names[i]) {
        Some(names[i])
    } else {
        first_exe(names, i + 1)
    }
}

/// The executable of a Squirrel version directory: the stub's namesake, else the
/// first plain executable there.
pub open spec fn squirrel_executable(t: Tree, app: AppView, dir: Seq<char>) -> Option<Seq<char>> {
    let namesake = match app.executable {
        Some(e) => match file_name(e) {
            Some(n) => if file_at(t, pushed(dir, n)) {
                Some(pushed(dir, n))
            } else {
                None
            },
            None => None,
        },
        None => None,
    };
    match namesake {
        Some(p) => Some(p),
        None => match listing(t, dir) {
            Some(names) => match first_exe(names, 0) {
                Some(n) => Some(pushed(dir, n)),
                None => None,
            },
            None => None,
        },
    }
}

/// The application behind a Squirrel launcher stub.
pub open spec fn squirrel_target(t: Tree, app: AppView) -> Option<AppView> {
    if !file_at(t, pushed(app.root, "Update.exe"@)) {
        None
    } else {
        match newest_squirrel(t, app.root) {
            Some(dir) => Some(
                AppView {
                    path: app.path,
                    root: dir,
                    executable: squirrel_executable(t, app, dir),
                    name: app.name,
                },
            ),
            None => None,
        }
    }
}

fn squirrel_version_of(name: &str) -> (r: Option<Vec<u64>>)
    ensures
        match r {
            Some(v) => squirrel_version(name@) == Some(naturals(v@)),
            None => squirrel_version(name@) is None,
        },
{
    proof {
        reveal_strlit("app-");
    }
    if !starts_with(name, "app-") {
        return None;
    }
    let x = chars_of(name);
    let rest = text_of(slice_of(&x, 4, x.len()).as_slice());
    assert(rest@ =~= name@.skip(4));
    Some(components_of(rest.as_str()))
}

/// Newest `app-<version>` subdirectory of a Squirrel install root, compared by
/// dotted numeric version (so `app-12.10.0` beats `app-12.2.0`).
fn newest_squirrel_app_dir(tree: &MemTree, root: &str) -> (r: Option<String>)
    ensures
        opt_text(r) == newest_squirrel(tree@, root@),
{
    let names = match tree.read_dir(root) {
        Some(n) => n,
        None => {
            return None;
        },
    };
    let ghost all = texts(names@);
    let mut best: Option<(Vec<u64>, String)> = None;
    let mut i: usize = 0;
    while i < names.len()
        invariant
            i <= names@.len(),
            all == texts(names@),
            match best {
                Some((key, name)) => newest_among(tree@, root@, all, i as nat) == Some(name@)
                    && squirrel_version(name@) == Some(naturals(key@)),
                None => newest_among(tree@, root@, all, i as nat) is None,
            },
        decreases names.len() - i,
    {
        let name = names[i].as_str();
        assert(all[i as int] == name@);
        let path = push_of(root, name);
        if tree.is_dir(path.as_str()) {
            match squirrel_version_of(name) {
                Some(key) => {
                    let newer = match &best {
                        Some((b, _)) => outranks_of(&key, b),
                        None => true,
                    };
                    if newer {
                        best = Some((key, name.to_owned()));
                    }
                },
                None => {},
            }
        }
        i = i + 1;
    }
    match best {
        Some((_, name)) => Some(push_of(root, name.as_str())),
        None => None,
    }
}

fn is_versioned_exe_of(name: &str) -> (r: bool)
    ensures
        r == is_versioned_exe(name@),
{
    match name_extension_of(name) {
        Some(ext) => {
            let stem = lower_of(name_stem_of(name).as_str());
            same(lower_of(ext.as_str()).as_str(), "exe") && !same(stem.as_str(), "squirrel")
                && !same(stem.as_str(), "update")
        },
        None => false,
    }
}

/// First non-helper `.exe` directly inside a Squirrel versioned dir, skipping
/// the bundled `squirrel.exe` / `Update.exe` maintenance binaries.
fn first_versioned_exe(tree: &MemTree, dir: &str) -> (r: Option<String>)
    ensures
        opt_text(r) == match listing(tree@, dir@) {
            Some(names) => match first_exe(names, 0) {
                Some(n) => Some(pushed(dir@, n)),
                None => None,
            },
            None => None,
        },
{
    let names = match tree.read_dir(dir) {
        Some(n) => n,
        None => {
            return None;
        },
    };
    let ghost all = texts(names@);
    let mut i: usize = 0;
    while i < names.len()
        invariant
            i <= names@.len(),
            all == texts(names@),
            listing(tree@, dir@) == Some(all),
            first_exe(all, 0) == first_exe(all, i as int),
        decreases names.len() - i,
    {
        let name = names[i].as_str();
        assert(all[i as int] == name@);
        if is_versioned_exe_of(name) {
            return Some(push_of(dir, name));
        }
        i = i + 1;
    }
    None
}

/// Windows Squirrel installs drop a small launcher *stub* at the install root next
/// to `Update.exe`, while the real application lives in versioned `app-<version>`
/// subdirectories. The Start Menu shortcut targets the stub, so discovery hands us
/// a root with no runtime markers.
///
/// If `app` looks like such a stub, return a copy whose `root` + `executable`
/// point at the newest `app-<version>` dir so framework probes see the real
/// binary and its `resources/`. `path` (the stable identity) is preserved, so it
/// survives version bumps. Returns `None` when this isn't a Squirrel layout.
pub fn redirect_squirrel_stub(tree: &MemTree, app: &DiscoveredApp) -> (r: Option<DiscoveredApp>)
    ensures
        match r {
            Some(a) => squirrel_target(tree@, app@) == Some(a@),
            None => squirrel_target(tree@, app@) is None,
        },
{
    // A genuine Squirrel root has `Update.exe` sitting beside the stub.
    if !tree.is_file(push_of(app.root.as_str(), "Update.exe").as_str()) {
        return None;
    }
    let dir = match newest_squirrel_app_dir(tree, app.root.as_str()) {
        Some(d) => d,
        None => {
            return None;
        },
    };
    // Map the stub to its namesake inside the versioned dir; fall back to the
    // first plain executable there so detection still has a binary to scan.
    let namesake = match &app.executable {
        Some(e) => match file_name_of(e.as_str()) {
            Some(n) => {
                let p = push_of(dir.as_str(), n.as_str());
                if tree.is_file(p.as_str()) {
                    Some(p)
                } else {
                    None
                }
            },
            None => None,
        },
        None => None,
    };
    let executable = match namesake {
        Some(p) => Some(p),
        None => first_versioned_exe(tree, dir.as_str()),
    };
    Some(
        DiscoveredApp {
            path: app.path.clone(),
            root: dir,
            executable,
            name: copy_opt(&app.name),
        },
    )
}

/// The libraries that an ELF or a PE image links; none for anything else.
pub open spec fn linked_libraries(object: ObjectView) -> Seq<Seq<char>> {
    match object {
        ObjectView::Elf(libraries) => libraries,
        ObjectView::Pe(libraries, _) => libraries,
        ObjectView::Other => Seq::empty(),
    }
}

/// A library name as a lower-cased basename.
pub open spec fn library_name(lib: Seq<char>) -> Seq<char> {
    lower(split(lib, CharClass::Slashes).last())
}

/// Library names as lower-cased basenames.
pub open spec fn library_names(libs: Seq<Seq<char>>) -> Seq<Seq<char>> {
    libs.map_values(|l: Seq<char>| library_name(l))
}

/// Normalises library names to lower-cased basenames: ELF gives a bare soname
/// (`libQt6Core.so.6`), PE a DLL name (`Qt6Core.dll`).
pub fn normalise_libraries(libs: &Vec<String>) -> (r: Vec<String>)
    ensures
        texts(r@) == library_names(texts(libs@)),
{
    let mut out: Vec<String> = Vec::new();
    let ghost all = library_names(texts(libs@));
    let mut i: usize = 0;
    assert(texts(out@) =~= all.take(0));
    while i < libs.len()
        invariant
            i <= libs@.len(),
            all == library_names(texts(libs@)),
            texts(out@) == all.take(i as int),
        decreases libs.len() - i,
    {
        let pieces = split_of(libs[i].as_str(), CharClass::Slashes);
        assert(texts(pieces@).last() == pieces@[pieces@.len() - 1]@);
        let name = lower_of(pieces[pieces.len() - 1].as_str());
        assert(all[i as int] == library_name(texts(libs@)[i as int]));
        let ghost before = texts(out@);
        out.push(name);
        assert(texts(out@) =~= before.push(name@));
        assert(texts(out@) =~= all.take(i + 1));
        i = i + 1;
    }
    assert(all.take(all.len() as int) =~= all);
    out
}

/// The libraries that an image imports, as lower-cased basenames.
pub fn object_imports(object: &Object) -> (r: Vec<String>)
    ensures
        texts(r@) == library_names(linked_libraries(object@)),
{
    match object {
        Object::Elf { libraries } => normalise_libraries(libraries),
        Object::Pe { libraries, .. } => normalise_libraries(libraries),
        Object::Other => {
            let r: Vec<String> = Vec::new();
            assert(texts(r@) =~= library_names(Seq::empty()));
            r
        },
    }
}

/// The libraries the executable at `p` imports, as lower-cased basenames.
pub open spec fn imported(t: Tree, p: Seq<char>) -> Seq<Seq<char>> {
    match contents(t, p) {
        Some(b) => library_names(linked_libraries(object_of(b))),
        None => Seq::empty(),
    }
}

/// Read the dynamic libraries an executable imports, as lower-cased basenames. Any
/// parse failure yields an empty list.
fn read_imports(tree: &MemTree, exe: &str) -> (r: Vec<String>)
    ensures
        texts(r@) == imported(tree@, exe@),
{
    match tree.read(exe) {
        Some(b) => object_imports(&parse_object(b)),
        None => {
            let r: Vec<String> = Vec::new();
            assert(texts(r@) =~= Seq::empty());
            r
        },
    }
}

/// Shared system directories whose sibling files belong to the OS, not the app
/// being probed.
pub open spec fn is_system(dir: Seq<char>) -> bool {
    let d = normal(dir);
    ||| d == "/"@
    ||| d == "/usr"@
    ||| d == "/usr/bin"@
    ||| d == "/usr/sbin"@
    ||| d == "/usr/lib"@
    ||| d == "/usr/lib64"@
    ||| d == "/usr/local"@
    ||| d == "/usr/local/bin"@
    ||| d == "/usr/local/lib"@
    ||| d == "/bin"@
    ||| d == "/sbin"@
    ||| d == "/lib"@
    ||| d == "/lib64"@
    ||| d == "/opt"@
    ||| d == "/tmp"@
    ||| d == "/var"@
}

fn is_system_dir(dir: &str) -> (r: bool)
    ensures
        r == is_system(dir@),
{
    let n = normal_of(dir);
    let d = n.as_str();
    same(d, "/") || same(d, "/usr") || same(d, "/usr/bin") || same(d, "/usr/sbin") || same(
        d,
        "/usr/lib",
    ) || same(d, "/usr/lib64") || same(d, "/usr/local") || same(d, "/usr/local/bin") || same(
        d,
        "/usr/local/lib",
    ) || same(d, "/bin") || same(d, "/sbin") || same(d, "/lib") || same(d, "/lib64") || same(
        d,
        "/opt",
    ) || same(d, "/tmp") || same(d, "/var")
}

/// The model of a [`Layout`].
pub struct LayoutView {
    pub root: Seq<char>,
    pub executable: Option<Seq<char>>,
    pub platform: Platform,
}

/// Resolved on-disk layout for a discovered app.
pub struct Layout {
    /// Sibling-files root (`DiscoveredApp::root`).
    pub root: String,
    /// Effective primary executable, after resolving `CFBundleExecutable` on
    /// macOS. May still be `None` if nothing was declared / found.
    pub executable: Option<String>,
    /// Layout convention this app follows.
    pub platform: Platform,
    /// Lower-cased basenames of the libraries the executable imports. Empty under
    /// the bundle layout or when the binary can't be parsed.
    pub imports: Vec<String>,
}

impl View for Layout {
    type V = LayoutView;

    open spec fn view(&self) -> LayoutView {
        LayoutView {
            root: self.root@,
            executable: opt_text(self.executable),
            platform: self.platform,
        }
    }
}

/// The libraries an application's executable imports.
pub open spec fn imports(t: Tree, l: LayoutView) -> Seq<Seq<char>> {
    if l.platform == Platform::Macos {
        Seq::empty()
    } else {
        match l.executable {
            Some(e) => imported(t, e),
            None => Seq::empty(),
        }
    }
}

/// The first name from `i` on that holds `needle`, whatever its case.
pub open spec fn first_holding(names: Seq<Seq<char>>, needle: Seq<char>, i: int) -> Option<Seq<char>>
    decreases names.len() - i,
{
    if i < 0 || i >= names.len() {
        None
    } else if holds(lower(names[i]), needle) {
        Some(names[i])
    } else {
        first_holding(names, needle, i + 1)
    }
}

/// The first file of the directory `dir` whose name holds `needle`.
pub open spec fn file_holding(t: Tree, dir: Seq<char>, needle: Seq<char>) -> Option<Seq<char>> {
    match listing(t, dir) {
        Some(names) => match first_holding(names, lower(needle), 0) {
            Some(n) => Some(pushed(dir, n)),
            None => None,
        },
        None => None,
    }
}

/// The first sibling file in the app's private root, or its `lib`, whose name holds
/// `needle`; none in a shared system directory.
pub open spec fn sibling(t: Tree, l: LayoutView, needle: Seq<char>) -> Option<Seq<char>> {
    if is_system(l.root) {
        None
    } else {
        match file_holding(t, l.root, needle) {
            Some(p) => Some(p),
            None => file_holding(t, pushed(l.root, "lib"@), needle),
        }
    }
}

/// Whether one of `names` holds `needle`.
pub open spec fn any_holds(names: Seq<Seq<char>>, needle: Seq<char>) -> bool {
    exists|i: int| 0 <= i < names.len() && holds(#[trigger] names[i], needle)
}

/// Whether the executable imports a library whose name holds `needle`, or a sibling
/// file does.
pub open spec fn has_lib(t: Tree, l: LayoutView, needle: Seq<char>) -> bool {
    any_holds(imports(t, l), lower(needle)) || sibling(t, l, needle) is Some
}

fn file_holding_of(tree: &MemTree, dir: &str, needle: &str) -> (r: Option<String>)
    ensures
        opt_text(r) == file_holding(tree@, dir@, needle@),
{
    let names = match tree.read_dir(dir) {
        Some(n) => n,
        None => {
            return None;
        },
    };
    let ghost all = texts(names@);
    let low = lower_of(needle);
    let mut i: usize = 0;
    while i < names.len()
        invariant
            i <= names@.len(),
            all == texts(names@),
            low@ == lower(needle@),
            listing(tree@, dir@) == Some(all),
            first_holding(all, lower(needle@), 0) == first_holding(all, lower(needle@), i as int),
        decreases names.len() - i,
    {
        let name = names[i].as_str();
        assert(all[i as int] == name@);
        if contains(lower_of(name).as_str(), low.as_str()) {
            return Some(push_of(dir, name));
        }
        i = i + 1;
    }
    None
}

impl Layout {
    /// That the imports are those of the executable.
    pub open spec fn fits(self, t: Tree) -> bool {
        texts(self.imports@) == imports(t, self@)
    }

    /// The layout of an app, with the imports of its executable read once.
    pub fn new(tree: &MemTree, root: String, executable: Option<String>, platform: Platform) -> (r:
        Layout)
        ensures
            r@ == (LayoutView { root: root@, executable: opt_text(executable), platform }),
            r.fits(tree@),
    {
        let imports = if platform.is_bundle() {
            Vec::new()
        } else {
            match &executable {
                Some(e) => read_imports(tree, e.as_str()),
                None => Vec::new(),
            }
        };
        let r = Layout { root, executable, platform, imports };
        assert(texts(r.imports@) =~= crate::detect::app::imports(tree@, r@));
        r
    }

    /// True when this app uses the macOS `.app` bundle layout.
    pub fn is_bundle(&self) -> (r: bool)
        ensures
            r == (self@.platform == Platform::Macos),
    {
        self.platform.is_bundle()
    }

    /// Directory where shared frameworks / runtime libraries live.
    ///
    /// * macOS: `root/Contents/Frameworks`.
    /// * Windows / Linux: `root` (DLLs / `.so`s sit beside the executable).
    pub fn frameworks_dir(&self) -> (r: String)
        ensures
            r@ == frameworks(self@),
    {
        if self.is_bundle() {
            push_of(self.root.as_str(), "Contents/Frameworks")
        } else {
            self.root.clone()
        }
    }

    /// Directory where bundled app resources (`app.asar`, `*.pak`) live.
    ///
    /// * macOS: `root/Contents/Resources`.
    /// * Windows / Linux: `root/resources`.
    pub fn resources_dir(&self) -> (r: String)
        ensures
            r@ == resources(self@),
    {
        if self.is_bundle() {
            push_of(self.root.as_str(), "Contents/Resources")
        } else {
            push_of(self.root.as_str(), "resources")
        }
    }

    /// Path to the first sibling file in the app's private `root` / `root/lib`
    /// whose filename contains `needle` (case-insensitive). Skipped for shared
    /// system directories, where sibling files aren't the app's own — there the
    /// import table is authoritative instead.
    pub fn find_file(&self, tree: &MemTree, needle: &str) -> (r: Option<String>)
        ensures
            opt_text(r) == sibling(tree@, self@, needle@),
    {
        if is_system_dir(self.root.as_str()) {
            return None;
        }
        match file_holding_of(tree, self.root.as_str(), needle) {
            Some(p) => Some(p),
            None => file_holding_of(tree, push_of(self.root.as_str(), "lib").as_str(), needle),
        }
    }

    /// True if the executable imports a library whose name contains `needle`,
    /// or a sibling file in the app's *private* `root` (or `root/lib`) matches.
    pub fn has_library(&self, tree: &MemTree, needle: &str) -> (r: bool)
        requires
            self.fits(tree@),
        ensures
            r == has_lib(tree@, self@, needle@),
    {
        let low = lower_of(needle);
        let ghost all = texts(self.imports@);
        // The import table (DT_NEEDED / PE imports) is the reliable signal and
        // works for system-installed libraries.
        let mut i: usize = 0;
        while i < self.imports.len()
            invariant
                i <= self.imports@.len(),
                low@ == lower(needle@),
                all == texts(self.imports@),
                all == imports(tree@, self@),
                forall|j: int| 0 <= j < i ==> !holds(#[trigger] all[j], low@),
            decreases self.imports.len() - i,
        {
            assert(all[i as int] == self.imports@[i as int]@);
            if contains(self.imports[i].as_str(), low.as_str()) {
                assert(holds(all[i as int], low@));
                return true;
            }
            i = i + 1;
        }
        self.find_file(tree, needle).is_some()
    }
}

/// Where shared frameworks live.
pub open spec fn frameworks(l: LayoutView) -> Seq<char> {
    if l.platform == Platform::Macos {
        pushed(l.root, "Contents/Frameworks"@)
    } else {
        l.root
    }
}

/// Where bundled resources live.
pub open spec fn resources(l: LayoutView) -> Seq<char> {
    if l.platform == Platform::Macos {
        pushed(l.root, "Contents/Resources"@)
    } else {
        pushed(l.root, "resources"@)
    }
}

} // verus!
