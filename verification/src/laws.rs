//! What holds of paths, trees and uploads, whatever they hold.

use vstd::prelude::*;
use vstd::utf8::{decode_utf8, valid_utf8};

use crate::analyze::{
    analysed_executable, analysed_root, asar_only, classified, folder_notes, is_asar, is_macho,
    mebibytes, node_of, planted, prepares, safe_name, scan_root, target_for, unsupported,
    unzipped_entry, upload_app, upload_notes, upload_platform, Upload, ZipEntryView,
};
use crate::bytes::begins;
use crate::detect::app::AppView;
use crate::detect::DetectionView;
use crate::path::{
    counted, file_name, is_absolute, is_plain, last_of, lemma_split_push, name_extension, name_stem,
    parent, parts, pushed, pushed_all, safe_join,
};
use crate::pkg::{identified, EntryView, Format};
use crate::text::{closes, holds, lemma_split_head, lower, opens, split, trim, trim_start, CharClass};
use crate::upload::{
    any_bundle, any_pe, app_under, below, best_of, bundle_at, bundle_in, bundle_within, dir_stem,
    first_app, first_bundle, first_entry, first_in_dir, first_in_dirs, is_bundle, is_candidate,
    is_helper, is_payload_binary, is_pe, name_line, pe_within, picked, portable_app, preferred,
    scan_target, size_at, sniffed_platform, subdirs_of,
};
use crate::vfs::{
    contents, dir_at, file_at, found, inserted, led, lemma_inserted_is_found, link_free, listing,
    name_in, names_in, node_at, platform_named, resolved, target_of, NodeView, Platform, Tree,
};

verus! {

// ---------- paths -----------------------------------------------------------

/// A name below a directory is one part more, the last one: the path's file name, and what
/// is taken away to come to the parent.
pub proof fn lemma_name_is_last_part(p: Seq<char>, c: Seq<char>)
    requires
        is_plain(c),
    ensures
        parts(pushed(p, c)) == parts(p).push(c),
        file_name(pushed(p, c)) == Some(c),
        parent(pushed(p, c)) == Some(
            pushed_all(
                if is_absolute(pushed(p, c)) {
                    "/"@
                } else {
                    Seq::empty()
                },
                parts(p),
            ),
        ),
{
    let slash = CharClass::Only('/');
    if p.len() == 0 {
        assert(pushed(p, c) =~= c);
        assert forall|i: int| 0 <= i < c.len() implies !slash.has(#[trigger] c[i]) by {
            assert(c.contains(c[i]));
        }
        lemma_split_head(c, '/', Seq::empty(), slash);
        lemma_split_head(p, '/', Seq::empty(), slash);
        assert(split(c, slash) == seq![c]);
        assert(split(p, slash) == seq![p]);
        assert(seq![p].drop_last() =~= Seq::empty());
        assert(seq![c].drop_last() =~= Seq::empty());
        assert(counted(Seq::empty()) == Seq::<Seq<char>>::empty());
    } else if p.last() == '/' {
        let q = p.drop_last();
        assert(pushed(p, c) =~= q.push('/') + c);
        assert(p =~= q.push('/') + Seq::<char>::empty());
        lemma_split_push(q, c);
        lemma_split_push(q, Seq::empty());
        assert(split(q, slash).push(c).drop_last() =~= split(q, slash));
        assert(split(q, slash).push(Seq::<char>::empty()).drop_last() =~= split(q, slash));
    } else {
        lemma_split_push(p, c);
        assert(split(p, slash).push(c).drop_last() =~= split(p, slash));
    }
    assert(parts(p).push(c).drop_last() =~= parts(p));
}

proof fn lemma_last_of(s: Seq<char>, c: char, n: nat)
    requires
        n <= s.len(),
    ensures
        match last_of(s, c, n) {
            Some(i) => 0 <= i < n && s[i] == c && forall|j: int| i < j < n ==> s[j] != c,
            None => forall|j: int| 0 <= j < n ==> s[j] != c,
        },
    decreases n,
{
    if n > 0 && s[n - 1] != c {
        lemma_last_of(s, c, (n - 1) as nat);
    }
}

/// A name splits at its last dot into stem and extension; a name that only starts with a dot,
/// or has none, is all stem.
pub proof fn lemma_stem_and_extension(stem: Seq<char>, ext: Seq<char>)
    requires
        stem.len() > 0,
        !ext.contains('.'),
    ensures
        name_stem(stem + "."@ + ext) == stem,
        name_extension(stem + "."@ + ext) == Some(ext),
        name_stem("."@ + ext) == "."@ + ext && name_extension("."@ + ext) is None,
        name_stem(ext) == ext && name_extension(ext) is None,
{
    reveal_strlit(".");
    let name = stem + "."@ + ext;
    let at = stem.len() as int;
    lemma_last_of(name, '.', name.len());
    assert(name[at] == '.');
    assert forall|j: int| at < j < name.len() implies name[j] != '.' by {
        assert(name[j] == ext[j - at - 1]);
        assert(ext.contains(ext[j - at - 1]));
    }
    assert(last_of(name, '.', name.len()) == Some(at));
    assert(name.take(at) =~= stem);
    assert(name.skip(at + 1) =~= ext);
    let hidden = "."@ + ext;
    lemma_last_of(hidden, '.', hidden.len());
    assert forall|j: int| 0 < j < hidden.len() implies hidden[j] != '.' by {
        assert(hidden[j] == ext[j - 1]);
        assert(ext.contains(ext[j - 1]));
    }
    lemma_last_of(ext, '.', ext.len());
    if let Some(i) = last_of(ext, '.', ext.len()) {
        assert(ext.contains(ext[i]));
    }
}

// ---------- trees -----------------------------------------------------------

/// Every platform goes by its own name, and nothing else names one.
pub proof fn lemma_platform_names(name: Seq<char>)
    ensures
        platform_named(Platform::Macos.name()) == Some(Platform::Macos),
        platform_named(Platform::Windows.name()) == Some(Platform::Windows),
        platform_named(Platform::Linux.name()) == Some(Platform::Linux),
        platform_named(name) matches Some(p) ==> p.name() == name,
        Platform::Macos.name() == "macos"@ && Platform::Windows.name() == "windows"@
            && Platform::Linux.name() == "linux"@,
{
    reveal_strlit("macos");
    reveal_strlit("windows");
    reveal_strlit("linux");
    assert("macos"@[0] == 'm' && "windows"@[0] == 'w' && "linux"@[0] == 'l');
}

/// A link on the way is followed: one that starts at the root from there, any other from the
/// directory it stands in; what is left of the path is looked for behind its target.
pub proof fn lemma_link_is_followed(
    t: Tree,
    done: Seq<char>,
    c: Seq<char>,
    rest: Seq<Seq<char>>,
    target: Seq<char>,
    hops: nat,
)
    requires
        is_plain(c),
        node_at(t, pushed(done, c)) == Some(NodeView::Link(target)),
        hops > 0,
    ensures
        resolved(t, done, seq![c] + rest, hops) == resolved(
            t,
            if is_absolute(target) {
                "/"@
            } else {
                done
            },
            split(target, CharClass::Only('/')) + rest,
            (hops - 1) as nat,
        ),
        resolved(t, done, seq![c] + rest, 0) is None,
{
    assert((seq![c] + rest).skip(1) =~= rest);
}

/// Nothing is found where something on the way is missing, and the directory above is reached
/// by two dots.
pub proof fn lemma_steps(t: Tree, done: Seq<char>, c: Seq<char>, rest: Seq<Seq<char>>, hops: nat)
    ensures
        is_plain(c) && node_at(t, pushed(done, c)) is None ==> resolved(
            t,
            done,
            seq![c] + rest,
            hops,
        ) is None,
        is_plain(c) ==> (node_at(t, pushed(done, c)) matches Some(NodeView::Dir) ==> resolved(
            t,
            done,
            seq![c] + rest,
            hops,
        ) == resolved(t, pushed(done, c), rest, hops)),
        resolved(t, done, seq!["."@] + rest, hops) == resolved(t, done, rest, hops),
        resolved(t, done, seq![".."@] + rest, hops) == resolved(
            t,
            crate::vfs::above(done),
            rest,
            hops,
        ),
{
    assert((seq![c] + rest).skip(1) =~= rest);
    assert((seq!["."@] + rest).skip(1) =~= rest);
    assert((seq![".."@] + rest).skip(1) =~= rest);
    reveal_strlit(".");
    reveal_strlit("..");
    assert(".."@.len() == 2);
}

proof fn lemma_names_members(t: Tree, dir: Seq<char>, n: nat, name: Seq<char>)
    requires
        n <= t.len(),
    ensures
        names_in(t, dir, n).contains(name) <==> exists|i: int|
            0 <= i < n && name_in(dir, (#[trigger] t[i]).0) == Some(name),
    decreases n,
{
    let all = names_in(t, dir, n);
    if n > 0 {
        let before = names_in(t, dir, (n - 1) as nat);
        lemma_names_members(t, dir, (n - 1) as nat, name);
        if all.contains(name) {
            let k = choose|k: int| 0 <= k < all.len() && all[k] == name;
            if k < before.len() {
                assert(before[k] == name);
            } else {
                assert(name_in(dir, t[n - 1].0) == Some(name));
            }
        }
        if exists|i: int| 0 <= i < n && name_in(dir, (#[trigger] t[i]).0) == Some(name) {
            let i = choose|i: int| 0 <= i < n && name_in(dir, (#[trigger] t[i]).0) == Some(name);
            if i < n - 1 {
                let k = choose|k: int| 0 <= k < before.len() && before[k] == name;
                assert(all[k] == name);
            } else {
                assert(all.last() == name);
                assert(all[all.len() - 1] == name);
            }
        }
    }
}

/// A directory lists exactly the names of what stands right below it.
pub proof fn lemma_listing(t: Tree, p: Seq<char>, name: Seq<char>)
    requires
        dir_at(t, p),
    ensures
        listing(t, p) is Some,
        (listing(t, p)->0).contains(name) <==> is_plain(name) && exists|i: int|
            0 <= i < t.len() && (#[trigger] t[i]).0 == pushed(target_of(t, p)->0, name),
{
    let dir = target_of(t, p)->0;
    let stem = pushed(dir, Seq::empty());
    lemma_names_members(t, dir, t.len(), name);
    assert(pushed(dir, name) =~= stem + name);
    if (listing(t, p)->0).contains(name) {
        let i = choose|i: int| 0 <= i < t.len() && name_in(dir, (#[trigger] t[i]).0) == Some(name);
        assert(t[i].0 =~= stem + name);
    }
    if is_plain(name) && exists|i: int| 0 <= i < t.len() && (#[trigger] t[i]).0 == pushed(dir, name) {
        let i = choose|i: int| 0 <= i < t.len() && (#[trigger] t[i]).0 == pushed(dir, name);
        assert(t[i].0.take(stem.len() as int) =~= stem);
        assert(t[i].0.skip(stem.len() as int) =~= name);
        assert(name_in(dir, t[i].0) == Some(name));
    }
}

/// What is no directory lists nothing.
pub proof fn lemma_no_listing(t: Tree, p: Seq<char>)
    ensures
        listing(t, p) is Some <==> dir_at(t, p),
        contents(t, p) is Some <==> file_at(t, p),
        !(dir_at(t, p) && file_at(t, p)),
{
}

proof fn lemma_resolved_stays(
    t: Tree,
    u: Tree,
    done: Seq<char>,
    rest: Seq<Seq<char>>,
    hops: nat,
)
    requires
        link_free(t),
        link_free(u),
        forall|q: Seq<char>| (#[trigger] node_at(t, q)) is Some ==> node_at(u, q) is Some,
        resolved(t, done, rest, hops) is Some,
    ensures
        resolved(u, done, rest, hops) == resolved(t, done, rest, hops),
    decreases rest.len(),
{
    if rest.len() > 0 {
        let c = rest[0];
        let tail = rest.skip(1);
        if c.len() == 0 || c == "."@ {
            lemma_resolved_stays(t, u, done, tail, hops);
        } else if c == ".."@ {
            lemma_resolved_stays(t, u, crate::vfs::above(done), tail, hops);
        } else {
            let p = pushed(done, c);
            assert(node_at(t, p) is Some);
            lemma_no_link(t, p);
            lemma_no_link(u, p);
            lemma_resolved_stays(t, u, p, tail, hops);
        }
    }
}

proof fn lemma_no_link(t: Tree, p: Seq<char>)
    requires
        link_free(t),
    ensures
        node_at(t, p) matches Some(n) ==> !(n is Link),
{
    lemma_place_is_in(t, p, 0);
}

proof fn lemma_place_is_in(t: Tree, p: Seq<char>, from: int)
    requires
        0 <= from,
    ensures
        crate::vfs::place_of(t, p, from) matches Some(i) ==> from <= i < t.len(),
    decreases t.len() - from,
{
    if from < t.len() && t[from].0 != p {
        lemma_place_is_in(t, p, from + 1);
    }
}

/// Where a path leads in a tree without links.
pub open spec fn place(p: Seq<char>) -> Seq<char> {
    led("/"@, split(p, CharClass::Only('/')))
}

/// Whether a path can be planted: it leads somewhere below the root, and never up.
pub open spec fn is_plantable(p: Seq<char>) -> bool {
    !split(p, CharClass::Only('/')).contains(".."@) && place(p) != "/"@
}

proof fn lemma_planted_step(t: Tree, entries: Seq<EntryView>, n: nat, q: Seq<char>)
    requires
        link_free(t),
        0 < n <= entries.len(),
        forall|i: int|
            0 <= i < n ==> is_plantable((#[trigger] entries[i]).path()) && !(entries[i] is Symlink),
    ensures
        link_free(planted(t, entries, n)),
        found(planted(t, entries, n), entries[n - 1].path()) == Some(node_of(entries[n - 1])),
        node_at(planted(t, entries, (n - 1) as nat), q) is Some ==> node_at(planted(t, entries, n), q)
            is Some,
        node_at(planted(t, entries, (n - 1) as nat), q) is Some && q != place(entries[n - 1].path())
            ==> node_at(planted(t, entries, n), q) == node_at(
            planted(t, entries, (n - 1) as nat),
            q,
        ),
    decreases n,
{
    let before = planted(t, entries, (n - 1) as nat);
    if n > 1 {
        lemma_planted_step(t, entries, (n - 1) as nat, q);
    }
    let e = entries[n - 1];
    assert(is_plantable(e.path()));
    lemma_inserted_is_found(before, e.path(), node_of(e), q);
    lemma_target_is_place(inserted(before, e.path(), node_of(e)), e.path());
}

proof fn lemma_resolved_is_led(t: Tree, done: Seq<char>, rest: Seq<Seq<char>>, hops: nat)
    requires
        link_free(t),
        !rest.contains(".."@),
    ensures
        resolved(t, done, rest, hops) matches Some(q) ==> q == led(done, rest),
    decreases rest.len(),
{
    if rest.len() > 0 {
        let c = rest[0];
        let tail = rest.skip(1);
        assert(rest.contains(rest[0]));
        if tail.contains(".."@) {
            let k = choose|k: int| 0 <= k < tail.len() && tail[k] == ".."@;
            assert(rest[k + 1] == ".."@);
        }
        if c.len() == 0 || c == "."@ {
            lemma_resolved_is_led(t, done, tail, hops);
        } else {
            lemma_no_link(t, pushed(done, c));
            lemma_resolved_is_led(t, pushed(done, c), tail, hops);
        }
    }
}

proof fn lemma_target_is_place(t: Tree, p: Seq<char>)
    requires
        link_free(t),
        is_plantable(p),
        found(t, p) is Some,
    ensures
        target_of(t, p) == Some(place(p)),
        node_at(t, place(p)) == found(t, p),
{
    lemma_resolved_is_led(t, "/"@, split(p, CharClass::Only('/')), 40);
}

/// What a package holds is found where it was put: each entry by its own path, as long as no
/// later one takes its place.
pub proof fn lemma_planted_is_found(t: Tree, entries: Seq<EntryView>, n: nat, k: int)
    requires
        link_free(t),
        0 <= k < n <= entries.len(),
        forall|i: int|
            0 <= i < n ==> is_plantable((#[trigger] entries[i]).path()) && !(entries[i] is Symlink),
        forall|i: int|
            k < i < n ==> place((#[trigger] entries[i]).path()) != place(entries[k].path()),
    ensures
        found(planted(t, entries, n), entries[k].path()) == Some(node_of(entries[k])),
        entries[k] matches EntryView::File { data, .. } ==> contents(
            planted(t, entries, n),
            entries[k].path(),
        ) == Some(data),
        entries[k] is Dir ==> dir_at(planted(t, entries, n), entries[k].path()),
    decreases n,
{
    let p = entries[k].path();
    lemma_planted_step(t, entries, n, place(p));
    if k < n - 1 {
        let before = planted(t, entries, (n - 1) as nat);
        let after = planted(t, entries, n);
        lemma_planted_is_found(t, entries, (n - 1) as nat, k);
        lemma_planted_step(t, entries, (n - 1) as nat, place(p));
        assert(is_plantable(p));
        lemma_target_is_place(before, p);
        assert forall|q: Seq<char>| (#[trigger] node_at(before, q)) is Some implies node_at(after, q)
            is Some by {
            lemma_planted_step(t, entries, n, q);
        }
        lemma_resolved_stays(before, after, "/"@, split(p, CharClass::Only('/')), 40);
        assert(place(entries[n - 1].path()) != place(p));
        assert(node_at(after, place(p)) == node_at(before, place(p)));
    }
}

// ---------- what an upload holds --------------------------------------------

proof fn lemma_subdirs_members(t: Tree, dir: Seq<char>, names: Seq<Seq<char>>, n: nat, p: Seq<char>)
    requires
        n <= names.len(),
    ensures
        subdirs_of(t, dir, names, n).contains(p) <==> exists|i: int|
            0 <= i < n && p == pushed(dir, #[trigger] names[i]) && dir_at(t, p),
    decreases n,
{
    let all = subdirs_of(t, dir, names, n);
    if n > 0 {
        let before = subdirs_of(t, dir, names, (n - 1) as nat);
        lemma_subdirs_members(t, dir, names, (n - 1) as nat, p);
        if all.contains(p) {
            let k = choose|k: int| 0 <= k < all.len() && all[k] == p;
            if k < before.len() {
                assert(before[k] == p);
            } else {
                assert(p == pushed(dir, names[n - 1]));
            }
        }
        if exists|i: int| 0 <= i < n && p == pushed(dir, #[trigger] names[i]) && dir_at(t, p) {
            let i = choose|i: int| 0 <= i < n && p == pushed(dir, #[trigger] names[i]) && dir_at(t, p);
            if i < n - 1 {
                let k = choose|k: int| 0 <= k < before.len() && before[k] == p;
                assert(all[k] == p);
            } else {
                assert(all[all.len() - 1] == p);
            }
        }
    }
}

/// Whether `p` is a directory right below `dir`.
pub open spec fn is_subdir(t: Tree, dir: Seq<char>, p: Seq<char>) -> bool {
    listing(t, dir) is Some && dir_at(t, p) && exists|j: int|
        0 <= j < listing(t, dir)->0.len() && p == pushed(dir, #[trigger] (listing(t, dir)->0)[j])
}

proof fn lemma_below_members(t: Tree, dirs: Seq<Seq<char>>, n: nat, p: Seq<char>)
    requires
        n <= dirs.len(),
    ensures
        below(t, dirs, n).contains(p) <==> exists|i: int| 0 <= i < n && is_subdir(t, #[trigger] dirs[i], p),
    decreases n,
{
    let all = below(t, dirs, n);
    if n > 0 {
        let before = below(t, dirs, (n - 1) as nat);
        let dir = dirs[n - 1];
        lemma_below_members(t, dirs, (n - 1) as nat, p);
        let last = match listing(t, dir) {
            Some(names) => subdirs_of(t, dir, names, names.len()),
            None => Seq::empty(),
        };
        assert(all == before + last);
        if let Some(names) = listing(t, dir) {
            lemma_subdirs_members(t, dir, names, names.len(), p);
            if last.contains(p) {
                let i = choose|i: int|
                    0 <= i < names.len() && p == pushed(dir, #[trigger] names[i]) && dir_at(t, p);
                assert(is_subdir(t, dir, p)) by {
                    assert(p == pushed(dir, (listing(t, dir)->0)[i]));
                }
            }
        }
        if all.contains(p) {
            let k = choose|k: int| 0 <= k < all.len() && all[k] == p;
            if k < before.len() {
                assert(before[k] == p);
                let i = choose|i: int| 0 <= i < n - 1 && is_subdir(t, #[trigger] dirs[i], p);
                assert(is_subdir(t, dirs[i], p));
            } else {
                assert(last[k - before.len()] == p);
                assert(is_subdir(t, dirs[n - 1], p));
            }
        }
        if exists|i: int| 0 <= i < n && is_subdir(t, #[trigger] dirs[i], p) {
            let i = choose|i: int| 0 <= i < n && is_subdir(t, #[trigger] dirs[i], p);
            if i < n - 1 {
                let k = choose|k: int| 0 <= k < before.len() && before[k] == p;
                assert(all[k] == p);
            } else {
                let names = listing(t, dir)->0;
                let j = choose|j: int|
                    0 <= j < listing(t, dir)->0.len() && p == pushed(
                        dir,
                        #[trigger] (listing(t, dir)->0)[j],
                    );
                assert(p == pushed(dir, names[j]));
                let k = choose|k: int| 0 <= k < last.len() && last[k] == p;
                assert(all[before.len() + k] == p);
            }
        }
    }
}

/// The directories `depth` levels below `base`.
pub open spec fn levels(t: Tree, base: Seq<char>, depth: nat) -> Seq<Seq<char>>
    decreases depth,
{
    if depth == 0 {
        seq![base]
    } else {
        let above = levels(t, base, (depth - 1) as nat);
        below(t, above, above.len())
    }
}

/// The next level holds the directories right below this one, and nothing else.
pub proof fn lemma_levels(t: Tree, base: Seq<char>, depth: nat, p: Seq<char>)
    ensures
        levels(t, base, 0) == seq![base],
        levels(t, base, depth + 1).contains(p) <==> exists|i: int|
            0 <= i < levels(t, base, depth).len() && is_subdir(
                t,
                #[trigger] levels(t, base, depth)[i],
                p,
            ),
{
    lemma_below_members(t, levels(t, base, depth), levels(t, base, depth).len(), p);
}

proof fn lemma_within_levels(t: Tree, base: Seq<char>, from: nat, left: nat)
    ensures
        bundle_within(t, levels(t, base, from), left) <==> exists|d: nat|
            from <= d <= from + left && any_bundle(t, #[trigger] levels(t, base, d)),
        pe_within(t, levels(t, base, from), left) <==> exists|d: nat|
            from <= d <= from + left && any_pe(t, #[trigger] levels(t, base, d)),
    decreases left,
{
    let here = levels(t, base, from);
    if left > 0 {
        lemma_within_levels(t, base, from + 1, (left - 1) as nat);
        assert(levels(t, base, from + 1) == below(t, here, here.len()));
        if exists|d: nat| from <= d <= from + left && any_bundle(t, #[trigger] levels(t, base, d)) {
            let d = choose|d: nat|
                from <= d <= from + left && any_bundle(t, #[trigger] levels(t, base, d));
            if d > from {
                assert(any_bundle(t, levels(t, base, d)));
            }
        }
        if exists|d: nat| from <= d <= from + left && any_pe(t, #[trigger] levels(t, base, d)) {
            let d = choose|d: nat| from <= d <= from + left && any_pe(t, #[trigger] levels(t, base, d));
            if d > from {
                assert(any_pe(t, levels(t, base, d)));
            }
        }
    }
    if any_bundle(t, here) {
        assert(any_bundle(t, levels(t, base, from)));
    }
    if any_pe(t, here) {
        assert(any_pe(t, levels(t, base, from)));
    }
}

/// What an upload is for is told by what it holds, down to four levels: a bundle makes it one
/// for macOS, a Windows image one for Windows, and anything else is taken for Linux.
pub proof fn lemma_platform_by_contents(t: Tree, base: Seq<char>)
    ensures
        ({
            let bundled = file_at(t, pushed(base, "Contents/Info.plist"@)) || exists|d: nat|
                d <= 4 && any_bundle(t, #[trigger] levels(t, base, d));
            let windows = exists|d: nat| d <= 4 && any_pe(t, #[trigger] levels(t, base, d));
            &&& sniffed_platform(t, base) == Platform::Macos <==> bundled
            &&& sniffed_platform(t, base) == Platform::Windows <==> !bundled && windows
            &&& sniffed_platform(t, base) == Platform::Linux <==> !bundled && !windows
        }),
{
    lemma_within_levels(t, base, 0, 4);
    assert(levels(t, base, 0) == seq![base]);
    if exists|d: nat| d <= 4 && any_bundle(t, #[trigger] levels(t, base, d)) {
        let d = choose|d: nat| d <= 4 && any_bundle(t, #[trigger] levels(t, base, d));
        assert(0 <= d <= 0 + 4 && any_bundle(t, levels(t, base, d)));
    }
    if exists|d: nat| d <= 4 && any_pe(t, #[trigger] levels(t, base, d)) {
        let d = choose|d: nat| d <= 4 && any_pe(t, #[trigger] levels(t, base, d));
        assert(0 <= d <= 0 + 4 && any_pe(t, levels(t, base, d)));
    }
}

/// What counts as a bundle, and what as a Windows image.
pub proof fn lemma_what_counts(t: Tree, dir: Seq<char>, name: Seq<char>)
    ensures
        ({
            let p = pushed(dir, name);
            &&& is_bundle(t, dir, name) ==> dir_at(t, p)
            &&& dir_at(t, p) && closes(lower(name), ".app"@) ==> is_bundle(t, dir, name)
            &&& dir_at(t, p) && file_at(t, pushed(p, "Contents/Info.plist"@)) ==> is_bundle(
                t,
                dir,
                name,
            )
            &&& is_bundle(t, dir, name) && !closes(lower(name), ".app"@) ==> file_at(
                t,
                pushed(p, "Contents/Info.plist"@),
            )
            &&& is_pe(t, dir, name) ==> !dir_at(t, p)
            &&& !dir_at(t, p) && (closes(lower(name), ".exe"@) || closes(lower(name), ".dll"@))
                ==> is_pe(t, dir, name)
            &&& contents(t, p) matches Some(b) ==> (b.len() >= 2 && b[0] == 0x4d && b[1] == 0x5a
                ==> is_pe(t, dir, name))
        }),
{
    let p = pushed(dir, name);
    if let Some(b) = contents(t, p) {
        if b.len() >= 2 && b[0] == 0x4d && b[1] == 0x5a {
            assert(b.take(2) =~= seq![0x4du8, 0x5a]);
        }
    }
}

proof fn lemma_first_entry_is_first(t: Tree, dir: Seq<char>, names: Seq<Seq<char>>, j: int)
    requires
        0 <= j <= names.len(),
    ensures
        match first_entry(t, dir, names, j) {
            Some(p) => exists|k: int|
                j <= k < names.len() && p == pushed(dir, #[trigger] names[k]) && is_bundle(
                    t,
                    dir,
                    names[k],
                ) && forall|i: int| j <= i < k ==> !is_bundle(t, dir, #[trigger] names[i]),
            None => forall|k: int| j <= k < names.len() ==> !is_bundle(t, dir, #[trigger] names[k]),
        },
    decreases names.len() - j,
{
    if j < names.len() {
        if is_bundle(t, dir, names[j]) {
            assert(pushed(dir, names[j]) == first_entry(t, dir, names, j)->0);
        } else {
            lemma_first_entry_is_first(t, dir, names, j + 1);
        }
    }
}

/// The bundle of a directory is the first one that it lists.
pub proof fn lemma_first_bundle_in_dir(t: Tree, dir: Seq<char>)
    ensures
        match first_in_dir(t, dir) {
            Some(p) => listing(t, dir) is Some && exists|k: int|
                0 <= k < (listing(t, dir)->0).len() && p == pushed(
                    dir,
                    #[trigger] (listing(t, dir)->0)[k],
                ) && is_bundle(t, dir, (listing(t, dir)->0)[k]) && forall|i: int|
                    0 <= i < k ==> !is_bundle(t, dir, #[trigger] (listing(t, dir)->0)[i]),
            None => !bundle_in(t, dir),
        },
{
    if let Some(names) = listing(t, dir) {
        lemma_first_entry_is_first(t, dir, names, 0);
    }
}

/// A bundle higher up comes before one further down, and an upload that is itself a bundle
/// comes before all.
pub proof fn lemma_nearest_bundle(t: Tree, dirs: Seq<Seq<char>>, left: nat, base: Seq<char>)
    ensures
        first_in_dirs(t, dirs, 0) is Some ==> first_bundle(t, dirs, left) == first_in_dirs(t, dirs, 0),
        first_in_dirs(t, dirs, 0) is None && left > 0 ==> first_bundle(t, dirs, left)
            == first_bundle(t, below(t, dirs, dirs.len()), (left - 1) as nat),
        dir_at(t, pushed(base, "Contents"@)) ==> bundle_at(t, base) == Some(base),
        !dir_at(t, pushed(base, "Contents"@)) ==> bundle_at(t, base) == first_bundle(
            t,
            seq![base],
            4,
        ),
        dirs.len() > 0 ==> (first_in_dir(t, dirs[0]) is Some ==> first_in_dirs(t, dirs, 0)
            == first_in_dir(t, dirs[0])),
{
}

/// The main executable of a directory is none of the helpers that ship beside it.
pub proof fn lemma_candidates(t: Tree, dir: Seq<char>, name: Seq<char>)
    ensures
        is_candidate(t, dir, name, Platform::Windows) ==> {
            let stem = lower(name_stem(name));
            &&& file_at(t, pushed(dir, name)) && closes(lower(name), ".exe"@)
            &&& stem != "update"@ && stem != "squirrel"@ && stem != "setup"@ && stem != "installer"@
            &&& stem != "uninstall"@ && stem != "elevate"@ && stem != "notification_helper"@
            &&& stem != "chrome_pwa_launcher"@ && stem != "crashpad_handler"@ && stem
                != "chrome_crashpad_handler"@
        },
        is_candidate(t, dir, name, Platform::Linux) ==> {
            let stem = lower(name_stem(name));
            &&& file_at(t, pushed(dir, name))
            &&& contents(t, pushed(dir, name)) matches Some(b) && begins(
                b,
                seq![0x7fu8, 0x45, 0x4c, 0x46],
            )
            &&& !closes(lower(name), ".so"@) && !holds(lower(name), ".so."@)
            &&& stem != "chrome-sandbox"@ && stem != "crashpad_handler"@ && stem
                != "chrome_crashpad_handler"@
        },
        file_at(t, pushed(dir, name)) && closes(lower(name), ".exe"@) && !is_helper(
            lower(name_stem(name)),
            Platform::Windows,
        ) ==> is_candidate(t, dir, name, Platform::Windows),
        (contents(t, pushed(dir, name)) matches Some(b) && begins(
            b,
            seq![0x7fu8, 0x45, 0x4c, 0x46],
        )) && !closes(lower(name), ".so"@) && !holds(lower(name), ".so."@) && !is_helper(
            lower(name_stem(name)),
            Platform::Linux,
        ) ==> is_candidate(t, dir, name, Platform::Linux),
        is_helper("setup"@, Platform::Windows) && is_helper("uninstall"@, Platform::Windows),
        is_helper("update"@, Platform::Windows) && is_helper("elevate"@, Platform::Windows),
        is_helper("chrome-sandbox"@, Platform::Linux) && is_helper(
            "crashpad_handler"@,
            Platform::Linux,
        ),
{
}

/// How two candidates are weighed: being named like the directory first, then size.
pub open spec fn weighs_less(t: Tree, dir: Seq<char>, a: Seq<char>, b: Seq<char>) -> bool {
    let na = lower(name_stem(a)) == dir_stem(dir);
    let nb = lower(name_stem(b)) == dir_stem(dir);
    if na != nb {
        nb
    } else {
        size_at(t, pushed(dir, a)) < size_at(t, pushed(dir, b))
    }
}

proof fn lemma_best(t: Tree, dir: Seq<char>, names: Seq<Seq<char>>, platform: Platform, n: nat)
    requires
        n <= names.len(),
    ensures
        match best_of(t, dir, names, platform, n) {
            Some(name) => is_candidate(t, dir, name, platform) && names.contains(name) && (forall|
                k: int,
            |
                0 <= k < n && is_candidate(t, dir, #[trigger] names[k], platform) ==> !weighs_less(
                    t,
                    dir,
                    name,
                    names[k],
                )) && exists|i: int|
                0 <= i < n && #[trigger] names[i] == name && forall|k: int|
                    0 <= k < i && is_candidate(t, dir, #[trigger] names[k], platform) ==> weighs_less(
                        t,
                        dir,
                        names[k],
                        name,
                    ),
            None => forall|k: int|
                0 <= k < n ==> !is_candidate(t, dir, #[trigger] names[k], platform),
        },
    decreases n,
{
    if n > 0 {
        lemma_best(t, dir, names, platform, (n - 1) as nat);
        assert(names.contains(names[n - 1]));
        let best = best_of(t, dir, names, platform, (n - 1) as nat);
        if best_of(t, dir, names, platform, n) == Some(names[n - 1]) && best matches Some(b) {
            if preferred(t, dir, names[n - 1], best->0) {
                assert(weighs_less(t, dir, best->0, names[n - 1]));
                assert forall|k: int|
                    0 <= k < n - 1 && is_candidate(t, dir, #[trigger] names[k], platform) implies weighs_less(
                    t,
                    dir,
                    names[k],
                    names[n - 1],
                ) by {
                    assert(!weighs_less(t, dir, best->0, names[k]));
                }
            }
        }
    }
}

/// The executable that is picked is a candidate that no other candidate outweighs: one named
/// like the directory where there is one, and of those the largest; of equals the first.
pub proof fn lemma_picked(t: Tree, dir: Seq<char>, platform: Platform)
    ensures
        match (listing(t, dir), picked(t, dir, platform)) {
            (Some(names), Some(p)) => exists|name: Seq<char>|
                names.contains(name) && p == #[trigger] pushed(dir, name) && is_candidate(
                    t,
                    dir,
                    name,
                    platform,
                ) && forall|k: int|
                    0 <= k < names.len() && is_candidate(t, dir, #[trigger] names[k], platform)
                        ==> !weighs_less(t, dir, name, names[k]) && (!weighs_less(t, dir, names[k], name)
                        ==> exists|i: int| 0 <= i <= k && #[trigger] names[i] == name),
            (Some(names), None) => forall|k: int|
                0 <= k < names.len() ==> !is_candidate(t, dir, #[trigger] names[k], platform),
            (None, p) => p is None,
        },
{
    if let Some(names) = listing(t, dir) {
        lemma_best(t, dir, names, platform, names.len());
        if let Some(name) = best_of(t, dir, names, platform, names.len()) {
            assert(picked(t, dir, platform) == Some(pushed(dir, name)));
        }
    }
}

/// A directory that holds an executable is the application's root, and lends it its name.
pub proof fn lemma_portable_app(t: Tree, base: Seq<char>, platform: Platform, e: Seq<char>)
    requires
        platform != Platform::Macos,
        picked(t, base, platform) == Some(e),
    ensures
        app_under(t, base, platform) == Some(
            AppView { path: e, name: file_name(base), root: base, executable: Some(e) },
        ),
{
}

proof fn lemma_first_app(t: Tree, dirs: Seq<Seq<char>>, platform: Platform, from: int)
    requires
        0 <= from <= dirs.len(),
    ensures
        match first_app(t, dirs, platform, from) {
            Some(a) => exists|i: int|
                from <= i < dirs.len() && is_home(t, #[trigger] dirs[i], platform, a) && forall|k: int|
                    from <= k < i ==> picked(t, #[trigger] dirs[k], platform) is None,
            None => forall|k: int|
                from <= k < dirs.len() ==> picked(t, #[trigger] dirs[k], platform) is None,
        },
    decreases dirs.len() - from,
{
    if from < dirs.len() {
        lemma_first_app(t, dirs, platform, from + 1);
        if picked(t, dirs[from], platform) is Some {
            assert(is_home(t, dirs[from], platform, first_app(t, dirs, platform, from)->0));
        }
    }
}

/// Whether a directory is the home of an application: it holds its executable and lends it its
/// name.
pub open spec fn is_home(t: Tree, dir: Seq<char>, platform: Platform, a: AppView) -> bool {
    &&& picked(t, dir, platform) == Some(a.path)
    &&& a.executable == Some(a.path)
    &&& a.root == dir
    &&& a.name == file_name(dir)
}

/// Whether no directory at a level holds an executable.
pub open spec fn is_bare(t: Tree, base: Seq<char>, platform: Platform, d: nat) -> bool {
    forall|k: int|
        0 <= k < levels(t, base, d).len() ==> picked(t, #[trigger] levels(t, base, d)[k], platform) is None
}

proof fn lemma_app_in_levels(t: Tree, base: Seq<char>, platform: Platform, from: nat, left: nat)
    ensures
        match portable_app(t, levels(t, base, from), platform, left) {
            Some(a) => exists|d: nat, i: int|
                from <= d <= from + left && 0 <= i < levels(t, base, d).len() && is_home(
                    t,
                    #[trigger] levels(t, base, d)[i],
                    platform,
                    a,
                ) && (forall|k: int|
                    0 <= k < i ==> picked(t, #[trigger] levels(t, base, d)[k], platform) is None) && (
                forall|e: nat| from <= e < d ==> #[trigger] is_bare(t, base, platform, e)),
            None => forall|d: nat| from <= d <= from + left ==> #[trigger] is_bare(t, base, platform, d),
        },
    decreases left,
{
    let here = levels(t, base, from);
    lemma_first_app(t, here, platform, 0);
    if first_app(t, here, platform, 0) is None {
        assert(is_bare(t, base, platform, from));
        if left > 0 {
            lemma_app_in_levels(t, base, platform, from + 1, (left - 1) as nat);
            assert(levels(t, base, from + 1) == below(t, here, here.len()));
        }
    }
}

/// The application off macOS is that of the shallowest directory, down to four levels, that
/// holds an executable, and at one depth that of the first.
pub proof fn lemma_nearest_app(t: Tree, base: Seq<char>, platform: Platform)
    requires
        platform != Platform::Macos,
    ensures
        match app_under(t, base, platform) {
            Some(a) => exists|d: nat, i: int|
                d <= 4 && 0 <= i < levels(t, base, d).len() && is_home(
                    t,
                    #[trigger] levels(t, base, d)[i],
                    platform,
                    a,
                ) && (forall|k: int|
                    0 <= k < i ==> picked(t, #[trigger] levels(t, base, d)[k], platform) is None) && (
                forall|e: nat| e < d ==> #[trigger] is_bare(t, base, platform, e)),
            None => forall|d: nat| d <= 4 ==> #[trigger] is_bare(t, base, platform, d),
        },
{
    lemma_app_in_levels(t, base, platform, 0, 4);
    assert(levels(t, base, 0) == seq![base]);
}

/// An archive of the application's sources is looked for in the order in which a runtime
/// would load it.
pub proof fn lemma_scan_target(t: Tree, root: Seq<char>, platform: Platform)
    ensures
        ({
            let dir = pushed(
                root,
                if platform == Platform::Macos {
                    "Contents/Resources"@
                } else {
                    "resources"@
                },
            );
            let app = pushed(dir, "app.asar"@);
            let electron = pushed(dir, "electron.asar"@);
            let usual = pushed(dir, "default_app.asar"@);
            let loose = pushed(dir, "app"@);
            let r = scan_target(t, root, platform);
            &&& file_at(t, app) ==> r == Some(app)
            &&& !file_at(t, app) && file_at(t, electron) ==> r == Some(electron)
            &&& !file_at(t, app) && !file_at(t, electron) && file_at(t, usual) ==> r == Some(usual)
            &&& !file_at(t, app) && !file_at(t, electron) && !file_at(t, usual) && file_at(
                t,
                pushed(loose, "package.json"@),
            ) ==> r == Some(loose)
            &&& r is Some ==> file_at(t, app) || file_at(t, electron) || file_at(t, usual)
                || file_at(t, pushed(loose, "package.json"@))
        }),
{
}

proof fn lemma_name_line_shift(head: Seq<char>, rest: Seq<Seq<char>>, i: int, main: bool)
    requires
        0 <= i <= rest.len(),
    ensures
        name_line(seq![head] + rest, i + 1, main) == name_line(rest, i, main),
    decreases rest.len() - i,
{
    let all = seq![head] + rest;
    if i < rest.len() {
        assert(all[i + 1] == rest[i]);
        let line = trim(rest[i], CharClass::White);
        if opens(line, "["@) {
            lemma_name_line_shift(head, rest, i + 1, line == "[Desktop Entry]"@);
        } else {
            lemma_name_line_shift(head, rest, i + 1, main);
        }
    }
}

/// A desktop entry's name is that of its main section, by the first line that gives one.
pub proof fn lemma_desktop_name(head: Seq<char>, rest: Seq<Seq<char>>, main: bool, name: Seq<char>)
    ensures
        ({
            let all = seq![head] + rest;
            let line = trim(head, CharClass::White);
            &&& line == "[Desktop Entry]"@ ==> name_line(all, 0, main) == name_line(rest, 0, true)
            &&& opens(line, "["@) && line != "[Desktop Entry]"@ ==> name_line(all, 0, main)
                == name_line(rest, 0, false)
            &&& !opens(line, "["@) && !opens(line, "Name="@) ==> name_line(all, 0, main)
                == name_line(rest, 0, main)
            &&& !opens(line, "["@) && !main ==> name_line(all, 0, main) == name_line(rest, 0, false)
            &&& main && line == "Name="@ + name && name.len() > 0 && trim(name, CharClass::White)
                == name ==> name_line(all, 0, main) == Some(name)
        }),
{
    let all = seq![head] + rest;
    let line = trim(head, CharClass::White);
    assert(all[0] == head);
    lemma_name_line_shift(head, rest, 0, true);
    lemma_name_line_shift(head, rest, 0, false);
    reveal_strlit("[");
    reveal_strlit("[Desktop Entry]");
    reveal_strlit("Name=");
    assert("[Desktop Entry]"@.take(1) =~= "["@);
    if line == "Name="@ + name {
        assert(line.take(1)[0] == 'N');
        assert(line.take(5) =~= "Name="@);
        assert(line.skip(5) =~= name);
    }
}

/// The executable of a payload is no library and no helper.
pub proof fn lemma_payload_binary(base: Seq<char>, path: Seq<char>, data: Seq<u8>, mode: u32)
    ensures
        is_payload_binary(base, (path, NodeView::File(data, mode))) ==> {
            &&& begins(data, seq![0x7fu8, 0x45, 0x4c, 0x46])
            &&& file_name(path) is Some
            &&& !closes(lower(file_name(path)->0), ".so"@)
            &&& !holds(lower(file_name(path)->0), ".so."@)
            &&& lower(name_stem(file_name(path)->0)) != "chrome-sandbox"@
        },
        !is_payload_binary(base, (path, NodeView::Dir)),
        begins(data, seq![0x7fu8, 0x45, 0x4c, 0x46]) && opens(path, pushed(base, Seq::empty()))
            && file_name(path) is Some && !closes(lower(file_name(path)->0), ".so"@) && !holds(
            lower(file_name(path)->0),
            ".so."@,
        ) && !is_helper(lower(name_stem(file_name(path)->0)), Platform::Linux)
            ==> is_payload_binary(base, (path, NodeView::File(data, mode))),
{
}

// ---------- how an upload is read -------------------------------------------

/// What kind of upload the bytes and the name make.
pub proof fn lemma_upload_kinds(b: Seq<u8>, name: Seq<char>)
    ensures
        closes(lower(name), ".asar"@) ==> classified(b, name) == Some(Upload::Asar),
        b.len() >= 16 && b[0] == 4 && b[1] == 0 && b[2] == 0 && b[3] == 0 ==> classified(b, name)
            == Some(Upload::Asar),
        !closes(lower(name), ".asar"@) && !is_asar(b) ==> {
            &&& identified(b, name) matches Some(f) ==> classified(b, name) == Some(
                Upload::Package(f),
            )
            &&& identified(b, name) is None && b.len() >= 4 && b[0] == 0x50 && b[1] == 0x4b && b[2]
                == 3 && b[3] == 4 ==> classified(b, name) == Some(Upload::Zip)
            &&& identified(b, name) is None && closes(lower(name), ".zip"@) ==> classified(b, name)
                == Some(Upload::Zip)
            &&& identified(b, name) is None && !closes(lower(name), ".zip"@) && b.len() >= 2 && b[0]
                == 0x4d && b[1] == 0x5a ==> classified(b, name) == Some(
                Upload::Binary(Platform::Windows),
            )
            &&& identified(b, name) is None && !closes(lower(name), ".zip"@) && b.len() >= 4 && b[0]
                == 0x7f && b[1] == 0x45 && b[2] == 0x4c && b[3] == 0x46 ==> classified(b, name)
                == Some(Upload::Binary(Platform::Linux))
            &&& identified(b, name) is None && !closes(lower(name), ".zip"@) && (b.len() == 0 || (
            b[0] != 0x50 && b[0] != 0x4d && b[0] != 0x7f)) ==> classified(b, name) is None
        },
{
    if b.len() >= 4 {
        let h = b.take(4);
        assert(h[0] == b[0] && h[1] == b[1] && h[2] == b[2] && h[3] == b[3]);
        if b[0] == 0x50 && b[1] == 0x4b && b[2] == 3 && b[3] == 4 {
            assert(h =~= seq![0x50u8, 0x4b, 3, 4]);
        }
        if b[0] == 0x7f && b[1] == 0x45 && b[2] == 0x4c && b[3] == 0x46 {
            assert(h =~= seq![0x7fu8, 0x45, 0x4c, 0x46]);
        }
    }
    if b.len() >= 2 {
        let h = b.take(2);
        assert(h[0] == b[0] && h[1] == b[1]);
        if b[0] == 0x4d && b[1] == 0x5a {
            assert(h =~= seq![0x4du8, 0x5a]);
        }
    }
}

/// A Mach-O image, of either width, either byte order or several architectures, is told
/// apart.
pub proof fn lemma_macho(b: Seq<u8>)
    requires
        b.len() >= 4,
    ensures
        is_macho(b) <==> ({
            let n = b[0] as int * 0x100_0000 + b[1] as int * 0x1_0000 + b[2] as int * 0x100 + b[3];
            n == 0xfeed_face || n == 0xfeed_facf || n == 0xcefa_edfe || n == 0xcffa_edfe || n
                == 0xcafe_babe || n == 0xbeba_feca
        }),
        is_macho(b) ==> holds(unsupported(b), "Mach-O"@),
{
    let h = b.take(4);
    assert(h[0] == b[0] && h[1] == b[1] && h[2] == b[2] && h[3] == b[3]);
    if b[0] == 0xfe && b[1] == 0xed && b[2] == 0xfa && b[3] == 0xce {
        assert(h =~= seq![0xfeu8, 0xed, 0xfa, 0xce]);
    }
    if b[0] == 0xfe && b[1] == 0xed && b[2] == 0xfa && b[3] == 0xcf {
        assert(h =~= seq![0xfeu8, 0xed, 0xfa, 0xcf]);
    }
    if b[0] == 0xce && b[1] == 0xfa && b[2] == 0xed && b[3] == 0xfe {
        assert(h =~= seq![0xceu8, 0xfa, 0xed, 0xfe]);
    }
    if b[0] == 0xcf && b[1] == 0xfa && b[2] == 0xed && b[3] == 0xfe {
        assert(h =~= seq![0xcfu8, 0xfa, 0xed, 0xfe]);
    }
    if b[0] == 0xca && b[1] == 0xfe && b[2] == 0xba && b[3] == 0xbe {
        assert(h =~= seq![0xcau8, 0xfe, 0xba, 0xbe]);
    }
    if b[0] == 0xbe && b[1] == 0xba && b[2] == 0xfe && b[3] == 0xca {
        assert(h =~= seq![0xbeu8, 0xba, 0xfe, 0xca]);
    }
    if is_macho(b) {
        reveal_strlit("Mach-O");
        reveal_strlit(
            "this is a Mach-O binary — the executable from inside a .app, which on its own carries no bundle to analyse. Zip the whole .app and upload that instead.",
        );
        let m = unsupported(b);
        assert(m.subrange(10, 16) =~= "Mach-O"@);
        assert(crate::text::stands_at(m, "Mach-O"@, 10));
    }
}

/// A binary keeps the last part of the name that it was uploaded under.
pub proof fn lemma_binary_keeps_its_name(dir: Seq<char>, name: Seq<char>)
    requires
        is_plain(name),
        !name.contains('\\'),
        !CharClass::White.has(name[0]) && !CharClass::White.has(name.last()),
        !dir.contains('/') && !dir.contains('\\'),
    ensures
        safe_name(name) == name,
        safe_name(dir.push('/') + name) == name,
        safe_name(dir.push('\\') + name) == name,
        safe_name(Seq::empty()) == "app-binary"@,
        safe_name(".."@) == "app-binary"@,
{
    let slashes = CharClass::Slashes;
    assert forall|i: int| 0 <= i < name.len() implies !slashes.has(#[trigger] name[i]) by {
        assert(name.contains(name[i]));
    }
    assert forall|i: int| 0 <= i < dir.len() implies !slashes.has(#[trigger] dir[i]) by {
        assert(dir.contains(dir[i]));
    }
    lemma_split_head(name, '/', Seq::empty(), slashes);
    lemma_split_head(dir, '/', name, slashes);
    lemma_split_head(dir, '\\', name, slashes);
    lemma_split_head(Seq::empty(), '/', Seq::empty(), slashes);
    assert(trim_start(name, CharClass::White) == name);
    assert(trim(name, CharClass::White) == name);
    assert(split(dir.push('/') + name, slashes).last() == name);
    assert(split(dir.push('\\') + name, slashes).last() == name);
    reveal_strlit("..");
    let up = ".."@;
    lemma_split_head(up, '/', Seq::empty(), slashes);
    assert(trim_start(up, CharClass::White) == up);
    assert(trim(up, CharClass::White) == up);
    assert(trim(Seq::<char>::empty(), CharClass::White).len() == 0);
}

/// A size in mebibytes is the nearest whole number, and of two that are equally near the even
/// one.
pub proof fn lemma_mebibytes(bytes: nat)
    ensures
        ({
            let m = mebibytes(bytes);
            let off = bytes - m * 0x10_0000;
            &&& -0x8_0000 <= off <= 0x8_0000
            &&& off == 0x8_0000 || off == -0x8_0000 ==> m % 2 == 0
        }),
{
}

/// A single file of an archive is found with its bytes and its mode, which is the usual one
/// where the archive records none.
pub proof fn lemma_unzipped_file(t: Tree, base: Seq<char>, e: ZipEntryView, p: Seq<char>, data: Seq<u8>)
    requires
        link_free(t),
        e.name is Some,
        safe_join(base, e.name->0) == Some(p),
        is_plantable(p),
        !e.body.dir,
        e.body.data == Ok::<Seq<u8>, Seq<char>>(data),
        e.body.mode matches Some(m) ==> m & 0xf000 != 0xa000,
    ensures
        unzipped_entry(t, base, Ok(e)) matches Ok(u) && contents(u, p) == Some(data) && found(u, p)
            == Some(
            NodeView::File(
                data,
                match e.body.mode {
                    Some(m) => m,
                    None => 0o644,
                },
            ),
        ),
{
    let n = NodeView::File(
        data,
        match e.body.mode {
            Some(m) => m,
            None => 0o644,
        },
    );
    assert(unzipped_entry(t, base, Ok(e)) == Ok::<Tree, Seq<char>>(inserted(t, p, n)));
    lemma_inserted_is_found(t, p, n, p);
}

/// A directory of an archive becomes one, a link becomes a link to what it holds, and an entry
/// that would leave the base is passed over.
pub proof fn lemma_unzipped_others(t: Tree, base: Seq<char>, e: ZipEntryView)
    ensures
        e.name is None ==> unzipped_entry(t, base, Ok(e)) == Ok::<Tree, Seq<char>>(t),
        e.name matches Some(n) ==> (safe_join(base, n) is None ==> unzipped_entry(t, base, Ok(e))
            == Ok::<Tree, Seq<char>>(t)),
        e.name matches Some(n) ==> (safe_join(base, n) matches Some(p) ==> (e.body.dir
            ==> unzipped_entry(t, base, Ok(e)) == Ok::<Tree, Seq<char>>(
            inserted(t, p, NodeView::Dir),
        ))),
        e.name matches Some(n) ==> (safe_join(base, n) matches Some(p) ==> (e.body.data matches Ok(d)
            ==> (!e.body.dir && valid_utf8(d) && (e.body.mode matches Some(m) && m & 0xf000 == 0xa000)
            ==> unzipped_entry(t, base, Ok(e)) == Ok::<Tree, Seq<char>>(
            inserted(t, p, NodeView::Link(decode_utf8(d))),
        )))),
{
}

proof fn lemma_led_one_more(done: Seq<char>, comps: Seq<Seq<char>>, c: Seq<char>)
    requires
        is_plain(c),
    ensures
        led(done, comps.push(c)) == pushed(led(done, comps), c),
    decreases comps.len(),
{
    let all = comps.push(c);
    if comps.len() == 0 {
        assert(all.skip(1) =~= Seq::empty());
        assert(led(pushed(done, c), Seq::empty()) == pushed(done, c));
    } else {
        assert(all.skip(1) =~= comps.skip(1).push(c));
        if comps[0].len() == 0 || comps[0] == "."@ {
            lemma_led_one_more(done, comps.skip(1), c);
        } else {
            lemma_led_one_more(pushed(done, comps[0]), comps.skip(1), c);
        }
    }
}

/// A plain name below a place that can be planted can be planted too.
pub proof fn lemma_plantable_below(p: Seq<char>, c: Seq<char>)
    requires
        p.len() > 0,
        p.last() != '/',
        !split(p, CharClass::Only('/')).contains(".."@),
        is_plain(c),
    ensures
        is_plantable(pushed(p, c)),
        pushed(p, c).last() != '/',
{
    let comps = split(p, CharClass::Only('/'));
    lemma_split_push(p, c);
    lemma_led_one_more("/"@, comps, c);
    reveal_strlit("/");
    let all = comps.push(c);
    if all.contains(".."@) {
        let k = choose|k: int| 0 <= k < all.len() && all[k] == ".."@;
        if k < comps.len() {
            assert(comps[k] == ".."@);
        }
    }
    let there = led("/"@, comps);
    assert(pushed(there, c).last() == c.last());
    assert(c.contains(c.last()));
    assert("/"@.last() == '/');
}

proof fn lemma_scan_root_is_sound()
    ensures
        scan_root().len() > 0,
        scan_root().last() != '/',
        !split(scan_root(), CharClass::Only('/')).contains(".."@),
        is_plantable(asar_only()),
{
    reveal_strlit("/scan");
    reveal_strlit("scan");
    reveal_strlit("..");
    reveal_strlit(".");
    let slash = CharClass::Only('/');
    let none = Seq::<char>::empty();
    assert("/scan"@ =~= none.push('/') + "scan"@);
    lemma_split_head(none, '/', "scan"@, slash);
    lemma_split_head("scan"@, '/', none, slash);
    assert(split("/scan"@, slash) == seq![none] + seq!["scan"@]);
    assert("scan"@.len() == 4 && none.len() == 0 && ".."@.len() == 2 && "."@.len() == 1);
    reveal_strlit("App.app");
    reveal_strlit("Contents");
    reveal_strlit("Resources");
    reveal_strlit("app.asar");
    reveal_strlit("App.app/Contents/Resources/app.asar");
    assert("App.app"@.len() == 7 && "Contents"@.len() == 8 && "Resources"@.len() == 9 && "app.asar"@.len()
        == 8);
    let a = pushed(scan_root(), "App.app"@);
    let b = pushed(a, "Contents"@);
    let c = pushed(b, "Resources"@);
    let d = pushed(c, "app.asar"@);
    lemma_plantable_below(scan_root(), "App.app"@);
    lemma_plantable_below(a, "Contents"@);
    lemma_plantable_below(b, "Resources"@);
    lemma_plantable_below(c, "app.asar"@);
    assert(d =~= asar_only());
}

/// A bare archive or a single executable is put where it will be looked for.
pub proof fn lemma_single_file_uploads(
    b: Seq<u8>,
    filename: Seq<char>,
    t: Tree,
    notes: Seq<Seq<char>>,
    platform: Platform,
)
    ensures
        prepares(b, filename, Upload::Asar, Ok((t, notes))) ==> target_for(t, None, Platform::Macos) == Some(asar_only()) && contents(t, asar_only())
            == Some(b) && notes.len() == 1,
        prepares(b, filename, Upload::Binary(platform), Ok((t, notes))) ==> contents(t, pushed(scan_root(), safe_name(filename))) == Some(b) && (upload_app(
            t,
            filename,
            platform,
            Upload::Binary(platform),
        ) matches Some(a) && a.executable == Some(a.path) && a.path == pushed(
            scan_root(),
            safe_name(filename),
        )),
{
    let none = Seq::<(Seq<char>, NodeView)>::empty();
    let n = NodeView::File(b, 0o644);
    lemma_scan_root_is_sound();
    lemma_inserted_is_found(none, asar_only(), n, asar_only());
    let p = pushed(scan_root(), safe_name(filename));
    crate::analyze::lemma_safe_name(filename);
    lemma_plantable_below(scan_root(), safe_name(filename));
    lemma_inserted_is_found(none, p, n, p);
}

/// What the caller says of the platform decides; else the kind of upload does.
pub proof fn lemma_platform_of_upload(t: Tree, kind: Upload, p: Platform, format: Format)
    ensures
        upload_platform(t, Some(p), kind) == p,
        upload_platform(t, None, Upload::Asar) == Platform::Macos,
        upload_platform(t, None, Upload::Binary(p)) == p,
        upload_platform(t, None, Upload::Package(format)) == Platform::Linux,
        upload_platform(t, None, Upload::Zip) == sniffed_platform(t, "/scan"@),
{
}

/// A detection's own root and executable come before those of the application that was
/// looked into.
pub proof fn lemma_detection_comes_first(d: DetectionView, a: AppView)
    ensures
        analysed_root(Some(d), Some(a)) == Some(d.root),
        analysed_root(None, Some(a)) == Some(a.root),
        analysed_root(None, None) is None,
        d.executable is Some ==> analysed_executable(Some(d), Some(a)) == d.executable,
        d.executable is None ==> analysed_executable(Some(d), Some(a)) == a.executable,
        analysed_executable(None, Some(a)) == a.executable,
{
}

/// Finding no application is noted, and only that adds a note.
pub proof fn lemma_notes(notes: Seq<Seq<char>>, a: AppView, platform: Platform, kind: Upload)
    ensures
        upload_notes(notes, Some(a), platform, kind) == notes,
        kind is Zip || kind is Package ==> upload_notes(notes, None, platform, kind).len()
            == notes.len() + 1,
        kind is Asar || kind is Binary ==> upload_notes(notes, None, platform, kind) == notes,
        folder_notes(Some(a), platform).len() == 0,
        folder_notes(None, platform).len() == 1,
{
}

// ---------- joining ---------------------------------------------------------

/// A name is taken below the base, whether or not it starts at the root, and steps that stay
/// where they are count for nothing.
pub proof fn lemma_join_ignores_lead(base: Seq<char>, rel: Seq<char>)
    ensures
        safe_join(base, seq!['/'] + rel) == safe_join(base, rel),
        safe_join(base, "./"@ + rel) == safe_join(base, rel),
        safe_join(base, Seq::empty()) == Some(base),
{
    reveal_strlit(".");
    reveal_strlit("./");
    let slash = CharClass::Only('/');
    let none = Seq::<char>::empty();
    assert(seq!['/'] + rel =~= none.push('/') + rel);
    assert("./"@ + rel =~= "."@.push('/') + rel);
    lemma_split_head(none, '/', rel, slash);
    lemma_split_head("."@, '/', rel, slash);
    let rest = split(rel, slash);
    assert((seq![none] + rest).skip(1) =~= rest);
    assert((seq!["."@] + rest).skip(1) =~= rest);
    assert(seq![none].skip(1) =~= Seq::empty());
    assert(crate::path::joined(base, Seq::empty()) == Some(base));
}

/// The names of helpers, and no others.
pub proof fn lemma_helpers(stem: Seq<char>)
    ensures
        is_helper(stem, Platform::Windows) ==> stem == "update"@ || stem == "squirrel"@ || stem
            == "setup"@ || stem == "installer"@ || stem == "uninstall"@ || stem == "elevate"@ || stem
            == "notification_helper"@ || stem == "chrome_pwa_launcher"@ || stem == "crashpad_handler"@
            || stem == "chrome_crashpad_handler"@,
        is_helper(stem, Platform::Linux) ==> stem == "chrome-sandbox"@ || stem == "crashpad_handler"@
            || stem == "chrome_crashpad_handler"@,
{
}

/// How much is taken in: four levels of directories, forty links, and two gibibytes of an
/// uploaded package.
pub proof fn lemma_upload_limits()
    ensures
        crate::upload::MAX_DEPTH == 4,
        crate::vfs::MAX_LINKS == 40,
        crate::analyze::MAX_PACKAGE_BYTES == 2 * 1024 * 1024 * 1024,
        crate::vfs::USUAL_MODE == 0o644,
        crate::plist::MAX_DEPTH == 512,
{
}

} // verus!
