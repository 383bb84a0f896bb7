//! Slash-separated paths, held as text.

use vstd::prelude::*;

use crate::text::{
    chars_of, find_class, first_in, lemma_first_in, opt_text, same, slice_of, split,
    split_from, split_of, text_of, texts, CharClass,
};

verus! {

/// `base` with one more component.
pub open spec fn pushed(base: Seq<char>, c: Seq<char>) -> Seq<char> {
    if base.len() == 0 || base.last() == '/' {
        base + c
    } else {
        base.push('/') + c
    }
}

/// The path that `p` names as seen from `base`: an absolute one stands for itself.
pub open spec fn seen_from(base: Seq<char>, p: Seq<char>) -> Seq<char> {
    if is_absolute(p) {
        p
    } else {
        pushed(base, p)
    }
}

/// `base` with each of `comps` pushed in turn.
pub open spec fn pushed_all(base: Seq<char>, comps: Seq<Seq<char>>) -> Seq<char>
    decreases comps.len(),
{
    if comps.len() == 0 {
        base
    } else {
        pushed_all(pushed(base, comps[0]), comps.skip(1))
    }
}

/// A single path component and nothing more.
pub open spec fn is_plain(name: Seq<char>) -> bool {
    name.len() > 0 && name != "."@ && name != ".."@ && !name.contains('/')
}

/// Whether `p` is `base` or a path below it.
pub open spec fn within(base: Seq<char>, p: Seq<char>) -> bool {
    exists|comps: Seq<Seq<char>>| #[trigger]
        pushed_all(base, comps) == p && forall|i: int|
            0 <= i < comps.len() ==> is_plain(#[trigger] comps[i])
}

/// `base` with the components of an archive name pushed: empty and `.` ones are
/// dropped, and `..` refuses the name.
pub open spec fn joined(base: Seq<char>, comps: Seq<Seq<char>>) -> Option<Seq<char>>
    decreases comps.len(),
{
    if comps.len() == 0 {
        Some(base)
    } else if comps[0].len() == 0 || comps[0] == "."@ {
        joined(base, comps.skip(1))
    } else if comps[0] == ".."@ {
        None
    } else {
        joined(pushed(base, comps[0]), comps.skip(1))
    }
}

/// Where the archive name `rel` lands under `base`.
pub open spec fn safe_join(base: Seq<char>, rel: Seq<char>) -> Option<Seq<char>> {
    joined(base, split(rel, CharClass::Only('/')))
}

/// Pushes one component.
pub fn push_of(base: &str, c: &str) -> (r: String)
    ensures
        r@ == pushed(base@, c@),
{
    let x = chars_of(base);
    let mut out: String = base.to_owned();
    if x.len() > 0 && x[x.len() - 1] != '/' {
        out.push('/');
    }
    out.append(c);
    out
}

/// The path that `p` names as seen from `base`.
pub fn seen_from_of(base: &str, p: &str) -> (r: String)
    ensures
        r@ == seen_from(base@, p@),
{
    let x = chars_of(p);
    if x.len() > 0 && x[0] == '/' {
        p.to_owned()
    } else {
        push_of(base, p)
    }
}

/// Join a package-relative path onto `base`, refusing anything that would
/// escape it.
///
/// Package payloads are absolute by convention (`./usr/bin/foo`, `/usr/bin/foo`),
/// so a leading root is dropped rather than rejected. A `..` component is the one
/// rejection. A name that normalises away to nothing maps to `base`.
pub fn join_safe(base: &str, rel: &str) -> (r: Option<String>)
    ensures
        opt_text(r) == safe_join(base@, rel@),
{
    let comps = split_of(rel, CharClass::Only('/'));
    let ghost all = texts(comps@);
    let mut out: String = base.to_owned();
    let mut i: usize = 0;
    assert(all.skip(0) =~= all);
    while i < comps.len()
        invariant
            i <= comps@.len(),
            all == texts(comps@),
            all == split(rel@, CharClass::Only('/')),
            joined(base@, all) == joined(out@, all.skip(i as int)),
        decreases comps.len() - i,
    {
        let c = comps[i].as_str();
        assert(all.skip(i as int)[0] == c@);
        assert(all.skip(i as int).skip(1) =~= all.skip(i + 1));
        if c.is_empty() || same(c, ".") {
        } else if same(c, "..") {
            return None;
        } else {
            out = push_of(out.as_str(), c);
        }
        i = i + 1;
    }
    assert(all.skip(i as int).len() == 0);
    Some(out)
}

/// A single path component and nothing more.
pub fn is_plain_name(name: &str) -> (r: bool)
    ensures
        r == is_plain(name@),
{
    let x = chars_of(name);
    proof {
        lemma_first_in(name@, CharClass::Only('/'), 0);
    }
    let slash = find_class(&x, CharClass::Only('/'), 0);
    proof {
        match slash {
            Some(i) => assert(name@[i as int] == '/'),
            None => {},
        }
    }
    !name.is_empty() && !same(name, ".") && !same(name, "..") && slash.is_none()
}

/// The pieces of a split hold no separator.
pub proof fn lemma_split_pieces(s: Seq<char>, class: CharClass, from: int)
    requires
        0 <= from <= s.len(),
    ensures
        forall|k: int, j: int|
            #![trigger split_from(s, class, from)[k][j]]
            0 <= k < split_from(s, class, from).len() && 0 <= j < split_from(
                s,
                class,
                from,
            )[k].len() ==> !class.has(split_from(s, class, from)[k][j]),
    decreases s.len() - from,
{
    lemma_first_in(s, class, from);
    let whole = split_from(s, class, from);
    match first_in(s, class, from) {
        Some(i) => {
            let rest = split_from(s, class, i + 1);
            lemma_split_pieces(s, class, i + 1);
            assert(whole =~= seq![s.subrange(from, i)] + rest);
            assert forall|k: int, j: int|
                #![trigger whole[k][j]]
                0 <= k < whole.len() && 0 <= j < whole[k].len() implies !class.has(whole[k][j]) by {
                if k > 0 {
                    assert(whole[k] == rest[k - 1]);
                    assert(!class.has(rest[k - 1][j]));
                }
            }
        },
        None => {},
    }
}

/// What is pushed onto a path below `base` is again below `base`.
pub proof fn lemma_within_push(base: Seq<char>, p: Seq<char>, c: Seq<char>)
    requires
        within(base, p),
        is_plain(c),
    ensures
        within(base, pushed(p, c)),
{
    let comps = choose|comps: Seq<Seq<char>>| #[trigger]
        pushed_all(base, comps) == p && forall|i: int|
            0 <= i < comps.len() ==> is_plain(#[trigger] comps[i]);
    lemma_pushed_all_push(base, comps, c);
    assert(pushed_all(base, comps.push(c)) == pushed(p, c));
}

proof fn lemma_pushed_all_push(base: Seq<char>, comps: Seq<Seq<char>>, c: Seq<char>)
    ensures
        pushed_all(base, comps.push(c)) == pushed(pushed_all(base, comps), c),
    decreases comps.len(),
{
    reveal_with_fuel(pushed_all, 2);
    if comps.len() == 0 {
        assert(comps.push(c).skip(1) =~= comps);
    } else {
        assert(comps.push(c).skip(1) =~= comps.skip(1).push(c));
        lemma_pushed_all_push(pushed(base, comps[0]), comps.skip(1), c);
    }
}

proof fn lemma_joined_within(base: Seq<char>, at: Seq<char>, comps: Seq<Seq<char>>)
    requires
        within(base, at),
        forall|k: int, j: int|
            #![trigger comps[k][j]]
            0 <= k < comps.len() && 0 <= j < comps[k].len() ==> comps[k][j] != '/',
    ensures
        joined(at, comps) matches Some(p) ==> within(base, p),
    decreases comps.len(),
{
    if comps.len() > 0 {
        let rest = comps.skip(1);
        assert forall|k: int, j: int|
            #![trigger rest[k][j]]
            0 <= k < rest.len() && 0 <= j < rest[k].len() implies rest[k][j] != '/' by {
            assert(rest[k] == comps[k + 1]);
            assert(comps[k + 1][j] != '/');
        }
        if comps[0].len() == 0 || comps[0] == "."@ {
            lemma_joined_within(base, at, rest);
        } else if comps[0] != ".."@ {
            assert(is_plain(comps[0])) by {
                assert forall|j: int| 0 <= j < comps[0].len() implies comps[0][j] != '/' by {}
            }
            lemma_within_push(base, at, comps[0]);
            lemma_joined_within(base, pushed(at, comps[0]), rest);
        }
    }
}

/// Every path is within itself.
pub proof fn lemma_within_self(base: Seq<char>)
    ensures
        within(base, base),
{
    assert(pushed_all(base, Seq::<Seq<char>>::empty()) == base);
}

/// A name joined onto `base` never leaves it.
pub proof fn lemma_safe_join_stays_within(base: Seq<char>, rel: Seq<char>)
    ensures
        safe_join(base, rel) matches Some(p) ==> within(base, p),
{
    let class = CharClass::Only('/');
    lemma_split_pieces(rel, class, 0);
    lemma_within_self(base);
    let comps = split(rel, class);
    assert forall|k: int, j: int|
        #![trigger comps[k][j]]
        0 <= k < comps.len() && 0 <= j < comps[k].len() implies comps[k][j] != '/' by {
        assert(!class.has(split_from(rel, class, 0)[k][j]));
    }
    lemma_joined_within(base, base, comps);
}

proof fn lemma_first_in_longer(s: Seq<char>, t: Seq<char>, class: CharClass, from: int)
    requires
        0 <= from <= s.len() <= t.len(),
        forall|i: int| 0 <= i < s.len() ==> #[trigger] t[i] == s[i],
    ensures
        first_in(s, class, from) is Some ==> first_in(t, class, from) == first_in(s, class, from),
        first_in(s, class, from) is None ==> first_in(t, class, from) == first_in(
            t,
            class,
            s.len() as int,
        ),
    decreases s.len() - from,
{
    if from < s.len() {
        assert(t[from] == s[from]);
        lemma_first_in_longer(s, t, class, from + 1);
    }
}

proof fn lemma_split_push_from(p: Seq<char>, c: Seq<char>, from: int)
    requires
        !c.contains('/'),
        0 <= from <= p.len(),
    ensures
        split_from(p.push('/') + c, CharClass::Only('/'), from) == split_from(
            p,
            CharClass::Only('/'),
            from,
        ).push(c),
    decreases p.len() - from,
{
    let class = CharClass::Only('/');
    let s = p.push('/') + c;
    let n = p.len() as int;
    lemma_first_in(p, class, from);
    lemma_first_in_longer(p, s, class, from);
    match first_in(p, class, from) {
        Some(i) => {
            lemma_split_push_from(p, c, i + 1);
            assert(s.subrange(from, i) =~= p.subrange(from, i));
            assert(split_from(s, class, from) =~= split_from(p, class, from).push(c));
        },
        None => {
            assert(s[n] == '/');
            assert(first_in(s, class, n) == Some(n));
            lemma_first_in(s, class, n + 1);
            assert forall|j: int| n + 1 <= j < s.len() implies s[j] != '/' by {
                assert(s[j] == c[j - n - 1]);
            }
            assert(first_in(s, class, n + 1) is None);
            assert(s.subrange(n + 1, s.len() as int) =~= c);
            assert(s.subrange(from, n) =~= p.subrange(from, n));
            assert(split_from(s, class, n + 1) =~= seq![c]);
            assert(split_from(s, class, from) =~= split_from(p, class, from).push(c));
        },
    }
}

/// A component that is added to a path is the last of its pieces.
pub proof fn lemma_split_push(p: Seq<char>, c: Seq<char>)
    requires
        !c.contains('/'),
    ensures
        split(p.push('/') + c, CharClass::Only('/')) == split(p, CharClass::Only('/')).push(c),
{
    lemma_split_push_from(p, c, 0);
}

/// Components with slashes between them.
pub open spec fn slashed(comps: Seq<Seq<char>>) -> Seq<char>
    decreases comps.len(),
{
    if comps.len() == 0 {
        Seq::empty()
    } else if comps.len() == 1 {
        comps[0]
    } else {
        slashed(comps.drop_last()).push('/') + comps.last()
    }
}

proof fn lemma_split_slashed(comps: Seq<Seq<char>>)
    requires
        comps.len() > 0,
        forall|i: int| 0 <= i < comps.len() ==> is_plain(#[trigger] comps[i]),
    ensures
        split(slashed(comps), CharClass::Only('/')) == comps,
    decreases comps.len(),
{
    let class = CharClass::Only('/');
    if comps.len() == 1 {
        let c = comps[0];
        assert(is_plain(c));
        lemma_first_in(c, class, 0);
        assert(first_in(c, class, 0) is None) by {
            if let Some(i) = first_in(c, class, 0) {
                assert(c[i] == '/');
                assert(c.contains('/'));
            }
        }
        assert(c.subrange(0, c.len() as int) =~= c);
        assert(split(c, class) =~= comps);
    } else {
        let head = comps.drop_last();
        assert forall|i: int| 0 <= i < head.len() implies is_plain(#[trigger] head[i]) by {
            assert(head[i] == comps[i]);
        }
        lemma_split_slashed(head);
        assert(is_plain(comps[comps.len() - 1]));
        lemma_split_push(slashed(head), comps.last());
        assert(head.push(comps.last()) =~= comps);
    }
}

proof fn lemma_joined_plain(base: Seq<char>, comps: Seq<Seq<char>>)
    requires
        forall|i: int| 0 <= i < comps.len() ==> is_plain(#[trigger] comps[i]),
    ensures
        joined(base, comps) == Some(pushed_all(base, comps)),
    decreases comps.len(),
{
    if comps.len() > 0 {
        assert(is_plain(comps[0]));
        let rest = comps.skip(1);
        assert forall|i: int| 0 <= i < rest.len() implies is_plain(#[trigger] rest[i]) by {
            assert(rest[i] == comps[i + 1]);
        }
        lemma_joined_plain(pushed(base, comps[0]), rest);
    }
}

/// A name of plain components lands below `base` at exactly those components.
pub proof fn lemma_plain_name_lands(base: Seq<char>, comps: Seq<Seq<char>>)
    requires
        comps.len() > 0,
        forall|i: int| 0 <= i < comps.len() ==> is_plain(#[trigger] comps[i]),
    ensures
        safe_join(base, slashed(comps)) == Some(pushed_all(base, comps)),
{
    lemma_split_slashed(comps);
    lemma_joined_plain(base, comps);
}

/// A name with a `..` component is refused, whatever stands around it.
pub proof fn lemma_safe_join_refuses_parent(base: Seq<char>, rel: Seq<char>)
    requires
        split(rel, CharClass::Only('/')).contains(".."@),
    ensures
        safe_join(base, rel) is None,
{
    lemma_joined_refuses(base, split(rel, CharClass::Only('/')));
}

proof fn lemma_joined_refuses(base: Seq<char>, comps: Seq<Seq<char>>)
    requires
        comps.contains(".."@),
    ensures
        joined(base, comps) is None,
    decreases comps.len(),
{
    reveal_strlit(".");
    reveal_strlit("..");
    assert("."@.len() != ".."@.len());
    let k = choose|k: int| 0 <= k < comps.len() && comps[k] == ".."@;
    if k > 0 {
        assert(comps.skip(1)[k - 1] == ".."@);
        if comps[0] != ".."@ {
            if comps[0].len() == 0 || comps[0] == "."@ {
                lemma_joined_refuses(base, comps.skip(1));
            } else {
                lemma_joined_refuses(pushed(base, comps[0]), comps.skip(1));
            }
        }
    }
}

/// The components of `comps` that count: neither empty nor `.`.
pub open spec fn counted(comps: Seq<Seq<char>>) -> Seq<Seq<char>>
    decreases comps.len(),
{
    if comps.len() == 0 {
        Seq::empty()
    } else if comps.last().len() == 0 || comps.last() == "."@ {
        counted(comps.drop_last())
    } else {
        counted(comps.drop_last()).push(comps.last())
    }
}

/// The components of a path.
pub open spec fn parts(p: Seq<char>) -> Seq<Seq<char>> {
    counted(split(p, CharClass::Only('/')))
}

/// The last component of a path, unless it is `..`.
pub open spec fn file_name(p: Seq<char>) -> Option<Seq<char>> {
    if parts(p).len() > 0 && parts(p).last() != ".."@ {
        Some(parts(p).last())
    } else {
        None
    }
}

/// Whether a path starts at the root.
pub open spec fn is_absolute(p: Seq<char>) -> bool {
    p.len() > 0 && p[0] == '/'
}

/// The path above `p`.
pub open spec fn parent(p: Seq<char>) -> Option<Seq<char>> {
    if parts(p).len() == 0 {
        None
    } else {
        Some(
            pushed_all(
                if is_absolute(p) {
                    "/"@
                } else {
                    Seq::empty()
                },
                parts(p).drop_last(),
            ),
        )
    }
}

/// The last position of `c` in the first `n` characters of `s`.
pub open spec fn last_of(s: Seq<char>, c: char, n: nat) -> Option<int>
    decreases n,
{
    if n == 0 || n > s.len() {
        None
    } else if s[n - 1] == c {
        Some(n - 1)
    } else {
        last_of(s, c, (n - 1) as nat)
    }
}

/// A file name without its extension. A name that begins with its only dot has none.
pub open spec fn name_stem(name: Seq<char>) -> Seq<char> {
    match last_of(name, '.', name.len()) {
        Some(i) => if i > 0 {
            name.take(i)
        } else {
            name
        },
        None => name,
    }
}

/// The extension of a file name.
pub open spec fn name_extension(name: Seq<char>) -> Option<Seq<char>> {
    match last_of(name, '.', name.len()) {
        Some(i) => if i > 0 {
            Some(name.skip(i + 1))
        } else {
            None
        },
        None => None,
    }
}

/// The components of a path.
pub fn parts_of(p: &str) -> (r: Vec<String>)
    ensures
        texts(r@) == parts(p@),
{
    let comps = split_of(p, CharClass::Only('/'));
    let ghost all = texts(comps@);
    let mut out: Vec<String> = Vec::new();
    let mut i: usize = 0;
    assert(all.take(0) =~= Seq::empty());
    assert(texts(out@) =~= Seq::empty());
    while i < comps.len()
        invariant
            i <= comps@.len(),
            all == texts(comps@),
            texts(out@) == counted(all.take(i as int)),
        decreases comps.len() - i,
    {
        let c = comps[i].as_str();
        assert(all.take(i + 1).drop_last() =~= all.take(i as int));
        assert(all.take(i + 1).last() == c@);
        if !(c.is_empty() || same(c, ".")) {
            let ghost before = texts(out@);
            out.push(c.to_owned());
            assert(texts(out@) =~= before.push(c@));
        }
        i = i + 1;
    }
    assert(all.take(all.len() as int) =~= all);
    out
}

/// The last component of a path, unless it is `..`.
pub fn file_name_of(p: &str) -> (r: Option<String>)
    ensures
        opt_text(r) == file_name(p@),
{
    let v = parts_of(p);
    if v.len() == 0 {
        return None;
    }
    let last = v[v.len() - 1].as_str();
    assert(last@ == texts(v@).last());
    if same(last, "..") {
        None
    } else {
        Some(last.to_owned())
    }
}

/// The path above `p`.
pub fn parent_of(p: &str) -> (r: Option<String>)
    ensures
        opt_text(r) == parent(p@),
{
    let v = parts_of(p);
    if v.len() == 0 {
        return None;
    }
    let x = chars_of(p);
    let mut out: String = if x.len() > 0 && x[0] == '/' {
        "/".to_owned()
    } else {
        String::new()
    };
    let ghost start = out@;
    let ghost all = texts(v@);
    let mut i: usize = 0;
    assert(all.drop_last().skip(0) =~= all.drop_last());
    while i < v.len() - 1
        invariant
            v@.len() >= 1,
            i <= v@.len() - 1,
            all == texts(v@),
            pushed_all(start, all.drop_last()) == pushed_all(out@, all.drop_last().skip(i as int)),
        decreases v.len() - i,
    {
        assert(all.drop_last().skip(i as int)[0] == v@[i as int]@);
        assert(all.drop_last().skip(i as int).skip(1) =~= all.drop_last().skip(i + 1));
        out = push_of(out.as_str(), v[i].as_str());
        i = i + 1;
    }
    assert(all.drop_last().skip(i as int).len() == 0);
    Some(out)
}

fn last_dot(x: &Vec<char>) -> (r: Option<usize>)
    ensures
        match r {
            Some(i) => last_of(x@, '.', x@.len()) == Some(i as int) && i < x@.len(),
            None => last_of(x@, '.', x@.len()) is None,
        },
{
    let mut n: usize = x.len();
    while n > 0
        invariant
            n <= x@.len(),
            last_of(x@, '.', x@.len()) == last_of(x@, '.', n as nat),
        decreases n,
    {
        if x[n - 1] == '.' {
            return Some(n - 1);
        }
        n = n - 1;
    }
    None
}

/// A file name without its extension.
pub fn name_stem_of(name: &str) -> (r: String)
    ensures
        r@ == name_stem(name@),
{
    let x = chars_of(name);
    match last_dot(&x) {
        Some(i) => {
            if i > 0 {
                assert(x@.subrange(0, i as int) =~= x@.take(i as int));
                text_of(slice_of(&x, 0, i).as_slice())
            } else {
                name.to_owned()
            }
        },
        None => name.to_owned(),
    }
}

/// The extension of a file name.
pub fn name_extension_of(name: &str) -> (r: Option<String>)
    ensures
        opt_text(r) == name_extension(name@),
{
    let x = chars_of(name);
    match last_dot(&x) {
        Some(i) => {
            if i > 0 {
                let n = x.len();
                assert(x@.subrange(i + 1, x@.len() as int) =~= x@.skip(i + 1));
                Some(text_of(slice_of(&x, i + 1, n).as_slice()))
            } else {
                None
            }
        },
        None => None,
    }
}

/// A path without the components that do not count.
pub open spec fn normal(p: Seq<char>) -> Seq<char> {
    pushed_all(
        if is_absolute(p) {
            "/"@
        } else {
            Seq::empty()
        },
        parts(p),
    )
}

/// A path without the components that do not count.
pub fn normal_of(p: &str) -> (r: String)
    ensures
        r@ == normal(p@),
{
    let v = parts_of(p);
    let x = chars_of(p);
    let mut out: String = if x.len() > 0 && x[0] == '/' {
        "/".to_owned()
    } else {
        String::new()
    };
    let ghost start = out@;
    let ghost all = texts(v@);
    let mut i: usize = 0;
    assert(all.skip(0) =~= all);
    while i < v.len()
        invariant
            i <= v@.len(),
            all == texts(v@),
            pushed_all(start, all) == pushed_all(out@, all.skip(i as int)),
        decreases v.len() - i,
    {
        assert(all.skip(i as int)[0] == v@[i as int]@);
        assert(all.skip(i as int).skip(1) =~= all.skip(i + 1));
        out = push_of(out.as_str(), v[i].as_str());
        i = i + 1;
    }
    assert(all.skip(i as int).len() == 0);
    out
}

} // verus!
