//! An in-memory directory tree, and the platform conventions an application tree
//! may follow.

use vstd::prelude::*;

use crate::path::{is_plain, lemma_split_push, push_of, pushed, pushed_all, within};
use crate::text::{
    chars_of, opens, same, slice_of, split, split_of, text_of, texts, CharClass,
};

verus! {

/// Which platform's application layout a tree follows.
#[derive(Debug, Clone, Copy, PartialEq, Eq, Structural)]
pub enum Platform {
    Macos,
    Windows,
    Linux,
}

impl Platform {
    /// Whether applications are `.app` bundle directories.
    pub fn is_bundle(self) -> (r: bool)
        ensures
            r == (self == Platform::Macos),
    {
        match self {
            Platform::Macos => true,
            _ => false,
        }
    }

    /// The platform's name.
    pub open spec fn name(self) -> Seq<char> {
        match self {
            Platform::Macos => "macos"@,
            Platform::Windows => "windows"@,
            Platform::Linux => "linux"@,
        }
    }

    /// The platform's name.
    pub fn as_str(self) -> (r: &'static str)
        ensures
            r@ == self.name(),
    {
        match self {
            Platform::Macos => "macos",
            Platform::Windows => "windows",
            Platform::Linux => "linux",
        }
    }

    /// The platform of that name.
    pub fn parse(name: &str) -> (r: Option<Platform>)
        ensures
            r == platform_named(name@),
    {
        if same(name, "macos") {
            Some(Platform::Macos)
        } else if same(name, "windows") {
            Some(Platform::Windows)
        } else if same(name, "linux") {
            Some(Platform::Linux)
        } else {
            None
        }
    }
}

/// The platform of a name.
pub open spec fn platform_named(name: Seq<char>) -> Option<Platform> {
    if name == "macos"@ {
        Some(Platform::Macos)
    } else if name == "windows"@ {
        Some(Platform::Windows)
    } else if name == "linux"@ {
        Some(Platform::Linux)
    } else {
        None
    }
}

/// The mode of a file that comes without one: read and write for its owner, read for the
/// others.
pub const USUAL_MODE: u32 = 0o644;

/// What stands at a path.
#[derive(Debug)]
pub enum Node {
    Dir,
    /// A file, and its Unix mode.
    File(Vec<u8>, u32),
    Link(String),
}

/// The model of a [`Node`].
pub enum NodeView {
    Dir,
    File(Seq<u8>, u32),
    Link(Seq<char>),
}

impl View for Node {
    type V = NodeView;

    open spec fn view(&self) -> NodeView {
        match *self {
            Node::Dir => NodeView::Dir,
            Node::File(data, mode) => NodeView::File(data@, mode),
            Node::Link(target) => NodeView::Link(target@),
        }
    }
}

/// The model of a tree: what stands at each absolute path, in the order in which
/// the paths came. The root directory is not listed.
pub type Tree = Seq<(Seq<char>, NodeView)>;

/// The place of `p` in the list, at or after `from`.
pub open spec fn place_of(t: Tree, p: Seq<char>, from: int) -> Option<int>
    decreases t.len() - from,
{
    if from < 0 || from >= t.len() {
        None
    } else if t[from].0 == p {
        Some(from)
    } else {
        place_of(t, p, from + 1)
    }
}

/// What stands at the path `p` itself.
pub open spec fn node_at(t: Tree, p: Seq<char>) -> Option<NodeView> {
    match place_of(t, p, 0) {
        Some(i) => Some(t[i].1),
        None => None,
    }
}

/// The path without its last component.
pub open spec fn above(p: Seq<char>) -> Seq<char>
    decreases p.len(),
{
    if p.len() <= 1 {
        "/"@
    } else if p.last() == '/' {
        p.drop_last()
    } else {
        above(p.drop_last())
    }
}

/// How many links one lookup may follow.
pub const MAX_LINKS: u32 = 40;

/// Where `rest` leads from the directory `done`, following at most `hops` links.
pub open spec fn resolved(t: Tree, done: Seq<char>, rest: Seq<Seq<char>>, hops: nat) -> Option<
    Seq<char>,
>
    decreases hops, rest.len(),
{
    if rest.len() == 0 {
        Some(done)
    } else {
        let c = rest[0];
        let tail = rest.skip(1);
        if c.len() == 0 || c == "."@ {
            resolved(t, done, tail, hops)
        } else if c == ".."@ {
            resolved(t, above(done), tail, hops)
        } else {
            let p = pushed(done, c);
            match node_at(t, p) {
                None => None,
                Some(NodeView::Link(target)) => if hops == 0 {
                    None
                } else if target.len() > 0 && target[0] == '/' {
                    resolved(
                        t,
                        "/"@,
                        split(target, CharClass::Only('/')) + tail,
                        (hops - 1) as nat,
                    )
                } else {
                    resolved(t, done, split(target, CharClass::Only('/')) + tail, (hops - 1) as nat)
                },
                Some(_) => resolved(t, p, tail, hops),
            }
        }
    }
}

/// Where the path `p` leads, links followed.
pub open spec fn target_of(t: Tree, p: Seq<char>) -> Option<Seq<char>> {
    resolved(t, "/"@, split(p, CharClass::Only('/')), MAX_LINKS as nat)
}

/// What the path `p` names, links followed.
pub open spec fn found(t: Tree, p: Seq<char>) -> Option<NodeView> {
    match target_of(t, p) {
        Some(q) => if q == "/"@ {
            Some(NodeView::Dir)
        } else {
            node_at(t, q)
        },
        None => None,
    }
}

/// Whether `p` names a file.
pub open spec fn file_at(t: Tree, p: Seq<char>) -> bool {
    found(t, p) matches Some(NodeView::File(_, _))
}

/// Whether `p` names a directory.
pub open spec fn dir_at(t: Tree, p: Seq<char>) -> bool {
    found(t, p) matches Some(NodeView::Dir)
}

/// Whether `p` names anything.
pub open spec fn present(t: Tree, p: Seq<char>) -> bool {
    found(t, p) is Some
}

/// The contents of the file that `p` names.
pub open spec fn contents(t: Tree, p: Seq<char>) -> Option<Seq<u8>> {
    match found(t, p) {
        Some(NodeView::File(data, _)) => Some(data),
        _ => None,
    }
}

/// The mode of the file that `p` names.
pub open spec fn mode_at(t: Tree, p: Seq<char>) -> Option<u32> {
    match found(t, p) {
        Some(NodeView::File(_, mode)) => Some(mode),
        _ => None,
    }
}

/// The name under which `key` stands directly inside the directory `dir`.
pub open spec fn name_in(dir: Seq<char>, key: Seq<char>) -> Option<Seq<char>> {
    let stem = pushed(dir, Seq::empty());
    if opens(key, stem) && is_plain(key.skip(stem.len() as int)) {
        Some(key.skip(stem.len() as int))
    } else {
        None
    }
}

/// The names directly inside the directory `dir`, among the first `n` of the list.
pub open spec fn names_in(t: Tree, dir: Seq<char>, n: nat) -> Seq<Seq<char>>
    decreases n,
{
    if n == 0 || n > t.len() {
        Seq::empty()
    } else {
        match name_in(dir, t[n - 1].0) {
            Some(name) => names_in(t, dir, (n - 1) as nat).push(name),
            None => names_in(t, dir, (n - 1) as nat),
        }
    }
}

/// The listing of the directory that `p` names.
pub open spec fn listing(t: Tree, p: Seq<char>) -> Option<Seq<Seq<char>>> {
    if dir_at(t, p) {
        Some(names_in(t, target_of(t, p)->0, t.len()))
    } else {
        None
    }
}

/// The tree with `n` standing at `p`.
pub open spec fn placed(t: Tree, p: Seq<char>, n: NodeView) -> Tree {
    match place_of(t, p, 0) {
        Some(i) => t.update(i, (p, n)),
        None => t.push((p, n)),
    }
}

/// The tree with a directory at `p`, unless something stands there.
pub open spec fn with_dir(t: Tree, p: Seq<char>) -> Tree {
    if place_of(t, p, 0) is None {
        t.push((p, NodeView::Dir))
    } else {
        t
    }
}

/// The tree with `n` standing where `comps` lead from `done`, and a directory at
/// each path on the way. Empty and `.` components are dropped.
pub open spec fn grown(t: Tree, done: Seq<char>, comps: Seq<Seq<char>>, n: NodeView) -> Tree
    decreases comps.len(),
{
    if comps.len() == 0 {
        if done == "/"@ {
            t
        } else {
            placed(t, done, n)
        }
    } else if comps[0].len() == 0 || comps[0] == "."@ {
        grown(t, done, comps.skip(1), n)
    } else {
        grown(
            if done == "/"@ {
                t
            } else {
                with_dir(t, done)
            },
            pushed(done, comps[0]),
            comps.skip(1),
            n,
        )
    }
}

/// The tree with `n` inserted at the path `p`.
pub open spec fn inserted(t: Tree, p: Seq<char>, n: NodeView) -> Tree {
    grown(t, "/"@, split(p, CharClass::Only('/')), n)
}

/// Whether no link stands anywhere in a tree.
pub open spec fn link_free(t: Tree) -> bool {
    forall|i: int| 0 <= i < t.len() ==> !((#[trigger] t[i]).1 is Link)
}

/// Where `comps` lead from `done`, empty and `.` components dropped.
pub open spec fn led(done: Seq<char>, comps: Seq<Seq<char>>) -> Seq<char>
    decreases comps.len(),
{
    if comps.len() == 0 {
        done
    } else if comps[0].len() == 0 || comps[0] == "."@ {
        led(done, comps.skip(1))
    } else {
        led(pushed(done, comps[0]), comps.skip(1))
    }
}

proof fn lemma_place(t: Tree, p: Seq<char>, from: int)
    requires
        0 <= from <= t.len(),
    ensures
        match place_of(t, p, from) {
            Some(i) => from <= i < t.len() && t[i].0 == p,
            None => forall|i: int| from <= i < t.len() ==> (#[trigger] t[i]).0 != p,
        },
    decreases t.len() - from,
{
    if from < t.len() && t[from].0 != p {
        lemma_place(t, p, from + 1);
    }
}

proof fn lemma_place_in_longer(t: Tree, u: Tree, p: Seq<char>, from: int)
    requires
        0 <= from <= t.len() <= u.len(),
        forall|i: int| 0 <= i < t.len() ==> (#[trigger] u[i]).0 == t[i].0,
        u.len() == t.len() || (u.len() == t.len() + 1 && u.last().0 != p),
    ensures
        place_of(u, p, from) == place_of(t, p, from),
    decreases t.len() - from,
{
    if from < t.len() {
        assert(u[from].0 == t[from].0);
        if t[from].0 != p {
            lemma_place_in_longer(t, u, p, from + 1);
        }
    } else if from < u.len() {
        assert(u[from] == u.last());
        assert(place_of(u, p, from) == place_of(u, p, from + 1));
        assert(place_of(u, p, from + 1) is None);
    }
}

/// A node that is placed stands there, and the others stand as before.
proof fn lemma_placed(t: Tree, p: Seq<char>, n: NodeView, q: Seq<char>)
    ensures
        node_at(placed(t, p, n), p) == Some(n),
        q != p ==> node_at(placed(t, p, n), q) == node_at(t, q),
{
    let u = placed(t, p, n);
    lemma_place(t, p, 0);
    lemma_place(t, q, 0);
    match place_of(t, p, 0) {
        Some(i) => {
            assert forall|k: int| 0 <= k < t.len() implies (#[trigger] u[k]).0 == t[k].0 by {}
            lemma_place_in_longer(t, u, p, 0);
            lemma_place_in_longer(t, u, q, 0);
        },
        None => {
            if q != p {
                lemma_place_in_longer(t, u, q, 0);
            }
            lemma_place(u, p, 0);
            assert(u[t.len() as int] == (p, n));
        },
    }
}

proof fn lemma_with_dir(t: Tree, p: Seq<char>, q: Seq<char>)
    ensures
        node_at(with_dir(t, p), p) is Some,
        node_at(t, q) is Some ==> node_at(with_dir(t, p), q) == node_at(t, q),
        link_free(t) ==> link_free(with_dir(t, p)),
{
    lemma_placed(t, p, NodeView::Dir, q);
    lemma_place(t, q, 0);
}

proof fn lemma_grown(t: Tree, done: Seq<char>, comps: Seq<Seq<char>>, n: NodeView, q: Seq<char>)
    ensures
        led(done, comps) != "/"@ ==> node_at(grown(t, done, comps, n), led(done, comps)) == Some(n),
        node_at(t, q) is Some && q != led(done, comps) ==> node_at(grown(t, done, comps, n), q)
            == node_at(t, q),
        link_free(t) && !(n is Link) ==> link_free(grown(t, done, comps, n)),
    decreases comps.len(),
{
    if comps.len() == 0 {
        lemma_placed(t, done, n, q);
        lemma_place(t, done, 0);
    } else if comps[0].len() == 0 || comps[0] == "."@ {
        lemma_grown(t, done, comps.skip(1), n, q);
    } else {
        let next = if done == "/"@ {
            t
        } else {
            with_dir(t, done)
        };
        lemma_with_dir(t, done, q);
        lemma_grown(next, pushed(done, comps[0]), comps.skip(1), n, q);
    }
}

/// What is grown from a path stands on that path.
proof fn lemma_grown_from(t: Tree, done: Seq<char>, comps: Seq<Seq<char>>, n: NodeView)
    requires
        done != "/"@,
    ensures
        node_at(grown(t, done, comps, n), done) is Some,
    decreases comps.len(),
{
    if comps.len() == 0 {
        lemma_placed(t, done, n, done);
    } else if comps[0].len() == 0 || comps[0] == "."@ {
        lemma_grown_from(t, done, comps.skip(1), n);
    } else {
        lemma_with_dir(t, done, done);
        lemma_grown(with_dir(t, done), pushed(done, comps[0]), comps.skip(1), n, done);
        if done == led(done, comps) {
            lemma_grown(t, done, comps, n, done);
        }
    }
}

proof fn lemma_grown_resolves(
    t: Tree,
    done: Seq<char>,
    comps: Seq<Seq<char>>,
    n: NodeView,
    hops: nat,
)
    requires
        link_free(t),
        !(n is Link),
        done.len() > 0,
        forall|i: int| 0 <= i < comps.len() ==> #[trigger] comps[i] != ".."@,
    ensures
        resolved(grown(t, done, comps, n), done, comps, hops) == Some(led(done, comps)),
    decreases comps.len(),
{
    reveal_strlit("/");
    let u = grown(t, done, comps, n);
    if comps.len() > 0 {
        let rest = comps.skip(1);
        assert forall|i: int| 0 <= i < rest.len() implies #[trigger] rest[i] != ".."@ by {
            assert(rest[i] == comps[i + 1]);
        }
        if comps[0].len() == 0 || comps[0] == "."@ {
            lemma_grown_resolves(t, done, rest, n, hops);
        } else {
            assert(comps[0] != ".."@);
            let p = pushed(done, comps[0]);
            let next = if done == "/"@ {
                t
            } else {
                with_dir(t, done)
            };
            assert(p.len() > 1);
            lemma_with_dir(t, done, done);
            lemma_grown_from(next, p, rest, n);
            lemma_grown_resolves(next, p, rest, n, hops);
            lemma_grown(next, p, rest, n, p);
            lemma_place(u, p, 0);
        }
    }
}

/// What is inserted is found again at its path, and nothing else that stood in the tree is
/// gone or changed. A tree with links, or a path with `..`, may lead elsewhere.
pub proof fn lemma_inserted_is_found(t: Tree, p: Seq<char>, n: NodeView, q: Seq<char>)
    requires
        link_free(t),
        !(n is Link),
        !split(p, CharClass::Only('/')).contains(".."@),
        led("/"@, split(p, CharClass::Only('/'))) != "/"@,
    ensures
        found(inserted(t, p, n), p) == Some(n),
        link_free(inserted(t, p, n)),
        node_at(t, q) is Some && q != led("/"@, split(p, CharClass::Only('/'))) ==> node_at(
            inserted(t, p, n),
            q,
        ) == node_at(t, q),
{
    reveal_strlit("/");
    let comps = split(p, CharClass::Only('/'));
    lemma_grown(t, "/"@, comps, n, q);
    lemma_grown_resolves(t, "/"@, comps, n, MAX_LINKS as nat);
}

/// Whether a path is spelled the way the tree spells it.
pub open spec fn is_canonical(p: Seq<char>) -> bool {
    p.len() > 0 && p.last() != '/' && led("/"@, split(p, CharClass::Only('/'))) == p
}

proof fn lemma_led_push(done: Seq<char>, comps: Seq<Seq<char>>, c: Seq<char>)
    requires
        is_plain(c),
    ensures
        led(done, comps.push(c)) == pushed(led(done, comps), c),
    decreases comps.len(),
{
    let more = comps.push(c);
    if comps.len() == 0 {
        assert(more.skip(1) =~= Seq::empty());
        assert(led(pushed(done, c), more.skip(1)) == pushed(done, c));
    } else {
        assert(more.skip(1) =~= comps.skip(1).push(c));
        if comps[0].len() == 0 || comps[0] == "."@ {
            lemma_led_push(done, comps.skip(1), c);
        } else {
            lemma_led_push(pushed(done, comps[0]), comps.skip(1), c);
        }
    }
}

proof fn lemma_canonical_push(p: Seq<char>, c: Seq<char>)
    requires
        is_canonical(p),
        is_plain(c),
    ensures
        is_canonical(pushed(p, c)),
{
    lemma_split_push(p, c);
    lemma_led_push("/"@, split(p, CharClass::Only('/')), c);
    assert(pushed(p, c).last() == c.last());
    assert(c.contains(c.last()));
}

proof fn lemma_canonical_below(base: Seq<char>, comps: Seq<Seq<char>>)
    requires
        is_canonical(base),
        forall|i: int| 0 <= i < comps.len() ==> is_plain(#[trigger] comps[i]),
    ensures
        is_canonical(pushed_all(base, comps)),
    decreases comps.len(),
{
    if comps.len() > 0 {
        lemma_canonical_push(base, comps[0]);
        assert forall|i: int| 0 <= i < comps.skip(1).len() implies is_plain(
            #[trigger] comps.skip(1)[i],
        ) by {
            assert(comps.skip(1)[i] == comps[i + 1]);
        }
        lemma_canonical_below(pushed(base, comps[0]), comps.skip(1));
    }
}

/// Whether what stood at `q` stands there still, and nothing but a directory came to stand
/// where nothing did.
pub open spec fn undisturbed(t: Tree, u: Tree, q: Seq<char>) -> bool {
    match node_at(t, q) {
        Some(n) => node_at(u, q) == Some(n),
        None => node_at(u, q) matches Some(n) ==> n is Dir,
    }
}

proof fn lemma_grown_elsewhere(
    t: Tree,
    done: Seq<char>,
    comps: Seq<Seq<char>>,
    n: NodeView,
    q: Seq<char>,
)
    requires
        q != led(done, comps),
    ensures
        undisturbed(t, grown(t, done, comps, n), q),
    decreases comps.len(),
{
    if comps.len() == 0 {
        lemma_placed(t, done, n, q);
    } else if comps[0].len() == 0 || comps[0] == "."@ {
        lemma_grown_elsewhere(t, done, comps.skip(1), n, q);
    } else {
        let next = if done == "/"@ {
            t
        } else {
            with_dir(t, done)
        };
        lemma_placed(t, done, NodeView::Dir, q);
        lemma_with_dir(t, done, q);
        lemma_grown_elsewhere(next, pushed(done, comps[0]), comps.skip(1), n, q);
    }
}

/// What is inserted below a directory disturbs nothing that is not.
pub proof fn lemma_inserted_below(
    t: Tree,
    base: Seq<char>,
    p: Seq<char>,
    n: NodeView,
    q: Seq<char>,
)
    requires
        is_canonical(base),
        within(base, p),
        !within(base, q),
    ensures
        undisturbed(t, inserted(t, p, n), q),
{
    let comps = choose|comps: Seq<Seq<char>>| #[trigger]
        pushed_all(base, comps) == p && forall|i: int|
            0 <= i < comps.len() ==> is_plain(#[trigger] comps[i]);
    lemma_canonical_below(base, comps);
    lemma_grown_elsewhere(t, "/"@, split(p, CharClass::Only('/')), n, q);
}

/// An in-memory directory tree.
#[derive(Debug)]
pub struct MemTree {
    pub nodes: Vec<(String, Node)>,
}

impl View for MemTree {
    type V = Tree;

    open spec fn view(&self) -> Tree {
        self.nodes@.map_values(|n: (String, Node)| (n.0@, n.1@))
    }
}

impl Default for MemTree {
    fn default() -> (r: MemTree)
        ensures
            r@ == Seq::<(Seq<char>, NodeView)>::empty(),
    {
        let r = MemTree { nodes: Vec::new() };
        assert(r@ =~= Seq::empty());
        r
    }
}

/// The path without its last component.
pub fn above_of(p: &str) -> (r: String)
    ensures
        r@ == above(p@),
{
    let x = chars_of(p);
    let mut n: usize = x.len();
    assert(x@.take(n as int) =~= x@);
    while n > 1 && x[n - 1] != '/'
        invariant
            n <= x@.len(),
            above(x@) == above(x@.take(n as int)),
        decreases n,
    {
        assert(x@.take(n as int).drop_last() =~= x@.take(n - 1));
        n = n - 1;
    }
    if n <= 1 {
        return "/".to_owned();
    }
    assert(x@.take(n as int).drop_last() =~= x@.subrange(0, n - 1));
    text_of(slice_of(&x, 0, n - 1).as_slice())
}

impl MemTree {
    fn index_of(&self, p: &String) -> (r: Option<usize>)
        ensures
            match r {
                Some(i) => place_of(self@, p@, 0) == Some(i as int) && i < self.nodes@.len(),
                None => place_of(self@, p@, 0) is None,
            },
    {
        let mut i: usize = 0;
        while i < self.nodes.len()
            invariant
                i <= self.nodes@.len(),
                place_of(self@, p@, 0) == place_of(self@, p@, i as int),
            decreases self.nodes.len() - i,
        {
            assert(self@[i as int].0 == self.nodes@[i as int].0@);
            if self.nodes[i].0 == *p {
                return Some(i);
            }
            i = i + 1;
        }
        None
    }

    fn resolve(&self, p: &str) -> (r: Option<String>)
        ensures
            crate::text::opt_text(r) == target_of(self@, p@),
    {
        self.resolve_from("/".to_owned(), split_of(p, CharClass::Only('/')), MAX_LINKS)
    }

    fn resolve_from(&self, start: String, comps: Vec<String>, hops: u32) -> (r: Option<String>)
        ensures
            crate::text::opt_text(r) == resolved(self@, start@, texts(comps@), hops as nat),
        decreases hops,
    {
        let mut done: String = start;
        let ghost all = texts(comps@);
        let mut i: usize = 0;
        assert(all.skip(0) =~= all);
        while i < comps.len()
            invariant
                i <= comps@.len(),
                all == texts(comps@),
                resolved(self@, start@, all, hops as nat) == resolved(
                    self@,
                    done@,
                    all.skip(i as int),
                    hops as nat,
                ),
            decreases comps.len() - i,
        {
            let c = comps[i].as_str();
            assert(all.skip(i as int)[0] == c@);
            assert(all.skip(i as int).skip(1) =~= all.skip(i + 1));
            if c.is_empty() || same(c, ".") {
            } else if same(c, "..") {
                done = above_of(done.as_str());
            } else {
                let p = push_of(done.as_str(), c);
                match self.index_of(&p) {
                    None => {
                        return None;
                    },
                    Some(k) => {
                        assert(self@[k as int].1 == self.nodes@[k as int].1@);
                        match &self.nodes[k].1 {
                            Node::Link(target) => {
                                if hops == 0 {
                                    return None;
                                }
                                let mut next = split_of(target.as_str(), CharClass::Only('/'));
                                let ghost head = texts(next@);
                                let mut j: usize = i + 1;
                                assert(all.subrange(i + 1, i + 1) =~= Seq::empty());
                                while j < comps.len()
                                    invariant
                                        i + 1 <= j <= comps@.len(),
                                        all == texts(comps@),
                                        texts(next@) == head + all.subrange(i + 1, j as int),
                                    decreases comps.len() - j,
                                {
                                    let ghost before = texts(next@);
                                    let copy = comps[j].clone();
                                    next.push(copy);
                                    assert(texts(next@) =~= before.push(copy@));
                                    assert(texts(next@) =~= head + all.subrange(i + 1, j + 1));
                                    j = j + 1;
                                }
                                assert(all.subrange(i + 1, all.len() as int) =~= all.skip(i + 1));
                                let x = chars_of(target.as_str());
                                let from = if x.len() > 0 && x[0] == '/' {
                                    "/".to_owned()
                                } else {
                                    done
                                };
                                return self.resolve_from(from, next, hops - 1);
                            },
                            _ => {
                                done = p;
                            },
                        }
                    },
                }
            }
            i = i + 1;
        }
        assert(all.skip(i as int).len() == 0);
        Some(done)
    }

    fn lookup(&self, p: &str) -> (r: Option<&Node>)
        ensures
            match r {
                Some(n) => found(self@, p@) == Some(n@),
                None => found(self@, p@) is None || found(self@, p@) == Some(NodeView::Dir),
            },
            r is None ==> (found(self@, p@) is Some <==> target_of(self@, p@) == Some("/"@)),
    {
        match self.resolve(p) {
            Some(q) => {
                if same(q.as_str(), "/") {
                    return None;
                }
                match self.index_of(&q) {
                    Some(k) => {
                        assert(self@[k as int].1 == self.nodes@[k as int].1@);
                        Some(&self.nodes[k].1)
                    },
                    None => None,
                }
            },
            None => None,
        }
    }

    fn is_root(&self, p: &str) -> (r: bool)
        ensures
            r == (target_of(self@, p@) == Some("/"@)),
    {
        match self.resolve(p) {
            Some(q) => same(q.as_str(), "/"),
            None => false,
        }
    }

    /// Whether `p` names a file.
    pub fn is_file(&self, p: &str) -> (r: bool)
        ensures
            r == file_at(self@, p@),
    {
        match self.lookup(p) {
            Some(Node::File(_, _)) => true,
            _ => false,
        }
    }

    /// Whether `p` names a directory.
    pub fn is_dir(&self, p: &str) -> (r: bool)
        ensures
            r == dir_at(self@, p@),
    {
        match self.lookup(p) {
            Some(Node::Dir) => true,
            Some(_) => false,
            None => self.is_root(p),
        }
    }

    /// Whether `p` names anything.
    pub fn has(&self, p: &str) -> (r: bool)
        ensures
            r == present(self@, p@),
    {
        match self.lookup(p) {
            Some(_) => true,
            None => self.is_root(p),
        }
    }

    /// The contents of the file that `p` names.
    pub fn read(&self, p: &str) -> (r: Option<&[u8]>)
        ensures
            crate::bytes::opt_bytes(r) == contents(self@, p@),
    {
        match self.lookup(p) {
            Some(Node::File(data, _)) => Some(data.as_slice()),
            _ => None,
        }
    }

    /// The mode of the file that `p` names.
    pub fn mode(&self, p: &str) -> (r: Option<u32>)
        ensures
            r == mode_at(self@, p@),
    {
        match self.lookup(p) {
            Some(Node::File(_, mode)) => Some(*mode),
            _ => None,
        }
    }

    /// The listing of the directory that `p` names.
    pub fn read_dir(&self, p: &str) -> (r: Option<Vec<String>>)
        ensures
            match r {
                Some(v) => listing(self@, p@) == Some(texts(v@)),
                None => listing(self@, p@) is None,
            },
    {
        if !self.is_dir(p) {
            return None;
        }
        let dir = match self.resolve(p) {
            Some(d) => d,
            None => {
                return None;
            },
        };
        let mut out: Vec<String> = Vec::new();
        let mut i: usize = 0;
        assert(texts(out@) =~= Seq::empty());
        while i < self.nodes.len()
            invariant
                i <= self.nodes@.len(),
                self@.len() == self.nodes@.len(),
                texts(out@) == names_in(self@, dir@, i as nat),
            decreases self.nodes.len() - i,
        {
            assert(self@[i as int].0 == self.nodes@[i as int].0@);
            match name_in_of(dir.as_str(), self.nodes[i].0.as_str()) {
                Some(name) => {
                    let ghost before = texts(out@);
                    out.push(name);
                    assert(texts(out@) =~= before.push(name@));
                },
                None => {},
            }
            i = i + 1;
        }
        Some(out)
    }

    fn place(&mut self, p: String, n: Node)
        ensures
            final(self)@ == placed(old(self)@, p@, n@),
    {
        match self.index_of(&p) {
            Some(i) => {
                let ghost before = self@;
                self.nodes.set(i, (p, n));
                assert(self@ =~= before.update(i as int, (p@, n@)));
            },
            None => {
                let ghost before = self@;
                self.nodes.push((p, n));
                assert(self@ =~= before.push((p@, n@)));
            },
        }
    }

    /// Inserts `n` at the path `p`, with the directories on the way.
    pub fn insert(&mut self, p: &str, n: Node)
        ensures
            final(self)@ == inserted(old(self)@, p@, n@),
    {
        let comps = split_of(p, CharClass::Only('/'));
        let ghost all = texts(comps@);
        let mut done: String = "/".to_owned();
        let mut i: usize = 0;
        assert(all.skip(0) =~= all);
        while i < comps.len()
            invariant
                i <= comps@.len(),
                all == texts(comps@),
                inserted(old(self)@, p@, n@) == grown(self@, done@, all.skip(i as int), n@),
            decreases comps.len() - i,
        {
            let c = comps[i].as_str();
            assert(all.skip(i as int)[0] == c@);
            assert(all.skip(i as int).skip(1) =~= all.skip(i + 1));
            if c.is_empty() || same(c, ".") {
            } else {
                if !same(done.as_str(), "/") {
                    if self.index_of(&done).is_none() {
                        let ghost before = self@;
                        let copy = done.clone();
                        self.nodes.push((copy, Node::Dir));
                        assert(self@ =~= before.push((done@, NodeView::Dir)));
                    }
                }
                done = push_of(done.as_str(), c);
            }
            i = i + 1;
        }
        assert(all.skip(i as int).len() == 0);
        if !same(done.as_str(), "/") {
            self.place(done, n);
        }
    }

    /// Inserts a directory.
    pub fn insert_dir(&mut self, p: &str)
        ensures
            final(self)@ == inserted(old(self)@, p@, NodeView::Dir),
    {
        self.insert(p, Node::Dir);
    }

    /// Inserts a file with the usual mode.
    pub fn insert_file(&mut self, p: &str, data: Vec<u8>)
        ensures
            final(self)@ == inserted(old(self)@, p@, NodeView::File(data@, USUAL_MODE)),
    {
        self.insert(p, Node::File(data, USUAL_MODE));
    }

    /// Inserts a file with its mode.
    pub fn insert_file_with_mode(&mut self, p: &str, data: Vec<u8>, mode: u32)
        ensures
            final(self)@ == inserted(old(self)@, p@, NodeView::File(data@, mode)),
    {
        self.insert(p, Node::File(data, mode));
    }

    /// Inserts a symbolic link.
    pub fn insert_symlink(&mut self, p: &str, target: &str)
        ensures
            final(self)@ == inserted(old(self)@, p@, NodeView::Link(target@)),
    {
        self.insert(p, Node::Link(target.to_owned()));
    }
}

fn name_in_of(dir: &str, key: &str) -> (r: Option<String>)
    ensures
        crate::text::opt_text(r) == name_in(dir@, key@),
{
    let stem = push_of(dir, "");
    proof {
        reveal_strlit("");
        assert(""@ =~= Seq::empty());
    }
    if !crate::text::starts_with(key, stem.as_str()) {
        return None;
    }
    let x = chars_of(key);
    let n = chars_of(stem.as_str()).len();
    let name = text_of(slice_of(&x, n, x.len()).as_slice());
    assert(name@ =~= key@.skip(stem@.len() as int));
    if crate::path::is_plain_name(name.as_str()) {
        Some(name)
    } else {
        None
    }
}

} // verus!
