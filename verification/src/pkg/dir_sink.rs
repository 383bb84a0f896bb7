//! The rules by which an unpacked payload is written to a real directory.
//!
//! Symlinks are deliberately created *last*. A package that ships `lib -> /etc` followed
//! by `lib/passwd` would otherwise have its second entry written through the first,
//! outside the extraction root. Holding the links back means every file lands in a
//! directory that was created for this payload.

use vstd::prelude::*;

use crate::path::{is_absolute, parent, parent_of, parts, parts_of};
use crate::text::{chars_of, opt_text, same, split, split_of, texts, CharClass};

verus! {

/// Whether a relative path is written with a leading `.`.
pub open spec fn leads_with_dot(p: Seq<char>) -> bool {
    split(p, CharClass::Only('/'))[0] == "."@
}

/// The components of a path, the root or a leading `.` among them.
pub open spec fn steps(p: Seq<char>) -> Seq<Seq<char>> {
    (if is_absolute(p) {
        seq!["/"@]
    } else if leads_with_dot(p) {
        seq!["."@]
    } else {
        Seq::empty()
    }) + parts(p)
}

/// Whether `p` lies in `root` or is it, component by component.
pub open spec fn lies_in(root: Seq<char>, p: Seq<char>) -> bool {
    steps(root).len() <= steps(p).len() && steps(p).take(steps(root).len() as int) == steps(root)
}

fn steps_of(p: &str) -> (r: Vec<String>)
    ensures
        texts(r@) == steps(p@),
{
    let x = chars_of(p);
    let first = split_of(p, CharClass::Only('/'));
    assert(texts(first@)[0] == first@[0]@);
    let mut out: Vec<String> = Vec::new();
    if x.len() > 0 && x[0] == '/' {
        out.push("/".to_owned());
        assert(texts(out@) =~= seq!["/"@]);
    } else if same(first[0].as_str(), ".") {
        out.push(".".to_owned());
        assert(texts(out@) =~= seq!["."@]);
    } else {
        assert(texts(out@) =~= Seq::empty());
    }
    let ghost head = texts(out@);
    let mut rest = parts_of(p);
    let ghost tail = texts(rest@);
    out.append(&mut rest);
    assert(texts(out@) =~= head + tail);
    out
}

/// Whether `p` lies in `root` or is it.
pub fn lies_in_of(root: &str, p: &str) -> (r: bool)
    ensures
        r == lies_in(root@, p@),
{
    let a = steps_of(root);
    let b = steps_of(p);
    let ghost sa = texts(a@);
    let ghost sb = texts(b@);
    if a.len() > b.len() {
        return false;
    }
    let mut i: usize = 0;
    while i < a.len()
        invariant
            i <= a@.len() <= b@.len(),
            sa == texts(a@),
            sb == texts(b@),
            sa == steps(root@),
            sb == steps(p@),
            forall|k: int| 0 <= k < i ==> sa[k] == sb[k],
        decreases a.len() - i,
    {
        assert(sa[i as int] == a@[i as int]@);
        assert(sb[i as int] == b@[i as int]@);
        if !same(a[i].as_str(), b[i].as_str()) {
            assert(sb.take(sa.len() as int)[i as int] != sa[i as int]);
            return false;
        }
        i = i + 1;
    }
    assert(sb.take(sa.len() as int) =~= sa);
    true
}

/// The permissions that an entry is given: never group- or world-writable, whatever the
/// package asked for, since the tree lands in a cache that the user's own tools will read.
pub open spec fn safe_mode(mode: u32) -> u32 {
    mode & 0x1ed
}

/// What writing an entry takes.
#[derive(Debug)]
pub enum Write {
    /// Nothing: the entry lies outside the root.
    Skip,
    /// Create this directory and those above it.
    Dir(String),
    /// Create the directories up to `parent`, where there is one, and write the file.
    File { parent: Option<String>, mode: u32 },
    /// Create the directories up to `parent`, where there is one. The link itself comes
    /// last.
    Link { parent: Option<String> },
}

/// The view of a [`Write`].
pub enum WriteView {
    Skip,
    Dir(Seq<char>),
    File { parent: Option<Seq<char>>, mode: u32 },
    Link { parent: Option<Seq<char>> },
}

impl View for Write {
    type V = WriteView;

    open spec fn view(&self) -> WriteView {
        match *self {
            Write::Skip => WriteView::Skip,
            Write::Dir(p) => WriteView::Dir(p@),
            Write::File { parent, mode } => WriteView::File { parent: opt_text(parent), mode },
            Write::Link { parent } => WriteView::Link { parent: opt_text(parent) },
        }
    }
}

/// What a directory takes.
pub open spec fn dir_write(root: Seq<char>, path: Seq<char>) -> WriteView {
    if lies_in(root, path) {
        WriteView::Dir(path)
    } else {
        WriteView::Skip
    }
}

/// What a file takes.
pub open spec fn file_write(root: Seq<char>, path: Seq<char>, mode: u32) -> WriteView {
    if lies_in(root, path) {
        WriteView::File { parent: parent(path), mode: safe_mode(mode) }
    } else {
        WriteView::Skip
    }
}

/// What a link takes.
pub open spec fn link_write(root: Seq<char>, path: Seq<char>) -> WriteView {
    if lies_in(root, path) {
        WriteView::Link { parent: parent(path) }
    } else {
        WriteView::Skip
    }
}

/// A payload on its way to a real directory.
#[derive(Debug)]
pub struct DirSink {
    pub root: String,
    /// Held back for [`DirSink::finish`], see the module note.
    pub links: Vec<(String, String)>,
}

/// The models of a list of links.
pub open spec fn link_views(v: Seq<(String, String)>) -> Seq<(Seq<char>, Seq<char>)> {
    v.map_values(|l: (String, String)| (l.0@, l.1@))
}

impl DirSink {
    /// Extract under `root`.
    pub fn new(root: &str) -> (r: DirSink)
        ensures
            r.root@ == root@,
            link_views(r.links@) == Seq::<(Seq<char>, Seq<char>)>::empty(),
    {
        let r = DirSink { root: root.to_owned(), links: Vec::new() };
        assert(link_views(r.links@) =~= Seq::empty());
        r
    }

    /// True if `path` is inside the extraction root. Paths arrive sanitised, so
    /// this only ever fires on a caller mistake — but the cost of being wrong
    /// here is writing outside the cache.
    fn contains(&self, path: &str) -> (r: bool)
        ensures
            r == lies_in(self.root@, path@),
    {
        lies_in_of(self.root.as_str(), path)
    }

    /// What a directory takes.
    pub fn dir(&self, path: &str) -> (r: Write)
        ensures
            r@ == dir_write(self.root@, path@),
    {
        if self.contains(path) {
            Write::Dir(path.to_owned())
        } else {
            Write::Skip
        }
    }

    /// What a file takes.
    pub fn file(&self, path: &str, mode: u32) -> (r: Write)
        ensures
            r@ == file_write(self.root@, path@, mode),
    {
        if self.contains(path) {
            Write::File { parent: parent_of(path), mode: mode & 0x1ed }
        } else {
            Write::Skip
        }
    }

    /// What a link takes. It is held back.
    pub fn symlink(&mut self, path: &str, target: &str) -> (r: Write)
        ensures
            final(self).root == old(self).root,
            r@ == link_write(old(self).root@, path@),
            match r {
                Write::Skip => !lies_in(old(self).root@, path@) && link_views(final(self).links@)
                    == link_views(old(self).links@),
                Write::Link { parent: up } => lies_in(old(self).root@, path@) && opt_text(up)
                    == parent(path@) && link_views(final(self).links@) == link_views(
                    old(self).links@,
                ).push((path@, target@)),
                _ => false,
            },
    {
        if self.contains(path) {
            let ghost before = link_views(self.links@);
            self.links.push((path.to_owned(), target.to_owned()));
            assert(link_views(self.links@) =~= before.push((path@, target@)));
            Write::Link { parent: parent_of(path) }
        } else {
            Write::Skip
        }
    }

    /// Where the first link that is still held back is to stand.
    pub fn next_link(&self) -> (r: Option<&str>)
        ensures
            match r {
                Some(path) => self.links@.len() > 0 && path@ == self.links@[0].0@,
                None => self.links@.len() == 0,
            },
    {
        if self.links.len() == 0 {
            None
        } else {
            Some(self.links[0].0.as_str())
        }
    }

    /// Lets go of the first link, now that everything else is written: its path and its
    /// target, unless its path is `taken`. What is there was written from this same payload.
    pub fn finish(&mut self, taken: bool) -> (r: Option<(String, String)>)
        requires
            old(self).links@.len() > 0,
        ensures
            final(self).root == old(self).root,
            final(self).links@ == old(self).links@.skip(1),
            r == if taken {
                None
            } else {
                Some(old(self).links@[0])
            },
    {
        let link = self.links.remove(0);
        assert(self.links@ =~= old(self).links@.skip(1));
        if taken {
            None
        } else {
            Some(link)
        }
    }
}

/// No mode that is given lets the group or others write, and the owner's bits stay.
pub proof fn lemma_safe_mode(mode: u32)
    ensures
        safe_mode(mode) & 0x12 == 0,
        safe_mode(mode) & 0x1c0 == mode & 0x1c0,
        safe_mode(mode) <= 0x1ff,
{
    assert((mode & 0x1ed) & 0x12 == 0 && (mode & 0x1ed) & 0x1c0 == mode & 0x1c0 && (mode & 0x1ed)
        <= 0x1ff) by (bit_vector);
}

/// A root lies in itself, and a path in it lies in everything that it lies in.
pub proof fn lemma_lies_in(root: Seq<char>, mid: Seq<char>, p: Seq<char>)
    ensures
        lies_in(root, root),
        lies_in(root, mid) && lies_in(mid, p) ==> lies_in(root, p),
{
    assert(steps(root).take(steps(root).len() as int) =~= steps(root));
    if lies_in(root, mid) && lies_in(mid, p) {
        let n = steps(root).len() as int;
        assert(steps(p).take(n) =~= steps(p).take(steps(mid).len() as int).take(n));
    }
}

} // verus!
