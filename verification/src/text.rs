//! Text as a sequence of characters.
//!
//! A `String` is modelled by its `Seq<char>` view. The functions here are the
//! handful of string operations the rest of the library needs, each stated over
//! that view.

use vstd::prelude::*;
use vstd::utf8::*;

verus! {

/// `String::push` appends one character.
pub assume_specification[ String::push ](s: &mut String, c: char)
    ensures
        final(s)@ == old(s)@.push(c),
;

/// The views of a list of strings.
pub open spec fn texts(v: Seq<String>) -> Seq<Seq<char>> {
    v.map_values(|s: String| s@)
}

/// The view of an optional string.
pub open spec fn opt_text(o: Option<String>) -> Option<Seq<char>> {
    match o {
        Some(s) => Some(s@),
        None => None,
    }
}

/// A copy of an optional string.
pub fn copy_opt(o: &Option<String>) -> (r: Option<String>)
    ensures
        opt_text(r) == opt_text(*o),
{
    match o {
        Some(s) => Some(s.clone()),
        None => None,
    }
}

/// The first of two optional texts that is there.
pub open spec fn or_text(a: Option<Seq<char>>, b: Option<Seq<char>>) -> Option<Seq<char>> {
    match a {
        Some(s) => Some(s),
        None => b,
    }
}

/// The first of two optional strings that is there.
pub fn or_opt(a: Option<String>, b: Option<String>) -> (r: Option<String>)
    ensures
        opt_text(r) == or_text(opt_text(a), opt_text(b)),
{
    match a {
        Some(s) => Some(s),
        None => b,
    }
}

/// Whether an optional string is exactly `s`.
pub fn is_text(o: &Option<String>, s: &str) -> (r: bool)
    ensures
        r == (opt_text(*o) == Some(s@)),
{
    match o {
        Some(t) => same(t.as_str(), s),
        None => false,
    }
}

/// The characters of `s`.
pub fn chars_of(s: &str) -> (r: Vec<char>)
    ensures
        r@ == s@,
{
    broadcast use vstd::string::group_string_axioms;

    let mut out: Vec<char> = Vec::new();
    for c in it: s.chars()
        invariant
            it.seq() == s@,
            out@ == s@.take(it.index() as int),
    {
        out.push(c);
    }
    assert(s@.take(s@.len() as int) == s@);
    out
}

/// The string made of `v`.
pub fn text_of(v: &[char]) -> (r: String)
    ensures
        r@ == v@,
{
    let mut out: String = String::new();
    let mut i: usize = 0;
    while i < v.len()
        invariant
            i <= v@.len(),
            out@ == v@.take(i as int),
        decreases v.len() - i,
    {
        out.push(v[i]);
        assert(v@.take(i as int).push(v@[i as int]) =~= v@.take(i + 1));
        i = i + 1;
    }
    assert(v@.take(v@.len() as int) == v@);
    out
}

/// A copy of `v[from..to]`.
pub fn slice_of(v: &Vec<char>, from: usize, to: usize) -> (r: Vec<char>)
    requires
        from <= to <= v@.len(),
    ensures
        r@ == v@.subrange(from as int, to as int),
{
    let mut out: Vec<char> = Vec::new();
    let mut i: usize = from;
    while i < to
        invariant
            from <= i <= to <= v@.len(),
            out@ == v@.subrange(from as int, i as int),
        decreases to - i,
    {
        out.push(v[i]);
        assert(v@.subrange(from as int, i as int).push(v@[i as int]) =~= v@.subrange(from as int, i + 1));
        i = i + 1;
    }
    out
}

/// The concatenation of two texts.
pub fn concat(a: &str, b: &str) -> (r: String)
    ensures
        r@ == a@ + b@,
{
    let mut out: String = a.to_owned();
    out.append(b);
    out
}

/// The concatenation of three texts.
pub fn concat3(a: &str, b: &str, c: &str) -> (r: String)
    ensures
        r@ == a@ + b@ + c@,
{
    let mut out: String = a.to_owned();
    out.append(b);
    out.append(c);
    out
}

/// Whether two texts are equal.
pub fn same(a: &str, b: &str) -> (r: bool)
    ensures
        r == (a@ == b@),
{
    let x: String = a.to_owned();
    let y: String = b.to_owned();
    x == y
}

/// Whether one of `list` is `s`.
pub fn any_same(list: &Vec<String>, s: &str) -> (r: bool)
    ensures
        r == texts(list@).contains(s@),
{
    let mut i: usize = 0;
    while i < list.len()
        invariant
            i <= list@.len(),
            forall|j: int| 0 <= j < i ==> texts(list@)[j] != s@,
        decreases list.len() - i,
    {
        if same(list[i].as_str(), s) {
            assert(texts(list@)[i as int] == s@);
            return true;
        }
        i = i + 1;
    }
    false
}

/// Whether `p` opens `s`.
pub open spec fn opens(s: Seq<char>, p: Seq<char>) -> bool {
    p.len() <= s.len() && s.take(p.len() as int) == p
}

/// Whether `p` closes `s`.
pub open spec fn closes(s: Seq<char>, p: Seq<char>) -> bool {
    p.len() <= s.len() && s.skip(s.len() - p.len()) == p
}

/// Whether `p` stands in `s` at `i`.
pub open spec fn stands_at(s: Seq<char>, p: Seq<char>, i: int) -> bool {
    0 <= i && i + p.len() <= s.len() && s.subrange(i, i + p.len()) == p
}

/// Whether `p` stands somewhere in `s`.
pub open spec fn holds(s: Seq<char>, p: Seq<char>) -> bool {
    exists|i: int| stands_at(s, p, i)
}

fn stands_here(x: &Vec<char>, p: &Vec<char>, at: usize) -> (r: bool)
    ensures
        r == stands_at(x@, p@, at as int),
{
    if at > x.len() || p.len() > x.len() - at {
        return false;
    }
    let mut i: usize = 0;
    while i < p.len()
        invariant
            i <= p@.len(),
            at + p@.len() <= x.len(),
            forall|j: int| 0 <= j < i ==> x@[at + j] == p@[j],
        decreases p.len() - i,
    {
        if x[at + i] != p[i] {
            assert(x@.subrange(at as int, at + p@.len())[i as int] != p@[i as int]);
            return false;
        }
        i = i + 1;
    }
    assert(x@.subrange(at as int, at + p@.len()) =~= p@);
    true
}

/// Whether `s` starts with `p`.
pub fn starts_with(s: &str, p: &str) -> (r: bool)
    ensures
        r == opens(s@, p@),
{
    let x = chars_of(s);
    let y = chars_of(p);
    assert(p@.len() <= s@.len() ==> s@.subrange(0, p@.len() as int) =~= s@.take(p@.len() as int));
    stands_here(&x, &y, 0)
}

/// Whether `s` ends with `p`.
pub fn ends_with(s: &str, p: &str) -> (r: bool)
    ensures
        r == closes(s@, p@),
{
    let x = chars_of(s);
    let y = chars_of(p);
    if y.len() > x.len() {
        return false;
    }
    assert(s@.subrange(s@.len() - p@.len(), s@.len() as int) =~= s@.skip(s@.len() - p@.len()));
    stands_here(&x, &y, x.len() - y.len())
}

/// The first position at or after `from` where `p` stands in `s`.
pub open spec fn first_stand(s: Seq<char>, p: Seq<char>, from: int) -> Option<int>
    decreases s.len() + 1 - from,
{
    if from < 0 || from > s.len() {
        None
    } else if stands_at(s, p, from) {
        Some(from)
    } else {
        first_stand(s, p, from + 1)
    }
}

/// `first_stand` finds a place exactly when there is one.
pub proof fn lemma_first_stand(s: Seq<char>, p: Seq<char>, from: int)
    requires
        0 <= from,
    ensures
        match first_stand(s, p, from) {
            Some(i) => from <= i && stands_at(s, p, i) && forall|j: int|
                from <= j < i ==> !stands_at(s, p, j),
            None => forall|j: int| from <= j ==> !stands_at(s, p, j),
        },
    decreases s.len() + 1 - from,
{
    if from <= s.len() && !stands_at(s, p, from) {
        lemma_first_stand(s, p, from + 1);
    }
}

/// The first position at or after `from` where `p` stands in `x`.
pub fn find_from(x: &Vec<char>, p: &Vec<char>, from: usize) -> (r: Option<usize>)
    ensures
        match r {
            Some(i) => first_stand(x@, p@, from as int) == Some(i as int),
            None => first_stand(x@, p@, from as int) is None,
        },
{
    let mut i: usize = from;
    while i < x.len()
        invariant
            from <= i,
            i <= x@.len() || i == from,
            first_stand(x@, p@, from as int) == first_stand(x@, p@, i as int),
        decreases x.len() - i,
    {
        if stands_here(x, p, i) {
            return Some(i);
        }
        i = i + 1;
    }
    if i == x.len() && stands_here(x, p, i) {
        return Some(i);
    }
    assert(first_stand(x@, p@, i + 1) is None);
    None
}

/// Whether `p` occurs in `s`.
pub fn contains(s: &str, p: &str) -> (r: bool)
    ensures
        r == holds(s@, p@),
{
    let x = chars_of(s);
    let y = chars_of(p);
    proof {
        lemma_first_stand(s@, p@, 0);
    }
    match find_from(&x, &y, 0) {
        Some(_) => true,
        None => {
            assert forall|i: int| !stands_at(s@, p@, i) by {}
            false
        },
    }
}

/// A set of characters.
#[derive(Clone, Copy)]
pub enum CharClass {
    /// Unicode white space.
    White,
    /// The one character.
    Only(char),
    /// NUL and space, the padding of a fixed-width field.
    NulOrSpace,
    /// A comma, a semicolon or white space.
    ListBreak,
    /// A slash or a backslash.
    Slashes,
}

/// The characters with Unicode's `White_Space` property.
pub open spec fn is_white(c: char) -> bool {
    ||| '\u{9}' <= c <= '\u{d}'
    ||| c == ' '
    ||| c == '\u{85}'
    ||| c == '\u{a0}'
    ||| c == '\u{1680}'
    ||| '\u{2000}' <= c <= '\u{200a}'
    ||| c == '\u{2028}'
    ||| c == '\u{2029}'
    ||| c == '\u{202f}'
    ||| c == '\u{205f}'
    ||| c == '\u{3000}'
}

impl CharClass {
    /// Whether `c` belongs to the class.
    pub open spec fn has(self, c: char) -> bool {
        match self {
            CharClass::White => is_white(c),
            CharClass::Only(d) => c == d,
            CharClass::NulOrSpace => c == '\0' || c == ' ',
            CharClass::ListBreak => c == ',' || c == ';' || is_white(c),
            CharClass::Slashes => c == '/' || c == '\\',
        }
    }

    /// Whether `c` belongs to the class.
    pub fn test(self, c: char) -> (r: bool)
        ensures
            r == self.has(c),
    {
        let white = ('\u{9}' <= c && c <= '\u{d}') || c == ' ' || c == '\u{85}' || c == '\u{a0}'
            || c == '\u{1680}' || ('\u{2000}' <= c && c <= '\u{200a}') || c == '\u{2028}' || c
            == '\u{2029}' || c == '\u{202f}' || c == '\u{205f}' || c == '\u{3000}';
        match self {
            CharClass::White => white,
            CharClass::Only(d) => c == d,
            CharClass::NulOrSpace => c == '\0' || c == ' ',
            CharClass::ListBreak => c == ',' || c == ';' || white,
            CharClass::Slashes => c == '/' || c == '\\',
        }
    }
}

/// `s` without its leading characters of `class`.
pub open spec fn trim_start(s: Seq<char>, class: CharClass) -> Seq<char>
    decreases s.len(),
{
    if s.len() > 0 && class.has(s[0]) {
        trim_start(s.skip(1), class)
    } else {
        s
    }
}

/// `s` without its trailing characters of `class`.
pub open spec fn trim_end(s: Seq<char>, class: CharClass) -> Seq<char>
    decreases s.len(),
{
    if s.len() > 0 && class.has(s.last()) {
        trim_end(s.drop_last(), class)
    } else {
        s
    }
}

/// `s` without the characters of `class` at either end.
pub open spec fn trim(s: Seq<char>, class: CharClass) -> Seq<char> {
    trim_end(trim_start(s, class), class)
}

/// [`trim_start`] on a character list.
pub fn trim_start_of(x: &Vec<char>, class: CharClass) -> (r: Vec<char>)
    ensures
        r@ == trim_start(x@, class),
{
    let mut i: usize = 0;
    assert(x@.skip(0) =~= x@);
    while i < x.len() && class.test(x[i])
        invariant
            i <= x@.len(),
            trim_start(x@, class) == trim_start(x@.skip(i as int), class),
        decreases x.len() - i,
    {
        assert(x@.skip(i as int).skip(1) =~= x@.skip(i + 1));
        i = i + 1;
    }
    assert(x@.subrange(i as int, x@.len() as int) =~= x@.skip(i as int));
    slice_of(x, i, x.len())
}

/// [`trim_end`] on a character list.
pub fn trim_end_of(x: &Vec<char>, class: CharClass) -> (r: Vec<char>)
    ensures
        r@ == trim_end(x@, class),
{
    let mut i: usize = x.len();
    assert(x@.take(i as int) =~= x@);
    while i > 0 && class.test(x[i - 1])
        invariant
            i <= x@.len(),
            trim_end(x@, class) == trim_end(x@.take(i as int), class),
        decreases i,
    {
        assert(x@.take(i as int).drop_last() =~= x@.take(i - 1));
        i = i - 1;
    }
    assert(x@.subrange(0, i as int) =~= x@.take(i as int));
    slice_of(x, 0, i)
}

/// [`trim`] on a character list.
pub fn trim_of(x: &Vec<char>, class: CharClass) -> (r: Vec<char>)
    ensures
        r@ == trim(x@, class),
{
    let y = trim_start_of(x, class);
    trim_end_of(&y, class)
}

/// The first position at or after `from` whose character is in `class`.
pub open spec fn first_in(s: Seq<char>, class: CharClass, from: int) -> Option<int>
    decreases s.len() - from,
{
    if from < 0 || from >= s.len() {
        None
    } else if class.has(s[from]) {
        Some(from)
    } else {
        first_in(s, class, from + 1)
    }
}

/// What `first_in` finds.
pub proof fn lemma_first_in(s: Seq<char>, class: CharClass, from: int)
    requires
        0 <= from,
    ensures
        match first_in(s, class, from) {
            Some(i) => from <= i < s.len() && class.has(s[i]) && forall|j: int|
                from <= j < i ==> !class.has(s[j]),
            None => forall|j: int| from <= j < s.len() ==> !class.has(s[j]),
        },
    decreases s.len() - from,
{
    if from < s.len() && !class.has(s[from]) {
        lemma_first_in(s, class, from + 1);
    }
}

/// [`first_in`] on a character list.
pub fn find_class(x: &Vec<char>, class: CharClass, from: usize) -> (r: Option<usize>)
    ensures
        match r {
            Some(i) => first_in(x@, class, from as int) == Some(i as int) && from <= i < x@.len(),
            None => first_in(x@, class, from as int) is None,
        },
{
    let mut i: usize = from;
    while i < x.len()
        invariant
            from <= i,
            first_in(x@, class, from as int) == first_in(x@, class, i as int),
        decreases x.len() - i,
    {
        if class.test(x[i]) {
            return Some(i);
        }
        i = i + 1;
    }
    None
}

/// The pieces of `s` between characters of `class`, empty ones included.
pub open spec fn split(s: Seq<char>, class: CharClass) -> Seq<Seq<char>> {
    split_from(s, class, 0)
}

/// [`split`] of what lies at or after `from`.
pub open spec fn split_from(s: Seq<char>, class: CharClass, from: int) -> Seq<Seq<char>>
    decreases s.len() - from,
    via split_from_decreases
{
    match first_in(s, class, from) {
        Some(i) => if from <= i < s.len() {
            seq![s.subrange(from, i)] + split_from(s, class, i + 1)
        } else {
            Seq::empty()
        },
        None => seq![s.subrange(from, s.len() as int)],
    }
}

#[via_fn]
proof fn split_from_decreases(s: Seq<char>, class: CharClass, from: int) {
}

/// [`split`] of a text.
pub fn split_of(s: &str, class: CharClass) -> (r: Vec<String>)
    ensures
        texts(r@) == split(s@, class),
        r@.len() >= 1,
{
    let x = chars_of(s);
    let mut out: Vec<String> = Vec::new();
    let mut from: usize = 0;
    assert(texts(out@) + split_from(s@, class, 0) =~= split(s@, class));
    loop
        invariant_except_break
            x@ == s@,
            from <= x@.len(),
            texts(out@) + split_from(s@, class, from as int) == split(s@, class),
        ensures
            texts(out@) == split(s@, class),
            out@.len() >= 1,
        decreases x.len() - from,
    {
        match find_class(&x, class, from) {
            Some(i) => {
                let piece = text_of(slice_of(&x, from, i).as_slice());
                let ghost before = out@;
                out.push(piece);
                assert(texts(out@) =~= texts(before).push(piece@));
                assert(texts(out@) + split_from(s@, class, i + 1) =~= texts(before) + split_from(
                    s@,
                    class,
                    from as int,
                ));
                from = i + 1;
            },
            None => {
                let piece = text_of(slice_of(&x, from, x.len()).as_slice());
                let ghost before = out@;
                out.push(piece);
                assert(texts(out@) =~= texts(before) + split_from(s@, class, from as int));
                break;
            },
        }
    }
    out
}

/// The ASCII lower-case form of a character.
pub open spec fn lower_char(c: char) -> char {
    if 'A' <= c <= 'Z' {
        ((c as u32) + 32) as char
    } else {
        c
    }
}

/// `s` with its ASCII letters in lower case.
pub open spec fn lower(s: Seq<char>) -> Seq<char> {
    s.map_values(|c: char| lower_char(c))
}

/// The ASCII upper-case form of a character.
pub open spec fn upper_char(c: char) -> char {
    if 'a' <= c <= 'z' {
        ((c as u32) - 32) as char
    } else {
        c
    }
}

/// `s` with its ASCII letters in upper case.
pub open spec fn upper(s: Seq<char>) -> Seq<char> {
    s.map_values(|c: char| upper_char(c))
}

fn lower_of_char(c: char) -> (r: char)
    ensures
        r == lower_char(c),
{
    if 'A' <= c && c <= 'Z' {
        ((c as u8) + 32) as char
    } else {
        c
    }
}

fn upper_of_char(c: char) -> (r: char)
    ensures
        r == upper_char(c),
{
    if 'a' <= c && c <= 'z' {
        ((c as u8) - 32) as char
    } else {
        c
    }
}

/// The ASCII lower-case form of `s`.
pub fn lower_of(s: &str) -> (r: String)
    ensures
        r@ == lower(s@),
{
    let x = chars_of(s);
    let mut out: String = String::new();
    let mut i: usize = 0;
    while i < x.len()
        invariant
            x@ == s@,
            i <= x@.len(),
            out@ == lower(s@).take(i as int),
        decreases x.len() - i,
    {
        out.push(lower_of_char(x[i]));
        assert(lower(s@).take(i as int).push(lower_char(s@[i as int])) =~= lower(s@).take(i + 1));
        i = i + 1;
    }
    assert(lower(s@).take(s@.len() as int) =~= lower(s@));
    out
}

/// The ASCII upper-case form of `s`.
pub fn upper_of(s: &str) -> (r: String)
    ensures
        r@ == upper(s@),
{
    let x = chars_of(s);
    let mut out: String = String::new();
    let mut i: usize = 0;
    while i < x.len()
        invariant
            x@ == s@,
            i <= x@.len(),
            out@ == upper(s@).take(i as int),
        decreases x.len() - i,
    {
        out.push(upper_of_char(x[i]));
        assert(upper(s@).take(i as int).push(upper_char(s@[i as int])) =~= upper(s@).take(i + 1));
        i = i + 1;
    }
    assert(upper(s@).take(s@.len() as int) =~= upper(s@));
    out
}

/// Whether `a` sorts before `b`, character by character.
pub open spec fn sorts_before(a: Seq<char>, b: Seq<char>) -> bool
    decreases a.len(),
{
    if b.len() == 0 {
        false
    } else if a.len() == 0 {
        true
    } else if a[0] != b[0] {
        a[0] < b[0]
    } else {
        sorts_before(a.skip(1), b.skip(1))
    }
}

/// Whether `a` sorts before `b`.
pub fn sorts_before_of(a: &str, b: &str) -> (r: bool)
    ensures
        r == sorts_before(a@, b@),
{
    let x = chars_of(a);
    let y = chars_of(b);
    let mut i: usize = 0;
    assert(x@.skip(0) =~= x@);
    assert(y@.skip(0) =~= y@);
    while i < x.len() && i < y.len()
        invariant
            i <= x@.len(),
            i <= y@.len(),
            x@ == a@,
            y@ == b@,
            sorts_before(x@, y@) == sorts_before(x@.skip(i as int), y@.skip(i as int)),
        decreases x.len() - i,
    {
        assert(x@.skip(i as int).skip(1) =~= x@.skip(i + 1));
        assert(y@.skip(i as int).skip(1) =~= y@.skip(i + 1));
        assert(x@.skip(i as int)[0] == x@[i as int]);
        assert(y@.skip(i as int)[0] == y@[i as int]);
        if x[i] != y[i] {
            return x[i] < y[i];
        }
        i = i + 1;
    }
    i < y.len()
}

/// Texts are ordered: strictly, transitively and totally.
pub proof fn lemma_order(a: Seq<char>, b: Seq<char>, c: Seq<char>)
    ensures
        sorts_before(a, b) && sorts_before(b, c) ==> sorts_before(a, c),
        !sorts_before(a, b) && !sorts_before(b, a) ==> a == b,
        !(sorts_before(a, b) && sorts_before(b, a)),
    decreases a.len() + b.len() + c.len(),
{
    if a.len() > 0 && b.len() > 0 && c.len() > 0 {
        lemma_order(a.skip(1), b.skip(1), c.skip(1));
    } else if a.len() > 0 && b.len() > 0 {
        lemma_order(a.skip(1), b.skip(1), c);
    }
    if a.len() == 0 && b.len() == 0 {
        assert(a =~= b);
    }
    if a.len() > 0 && b.len() > 0 && a[0] == b[0] && a.skip(1) == b.skip(1) {
        assert(a =~= seq![a[0]] + a.skip(1));
        assert(b =~= seq![b[0]] + b.skip(1));
    }
}

/// Trimming takes off both ends exactly what belongs to the class: what is left neither
/// starts nor ends with it, and what is gone is nothing else.
pub proof fn lemma_trim(s: Seq<char>, class: CharClass)
    ensures
        ({
            let t = trim(s, class);
            &&& t.len() > 0 ==> !class.has(t[0]) && !class.has(t.last())
            &&& exists|from: int, end: int|
                0 <= from <= end <= s.len() && t == #[trigger] s.subrange(from, end) && (forall|i: int|
                    0 <= i < from ==> class.has(#[trigger] s[i])) && (forall|i: int|
                    end <= i < s.len() ==> class.has(#[trigger] s[i]))
        }),
{
    let u = trim_start(s, class);
    let t = trim(s, class);
    lemma_trim_start(s, class);
    lemma_trim_end(u, class);
    let from = s.len() - u.len();
    let end = from + t.len();
    assert(t =~= s.subrange(from, end));
    assert forall|i: int| end <= i < s.len() implies class.has(#[trigger] s[i]) by {
        assert(s[i] == u[i - from]);
    }
    if t.len() > 0 {
        assert(t[0] == u[0]);
    }
}

/// What [`trim_start`] leaves.
pub proof fn lemma_trim_start(s: Seq<char>, class: CharClass)
    ensures
        ({
            let t = trim_start(s, class);
            &&& t.len() <= s.len()
            &&& t == s.skip(s.len() - t.len())
            &&& t.len() > 0 ==> !class.has(t[0])
            &&& forall|i: int| 0 <= i < s.len() - t.len() ==> class.has(#[trigger] s[i])
        }),
    decreases s.len(),
{
    if s.len() > 0 && class.has(s[0]) {
        let rest = s.skip(1);
        let t = trim_start(s, class);
        lemma_trim_start(rest, class);
        assert(t =~= s.skip(s.len() - t.len()));
        assert forall|i: int| 0 <= i < s.len() - t.len() implies class.has(#[trigger] s[i]) by {
            if i > 0 {
                assert(s[i] == rest[i - 1]);
            }
        }
    } else {
        assert(s.skip(0) =~= s);
    }
}

/// What [`trim_end`] leaves.
pub proof fn lemma_trim_end(s: Seq<char>, class: CharClass)
    ensures
        ({
            let t = trim_end(s, class);
            &&& t.len() <= s.len()
            &&& t == s.take(t.len() as int)
            &&& t.len() > 0 ==> !class.has(t.last())
            &&& forall|i: int| t.len() <= i < s.len() ==> class.has(#[trigger] s[i])
        }),
    decreases s.len(),
{
    if s.len() > 0 && class.has(s.last()) {
        let rest = s.drop_last();
        let t = trim_end(s, class);
        lemma_trim_end(rest, class);
        assert(t =~= s.take(t.len() as int));
        assert forall|i: int| t.len() <= i < s.len() implies class.has(#[trigger] s[i]) by {
            if i < s.len() - 1 {
                assert(s[i] == rest[i]);
            }
        }
    } else {
        assert(s.take(s.len() as int) =~= s);
    }
}

proof fn lemma_first_in_behind(x: Seq<char>, s: Seq<char>, class: CharClass, k: int)
    requires
        0 <= k,
    ensures
        first_in(x + s, class, x.len() + k) == match first_in(s, class, k) {
            Some(i) => Some(x.len() + i),
            None => None,
        },
    decreases s.len() - k,
{
    if k < s.len() {
        assert((x + s)[x.len() + k] == s[k]);
        lemma_first_in_behind(x, s, class, k + 1);
    }
}

proof fn lemma_split_behind(x: Seq<char>, s: Seq<char>, class: CharClass, k: int)
    requires
        0 <= k <= s.len(),
    ensures
        split_from(x + s, class, x.len() + k) == split_from(s, class, k),
    decreases s.len() - k,
{
    lemma_first_in_behind(x, s, class, k);
    lemma_first_in(s, class, k);
    match first_in(s, class, k) {
        Some(i) => {
            lemma_split_behind(x, s, class, i + 1);
            assert((x + s).subrange(x.len() + k, x.len() + i) =~= s.subrange(k, i));
        },
        None => {
            assert((x + s).subrange(x.len() + k, (x + s).len() as int) =~= s.subrange(
                k,
                s.len() as int,
            ));
        },
    }
}

/// The first piece ends at the first separator, and the others are the pieces of what follows
/// it; without a separator there is one piece.
pub proof fn lemma_split_head(a: Seq<char>, c: char, rest: Seq<char>, class: CharClass)
    requires
        forall|i: int| 0 <= i < a.len() ==> !class.has(#[trigger] a[i]),
        class.has(c),
    ensures
        split(a, class) == seq![a],
        split(a.push(c) + rest, class) == seq![a] + split(rest, class),
{
    lemma_first_in(a, class, 0);
    assert(a.subrange(0, a.len() as int) =~= a);
    let s = a.push(c) + rest;
    lemma_first_in(s, class, 0);
    assert(s[a.len() as int] == c);
    assert forall|i: int| 0 <= i < a.len() implies !class.has(#[trigger] s[i]) by {
        assert(s[i] == a[i]);
    }
    assert(first_in(s, class, 0) == Some(a.len() as int));
    assert(s.subrange(0, a.len() as int) =~= a);
    lemma_split_behind(a.push(c), rest, class, 0);
}

/// Only the ASCII letters change in lower case, and they become the small letter of the same
/// name.
pub proof fn lemma_lower(s: Seq<char>)
    ensures
        lower(s).len() == s.len(),
        lower(lower(s)) == lower(s),
        forall|i: int|
            0 <= i < s.len() ==> {
                &&& !('A' <= #[trigger] lower(s)[i] <= 'Z')
                &&& 'A' <= s[i] <= 'Z' ==> lower(s)[i] as u32 == s[i] as u32 + 0x20
                &&& !('A' <= s[i] <= 'Z') ==> lower(s)[i] == s[i]
            },
{
    assert(lower(lower(s)) =~= lower(s));
}

/// `s` as the `Debug` form of a string writes it: in quotes, with escapes.
pub uninterp spec fn quoted(s: Seq<char>) -> Seq<char>;

/// `format!("{s:?}")`: the quoted form, a function of the text alone.
#[verifier::external_body]
pub(crate) fn quoted_of(s: &str) -> (r: String)
    ensures
        r@ == quoted(s@),
{
    format!("{s:?}")
}

/// Only the ASCII letters change in upper case, and they become the capital of the same name.
pub proof fn lemma_upper(s: Seq<char>)
    ensures
        upper(s).len() == s.len(),
        lower(upper(s)) == lower(s),
        forall|i: int|
            0 <= i < s.len() ==> {
                &&& !('a' <= #[trigger] upper(s)[i] <= 'z')
                &&& 'a' <= s[i] <= 'z' ==> upper(s)[i] as u32 == s[i] as u32 - 0x20
                &&& !('a' <= s[i] <= 'z') ==> upper(s)[i] == s[i]
            },
{
    assert(lower(upper(s)) =~= lower(s));
}

/// Which text sorts first is decided by the first difference, and a text sorts before one
/// that it starts.
pub proof fn lemma_sorts_by_first_difference(head: Seq<char>, a: Seq<char>, b: Seq<char>)
    ensures
        sorts_before(head + a, head + b) == sorts_before(a, b),
        a.len() > 0 && b.len() > 0 && a[0] < b[0] ==> sorts_before(a, b),
        a.len() > 0 && b.len() > 0 && a[0] > b[0] ==> !sorts_before(a, b),
        a.len() > 0 ==> sorts_before(head, head + a),
        !sorts_before(head, head),
    decreases head.len(),
{
    if head.len() > 0 {
        let rest = head.skip(1);
        assert((head + a).skip(1) =~= rest + a);
        assert((head + b).skip(1) =~= rest + b);
        lemma_sorts_by_first_difference(rest, a, b);
    } else {
        assert(head + a =~= a);
        assert(head + b =~= b);
    }
}

/// Of the characters of ASCII, white are the space and the five controls from the tab on;
/// beyond ASCII there are others, the wide spaces among them.
pub proof fn lemma_white(c: char)
    ensures
        (c as u32) < 0x80 ==> (CharClass::White.has(c) <==> c == ' ' || c == '\t' || c == '\n' || c
            == '\u{b}' || c == '\u{c}' || c == '\r'),
        c == '\u{a0}' || c == '\u{2003}' || c == '\u{3000}' ==> CharClass::White.has(c),
        CharClass::ListBreak.has(c) <==> CharClass::White.has(c) || c == ',' || c == ';',
        CharClass::Slashes.has(c) <==> c == '/' || c == '\\',
        CharClass::NulOrSpace.has(c) <==> c == '\0' || c == ' ',
{
}

} // verus!
