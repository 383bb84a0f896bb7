//! Dotted version numbers.

use vstd::prelude::*;

use crate::num::{decimal, digit, lemma_numeral_reads_back, number, number_of};
use crate::text::{chars_of, lemma_split_head, split, split_of, texts, CharClass};

verus! {

/// How one version stands to another.
#[derive(Debug, Clone, Copy, PartialEq, Eq, Structural)]
pub enum Rank {
    Less,
    Equal,
    Greater,
}

impl Rank {
    /// Whether the first is newer.
    pub fn is_gt(self) -> (r: bool)
        ensures
            r == (self == Rank::Greater),
    {
        match self {
            Rank::Greater => true,
            _ => false,
        }
    }

    /// Whether neither is newer.
    pub fn is_eq(self) -> (r: bool)
        ensures
            r == (self == Rank::Equal),
    {
        match self {
            Rank::Equal => true,
            _ => false,
        }
    }

    /// The rank the other way round.
    pub open spec fn flipped(self) -> Rank {
        match self {
            Rank::Less => Rank::Greater,
            Rank::Equal => Rank::Equal,
            Rank::Greater => Rank::Less,
        }
    }
}

/// The number a component writes; one that writes none counts as zero.
pub open spec fn component(s: Seq<char>) -> nat {
    match number(s, 10, u64::MAX as nat) {
        Some(n) => n,
        None => 0,
    }
}

/// The components of a version.
pub open spec fn components(v: Seq<char>) -> Seq<nat> {
    split(v, CharClass::Only('.')).map_values(|s: Seq<char>| component(s))
}

/// The `i`-th component; a missing one counts as zero.
pub open spec fn at(s: Seq<nat>, i: int) -> nat {
    if 0 <= i < s.len() {
        s[i]
    } else {
        0
    }
}

/// The first difference between two component lists from `i` on.
pub open spec fn ranked(a: Seq<nat>, b: Seq<nat>, i: int) -> Rank
    decreases a.len() + b.len() - i,
{
    if i < 0 || (i >= a.len() && i >= b.len()) {
        Rank::Equal
    } else if at(a, i) < at(b, i) {
        Rank::Less
    } else if at(a, i) > at(b, i) {
        Rank::Greater
    } else {
        ranked(a, b, i + 1)
    }
}

/// How version `a` stands to version `b`, component by component as numbers.
pub open spec fn rank(a: Seq<char>, b: Seq<char>) -> Rank {
    ranked(components(a), components(b), 0)
}

/// The components of a version.
pub fn components_of(v: &str) -> (r: Vec<u64>)
    ensures
        naturals(r@) == components(v@),
{
    let parts = split_of(v, CharClass::Only('.'));
    let ghost want = components(v@);
    let mut out: Vec<u64> = Vec::new();
    let mut i: usize = 0;
    while i < parts.len()
        invariant
            i <= parts@.len(),
            want == components(v@),
            texts(parts@) == split(v@, CharClass::Only('.')),
            out@.len() == i,
            forall|k: int| 0 <= k < i ==> want[k] == #[trigger] out@[k],
        decreases parts.len() - i,
    {
        let x = chars_of(parts[i].as_str());
        assert(want[i as int] == component(texts(parts@)[i as int]));
        match number_of(&x, 10, u64::MAX) {
            Some(n) => out.push(n),
            None => out.push(0),
        }
        i = i + 1;
    }
    assert(naturals(out@) =~= want);
    out
}

/// The views of machine components.
pub open spec fn naturals(v: Seq<u64>) -> Seq<nat> {
    v.map_values(|n: u64| n as nat)
}

fn rank_lists(x: &Vec<u64>, y: &Vec<u64>) -> (r: Rank)
    ensures
        r == ranked(naturals(x@), naturals(y@), 0),
{
    let ghost xs = naturals(x@);
    let ghost ys = naturals(y@);
    let mut i: usize = 0;
    while i < x.len() || i < y.len()
        invariant
            xs == naturals(x@),
            ys == naturals(y@),
            ranked(xs, ys, 0) == ranked(xs, ys, i as int),
        decreases x.len() + y.len() - i,
    {
        let p: u64 = if i < x.len() {
            x[i]
        } else {
            0
        };
        let q: u64 = if i < y.len() {
            y[i]
        } else {
            0
        };
        assert(p == at(xs, i as int) && q == at(ys, i as int));
        if p < q {
            return Rank::Less;
        }
        if p > q {
            return Rank::Greater;
        }
        i = i + 1;
    }
    Rank::Equal
}

/// Compare dotted-numeric version strings component-by-component as integers
/// (`148.0.7778.216` vs `148.0.7778.179`). Non-numeric components simply count
/// as 0.
pub fn cmp_version(a: &str, b: &str) -> (r: Rank)
    ensures
        r == rank(a@, b@),
{
    rank_lists(&components_of(a), &components_of(b))
}

proof fn lemma_ranked_flips(a: Seq<nat>, b: Seq<nat>, i: int)
    ensures
        ranked(b, a, i) == ranked(a, b, i).flipped(),
    decreases a.len() + b.len() - i,
{
    if 0 <= i && (i < a.len() || i < b.len()) && at(a, i) == at(b, i) {
        lemma_ranked_flips(a, b, i + 1);
    }
}

proof fn lemma_ranked_meaning(a: Seq<nat>, b: Seq<nat>, i: int)
    requires
        0 <= i,
    ensures
        ranked(a, b, i) == Rank::Equal <==> forall|k: int| i <= k ==> at(a, k) == at(b, k),
        ranked(a, b, i) == Rank::Less <==> exists|k: int|
            i <= k && at(a, k) < at(b, k) && forall|j: int| i <= j < k ==> at(a, j) == at(b, j),
    decreases a.len() + b.len() - i,
{
    if i >= a.len() && i >= b.len() {
    } else if at(a, i) < at(b, i) {
        assert(at(a, i) != at(b, i));
    } else if at(a, i) > at(b, i) {
        assert(at(a, i) != at(b, i));
        assert forall|k: int|
            i <= k && at(a, k) < at(b, k) && (forall|j: int|
                i <= j < k ==> at(a, j) == at(b, j)) implies false by {
            assert(k > i);
            assert(at(a, i) == at(b, i));
        }
    } else {
        lemma_ranked_meaning(a, b, i + 1);
        if ranked(a, b, i) == Rank::Less {
            let k = choose|k: int|
                i + 1 <= k && at(a, k) < at(b, k) && forall|j: int|
                    i + 1 <= j < k ==> at(a, j) == at(b, j);
            assert(forall|j: int| i <= j < k ==> at(a, j) == at(b, j));
        }
        if ranked(a, b, i) == Rank::Equal {
            assert(forall|k: int| i <= k ==> at(a, k) == at(b, k));
        }
        if exists|k: int|
            i <= k && at(a, k) < at(b, k) && forall|j: int| i <= j < k ==> at(a, j) == at(b, j) {
            let k = choose|k: int|
                i <= k && at(a, k) < at(b, k) && forall|j: int| i <= j < k ==> at(a, j) == at(b, j);
            assert(k != i);
        }
        if forall|k: int| i <= k ==> at(a, k) == at(b, k) {
            assert(forall|k: int| i + 1 <= k ==> at(a, k) == at(b, k));
        }
    }
}

/// No version is newer than itself.
pub proof fn lemma_rank_reflexive(a: Seq<char>)
    ensures
        rank(a, a) == Rank::Equal,
{
    lemma_ranked_meaning(components(a), components(a), 0);
}

/// Comparing the other way round gives the opposite answer.
pub proof fn lemma_rank_flips(a: Seq<char>, b: Seq<char>)
    ensures
        rank(b, a) == rank(a, b).flipped(),
{
    lemma_ranked_flips(components(a), components(b), 0);
}

/// The order of versions is transitive.
#[verifier::spinoff_prover]
#[verifier::rlimit(40)]
pub proof fn lemma_rank_transitive(a: Seq<char>, b: Seq<char>, c: Seq<char>)
    requires
        rank(a, b) != Rank::Greater,
        rank(b, c) != Rank::Greater,
    ensures
        rank(a, c) != Rank::Greater,
        rank(a, b) == Rank::Less || rank(b, c) == Rank::Less ==> rank(a, c) == Rank::Less,
        rank(a, b) == Rank::Equal && rank(b, c) == Rank::Equal ==> rank(a, c) == Rank::Equal,
{
    let x = components(a);
    let y = components(b);
    let z = components(c);
    lemma_ranked_meaning(x, y, 0);
    lemma_ranked_meaning(y, z, 0);
    lemma_ranked_meaning(x, z, 0);
    if ranked(x, y, 0) == Rank::Less {
        let k = choose|k: int|
            0 <= k && at(x, k) < at(y, k) && forall|j: int| 0 <= j < k ==> at(x, j) == at(y, j);
        if ranked(y, z, 0) == Rank::Less {
            let m = choose|m: int|
                0 <= m && at(y, m) < at(z, m) && forall|j: int| 0 <= j < m ==> at(y, j) == at(z, j);
            let n = if k <= m {
                k
            } else {
                m
            };
            assert(at(x, n) < at(z, n));
            assert(forall|j: int| 0 <= j < n ==> at(x, j) == at(z, j));
        } else {
            assert(at(x, k) < at(z, k));
            assert(forall|j: int| 0 <= j < k ==> at(x, j) == at(z, j));
        }
    } else if ranked(y, z, 0) == Rank::Less {
        let m = choose|m: int|
            0 <= m && at(y, m) < at(z, m) && forall|j: int| 0 <= j < m ==> at(y, j) == at(z, j);
        assert(at(x, m) < at(z, m));
        assert(forall|j: int| 0 <= j < m ==> at(x, j) == at(z, j));
    } else {
        assert(forall|j: int| 0 <= j ==> at(x, j) == at(z, j));
    }
}

/// Numbers written as a dotted version.
pub open spec fn dotted(ns: Seq<nat>) -> Seq<char>
    decreases ns.len(),
{
    if ns.len() == 0 {
        Seq::empty()
    } else if ns.len() == 1 {
        decimal(ns[0])
    } else {
        decimal(ns[0]).push('.') + dotted(ns.skip(1))
    }
}

/// A dotted version is read as the numbers that it is written with.
pub proof fn lemma_dotted_reads_back(ns: Seq<nat>)
    requires
        ns.len() > 0,
        forall|i: int| 0 <= i < ns.len() ==> #[trigger] ns[i] <= u64::MAX,
    ensures
        components(dotted(ns)) == ns,
    decreases ns.len(),
{
    let class = CharClass::Only('.');
    let d = decimal(ns[0]);
    let rest = ns.skip(1);
    lemma_numeral_reads_back(ns[0], 10);
    assert(ns[0] <= u64::MAX);
    assert forall|i: int| 0 <= i < d.len() implies !class.has(#[trigger] d[i]) by {
        assert(digit(d[i], 10) is Some);
    }
    assert(digit(d[0], 10) is Some);
    assert(component(d) == ns[0]);
    lemma_split_head(d, '.', dotted(rest), class);
    if ns.len() == 1 {
        assert(components(dotted(ns)) =~= ns);
    } else {
        assert forall|i: int| 0 <= i < rest.len() implies #[trigger] rest[i] <= u64::MAX by {
            assert(rest[i] == ns[i + 1]);
        }
        lemma_dotted_reads_back(rest);
        let tail = split(dotted(rest), class);
        assert(components(dotted(ns)) =~= seq![ns[0]] + components(dotted(rest))) by {
            assert(split(dotted(ns), class) == seq![d] + tail);
        }
        assert(seq![ns[0]] + rest =~= ns);
    }
}

/// Versions are ordered by their numbers: the first that differ decide.
pub proof fn lemma_first_difference_decides(a: Seq<nat>, b: Seq<nat>, k: int)
    requires
        0 <= k < a.len(),
        k < b.len(),
        forall|i: int| 0 <= i < a.len() ==> #[trigger] a[i] <= u64::MAX,
        forall|i: int| 0 <= i < b.len() ==> #[trigger] b[i] <= u64::MAX,
        forall|i: int| 0 <= i < k ==> a[i] == b[i],
        a[k] < b[k],
    ensures
        rank(dotted(a), dotted(b)) == Rank::Less,
        rank(dotted(b), dotted(a)) == Rank::Greater,
{
    lemma_dotted_reads_back(a);
    lemma_dotted_reads_back(b);
    lemma_ranked_meaning(a, b, 0);
    assert(at(a, k) < at(b, k) && forall|j: int| 0 <= j < k ==> at(a, j) == at(b, j));
    lemma_rank_flips(dotted(a), dotted(b));
}

/// A version that goes on is the same where it goes on with zeros only, and newer otherwise.
pub proof fn lemma_longer_version(a: Seq<nat>, more: Seq<nat>)
    requires
        a.len() > 0,
        forall|i: int| 0 <= i < a.len() ==> #[trigger] a[i] <= u64::MAX,
        forall|i: int| 0 <= i < more.len() ==> #[trigger] more[i] <= u64::MAX,
    ensures
        (forall|i: int| 0 <= i < more.len() ==> #[trigger] more[i] == 0) ==> rank(
            dotted(a + more),
            dotted(a),
        ) == Rank::Equal,
        (exists|i: int| 0 <= i < more.len() && #[trigger] more[i] != 0) ==> rank(
            dotted(a + more),
            dotted(a),
        ) == Rank::Greater,
{
    let b = a + more;
    assert forall|i: int| 0 <= i < b.len() implies #[trigger] b[i] <= u64::MAX by {
        if i >= a.len() {
            assert(b[i] == more[i - a.len()]);
        }
    }
    lemma_dotted_reads_back(a);
    lemma_dotted_reads_back(b);
    lemma_ranked_meaning(a, b, 0);
    lemma_ranked_meaning(b, a, 0);
    lemma_rank_flips(dotted(a), dotted(b));
    assert forall|k: int| 0 <= k && k < a.len() implies at(a, k) == at(b, k) by {}
    if forall|i: int| 0 <= i < more.len() ==> #[trigger] more[i] == 0 {
        assert forall|k: int| 0 <= k implies at(b, k) == at(a, k) by {
            if a.len() <= k < b.len() {
                assert(b[k] == more[k - a.len()]);
            }
        }
    } else {
        assert forall|k: int| 0 <= k implies at(a, k) <= at(b, k) by {}
        if ranked(a, b, 0) == Rank::Equal {
            let i = choose|i: int| 0 <= i < more.len() && #[trigger] more[i] != 0;
            assert(at(a, a.len() + i) == at(b, a.len() + i));
            assert(b[a.len() + i] == more[i]);
        }
        if ranked(b, a, 0) == Rank::Less {
            let k = choose|k: int|
                0 <= k && at(b, k) < at(a, k) && forall|j: int| 0 <= j < k ==> at(b, j) == at(a, j);
            assert(at(a, k) <= at(b, k));
        }
    }
}

/// A part that is no number counts as zero, as does one that is missing.
pub proof fn lemma_no_number_is_zero(s: Seq<char>)
    ensures
        (exists|i: int| 1 <= i < s.len() && !('0' <= #[trigger] s[i] <= '9')) ==> component(s) == 0,
        s.len() == 0 ==> component(s) == 0,
{
    if exists|i: int| 1 <= i < s.len() && !('0' <= #[trigger] s[i] <= '9') {
        let i = choose|i: int| 1 <= i < s.len() && !('0' <= #[trigger] s[i] <= '9');
        let t = if s.len() > 1 && s[0] == '+' {
            s.skip(1)
        } else {
            s
        };
        let k = if s.len() > 1 && s[0] == '+' {
            i - 1
        } else {
            i
        };
        assert(t[k] == s[i]);
        lemma_no_digits(t, k);
    }
}

proof fn lemma_no_digits(t: Seq<char>, k: int)
    requires
        0 <= k < t.len(),
        !('0' <= t[k] <= '9'),
    ensures
        crate::num::digits(t, 10) is None,
    decreases t.len(),
{
    if k < t.len() - 1 {
        assert(t.drop_last()[k] == t[k]);
        lemma_no_digits(t.drop_last(), k);
    }
}

} // verus!
