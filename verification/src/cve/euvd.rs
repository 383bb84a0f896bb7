//! ENISA EU Vulnerability Database records.
//!
//! EUVD doesn't have an ecosystem-based keying scheme; it is asked by vendor and
//! product, and the affected-version expressions its entries carry are matched
//! against the version on our side.

use vstd::prelude::*;

use crate::cve::advisory::{advisories, Advisory, AdvisoryView, Severity, Source};
use crate::cve::version::{prose_ceiling, prose_ceiling_of, version_token, version_token_of};
use crate::text::{
    chars_of, copy_opt, find_class, first_in, lemma_first_in, opens, opt_text, same, slice_of, split,
    split_of, starts_with, text_of, texts, trim, trim_of, CharClass,
};
use crate::version::{cmp_version, rank, Rank};

verus! {

/// EUVD caps a page at this many entries, whatever is asked for.
pub const PAGE_SIZE: u64 = 100;

/// Hard ceiling on pages fetched, a runaway guard.
pub const MAX_PAGES: u64 = 80;

/// How many pages to fetch for `total` entries.
pub open spec fn page_count(total: nat) -> nat {
    let pages = (total + PAGE_SIZE - 1) as nat / PAGE_SIZE as nat;
    if pages <= MAX_PAGES {
        pages
    } else {
        MAX_PAGES as nat
    }
}

/// How many pages to fetch for `total` entries.
pub fn pages(total: u64) -> (r: u64)
    ensures
        r == page_count(total as nat),
{
    let whole: u64 = total / PAGE_SIZE;
    let n: u64 = if total % PAGE_SIZE == 0 {
        whole
    } else {
        whole + 1
    };
    if n <= MAX_PAGES {
        n
    } else {
        MAX_PAGES
    }
}

/// A vendor or product as a search filter: blanks become plus signs.
pub open spec fn search_term(s: Seq<char>) -> Seq<char> {
    s.map_values(
        |c: char|
            if c == ' ' {
                '+'
            } else {
                c
            },
    )
}

/// A vendor or product as a search filter.
pub fn search_term_of(s: &str) -> (r: String)
    ensures
        r@ == search_term(s@),
{
    let x = chars_of(s);
    let mut out: String = String::new();
    let mut i: usize = 0;
    while i < x.len()
        invariant
            x@ == s@,
            i <= x@.len(),
            out@ == search_term(s@).take(i as int),
        decreases x.len() - i,
    {
        out.push(
            if x[i] == ' ' {
                '+'
            } else {
                x[i]
            },
        );
        assert(out@ =~= search_term(s@).take(i + 1));
        i = i + 1;
    }
    assert(search_term(s@).take(s@.len() as int) =~= search_term(s@));
    out
}

/// One record.
#[derive(Debug)]
pub struct Entry {
    pub id: String,
    pub description: Option<String>,
    pub date_published: Option<String>,
    /// The severity that the base score falls under.
    pub score_severity: Option<Severity>,
    /// Comma-joined CVE-IDs in practice.
    pub aliases: Option<String>,
    pub references: Option<String>,
    pub products: Vec<Product>,
}

/// One affected product of a record.
#[derive(Debug)]
pub struct Product {
    /// Affected-version expression, e.g. `"unspecified <86.0.4240.111"`,
    /// `"prior to 73.0.3683.75"`, or `"144.0.7559.99 <144.0.7559.99"`.
    pub product_version: Option<String>,
}

/// The affected-version range a `product_version` expression describes.
/// `upper` is the fix version (exclusive); `lower` an inclusive floor when EUVD
/// gives a meaningful one.
#[derive(Debug, PartialEq)]
pub enum Affected {
    /// Everything below the fix version (`unspecified <X`, `prior to X`).
    Below(String),
    /// `[lower, upper)` — both bounds meaningful and `lower < upper`.
    Range(String, String),
    /// A single affected build with no range info.
    Exact(String),
    /// Nothing version-like — can't decide, so it matches nothing.
    Unknown,
}

/// The model of an [`Affected`].
pub enum AffectedView {
    Below(Seq<char>),
    Range(Seq<char>, Seq<char>),
    Exact(Seq<char>),
    Unknown,
}

impl View for Affected {
    type V = AffectedView;

    open spec fn view(&self) -> AffectedView {
        match *self {
            Affected::Below(up) => AffectedView::Below(up@),
            Affected::Range(lo, up) => AffectedView::Range(lo@, up@),
            Affected::Exact(v) => AffectedView::Exact(v@),
            Affected::Unknown => AffectedView::Unknown,
        }
    }
}

/// The range that an expression with `<` describes. A lower bound only counts when
/// it's a real floor below the fix.
pub open spec fn bounded_range(lower: Option<Seq<char>>, upper: Option<Seq<char>>) -> AffectedView {
    match (lower, upper) {
        (Some(lo), Some(up)) => if rank(lo, up) == Rank::Less {
            AffectedView::Range(lo, up)
        } else {
            AffectedView::Below(up)
        },
        (None, Some(up)) => AffectedView::Below(up),
        (Some(lo), None) => AffectedView::Exact(lo),
        (None, None) => AffectedView::Unknown,
    }
}

/// The range that a `product_version` expression describes.
pub open spec fn range_of(raw: Seq<char>) -> AffectedView {
    let s = trim(raw, CharClass::White);
    match first_in(s, CharClass::Only('<'), 0) {
        Some(i) => bounded_range(version_token(s.take(i)), version_token(s.skip(i + 1))),
        None => match prose_ceiling(s) {
            Some(up) => AffectedView::Below(up),
            None => match version_token(s) {
                Some(v) => AffectedView::Exact(v),
                None => AffectedView::Unknown,
            },
        },
    }
}

/// Whether a range holds `version`.
pub open spec fn in_range(a: AffectedView, version: Seq<char>) -> bool {
    match a {
        AffectedView::Below(up) => rank(version, up) == Rank::Less,
        AffectedView::Range(lo, up) => rank(version, lo) != Rank::Less && rank(version, up)
            == Rank::Less,
        AffectedView::Exact(v) => rank(version, v) == Rank::Equal,
        AffectedView::Unknown => false,
    }
}

/// Whether a product is affected at `version`.
pub open spec fn product_affected(p: Product, version: Seq<char>) -> bool {
    match opt_text(p.product_version) {
        Some(raw) => in_range(range_of(raw), version),
        None => false,
    }
}

/// Whether any of an entry's products is affected at `version`.
pub open spec fn entry_affects(e: Entry, version: Seq<char>) -> bool {
    exists|i: int|
        0 <= i < e.products@.len() && product_affected(#[trigger] e.products@[i], version)
}

fn is_below(a: &str, b: &str) -> (r: bool)
    ensures
        r == (rank(a@, b@) == Rank::Less),
{
    match cmp_version(a, b) {
        Rank::Less => true,
        _ => false,
    }
}

/// Parse an EUVD `product_version` expression into an [`Affected`] range.
pub fn parse_range(raw: &str) -> (r: Affected)
    ensures
        r@ == range_of(raw@),
{
    let x = trim_of(&chars_of(raw), CharClass::White);
    proof {
        lemma_first_in(x@, CharClass::Only('<'), 0);
    }
    // "<X" forms: an optional lower bound, then the fix version after '<'.
    match find_class(&x, CharClass::Only('<'), 0) {
        Some(i) => {
            let n = x.len();
            let left = slice_of(&x, 0, i);
            let right = slice_of(&x, i + 1, n);
            assert(left@ =~= x@.take(i as int));
            assert(right@ =~= x@.skip(i + 1));
            let lower = version_token_of(text_of(left.as_slice()).as_str());
            let upper = version_token_of(text_of(right.as_slice()).as_str());
            match (lower, upper) {
                (Some(lo), Some(up)) => {
                    if is_below(lo.as_str(), up.as_str()) {
                        Affected::Range(lo, up)
                    } else {
                        Affected::Below(up)
                    }
                },
                (None, Some(up)) => Affected::Below(up),
                (Some(lo), None) => Affected::Exact(lo),
                (None, None) => Affected::Unknown,
            }
        },
        None => {
            let s = text_of(x.as_slice());
            // Prose ceilings: "prior to X", "before X".
            match prose_ceiling_of(s.as_str()) {
                Some(up) => Affected::Below(up),
                None => {
                    // A bare version is a single affected build.
                    match version_token_of(s.as_str()) {
                        Some(v) => Affected::Exact(v),
                        None => Affected::Unknown,
                    }
                },
            }
        },
    }
}

/// Whether a range holds `version`.
pub fn range_contains(affected: &Affected, version: &str) -> (r: bool)
    ensures
        r == in_range(affected@, version@),
{
    match affected {
        Affected::Below(up) => is_below(version, up.as_str()),
        Affected::Range(lo, up) => !is_below(version, lo.as_str()) && is_below(version, up.as_str()),
        Affected::Exact(v) => cmp_version(version, v.as_str()).is_eq(),
        Affected::Unknown => false,
    }
}

/// `true` if any of the entry's products is affected at `version`.
pub fn affects(entry: &Entry, version: &str) -> (r: bool)
    ensures
        r == entry_affects(*entry, version@),
{
    let mut i: usize = 0;
    while i < entry.products.len()
        invariant
            i <= entry.products@.len(),
            forall|j: int|
                0 <= j < i ==> !product_affected(#[trigger] entry.products@[j], version@),
        decreases entry.products.len() - i,
    {
        match &entry.products[i].product_version {
            Some(raw) => {
                let range = parse_range(raw.as_str());
                if range_contains(&range, version) {
                    assert(product_affected(entry.products@[i as int], version@));
                    return true;
                }
            },
            None => {},
        }
        i = i + 1;
    }
    false
}

/// The fix ceiling of one product.
pub open spec fn product_ceiling(p: Product) -> Option<Seq<char>> {
    match opt_text(p.product_version) {
        Some(raw) => match range_of(raw) {
            AffectedView::Below(up) => Some(up),
            AffectedView::Range(_, up) => Some(up),
            _ => None,
        },
        None => None,
    }
}

/// The tightest fix ceiling of the first `n` products. The first of equals stays.
pub open spec fn ceiling_among(products: Seq<Product>, n: nat) -> Option<Seq<char>>
    decreases n,
{
    if n == 0 || n > products.len() {
        None
    } else {
        let best = ceiling_among(products, (n - 1) as nat);
        match product_ceiling(products[n - 1]) {
            Some(up) => if best is None || rank(up, best->0) == Rank::Less {
                Some(up)
            } else {
                best
            },
            None => best,
        }
    }
}

/// The tightest fix ceiling across an entry's products.
pub open spec fn tightest(e: Entry) -> Option<Seq<char>> {
    ceiling_among(e.products@, e.products@.len())
}

fn product_ceiling_of(p: &Product) -> (r: Option<String>)
    ensures
        opt_text(r) == product_ceiling(*p),
{
    match &p.product_version {
        Some(raw) => match parse_range(raw.as_str()) {
            Affected::Below(up) => Some(up),
            Affected::Range(_, up) => Some(up),
            _ => None,
        },
        None => None,
    }
}

/// The tightest fix ceiling across an entry's products, for [`Advisory::fixed_in`].
pub fn entry_ceiling(entry: &Entry) -> (r: Option<String>)
    ensures
        opt_text(r) == tightest(*entry),
{
    let mut best: Option<String> = None;
    let mut i: usize = 0;
    while i < entry.products.len()
        invariant
            i <= entry.products@.len(),
            opt_text(best) == ceiling_among(entry.products@, i as nat),
        decreases entry.products.len() - i,
    {
        match product_ceiling_of(&entry.products[i]) {
            Some(up) => {
                let tighter = match &best {
                    Some(b) => is_below(up.as_str(), b.as_str()),
                    None => true,
                };
                if tighter {
                    best = Some(up);
                }
            },
            None => {},
        }
        i = i + 1;
    }
    best
}

/// The pieces that are not empty.
pub open spec fn not_empty(parts: Seq<Seq<char>>) -> Seq<Seq<char>>
    decreases parts.len(),
{
    if parts.len() == 0 {
        Seq::empty()
    } else if parts.last().len() == 0 {
        not_empty(parts.drop_last())
    } else {
        not_empty(parts.drop_last()).push(parts.last())
    }
}

/// The items of a list joined by commas, semicolons or white space.
pub open spec fn list_items(s: Option<Seq<char>>) -> Seq<Seq<char>> {
    match s {
        Some(t) => not_empty(split(t, CharClass::ListBreak)),
        None => Seq::empty(),
    }
}

/// Whether an item is a web address.
pub open spec fn is_web(s: Seq<char>) -> bool {
    opens(s, "http://"@) || opens(s, "https://"@)
}

/// The web addresses of a list.
pub open spec fn web_items(items: Seq<Seq<char>>) -> Seq<Seq<char>>
    decreases items.len(),
{
    if items.len() == 0 {
        Seq::empty()
    } else if is_web(items.last()) {
        web_items(items.drop_last()).push(items.last())
    } else {
        web_items(items.drop_last())
    }
}

/// The first CVE identifier from `i` on.
pub open spec fn first_cve(items: Seq<Seq<char>>, i: int) -> Option<Seq<char>>
    decreases items.len() - i,
{
    if i < 0 || i >= items.len() {
        None
    } else if opens(items[i], "CVE-"@) {
        Some(items[i])
    } else {
        first_cve(items, i + 1)
    }
}

/// The advisory that an entry makes. The earliest CVE alias is the primary id if one
/// is present — that's more useful for cross-referencing than `EUVD-…`.
pub open spec fn advised(e: Entry) -> AdvisoryView {
    let aliases = list_items(opt_text(e.aliases));
    AdvisoryView {
        id: match first_cve(aliases, 0) {
            Some(id) => id,
            None => e.id@,
        },
        source: Source::Euvd,
        summary: match opt_text(e.description) {
            Some(s) => s,
            None => Seq::empty(),
        },
        severity: e.score_severity,
        fixed_in: tightest(e),
        aliases: if aliases.len() == 0 {
            seq![e.id@]
        } else {
            aliases
        },
        published: opt_text(e.date_published),
        references: web_items(list_items(opt_text(e.references))),
    }
}

fn list_items_of(s: &Option<String>) -> (r: Vec<String>)
    ensures
        texts(r@) == list_items(opt_text(*s)),
{
    let mut out: Vec<String> = Vec::new();
    assert(texts(out@) =~= Seq::empty());
    let t = match s {
        Some(t) => t,
        None => {
            return out;
        },
    };
    let parts = split_of(t.as_str(), CharClass::ListBreak);
    let ghost all = texts(parts@);
    let mut i: usize = 0;
    assert(all.take(0) =~= Seq::empty());
    while i < parts.len()
        invariant
            i <= parts@.len(),
            all == texts(parts@),
            texts(out@) == not_empty(all.take(i as int)),
        decreases parts.len() - i,
    {
        assert(all.take(i + 1).drop_last() =~= all.take(i as int));
        assert(all.take(i + 1).last() == parts@[i as int]@);
        if !parts[i].as_str().is_empty() {
            let ghost before = texts(out@);
            out.push(parts[i].clone());
            assert(texts(out@) =~= before.push(parts@[i as int]@));
        }
        i = i + 1;
    }
    assert(all.take(all.len() as int) =~= all);
    out
}

fn web_items_of(items: &Vec<String>) -> (r: Vec<String>)
    ensures
        texts(r@) == web_items(texts(items@)),
{
    let ghost all = texts(items@);
    let mut out: Vec<String> = Vec::new();
    let mut i: usize = 0;
    assert(all.take(0) =~= Seq::empty());
    assert(texts(out@) =~= Seq::empty());
    while i < items.len()
        invariant
            i <= items@.len(),
            all == texts(items@),
            texts(out@) == web_items(all.take(i as int)),
        decreases items.len() - i,
    {
        assert(all.take(i + 1).drop_last() =~= all.take(i as int));
        assert(all.take(i + 1).last() == items@[i as int]@);
        let s = items[i].as_str();
        if starts_with(s, "http://") || starts_with(s, "https://") {
            let ghost before = texts(out@);
            out.push(s.to_owned());
            assert(texts(out@) =~= before.push(s@));
        }
        i = i + 1;
    }
    assert(all.take(all.len() as int) =~= all);
    out
}

fn first_cve_of(items: &Vec<String>) -> (r: Option<String>)
    ensures
        opt_text(r) == first_cve(texts(items@), 0),
{
    let ghost all = texts(items@);
    let mut i: usize = 0;
    while i < items.len()
        invariant
            i <= items@.len(),
            all == texts(items@),
            first_cve(all, 0) == first_cve(all, i as int),
        decreases items.len() - i,
    {
        assert(all[i as int] == items@[i as int]@);
        if starts_with(items[i].as_str(), "CVE-") {
            return Some(items[i].clone());
        }
        i = i + 1;
    }
    None
}

/// The advisory that an entry makes.
pub fn to_advisory(entry: &Entry) -> (r: Advisory)
    ensures
        r@ == advised(*entry),
{
    let aliases = list_items_of(&entry.aliases);
    let references = web_items_of(&list_items_of(&entry.references));
    let id = match first_cve_of(&aliases) {
        Some(id) => id,
        None => entry.id.clone(),
    };
    let aliases = if aliases.len() == 0 {
        let mut only: Vec<String> = Vec::new();
        only.push(entry.id.clone());
        assert(texts(only@) =~= seq![entry.id@]);
        only
    } else {
        aliases
    };
    Advisory {
        id,
        source: Source::Euvd,
        summary: match &entry.description {
            Some(s) => s.clone(),
            None => String::new(),
        },
        severity: entry.score_severity,
        fixed_in: entry_ceiling(entry),
        aliases,
        published: copy_opt(&entry.date_published),
        references,
    }
}

/// The advisories of the entries that affect `version`, in order.
pub open spec fn matches(entries: Seq<Entry>, version: Seq<char>) -> Seq<AdvisoryView>
    decreases entries.len(),
{
    if entries.len() == 0 {
        Seq::empty()
    } else {
        let rest = matches(entries.drop_last(), version);
        if entry_affects(entries.last(), version) {
            rest.push(advised(entries.last()))
        } else {
            rest
        }
    }
}

/// The advisories of the entries whose affected range covers `version`.
pub fn select(entries: &Vec<Entry>, version: &str) -> (r: Vec<Advisory>)
    ensures
        advisories(r@) == matches(entries@, version@),
{
    let mut out: Vec<Advisory> = Vec::new();
    let mut i: usize = 0;
    assert(entries@.take(0) =~= Seq::empty());
    assert(advisories(out@) =~= Seq::empty());
    while i < entries.len()
        invariant
            i <= entries@.len(),
            advisories(out@) == matches(entries@.take(i as int), version@),
        decreases entries.len() - i,
    {
        assert(entries@.take(i + 1).drop_last() =~= entries@.take(i as int));
        if affects(&entries[i], version) {
            let ghost before = advisories(out@);
            let a = to_advisory(&entries[i]);
            out.push(a);
            assert(advisories(out@) =~= before.push(a@));
        }
        i = i + 1;
    }
    assert(entries@.take(entries@.len() as int) =~= entries@);
    out
}

/// A pre-fetched set of entries, one shard per vendor and product, for a build that
/// cannot ask EUVD itself.
#[derive(Debug)]
pub struct Shards {
    pub shards: Vec<(String, String, Vec<Entry>)>,
    pub version: Option<String>,
}

/// The newest shard of a vendor and product among the first `n`.
pub open spec fn shard_of(
    v: Seq<(String, String, Vec<Entry>)>,
    vendor: Seq<char>,
    product: Seq<char>,
    n: nat,
) -> Option<Seq<Entry>>
    decreases n,
{
    if n == 0 || n > v.len() {
        None
    } else if v[n - 1].0@ == vendor && v[n - 1].1@ == product {
        Some(v[n - 1].2@)
    } else {
        shard_of(v, vendor, product, (n - 1) as nat)
    }
}

impl Default for Shards {
    fn default() -> (r: Shards)
        ensures
            r.shards@.len() == 0,
            r.version is None,
    {
        Shards { shards: Vec::new(), version: None }
    }
}

impl Shards {
    /// The entries held for a vendor and product.
    pub open spec fn entries(self, vendor: Seq<char>, product: Seq<char>) -> Option<Seq<Entry>> {
        shard_of(self.shards@, vendor, product, self.shards@.len())
    }

    /// Store one shard, keyed by the exact strings a lookup passes. It replaces an
    /// earlier one; the others and the version stay.
    pub fn set_shard(&mut self, vendor: String, product: String, entries: Vec<Entry>)
        ensures
            final(self).entries(vendor@, product@) == Some(entries@),
            forall|v: Seq<char>, p: Seq<char>|
                (v != vendor@ || p != product@) ==> #[trigger] final(self).entries(v, p) == old(
                    self,
                ).entries(v, p),
            final(self).version == old(self).version,
    {
        let ghost before = self.shards@;
        self.shards.push((vendor, product, entries));
        proof {
            assert forall|v: Seq<char>, p: Seq<char>|
                (v != vendor@ || p != product@) implies #[trigger] self.entries(v, p) == shard_of(
                before,
                v,
                p,
                before.len(),
            ) by {
                lemma_shard_prefix(self.shards@, before, v, p, before.len());
            }
        }
    }

    /// Mark the loaded shards as the active snapshot at `version`.
    pub fn commit(&mut self, version: String)
        ensures
            final(self).version == Some(version),
            final(self).shards == old(self).shards,
    {
        self.version = Some(version);
    }

    /// The active snapshot version, or `None` if nothing is loaded yet.
    pub fn version(&self) -> (r: Option<String>)
        ensures
            opt_text(r) == opt_text(self.version),
    {
        copy_opt(&self.version)
    }

    /// Advisories from the loaded shard for `(vendor, product)` whose affected
    /// range covers `version` — the snapshot equivalent of a live query.
    pub fn matching(&self, vendor: &str, product: &str, version: &str) -> (r: Vec<Advisory>)
        ensures
            advisories(r@) == match self.entries(vendor@, product@) {
                Some(e) => matches(e, version@),
                None => Seq::empty(),
            },
    {
        let mut n: usize = self.shards.len();
        while n > 0
            invariant
                n <= self.shards@.len(),
                self.entries(vendor@, product@) == shard_of(
                    self.shards@,
                    vendor@,
                    product@,
                    n as nat,
                ),
            decreases n,
        {
            if same(self.shards[n - 1].0.as_str(), vendor) && same(
                self.shards[n - 1].1.as_str(),
                product,
            ) {
                return select(&self.shards[n - 1].2, version);
            }
            n = n - 1;
        }
        let none: Vec<Advisory> = Vec::new();
        assert(advisories(none@) =~= Seq::empty());
        none
    }
}

proof fn lemma_shard_prefix(
    long: Seq<(String, String, Vec<Entry>)>,
    short: Seq<(String, String, Vec<Entry>)>,
    vendor: Seq<char>,
    product: Seq<char>,
    n: nat,
)
    requires
        n <= short.len() <= long.len(),
        forall|i: int| 0 <= i < short.len() ==> long[i] == short[i],
    ensures
        shard_of(long, vendor, product, n) == shard_of(short, vendor, product, n),
    decreases n,
{
    if n > 0 {
        lemma_shard_prefix(long, short, vendor, product, (n - 1) as nat);
    }
}

/// A version at or past the fix ceiling of an expression is not in its range.
pub proof fn lemma_fixed_is_not_in_range(raw: Seq<char>, version: Seq<char>, up: Seq<char>)
    requires
        range_of(raw) == AffectedView::Below(up) || (exists|lo: Seq<char>|
            range_of(raw) == AffectedView::Range(lo, up)),
        rank(version, up) != Rank::Less,
    ensures
        !in_range(range_of(raw), version),
{
}

/// A range that is parsed is never empty of sense: its floor lies below its ceiling.
pub proof fn lemma_range_is_ordered(raw: Seq<char>)
    ensures
        range_of(raw) matches AffectedView::Range(lo, up) ==> rank(lo, up) == Rank::Less,
{
}

/// The ceiling of an entry is one of its products' ceilings, and none is tighter.
pub proof fn lemma_tightest(e: Entry)
    ensures
        match tightest(e) {
            Some(c) => {
                &&& exists|i: int|
                    0 <= i < e.products@.len() && product_ceiling(#[trigger] e.products@[i]) == Some(
                        c,
                    )
                &&& forall|i: int|
                    0 <= i < e.products@.len() ==> (product_ceiling(
                        #[trigger] e.products@[i],
                    ) matches Some(d) ==> rank(d, c) != Rank::Less)
            },
            None => forall|i: int|
                0 <= i < e.products@.len() ==> product_ceiling(#[trigger] e.products@[i]) is None,
        },
{
    lemma_ceiling_among(e.products@, e.products@.len());
}

proof fn lemma_ceiling_among(products: Seq<Product>, n: nat)
    requires
        n <= products.len(),
    ensures
        match ceiling_among(products, n) {
            Some(c) => {
                &&& exists|i: int| 0 <= i < n && product_ceiling(#[trigger] products[i]) == Some(c)
                &&& forall|i: int|
                    0 <= i < n ==> (product_ceiling(#[trigger] products[i]) matches Some(d) ==> rank(
                        d,
                        c,
                    ) != Rank::Less)
            },
            None => forall|i: int|
                0 <= i < n ==> product_ceiling(#[trigger] products[i]) is None,
        },
    decreases n,
{
    if n > 0 {
        lemma_ceiling_among(products, (n - 1) as nat);
        let best = ceiling_among(products, (n - 1) as nat);
        match product_ceiling(products[n - 1]) {
            Some(up) => {
                crate::version::lemma_rank_reflexive(up);
                if best is None || rank(up, best->0) == Rank::Less {
                    assert(product_ceiling(products[n - 1]) == Some(up));
                    assert forall|i: int| 0 <= i < n implies (product_ceiling(
                        #[trigger] products[i],
                    ) matches Some(d) ==> rank(d, up) != Rank::Less) by {
                        if i < n - 1 && product_ceiling(products[i]) is Some && best is Some {
                            let d = product_ceiling(products[i])->0;
                            let b = best->0;
                            crate::version::lemma_rank_flips(d, b);
                            crate::version::lemma_rank_flips(d, up);
                            crate::version::lemma_rank_transitive(up, b, d);
                        }
                    }
                } else {
                    let i = choose|i: int|
                        0 <= i < n - 1 && product_ceiling(#[trigger] products[i]) == best;
                    assert(product_ceiling(products[i]) == best);
                }
            },
            None => {
                if best is Some {
                    let i = choose|i: int|
                        0 <= i < n - 1 && product_ceiling(#[trigger] products[i]) == best;
                    assert(product_ceiling(products[i]) == best);
                }
            },
        }
    }
}

} // verus!
