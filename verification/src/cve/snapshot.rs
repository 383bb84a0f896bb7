//! Local VDB snapshot.
//!
//! Instead of querying the public sources live, a device can match against a
//! snapshot bundle downloaded from a trusted host. The bundle groups normalised
//! [`Advisory`] records by **product key** (matching the report buckets), each
//! carrying a `fixed_in` ceiling so version matching reuses the same logic as the
//! live path.

use vstd::prelude::*;

use crate::cve::advisory::{advisories, Advisory, AdvisoryView};
use crate::cve::version::{at_or_above, reaches_ceiling};
use crate::path::{push_of, pushed};
use crate::text::{opt_text, same};

verus! {

/// A downloaded VDB snapshot: advisories grouped by product key.
#[derive(Debug)]
pub struct Snapshot {
    /// Bundle format version; reserved for future migrations.
    pub schema_version: u32,
    /// Unix seconds the host generated the bundle. Freshness is judged by the
    /// downloader, not here.
    pub generated_at: u64,
    /// Advisories keyed by product (`chromium`, `electron`, `node`, `deno`, …). No
    /// product occurs twice; were it to, the first would count.
    pub products: Vec<(String, Vec<Advisory>)>,
}

/// The model of the products.
pub open spec fn product_list(v: Seq<(String, Vec<Advisory>)>) -> Seq<
    (Seq<char>, Seq<AdvisoryView>),
> {
    v.map_values(|p: (String, Vec<Advisory>)| (p.0@, advisories(p.1@)))
}

/// The place of a product at or after `i`.
pub open spec fn product_place(
    v: Seq<(Seq<char>, Seq<AdvisoryView>)>,
    product: Seq<char>,
    i: int,
) -> Option<int>
    decreases v.len() - i,
{
    if i < 0 || i >= v.len() {
        None
    } else if v[i].0 == product {
        Some(i)
    } else {
        product_place(v, product, i + 1)
    }
}

impl View for Snapshot {
    type V = Seq<(Seq<char>, Seq<AdvisoryView>)>;

    open spec fn view(&self) -> Seq<(Seq<char>, Seq<AdvisoryView>)> {
        product_list(self.products@)
    }
}

/// Whether an advisory can apply to `version`: it has no fix ceiling, or one that the
/// version has not reached.
pub open spec fn open_for(a: AdvisoryView, version: Seq<char>) -> bool {
    match a.fixed_in {
        Some(c) => !reaches_ceiling(version, c),
        None => true,
    }
}

/// The advisories of `list` that can apply to `version`, in order.
pub open spec fn open_advisories(list: Seq<AdvisoryView>, version: Seq<char>) -> Seq<AdvisoryView>
    decreases list.len(),
{
    if list.len() == 0 {
        Seq::empty()
    } else {
        let rest = open_advisories(list.drop_last(), version);
        if open_for(list.last(), version) {
            rest.push(list.last())
        } else {
            rest
        }
    }
}

/// What a snapshot answers for a product.
pub open spec fn answer(
    products: Seq<(Seq<char>, Seq<AdvisoryView>)>,
    product: Seq<char>,
    version: Seq<char>,
) -> Seq<AdvisoryView> {
    match product_place(products, product, 0) {
        Some(i) => open_advisories(products[i].1, version),
        None => Seq::empty(),
    }
}

/// Where the snapshot is kept.
pub open spec fn snapshot_file(cache_dir: Option<Seq<char>>) -> Option<Seq<char>> {
    match cache_dir {
        Some(d) => Some(pushed(pushed(d, "achilles"@), "vdb-snapshot.json"@)),
        None => None,
    }
}

/// Path of the on-disk snapshot below a cache directory.
pub fn snapshot_path(cache_dir: &Option<String>) -> (r: Option<String>)
    ensures
        opt_text(r) == snapshot_file(opt_text(*cache_dir)),
{
    match cache_dir {
        Some(d) => Some(push_of(push_of(d.as_str(), "achilles").as_str(), "vdb-snapshot.json")),
        None => None,
    }
}

fn is_open_for(a: &Advisory, version: &str) -> (r: bool)
    ensures
        r == open_for(a@, version@),
{
    match &a.fixed_in {
        Some(c) => !at_or_above(version, c.as_str()),
        None => true,
    }
}

impl Snapshot {
    fn place(&self, product: &str) -> (r: Option<usize>)
        ensures
            match r {
                Some(i) => product_place(self@, product@, 0) == Some(i as int) && i
                    < self.products@.len(),
                None => product_place(self@, product@, 0) is None,
            },
    {
        let mut i: usize = 0;
        while i < self.products.len()
            invariant
                i <= self.products@.len(),
                product_place(self@, product@, 0) == product_place(self@, product@, i as int),
            decreases self.products.len() - i,
        {
            assert(self@[i as int].0 == self.products@[i as int].0@);
            if same(self.products[i].0.as_str(), product) {
                return Some(i);
            }
            i = i + 1;
        }
        None
    }

    /// Whether the snapshot carries advisories for `product` — i.e. whether it
    /// can answer for this runtime without falling back to public sources.
    pub fn covers(&self, product: &str) -> (r: bool)
        ensures
            r == product_place(self@, product@, 0) is Some,
    {
        self.place(product).is_some()
    }

    /// Advisories for `product` that apply to `version`, pre-filtered by the
    /// `fixed_in` ceiling so the bucket isn't flooded. An advisory with no
    /// `fixed_in` is kept — the central pass can still trim it via prose ceilings.
    pub fn advisories_for(&self, product: &str, version: &str) -> (r: Vec<Advisory>)
        ensures
            advisories(r@) == answer(self@, product@, version@),
    {
        let mut out: Vec<Advisory> = Vec::new();
        assert(advisories(out@) =~= Seq::empty());
        let k = match self.place(product) {
            Some(k) => k,
            None => {
                return out;
            },
        };
        let list = &self.products[k].1;
        let ghost all = advisories(list@);
        assert(self@[k as int].1 == all);
        let mut i: usize = 0;
        assert(all.take(0) =~= Seq::empty());
        while i < list.len()
            invariant
                i <= list@.len(),
                all == advisories(list@),
                advisories(out@) == open_advisories(all.take(i as int), version@),
            decreases list.len() - i,
        {
            assert(all.take(i + 1).drop_last() =~= all.take(i as int));
            assert(all.take(i + 1).last() == list@[i as int]@);
            if is_open_for(&list[i], version) {
                let ghost before = advisories(out@);
                let copy = list[i].copy();
                out.push(copy);
                assert(advisories(out@) =~= before.push(copy@));
            }
            i = i + 1;
        }
        assert(all.take(all.len() as int) =~= all);
        out
    }
}

} // verus!
