//! Cache for advisory lookups.
//!
//! Historical CVE data for a given `(source, name, version)` is monotonic:
//! new advisories appear over time, existing ones don't retroactively change.
//! So we cache aggressively (24h TTL) and refetch on expiry to pick up
//! anything new.

use vstd::prelude::*;

use crate::bytes::copy_of;
use crate::path::{push_of, pushed};
use crate::text::{chars_of, concat, concat3, opt_text, same};

verus! {

/// How long an entry is served, in seconds.
pub const DEFAULT_TTL_SECS: u64 = 86_400;

/// Whether an entry stored at `stored_at` is still served at `now`. One that claims
/// to come from the future is.
pub open spec fn fresh(stored_at: u64, now: u64) -> bool {
    now - stored_at <= DEFAULT_TTL_SECS
}

/// Whether an entry stored at `stored_at` is still served at `now`.
pub fn is_fresh(stored_at: u64, now: u64) -> (r: bool)
    ensures
        r == fresh(stored_at, now),
{
    now.saturating_sub(stored_at) <= DEFAULT_TTL_SECS
}

/// Characters that stand in a key as they are.
pub open spec fn is_safe(c: char) -> bool {
    ||| 'a' <= c <= 'z'
    ||| 'A' <= c <= 'Z'
    ||| '0' <= c <= '9'
    ||| c == '-'
    ||| c == '.'
    ||| c == '_'
    ||| c == '@'
}

/// A character of a key: any that is not safe becomes an underscore.
pub open spec fn safe_char(c: char) -> char {
    if is_safe(c) {
        c
    } else {
        '_'
    }
}

/// A lookup key as a filesystem-safe token.
pub open spec fn sanitised(key: Seq<char>) -> Seq<char> {
    key.map_values(|c: char| safe_char(c))
}

/// Reduce a lookup key to a filesystem-/map-safe token.
pub fn sanitise(key: &str) -> (r: String)
    ensures
        r@ == sanitised(key@),
{
    let x = chars_of(key);
    let mut out: String = String::new();
    let mut i: usize = 0;
    while i < x.len()
        invariant
            x@ == key@,
            i <= x@.len(),
            out@ == sanitised(key@).take(i as int),
        decreases x.len() - i,
    {
        let c = x[i];
        let safe = ('a' <= c && c <= 'z') || ('A' <= c && c <= 'Z') || ('0' <= c && c <= '9') || c
            == '-' || c == '.' || c == '_' || c == '@';
        out.push(
            if safe {
                c
            } else {
                '_'
            },
        );
        assert(out@ =~= sanitised(key@).take(i + 1));
        i = i + 1;
    }
    assert(sanitised(key@).take(key@.len() as int) =~= sanitised(key@));
    out
}

/// A sanitised key holds only safe characters, keeps its length, and does not change
/// when it is sanitised again.
pub proof fn lemma_sanitised(key: Seq<char>)
    ensures
        forall|i: int| 0 <= i < sanitised(key).len() ==> is_safe(#[trigger] sanitised(key)[i]),
        sanitised(key).len() == key.len(),
        sanitised(sanitised(key)) == sanitised(key),
{
    assert(sanitised(sanitised(key)) =~= sanitised(key));
}

/// The key of a lookup: the source, the vendor, the product and the version.
pub open spec fn key_text(
    source: Seq<char>,
    vendor: Seq<char>,
    product: Seq<char>,
    version: Seq<char>,
) -> Seq<char> {
    source + "-"@ + vendor + "-"@ + product + "-"@ + version
}

/// The key that a lookup of a version is cached under.
pub fn lookup_key(source: &str, vendor: &str, product: &str, version: &str) -> (r: String)
    ensures
        r@ == key_text(source@, vendor@, product@, version@),
{
    let mut s = concat3(source, "-", vendor);
    s.append("-");
    s.append(product);
    s.append("-");
    s.append(version);
    s
}

/// Where the answer under a safe key is kept.
pub open spec fn entry_file(cache_dir: Option<Seq<char>>, safe_key: Seq<char>) -> Option<Seq<char>> {
    match cache_dir {
        Some(d) => Some(pushed(pushed(pushed(d, "achilles"@), "cve"@), safe_key + ".json"@)),
        None => None,
    }
}

/// Where an entry is kept below a cache directory.
pub fn entry_path(cache_dir: &Option<String>, safe_key: &str) -> (r: Option<String>)
    ensures
        opt_text(r) == entry_file(opt_text(*cache_dir), safe_key@),
{
    match cache_dir {
        Some(d) => {
            let base = push_of(push_of(d.as_str(), "achilles").as_str(), "cve");
            Some(push_of(base.as_str(), concat(safe_key, ".json").as_str()))
        },
        None => None,
    }
}

/// An in-memory, per-session store of raw entries.
#[derive(Debug)]
pub struct Store {
    pub entries: Vec<(String, Vec<u8>)>,
}

/// The model of a [`Store`]: the newest entry of each key.
pub open spec fn stored(v: Seq<(String, Vec<u8>)>) -> Map<Seq<char>, Seq<u8>>
    decreases v.len(),
{
    if v.len() == 0 {
        Map::empty()
    } else {
        stored(v.drop_last()).insert(v.last().0@, v.last().1@)
    }
}

impl View for Store {
    type V = Map<Seq<char>, Seq<u8>>;

    open spec fn view(&self) -> Map<Seq<char>, Seq<u8>> {
        stored(self.entries@)
    }
}

impl Default for Store {
    fn default() -> (r: Store)
        ensures
            r@ == Map::<Seq<char>, Seq<u8>>::empty(),
    {
        Store { entries: Vec::new() }
    }
}

impl Store {
    /// The entry of a key.
    pub fn read_raw(&self, safe_key: &str) -> (r: Option<Vec<u8>>)
        ensures
            match r {
                Some(v) => self@.dom().contains(safe_key@) && v@ == self@[safe_key@],
                None => !self@.dom().contains(safe_key@),
            },
    {
        let mut n: usize = self.entries.len();
        assert(self.entries@.take(n as int) =~= self.entries@);
        while n > 0
            invariant
                n <= self.entries@.len(),
                self@.dom().contains(safe_key@) == stored(
                    self.entries@.take(n as int),
                ).dom().contains(safe_key@),
                self@.dom().contains(safe_key@) ==> self@[safe_key@] == stored(
                    self.entries@.take(n as int),
                )[safe_key@],
            decreases n,
        {
            assert(self.entries@.take(n as int).drop_last() =~= self.entries@.take(n - 1));
            if same(self.entries[n - 1].0.as_str(), safe_key) {
                return Some(copy_of(self.entries[n - 1].1.as_slice()));
            }
            n = n - 1;
        }
        None
    }

    /// Stores an entry.
    pub fn write_raw(&mut self, safe_key: &str, bytes: Vec<u8>)
        ensures
            final(self)@ == old(self)@.insert(safe_key@, bytes@),
    {
        let ghost before = self.entries@;
        self.entries.push((safe_key.to_owned(), bytes));
        assert(self.entries@.drop_last() =~= before);
    }

    /// Drop every cached entry: a fresh snapshot must not be masked by a stale
    /// lookup result from earlier in the session.
    pub fn clear(&mut self)
        ensures
            final(self)@ == Map::<Seq<char>, Seq<u8>>::empty(),
    {
        self.entries = Vec::new();
    }
}

} // verus!
