//! Vulnerability lookup for detected runtimes and bundled npm dependencies.
//!
//! | Runtime / target      | Source                                 |
//! |-----------------------|----------------------------------------|
//! | Electron              | OSV, ecosystem `npm`                   |
//! | Tauri                 | OSV, ecosystem `crates.io`             |
//! | Node.js core          | NVD, `cpe:2.3:a:nodejs:node.js:*`      |
//! | Chromium              | NVD, `cpe:2.3:a:google:chrome:*`       |
//! | CEF (embedded Chrome) | NVD, `cpe:2.3:a:google:chrome:*`       |
//!
//! The library decides *what* to ask ([`plan`]), takes the answers as they come
//! ([`take_known`], [`take_answer`]) and says what a report holds after each; whoever
//! drives it does the asking.

pub mod advisory;
pub mod cache;
pub mod euvd;
pub mod filter;
pub mod gather;
pub mod gather_laws;
pub mod laws;
pub mod nvd;
pub mod plan;
pub mod report;
pub mod settings;
pub mod snapshot;
pub mod source_laws;
pub mod version;

pub use advisory::{Advisory, Severity, Source};
pub use filter::{
    apply_age_filter, apply_relevance_filter, cef_chromium_version, filter_npm_by_age, finalize,
    is_relevant,
};
pub use gather::{report_for, report_for_streaming, take_answer, take_known};
pub use plan::{plan, snapshot_answers, Lookup, Query};
pub use report::{
    http_error, Bucket, CveReport, Error, HttpFailure, NpmPackage, NpmPackageAdvisories, Session,
};
pub use settings::{
    settings_path, EuvdSettings, FilterSettings, GhsaSettings, NvdSettings, OsvSettings, Settings,
    SourceSettings,
};

use vstd::prelude::*;

use crate::cve::cache::Store;
use crate::cve::euvd::{Entry, Shards};
use crate::text::opt_text;

verus! {

/// Load one EUVD snapshot shard into the store that a browser build's EUVD lookup
/// reads. It can't query EUVD directly — EUVD blocks browser-origin requests — so
/// it ships a pre-fetched per-runtime snapshot. `parsed` is what came of reading the
/// shard's bytes: a shard that could not be read leaves the store as it was.
pub fn euvd_set_shard(
    shards: &mut Shards,
    vendor: String,
    product: String,
    parsed: Result<Vec<Entry>, String>,
) -> (r: Result<(), String>)
    ensures
        match parsed {
            Ok(entries) => {
                &&& r is Ok
                &&& final(shards).entries(vendor@, product@) == Some(entries@)
                &&& forall|v: Seq<char>, p: Seq<char>|
                    (v != vendor@ || p != product@) ==> #[trigger] final(shards).entries(v, p)
                        == old(shards).entries(v, p)
            },
            Err(message) => {
                &&& r == Err::<(), String>(message)
                &&& *final(shards) == *old(shards)
            },
        },
        final(shards).version == old(shards).version,
{
    match parsed {
        Ok(entries) => {
            shards.set_shard(vendor, product, entries);
            Ok(())
        },
        Err(message) => Err(message),
    }
}

/// Mark the loaded EUVD shards as the active snapshot at `version` and drop the
/// session cache, so a mid-session update can't serve stale advisories.
pub fn euvd_commit(shards: &mut Shards, store: &mut Store, version: String)
    ensures
        final(shards).version == Some(version),
        final(shards).shards == old(shards).shards,
        final(store)@ == Map::<Seq<char>, Seq<u8>>::empty(),
{
    shards.commit(version);
    store.clear();
}

/// The active EUVD snapshot version, or `None` if none is loaded yet.
pub fn euvd_snapshot_version(shards: &Shards) -> (r: Option<String>)
    ensures
        opt_text(r) == opt_text(shards.version),
{
    shards.version()
}

} // verus!
