//! User-configurable settings for CVE sources.
//!
//! Stored as JSON below the user's configuration directory, readable by the user
//! alone (tokens may be present). A missing file yields [`Settings::default`].
//!
//! Defaults: OSV + NVD on (both unauthenticated); EUVD + GHSA off. Users opt in
//! explicitly — GHSA because it requires a token, EUVD because it queries EU-CNA data
//! that might not be wanted by default. A browser, from which NVD refuses requests, has
//! EUVD in its place.

use vstd::prelude::*;

use crate::path::{push_of, pushed};
use crate::text::opt_text;

verus! {

/// All settings.
#[derive(Debug)]
pub struct Settings {
    pub sources: SourceSettings,
    pub filters: FilterSettings,
}

/// Post-lookup filtering applied to every report.
#[derive(Debug, Clone, Copy)]
pub struct FilterSettings {
    /// Drop advisories whose `published` year is older than `N` years
    /// before the current year. `None` disables the filter. Default: 5.
    ///
    /// Wide-net CPEs (Safari, Java, Qt, …) otherwise return decades of
    /// irrelevant history. Advisories with no `published` date are kept
    /// regardless.
    pub max_age_years: Option<u32>,
}

/// Which sources are asked, and with which credentials.
#[derive(Debug)]
pub struct SourceSettings {
    pub osv: OsvSettings,
    pub nvd: NvdSettings,
    pub euvd: EuvdSettings,
    pub ghsa: GhsaSettings,
}

#[derive(Debug, Clone, Copy)]
pub struct OsvSettings {
    pub enabled: bool,
}

#[derive(Debug)]
pub struct NvdSettings {
    pub enabled: bool,
    /// Optional API key. 5 req/30s without, 50 req/30s with.
    pub api_key: Option<String>,
}

#[derive(Debug, Clone, Copy)]
pub struct EuvdSettings {
    pub enabled: bool,
}

#[derive(Debug)]
pub struct GhsaSettings {
    pub enabled: bool,
    /// Required for any GHSA query — the unauthenticated rate limit is too low to
    /// be useful.
    pub token: Option<String>,
}

impl Default for FilterSettings {
    fn default() -> (r: FilterSettings)
        ensures
            r.max_age_years == Some(5u32),
    {
        FilterSettings { max_age_years: Some(5) }
    }
}

impl SourceSettings {
    /// The out-of-the-box sources: OSV and NVD, or OSV and EUVD in a browser.
    pub open spec fn is_default(self, browser: bool) -> bool {
        &&& self.osv.enabled
        &&& self.nvd.enabled == !browser
        &&& self.nvd.api_key is None
        &&& self.euvd.enabled == browser
        &&& !self.ghsa.enabled
        &&& self.ghsa.token is None
    }

    /// The out-of-the-box sources.
    pub fn out_of_the_box(browser: bool) -> (r: SourceSettings)
        ensures
            r.is_default(browser),
    {
        SourceSettings {
            euvd: EuvdSettings { enabled: browser },
            osv: OsvSettings { enabled: true },
            nvd: NvdSettings { enabled: !browser, api_key: None },
            ghsa: GhsaSettings { enabled: false, token: None },
        }
    }
}

impl Default for SourceSettings {
    fn default() -> (r: SourceSettings)
        ensures
            r.is_default(false),
    {
        SourceSettings::out_of_the_box(false)
    }
}

impl Default for Settings {
    fn default() -> (r: Settings)
        ensures
            r.sources.is_default(false),
            r.filters.max_age_years == Some(5u32),
    {
        Settings { sources: SourceSettings::default(), filters: FilterSettings::default() }
    }
}

/// Where settings are stored below a configuration directory.
pub open spec fn settings_file(config_dir: Option<Seq<char>>) -> Option<Seq<char>> {
    match config_dir {
        Some(d) => Some(pushed(pushed(d, "achilles"@), "settings.json"@)),
        None => None,
    }
}

/// Path where settings are stored. `None` without a configuration directory.
pub fn settings_path(config_dir: &Option<String>) -> (r: Option<String>)
    ensures
        opt_text(r) == settings_file(opt_text(*config_dir)),
{
    match config_dir {
        Some(d) => Some(push_of(push_of(d.as_str(), "achilles").as_str(), "settings.json")),
        None => None,
    }
}

/// The settings in force: the stored ones, else the defaults. `stored` is what could
/// be read and parsed.
pub fn load(stored: Option<Settings>) -> (r: Settings)
    ensures
        match stored {
            Some(s) => r == s,
            None => r.sources.is_default(false) && r.filters.max_age_years == Some(5u32),
        },
{
    match stored {
        Some(s) => s,
        None => Settings::default(),
    }
}

/// What saving settings takes: where, in which directory, and with which permissions.
#[derive(Debug)]
pub struct SavePlan {
    pub dir: String,
    pub path: String,
    pub mode: u32,
}

/// The directory of the settings.
pub open spec fn settings_dir(config_dir: Seq<char>) -> Seq<char> {
    pushed(config_dir, "achilles"@)
}

/// The mode of the settings' file: they may hold keys, so only the owner reads them.
pub const SETTINGS_MODE: u32 = 0o600;

/// Where to save settings, readable by the user alone; an error without a
/// configuration directory.
pub fn save(config_dir: &Option<String>) -> (r: Result<SavePlan, &'static str>)
    ensures
        match r {
            Ok(plan) => {
                &&& *config_dir is Some
                &&& plan.dir@ == settings_dir(config_dir->0@)
                &&& plan.path@ == settings_file(opt_text(*config_dir))->0
                &&& plan.mode == SETTINGS_MODE
            },
            Err(e) => *config_dir is None && e@ == "could not determine config directory"@,
        },
{
    match config_dir {
        Some(d) => {
            let dir = push_of(d.as_str(), "achilles");
            let path = push_of(dir.as_str(), "settings.json");
            Ok(SavePlan { dir, path, mode: SETTINGS_MODE })
        },
        None => Err("could not determine config directory"),
    }
}

} // verus!
