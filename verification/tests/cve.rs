//! Advisory sources, the lookup plan, the report and its filters.

use achilles::cve::advisory::{Advisory, Severity, Source};
use achilles::cve::cache::{entry_path, is_fresh, lookup_key, sanitise, Store, DEFAULT_TTL_SECS};
use achilles::cve::euvd::{
    affects, entry_ceiling, pages, parse_range, search_term_of, Affected, Entry, Product, Shards,
};
use achilles::cve::filter::{advisory_year, current_year};
use achilles::cve::nvd::{
    backoff, cpe_name, cpe_version, decide, match_covers_version, Attempt, CpeMatch, Cve,
    CvssMetric, Description, Metrics, Next,
};
use achilles::cve::report::{name_of_source, HttpFailure, Outages};
use achilles::cve::settings::{load, save};
use achilles::cve::snapshot::{snapshot_path, Snapshot};
use achilles::cve::version::{at_or_above, fixed_ceiling_from_text, scoped_to_other_os, Os};
use achilles::cve::{
    apply_age_filter, apply_relevance_filter, cef_chromium_version, euvd_commit, euvd_set_shard,
    euvd_snapshot_version, filter_npm_by_age, finalize, http_error, is_relevant, plan, report_for,
    report_for_streaming, settings_path, snapshot_answers, take_answer, take_known, Bucket, CveReport, Error, NpmPackage, NpmPackageAdvisories,
    Query, Session, Settings, SourceSettings,
};
use achilles::detect::Versions;

/// 2026-01-01T00:00:00Z, in seconds since the epoch.
const START_OF_2026: u64 = 1_767_225_600;

#[test]
fn cef_chromium_version_extracts_embedded_build() {
    // macOS: full CEF version with the embedded Chromium build suffix.
    assert_eq!(
        cef_chromium_version("130.1.18+g5e85b92+chromium-130.0.6723.117"),
        Some("130.0.6723.117".into())
    );
    // Windows / Linux: probe already yields a bare Chromium version.
    assert_eq!(
        cef_chromium_version("130.0.6723.117"),
        Some("130.0.6723.117".into())
    );
    // Unknown / unusable strings produce no lookup version.
    assert_eq!(cef_chromium_version("unknown"), None);
    assert_eq!(cef_chromium_version(""), None);
}

fn adv(year: Option<&str>) -> Advisory {
    Advisory {
        id: "TEST".into(),
        source: Source::Nvd,
        summary: String::new(),
        severity: None,
        fixed_in: None,
        aliases: vec![],
        published: year.map(|y| format!("{y}-01-01T00:00:00Z")),
        references: vec![],
    }
}

#[test]
fn filter_drops_old_keeps_new_and_undated() {
    let mut report = CveReport {
        chromium: vec![
            adv(Some("1999")),
            adv(Some("2023")),
            adv(None),
            adv(Some("2026")),
        ],
        ..Default::default()
    };
    // Cutoff: 2026 - 3 = 2023 ⇒ keep ≥ 2023 and undated.
    apply_age_filter(&mut report, Some(3), START_OF_2026);
    assert_eq!(report.chromium.len(), 3);
    assert!(report
        .chromium
        .iter()
        .any(|a| a.published.as_deref() == Some("2023-01-01T00:00:00Z")));
    assert!(report.chromium.iter().any(|a| a.published.is_none()));
}

#[test]
fn safari_advisory_dropped_when_already_patched() {
    let summary = "The issue was addressed with improved memory handling. This issue is fixed in Safari 26.5, iOS 18.7.9 and iPadOS 18.7.9, iOS 26.5 and iPadOS 26.5, macOS Tahoe 26.5, tvOS 26.5, visionOS 26.5, watchOS 26.5. Processing maliciously crafted web content may lead to an unexpected process crash.";
    let advisory = Advisory {
        id: "CVE-2026-28847".into(),
        source: Source::Nvd,
        summary: summary.into(),
        severity: Some(Severity::High),
        fixed_in: None,
        aliases: vec![],
        published: Some("2026-01-01T00:00:00Z".into()),
        references: vec![],
    };
    let scanned = "26.5".to_string();
    // On macOS, running Safari 26.5: the fix is already shipped ⇒ drop.
    assert!(!is_relevant(&advisory, Some(&scanned), Some("Safari"), Os::Macos));
    // An older Safari is genuinely affected ⇒ keep.
    let old = "18.4".to_string();
    assert!(is_relevant(&advisory, Some(&old), Some("Safari"), Os::Macos));
}

#[test]
fn filter_disabled_keeps_all() {
    let mut report = CveReport {
        chromium: vec![adv(Some("1990")), adv(Some("2000"))],
        ..Default::default()
    };
    apply_age_filter(&mut report, None, START_OF_2026);
    assert_eq!(report.chromium.len(), 2);
}

// ---- EUVD --------------------------------------------------------------

fn product(v: &str) -> Entry {
    Entry {
        id: "EUVD-TEST".into(),
        description: None,
        date_published: None,
        score_severity: None,
        aliases: None,
        references: None,
        products: vec![Product {
            product_version: Some(v.into()),
        }],
    }
}

#[test]
fn parses_the_euvd_version_shapes() {
    assert_eq!(
        parse_range("unspecified <86.0.4240.111"),
        Affected::Below("86.0.4240.111".into())
    );
    assert_eq!(
        parse_range("prior to 73.0.3683.75"),
        Affected::Below("73.0.3683.75".into())
    );
    // Degenerate "X <X" (lower not below upper) collapses to Below(X).
    assert_eq!(
        parse_range("146.0.7680.153 <146.0.7680.153"),
        Affected::Below("146.0.7680.153".into())
    );
    // A genuine range keeps both bounds.
    assert_eq!(
        parse_range("100.0.0.0 <120.0.0.0"),
        Affected::Range("100.0.0.0".into(), "120.0.0.0".into())
    );
    assert_eq!(parse_range("garbage"), Affected::Unknown);
}

#[test]
fn affects_uses_the_fix_ceiling() {
    // Discord's Chromium build is below a 142.x fix → affected.
    assert!(affects(&product("unspecified <142.0.7444.0"), "138.0.7204.251"));
    // 1Password's build is at/above the fix → not affected.
    assert!(!affects(&product("unspecified <142.0.7444.0"), "142.0.7444.265"));
    // Numeric, not lexicographic: 138 < 99-suffixed build comparisons.
    assert!(affects(&product("146.0.7680.153 <146.0.7680.153"), "146.0.7680.99"));
    assert!(!affects(&product("146.0.7680.153 <146.0.7680.153"), "146.0.7680.153"));
}

#[test]
fn ceiling_is_the_tightest_fix() {
    let e = Entry {
        products: vec![
            Product {
                product_version: Some("unspecified <120.0.0.0".into()),
            },
            Product {
                product_version: Some("unspecified <100.0.0.0".into()),
            },
        ],
        ..product("")
    };
    assert_eq!(entry_ceiling(&e), Some("100.0.0.0".into()));
}

#[test]
fn a_single_build_is_affected_alone() {
    assert_eq!(parse_range("26.3"), Affected::Exact("26.3".into()));
    assert!(affects(&product("26.3"), "26.3.0"));
    assert!(!affects(&product("26.3"), "26.4"));
    assert_eq!(entry_ceiling(&product("26.3")), None);
}

#[test]
fn an_euvd_record_becomes_an_advisory() {
    let e = Entry {
        id: "EUVD-2024-1".into(),
        description: Some("A flaw.".into()),
        date_published: Some("Mar 5, 2024, 10:00:00 AM".into()),
        score_severity: Some(Severity::Critical),
        aliases: Some("CVE-2024-1\nGHSA-x\n".into()),
        references: Some("https://a.example\nnot-a-link\n".into()),
        products: vec![Product {
            product_version: Some("unspecified <2.0".into()),
        }],
    };
    let a = achilles::cve::euvd::to_advisory(&e);
    assert_eq!(a.id, "CVE-2024-1");
    assert_eq!(a.source, Source::Euvd);
    assert_eq!(a.summary, "A flaw.");
    assert_eq!(a.severity, Some(Severity::Critical));
    assert_eq!(a.fixed_in.as_deref(), Some("2.0"));
    assert_eq!(a.references, vec!["https://a.example".to_string()]);
}

#[test]
fn pages_cover_the_total_up_to_a_cap() {
    assert_eq!(pages(0), 0);
    assert_eq!(pages(100), 1);
    assert_eq!(pages(101), 2);
    assert!(pages(u64::MAX) <= 100);
}

#[test]
fn a_search_term_has_plus_for_space() {
    assert_eq!(search_term_of("Node js"), "Node+js");
}

#[test]
fn shards_answer_for_what_was_loaded_last() {
    let mut shards = Shards::default();
    let mut store = Store::default();
    store.write_raw("k", vec![1]);
    assert_eq!(euvd_snapshot_version(&shards), None);
    euvd_set_shard(
        &mut shards,
        "Google".into(),
        "Chrome".into(),
        Ok(vec![product("unspecified <142.0.0.0")]),
    )
    .unwrap();
    euvd_set_shard(
        &mut shards,
        "Google".into(),
        "Chrome".into(),
        Ok(vec![product("unspecified <100.0.0.0")]),
    )
    .unwrap();
    euvd_commit(&mut shards, &mut store, "2026-01".into());
    assert_eq!(euvd_snapshot_version(&shards), Some("2026-01".into()));
    // A fresh snapshot must not be masked by a stale cached lookup.
    assert_eq!(store.read_raw("k"), None);
    assert_eq!(shards.matching("Google", "Chrome", "99.0").len(), 1);
    assert_eq!(shards.matching("Google", "Chrome", "138.0").len(), 0);
    assert_eq!(shards.matching("Google", "Chromium", "99.0").len(), 0);
}

#[test]
fn a_shard_that_cannot_be_read_changes_nothing() {
    let mut shards = Shards::default();
    let mut store = Store::default();
    for (vendor, product_name) in [("Google", "Chrome"), ("Apple", "Safari")] {
        euvd_set_shard(
            &mut shards,
            vendor.into(),
            product_name.into(),
            Ok(vec![product("unspecified <100.0.0.0")]),
        )
        .unwrap();
    }
    euvd_commit(&mut shards, &mut store, "2026-01".into());
    let r = euvd_set_shard(
        &mut shards,
        "Google".into(),
        "Chrome".into(),
        Err("expected value at line 1 column 1".into()),
    );
    assert_eq!(r, Err("expected value at line 1 column 1".into()));
    assert_eq!(shards.matching("Google", "Chrome", "99.0").len(), 1);

    // One that can be read replaces its own and no other, and leaves the version.
    euvd_set_shard(&mut shards, "Google".into(), "Chrome".into(), Ok(vec![])).unwrap();
    assert_eq!(shards.matching("Google", "Chrome", "99.0").len(), 0);
    assert_eq!(shards.matching("Apple", "Safari", "99.0").len(), 1);
    assert_eq!(euvd_snapshot_version(&shards), Some("2026-01".into()));
}

// ---- snapshot ----------------------------------------------------------

fn fixed(id: &str, fixed_in: Option<&str>) -> Advisory {
    Advisory {
        id: id.into(),
        fixed_in: fixed_in.map(str::to_owned),
        ..adv(None)
    }
}

fn snap() -> Snapshot {
    Snapshot {
        schema_version: 1,
        generated_at: 0,
        products: vec![(
            "chromium".to_string(),
            vec![
                fixed("A", Some("142.0.0.0")), // fixed at 142 → affects <142
                fixed("B", Some("120.0.0.0")), // fixed at 120 → affects <120
                fixed("C", None),              // no ceiling → always kept here
            ],
        )],
    }
}

#[test]
fn covers_reports_known_products() {
    assert!(snap().covers("chromium"));
    assert!(!snap().covers("node"));
}

#[test]
fn advisories_for_filters_by_fix_ceiling() {
    // Build 138 is below the 142 fix but at/above the 120 fix.
    let hits: Vec<_> = snap()
        .advisories_for("chromium", "138.0.7204.251")
        .into_iter()
        .map(|a| a.id)
        .collect();
    assert_eq!(hits, vec!["A", "C"]);

    // A build past all ceilings keeps only the no-ceiling advisory.
    let hits: Vec<_> = snap()
        .advisories_for("chromium", "999.0.0.0")
        .into_iter()
        .map(|a| a.id)
        .collect();
    assert_eq!(hits, vec!["C"]);

    // Unknown product → nothing.
    assert!(snap().advisories_for("node", "24.0.0").is_empty());
}

#[test]
fn a_snapshot_is_kept_in_the_cache_directory() {
    assert_eq!(
        snapshot_path(&Some("/home/u/.cache".into())),
        Some("/home/u/.cache/achilles/vdb-snapshot.json".into())
    );
    assert_eq!(snapshot_path(&None), None);
}

// ---- NVD ---------------------------------------------------------------

fn end_excluding(fixed: &str) -> CpeMatch {
    CpeMatch {
        criteria: Some("cpe:2.3:a:google:chrome:*:*:*:*:*:*:*:*".into()),
        vulnerable: true,
        version_start_including: None,
        version_start_excluding: None,
        version_end_including: None,
        version_end_excluding: Some(fixed.into()),
    }
}

#[test]
fn fixed_version_is_not_flagged() {
    // The reported bug: running version == versionEndExcluding (the fix).
    let m = end_excluding("148.0.7778.216");
    assert!(
        !match_covers_version(&m, "148.0.7778.216"),
        "the version that fixed the CVE must not be reported as affected"
    );
}

#[test]
fn version_below_fix_is_flagged() {
    let m = end_excluding("148.0.7778.216");
    assert!(match_covers_version(&m, "148.0.7778.215"));
}

#[test]
fn version_above_fix_is_not_flagged() {
    let m = end_excluding("148.0.7778.216");
    assert!(!match_covers_version(&m, "149.0.0.0"));
}

#[test]
fn respects_lower_bound() {
    let mut m = end_excluding("148.0.7778.216");
    m.version_start_including = Some("148.0.7000.0".into());
    assert!(match_covers_version(&m, "148.0.7500.0"));
    assert!(!match_covers_version(&m, "147.0.0.0"));
}

#[test]
fn pinned_version_requires_exact_match() {
    let m = CpeMatch {
        criteria: Some("cpe:2.3:a:google:chrome:148.0.7778.215:*:*:*:*:*:*:*".into()),
        vulnerable: true,
        version_start_including: None,
        version_start_excluding: None,
        version_end_including: None,
        version_end_excluding: None,
    };
    assert!(match_covers_version(&m, "148.0.7778.215"));
    assert!(!match_covers_version(&m, "148.0.7778.216"));
}

#[test]
fn cpe_version_extracts_field_5() {
    assert_eq!(
        cpe_version("cpe:2.3:a:google:chrome:148.0.7778.215:*:*:*:*:*:*:*").as_deref(),
        Some("148.0.7778.215")
    );
    assert_eq!(
        cpe_version("cpe:2.3:a:google:chrome:*:*:*:*:*:*:*:*").as_deref(),
        Some("*")
    );
}

#[test]
fn a_cpe_name_spells_the_query() {
    assert_eq!(
        cpe_name("google", "chrome", "148.0.7778.215"),
        "cpe:2.3:a:google:chrome:148.0.7778.215:*:*:*:*:*:*:*"
    );
}

#[test]
fn an_nvd_record_becomes_an_advisory() {
    let cve = Cve {
        id: "CVE-2026-1".into(),
        published: Some("2026-02-03T00:00:00.000".into()),
        descriptions: vec![
            Description {
                lang: "es".into(),
                value: "Un fallo.".into(),
            },
            Description {
                lang: "en".into(),
                value: "A flaw.".into(),
            },
        ],
        references: vec!["https://a.example".into()],
        metrics: Metrics {
            cvss_v31: vec![CvssMetric {
                score_severity: Some(Severity::High),
                base_severity: None,
            }],
            cvss_v30: vec![],
            cvss_v2: vec![],
        },
        cpe_matches: vec![end_excluding("148.0.7778.216")],
    };
    let found = achilles::cve::nvd::select(&vec![cve], "google", "chrome", "148.0.7778.215");
    assert_eq!(found.len(), 1);
    assert_eq!(found[0].id, "CVE-2026-1");
    assert_eq!(found[0].summary, "A flaw.");
    assert_eq!(found[0].severity, Some(Severity::High));
    assert_eq!(found[0].fixed_in.as_deref(), Some("148.0.7778.216"));
    assert_eq!(found[0].source, Source::Nvd);
}

#[test]
fn retries_back_off_and_stop() {
    assert_eq!(decide(Attempt::Status(200), 1), Next::Accept);
    assert_eq!(decide(Attempt::Status(503), 1), Next::Retry(2));
    assert_eq!(decide(Attempt::Status(429), 2), Next::Retry(4));
    assert_eq!(decide(Attempt::Transient, 3), Next::Retry(8));
    assert_eq!(decide(Attempt::Transient, 4), Next::Fail);
    assert_eq!(decide(Attempt::Status(404), 1), Next::Fail);
    assert_eq!(decide(Attempt::Broken, 1), Next::Fail);
    assert_eq!(backoff(70), 8);
}

// ---- cache -------------------------------------------------------------

#[test]
fn cached_entries_age() {
    assert!(is_fresh(1000, 1000 + DEFAULT_TTL_SECS));
    assert!(!is_fresh(1000, 1001 + DEFAULT_TTL_SECS));
    // A clock that went back is no reason to refetch.
    assert!(is_fresh(5000, 1000));
}

#[test]
fn cache_keys_are_file_names() {
    let key = lookup_key("nvd", "nodejs", "node.js", "18.0/2");
    assert_eq!(key, "nvd-nodejs-node.js-18.0/2");
    assert_eq!(sanitise(&key), "nvd-nodejs-node.js-18.0_2");
    assert_eq!(
        entry_path(&Some("/c".into()), "k"),
        Some("/c/achilles/cve/k.json".into())
    );
    assert_eq!(entry_path(&None, "k"), None);
}

#[test]
fn the_last_entry_written_is_read_back() {
    let mut store = Store::default();
    store.write_raw("a", vec![1]);
    store.write_raw("b", vec![2]);
    store.write_raw("a", vec![3]);
    assert_eq!(store.read_raw("a"), Some(vec![3]));
    assert_eq!(store.read_raw("b"), Some(vec![2]));
    assert_eq!(store.read_raw("c"), None);
    store.clear();
    assert_eq!(store.read_raw("a"), None);
}

// ---- settings ----------------------------------------------------------

#[test]
fn settings_default_where_none_are_stored() {
    let s = load(None);
    assert!(s.sources.osv.enabled && s.sources.nvd.enabled);
    assert!(!s.sources.euvd.enabled && !s.sources.ghsa.enabled);
    assert_eq!(s.filters.max_age_years, Some(5));
    let mut own = Settings::default();
    own.filters.max_age_years = None;
    assert_eq!(load(Some(own)).filters.max_age_years, None);
    let web = SourceSettings::out_of_the_box(true);
    assert!(web.osv.enabled && web.euvd.enabled && !web.nvd.enabled);
}

#[test]
fn settings_are_saved_for_the_user_alone() {
    let dir = Some("/home/u/.config".to_string());
    assert_eq!(
        settings_path(&dir),
        Some("/home/u/.config/achilles/settings.json".into())
    );
    let p = save(&dir).unwrap();
    assert_eq!(p.dir, "/home/u/.config/achilles");
    assert_eq!(p.path, "/home/u/.config/achilles/settings.json");
    assert_eq!(p.mode, 0o600);
    assert!(save(&None).is_err());
}

// ---- plan and report ---------------------------------------------------

fn versions(chromium: Option<&str>, electron: Option<&str>) -> Versions {
    Versions {
        chromium: chromium.map(str::to_owned),
        electron: electron.map(str::to_owned),
        ..Default::default()
    }
}

#[test]
fn each_runtime_is_asked_of_the_sources_that_know_it() {
    let v = versions(Some("120.0.6099.109"), Some("28.1.0"));
    let mut sources = SourceSettings::default();
    sources.euvd.enabled = true;
    let got: Vec<String> = plan(&v, &sources, None)
        .into_iter()
        .map(|l| l.prefix)
        .collect();
    assert_eq!(
        got,
        vec![
            "[osv] electron 28.1.0",
            "[euvd] electron 28.1.0",
            "[nvd] chromium 120.0.6099.109",
            "[euvd] chromium 120.0.6099.109",
        ]
    );
}

#[test]
fn what_the_snapshot_covers_is_not_asked_for() {
    let v = versions(Some("138.0.7204.251"), Some("28.1.0"));
    let s = snap();
    let asked = plan(&v, &SourceSettings::default(), Some(&s));
    assert!(asked.iter().all(|l| l.bucket == Bucket::Electron));
    assert!(matches!(
        asked[0].query,
        Query::Package {
            ecosystem: "npm",
            name: "electron"
        }
    ));
    let answers = snapshot_answers(&v, &s);
    assert_eq!(answers.len(), 1);
    assert_eq!(answers[0].0, Bucket::Chromium);
    assert_eq!(answers[0].1.len(), 2);
}

#[test]
fn a_failing_source_never_aborts_the_report() {
    let mut session = Session::new();
    session.absorb(Bucket::Node, Source::Nvd, "[nvd] node 18", Ok(vec![adv(None)]));
    session.absorb(
        Bucket::Node,
        Source::Euvd,
        "[euvd] node 18",
        Err(Error::BadPayload("not json".into())),
    );
    session.absorb(
        Bucket::Node,
        Source::Osv,
        "[osv] node 18",
        Err(Error::Unavailable("HTTP 503".into())),
    );
    session.absorb(
        Bucket::Deno,
        Source::Euvd,
        "[euvd] deno 2",
        Err(Error::Http(HttpFailure {
            timeout: true,
            connect: false,
            request: false,
            message: "timed out".into(),
        })),
    );
    assert_eq!(session.report.node.len(), 1);
    assert_eq!(
        session.report.errors,
        vec!["[euvd] node 18: unexpected payload: not json".to_string()]
    );
    assert_eq!(session.report.unavailable, vec!["EUVD".to_string(), "OSV".to_string()]);
    assert_eq!(
        session.outages,
        Outages {
            euvd: true,
            ghsa: false,
            nvd: false,
            osv: true
        }
    );
}

#[test]
fn errors_say_what_went_wrong() {
    let http = Error::Http(HttpFailure {
        timeout: false,
        connect: false,
        request: false,
        message: "404".into(),
    });
    assert!(!http.is_transient());
    assert_eq!(http.message(), "http error: 404");
    let gone = Error::Unavailable("nvd".into());
    assert!(gone.is_transient());
    assert_eq!(gone.message(), "temporarily unavailable: nvd");
    assert_eq!(name_of_source(Source::Ghsa), "ghsa");
}

#[test]
fn a_gathered_report_is_filtered() {
    let v = versions(Some("138.0.7204.251"), Some("28.1.0"));
    let s = snap();
    let lookups = plan(&v, &SourceSettings::default(), Some(&s));
    let mut patched = adv(Some("2026"));
    patched.fixed_in = Some("28.0.0".into());
    let mut open = adv(Some("2026"));
    open.fixed_in = Some("29.0.0".into());
    let report = report_for(
        &v,
        Some(&s),
        &lookups,
        vec![(0, Ok(vec![patched, open, adv(Some("1999"))]))],
        Os::Linux,
        Some(5),
        START_OF_2026,
    );
    assert_eq!(report.chromium.len(), 2);
    assert_eq!(report.electron.len(), 1);
    assert_eq!(report.electron[0].fixed_in.as_deref(), Some("29.0.0"));
}

#[test]
fn a_streamed_report_only_grows() {
    let v = versions(Some("138.0.7204.251"), Some("28.1.0"));
    let lookups = plan(&v, &SourceSettings::default(), None);
    let at = lookups
        .iter()
        .position(|l| l.bucket == Bucket::Electron)
        .unwrap();
    let mut seen: Vec<String> = Vec::new();
    for n in 0..4 {
        let answers = (0..n)
            .map(|i| {
                let mut a = adv(Some("2026"));
                a.id = format!("A-{i}");
                (at, Ok(vec![a, adv(Some("1999"))]))
            })
            .collect();
        let report = report_for(&v, None, &lookups, answers, Os::Linux, Some(5), START_OF_2026);
        let ids: Vec<String> = report.electron.iter().map(|a| a.id.clone()).collect();
        assert_eq!(ids.len(), n);
        assert_eq!(ids[..seen.len()], seen[..]);
        seen = ids;
    }
}

#[test]
fn a_report_is_shown_each_time_a_lookup_finishes() {
    let v = versions(Some("138.0.7204.251"), Some("28.1.0"));
    let s = snap();
    let lookups = plan(&v, &SourceSettings::default(), Some(&s));
    // The snapshot answers for Chromium, so nothing else is asked about it.
    assert!(lookups.iter().all(|l| l.bucket != Bucket::Chromium));
    let mut open = adv(Some("2026"));
    open.fixed_in = Some("29.0.0".into());
    let answers = vec![
        (0, Ok(vec![open, adv(Some("1999"))])),
        (0, Err(Error::BadPayload("x".into()))),
        (0, Err(Error::Unavailable("y".into()))),
    ];
    let (shown, last) =
        report_for_streaming(&v, Some(&s), &lookups, answers, Os::Linux, Some(5), START_OF_2026);
    assert_eq!(shown.len(), 4);
    let electron: Vec<usize> = shown.iter().map(|r| r.electron.len()).collect();
    assert_eq!(electron, vec![0, 1, 1, 1]);
    assert!(shown.iter().all(|r| r.chromium.len() == 2));
    let errors: Vec<usize> = shown.iter().map(|r| r.errors.len()).collect();
    assert_eq!(errors, vec![0, 0, 1, 1]);
    let missing: Vec<usize> = shown.iter().map(|r| r.unavailable.len()).collect();
    assert_eq!(missing, vec![0, 0, 0, 1]);
    assert_eq!(shown[3].electron, last.electron);
    assert_eq!(shown[3].errors, last.errors);
    assert_eq!(shown[3].unavailable, last.unavailable);

    // Nothing detected: nothing asked, nothing shown, nothing found.
    let none = versions(None, None);
    let lookups = plan(&none, &SourceSettings::default(), Some(&s));
    assert!(lookups.is_empty());
    let (shown, last) =
        report_for_streaming(&none, Some(&s), &lookups, vec![], Os::Linux, None, START_OF_2026);
    assert!(shown.is_empty());
    assert!(last.chromium.is_empty() && last.electron.is_empty() && last.errors.is_empty());
}

#[test]
fn a_finished_lookup_is_taken_and_shown_at_once() {
    let v = versions(Some("138.0.7204.251"), Some("28.1.0"));
    let lookups = plan(&v, &SourceSettings::default(), None);
    let mut session = Session::new();
    let shown = take_known(
        &mut session,
        Bucket::Chromium,
        vec![adv(Some("1999")), adv(Some("2026"))],
        &v,
        Os::Linux,
        Some(5),
        START_OF_2026,
    );
    assert_eq!((shown.chromium.len(), session.report.chromium.len()), (1, 2));
    let at = lookups
        .iter()
        .position(|l| l.bucket == Bucket::Electron)
        .unwrap();
    let shown = take_answer(
        &mut session,
        &lookups[at],
        Err(Error::BadPayload("bad".into())),
        &v,
        Os::Linux,
        Some(5),
        START_OF_2026,
    );
    assert_eq!(
        shown.errors,
        vec![format!("{}: unexpected payload: bad", lookups[at].prefix)]
    );
    assert_eq!(shown.chromium.len(), 1);
}

#[test]
fn a_refused_lookup_may_be_answered_later() {
    for status in [429, 500, 503, 599] {
        let e = http_error("nvd x", status, "busy", 200);
        assert!(e.is_transient(), "{status}");
        assert_eq!(
            e.message(),
            format!("temporarily unavailable: nvd x: HTTP {status}: busy")
        );
    }
    let e = http_error("euvd a/b", 404, "not found", 3);
    assert!(!e.is_transient());
    assert_eq!(e.message(), "unexpected payload: euvd a/b: HTTP 404: not");
}

#[test]
fn finalize_leaves_the_working_report_alone() {
    let working = CveReport {
        chromium: vec![adv(Some("1999")), adv(Some("2026"))],
        ..Default::default()
    };
    let v = versions(Some("138.0.7204.251"), None);
    let shown = finalize(&working, &v, Os::Linux, Some(5), START_OF_2026);
    assert_eq!(shown.chromium.len(), 1);
    assert_eq!(working.chromium.len(), 2);
}

#[test]
fn relevance_is_judged_against_the_platform() {
    let mut a = adv(None);
    a.summary = "Use after free in Google Chrome on Android prior to 150.0.0.0".into();
    let mut report = CveReport {
        chromium: vec![a],
        ..Default::default()
    };
    apply_relevance_filter(&mut report, &versions(Some("138.0.0.0"), None), Os::Windows);
    assert!(report.chromium.is_empty());
    assert!(scoped_to_other_os("A bug in Safari on iOS", Os::Macos));
    assert!(!scoped_to_other_os("A bug in Chrome on Mac and Windows", Os::Windows));
    assert!(!scoped_to_other_os("A bug", Os::Linux));
}

#[test]
fn ceilings_are_read_out_of_prose() {
    assert_eq!(
        fixed_ceiling_from_text("flaw in Chrome prior to 120.0.6099.71 allowed", None),
        Some("120.0.6099.71".into())
    );
    assert!(at_or_above("120.0.6099.71", "120.0.6099.71"));
    assert!(!at_or_above("120.0.6099.70", "120.0.6099.71"));
    assert!(!at_or_above("unknown", "120.0.6099.71"));
}

#[test]
fn years_are_counted_from_the_epoch() {
    assert_eq!(current_year(0), Some(1970));
    assert_eq!(current_year(START_OF_2026), Some(2026));
    assert_eq!(advisory_year(&adv(Some("2023"))), Some(2023));
    assert_eq!(advisory_year(&adv(None)), None);
}

#[test]
fn old_npm_advisories_are_dropped_package_by_package() {
    let mut found = vec![
        NpmPackageAdvisories {
            package: NpmPackage {
                name: "lodash".into(),
                version: "4.0.0".into(),
            },
            advisories: vec![adv(Some("2015"))],
        },
        NpmPackageAdvisories {
            package: NpmPackage {
                name: "ws".into(),
                version: "7.0.0".into(),
            },
            advisories: vec![adv(Some("2025")), adv(Some("2015"))],
        },
    ];
    filter_npm_by_age(&mut found, Some(5), START_OF_2026);
    assert_eq!(found.len(), 2);
    assert_eq!(found[0].package.name, "lodash");
    assert!(found[0].advisories.is_empty());
    assert_eq!(found[1].advisories.len(), 1);
}

#[test]
fn severities_are_read_by_name() {
    assert_eq!(Severity::parse("CRITICAL"), Some(Severity::Critical));
    assert_eq!(Severity::parse("nonsense"), None);
}
