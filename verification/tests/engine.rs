use promptpetrol::cache::{CachedCodexSession, SessionFingerprint};
use promptpetrol::clock::ClockTime;
use promptpetrol::codex_import::{
    codex_import_diagnostics, latest_codex_limits, merge_codex_usage, pending_files,
    should_refresh_file_discovery, tune_discovery_interval, CodexImportCache, CycleObservation,
    Discovery, FileProbe, DISCOVERY_BACKOFF_STEP, MAX_DISCOVERY_INTERVAL, MIN_DISCOVERY_INTERVAL,
};
use promptpetrol::discovery::{collect_codex_session_files, DirEntry};
use promptpetrol::models::{AppConfig, UsageData, UsageEntry};
use promptpetrol::session::{CodexRateLimit, CodexRateLimits};

const MIXED: &str = "not json at all\n\
{\"type\":\"session_meta\",\"payload\":{\"timestamp\":\"2026-02-18T10:00:00.000Z\"}}\n\
{\"timestamp\":\"2026-02-18T10:00:30.000Z\",\"type\":\"event_msg\",\"payload\":{\"type\":\"token_count\",\"info\":{\"total_token_usage\":{\"input_tokens\":120,\"output_tokens\":40}},\"rate_limits\":{\"primary\":{\"used_percent\":4.0,\"window_minutes\":300},\"secondary\":{\"used_percent\":2.0,\"window_minutes\":10080}}}}\n\
{\"timestamp\":\"2026-02-18T10:01:10.000Z\",\"type\":\"event_msg\",\"payload\":{\"type\":\"token_count\",\"info\":{\"total_token_usage\":{\"input_tokens\":180,\"output_tokens\":55}},\"rate_limits\":{\"primary\":{\"used_percent\":5.0,\"window_minutes\":300},\"secondary\":{\"used_percent\":3.0,\"window_minutes\":10080}}}}\n";

const LIMITS_ONLY: &str = "{oops\n\
{\"timestamp\":\"2026-02-18T11:00:00.000Z\",\"type\":\"event_msg\",\"payload\":{\"type\":\"token_count\",\"info\":null,\"rate_limits\":{\"primary\":{\"used_percent\":9.0,\"window_minutes\":300},\"secondary\":{\"used_percent\":4.0,\"window_minutes\":10080}}}}\n";

const NO_TOKENS: &str = "???\n\
{\"timestamp\":\"2026-02-18T09:00:00.000Z\",\"type\":\"response_item\",\"payload\":{\"type\":\"message\"}}\n";

/// A file system held in memory: paths with modification time and contents.
struct Disk {
    files: Vec<(String, i64, String)>,
}

impl Disk {
    fn new() -> Disk {
        Disk { files: Vec::new() }
    }

    fn write(&mut self, path: &str, modified: i64, contents: &str) {
        self.files.retain(|(p, _, _)| p != path);
        self.files
            .push((path.to_string(), modified, contents.to_string()));
    }

    fn tree(&self) -> DirEntry {
        DirEntry::Dir {
            entries: vec![DirEntry::Dir {
                entries: self
                    .files
                    .iter()
                    .map(|(path, _, _)| DirEntry::File {
                        name: path.rsplit('/').next().unwrap_or("").to_string(),
                        path: path.clone(),
                    })
                    .collect(),
            }],
        }
    }

    fn probe(&self, cache: &CodexImportCache, path: &String) -> FileProbe {
        match self.files.iter().find(|(p, _, _)| p == path) {
            None => FileProbe {
                fingerprint: None,
                contents: None,
            },
            Some((_, modified, contents)) => {
                let fingerprint = SessionFingerprint {
                    modified: ClockTime::from_secs(*modified),
                    file_len: contents.len() as u64,
                };
                FileProbe {
                    fingerprint: Some(fingerprint),
                    contents: if cache.needs_refresh(path, fingerprint) {
                        Some(contents.clone())
                    } else {
                        None
                    },
                }
            }
        }
    }
}

fn observe(cache: &CodexImportCache, now: ClockTime, disk: Option<&Disk>) -> CycleObservation {
    let discovery = if should_refresh_file_discovery(cache, now) {
        let tree = disk.map(|d| d.tree());
        Some(collect_codex_session_files(tree.as_ref()))
    } else {
        None
    };
    let files = pending_files(cache, now, &discovery);
    let empty = Disk::new();
    let probes = files
        .iter()
        .map(|path| disk.unwrap_or(&empty).probe(cache, path))
        .collect();
    CycleObservation {
        now,
        discovery,
        probes,
    }
}

fn flat_rate(_provider: &String, _model: &String, input: u64, output: u64) -> u64 {
    ((input + output) as f64 / 1000.0).to_bits()
}

fn config(model: &str) -> AppConfig {
    let mut config = AppConfig::default();
    config.codex_import.enabled = true;
    config.codex_import.sessions_dir = Some("/sessions".to_string());
    config.codex_import.model = model.to_string();
    config
}

fn empty_ledger() -> UsageData {
    UsageData {
        budget_usd_bits: Some(10.0f64.to_bits()),
        entries: vec![],
    }
}

fn merge_at(
    data: &mut UsageData,
    config: &AppConfig,
    cache: &mut CodexImportCache,
    secs: i64,
    disk: Option<&Disk>,
) {
    let observed = observe(cache, ClockTime::from_secs(secs), disk);
    merge_codex_usage(data, config, cache, observed, &flat_rate);
}

fn three_files() -> Disk {
    let mut disk = Disk::new();
    disk.write("/sessions/2026/02/18/mixed_usage_and_limits.jsonl", 100, MIXED);
    disk.write(
        "/sessions/2026/02/18/limits_only_malformed.jsonl",
        200,
        LIMITS_ONLY,
    );
    disk.write(
        "/sessions/2026/02/18/no_token_or_limits_mixed.jsonl",
        300,
        NO_TOKENS,
    );
    disk
}

fn percent(limit: Option<CodexRateLimit>) -> f64 {
    f64::from_bits(limit.expect("limit").used_percent_bits)
}

#[test]
fn merge_imports_sessions_and_ignores_invalid_files() {
    let disk = three_files();
    let config = config("codex-cli");
    let mut data = empty_ledger();
    let mut cache = CodexImportCache::default();
    merge_at(&mut data, &config, &mut cache, 1_000, Some(&disk));

    let codex_entries = data
        .entries
        .iter()
        .filter(|entry| entry.provider == "codex")
        .collect::<Vec<_>>();
    assert_eq!(codex_entries.len(), 1);
    assert_eq!(codex_entries[0].input_tokens, 180);
    assert_eq!(codex_entries[0].output_tokens, 55);
    assert_eq!(codex_entries[0].timestamp, "2026-02-18T10:01:10.000Z");
    assert_eq!(codex_entries[0].model, "codex-cli");
    assert_eq!(f64::from_bits(codex_entries[0].cost_usd_bits), 0.235);

    let limits = latest_codex_limits(&cache).expect("expected limits");
    assert_eq!(percent(limits.primary), 9.0);
    assert_eq!(percent(limits.secondary), 4.0);
    let diagnostics = codex_import_diagnostics(&cache);
    assert_eq!(diagnostics.active_files, 3);
    assert_eq!(diagnostics.refreshed_files, 3);
    assert_eq!(diagnostics.parse_error_files, 0);
    assert_eq!(diagnostics.no_usage_or_limits_files, 1);
    assert_eq!(diagnostics.unreadable_files, 0);
    assert_eq!(diagnostics.discovery_interval, MIN_DISCOVERY_INTERVAL);
    assert_eq!(diagnostics.last_import_at, Some(ClockTime::from_secs(1_000)));
    assert_eq!(cache.session_count(), 2);
    assert_eq!(data.budget_usd_bits, Some(10.0f64.to_bits()));
}

#[test]
fn discovery_backoff_increases_when_idle_and_resets_on_change() {
    let mut disk = Disk::new();
    let config = config("codex-cli");
    let mut data = empty_ledger();
    let mut cache = CodexImportCache::default();

    assert_eq!(cache.discovery_interval(), MIN_DISCOVERY_INTERVAL);

    for round in 0..3 {
        merge_at(&mut data, &config, &mut cache, 3600 * (round + 1), Some(&disk));
    }
    assert_eq!(
        cache.discovery_interval(),
        MIN_DISCOVERY_INTERVAL + DISCOVERY_BACKOFF_STEP
    );

    disk.write("/sessions/2026/02/18/mixed_usage_and_limits.jsonl", 100, MIXED);
    merge_at(&mut data, &config, &mut cache, 3600 * 4, Some(&disk));
    assert_eq!(cache.discovery_interval(), MIN_DISCOVERY_INTERVAL);
}

#[test]
fn backoff_grows_by_ten_seconds_and_stops_at_the_maximum() {
    let disk = Disk::new();
    let config = config("codex-cli");
    let mut data = empty_ledger();
    let mut cache = CodexImportCache::default();
    let mut seen = Vec::new();
    for round in 0..45 {
        merge_at(&mut data, &config, &mut cache, 3600 * (round + 1), Some(&disk));
        seen.push(cache.discovery_interval());
        assert!(cache.discovery_interval() <= MAX_DISCOVERY_INTERVAL);
        assert!(cache.discovery_interval() >= MIN_DISCOVERY_INTERVAL);
    }
    assert_eq!(&seen[0..6], &[10, 10, 20, 20, 20, 30]);
    assert_eq!(seen[32], 120);
    assert_eq!(seen[44], 120);
    assert_eq!(MAX_DISCOVERY_INTERVAL, 120);
}

#[test]
fn tuning_counts_idle_walks() {
    let mut cache = CodexImportCache::default();
    tune_discovery_interval(&mut cache, false);
    assert_eq!(cache.discovery_interval(), 10);
    tune_discovery_interval(&mut cache, false);
    assert_eq!(cache.discovery_interval(), 10);
    tune_discovery_interval(&mut cache, false);
    assert_eq!(cache.discovery_interval(), 20);
    tune_discovery_interval(&mut cache, false);
    tune_discovery_interval(&mut cache, false);
    tune_discovery_interval(&mut cache, true);
    assert_eq!(cache.discovery_interval(), 10);
    tune_discovery_interval(&mut cache, false);
    tune_discovery_interval(&mut cache, false);
    assert_eq!(cache.discovery_interval(), 10);
    tune_discovery_interval(&mut cache, false);
    assert_eq!(cache.discovery_interval(), 20);
}

#[test]
fn discovery_is_due_at_first_and_after_the_interval() {
    let disk = three_files();
    let config = config("codex-cli");
    let mut data = empty_ledger();
    let mut cache = CodexImportCache::default();
    assert!(should_refresh_file_discovery(
        &cache,
        ClockTime::from_secs(-5)
    ));
    merge_at(&mut data, &config, &mut cache, 1_000, Some(&disk));
    assert!(!should_refresh_file_discovery(
        &cache,
        ClockTime::from_secs(1_000)
    ));
    assert!(!should_refresh_file_discovery(
        &cache,
        ClockTime {
            secs: 1_009,
            nanos: 999_999_999
        }
    ));
    assert!(should_refresh_file_discovery(
        &cache,
        ClockTime::from_secs(1_010)
    ));
    // a clock that has gone backwards makes the walk due
    assert!(should_refresh_file_discovery(
        &cache,
        ClockTime::from_secs(999)
    ));
}

#[test]
fn second_merge_without_changes_reads_nothing() {
    let mut disk = Disk::new();
    disk.write("/sessions/a.jsonl", 100, MIXED);
    disk.write("/sessions/b.jsonl", 200, LIMITS_ONLY);
    let config = config("codex-cli");
    let mut cache = CodexImportCache::default();

    let mut first = empty_ledger();
    merge_at(&mut first, &config, &mut cache, 1_000, Some(&disk));
    assert_eq!(codex_import_diagnostics(&cache).refreshed_files, 2);

    // within the interval: no walk
    let mut second = empty_ledger();
    merge_at(&mut second, &config, &mut cache, 1_005, Some(&disk));
    assert_eq!(codex_import_diagnostics(&cache).refreshed_files, 0);
    assert_eq!(codex_import_diagnostics(&cache).active_files, 2);
    assert_eq!(format!("{:?}", first.entries), format!("{:?}", second.entries));

    // after the interval: a walk that finds the same files
    let mut third = empty_ledger();
    merge_at(&mut third, &config, &mut cache, 1_020, Some(&disk));
    assert_eq!(codex_import_diagnostics(&cache).refreshed_files, 0);
    assert_eq!(format!("{:?}", first.entries), format!("{:?}", third.entries));
    assert_eq!(first.entries.len(), 1);
}

#[test]
fn file_without_usage_is_read_again_every_cycle() {
    let mut disk = Disk::new();
    disk.write("/sessions/quiet.jsonl", 100, NO_TOKENS);
    let config = config("codex-cli");
    let mut data = empty_ledger();
    let mut cache = CodexImportCache::default();
    merge_at(&mut data, &config, &mut cache, 1_000, Some(&disk));
    merge_at(&mut data, &config, &mut cache, 1_001, Some(&disk));
    let diagnostics = codex_import_diagnostics(&cache);
    assert_eq!(diagnostics.refreshed_files, 1);
    assert_eq!(diagnostics.no_usage_or_limits_files, 1);
    assert!(data.entries.is_empty());
}

#[test]
fn changed_modification_time_alone_triggers_reading() {
    let mut disk = Disk::new();
    disk.write("/sessions/a.jsonl", 100, MIXED);
    let config = config("codex-cli");
    let mut data = empty_ledger();
    let mut cache = CodexImportCache::default();
    merge_at(&mut data, &config, &mut cache, 1_000, Some(&disk));
    disk.write("/sessions/a.jsonl", 101, MIXED);
    merge_at(&mut data, &config, &mut cache, 1_001, Some(&disk));
    assert_eq!(codex_import_diagnostics(&cache).refreshed_files, 1);
}

#[test]
fn changed_length_alone_triggers_reading() {
    let mut disk = Disk::new();
    disk.write("/sessions/a.jsonl", 100, MIXED);
    let config = config("codex-cli");
    let mut data = empty_ledger();
    let mut cache = CodexImportCache::default();
    merge_at(&mut data, &config, &mut cache, 1_000, Some(&disk));
    let longer = format!("{}\n", MIXED);
    disk.write("/sessions/a.jsonl", 100, &longer);
    merge_at(&mut data, &config, &mut cache, 1_001, Some(&disk));
    assert_eq!(codex_import_diagnostics(&cache).refreshed_files, 1);
}

#[test]
fn needs_refresh_compares_both_parts_of_the_fingerprint() {
    let mut cache = CodexImportCache::default();
    let path = "/sessions/a.jsonl".to_string();
    let fingerprint = SessionFingerprint {
        modified: ClockTime { secs: 7, nanos: 5 },
        file_len: 40,
    };
    assert!(cache.needs_refresh(&path, fingerprint));
    cache.insert_session(path.clone(), session(7, 5, 40, "T", None));
    assert!(!cache.needs_refresh(&path, fingerprint));
    assert!(cache.needs_refresh(
        &path,
        SessionFingerprint {
            modified: ClockTime { secs: 7, nanos: 6 },
            file_len: 40
        }
    ));
    assert!(cache.needs_refresh(
        &path,
        SessionFingerprint {
            modified: ClockTime { secs: 7, nanos: 5 },
            file_len: 41
        }
    ));
    assert!(cache.needs_refresh(&"/sessions/b.jsonl".to_string(), fingerprint));
}

#[test]
fn vanished_root_empties_cache_and_contributions() {
    let disk = three_files();
    let config = config("codex-cli");
    let mut cache = CodexImportCache::default();
    let mut data = empty_ledger();
    merge_at(&mut data, &config, &mut cache, 1_000, Some(&disk));
    assert_eq!(data.entries.len(), 1);
    assert_eq!(cache.session_count(), 2);

    let mut after = empty_ledger();
    merge_at(&mut after, &config, &mut cache, 1_010, None);
    assert!(after.entries.is_empty());
    assert_eq!(cache.session_count(), 0);
    assert!(cache.session_files().is_empty());
    assert!(latest_codex_limits(&cache).is_none());
    let diagnostics = codex_import_diagnostics(&cache);
    assert_eq!(diagnostics.active_files, 0);
    assert_eq!(diagnostics.refreshed_files, 0);
    assert_eq!(diagnostics.discovery_interval, MIN_DISCOVERY_INTERVAL);
}

#[test]
fn failed_walk_keeps_the_known_files() {
    let disk = three_files();
    let config = config("codex-cli");
    let mut cache = CodexImportCache::default();
    let mut data = empty_ledger();
    merge_at(&mut data, &config, &mut cache, 1_000, Some(&disk));

    let now = ClockTime::from_secs(1_010);
    let discovery = Some(Discovery::Failed);
    let files = pending_files(&cache, now, &discovery);
    assert_eq!(files.len(), 3);
    let probes = files.iter().map(|path| disk.probe(&cache, path)).collect();
    let mut after = empty_ledger();
    merge_codex_usage(
        &mut after,
        &config,
        &mut cache,
        CycleObservation {
            now,
            discovery,
            probes,
        },
        &flat_rate,
    );
    assert_eq!(cache.session_files().len(), 3);
    assert_eq!(cache.session_count(), 2);
    assert_eq!(after.entries.len(), 1);
    let diagnostics = codex_import_diagnostics(&cache);
    assert_eq!(diagnostics.active_files, 3);
    // only the file without usage is read again
    assert_eq!(diagnostics.refreshed_files, 1);
}

#[test]
fn deleted_file_leaves_cache_within_one_cycle() {
    let mut disk = three_files();
    let config = config("codex-cli");
    let mut cache = CodexImportCache::default();
    let mut data = empty_ledger();
    merge_at(&mut data, &config, &mut cache, 1_000, Some(&disk));
    disk.files
        .retain(|(path, _, _)| !path.ends_with("mixed_usage_and_limits.jsonl"));
    let mut after = empty_ledger();
    merge_at(&mut after, &config, &mut cache, 1_010, Some(&disk));
    assert!(after.entries.is_empty());
    assert_eq!(cache.session_count(), 1);
    assert_eq!(cache.session_files().len(), 2);
    assert_eq!(codex_import_diagnostics(&cache).active_files, 2);
}

#[test]
fn file_that_vanishes_between_walks_is_unreadable() {
    let mut disk = three_files();
    let config = config("codex-cli");
    let mut cache = CodexImportCache::default();
    let mut data = empty_ledger();
    merge_at(&mut data, &config, &mut cache, 1_000, Some(&disk));
    disk.files
        .retain(|(path, _, _)| !path.ends_with("mixed_usage_and_limits.jsonl"));
    let mut after = empty_ledger();
    // no walk is due: the file is still listed but cannot be probed
    merge_at(&mut after, &config, &mut cache, 1_001, Some(&disk));
    let diagnostics = codex_import_diagnostics(&cache);
    assert_eq!(diagnostics.unreadable_files, 1);
    assert_eq!(diagnostics.active_files, 3);
    assert_eq!(cache.session_count(), 1);
    assert!(after.entries.is_empty());
}

#[test]
fn unreadable_contents_and_parse_errors_are_counted() {
    let config = config("codex-cli");
    let mut cache = CodexImportCache::default();
    let mut data = empty_ledger();
    let fingerprint = Some(SessionFingerprint {
        modified: ClockTime::from_secs(1),
        file_len: 3,
    });
    let observed = CycleObservation {
        now: ClockTime::from_secs(50),
        discovery: Some(Discovery::Found(vec![
            "/s/locked.jsonl".to_string(),
            "/s/garbage.jsonl".to_string(),
            "/s/gone.jsonl".to_string(),
            "/s/unprobed.jsonl".to_string(),
        ])),
        probes: vec![
            FileProbe {
                fingerprint,
                contents: None,
            },
            FileProbe {
                fingerprint,
                contents: Some("???".to_string()),
            },
            FileProbe {
                fingerprint: None,
                contents: Some(MIXED.to_string()),
            },
        ],
    };
    merge_codex_usage(&mut data, &config, &mut cache, observed, &flat_rate);
    let diagnostics = codex_import_diagnostics(&cache);
    assert_eq!(diagnostics.active_files, 4);
    assert_eq!(diagnostics.refreshed_files, 2);
    assert_eq!(diagnostics.parse_error_files, 1);
    assert_eq!(diagnostics.unreadable_files, 3);
    assert_eq!(diagnostics.no_usage_or_limits_files, 0);
    assert_eq!(cache.session_count(), 0);
    assert!(data.entries.is_empty());
}

#[test]
fn path_listed_twice_is_one_active_file() {
    let config = config("codex-cli");
    let mut cache = CodexImportCache::default();
    let mut data = empty_ledger();
    let probe = || FileProbe {
        fingerprint: Some(SessionFingerprint {
            modified: ClockTime::from_secs(1),
            file_len: MIXED.len() as u64,
        }),
        contents: Some(MIXED.to_string()),
    };
    let observed = CycleObservation {
        now: ClockTime::from_secs(50),
        discovery: Some(Discovery::Found(vec![
            "/s/a.jsonl".to_string(),
            "/s/a.jsonl".to_string(),
        ])),
        probes: vec![probe(), probe()],
    };
    merge_codex_usage(&mut data, &config, &mut cache, observed, &flat_rate);
    let diagnostics = codex_import_diagnostics(&cache);
    assert_eq!(diagnostics.active_files, 1);
    assert_eq!(diagnostics.refreshed_files, 1);
    assert_eq!(cache.session_count(), 1);
    assert_eq!(data.entries.len(), 1);
}

#[test]
fn disabled_import_changes_nothing() {
    let disk = three_files();
    let mut config = config("codex-cli");
    config.codex_import.enabled = false;
    let mut cache = CodexImportCache::default();
    let mut data = empty_ledger();
    data.entries.push(entry("2026-03-01T00:00:00Z", "openai", 1));
    data.entries.push(entry("2026-01-01T00:00:00Z", "openai", 2));
    merge_at(&mut data, &config, &mut cache, 1_000, Some(&disk));
    assert_eq!(cache.session_count(), 0);
    assert!(cache.session_files().is_empty());
    assert!(codex_import_diagnostics(&cache).last_import_at.is_none());
    assert_eq!(data.entries.len(), 2);
    assert_eq!(data.entries[0].input_tokens, 1);
}

fn entry(timestamp: &str, provider: &str, input_tokens: u64) -> UsageEntry {
    UsageEntry {
        timestamp: timestamp.to_string(),
        provider: provider.to_string(),
        model: "m".to_string(),
        input_tokens,
        output_tokens: 0,
        cost_usd_bits: 0,
    }
}

#[test]
fn merge_sorts_the_whole_ledger_by_timestamp_and_keeps_ties_in_order() {
    let mut disk = Disk::new();
    disk.write("/sessions/a.jsonl", 100, MIXED);
    let config = config("gpt-5-codex");
    let mut cache = CodexImportCache::default();
    let mut data = empty_ledger();
    data.entries.push(entry("2026-03-01T00:00:00Z", "openai", 1));
    data.entries
        .push(entry("2026-02-18T10:01:10.000Z", "gemini", 2));
    data.entries.push(entry("2026-01-01T00:00:00Z", "openai", 3));
    data.entries
        .push(entry("2026-02-18T10:01:10.000Z", "anthropic", 4));
    merge_at(&mut data, &config, &mut cache, 1_000, Some(&disk));
    let order = data
        .entries
        .iter()
        .map(|e| (e.provider.as_str(), e.input_tokens))
        .collect::<Vec<_>>();
    assert_eq!(
        order,
        vec![
            ("openai", 3),
            ("gemini", 2),
            ("anthropic", 4),
            ("codex", 180),
            ("openai", 1)
        ]
    );
    assert_eq!(data.entries[3].model, "gpt-5-codex");
}

#[test]
fn estimator_is_asked_with_provider_model_and_tokens() {
    let mut disk = Disk::new();
    disk.write("/sessions/a.jsonl", 100, MIXED);
    let config = config("codex-cli");
    let mut cache = CodexImportCache::default();
    let mut data = empty_ledger();
    let observed = observe(&cache, ClockTime::from_secs(1), Some(&disk));
    let estimate = |provider: &String, model: &String, input: u64, output: u64| -> u64 {
        assert_eq!(provider, "codex");
        assert_eq!(model, "codex-cli");
        input * 1000 + output
    };
    merge_codex_usage(&mut data, &config, &mut cache, observed, &estimate);
    assert_eq!(data.entries[0].cost_usd_bits, 180_055);
}

fn session(
    secs: i64,
    nanos: u32,
    file_len: u64,
    timestamp: &str,
    used_percent: Option<f64>,
) -> CachedCodexSession {
    CachedCodexSession {
        modified: ClockTime { secs, nanos },
        file_len,
        timestamp: timestamp.to_string(),
        input_tokens: 0,
        output_tokens: 0,
        has_token_usage: false,
        limits: used_percent.map(|percent| CodexRateLimits {
            timestamp: timestamp.to_string(),
            primary: Some(CodexRateLimit {
                used_percent_bits: percent.to_bits(),
                window_minutes: 300,
                resets_at: None,
            }),
            secondary: None,
        }),
    }
}

fn newest_of_older_and_newer() -> f64 {
    let mut cache = CodexImportCache::default();
    cache.insert_session(
        "older.jsonl".to_string(),
        session(100, 0, 100, "2026-02-18T00:00:00Z", Some(12.0)),
    );
    cache.insert_session(
        "newer.jsonl".to_string(),
        session(200, 0, 110, "2026-02-17T23:59:59Z", Some(4.0)),
    );
    let limits = latest_codex_limits(&cache).expect("expected limits");
    percent(limits.primary)
}

#[test]
fn codex_import_latest_codex_limits_prefers_newest_session_file() {
    assert_eq!(newest_of_older_and_newer(), 4.0);
}

#[test]
fn main_latest_codex_limits_prefers_newest_session_file() {
    assert_eq!(newest_of_older_and_newer(), 4.0);
}

#[test]
fn latest_limits_do_not_depend_on_the_order_of_caching() {
    let mut cache = CodexImportCache::default();
    cache.insert_session(
        "newer.jsonl".to_string(),
        session(200, 0, 110, "2026-02-17T23:59:59Z", Some(4.0)),
    );
    cache.insert_session(
        "older.jsonl".to_string(),
        session(100, 0, 100, "2026-02-18T00:00:00Z", Some(12.0)),
    );
    assert_eq!(percent(latest_codex_limits(&cache).expect("limits").primary), 4.0);
}

#[test]
fn equal_modification_times_break_on_the_timestamp() {
    let mut cache = CodexImportCache::default();
    cache.insert_session(
        "a.jsonl".to_string(),
        session(100, 7, 1, "2026-02-18T00:00:00Z", Some(12.0)),
    );
    cache.insert_session(
        "b.jsonl".to_string(),
        session(100, 7, 1, "2026-02-17T23:59:59Z", Some(4.0)),
    );
    assert_eq!(percent(latest_codex_limits(&cache).expect("limits").primary), 12.0);
    // a difference of one nanosecond in the modification time outweighs it
    cache.insert_session(
        "b.jsonl".to_string(),
        session(100, 8, 1, "2026-02-17T23:59:59Z", Some(4.0)),
    );
    assert_eq!(percent(latest_codex_limits(&cache).expect("limits").primary), 4.0);
}

#[test]
fn latest_limits_skip_sessions_without_limits() {
    let mut cache = CodexImportCache::default();
    assert!(latest_codex_limits(&cache).is_none());
    cache.insert_session("a.jsonl".to_string(), session(900, 0, 1, "T9", None));
    assert!(latest_codex_limits(&cache).is_none());
    cache.insert_session("b.jsonl".to_string(), session(1, 0, 1, "T1", Some(1.0)));
    assert_eq!(percent(latest_codex_limits(&cache).expect("limits").primary), 1.0);
    assert_eq!(cache.session_count(), 2);
}

#[test]
fn inserting_for_a_cached_path_replaces_the_entry() {
    let mut cache = CodexImportCache::default();
    cache.insert_session("a.jsonl".to_string(), session(1, 0, 1, "T1", Some(1.0)));
    cache.insert_session("b.jsonl".to_string(), session(2, 0, 1, "T2", Some(2.0)));
    cache.insert_session("a.jsonl".to_string(), session(3, 0, 1, "T3", Some(3.0)));
    assert_eq!(cache.session_count(), 2);
    assert_eq!(percent(latest_codex_limits(&cache).expect("limits").primary), 3.0);
}

#[test]
fn default_cache_and_diagnostics_start_at_the_minimum() {
    let cache = CodexImportCache::default();
    let diagnostics = codex_import_diagnostics(&cache);
    assert_eq!(diagnostics.active_files, 0);
    assert_eq!(diagnostics.refreshed_files, 0);
    assert_eq!(diagnostics.parse_error_files, 0);
    assert_eq!(diagnostics.no_usage_or_limits_files, 0);
    assert_eq!(diagnostics.unreadable_files, 0);
    assert_eq!(diagnostics.last_import_at, None);
    assert_eq!(diagnostics.discovery_interval, 10);
    assert_eq!(MIN_DISCOVERY_INTERVAL, 10);
    assert_eq!(DISCOVERY_BACKOFF_STEP, 10);
}
