use beachcomber::cache::Cache;
use beachcomber::protocol::Response;
use beachcomber::provider::{
    FieldSchema, FieldType, InvalidationStrategy, ProviderRegistry, RegisteredSource,
    SourceMetadata, SourceScope,
};
use beachcomber::report::{
    cache_counts, handle_introspect_cache, handle_introspect_config, handle_introspect_daemon,
    handle_introspect_demand, handle_introspect_lifecycle, handle_introspect_procs,
    handle_introspect_providers, handle_introspect_timers, handle_introspect_watches,
    summarize_invalidation, DaemonFacts, LifecycleInfo, PollTimerInfo, ProcSample, ProcSnapshot,
    ProcsFailure, ReaperHealth, ReplacementSuggestion,
};
use beachcomber::status::{
    status_reply, status_rows, FailureSnapshot, LifecycleSnapshot, RowKind,
};
use beachcomber::text::{decimal_text, join_text, sort_names, split_text};
use beachcomber::value::{get_field, Number, Value};

fn text(s: &str) -> Value {
    Value::String(s.to_string())
}

fn count(n: u64) -> Value {
    Value::Number(Number::PosInt(n))
}

fn object(list: &[(&str, Value)]) -> Value {
    Value::Object(list.iter().map(|(k, v)| (k.to_string(), v.clone())).collect())
}

fn verdict(level: &str, message: &str) -> Value {
    object(&[("level", text(level)), ("message", text(message))])
}

fn member(r: &Response, key: &str) -> Value {
    match &r.data {
        Some(Value::Object(fields)) => get_field(fields, key).expect("member").clone(),
        other => panic!("expected an object, got {other:?}"),
    }
}

fn has_member(r: &Response, key: &str) -> bool {
    match &r.data {
        Some(Value::Object(fields)) => get_field(fields, key).is_some(),
        other => panic!("expected an object, got {other:?}"),
    }
}

fn facts(in_flight: u64, backend: &str, reaper: Option<ReaperHealth>) -> DaemonFacts {
    DaemonFacts {
        pid: 1,
        version: "1".to_string(),
        uptime_secs: 2,
        socket_path: "/s".to_string(),
        config_path: None,
        requests_total: 3,
        in_flight,
        active_watchers: 4,
        cache_entries: 5,
        watch_backend: backend.to_string(),
        reaper,
    }
}

#[test]
fn a_healthy_daemon_passes() {
    let r = handle_introspect_daemon(&facts(50, "native", None));
    assert_eq!(
        member(&r, "verdicts"),
        Value::Array(vec![
            verdict("PASS", "daemon responsive"),
            verdict("PASS", "in_flight=50"),
            verdict("PASS", "watch backend: native fs events"),
        ])
    );
    assert_eq!(member(&r, "config_path"), Value::Null);
    assert!(!has_member(&r, "reaper"));
}

#[test]
fn load_and_degradation_are_warned_about() {
    let health = ReaperHealth {
        armed: true,
        visibility_ok: false,
        sweeps_total: 1,
        reaped_total: 2,
        kill_denied_total: 3,
    };
    let r = handle_introspect_daemon(&facts(51, "polling", Some(health)));
    assert_eq!(
        member(&r, "verdicts"),
        Value::Array(vec![
            verdict("PASS", "daemon responsive"),
            verdict("WARN", "51 in-flight requests (threshold 50)"),
            verdict("WARN", "watch backend: polling — kernel fs events undelivered; watch invalidation degraded to polling"),
            verdict("WARN", "reaper visibility degraded: PID 1 not visible in process enumeration — this daemon runs confined (sandbox-spawned?) and cannot police daemons outside its confinement; restart it from an unconfined shell"),
            verdict("WARN", "reaper: 3 kill attempt(s) denied by the OS — orphans visible but unsignalable"),
        ])
    );
    assert!(has_member(&r, "reaper"));
    let idle = ReaperHealth {
        armed: false,
        ..health
    };
    let r = handle_introspect_daemon(&facts(0, "native", Some(idle)));
    match member(&r, "verdicts") {
        Value::Array(all) => {
            assert_eq!(all.len(), 4);
            assert_eq!(all[3], verdict("PASS", "reaper: not armed (side daemon)"));
        }
        other => panic!("expected a list, got {other:?}"),
    }
}

fn watch(patterns: &[&str]) -> InvalidationStrategy {
    InvalidationStrategy::Watch {
        patterns: patterns.iter().map(|p| p.to_string()).collect(),
        abs_paths: Vec::new(),
    }
}

fn both(patterns: &[&str], secs: u64) -> InvalidationStrategy {
    InvalidationStrategy::WatchAndPoll {
        patterns: patterns.iter().map(|p| p.to_string()).collect(),
        abs_paths: Vec::new(),
        interval_secs: secs,
    }
}

#[test]
fn strategies_are_summed_up() {
    let poll = InvalidationStrategy::Poll { interval_secs: 90 };
    assert_eq!(summarize_invalidation(&poll), "poll 90s");
    assert_eq!(summarize_invalidation(&watch(&[])), "watch (abs_paths)");
    assert_eq!(summarize_invalidation(&watch(&["a", "b"])), "watch a,b");
    assert_eq!(summarize_invalidation(&both(&["a"], 5)), "watch a + poll 5s");
    assert_eq!(
        summarize_invalidation(&both(&[], 10)),
        "watch (abs_paths) + poll 10s"
    );
}

fn info(provider: &str, path: Option<&str>, stage: &str, secs: u64) -> LifecycleInfo {
    LifecycleInfo {
        provider: provider.to_string(),
        path: path.map(|p| p.to_string()),
        stage: stage.to_string(),
        elapsed_secs: secs,
        record: text(stage),
    }
}

#[test]
fn providers_are_listed_by_name_with_their_worst_backoff() {
    let mut reg: ProviderRegistry<()> = ProviderRegistry::new();
    let sources = vec![
        RegisteredSource {
            meta: SourceMetadata {
                name: "main".to_string(),
                fields: vec![FieldSchema {
                    name: "n".to_string(),
                    field_type: FieldType::Int,
                }],
                scope: SourceScope::Global,
                invalidation: InvalidationStrategy::Poll { interval_secs: 7 },
            },
            read_always: false,
            handle: (),
        },
        RegisteredSource {
            meta: SourceMetadata {
                name: "more".to_string(),
                fields: Vec::new(),
                scope: SourceScope::PathScoped,
                invalidation: watch(&["x"]),
            },
            read_always: false,
            handle: (),
        },
    ];
    reg.register("zoo".to_string(), sources).unwrap();
    reg.register_virtual("abc");
    let list = vec![
        info("zoo", None, "slow", 9),
        info("zoo", Some("/a"), "slower", 20),
        info("zoo", Some("/b"), "slowest", 20),
        info("else", None, "x", 99),
    ];
    let r = handle_introspect_providers(&reg, &list);
    let abc = object(&[
        ("name", text("abc")),
        ("source", text("virtual")),
        ("scope", text("global")),
        ("sources", Value::Array(Vec::new())),
        ("invalidation", text("data-only")),
        ("in_backoff", Value::Null),
    ]);
    let main = object(&[
        ("name", text("main")),
        ("scope", text("global")),
        ("fields", Value::Array(vec![object(&[("name", text("n")), ("type", text("int"))])])),
        ("invalidation", text("poll 7s")),
    ]);
    let more = object(&[
        ("name", text("more")),
        ("scope", text("path")),
        ("fields", Value::Array(Vec::new())),
        ("invalidation", text("watch x")),
    ]);
    let zoo = object(&[
        ("name", text("zoo")),
        ("source", text("builtin")),
        ("scope", text("path")),
        ("sources", Value::Array(vec![main, more])),
        ("invalidation", text("poll 7s")),
        ("in_backoff", object(&[("stage", text("slowest")), ("elapsed_secs", count(20))])),
    ]);
    assert_eq!(member(&r, "providers"), Value::Array(vec![abc, zoo]));
    assert_eq!(
        member(&r, "verdicts"),
        Value::Array(vec![
            verdict("PASS", "2 providers registered"),
            verdict("WARN", "zoo in backoff 20s (stage=slowest)"),
        ])
    );
}

#[test]
fn the_configuration_is_reported() {
    let r = handle_introspect_config(&None, 3);
    let expected = object(&[
        ("path", Value::Null),
        ("parsed", Value::Bool(true)),
        ("errors", Value::Array(Vec::new())),
        ("provider_count_from_config", count(3)),
        (
            "verdicts",
            Value::Array(vec![
                verdict("PASS", "config parsed"),
                verdict("PASS", "3 provider definitions loaded"),
            ]),
        ),
    ]);
    assert_eq!(r.data, Some(expected));
}

#[test]
fn stale_entries_are_counted() {
    let mut cache = Cache::new();
    let one = || vec![("x".to_string(), text("1"))];
    cache.put_source("a", None, "s", one(), Some(1), 0);
    cache.put_source("b", None, "s", one(), Some(9), 0);
    cache.put_source("b", None, "t", one(), None, 0);
    assert_eq!(cache_counts(&cache, 1_001), (2, 1));
    let half = Number::Float(0.5f64.to_bits());
    let r = handle_introspect_cache(2, 1, half);
    assert_eq!(member(&r, "stale_ratio"), Value::Number(half));
    assert_eq!(
        member(&r, "verdicts"),
        Value::Array(vec![
            verdict("PASS", "2 entries"),
            verdict("WARN", "1 stale — run `comb status --filter stale=true` to inspect"),
        ])
    );
    let r = handle_introspect_cache(1, 0, Number::Float(0));
    assert_eq!(
        member(&r, "verdicts"),
        Value::Array(vec![verdict("PASS", "1 entries"), verdict("PASS", "no stale entries")])
    );
    let r = handle_introspect_cache(0, 0, Number::Float(0));
    assert_eq!(member(&r, "verdicts"), Value::Array(vec![verdict("PASS", "0 entries")]));
}

#[test]
fn decay_is_warned_about() {
    let r = handle_introspect_lifecycle(&Vec::new());
    assert_eq!(
        member(&r, "verdicts"),
        Value::Array(vec![verdict("PASS", "no providers in decay")])
    );
    let list = vec![info("git", Some("/r"), "cold", 12), info("env", None, "warm", 3)];
    let r = handle_introspect_lifecycle(&list);
    assert_eq!(member(&r, "lifecycle"), Value::Array(vec![text("cold"), text("warm")]));
    assert_eq!(
        member(&r, "verdicts"),
        Value::Array(vec![
            verdict("WARN", "git (/r) — stage=cold elapsed=12s"),
            verdict("WARN", "env — stage=warm elapsed=3s"),
        ])
    );
}

#[test]
fn watched_paths_and_demand_are_counted() {
    let r = handle_introspect_watches(&Vec::new());
    assert_eq!(
        member(&r, "verdicts"),
        Value::Array(vec![verdict("WARN", "not watching any paths")])
    );
    let r = handle_introspect_watches(&vec!["/a".to_string(), "/b".to_string()]);
    assert_eq!(member(&r, "paths"), Value::Array(vec![text("/a"), text("/b")]));
    assert_eq!(
        member(&r, "verdicts"),
        Value::Array(vec![verdict("PASS", "watching 2 paths")])
    );
    let r = handle_introspect_demand(&vec![text("k")]);
    assert_eq!(member(&r, "demand"), Value::Array(vec![text("k")]));
    assert_eq!(
        member(&r, "verdicts"),
        Value::Array(vec![verdict("PASS", "1 active keys")])
    );
}

fn timer(provider: &str, path: Option<&str>, interval: u64, ago: u64) -> PollTimerInfo {
    PollTimerInfo {
        provider: provider.to_string(),
        path: path.map(|p| p.to_string()),
        interval_secs: interval,
        last_run_secs_ago: ago,
        record: count(ago),
    }
}

#[test]
fn overdue_timers_are_warned_about() {
    let list = vec![
        timer("a", None, 10, 20),
        timer("b", Some("/r"), 10, 21),
        timer("c", None, 0, 99),
    ];
    let r = handle_introspect_timers(&list);
    assert_eq!(member(&r, "timers"), Value::Array(vec![count(20), count(21), count(99)]));
    assert_eq!(
        member(&r, "verdicts"),
        Value::Array(vec![
            verdict("PASS", "3 poll timers"),
            verdict("WARN", "b (/r) overdue (interval=10s, last=21s ago)"),
        ])
    );
}

#[test]
fn processes_are_reported_with_suggestions() {
    let suggestion = || ReplacementSuggestion {
        command_pattern: "git rev-parse".to_string(),
        provider: "git".to_string(),
        field: "branch".to_string(),
    };
    let snapshot = |n: usize| {
        Ok(ProcSnapshot {
            duration_secs: 2,
            total: 7,
            samples: vec![ProcSample {
                command: "git".to_string(),
                count: 7,
                category: "vcs".to_string(),
            }],
            replacement_suggestions: (0..n).map(|_| suggestion()).collect(),
        })
    };
    let r = handle_introspect_procs(&snapshot(0));
    assert_eq!(
        member(&r, "verdicts"),
        Value::Array(vec![verdict("INFO", "2s sample: 7 exec events")])
    );
    assert_eq!(
        member(&r, "samples"),
        Value::Array(vec![object(&[
            ("command", text("git")),
            ("count", count(7)),
            ("category", text("vcs")),
        ])])
    );
    let second = |r: &Response| match member(r, "verdicts") {
        Value::Array(all) => all[1].clone(),
        other => panic!("expected a list, got {other:?}"),
    };
    let r = handle_introspect_procs(&snapshot(1));
    assert_eq!(
        second(&r),
        verdict("WARN", "1 replacement opportunity: consider using `comb get` instead")
    );
    let r = handle_introspect_procs(&snapshot(2));
    assert_eq!(
        second(&r),
        verdict("WARN", "2 replacement opportunities: consider using `comb get` instead")
    );
    let r = handle_introspect_procs(&Err(ProcsFailure::Capture("no access".to_string())));
    assert_eq!(r.error.as_deref(), Some("procs snapshot failed: no access"));
    let r = handle_introspect_procs(&Err(ProcsFailure::Panicked("boom".to_string())));
    assert_eq!(r.error.as_deref(), Some("procs task panicked: boom"));
}

#[test]
fn rows_carry_what_is_known_of_their_own_source() {
    let mut reg: ProviderRegistry<()> = ProviderRegistry::new();
    reg.register_virtual("notes");
    let mut cache = Cache::new();
    let one = || vec![("x".to_string(), text("1"))];
    cache.put_source("git", Some("/r"), "refs", one(), Some(1), 0);
    cache.put_source("git", Some("/r"), "diff", one(), None, 500);
    cache.put_source("git", Some("/r"), "odd", one(), None, 0);
    cache.put_source("notes", None, "virtual", one(), None, 0);
    let snapshot = |source: &str, interval: u64| LifecycleSnapshot {
        provider: "git".to_string(),
        path: Some("/r".to_string()),
        source: source.to_string(),
        decay: "none".to_string(),
        watches_files: true,
        poll_interval_secs: interval,
        keep_alive_polls: 3,
        polls_elapsed: 1,
        next_poll_in_secs: Some(4),
        fsevents_reinstate: true,
    };
    let failure = |provider: &str, path: Option<&str>, source: &str| FailureSnapshot {
        provider: provider.to_string(),
        path: path.map(|p| p.to_string()),
        source: source.to_string(),
        record: text("failing"),
    };
    let rows = status_rows(
        &cache,
        &reg,
        &vec![snapshot("refs", 30), snapshot("diff", 0)],
        &vec![
            failure("git", Some("/r"), "odd"),
            failure("notes", None, "virtual"),
            failure("git", None, "refs"),
        ],
        1_500,
    );
    assert_eq!(rows.len(), 4);
    let refs = &rows[0];
    assert_eq!((refs.source.as_str(), refs.age_ms, refs.stale), ("refs", 1_500, true));
    assert!(matches!(
        &refs.kind,
        Some(RowKind::Lifecycle { decay, watches_files: true }) if decay == "none"
    ));
    assert_eq!(refs.poll_interval_secs, Some(30));
    assert_eq!(refs.keep_alive_polls, Some(3));
    assert_eq!(refs.polls_elapsed, Some(1));
    assert_eq!(refs.next_poll_in_secs, Some(4));
    assert_eq!(refs.fsevents_reinstate, Some(true));
    assert!(refs.failure.is_none());
    // A source that is only watched shows nothing about polling.
    let diff = &rows[1];
    assert!(matches!(diff.kind, Some(RowKind::Lifecycle { .. })));
    assert_eq!(diff.poll_interval_secs, None);
    assert_eq!(diff.next_poll_in_secs, None);
    assert_eq!(diff.fsevents_reinstate, Some(true));
    let odd = &rows[2];
    assert!(matches!(odd.kind, Some(RowKind::Transient)));
    assert_eq!(odd.failure, Some(text("failing")));
    let notes = &rows[3];
    assert!(matches!(notes.kind, Some(RowKind::Virtual)));
    assert!(notes.failure.is_none());
}

#[test]
fn the_listing_answers_or_says_why_not() {
    let r = status_reply(Ok(Value::Array(Vec::new())));
    assert_eq!(r.data, Some(Value::Array(Vec::new())));
    let r = status_reply(Err("bad key".to_string()));
    assert_eq!(r.error.as_deref(), Some("serialization failed: bad key"));
}

#[test]
fn texts_split_join_and_sort() {
    let parts = split_text("a..b", '.');
    assert_eq!(parts, vec!["a", "", "b"]);
    assert_eq!(join_text(&parts, 0, "."), "a..b");
    assert_eq!(join_text(&parts, 1, "."), ".b");
    assert_eq!(decimal_text(0), "0");
    assert_eq!(decimal_text(u64::MAX), "18446744073709551615");
    let names: Vec<String> = ["b", "", "ab", "é", "a"].iter().map(|s| s.to_string()).collect();
    assert_eq!(sort_names(&names), vec!["", "a", "ab", "b", "é"]);
}
