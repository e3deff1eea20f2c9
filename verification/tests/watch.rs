use beachcomber::cache::Cache;
use beachcomber::get::{after_demand, GetStep};
use beachcomber::provider::{
    FieldSchema, FieldType, InvalidationStrategy, ProviderRegistry, RegisteredSource, Source,
    SourceMetadata, SourceScope,
};
use beachcomber::query::{QueryPlan, SourceDemand};
use beachcomber::value::Value;
use beachcomber::watch::{Watch, WatchEvent, WatchStep};

struct Still;

impl Source for Still {
    fn canonical_path(&self, _path: Option<&str>) -> Option<String> {
        None
    }
}

fn text(s: &str) -> Value {
    Value::String(s.to_string())
}

fn fields(list: &[(&str, &str)]) -> Vec<(String, Value)> {
    list.iter().map(|(k, v)| (k.to_string(), text(v))).collect()
}

fn registry(read_always: bool) -> ProviderRegistry<Still> {
    let mut reg = ProviderRegistry::new();
    let sources = vec![RegisteredSource {
        meta: SourceMetadata {
            name: "head".to_string(),
            fields: vec![FieldSchema {
                name: "branch".to_string(),
                field_type: FieldType::String,
            }],
            scope: SourceScope::PathScoped,
            invalidation: InvalidationStrategy::Poll { interval_secs: 1 },
        },
        read_always,
        handle: Still,
    }];
    reg.register("git".to_string(), sources).unwrap();
    reg
}

fn stream(key: &str, reg: &ProviderRegistry<Still>, scheduler: bool) -> Watch {
    Watch::new(QueryPlan::build(key, Some("/r"), Some("/r"), reg), scheduler)
}

fn data_of(step: WatchStep) -> Option<Value> {
    match step {
        WatchStep::Send(r) => r.data,
        other => panic!("expected a response, got {other:?}"),
    }
}

#[test]
fn a_stream_announces_subscribes_reads_and_waits() {
    let reg = registry(false);
    let mut cache = Cache::new();
    let mut w = stream("git.branch", &reg, true);
    match w.step(WatchEvent::Done, &reg, &mut cache, 0) {
        WatchStep::Demand(a) => {
            assert_eq!(a.provider, "git");
            assert_eq!(a.path.as_deref(), Some("/r"));
            assert_eq!(a.demand, SourceDemand::Sources(vec!["head".to_string()]));
        }
        other => panic!("expected a demand, got {other:?}"),
    }
    match w.step(WatchEvent::Done, &reg, &mut cache, 0) {
        WatchStep::Subscribe(provider, path) => {
            assert_eq!(provider, "git");
            assert_eq!(path.as_deref(), Some("/r"));
        }
        other => panic!("expected a subscription, got {other:?}"),
    }
    // A miss is sent as it is: nothing runs.
    assert_eq!(data_of(w.step(WatchEvent::Done, &reg, &mut cache, 0)), None);
    assert!(matches!(w.step(WatchEvent::Done, &reg, &mut cache, 0), WatchStep::Wait));
}

#[test]
fn read_always_sources_run_before_the_first_response() {
    let reg = registry(true);
    let mut cache = Cache::new();
    cache.put_source("git", Some("/r"), "head", fields(&[("branch", "old")]), None, 0);
    let mut w = stream("git.branch", &reg, false);
    assert!(matches!(
        w.step(WatchEvent::Done, &reg, &mut cache, 0),
        WatchStep::Subscribe(_, _)
    ));
    match w.step(WatchEvent::Done, &reg, &mut cache, 0) {
        WatchStep::Execute(e) => {
            assert_eq!((e.provider.as_str(), e.source.as_str()), ("git", "head"));
            assert_eq!(e.path.as_deref(), Some("/r"));
        }
        other => panic!("expected a run, got {other:?}"),
    }
    let ran = WatchEvent::Executed(Some(fields(&[("branch", "new")])));
    assert_eq!(data_of(w.step(ran, &reg, &mut cache, 3)), Some(text("new")));
}

/// A stream that has sent its first response and waits.
fn waiting(reg: &ProviderRegistry<Still>, cache: &mut Cache, scheduler: bool) -> Watch {
    let mut w = stream("git.branch", reg, scheduler);
    if scheduler {
        let _ = w.step(WatchEvent::Done, reg, cache, 0);
    }
    let _ = w.step(WatchEvent::Done, reg, cache, 0);
    let _ = w.step(WatchEvent::Done, reg, cache, 0);
    assert!(matches!(w.step(WatchEvent::Done, reg, cache, 0), WatchStep::Wait));
    w
}

#[test]
fn only_changes_are_sent() {
    let reg = registry(false);
    let mut cache = Cache::new();
    cache.put_source("git", Some("/r"), "head", fields(&[("branch", "a"), ("x", "1")]), None, 0);
    let mut w = waiting(&reg, &mut cache, false);
    // Another field of the source changed.
    cache.put_source("git", Some("/r"), "head", fields(&[("branch", "a"), ("x", "2")]), None, 1);
    assert!(matches!(w.step(WatchEvent::Notified, &reg, &mut cache, 1), WatchStep::Wait));
    cache.put_source("git", Some("/r"), "head", fields(&[("branch", "b")]), None, 2);
    assert_eq!(data_of(w.step(WatchEvent::Notified, &reg, &mut cache, 2)), Some(text("b")));
    assert!(matches!(w.step(WatchEvent::Done, &reg, &mut cache, 2), WatchStep::Wait));
    assert!(matches!(w.step(WatchEvent::Notified, &reg, &mut cache, 3), WatchStep::Wait));
}

#[test]
fn each_notification_renews_the_demand() {
    let reg = registry(false);
    let mut cache = Cache::new();
    let mut w = waiting(&reg, &mut cache, true);
    cache.put_source("git", Some("/r"), "head", fields(&[("branch", "b")]), None, 2);
    assert!(matches!(
        w.step(WatchEvent::Notified, &reg, &mut cache, 2),
        WatchStep::Demand(_)
    ));
    assert_eq!(data_of(w.step(WatchEvent::Done, &reg, &mut cache, 2)), Some(text("b")));
}

#[test]
fn missed_notifications_are_caught_up_without_a_demand() {
    let reg = registry(false);
    let mut cache = Cache::new();
    let mut w = waiting(&reg, &mut cache, true);
    assert!(matches!(w.step(WatchEvent::Lagged, &reg, &mut cache, 0), WatchStep::Wait));
    cache.put_source("git", Some("/r"), "head", fields(&[("branch", "b")]), None, 2);
    assert_eq!(data_of(w.step(WatchEvent::Lagged, &reg, &mut cache, 2)), Some(text("b")));
}

#[test]
fn a_stream_ends_when_either_side_is_gone() {
    let reg = registry(false);
    let mut cache = Cache::new();
    let mut w = waiting(&reg, &mut cache, false);
    assert!(matches!(w.step(WatchEvent::Closed, &reg, &mut cache, 0), WatchStep::Stop));
    assert!(matches!(w.step(WatchEvent::Notified, &reg, &mut cache, 0), WatchStep::Stop));
    let mut w = stream("git.branch", &reg, false);
    let _ = w.step(WatchEvent::Done, &reg, &mut cache, 0);
    let _ = w.step(WatchEvent::Done, &reg, &mut cache, 0);
    assert!(matches!(w.step(WatchEvent::Failed, &reg, &mut cache, 0), WatchStep::Stop));
}

#[test]
fn a_stream_begins_with_what_a_get_answers() {
    let reg = registry(false);
    let mut cache = Cache::new();
    cache.put_source("git", Some("/r"), "head", fields(&[("branch", "a")]), None, 0);
    for key in ["git", "git.head", "git.head.branch", "git.branch", "git.branch.x"] {
        let plan = QueryPlan::build(key, Some("/r"), Some("/r"), &reg);
        let got = match after_demand(plan, &reg, &cache, 9) {
            GetStep::Reply(r) => r,
            GetStep::Execute(_, _) => continue,
            other => panic!("unexpected {other:?}"),
        };
        let mut w = stream(key, &reg, false);
        let _ = w.step(WatchEvent::Done, &reg, &mut cache, 9);
        match w.step(WatchEvent::Done, &reg, &mut cache, 9) {
            WatchStep::Send(r) => {
                assert_eq!(r.data, got.data);
                assert_eq!(r.age_ms, got.age_ms);
                assert_eq!(r.stale, got.stale);
                assert_eq!(r.error, got.error);
            }
            other => panic!("expected a response, got {other:?}"),
        }
    }
}
