use beachcomber::cache::Cache;
use beachcomber::get::GetStep;
use beachcomber::protocol::{IntrospectSubject, Request, Response};
use beachcomber::provider::{
    InvalidationStrategy, ProviderRegistry, RegisteredSource, Source, SourceMetadata, SourceScope,
};
use beachcomber::report::ReaperHealth;
use beachcomber::server::{
    or_context, request_line, requested_path, socket_action, Handled, Identity, LineStep, SchedulerStatus,
    Server, ServerConfig, SocketAction, Surroundings,
};
use beachcomber::value::{get_field, Number, Value};
use beachcomber::watch::{WatchEvent, WatchStep};

struct Still;

impl Source for Still {
    fn canonical_path(&self, _path: Option<&str>) -> Option<String> {
        None
    }
}

type Plain = Server<Still, &'static str, (), &'static str>;

fn registry() -> ProviderRegistry<Still> {
    let mut reg = ProviderRegistry::new();
    let sources = vec![RegisteredSource {
        meta: SourceMetadata {
            name: "main".to_string(),
            fields: Vec::new(),
            scope: SourceScope::PathScoped,
            invalidation: InvalidationStrategy::Poll { interval_secs: 5 },
        },
        read_always: false,
        handle: Still,
    }];
    reg.register("git".to_string(), sources).unwrap();
    reg
}

fn server(scheduler: Option<&'static str>) -> Plain {
    Server::new_with_config(
        "/run/comb.sock".to_string(),
        Cache::new(),
        registry(),
        scheduler,
        (),
        1_000,
        ServerConfig { provider_count: 4 },
    )
}

fn identity() -> Identity {
    Identity {
        protocol_version: 3,
        daemon_version: "0.9".to_string(),
    }
}

fn text(s: &str) -> Value {
    Value::String(s.to_string())
}

fn object(list: &[(&str, Value)]) -> Value {
    Value::Object(list.iter().map(|(k, v)| (k.to_string(), v.clone())).collect())
}

fn handle(s: &mut Plain, request: Request, now: u128) -> Handled {
    let mut context = None;
    let asked = requested_path(&request, &context).map(|p| p.to_string());
    s.handle_request(&request, &mut context, asked.as_deref(), None, &identity(), now)
}

fn reply(handled: Handled) -> Response {
    match handled {
        Handled::Reply(r) => r,
        Handled::Get(GetStep::Reply(r)) => r,
        other => panic!("expected a reply, got {other:?}"),
    }
}

fn put(key: &str, data: Option<Value>, path: Option<&str>) -> Request {
    Request::Put {
        key: key.to_string(),
        data,
        ttl: None,
        path: path.map(|p| p.to_string()),
    }
}

fn get(key: &str, path: Option<&str>) -> Request {
    Request::Get {
        key: key.to_string(),
        path: path.map(|p| p.to_string()),
        force: false,
        wait: false,
    }
}

fn is_done(r: &Response) -> bool {
    r.ok && r.data.is_none() && r.age_ms.is_none() && r.stale.is_none() && r.error.is_none()
}

#[test]
fn a_new_server_loads_its_configuration() {
    let s: Plain = Server::new(
        "/s".to_string(),
        Cache::new(),
        registry(),
        None,
        (),
        7,
        || ServerConfig { provider_count: 11 },
    );
    assert_eq!(s.config.provider_count, 11);
    assert_eq!(s.requests_total, 0);
    assert_eq!(s.start_ms, 7);
    assert!(s.reaper.is_none());
    let s = s.with_reaper_health("alive");
    assert_eq!(s.reaper, Some("alive"));
    assert_eq!(s.config.provider_count, 11);
}

#[test]
fn a_stale_socket_is_removed_and_a_live_one_respected() {
    assert_eq!(socket_action(false, false), SocketAction::Bind);
    assert_eq!(socket_action(true, false), SocketAction::RemoveStale);
    assert_eq!(socket_action(true, true), SocketAction::InUse);
}

#[test]
fn lines_are_trimmed_and_blank_ones_skipped() {
    assert_eq!(request_line("  {\"a\": 1} \r\n"), Some("{\"a\": 1}"));
    assert_eq!(request_line("x"), Some("x"));
    assert_eq!(request_line("\u{a0}é x\u{2003}\n"), Some("é x"));
    assert_eq!(request_line(" \t\n"), None);
    assert_eq!(request_line(""), None);
}

#[test]
fn white_space_is_that_of_unicode() {
    for n in 0..=0x10_ffffu32 {
        let Some(c) = char::from_u32(n) else {
            continue;
        };
        let white = matches!(
            n,
            0x9..=0xd
                | 0x20
                | 0x85
                | 0xa0
                | 0x1680
                | 0x2000..=0x200a
                | 0x2028
                | 0x2029
                | 0x202f
                | 0x205f
                | 0x3000
        );
        assert_eq!(request_line(&c.to_string()).is_none(), white, "U+{n:04X}");
    }
}

#[test]
fn every_request_that_parses_is_counted() {
    let mut s = server(None);
    match s.accept_line(Ok(Request::Hello)) {
        LineStep::Handle(Request::Hello) => {}
        other => panic!("unexpected {other:?}"),
    }
    let watch = Request::Watch {
        key: "git".to_string(),
        path: Some("/r".to_string()),
    };
    match s.accept_line(Ok(watch)) {
        LineStep::Watch(key, path) => {
            assert_eq!((key.as_str(), path.as_deref()), ("git", Some("/r")))
        }
        other => panic!("unexpected {other:?}"),
    }
    assert_eq!(s.requests_total, 2);
    match s.accept_line(Err("expected value".to_string())) {
        LineStep::Reply(r) => {
            assert_eq!(r.error.as_deref(), Some("invalid request: expected value"))
        }
        other => panic!("unexpected {other:?}"),
    }
    assert_eq!(s.requests_total, 2);
    s.requests_total = u64::MAX;
    let _ = s.accept_line(Ok(Request::Status));
    assert_eq!(s.requests_total, 0);
}

#[test]
fn what_is_stored_is_read_back() {
    let mut s = server(None);
    let data = object(&[("x", text("1")), ("deep", object(&[("y", Value::Bool(true))]))]);
    assert!(is_done(&reply(handle(&mut s, put("notes", Some(data.clone()), None), 2_000))));
    let r = reply(handle(&mut s, get("notes", None), 2_500));
    assert_eq!(r.data, Some(data));
    assert_eq!((r.age_ms, r.stale), (Some(500), Some(false)));
    let r = reply(handle(&mut s, get("notes.deep.y", None), 2_500));
    assert_eq!(r.data, Some(Value::Bool(true)));
    // Readable with a path too, as nothing of its own lies there.
    let r = reply(handle(&mut s, get("notes.x", Some("/anywhere")), 2_500));
    assert_eq!(r.data, Some(text("1")));
}

#[test]
fn storing_again_replaces_everything() {
    let mut s = server(None);
    let _ = handle(&mut s, put("notes", Some(object(&[("x", text("1"))])), None), 0);
    let _ = handle(&mut s, put("notes", Some(object(&[("y", text("2"))])), None), 1);
    let r = reply(handle(&mut s, get("notes", None), 1));
    assert_eq!(r.data, Some(object(&[("y", text("2"))])));
    let r = reply(handle(&mut s, get("notes.x", None), 1));
    assert!(is_done(&r));
}

#[test]
fn stored_data_grows_stale_after_its_ttl() {
    let mut s = server(None);
    let request = put("notes", Some(object(&[("x", text("1"))])), None);
    let mut context = None;
    let handled = s.handle_request(&request, &mut context, None, Some(2), &identity(), 0);
    assert!(is_done(&reply(handled)));
    let r = reply(handle(&mut s, get("notes", None), 2_000));
    assert_eq!(r.stale, Some(false));
    let r = reply(handle(&mut s, get("notes", None), 2_001));
    assert_eq!(r.stale, Some(true));
}

#[test]
fn clearing_keeps_the_name() {
    let mut s = server(None);
    let _ = handle(&mut s, put("notes", Some(object(&[("x", text("1"))])), Some("/a")), 0);
    let _ = handle(&mut s, put("notes", Some(object(&[("x", text("2"))])), None), 0);
    assert!(is_done(&reply(handle(&mut s, put("notes", None, Some("/a")), 0))));
    let r = reply(handle(&mut s, get("notes.x", Some("/a")), 0));
    assert_eq!(r.data, Some(text("2")));
    assert!(is_done(&reply(handle(&mut s, put("notes", None, None), 0))));
    assert!(is_done(&reply(handle(&mut s, get("notes.x", None), 0))));
    assert!(s.registry.is_virtual("notes"));
    // Clearing what was never stored makes no name known.
    assert!(is_done(&reply(handle(&mut s, put("other", None, None), 0))));
    assert!(!s.registry.is_virtual("other"));
}

#[test]
fn refused_data_changes_nothing() {
    let mut s = server(None);
    let r = reply(handle(&mut s, put("git", Some(object(&[])), None), 0));
    assert_eq!(
        r.error.as_deref(),
        Some("cannot store under 'git': name is used by a builtin or script provider")
    );
    let r = reply(handle(&mut s, put("git", None, None), 0));
    assert!(!r.ok);
    let r = reply(handle(&mut s, put("notes", Some(text("x")), None), 0));
    assert_eq!(r.error.as_deref(), Some("put data must be a JSON object"));
    assert_eq!(s.cache.len(), 0);
    assert!(!s.registry.is_virtual("notes"));
}

#[test]
fn a_dotted_name_is_stored_but_read_as_a_field() {
    let mut s = server(None);
    let _ = handle(&mut s, put("a.b", Some(object(&[("x", text("1"))])), None), 0);
    assert!(s.cache.has_entry("a.b", None));
    let r = reply(handle(&mut s, get("a.b", None), 0));
    assert_eq!(r.error.as_deref(), Some("unknown provider: a"));
}

#[test]
fn a_context_is_the_default_path() {
    let mut s = server(None);
    let mut context = None;
    let set = Request::Context {
        path: "/r".to_string(),
    };
    let handled = s.handle_request(&set, &mut context, None, None, &identity(), 0);
    assert!(is_done(&reply(handled)));
    assert_eq!(context.as_deref(), Some("/r"));
    assert_eq!(requested_path(&get("git", None), &context), Some("/r"));
    assert_eq!(requested_path(&get("git", Some("/s")), &context), Some("/s"));
    // Storing does not use it.
    assert_eq!(requested_path(&put("notes", None, None), &context), None);
    let handled =
        s.handle_request(&get("git", None), &mut context, None, None, &identity(), 0);
    match handled {
        Handled::Get(GetStep::Execute(e, _)) => assert_eq!(e.path.as_deref(), Some("/r")),
        other => panic!("expected a run, got {other:?}"),
    }
}

#[test]
fn a_stream_is_opened_at_the_path_asked_for() {
    let mut s = server(None);
    let context = Some("/r".to_string());
    assert_eq!(or_context(&None, &context), Some("/r"));
    assert_eq!(or_context(&Some("/s".to_string()), &context), Some("/s"));
    assert_eq!(or_context(&None, &None), None);
    let mut watch = s.open_watch("git", or_context(&None, &context), None);
    match watch.step(WatchEvent::Done, &s.registry, &mut s.cache, 0) {
        WatchStep::Subscribe(provider, path) => {
            assert_eq!((provider.as_str(), path.as_deref()), ("git", Some("/r")))
        }
        other => panic!("expected a subscription, got {other:?}"),
    }
    let mut s = server(Some("scheduler"));
    let mut watch = s.open_watch("git:age", None, None);
    match watch.step(WatchEvent::Done, &s.registry, &mut s.cache, 0) {
        WatchStep::Demand(activity) => assert_eq!(activity.path, None),
        other => panic!("expected a demand, got {other:?}"),
    }
}

#[test]
fn refreshing_goes_through_the_scheduler() {
    let refresh = |key: &str| Request::Refresh {
        key: key.to_string(),
        path: Some("/r".to_string()),
    };
    let mut s = server(Some("scheduler"));
    match handle(&mut s, refresh("git.branch"), 0) {
        Handled::Refresh(message, r) => {
            assert_eq!(message.provider, "git");
            assert_eq!(message.path.as_deref(), Some("/r"));
            assert!(is_done(&r));
        }
        other => panic!("expected a refresh, got {other:?}"),
    }
    let mut s = server(None);
    assert!(is_done(&reply(handle(&mut s, refresh("git.branch"), 0))));
    let _ = handle(&mut s, put("notes", Some(object(&[])), None), 0);
    assert!(is_done(&reply(handle(&mut s, refresh("notes"), 0))));
    let r = reply(handle(&mut s, refresh("nope.x"), 0));
    assert_eq!(r.error.as_deref(), Some("unknown provider: nope"));
}

#[test]
fn a_greeting_is_answered_with_the_versions() {
    let mut s = server(None);
    let r = reply(handle(&mut s, Request::Hello, 0));
    let expected = object(&[
        ("protocol_version", Value::Number(Number::PosInt(3))),
        ("daemon_version", text("0.9")),
    ]);
    assert_eq!(r.data, Some(expected));
    assert_eq!((r.age_ms, r.stale), (Some(0), Some(false)));
}

#[test]
fn reports_are_asked_for_by_subject() {
    let mut s = server(None);
    let ask = |subject, duration_secs| Request::Introspect {
        subject,
        duration_secs,
    };
    assert!(matches!(
        handle(&mut s, ask(IntrospectSubject::Cache, None), 0),
        Handled::Introspect(IntrospectSubject::Cache)
    ));
    assert!(matches!(
        handle(&mut s, ask(IntrospectSubject::Procs, None), 0),
        Handled::Procs(2)
    ));
    assert!(matches!(
        handle(&mut s, ask(IntrospectSubject::Procs, Some(9)), 0),
        Handled::Procs(9)
    ));
    assert!(matches!(handle(&mut s, Request::Status, 0), Handled::Status));
}

fn surroundings() -> Surroundings {
    Surroundings {
        pid: 42,
        version: "0.9".to_string(),
        config_path: Some("/etc/comb.toml".to_string()),
        active_watchers: 2,
        reaper: None,
        stale_ratio: Number::Float(0),
    }
}

fn member<'a>(r: &'a Response, key: &str) -> &'a Value {
    match &r.data {
        Some(Value::Object(fields)) => get_field(fields, key).expect("member"),
        other => panic!("expected an object, got {other:?}"),
    }
}

fn count(n: u64) -> Value {
    Value::Number(Number::PosInt(n))
}

#[test]
fn the_daemon_reports_on_itself() {
    let mut s = server(None);
    let _ = s.accept_line(Ok(Request::Status));
    let _ = handle(&mut s, put("notes", Some(object(&[])), None), 0);
    let r = s.introspect(IntrospectSubject::Daemon, &None, &surroundings(), 63_999);
    assert_eq!(member(&r, "pid"), &count(42));
    assert_eq!(member(&r, "uptime_secs"), &count(62));
    assert_eq!(member(&r, "socket_path"), &text("/run/comb.sock"));
    assert_eq!(member(&r, "config_path"), &text("/etc/comb.toml"));
    assert_eq!(member(&r, "requests_total"), &count(1));
    assert_eq!(member(&r, "in_flight"), &count(0));
    assert_eq!(member(&r, "active_watchers"), &count(2));
    assert_eq!(member(&r, "cache_entries"), &count(1));
    assert_eq!(member(&r, "watch_backend"), &text("unknown"));
    match &r.data {
        Some(Value::Object(fields)) => assert!(get_field(fields, "reaper").is_none()),
        other => panic!("expected an object, got {other:?}"),
    }
    let status = SchedulerStatus {
        in_flight: 6,
        watch_backend: "native".to_string(),
        lifecycle: Vec::new(),
        watched_paths: vec!["/a".to_string()],
        poll_timers: Vec::new(),
        demand: Vec::new(),
    };
    let around = Surroundings {
        reaper: Some(ReaperHealth {
            armed: true,
            visibility_ok: true,
            sweeps_total: 5,
            reaped_total: 1,
            kill_denied_total: 0,
        }),
        ..surroundings()
    };
    let r = s.introspect(IntrospectSubject::Daemon, &Some(status), &around, 0);
    assert_eq!(member(&r, "in_flight"), &count(6));
    assert_eq!(member(&r, "uptime_secs"), &count(0));
    assert_eq!(member(&r, "watch_backend"), &text("native"));
    let reaper = object(&[
        ("armed", Value::Bool(true)),
        ("visibility", text("system-wide")),
        ("sweeps", count(5)),
        ("reaped", count(1)),
        ("kill_denied", count(0)),
    ]);
    assert_eq!(member(&r, "reaper"), &reaper);
}

#[test]
fn every_subject_has_a_report() {
    let s = server(None);
    let around = surroundings();
    let r = s.introspect(IntrospectSubject::Config, &None, &around, 0);
    assert_eq!(member(&r, "provider_count_from_config"), &count(4));
    assert_eq!(member(&r, "path"), &text("/etc/comb.toml"));
    let r = s.introspect(IntrospectSubject::Cache, &None, &around, 0);
    assert_eq!(member(&r, "total_entries"), &count(0));
    let r = s.introspect(IntrospectSubject::Providers, &None, &around, 0);
    assert!(matches!(member(&r, "providers"), Value::Array(all) if all.len() == 1));
    let r = s.introspect(IntrospectSubject::Lifecycle, &None, &around, 0);
    assert_eq!(member(&r, "lifecycle"), &Value::Array(Vec::new()));
    let r = s.introspect(IntrospectSubject::Watches, &None, &around, 0);
    assert_eq!(member(&r, "paths"), &Value::Array(Vec::new()));
    let r = s.introspect(IntrospectSubject::Timers, &None, &around, 0);
    assert_eq!(member(&r, "timers"), &Value::Array(Vec::new()));
    let r = s.introspect(IntrospectSubject::Demand, &None, &around, 0);
    assert_eq!(member(&r, "demand"), &Value::Array(Vec::new()));
}
