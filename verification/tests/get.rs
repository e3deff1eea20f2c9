use beachcomber::cache::Cache;
use beachcomber::get::{
    after_demand, after_execute, apply_meta, begin_get, plan_execution, store_execution,
    Execution, GetStep,
};
use beachcomber::protocol::Response;
use beachcomber::provider::{
    FieldSchema, FieldType, InvalidationStrategy, ProviderRegistry, RegisteredSource, Source,
    SourceMetadata, SourceScope,
};
use beachcomber::query::{QueryPlan, SourceDemand};
use beachcomber::value::{get_field, Number, Value};

struct Still;

impl Source for Still {
    fn canonical_path(&self, _path: Option<&str>) -> Option<String> {
        None
    }
}

fn text(s: &str) -> Value {
    Value::String(s.to_string())
}

fn fields(list: &[(&str, &str)]) -> Vec<(String, Value)> {
    list.iter().map(|(k, v)| (k.to_string(), text(v))).collect()
}

fn source(
    name: &str,
    schema: &[&str],
    scope: SourceScope,
    invalidation: InvalidationStrategy,
    read_always: bool,
) -> RegisteredSource<Still> {
    RegisteredSource {
        meta: SourceMetadata {
            name: name.to_string(),
            fields: schema
                .iter()
                .map(|f| FieldSchema {
                    name: f.to_string(),
                    field_type: FieldType::String,
                })
                .collect(),
            scope,
            invalidation,
        },
        read_always,
        handle: Still,
    }
}

fn poll(secs: u64) -> InvalidationStrategy {
    InvalidationStrategy::Poll {
        interval_secs: secs,
    }
}

fn registry() -> ProviderRegistry<Still> {
    let mut reg = ProviderRegistry::new();
    let git = vec![
        source("head", &["branch"], SourceScope::PathScoped, poll(30), false),
        source("refs", &["ahead"], SourceScope::PathScoped, poll(60), false),
    ];
    reg.register("git".to_string(), git).unwrap();
    let env = vec![source(
        "vars",
        &["home"],
        SourceScope::Global,
        InvalidationStrategy::Watch {
            patterns: Vec::new(),
            abs_paths: Vec::new(),
        },
        true,
    )];
    reg.register("env".to_string(), env).unwrap();
    let mixed = vec![
        source("here", &["a"], SourceScope::PathScoped, poll(5), false),
        source("anywhere", &["b"], SourceScope::Global, poll(5), false),
    ];
    reg.register("mixed".to_string(), mixed).unwrap();
    let tools = vec![
        source("first", &[], SourceScope::PathScoped, poll(5), false),
        source("second", &[], SourceScope::PathScoped, poll(5), false),
    ];
    reg.register("tools".to_string(), tools).unwrap();
    reg
}

/// Runs a read to its end; the sources give what `run` says of them.
fn finish(
    step: GetStep,
    reg: &ProviderRegistry<Still>,
    cache: &mut Cache,
    now: u128,
    run: fn(&Execution) -> Option<Vec<(String, Value)>>,
) -> (Response, Vec<String>) {
    let mut step = step;
    let mut ran = Vec::new();
    loop {
        match step {
            GetStep::Reply(r) => return (r, ran),
            GetStep::Demand(_, plan) => step = after_demand(plan, reg, cache, now),
            GetStep::Execute(e, state) => {
                ran.push(format!("{}.{}@{:?}", e.provider, e.source, e.path));
                step = after_execute(state, run(&e), reg, cache, now);
            }
        }
    }
}

fn get(
    key: &str,
    path: Option<&str>,
    reg: &ProviderRegistry<Still>,
    cache: &mut Cache,
    now: u128,
    run: fn(&Execution) -> Option<Vec<(String, Value)>>,
) -> (Response, Vec<String>) {
    let plan = QueryPlan::build(key, path, path, reg);
    let step = begin_get(plan, false, false, false, reg, cache, now);
    finish(step, reg, cache, now, run)
}

fn by_name(e: &Execution) -> Option<Vec<(String, Value)>> {
    match e.source.as_str() {
        "head" => Some(fields(&[("branch", "main")])),
        "refs" => Some(fields(&[("ahead", "2")])),
        "vars" => Some(fields(&[("home", "/root")])),
        "here" => Some(fields(&[("a", "1")])),
        "anywhere" => Some(fields(&[("b", "2")])),
        _ => None,
    }
}

fn never(e: &Execution) -> Option<Vec<(String, Value)>> {
    panic!("nothing should run, but {e:?} did")
}

fn fails(_: &Execution) -> Option<Vec<(String, Value)>> {
    None
}

fn empty(_: &Execution) -> Option<Vec<(String, Value)>> {
    Some(Vec::new())
}

#[test]
fn unknown_providers_are_refused() {
    let reg = registry();
    let mut cache = Cache::new();
    let (r, _) = get("nope.x", None, &reg, &mut cache, 0, never);
    assert!(!r.ok);
    assert_eq!(r.error.as_deref(), Some("unknown provider: nope"));
}

#[test]
fn a_cold_field_runs_its_owner() {
    let reg = registry();
    let mut cache = Cache::new();
    let (r, ran) = get("git.branch", Some("/r"), &reg, &mut cache, 7, by_name);
    assert_eq!(ran, vec!["git.head@Some(\"/r\")"]);
    assert_eq!(r.data, Some(text("main")));
    assert_eq!(r.age_ms, Some(0));
    assert_eq!(r.stale, Some(false));
    // Warm now: the cache answers at once.
    let (r, ran) = get("git.branch", Some("/r"), &reg, &mut cache, 10, never);
    assert!(ran.is_empty());
    assert_eq!(r.data, Some(text("main")));
    assert_eq!(r.age_ms, Some(3));
    // Another path is another slot.
    let (_, ran) = get("git.branch", Some("/s"), &reg, &mut cache, 10, by_name);
    assert_eq!(ran, vec!["git.head@Some(\"/s\")"]);
}

#[test]
fn a_cold_source_field_is_looked_up_in_what_its_source_gives() {
    let reg = registry();
    let mut cache = Cache::new();
    let (r, ran) = get("git.refs.ahead", Some("/r"), &reg, &mut cache, 0, by_name);
    assert_eq!(ran, vec!["git.refs@Some(\"/r\")"]);
    assert_eq!(r.data, Some(text("2")));
    let (r, ran) = get("git.refs.gone", Some("/r"), &reg, &mut cache, 0, never);
    assert!(ran.is_empty());
    assert_eq!(r.error.as_deref(), Some("unknown field: git.refs.gone"));
}

#[test]
fn a_cold_provider_runs_every_source_once_in_order() {
    let reg = registry();
    let mut cache = Cache::new();
    let (r, ran) = get("git", Some("/r"), &reg, &mut cache, 0, by_name);
    assert_eq!(ran, vec!["git.head@Some(\"/r\")", "git.refs@Some(\"/r\")"]);
    match r.data {
        Some(Value::Object(all)) => {
            assert_eq!(get_field(&all, "branch"), Some(&text("main")));
            assert_eq!(get_field(&all, "ahead"), Some(&text("2")));
        }
        other => panic!("expected an object, got {other:?}"),
    }
}

#[test]
fn path_scoped_sources_need_a_path() {
    let reg = registry();
    let mut cache = Cache::new();
    let (r, ran) = get("git.branch", None, &reg, &mut cache, 0, never);
    assert!(ran.is_empty());
    assert!(r.ok && r.data.is_none());
    assert!(plan_execution(&reg, "git", "head", None).is_none());
    assert!(plan_execution(&reg, "git", "nope", Some("/r")).is_none());
    let e = plan_execution(&reg, "env", "vars", Some("/r")).unwrap();
    assert_eq!((e.provider.as_str(), e.source.as_str(), e.path), ("env", "vars", None));
}

#[test]
fn read_always_sources_run_before_every_read() {
    let reg = registry();
    let mut cache = Cache::new();
    let (r, ran) = get("env.home", None, &reg, &mut cache, 0, by_name);
    assert_eq!(ran, vec!["env.vars@None"]);
    assert_eq!(r.data, Some(text("/root")));
    let (r, ran) = get("env.home", None, &reg, &mut cache, 5, |_| {
        Some(fields(&[("home", "/new")]))
    });
    assert_eq!(ran, vec!["env.vars@None"]);
    assert_eq!(r.data, Some(text("/new")));
    assert_eq!(r.age_ms, Some(0));
    // A failing run leaves what was cached.
    let (r, ran) = get("env.home", None, &reg, &mut cache, 9, fails);
    assert_eq!(ran, vec!["env.vars@None"]);
    assert_eq!(r.data, Some(text("/new")));
    assert_eq!(r.age_ms, Some(4));
}

#[test]
fn a_failing_read_always_source_is_tried_again_on_a_miss() {
    let reg = registry();
    let mut cache = Cache::new();
    let (r, ran) = get("env.home", None, &reg, &mut cache, 0, fails);
    assert_eq!(ran, vec!["env.vars@None", "env.vars@None"]);
    assert!(r.ok && r.data.is_none());
    let (_, ran) = get("env.home", None, &reg, &mut cache, 0, empty);
    assert_eq!(ran.len(), 2);
    assert_eq!(cache.len(), 0);
}

#[test]
fn a_global_source_is_recorded_without_the_path() {
    let reg = registry();
    let mut cache = Cache::new();
    // The slot that is read is that of the path, so the value is not found in it.
    let (r, ran) = get("mixed.b", Some("/r"), &reg, &mut cache, 0, by_name);
    assert_eq!(ran, vec!["mixed.anywhere@None"]);
    assert!(r.ok && r.data.is_none());
    assert!(cache.get_source("mixed", None, "anywhere").is_some());
    let (r, _) = get("mixed", None, &reg, &mut cache, 0, never);
    match r.data {
        Some(Value::Object(all)) => assert_eq!(get_field(&all, "b"), Some(&text("2"))),
        other => panic!("expected an object, got {other:?}"),
    }
}

#[test]
fn recording_takes_the_interval_of_the_source() {
    let reg = registry();
    let mut cache = Cache::new();
    let some = Some(fields(&[("branch", "x")]));
    assert!(store_execution(&mut cache, &reg, "git", "head", Some("/r"), some, 3));
    let entry = cache.get_source("git", Some("/r"), "head").unwrap();
    assert_eq!(entry.interval_secs, Some(30));
    assert_eq!(entry.refreshed_ms, 3);
    let some = Some(fields(&[("home", "x")]));
    assert!(store_execution(&mut cache, &reg, "env", "vars", Some("/r"), some, 3));
    assert_eq!(cache.get_source("env", None, "vars").unwrap().interval_secs, None);
    assert!(!store_execution(&mut cache, &reg, "git", "head", Some("/s"), None, 3));
    let none: Option<Vec<(String, Value)>> = Some(Vec::new());
    assert!(!store_execution(&mut cache, &reg, "git", "head", Some("/s"), none, 3));
    let some = Some(fields(&[("x", "x")]));
    assert!(!store_execution(&mut cache, &reg, "git", "head", None, some, 3));
    let some = Some(fields(&[("x", "x")]));
    assert!(!store_execution(&mut cache, &reg, "git", "gone", Some("/r"), some, 3));
    assert_eq!(cache.len(), 2);
}

#[test]
fn force_drops_the_slot_and_fetches_again() {
    let reg = registry();
    let mut cache = Cache::new();
    let _ = get("git.branch", Some("/r"), &reg, &mut cache, 0, by_name);
    let _ = get("git.branch", Some("/s"), &reg, &mut cache, 0, by_name);
    let plan = QueryPlan::build("git.branch", Some("/r"), Some("/r"), &reg);
    let step = begin_get(plan, true, false, false, &reg, &mut cache, 1);
    assert!(!cache.has_entry("git", Some("/r")));
    assert!(cache.has_entry("git", Some("/s")));
    let (r, ran) = finish(step, &reg, &mut cache, 1, |_| Some(fields(&[("branch", "dev")])));
    assert_eq!(ran.len(), 1);
    assert_eq!(r.data, Some(text("dev")));
}

#[test]
fn wait_drops_only_what_is_stale() {
    let reg = registry();
    let mut cache = Cache::new();
    let _ = get("git.branch", Some("/r"), &reg, &mut cache, 0, by_name);
    let plan = QueryPlan::build("git.branch", Some("/r"), Some("/r"), &reg);
    let step = begin_get(plan, false, true, false, &reg, &mut cache, 30_000);
    assert!(cache.has_entry("git", Some("/r")));
    assert!(matches!(step, GetStep::Reply(_)));
    let plan = QueryPlan::build("git.branch", Some("/r"), Some("/r"), &reg);
    let step = begin_get(plan, false, true, false, &reg, &mut cache, 30_001);
    assert!(!cache.has_entry("git", Some("/r")));
    let (_, ran) = finish(step, &reg, &mut cache, 30_001, by_name);
    assert_eq!(ran.len(), 1);
}

#[test]
fn forcing_stored_data_is_refused() {
    let mut reg = registry();
    reg.register_virtual("notes");
    let mut cache = Cache::new();
    cache.put_source("notes", None, "virtual", fields(&[("x", "1")]), Some(1), 0);
    let plan = QueryPlan::build("notes.x", None, None, &reg);
    match begin_get(plan, true, false, false, &reg, &mut cache, 9_000) {
        GetStep::Reply(r) => assert_eq!(
            r.error.as_deref(),
            Some("cannot --force virtual provider 'notes': no source to re-execute from")
        ),
        other => panic!("expected a reply, got {other:?}"),
    }
    // Waiting for it drops nothing, stale though it is.
    let plan = QueryPlan::build("notes", None, None, &reg);
    match begin_get(plan, false, true, false, &reg, &mut cache, 9_000) {
        GetStep::Reply(r) => assert_eq!(r.stale, Some(true)),
        other => panic!("expected a reply, got {other:?}"),
    }
    assert!(cache.has_entry("notes", None));
}

#[test]
fn stored_data_is_read_at_its_path_and_otherwise_globally() {
    let mut reg = registry();
    reg.register_virtual("notes");
    let mut cache = Cache::new();
    cache.put_source("notes", None, "virtual", fields(&[("x", "all"), ("y", "all")]), None, 0);
    let (r, _) = get("notes.x", Some("/a"), &reg, &mut cache, 0, never);
    assert_eq!(r.data, Some(text("all")));
    cache.put_source("notes", Some("/a"), "virtual", fields(&[("x", "here")]), None, 0);
    let (r, _) = get("notes.x", Some("/a"), &reg, &mut cache, 0, never);
    assert_eq!(r.data, Some(text("here")));
    // Whichever slot answers, answers alone.
    let (r, _) = get("notes.y", Some("/a"), &reg, &mut cache, 0, never);
    assert!(r.ok && r.data.is_none());
    let (r, _) = get("notes.y", Some("/b"), &reg, &mut cache, 0, never);
    assert_eq!(r.data, Some(text("all")));
}

#[test]
fn registered_providers_never_fall_back_to_the_global_slot() {
    let reg = registry();
    let mut cache = Cache::new();
    cache.put_source("git", None, "head", fields(&[("branch", "odd")]), None, 0);
    let (r, ran) = get("git.branch", Some("/r"), &reg, &mut cache, 0, fails);
    assert_eq!(ran.len(), 1);
    assert!(r.data.is_none());
}

#[test]
fn a_scheduler_is_told_first() {
    let reg = registry();
    let mut cache = Cache::new();
    let plan = QueryPlan::build("git.branch", Some("/r"), Some("/r"), &reg);
    match begin_get(plan, false, false, true, &reg, &mut cache, 0) {
        GetStep::Demand(activity, plan) => {
            assert_eq!(activity.provider, "git");
            assert_eq!(activity.path.as_deref(), Some("/r"));
            assert_eq!(activity.demand, SourceDemand::Sources(vec!["head".to_string()]));
            let step = after_demand(plan, &reg, &cache, 0);
            assert!(matches!(step, GetStep::Execute(_, _)));
        }
        other => panic!("expected a demand, got {other:?}"),
    }
}

#[test]
fn source_suffix_names_the_origin_without_reading() {
    let mut reg = registry();
    reg.register_virtual("notes");
    let mut cache = Cache::new();
    let (r, ran) = get("env:source", None, &reg, &mut cache, 0, never);
    assert!(ran.is_empty());
    assert_eq!(r.data, Some(text("builtin")));
    assert_eq!((r.age_ms, r.stale), (Some(0), Some(false)));
    let (r, _) = get("notes:source", None, &reg, &mut cache, 0, never);
    assert_eq!(r.data, Some(text("virtual")));
}

#[test]
fn suffixes_describe_the_plain_answer() {
    let reg = registry();
    let mut cache = Cache::new();
    let _ = get("git.head", Some("/r"), &reg, &mut cache, 0, by_name);
    let at = |key: &str, now: u128| {
        let mut copy = Cache::new();
        copy.put_source("git", Some("/r"), "head", fields(&[("branch", "main")]), Some(30), 0);
        get(key, Some("/r"), &reg, &mut copy, now, never).0
    };
    assert_eq!(at("git.head:age", 1_234).data, Some(Value::Number(Number::PosInt(1_234))));
    assert_eq!(at("git.head:stale", 30_001).data, Some(Value::Bool(true)));
    assert_eq!(at("git.head:fresh", 30_001).data, Some(Value::Bool(false)));
    assert_eq!(at("git.head:stale", 5).data, Some(Value::Bool(false)));
    assert_eq!(at("git.head:fresh", 5).data, Some(Value::Bool(true)));
    assert_eq!(at("git.head:cache", 5).data, Some(Value::Bool(true)));
    assert_eq!(
        at("git.head.gone:cache", 5).error.as_deref(),
        Some("unknown field: git.head.gone")
    );
}

#[test]
fn suffixes_of_a_miss_are_null() {
    let reg = registry();
    let mut cache = Cache::new();
    let (r, _) = get("git.branch:age", Some("/r"), &reg, &mut cache, 0, fails);
    assert_eq!(r.data, Some(Value::Null));
    let (r, _) = get("git.branch:stale", Some("/r"), &reg, &mut cache, 0, fails);
    assert_eq!(r.data, Some(Value::Null));
    let (r, _) = get("git.branch:fresh", Some("/r"), &reg, &mut cache, 0, fails);
    assert_eq!(r.data, Some(Value::Null));
    let (r, _) = get("git.branch:cache", Some("/r"), &reg, &mut cache, 0, fails);
    assert_eq!(r.data, Some(Value::Bool(false)));
}

#[test]
fn unknown_suffixes_are_an_error() {
    let r = apply_meta(Response::miss(), false, Some("bogus"));
    assert_eq!(r.error.as_deref(), Some("unknown metadata suffix: :bogus"));
    let r = apply_meta(Response::ok(Value::Null, 1u128 << 64, false), true, Some("age"));
    assert_eq!(r.data, Some(Value::Number(Number::PosInt(0))));
}

#[test]
fn a_field_of_unknown_owner_runs_every_source_without_a_schema() {
    let reg = registry();
    let mut cache = Cache::new();
    let (r, ran) = get("tools.rust", Some("/r"), &reg, &mut cache, 4, |e| {
        match e.source.as_str() {
            "second" => Some(fields(&[("rust", "1.80")])),
            _ => Some(fields(&[("node", "22")])),
        }
    });
    assert_eq!(ran, vec!["tools.first@Some(\"/r\")", "tools.second@Some(\"/r\")"]);
    assert_eq!(r.data, Some(text("1.80")));
    assert_eq!((r.age_ms, r.stale), (Some(0), Some(false)));
    // The other source was cached by the way.
    let (r, ran) = get("tools.node", Some("/r"), &reg, &mut cache, 4, never);
    assert!(ran.is_empty());
    assert_eq!(r.data, Some(text("22")));
}
