use beachcomber::cache::Cache;
use beachcomber::protocol::Response;
use beachcomber::query::KeyParse;
use beachcomber::read::{read_watch_value, target_cached};
use beachcomber::value::{get_field, Number, Value};

fn text(s: &str) -> Value {
    Value::String(s.to_string())
}

fn fields(list: &[(&str, &str)]) -> Vec<(String, Value)> {
    list.iter().map(|(k, v)| (k.to_string(), text(v))).collect()
}

fn object(r: &Response) -> &Vec<(String, Value)> {
    match r.data.as_ref().expect("data") {
        Value::Object(fields) => fields,
        other => panic!("expected an object, got {other:?}"),
    }
}

#[test]
fn read_watch_value_routes_source_target() {
    let mut cache = Cache::new();
    let refs_fields = fields(&[("branch", "main")]);
    cache.put_source("git", Some("/repo"), "refs", refs_fields, None, 0);
    let diff_fields = fields(&[("lines_added", "3")]);
    cache.put_source("git", Some("/repo"), "diff", diff_fields, None, 0);

    // Source target returns ONLY that source's fields.
    let target = KeyParse::Source("git".to_string(), "refs".to_string());
    let resp = read_watch_value(&cache, &target, Some("/repo"), 0);
    assert!(resp.ok);
    let data = resp.data.as_ref().expect("source data");
    let obj = match data {
        Value::Object(fields) => fields,
        other => panic!("object, got {other:?}"),
    };
    assert!(get_field(obj, "branch").is_some(), "refs.branch present");
    assert!(
        get_field(obj, "lines_added").is_none(),
        "diff field absent from refs source"
    );
}

#[test]
fn read_watch_value_field_target_finds_field() {
    let mut cache = Cache::new();
    let refs_fields = fields(&[("branch", "main")]);
    cache.put_source("git", Some("/repo"), "refs", refs_fields, None, 0);

    let target = KeyParse::Field("git".to_string(), "branch".to_string());
    let resp = read_watch_value(&cache, &target, Some("/repo"), 0);
    assert!(resp.ok);
    assert_eq!(resp.data.unwrap(), Value::String("main".to_string()));
}

fn nested() -> Cache {
    let mut cache = Cache::new();
    let deep = Value::Object(vec![(
        "rust".to_string(),
        Value::Object(vec![("version".to_string(), text("1.80"))]),
    )]);
    let list = vec![("project".to_string(), deep), ("n".to_string(), text("1"))];
    cache.put_source("p", None, "s", list, Some(10), 1_000);
    cache
}

fn field(f: &str) -> KeyParse {
    KeyParse::Field("p".to_string(), f.to_string())
}

fn source_field(f: &str) -> KeyParse {
    KeyParse::SourceField("p".to_string(), "s".to_string(), f.to_string())
}

#[test]
fn nested_paths_are_walked() {
    let cache = nested();
    let r = read_watch_value(&cache, &field("project.rust.version"), None, 4_000);
    assert_eq!(r.data, Some(text("1.80")));
    assert_eq!(r.age_ms, Some(3_000));
    assert_eq!(r.stale, Some(false));
    let r = read_watch_value(&cache, &source_field("project.rust.version"), None, 4_000);
    assert_eq!(r.data, Some(text("1.80")));
    assert_eq!(r.age_ms, Some(3_000));
}

#[test]
fn a_failed_nested_path_is_an_unknown_field() {
    let cache = nested();
    let r = read_watch_value(&cache, &field("project.nonesuch"), None, 0);
    assert!(!r.ok);
    assert_eq!(r.error.as_deref(), Some("unknown field: p.project.nonesuch"));
    let r = read_watch_value(&cache, &source_field("nonesuch"), None, 0);
    assert_eq!(r.error.as_deref(), Some("unknown field: p.s.nonesuch"));
    assert!(!target_cached(&cache, &field("project.nonesuch"), None));
    assert!(target_cached(&cache, &source_field("nonesuch"), None));
}

#[test]
fn anything_else_missing_is_a_miss() {
    let cache = nested();
    for r in [
        read_watch_value(&cache, &field("nonesuch"), None, 0),
        read_watch_value(&cache, &field("nonesuch.x"), None, 0),
        read_watch_value(&cache, &field("n"), Some("/a"), 0),
        read_watch_value(&cache, &KeyParse::Provider("q".to_string()), None, 0),
        read_watch_value(
            &cache,
            &KeyParse::Source("p".to_string(), "t".to_string()),
            None,
            0,
        ),
    ] {
        assert!(r.ok);
        assert!(r.data.is_none() && r.error.is_none());
        assert!(r.age_ms.is_none() && r.stale.is_none());
    }
}

#[test]
fn a_provider_reads_as_all_its_sources() {
    let mut cache = Cache::new();
    cache.put_source("p", None, "a", fields(&[("x", "1"), ("y", "1")]), None, 100);
    cache.put_source("p", None, "b", fields(&[("y", "2")]), Some(1), 900);
    let whole = KeyParse::Provider("p".to_string());
    let r = read_watch_value(&cache, &whole, None, 1_000);
    assert_eq!(get_field(object(&r), "x"), Some(&text("1")));
    assert_eq!(get_field(object(&r), "y"), Some(&text("2")));
    // The entry is as old as its oldest source.
    assert_eq!(r.age_ms, Some(900));
    assert_eq!(r.stale, Some(false));
    let r = read_watch_value(&cache, &whole, None, 1_901);
    assert_eq!(r.stale, Some(true));
}

#[test]
fn data_is_stale_once_older_than_its_interval() {
    let cache = nested();
    let source = KeyParse::Source("p".to_string(), "s".to_string());
    assert_eq!(read_watch_value(&cache, &source, None, 11_000).stale, Some(false));
    assert_eq!(read_watch_value(&cache, &source, None, 11_001).stale, Some(true));
    // A clock that reads earlier makes the data no older.
    assert_eq!(read_watch_value(&cache, &source, None, 0).age_ms, Some(0));
}

#[test]
fn storing_replaces_a_source_and_keeps_the_others() {
    let mut cache = Cache::new();
    cache.put_source("p", Some("/a"), "s", fields(&[("x", "1")]), None, 0);
    cache.put_source("p", Some("/a"), "t", fields(&[("y", "1")]), None, 0);
    cache.put_source("p", None, "s", fields(&[("x", "0")]), None, 0);
    cache.put_source("p", Some("/a"), "s", fields(&[("x", "2")]), None, 5);
    let s = cache.get_source("p", Some("/a"), "s").unwrap();
    assert_eq!(get_field(&s.fields, "x"), Some(&text("2")));
    assert_eq!(s.refreshed_ms, 5);
    assert!(cache.get_source("p", Some("/a"), "t").is_some());
    assert_eq!(cache.len(), 2);
    cache.remove("p", Some("/a"));
    assert!(!cache.has_entry("p", Some("/a")));
    assert!(cache.has_entry("p", None));
    cache.remove("p", Some("/a"));
    assert_eq!(cache.len(), 1);
}

#[test]
fn values_are_equal_by_content() {
    let a = Value::Object(vec![
        ("x".to_string(), text("1")),
        ("y".to_string(), Value::Array(vec![Value::Null, Value::Bool(true)])),
    ]);
    let b = Value::Object(vec![
        ("y".to_string(), Value::Array(vec![Value::Null, Value::Bool(true)])),
        ("x".to_string(), text("0")),
        ("x".to_string(), text("1")),
    ]);
    assert_eq!(a, b);
    assert_eq!(a.clone(), a);
    let c = Value::Object(vec![("x".to_string(), text("1"))]);
    assert_ne!(a, c);
    assert_ne!(c, a);
    assert_ne!(Value::Number(Number::PosInt(1)), Value::Number(Number::NegInt(-1)));
    let zero = Value::Number(Number::Float(0.0f64.to_bits()));
    let minus_zero = Value::Number(Number::Float((-0.0f64).to_bits()));
    assert_eq!(zero, minus_zero);
    assert_ne!(zero, Value::Number(Number::Float(1.0f64.to_bits())));
}

#[test]
fn a_field_is_read_from_the_first_source_that_holds_it() {
    let mut cache = Cache::new();
    cache.put_source("p", None, "a", fields(&[("x", "1")]), None, 100);
    cache.put_source("p", None, "b", fields(&[("x", "2"), ("y", "2")]), None, 300);
    let r = read_watch_value(&cache, &field("x"), None, 1_000);
    assert_eq!((r.data, r.age_ms), (Some(text("1")), Some(900)));
    let r = read_watch_value(&cache, &field("y"), None, 1_000);
    assert_eq!((r.data, r.age_ms), (Some(text("2")), Some(700)));
}
