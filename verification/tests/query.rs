use beachcomber::get::{plan_execution, runner, Execution};
use beachcomber::provider::{
    FieldSchema, FieldType, InvalidationStrategy, ProviderRegistry, RegisterError,
    RegisteredSource, Source, SourceMetadata, SourceScope,
};
use beachcomber::query::{
    choose_root, parse_key, path_or_canonical, resolve_path, split_metadata_suffix, KeyParse,
    QueryPlan, SourceDemand,
};

/// The running side of a source that answers with a fixed root, if any.
struct Root(Option<&'static str>);

impl Source for Root {
    fn canonical_path(&self, _path: Option<&str>) -> Option<String> {
        self.0.map(|r| r.to_string())
    }
}

fn source(name: &str, fields: &[&str], scope: SourceScope) -> RegisteredSource<Root> {
    rooted(name, fields, scope, None)
}

fn rooted(
    name: &str,
    fields: &[&str],
    scope: SourceScope,
    root: Option<&'static str>,
) -> RegisteredSource<Root> {
    RegisteredSource {
        meta: SourceMetadata {
            name: name.to_string(),
            fields: fields
                .iter()
                .map(|f| FieldSchema {
                    name: f.to_string(),
                    field_type: FieldType::String,
                })
                .collect(),
            scope,
            invalidation: InvalidationStrategy::Poll { interval_secs: 30 },
        },
        read_always: false,
        handle: Root(root),
    }
}

fn with_defaults() -> ProviderRegistry<Root> {
    let mut reg = ProviderRegistry::new();
    let git = vec![
        source("head", &["branch", "detached"], SourceScope::PathScoped),
        source("refs", &["ahead", "behind"], SourceScope::PathScoped),
        source("diff", &["lines_added", "lines_removed"], SourceScope::PathScoped),
    ];
    reg.register("git".to_string(), git).unwrap();
    let mise = vec![
        source("global", &[], SourceScope::Global),
        source("project", &[], SourceScope::PathScoped),
    ];
    reg.register("mise".to_string(), mise).unwrap();
    let hostname = vec![source("main", &["name", "short"], SourceScope::Global)];
    reg.register("hostname".to_string(), hostname).unwrap();
    reg
}

fn registry_with(name: &str, scope: SourceScope) -> ProviderRegistry<Root> {
    let mut reg = ProviderRegistry::new();
    reg.register(name.to_string(), vec![source("main", &["v"], scope)])
        .unwrap();
    reg
}

#[test]
fn parse_key_recognises_provider() {
    let reg = with_defaults();
    assert!(matches!(parse_key("git", &reg), KeyParse::Provider(p) if p == "git"));
}

#[test]
fn parse_key_recognises_source_when_registered() {
    let reg = with_defaults();
    // git has a "refs" source.
    assert!(
        matches!(parse_key("git.refs", &reg), KeyParse::Source(p, s) if p == "git" && s == "refs")
    );
}

#[test]
fn parse_key_falls_back_to_field_when_no_such_source() {
    let reg = with_defaults();
    assert!(
        matches!(parse_key("git.branch", &reg), KeyParse::Field(p, f) if p == "git" && f == "branch")
    );
}

#[test]
fn parse_key_recognises_source_field() {
    let reg = with_defaults();
    assert!(
        matches!(parse_key("git.refs.branch", &reg), KeyParse::SourceField(p, s, f) if p == "git" && s == "refs" && f == "branch")
    );
}

#[test]
fn parse_key_unknown_provider_yields_field() {
    let reg = with_defaults();
    assert!(
        matches!(parse_key("nope.field", &reg), KeyParse::Field(p, f) if p == "nope" && f == "field")
    );
}

#[test]
fn split_metadata_suffix_strips_known() {
    assert_eq!(
        split_metadata_suffix("git.branch:fresh"),
        ("git.branch", Some("fresh"))
    );
}

#[test]
fn split_metadata_suffix_passes_through_unknown() {
    assert_eq!(
        split_metadata_suffix("git.branch:bogus"),
        ("git.branch:bogus", None)
    );
}

#[test]
fn build_provider_demands_all() {
    let reg = with_defaults();
    let plan = QueryPlan::build("git", None, None, &reg);
    assert!(matches!(plan.demand, SourceDemand::All));
    assert_eq!(plan.provider, "git");
}

#[test]
fn build_field_demands_only_owning_source() {
    let reg = with_defaults();
    // branch is owned by the head source.
    let plan = QueryPlan::build("git.branch", None, None, &reg);
    match plan.demand {
        SourceDemand::Sources(v) => assert_eq!(v, vec!["head".to_string()]),
        other => panic!("expected Sources([head]), got {other:?}"),
    }
}

#[test]
fn build_dynamic_field_demands_all_candidate_sources() {
    let reg = with_defaults();
    let plan = QueryPlan::build("mise.rust", None, None, &reg);
    match plan.demand {
        SourceDemand::Sources(v) => {
            assert_eq!(v, vec!["global".to_string(), "project".to_string()])
        }
        other => panic!("expected dynamic candidate sources, got {other:?}"),
    }
}

#[test]
fn build_source_demands_that_source() {
    let reg = with_defaults();
    let plan = QueryPlan::build("git.refs", None, None, &reg);
    // git.refs must parse as a Source target, not a Field, since refs is a
    // registered source.
    assert!(matches!(plan.target, KeyParse::Source(_, ref s) if s == "refs"));
    match plan.demand {
        SourceDemand::Sources(v) => assert_eq!(v, vec!["refs".to_string()]),
        other => panic!("expected Sources([refs]), got {other:?}"),
    }
}

#[test]
fn build_source_field_demands_that_source() {
    let reg = with_defaults();
    let plan = QueryPlan::build("git.refs.branch", None, None, &reg);
    match plan.demand {
        SourceDemand::Sources(v) => assert_eq!(v, vec!["refs".to_string()]),
        other => panic!("expected Sources([refs]), got {other:?}"),
    }
}

#[test]
fn build_unknown_field_demands_nothing() {
    let reg = with_defaults();
    let plan = QueryPlan::build("git.totally_bogus_field", None, None, &reg);
    match plan.demand {
        SourceDemand::Sources(v) => assert!(v.is_empty(), "unknown field warms nothing"),
        other => panic!("expected Sources([]), got {other:?}"),
    }
}

#[test]
fn build_strips_metadata_suffix() {
    let reg = with_defaults();
    let plan = QueryPlan::build("git.branch:fresh", None, None, &reg);
    assert_eq!(plan.meta.as_deref(), Some("fresh"));
    match plan.demand {
        SourceDemand::Sources(v) => assert_eq!(v, vec!["head".to_string()]),
        other => panic!("expected Sources([head]), got {other:?}"),
    }
}

#[test]
fn global_provider_ignores_explicit_path() {
    let reg = registry_with("hostname", SourceScope::Global);
    let result = resolve_path("hostname", Some("/tmp"), Some("/tmp"), &reg);
    assert_eq!(result, None, "global provider must ignore explicit path");
}

#[test]
fn path_scoped_provider_honors_explicit_path() {
    let reg = registry_with("git", SourceScope::PathScoped);
    let result = resolve_path("git", Some("/tmp"), Some("/tmp"), &reg);
    assert!(
        result.is_some(),
        "path-scoped provider should honor explicit path"
    );
    assert_eq!(result.as_deref(), Some("/tmp"));
}

#[test]
fn unknown_provider_returns_none() {
    let reg: ProviderRegistry<Root> = ProviderRegistry::new();
    let result = resolve_path("nonexistent", Some("/tmp"), Some("/tmp"), &reg);
    // Unknown providers have no path-scoped sources.
    assert_eq!(result, None);
}

#[test]
fn every_known_suffix_is_stripped() {
    assert_eq!(split_metadata_suffix("a:age"), ("a", Some("age")));
    assert_eq!(split_metadata_suffix("a:stale"), ("a", Some("stale")));
    assert_eq!(split_metadata_suffix("a:cache"), ("a", Some("cache")));
    assert_eq!(split_metadata_suffix("a:source"), ("a", Some("source")));
    assert_eq!(split_metadata_suffix(":fresh"), ("", Some("fresh")));
    assert_eq!(split_metadata_suffix(""), ("", None));
    assert_eq!(split_metadata_suffix("a"), ("a", None));
}

#[test]
fn only_the_last_colon_counts() {
    assert_eq!(split_metadata_suffix("a:age:age"), ("a:age", Some("age")));
    assert_eq!(split_metadata_suffix("a:age:b"), ("a:age:b", None));
    assert_eq!(split_metadata_suffix("a:fresh."), ("a:fresh.", None));
}

#[test]
fn suffix_splits_off_text_of_any_script() {
    assert_eq!(split_metadata_suffix("größe.é:age"), ("größe.é", Some("age")));
}

#[test]
fn deep_keys_keep_their_whole_path() {
    let reg = with_defaults();
    assert_eq!(
        parse_key("git.branch.a.b.c", &reg),
        KeyParse::Field("git".to_string(), "branch.a.b.c".to_string())
    );
    assert_eq!(
        parse_key("git.refs.a.b", &reg),
        KeyParse::SourceField("git".to_string(), "refs".to_string(), "a.b".to_string())
    );
}

#[test]
fn empty_segments_are_segments() {
    let reg = with_defaults();
    assert_eq!(parse_key("", &reg), KeyParse::Provider(String::new()));
    assert_eq!(
        parse_key("git.", &reg),
        KeyParse::Field("git".to_string(), String::new())
    );
    assert_eq!(
        parse_key("..", &reg),
        KeyParse::Field(String::new(), ".".to_string())
    );
}

#[test]
fn nested_field_is_owned_by_its_head() {
    let reg = with_defaults();
    let plan = QueryPlan::build("git.lines_added.total", None, None, &reg);
    assert_eq!(plan.demand, SourceDemand::Sources(vec!["diff".to_string()]));
}

#[test]
fn unknown_provider_demands_nothing() {
    let reg = with_defaults();
    let plan = QueryPlan::build("nope.x", Some("/a"), None, &reg);
    assert_eq!(plan.demand, SourceDemand::Sources(Vec::new()));
    assert_eq!(plan.effective_path, None);
    assert_eq!(plan.provider, "nope");
    assert_eq!(plan.meta, None);
}

#[test]
fn suffix_changes_only_the_meta_of_a_plan() {
    let reg = with_defaults();
    let plain = QueryPlan::build("git.refs", Some("/a"), None, &reg);
    let aged = QueryPlan::build("git.refs:age", Some("/a"), None, &reg);
    assert_eq!(plain.provider, aged.provider);
    assert_eq!(plain.effective_path, aged.effective_path);
    assert_eq!(plain.target, aged.target);
    assert_eq!(plain.demand, aged.demand);
    assert_eq!(plain.meta, None);
    assert_eq!(aged.meta.as_deref(), Some("age"));
}

#[test]
fn the_first_path_scoped_source_settles_the_path() {
    let mut reg = ProviderRegistry::new();
    let sources = vec![
        rooted("g", &[], SourceScope::Global, Some("/never")),
        rooted("b", &[], SourceScope::PathScoped, Some("/root/b")),
        rooted("c", &[], SourceScope::PathScoped, Some("/root/c")),
    ];
    reg.register("p".to_string(), sources).unwrap();
    assert_eq!(
        resolve_path("p.x", Some("sub"), Some("/root/b/sub"), &reg).as_deref(),
        Some("/root/b")
    );
    assert_eq!(resolve_path("p.x", None, None, &reg), None);
}

#[test]
fn later_path_scoped_sources_are_not_asked() {
    let mut reg = ProviderRegistry::new();
    let sources = vec![
        rooted("a", &[], SourceScope::PathScoped, None),
        rooted("b", &[], SourceScope::PathScoped, Some("/root/b")),
    ];
    reg.register("p".to_string(), sources).unwrap();
    assert_eq!(
        resolve_path("p.x", Some("sub"), Some("/root/b/sub"), &reg).as_deref(),
        Some("/root/b/sub")
    );
}

#[test]
fn unresolvable_path_is_taken_as_written() {
    let reg = registry_with("git", SourceScope::PathScoped);
    assert_eq!(
        resolve_path("git", Some("no/such"), None, &reg).as_deref(),
        Some("no/such")
    );
    assert_eq!(path_or_canonical(Some("a"), Some("/x/a")).as_deref(), Some("/x/a"));
    assert_eq!(path_or_canonical(Some("a"), None).as_deref(), Some("a"));
    assert_eq!(path_or_canonical(None, Some("/x/a")), None);
}

#[test]
fn stored_name_keeps_the_path_it_is_asked_with() {
    let mut reg: ProviderRegistry<Root> = ProviderRegistry::new();
    reg.register_virtual("notes");
    assert_eq!(
        resolve_path("notes.x", Some("/a"), Some("/a"), &reg).as_deref(),
        Some("/a")
    );
    assert_eq!(resolve_path("notes", None, None, &reg), None);
}

#[test]
fn the_root_is_the_answer_or_the_path() {
    assert_eq!(choose_root("/p", Some("/one".to_string())), "/one");
    assert_eq!(choose_root("/p", None), "/p");
}

#[test]
fn running_sides_stay_with_their_sources() {
    let mut reg = ProviderRegistry::new();
    let pair = |a: &'static str, b: &'static str| {
        vec![
            rooted("x", &[], SourceScope::PathScoped, Some(a)),
            rooted("y", &[], SourceScope::PathScoped, Some(b)),
        ]
    };
    reg.register("p".to_string(), pair("/px", "/py")).unwrap();
    reg.register("q".to_string(), pair("/qx", "/qy")).unwrap();
    reg.register_virtual("notes");
    assert!(reg.register("p".to_string(), pair("/no", "/no")).is_err());
    for (provider, source, root) in [
        ("p", "x", "/px"),
        ("p", "y", "/py"),
        ("q", "x", "/qx"),
        ("q", "y", "/qy"),
    ] {
        assert_eq!(reg.source(provider, source).unwrap().handle.0, Some(root));
        let e = plan_execution(&reg, provider, source, Some("/r")).unwrap();
        assert_eq!(runner(&reg, &e).unwrap().0, Some(root));
    }
    let gone = Execution {
        provider: "p".to_string(),
        source: "z".to_string(),
        path: None,
    };
    assert!(runner(&reg, &gone).is_none());
}

#[test]
fn names_are_registered_once() {
    let mut reg = with_defaults();
    assert_eq!(
        reg.register("git".to_string(), Vec::new()),
        Err(RegisterError::NameTaken)
    );
    reg.register_virtual("notes");
    reg.register_virtual("notes");
    assert_eq!(
        reg.register("notes".to_string(), Vec::new()),
        Err(RegisterError::NameTaken)
    );
    let twice = vec![
        source("a", &[], SourceScope::Global),
        source("a", &[], SourceScope::Global),
    ];
    assert_eq!(
        reg.register("p".to_string(), twice),
        Err(RegisterError::DuplicateSource)
    );
    let mut names = reg.list();
    names.sort();
    assert_eq!(names, vec!["git", "hostname", "mise", "notes"]);
    assert!(reg.is_virtual("notes") && !reg.has_non_virtual("notes"));
    assert!(reg.has_non_virtual("git") && !reg.is_virtual("git"));
    assert!(!reg.is_virtual("p") && !reg.has_non_virtual("p"));
}
