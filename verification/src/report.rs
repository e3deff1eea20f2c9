//! Reports of the daemon on itself: facts gathered elsewhere, with verdicts.

use vstd::prelude::*;

use crate::cache::{Cache, EntryView};
use crate::get::{origin, origin_of};
use crate::protocol::{error_view, ok_view, Response, ResponseView};
use crate::provider::{
    source_views, FieldSchema, FieldType, FieldView, InvalidationStrategy, InvalidationView,
    ProviderRegistry, RegisteredSource, RegistryView, SourceScope, SourceView,
};
use crate::query::has_path_scoped;
use crate::text::{
    decimal, decimal_text, in_order, join_text, join_with, opt_text, same_text, sort_names, texts,
};
use crate::value::{clone_items, items_model, lemma_items, push_item, put_field, Json, Number, Value};
use crate::watcher::WatchBackend;

verus! {

/// A count as JSON.
pub open spec fn count_json(n: u64) -> Json {
    Json::Number(Number::PosInt(n))
}

/// A text that may be missing, as JSON.
pub open spec fn text_json(s: Option<Seq<char>>) -> Json {
    match s {
        Some(t) => Json::Text(t),
        None => Json::Null,
    }
}

/// A judgement in a report.
pub open spec fn verdict_json(level: Seq<char>, message: Seq<char>) -> Json {
    Json::Object(
        map![
        "level"@ => Json::Text(level),
        "message"@ => Json::Text(message),
    ],
    )
}

pub open spec fn pass(message: Seq<char>) -> Json {
    verdict_json("PASS"@, message)
}

pub open spec fn warn(message: Seq<char>) -> Json {
    verdict_json("WARN"@, message)
}

fn count_value(n: u64) -> (v: Value)
    ensures
        v.model() == count_json(n),
{
    Value::Number(Number::PosInt(n))
}

fn text_value(s: &str) -> (v: Value)
    ensures
        v.model() == Json::Text(s@),
{
    Value::String(s.to_owned())
}

fn opt_value(s: &Option<String>) -> (v: Value)
    ensures
        v.model() == text_json(opt_text(*s)),
{
    match s {
        Some(t) => Value::String(t.clone()),
        None => Value::Null,
    }
}

fn verdict(level: &str, message: String) -> (v: Value)
    ensures
        v.model() == verdict_json(level@, message@),
{
    let mut fields: Vec<(String, Value)> = Vec::new();
    put_field(&mut fields, "level", text_value(level));
    put_field(&mut fields, "message", Value::String(message));
    Value::Object(fields)
}

/// The state of the process that removes orphaned daemons.
#[derive(Debug, Clone, Copy, PartialEq, Eq, Structural)]
pub struct ReaperHealth {
    pub armed: bool,
    pub visibility_ok: bool,
    pub sweeps_total: u64,
    pub reaped_total: u64,
    pub kill_denied_total: u64,
}

/// What a report on the daemon is made from.
#[derive(Debug)]
pub struct DaemonFacts {
    pub pid: u32,
    pub version: String,
    pub uptime_secs: u64,
    pub socket_path: String,
    pub config_path: Option<String>,
    pub requests_total: u64,
    pub in_flight: u64,
    pub active_watchers: u64,
    pub cache_entries: u64,
    pub watch_backend: String,
    /// Missing for servers that run embedded.
    pub reaper: Option<ReaperHealth>,
}

/// The judgement on the number of requests in flight.
pub open spec fn in_flight_verdict(in_flight: u64) -> Json {
    if in_flight > 50 {
        warn(decimal(in_flight as nat) + " in-flight requests (threshold 50)"@)
    } else {
        pass("in_flight="@ + decimal(in_flight as nat))
    }
}

/// The judgement on the watch backend: anything but kernel events is a
/// degradation.
pub open spec fn backend_verdict(backend: Seq<char>) -> Json {
    if backend == "native"@ {
        pass("watch backend: native fs events"@)
    } else {
        warn(
            "watch backend: "@ + backend
                + " — kernel fs events undelivered; watch invalidation degraded to polling"@,
        )
    }
}

/// The judgements on the reaper.
pub open spec fn reaper_verdicts(h: ReaperHealth) -> Seq<Json> {
    let first = if !h.armed {
        pass("reaper: not armed (side daemon)"@)
    } else if h.visibility_ok {
        pass("reaper: armed, system-wide process visibility"@)
    } else {
        warn(
            "reaper visibility degraded: PID 1 not visible in process enumeration — this daemon runs confined (sandbox-spawned?) and cannot police daemons outside its confinement; restart it from an unconfined shell"@,
        )
    };
    if h.armed && h.kill_denied_total > 0 {
        seq![
            first,
            warn(
                "reaper: "@ + decimal(h.kill_denied_total as nat)
                    + " kill attempt(s) denied by the OS — orphans visible but unsignalable"@,
            ),
        ]
    } else {
        seq![first]
    }
}

pub open spec fn reaper_json(h: ReaperHealth) -> Json {
    Json::Object(
        map![
        "armed"@ => Json::Bool(h.armed),
        "visibility"@ => Json::Text(if h.visibility_ok { "system-wide"@ } else { "confined"@ }),
        "sweeps"@ => count_json(h.sweeps_total),
        "reaped"@ => count_json(h.reaped_total),
        "kill_denied"@ => count_json(h.kill_denied_total),
    ],
    )
}

/// The judgements on the daemon.
pub open spec fn daemon_verdicts(f: DaemonFacts) -> Seq<Json> {
    seq![
        pass("daemon responsive"@),
        in_flight_verdict(f.in_flight),
        backend_verdict(f.watch_backend@),
    ] + match f.reaper {
        Some(h) => reaper_verdicts(h),
        None => Seq::empty(),
    }
}

/// The report on the daemon. Nothing is said of the reaper where its state is not
/// known.
pub open spec fn daemon_json(f: DaemonFacts) -> Json {
    let members = map![
        "pid"@ => count_json(f.pid as u64),
        "version"@ => Json::Text(f.version@),
        "uptime_secs"@ => count_json(f.uptime_secs),
        "socket_path"@ => Json::Text(f.socket_path@),
        "config_path"@ => text_json(opt_text(f.config_path)),
        "requests_total"@ => count_json(f.requests_total),
        "in_flight"@ => count_json(f.in_flight),
        "active_watchers"@ => count_json(f.active_watchers),
        "cache_entries"@ => count_json(f.cache_entries),
        "watch_backend"@ => Json::Text(f.watch_backend@),
        "verdicts"@ => Json::Array(daemon_verdicts(f)),
    ];
    match f.reaper {
        Some(h) => Json::Object(members.insert("reaper"@, reaper_json(h))),
        None => Json::Object(members),
    }
}

fn reaper_value(h: &ReaperHealth) -> (v: Value)
    ensures
        v.model() == reaper_json(*h),
{
    let visibility: &str = if h.visibility_ok {
        "system-wide"
    } else {
        "confined"
    };
    let mut fields: Vec<(String, Value)> = Vec::new();
    put_field(&mut fields, "armed", Value::Bool(h.armed));
    put_field(&mut fields, "visibility", text_value(visibility));
    put_field(&mut fields, "sweeps", count_value(h.sweeps_total));
    put_field(&mut fields, "reaped", count_value(h.reaped_total));
    put_field(&mut fields, "kill_denied", count_value(h.kill_denied_total));
    Value::Object(fields)
}

fn push_reaper_verdicts(verdicts: &mut Vec<Value>, h: &ReaperHealth)
    ensures
        items_model(final(verdicts)@) == items_model(old(verdicts)@) + reaper_verdicts(*h),
{
    let ghost before = items_model(verdicts@);
    if !h.armed {
        push_item(verdicts, verdict("PASS", "reaper: not armed (side daemon)".to_owned()));
    } else if h.visibility_ok {
        push_item(
            verdicts,
            verdict("PASS", "reaper: armed, system-wide process visibility".to_owned()),
        );
    } else {
        push_item(
            verdicts,
            verdict(
                "WARN",
                "reaper visibility degraded: PID 1 not visible in process enumeration — this daemon runs confined (sandbox-spawned?) and cannot police daemons outside its confinement; restart it from an unconfined shell".to_owned(),
            ),
        );
    }
    if h.armed && h.kill_denied_total > 0 {
        let mut message = "reaper: ".to_owned();
        message.append(decimal_text(h.kill_denied_total).as_str());
        message.append(" kill attempt(s) denied by the OS — orphans visible but unsignalable");
        push_item(verdicts, verdict("WARN", message));
    }
    assert(items_model(verdicts@) =~= before + reaper_verdicts(*h));
}

/// The report has a member on the reaper exactly if the reaper's state is known.
pub proof fn law_reaper_is_shown_if_known(f: DaemonFacts)
    ensures
        daemon_json(f) matches Json::Object(members) && (members.contains_key("reaper"@)
            <==> f.reaper is Some),
{
    reveal_strlit("reaper");
    reveal_strlit("pid");
    reveal_strlit("version");
    reveal_strlit("uptime_secs");
    reveal_strlit("socket_path");
    reveal_strlit("config_path");
    reveal_strlit("requests_total");
    reveal_strlit("in_flight");
    reveal_strlit("active_watchers");
    reveal_strlit("cache_entries");
    reveal_strlit("watch_backend");
    reveal_strlit("verdicts");
    let n = "reaper"@.len();
    assert("pid"@.len() != n && "version"@.len() != n && "uptime_secs"@.len() != n);
    assert("socket_path"@.len() != n && "config_path"@.len() != n);
    assert("requests_total"@.len() != n && "in_flight"@.len() != n);
    assert("active_watchers"@.len() != n && "cache_entries"@.len() != n);
    assert("watch_backend"@.len() != n && "verdicts"@.len() != n);
}

/// A degraded watch backend is always reported: the judgement on the backend is
/// `PASS` exactly if kernel events serve.
pub proof fn law_degradation_is_reported(backend: WatchBackend)
    ensures
        ({
            let level = match backend_verdict(backend.name()) {
                Json::Object(members) => members["level"@],
                _ => Json::Null,
            };
            level == Json::Text(
                if backend == WatchBackend::Native {
                    "PASS"@
                } else {
                    "WARN"@
                },
            )
        }),
{
    reveal_strlit("native");
    reveal_strlit("polling");
    reveal_strlit("level");
    reveal_strlit("message");
    assert("native"@[0] != "polling"@[0]);
    assert("level"@[0] != "message"@[0]);
}

/// The report on the daemon.
pub fn handle_introspect_daemon(f: &DaemonFacts) -> (response: Response)
    ensures
        response@ == ok_view(daemon_json(*f), 0, false),
{
    let mut verdicts: Vec<Value> = Vec::new();
    push_item(&mut verdicts, verdict("PASS", "daemon responsive".to_owned()));
    if f.in_flight > 50 {
        let mut message = decimal_text(f.in_flight);
        message.append(" in-flight requests (threshold 50)");
        push_item(&mut verdicts, verdict("WARN", message));
    } else {
        let mut message = "in_flight=".to_owned();
        message.append(decimal_text(f.in_flight).as_str());
        push_item(&mut verdicts, verdict("PASS", message));
    }
    if same_text(f.watch_backend.as_str(), "native") {
        push_item(&mut verdicts, verdict("PASS", "watch backend: native fs events".to_owned()));
    } else {
        let mut message = "watch backend: ".to_owned();
        message.append(f.watch_backend.as_str());
        message.append(" — kernel fs events undelivered; watch invalidation degraded to polling");
        push_item(&mut verdicts, verdict("WARN", message));
    }
    match &f.reaper {
        Some(h) => {
            push_reaper_verdicts(&mut verdicts, h);
        },
        None => {},
    }
    assert(items_model(verdicts@) =~= daemon_verdicts(*f));
    let mut fields: Vec<(String, Value)> = Vec::new();
    put_field(&mut fields, "pid", count_value(f.pid as u64));
    put_field(&mut fields, "version", text_value(f.version.as_str()));
    put_field(&mut fields, "uptime_secs", count_value(f.uptime_secs));
    put_field(&mut fields, "socket_path", text_value(f.socket_path.as_str()));
    put_field(&mut fields, "config_path", opt_value(&f.config_path));
    put_field(&mut fields, "requests_total", count_value(f.requests_total));
    put_field(&mut fields, "in_flight", count_value(f.in_flight));
    put_field(&mut fields, "active_watchers", count_value(f.active_watchers));
    put_field(&mut fields, "cache_entries", count_value(f.cache_entries));
    put_field(&mut fields, "watch_backend", text_value(f.watch_backend.as_str()));
    put_field(&mut fields, "verdicts", Value::Array(verdicts));
    match &f.reaper {
        Some(h) => {
            put_field(&mut fields, "reaper", reaper_value(h));
        },
        None => {},
    }
    Response::ok(Value::Object(fields), 0, false)
}

/// A refresh strategy in a few words.
pub open spec fn summary(strategy: InvalidationView) -> Seq<char> {
    match strategy {
        InvalidationView::Poll(secs) => "poll "@ + decimal(secs as nat) + "s"@,
        InvalidationView::Watch(patterns) => if patterns.len() == 0 {
            "watch (abs_paths)"@
        } else {
            "watch "@ + join_with(patterns, ","@)
        },
        InvalidationView::WatchAndPoll(patterns, secs) => "watch "@ + (if patterns.len() == 0 {
            "(abs_paths)"@
        } else {
            join_with(patterns, ","@)
        }) + " + poll "@ + decimal(secs as nat) + "s"@,
    }
}

/// A refresh strategy in a few words.
pub fn summarize_invalidation(strategy: &InvalidationStrategy) -> (text: String)
    ensures
        text@ == summary(strategy@),
{
    match strategy {
        InvalidationStrategy::Poll { interval_secs } => {
            let mut text = "poll ".to_owned();
            text.append(decimal_text(*interval_secs).as_str());
            text.append("s");
            text
        },
        InvalidationStrategy::Watch { patterns, .. } => if patterns.is_empty() {
            "watch (abs_paths)".to_owned()
        } else {
            let mut text = "watch ".to_owned();
            text.append(join_text(patterns, 0, ",").as_str());
            assert(texts(patterns@).skip(0) =~= texts(patterns@));
            text
        },
        InvalidationStrategy::WatchAndPoll { patterns, interval_secs, .. } => {
            let shown = if patterns.is_empty() {
                "(abs_paths)".to_owned()
            } else {
                join_text(patterns, 0, ",")
            };
            assert(texts(patterns@).skip(0) =~= texts(patterns@));
            let mut text = "watch ".to_owned();
            text.append(shown.as_str());
            text.append(" + poll ");
            text.append(decimal_text(*interval_secs).as_str());
            text.append("s");
            text
        },
    }
}

/// The name of a declared type.
pub open spec fn declared_name(t: FieldType) -> Seq<char> {
    match t {
        FieldType::String => "string"@,
        FieldType::Int => "int"@,
        FieldType::Bool => "bool"@,
        FieldType::Float => "float"@,
        FieldType::Object => "object"@,
    }
}

/// The name of a scope.
pub open spec fn scope_name(path_scoped: bool) -> Seq<char> {
    if path_scoped {
        "path"@
    } else {
        "global"@
    }
}

pub open spec fn field_json(f: FieldView) -> Json {
    Json::Object(map!["name"@ => Json::Text(f.name), "type"@ => Json::Text(declared_name(f.field_type))])
}

pub open spec fn source_json(s: SourceView) -> Json {
    Json::Object(
        map![
        "name"@ => Json::Text(s.name),
        "scope"@ => Json::Text(scope_name(s.scope == SourceScope::PathScoped)),
        "fields"@ => Json::Array(s.fields.map_values(|f: FieldView| field_json(f))),
        "invalidation"@ => Json::Text(summary(s.invalidation)),
    ],
    )
}

fn type_text(t: FieldType) -> (name: &'static str)
    ensures
        name@ == declared_name(t),
{
    match t {
        FieldType::String => "string",
        FieldType::Int => "int",
        FieldType::Bool => "bool",
        FieldType::Float => "float",
        FieldType::Object => "object",
    }
}

fn scope_text(path_scoped: bool) -> (name: &'static str)
    ensures
        name@ == scope_name(path_scoped),
{
    if path_scoped {
        "path"
    } else {
        "global"
    }
}

fn fields_value(schema: &Vec<FieldSchema>) -> (v: Value)
    ensures
        v.model() == Json::Array(
            schema@.map_values(|f: FieldSchema| f@).map_values(|f: FieldView| field_json(f)),
        ),
{
    let ghost all = schema@.map_values(|f: FieldSchema| f@).map_values(
        |f: FieldView| field_json(f),
    );
    let mut out: Vec<Value> = Vec::new();
    let mut i: usize = 0;
    assert(all.take(0) =~= Seq::<Json>::empty());
    while i < schema.len()
        invariant
            i <= schema@.len(),
            all == schema@.map_values(|f: FieldSchema| f@).map_values(
                |f: FieldView| field_json(f),
            ),
            items_model(out@) == all.take(i as int),
        decreases schema@.len() - i,
    {
        let mut fields: Vec<(String, Value)> = Vec::new();
        put_field(&mut fields, "name", text_value(schema[i].name.as_str()));
        put_field(&mut fields, "type", text_value(type_text(schema[i].field_type)));
        assert(all.take(i + 1) =~= all.take(i as int).push(field_json(schema@[i as int]@)));
        push_item(&mut out, Value::Object(fields));
        i += 1;
    }
    assert(all.take(i as int) =~= all);
    Value::Array(out)
}

fn sources_value<S>(sources: &Vec<RegisteredSource<S>>) -> (v: Value)
    ensures
        v.model() == Json::Array(
            source_views(sources@).map_values(|s: SourceView| source_json(s)),
        ),
{
    let ghost all = source_views(sources@).map_values(|s: SourceView| source_json(s));
    let mut out: Vec<Value> = Vec::new();
    let mut i: usize = 0;
    assert(all.take(0) =~= Seq::<Json>::empty());
    while i < sources.len()
        invariant
            i <= sources@.len(),
            all == source_views(sources@).map_values(|s: SourceView| source_json(s)),
            items_model(out@) == all.take(i as int),
        decreases sources@.len() - i,
    {
        let meta = &sources[i].meta;
        let mut fields: Vec<(String, Value)> = Vec::new();
        put_field(&mut fields, "name", text_value(meta.name.as_str()));
        put_field(
            &mut fields,
            "scope",
            text_value(scope_text(meta.scope == SourceScope::PathScoped)),
        );
        put_field(&mut fields, "fields", fields_value(&meta.fields));
        put_field(
            &mut fields,
            "invalidation",
            Value::String(summarize_invalidation(&meta.invalidation)),
        );
        assert(all.take(i + 1) =~= all.take(i as int).push(source_json(sources@[i as int]@)));
        push_item(&mut out, Value::Object(fields));
        i += 1;
    }
    assert(all.take(i as int) =~= all);
    Value::Array(out)
}

/// A provider that the scheduler runs less often because it fails or is unused.
#[derive(Debug)]
pub struct LifecycleInfo {
    pub provider: String,
    pub path: Option<String>,
    pub stage: String,
    pub elapsed_secs: u64,
    /// The whole record as the scheduler gives it.
    pub record: Value,
}

/// The mathematical content of a [`LifecycleInfo`].
pub struct LifecycleView {
    pub provider: Seq<char>,
    pub path: Option<Seq<char>>,
    pub stage: Seq<char>,
    pub elapsed_secs: u64,
    pub record: Json,
}

impl View for LifecycleInfo {
    type V = LifecycleView;

    open spec fn view(&self) -> LifecycleView {
        LifecycleView {
            provider: self.provider@,
            path: opt_text(self.path),
            stage: self.stage@,
            elapsed_secs: self.elapsed_secs,
            record: self.record.model(),
        }
    }
}

/// The contents of a list of lifecycle records.
pub open spec fn lifecycle_views(list: Seq<LifecycleInfo>) -> Seq<LifecycleView> {
    list.map_values(|b: LifecycleInfo| b@)
}

/// The index of the record of a provider that lasts longest, the last one among
/// equals, or -1 if it has none.
pub open spec fn worst_index(list: Seq<LifecycleView>, provider: Seq<char>) -> int
    decreases list.len(),
{
    if list.len() == 0 {
        -1
    } else {
        let before = worst_index(list.drop_last(), provider);
        let last = list.last();
        if last.provider == provider && (before < 0 || last.elapsed_secs
            >= list[before].elapsed_secs) {
            list.len() - 1
        } else {
            before
        }
    }
}

/// The record that counts for a provider is one of its own and lasts at least as
/// long as any of them.
pub proof fn law_worst_lasts_longest(list: Seq<LifecycleView>, provider: Seq<char>)
    ensures
        -1 <= worst_index(list, provider) < list.len(),
        worst_index(list, provider) >= 0 ==> list[worst_index(list, provider)].provider == provider,
        forall|i: int|
            0 <= i < list.len() && (#[trigger] list[i]).provider == provider ==> {
                &&& worst_index(list, provider) >= 0
                &&& list[i].elapsed_secs <= list[worst_index(list, provider)].elapsed_secs
                &&& i > worst_index(list, provider) ==> list[i].elapsed_secs < list[worst_index(
                    list,
                    provider,
                )].elapsed_secs
            },
    decreases list.len(),
{
    if list.len() > 0 {
        let init = list.drop_last();
        law_worst_lasts_longest(init, provider);
        assert forall|i: int| 0 <= i < init.len() implies init[i] == list[i] by {}
        assert forall|i: int|
            0 <= i < list.len() && (#[trigger] list[i]).provider == provider implies {
            &&& worst_index(list, provider) >= 0
            &&& list[i].elapsed_secs <= list[worst_index(list, provider)].elapsed_secs
            &&& i > worst_index(list, provider) ==> list[i].elapsed_secs < list[worst_index(
                list,
                provider,
            )].elapsed_secs
        } by {
            if i < init.len() {
                assert(init[i].provider == provider);
            }
        }
    }
}

fn find_worst(list: &Vec<LifecycleInfo>, provider: &str) -> (found: Option<usize>)
    ensures
        found matches Some(i) ==> i == worst_index(lifecycle_views(list@), provider@) && i
            < list@.len(),
        found is None ==> worst_index(lifecycle_views(list@), provider@) < 0,
{
    let ghost all = lifecycle_views(list@);
    let mut found: Option<usize> = None;
    let mut i: usize = 0;
    while i < list.len()
        invariant
            i <= list@.len(),
            all == lifecycle_views(list@),
            found matches Some(k) ==> k == worst_index(all.take(i as int), provider@) && k < i,
            found is None ==> worst_index(all.take(i as int), provider@) < 0,
        decreases list@.len() - i,
    {
        proof {
            let longer = all.take(i + 1);
            assert(longer.drop_last() =~= all.take(i as int));
            assert(longer.last() == list@[i as int]@);
        }
        if same_text(list[i].provider.as_str(), provider) {
            let longer_lasting = match found {
                Some(k) => {
                    assert(all.take(i + 1)[k as int] == list@[k as int]@);
                    list[i].elapsed_secs >= list[k].elapsed_secs
                },
                None => true,
            };
            if longer_lasting {
                found = Some(i);
            }
        }
        i += 1;
    }
    assert(all.take(i as int) =~= all);
    found
}

/// What is said of the sources of a provider: its scope, its sources, and its
/// refresh strategy, which is that of its first source.
pub open spec fn shape_of(registry: RegistryView, name: Seq<char>) -> (
    Seq<char>,
    Seq<Json>,
    Seq<char>,
) {
    if registry.is_real(name) {
        let sources = registry.providers[name];
        (
            scope_name(registry.any_path_scoped(name)),
            sources.map_values(|s: SourceView| source_json(s)),
            if sources.len() > 0 {
                summary(sources[0].invalidation)
            } else {
                "data-only"@
            },
        )
    } else {
        ("global"@, Seq::empty(), "data-only"@)
    }
}

/// The worst record of a provider, as JSON.
pub open spec fn backoff_json(list: Seq<LifecycleView>, name: Seq<char>) -> Json {
    let worst = worst_index(list, name);
    if worst < 0 {
        Json::Null
    } else {
        Json::Object(
            map![
            "stage"@ => Json::Text(list[worst].stage),
            "elapsed_secs"@ => count_json(list[worst].elapsed_secs),
        ],
        )
    }
}

pub open spec fn provider_json(
    registry: RegistryView,
    list: Seq<LifecycleView>,
    name: Seq<char>,
) -> Json {
    let shape = shape_of(registry, name);
    Json::Object(
        map![
        "name"@ => Json::Text(name),
        "source"@ => Json::Text(origin(registry, name)),
        "scope"@ => Json::Text(shape.0),
        "sources"@ => Json::Array(shape.1),
        "invalidation"@ => Json::Text(shape.2),
        "in_backoff"@ => backoff_json(list, name),
    ],
    )
}

/// The warnings about those of `names` that have a lifecycle record.
pub open spec fn backoff_verdicts(list: Seq<LifecycleView>, names: Seq<Seq<char>>) -> Seq<Json>
    decreases names.len(),
{
    if names.len() == 0 {
        Seq::empty()
    } else {
        let before = backoff_verdicts(list, names.drop_last());
        let name = names.last();
        let worst = worst_index(list, name);
        if worst < 0 {
            before
        } else {
            before.push(
                warn(
                    name + " in backoff "@ + decimal(list[worst].elapsed_secs as nat)
                        + "s (stage="@ + list[worst].stage + ")"@,
                ),
            )
        }
    }
}

/// The report on the providers of the given names.
pub open spec fn providers_json(
    registry: RegistryView,
    list: Seq<LifecycleView>,
    names: Seq<Seq<char>>,
) -> Json {
    Json::Object(
        map![
        "providers"@ => Json::Array(names.map_values(|n: Seq<char>| provider_json(registry, list, n))),
        "verdicts"@ => Json::Array(seq![pass(decimal(names.len()) + " providers registered"@)]
            + backoff_verdicts(list, names)),
    ],
    )
}

/// The names that the registry knows, in ascending order.
pub open spec fn sorted_names(registry: RegistryView, names: Seq<Seq<char>>) -> bool {
    &&& in_order(names)
    &&& forall|n: Seq<char>| names.contains(n) <==> #[trigger] registry.is_known(n)
}

fn provider_value<S>(
    registry: &ProviderRegistry<S>,
    list: &Vec<LifecycleInfo>,
    name: &str,
    worst: Option<usize>,
) -> (v: Value)
    requires
        worst matches Some(i) ==> i == worst_index(lifecycle_views(list@), name@) && i < list@.len(),
        worst is None ==> worst_index(lifecycle_views(list@), name@) < 0,
    ensures
        v.model() == provider_json(registry@, lifecycle_views(list@), name@),
{
    let mut fields: Vec<(String, Value)> = Vec::new();
    put_field(&mut fields, "name", text_value(name));
    put_field(&mut fields, "source", text_value(origin_of(registry, name)));
    match registry.provider_sources(name) {
        Some(sources) => {
            put_field(&mut fields, "scope", text_value(scope_text(has_path_scoped(sources))));
            put_field(&mut fields, "sources", sources_value(sources));
            let invalidation = if sources.len() > 0 {
                assert(source_views(sources@)[0] == sources@[0]@);
                summarize_invalidation(&sources[0].meta.invalidation)
            } else {
                "data-only".to_owned()
            };
            put_field(&mut fields, "invalidation", Value::String(invalidation));
        },
        None => {
            put_field(&mut fields, "scope", text_value("global"));
            put_field(&mut fields, "sources", Value::Array(Vec::new()));
            put_field(&mut fields, "invalidation", text_value("data-only"));
        },
    }
    let backoff = match worst {
        Some(i) => {
            assert(lifecycle_views(list@)[i as int] == list@[i as int]@);
            let mut inner: Vec<(String, Value)> = Vec::new();
            put_field(&mut inner, "stage", text_value(list[i].stage.as_str()));
            put_field(&mut inner, "elapsed_secs", count_value(list[i].elapsed_secs));
            Value::Object(inner)
        },
        None => Value::Null,
    };
    put_field(&mut fields, "in_backoff", backoff);
    Value::Object(fields)
}

/// The report on all providers, in ascending order of their names.
pub fn handle_introspect_providers<S>(
    registry: &ProviderRegistry<S>,
    list: &Vec<LifecycleInfo>,
) -> (response: Response)
    requires
        registry.wf(),
    ensures
        exists|names: Seq<Seq<char>>| #[trigger]
            sorted_names(registry@, names) && response@ == ok_view(
                providers_json(registry@, lifecycle_views(list@), names),
                0,
                false,
            ),
{
    let names = sort_names(&registry.list());
    let ghost all = texts(names@);
    let ghost records = lifecycle_views(list@);
    let ghost shown = all.map_values(|n: Seq<char>| provider_json(registry@, records, n));
    let mut providers: Vec<Value> = Vec::new();
    let mut verdicts: Vec<Value> = Vec::new();
    let mut title = decimal_text(names.len() as u64);
    title.append(" providers registered");
    push_item(&mut verdicts, verdict("PASS", title));
    let ghost first = pass(decimal(all.len()) + " providers registered"@);
    let mut i: usize = 0;
    proof {
        assert(shown.take(0) =~= Seq::<Json>::empty());
        assert(items_model(verdicts@) =~= seq![first] + backoff_verdicts(records, all.take(0)));
    }
    while i < names.len()
        invariant
            i <= names@.len(),
            all == texts(names@),
            records == lifecycle_views(list@),
            shown == all.map_values(|n: Seq<char>| provider_json(registry@, records, n)),
            items_model(providers@) == shown.take(i as int),
            items_model(verdicts@) == seq![first] + backoff_verdicts(records, all.take(i as int)),
        decreases names@.len() - i,
    {
        let name = names[i].as_str();
        let worst = find_worst(list, name);
        proof {
            assert(shown.take(i + 1) =~= shown.take(i as int).push(
                provider_json(registry@, records, name@),
            ));
            assert(all.take(i + 1).drop_last() =~= all.take(i as int));
            assert(all.take(i + 1).last() == name@);
        }
        push_item(&mut providers, provider_value(registry, list, name, worst));
        match worst {
            Some(k) => {
                assert(records[k as int] == list@[k as int]@);
                let mut message = name.to_owned();
                message.append(" in backoff ");
                message.append(decimal_text(list[k].elapsed_secs).as_str());
                message.append("s (stage=");
                message.append(list[k].stage.as_str());
                message.append(")");
                push_item(&mut verdicts, verdict("WARN", message));
            },
            None => {},
        }
        assert(items_model(verdicts@) =~= seq![first] + backoff_verdicts(records, all.take(i + 1)));
        i += 1;
    }
    assert(shown.take(i as int) =~= shown);
    assert(all.take(i as int) =~= all);
    let mut fields: Vec<(String, Value)> = Vec::new();
    put_field(&mut fields, "providers", Value::Array(providers));
    put_field(&mut fields, "verdicts", Value::Array(verdicts));
    let response = Response::ok(Value::Object(fields), 0, false);
    assert(sorted_names(registry@, all));
    response
}

/// The report on the configuration, where `path` is the file it was read from.
pub open spec fn config_json(path: Option<Seq<char>>, provider_count: u64) -> Json {
    Json::Object(
        map![
        "path"@ => text_json(path),
        "parsed"@ => Json::Bool(true),
        "errors"@ => Json::Array(Seq::empty()),
        "provider_count_from_config"@ => count_json(provider_count),
        "verdicts"@ => Json::Array(seq![
            pass("config parsed"@),
            pass(decimal(provider_count as nat) + " provider definitions loaded"@),
        ]),
    ],
    )
}

/// The report on the configuration.
pub fn handle_introspect_config(path: &Option<String>, provider_count: u64) -> (response: Response)
    ensures
        response@ == ok_view(config_json(opt_text(*path), provider_count), 0, false),
{
    let mut verdicts: Vec<Value> = Vec::new();
    push_item(&mut verdicts, verdict("PASS", "config parsed".to_owned()));
    let mut message = decimal_text(provider_count);
    message.append(" provider definitions loaded");
    push_item(&mut verdicts, verdict("PASS", message));
    assert(items_model(verdicts@) =~= seq![
        pass("config parsed"@),
        pass(decimal(provider_count as nat) + " provider definitions loaded"@),
    ]);
    let mut fields: Vec<(String, Value)> = Vec::new();
    put_field(&mut fields, "path", opt_value(path));
    put_field(&mut fields, "parsed", Value::Bool(true));
    put_field(&mut fields, "errors", Value::Array(Vec::new()));
    put_field(&mut fields, "provider_count_from_config", count_value(provider_count));
    put_field(&mut fields, "verdicts", Value::Array(verdicts));
    Response::ok(Value::Object(fields), 0, false)
}

/// How many of the entries are stale.
pub open spec fn stale_count(entries: Seq<EntryView>, now: u128) -> nat {
    entries.filter(|e: EntryView| e.is_stale(now)).len()
}

/// The judgements on the cache.
pub open spec fn cache_verdicts(total: u64, stale: u64) -> Seq<Json> {
    let first = pass(decimal(total as nat) + " entries"@);
    if stale > 0 {
        seq![
            first,
            warn(
                decimal(stale as nat)
                    + " stale — run `comb status --filter stale=true` to inspect"@,
            ),
        ]
    } else if total > 0 {
        seq![first, pass("no stale entries"@)]
    } else {
        seq![first]
    }
}

/// The report on a cache with the given counts; `ratio` is the share of stale
/// entries.
pub open spec fn cache_json(total: u64, stale: u64, ratio: Number) -> Json {
    Json::Object(
        map![
        "total_entries"@ => count_json(total),
        "stale_entries"@ => count_json(stale),
        "stale_ratio"@ => Json::Number(ratio),
        "verdicts"@ => Json::Array(cache_verdicts(total, stale)),
    ],
    )
}

/// The report on a cache with the given counts. The share of stale entries is a
/// fraction, which the caller works out.
pub fn handle_introspect_cache(total: u64, stale: u64, ratio: Number) -> (response: Response)
    ensures
        response@ == ok_view(cache_json(total, stale, ratio), 0, false),
{
    let mut verdicts: Vec<Value> = Vec::new();
    let mut title = decimal_text(total);
    title.append(" entries");
    push_item(&mut verdicts, verdict("PASS", title));
    if stale > 0 {
        let mut message = decimal_text(stale);
        message.append(" stale — run `comb status --filter stale=true` to inspect");
        push_item(&mut verdicts, verdict("WARN", message));
    } else if total > 0 {
        push_item(&mut verdicts, verdict("PASS", "no stale entries".to_owned()));
    }
    assert(items_model(verdicts@) =~= cache_verdicts(total, stale));
    let mut fields: Vec<(String, Value)> = Vec::new();
    put_field(&mut fields, "total_entries", count_value(total));
    put_field(&mut fields, "stale_entries", count_value(stale));
    put_field(&mut fields, "stale_ratio", Value::Number(ratio));
    put_field(&mut fields, "verdicts", Value::Array(verdicts));
    Response::ok(Value::Object(fields), 0, false)
}

/// How many entries the cache has, and how many of them are stale.
pub fn cache_counts(cache: &Cache, now: u128) -> (counts: (u64, u64))
    ensures
        counts.0 == cache@.entries.len(),
        counts.1 == stale_count(cache@.entries, now),
{
    (cache.len() as u64, cache.count_stale(now) as u64)
}

/// A provider and the path it is used at, for messages.
pub open spec fn label(provider: Seq<char>, path: Option<Seq<char>>) -> Seq<char> {
    match path {
        Some(p) => provider + " ("@ + p + ")"@,
        None => provider,
    }
}

fn label_text(provider: &String, path: &Option<String>) -> (text: String)
    ensures
        text@ == label(provider@, opt_text(*path)),
{
    match path {
        Some(p) => {
            let mut text = provider.clone();
            text.append(" (");
            text.append(p.as_str());
            text.append(")");
            text
        },
        None => provider.clone(),
    }
}

/// The warning about a lifecycle record.
pub open spec fn lifecycle_verdict(b: LifecycleView) -> Json {
    warn(
        label(b.provider, b.path) + " — stage="@ + b.stage + " elapsed="@ + decimal(
            b.elapsed_secs as nat,
        ) + "s"@,
    )
}

/// The judgements on the lifecycle records: a warning for each.
pub open spec fn lifecycle_verdicts(list: Seq<LifecycleView>) -> Seq<Json> {
    if list.len() == 0 {
        seq![pass("no providers in decay"@)]
    } else {
        list.map_values(|b: LifecycleView| lifecycle_verdict(b))
    }
}

pub open spec fn lifecycle_json(list: Seq<LifecycleView>) -> Json {
    Json::Object(
        map![
        "lifecycle"@ => Json::Array(list.map_values(|b: LifecycleView| b.record)),
        "verdicts"@ => Json::Array(lifecycle_verdicts(list)),
    ],
    )
}

/// The report on the lifecycle records; there are none without a scheduler.
pub fn handle_introspect_lifecycle(list: &Vec<LifecycleInfo>) -> (response: Response)
    ensures
        response@ == ok_view(lifecycle_json(lifecycle_views(list@)), 0, false),
{
    let ghost all = lifecycle_views(list@);
    let ghost warnings = all.map_values(|b: LifecycleView| lifecycle_verdict(b));
    let ghost kept = all.map_values(|b: LifecycleView| b.record);
    let mut verdicts: Vec<Value> = Vec::new();
    let mut records: Vec<Value> = Vec::new();
    let mut i: usize = 0;
    assert(warnings.take(0) =~= Seq::<Json>::empty());
    assert(kept.take(0) =~= Seq::<Json>::empty());
    while i < list.len()
        invariant
            i <= list@.len(),
            all == lifecycle_views(list@),
            warnings == all.map_values(|b: LifecycleView| lifecycle_verdict(b)),
            kept == all.map_values(|b: LifecycleView| b.record),
            items_model(verdicts@) == warnings.take(i as int),
            items_model(records@) == kept.take(i as int),
        decreases list@.len() - i,
    {
        assert(all[i as int] == list@[i as int]@);
        assert(warnings.take(i + 1) =~= warnings.take(i as int).push(warnings[i as int]));
        assert(kept.take(i + 1) =~= kept.take(i as int).push(kept[i as int]));
        let mut message = label_text(&list[i].provider, &list[i].path);
        message.append(" — stage=");
        message.append(list[i].stage.as_str());
        message.append(" elapsed=");
        message.append(decimal_text(list[i].elapsed_secs).as_str());
        message.append("s");
        push_item(&mut verdicts, verdict("WARN", message));
        push_item(&mut records, list[i].record.clone());
        i += 1;
    }
    assert(warnings.take(i as int) =~= warnings);
    assert(kept.take(i as int) =~= kept);
    if list.len() == 0 {
        push_item(&mut verdicts, verdict("PASS", "no providers in decay".to_owned()));
        assert(items_model(verdicts@) =~= lifecycle_verdicts(all));
    }
    let mut fields: Vec<(String, Value)> = Vec::new();
    put_field(&mut fields, "lifecycle", Value::Array(records));
    put_field(&mut fields, "verdicts", Value::Array(verdicts));
    Response::ok(Value::Object(fields), 0, false)
}

pub open spec fn watches_json(paths: Seq<Seq<char>>) -> Json {
    Json::Object(
        map![
        "paths"@ => Json::Array(paths.map_values(|p: Seq<char>| Json::Text(p))),
        "verdicts"@ => Json::Array(seq![
            if paths.len() == 0 {
                warn("not watching any paths"@)
            } else {
                pass("watching "@ + decimal(paths.len()) + " paths"@)
            }
        ]),
    ],
    )
}

/// The report on the watched paths; there are none without a scheduler.
pub fn handle_introspect_watches(paths: &Vec<String>) -> (response: Response)
    ensures
        response@ == ok_view(watches_json(texts(paths@)), 0, false),
{
    let ghost shown = texts(paths@).map_values(|p: Seq<char>| Json::Text(p));
    let mut items: Vec<Value> = Vec::new();
    let mut i: usize = 0;
    assert(shown.take(0) =~= Seq::<Json>::empty());
    while i < paths.len()
        invariant
            i <= paths@.len(),
            shown == texts(paths@).map_values(|p: Seq<char>| Json::Text(p)),
            items_model(items@) == shown.take(i as int),
        decreases paths@.len() - i,
    {
        assert(shown.take(i + 1) =~= shown.take(i as int).push(Json::Text(paths@[i as int]@)));
        push_item(&mut items, text_value(paths[i].as_str()));
        i += 1;
    }
    assert(shown.take(i as int) =~= shown);
    let mut verdicts: Vec<Value> = Vec::new();
    if paths.is_empty() {
        push_item(&mut verdicts, verdict("WARN", "not watching any paths".to_owned()));
    } else {
        let mut message = "watching ".to_owned();
        message.append(decimal_text(paths.len() as u64).as_str());
        message.append(" paths");
        push_item(&mut verdicts, verdict("PASS", message));
    }
    assert(items_model(verdicts@) =~= seq![
        if texts(paths@).len() == 0 {
            warn("not watching any paths"@)
        } else {
            pass("watching "@ + decimal(texts(paths@).len()) + " paths"@)
        }
    ]);
    let mut fields: Vec<(String, Value)> = Vec::new();
    put_field(&mut fields, "paths", Value::Array(items));
    put_field(&mut fields, "verdicts", Value::Array(verdicts));
    Response::ok(Value::Object(fields), 0, false)
}

/// A timer that has a source run at intervals.
#[derive(Debug)]
pub struct PollTimerInfo {
    pub provider: String,
    pub path: Option<String>,
    pub interval_secs: u64,
    pub last_run_secs_ago: u64,
    /// The whole record as the scheduler gives it.
    pub record: Value,
}

/// The mathematical content of a [`PollTimerInfo`].
pub struct TimerView {
    pub provider: Seq<char>,
    pub path: Option<Seq<char>>,
    pub interval_secs: u64,
    pub last_run_secs_ago: u64,
    pub record: Json,
}

impl View for PollTimerInfo {
    type V = TimerView;

    open spec fn view(&self) -> TimerView {
        TimerView {
            provider: self.provider@,
            path: opt_text(self.path),
            interval_secs: self.interval_secs,
            last_run_secs_ago: self.last_run_secs_ago,
            record: self.record.model(),
        }
    }
}

impl TimerView {
    /// A timer is overdue when it missed its time by more than a whole interval.
    pub open spec fn overdue(self) -> bool {
        self.interval_secs > 0 && self.last_run_secs_ago > 2 * self.interval_secs
    }
}

/// The contents of a list of timers.
pub open spec fn timer_views(list: Seq<PollTimerInfo>) -> Seq<TimerView> {
    list.map_values(|t: PollTimerInfo| t@)
}

/// The warning about an overdue timer.
pub open spec fn overdue_verdict(t: TimerView) -> Json {
    warn(
        label(t.provider, t.path) + " overdue (interval="@ + decimal(t.interval_secs as nat)
            + "s, last="@ + decimal(t.last_run_secs_ago as nat) + "s ago)"@,
    )
}

/// The warnings about the overdue ones of a list of timers.
pub open spec fn overdue_verdicts(list: Seq<TimerView>) -> Seq<Json> {
    list.filter(|t: TimerView| t.overdue()).map_values(|t: TimerView| overdue_verdict(t))
}

pub open spec fn timers_json(list: Seq<TimerView>) -> Json {
    Json::Object(
        map![
        "timers"@ => Json::Array(list.map_values(|t: TimerView| t.record)),
        "verdicts"@ => Json::Array(
            seq![pass(decimal(list.len()) + " poll timers"@)] + overdue_verdicts(list),
        ),
    ],
    )
}

/// The report on the timers; there are none without a scheduler.
pub fn handle_introspect_timers(list: &Vec<PollTimerInfo>) -> (response: Response)
    requires
        forall|i: int| 0 <= i < list@.len() ==> 2 * (#[trigger] list@[i]).interval_secs <= u64::MAX,
    ensures
        response@ == ok_view(timers_json(timer_views(list@)), 0, false),
{
    let ghost all = timer_views(list@);
    let ghost kept = all.map_values(|t: TimerView| t.record);
    let ghost late = |t: TimerView| t.overdue();
    let mut verdicts: Vec<Value> = Vec::new();
    let mut records: Vec<Value> = Vec::new();
    let mut title = decimal_text(list.len() as u64);
    title.append(" poll timers");
    push_item(&mut verdicts, verdict("PASS", title));
    let ghost first = pass(decimal(all.len()) + " poll timers"@);
    let mut i: usize = 0;
    proof {
        reveal(Seq::filter);
        assert(kept.take(0) =~= Seq::<Json>::empty());
        assert(items_model(verdicts@) =~= seq![first] + overdue_verdicts(all.take(0)));
    }
    while i < list.len()
        invariant
            i <= list@.len(),
            forall|k: int|
                0 <= k < list@.len() ==> 2 * (#[trigger] list@[k]).interval_secs <= u64::MAX,
            all == timer_views(list@),
            kept == all.map_values(|t: TimerView| t.record),
            items_model(verdicts@) == seq![first] + overdue_verdicts(all.take(i as int)),
            items_model(records@) == kept.take(i as int),
        decreases list@.len() - i,
    {
        let ghost before = overdue_verdicts(all.take(i as int));
        proof {
            reveal(Seq::filter);
            assert(all[i as int] == list@[i as int]@);
            assert(kept.take(i + 1) =~= kept.take(i as int).push(kept[i as int]));
            assert(all.take(i + 1).drop_last() =~= all.take(i as int));
            assert(all.take(i + 1).last() == list@[i as int]@);
            assert(overdue_verdicts(all.take(i + 1)) =~= (if all[i as int].overdue() {
                before.push(overdue_verdict(all[i as int]))
            } else {
                before
            }));
        }
        let t = &list[i];
        if t.interval_secs > 0 && t.last_run_secs_ago > t.interval_secs * 2 {
            let mut message = label_text(&t.provider, &t.path);
            message.append(" overdue (interval=");
            message.append(decimal_text(t.interval_secs).as_str());
            message.append("s, last=");
            message.append(decimal_text(t.last_run_secs_ago).as_str());
            message.append("s ago)");
            push_item(&mut verdicts, verdict("WARN", message));
        }
        assert(items_model(verdicts@) =~= seq![first] + overdue_verdicts(all.take(i + 1)));
        push_item(&mut records, t.record.clone());
        i += 1;
    }
    assert(kept.take(i as int) =~= kept);
    assert(all.take(i as int) =~= all);
    let mut fields: Vec<(String, Value)> = Vec::new();
    put_field(&mut fields, "timers", Value::Array(records));
    put_field(&mut fields, "verdicts", Value::Array(verdicts));
    Response::ok(Value::Object(fields), 0, false)
}

pub open spec fn demand_json(records: Seq<Json>) -> Json {
    Json::Object(
        map![
        "demand"@ => Json::Array(records),
        "verdicts"@ => Json::Array(seq![pass(decimal(records.len()) + " active keys"@)]),
    ],
    )
}

/// The report on the keys in demand, given as the scheduler's records of them;
/// there are none without a scheduler.
pub fn handle_introspect_demand(records: &Vec<Value>) -> (response: Response)
    ensures
        response@ == ok_view(demand_json(items_model(records@)), 0, false),
{
    let mut message = decimal_text(records.len() as u64);
    message.append(" active keys");
    let mut verdicts: Vec<Value> = Vec::new();
    push_item(&mut verdicts, verdict("PASS", message));
    proof {
        lemma_items(records@, false);
        assert(items_model(verdicts@) =~= seq![pass(decimal(records@.len()) + " active keys"@)]);
    }
    let mut fields: Vec<(String, Value)> = Vec::new();
    put_field(&mut fields, "demand", Value::Array(clone_items(records)));
    put_field(&mut fields, "verdicts", Value::Array(verdicts));
    Response::ok(Value::Object(fields), 0, false)
}

/// A command seen while processes were sampled.
#[derive(Debug)]
pub struct ProcSample {
    pub command: String,
    pub count: u64,
    pub category: String,
}

/// A command that a cached field could replace.
#[derive(Debug)]
pub struct ReplacementSuggestion {
    pub command_pattern: String,
    pub provider: String,
    pub field: String,
}

/// What sampling the processes gave.
#[derive(Debug)]
pub struct ProcSnapshot {
    pub duration_secs: u64,
    pub total: u64,
    pub samples: Vec<ProcSample>,
    pub replacement_suggestions: Vec<ReplacementSuggestion>,
}

pub open spec fn sample_json(s: ProcSample) -> Json {
    Json::Object(
        map![
        "command"@ => Json::Text(s.command@),
        "count"@ => count_json(s.count),
        "category"@ => Json::Text(s.category@),
    ],
    )
}

pub open spec fn suggestion_json(r: ReplacementSuggestion) -> Json {
    Json::Object(
        map![
        "command_pattern"@ => Json::Text(r.command_pattern@),
        "provider"@ => Json::Text(r.provider@),
        "field"@ => Json::Text(r.field@),
    ],
    )
}

/// The judgements on a sample of the processes.
pub open spec fn procs_verdicts(p: ProcSnapshot) -> Seq<Json> {
    let first = verdict_json(
        "INFO"@,
        decimal(p.duration_secs as nat) + "s sample: "@ + decimal(p.total as nat)
            + " exec events"@,
    );
    let n = p.replacement_suggestions@.len();
    if n > 0 {
        seq![
            first,
            warn(
                decimal(n) + " replacement opportunit"@ + (if n == 1 {
                    "y"@
                } else {
                    "ies"@
                }) + ": consider using `comb get` instead"@,
            ),
        ]
    } else {
        seq![first]
    }
}

pub open spec fn procs_json(p: ProcSnapshot) -> Json {
    Json::Object(
        map![
        "duration_secs"@ => count_json(p.duration_secs),
        "samples"@ => Json::Array(p.samples@.map_values(|s: ProcSample| sample_json(s))),
        "replacement_suggestions"@ => Json::Array(
            p.replacement_suggestions@.map_values(|r: ReplacementSuggestion| suggestion_json(r)),
        ),
        "verdicts"@ => Json::Array(procs_verdicts(p)),
    ],
    )
}

fn samples_value(samples: &Vec<ProcSample>) -> (v: Value)
    ensures
        v.model() == Json::Array(samples@.map_values(|s: ProcSample| sample_json(s))),
{
    let ghost all = samples@.map_values(|s: ProcSample| sample_json(s));
    let mut out: Vec<Value> = Vec::new();
    let mut i: usize = 0;
    assert(all.take(0) =~= Seq::<Json>::empty());
    while i < samples.len()
        invariant
            i <= samples@.len(),
            all == samples@.map_values(|s: ProcSample| sample_json(s)),
            items_model(out@) == all.take(i as int),
        decreases samples@.len() - i,
    {
        let mut fields: Vec<(String, Value)> = Vec::new();
        put_field(&mut fields, "command", text_value(samples[i].command.as_str()));
        put_field(&mut fields, "count", count_value(samples[i].count));
        put_field(&mut fields, "category", text_value(samples[i].category.as_str()));
        assert(all.take(i + 1) =~= all.take(i as int).push(sample_json(samples@[i as int])));
        push_item(&mut out, Value::Object(fields));
        i += 1;
    }
    assert(all.take(i as int) =~= all);
    Value::Array(out)
}

fn suggestions_value(list: &Vec<ReplacementSuggestion>) -> (v: Value)
    ensures
        v.model() == Json::Array(
            list@.map_values(|r: ReplacementSuggestion| suggestion_json(r)),
        ),
{
    let ghost all = list@.map_values(|r: ReplacementSuggestion| suggestion_json(r));
    let mut out: Vec<Value> = Vec::new();
    let mut i: usize = 0;
    assert(all.take(0) =~= Seq::<Json>::empty());
    while i < list.len()
        invariant
            i <= list@.len(),
            all == list@.map_values(|r: ReplacementSuggestion| suggestion_json(r)),
            items_model(out@) == all.take(i as int),
        decreases list@.len() - i,
    {
        let mut fields: Vec<(String, Value)> = Vec::new();
        put_field(&mut fields, "command_pattern", text_value(list[i].command_pattern.as_str()));
        put_field(&mut fields, "provider", text_value(list[i].provider.as_str()));
        put_field(&mut fields, "field", text_value(list[i].field.as_str()));
        assert(all.take(i + 1) =~= all.take(i as int).push(suggestion_json(list@[i as int])));
        push_item(&mut out, Value::Object(fields));
        i += 1;
    }
    assert(all.take(i as int) =~= all);
    Value::Array(out)
}

/// How long to sample processes when the request does not say.
pub const DEFAULT_SAMPLE_SECS: u64 = 2;

/// How long to sample processes.
pub fn sample_secs(asked: Option<u64>) -> (secs: u64)
    ensures
        secs == (match asked {
            Some(n) => n,
            None => DEFAULT_SAMPLE_SECS,
        }),
{
    match asked {
        Some(n) => n,
        None => DEFAULT_SAMPLE_SECS,
    }
}

/// Why there is no sample of the processes.
#[derive(Debug)]
pub enum ProcsFailure {
    /// Sampling failed.
    Capture(String),
    /// The task that samples panicked.
    Panicked(String),
}

/// The answer to a request for a report on the processes.
pub open spec fn procs_view(outcome: Result<ProcSnapshot, ProcsFailure>) -> ResponseView {
    match outcome {
        Ok(p) => ok_view(procs_json(p), 0, false),
        Err(ProcsFailure::Capture(e)) => error_view("procs snapshot failed: "@ + e@),
        Err(ProcsFailure::Panicked(e)) => error_view("procs task panicked: "@ + e@),
    }
}

/// The report on the processes.
pub fn handle_introspect_procs(outcome: &Result<ProcSnapshot, ProcsFailure>) -> (response: Response)
    ensures
        response@ == procs_view(*outcome),
{
    match outcome {
        Ok(p) => {
            let mut verdicts: Vec<Value> = Vec::new();
            let mut title = decimal_text(p.duration_secs);
            title.append("s sample: ");
            title.append(decimal_text(p.total).as_str());
            title.append(" exec events");
            push_item(&mut verdicts, verdict("INFO", title));
            let n = p.replacement_suggestions.len();
            if n > 0 {
                let ending: &str = if n == 1 {
                    "y"
                } else {
                    "ies"
                };
                let mut message = decimal_text(n as u64);
                message.append(" replacement opportunit");
                message.append(ending);
                message.append(": consider using `comb get` instead");
                push_item(&mut verdicts, verdict("WARN", message));
            }
            assert(items_model(verdicts@) =~= procs_verdicts(*p));
            let mut fields: Vec<(String, Value)> = Vec::new();
            put_field(&mut fields, "duration_secs", count_value(p.duration_secs));
            put_field(&mut fields, "samples", samples_value(&p.samples));
            put_field(
                &mut fields,
                "replacement_suggestions",
                suggestions_value(&p.replacement_suggestions),
            );
            put_field(&mut fields, "verdicts", Value::Array(verdicts));
            Response::ok(Value::Object(fields), 0, false)
        },
        Err(ProcsFailure::Capture(e)) => {
            let mut message = "procs snapshot failed: ".to_owned();
            message.append(e.as_str());
            Response::error(message)
        },
        Err(ProcsFailure::Panicked(e)) => {
            let mut message = "procs task panicked: ".to_owned();
            message.append(e.as_str());
            Response::error(message)
        },
    }
}

} // verus!
