//! What holds of the reports of the daemon on itself.

use vstd::prelude::*;

use crate::cache::{Cache, EntryView};
use crate::protocol::{IntrospectSubject, Response};
use crate::provider::{
    FieldType, FieldView, InvalidationView, ProviderRegistry, RegistryView, SourceScope, SourceView,
};
use crate::report::{
    backoff_verdicts, cache_counts, daemon_json, field_json, handle_introspect_cache,
    handle_introspect_config, handle_introspect_daemon, handle_introspect_demand,
    handle_introspect_lifecycle, handle_introspect_procs, handle_introspect_providers,
    handle_introspect_timers, handle_introspect_watches, law_worst_lasts_longest, lifecycle_views,
    overdue_verdicts, provider_json, providers_json, reaper_json, sorted_names, source_json,
    stale_count, summary, timer_views, verdict_json, worst_index, DaemonFacts, LifecycleInfo,
    LifecycleView, PollTimerInfo, ProcSnapshot, ProcsFailure, ReaperHealth, TimerView,
};
use crate::server::{SchedulerStatus, Server, Surroundings};
use crate::text::{decimal, join_with, opt_text, text_le, texts};
use crate::value::{items_model, lemma_items, Json, Number, Value};

verus! {

/// A judgement says its level and its message.
pub proof fn law_judgement(level: Seq<char>, message: Seq<char>)
    ensures
        verdict_json(level, message) matches Json::Object(m) && m.dom() == set![
            "level"@,
            "message"@,
        ] && m["level"@] == Json::Text(level) && m["message"@]
            == Json::Text(message),
{
    reveal_strlit("level");
    reveal_strlit("message");
    assert("level"@[0] != "message"@[0]);
}

/// The number of stale entries grows by one with every stale entry and by nothing
/// with any other. So it is never more than the number of entries.
pub proof fn law_count_of_stale_entries(entries: Seq<EntryView>, e: EntryView, now: u128)
    ensures
        stale_count(Seq::empty(), now) == 0,
        stale_count(entries.push(e), now) == stale_count(entries, now) + if exists|i: int|
            0 <= i < e.sources.len() && (#[trigger] e.sources[i]).is_stale(now) {
            1nat
        } else {
            0
        },
        stale_count(entries, now) <= entries.len(),
{
    broadcast use vstd::seq_lib::group_filter_ensures;

    reveal(Seq::filter);
    let stale = |x: EntryView| x.is_stale(now);
    assert(entries.push(e).drop_last() =~= entries);
    assert(Seq::<EntryView>::empty().filter(stale).len() == 0);
}

proof fn lemma_cache_members()
    ensures
        "total_entries"@ != "stale_entries"@,
        "total_entries"@ != "stale_ratio"@,
        "total_entries"@ != "verdicts"@,
        "stale_entries"@ != "stale_ratio"@,
        "stale_entries"@ != "verdicts"@,
        "stale_ratio"@ != "verdicts"@,
{
    reveal_strlit("total_entries");
    reveal_strlit("stale_entries");
    reveal_strlit("stale_ratio");
    reveal_strlit("verdicts");
    assert("total_entries"@[0] != "stale_entries"@[0]);
    assert("stale_entries"@.len() != "stale_ratio"@.len());
    assert("total_entries"@.len() != "stale_ratio"@.len());
    assert("verdicts"@.len() != "stale_ratio"@.len());
    assert("verdicts"@.len() != "total_entries"@.len());
    assert("verdicts"@.len() != "stale_entries"@.len());
}

/// The report on the cache. Its member `total_entries` is the number of entries that
/// were counted and `stale_entries` the number of stale ones among them, never more.
/// There is a warning exactly if one is stale.
pub proof fn law_report_on_the_cache(
    cache: Cache,
    now: u128,
    counts: (u64, u64),
    ratio: Number,
    r: Response,
)
    requires
        call_ensures(cache_counts, (&cache, now), counts),
        call_ensures(handle_introspect_cache, (counts.0, counts.1, ratio), r),
    ensures
        r@.ok && r@.error is None && r@.age_ms == Some(0u128) && r@.stale == Some(false),
        r@.data matches Some(Json::Object(m)) && {
            &&& m.dom() == set!["total_entries"@, "stale_entries"@, "stale_ratio"@, "verdicts"@]
            &&& m["total_entries"@] == Json::Number(
                Number::PosInt(cache@.entries.len() as u64),
            )
            &&& m["stale_entries"@] == Json::Number(
                Number::PosInt(
                    cache@.entries.filter(|e: EntryView| e.is_stale(now)).len() as u64,
                ),
            )
            &&& m["stale_ratio"@] == Json::Number(ratio)
            &&& m["verdicts"@] matches Json::Array(v) && v.len() >= 1 && v[0] == verdict_json(
                "PASS"@,
                decimal(cache@.entries.len()) + " entries"@,
            ) && (v.contains(
                verdict_json(
                    "WARN"@,
                    decimal(counts.1 as nat)
                        + " stale — run `comb status --filter stale=true` to inspect"@,
                ),
            ) <==> counts.1 > 0) && v.len() == (if counts.0 > 0 {
                2nat
            } else {
                1
            }) && (counts.1 == 0 && counts.0 > 0 ==> v.len() == 2 && v[1]
                == verdict_json("PASS"@, "no stale entries"@))
        },
        counts.1 <= counts.0,
        counts.0 == cache@.entries.len(),
        counts.1 == cache@.entries.filter(|e: EntryView| e.is_stale(now)).len(),
{
    lemma_cache_members();
    if cache@.entries.len() > 0 {
        law_count_of_stale_entries(cache@.entries, cache@.entries[0], now);
    } else {
        law_count_of_stale_entries(
            cache@.entries,
            EntryView { provider: Seq::empty(), path: None, sources: Seq::empty() },
            now,
        );
    }
    let warning = verdict_json(
        "WARN"@,
        decimal(counts.1 as nat) + " stale — run `comb status --filter stale=true` to inspect"@,
    );
    if let Some(Json::Object(m)) = r@.data {
        if let Json::Array(v) = m["verdicts"@] {
            lemma_levels();
            if counts.1 > 0 {
                assert(v[1] == warning);
            } else {
                assert forall|i: int| 0 <= i < v.len() implies v[i] != warning by {
                    lemma_level_of("PASS"@, "no stale entries"@, "WARN"@, warning_text(counts.1));
                    lemma_level_of(
                        "PASS"@,
                        decimal(counts.0 as nat) + " entries"@,
                        "WARN"@,
                        warning_text(counts.1),
                    );
                }
            }
        }
    }
}

spec fn warning_text(stale: u64) -> Seq<char> {
    decimal(stale as nat) + " stale — run `comb status --filter stale=true` to inspect"@
}

proof fn lemma_levels()
    ensures
        "PASS"@ != "WARN"@,
        "PASS"@ != "INFO"@,
        "WARN"@ != "INFO"@,
{
    reveal_strlit("PASS");
    reveal_strlit("WARN");
    reveal_strlit("INFO");
    assert("PASS"@[0] != "WARN"@[0]);
    assert("PASS"@[0] != "INFO"@[0]);
    assert("WARN"@[0] != "INFO"@[0]);
}

/// Judgements of different levels differ.
proof fn lemma_level_of(a: Seq<char>, x: Seq<char>, b: Seq<char>, y: Seq<char>)
    requires
        a != b,
    ensures
        verdict_json(a, x) != verdict_json(b, y),
{
    law_judgement(a, x);
    law_judgement(b, y);
}

/// The report on the cache of a server speaks of that cache.
pub proof fn law_server_reports_on_its_cache<S, H, W, R>(
    server: Server<S, H, W, R>,
    status: Option<SchedulerStatus>,
    around: Surroundings,
    now: u128,
    r: Response,
)
    requires
        call_ensures(
            Server::<S, H, W, R>::introspect,
            (&server, IntrospectSubject::Cache, &status, &around, now),
            r,
        ),
    ensures
        r@.ok && r@.error is None && r@.age_ms == Some(0u128) && r@.stale == Some(false),
        r@.data matches Some(Json::Object(m)) && {
            &&& m["total_entries"@] == Json::Number(
                Number::PosInt(server.cache@.entries.len() as u64),
            )
            &&& m["stale_entries"@] == Json::Number(
                Number::PosInt(
                    server.cache@.entries.filter(|e: EntryView| e.is_stale(now)).len() as u64,
                ),
            )
            &&& m["stale_ratio"@] == Json::Number(around.stale_ratio)
        },
{
    lemma_cache_members();
}

proof fn lemma_daemon_members()
    ensures
        "pid"@.len() == 3,
        "version"@.len() == 7,
        "uptime_secs"@.len() == 11,
        "socket_path"@.len() == 11,
        "config_path"@.len() == 11,
        "requests_total"@.len() == 14,
        "in_flight"@.len() == 9,
        "active_watchers"@.len() == 15,
        "cache_entries"@.len() == 13,
        "watch_backend"@.len() == 13,
        "verdicts"@.len() == 8,
        "reaper"@.len() == 6,
        "uptime_secs"@ != "socket_path"@,
        "uptime_secs"@ != "config_path"@,
        "socket_path"@ != "config_path"@,
        "cache_entries"@ != "watch_backend"@,
{
    reveal_strlit("pid");
    reveal_strlit("version");
    reveal_strlit("uptime_secs");
    reveal_strlit("socket_path");
    reveal_strlit("config_path");
    reveal_strlit("requests_total");
    reveal_strlit("in_flight");
    reveal_strlit("active_watchers");
    reveal_strlit("cache_entries");
    reveal_strlit("watch_backend");
    reveal_strlit("verdicts");
    reveal_strlit("reaper");
    assert("uptime_secs"@[0] != "socket_path"@[0]);
    assert("uptime_secs"@[0] != "config_path"@[0]);
    assert("socket_path"@[0] != "config_path"@[0]);
    assert("cache_entries"@[0] != "watch_backend"@[0]);
}

/// The report on the daemon has a member for each fact, and judges the load and the
/// watch backend: more than fifty requests in flight and anything but kernel events
/// are warned about.
pub proof fn law_report_on_the_daemon(f: DaemonFacts, r: Response)
    requires
        call_ensures(handle_introspect_daemon, (&f,), r),
    ensures
        r@.ok && r@.error is None && r@.age_ms == Some(0u128) && r@.stale == Some(false),
        r@.data matches Some(Json::Object(m)) && {
            &&& m["pid"@] == Json::Number(Number::PosInt(f.pid as u64))
            &&& m["version"@] == Json::Text(f.version@)
            &&& m["uptime_secs"@] == Json::Number(Number::PosInt(f.uptime_secs))
            &&& m["socket_path"@] == Json::Text(f.socket_path@)
            &&& m["config_path"@] == match f.config_path {
                Some(p) => Json::Text(p@),
                None => Json::Null,
            }
            &&& m["requests_total"@] == Json::Number(Number::PosInt(f.requests_total))
            &&& m["in_flight"@] == Json::Number(Number::PosInt(f.in_flight))
            &&& m["active_watchers"@] == Json::Number(Number::PosInt(f.active_watchers))
            &&& m["cache_entries"@] == Json::Number(Number::PosInt(f.cache_entries))
            &&& m["watch_backend"@] == Json::Text(f.watch_backend@)
            &&& m.contains_key("reaper"@) <==> f.reaper is Some
            &&& m.dom().remove("reaper"@) == set![
                "pid"@,
                "version"@,
                "uptime_secs"@,
                "socket_path"@,
                "config_path"@,
                "requests_total"@,
                "in_flight"@,
                "active_watchers"@,
                "cache_entries"@,
                "watch_backend"@,
                "verdicts"@,
            ]
            &&& m["verdicts"@] matches Json::Array(v) && {
                &&& v.len() >= 3
                &&& v[0] == verdict_json("PASS"@, "daemon responsive"@)
                &&& v[1] == if f.in_flight <= 50 {
                    verdict_json("PASS"@, "in_flight="@ + decimal(f.in_flight as nat))
                } else {
                    verdict_json(
                        "WARN"@,
                        decimal(f.in_flight as nat) + " in-flight requests (threshold 50)"@,
                    )
                }
                &&& v[2] == if f.watch_backend@ == "native"@ {
                    verdict_json("PASS"@, "watch backend: native fs events"@)
                } else {
                    verdict_json(
                        "WARN"@,
                        "watch backend: "@ + f.watch_backend@
                            + " — kernel fs events undelivered; watch invalidation degraded to polling"@,
                    )
                }
                &&& f.reaper is None ==> v.len() == 3
            }
        },
{
    lemma_daemon_members();
}

proof fn lemma_reaper_members()
    ensures
        "armed"@.len() == 5,
        "visibility"@.len() == 10,
        "sweeps"@.len() == 6,
        "reaped"@.len() == 6,
        "kill_denied"@.len() == 11,
        "sweeps"@ != "reaped"@,
{
    reveal_strlit("armed");
    reveal_strlit("visibility");
    reveal_strlit("sweeps");
    reveal_strlit("reaped");
    reveal_strlit("kill_denied");
    assert("sweeps"@[0] != "reaped"@[0]);
}

/// What the report on the daemon says of the reaper: its state member by member. An
/// armed reaper that does not see all processes, and one that was denied a kill, are
/// warned about; a reaper that is not armed never is.
pub proof fn law_report_on_the_reaper(f: DaemonFacts, h: ReaperHealth, r: Response)
    requires
        f.reaper == Some(h),
        call_ensures(handle_introspect_daemon, (&f,), r),
    ensures
        r@.ok && r@.error is None && r@.age_ms == Some(0u128) && r@.stale == Some(false),
        r@.data matches Some(Json::Object(m)) && {
            &&& m["reaper"@] matches Json::Object(s) && {
                &&& s.dom() == set![
                    "armed"@,
                    "visibility"@,
                    "sweeps"@,
                    "reaped"@,
                    "kill_denied"@,
                ]
                &&& s["armed"@] == Json::Bool(h.armed)
                &&& s["visibility"@] == Json::Text(
                    if h.visibility_ok {
                        "system-wide"@
                    } else {
                        "confined"@
                    },
                )
                &&& s["sweeps"@] == Json::Number(Number::PosInt(h.sweeps_total))
                &&& s["reaped"@] == Json::Number(Number::PosInt(h.reaped_total))
                &&& s["kill_denied"@] == Json::Number(Number::PosInt(h.kill_denied_total))
            }
            &&& m["verdicts"@] matches Json::Array(v) && {
                &&& v.len() == if h.armed && h.kill_denied_total > 0 {
                    5nat
                } else {
                    4
                }
                &&& !h.armed ==> v[3] == verdict_json("PASS"@, "reaper: not armed (side daemon)"@)
                &&& h.armed && h.visibility_ok ==> v[3] == verdict_json(
                    "PASS"@,
                    "reaper: armed, system-wide process visibility"@,
                )
                &&& h.armed && !h.visibility_ok ==> v[3] == verdict_json(
                    "WARN"@,
                    "reaper visibility degraded: PID 1 not visible in process enumeration — this daemon runs confined (sandbox-spawned?) and cannot police daemons outside its confinement; restart it from an unconfined shell"@,
                )
                &&& h.armed && h.kill_denied_total > 0 ==> v[4] == verdict_json(
                    "WARN"@,
                    "reaper: "@ + decimal(h.kill_denied_total as nat)
                        + " kill attempt(s) denied by the OS — orphans visible but unsignalable"@,
                )
            }
        },
{
    lemma_daemon_members();
    lemma_reaper_members();
}

/// The report of a server on the daemon is made from the server's own counts and
/// from the process around it. Without a scheduler nothing is in flight, and the
/// watch backend is not known. Up to a whole second the uptime is the time since the
/// server was made.
pub proof fn law_server_reports_on_its_daemon<S, H, W, R>(
    server: Server<S, H, W, R>,
    status: Option<SchedulerStatus>,
    around: Surroundings,
    now: u128,
    facts: DaemonFacts,
)
    requires
        call_ensures(
            Server::<S, H, W, R>::daemon_facts,
            (&server, &status, &around, now),
            facts,
        ),
    ensures
        facts.pid == around.pid,
        facts.version@ == around.version@,
        facts.socket_path@ == server.socket_path@,
        facts.config_path is Some <==> around.config_path is Some,
        facts.config_path is Some ==> facts.config_path->0@ == around.config_path->0@,
        facts.requests_total == server.requests_total,
        facts.active_watchers == around.active_watchers,
        facts.cache_entries == server.cache@.entries.len(),
        facts.reaper == around.reaper,
        status matches Some(s) ==> facts.in_flight == s.in_flight && facts.watch_backend@
            == s.watch_backend@,
        status is None ==> facts.in_flight == 0 && facts.watch_backend@ == "unknown"@,
        now < server.start_ms ==> facts.uptime_secs == 0,
        now >= server.start_ms && now - server.start_ms < u64::MAX ==> facts.uptime_secs * 1000
            <= now - server.start_ms < facts.uptime_secs * 1000 + 1000,
{
}

proof fn lemma_config_members()
    ensures
        "path"@.len() == 4,
        "parsed"@.len() == 6,
        "errors"@.len() == 6,
        "provider_count_from_config"@.len() == 26,
        "verdicts"@.len() == 8,
        "parsed"@ != "errors"@,
{
    reveal_strlit("path");
    reveal_strlit("parsed");
    reveal_strlit("errors");
    reveal_strlit("provider_count_from_config");
    reveal_strlit("verdicts");
    assert("parsed"@[0] != "errors"@[0]);
}

/// The report on the configuration says where it lies and how many providers it
/// defines.
pub proof fn law_report_on_the_configuration(path: Option<String>, count: u64, r: Response)
    requires
        call_ensures(handle_introspect_config, (&path, count), r),
    ensures
        r@.ok && r@.error is None && r@.age_ms == Some(0u128) && r@.stale == Some(false),
        r@.data matches Some(Json::Object(m)) && {
            &&& m.dom() == set!["path"@, "parsed"@, "errors"@, "provider_count_from_config"@, "verdicts"@]
            &&& m["path"@] == match path {
                Some(p) => Json::Text(p@),
                None => Json::Null,
            }
            &&& m["parsed"@] == Json::Bool(true)
            &&& m["errors"@] == Json::Array(Seq::empty())
            &&& m["provider_count_from_config"@] == Json::Number(Number::PosInt(count))
            &&& m["verdicts"@] matches Json::Array(v) && v.len() == 2 && v[0] == verdict_json(
                "PASS"@,
                "config parsed"@,
            ) && v[1] == verdict_json(
                "PASS"@,
                decimal(count as nat) + " provider definitions loaded"@,
            )
        },
{
    lemma_config_members();
}

proof fn lemma_list_members()
    ensures
        "lifecycle"@ != "verdicts"@,
        "paths"@ != "verdicts"@,
        "timers"@ != "verdicts"@,
        "demand"@ != "verdicts"@,
        "providers"@ != "verdicts"@,
{
    reveal_strlit("lifecycle");
    reveal_strlit("paths");
    reveal_strlit("timers");
    reveal_strlit("demand");
    reveal_strlit("providers");
    reveal_strlit("verdicts");
    assert("lifecycle"@.len() != "verdicts"@.len());
    assert("paths"@.len() != "verdicts"@.len());
    assert("timers"@.len() != "verdicts"@.len());
    assert("demand"@.len() != "verdicts"@.len());
    assert("providers"@.len() != "verdicts"@.len());
}

/// The report on the lifecycle records holds each record as the scheduler gave it, in
/// order, and a warning about each; without records there is none.
pub proof fn law_report_on_the_lifecycle(list: Vec<LifecycleInfo>, i: int, r: Response)
    requires
        call_ensures(handle_introspect_lifecycle, (&list,), r),
    ensures
        r@.ok && r@.error is None && r@.age_ms == Some(0u128) && r@.stale == Some(false),
        r@.data matches Some(Json::Object(m)) && {
            &&& m.dom() == set!["lifecycle"@, "verdicts"@]
            &&& m["lifecycle"@] matches Json::Array(records) && records.len() == list@.len() && (0
                <= i < list@.len() ==> records[i] == list@[i].record.model())
            &&& m["verdicts"@] matches Json::Array(v) && {
                &&& list@.len() == 0 ==> v == seq![
                    verdict_json("PASS"@, "no providers in decay"@),
                ]
                &&& list@.len() > 0 ==> v.len() == list@.len()
                &&& 0 <= i < list@.len() ==> v[i] == verdict_json(
                    "WARN"@,
                    (match list@[i].path {
                        Some(p) => list@[i].provider@ + " ("@ + p@ + ")"@,
                        None => list@[i].provider@,
                    }) + " — stage="@ + list@[i].stage@ + " elapsed="@ + decimal(
                        list@[i].elapsed_secs as nat,
                    ) + "s"@,
                )
            }
        },
{
    lemma_list_members();
    if 0 <= i < list@.len() {
        assert(lifecycle_views(list@)[i] == list@[i]@);
    }
}

/// The report on the watched paths holds each path, in order, and a warning exactly
/// if there is none.
pub proof fn law_report_on_the_watches(paths: Vec<String>, i: int, r: Response)
    requires
        call_ensures(handle_introspect_watches, (&paths,), r),
    ensures
        r@.ok && r@.error is None && r@.age_ms == Some(0u128) && r@.stale == Some(false),
        r@.data matches Some(Json::Object(m)) && {
            &&& m.dom() == set!["paths"@, "verdicts"@]
            &&& m["paths"@] matches Json::Array(shown) && shown.len() == paths@.len() && (0 <= i
                < paths@.len() ==> shown[i] == Json::Text(paths@[i]@))
            &&& m["verdicts"@] == Json::Array(
                seq![
                    if paths@.len() == 0 {
                        verdict_json("WARN"@, "not watching any paths"@)
                    } else {
                        verdict_json("PASS"@, "watching "@ + decimal(paths@.len()) + " paths"@)
                    },
                ],
            )
        },
{
    lemma_list_members();
    if 0 <= i < paths@.len() {
        assert(texts(paths@)[i] == paths@[i]@);
    }
}

/// The report on the demand holds each record as the scheduler gave it, in order, and
/// their number.
pub proof fn law_report_on_the_demand(records: Vec<Value>, i: int, r: Response)
    requires
        call_ensures(handle_introspect_demand, (&records,), r),
    ensures
        r@.ok && r@.error is None && r@.age_ms == Some(0u128) && r@.stale == Some(false),
        r@.data matches Some(Json::Object(m)) && {
            &&& m.dom() == set!["demand"@, "verdicts"@]
            &&& m["demand"@] matches Json::Array(shown) && shown.len() == records@.len() && (0 <= i
                < records@.len() ==> shown[i] == records@[i].model())
            &&& m["verdicts"@] == Json::Array(
                seq![verdict_json("PASS"@, decimal(records@.len()) + " active keys"@)],
            )
        },
{
    lemma_list_members();
    lemma_items(records@, false);
    if 0 <= i < records@.len() {
        assert(items_model(records@)[i] == records@[i].model());
    }
}

/// The report on the timers holds each record as the scheduler gave it, in order, and
/// first their number. There is a warning about a timer exactly if it is polled and
/// last ran longer ago than twice its interval, and no other.
pub proof fn law_report_on_the_timers(list: Vec<PollTimerInfo>, i: int, r: Response)
    requires
        call_ensures(handle_introspect_timers, (&list,), r),
    ensures
        r@.ok && r@.error is None && r@.age_ms == Some(0u128) && r@.stale == Some(false),
        r@.data matches Some(Json::Object(m)) && {
            &&& m.dom() == set!["timers"@, "verdicts"@]
            &&& m["timers"@] matches Json::Array(records) && records.len() == list@.len() && (0
                <= i < list@.len() ==> records[i] == list@[i].record.model())
            &&& m["verdicts"@] matches Json::Array(v) && {
                &&& v.len() >= 1
                &&& v[0] == verdict_json("PASS"@, decimal(list@.len()) + " poll timers"@)
                &&& 0 <= i < list@.len() && list@[i].interval_secs > 0
                    && list@[i].last_run_secs_ago > 2 * list@[i].interval_secs ==> v.skip(1).contains(overdue_warning(list@[i]))
                &&& forall|k: int|
                    1 <= k < v.len() ==> exists|j: int|
                        0 <= j < list@.len() && (#[trigger] list@[j]).interval_secs > 0
                            && list@[j].last_run_secs_ago > 2 * list@[j].interval_secs
                            && #[trigger] v[k] == overdue_warning(list@[j])
            }
        },
{
    broadcast use vstd::seq_lib::group_filter_ensures;

    lemma_list_members();
    let all = timer_views(list@);
    let late = |t: TimerView| t.overdue();
    let kept = all.filter(late);
    let warnings = overdue_verdicts(all);
    if 0 <= i < list@.len() {
        assert(all[i] == list@[i]@);
    }
    if let Some(Json::Object(m)) = r@.data {
        if let Json::Array(v) = m["verdicts"@] {
            assert(v.skip(1) =~= warnings);
            if 0 <= i < list@.len() && list@[i].interval_secs > 0 && list@[i].last_run_secs_ago > 2
                * list@[i].interval_secs {
                assert(late(all[i]));
                assert(kept.contains(all[i]));
                let k = choose|k: int| 0 <= k < kept.len() && kept[k] == all[i];
                assert(warnings[k] == overdue_warning(list@[i]));
            }
            assert forall|k: int| 1 <= k < v.len() implies exists|j: int|
                0 <= j < list@.len() && (#[trigger] list@[j]).interval_secs > 0
                    && list@[j].last_run_secs_ago > 2 * list@[j].interval_secs && #[trigger] v[k]
                    == overdue_warning(list@[j]) by {
                let t = kept[k - 1];
                assert(late(t));
                all.lemma_filter_contains_rev(late, t);
                let j = choose|j: int| 0 <= j < all.len() && all[j] == t;
                assert(all[j] == list@[j]@);
                assert(v[k] == warnings[k - 1]);
                assert(list@[j].interval_secs > 0);
            }
        }
    }
}

/// The warning about a timer that is overdue.
pub open spec fn overdue_warning(t: PollTimerInfo) -> Json {
    verdict_json(
        "WARN"@,
        (match t.path {
            Some(p) => t.provider@ + " ("@ + p@ + ")"@,
            None => t.provider@,
        }) + " overdue (interval="@ + decimal(t.interval_secs as nat) + "s, last="@ + decimal(
            t.last_run_secs_ago as nat,
        ) + "s ago)"@,
    )
}

proof fn lemma_procs_members()
    ensures
        "duration_secs"@.len() == 13,
        "samples"@.len() == 7,
        "replacement_suggestions"@.len() == 23,
        "verdicts"@.len() == 8,
        "command"@.len() == 7,
        "count"@.len() == 5,
        "category"@.len() == 8,
        "command_pattern"@.len() == 15,
        "provider"@.len() == 8,
        "field"@.len() == 5,
{
    reveal_strlit("duration_secs");
    reveal_strlit("samples");
    reveal_strlit("replacement_suggestions");
    reveal_strlit("verdicts");
    reveal_strlit("command");
    reveal_strlit("count");
    reveal_strlit("category");
    reveal_strlit("command_pattern");
    reveal_strlit("provider");
    reveal_strlit("field");
}

/// The report on the processes holds each sample and each suggestion member by
/// member, and warns exactly if there is a suggestion.
pub proof fn law_report_on_the_processes(p: ProcSnapshot, i: int, j: int, r: Response)
    requires
        call_ensures(handle_introspect_procs, (&Ok::<ProcSnapshot, ProcsFailure>(p),), r),
    ensures
        r@.ok && r@.error is None && r@.age_ms == Some(0u128) && r@.stale == Some(false),
        r@.data matches Some(Json::Object(m)) && {
            &&& m.dom() == set!["duration_secs"@, "samples"@, "replacement_suggestions"@, "verdicts"@]
            &&& m["duration_secs"@] == Json::Number(Number::PosInt(p.duration_secs))
            &&& m["samples"@] matches Json::Array(shown) && shown.len() == p.samples@.len() && (0
                <= i < shown.len() ==> (shown[i] matches Json::Object(s) && s.dom() == set![
                "command"@,
                "count"@,
                "category"@,
            ] && s["command"@]
                == Json::Text(p.samples@[i].command@) && s["count"@] == Json::Number(
                Number::PosInt(p.samples@[i].count),
            ) && s["category"@] == Json::Text(p.samples@[i].category@)))
            &&& m["replacement_suggestions"@] matches Json::Array(shown) && shown.len()
                == p.replacement_suggestions@.len() && (0 <= j < shown.len() ==> (shown[j]
                matches Json::Object(s) && s.dom() == set![
                "command_pattern"@,
                "provider"@,
                "field"@,
            ] && s["command_pattern"@] == Json::Text(
                p.replacement_suggestions@[j].command_pattern@,
            ) && s["provider"@] == Json::Text(p.replacement_suggestions@[j].provider@)
                && s["field"@] == Json::Text(p.replacement_suggestions@[j].field@)))
            &&& m["verdicts"@] matches Json::Array(v) && {
                let n = p.replacement_suggestions@.len();
                &&& v.len() == if n > 0 {
                    2nat
                } else {
                    1
                }
                &&& v[0] == verdict_json(
                    "INFO"@,
                    decimal(p.duration_secs as nat) + "s sample: "@ + decimal(p.total as nat)
                        + " exec events"@,
                )
                &&& n == 1 ==> v[1] == verdict_json(
                    "WARN"@,
                    decimal(n) + " replacement opportunit"@ + "y"@
                        + ": consider using `comb get` instead"@,
                )
                &&& n > 1 ==> v[1] == verdict_json(
                    "WARN"@,
                    decimal(n) + " replacement opportunit"@ + "ies"@
                        + ": consider using `comb get` instead"@,
                )
            }
        },
{
    lemma_procs_members();
}

/// Where there is no sample of the processes, the answer says why.
pub proof fn law_failed_sample_is_told(failure: ProcsFailure, r: Response)
    requires
        call_ensures(handle_introspect_procs, (&Err::<ProcSnapshot, ProcsFailure>(failure),), r),
    ensures
        !r@.ok && r@.data is None,
        r@.error == match failure {
            ProcsFailure::Capture(e) => Some("procs snapshot failed: "@ + e@),
            ProcsFailure::Panicked(e) => Some("procs task panicked: "@ + e@),
        },
{
}

proof fn lemma_provider_members()
    ensures
        "name"@.len() == 4,
        "source"@.len() == 6,
        "scope"@.len() == 5,
        "sources"@.len() == 7,
        "invalidation"@.len() == 12,
        "in_backoff"@.len() == 10,
        "fields"@.len() == 6,
        "type"@.len() == 4,
        "stage"@.len() == 5,
        "elapsed_secs"@.len() == 12,
        "name"@ != "type"@,
{
    reveal_strlit("name");
    reveal_strlit("source");
    reveal_strlit("scope");
    reveal_strlit("sources");
    reveal_strlit("invalidation");
    reveal_strlit("in_backoff");
    reveal_strlit("fields");
    reveal_strlit("type");
    reveal_strlit("stage");
    reveal_strlit("elapsed_secs");
    assert("name"@[0] != "type"@[0]);
}

/// The report on the providers lists every known name once, in order, and first says
/// how many there are.
pub proof fn law_report_on_the_providers<S>(
    registry: ProviderRegistry<S>,
    list: Vec<LifecycleInfo>,
    name: Seq<char>,
    r: Response,
)
    requires
        call_ensures(handle_introspect_providers::<S>, (&registry, &list), r),
    ensures
        r@.ok && r@.error is None && r@.age_ms == Some(0u128) && r@.stale == Some(false),
        r@.data matches Some(Json::Object(m)) && {
            &&& m["providers"@] matches Json::Array(shown) && (shown.contains(
                provider_json(registry@, lifecycle_views(list@), name),
            ) <==> registry@.providers.contains_key(name) || registry@.virtuals.contains(name))
            &&& m["verdicts"@] matches Json::Array(v) && v.len() >= 1 && (m["providers"@]
                matches Json::Array(shown) && v[0] == verdict_json(
                "PASS"@,
                decimal(shown.len()) + " providers registered"@,
            ))
        },
{
    lemma_list_members();
    let views = lifecycle_views(list@);
    let names = choose|names: Seq<Seq<char>>| #[trigger]
        sorted_names(registry@, names) && r@.data == Some(
            providers_json(registry@, views, names),
        );
    let shown = names.map_values(|n: Seq<char>| provider_json(registry@, views, n));
    assert(registry@.is_known(name) <==> names.contains(name));
    if names.contains(name) {
        let i = choose|i: int| 0 <= i < names.len() && names[i] == name;
        assert(shown[i] == provider_json(registry@, views, name));
    }
    if shown.contains(provider_json(registry@, views, name)) {
        let i = choose|i: int|
            0 <= i < shown.len() && shown[i] == provider_json(registry@, views, name);
        law_report_on_one_provider(registry@, views, names[i], 0);
        law_report_on_one_provider(registry@, views, name, 0);
        assert(names[i] == name);
    }
}

/// What is said of one provider: its name, where its data comes from, whether any of
/// its sources depends on a path, what is said of each source in order, the refresh
/// strategy of its first source, and of its records the one that lasts longest.
pub proof fn law_report_on_one_provider(
    registry: RegistryView,
    list: Seq<LifecycleView>,
    name: Seq<char>,
    i: int,
)
    ensures
        provider_json(registry, list, name) matches Json::Object(m) && {
            &&& m.dom() == set![
                "name"@,
                "source"@,
                "scope"@,
                "sources"@,
                "invalidation"@,
                "in_backoff"@,
            ]
            &&& m["name"@] == Json::Text(name)
            &&& m["source"@] == Json::Text(
                if registry.virtuals.contains(name) {
                    "virtual"@
                } else if registry.providers.contains_key(name) {
                    "builtin"@
                } else {
                    "unknown"@
                },
            )
            &&& m["scope"@] == Json::Text(
                if registry.providers.contains_key(name) && exists|k: int|
                    0 <= k < registry.providers[name].len() && (
                    #[trigger] registry.providers[name][k]).scope == SourceScope::PathScoped {
                    "path"@
                } else {
                    "global"@
                },
            )
            &&& m["sources"@] matches Json::Array(shown) && {
                &&& !registry.providers.contains_key(name) ==> shown.len() == 0
                &&& registry.providers.contains_key(name) ==> shown.len()
                    == registry.providers[name].len() && (0 <= i < shown.len() ==> shown[i]
                    == source_json(registry.providers[name][i]))
            }
            &&& m["invalidation"@] == Json::Text(
                if registry.providers.contains_key(name) && registry.providers[name].len() > 0 {
                    summary(registry.providers[name][0].invalidation)
                } else {
                    "data-only"@
                },
            )
            &&& match m["in_backoff"@] {
                Json::Null => forall|k: int|
                    0 <= k < list.len() ==> (#[trigger] list[k]).provider != name,
                Json::Object(b) => exists|k: int|
                    {
                        &&& 0 <= k < list.len()
                        &&& (#[trigger] list[k]).provider == name
                        &&& b.dom() == set!["stage"@, "elapsed_secs"@]
                        &&& b["stage"@] == Json::Text(list[k].stage)
                        &&& b["elapsed_secs"@] == Json::Number(Number::PosInt(list[k].elapsed_secs))
                        &&& forall|n: int|
                            0 <= n < list.len() && (#[trigger] list[n]).provider == name
                                ==> list[n].elapsed_secs <= list[k].elapsed_secs
                    },
                _ => false,
            }
        },
{
    lemma_provider_members();
    law_worst_lasts_longest(list, name);
    let k = worst_index(list, name);
    if k >= 0 {
        assert(list[k].provider == name);
    }
}

/// What is said of a source: its name, its scope, each declared field with its type
/// in order, and its refresh strategy.
pub proof fn law_report_on_one_source(s: SourceView, i: int)
    ensures
        source_json(s) matches Json::Object(m) && {
            &&& m.dom() == set!["name"@, "scope"@, "fields"@, "invalidation"@]
            &&& m["name"@] == Json::Text(s.name)
            &&& m["scope"@] == Json::Text(
                if s.scope == SourceScope::PathScoped {
                    "path"@
                } else {
                    "global"@
                },
            )
            &&& m["invalidation"@] == Json::Text(summary(s.invalidation))
            &&& m["fields"@] matches Json::Array(shown) && shown.len() == s.fields.len() && (0 <= i
                < shown.len() ==> (shown[i] matches Json::Object(f) && f.dom() == set!["name"@, "type"@] && f["name"@] == Json::Text(
                s.fields[i].name,
            ) && f["type"@] == Json::Text(
                match s.fields[i].field_type {
                    FieldType::String => "string"@,
                    FieldType::Int => "int"@,
                    FieldType::Bool => "bool"@,
                    FieldType::Float => "float"@,
                    FieldType::Object => "object"@,
                },
            )))
        },
{
    lemma_provider_members();
    if 0 <= i < s.fields.len() {
        assert(s.fields.map_values(|f: FieldView| field_json(f))[i] == field_json(s.fields[i]));
    }
}

/// How a refresh strategy is summed up: a source that is only polled by its interval,
/// one that is watched by its patterns, or by its having none, and one that is both by
/// both.
pub proof fn law_summary_of_a_strategy(patterns: Seq<Seq<char>>, secs: u64)
    ensures
        summary(InvalidationView::Poll(secs)) == "poll "@ + decimal(secs as nat) + "s"@,
        patterns.len() == 0 ==> summary(InvalidationView::Watch(patterns)) == "watch (abs_paths)"@,
        patterns.len() > 0 ==> summary(InvalidationView::Watch(patterns)) == "watch "@ + join_with(
            patterns,
            ","@,
        ),
        patterns.len() == 0 ==> summary(InvalidationView::WatchAndPoll(patterns, secs))
            == "watch "@ + "(abs_paths)"@ + " + poll "@ + decimal(secs as nat) + "s"@,
        patterns.len() > 0 ==> summary(InvalidationView::WatchAndPoll(patterns, secs)) == summary(
            InvalidationView::Watch(patterns),
        ) + " + poll "@ + decimal(secs as nat) + "s"@,
{
}

/// A provider with a record is warned about, by the record that lasts longest, and
/// nobody else is: the warnings follow the names that have one.
pub proof fn law_backoff_is_warned_about(
    list: Seq<LifecycleView>,
    names: Seq<Seq<char>>,
    name: Seq<char>,
    k: int,
)
    requires
        0 <= k < list.len() ==> list[k].provider == name && forall|n: int|
            0 <= n < list.len() && (#[trigger] list[n]).provider == name && n != k ==> (n < k
                ==> list[n].elapsed_secs <= list[k].elapsed_secs) && (n > k ==> list[n].elapsed_secs
                < list[k].elapsed_secs),
    ensures
        0 <= k < list.len() ==> backoff_verdicts(list, names.push(name)) == backoff_verdicts(
            list,
            names,
        ).push(
            verdict_json(
                "WARN"@,
                name + " in backoff "@ + decimal(list[k].elapsed_secs as nat) + "s (stage="@
                    + list[k].stage + ")"@,
            ),
        ),
        (forall|n: int| 0 <= n < list.len() ==> (#[trigger] list[n]).provider != name)
            ==> backoff_verdicts(list, names.push(name)) == backoff_verdicts(list, names),
        backoff_verdicts(list, Seq::empty()).len() == 0,
{
    assert(names.push(name).drop_last() =~= names);
    law_worst_lasts_longest(list, name);
    let w = worst_index(list, name);
    if 0 <= k < list.len() {
        assert(list[k].provider == name);
        assert(w >= 0);
        assert(list[w].provider == name);
        assert(w == k);
    }
}

/// The names of a report are those that are known, each once and in ascending order.
pub proof fn law_names_of_a_report(registry: RegistryView, names: Seq<Seq<char>>, n: Seq<char>)
    requires
        sorted_names(registry, names),
    ensures
        names.contains(n) <==> registry.providers.contains_key(n) || registry.virtuals.contains(n),
        forall|i: int, j: int|
            0 <= i < j < names.len() ==> #[trigger] names[i] != #[trigger] names[j] && text_le(
                names[i],
                names[j],
            ),
{
    assert(registry.is_known(n) <==> names.contains(n));
}

/// What is known of lifecycle records and timers, member by member and in order.
pub proof fn law_records_are_known_by_their_members(
    records: Seq<LifecycleInfo>,
    timers: Seq<PollTimerInfo>,
    i: int,
)
    ensures
        lifecycle_views(records).len() == records.len(),
        timer_views(timers).len() == timers.len(),
        0 <= i < records.len() ==> {
            let shown = lifecycle_views(records)[i];
            &&& shown.provider == records[i].provider@ && shown.path == opt_text(records[i].path)
            &&& shown.stage == records[i].stage@
            &&& shown.elapsed_secs == records[i].elapsed_secs
            &&& shown.record == records[i].record.model()
        },
        0 <= i < timers.len() ==> {
            let shown = timer_views(timers)[i];
            &&& shown.provider == timers[i].provider@ && shown.path == opt_text(timers[i].path)
            &&& shown.interval_secs == timers[i].interval_secs
            &&& shown.last_run_secs_ago == timers[i].last_run_secs_ago
            &&& shown.record == timers[i].record.model()
        },
{
}

/// The report of a server on the daemon shows the server's own counts.
pub proof fn law_daemon_report_of_a_server<S, H, W, R>(
    server: Server<S, H, W, R>,
    status: Option<SchedulerStatus>,
    around: Surroundings,
    now: u128,
    r: Response,
)
    requires
        call_ensures(
            Server::<S, H, W, R>::introspect,
            (&server, IntrospectSubject::Daemon, &status, &around, now),
            r,
        ),
    ensures
        r@.ok && r@.error is None && r@.age_ms == Some(0u128) && r@.stale == Some(false),
        r@.data matches Some(Json::Object(m)) && {
            &&& m["pid"@] == Json::Number(Number::PosInt(around.pid as u64))
            &&& m["version"@] == Json::Text(around.version@)
            &&& m["socket_path"@] == Json::Text(server.socket_path@)
            &&& m["requests_total"@] == Json::Number(Number::PosInt(server.requests_total))
            &&& m["cache_entries"@] == Json::Number(
                Number::PosInt(server.cache@.entries.len() as u64),
            )
            &&& m["active_watchers"@] == Json::Number(Number::PosInt(around.active_watchers))
            &&& m["in_flight"@] == Json::Number(
                Number::PosInt(
                    match status {
                        Some(s) => s.in_flight,
                        None => 0,
                    },
                ),
            )
            &&& m["watch_backend"@] == Json::Text(
                match status {
                    Some(s) => s.watch_backend@,
                    None => "unknown"@,
                },
            )
            &&& m.contains_key("reaper"@) <==> around.reaper is Some
            &&& around.reaper matches Some(h) ==> m["reaper"@] == reaper_json(h)
        },
{
    lemma_daemon_members();
    let facts = choose|facts: DaemonFacts| #[trigger]
        server.described_by(status, around, now, facts) && r@.data == Some(daemon_json(facts));
}

/// The report of a server on the providers lists every name that the server knows,
/// with the records that its scheduler has.
pub proof fn law_providers_report_of_a_server<S, H, W, R>(
    server: Server<S, H, W, R>,
    status: Option<SchedulerStatus>,
    around: Surroundings,
    now: u128,
    r: Response,
    name: Seq<char>,
)
    requires
        call_ensures(
            Server::<S, H, W, R>::introspect,
            (&server, IntrospectSubject::Providers, &status, &around, now),
            r,
        ),
        server.registry@.providers.contains_key(name) || server.registry@.virtuals.contains(name),
    ensures
        r@.ok && r@.error is None && r@.age_ms == Some(0u128) && r@.stale == Some(false),
        r@.data matches Some(Json::Object(m)) && m["providers"@] matches Json::Array(shown)
            && shown.contains(
            provider_json(
                server.registry@,
                match status {
                    Some(s) => lifecycle_views(s.lifecycle@),
                    None => Seq::empty(),
                },
                name,
            ),
        ),
{
    lemma_list_members();
    let list = match status {
        Some(s) => lifecycle_views(s.lifecycle@),
        None => Seq::empty(),
    };
    let names = choose|names: Seq<Seq<char>>| #[trigger]
        sorted_names(server.registry@, names) && r@.data == Some(
            providers_json(server.registry@, list, names),
        );
    let shown = names.map_values(|n: Seq<char>| provider_json(server.registry@, list, n));
    assert(server.registry@.is_known(name) <==> names.contains(name));
    let i = choose|i: int| 0 <= i < names.len() && names[i] == name;
    assert(shown[i] == provider_json(server.registry@, list, name));
}

/// The warnings about overdue timers come in the order of the timers, one for each.
pub proof fn law_overdue_timers_are_told_in_order(
    list: Vec<PollTimerInfo>,
    before: Seq<TimerView>,
    t: TimerView,
    r: Response,
)
    requires
        call_ensures(handle_introspect_timers, (&list,), r),
    ensures
        r@.data matches Some(Json::Object(m)) && m["verdicts"@] == Json::Array(
            seq![verdict_json("PASS"@, decimal(list@.len()) + " poll timers"@)]
                + overdue_verdicts(timer_views(list@)),
        ),
        overdue_verdicts(Seq::empty()).len() == 0,
        t.interval_secs > 0 && t.last_run_secs_ago > 2 * t.interval_secs ==> overdue_verdicts(
            before.push(t),
        ) == overdue_verdicts(before).push(
            verdict_json(
                "WARN"@,
                (match t.path {
                    Some(p) => t.provider + " ("@ + p + ")"@,
                    None => t.provider,
                }) + " overdue (interval="@ + decimal(t.interval_secs as nat) + "s, last="@
                    + decimal(t.last_run_secs_ago as nat) + "s ago)"@,
            ),
        ),
        !(t.interval_secs > 0 && t.last_run_secs_ago > 2 * t.interval_secs) ==> overdue_verdicts(
            before.push(t),
        ) == overdue_verdicts(before),
{
    lemma_list_members();
    reveal(Seq::filter);
    assert(before.push(t).drop_last() =~= before);
}

/// The whole report on the providers: the known names in ascending order, what is
/// said of each in that order, and after their number the warnings about those that
/// have a record.
pub proof fn law_whole_report_on_the_providers<S>(
    registry: ProviderRegistry<S>,
    list: Vec<LifecycleInfo>,
    r: Response,
) -> (names: Seq<Seq<char>>)
    requires
        call_ensures(handle_introspect_providers::<S>, (&registry, &list), r),
    ensures
        forall|n: Seq<char>| #[trigger]
            names.contains(n) <==> registry@.providers.contains_key(n)
                || registry@.virtuals.contains(n),
        forall|i: int, j: int|
            0 <= i < j < names.len() ==> #[trigger] names[i] != #[trigger] names[j] && text_le(
                names[i],
                names[j],
            ),
        r@.data matches Some(Json::Object(m)) && {
            &&& m.dom() == set!["providers"@, "verdicts"@]
            &&& m["providers"@] matches Json::Array(shown) && shown.len() == names.len()
                && forall|i: int|
                0 <= i < names.len() ==> #[trigger] shown[i] == provider_json(
                    registry@,
                    lifecycle_views(list@),
                    names[i],
                )
            &&& m["verdicts"@] == Json::Array(
                seq![verdict_json("PASS"@, decimal(names.len()) + " providers registered"@)]
                    + backoff_verdicts(lifecycle_views(list@), names),
            )
        },
{
    lemma_list_members();
    let names = choose|names: Seq<Seq<char>>| #[trigger]
        sorted_names(registry@, names) && r@.data == Some(
            providers_json(registry@, lifecycle_views(list@), names),
        );
    assert forall|n: Seq<char>| #[trigger] names.contains(n) <==> registry@.providers.contains_key(
        n,
    ) || registry@.virtuals.contains(n) by {
        assert(registry@.is_known(n) <==> names.contains(n));
    }
    names
}

} // verus!
