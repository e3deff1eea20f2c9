//! What holds of the calls that change what a server holds, stated of the values
//! before and after a call.

use vstd::prelude::*;

use crate::cache::{
    law_put_keeps_other_slots, law_read_after_put, law_without, Cache, SourceEntryView,
};
use crate::get::{runner, store_execution, Execution, StepView};
use crate::protocol::{IntrospectSubject, Request, Response};
use crate::provider::{
    distinct_names, law_one_meaning, law_registered_is_viewed, law_source_is_found_by_name,
    law_sources_are_viewed_one_by_one, source_views, InvalidationView, ProviderRegistry,
    RegisterError, RegisteredSource, Source, SourceScope,
};
use crate::query::{law_parse_keeps_the_key, may_resolve, metadata_split};
use crate::report::sample_secs;
use crate::server::{
    law_only_white_space_is_trimmed, law_read_is_handled, law_request_is_trimmed, request_line,
    white_space, Handled, Identity, LineStep, RefreshMessage, Server, ServerConfig,
};
use crate::text::{opt_str, opt_text, split_on};
use crate::value::{fields_model, Json, Number, Value};
use crate::watch::{Watch, WatchPhase};

verus! {

/// Every line that parses counts as one request, whatever it asks for, and a line that
/// does not is answered with what is wrong with it. Only the count changes.
pub proof fn law_requests_are_counted<S, H, W, R>(
    parsed: Result<Request, String>,
    step: LineStep,
)
    ensures
        forall|server: &mut Server<S, H, W, R>| #[trigger]
            call_ensures(Server::<S, H, W, R>::accept_line, (server, parsed), step) ==> {
                &&& parsed is Ok && server.requests_total < u64::MAX
                    ==> final(server).requests_total == server.requests_total + 1
                &&& parsed is Ok && server.requests_total == u64::MAX
                    ==> final(server).requests_total == 0
                &&& parsed is Err ==> final(server).requests_total == server.requests_total
                &&& final(server).cache == server.cache && final(server).registry
                    == server.registry
                &&& final(server).scheduler == server.scheduler && final(server).watchers
                    == server.watchers
                &&& final(server).socket_path == server.socket_path && final(server).start_ms
                    == server.start_ms
                &&& final(server).config == server.config && final(server).reaper
                    == server.reaper
            },
        forall|server: &mut Server<S, H, W, R>| #[trigger]
            call_ensures(Server::<S, H, W, R>::accept_line, (server, parsed), step) ==> match parsed {
                Ok(Request::Watch { key, path }) => step == LineStep::Watch(key, path),
                Ok(request) => step == LineStep::Handle(request),
                Err(e) => step matches LineStep::Reply(r) && !r@.ok && r@.data is None && r@.error
                    == Some("invalid request: "@ + e@),
            },
{
}

/// What a request leaves alone. Nothing but the cache and the registry of a server ever
/// changes, and those only by a request to store; a read may drop what is cached.
/// Setting a default path lasts for the connection, and nothing else sets one.
pub proof fn law_requests_change_little<S: Source, H, W, R>(
    request: Request,
    canonical: Option<&str>,
    ttl_secs: Option<u64>,
    identity: Identity,
    now: u128,
    handled: Handled,
)
    ensures
        forall|server: &mut Server<S, H, W, R>, context: &mut Option<String>| #[trigger]
            call_ensures(
                Server::<S, H, W, R>::handle_request,
                (server, &request, context, canonical, ttl_secs, &identity, now),
                handled,
            ) ==> {
                &&& final(server).requests_total == server.requests_total
                &&& final(server).scheduler == server.scheduler && final(server).watchers
                    == server.watchers
                &&& final(server).socket_path == server.socket_path && final(server).start_ms
                    == server.start_ms
                &&& final(server).config == server.config && final(server).reaper
                    == server.reaper
                &&& !(request is Put) ==> final(server).registry == server.registry
                &&& !(request is Put) && !(request is Get) ==> final(server).cache == server.cache
                &&& request matches Request::Context { path } ==> *final(context) is Some
                    && final(context)->0@ == path@
                &&& !(request is Context) ==> *final(context) == *context
            },
{
}

/// What the requests are answered that neither read nor store: setting a default path is
/// confirmed, a greeting gets the versions, a report is made on its subject, and
/// processes are sampled for the time that is asked for, otherwise for two seconds.
pub proof fn law_simple_requests_are_answered<S: Source, H, W, R>(
    request: Request,
    canonical: Option<&str>,
    ttl_secs: Option<u64>,
    identity: Identity,
    now: u128,
    handled: Handled,
)
    ensures
        forall|server: &mut Server<S, H, W, R>, context: &mut Option<String>| #[trigger]
            call_ensures(
                Server::<S, H, W, R>::handle_request,
                (server, &request, context, canonical, ttl_secs, &identity, now),
                handled,
            ) ==> match request {
                Request::Context { .. } => handled matches Handled::Reply(r) && r@.ok
                    && r@.data is None && r@.error is None,
                Request::Hello => handled matches Handled::Reply(r) && r@.ok && r@.error is None
                    && r@.age_ms == Some(0u128) && r@.stale == Some(false) && (r@.data
                    matches Some(Json::Object(m)) && m.dom() == set![
                    "protocol_version"@,
                    "daemon_version"@,
                ] && m["protocol_version"@] == Json::Number(
                    Number::PosInt(identity.protocol_version),
                ) && m["daemon_version"@] == Json::Text(identity.daemon_version@)),
                Request::Status => handled is Status,
                Request::Introspect { subject: IntrospectSubject::Procs, duration_secs } => {
                    handled == Handled::Procs(
                        match duration_secs {
                            Some(secs) => secs,
                            None => 2,
                        },
                    )
                },
                Request::Introspect { subject, .. } => handled == Handled::Introspect(subject),
                _ => true,
            },
        forall|asked: Option<u64>, secs: u64| #[trigger]
            call_ensures(sample_secs, (asked,), secs) ==> secs == match asked {
                Some(n) => n,
                None => 2,
            },
{
    reveal_strlit("protocol_version");
    reveal_strlit("daemon_version");
    assert("protocol_version"@.len() != "daemon_version"@.len());
}

/// A refresh goes to the scheduler if there is one, for the provider that its key begins
/// with. Without one it is confirmed for a known provider and refused for any other.
pub proof fn law_refresh_is_answered<S: Source, H, W, R>(
    key: String,
    path: Option<String>,
    canonical: Option<&str>,
    ttl_secs: Option<u64>,
    identity: Identity,
    now: u128,
    handled: Handled,
)
    ensures
        forall|server: &mut Server<S, H, W, R>, context: &mut Option<String>| #[trigger]
            call_ensures(
                Server::<S, H, W, R>::handle_request,
                (
                    server,
                    &Request::Refresh { key, path },
                    context,
                    canonical,
                    ttl_secs,
                    &identity,
                    now,
                ),
                handled,
            ) ==> {
                let p = split_on(key@, '.')[0];
                let known = server.registry@.providers.contains_key(p)
                    || server.registry@.virtuals.contains(p);
                &&& server.scheduler is Some ==> (handled matches Handled::Refresh(message, r)
                    && message.provider@ == p && r@.ok && r@.data is None && r@.error is None)
                &&& server.scheduler is None && known ==> (handled matches Handled::Reply(r)
                    && r@.ok && r@.data is None && r@.error is None)
                &&& server.scheduler is None && !known ==> (handled matches Handled::Reply(r)
                    && !r@.ok && r@.data is None && r@.error == Some("unknown provider: "@ + p))
            },
{
}

/// Storing an object through a server: from then on the name is known and its data is
/// cached as one source, at the canonical form of the path of the request or at the path
/// itself, fresh for the given time, and never at the path of the connection. Other slots
/// are left alone. A name that a provider has, and data that is no object, are refused,
/// and nothing changes.
pub proof fn law_storing_through_a_server<S: Source, H, W, R>(
    key: String,
    data: Option<Value>,
    ttl: Option<String>,
    path: Option<String>,
    canonical: Option<&str>,
    ttl_secs: Option<u64>,
    identity: Identity,
    now: u128,
    handled: Handled,
    other: Seq<char>,
    other_path: Option<Seq<char>>,
)
    ensures
        forall|server: &mut Server<S, H, W, R>, context: &mut Option<String>| #[trigger]
            call_ensures(
                Server::<S, H, W, R>::handle_request,
                (
                    server,
                    &Request::Put { key, data, ttl, path },
                    context,
                    canonical,
                    ttl_secs,
                    &identity,
                    now,
                ),
                handled,
            ) && server.cache@.distinct() ==> {
                let slot = match path {
                    Some(p) => Some(
                        match canonical {
                            Some(c) => c@,
                            None => p@,
                        },
                    ),
                    None => None,
                };
                let before = server.cache@;
                let after = final(server).cache@;
                let taken = server.registry@.providers.contains_key(key@);
                &&& !taken && (data matches Some(Value::Object(_))) ==> {
                    &&& handled matches Handled::Reply(r) && r@.ok && r@.error is None
                    &&& final(server).registry@.virtuals == server.registry@.virtuals.insert(key@)
                    &&& final(server).registry@.providers == server.registry@.providers
                    &&& after.source(key@, slot, "virtual"@) matches Some(e) && e.refreshed_ms
                        == now && e.interval_secs == ttl_secs && Json::Object(e.fields)
                        == data->0.model()
                }
                &&& !taken && data is None ==> {
                    &&& handled matches Handled::Reply(r) && r@.ok && r@.error is None
                    &&& final(server).registry@ == server.registry@
                    &&& after.entry(key@, slot) is None
                }
                &&& other != key@ || other_path != slot ==> after.entry(other, other_path)
                    == before.entry(other, other_path)
                &&& taken || (data is Some && !(data matches Some(Value::Object(_)))) ==> {
                    &&& handled matches Handled::Reply(r) && !r@.ok && r@.error is Some
                    &&& final(server).registry@ == server.registry@ && after == before
                }
            },
{
    assert forall|server: &mut Server<S, H, W, R>, context: &mut Option<String>| #[trigger]
        call_ensures(
            Server::<S, H, W, R>::handle_request,
            (
                server,
                &Request::Put { key, data, ttl, path },
                context,
                canonical,
                ttl_secs,
                &identity,
                now,
            ),
            handled,
        ) && server.cache@.distinct() implies {
        let slot = match path {
            Some(p) => Some(
                match canonical {
                    Some(c) => c@,
                    None => p@,
                },
            ),
            None => None,
        };
        let before = server.cache@;
        let after = final(server).cache@;
        let taken = server.registry@.providers.contains_key(key@);
        &&& !taken && (data matches Some(Value::Object(_))) ==> {
            &&& handled matches Handled::Reply(r) && r@.ok && r@.error is None
            &&& final(server).registry@.virtuals == server.registry@.virtuals.insert(key@)
            &&& final(server).registry@.providers == server.registry@.providers
            &&& after.source(key@, slot, "virtual"@) matches Some(e) && e.refreshed_ms == now
                && e.interval_secs == ttl_secs && Json::Object(e.fields) == data->0.model()
        }
        &&& !taken && data is None ==> {
            &&& handled matches Handled::Reply(r) && r@.ok && r@.error is None
            &&& final(server).registry@ == server.registry@
            &&& after.entry(key@, slot) is None
        }
        &&& other != key@ || other_path != slot ==> after.entry(other, other_path)
            == before.entry(other, other_path)
        &&& taken || (data is Some && !(data matches Some(Value::Object(_)))) ==> {
            &&& handled matches Handled::Reply(r) && !r@.ok && r@.error is Some
            &&& final(server).registry@ == server.registry@ && after == before
        }
    } by {
        let slot = match path {
            Some(p) => Some(
                match canonical {
                    Some(c) => c@,
                    None => p@,
                },
            ),
            None => None,
        };
        let before = server.cache@;
        if let Some(Value::Object(f)) = data {
            let e = SourceEntryView {
                name: "virtual"@,
                fields: fields_model(f@),
                refreshed_ms: now,
                interval_secs: ttl_secs,
            };
            law_read_after_put(before, key@, slot, e);
            if other != key@ || other_path != slot {
                law_put_keeps_other_slots(before, key@, slot, e, other, other_path);
            }
        }
        law_without(before, key@, slot, other, other_path);
        law_without(before, key@, slot, key@, slot);
    }
}

/// What a source produced is recorded exactly if the source is registered, can run, and
/// produced something. It is cached at the path asked for, or at none if the source is
/// global, with the interval at which it is polled. Nothing else in the cache changes.
pub proof fn law_what_a_source_produced_is_recorded<S>(
    registry: ProviderRegistry<S>,
    provider: &str,
    source: &str,
    path: Option<&str>,
    fields: Option<Vec<(String, Value)>>,
    now: u128,
    recorded: bool,
    other: Seq<char>,
    other_path: Option<Seq<char>>,
)
    ensures
        forall|cache: &mut Cache| #[trigger]
            call_ensures(
                store_execution::<S>,
                (cache, &registry, provider, source, path, fields, now),
                recorded,
            ) && cache@.distinct() ==> {
                let declared = registry@.source(provider@, source@);
                let global = declared matches Some(s) && s.scope == SourceScope::Global;
                let slot = if global {
                    None
                } else {
                    opt_str(path)
                };
                &&& recorded <==> declared is Some && (global || path is Some) && (fields
                    matches Some(f) && fields_model(f@) != Map::<Seq<char>, Json>::empty())
                &&& !recorded ==> final(cache)@ == cache@
                &&& recorded ==> (final(cache)@.source(provider@, slot, source@) matches Some(e)
                    && e.fields == fields_model(fields->0@) && e.refreshed_ms == now
                    && e.interval_secs == match declared->0.invalidation {
                    InvalidationView::Poll(secs) => Some(secs),
                    InvalidationView::WatchAndPoll(_, secs) => Some(secs),
                    InvalidationView::Watch(_) => None,
                })
                &&& other != provider@ || other_path != slot ==> final(cache)@.entry(
                    other,
                    other_path,
                ) == cache@.entry(other, other_path)
            },
{
    let declared = registry@.source(provider@, source@);
    let global = declared matches Some(s) && s.scope == SourceScope::Global;
    let slot = if global {
        None
    } else {
        opt_str(path)
    };
    assert forall|cache: &mut Cache| #[trigger]
        call_ensures(
            store_execution::<S>,
            (cache, &registry, provider, source, path, fields, now),
            recorded,
        ) && cache@.distinct() implies {
        &&& recorded <==> declared is Some && (global || path is Some) && (fields matches Some(f)
            && fields_model(f@) != Map::<Seq<char>, Json>::empty())
        &&& !recorded ==> final(cache)@ == cache@
        &&& recorded ==> (final(cache)@.source(provider@, slot, source@) matches Some(e)
            && e.fields == fields_model(fields->0@) && e.refreshed_ms == now && e.interval_secs
            == match declared->0.invalidation {
            InvalidationView::Poll(secs) => Some(secs),
            InvalidationView::WatchAndPoll(_, secs) => Some(secs),
            InvalidationView::Watch(_) => None,
        })
        &&& other != provider@ || other_path != slot ==> final(cache)@.entry(other, other_path)
            == cache@.entry(other, other_path)
    } by {
        if let Some(f) = fields {
            if let Some(s) = declared {
                let e = SourceEntryView {
                    name: source@,
                    fields: fields_model(f@),
                    refreshed_ms: now,
                    interval_secs: match s.invalidation {
                        InvalidationView::Poll(secs) => Some(secs),
                        InvalidationView::WatchAndPoll(_, secs) => Some(secs),
                        InvalidationView::Watch(_) => None,
                    },
                };
                law_read_after_put(cache@, provider@, slot, e);
                if other != provider@ || other_path != slot {
                    law_put_keeps_other_slots(cache@, provider@, slot, e, other, other_path);
                }
            }
        }
    }
}

/// Caching a source: reading it gives back what was cached, and no other slot changes.
pub proof fn law_cached_source_is_read_back(
    provider: &str,
    path: Option<&str>,
    source: &str,
    fields: Vec<(String, Value)>,
    interval_secs: Option<u64>,
    now: u128,
    other: Seq<char>,
    other_path: Option<Seq<char>>,
)
    ensures
        forall|cache: &mut Cache| #[trigger]
            call_ensures(
                Cache::put_source,
                (cache, provider, path, source, fields, interval_secs, now),
                (),
            ) && cache@.distinct() ==> {
                &&& final(cache)@.source(provider@, opt_str(path), source@) == Some(
                    SourceEntryView {
                        name: source@,
                        fields: fields_model(fields@),
                        refreshed_ms: now,
                        interval_secs,
                    },
                )
                &&& other != provider@ || other_path != opt_str(path) ==> final(cache)@.entry(
                    other,
                    other_path,
                ) == cache@.entry(other, other_path)
            },
        forall|cache: &mut Cache| #[trigger]
            call_ensures(Cache::remove, (cache, provider, path), ()) && cache@.distinct() ==> {
                &&& final(cache)@.entry(provider@, opt_str(path)) is None
                &&& other != provider@ || other_path != opt_str(path) ==> final(cache)@.entry(
                    other,
                    other_path,
                ) == cache@.entry(other, other_path)
            },
{
    let slot = opt_str(path);
    let e = SourceEntryView {
        name: source@,
        fields: fields_model(fields@),
        refreshed_ms: now,
        interval_secs,
    };
    assert forall|cache: &mut Cache| #[trigger]
        call_ensures(
            Cache::put_source,
            (cache, provider, path, source, fields, interval_secs, now),
            (),
        ) && cache@.distinct() implies {
        &&& final(cache)@.source(provider@, slot, source@) == Some(e)
        &&& other != provider@ || other_path != slot ==> final(cache)@.entry(other, other_path)
            == cache@.entry(other, other_path)
    } by {
        law_read_after_put(cache@, provider@, slot, e);
        if other != provider@ || other_path != slot {
            law_put_keeps_other_slots(cache@, provider@, slot, e, other, other_path);
        }
    }
    assert forall|cache: &mut Cache| #[trigger]
        call_ensures(Cache::remove, (cache, provider, path), ()) && cache@.distinct() implies {
        &&& final(cache)@.entry(provider@, slot) is None
        &&& other != provider@ || other_path != slot ==> final(cache)@.entry(other, other_path)
            == cache@.entry(other, other_path)
    } by {
        law_without(cache@, provider@, slot, provider@, slot);
        law_without(cache@, provider@, slot, other, other_path);
    }
}

/// Registering a provider succeeds exactly if its name is not known yet and no two of its
/// sources have one name. From then on it is known with these sources, in order; what was
/// registered before stays.
pub proof fn law_registration<S>(
    name: String,
    sources: Vec<RegisteredSource<S>>,
    outcome: Result<(), RegisterError>,
    other: Seq<char>,
)
    ensures
        forall|registry: &mut ProviderRegistry<S>| #[trigger]
            call_ensures(
                ProviderRegistry::<S>::register,
                (registry, name, sources),
                outcome,
            ) ==> {
                let known = registry@.providers.contains_key(name@)
                    || registry@.virtuals.contains(name@);
                let twice = exists|i: int, j: int|
                    0 <= i < j < sources@.len() && (#[trigger] sources@[i]).meta.name@ == (
                    #[trigger] sources@[j]).meta.name@;
                &&& known ==> outcome == Err::<(), RegisterError>(RegisterError::NameTaken)
                &&& !known && twice ==> outcome == Err::<(), RegisterError>(
                    RegisterError::DuplicateSource,
                )
                &&& !known && !twice ==> outcome is Ok
                &&& outcome is Ok ==> {
                    &&& final(registry)@.providers.contains_key(name@)
                    &&& final(registry)@.providers[name@].len() == sources@.len()
                    &&& forall|i: int|
                        0 <= i < sources@.len() ==> #[trigger] final(registry)@.providers[name@][i]
                            == sources@[i]@
                    &&& final(registry).registered(name@) == sources@
                }
                &&& outcome is Err ==> final(registry)@ == registry@
                &&& final(registry)@.virtuals == registry@.virtuals
                &&& registry@.providers.contains_key(other) ==> {
                    &&& final(registry)@.providers.contains_key(other)
                    &&& final(registry)@.providers[other] == registry@.providers[other]
                    &&& final(registry).registered(other) == registry.registered(other)
                }
                &&& other != name@ && !registry@.providers.contains_key(other)
                    ==> !final(registry)@.providers.contains_key(other)
            },
{
    let views = source_views(sources@);
    assert forall|i: int| 0 <= i < sources@.len() implies #[trigger] views[i] == sources@[i]@ by {}
    assert(distinct_names(views) <==> !(exists|i: int, j: int|
        0 <= i < j < sources@.len() && (#[trigger] sources@[i]).meta.name@ == (
        #[trigger] sources@[j]).meta.name@)) by {
        if distinct_names(views) {
            assert forall|i: int, j: int| 0 <= i < j < sources@.len() implies (
            #[trigger] sources@[i]).meta.name@ != (#[trigger] sources@[j]).meta.name@ by {
                assert(views[i].name != views[j].name);
            }
        }
    }
}

/// Making a name known as one of stored data adds that name and nothing else.
pub proof fn law_stored_names_are_added<S>(name: &str, other: Seq<char>)
    ensures
        forall|registry: &mut ProviderRegistry<S>| #[trigger]
            call_ensures(ProviderRegistry::<S>::register_virtual, (registry, name), ()) ==> {
                &&& final(registry)@.virtuals.contains(name@)
                &&& other != name@ ==> (final(registry)@.virtuals.contains(other)
                    <==> registry@.virtuals.contains(other))
                &&& final(registry)@.providers == registry@.providers
                &&& final(registry).registered(other) == registry.registered(other)
            },
{
}

/// The running side of a source that is to run is the one registered under its name.
pub proof fn law_registered_source_is_run<S>(
    registry: ProviderRegistry<S>,
    execution: Execution,
    found: Option<&S>,
    i: int,
)
    requires
        call_ensures(runner::<S>, (&registry, &execution), found),
        registry.wf(),
        registry@.providers.contains_key(execution.provider@),
        0 <= i < registry.registered(execution.provider@).len(),
        registry.registered(execution.provider@)[i].meta.name@ == execution.source@,
    ensures
        found == Some(&registry.registered(execution.provider@)[i].handle),
{
    let p = execution.provider@;
    law_registered_is_viewed(registry, p);
    law_sources_are_viewed_one_by_one(registry.registered(p));
    assert(registry@.providers[p][i].name == execution.source@);
    law_one_meaning(registry, p);
    law_source_is_found_by_name(registry@, p, execution.source@, i);
}

/// The path that a request asks for: its own, otherwise that of its connection, in
/// canonical form if there is one.
pub open spec fn path_asked_for(
    path: Option<String>,
    context: Option<String>,
    canonical: Option<&str>,
) -> Option<Seq<char>> {
    let given = match path {
        Some(p) => Some(p@),
        None => match context {
            Some(c) => Some(c@),
            None => None,
        },
    };
    match canonical {
        Some(c) => if given is Some {
            Some(c@)
        } else {
            None
        },
        None => given,
    }
}

/// Reading through a server. An unknown provider is refused, and so is forcing stored
/// data; any other read is made known to the scheduler, if there is one, with the provider
/// and a path that its key resolves to. The cache changes only if the read forces or
/// waits, and stored data never leaves it.
pub proof fn law_reading_through_a_server<S: Source, H, W, R>(
    key: String,
    path: Option<String>,
    force: bool,
    wait: bool,
    canonical: Option<&str>,
    ttl_secs: Option<u64>,
    identity: Identity,
    now: u128,
    handled: Handled,
)
    ensures
        forall|server: &mut Server<S, H, W, R>, context: &mut Option<String>| #[trigger]
            call_ensures(
                Server::<S, H, W, R>::handle_request,
                (
                    server,
                    &Request::Get { key, path, force, wait },
                    context,
                    canonical,
                    ttl_secs,
                    &identity,
                    now,
                ),
                handled,
            ) && server.cache@.distinct() ==> {
                let base = metadata_split(key@).0;
                let p = split_on(base, '.')[0];
                let stored_data = server.registry@.virtuals.contains(p);
                let known = server.registry@.providers.contains_key(p) || stored_data;
                let asked = path_asked_for(path, *context, canonical);
                &&& handled is Get
                &&& !known ==> (handled->Get_0@ matches StepView::Reply(r) && !r.ok
                    && r.data is None && r.error == Some("unknown provider: "@ + p))
                &&& known && force && stored_data ==> (handled->Get_0@ matches StepView::Reply(r)
                    && !r.ok && r.data is None && r.error == Some(
                    "cannot --force virtual provider '"@ + p
                        + "': no source to re-execute from"@,
                ))
                &&& known && !(force && stored_data) && server.scheduler is Some
                    ==> (handled->Get_0@ matches StepView::Demand(activity, plan)
                    && activity.provider == p && plan.provider == p && activity.path
                    == plan.effective_path && activity.demand == plan.demand && may_resolve(
                    base,
                    asked,
                    server.registry,
                    activity.path,
                ))
                &&& !known || stored_data || (!force && !wait) ==> final(server).cache@
                    == server.cache@
            },
{
    assert forall|server: &mut Server<S, H, W, R>, context: &mut Option<String>| #[trigger]
        call_ensures(
            Server::<S, H, W, R>::handle_request,
            (
                server,
                &Request::Get { key, path, force, wait },
                context,
                canonical,
                ttl_secs,
                &identity,
                now,
            ),
            handled,
        ) && server.cache@.distinct() implies {
        let base = metadata_split(key@).0;
        let p = split_on(base, '.')[0];
        let stored_data = server.registry@.virtuals.contains(p);
        let known = server.registry@.providers.contains_key(p) || stored_data;
        let asked = path_asked_for(path, *context, canonical);
        &&& handled is Get
        &&& !known ==> (handled->Get_0@ matches StepView::Reply(r) && !r.ok && r.data is None
            && r.error == Some("unknown provider: "@ + p))
        &&& known && force && stored_data ==> (handled->Get_0@ matches StepView::Reply(r) && !r.ok
            && r.data is None && r.error == Some(
            "cannot --force virtual provider '"@ + p + "': no source to re-execute from"@,
        ))
        &&& known && !(force && stored_data) && server.scheduler is Some
            ==> (handled->Get_0@ matches StepView::Demand(activity, plan) && activity.provider == p
            && plan.provider == p && activity.path == plan.effective_path && activity.demand
            == plan.demand && may_resolve(base, asked, server.registry, activity.path))
        &&& !known || stored_data || (!force && !wait) ==> final(server).cache@ == server.cache@
    } by {
        let asked = path_asked_for(path, *context, canonical);
        if let Handled::Get(step) = handled {
            let resolved = law_read_is_handled(
                key@,
                asked,
                force,
                wait,
                server.scheduler is Some,
                server.registry,
                server.cache@,
                now,
                step@,
                final(server).cache@,
            );
            let base = metadata_split(key@).0;
            law_parse_keeps_the_key(base, server.registry@);
        }
    }
}

/// A refresh that goes to the scheduler takes along a path that its key resolves to.
pub proof fn law_refresh_takes_its_path_along<S: Source, H, W, R>(
    key: String,
    path: Option<String>,
    canonical: Option<&str>,
    ttl_secs: Option<u64>,
    identity: Identity,
    now: u128,
    message: RefreshMessage,
    r: Response,
)
    ensures
        forall|server: &mut Server<S, H, W, R>, context: &mut Option<String>| #[trigger]
            call_ensures(
                Server::<S, H, W, R>::handle_request,
                (
                    server,
                    &Request::Refresh { key, path },
                    context,
                    canonical,
                    ttl_secs,
                    &identity,
                    now,
                ),
                Handled::Refresh(message, r),
            ) ==> may_resolve(
                key@,
                path_asked_for(path, *context, canonical),
                server.registry,
                opt_text(message.path),
            ),
{
}

/// A stream that a server opens has not begun. It follows the plan of its key at a path
/// that the key resolves to, and tells the scheduler if there is one.
pub proof fn law_opened_stream_is_new<S: Source, H, W, R>(
    server: Server<S, H, W, R>,
    key: &str,
    asked: Option<&str>,
    canonical: Option<&str>,
    watch: Watch,
)
    requires
        call_ensures(Server::<S, H, W, R>::open_watch, (&server, key, asked, canonical), watch),
    ensures
        watch@.phase == WatchPhase::New && watch@.last is None && watch@.queue.len() == 0,
        watch@.scheduler <==> server.scheduler is Some,
        watch@.plan.provider == split_on(metadata_split(key@).0, '.')[0],
        watch@.plan.meta == metadata_split(key@).1,
        may_resolve(
            metadata_split(key@).0,
            match (asked, canonical) {
                (None, _) => None,
                (Some(p), None) => Some(p@),
                (Some(_), Some(c)) => Some(c@),
            },
            server.registry,
            watch@.plan.effective_path,
        ),
{
    law_parse_keeps_the_key(metadata_split(key@).0, server.registry@);
}

/// A new server holds what it was made from, has counted nothing, and knows of no
/// reaper until it is told of one.
pub proof fn law_new_server<S, H, W, R>(
    socket_path: String,
    cache: Cache,
    registry: ProviderRegistry<S>,
    scheduler: Option<H>,
    watchers: W,
    start_ms: u128,
    config: ServerConfig,
    made: Server<S, H, W, R>,
    health: R,
    told: Server<S, H, W, R>,
)
    requires
        call_ensures(
            Server::<S, H, W, R>::new_with_config,
            (socket_path, cache, registry, scheduler, watchers, start_ms, config),
            made,
        ),
        call_ensures(Server::<S, H, W, R>::with_reaper_health, (made, health), told),
    ensures
        made.socket_path == socket_path && made.cache == cache && made.registry == registry,
        made.scheduler == scheduler && made.watchers == watchers && made.start_ms == start_ms,
        made.config == config,
        made.requests_total == 0,
        made.reaper is None,
        told.reaper == Some(health),
        told.socket_path == socket_path && told.cache == cache && told.registry == registry,
        told.scheduler == scheduler && told.watchers == watchers && told.start_ms == start_ms,
        told.config == config && told.requests_total == 0,
{
}

/// A new cache holds nothing, and a new registry knows no name.
pub proof fn law_everything_begins_empty<S>(
    cache: Cache,
    registry: ProviderRegistry<S>,
    name: Seq<char>,
    path: Option<Seq<char>>,
)
    requires
        call_ensures(Cache::new, (), cache),
        call_ensures(ProviderRegistry::<S>::new, (), registry),
    ensures
        cache@.entries.len() == 0,
        cache@.entry(name, path) is None,
        !registry@.providers.contains_key(name),
        !registry@.virtuals.contains(name),
{
}

/// A line holds a request exactly if it is not blank. The request begins and ends with
/// something other than white space, and around it the line has nothing else.
pub proof fn law_request_on_a_line(line: &str, request: Option<&str>) -> (bounds: (int, int))
    requires
        call_ensures(request_line, (line,), request),
    ensures
        request is None <==> (forall|i: int|
            0 <= i < line@.len() ==> white_space(#[trigger] line@[i])),
        request matches Some(r) ==> {
            &&& 0 <= bounds.0 < bounds.1 <= line@.len()
            &&& r@ == line@.subrange(bounds.0, bounds.1)
            &&& !white_space(line@[bounds.0]) && !white_space(line@[bounds.1 - 1])
            &&& forall|i: int|
                0 <= i < bounds.0 || bounds.1 <= i < line@.len() ==> white_space(
                    #[trigger] line@[i],
                )
        },
{
    let (a, b) = law_only_white_space_is_trimmed(line@);
    law_request_is_trimmed(line@);
    if a < b {
        assert(line@.subrange(a, b)[0] == line@[a]);
        assert(line@.subrange(a, b).last() == line@[b - 1]);
    }
    (a, b)
}

} // verus!
