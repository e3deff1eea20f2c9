//! Which sources a read runs, and what becomes of what they give.

use vstd::prelude::*;

use crate::cache::{law_put_keeps_other_slots, law_read_after_put, CacheView};
use crate::course::recorded;
use crate::get::{
    activity_view, advance_view, age_number, begin_view, candidates, execution_view, lookup_view,
    meta_view, opt_fields, origin, planned_runs, refusal, runs, start_view, stored, Activity,
    Execution, GetStep, GetView, Phase, StepView,
};
use crate::protocol::{error_view, ResponseView};
use crate::provider::{
    law_source_is_found_by_name, source_names, InvalidationView, RegistryView, SourceScope,
    SourceView,
};
use crate::query::{known_suffix, KeyView, PlanView};
use crate::text::split_on;
use crate::value::{fields_model, Json, Number, Value};

verus! {

/// The sources that run for a key are exactly those that it may be read from, that
/// are registered, and that can run: a path-scoped one needs a path. Before every
/// read only those run that are to. A whole provider may be read from all of its
/// sources, a source and its fields from that source, and a field from the sources
/// that may own it.
pub proof fn law_sources_that_run(
    registry: RegistryView,
    target: KeyView,
    path: Option<Seq<char>>,
    always: bool,
    name: Seq<char>,
)
    ensures
        planned_runs(registry, target, path, always).contains(name) <==> {
            &&& registry.source(target.provider(), name) matches Some(s) && (s.scope
                == SourceScope::Global || path is Some) && (always ==> s.read_always)
            &&& match target {
                KeyView::Provider(_) => true,
                KeyView::Source(_, s) => name == s,
                KeyView::SourceField(_, s, _) => name == s,
                KeyView::Field(p, f) => registry.owners(p, split_on(f, '.')[0]).contains(name),
            }
        },
{
    broadcast use vstd::seq_lib::group_filter_ensures;

    let all = candidates(registry, target);
    let wanted = |s: Seq<char>| runs(registry, target.provider(), s, path, always);
    let kept = planned_runs(registry, target, path, always);
    if kept.contains(name) {
        let k = choose|k: int| 0 <= k < kept.len() && kept[k] == name;
        all.lemma_filter_contains_rev(wanted, kept[k]);
        assert(wanted(kept[k]));
        let i = choose|i: int| 0 <= i < all.len() && all[i] == name;
    }
    if all.contains(name) && wanted(name) {
        let i = choose|i: int| 0 <= i < all.len() && all[i] == name;
        assert(wanted(all[i]));
        assert(kept.contains(all[i]));
    }
    match target {
        KeyView::Provider(p) => {
            if registry.source(p, name) is Some {
                law_source_is_found_by_name(registry, p, name, 0);
                let sources = registry.providers[p];
                let s = registry.source(p, name)->0;
                let i = choose|i: int| 0 <= i < sources.len() && sources[i] == s;
                assert(source_names(sources)[i] == name);
                assert(all.contains(name));
            }
        },
        KeyView::Source(_, s) => {
            assert(seq![s][0] == s);
        },
        KeyView::SourceField(_, s, _) => {
            assert(seq![s][0] == s);
        },
        KeyView::Field(_, _) => {},
    }
}

/// A cold read of a whole provider runs every one of its sources that can run at the
/// path, global ones in any case.
pub proof fn law_cold_provider_runs_every_source(
    registry: RegistryView,
    provider: Seq<char>,
    path: Option<Seq<char>>,
    i: int,
)
    requires
        registry.providers.contains_key(provider),
        0 <= i < registry.providers[provider].len(),
        forall|j: int|
            0 <= j < registry.providers[provider].len() && j != i ==> (
            #[trigger] registry.providers[provider][j]).name
                != registry.providers[provider][i].name,
        registry.providers[provider][i].scope == SourceScope::Global || path is Some,
    ensures
        planned_runs(registry, KeyView::Provider(provider), path, false).contains(
            registry.providers[provider][i].name,
        ),
        registry.providers[provider][i].read_always ==> planned_runs(
            registry,
            KeyView::Provider(provider),
            path,
            true,
        ).contains(registry.providers[provider][i].name),
{
    let s = registry.providers[provider][i];
    law_source_is_found_by_name(registry, provider, s.name, i);
    let found = registry.source(provider, s.name)->0;
    let k = choose|k: int|
        0 <= k < registry.providers[provider].len() && registry.providers[provider][k] == found;
    assert(k == i);
    law_sources_that_run(registry, KeyView::Provider(provider), path, false, s.name);
    law_sources_that_run(registry, KeyView::Provider(provider), path, true, s.name);
}

/// Sources run in the order in which they are declared: of two that run for a whole
/// provider, the one that runs first is declared first.
pub proof fn law_sources_run_in_order(
    registry: RegistryView,
    provider: Seq<char>,
    path: Option<Seq<char>>,
    always: bool,
    a: int,
    b: int,
)
    requires
        registry.providers.contains_key(provider),
        0 <= a < b < planned_runs(registry, KeyView::Provider(provider), path, always).len(),
    ensures
        ({
            let names = planned_runs(registry, KeyView::Provider(provider), path, always);
            let sources = registry.providers[provider];
            exists|i: int, j: int|
                0 <= i < j < sources.len() && (#[trigger] sources[i]).name == names[a] && (
                #[trigger] sources[j]).name == names[b]
        }),
{
    let sources = registry.providers[provider];
    let all = source_names(sources);
    let wanted = |s: Seq<char>| runs(registry, provider, s, path, always);
    lemma_filter_keeps_order(all, wanted, a, b);
    let (i, j) = choose|i: int, j: int|
        0 <= i < j < all.len() && #[trigger] all[i] == all.filter(wanted)[a] && #[trigger] all[j]
            == all.filter(wanted)[b];
    assert(sources[i].name == all[i] && sources[j].name == all[j]);
}

proof fn lemma_filter_keeps_order<A>(all: Seq<A>, wanted: spec_fn(A) -> bool, a: int, b: int)
    requires
        0 <= a < b < all.filter(wanted).len(),
    ensures
        exists|i: int, j: int|
            0 <= i < j < all.len() && #[trigger] all[i] == all.filter(wanted)[a] && #[trigger] all[j]
                == all.filter(wanted)[b],
    decreases all.len(),
{
    reveal(Seq::filter);
    let init = all.drop_last();
    let kept = init.filter(wanted);
    if b < kept.len() {
        lemma_filter_keeps_order(init, wanted, a, b);
        let (i, j) = choose|i: int, j: int|
            0 <= i < j < init.len() && #[trigger] init[i] == kept[a] && #[trigger] init[j]
                == kept[b];
        assert(all[i] == init[i] && all[j] == init[j]);
    } else {
        init.lemma_filter_contains_rev(wanted, kept[a]);
        let i = choose|i: int| 0 <= i < init.len() && init[i] == kept[a];
        assert(all[i] == init[i]);
        assert(all[all.len() - 1] == all.filter(wanted)[b]);
    }
}

/// The source that a read has run is the first of those that wait, at the path that
/// its scope takes: a global source none, a path-scoped one the path that is read.
pub proof fn law_read_runs_the_first_that_waits(
    state: GetView,
    registry: RegistryView,
    cache: CacheView,
    now: u128,
)
    ensures
        advance_view(state, registry, cache, now) matches StepView::Execute(e, waiting) ==> {
            &&& waiting.queue.len() > 0
            &&& e.source == waiting.queue[0]
            &&& e.provider == state.target.provider()
            &&& registry.source(e.provider, e.source) matches Some(s) ==> e.path == if s.scope
                == SourceScope::Global {
                None
            } else {
                state.read_path
            }
            &&& waiting.target == state.target
            &&& waiting.read_path == state.read_path
            &&& waiting.meta == state.meta
            &&& state.queue.len() > 0 ==> waiting == state
            &&& state.queue.len() == 0 ==> waiting.phase == Phase::Cold && state.phase
                == Phase::Fresh && waiting.queue == planned_runs(
                registry,
                state.target,
                state.read_path,
                false,
            )
        },
{
}

/// The run of a source is described by its provider, its name and the path that its
/// scope takes.
pub proof fn law_description_of_a_run(
    registry: RegistryView,
    provider: Seq<char>,
    name: Seq<char>,
    path: Option<Seq<char>>,
)
    ensures
        ({
            let e = execution_view(registry, provider, name, path);
            &&& e.provider == provider
            &&& e.source == name
            &&& registry.source(provider, name) matches Some(s) ==> e.path == if s.scope
                == SourceScope::Global {
                None
            } else {
                path
            }
        }),
{
}

/// Runs and news say what their members say.
pub proof fn law_runs_are_known_by_their_members(e: Execution, a: Activity, plan: PlanView)
    ensures
        e@.provider == e.provider@,
        e@.source == e.source@,
        e@.path == match e.path {
            Some(p) => Some(p@),
            None => None,
        },
        a@.provider == a.provider@,
        a@.path == match a.path {
            Some(p) => Some(p@),
            None => None,
        },
        a@.demand == a.demand@,
        activity_view(plan).provider == plan.provider,
        activity_view(plan).path == plan.effective_path,
        activity_view(plan).demand == plan.demand,
{
}

/// What a source gave is cached under its own name where its scope puts it, a global
/// source without a path, and stays fresh for as long as new data is not expected: a
/// source that is polled, watched or not, until its interval is over, and a source
/// that is only watched for ever.
pub proof fn law_run_is_cached_with_its_interval(
    cache: CacheView,
    registry: RegistryView,
    provider: Seq<char>,
    name: Seq<char>,
    path: Option<Seq<char>>,
    fields: Map<Seq<char>, Json>,
    done: u128,
    now: u128,
)
    requires
        cache.distinct(),
        registry.source(provider, name) matches Some(s) && (s.scope == SourceScope::Global
            || path is Some),
        fields != Map::<Seq<char>, Json>::empty(),
    ensures
        ({
            let s = registry.source(provider, name)->0;
            let slot = if s.scope == SourceScope::Global {
                None
            } else {
                path
            };
            let after = stored(cache, registry, provider, name, path, Some(fields), done);
            &&& after.source(provider, slot, name) matches Some(e)
            &&& e.name == name
            &&& e.fields == fields
            &&& e.refreshed_ms == done
            &&& match s.invalidation {
                InvalidationView::Poll(secs) => e.is_stale(now) <==> now - done > secs * 1000,
                InvalidationView::WatchAndPoll(_, secs) => e.is_stale(now) <==> now - done > secs
                    * 1000,
                InvalidationView::Watch(_) => !e.is_stale(now),
            }
        }),
{
    let s = registry.source(provider, name)->0;
    let slot = if s.scope == SourceScope::Global {
        None
    } else {
        path
    };
    law_read_after_put(
        cache,
        provider,
        slot,
        recorded(registry, provider, name, fields, done),
    );
}

/// What is recorded of a run grows stale with the interval of its source.
pub proof fn law_recorded_data_grows_stale(
    registry: RegistryView,
    provider: Seq<char>,
    name: Seq<char>,
    fields: Map<Seq<char>, Json>,
    done: u128,
    now: u128,
)
    ensures
        registry.source(provider, name) matches Some(s) ==> match s.invalidation {
            InvalidationView::Poll(secs) => recorded(
                registry,
                provider,
                name,
                fields,
                done,
            ).is_stale(now) <==> now - done > secs * 1000,
            InvalidationView::WatchAndPoll(_, secs) => recorded(
                registry,
                provider,
                name,
                fields,
                done,
            ).is_stale(now) <==> now - done > secs * 1000,
            InvalidationView::Watch(_) => !recorded(
                registry,
                provider,
                name,
                fields,
                done,
            ).is_stale(now),
        },
{
}

/// Nothing is cached of a source that is not registered, or that needs a path and
/// has none, and a run changes the slot of its own source only.
pub proof fn law_nothing_else_is_cached(
    cache: CacheView,
    registry: RegistryView,
    provider: Seq<char>,
    name: Seq<char>,
    path: Option<Seq<char>>,
    fields: Option<Map<Seq<char>, Json>>,
    done: u128,
    other_provider: Seq<char>,
    other_path: Option<Seq<char>>,
)
    requires
        cache.distinct(),
    ensures
        ({
            let after = stored(cache, registry, provider, name, path, fields, done);
            let found = registry.source(provider, name);
            &&& found is None ==> after == cache
            &&& found matches Some(s) ==> (s.scope == SourceScope::PathScoped && path is None
                ==> after == cache)
            &&& found matches Some(s) ==> (other_provider != provider || other_path != (if s.scope
                == SourceScope::Global {
                None
            } else {
                path
            }) ==> after.entry(other_provider, other_path) == cache.entry(
                other_provider,
                other_path,
            ))
        }),
{
    if let (Some(s), Some(f)) = (registry.source(provider, name), fields) {
        let slot = if s.scope == SourceScope::Global {
            None
        } else {
            path
        };
        if other_provider != provider || other_path != slot {
            law_put_keeps_other_slots(
                cache,
                provider,
                slot,
                recorded(registry, provider, name, f, done),
                other_provider,
                other_path,
            );
        }
    }
}

/// A read is turned down exactly if nobody knows its provider, or if it forces
/// stored data; it is told which of the two.
pub proof fn law_refused_reads(plan: PlanView, force: bool, registry: RegistryView)
    ensures
        !registry.providers.contains_key(plan.provider) && !registry.virtuals.contains(
            plan.provider,
        ) ==> refusal(plan, force, registry) == Some("unknown provider: "@ + plan.provider),
        registry.virtuals.contains(plan.provider) && force ==> refusal(plan, force, registry)
            == Some(
            "cannot --force virtual provider '"@ + plan.provider
                + "': no source to re-execute from"@,
        ),
        registry.providers.contains_key(plan.provider) && !registry.virtuals.contains(plan.provider)
            ==> refusal(plan, force, registry) is None,
        registry.virtuals.contains(plan.provider) && !force ==> refusal(
            plan,
            force,
            registry,
        ) is None,
{
}

/// How a read begins. One that is turned down is answered with an error. Otherwise a
/// scheduler is told first, with the provider, the path and the demand of the plan,
/// and goes on with that plan.
pub proof fn law_beginning_of_a_read(
    plan: PlanView,
    force: bool,
    wait: bool,
    scheduler: bool,
    registry: RegistryView,
    cache: CacheView,
    now: u128,
)
    ensures
        ({
            let step = begin_view(plan, force, wait, scheduler, registry, cache, now);
            match refusal(plan, force, registry) {
                Some(message) => step matches StepView::Reply(r) && !r.ok && r.data is None
                    && r.error == Some(message),
                None => scheduler ==> (step matches StepView::Demand(news, next) && news.provider
                    == plan.provider && news.path == plan.effective_path && news.demand
                    == plan.demand && next == plan),
            }
        }),
{
}

/// A read for the suffix `source` names where the data comes from and reads nothing;
/// any other read of stored or registered data reads the slot that it is for.
pub proof fn law_origin_is_named(
    plan: PlanView,
    registry: RegistryView,
    cache: CacheView,
    now: u128,
)
    ensures
        plan.meta == Some("source"@) ==> (lookup_view(plan, registry, cache, now)
            matches StepView::Reply(r) && r.ok && r.error is None && r.age_ms == Some(0u128)
            && r.stale == Some(false) && r.data == Some(
            Json::Text(
                if registry.virtuals.contains(plan.provider) {
                    "virtual"@
                } else if registry.providers.contains_key(plan.provider) {
                    "builtin"@
                } else {
                    "unknown"@
                },
            ),
        )),
        origin(registry, plan.provider) == if registry.virtuals.contains(plan.provider) {
            "virtual"@
        } else if registry.providers.contains_key(plan.provider) {
            "builtin"@
        } else {
            "unknown"@
        },
        ({
            let start = start_view(plan, registry, cache);
            &&& start.target == plan.target && start.meta == plan.meta && start.phase
                == Phase::Fresh
            &&& start.queue == planned_runs(registry, plan.target, start.read_path, true)
            &&& plan.meta != Some("source"@) ==> lookup_view(plan, registry, cache, now)
                == advance_view(start, registry, cache, now)
        }),
{
}

/// The suffixes that are split off a key are exactly those that are answered: any
/// other would be refused.
pub proof fn law_known_suffixes_are_answered(
    normal: ResponseView,
    cached: bool,
    meta: Seq<char>,
)
    requires
        normal.error is None,
        meta != "source"@,
    ensures
        known_suffix(meta) <==> meta_view(normal, cached, Some(meta)).error is None,
        !known_suffix(meta) ==> meta_view(normal, cached, Some(meta)) == error_view(
            "unknown metadata suffix: :"@ + meta,
        ),
        known_suffix("source"@),
{
}

/// An age is told as the number that it is, as far as 64 bits go, and beyond that by
/// the lowest 64 bits of it.
pub proof fn law_age_is_told(age: u128)
    ensures
        age <= u64::MAX ==> age_number(age) == Number::PosInt(age as u64),
        age_number(age) matches Number::PosInt(n) && n == age % 0x1_0000_0000_0000_0000,
{
}

/// The sources that may own a field are asked in the order in which they are
/// declared.
pub proof fn law_owners_are_asked_in_order(
    registry: RegistryView,
    provider: Seq<char>,
    field: Seq<char>,
    a: int,
    b: int,
)
    requires
        registry.providers.contains_key(provider),
        0 <= a < b < registry.owners(provider, field).len(),
    ensures
        ({
            let names = registry.owners(provider, field);
            let sources = registry.providers[provider];
            exists|i: int, j: int|
                0 <= i < j < sources.len() && (#[trigger] sources[i]).name == names[a] && (
                #[trigger] sources[j]).name == names[b]
        }),
{
    let sources = registry.providers[provider];
    let declares = |s: SourceView| s.declares(field);
    let dynamic = |s: SourceView| s.is_dynamic();
    let wanted = if sources.filter(declares).len() > 0 {
        declares
    } else {
        dynamic
    };
    lemma_filter_keeps_order(sources, wanted, a, b);
    let (i, j) = choose|i: int, j: int|
        0 <= i < j < sources.len() && #[trigger] sources[i] == sources.filter(wanted)[a]
            && #[trigger] sources[j] == sources.filter(wanted)[b];
    assert(sources[i].name == registry.owners(provider, field)[a]);
    assert(sources[j].name == registry.owners(provider, field)[b]);
}

/// Of the sources that a field may be read from, those that can run do so in the
/// order in which they are declared.
pub proof fn law_owners_run_in_order(
    registry: RegistryView,
    provider: Seq<char>,
    field: Seq<char>,
    path: Option<Seq<char>>,
    always: bool,
    a: int,
    b: int,
)
    requires
        0 <= a < b < planned_runs(registry, KeyView::Field(provider, field), path, always).len(),
    ensures
        ({
            let names = planned_runs(registry, KeyView::Field(provider, field), path, always);
            let owners = registry.owners(provider, split_on(field, '.')[0]);
            exists|i: int, j: int|
                0 <= i < j < owners.len() && #[trigger] owners[i] == names[a]
                    && #[trigger] owners[j] == names[b]
        }),
{
    lemma_filter_keeps_order(
        registry.owners(provider, split_on(field, '.')[0]),
        |s: Seq<char>| runs(registry, provider, s, path, always),
        a,
        b,
    );
}

/// What a source gave is seen as it is, and so are the steps of a read.
pub proof fn law_steps_are_seen_as_they_are(
    step: GetStep,
    fields: Option<Vec<(String, Value)>>,
)
    ensures
        opt_fields(fields) == match fields {
            Some(f) => Some(fields_model(f@)),
            None => None,
        },
        step@ == match step {
            GetStep::Reply(r) => StepView::Reply(r@),
            GetStep::Demand(a, p) => StepView::Demand(a@, p@),
            GetStep::Execute(e, s) => StepView::Execute(e@, s@),
        },
{
}

} // verus!
