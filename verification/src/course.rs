//! The course of a read from its first step to its answer, and the beginning of a
//! stream.

use vstd::prelude::*;

use crate::cache::{
    distinct_sources, elapsed_ms, entry_index, find_in_sources,
    law_field_comes_from_its_first_holder, law_put_distinct, law_put_entry,
    law_put_keeps_other_slots, law_read_after_put, law_without, lemma_entry_index,
    lemma_slot_index, put_entry, CacheView, SourceEntryView,
};
use crate::get::{
    advance_view, age_number, answer_view, cache_after, can_run, candidates, evicted,
    expected_interval, lookup_view, planned_runs, popped, read_slot, refusal, run_path, runs,
    start_view, stored, GetView, Phase, StepView,
};
use crate::protocol::{done_view, error_view, ok_view, ResponseView};
use crate::provider::{distinct_names, source_names, RegistryView, SourceView};
use crate::query::{path_head, KeyView, PlanView};
use crate::read::{is_cached, law_read_outcomes, read_view, unknown_field};
use crate::text::split_on;
use crate::value::{path_lookup, Json};
use crate::watch::{
    warm, watch_cache, watch_next, watched, EventView, WatchPhase, WatchStepView, WatchView,
};

verus! {

/// What a source that ran gave: its fields, or nothing if it failed, at a time.
pub struct Outcome {
    pub fields: Option<Map<Seq<char>, Json>>,
    pub now: u128,
}

/// The answer of a read and the cache it leaves, if the sources that it runs give
/// `outcomes` one after another, no more and no fewer.
pub open spec fn finish(
    step: StepView,
    registry: RegistryView,
    cache: CacheView,
    outcomes: Seq<Outcome>,
) -> Option<(ResponseView, CacheView)>
    decreases outcomes.len(),
{
    match step {
        StepView::Reply(r) => if outcomes.len() == 0 {
            Some((r, cache))
        } else {
            None
        },
        StepView::Execute(_, s) => if outcomes.len() == 0 {
            None
        } else {
            let after = cache_after(s, registry, cache, outcomes[0].fields, outcomes[0].now);
            finish(
                advance_view(popped(s), registry, after, outcomes[0].now),
                registry,
                after,
                outcomes.drop_first(),
            )
        },
        StepView::Demand(_, _) => None,
    }
}

/// The cache after the named sources ran one after another.
pub open spec fn after_runs(
    cache: CacheView,
    registry: RegistryView,
    provider: Seq<char>,
    path: Option<Seq<char>>,
    names: Seq<Seq<char>>,
    outcomes: Seq<Outcome>,
) -> CacheView
    decreases names.len(),
{
    if names.len() == 0 || outcomes.len() == 0 {
        cache
    } else {
        after_runs(
            stored(
                cache,
                registry,
                provider,
                names[0],
                path,
                outcomes[0].fields,
                outcomes[0].now,
            ),
            registry,
            provider,
            path,
            names.drop_first(),
            outcomes.drop_first(),
        )
    }
}

/// The time of the last outcome, or `now` if there is none.
pub open spec fn last_time(outcomes: Seq<Outcome>, now: u128) -> u128 {
    if outcomes.len() == 0 {
        now
    } else {
        outcomes.last().now
    }
}

/// The waiting sources of a read run one after another, each once.
pub proof fn law_queue_runs_in_order(
    state: GetView,
    registry: RegistryView,
    cache: CacheView,
    outcomes: Seq<Outcome>,
    now: u128,
)
    requires
        outcomes.len() >= state.queue.len(),
    ensures
        ({
            let n = state.queue.len() as int;
            let after = after_runs(
                cache,
                registry,
                state.target.provider(),
                state.read_path,
                state.queue,
                outcomes.take(n),
            );
            finish(advance_view(state, registry, cache, now), registry, cache, outcomes) == finish(
                advance_view(
                    GetView { queue: Seq::empty(), ..state },
                    registry,
                    after,
                    last_time(outcomes.take(n), now),
                ),
                registry,
                after,
                outcomes.skip(n),
            )
        }),
    decreases state.queue.len(),
{
    let n = state.queue.len() as int;
    if n == 0 {
        assert(state.queue =~= Seq::<Seq<char>>::empty());
        assert(outcomes.skip(0) =~= outcomes);
        assert(outcomes.take(0) =~= Seq::<Outcome>::empty());
    } else {
        let after = cache_after(state, registry, cache, outcomes[0].fields, outcomes[0].now);
        law_queue_runs_in_order(
            popped(state),
            registry,
            after,
            outcomes.drop_first(),
            outcomes[0].now,
        );
        assert(outcomes.take(n).drop_first() =~= outcomes.drop_first().take(n - 1));
        assert(outcomes.take(n)[0] == outcomes[0]);
        assert(outcomes.drop_first().skip(n - 1) =~= outcomes.skip(n));
        if n > 1 {
            assert(outcomes.take(n).last() == outcomes.drop_first().take(n - 1).last());
        }
    }
}

/// The cache and the time when the sources that run before every read are done.
pub open spec fn freshened(
    start: GetView,
    registry: RegistryView,
    cache: CacheView,
    outcomes: Seq<Outcome>,
    now: u128,
) -> (CacheView, u128) {
    let n = start.queue.len() as int;
    (
        after_runs(
            cache,
            registry,
            start.target.provider(),
            start.read_path,
            start.queue,
            outcomes.take(n),
        ),
        last_time(outcomes.take(n), now),
    )
}

/// The sources that run because nothing was cached.
pub open spec fn cold_runs(start: GetView, registry: RegistryView) -> Seq<Seq<char>> {
    planned_runs(registry, start.target, start.read_path, false)
}

/// How a read goes. First the sources run that run before every read. If that
/// leaves something cached, the cache answers. Otherwise every candidate runs, and
/// then the cache answers.
pub proof fn law_course_of_a_read(
    start: GetView,
    registry: RegistryView,
    cache: CacheView,
    outcomes: Seq<Outcome>,
    now: u128,
)
    requires
        start.phase == Phase::Fresh,
        outcomes.len() >= start.queue.len(),
    ensures
        ({
            let n = start.queue.len() as int;
            let (fresh, at) = freshened(start, registry, cache, outcomes, now);
            let cold = cold_runs(start, registry);
            let end = finish(
                advance_view(start, registry, cache, now),
                registry,
                cache,
                outcomes,
            );
            if is_cached(fresh, start.target, start.read_path) {
                outcomes.len() == n ==> end == Some(
                    (answer_view(fresh, start.target, start.read_path, start.meta, at), fresh),
                )
            } else {
                let after = after_runs(
                    fresh,
                    registry,
                    start.target.provider(),
                    start.read_path,
                    cold,
                    outcomes.skip(n),
                );
                outcomes.len() == n + cold.len() ==> end == Some(
                    (
                        answer_view(
                            after,
                            start.target,
                            start.read_path,
                            start.meta,
                            last_time(outcomes.skip(n), at),
                        ),
                        after,
                    ),
                )
            }
        }),
{
    let n = start.queue.len() as int;
    let (fresh, at) = freshened(start, registry, cache, outcomes, now);
    let rest = outcomes.skip(n);
    let idle = GetView { queue: Seq::empty(), ..start };
    law_queue_runs_in_order(start, registry, cache, outcomes, now);
    if !is_cached(fresh, start.target, start.read_path) {
        let queue = cold_runs(start, registry);
        let cold = GetView { phase: Phase::Cold, queue, ..start };
        if outcomes.len() == n + queue.len() {
            if queue.len() > 0 {
                assert(advance_view(idle, registry, fresh, at) == advance_view(
                    cold,
                    registry,
                    fresh,
                    at,
                ));
                law_queue_runs_in_order(cold, registry, fresh, rest, at);
                assert(rest.take(queue.len() as int) =~= rest);
                assert(rest.skip(queue.len() as int) =~= Seq::<Outcome>::empty());
            } else {
                assert(rest =~= Seq::<Outcome>::empty());
            }
        }
    } else if outcomes.len() == n {
        assert(rest =~= Seq::<Outcome>::empty());
    }
}

/// Every read is answered, after no more runs than there are sources to run:
/// whatever the sources give, some beginning of it completes the read.
pub proof fn law_reads_are_answered(
    start: GetView,
    registry: RegistryView,
    cache: CacheView,
    outcomes: Seq<Outcome>,
    now: u128,
)
    requires
        start.phase == Phase::Fresh,
        outcomes.len() >= start.queue.len() + cold_runs(start, registry).len(),
    ensures
        exists|k: int|
            0 <= k <= start.queue.len() + cold_runs(start, registry).len() && finish(
                advance_view(start, registry, cache, now),
                registry,
                cache,
                #[trigger] outcomes.take(k),
            ) is Some,
{
    let n = start.queue.len() as int;
    let m = n + cold_runs(start, registry).len();
    law_course_of_a_read(start, registry, cache, outcomes.take(n), now);
    law_course_of_a_read(start, registry, cache, outcomes.take(m), now);
    assert(outcomes.take(n).take(n) =~= outcomes.take(n));
    assert(outcomes.take(m).take(n) =~= outcomes.take(n));
    assert(finish(
        advance_view(start, registry, cache, now),
        registry,
        cache,
        outcomes.take(n),
    ) is Some || finish(
        advance_view(start, registry, cache, now),
        registry,
        cache,
        outcomes.take(m),
    ) is Some);
}

/// A read of what is cached, by a key whose sources run on a miss only, is answered
/// at once and from the cache.
pub proof fn law_warm_reads_run_nothing(
    plan: PlanView,
    registry: RegistryView,
    cache: CacheView,
    now: u128,
)
    requires
        plan.meta != Some("source"@),
        start_view(plan, registry, cache).queue.len() == 0,
        is_cached(cache, plan.target, start_view(plan, registry, cache).read_path),
    ensures
        lookup_view(plan, registry, cache, now) == StepView::Reply(
            answer_view(
                cache,
                plan.target,
                start_view(plan, registry, cache).read_path,
                plan.meta,
                now,
            ),
        ),
{
}

/// What is cached for a source once it gave `fields` when run for `path`.
pub open spec fn recorded(
    registry: RegistryView,
    provider: Seq<char>,
    source: Seq<char>,
    fields: Map<Seq<char>, Json>,
    now: u128,
) -> SourceEntryView {
    SourceEntryView {
        name: source,
        fields,
        refreshed_ms: now,
        interval_secs: match registry.source(provider, source) {
            Some(s) => expected_interval(s.invalidation),
            None => None,
        },
    }
}

/// Whether a run of the source for `path` is recorded where a read of `path` looks:
/// it can run, and its scope leaves the path as it is.
pub open spec fn runs_in_place(
    registry: RegistryView,
    provider: Seq<char>,
    source: Seq<char>,
    path: Option<Seq<char>>,
) -> bool {
    registry.source(provider, source) matches Some(s) && can_run(s.scope, path) && run_path(
        s.scope,
        path,
    ) == path
}

/// A run that gave something is what the cache holds for the source afterwards. A
/// run that failed or gave nothing changes nothing. Either way the other sources
/// stay as they were, and so does every slot of another provider.
pub proof fn law_run_is_recorded(
    cache: CacheView,
    registry: RegistryView,
    provider: Seq<char>,
    source: Seq<char>,
    path: Option<Seq<char>>,
    outcome: Outcome,
    other: Seq<char>,
    other_provider: Seq<char>,
    other_path: Option<Seq<char>>,
)
    requires
        cache.distinct(),
    ensures
        ({
            let after = stored(
                cache,
                registry,
                provider,
                source,
                path,
                outcome.fields,
                outcome.now,
            );
            &&& after.distinct()
            &&& outcome.fields is None || outcome.fields == Some(
                Map::<Seq<char>, Json>::empty(),
            ) ==> after == cache
            &&& outcome.fields matches Some(f) ==> (f != Map::<Seq<char>, Json>::empty()
                && runs_in_place(registry, provider, source, path) ==> after.source(
                provider,
                path,
                source,
            ) == Some(recorded(registry, provider, source, f, outcome.now)))
            &&& other != source ==> after.source(provider, path, other) == cache.source(
                provider,
                path,
                other,
            )
            &&& other_provider != provider ==> after.entry(other_provider, other_path)
                == cache.entry(other_provider, other_path)
        }),
{
    if let (Some(s), Some(f)) = (registry.source(provider, source), outcome.fields) {
        if can_run(s.scope, path) && f != Map::<Seq<char>, Json>::empty() {
            let at = run_path(s.scope, path);
            let e = recorded(registry, provider, source, f, outcome.now);
            law_put_distinct(cache, provider, at, e);
            law_read_after_put(cache, provider, at, e);
            if other_provider != provider {
                law_put_keeps_other_slots(cache, provider, at, e, other_provider, other_path);
            }
            if at != path {
                law_put_keeps_other_slots(cache, provider, at, e, provider, path);
            } else if other != source {
                lemma_slot_index(cache.entries, provider, path);
                if let Some(old) = cache.entry(provider, path) {
                    law_put_entry(old.sources, e, other);
                    lemma_entry_index(old.sources, other);
                } else {
                    lemma_entry_index(seq![e], other);
                    assert(entry_index(seq![e], other) == -1);
                }
            }
        }
    }
}

/// What a list of runs leaves in the cache: of each source that ran in place, what
/// it gave, or what was cached for it before if it gave nothing. The runs keep the
/// cache well-formed.
pub proof fn law_runs_are_recorded(
    cache: CacheView,
    registry: RegistryView,
    provider: Seq<char>,
    path: Option<Seq<char>>,
    names: Seq<Seq<char>>,
    outcomes: Seq<Outcome>,
    i: int,
)
    requires
        cache.distinct(),
        names.no_duplicates(),
        outcomes.len() >= names.len(),
        0 <= i < names.len(),
        runs_in_place(registry, provider, names[i], path),
    ensures
        ({
            let after = after_runs(cache, registry, provider, path, names, outcomes);
            &&& after.distinct()
            &&& after.source(provider, path, names[i]) == match outcomes[i].fields {
                Some(f) => if f == Map::<Seq<char>, Json>::empty() {
                    cache.source(provider, path, names[i])
                } else {
                    Some(recorded(registry, provider, names[i], f, outcomes[i].now))
                },
                None => cache.source(provider, path, names[i]),
            }
        }),
    decreases names.len(),
{
    let first = stored(
        cache,
        registry,
        provider,
        names[0],
        path,
        outcomes[0].fields,
        outcomes[0].now,
    );
    let rest = names.drop_first();
    law_run_is_recorded(
        cache,
        registry,
        provider,
        names[0],
        path,
        outcomes[0],
        names[i],
        provider,
        path,
    );
    if i > 0 {
        assert(rest[i - 1] == names[i]);
        assert(rest.no_duplicates()) by {
            assert forall|a: int, b: int| 0 <= a < b < rest.len() implies rest[a] != rest[b] by {
                assert(rest[a] == names[a + 1] && rest[b] == names[b + 1]);
            }
        }
        law_runs_are_recorded(
            first,
            registry,
            provider,
            path,
            rest,
            outcomes.drop_first(),
            i - 1,
        );
    } else {
        assert(!rest.contains(names[0])) by {
            if rest.contains(names[0]) {
                let k = choose|k: int| 0 <= k < rest.len() && rest[k] == names[0];
                assert(names[k + 1] == names[0]);
            }
        }
        lemma_other_runs(first, registry, provider, path, rest, outcomes.drop_first(), names[0]);
    }
}

proof fn lemma_other_runs(
    cache: CacheView,
    registry: RegistryView,
    provider: Seq<char>,
    path: Option<Seq<char>>,
    names: Seq<Seq<char>>,
    outcomes: Seq<Outcome>,
    other: Seq<char>,
)
    requires
        cache.distinct(),
        !names.contains(other),
    ensures
        after_runs(cache, registry, provider, path, names, outcomes).distinct(),
        after_runs(cache, registry, provider, path, names, outcomes).source(provider, path, other)
            == cache.source(provider, path, other),
    decreases names.len(),
{
    if names.len() > 0 && outcomes.len() > 0 {
        let rest = names.drop_first();
        let first = stored(
            cache,
            registry,
            provider,
            names[0],
            path,
            outcomes[0].fields,
            outcomes[0].now,
        );
        assert(names.contains(names[0]));
        law_run_is_recorded(
            cache,
            registry,
            provider,
            names[0],
            path,
            outcomes[0],
            other,
            provider,
            path,
        );
        assert(!rest.contains(other)) by {
            if rest.contains(other) {
                let k = choose|k: int| 0 <= k < rest.len() && rest[k] == other;
                assert(names[k + 1] == other);
            }
        }
        lemma_other_runs(first, registry, provider, path, rest, outcomes.drop_first(), other);
    }
}

/// Runs for one provider leave every slot of another as it was.
pub proof fn law_runs_stay_with_their_provider(
    cache: CacheView,
    registry: RegistryView,
    provider: Seq<char>,
    path: Option<Seq<char>>,
    names: Seq<Seq<char>>,
    outcomes: Seq<Outcome>,
    other_provider: Seq<char>,
    other_path: Option<Seq<char>>,
)
    requires
        cache.distinct(),
        other_provider != provider,
    ensures
        after_runs(cache, registry, provider, path, names, outcomes).entry(
            other_provider,
            other_path,
        ) == cache.entry(other_provider, other_path),
    decreases names.len(),
{
    if names.len() > 0 && outcomes.len() > 0 {
        law_run_is_recorded(
            cache,
            registry,
            provider,
            names[0],
            path,
            outcomes[0],
            names[0],
            other_provider,
            other_path,
        );
        law_runs_stay_with_their_provider(
            stored(
                cache,
                registry,
                provider,
                names[0],
                path,
                outcomes[0].fields,
                outcomes[0].now,
            ),
            registry,
            provider,
            path,
            names.drop_first(),
            outcomes.drop_first(),
            other_provider,
            other_path,
        );
    }
}

/// Whether a read has to run the source that it is about: nothing is cached, or the
/// source runs before every read.
pub open spec fn has_to_run(
    plan: PlanView,
    registry: RegistryView,
    cache: CacheView,
    source: Seq<char>,
) -> bool {
    &&& !registry.is_virtual(plan.provider)
    &&& plan.provider == plan.target.provider()
    &&& plan.meta != Some("source"@)
    &&& runs_in_place(registry, plan.provider, source, plan.effective_path)
    &&& registry.source(plan.provider, source)->0.read_always || !is_cached(
        cache,
        plan.target,
        plan.effective_path,
    )
}

/// A read about one source that has to run runs it once and is then answered from
/// the cache, if the run leaves something cached.
pub proof fn law_one_run_answers(
    plan: PlanView,
    registry: RegistryView,
    cache: CacheView,
    source: Seq<char>,
    fields: Map<Seq<char>, Json>,
    now: u128,
    done: u128,
)
    requires
        cache.distinct(),
        has_to_run(plan, registry, cache, source),
        candidates(registry, plan.target) == seq![source],
        fields != Map::<Seq<char>, Json>::empty(),
        is_cached(
            cache.put(
                plan.provider,
                plan.effective_path,
                recorded(registry, plan.provider, source, fields, done),
            ),
            plan.target,
            plan.effective_path,
        ),
    ensures
        ({
            let after = cache.put(
                plan.provider,
                plan.effective_path,
                recorded(registry, plan.provider, source, fields, done),
            );
            finish(
                lookup_view(plan, registry, cache, now),
                registry,
                cache,
                seq![Outcome { fields: Some(fields), now: done }],
            ) == Some(
                (answer_view(after, plan.target, plan.effective_path, plan.meta, done), after),
            )
        }),
{
    let path = plan.effective_path;
    let outcome = Outcome { fields: Some(fields), now: done };
    let outcomes = seq![outcome];
    lemma_single_run(registry, plan.target, path, source, true);
    lemma_single_run(registry, plan.target, path, source, false);
    law_course_of_a_read(start_view(plan, registry, cache), registry, cache, outcomes, now);
    lemma_one_outcome(cache, registry, plan.provider, path, source, outcome);
    assert(outcomes.take(1) =~= outcomes);
    assert(outcomes.skip(0) =~= outcomes);
    assert(outcomes.take(0) =~= Seq::<Outcome>::empty());
    assert(outcomes.skip(1) =~= Seq::<Outcome>::empty());
}

/// A read of a source that has to run is answered with what the source gives: all
/// of it, new and not stale.
pub proof fn law_source_is_fetched(
    plan: PlanView,
    registry: RegistryView,
    cache: CacheView,
    source: Seq<char>,
    fields: Map<Seq<char>, Json>,
    now: u128,
    done: u128,
)
    requires
        cache.distinct(),
        has_to_run(plan, registry, cache, source),
        plan.target == KeyView::Source(plan.provider, source),
        plan.meta is None,
        fields != Map::<Seq<char>, Json>::empty(),
    ensures
        finish(
            lookup_view(plan, registry, cache, now),
            registry,
            cache,
            seq![Outcome { fields: Some(fields), now: done }],
        ) == Some(
            (
                ok_view(Json::Object(fields), 0, false),
                cache.put(
                    plan.provider,
                    plan.effective_path,
                    recorded(registry, plan.provider, source, fields, done),
                ),
            ),
        ),
{
    let e = recorded(registry, plan.provider, source, fields, done);
    law_read_after_put(cache, plan.provider, plan.effective_path, e);
    law_one_run_answers(plan, registry, cache, source, fields, now, done);
}

/// A read of a field of a named source that has to run is answered with that field
/// as the source gives it, or as an unknown field if the source does not give it.
pub proof fn law_source_field_is_fetched(
    plan: PlanView,
    registry: RegistryView,
    cache: CacheView,
    source: Seq<char>,
    field: Seq<char>,
    fields: Map<Seq<char>, Json>,
    now: u128,
    done: u128,
)
    requires
        cache.distinct(),
        has_to_run(plan, registry, cache, source),
        plan.target == KeyView::SourceField(plan.provider, source, field),
        plan.meta is None,
        fields != Map::<Seq<char>, Json>::empty(),
    ensures
        finish(
            lookup_view(plan, registry, cache, now),
            registry,
            cache,
            seq![Outcome { fields: Some(fields), now: done }],
        ) == Some(
            (
                match path_lookup(fields, split_on(field, '.')) {
                    Some(value) => ok_view(value, 0, false),
                    None => error_view(unknown_field(plan.target)),
                },
                cache.put(
                    plan.provider,
                    plan.effective_path,
                    recorded(registry, plan.provider, source, fields, done),
                ),
            ),
        ),
{
    let e = recorded(registry, plan.provider, source, fields, done);
    law_read_after_put(cache, plan.provider, plan.effective_path, e);
    law_one_run_answers(plan, registry, cache, source, fields, now, done);
}

/// A read of a field with one owner that has to run is answered with that field as
/// its owner gives it, unless another cached source holds it too.
pub proof fn law_field_is_fetched(
    plan: PlanView,
    registry: RegistryView,
    cache: CacheView,
    source: Seq<char>,
    field: Seq<char>,
    fields: Map<Seq<char>, Json>,
    now: u128,
    done: u128,
)
    requires
        cache.distinct(),
        has_to_run(plan, registry, cache, source),
        plan.target == KeyView::Field(plan.provider, field),
        registry.owners(plan.provider, path_head(field)) == seq![source],
        plan.meta is None,
        path_lookup(fields, split_on(field, '.')) is Some,
        cache.entry(plan.provider, plan.effective_path) matches Some(e) ==> forall|i: int|
            0 <= i < e.sources.len() && (#[trigger] e.sources[i]).name != source ==> path_lookup(
                e.sources[i].fields,
                split_on(field, '.'),
            ) is None,
    ensures
        finish(
            lookup_view(plan, registry, cache, now),
            registry,
            cache,
            seq![Outcome { fields: Some(fields), now: done }],
        ) == Some(
            (
                ok_view(path_lookup(fields, split_on(field, '.'))->0, 0, false),
                cache.put(
                    plan.provider,
                    plan.effective_path,
                    recorded(registry, plan.provider, source, fields, done),
                ),
            ),
        ),
{
    let e = recorded(registry, plan.provider, source, fields, done);
    let after = cache.put(plan.provider, plan.effective_path, e);
    law_read_after_put(cache, plan.provider, plan.effective_path, e);
    let sources = match cache.entry(plan.provider, plan.effective_path) {
        Some(old) => put_entry(old.sources, e),
        None => seq![e],
    };
    assert(fields != Map::<Seq<char>, Json>::empty());
    assert forall|i: int| 0 <= i < sources.len() && sources[i] != e implies path_lookup(
        (#[trigger] sources[i]).fields,
        split_on(field, '.'),
    ) is None by {
        let old = cache.entry(plan.provider, plan.effective_path)->0;
        lemma_slot_index(cache.entries, plan.provider, plan.effective_path);
        assert(distinct_sources(old.sources));
        lemma_entry_index(old.sources, source);
        if old.sources[i].name == source {
            let at = entry_index(old.sources, source);
            if at < i {
                assert(old.sources[at].name == old.sources[i].name);
            } else if i < at {
                assert(old.sources[i].name == old.sources[at].name);
            }
        }
    }
    assert(sources.contains(e)) by {
        match cache.entry(plan.provider, plan.effective_path) {
            Some(old) => {
                law_put_entry(old.sources, e, source);
                lemma_entry_index(sources, source);
                assert(sources[entry_index(sources, source)] == e);
            },
            None => {
                assert(sources[0] == e);
            },
        }
    }
    lemma_find_only(sources, e, field);
    law_one_run_answers(plan, registry, cache, source, fields, now, done);
}

/// A field that one source of an entry holds is found in it.
proof fn lemma_find_only(sources: Seq<SourceEntryView>, e: SourceEntryView, field: Seq<char>)
    requires
        sources.contains(e),
        forall|i: int|
            0 <= i < sources.len() && sources[i] != e ==> path_lookup(
                (#[trigger] sources[i]).fields,
                split_on(field, '.'),
            ) is None,
        path_lookup(e.fields, split_on(field, '.')) is Some,
    ensures
        find_in_sources(sources, field) == Some(
            (path_lookup(e.fields, split_on(field, '.'))->0, e.refreshed_ms),
        ),
    decreases sources.len(),
{
    if sources[0] != e {
        let rest = sources.drop_first();
        let k = choose|k: int| 0 <= k < sources.len() && sources[k] == e;
        assert(rest[k - 1] == e);
        assert forall|i: int| 0 <= i < rest.len() && rest[i] != e implies path_lookup(
            (#[trigger] rest[i]).fields,
            split_on(field, '.'),
        ) is None by {
            assert(rest[i] == sources[i + 1]);
        }
        lemma_find_only(rest, e, field);
    }
}

proof fn lemma_one_outcome(
    cache: CacheView,
    registry: RegistryView,
    provider: Seq<char>,
    path: Option<Seq<char>>,
    source: Seq<char>,
    outcome: Outcome,
)
    ensures
        after_runs(cache, registry, provider, path, seq![source], seq![outcome]) == stored(
            cache,
            registry,
            provider,
            source,
            path,
            outcome.fields,
            outcome.now,
        ),
        forall|c: CacheView, o: Seq<Outcome>|
            #[trigger] after_runs(c, registry, provider, path, Seq::empty(), o) == c,
        forall|c: CacheView, n: Seq<Seq<char>>|
            #[trigger] after_runs(c, registry, provider, path, n, Seq::empty()) == c,
{
    reveal_with_fuel(after_runs, 2);
    assert(seq![source].drop_first() =~= Seq::<Seq<char>>::empty());
    assert(seq![outcome].drop_first() =~= Seq::<Outcome>::empty());
}

proof fn lemma_filter_one(s: Seq<char>, wanted: spec_fn(Seq<char>) -> bool)
    ensures
        seq![s].filter(wanted) == if wanted(s) {
            seq![s]
        } else {
            Seq::empty()
        },
{
    reveal_with_fuel(Seq::filter, 2);
    assert(seq![s].drop_last() =~= Seq::<Seq<char>>::empty());
    assert(seq![s].filter(wanted) =~= if wanted(s) {
        seq![s]
    } else {
        Seq::empty()
    });
}

/// With one candidate, that one runs if it does.
proof fn lemma_single_run(
    registry: RegistryView,
    target: KeyView,
    path: Option<Seq<char>>,
    s: Seq<char>,
    always: bool,
)
    requires
        candidates(registry, target) == seq![s],
    ensures
        planned_runs(registry, target, path, always) == if runs(
            registry,
            target.provider(),
            s,
            path,
            always,
        ) {
            seq![s]
        } else {
            Seq::empty()
        },
{
    lemma_filter_one(
        s,
        |n: Seq<char>| runs(registry, target.provider(), n, path, always),
    );
}

/// No source runs twice in one phase of a read.
pub proof fn law_each_source_runs_once(
    registry: RegistryView,
    target: KeyView,
    path: Option<Seq<char>>,
    always: bool,
)
    requires
        registry.is_real(target.provider()) ==> distinct_names(
            registry.providers[target.provider()],
        ),
    ensures
        candidates(registry, target).no_duplicates(),
        planned_runs(registry, target, path, always).no_duplicates(),
{
    let all = candidates(registry, target);
    assert(all.no_duplicates()) by {
        if registry.is_real(target.provider()) {
            let sources = registry.providers[target.provider()];
            match target {
                KeyView::Field(_, f) => {
                    let declares = |s: SourceView| s.declares(path_head(f));
                    let dynamic = |s: SourceView| s.is_dynamic();
                    lemma_filter_distinct(sources, declares);
                    lemma_filter_distinct(sources, dynamic);
                },
                _ => {},
            }
        }
    }
    lemma_filter_no_duplicates(
        all,
        |s: Seq<char>| runs(registry, target.provider(), s, path, always),
    );
}

proof fn lemma_filter_no_duplicates<A>(all: Seq<A>, wanted: spec_fn(A) -> bool)
    requires
        all.no_duplicates(),
    ensures
        all.filter(wanted).no_duplicates(),
    decreases all.len(),
{
    reveal(Seq::filter);
    if all.len() > 0 {
        let init = all.drop_last();
        assert forall|i: int, j: int| 0 <= i < j < init.len() implies init[i] != init[j] by {
            assert(init[i] == all[i] && init[j] == all[j]);
        }
        lemma_filter_no_duplicates(init, wanted);
        let kept = init.filter(wanted);
        assert forall|i: int| 0 <= i < kept.len() implies kept[i] != all.last() by {
            init.lemma_filter_contains_rev(wanted, kept[i]);
            let k = choose|k: int| 0 <= k < init.len() && init[k] == kept[i];
            assert(all[k] == kept[i]);
        }
    }
}

proof fn lemma_filter_distinct(sources: Seq<SourceView>, wanted: spec_fn(SourceView) -> bool)
    requires
        distinct_names(sources),
    ensures
        source_names(sources.filter(wanted)).no_duplicates(),
    decreases sources.len(),
{
    reveal(Seq::filter);
    if sources.len() > 0 {
        let init = sources.drop_last();
        assert forall|i: int, j: int| 0 <= i < j < init.len() implies (#[trigger] init[i]).name != (
        #[trigger] init[j]).name by {
            assert(init[i] == sources[i] && init[j] == sources[j]);
        }
        lemma_filter_distinct(init, wanted);
        let kept = init.filter(wanted);
        assert forall|i: int| 0 <= i < kept.len() implies (#[trigger] kept[i]).name
            != sources.last().name by {
            init.lemma_filter_contains_rev(wanted, kept[i]);
            let k = choose|k: int| 0 <= k < init.len() && init[k] == kept[i];
            assert(sources[k] == kept[i]);
        }
        let after = source_names(sources.filter(wanted));
        let before = source_names(kept);
        assert forall|i: int, j: int| 0 <= i < j < after.len() implies after[i] != after[j] by {
            assert(after[i] == before[i]);
            assert(before[i] == kept[i].name);
            if j < kept.len() {
                assert(after[j] == before[j]);
            }
        }
    }
}

/// A read of a whole provider of which nothing is cached runs all of its sources
/// that can run, once each in the order they are declared in, and is answered from
/// the cache. The cache then holds what each source gave that runs at the path the
/// read is for.
pub proof fn law_whole_provider_is_fetched(
    plan: PlanView,
    registry: RegistryView,
    cache: CacheView,
    outcomes: Seq<Outcome>,
    i: int,
    now: u128,
)
    requires
        cache.distinct(),
        registry.is_real(plan.provider),
        !registry.is_virtual(plan.provider),
        distinct_names(registry.providers[plan.provider]),
        plan.target == KeyView::Provider(plan.provider),
        plan.meta != Some("source"@),
        cache.entry(plan.provider, plan.effective_path) is None,
        planned_runs(registry, plan.target, plan.effective_path, true).len() == 0,
        outcomes.len() == planned_runs(registry, plan.target, plan.effective_path, false).len(),
        0 <= i < outcomes.len(),
        outcomes[i].fields matches Some(f) && f != Map::<Seq<char>, Json>::empty(),
        runs_in_place(
            registry,
            plan.provider,
            planned_runs(registry, plan.target, plan.effective_path, false)[i],
            plan.effective_path,
        ),
    ensures
        ({
            let names = planned_runs(registry, plan.target, plan.effective_path, false);
            let after = after_runs(
                cache,
                registry,
                plan.provider,
                plan.effective_path,
                names,
                outcomes,
            );
            &&& finish(
                lookup_view(plan, registry, cache, now),
                registry,
                cache,
                outcomes,
            ) == Some(
                (
                    answer_view(
                        after,
                        plan.target,
                        plan.effective_path,
                        plan.meta,
                        last_time(outcomes, now),
                    ),
                    after,
                ),
            )
            &&& after.source(plan.provider, plan.effective_path, names[i]) == Some(
                recorded(
                    registry,
                    plan.provider,
                    names[i],
                    outcomes[i].fields->0,
                    outcomes[i].now,
                ),
            )
        }),
{
    let path = plan.effective_path;
    let names = planned_runs(registry, plan.target, path, false);
    law_each_source_runs_once(registry, plan.target, path, false);
    law_runs_are_recorded(cache, registry, plan.provider, path, names, outcomes, i);
    law_course_of_a_read(start_view(plan, registry, cache), registry, cache, outcomes, now);
    assert(outcomes.skip(0) =~= outcomes);
    assert(outcomes.take(0) =~= Seq::<Outcome>::empty());
}

/// A read is cold exactly where its slot is: an empty slot holds nothing that any
/// key of the provider is read from.
pub proof fn law_empty_slot_is_cold(
    cache: CacheView,
    target: KeyView,
    path: Option<Seq<char>>,
    now: u128,
)
    requires
        cache.entry(target.provider(), path) is None,
    ensures
        !is_cached(cache, target, path),
        read_view(cache, target, path, now) == done_view(),
{
}

/// Forcing a read of a registered provider empties the slot that it reads and no
/// other, so that the read starts cold. Waiting does so if the slot is stale, and
/// leaves the cache alone if it is not.
pub proof fn law_force_and_wait_start_cold(
    plan: PlanView,
    force: bool,
    wait: bool,
    registry: RegistryView,
    cache: CacheView,
    other_provider: Seq<char>,
    other_path: Option<Seq<char>>,
    now: u128,
)
    requires
        cache.distinct(),
        plan.provider == plan.target.provider(),
        registry.is_real(plan.provider),
        !registry.is_virtual(plan.provider),
    ensures
        ({
            let stale = cache.entry(plan.provider, plan.effective_path) matches Some(e)
                && e.is_stale(now);
            let after = evicted(plan, force, wait, registry, cache, now);
            &&& refusal(plan, force, registry) is None
            &&& force || (wait && stale) ==> {
                &&& after.entry(plan.provider, plan.effective_path) is None
                &&& !is_cached(
                    after,
                    plan.target,
                    start_view(plan, registry, after).read_path,
                )
            }
            &&& !force && !(wait && stale) ==> after == cache
            &&& after.distinct()
            &&& other_provider != plan.provider || other_path != plan.effective_path
                ==> after.entry(other_provider, other_path) == cache.entry(
                other_provider,
                other_path,
            )
        }),
{
    law_without(cache, plan.provider, plan.effective_path, plan.provider, plan.effective_path);
    law_without(cache, plan.provider, plan.effective_path, other_provider, other_path);
}

/// No read drops stored data: waiting for it changes nothing, and forcing it is
/// refused.
pub proof fn law_stored_data_is_never_evicted(
    plan: PlanView,
    force: bool,
    wait: bool,
    registry: RegistryView,
    cache: CacheView,
    now: u128,
)
    requires
        registry.is_virtual(plan.provider),
    ensures
        evicted(plan, force, wait, registry, cache, now) == cache,
        refusal(plan, force, registry) is Some <==> force,
{
}

/// Which slot a read looks at. Stored data is read at the asked path if something
/// lies there, and otherwise without a path; whichever slot answers, answers alone.
/// Any other provider is read at its path and nowhere else.
pub proof fn law_slot_of_a_read(plan: PlanView, registry: RegistryView, cache: CacheView)
    ensures
        registry.is_virtual(plan.provider) && cache.entry(
            plan.provider,
            plan.effective_path,
        ) is Some ==> read_slot(plan, registry, cache) == plan.effective_path,
        registry.is_virtual(plan.provider) && cache.entry(
            plan.provider,
            plan.effective_path,
        ) is None ==> read_slot(plan, registry, cache) is None,
        !registry.is_virtual(plan.provider) ==> read_slot(plan, registry, cache)
            == plan.effective_path,
{
}

/// A read of stored data runs nothing and is answered at once.
pub proof fn law_stored_data_is_read_at_once(
    plan: PlanView,
    registry: RegistryView,
    cache: CacheView,
    now: u128,
)
    requires
        registry.is_virtual(plan.provider),
        !registry.is_real(plan.provider),
        plan.provider == plan.target.provider(),
        plan.meta != Some("source"@),
    ensures
        lookup_view(plan, registry, cache, now) == StepView::Reply(
            answer_view(
                cache,
                plan.target,
                read_slot(plan, registry, cache),
                plan.meta,
                now,
            ),
        ),
{
    let slot = read_slot(plan, registry, cache);
    lemma_no_runs(registry, plan.target, slot, true);
    lemma_no_runs(registry, plan.target, slot, false);
}

proof fn lemma_no_runs(
    registry: RegistryView,
    target: KeyView,
    path: Option<Seq<char>>,
    always: bool,
)
    requires
        !registry.is_real(target.provider()),
    ensures
        planned_runs(registry, target, path, always).len() == 0,
{
    broadcast use vstd::seq_lib::group_filter_ensures;

    let wanted = |s: Seq<char>| runs(registry, target.provider(), s, path, always);
    let kept = planned_runs(registry, target, path, always);
    if kept.len() > 0 {
        assert(wanted(kept[0]));
    }
}

/// The answers to the metadata suffixes agree with one another and with the plain
/// answer: `fresh` negates `stale`, `cache` tells whether something was found, and
/// an unknown field stays an error whatever the suffix.
pub proof fn law_suffix_answers(
    cache: CacheView,
    target: KeyView,
    path: Option<Seq<char>>,
    now: u128,
)
    ensures
        ({
            let plain = answer_view(cache, target, path, None, now);
            let stale = answer_view(cache, target, path, Some("stale"@), now);
            let fresh = answer_view(cache, target, path, Some("fresh"@), now);
            let found = answer_view(cache, target, path, Some("cache"@), now);
            let age = answer_view(cache, target, path, Some("age"@), now);
            &&& plain == read_view(cache, target, path, now)
            &&& plain.error is Some ==> stale == plain && fresh == plain && found == plain && age
                == plain
            &&& plain.error is None ==> {
                &&& stale.ok && fresh.ok && found.ok && age.ok
                &&& stale.error is None && fresh.error is None && found.error is None
                    && age.error is None
                &&& stale.age_ms == Some(0u128) && fresh.age_ms == Some(0u128) && found.age_ms
                    == Some(0u128) && age.age_ms == Some(0u128)
                &&& stale.stale == Some(false) && fresh.stale == Some(false) && found.stale == Some(
                    false,
                ) && age.stale == Some(false)
            }
            &&& plain.error is None && plain.data is Some ==> {
                &&& stale.data == Some(Json::Bool(plain.stale->0))
                &&& fresh.data == Some(Json::Bool(!plain.stale->0))
                &&& found.data == Some(Json::Bool(true))
                &&& age.data == Some(Json::Number(age_number(plain.age_ms->0)))
            }
            &&& plain.error is None && plain.data is None ==> {
                &&& stale.data == Some(Json::Null)
                &&& fresh.data == Some(Json::Null)
                &&& found.data == Some(Json::Bool(false))
                &&& age.data == Some(Json::Null)
            }
        }),
{
    reveal_strlit("age");
    reveal_strlit("stale");
    reveal_strlit("fresh");
    reveal_strlit("cache");
    assert("stale"@[0] != "fresh"@[0]);
    assert("cache"@[0] != "fresh"@[0]);
    assert("cache"@[0] != "stale"@[0]);
    law_read_outcomes(cache, target, path, now);
}

/// A read of a field that is not cached finds it if one of the sources that may own
/// it gives it, however many there are: all of them run, once each and in order.
pub proof fn law_cold_field_is_found(
    plan: PlanView,
    registry: RegistryView,
    cache: CacheView,
    field: Seq<char>,
    outcomes: Seq<Outcome>,
    i: int,
    now: u128,
)
    requires
        cache.distinct(),
        registry.is_real(plan.provider),
        !registry.is_virtual(plan.provider),
        distinct_names(registry.providers[plan.provider]),
        plan.target == KeyView::Field(plan.provider, field),
        plan.meta is None,
        cache.field(plan.provider, plan.effective_path, field) is None,
        planned_runs(registry, plan.target, plan.effective_path, true).len() == 0,
        outcomes.len() == planned_runs(registry, plan.target, plan.effective_path, false).len(),
        0 <= i < outcomes.len(),
        runs_in_place(
            registry,
            plan.provider,
            planned_runs(registry, plan.target, plan.effective_path, false)[i],
            plan.effective_path,
        ),
        outcomes[i].fields matches Some(f) && path_lookup(f, split_on(field, '.')) is Some,
    ensures
        ({
            let names = planned_runs(registry, plan.target, plan.effective_path, false);
            let after = after_runs(
                cache,
                registry,
                plan.provider,
                plan.effective_path,
                names,
                outcomes,
            );
            let found = after.field(plan.provider, plan.effective_path, field);
            &&& found matches Some((value, refreshed))
            &&& finish(lookup_view(plan, registry, cache, now), registry, cache, outcomes) == Some(
                (
                    ok_view(value, elapsed_ms(refreshed, last_time(outcomes, now)), false),
                    after,
                ),
            )
        }),
{
    let path = plan.effective_path;
    let names = planned_runs(registry, plan.target, path, false);
    let after = after_runs(cache, registry, plan.provider, path, names, outcomes);
    law_each_source_runs_once(registry, plan.target, path, false);
    law_runs_are_recorded(cache, registry, plan.provider, path, names, outcomes, i);
    let f = outcomes[i].fields->0;
    assert(f != Map::<Seq<char>, Json>::empty());
    let entry = after.entry(plan.provider, path)->0;
    lemma_entry_index(entry.sources, names[i]);
    let at = entry_index(entry.sources, names[i]);
    assert(path_lookup(entry.sources[at].fields, split_on(field, '.')) is Some);
    law_field_comes_from_its_first_holder(entry.sources, field);
    law_course_of_a_read(start_view(plan, registry, cache), registry, cache, outcomes, now);
    assert(outcomes.skip(0) =~= outcomes);
    assert(outcomes.take(0) =~= Seq::<Outcome>::empty());
}

/// The first response of a stream and the cache by then, if the sources that it
/// runs first give `outcomes` one after another, no more and no fewer.
pub open spec fn first_response(
    w: WatchView,
    step: WatchStepView,
    registry: RegistryView,
    cache: CacheView,
    outcomes: Seq<Outcome>,
) -> Option<(ResponseView, CacheView)>
    decreases outcomes.len(),
{
    match step {
        WatchStepView::Send(r) => if outcomes.len() == 0 {
            Some((r, cache))
        } else {
            None
        },
        WatchStepView::Execute(_) => if outcomes.len() == 0 {
            None
        } else {
            let event = EventView::Executed(outcomes[0].fields);
            let after = watch_cache(w, event, registry, cache, outcomes[0].now);
            let (next, following) = watch_next(w, event, registry, after, outcomes[0].now);
            first_response(next, following, registry, after, outcomes.drop_first())
        },
        _ => None,
    }
}

proof fn lemma_warming(
    w: WatchView,
    registry: RegistryView,
    cache: CacheView,
    outcomes: Seq<Outcome>,
    now: u128,
)
    requires
        outcomes.len() == w.queue.len(),
    ensures
        ({
            let (next, step) = warm(w, registry, cache, now);
            let after = after_runs(
                cache,
                registry,
                w.plan.target.provider(),
                w.plan.effective_path,
                w.queue,
                outcomes,
            );
            first_response(next, step, registry, cache, outcomes) == Some(
                (watched(w, after, last_time(outcomes, now)), after),
            )
        }),
    decreases w.queue.len(),
{
    if w.queue.len() > 0 {
        let (next, _) = warm(w, registry, cache, now);
        let event = EventView::Executed(outcomes[0].fields);
        let after = watch_cache(next, event, registry, cache, outcomes[0].now);
        let rest = WatchView { queue: w.queue.drop_first(), ..next };
        lemma_warming(rest, registry, after, outcomes.drop_first(), outcomes[0].now);
        if outcomes.len() > 1 {
            assert(outcomes.last() == outcomes.drop_first().last());
        }
    }
}

/// How a stream begins: the sources that run before every read run once each and in
/// order, and then what the cache holds is sent, whether or not it holds anything.
pub proof fn law_beginning_of_a_stream(
    w: WatchView,
    registry: RegistryView,
    cache: CacheView,
    outcomes: Seq<Outcome>,
    now: u128,
)
    requires
        w.phase == WatchPhase::Subscribing,
        outcomes.len() == planned_runs(
            registry,
            w.plan.target,
            w.plan.effective_path,
            true,
        ).len(),
    ensures
        ({
            let (next, step) = watch_next(w, EventView::Done, registry, cache, now);
            let after = after_runs(
                cache,
                registry,
                w.plan.target.provider(),
                w.plan.effective_path,
                planned_runs(registry, w.plan.target, w.plan.effective_path, true),
                outcomes,
            );
            first_response(next, step, registry, cache, outcomes) == Some(
                (watched(w, after, last_time(outcomes, now)), after),
            )
        }),
{
    let queue = planned_runs(registry, w.plan.target, w.plan.effective_path, true);
    lemma_warming(WatchView { queue, ..w }, registry, cache, outcomes, now);
}

/// Watching a key gives what getting it gives. Where both read the same slot, the
/// first response of a stream is the answer of a get, and both leave the same cache,
/// whatever the sources give that run before every read, if that leaves the key
/// cached. If it does not, a get goes on to run sources and a stream does not.
pub proof fn law_watch_begins_as_get_answers(
    w: WatchView,
    registry: RegistryView,
    cache: CacheView,
    outcomes: Seq<Outcome>,
    now: u128,
)
    requires
        w.phase == WatchPhase::Subscribing,
        w.plan.meta is None,
        read_slot(w.plan, registry, cache) == w.plan.effective_path,
        outcomes.len() == planned_runs(
            registry,
            w.plan.target,
            w.plan.effective_path,
            true,
        ).len(),
        is_cached(
            after_runs(
                cache,
                registry,
                w.plan.target.provider(),
                w.plan.effective_path,
                planned_runs(registry, w.plan.target, w.plan.effective_path, true),
                outcomes,
            ),
            w.plan.target,
            w.plan.effective_path,
        ),
    ensures
        ({
            let (next, step) = watch_next(w, EventView::Done, registry, cache, now);
            first_response(next, step, registry, cache, outcomes) == finish(
                lookup_view(w.plan, registry, cache, now),
                registry,
                cache,
                outcomes,
            )
        }),
{
    law_beginning_of_a_stream(w, registry, cache, outcomes, now);
    let start = start_view(w.plan, registry, cache);
    law_course_of_a_read(start, registry, cache, outcomes, now);
    assert(outcomes.take(start.queue.len() as int) =~= outcomes);
}

} // verus!
