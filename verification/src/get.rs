//! Answering `Get`: which sources run, in what order, and what is replied.
//!
//! Running a source and telling the scheduler take time, so a request proceeds
//! in steps. Each step names what has to be done next; its outcome is handed
//! back for the following one.

use vstd::prelude::*;

use crate::cache::{Cache, CacheView, SourceEntryView};
use crate::protocol::{error_view, ok_view, Response, ResponseView};
use crate::provider::{
    source_names, source_views, InvalidationStrategy, InvalidationView, ProviderRegistry,
    RegisteredSource, RegistryView, SourceScope,
};
use crate::query::{
    head_of, path_head, DemandView, KeyParse, KeyView, PlanView, QueryPlan, SourceDemand,
};
use crate::read::{is_cached, read_view, read_watch_value, target_cached};
use crate::text::{borrowed, one_text, opt_str, opt_text, owned, same_text, texts};
use crate::value::{fields_model, lemma_empty_fields, Json, Number, Value};

verus! {

/// A source to run.
#[derive(Debug)]
pub struct Execution {
    pub provider: String,
    pub source: String,
    pub path: Option<String>,
}

/// The mathematical content of an [`Execution`].
pub struct ExecutionView {
    pub provider: Seq<char>,
    pub source: Seq<char>,
    pub path: Option<Seq<char>>,
}

impl View for Execution {
    type V = ExecutionView;

    open spec fn view(&self) -> ExecutionView {
        ExecutionView { provider: self.provider@, source: self.source@, path: opt_text(self.path) }
    }
}

/// The news for the scheduler that a query was made, which keeps the demanded
/// sources warm.
#[derive(Debug)]
pub struct Activity {
    pub provider: String,
    pub path: Option<String>,
    pub demand: SourceDemand,
}

/// The mathematical content of an [`Activity`].
pub struct ActivityView {
    pub provider: Seq<char>,
    pub path: Option<Seq<char>>,
    pub demand: DemandView,
}

impl View for Activity {
    type V = ActivityView;

    open spec fn view(&self) -> ActivityView {
        ActivityView { provider: self.provider@, path: opt_text(self.path), demand: self.demand@ }
    }
}

/// The news about the query of a plan.
pub open spec fn activity_view(plan: PlanView) -> ActivityView {
    ActivityView { provider: plan.provider, path: plan.effective_path, demand: plan.demand }
}

/// The news about the query of a plan.
pub fn activity_of(plan: &QueryPlan) -> (activity: Activity)
    ensures
        activity@ == activity_view(plan@),
{
    Activity {
        provider: plan.provider.clone(),
        path: owned(borrowed(&plan.effective_path)),
        demand: plan.demand.copy(),
    }
}

/// The path a source of the given scope runs at when `path` is asked for: a
/// global source takes none.
pub open spec fn run_path(scope: SourceScope, path: Option<Seq<char>>) -> Option<Seq<char>> {
    match scope {
        SourceScope::Global => None,
        SourceScope::PathScoped => path,
    }
}

/// Whether a source can run when `path` is asked for: a path-scoped one needs it.
pub open spec fn can_run(scope: SourceScope, path: Option<Seq<char>>) -> bool {
    scope == SourceScope::Global || path is Some
}

/// Whether the named source runs: it is registered and can run, and, with
/// `always` set, is to run again before every read.
pub open spec fn runs(
    registry: RegistryView,
    provider: Seq<char>,
    source: Seq<char>,
    path: Option<Seq<char>>,
    always: bool,
) -> bool {
    registry.source(provider, source) matches Some(s) && can_run(s.scope, path) && (always
        ==> s.read_always)
}

/// The sources that may hold what `target` asks for, in the order in which they
/// run.
pub open spec fn candidates(registry: RegistryView, target: KeyView) -> Seq<Seq<char>> {
    match target {
        KeyView::Field(p, f) => registry.owners(p, path_head(f)),
        KeyView::Source(_, s) => seq![s],
        KeyView::SourceField(_, s, _) => seq![s],
        KeyView::Provider(p) => if registry.is_real(p) {
            source_names(registry.providers[p])
        } else {
            Seq::empty()
        },
    }
}

/// The candidates that run: all that can, or, with `always` set, those that are
/// to run before every read.
pub open spec fn planned_runs(
    registry: RegistryView,
    target: KeyView,
    path: Option<Seq<char>>,
    always: bool,
) -> Seq<Seq<char>> {
    candidates(registry, target).filter(
        |s: Seq<char>| runs(registry, target.provider(), s, path, always),
    )
}

/// How often a source is expected to produce new data.
pub open spec fn expected_interval(strategy: InvalidationView) -> Option<u64> {
    match strategy {
        InvalidationView::Poll(secs) => Some(secs),
        InvalidationView::WatchAndPoll(_, secs) => Some(secs),
        InvalidationView::Watch(_) => None,
    }
}

/// How to run the named source.
pub open spec fn execution_view(
    registry: RegistryView,
    provider: Seq<char>,
    source: Seq<char>,
    path: Option<Seq<char>>,
) -> ExecutionView {
    ExecutionView {
        provider,
        source,
        path: match registry.source(provider, source) {
            Some(s) => run_path(s.scope, path),
            None => None,
        },
    }
}

/// The cache after the named source ran and produced `fields`, or failed. Only a
/// source that can run and produced something is recorded.
pub open spec fn stored(
    cache: CacheView,
    registry: RegistryView,
    provider: Seq<char>,
    source: Seq<char>,
    path: Option<Seq<char>>,
    fields: Option<Map<Seq<char>, Json>>,
    now: u128,
) -> CacheView {
    match (registry.source(provider, source), fields) {
        (Some(s), Some(f)) => if can_run(s.scope, path) && f != Map::<Seq<char>, Json>::empty() {
            cache.put(
                provider,
                run_path(s.scope, path),
                SourceEntryView {
                    name: source,
                    fields: f,
                    refreshed_ms: now,
                    interval_secs: expected_interval(s.invalidation),
                },
            )
        } else {
            cache
        },
        _ => cache,
    }
}

/// The content of an optional field list.
pub open spec fn opt_fields(fields: Option<Vec<(String, Value)>>) -> Option<Map<Seq<char>, Json>> {
    match fields {
        Some(f) => Some(fields_model(f@)),
        None => None,
    }
}

fn interval_of(strategy: &InvalidationStrategy) -> (secs: Option<u64>)
    ensures
        secs == expected_interval(strategy@),
{
    match strategy {
        InvalidationStrategy::Poll { interval_secs } => Some(*interval_secs),
        InvalidationStrategy::WatchAndPoll { interval_secs, .. } => Some(*interval_secs),
        InvalidationStrategy::Watch { .. } => None,
    }
}

/// How to run the named source when `path` is asked for.
pub(crate) fn execution_of<S>(
    registry: &ProviderRegistry<S>,
    provider: &str,
    source: &str,
    path: Option<&str>,
) -> (execution: Execution)
    ensures
        execution@ == execution_view(registry@, provider@, source@, opt_str(path)),
{
    let run_at: Option<String> = match registry.source(provider, source) {
        Some(s) => match s.meta.scope {
            SourceScope::Global => None,
            SourceScope::PathScoped => owned(path),
        },
        None => None,
    };
    Execution { provider: provider.to_owned(), source: source.to_owned(), path: run_at }
}

/// How to run the named source when `path` is asked for, or `None` if it is not
/// registered or needs a path and has none.
pub fn plan_execution<S>(
    registry: &ProviderRegistry<S>,
    provider: &str,
    source: &str,
    path: Option<&str>,
) -> (execution: Option<Execution>)
    ensures
        execution is Some <==> runs(registry@, provider@, source@, opt_str(path), false),
        execution matches Some(e) ==> e@ == execution_view(
            registry@,
            provider@,
            source@,
            opt_str(path),
        ),
{
    match registry.source(provider, source) {
        Some(s) => {
            if s.meta.scope == SourceScope::PathScoped && path.is_none() {
                return None;
            }
            Some(execution_of(registry, provider, source, path))
        },
        None => None,
    }
}

/// The running side of the source to run: the one that is registered under its
/// name.
pub fn runner<'a, S>(registry: &'a ProviderRegistry<S>, execution: &Execution) -> (found: Option<
    &'a S,
>)
    ensures
        found is Some <==> registry@.has_source(execution@.provider, execution@.source),
        found matches Some(handle) ==> *handle == registry.registered(
            execution@.provider,
        )[registry@.source_index(execution@.provider, execution@.source)].handle,
{
    match registry.source(execution.provider.as_str(), execution.source.as_str()) {
        Some(s) => Some(&s.handle),
        None => None,
    }
}

/// Records what the named source produced when run for `path`; `fields` is
/// `None` if it failed. Returns whether anything was recorded.
pub fn store_execution<S>(
    cache: &mut Cache,
    registry: &ProviderRegistry<S>,
    provider: &str,
    source: &str,
    path: Option<&str>,
    fields: Option<Vec<(String, Value)>>,
    now: u128,
) -> (recorded: bool)
    requires
        old(cache).wf(),
    ensures
        final(cache).wf(),
        final(cache)@ == stored(
            old(cache)@,
            registry@,
            provider@,
            source@,
            opt_str(path),
            opt_fields(fields),
            now,
        ),
        recorded == (runs(registry@, provider@, source@, opt_str(path), false) && opt_fields(
            fields,
        ) is Some && opt_fields(fields) != Some(Map::<Seq<char>, Json>::empty())),
{
    match (plan_execution(registry, provider, source, path), registry.source(provider, source)) {
        (Some(execution), Some(s)) => match fields {
            Some(produced) => {
                proof {
                    lemma_empty_fields(produced@);
                }
                if produced.is_empty() {
                    return false;
                }
                cache.put_source(
                    provider,
                    borrowed(&execution.path),
                    source,
                    produced,
                    interval_of(&s.meta.invalidation),
                    now,
                );
                true
            },
            None => false,
        },
        _ => false,
    }
}

fn all_names<S>(sources: &Vec<RegisteredSource<S>>) -> (names: Vec<String>)
    ensures
        texts(names@) == source_names(source_views(sources@)),
{
    let mut names: Vec<String> = Vec::new();
    let mut i: usize = 0;
    while i < sources.len()
        invariant
            i <= sources@.len(),
            names@.len() == i,
            forall|j: int| 0 <= j < i ==> #[trigger] names@[j]@ == sources@[j]@.name,
        decreases sources@.len() - i,
    {
        names.push(sources[i].meta.name.clone());
        i += 1;
    }
    assert(texts(names@) =~= source_names(source_views(sources@)));
    names
}

fn candidate_names<S>(registry: &ProviderRegistry<S>, target: &KeyParse) -> (names: Vec<String>)
    ensures
        texts(names@) == candidates(registry@, target@),
{
    match target {
        KeyParse::Field(p, f) => {
            let head = head_of(f.as_str());
            registry.sources_for_field(p.as_str(), head.as_str())
        },
        KeyParse::Source(_, s) => one_text(s),
        KeyParse::SourceField(_, s, _) => one_text(s),
        KeyParse::Provider(p) => match registry.provider_sources(p.as_str()) {
            Some(sources) => all_names(sources),
            None => {
                let names: Vec<String> = Vec::new();
                assert(texts(names@) =~= Seq::<Seq<char>>::empty());
                names
            },
        },
    }
}

/// The provider of a target.
pub fn target_provider(target: &KeyParse) -> (provider: &String)
    ensures
        provider@ == target@.provider(),
{
    match target {
        KeyParse::Provider(p) => p,
        KeyParse::Field(p, _) => p,
        KeyParse::Source(p, _) => p,
        KeyParse::SourceField(p, _, _) => p,
    }
}

/// The sources to run for `target`: all candidates that can, or, with `always`
/// set, those that are to run before every read.
pub fn runs_for<S>(
    registry: &ProviderRegistry<S>,
    target: &KeyParse,
    path: Option<&str>,
    always: bool,
) -> (names: Vec<String>)
    ensures
        texts(names@) == planned_runs(registry@, target@, opt_str(path), always),
{
    let all = candidate_names(registry, target);
    let provider = target_provider(target).as_str();
    let ghost wanted = |s: Seq<char>|
        runs(registry@, target@.provider(), s, opt_str(path), always);
    let ghost views = texts(all@);
    let mut names: Vec<String> = Vec::new();
    let mut i: usize = 0;
    proof {
        reveal(Seq::filter);
        assert(texts(names@) =~= views.take(0).filter(wanted));
    }
    while i < all.len()
        invariant
            i <= all@.len(),
            views == texts(all@),
            provider@ == target@.provider(),
            wanted == (|s: Seq<char>|
                runs(registry@, target@.provider(), s, opt_str(path), always)),
            texts(names@) == views.take(i as int).filter(wanted),
        decreases all@.len() - i,
    {
        let ghost before = names@;
        proof {
            reveal(Seq::filter);
            assert(views.take(i + 1).drop_last() =~= views.take(i as int));
            assert(views.take(i + 1).last() == all@[i as int]@);
        }
        let run = match registry.source(provider, all[i].as_str()) {
            Some(s) => {
                let possible = match s.meta.scope {
                    SourceScope::Global => true,
                    SourceScope::PathScoped => path.is_some(),
                };
                possible && (!always || s.read_always)
            },
            None => false,
        };
        assert(run == wanted(all@[i as int]@));
        if run {
            names.push(all[i].clone());
            assert(texts(names@) =~= texts(before).push(all@[i as int]@));
        }
        i += 1;
    }
    assert(views.take(i as int) =~= views);
    names
}

/// How far a request has come.
#[derive(Debug, Clone, Copy, PartialEq, Eq, Structural)]
pub enum Phase {
    /// Running the sources that run before every read.
    Fresh,
    /// Running the candidates because nothing was cached.
    Cold,
}

/// A request that waits for a source to run.
#[derive(Debug)]
pub struct GetState {
    target: KeyParse,
    read_path: Option<String>,
    meta: Option<String>,
    phase: Phase,
    queue: Vec<String>,
    next: usize,
}

/// The mathematical content of a [`GetState`]: `queue` holds the sources that
/// are still to run in this phase, the running one first.
pub struct GetView {
    pub target: KeyView,
    pub read_path: Option<Seq<char>>,
    pub meta: Option<Seq<char>>,
    pub phase: Phase,
    pub queue: Seq<Seq<char>>,
}

impl View for GetState {
    type V = GetView;

    closed spec fn view(&self) -> GetView {
        GetView {
            target: self.target@,
            read_path: opt_text(self.read_path),
            meta: opt_text(self.meta),
            phase: self.phase,
            queue: texts(self.queue@).skip(self.next as int),
        }
    }
}

impl GetState {
    /// The position in the queue lies within it.
    pub closed spec fn wf(self) -> bool {
        self.next <= self.queue@.len()
    }
}

/// What a request needs next.
#[derive(Debug)]
pub enum GetStep {
    /// The answer; the request is done.
    Reply(Response),
    /// Tell the scheduler, then go on with the plan.
    Demand(Activity, QueryPlan),
    /// Run the source, then hand back what it produced.
    Execute(Execution, GetState),
}

/// The mathematical content of a [`GetStep`].
pub enum StepView {
    Reply(ResponseView),
    Demand(ActivityView, PlanView),
    Execute(ExecutionView, GetView),
}

impl View for GetStep {
    type V = StepView;

    open spec fn view(&self) -> StepView {
        match self {
            GetStep::Reply(r) => StepView::Reply(r@),
            GetStep::Demand(a, p) => StepView::Demand(a@, p@),
            GetStep::Execute(e, s) => StepView::Execute(e@, s@),
        }
    }
}

impl GetStep {
    /// A waiting request is well-formed.
    pub open spec fn wf(self) -> bool {
        match self {
            GetStep::Execute(_, s) => s.wf(),
            _ => true,
        }
    }
}

/// The age as a JSON number; ages beyond 64 bits wrap around.
pub open spec fn age_number(age: u128) -> Number {
    Number::PosInt((age % 0x1_0000_0000_0000_0000u128) as u64)
}

/// The answer to a request with a metadata suffix, made from the answer without
/// it. `cached` tells whether the read found anything.
pub open spec fn meta_view(
    normal: ResponseView,
    cached: bool,
    meta: Option<Seq<char>>,
) -> ResponseView {
    match meta {
        None => normal,
        Some(m) => if m == "age"@ {
            ok_view(
                match normal.age_ms {
                    Some(age) => Json::Number(age_number(age)),
                    None => Json::Null,
                },
                0,
                false,
            )
        } else if m == "stale"@ {
            ok_view(
                match normal.stale {
                    Some(stale) => Json::Bool(stale),
                    None => Json::Null,
                },
                0,
                false,
            )
        } else if m == "fresh"@ {
            ok_view(
                match normal.stale {
                    Some(stale) => Json::Bool(!stale),
                    None => Json::Null,
                },
                0,
                false,
            )
        } else if m == "cache"@ {
            ok_view(Json::Bool(cached), 0, false)
        } else {
            error_view("unknown metadata suffix: :"@ + m)
        },
    }
}

/// The answer that the cache gives to a request. An unknown field is an error
/// whatever the metadata suffix.
pub open spec fn answer_view(
    cache: CacheView,
    target: KeyView,
    path: Option<Seq<char>>,
    meta: Option<Seq<char>>,
    now: u128,
) -> ResponseView {
    let normal = read_view(cache, target, path, now);
    if normal.error is Some {
        normal
    } else {
        meta_view(normal, is_cached(cache, target, path), meta)
    }
}

/// The answer to a request with a metadata suffix, made from the answer without
/// it.
pub fn apply_meta(normal: Response, cached: bool, meta: Option<&str>) -> (response: Response)
    ensures
        response@ == meta_view(normal@, cached, opt_str(meta)),
{
    match meta {
        None => normal,
        Some(m) => if same_text(m, "age") {
            let data = match normal.age_ms {
                Some(age) => Value::Number(
                    Number::PosInt((age % 0x1_0000_0000_0000_0000u128) as u64),
                ),
                None => Value::Null,
            };
            Response::ok(data, 0, false)
        } else if same_text(m, "stale") {
            let data = match normal.stale {
                Some(stale) => Value::Bool(stale),
                None => Value::Null,
            };
            Response::ok(data, 0, false)
        } else if same_text(m, "fresh") {
            let data = match normal.stale {
                Some(stale) => Value::Bool(!stale),
                None => Value::Null,
            };
            Response::ok(data, 0, false)
        } else if same_text(m, "cache") {
            Response::ok(Value::Bool(cached), 0, false)
        } else {
            let mut message = "unknown metadata suffix: :".to_owned();
            message.append(m);
            Response::error(message)
        },
    }
}

fn answer(
    cache: &Cache,
    target: &KeyParse,
    path: Option<&str>,
    meta: Option<&str>,
    now: u128,
) -> (response: Response)
    ensures
        response@ == answer_view(cache@, target@, opt_str(path), opt_str(meta), now),
{
    let normal = read_watch_value(cache, target, path, now);
    if normal.error.is_some() {
        normal
    } else {
        apply_meta(normal, target_cached(cache, target, path), meta)
    }
}

/// What a request needs next. While sources wait to run, the first of them runs.
/// When the sources that run before every read are done and nothing is cached,
/// every candidate runs. After that, or when something is cached, the cache
/// answers.
pub open spec fn advance_view(
    state: GetView,
    registry: RegistryView,
    cache: CacheView,
    now: u128,
) -> StepView {
    let reply = StepView::Reply(
        answer_view(cache, state.target, state.read_path, state.meta, now),
    );
    if state.queue.len() > 0 {
        start_first(state, registry)
    } else if state.phase == Phase::Fresh && !is_cached(cache, state.target, state.read_path) {
        let cold = GetView {
            phase: Phase::Cold,
            queue: planned_runs(registry, state.target, state.read_path, false),
            ..state
        };
        if cold.queue.len() > 0 {
            start_first(cold, registry)
        } else {
            reply
        }
    } else {
        reply
    }
}

/// The step that runs the first waiting source.
pub open spec fn start_first(state: GetView, registry: RegistryView) -> StepView {
    StepView::Execute(
        execution_view(registry, state.target.provider(), state.queue[0], state.read_path),
        state,
    )
}

/// The request after its running source is done.
pub open spec fn popped(state: GetView) -> GetView {
    GetView { queue: state.queue.drop_first(), ..state }
}

/// The cache after the running source of a request produced `fields`.
pub open spec fn cache_after(
    state: GetView,
    registry: RegistryView,
    cache: CacheView,
    fields: Option<Map<Seq<char>, Json>>,
    now: u128,
) -> CacheView {
    stored(
        cache,
        registry,
        state.target.provider(),
        state.queue[0],
        state.read_path,
        fields,
        now,
    )
}

fn first_execution<S>(registry: &ProviderRegistry<S>, state: &GetState) -> (execution: Execution)
    requires
        state.wf(),
        state@.queue.len() > 0,
    ensures
        execution@ == execution_view(
            registry@,
            state@.target.provider(),
            state@.queue[0],
            state@.read_path,
        ),
{
    let source = &state.queue[state.next];
    assert(state@.queue[0] == source@);
    execution_of(
        registry,
        target_provider(&state.target).as_str(),
        source.as_str(),
        borrowed(&state.read_path),
    )
}

/// What the request needs next.
pub fn advance<S>(state: GetState, registry: &ProviderRegistry<S>, cache: &Cache, now: u128) -> (step:
    GetStep)
    requires
        state.wf(),
    ensures
        step.wf(),
        step@ == advance_view(state@, registry@, cache@, now),
{
    if state.next < state.queue.len() {
        let execution = first_execution(registry, &state);
        return GetStep::Execute(execution, state);
    }
    let path = borrowed(&state.read_path);
    if state.phase == Phase::Fresh && !target_cached(cache, &state.target, path) {
        let queue = runs_for(registry, &state.target, path, false);
        if queue.len() > 0 {
            let cold = GetState {
                target: state.target,
                read_path: state.read_path,
                meta: state.meta,
                phase: Phase::Cold,
                queue,
                next: 0,
            };
            assert(cold@.queue =~= texts(queue@));
            let execution = first_execution(registry, &cold);
            return GetStep::Execute(execution, cold);
        }
    }
    GetStep::Reply(answer(cache, &state.target, path, borrowed(&state.meta), now))
}

/// Takes in what the running source produced, `None` if it failed, and says what
/// the request needs next.
pub fn after_execute<S>(
    state: GetState,
    fields: Option<Vec<(String, Value)>>,
    registry: &ProviderRegistry<S>,
    cache: &mut Cache,
    now: u128,
) -> (step: GetStep)
    requires
        state.wf(),
        state@.queue.len() > 0,
        old(cache).wf(),
    ensures
        final(cache).wf(),
        final(cache)@ == cache_after(state@, registry@, old(cache)@, opt_fields(fields), now),
        step.wf(),
        step@ == advance_view(popped(state@), registry@, final(cache)@, now),
{
    let mut state = state;
    let ghost before = state@;
    assert(before.queue[0] == state.queue@[state.next as int]@);
    assert(state.next < state.queue.len());
    let _ = store_execution(
        cache,
        registry,
        target_provider(&state.target).as_str(),
        state.queue[state.next].as_str(),
        borrowed(&state.read_path),
        fields,
        now,
    );
    state.next = state.next + 1;
    assert(state@.queue =~= before.queue.drop_first());
    advance(state, registry, cache, now)
}

/// The slot that a request reads. Stored data lies where the client put it, with
/// no path of its own to evaluate, so where the asked path holds nothing the
/// slot without a path is read instead.
pub open spec fn read_slot(plan: PlanView, registry: RegistryView, cache: CacheView) -> Option<
    Seq<char>,
> {
    if plan.effective_path is Some && registry.is_virtual(plan.provider) && cache.entry(
        plan.provider,
        plan.effective_path,
    ) is None {
        None
    } else {
        plan.effective_path
    }
}

/// Where the data of a provider comes from.
pub open spec fn origin(registry: RegistryView, provider: Seq<char>) -> Seq<char> {
    if registry.is_virtual(provider) {
        "virtual"@
    } else if registry.is_real(provider) {
        "builtin"@
    } else {
        "unknown"@
    }
}

/// Where the data of a provider comes from.
pub fn origin_of<S>(registry: &ProviderRegistry<S>, provider: &str) -> (name: &'static str)
    ensures
        name@ == origin(registry@, provider@),
{
    if registry.is_virtual(provider) {
        "virtual"
    } else if registry.has_non_virtual(provider) {
        "builtin"
    } else {
        "unknown"
    }
}

/// A request about to read: the sources that run before every read come first.
pub open spec fn start_view(plan: PlanView, registry: RegistryView, cache: CacheView) -> GetView {
    let slot = read_slot(plan, registry, cache);
    GetView {
        target: plan.target,
        read_path: slot,
        meta: plan.meta,
        phase: Phase::Fresh,
        queue: planned_runs(registry, plan.target, slot, true),
    }
}

/// What a request needs once the scheduler knows of it. The suffix `source` is
/// answered without reading anything.
pub open spec fn lookup_view(
    plan: PlanView,
    registry: RegistryView,
    cache: CacheView,
    now: u128,
) -> StepView {
    if plan.meta == Some("source"@) {
        StepView::Reply(ok_view(Json::Text(origin(registry, plan.provider)), 0, false))
    } else {
        advance_view(start_view(plan, registry, cache), registry, cache, now)
    }
}

/// The cache a request begins with: `force` drops what is cached for it, and
/// `wait` does so if it is stale. Stored data is never dropped to be fetched
/// again.
pub open spec fn evicted(
    plan: PlanView,
    force: bool,
    wait: bool,
    registry: RegistryView,
    cache: CacheView,
    now: u128,
) -> CacheView {
    if registry.is_virtual(plan.provider) {
        cache
    } else if force {
        cache.without(plan.provider, plan.effective_path)
    } else if wait && (cache.entry(plan.provider, plan.effective_path) matches Some(e)
        && e.is_stale(now)) {
        cache.without(plan.provider, plan.effective_path)
    } else {
        cache
    }
}

/// Why a request is turned down, if it is: its provider is not known, or it
/// forces stored data, which nothing can fetch again.
pub open spec fn refusal(plan: PlanView, force: bool, registry: RegistryView) -> Option<Seq<char>> {
    if !registry.is_known(plan.provider) {
        Some("unknown provider: "@ + plan.provider)
    } else if force && registry.is_virtual(plan.provider) {
        Some(
            "cannot --force virtual provider '"@ + plan.provider
                + "': no source to re-execute from"@,
        )
    } else {
        None
    }
}

/// The first step of a request.
pub open spec fn begin_view(
    plan: PlanView,
    force: bool,
    wait: bool,
    scheduler: bool,
    registry: RegistryView,
    cache: CacheView,
    now: u128,
) -> StepView {
    match refusal(plan, force, registry) {
        Some(message) => StepView::Reply(error_view(message)),
        None => if scheduler {
            StepView::Demand(activity_view(plan), plan)
        } else {
            lookup_view(
                plan,
                registry,
                evicted(plan, force, wait, registry, cache, now),
                now,
            )
        },
    }
}

/// Goes on with a request once the scheduler knows of it.
pub fn after_demand<S>(
    plan: QueryPlan,
    registry: &ProviderRegistry<S>,
    cache: &Cache,
    now: u128,
) -> (step: GetStep)
    ensures
        step.wf(),
        step@ == lookup_view(plan@, registry@, cache@, now),
{
    let provider = plan.provider.as_str();
    let asks_origin = match &plan.meta {
        Some(m) => same_text(m.as_str(), "source"),
        None => false,
    };
    if asks_origin {
        let name = origin_of(registry, provider);
        return GetStep::Reply(Response::ok(Value::String(name.to_owned()), 0, false));
    }
    let use_global = plan.effective_path.is_some() && registry.is_virtual(provider)
        && !cache.has_entry(provider, borrowed(&plan.effective_path));
    let read_path: Option<String> = if use_global {
        None
    } else {
        plan.effective_path
    };
    let queue = runs_for(registry, &plan.target, borrowed(&read_path), true);
    let state = GetState {
        target: plan.target,
        read_path,
        meta: plan.meta,
        phase: Phase::Fresh,
        queue,
        next: 0,
    };
    assert(state@.queue =~= texts(queue@));
    advance(state, registry, cache, now)
}

/// Begins a request. With `scheduler` set there is one to be told of it.
pub fn begin_get<S>(
    plan: QueryPlan,
    force: bool,
    wait: bool,
    scheduler: bool,
    registry: &ProviderRegistry<S>,
    cache: &mut Cache,
    now: u128,
) -> (step: GetStep)
    requires
        old(cache).wf(),
    ensures
        final(cache).wf(),
        final(cache)@ == (if refusal(plan@, force, registry@) is Some {
            old(cache)@
        } else {
            evicted(plan@, force, wait, registry@, old(cache)@, now)
        }),
        step.wf(),
        step@ == begin_view(plan@, force, wait, scheduler, registry@, old(cache)@, now),
{
    let provider = plan.provider.as_str();
    let path = borrowed(&plan.effective_path);
    let stored_data = registry.is_virtual(provider);
    if !registry.has_non_virtual(provider) && !stored_data {
        let mut message = "unknown provider: ".to_owned();
        message.append(provider);
        return GetStep::Reply(Response::error(message));
    }
    if force && stored_data {
        let mut message = "cannot --force virtual provider '".to_owned();
        message.append(provider);
        message.append("': no source to re-execute from");
        return GetStep::Reply(Response::error(message));
    }
    if !stored_data {
        let stale = match cache.get_entry(provider, path) {
            Some(entry) => entry.is_stale(now),
            None => false,
        };
        if force || (wait && stale) {
            cache.remove(provider, path);
        }
    }
    if scheduler {
        return GetStep::Demand(activity_of(&plan), plan);
    }
    after_demand(plan, registry, cache, now)
}

} // verus!
