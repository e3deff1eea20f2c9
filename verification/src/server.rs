//! The server: what it holds, and what it does with each request.

use vstd::prelude::*;

use crate::cache::{elapsed, elapsed_ms, law_without, Cache, CacheView, SourceEntryView};
use crate::get::{
    activity_view, begin_get, begin_view, evicted, lookup_view, refusal, GetStep, StepView,
};
use crate::protocol::{
    done_view, error_view, ok_view, provider_of, IntrospectSubject, Request, Response,
    ResponseView,
};
use crate::provider::{ProviderRegistry, RegistryView, Source};
use crate::query::{
    hinted_path, law_parse_keeps_the_key, may_resolve, metadata_split, path_or_canonical, plan_for,
    resolve_path, PlanView, QueryPlan,
};
use crate::report::{
    cache_counts, cache_json, config_json, count_json, daemon_json, demand_json,
    handle_introspect_cache, handle_introspect_config, handle_introspect_daemon,
    handle_introspect_demand, handle_introspect_lifecycle, handle_introspect_providers,
    handle_introspect_timers, handle_introspect_watches, lifecycle_json, lifecycle_views,
    providers_json, sample_secs, sorted_names, stale_count, timer_views, timers_json, watches_json,
    DaemonFacts, LifecycleInfo, LifecycleView, PollTimerInfo, ReaperHealth, TimerView,
    DEFAULT_SAMPLE_SECS,
};
use crate::text::{borrowed, chars_of, opt_str, opt_text, owned, split_on, texts};
use crate::value::{
    clone_fields, items_model, lemma_items, opt_model, put_field, Json, Number, Value,
};
use crate::watch::{Watch, WatchPhase, WatchView};

verus! {

/// What the server keeps of its configuration.
#[derive(Debug)]
pub struct ServerConfig {
    /// How many providers the configuration defines.
    pub provider_count: u64,
}

/// The versions that the server answers a greeting with.
#[derive(Debug)]
pub struct Identity {
    pub protocol_version: u64,
    pub daemon_version: String,
}

/// The server. `S` are the running sides of sources, `H` the handle of the
/// scheduler, `W` the subscribers to changes, and `R` the shared state of the
/// reaper.
pub struct Server<S, H, W, R> {
    pub socket_path: String,
    pub cache: Cache,
    pub registry: ProviderRegistry<S>,
    pub scheduler: Option<H>,
    pub watchers: W,
    pub start_ms: u128,
    pub requests_total: u64,
    pub config: ServerConfig,
    /// Present only in a daemon; reports of an embedded server leave it out.
    pub reaper: Option<R>,
}

/// Where the socket of the server comes from.
#[derive(Debug, Clone, Copy, PartialEq, Eq, Structural)]
pub enum SocketAction {
    /// Bind it.
    Bind,
    /// Remove what an earlier server left behind, then bind it.
    RemoveStale,
    /// Another server listens on it.
    InUse,
}

/// Decides where the socket comes from: a file that nobody listens on is stale.
pub fn socket_action(exists: bool, listening: bool) -> (action: SocketAction)
    ensures
        action == (if !exists {
            SocketAction::Bind
        } else if listening {
            SocketAction::InUse
        } else {
            SocketAction::RemoveStale
        }),
{
    if !exists {
        SocketAction::Bind
    } else if listening {
        SocketAction::InUse
    } else {
        SocketAction::RemoveStale
    }
}

/// The characters of the Unicode property `White_Space`.
pub open spec fn white_space(c: char) -> bool {
    let n = c as u32;
    ||| 0x9 <= n <= 0xd
    ||| n == 0x20
    ||| n == 0x85
    ||| n == 0xa0
    ||| n == 0x1680
    ||| 0x2000 <= n <= 0x200a
    ||| n == 0x2028
    ||| n == 0x2029
    ||| n == 0x202f
    ||| n == 0x205f
    ||| n == 0x3000
}

/// `char::is_whitespace` answers whether the character has the Unicode property
/// `White_Space`.
pub assume_specification[ char::is_whitespace ](c: char) -> (white: bool)
    ensures
        white == white_space(c),
;

/// `s` without white space at its end.
pub open spec fn trim_end(s: Seq<char>) -> Seq<char>
    decreases s.len(),
{
    if s.len() > 0 && white_space(s.last()) {
        trim_end(s.drop_last())
    } else {
        s
    }
}

/// `s` without white space at its start and end.
pub open spec fn trimmed(s: Seq<char>) -> Seq<char>
    decreases s.len(),
{
    if s.len() > 0 && white_space(s[0]) {
        trimmed(s.drop_first())
    } else {
        trim_end(s)
    }
}

/// The request on a line, without the white space around it; a blank line holds
/// none.
pub fn request_line(line: &str) -> (request: Option<&str>)
    ensures
        request is None <==> trimmed(line@).len() == 0,
        request matches Some(r) ==> r@ == trimmed(line@),
{
    let chars = chars_of(line);
    let mut start: usize = 0;
    assert(line@.skip(0) =~= line@);
    while start < chars.len() && chars[start].is_whitespace()
        invariant
            start <= chars@.len(),
            chars@ == line@,
            trimmed(line@) == trimmed(line@.skip(start as int)),
        decreases chars@.len() - start,
    {
        assert(line@.skip(start as int)[0] == chars@[start as int]);
        assert(line@.skip(start as int).drop_first() =~= line@.skip(start + 1));
        start += 1;
    }
    let mut end: usize = chars.len();
    assert(line@.subrange(start as int, end as int) =~= line@.skip(start as int));
    assert(trimmed(line@) == trim_end(line@.subrange(start as int, end as int))) by {
        if start < chars.len() {
            assert(line@.skip(start as int)[0] == chars@[start as int]);
        }
    }
    while end > start && chars[end - 1].is_whitespace()
        invariant
            start <= end <= chars@.len(),
            chars@ == line@,
            trimmed(line@) == trim_end(line@.subrange(start as int, end as int)),
        decreases end,
    {
        let ghost here = line@.subrange(start as int, end as int);
        assert(here.last() == chars@[end - 1]);
        assert(here.drop_last() =~= line@.subrange(start as int, end - 1));
        end -= 1;
    }
    assert(trimmed(line@) == line@.subrange(start as int, end as int)) by {
        if end > start {
            assert(line@.subrange(start as int, end as int).last() == chars@[end - 1]);
        }
    }
    if start == end {
        None
    } else {
        Some(line.substring_char(start, end))
    }
}

/// White space at the end of a line, such as its line break, does not count.
pub proof fn law_line_end_does_not_count(line: Seq<char>, c: char)
    requires
        white_space(c),
    ensures
        trimmed(line.push(c)) == trimmed(line),
    decreases line.len(),
{
    let longer = line.push(c);
    assert(longer.drop_last() =~= line);
    if line.len() == 0 {
        assert(longer.drop_first() =~= line);
    } else {
        assert(longer[0] == line[0]);
        if white_space(line[0]) {
            assert(longer.drop_first() =~= line.drop_first().push(c));
            law_line_end_does_not_count(line.drop_first(), c);
        }
    }
}

/// A request neither begins nor ends with white space.
pub proof fn law_request_is_trimmed(line: Seq<char>)
    ensures
        trimmed(line).len() > 0 ==> !white_space(trimmed(line)[0]) && !white_space(
            trimmed(line).last(),
        ),
    decreases line.len(),
{
    if line.len() > 0 {
        if white_space(line[0]) {
            law_request_is_trimmed(line.drop_first());
        } else {
            lemma_trim_end(line);
        }
    }
}

proof fn lemma_trim_end(s: Seq<char>)
    ensures
        trim_end(s).len() > 0 ==> trim_end(s)[0] == s[0] && !white_space(trim_end(s).last()),
    decreases s.len(),
{
    if s.len() > 0 && white_space(s.last()) {
        lemma_trim_end(s.drop_last());
    }
}

/// What becomes of a line that a client sent.
#[derive(Debug)]
pub enum LineStep {
    /// Stream the key at the path; the connection serves nothing else from then
    /// on.
    Watch(String, Option<String>),
    /// Handle the request.
    Handle(Request),
    /// Send the answer.
    Reply(Response),
}

/// The message about a stored name that a provider has.
pub open spec fn name_taken(key: Seq<char>) -> Seq<char> {
    "cannot store under '"@ + key + "': name is used by a builtin or script provider"@
}

/// The answer to a request to store.
pub open spec fn put_reply(
    key: Seq<char>,
    data: Option<Json>,
    registry: RegistryView,
) -> ResponseView {
    if registry.is_real(key) {
        error_view(name_taken(key))
    } else if data is Some && !(data->0 is Object) {
        error_view("put data must be a JSON object"@)
    } else {
        done_view()
    }
}

/// The registry after a request to store: the name is known from the first data
/// on.
pub open spec fn put_registry(
    key: Seq<char>,
    data: Option<Json>,
    registry: RegistryView,
) -> RegistryView {
    if !registry.is_real(key) && data is Some && data->0 is Object {
        RegistryView { virtuals: registry.virtuals.insert(key), ..registry }
    } else {
        registry
    }
}

/// What is cached for stored data.
pub open spec fn stored_entry(
    fields: Map<Seq<char>, Json>,
    interval_secs: Option<u64>,
    now: u128,
) -> SourceEntryView {
    SourceEntryView { name: "virtual"@, fields, refreshed_ms: now, interval_secs }
}

/// The cache after a request to store. Without data the slot is cleared.
pub open spec fn put_cache(
    key: Seq<char>,
    data: Option<Json>,
    path: Option<Seq<char>>,
    interval_secs: Option<u64>,
    registry: RegistryView,
    cache: CacheView,
    now: u128,
) -> CacheView {
    if registry.is_real(key) {
        cache
    } else {
        match data {
            None => cache.without(key, path),
            Some(Json::Object(fields)) => cache.put(
                key,
                path,
                stored_entry(fields, interval_secs, now),
            ),
            Some(_) => cache,
        }
    }
}

/// Stores `data` under `key` at `path`, or clears what is stored there. The
/// top-level members of the data become fields. A name that a provider has is
/// refused.
pub fn put_data<S>(
    key: &str,
    data: &Option<Value>,
    path: Option<&str>,
    interval_secs: Option<u64>,
    registry: &mut ProviderRegistry<S>,
    cache: &mut Cache,
    now: u128,
) -> (response: Response)
    requires
        old(registry).wf(),
        old(cache).wf(),
    ensures
        final(registry).wf(),
        final(cache).wf(),
        response@ == put_reply(key@, opt_model(*data), old(registry)@),
        final(registry)@ == put_registry(key@, opt_model(*data), old(registry)@),
        forall|n: Seq<char>| #[trigger]
            final(registry).registered(n) == old(registry).registered(n),
        final(cache)@ == put_cache(
            key@,
            opt_model(*data),
            opt_str(path),
            interval_secs,
            old(registry)@,
            old(cache)@,
            now,
        ),
{
    if registry.has_non_virtual(key) {
        let mut message = "cannot store under '".to_owned();
        message.append(key);
        message.append("': name is used by a builtin or script provider");
        return Response::error(message);
    }
    match data {
        None => {
            cache.remove(key, path);
            Response::done()
        },
        Some(Value::Object(fields)) => {
            registry.register_virtual(key);
            cache.put_source(key, path, "virtual", clone_fields(fields), interval_secs, now);
            Response::done()
        },
        Some(_) => Response::error("put data must be a JSON object".to_owned()),
    }
}

/// The news for the scheduler that a provider is to run again.
#[derive(Debug)]
pub struct RefreshMessage {
    pub provider: String,
    pub path: Option<String>,
}

/// The answer to a refresh request when there is no scheduler.
pub open spec fn refresh_reply(provider: Seq<char>, registry: RegistryView) -> ResponseView {
    if registry.is_known(provider) {
        done_view()
    } else {
        error_view("unknown provider: "@ + provider)
    }
}

/// The answer to a greeting.
pub open spec fn hello_json(identity: Identity) -> Json {
    Json::Object(
        map![
        "protocol_version"@ => count_json(identity.protocol_version),
        "daemon_version"@ => Json::Text(identity.daemon_version@),
    ],
    )
}

/// What becomes of a request.
#[derive(Debug)]
pub enum Handled {
    /// Send the answer.
    Reply(Response),
    /// Go through the steps of a read.
    Get(GetStep),
    /// Tell the scheduler to have a provider run, then send the answer.
    Refresh(RefreshMessage, Response),
    /// List the cache, with what the scheduler knows.
    Status,
    /// Report on the subject, with what the scheduler knows.
    Introspect(IntrospectSubject),
    /// Sample the processes for so many seconds, then report.
    Procs(u64),
}

/// The path that a request asks for: its own, or that of the connection. Storing
/// uses its own only.
pub open spec fn asked_path(request: Request, context: Option<String>) -> Option<Seq<char>> {
    match request {
        Request::Get { path, .. } => path_or_context(path, context),
        Request::Watch { path, .. } => path_or_context(path, context),
        Request::Refresh { path, .. } => path_or_context(path, context),
        Request::Put { path, .. } => opt_text(path),
        _ => None,
    }
}

pub open spec fn path_or_context(path: Option<String>, context: Option<String>) -> Option<
    Seq<char>,
> {
    match path {
        Some(p) => Some(p@),
        None => opt_text(context),
    }
}

/// The path that a request asks for, to be put in canonical form.
pub fn requested_path<'a>(request: &'a Request, context: &'a Option<String>) -> (path: Option<
    &'a str,
>)
    ensures
        opt_str(path) == asked_path(*request, *context),
{
    match request {
        Request::Get { path, .. } => or_context(path, context),
        Request::Watch { path, .. } => or_context(path, context),
        Request::Refresh { path, .. } => or_context(path, context),
        Request::Put { path, .. } => borrowed(path),
        _ => None,
    }
}

/// The path of a request, or that of its connection.
pub fn or_context<'a>(path: &'a Option<String>, context: &'a Option<String>) -> (out: Option<
    &'a str,
>)
    ensures
        opt_str(out) == path_or_context(*path, *context),
{
    match path {
        Some(p) => Some(p.as_str()),
        None => borrowed(context),
    }
}

impl<S, H, W, R> Server<S, H, W, R> {
    /// The cache and the registry are well-formed.
    pub open spec fn wf(self) -> bool {
        self.cache.wf() && self.registry.wf()
    }

    /// A server whose configuration comes from `load`.
    pub fn new<F: FnOnce() -> ServerConfig>(
        socket_path: String,
        cache: Cache,
        registry: ProviderRegistry<S>,
        scheduler: Option<H>,
        watchers: W,
        start_ms: u128,
        load: F,
    ) -> (server: Self)
        requires
            load.requires(()),
        ensures
            load.ensures((), server.config),
            server == (Server {
                socket_path,
                cache,
                registry,
                scheduler,
                watchers,
                start_ms,
                requests_total: 0,
                config: server.config,
                reaper: None::<R>,
            }),
    {
        let config = load();
        Server::new_with_config(
            socket_path,
            cache,
            registry,
            scheduler,
            watchers,
            start_ms,
            config,
        )
    }

    /// A server with the given configuration.
    pub fn new_with_config(
        socket_path: String,
        cache: Cache,
        registry: ProviderRegistry<S>,
        scheduler: Option<H>,
        watchers: W,
        start_ms: u128,
        config: ServerConfig,
    ) -> (server: Self)
        ensures
            server == (Server {
                socket_path,
                cache,
                registry,
                scheduler,
                watchers,
                start_ms,
                requests_total: 0,
                config,
                reaper: None::<R>,
            }),
    {
        Server {
            socket_path,
            cache,
            registry,
            scheduler,
            watchers,
            start_ms,
            requests_total: 0,
            config,
            reaper: None,
        }
    }

    /// The server with the state of the reaper, to be shown in reports.
    pub fn with_reaper_health(self, health: R) -> (server: Self)
        ensures
            server == (Server { reaper: Some(health), ..self }),
    {
        let mut server = self;
        server.reaper = Some(health);
        server
    }

    /// Decides what becomes of a line, given what parsing it gave. Every request
    /// that parses is counted; past the largest count counting starts over.
    pub fn accept_line(&mut self, parsed: Result<Request, String>) -> (step: LineStep)
        ensures
            match parsed {
                Ok(Request::Watch { key, path }) => step == LineStep::Watch(key, path),
                Ok(request) => step == LineStep::Handle(request),
                Err(e) => step matches LineStep::Reply(r) && r@ == error_view(
                    "invalid request: "@ + e@,
                ),
            },
            *final(self) == (Server {
                requests_total: if parsed is Err {
                    old(self).requests_total
                } else if old(self).requests_total == u64::MAX {
                    0
                } else {
                    (old(self).requests_total + 1) as u64
                },
                ..*old(self)
            }),
    {
        match parsed {
            Ok(request) => {
                self.requests_total = if self.requests_total == u64::MAX {
                    0
                } else {
                    self.requests_total + 1
                };
                match request {
                    Request::Watch { key, path } => LineStep::Watch(key, path),
                    other => LineStep::Handle(other),
                }
            },
            Err(e) => {
                let mut message = "invalid request: ".to_owned();
                message.append(e.as_str());
                LineStep::Reply(Response::error(message))
            },
        }
    }
}

/// A read was handled as asked for: its path resolved, its plan was made, and the
/// read began.
pub open spec fn get_handled<S: Source>(
    raw_key: Seq<char>,
    asked: Option<Seq<char>>,
    force: bool,
    wait: bool,
    scheduler: bool,
    registry: ProviderRegistry<S>,
    cache: CacheView,
    now: u128,
    step: StepView,
    cache_after: CacheView,
) -> bool {
    exists|resolved: Option<Seq<char>>|
        {
            let plan = plan_for(raw_key, resolved, registry@);
            &&& #[trigger] may_resolve(metadata_split(raw_key).0, asked, registry, resolved)
            &&& step == begin_view(plan, force, wait, scheduler, registry@, cache, now)
            &&& cache_after == begin_cache(plan, force, wait, registry@, cache, now)
        }
}

/// The cache after the first step of a read.
pub open spec fn begin_cache(
    plan: PlanView,
    force: bool,
    wait: bool,
    registry: RegistryView,
    cache: CacheView,
    now: u128,
) -> CacheView {
    if refusal(plan, force, registry) is Some {
        cache
    } else {
        evicted(plan, force, wait, registry, cache, now)
    }
}

/// A refresh was handled as asked for.
pub open spec fn refresh_handled<S: Source>(
    key: Seq<char>,
    asked: Option<Seq<char>>,
    scheduler: bool,
    registry: ProviderRegistry<S>,
    handled: Handled,
) -> bool {
    let provider = split_on(key, '.')[0];
    if scheduler {
        handled matches Handled::Refresh(message, r) && message.provider@ == provider
            && may_resolve(key, asked, registry, opt_text(message.path)) && r@ == done_view()
    } else {
        handled matches Handled::Reply(r) && r@ == refresh_reply(provider, registry@)
    }
}

/// Seconds that a server has run.
pub open spec fn uptime(start_ms: u128, now: u128) -> int {
    let secs = elapsed_ms(start_ms, now) / 1000;
    if secs > u64::MAX {
        u64::MAX as int
    } else {
        secs as int
    }
}

fn hello_value(identity: &Identity) -> (v: Value)
    ensures
        v.model() == hello_json(*identity),
{
    let mut fields: Vec<(String, Value)> = Vec::new();
    put_field(
        &mut fields,
        "protocol_version",
        Value::Number(Number::PosInt(identity.protocol_version)),
    );
    put_field(&mut fields, "daemon_version", Value::String(identity.daemon_version.clone()));
    Value::Object(fields)
}

/// What the scheduler knows.
#[derive(Debug)]
pub struct SchedulerStatus {
    /// How many requests are in flight.
    pub in_flight: u64,
    pub watch_backend: String,
    pub lifecycle: Vec<LifecycleInfo>,
    pub watched_paths: Vec<String>,
    pub poll_timers: Vec<PollTimerInfo>,
    pub demand: Vec<Value>,
}

/// What the process and its surroundings add to a report.
#[derive(Debug)]
pub struct Surroundings {
    pub pid: u32,
    pub version: String,
    /// Where the configuration lies, if there is one.
    pub config_path: Option<String>,
    /// How many keys are being watched.
    pub active_watchers: u64,
    pub reaper: Option<ReaperHealth>,
    /// The share of stale entries in the cache.
    pub stale_ratio: Number,
}

/// The lists that a report is made from: empty ones without a scheduler.
pub open spec fn lifecycle_known(status: Option<SchedulerStatus>) -> Seq<LifecycleView> {
    match status {
        Some(s) => lifecycle_views(s.lifecycle@),
        None => Seq::empty(),
    }
}

pub open spec fn paths_known(status: Option<SchedulerStatus>) -> Seq<Seq<char>> {
    match status {
        Some(s) => texts(s.watched_paths@),
        None => Seq::empty(),
    }
}

pub open spec fn timers_known(status: Option<SchedulerStatus>) -> Seq<TimerView> {
    match status {
        Some(s) => timer_views(s.poll_timers@),
        None => Seq::empty(),
    }
}

pub open spec fn demand_known(status: Option<SchedulerStatus>) -> Seq<Json> {
    match status {
        Some(s) => items_model(s.demand@),
        None => Seq::empty(),
    }
}

impl<S, H, W, R> Server<S, H, W, R> {
    /// Whether `facts` are those of the server.
    pub open spec fn described_by(
        self,
        status: Option<SchedulerStatus>,
        around: Surroundings,
        now: u128,
        facts: DaemonFacts,
    ) -> bool {
        &&& facts.pid == around.pid
        &&& facts.version@ == around.version@
        &&& facts.uptime_secs == uptime(self.start_ms, now)
        &&& facts.socket_path@ == self.socket_path@
        &&& opt_text(facts.config_path) == opt_text(around.config_path)
        &&& facts.requests_total == self.requests_total
        &&& facts.active_watchers == around.active_watchers
        &&& facts.cache_entries == self.cache@.entries.len()
        &&& facts.reaper == around.reaper
        &&& match status {
            Some(s) => facts.in_flight == s.in_flight && facts.watch_backend@ == s.watch_backend@,
            None => facts.in_flight == 0 && facts.watch_backend@ == "unknown"@,
        }
    }

    /// The facts for the report on the daemon. Without a scheduler nothing is in
    /// flight, and which backend serves is not known.
    pub fn daemon_facts(
        &self,
        status: &Option<SchedulerStatus>,
        around: &Surroundings,
        now: u128,
    ) -> (facts: DaemonFacts)
        ensures
            self.described_by(*status, *around, now, facts),
    {
        let secs: u128 = elapsed(self.start_ms, now) / 1000;
        let uptime_secs: u64 = if secs > u64::MAX as u128 {
            u64::MAX
        } else {
            secs as u64
        };
        let (in_flight, watch_backend) = match status {
            Some(s) => (s.in_flight, s.watch_backend.clone()),
            None => (0, "unknown".to_owned()),
        };
        DaemonFacts {
            pid: around.pid,
            version: around.version.clone(),
            uptime_secs,
            socket_path: self.socket_path.clone(),
            config_path: owned(borrowed(&around.config_path)),
            requests_total: self.requests_total,
            in_flight,
            active_watchers: around.active_watchers,
            cache_entries: self.cache.len() as u64,
            watch_backend,
            reaper: around.reaper,
        }
    }

    fn introspect_lists(
        &self,
        subject: IntrospectSubject,
        lifecycle: &Vec<LifecycleInfo>,
        paths: &Vec<String>,
        timers: &Vec<PollTimerInfo>,
        demand: &Vec<Value>,
    ) -> (response: Response)
        requires
            self.wf(),
            subject is Providers || subject is Lifecycle || subject is Watches || subject is Timers
                || subject is Demand,
            subject is Timers ==> forall|i: int|
                0 <= i < timers@.len() ==> 2 * (#[trigger] timers@[i]).interval_secs <= u64::MAX,
        ensures
            subject is Providers ==> exists|names: Seq<Seq<char>>| #[trigger]
                sorted_names(self.registry@, names) && response@ == ok_view(
                    providers_json(self.registry@, lifecycle_views(lifecycle@), names),
                    0,
                    false,
                ),
            subject is Lifecycle ==> response@ == ok_view(
                lifecycle_json(lifecycle_views(lifecycle@)),
                0,
                false,
            ),
            subject is Watches ==> response@ == ok_view(watches_json(texts(paths@)), 0, false),
            subject is Timers ==> response@ == ok_view(timers_json(timer_views(timers@)), 0, false),
            subject is Demand ==> response@ == ok_view(demand_json(items_model(demand@)), 0, false),
    {
        match subject {
            IntrospectSubject::Lifecycle => handle_introspect_lifecycle(lifecycle),
            IntrospectSubject::Watches => handle_introspect_watches(paths),
            IntrospectSubject::Timers => handle_introspect_timers(timers),
            IntrospectSubject::Demand => handle_introspect_demand(demand),
            _ => handle_introspect_providers(&self.registry, lifecycle),
        }
    }

    /// The report on `subject`, which is not the processes: those are sampled
    /// first.
    pub fn introspect(
        &self,
        subject: IntrospectSubject,
        status: &Option<SchedulerStatus>,
        around: &Surroundings,
        now: u128,
    ) -> (response: Response)
        requires
            self.wf(),
            !(subject is Procs),
            subject is Timers ==> forall|i: int|
                0 <= i < timers_known(*status).len() ==> 2 * (#[trigger] timers_known(
                    *status,
                )[i]).interval_secs <= u64::MAX,
        ensures
            match subject {
                IntrospectSubject::Daemon => exists|facts: DaemonFacts| #[trigger]
                    self.described_by(*status, *around, now, facts) && response@ == ok_view(
                        daemon_json(facts),
                        0,
                        false,
                    ),
                IntrospectSubject::Providers => exists|names: Seq<Seq<char>>| #[trigger]
                    sorted_names(self.registry@, names) && response@ == ok_view(
                        providers_json(self.registry@, lifecycle_known(*status), names),
                        0,
                        false,
                    ),
                IntrospectSubject::Config => response@ == ok_view(
                    config_json(opt_text(around.config_path), self.config.provider_count),
                    0,
                    false,
                ),
                IntrospectSubject::Cache => response@ == ok_view(
                    cache_json(
                        self.cache@.entries.len() as u64,
                        stale_count(self.cache@.entries, now) as u64,
                        around.stale_ratio,
                    ),
                    0,
                    false,
                ),
                IntrospectSubject::Lifecycle => response@ == ok_view(
                    lifecycle_json(lifecycle_known(*status)),
                    0,
                    false,
                ),
                IntrospectSubject::Watches => response@ == ok_view(
                    watches_json(paths_known(*status)),
                    0,
                    false,
                ),
                IntrospectSubject::Timers => response@ == ok_view(
                    timers_json(timers_known(*status)),
                    0,
                    false,
                ),
                IntrospectSubject::Demand => response@ == ok_view(
                    demand_json(demand_known(*status)),
                    0,
                    false,
                ),
                IntrospectSubject::Procs => true,
            },
    {
        match subject {
            IntrospectSubject::Daemon => handle_introspect_daemon(
                &self.daemon_facts(status, around, now),
            ),
            IntrospectSubject::Config => handle_introspect_config(
                &around.config_path,
                self.config.provider_count,
            ),
            IntrospectSubject::Cache => {
                let (total, stale) = cache_counts(&self.cache, now);
                handle_introspect_cache(total, stale, around.stale_ratio)
            },
            _ => match status {
                Some(s) => {
                    assert forall|i: int|
                        subject is Timers && 0 <= i < s.poll_timers@.len() implies 2 * (
                    #[trigger] s.poll_timers@[i]).interval_secs <= u64::MAX by {
                        assert(timers_known(*status)[i] == s.poll_timers@[i]@);
                    }
                    self.introspect_lists(
                        subject,
                        &s.lifecycle,
                        &s.watched_paths,
                        &s.poll_timers,
                        &s.demand,
                    )
                },
                None => {
                    let lifecycle: Vec<LifecycleInfo> = Vec::new();
                    let paths: Vec<String> = Vec::new();
                    let timers: Vec<PollTimerInfo> = Vec::new();
                    let demand: Vec<Value> = Vec::new();
                    assert(lifecycle_views(lifecycle@) =~= Seq::<LifecycleView>::empty());
                    assert(texts(paths@) =~= Seq::<Seq<char>>::empty());
                    assert(timer_views(timers@) =~= Seq::<TimerView>::empty());
                    assert(items_model(demand@) =~= Seq::<Json>::empty());
                    self.introspect_lists(subject, &lifecycle, &paths, &timers, &demand)
                },
            },
        }
    }
}

impl<S: Source, H, W, R> Server<S, H, W, R> {
    /// Begins a stream of `key`. `asked` is the path it is asked for with, and
    /// `canonical` what the file system made of that, if anything.
    pub fn open_watch(&self, key: &str, asked: Option<&str>, canonical: Option<&str>) -> (watch:
        Watch)
        ensures
            watch.wf(),
            watch@.plan == plan_for(key@, watch@.plan.effective_path, self.registry@),
            may_resolve(
                metadata_split(key@).0,
                hinted_path(opt_str(asked), opt_str(canonical)),
                self.registry,
                watch@.plan.effective_path,
            ),
            watch@ == (WatchView {
                plan: watch@.plan,
                scheduler: self.scheduler is Some,
                phase: WatchPhase::New,
                queue: Seq::empty(),
                last: None,
            }),
    {
        let plan = QueryPlan::build(key, asked, canonical, &self.registry);
        Watch::new(plan, self.scheduler.is_some())
    }

    /// Handles a request other than one to watch a key. `context` is the path that
    /// the connection uses by default; `canonical` is what the file system made of
    /// the path that the request asks for, if anything; `ttl_secs` is how long data
    /// to be stored stays fresh.
    pub fn handle_request(
        &mut self,
        request: &Request,
        context: &mut Option<String>,
        canonical: Option<&str>,
        ttl_secs: Option<u64>,
        identity: &Identity,
        now: u128,
    ) -> (handled: Handled)
        requires
            old(self).wf(),
            !(request is Watch),
        ensures
            final(self).wf(),
            *final(self) == (Server {
                cache: final(self).cache,
                registry: final(self).registry,
                ..*old(self)
            }),
            match *request {
                Request::Context { path } => opt_text(*final(context)) == Some(path@),
                _ => *final(context) == *old(context),
            },
            match *request {
                Request::Get { .. } => true,
                Request::Put { .. } => true,
                _ => final(self).cache == old(self).cache,
            },
            match *request {
                Request::Put { .. } => true,
                _ => final(self).registry == old(self).registry,
            },
            forall|n: Seq<char>| #[trigger]
                final(self).registry.registered(n) == old(self).registry.registered(n),
            match *request {
                Request::Get { key, force, wait, .. } => handled matches Handled::Get(step)
                    && step.wf() && get_handled(
                    key@,
                    hinted_path(asked_path(*request, *old(context)), opt_str(canonical)),
                    force,
                    wait,
                    old(self).scheduler is Some,
                    old(self).registry,
                    old(self).cache@,
                    now,
                    step@,
                    final(self).cache@,
                ),
                Request::Refresh { key, .. } => refresh_handled(
                    key@,
                    hinted_path(asked_path(*request, *old(context)), opt_str(canonical)),
                    old(self).scheduler is Some,
                    old(self).registry,
                    handled,
                ),
                Request::Context { .. } => handled matches Handled::Reply(r) && r@ == done_view(),
                Request::Put { key, data, .. } => {
                    &&& handled matches Handled::Reply(r) && r@ == put_reply(
                        key@,
                        opt_model(data),
                        old(self).registry@,
                    )
                    &&& final(self).registry@ == put_registry(
                        key@,
                        opt_model(data),
                        old(self).registry@,
                    )
                    &&& final(self).cache@ == put_cache(
                        key@,
                        opt_model(data),
                        hinted_path(asked_path(*request, *old(context)), opt_str(canonical)),
                        ttl_secs,
                        old(self).registry@,
                        old(self).cache@,
                        now,
                    )
                },
                Request::Status => handled is Status,
                Request::Introspect { subject, duration_secs } => if subject is Procs {
                    handled == Handled::Procs(
                        match duration_secs {
                            Some(secs) => secs,
                            None => DEFAULT_SAMPLE_SECS,
                        },
                    )
                } else {
                    handled == Handled::Introspect(subject)
                },
                Request::Hello => handled matches Handled::Reply(r) && r@ == ok_view(
                    hello_json(*identity),
                    0,
                    false,
                ),
                Request::Watch { .. } => true,
            },
    {
        match request {
            Request::Get { key, force, wait, .. } => {
                let asked = requested_path(request, context);
                let plan = QueryPlan::build(key.as_str(), asked, canonical, &self.registry);
                let step = begin_get(
                    plan,
                    *force,
                    *wait,
                    self.scheduler.is_some(),
                    &self.registry,
                    &mut self.cache,
                    now,
                );
                Handled::Get(step)
            },
            Request::Refresh { key, .. } => {
                let asked = requested_path(request, context);
                let provider = provider_of(key.as_str());
                if self.scheduler.is_some() {
                    let path = resolve_path(key.as_str(), asked, canonical, &self.registry);
                    return Handled::Refresh(RefreshMessage { provider, path }, Response::done());
                }
                if self.registry.is_virtual(provider.as_str()) || self.registry.has_non_virtual(
                    provider.as_str(),
                ) {
                    return Handled::Reply(Response::done());
                }
                let mut message = "unknown provider: ".to_owned();
                message.append(provider.as_str());
                Handled::Reply(Response::error(message))
            },
            Request::Context { path } => {
                *context = Some(path.clone());
                Handled::Reply(Response::done())
            },
            Request::Put { key, data, .. } => {
                let path = path_or_canonical(requested_path(request, context), canonical);
                Handled::Reply(
                    put_data(
                        key.as_str(),
                        data,
                        borrowed(&path),
                        ttl_secs,
                        &mut self.registry,
                        &mut self.cache,
                        now,
                    ),
                )
            },
            Request::Introspect { subject, duration_secs } => match subject {
                IntrospectSubject::Procs => Handled::Procs(sample_secs(*duration_secs)),
                _ => Handled::Introspect(*subject),
            },
            Request::Hello => Handled::Reply(Response::ok(hello_value(identity), 0, false)),
            _ => Handled::Status,
        }
    }
}

/// A request is its line without the white space before and behind it, and nothing
/// else is taken away.
pub proof fn law_only_white_space_is_trimmed(line: Seq<char>) -> (bounds: (int, int))
    ensures
        0 <= bounds.0 <= bounds.1 <= line.len(),
        trimmed(line) == line.subrange(bounds.0, bounds.1),
        forall|i: int| 0 <= i < bounds.0 ==> white_space(#[trigger] line[i]),
        forall|i: int| bounds.1 <= i < line.len() ==> white_space(#[trigger] line[i]),
    decreases line.len(),
{
    if line.len() > 0 && white_space(line[0]) {
        let rest = line.drop_first();
        let (a, b) = law_only_white_space_is_trimmed(rest);
        assert(line.subrange(a + 1, b + 1) =~= rest.subrange(a, b));
        assert forall|i: int| 0 <= i < a + 1 implies white_space(#[trigger] line[i]) by {
            if i > 0 {
                assert(line[i] == rest[i - 1]);
            }
        }
        assert forall|i: int| b + 1 <= i < line.len() implies white_space(#[trigger] line[i]) by {
            assert(line[i] == rest[i - 1]);
        }
        (a + 1, b + 1)
    } else {
        (0, lemma_only_the_end_is_trimmed(line))
    }
}

proof fn lemma_only_the_end_is_trimmed(s: Seq<char>) -> (end: int)
    ensures
        0 <= end <= s.len(),
        trim_end(s) == s.subrange(0, end),
        forall|i: int| end <= i < s.len() ==> white_space(#[trigger] s[i]),
    decreases s.len(),
{
    if s.len() > 0 && white_space(s.last()) {
        let init = s.drop_last();
        let end = lemma_only_the_end_is_trimmed(init);
        assert(s.subrange(0, end) =~= init.subrange(0, end));
        assert forall|i: int| end <= i < s.len() implies white_space(#[trigger] s[i]) by {
            if i < s.len() - 1 {
                assert(s[i] == init[i]);
            }
        }
        end
    } else {
        assert(s.subrange(0, s.len() as int) =~= s);
        s.len() as int
    }
}

/// Which path a request asks for. Reads, streams and refreshes use their own and
/// otherwise that of the connection; storing uses its own only.
pub proof fn law_path_of_a_request(
    key: String,
    path: Option<String>,
    context: Option<String>,
    force: bool,
    wait: bool,
    data: Option<Value>,
    ttl: Option<String>,
)
    ensures
        ({
            let own = opt_text(path);
            let asked = if path is Some {
                own
            } else {
                opt_text(context)
            };
            &&& asked_path(Request::Get { key, path, force, wait }, context) == asked
            &&& asked_path(Request::Watch { key, path }, context) == asked
            &&& asked_path(Request::Refresh { key, path }, context) == asked
            &&& asked_path(Request::Put { key, data, ttl, path }, context) == own
            &&& path_or_context(path, context) == asked
        }),
{
}

/// A greeting is answered with both versions.
pub proof fn law_greeting_tells_the_versions(identity: Identity)
    ensures
        hello_json(identity) matches Json::Object(m) && m["protocol_version"@] == Json::Number(
            Number::PosInt(identity.protocol_version),
        ) && m["daemon_version"@] == Json::Text(identity.daemon_version@),
{
    reveal_strlit("protocol_version");
    reveal_strlit("daemon_version");
    assert("protocol_version"@.len() != "daemon_version"@.len());
}

/// Without a scheduler a refresh is confirmed for every known provider, and refused
/// for any other.
pub proof fn law_refresh_without_a_scheduler(provider: Seq<char>, registry: RegistryView)
    ensures
        ({
            let r = refresh_reply(provider, registry);
            if registry.providers.contains_key(provider) || registry.virtuals.contains(provider) {
                r.ok && r.data is None && r.error is None
            } else {
                !r.ok && r.error == Some("unknown provider: "@ + provider)
            }
        }),
{
}

/// With a scheduler a refresh of any key goes to it, for the provider that the key
/// begins with and the path that the key resolves to, and is confirmed.
pub proof fn law_refresh_goes_to_the_scheduler<S: Source>(
    key: Seq<char>,
    asked: Option<Seq<char>>,
    registry: ProviderRegistry<S>,
    handled: Handled,
)
    requires
        refresh_handled(key, asked, true, registry, handled),
    ensures
        handled matches Handled::Refresh(message, r) && {
            &&& message.provider@ == split_on(key, '.')[0]
            &&& may_resolve(key, asked, registry, opt_text(message.path))
            &&& r@.ok && r@.data is None && r@.error is None
        },
{
}

/// How a read that a server handles begins, for some path that its key resolves to.
/// Nothing of an unknown provider is read. A scheduler is told of any other read that
/// is not refused. Forcing a registered provider leaves its slot empty, and so does
/// waiting for a stale one; a read that does neither leaves the cache alone.
pub proof fn law_read_is_handled<S: Source>(
    raw_key: Seq<char>,
    asked: Option<Seq<char>>,
    force: bool,
    wait: bool,
    scheduler: bool,
    registry: ProviderRegistry<S>,
    cache: CacheView,
    now: u128,
    step: StepView,
    after: CacheView,
) -> (resolved: Option<Seq<char>>)
    requires
        cache.distinct(),
        get_handled(raw_key, asked, force, wait, scheduler, registry, cache, now, step, after),
    ensures
        may_resolve(metadata_split(raw_key).0, asked, registry, resolved),
        ({
            let p = split_on(metadata_split(raw_key).0, '.')[0];
            let plan = plan_for(raw_key, resolved, registry@);
            let known = registry@.providers.contains_key(p) || registry@.virtuals.contains(p);
            let stored_data = registry@.virtuals.contains(p);
            let stale = cache.entry(p, resolved) matches Some(e) && e.is_stale(now);
            &&& !known || (force && stored_data) ==> after == cache && (step
                matches StepView::Reply(r) && !r.ok && r.data is None && r.error is Some)
            &&& known && !(force && stored_data) && scheduler ==> step == StepView::Demand(
                activity_view(plan),
                plan,
            )
            &&& known && !(force && stored_data) && !scheduler ==> step == lookup_view(
                plan,
                registry@,
                after,
                now,
            )
            &&& known && !stored_data && (force || (wait && stale)) ==> after.entry(
                p,
                resolved,
            ) is None
            &&& stored_data || (!force && !(wait && stale)) ==> after == cache
        }),
{
    let resolved = choose|resolved: Option<Seq<char>>|
        {
            let plan = plan_for(raw_key, resolved, registry@);
            &&& #[trigger] may_resolve(metadata_split(raw_key).0, asked, registry, resolved)
            &&& step == begin_view(plan, force, wait, scheduler, registry@, cache, now)
            &&& after == begin_cache(plan, force, wait, registry@, cache, now)
        };
    let key = metadata_split(raw_key).0;
    law_parse_keeps_the_key(key, registry@);
    let p = split_on(key, '.')[0];
    law_without(cache, p, resolved, p, resolved);
    resolved
}

/// A report of a server on a list is the report on what its scheduler knows, and
/// without a scheduler the report on an empty list.
pub proof fn law_server_reports_what_its_scheduler_knows<S, H, W, R>(
    server: Server<S, H, W, R>,
    subject: IntrospectSubject,
    status: Option<SchedulerStatus>,
    around: Surroundings,
    now: u128,
    r: Response,
    lifecycle: Vec<LifecycleInfo>,
    paths: Vec<String>,
    timers: Vec<PollTimerInfo>,
    demand: Vec<Value>,
    on_list: Response,
)
    requires
        call_ensures(
            Server::<S, H, W, R>::introspect,
            (&server, subject, &status, &around, now),
            r,
        ),
        match status {
            Some(s) => lifecycle == s.lifecycle && paths == s.watched_paths && timers
                == s.poll_timers && demand == s.demand,
            None => lifecycle@.len() == 0 && paths@.len() == 0 && timers@.len() == 0
                && demand@.len() == 0,
        },
        match subject {
            IntrospectSubject::Lifecycle => call_ensures(
                handle_introspect_lifecycle,
                (&lifecycle,),
                on_list,
            ),
            IntrospectSubject::Watches => call_ensures(
                handle_introspect_watches,
                (&paths,),
                on_list,
            ),
            IntrospectSubject::Timers => call_ensures(
                handle_introspect_timers,
                (&timers,),
                on_list,
            ),
            IntrospectSubject::Demand => call_ensures(
                handle_introspect_demand,
                (&demand,),
                on_list,
            ),
            IntrospectSubject::Config => call_ensures(
                handle_introspect_config,
                (&around.config_path, server.config.provider_count),
                on_list,
            ),
            _ => false,
        },
    ensures
        r@ == on_list@,
{
    assert(lifecycle_known(status) =~= lifecycle_views(lifecycle@));
    assert(paths_known(status) =~= texts(paths@));
    assert(timers_known(status) =~= timer_views(timers@));
    lemma_items(demand@, false);
    assert(demand_known(status) =~= items_model(demand@));
}

/// A socket that somebody listens on is never removed or bound again, and one that
/// nobody listens on never stops the server.
pub proof fn law_live_sockets_are_respected(exists: bool, listening: bool, action: SocketAction)
    requires
        call_ensures(socket_action, (exists, listening), action),
    ensures
        action == SocketAction::InUse <==> exists && listening,
        action == SocketAction::RemoveStale <==> exists && !listening,
        action == SocketAction::Bind <==> !exists,
{
}

} // verus!
