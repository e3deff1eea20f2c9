//! Answering `Watch`: a stream that begins with the value at hand and goes on
//! with every change of it.

use vstd::prelude::*;

use crate::cache::{Cache, CacheView};
use crate::get::{
    activity_of, activity_view, answer_view, execution_of, execution_view, opt_fields,
    planned_runs, runs_for, store_execution, stored, target_provider, Activity, ActivityView,
    Execution, ExecutionView,
};
use crate::protocol::{Response, ResponseView};
use crate::provider::{ProviderRegistry, RegistryView, SourceScope};
use crate::query::{PlanView, QueryPlan};
use crate::read::{read_view, read_watch_value};
use crate::text::{borrowed, opt_text, owned, texts};
use crate::value::{
    copy_optional, fields_model, law_missing_data_is_told_apart, law_same_data_is_equal, opt_model, same_data,
    same_json, same_optional, Json, Value,
};

verus! {

/// How far a stream has come.
#[derive(Debug, Clone, Copy, PartialEq, Eq, Structural)]
pub enum WatchPhase {
    /// Nothing was done yet.
    New,
    /// The scheduler is being told of the query.
    Announcing,
    /// Notifications are being subscribed to.
    Subscribing,
    /// A source that runs before every read is running.
    Warming,
    /// A response is being sent.
    Sending,
    /// The next notification is awaited.
    Waiting,
    /// The scheduler is being told that the query goes on.
    Renewing,
    /// The stream is over.
    Ended,
}

/// What happened to a stream.
#[derive(Debug)]
pub enum WatchEvent {
    /// What the last step asked for is done; also the first event of a stream.
    Done,
    /// The client cannot be reached any more.
    Failed,
    /// The running source produced fields, or failed.
    Executed(Option<Vec<(String, Value)>>),
    /// The watched data may have changed.
    Notified,
    /// Notifications were missed.
    Lagged,
    /// There will be no more notifications.
    Closed,
}

/// The mathematical content of a [`WatchEvent`].
pub enum EventView {
    Done,
    Failed,
    Executed(Option<Map<Seq<char>, Json>>),
    Notified,
    Lagged,
    Closed,
}

impl View for WatchEvent {
    type V = EventView;

    open spec fn view(&self) -> EventView {
        match self {
            WatchEvent::Done => EventView::Done,
            WatchEvent::Failed => EventView::Failed,
            WatchEvent::Executed(fields) => EventView::Executed(opt_fields(*fields)),
            WatchEvent::Notified => EventView::Notified,
            WatchEvent::Lagged => EventView::Lagged,
            WatchEvent::Closed => EventView::Closed,
        }
    }
}

/// What a stream needs next.
#[derive(Debug)]
pub enum WatchStep {
    /// Tell the scheduler.
    Demand(Activity),
    /// Subscribe to the notifications of a provider at a path.
    Subscribe(String, Option<String>),
    /// Run the source.
    Execute(Execution),
    /// Send the response to the client.
    Send(Response),
    /// Wait for the next notification.
    Wait,
    /// End the stream.
    Stop,
}

/// The mathematical content of a [`WatchStep`].
pub enum WatchStepView {
    Demand(ActivityView),
    Subscribe(Seq<char>, Option<Seq<char>>),
    Execute(ExecutionView),
    Send(ResponseView),
    Wait,
    Stop,
}

impl View for WatchStep {
    type V = WatchStepView;

    open spec fn view(&self) -> WatchStepView {
        match self {
            WatchStep::Demand(a) => WatchStepView::Demand(a@),
            WatchStep::Subscribe(provider, path) => WatchStepView::Subscribe(
                provider@,
                opt_text(*path),
            ),
            WatchStep::Execute(e) => WatchStepView::Execute(e@),
            WatchStep::Send(r) => WatchStepView::Send(r@),
            WatchStep::Wait => WatchStepView::Wait,
            WatchStep::Stop => WatchStepView::Stop,
        }
    }
}

/// A stream.
#[derive(Debug)]
pub struct Watch {
    plan: QueryPlan,
    scheduler: bool,
    phase: WatchPhase,
    queue: Vec<String>,
    next: usize,
    last: Option<Value>,
}

/// The mathematical content of a [`Watch`]: `queue` holds the sources that are
/// still to run before the first read, `last` the data sent last.
pub struct WatchView {
    pub plan: PlanView,
    pub scheduler: bool,
    pub phase: WatchPhase,
    pub queue: Seq<Seq<char>>,
    pub last: Option<Json>,
}

impl View for Watch {
    type V = WatchView;

    closed spec fn view(&self) -> WatchView {
        WatchView {
            plan: self.plan@,
            scheduler: self.scheduler,
            phase: self.phase,
            queue: texts(self.queue@).skip(self.next as int),
            last: opt_model(self.last),
        }
    }
}

/// What the cache holds for a stream.
pub open spec fn watched(w: WatchView, cache: CacheView, now: u128) -> ResponseView {
    read_view(cache, w.plan.target, w.plan.effective_path, now)
}

/// Runs the next source that runs before every read, or sends the first response
/// when they are done.
pub open spec fn warm(w: WatchView, registry: RegistryView, cache: CacheView, now: u128) -> (
    WatchView,
    WatchStepView,
) {
    if w.queue.len() > 0 {
        (
            WatchView { phase: WatchPhase::Warming, ..w },
            WatchStepView::Execute(
                execution_view(
                    registry,
                    w.plan.target.provider(),
                    w.queue[0],
                    w.plan.effective_path,
                ),
            ),
        )
    } else {
        send(w, watched(w, cache, now))
    }
}

/// Sends a response and remembers its data.
pub open spec fn send(w: WatchView, r: ResponseView) -> (WatchView, WatchStepView) {
    (WatchView { phase: WatchPhase::Sending, last: r.data, ..w }, WatchStepView::Send(r))
}

/// Sends what the cache holds if its data differs from what was sent last.
pub open spec fn reread(w: WatchView, cache: CacheView, now: u128) -> (WatchView, WatchStepView) {
    let r = watched(w, cache, now);
    if same_data(r.data, w.last) {
        (WatchView { phase: WatchPhase::Waiting, ..w }, WatchStepView::Wait)
    } else {
        send(w, r)
    }
}

pub open spec fn subscribe(w: WatchView) -> (WatchView, WatchStepView) {
    (
        WatchView { phase: WatchPhase::Subscribing, ..w },
        WatchStepView::Subscribe(w.plan.provider, w.plan.effective_path),
    )
}

pub open spec fn stop(w: WatchView) -> (WatchView, WatchStepView) {
    (WatchView { phase: WatchPhase::Ended, ..w }, WatchStepView::Stop)
}

/// The cache after an event: what the running source produced is recorded.
pub open spec fn watch_cache(
    w: WatchView,
    event: EventView,
    registry: RegistryView,
    cache: CacheView,
    now: u128,
) -> CacheView {
    match event {
        EventView::Executed(fields) => if w.phase == WatchPhase::Warming && w.queue.len() > 0 {
            stored(
                cache,
                registry,
                w.plan.target.provider(),
                w.queue[0],
                w.plan.effective_path,
                fields,
                now,
            )
        } else {
            cache
        },
        _ => cache,
    }
}

/// The next step of a stream; `cache` is the cache after the event. The scheduler
/// is told first, then notifications are subscribed to, then the sources that run
/// before every read run, and then the first response goes out. From then on each
/// notification is passed on to the scheduler and leads to a response if the data
/// changed; after missed notifications the data is only compared. An event that
/// the phase does not await ends the stream.
pub open spec fn watch_next(
    w: WatchView,
    event: EventView,
    registry: RegistryView,
    cache: CacheView,
    now: u128,
) -> (WatchView, WatchStepView) {
    match (w.phase, event) {
        (WatchPhase::New, EventView::Done) => if w.scheduler {
            (
                WatchView { phase: WatchPhase::Announcing, ..w },
                WatchStepView::Demand(activity_view(w.plan)),
            )
        } else {
            subscribe(w)
        },
        (WatchPhase::Announcing, EventView::Done) => subscribe(w),
        (WatchPhase::Subscribing, EventView::Done) => warm(
            WatchView {
                queue: planned_runs(registry, w.plan.target, w.plan.effective_path, true),
                ..w
            },
            registry,
            cache,
            now,
        ),
        (WatchPhase::Warming, EventView::Executed(_)) => if w.queue.len() > 0 {
            warm(WatchView { queue: w.queue.drop_first(), ..w }, registry, cache, now)
        } else {
            stop(w)
        },
        (WatchPhase::Sending, EventView::Done) => (
            WatchView { phase: WatchPhase::Waiting, ..w },
            WatchStepView::Wait,
        ),
        (WatchPhase::Waiting, EventView::Notified) => if w.scheduler {
            (
                WatchView { phase: WatchPhase::Renewing, ..w },
                WatchStepView::Demand(activity_view(w.plan)),
            )
        } else {
            reread(w, cache, now)
        },
        (WatchPhase::Renewing, EventView::Done) => reread(w, cache, now),
        (WatchPhase::Waiting, EventView::Lagged) => reread(w, cache, now),
        _ => stop(w),
    }
}

impl Watch {
    /// The position in the queue lies within it.
    pub closed spec fn wf(self) -> bool {
        self.next <= self.queue@.len()
    }

    /// A stream for the query of `plan`. With `scheduler` set there is one to be
    /// told of it.
    pub fn new(plan: QueryPlan, scheduler: bool) -> (watch: Watch)
        ensures
            watch.wf(),
            watch@ == (WatchView {
                plan: plan@,
                scheduler,
                phase: WatchPhase::New,
                queue: Seq::empty(),
                last: None,
            }),
    {
        let watch = Watch {
            plan,
            scheduler,
            phase: WatchPhase::New,
            queue: Vec::new(),
            next: 0,
            last: None,
        };
        assert(watch@.queue =~= Seq::<Seq<char>>::empty());
        watch
    }

    fn send_now(&mut self, r: Response) -> (step: WatchStep)
        requires
            old(self).wf(),
        ensures
            final(self).wf(),
            (final(self)@, step@) == send(old(self)@, r@),
    {
        self.phase = WatchPhase::Sending;
        self.last = copy_optional(&r.data);
        WatchStep::Send(r)
    }

    fn warm_up<S>(&mut self, registry: &ProviderRegistry<S>, cache: &Cache, now: u128) -> (step:
        WatchStep)
        requires
            old(self).wf(),
        ensures
            final(self).wf(),
            (final(self)@, step@) == warm(old(self)@, registry@, cache@, now),
    {
        if self.next < self.queue.len() {
            let source = &self.queue[self.next];
            assert(self@.queue[0] == source@);
            let execution = execution_of(
                registry,
                target_provider(&self.plan.target).as_str(),
                source.as_str(),
                borrowed(&self.plan.effective_path),
            );
            self.phase = WatchPhase::Warming;
            WatchStep::Execute(execution)
        } else {
            let r = read_watch_value(
                cache,
                &self.plan.target,
                borrowed(&self.plan.effective_path),
                now,
            );
            self.send_now(r)
        }
    }

    fn read_again(&mut self, cache: &Cache, now: u128) -> (step: WatchStep)
        requires
            old(self).wf(),
        ensures
            final(self).wf(),
            (final(self)@, step@) == reread(old(self)@, cache@, now),
    {
        let r = read_watch_value(
            cache,
            &self.plan.target,
            borrowed(&self.plan.effective_path),
            now,
        );
        if same_optional(&r.data, &self.last) {
            self.phase = WatchPhase::Waiting;
            WatchStep::Wait
        } else {
            self.send_now(r)
        }
    }

    fn subscribe_now(&mut self) -> (step: WatchStep)
        requires
            old(self).wf(),
        ensures
            final(self).wf(),
            (final(self)@, step@) == subscribe(old(self)@),
    {
        self.phase = WatchPhase::Subscribing;
        WatchStep::Subscribe(
            self.plan.provider.clone(),
            owned(borrowed(&self.plan.effective_path)),
        )
    }

    fn stop_now(&mut self) -> (step: WatchStep)
        requires
            old(self).wf(),
        ensures
            final(self).wf(),
            (final(self)@, step@) == stop(old(self)@),
    {
        self.phase = WatchPhase::Ended;
        WatchStep::Stop
    }

    /// Takes in what happened and says what the stream needs next.
    pub fn step<S>(
        &mut self,
        event: WatchEvent,
        registry: &ProviderRegistry<S>,
        cache: &mut Cache,
        now: u128,
    ) -> (step: WatchStep)
        requires
            old(self).wf(),
            old(cache).wf(),
        ensures
            final(self).wf(),
            final(cache).wf(),
            final(cache)@ == watch_cache(old(self)@, event@, registry@, old(cache)@, now),
            (final(self)@, step@) == watch_next(
                old(self)@,
                event@,
                registry@,
                final(cache)@,
                now,
            ),
    {
        match (self.phase, event) {
            (WatchPhase::New, WatchEvent::Done) => if self.scheduler {
                self.phase = WatchPhase::Announcing;
                WatchStep::Demand(activity_of(&self.plan))
            } else {
                self.subscribe_now()
            },
            (WatchPhase::Announcing, WatchEvent::Done) => self.subscribe_now(),
            (WatchPhase::Subscribing, WatchEvent::Done) => {
                let queue = runs_for(
                    registry,
                    &self.plan.target,
                    borrowed(&self.plan.effective_path),
                    true,
                );
                self.queue = queue;
                self.next = 0;
                assert(self@.queue =~= texts(self.queue@));
                self.warm_up(registry, cache, now)
            },
            (WatchPhase::Warming, WatchEvent::Executed(fields)) => if self.next
                < self.queue.len() {
                let ghost before = self@;
                assert(before.queue[0] == self.queue@[self.next as int]@);
                let _ = store_execution(
                    cache,
                    registry,
                    target_provider(&self.plan.target).as_str(),
                    self.queue[self.next].as_str(),
                    borrowed(&self.plan.effective_path),
                    fields,
                    now,
                );
                self.next = self.next + 1;
                assert(self@.queue =~= before.queue.drop_first());
                self.warm_up(registry, cache, now)
            } else {
                self.stop_now()
            },
            (WatchPhase::Sending, WatchEvent::Done) => {
                self.phase = WatchPhase::Waiting;
                WatchStep::Wait
            },
            (WatchPhase::Waiting, WatchEvent::Notified) => if self.scheduler {
                self.phase = WatchPhase::Renewing;
                WatchStep::Demand(activity_of(&self.plan))
            } else {
                self.read_again(cache, now)
            },
            (WatchPhase::Renewing, WatchEvent::Done) => self.read_again(cache, now),
            (WatchPhase::Waiting, WatchEvent::Lagged) => self.read_again(cache, now),
            _ => self.stop_now(),
        }
    }
}

/// What reaches a stream at one time: an event, the cache after it, and the time.
pub struct Input {
    pub event: EventView,
    pub cache: CacheView,
    pub now: u128,
}

/// The responses that a stream sends over a course of inputs.
pub open spec fn sent(w: WatchView, registry: RegistryView, inputs: Seq<Input>) -> Seq<ResponseView>
    decreases inputs.len(),
{
    if inputs.len() == 0 {
        Seq::empty()
    } else {
        let (after, step) = watch_next(
            w,
            inputs[0].event,
            registry,
            inputs[0].cache,
            inputs[0].now,
        );
        let rest = sent(after, registry, inputs.drop_first());
        match step {
            WatchStepView::Send(r) => seq![r] + rest,
            _ => rest,
        }
    }
}

/// Whether the first response of a stream went out.
pub open spec fn streaming(w: WatchView) -> bool {
    w.phase == WatchPhase::Sending || w.phase == WatchPhase::Waiting || w.phase
        == WatchPhase::Renewing || w.phase == WatchPhase::Ended
}

/// Once a stream has begun, it sends a response only if its data differs from what
/// was sent before it.
pub proof fn law_sends_only_changes(w: WatchView, registry: RegistryView, inputs: Seq<Input>)
    requires
        streaming(w),
    ensures
        ({
            let out = sent(w, registry, inputs);
            &&& out.len() > 0 ==> !same_data(out[0].data, w.last)
            &&& forall|i: int|
                0 <= i < out.len() - 1 ==> !same_data(out[i + 1].data, (#[trigger] out[i]).data)
        }),
    decreases inputs.len(),
{
    if inputs.len() > 0 {
        let (after, step) = watch_next(
            w,
            inputs[0].event,
            registry,
            inputs[0].cache,
            inputs[0].now,
        );
        law_sends_only_changes(after, registry, inputs.drop_first());
        let rest = sent(after, registry, inputs.drop_first());
        match step {
            WatchStepView::Send(r) => {
                let out = seq![r] + rest;
                assert forall|i: int| 0 <= i < out.len() - 1 implies !same_data(
                    out[i + 1].data,
                    (#[trigger] out[i]).data,
                ) by {
                    if i == 0 {
                        assert(out[1] == rest[0]);
                    } else {
                        assert(out[i] == rest[i - 1]);
                        assert(out[i + 1] == rest[i]);
                    }
                }
            },
            _ => {},
        }
    }
}

/// Over its whole course a stream never sends the same data twice in a row.
pub proof fn law_no_repeats(w: WatchView, registry: RegistryView, inputs: Seq<Input>)
    ensures
        forall|i: int|
            #![trigger sent(w, registry, inputs)[i]]
            0 <= i < sent(w, registry, inputs).len() - 1 ==> !same_data(
                sent(w, registry, inputs)[i + 1].data,
                sent(w, registry, inputs)[i].data,
            ),
    decreases inputs.len(),
{
    if inputs.len() > 0 {
        let (after, step) = watch_next(
            w,
            inputs[0].event,
            registry,
            inputs[0].cache,
            inputs[0].now,
        );
        let rest = sent(after, registry, inputs.drop_first());
        law_no_repeats(after, registry, inputs.drop_first());
        match step {
            WatchStepView::Send(r) => {
                law_sends_only_changes(after, registry, inputs.drop_first());
                let out = seq![r] + rest;
                assert(sent(w, registry, inputs) == out);
                assert forall|i: int| 0 <= i < out.len() - 1 implies !same_data(
                    out[i + 1].data,
                    (#[trigger] out[i]).data,
                ) by {
                    if i == 0 {
                        assert(out[1] == rest[0]);
                    } else {
                        assert(out[i] == rest[i - 1]);
                        assert(out[i + 1] == rest[i]);
                    }
                }
            },
            _ => {},
        }
    }
}

/// A stream that awaits notifications never misses a change: on a notification,
/// told or missed, it sends what the cache holds exactly if that differs from what
/// was sent last.
pub proof fn law_changes_are_sent(w: WatchView, registry: RegistryView, cache: CacheView, now: u128)
    requires
        w.phase == WatchPhase::Waiting,
    ensures
        !w.scheduler ==> watch_next(w, EventView::Notified, registry, cache, now) == reread(
            w,
            cache,
            now,
        ),
        w.scheduler ==> {
            let told = watch_next(w, EventView::Notified, registry, cache, now);
            &&& told.1 == WatchStepView::Demand(activity_view(w.plan))
            &&& forall|later: CacheView, later_ms: u128|
                #![trigger reread(told.0, later, later_ms)]
                watch_next(told.0, EventView::Done, registry, later, later_ms) == reread(
                    told.0,
                    later,
                    later_ms,
                ) && told.0.last == w.last
        },
        watch_next(w, EventView::Lagged, registry, cache, now) == reread(w, cache, now),
        reread(w, cache, now).1 == (if same_data(watched(w, cache, now).data, w.last) {
            WatchStepView::Wait
        } else {
            WatchStepView::Send(watched(w, cache, now))
        }),
{
}

/// The steps of a stream over a course of inputs.
pub open spec fn steps(w: WatchView, registry: RegistryView, inputs: Seq<Input>) -> Seq<
    WatchStepView,
>
    decreases inputs.len(),
{
    if inputs.len() == 0 {
        Seq::empty()
    } else {
        let (after, step) = watch_next(
            w,
            inputs[0].event,
            registry,
            inputs[0].cache,
            inputs[0].now,
        );
        seq![step] + steps(after, registry, inputs.drop_first())
    }
}

/// Whether a stream has not yet subscribed to notifications.
pub open spec fn unsubscribed(w: WatchView) -> bool {
    w.phase == WatchPhase::New || w.phase == WatchPhase::Announcing
}

/// A stream subscribes to notifications before it reads: no response goes out, and
/// no source runs, without a subscription before it. So no change that follows the
/// read is missed.
pub proof fn law_subscribes_before_reading(
    w: WatchView,
    registry: RegistryView,
    inputs: Seq<Input>,
    i: int,
)
    requires
        unsubscribed(w),
        0 <= i < inputs.len(),
        steps(w, registry, inputs)[i] is Send || steps(w, registry, inputs)[i] is Execute,
    ensures
        exists|j: int| 0 <= j < i && (#[trigger] steps(w, registry, inputs)[j]) is Subscribe,
    decreases inputs.len(),
{
    let (after, step) = watch_next(
        w,
        inputs[0].event,
        registry,
        inputs[0].cache,
        inputs[0].now,
    );
    let rest = inputs.drop_first();
    let all = steps(w, registry, inputs);
    lemma_steps_len(after, registry, rest);
    assert(all[0] == step);
    assert(i > 0);
    assert(all[i] == steps(after, registry, rest)[i - 1]);
    if step is Subscribe {
        assert(all[0] is Subscribe);
    } else if step is Stop {
        law_ended_is_silent(after, registry, rest, i - 1);
    } else {
        law_subscribes_before_reading(after, registry, rest, i - 1);
        let j = choose|j: int|
            0 <= j < i - 1 && (#[trigger] steps(after, registry, rest)[j]) is Subscribe;
        assert(all[j + 1] == steps(after, registry, rest)[j]);
    }
}

proof fn lemma_steps_len(w: WatchView, registry: RegistryView, inputs: Seq<Input>)
    ensures
        steps(w, registry, inputs).len() == inputs.len(),
    decreases inputs.len(),
{
    if inputs.len() > 0 {
        let (after, _) = watch_next(
            w,
            inputs[0].event,
            registry,
            inputs[0].cache,
            inputs[0].now,
        );
        lemma_steps_len(after, registry, inputs.drop_first());
    }
}

/// Once a stream is over it does nothing any more.
pub proof fn law_ended_is_silent(w: WatchView, registry: RegistryView, inputs: Seq<Input>, i: int)
    requires
        w.phase == WatchPhase::Ended,
        0 <= i < inputs.len(),
    ensures
        steps(w, registry, inputs)[i] is Stop,
    decreases inputs.len(),
{
    let (after, step) = watch_next(
        w,
        inputs[0].event,
        registry,
        inputs[0].cache,
        inputs[0].now,
    );
    lemma_steps_len(after, registry, inputs.drop_first());
    if i > 0 {
        law_ended_is_silent(after, registry, inputs.drop_first(), i - 1);
        assert(steps(w, registry, inputs)[i] == steps(after, registry, inputs.drop_first())[i - 1]);
    }
}

/// Watching a key reads it as getting it does: from one cache and slot, and without
/// a metadata suffix, what a stream sends is what a get answers.
pub proof fn law_watch_reads_as_get_does(w: WatchView, cache: CacheView, now: u128)
    requires
        w.plan.meta is None,
    ensures
        watched(w, cache, now) == answer_view(
            cache,
            w.plan.target,
            w.plan.effective_path,
            w.plan.meta,
            now,
        ),
{
}

/// A stream runs nothing on a miss: before its first response only sources run that
/// run before every read, and none after it.
pub proof fn law_watch_runs_only_fresh_sources(
    w: WatchView,
    event: EventView,
    registry: RegistryView,
    cache: CacheView,
    now: u128,
)
    requires
        watch_next(w, event, registry, cache, now).1 is Execute,
    ensures
        w.phase == WatchPhase::Subscribing || w.phase == WatchPhase::Warming,
        w.phase == WatchPhase::Subscribing ==> watch_next(w, event, registry, cache, now).0.queue
            == planned_runs(registry, w.plan.target, w.plan.effective_path, true),
        w.phase == WatchPhase::Warming ==> watch_next(w, event, registry, cache, now).0.queue
            == w.queue.drop_first(),
{
}

/// What the steps of a stream are about. News for the scheduler carry the provider,
/// the path and the demand of the plan; the subscription is to its provider and
/// path; a source that runs is the first of those that wait, at the path that its
/// scope takes; and what is sent is what the cache holds, and remembered. The plan
/// never changes.
pub proof fn law_steps_follow_the_plan(
    w: WatchView,
    event: EventView,
    registry: RegistryView,
    cache: CacheView,
    now: u128,
)
    ensures
        ({
            let (next, step) = watch_next(w, event, registry, cache, now);
            &&& next.plan == w.plan && next.scheduler == w.scheduler
            &&& match step {
                WatchStepView::Demand(news) => w.scheduler && news.provider == w.plan.provider
                    && news.path == w.plan.effective_path && news.demand == w.plan.demand,
                WatchStepView::Subscribe(provider, path) => provider == w.plan.provider && path
                    == w.plan.effective_path,
                WatchStepView::Execute(e) => {
                    &&& next.queue.len() > 0 && e.source == next.queue[0]
                    &&& e.provider == w.plan.target.provider()
                    &&& registry.source(e.provider, e.source) matches Some(s) ==> e.path
                        == if s.scope == SourceScope::Global {
                        None
                    } else {
                        w.plan.effective_path
                    }
                },
                WatchStepView::Send(r) => r == read_view(
                    cache,
                    w.plan.target,
                    w.plan.effective_path,
                    now,
                ) && next.last == r.data,
                _ => true,
            }
            &&& !(step is Send) ==> next.last == w.last
        }),
{
}

/// Which step follows which event. A stream first tells the scheduler if there is
/// one, then subscribes; it waits after what was sent, and ends when the client or
/// the notifications are gone.
pub proof fn law_course_of_a_stream(
    w: WatchView,
    registry: RegistryView,
    cache: CacheView,
    now: u128,
)
    ensures
        ({
            let done = watch_next(w, EventView::Done, registry, cache, now);
            let failed = watch_next(w, EventView::Failed, registry, cache, now);
            let closed = watch_next(w, EventView::Closed, registry, cache, now);
            let told = watch_next(w, EventView::Notified, registry, cache, now);
            &&& w.phase == WatchPhase::New ==> if w.scheduler {
                done.1 is Demand && done.0.phase == WatchPhase::Announcing
            } else {
                done.1 is Subscribe && done.0.phase == WatchPhase::Subscribing
            }
            &&& w.phase == WatchPhase::Announcing ==> done.1 is Subscribe && done.0.phase
                == WatchPhase::Subscribing
            &&& w.phase == WatchPhase::Subscribing ==> (if planned_runs(
                registry,
                w.plan.target,
                w.plan.effective_path,
                true,
            ).len() > 0 {
                done.1 is Execute && done.0.phase == WatchPhase::Warming
            } else {
                done.1 is Send && done.0.phase == WatchPhase::Sending
            })
            &&& w.phase == WatchPhase::Sending ==> done.1 is Wait && done.0.phase
                == WatchPhase::Waiting
            &&& failed.1 is Stop && failed.0.phase == WatchPhase::Ended
            &&& closed.1 is Stop && closed.0.phase == WatchPhase::Ended
            &&& w.phase == WatchPhase::Waiting && w.scheduler ==> told.1 is Demand && told.0.phase
                == WatchPhase::Renewing
        }),
{
}

/// A change is sent whatever it is: a waiting stream that is notified sends data that
/// differs in kind, a boolean, text or null that differs at all, data where there was
/// none, and that there is none where there was data. What counts as the same data is
/// not sent again.
pub proof fn law_changed_data_is_sent(
    w: WatchView,
    registry: RegistryView,
    cache: CacheView,
    now: u128,
    unchanged: Option<Value>,
)
    requires
        w.phase == WatchPhase::Waiting,
        !w.scheduler,
    ensures
        ({
            let r = read_view(cache, w.plan.target, w.plan.effective_path, now);
            let step = watch_next(w, EventView::Notified, registry, cache, now).1;
            let late = watch_next(w, EventView::Lagged, registry, cache, now).1;
            &&& r.data is Some != w.last is Some ==> step == WatchStepView::Send(r) && late
                == WatchStepView::Send(r)
            &&& r.data matches Some(data) ==> (w.last matches Some(last) ==> ((data is Bool
                || data is Text || data is Null || last is Bool || last is Text || last is Null
                || (data is Number != last is Number) || (data is Array != last is Array)) && data
                != last ==> step == WatchStepView::Send(r) && late == WatchStepView::Send(r)))
            &&& r.data == opt_model(unchanged) && w.last == opt_model(unchanged) ==> step
                == WatchStepView::Wait && late == WatchStepView::Wait
        }),
{
    let r = read_view(cache, w.plan.target, w.plan.effective_path, now);
    if let (Some(data), Some(last)) = (r.data, w.last) {
        if same_json(data, last) {
            law_same_data_is_equal(data, last);
        }
    }
    law_missing_data_is_told_apart(unchanged, unchanged);
}

/// What a source gave that a stream had run is recorded for the first that waits;
/// nothing else that happens to a stream changes the cache.
pub proof fn law_streams_record_what_they_run(
    w: WatchView,
    event: EventView,
    registry: RegistryView,
    cache: CacheView,
    now: u128,
)
    ensures
        event matches EventView::Executed(fields) ==> (w.phase == WatchPhase::Warming
            && w.queue.len() > 0 ==> watch_cache(w, event, registry, cache, now) == stored(
            cache,
            registry,
            w.plan.target.provider(),
            w.queue[0],
            w.plan.effective_path,
            fields,
            now,
        )),
        !(event is Executed) || w.phase != WatchPhase::Warming ==> watch_cache(
            w,
            event,
            registry,
            cache,
            now,
        ) == cache,
{
}

/// What happens to a stream and what it needs are seen as they are.
pub proof fn law_events_are_seen_as_they_are(event: WatchEvent, step: WatchStep)
    ensures
        event@ == match event {
            WatchEvent::Done => EventView::Done,
            WatchEvent::Failed => EventView::Failed,
            WatchEvent::Executed(Some(fields)) => EventView::Executed(Some(fields_model(fields@))),
            WatchEvent::Executed(None) => EventView::Executed(None),
            WatchEvent::Notified => EventView::Notified,
            WatchEvent::Lagged => EventView::Lagged,
            WatchEvent::Closed => EventView::Closed,
        },
        step@ == match step {
            WatchStep::Demand(a) => WatchStepView::Demand(a@),
            WatchStep::Subscribe(provider, Some(path)) => WatchStepView::Subscribe(
                provider@,
                Some(path@),
            ),
            WatchStep::Subscribe(provider, None) => WatchStepView::Subscribe(provider@, None),
            WatchStep::Execute(e) => WatchStepView::Execute(e@),
            WatchStep::Send(r) => WatchStepView::Send(r@),
            WatchStep::Wait => WatchStepView::Wait,
            WatchStep::Stop => WatchStepView::Stop,
        },
{
}

} // verus!
