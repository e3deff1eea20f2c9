//! File-watching decisions: which backend serves, how it is configured, and
//! which of its events are passed on.

use std::time::Duration;

use vstd::prelude::*;

use crate::text::{decimal, decimal_text, law_decimal_stands_for_its_number};

verus! {

/// Which backend serves provider file-watching, decided once at daemon startup
/// by the watch self-test.
#[derive(Debug, Clone, Copy, PartialEq, Eq, Structural)]
pub enum WatchBackend {
    /// Kernel-native: the self-test confirmed delivery.
    Native,
    /// Polling fallback: the self-test saw no events.
    Polling,
}

impl WatchBackend {
    pub open spec fn name(self) -> Seq<char> {
        match self {
            WatchBackend::Native => "native"@,
            WatchBackend::Polling => "polling"@,
        }
    }

    /// The name of the backend in reports.
    pub fn as_str(self) -> (name: &'static str)
        ensures
            name@ == self.name(),
    {
        match self {
            WatchBackend::Native => "native",
            WatchBackend::Polling => "polling",
        }
    }
}

/// Seconds the watch self-test waits for its event. Healthy-idle delivery takes
/// about 10ms, but hundreds of ms under heavy filesystem load, and the timeout
/// must not misclassify a loaded but healthy backend as dead.
pub const WATCH_SELF_TEST_TIMEOUT_SECS: u64 = 2;

/// Seconds between scans of the production polling fallback.
pub const POLLING_FALLBACK_INTERVAL_SECS: u64 = 1;

/// What `Duration::from_secs` makes of a number of seconds.
pub uninterp spec fn whole_secs(secs: u64) -> Duration;

/// `Duration::from_secs` makes the duration of that many seconds.
pub assume_specification[ std::time::Duration::from_secs ](secs: u64) -> (duration: Duration)
    ensures
        duration == whole_secs(secs),
;

/// How long the watch self-test waits for its event.
pub fn watch_self_test_timeout() -> (timeout: Duration)
    ensures
        timeout == whole_secs(WATCH_SELF_TEST_TIMEOUT_SECS),
{
    Duration::from_secs(WATCH_SELF_TEST_TIMEOUT_SECS)
}

/// The time between scans of the production polling fallback.
pub fn polling_fallback_interval() -> (interval: Duration)
    ensures
        interval == whole_secs(POLLING_FALLBACK_INTERVAL_SECS),
{
    Duration::from_secs(POLLING_FALLBACK_INTERVAL_SECS)
}

/// How many batches of changed paths may wait to be handled.
pub const EVENT_QUEUE_DEPTH: usize = 256;

/// `notify::Config`, the settings of a watcher backend.
#[verifier::external_type_specification]
#[verifier::external_body]
pub struct ExNotifyConfig(notify::Config);

/// What `notify::Config::poll_interval` reports of a configuration.
pub uninterp spec fn poll_interval(config: notify::Config) -> Option<Duration>;

/// What `notify::Config::compare_contents` reports of a configuration.
pub uninterp spec fn compare_contents(config: notify::Config) -> bool;

/// What `notify::Config::follow_symlinks` reports of a configuration.
pub uninterp spec fn follow_symlinks(config: notify::Config) -> bool;

/// `notify::Config::default`: a poll interval of 30 seconds, contents are not
/// compared, and symbolic links are followed.
#[verifier::external_body]
fn default_config() -> (config: notify::Config)
    ensures
        poll_interval(config) == Some(whole_secs(30)),
        !compare_contents(config),
        follow_symlinks(config),
{
    notify::Config::default()
}

/// `notify::Config::with_poll_interval` sets the poll interval and keeps the
/// other settings.
pub assume_specification[ notify::Config::with_poll_interval ](
    config: notify::Config,
    dur: Duration,
) -> (out: notify::Config)
    ensures
        poll_interval(out) == Some(dur),
        compare_contents(out) == compare_contents(config),
        follow_symlinks(out) == follow_symlinks(config),
;

/// `notify::Config::with_compare_contents` sets whether contents are compared
/// and keeps the other settings.
pub assume_specification[ notify::Config::with_compare_contents ](
    config: notify::Config,
    compare: bool,
) -> (out: notify::Config)
    ensures
        poll_interval(out) == poll_interval(config),
        compare_contents(out) == compare,
        follow_symlinks(out) == follow_symlinks(config),
;

/// The configuration of the kernel-native watcher.
pub fn native_config() -> (config: notify::Config)
    ensures
        poll_interval(config) == Some(whole_secs(30)),
        !compare_contents(config),
        follow_symlinks(config),
{
    default_config()
}

/// The configuration of a polling watcher for small trees. Comparing contents
/// detects rewrites that the resolution of modification times would hide, at
/// the cost of a hash per file and scan.
pub fn polling_config(interval: Duration) -> (config: notify::Config)
    ensures
        poll_interval(config) == Some(interval),
        compare_contents(config),
        follow_symlinks(config),
{
    default_config().with_poll_interval(interval).with_compare_contents(true)
}

/// The configuration of the production polling fallback: a scan of modification
/// times every `interval`, without content hashing, which would be too costly
/// for whole project trees.
pub fn polling_fallback_config(interval: Duration) -> (config: notify::Config)
    ensures
        poll_interval(config) == Some(interval),
        !compare_contents(config),
        follow_symlinks(config),
{
    default_config().with_poll_interval(interval)
}

/// What becomes of an event of the watcher backend.
#[derive(Debug)]
pub enum EventAction<P, E> {
    /// Pass the changed paths on.
    Forward(Vec<P>),
    /// Nothing changed.
    Drop,
    /// Report the backend's error.
    Warn(E),
}

/// Decides what becomes of an event: one that names no path is dropped.
pub fn event_action<P, E>(event: Result<Vec<P>, E>) -> (action: EventAction<P, E>)
    ensures
        match event {
            Ok(paths) => if paths@.len() == 0 {
                action is Drop
            } else {
                action == EventAction::<P, E>::Forward(paths)
            },
            Err(e) => action == EventAction::<P, E>::Warn(e),
        },
{
    match event {
        Ok(paths) => if paths.is_empty() {
            EventAction::Drop
        } else {
            EventAction::Forward(paths)
        },
        Err(e) => EventAction::Warn(e),
    }
}

/// Counts the kernel `watch` registrations that one watcher makes.
#[derive(Debug)]
pub struct WatchCalls {
    calls: usize,
}

impl View for WatchCalls {
    type V = usize;

    closed spec fn view(&self) -> usize {
        self.calls
    }
}

impl WatchCalls {
    pub fn new() -> (counter: WatchCalls)
        ensures
            counter@ == 0,
    {
        WatchCalls { calls: 0 }
    }

    /// Counts one registration; past the largest count it starts over.
    pub fn record(&mut self)
        ensures
            final(self)@ == (if old(self)@ == usize::MAX {
                0
            } else {
                old(self)@ + 1
            }),
    {
        self.calls = if self.calls == usize::MAX {
            0
        } else {
            self.calls + 1
        };
    }

    /// The number of registrations made so far.
    pub fn watch_call_count(&self) -> (count: usize)
        ensures
            count == self@,
    {
        self.calls
    }
}

/// The name of the private directory that the self-test of process `pid` probes.
pub fn probe_dir_name(pid: u32) -> (name: String)
    ensures
        name@ == ".comb-watch-selftest-"@ + decimal(pid as nat),
{
    let mut name = ".comb-watch-selftest-".to_owned();
    let digits = decimal_text(pid as u64);
    name.append(digits.as_str());
    name
}

/// What the self-test of the kernel-native backend does, in turn.
#[derive(Debug, Clone, Copy, PartialEq, Eq, Structural)]
pub enum ProbeStep {
    /// Make the private directory.
    MakeDir,
    /// Start a kernel-native watcher.
    Start,
    /// Watch the directory.
    Watch,
    /// Write a file in it.
    Write,
    /// Wait for the event.
    Await,
    /// Remove the directory; the event was delivered if `delivered` is set.
    Clean { delivered: bool },
    /// The test is over.
    Done { delivered: bool },
}

/// What the self-test does after a step that worked or did not. Only an event that
/// was waited for counts as delivered; the directory is removed once it was made,
/// and whether removing it works does not matter.
pub open spec fn probe_after(step: ProbeStep, worked: bool) -> ProbeStep {
    match step {
        ProbeStep::Await => ProbeStep::Clean { delivered: worked },
        ProbeStep::Clean { delivered } => ProbeStep::Done { delivered },
        ProbeStep::Done { delivered } => ProbeStep::Done { delivered },
        ProbeStep::MakeDir => if worked {
            ProbeStep::Start
        } else {
            ProbeStep::Done { delivered: false }
        },
        _ => if !worked {
            ProbeStep::Clean { delivered: false }
        } else if step == ProbeStep::Start {
            ProbeStep::Watch
        } else if step == ProbeStep::Watch {
            ProbeStep::Write
        } else {
            ProbeStep::Await
        },
    }
}

/// What the self-test does after a step that worked or did not.
pub fn next_probe(step: ProbeStep, worked: bool) -> (next: ProbeStep)
    ensures
        next == probe_after(step, worked),
{
    match step {
        ProbeStep::MakeDir => if worked {
            ProbeStep::Start
        } else {
            ProbeStep::Done { delivered: false }
        },
        ProbeStep::Start => if worked {
            ProbeStep::Watch
        } else {
            ProbeStep::Clean { delivered: false }
        },
        ProbeStep::Watch => if worked {
            ProbeStep::Write
        } else {
            ProbeStep::Clean { delivered: false }
        },
        ProbeStep::Write => if worked {
            ProbeStep::Await
        } else {
            ProbeStep::Clean { delivered: false }
        },
        ProbeStep::Await => ProbeStep::Clean { delivered: worked },
        ProbeStep::Clean { delivered } => ProbeStep::Done { delivered },
        ProbeStep::Done { delivered } => ProbeStep::Done { delivered },
    }
}

/// Where the self-test stands after the steps that worked or did not.
pub open spec fn probe_course(worked: Seq<bool>) -> ProbeStep
    decreases worked.len(),
{
    if worked.len() == 0 {
        ProbeStep::MakeDir
    } else {
        probe_after(probe_course(worked.drop_last()), worked.last())
    }
}

/// The self-test takes six steps at most. It reports delivery exactly if every step
/// up to the event worked, and it removes the directory exactly if it made it.
pub proof fn law_probe_course(worked: Seq<bool>)
    requires
        worked.len() == 6,
    ensures
        probe_course(worked) == (ProbeStep::Done {
            delivered: worked[0] && worked[1] && worked[2] && worked[3] && worked[4],
        }),
        (exists|k: int| 0 <= k < 6 && #[trigger] probe_course(worked.take(k)) is Clean)
            <==> worked[0],
{
    assert(worked.take(6) =~= worked);
    assert(worked.take(0) =~= Seq::<bool>::empty());
    lemma_probe_step(worked, 0);
    lemma_probe_step(worked, 1);
    lemma_probe_step(worked, 2);
    lemma_probe_step(worked, 3);
    lemma_probe_step(worked, 4);
    lemma_probe_step(worked, 5);
    if worked[0] {
        assert(probe_course(worked.take(2)) is Clean || probe_course(worked.take(3)) is Clean
            || probe_course(worked.take(4)) is Clean || probe_course(worked.take(5)) is Clean);
    }
}

proof fn lemma_probe_step(worked: Seq<bool>, k: int)
    requires
        0 <= k < worked.len(),
    ensures
        probe_course(worked.take(k + 1)) == probe_after(probe_course(worked.take(k)), worked[k]),
{
    assert(worked.take(k + 1).drop_last() =~= worked.take(k));
}

/// The two polling watchers poll at the interval they are made for and differ in
/// whether they compare contents; the kernel-native one compares none. All of them
/// follow symbolic links.
pub proof fn law_watchers_are_configured(
    interval: Duration,
    small: notify::Config,
    fallback: notify::Config,
    native: notify::Config,
)
    requires
        call_ensures(polling_config, (interval,), small),
        call_ensures(polling_fallback_config, (interval,), fallback),
        call_ensures(native_config, (), native),
    ensures
        poll_interval(small) == Some(interval) && poll_interval(fallback) == Some(interval),
        compare_contents(small) && !compare_contents(fallback) && !compare_contents(native),
        follow_symlinks(small) && follow_symlinks(fallback) && follow_symlinks(native),
{
}

/// An event is passed on exactly if it names a path, with all of its paths, and an
/// error is reported as it is.
pub proof fn law_events_with_paths_are_passed_on<P, E>(
    event: Result<Vec<P>, E>,
    action: EventAction<P, E>,
)
    requires
        call_ensures(event_action::<P, E>, (event,), action),
    ensures
        action matches EventAction::Forward(paths) ==> event == Ok::<Vec<P>, E>(paths)
            && paths@.len() > 0,
        action is Drop <==> event is Ok && event->Ok_0@.len() == 0,
        action matches EventAction::Warn(e) ==> event == Err::<Vec<P>, E>(e),
        action is Warn <==> event is Err,
{
}

/// Every process probes a directory of its own.
pub proof fn law_probe_directories_differ(a: u32, b: u32, x: String, y: String)
    requires
        call_ensures(probe_dir_name, (a,), x),
        call_ensures(probe_dir_name, (b,), y),
        a != b,
    ensures
        x@ != y@,
{
    let start = ".comb-watch-selftest-"@;
    law_decimal_stands_for_its_number(a as nat);
    law_decimal_stands_for_its_number(b as nat);
    if x@ == y@ {
        assert(decimal(a as nat) =~= x@.skip(start.len() as int));
        assert(decimal(b as nat) =~= y@.skip(start.len() as int));
    }
}

/// The self-test waits two seconds for its event, the polling fallback scans every
/// second, and 256 batches of changed paths may wait to be handled.
pub proof fn law_waiting_times(timeout: Duration, interval: Duration)
    requires
        call_ensures(watch_self_test_timeout, (), timeout),
        call_ensures(polling_fallback_interval, (), interval),
    ensures
        timeout == whole_secs(2),
        interval == whole_secs(1),
        EVENT_QUEUE_DEPTH == 256,
{
}

/// Each backend has a name of its own.
pub proof fn law_backends_are_told_apart(
    a: WatchBackend,
    b: WatchBackend,
    x: &'static str,
    y: &'static str,
)
    requires
        call_ensures(WatchBackend::as_str, (a,), x),
        call_ensures(WatchBackend::as_str, (b,), y),
    ensures
        x@ == y@ <==> a == b,
        x@ == "native"@ <==> a == WatchBackend::Native,
        x@ == "polling"@ <==> a == WatchBackend::Polling,
{
    reveal_strlit("native");
    reveal_strlit("polling");
    assert("native"@[0] != "polling"@[0]);
}

/// Every registration is counted once: the counter begins at zero and grows by one with
/// each, up to the largest count.
pub proof fn law_registrations_are_counted(fresh: WatchCalls, none: usize)
    ensures
        call_ensures(WatchCalls::new, (), fresh) && call_ensures(
            WatchCalls::watch_call_count,
            (&fresh,),
            none,
        ) ==> none == 0,
        forall|counter: &mut WatchCalls, before: usize, after: usize|
            #![trigger call_ensures(WatchCalls::record, (counter,), ()), call_ensures(
                WatchCalls::watch_call_count,
                (&*counter,),
                before,
            ), call_ensures(WatchCalls::watch_call_count, (final(counter),), after)]
            call_ensures(WatchCalls::record, (counter,), ()) && call_ensures(
                WatchCalls::watch_call_count,
                (&*counter,),
                before,
            ) && call_ensures(WatchCalls::watch_call_count, (final(counter),), after) ==> (before
                < usize::MAX ==> after == before + 1) && (before == usize::MAX ==> after == 0),
{
}

/// The directory that a process probes is named by its number.
pub proof fn law_probe_directory(pid: u32, name: String)
    requires
        call_ensures(probe_dir_name, (pid,), name),
    ensures
        name@.take(21) == ".comb-watch-selftest-"@,
        name@.skip(21) == decimal(pid as nat),
{
    reveal_strlit(".comb-watch-selftest-");
    assert(".comb-watch-selftest-"@.len() == 21);
    assert(name@.take(21) =~= ".comb-watch-selftest-"@);
    assert(name@.skip(21) =~= decimal(pid as nat));
}

} // verus!
