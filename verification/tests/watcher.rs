use beachcomber::watcher::{
    event_action, native_config, next_probe, polling_config, polling_fallback_config,
    polling_fallback_interval, probe_dir_name, watch_self_test_timeout, EventAction, ProbeStep,
    WatchBackend, WatchCalls,
};
use std::time::Duration;

#[test]
fn backends_have_names() {
    assert_eq!(WatchBackend::Native.as_str(), "native");
    assert_eq!(WatchBackend::Polling.as_str(), "polling");
}

#[test]
fn durations_are_as_documented() {
    assert_eq!(watch_self_test_timeout(), Duration::from_secs(2));
    assert_eq!(polling_fallback_interval(), Duration::from_millis(1_000));
}

#[test]
fn native_watchers_use_the_defaults() {
    let config = native_config();
    assert_eq!(config.poll_interval(), Some(Duration::from_secs(30)));
    assert!(!config.compare_contents());
    assert!(config.follow_symlinks());
}

#[test]
fn polling_for_small_trees_compares_contents() {
    let config = polling_config(Duration::from_millis(40));
    assert_eq!(config.poll_interval(), Some(Duration::from_millis(40)));
    assert!(config.compare_contents());
    assert!(config.follow_symlinks());
}

#[test]
fn the_polling_fallback_only_looks_at_times() {
    let config = polling_fallback_config(polling_fallback_interval());
    assert_eq!(config.poll_interval(), Some(Duration::from_secs(1)));
    assert!(!config.compare_contents());
    assert!(config.follow_symlinks());
}

#[test]
fn events_without_paths_are_dropped() {
    let event: Result<Vec<&str>, &str> = Ok(vec!["/a", "/b"]);
    assert!(matches!(event_action(event), EventAction::Forward(p) if p == ["/a", "/b"]));
    let event: Result<Vec<&str>, &str> = Ok(Vec::new());
    assert!(matches!(event_action(event), EventAction::Drop));
    let event: Result<Vec<&str>, &str> = Err("broken");
    assert!(matches!(event_action(event), EventAction::Warn("broken")));
}

#[test]
fn registrations_are_counted() {
    let mut calls = WatchCalls::new();
    assert_eq!(calls.watch_call_count(), 0);
    calls.record();
    calls.record();
    assert_eq!(calls.watch_call_count(), 2);
}

#[test]
fn the_probe_directory_carries_the_process() {
    assert_eq!(probe_dir_name(4711), ".comb-watch-selftest-4711");
    assert_eq!(probe_dir_name(0), ".comb-watch-selftest-0");
}

fn probe(worked: [bool; 6]) -> (ProbeStep, bool) {
    let mut step = ProbeStep::MakeDir;
    let mut cleaned = false;
    for w in worked {
        cleaned = cleaned || matches!(step, ProbeStep::Clean { .. });
        step = next_probe(step, w);
    }
    (step, cleaned)
}

#[test]
fn delivery_takes_every_step_of_the_probe() {
    let yes = ProbeStep::Done { delivered: true };
    let no = ProbeStep::Done { delivered: false };
    assert_eq!(probe([true; 6]), (yes, true));
    // Whether the directory could be removed does not matter.
    assert_eq!(probe([true, true, true, true, true, false]), (yes, true));
    assert_eq!(probe([true, true, true, true, false, true]), (no, true));
    assert_eq!(probe([true, true, true, false, true, true]), (no, true));
    assert_eq!(probe([true, true, false, true, true, true]), (no, true));
    assert_eq!(probe([true, false, true, true, true, true]), (no, true));
    assert_eq!(probe([false, true, true, true, true, true]), (no, false));
}
