use stremio_shell::coordinator::{channel_path, forwarded_effects, launch_action, LaunchAction};
use stremio_shell::log_ring::LogRing;
use stremio_shell::router::Effect;
use stremio_shell::supervisor::{
    detect_endpoint, Supervisor, SupervisorAction, SupervisorEvent, SupervisorState,
};
use stremio_shell::{IPC_PATH, RESTART_DELAY_MS};

fn s(x: &str) -> String {
    x.to_string()
}

#[test]
fn second_launch_forwards_and_never_binds() {
    match launch_action(true, s("magnet:x")) {
        LaunchAction::ForwardAndExit(arg) => assert_eq!(arg, "magnet:x"),
        LaunchAction::BindAndServe => panic!("a second launch must not bind"),
    }
    assert!(matches!(launch_action(false, s("magnet:x")), LaunchAction::BindAndServe));
}

#[test]
fn forwarded_argument_raises_one_open_media_event() {
    let effects = forwarded_effects("magnet:x");
    assert_eq!(effects.len(), 2);
    assert!(matches!(effects[0], Effect::NoticeFocus));
    let opens = effects
        .iter()
        .filter(|e| matches!(e, Effect::SendToWeb(_)))
        .count();
    assert_eq!(opens, 1);
    // an empty forwarded argument must not produce an open-media event
    let effects = forwarded_effects("");
    assert_eq!(effects.len(), 1);
    assert!(matches!(effects[0], Effect::NoticeFocus));
}

#[test]
fn channel_path_is_per_user() {
    assert_eq!(channel_path("alice"), format!("{IPC_PATH}alice"));
    assert_ne!(channel_path("alice"), channel_path("bob"));
}

#[test]
fn unrequested_exit_restarts_after_delay() {
    let (mut sup, first) = Supervisor::new();
    assert!(matches!(first, SupervisorAction::Spawn));
    assert!(matches!(sup.step(SupervisorEvent::SpawnedOk { pid: 41 }), SupervisorAction::DoNothing));
    // the crash asks for the fixed delay, never an immediate spawn
    match sup.step(SupervisorEvent::Exited) {
        SupervisorAction::Sleep { ms } => assert_eq!(ms, RESTART_DELAY_MS),
        _ => panic!("an unrequested exit must back off"),
    }
    assert!(matches!(sup.state, SupervisorState::Backoff));
    // only the elapsed delay spawns again
    assert!(matches!(sup.step(SupervisorEvent::DelayElapsed), SupervisorAction::Spawn));
}

#[test]
fn kill_then_crash_restart_race_leaves_no_child() {
    let (mut sup, _) = Supervisor::new();
    sup.step(SupervisorEvent::SpawnedOk { pid: 41 });
    // the kill terminates the running child and sets the sentinel
    match sup.try_kill() {
        SupervisorAction::Terminate { pid } => assert_eq!(pid, 41),
        _ => panic!("the kill must terminate the running child"),
    }
    // the racing exit-and-restart never spawns again
    assert!(matches!(sup.step(SupervisorEvent::Exited), SupervisorAction::DoNothing));
    assert!(matches!(sup.step(SupervisorEvent::DelayElapsed), SupervisorAction::DoNothing));
    // and a child delivered by a lost spawn race is terminated at once
    match sup.step(SupervisorEvent::SpawnedOk { pid: 42 }) {
        SupervisorAction::Terminate { pid } => assert_eq!(pid, 42),
        _ => panic!("a racing child must be terminated"),
    }
    assert!(matches!(sup.state, SupervisorState::Stopped));
}

#[test]
fn spawn_failure_is_fatal() {
    let (mut sup, _) = Supervisor::new();
    assert!(matches!(sup.step(SupervisorEvent::SpawnFailed), SupervisorAction::ReportFatal));
    assert!(matches!(sup.state, SupervisorState::Failed));
}

#[test]
fn log_ring_keeps_most_recent_lines() {
    let mut ring = LogRing::new(3);
    for line in ["a", "b", "c", "d", "e"] {
        ring.append(s(line));
    }
    assert_eq!(ring.len(), 3);
    // oldest evicted first, chronological order preserved
    assert_eq!(ring.get(0), "c");
    assert_eq!(ring.get(1), "d");
    assert_eq!(ring.get(2), "e");
}

#[test]
fn log_ring_below_capacity_keeps_everything() {
    let mut ring = LogRing::new(20);
    ring.append(s("one"));
    ring.append(s("two"));
    assert_eq!(ring.len(), 2);
    assert_eq!(ring.get(0), "one");
    assert_eq!(ring.get(1), "two");
}

#[test]
fn endpoint_is_read_from_the_announcement_line() {
    assert_eq!(
        detect_endpoint("EngineFS server started at http://127.0.0.1:11470"),
        Some("http://127.0.0.1:11470".to_string())
    );
    assert_eq!(
        detect_endpoint("EngineFS server started at http://127.0.0.1:11470/  "),
        Some("http://127.0.0.1:11470/".to_string())
    );
    assert_eq!(detect_endpoint("hls executables located at /usr/bin"), None);
    assert_eq!(detect_endpoint(""), None);
}
