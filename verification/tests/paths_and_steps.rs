use agent_browser::session::{get_pid_path, get_socket_path, parse_pid};
use agent_browser::supervisor::{
    supervisor_step, SupAction, SupError, SupEvent, SupState, POLL_ATTEMPTS,
};

#[test]
fn paths_are_deterministic() {
    let a1 = get_socket_path("/tmp", "default");
    let a2 = get_socket_path("/tmp", "default");
    assert_eq!(a1, a2);
    assert_eq!(a1, "/tmp/agent-browser-default.sock");
    assert_eq!(get_pid_path("/tmp", "default"), "/tmp/agent-browser-default.pid");
}

#[test]
fn distinct_sessions_never_collide() {
    let names = ["a", "b", "default", "a.sock", "x-y", ""];
    let mut all: Vec<String> = Vec::new();
    for n in names {
        all.push(get_socket_path("/tmp", n));
        all.push(get_pid_path("/tmp", n));
    }
    for i in 0..all.len() {
        for j in 0..all.len() {
            if i != j {
                assert_ne!(all[i], all[j], "paths {} and {} collide", i, j);
            }
        }
    }
}

#[test]
fn parse_pid_trims_and_parses() {
    assert_eq!(parse_pid("1234"), Some(1234));
    assert_eq!(parse_pid("  1234\n"), Some(1234));
    assert_eq!(parse_pid("-7\n"), Some(-7));
    assert_eq!(parse_pid(""), None);
    assert_eq!(parse_pid("  \n"), None);
    assert_eq!(parse_pid("12x"), None);
    assert_eq!(parse_pid("99999999999999999999"), None);
}

#[test]
fn absent_marker_spawns_before_polling() {
    let (s1, a1) = supervisor_step(SupState::Start, SupEvent::MarkerPid(None));
    assert_eq!(s1, SupState::CheckingMarker);
    assert_eq!(a1, SupAction::ReadMarker);
    let (s2, a2) = supervisor_step(s1, SupEvent::MarkerPid(None));
    assert_eq!(s2, SupState::Locating);
    assert_eq!(a2, SupAction::LocateExecutable);
}

#[test]
fn dead_pid_is_a_stale_marker() {
    let (s1, a1) = supervisor_step(SupState::CheckingMarker, SupEvent::MarkerPid(Some(4321)));
    assert_eq!(s1, SupState::ProbingPid);
    assert_eq!(a1, SupAction::ProbePid(4321));
    let (s2, a2) = supervisor_step(s1, SupEvent::ProbeResult(false));
    assert_eq!(s2, SupState::Locating);
    assert_eq!(a2, SupAction::LocateExecutable);
}

#[test]
fn fast_path_never_spawns() {
    let (s1, _) = supervisor_step(SupState::CheckingMarker, SupEvent::MarkerPid(Some(1)));
    let (s2, a2) = supervisor_step(s1, SupEvent::ProbeResult(true));
    assert_eq!(s2, SupState::CheckingSocketFast);
    assert_eq!(a2, SupAction::CheckSocket);
    let (s3, a3) = supervisor_step(s2, SupEvent::SocketExists(true));
    assert_eq!(s3, SupState::Ready);
    assert_eq!(a3, SupAction::Stop);
}

#[test]
fn missing_executable_is_fatal() {
    let (s, a) = supervisor_step(SupState::Locating, SupEvent::ExecutableFound(false));
    assert_eq!(s, SupState::Failed { reason: SupError::NoExecutable });
    assert_eq!(a, SupAction::Stop);
}

#[test]
fn failed_spawn_is_fatal() {
    let (s, a) = supervisor_step(SupState::Spawning, SupEvent::SpawnResult(false));
    assert_eq!(s, SupState::Failed { reason: SupError::SpawnFailed });
    assert_eq!(a, SupAction::Stop);
}

#[test]
fn polling_is_bounded_and_times_out() {
    let (mut s, mut a) = supervisor_step(SupState::Spawning, SupEvent::SpawnResult(true));
    assert_eq!(s, SupState::Polling { left: POLL_ATTEMPTS });
    assert_eq!(a, SupAction::SleepThenCheckSocket);
    let mut polls = 0u32;
    loop {
        let (ns, na) = supervisor_step(s, SupEvent::SocketExists(false));
        polls += 1;
        s = ns;
        a = na;
        if let SupState::Failed { reason } = s {
            assert_eq!(reason, SupError::StartTimeout);
            assert_eq!(a, SupAction::Stop);
            break;
        }
        assert!(polls < 100, "polling never ends");
    }
    assert_eq!(polls, POLL_ATTEMPTS as u32);
}

#[test]
fn poll_success_is_ready() {
    let (s, _) = supervisor_step(SupState::Polling { left: 3 }, SupEvent::SocketExists(true));
    assert_eq!(s, SupState::Ready);
}
