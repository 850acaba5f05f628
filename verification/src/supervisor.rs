//! The worker supervisor's decisions, as a state machine from state and
//! event to next state and action. The caller performs each action
//! (read a file, probe a process id, check the socket, spawn, sleep)
//! and hands the outcome back as the next event; the decisions
//! themselves are pure and verified.
//!
//! Readiness is a probe, not a guarantee: marker and socket existence
//! stand in for a handshake, with a documented race window between
//! socket creation and listener readiness.

use vstd::prelude::*;

verus! {

/// How many times the socket is polled for after a spawn.
pub const POLL_ATTEMPTS: u8 = 50;

/// How long the caller sleeps between two polls, in milliseconds.
pub const POLL_INTERVAL_MS: u64 = 100;

/// Where the supervisor stands.
#[derive(PartialEq, Eq, Structural, Clone, Copy, Debug)]
pub enum SupState {
    /// Nothing read yet.
    Start,
    /// Waiting for the marker file's contents.
    CheckingMarker,
    /// Waiting for the probe of the stored process id.
    ProbingPid,
    /// The process is alive; waiting for the socket-existence check.
    CheckingSocketFast,
    /// A worker must be spawned; waiting to hear whether an executable
    /// candidate exists.
    Locating,
    /// Waiting for the spawn's outcome.
    Spawning,
    /// Waiting for a socket-existence poll, with this many attempts
    /// left.
    Polling { left: u8 },
    /// A worker is listening on the session's socket.
    Ready,
    /// The supervisor gave up.
    Failed { reason: SupError },
}

/// Why the supervisor gave up.
#[derive(PartialEq, Eq, Structural, Clone, Copy, Debug)]
pub enum SupError {
    /// No worker executable was found at any candidate location.
    NoExecutable,
    /// The worker process could not be launched.
    SpawnFailed,
    /// The socket never appeared within the bounded poll window.
    StartTimeout,
}

/// What the caller reports back.
pub enum SupEvent {
    /// The marker file's stored process id, or nothing when the file is
    /// absent, unreadable, or does not hold a process id.
    MarkerPid(Option<i32>),
    /// Whether the non-destructive signal probe found the process.
    ProbeResult(bool),
    /// Whether the session's socket path exists.
    SocketExists(bool),
    /// Whether some executable candidate exists.
    ExecutableFound(bool),
    /// Whether the worker process was launched.
    SpawnResult(bool),
}

/// What the caller must do next.
#[derive(PartialEq, Eq, Structural, Clone, Copy, Debug)]
pub enum SupAction {
    /// Read the marker file and report its stored process id.
    ReadMarker,
    /// Probe the process id with a non-destructive signal.
    ProbePid(i32),
    /// Report whether the socket path exists.
    CheckSocket,
    /// Report whether a worker executable candidate exists.
    LocateExecutable,
    /// Launch the worker, detached, and report whether that worked.
    Spawn,
    /// Sleep one poll interval, then report whether the socket exists.
    SleepThenCheckSocket,
    /// Nothing: the supervisor is done, successfully or not.
    Stop,
}

/// One decision step. Unexpected events leave the machine where it is
/// and repeat its pending action.
pub open spec fn spec_step(s: SupState, e: SupEvent) -> (SupState, SupAction) {
    match (s, e) {
        (SupState::Start, _) => (SupState::CheckingMarker, SupAction::ReadMarker),
        (SupState::CheckingMarker, SupEvent::MarkerPid(p)) => match p {
            // an absent or stale marker is not trusted: spawn
            None => (SupState::Locating, SupAction::LocateExecutable),
            Some(pid) => (SupState::ProbingPid, SupAction::ProbePid(pid)),
        },
        (SupState::ProbingPid, SupEvent::ProbeResult(alive)) => if alive {
            (SupState::CheckingSocketFast, SupAction::CheckSocket)
        } else {
            // a dead process id is a stale marker: spawn
            (SupState::Locating, SupAction::LocateExecutable)
        },
        (SupState::CheckingSocketFast, SupEvent::SocketExists(ex)) => if ex {
            // fast path: alive worker and an existing socket
            (SupState::Ready, SupAction::Stop)
        } else {
            (SupState::Locating, SupAction::LocateExecutable)
        },
        (SupState::Locating, SupEvent::ExecutableFound(found)) => if found {
            (SupState::Spawning, SupAction::Spawn)
        } else {
            (SupState::Failed { reason: SupError::NoExecutable }, SupAction::Stop)
        },
        (SupState::Spawning, SupEvent::SpawnResult(ok)) => if ok {
            (SupState::Polling { left: POLL_ATTEMPTS }, SupAction::SleepThenCheckSocket)
        } else {
            (SupState::Failed { reason: SupError::SpawnFailed }, SupAction::Stop)
        },
        (SupState::Polling { left }, SupEvent::SocketExists(ex)) => if ex {
            (SupState::Ready, SupAction::Stop)
        } else if left <= 1 {
            (SupState::Failed { reason: SupError::StartTimeout }, SupAction::Stop)
        } else {
            (SupState::Polling { left: (left - 1) as u8 }, SupAction::SleepThenCheckSocket)
        },
        (SupState::Ready, _) => (SupState::Ready, SupAction::Stop),
        (SupState::Failed { reason }, _) => (SupState::Failed { reason }, SupAction::Stop),
        (SupState::CheckingMarker, _) => (SupState::CheckingMarker, SupAction::ReadMarker),
        (SupState::ProbingPid, _) => (SupState::CheckingMarker, SupAction::ReadMarker),
        (SupState::CheckingSocketFast, _) => (SupState::CheckingSocketFast, SupAction::CheckSocket),
        (SupState::Locating, _) => (SupState::Locating, SupAction::LocateExecutable),
        (SupState::Spawning, _) => (SupState::Locating, SupAction::LocateExecutable),
        (SupState::Polling { left }, _) => (
            SupState::Polling { left },
            SupAction::SleepThenCheckSocket,
        ),
    }
}

/// Takes one decision step, exactly as [`spec_step`] says.
pub fn supervisor_step(s: SupState, e: SupEvent) -> (r: (SupState, SupAction))
    ensures
        r == spec_step(s, e),
{
    match (s, e) {
        (SupState::Start, _) => (SupState::CheckingMarker, SupAction::ReadMarker),
        (SupState::CheckingMarker, SupEvent::MarkerPid(p)) => match p {
            None => (SupState::Locating, SupAction::LocateExecutable),
            Some(pid) => (SupState::ProbingPid, SupAction::ProbePid(pid)),
        },
        (SupState::ProbingPid, SupEvent::ProbeResult(alive)) => if alive {
            (SupState::CheckingSocketFast, SupAction::CheckSocket)
        } else {
            (SupState::Locating, SupAction::LocateExecutable)
        },
        (SupState::CheckingSocketFast, SupEvent::SocketExists(ex)) => if ex {
            (SupState::Ready, SupAction::Stop)
        } else {
            (SupState::Locating, SupAction::LocateExecutable)
        },
        (SupState::Locating, SupEvent::ExecutableFound(found)) => if found {
            (SupState::Spawning, SupAction::Spawn)
        } else {
            (SupState::Failed { reason: SupError::NoExecutable }, SupAction::Stop)
        },
        (SupState::Spawning, SupEvent::SpawnResult(ok)) => if ok {
            (SupState::Polling { left: POLL_ATTEMPTS }, SupAction::SleepThenCheckSocket)
        } else {
            (SupState::Failed { reason: SupError::SpawnFailed }, SupAction::Stop)
        },
        (SupState::Polling { left }, SupEvent::SocketExists(ex)) => if ex {
            (SupState::Ready, SupAction::Stop)
        } else if left <= 1 {
            (SupState::Failed { reason: SupError::StartTimeout }, SupAction::Stop)
        } else {
            (SupState::Polling { left: left - 1 }, SupAction::SleepThenCheckSocket)
        },
        (SupState::Ready, _) => (SupState::Ready, SupAction::Stop),
        (SupState::Failed { reason }, _) => (SupState::Failed { reason }, SupAction::Stop),
        (SupState::CheckingMarker, _) => (SupState::CheckingMarker, SupAction::ReadMarker),
        (SupState::ProbingPid, _) => (SupState::CheckingMarker, SupAction::ReadMarker),
        (SupState::CheckingSocketFast, _) => (SupState::CheckingSocketFast, SupAction::CheckSocket),
        (SupState::Locating, _) => (SupState::Locating, SupAction::LocateExecutable),
        (SupState::Spawning, _) => (SupState::Locating, SupAction::LocateExecutable),
        (SupState::Polling { left }, _) => (
            SupState::Polling { left },
            SupAction::SleepThenCheckSocket,
        ),
    }
}

/// An absent marker is never trusted: the supervisor turns to locating
/// and spawning a worker, not to polling.
pub proof fn lemma_absent_marker_spawns()
    ensures
        spec_step(SupState::CheckingMarker, SupEvent::MarkerPid(None)) == (
            SupState::Locating,
            SupAction::LocateExecutable,
        ),
{
}

/// A marker holding a dead process id is stale and never trusted: the
/// supervisor turns to locating and spawning a worker.
pub proof fn lemma_dead_pid_spawns()
    ensures
        spec_step(SupState::ProbingPid, SupEvent::ProbeResult(false)) == (
            SupState::Locating,
            SupAction::LocateExecutable,
        ),
{
}

/// Polling happens only after a successful spawn: the polling state is
/// reachable only from the spawning state or from polling itself.
pub proof fn lemma_polling_only_after_spawn(s: SupState, e: SupEvent)
    ensures
        (spec_step(s, e).0 is Polling) ==> (s is Spawning || s is Polling),
{
}

/// The fast path never spawns: the supervisor reaches readiness without
/// a spawn exactly when the probe found the process alive and the
/// socket existed.
pub proof fn lemma_fast_path()
    ensures
        spec_step(SupState::CheckingSocketFast, SupEvent::SocketExists(true)) == (
            SupState::Ready,
            SupAction::Stop,
        ),
        spec_step(SupState::CheckingSocketFast, SupEvent::SocketExists(false)) == (
            SupState::Locating,
            SupAction::LocateExecutable,
        ),
{
}

/// The poll window is bounded: a poll with no attempts left fails with
/// the startup timeout, and each unsuccessful poll strictly uses one
/// attempt up.
pub proof fn lemma_poll_bounded(left: u8)
    ensures
        left <= 1 ==> spec_step(SupState::Polling { left }, SupEvent::SocketExists(false)) == (
            SupState::Failed { reason: SupError::StartTimeout },
            SupAction::Stop,
        ),
        left > 1 ==> spec_step(SupState::Polling { left }, SupEvent::SocketExists(false)) == (
            SupState::Polling { left: (left - 1) as u8 },
            SupAction::SleepThenCheckSocket,
        ),
{
}

} // verus!
