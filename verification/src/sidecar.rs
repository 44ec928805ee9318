//! Sidecar process supervision.
//!
//! `SidecarManager` holds one record per named long-lived child — the engine
//! and the chain worker — and decides every lifecycle transition: what to
//! kill before a restart, what to record after a successful spawn, and what
//! status event to publish at each step.  Spawning, signalling and waiting on
//! the OS processes is done by the unverified driver layer, which walks the
//! escalating-termination state machine (`stop_step`) and reports each poll
//! result back.
//!
//! Per name the status moves `stopped → starting → running → stopped`, with
//! `running → starting` allowed: a restart surrenders the previous child for
//! termination before the new one is recorded, so at most one child per name
//! is ever live.

use vstd::prelude::*;
use vstd::string::*;

verus! {

/// Grace period a child is given to exit voluntarily after the polite
/// termination signal, before it is force-killed.
pub const GRACE_PERIOD_MS: u64 = 5000;

/// Poll interval while waiting out the grace period.
pub const STOP_POLL_MS: u64 = 100;

/// The two supervised processes.
#[derive(Clone, Copy, Debug, PartialEq, Eq, Structural)]
pub enum ProcName {
    Engine,
    Chain,
}

/// Lifecycle state of a supervised process.  A spawn failure is reported to
/// the caller and leaves the record stopped; it is not persisted as
/// supervisor state.
#[derive(Clone, Copy, Debug, PartialEq, Eq, Structural)]
pub enum ProcStatus {
    Stopped,
    Starting,
    Running,
}

/// Errors of the start operation.
#[derive(Clone, Copy, Debug, PartialEq, Eq, Structural)]
pub enum SidecarError {
    /// Entry point or runtime interpreter not found; the start is blocked
    /// until the missing files are fixed externally.
    ResolutionError,
    /// The OS refused to spawn the child.
    SpawnError,
}

/// Status snapshot published to the output sink and returned to callers.
#[derive(Clone, Debug, PartialEq)]
pub struct SidecarStatus {
    pub process: String,
    pub status: String,
    pub pid: Option<u32>,
    pub uptime_secs: Option<u64>,
}

/// Ghost view of one process record, used by the contracts.
pub struct ProcView {
    pub pid: Option<u32>,
    pub start_time_ms: Option<u64>,
    pub restart_count: u32,
    pub status: ProcStatus,
}

/// View of a record before any child was started.
pub open spec fn initial_proc_view() -> ProcView {
    ProcView { pid: None, start_time_ms: None, restart_count: 0, status: ProcStatus::Stopped }
}

/// Transition of a record when a start begins: the record enters `starting`
/// and surrenders its current child, which must be killed and waited on
/// before the new one is spawned.
pub open spec fn begin_start_view(r: ProcView) -> (ProcView, Option<u32>) {
    (
        ProcView {
            pid: None,
            start_time_ms: None,
            restart_count: r.restart_count,
            status: ProcStatus::Starting,
        },
        r.pid,
    )
}

/// Transition of a record when a spawn succeeded.
pub open spec fn confirm_started_view(pid: u32, now_ms: u64) -> ProcView {
    ProcView {
        pid: Some(pid),
        start_time_ms: Some(now_ms),
        restart_count: 0,
        status: ProcStatus::Running,
    }
}

/// Transition of a record when the child is stopped or a spawn failed: the
/// record is cleared and the child, if any, surrendered for termination.
pub open spec fn stop_view(r: ProcView) -> (ProcView, Option<u32>) {
    (
        ProcView {
            pid: None,
            start_time_ms: None,
            restart_count: r.restart_count,
            status: ProcStatus::Stopped,
        },
        r.pid,
    )
}

pub open spec fn proc_label_spec(which: ProcName) -> Seq<char> {
    match which {
        ProcName::Engine => "soul-engine"@,
        ProcName::Chain => "soul-chain"@,
    }
}

pub open spec fn status_label_spec(s: ProcStatus) -> Seq<char> {
    match s {
        ProcStatus::Stopped => "stopped"@,
        ProcStatus::Starting => "starting"@,
        ProcStatus::Running => "running"@,
    }
}

/// The event name of a supervised process.
pub fn proc_label(which: ProcName) -> (r: &'static str)
    ensures
        r@ == proc_label_spec(which),
{
    match which {
        ProcName::Engine => "soul-engine",
        ProcName::Chain => "soul-chain",
    }
}

pub fn status_label(s: ProcStatus) -> (r: &'static str)
    ensures
        r@ == status_label_spec(s),
{
    match s {
        ProcStatus::Stopped => "stopped",
        ProcStatus::Starting => "starting",
        ProcStatus::Running => "running",
    }
}

/// The uptime reported for a process started at `start_ms`, asked at
/// `now_ms`.
pub open spec fn uptime_view(start_time_ms: Option<u64>, now_ms: u64) -> Option<u64> {
    match start_time_ms {
        Some(t) => Some((((now_ms - t) / 1000) as u64)),
        None => None,
    }
}

/// The status snapshot of a record at `now_ms`.
pub open spec fn status_snapshot_view(which: ProcName, r: ProcView, now_ms: u64) -> (Seq<char>, Seq<
    char,
>, Option<u32>, Option<u64>) {
    (proc_label_spec(which), status_label_spec(r.status), r.pid, uptime_view(
        r.start_time_ms,
        now_ms,
    ))
}

pub open spec fn snapshot_matches(
    s: SidecarStatus,
    v: (Seq<char>, Seq<char>, Option<u32>, Option<u64>),
) -> bool {
    s.process@ == v.0 && s.status@ == v.1 && s.pid == v.2 && s.uptime_secs == v.3
}

struct SidecarProcess {
    pid: Option<u32>,
    start_time_ms: Option<u64>,
    restart_count: u32,
    status: ProcStatus,
}

impl SidecarProcess {
    spec fn view_spec(self) -> ProcView {
        ProcView {
            pid: self.pid,
            start_time_ms: self.start_time_ms,
            restart_count: self.restart_count,
            status: self.status,
        }
    }

    fn stopped() -> (r: SidecarProcess)
        ensures
            r.view_spec() == initial_proc_view(),
    {
        SidecarProcess { pid: None, start_time_ms: None, restart_count: 0, status: ProcStatus::Stopped }
    }
}

/// Supervisor of the two named long-lived children.
pub struct SidecarManager {
    engine: SidecarProcess,
    chain: SidecarProcess,
    soul_path: String,
}

impl SidecarManager {
    /// The record of the process named `which`.
    pub closed spec fn proc_view(self, which: ProcName) -> ProcView {
        match which {
            ProcName::Engine => self.engine.view_spec(),
            ProcName::Chain => self.chain.view_spec(),
        }
    }

    /// The controlled root location passed to every spawned child.
    pub closed spec fn soul_path_spec(self) -> Seq<char> {
        self.soul_path@
    }

    /// Supervisor invariant: a record is `running` exactly when it holds a
    /// live child handle, and a held child always has a recorded start time.
    pub open spec fn wf(self) -> bool {
        forall|which: ProcName|
            {
                let r = #[trigger] self.proc_view(which);
                (r.status is Running <==> r.pid is Some) && (r.pid is Some
                    ==> r.start_time_ms is Some)
            }
    }

    pub fn new(soul_path: String) -> (r: SidecarManager)
        ensures
            r.wf(),
            r.proc_view(ProcName::Engine) == initial_proc_view(),
            r.proc_view(ProcName::Chain) == initial_proc_view(),
            r.soul_path_spec() == soul_path@,
    {
        SidecarManager {
            engine: SidecarProcess::stopped(),
            chain: SidecarProcess::stopped(),
            soul_path,
        }
    }

    /// Begin a start of `which`.
    ///
    /// Returns the handle of the previous child, which the driver must kill
    /// and wait on before spawning the new one, and the `starting` status
    /// event to publish.
    pub fn begin_start(&mut self, which: ProcName) -> (r: (Option<u32>, SidecarStatus))
        requires
            old(self).wf(),
        ensures
            final(self).wf(),
            (final(self).proc_view(which), r.0) == begin_start_view(old(self).proc_view(which)),
            final(self).proc_view(other_name(which)) == old(self).proc_view(other_name(which)),
            final(self).soul_path_spec() == old(self).soul_path_spec(),
            snapshot_matches(
                r.1,
                (proc_label_spec(which), "starting"@, None::<u32>, None::<u64>),
            ),
    {
        let prev = match which {
            ProcName::Engine => {
                let prev = self.engine.pid;
                self.engine.pid = None;
                self.engine.start_time_ms = None;
                self.engine.status = ProcStatus::Starting;
                prev
            },
            ProcName::Chain => {
                let prev = self.chain.pid;
                self.chain.pid = None;
                self.chain.start_time_ms = None;
                self.chain.status = ProcStatus::Starting;
                prev
            },
        };
        let ev = SidecarStatus {
            process: String::from_str(proc_label(which)),
            status: String::from_str("starting"),
            pid: None,
            uptime_secs: None,
        };
        (prev, ev)
    }

    /// Record a successful spawn of `which` as child `pid` at time `now_ms`
    /// and return the `running` status event to publish.
    ///
    /// Requires that no previous child is held: a start must have gone
    /// through `begin_start` (and the driver through the returned kill
    /// order) first, so at most one child per name is ever live.
    pub fn confirm_started(&mut self, which: ProcName, pid: u32, now_ms: u64) -> (ev:
        SidecarStatus)
        requires
            old(self).wf(),
            old(self).proc_view(which).pid is None,
        ensures
            final(self).wf(),
            final(self).proc_view(which) == confirm_started_view(pid, now_ms),
            final(self).proc_view(other_name(which)) == old(self).proc_view(other_name(which)),
            final(self).soul_path_spec() == old(self).soul_path_spec(),
            snapshot_matches(
                ev,
                (proc_label_spec(which), "running"@, Some(pid), Some(0u64)),
            ),
    {
        match which {
            ProcName::Engine => {
                self.engine.pid = Some(pid);
                self.engine.start_time_ms = Some(now_ms);
                self.engine.restart_count = 0;
                self.engine.status = ProcStatus::Running;
            },
            ProcName::Chain => {
                self.chain.pid = Some(pid);
                self.chain.start_time_ms = Some(now_ms);
                self.chain.restart_count = 0;
                self.chain.status = ProcStatus::Running;
            },
        }
        SidecarStatus {
            process: String::from_str(proc_label(which)),
            status: String::from_str("running"),
            pid: Some(pid),
            uptime_secs: Some(0),
        }
    }

    /// Record a failed spawn of `which`: the error is surfaced through the
    /// caller's result and the record returns to `stopped`; the failure is
    /// not persisted as supervisor state.
    pub fn fail_start(&mut self, which: ProcName)
        requires
            old(self).wf(),
            old(self).proc_view(which).pid is None,
        ensures
            final(self).wf(),
            final(self).proc_view(which) == (stop_view(old(self).proc_view(which)).0),
            final(self).proc_view(other_name(which)) == old(self).proc_view(other_name(which)),
            final(self).soul_path_spec() == old(self).soul_path_spec(),
    {
        match which {
            ProcName::Engine => {
                self.engine.pid = None;
                self.engine.start_time_ms = None;
                self.engine.status = ProcStatus::Stopped;
            },
            ProcName::Chain => {
                self.chain.pid = None;
                self.chain.start_time_ms = None;
                self.chain.status = ProcStatus::Stopped;
            },
        }
    }

    /// Stop the process named `which`.
    ///
    /// Clears the record and returns the handle of the child, on which the
    /// driver must run the escalating termination of `stop_step`, together
    /// with the `stopped` status event to publish once the child is gone.
    /// Always succeeds from the caller's point of view.
    pub fn stop_process(&mut self, which: ProcName) -> (r: (Option<u32>, SidecarStatus))
        requires
            old(self).wf(),
        ensures
            final(self).wf(),
            (final(self).proc_view(which), r.0) == stop_view(old(self).proc_view(which)),
            final(self).proc_view(other_name(which)) == old(self).proc_view(other_name(which)),
            final(self).soul_path_spec() == old(self).soul_path_spec(),
            snapshot_matches(
                r.1,
                (proc_label_spec(which), "stopped"@, None::<u32>, None::<u64>),
            ),
    {
        let prev = match which {
            ProcName::Engine => {
                let prev = self.engine.pid;
                self.engine.pid = None;
                self.engine.start_time_ms = None;
                self.engine.status = ProcStatus::Stopped;
                prev
            },
            ProcName::Chain => {
                let prev = self.chain.pid;
                self.chain.pid = None;
                self.chain.start_time_ms = None;
                self.chain.status = ProcStatus::Stopped;
                prev
            },
        };
        let ev = SidecarStatus {
            process: String::from_str(proc_label(which)),
            status: String::from_str("stopped"),
            pid: None,
            uptime_secs: None,
        };
        (prev, ev)
    }

    /// Stop the engine; see `stop_process`.
    pub fn stop_engine(&mut self) -> (r: (Option<u32>, SidecarStatus))
        requires
            old(self).wf(),
        ensures
            final(self).wf(),
            (final(self).proc_view(ProcName::Engine), r.0) == stop_view(
                old(self).proc_view(ProcName::Engine),
            ),
            final(self).proc_view(ProcName::Chain) == old(self).proc_view(ProcName::Chain),
            final(self).soul_path_spec() == old(self).soul_path_spec(),
            snapshot_matches(
                r.1,
                (proc_label_spec(ProcName::Engine), "stopped"@, None::<u32>, None::<u64>),
            ),
    {
        self.stop_process(ProcName::Engine)
    }

    /// Stop the chain worker; see `stop_process`.
    pub fn stop_chain(&mut self) -> (r: (Option<u32>, SidecarStatus))
        requires
            old(self).wf(),
        ensures
            final(self).wf(),
            (final(self).proc_view(ProcName::Chain), r.0) == stop_view(
                old(self).proc_view(ProcName::Chain),
            ),
            final(self).proc_view(ProcName::Engine) == old(self).proc_view(ProcName::Engine),
            final(self).soul_path_spec() == old(self).soul_path_spec(),
            snapshot_matches(
                r.1,
                (proc_label_spec(ProcName::Chain), "stopped"@, None::<u32>, None::<u64>),
            ),
    {
        self.stop_process(ProcName::Chain)
    }

    /// Synchronous status snapshot of `which` at time `now_ms`; reads the
    /// record only, never the OS.
    pub fn status_snapshot(&self, which: ProcName, now_ms: u64) -> (r: SidecarStatus)
        requires
            match self.proc_view(which).start_time_ms {
                Some(t) => t <= now_ms,
                None => true,
            },
        ensures
            snapshot_matches(r, status_snapshot_view(which, self.proc_view(which), now_ms)),
    {
        let (status, pid, start) = match which {
            ProcName::Engine => (self.engine.status, self.engine.pid, self.engine.start_time_ms),
            ProcName::Chain => (self.chain.status, self.chain.pid, self.chain.start_time_ms),
        };
        let uptime = match start {
            Some(t) => Some((now_ms - t) / 1000),
            None => None,
        };
        SidecarStatus {
            process: String::from_str(proc_label(which)),
            status: String::from_str(status_label(status)),
            pid,
            uptime_secs: uptime,
        }
    }

    /// Status snapshot of the engine; see `status_snapshot`.
    pub fn get_status(&self, now_ms: u64) -> (r: SidecarStatus)
        requires
            match self.proc_view(ProcName::Engine).start_time_ms {
                Some(t) => t <= now_ms,
                None => true,
            },
        ensures
            snapshot_matches(
                r,
                status_snapshot_view(ProcName::Engine, self.proc_view(ProcName::Engine), now_ms),
            ),
    {
        self.status_snapshot(ProcName::Engine, now_ms)
    }

    /// Status snapshot of the chain worker; see `status_snapshot`.
    pub fn get_chain_status(&self, now_ms: u64) -> (r: SidecarStatus)
        requires
            match self.proc_view(ProcName::Chain).start_time_ms {
                Some(t) => t <= now_ms,
                None => true,
            },
        ensures
            snapshot_matches(
                r,
                status_snapshot_view(ProcName::Chain, self.proc_view(ProcName::Chain), now_ms),
            ),
    {
        self.status_snapshot(ProcName::Chain, now_ms)
    }

    /// Opportunistic liveness check of the engine.
    ///
    /// `poll_exited` is the driver's non-blocking reap of the child:
    /// `Some(true)` if the child has exited, `Some(false)` if it is still
    /// running, `None` if the poll itself failed.  A child found exited
    /// without an explicit stop transitions the record to `stopped` as a
    /// side effect of the check.
    pub fn is_running(&mut self, poll_exited: Option<bool>) -> (r: bool)
        requires
            old(self).wf(),
        ensures
            final(self).wf(),
            r == (old(self).proc_view(ProcName::Engine).pid is Some && poll_exited == Some(false)),
            final(self).proc_view(ProcName::Engine) == (if old(self).proc_view(
                ProcName::Engine,
            ).pid is Some && poll_exited == Some(true) {
                stop_view(old(self).proc_view(ProcName::Engine)).0
            } else {
                old(self).proc_view(ProcName::Engine)
            }),
            final(self).proc_view(ProcName::Chain) == old(self).proc_view(ProcName::Chain),
            final(self).soul_path_spec() == old(self).soul_path_spec(),
    {
        if self.engine.pid.is_none() {
            return false;
        }
        match poll_exited {
            Some(true) => {
                self.engine.pid = None;
                self.engine.start_time_ms = None;
                self.engine.status = ProcStatus::Stopped;
                false
            },
            Some(false) => true,
            None => false,
        }
    }

    /// Tear down both supervised processes, for process-wide shutdown.
    ///
    /// Clears both records and returns the child handles that were live;
    /// the driver must run the escalating termination on each.  The grace
    /// period applies per child, so the total wait is bounded by the grace
    /// period times the number of live children.
    pub fn shutdown(&mut self) -> (r: (Option<u32>, Option<u32>))
        requires
            old(self).wf(),
        ensures
            final(self).wf(),
            (final(self).proc_view(ProcName::Engine), r.0) == stop_view(
                old(self).proc_view(ProcName::Engine),
            ),
            (final(self).proc_view(ProcName::Chain), r.1) == stop_view(
                old(self).proc_view(ProcName::Chain),
            ),
            final(self).proc_view(ProcName::Engine).pid is None,
            final(self).proc_view(ProcName::Chain).pid is None,
            final(self).soul_path_spec() == old(self).soul_path_spec(),
    {
        let (engine_pid, _) = self.stop_process(ProcName::Engine);
        let (chain_pid, _) = self.stop_process(ProcName::Chain);
        (engine_pid, chain_pid)
    }
}

/// The other supervised process.
pub open spec fn other_name(which: ProcName) -> ProcName {
    match which {
        ProcName::Engine => ProcName::Chain,
        ProcName::Chain => ProcName::Engine,
    }
}

/// Phase of the escalating termination of one child.
#[derive(Clone, Copy, Debug, PartialEq, Eq, Structural)]
pub enum StopPhase {
    /// The polite termination signal was sent; the child is polled until it
    /// exits or `waited_ms` reaches the grace period.
    Polling { waited_ms: u64 },
    /// The child is confirmed gone; `forced` records whether the grace
    /// period expired and the child had to be force-killed.
    Done { forced: bool },
}

/// What the driver must do after one step of the termination machine.
#[derive(Clone, Copy, Debug, PartialEq, Eq, Structural)]
pub enum StopAction {
    /// Sleep one poll interval, then poll again.
    Sleep,
    /// Force-kill the child and wait for the OS to confirm its exit.
    ForceKill,
    /// Nothing left to do; the child is gone.
    Finished,
}

/// One step of the escalating termination: `exited` is the driver's
/// non-blocking poll of the child.
pub open spec fn stop_next(phase: StopPhase, exited: bool) -> (StopPhase, StopAction) {
    match phase {
        StopPhase::Polling { waited_ms } => {
            if exited {
                (StopPhase::Done { forced: false }, StopAction::Finished)
            } else if waited_ms < GRACE_PERIOD_MS {
                (
                    StopPhase::Polling { waited_ms: (waited_ms + STOP_POLL_MS) as u64 },
                    StopAction::Sleep,
                )
            } else {
                (StopPhase::Done { forced: true }, StopAction::ForceKill)
            }
        },
        StopPhase::Done { forced } => (StopPhase::Done { forced }, StopAction::Finished),
    }
}

/// Executable step of the escalating termination, driven by the unverified
/// layer: send the polite signal, then call this with each poll result and
/// perform the returned action until it is `Finished`.
pub fn stop_step(phase: StopPhase, exited: bool) -> (r: (StopPhase, StopAction))
    ensures
        r == stop_next(phase, exited),
{
    match phase {
        StopPhase::Polling { waited_ms } => {
            if exited {
                (StopPhase::Done { forced: false }, StopAction::Finished)
            } else if waited_ms < GRACE_PERIOD_MS {
                (StopPhase::Polling { waited_ms: waited_ms + STOP_POLL_MS }, StopAction::Sleep)
            } else {
                (StopPhase::Done { forced: true }, StopAction::ForceKill)
            }
        },
        StopPhase::Done { forced } => (StopPhase::Done { forced }, StopAction::Finished),
    }
}

/// Steps the termination machine can still take before it is done: each
/// step either finishes or consumes one poll interval of the grace period.
pub open spec fn stop_measure(phase: StopPhase) -> int {
    match phase {
        StopPhase::Polling { waited_ms } => {
            if waited_ms <= GRACE_PERIOD_MS {
                (GRACE_PERIOD_MS - waited_ms) / (STOP_POLL_MS as int) + 2
            } else {
                1
            }
        },
        StopPhase::Done { .. } => 0,
    }
}

pub proof fn lemma_stop_measure_decreases(phase: StopPhase, exited: bool)
    requires
        phase is Polling,
    ensures
        0 <= stop_measure(stop_next(phase, exited).0) < stop_measure(phase),
{
    let w = phase->Polling_waited_ms;
    if !exited && w < GRACE_PERIOD_MS {
        assert((GRACE_PERIOD_MS - (w + STOP_POLL_MS)) / (STOP_POLL_MS as int) == (GRACE_PERIOD_MS
            - w) / (STOP_POLL_MS as int) - 1) by {
            vstd::arithmetic::div_mod::lemma_hoist_over_denominator(
                GRACE_PERIOD_MS - w - STOP_POLL_MS,
                1,
                STOP_POLL_MS as nat,
            );
        }
    }
}

/// The machine run over a whole sequence of poll results.
pub open spec fn run_stop(phase: StopPhase, polls: Seq<bool>) -> StopPhase
    decreases polls.len(),
{
    if polls.len() == 0 {
        phase
    } else {
        run_stop(stop_next(phase, polls[0]).0, polls.skip(1))
    }
}

pub proof fn lemma_run_stop_done(forced: bool, polls: Seq<bool>)
    ensures
        run_stop(StopPhase::Done { forced }, polls) == (StopPhase::Done { forced }),
    decreases polls.len(),
{
    if polls.len() > 0 {
        lemma_run_stop_done(forced, polls.skip(1));
    }
}

/// Law: stopping terminates within a bound — whatever the child does, after
/// at most `stop_measure` polls (one grace period plus a small epsilon) the
/// machine is done and the child confirmed gone.
pub proof fn lemma_stop_completes(phase: StopPhase, polls: Seq<bool>)
    requires
        polls.len() >= stop_measure(phase),
    ensures
        run_stop(phase, polls) is Done,
    decreases polls.len(),
{
    match phase {
        StopPhase::Done { forced } => {
            lemma_run_stop_done(forced, polls);
        },
        StopPhase::Polling { .. } => {
            lemma_stop_measure_decreases(phase, polls[0]);
            lemma_stop_completes(stop_next(phase, polls[0]).0, polls.skip(1));
        },
    }
}

/// Law: a child that ignores the polite termination signal — every poll
/// reports it still running — is force-killed once the grace period
/// expires, so the stop still ends with the child confirmed gone at the OS
/// level.
pub proof fn lemma_stop_forces_stubborn_child(phase: StopPhase, polls: Seq<bool>)
    requires
        phase is Polling,
        polls.len() >= stop_measure(phase),
        forall|i: int| 0 <= i < polls.len() ==> !polls[i],
    ensures
        run_stop(phase, polls) == (StopPhase::Done { forced: true }),
    decreases polls.len(),
{
    let next = stop_next(phase, polls[0]).0;
    lemma_stop_measure_decreases(phase, polls[0]);
    match next {
        StopPhase::Done { forced } => {
            lemma_run_stop_done(forced, polls.skip(1));
        },
        StopPhase::Polling { .. } => {
            assert(forall|i: int| 0 <= i < polls.skip(1).len() ==> !polls.skip(1)[i]);
            lemma_stop_forces_stubborn_child(next, polls.skip(1));
        },
    }
}

/// Law: two starts in immediate succession leave exactly one live child.
/// The second start surrenders the first child for termination before the
/// second spawn is recorded, and afterwards the record holds the second
/// child alone.
pub proof fn lemma_restart_keeps_single_child(
    r0: ProcView,
    pid1: u32,
    t1: u64,
    pid2: u32,
    t2: u64,
)
    ensures
        ({
            let (r1, _kill1) = begin_start_view(r0);
            let r2 = confirm_started_view(pid1, t1);
            let (r3, kill2) = begin_start_view(r2);
            let r4 = confirm_started_view(pid2, t2);
            kill2 == Some(pid1) && r1.pid is None && r3.pid is None && r4.pid == Some(pid2)
        }),
{
}

/// Combine resolved locations into a start decision: a start proceeds only
/// when both the entry point and the runtime interpreter were found, and is
/// otherwise blocked with a resolution error.
pub fn start_plan(entry: Option<String>, interpreter: Option<String>) -> (r: Result<
    (String, String),
    SidecarError,
>)
    ensures
        match (entry, interpreter) {
            (Some(e), Some(n)) => r == Ok::<(String, String), SidecarError>((e, n)),
            _ => r == Err::<(String, String), SidecarError>(SidecarError::ResolutionError),
        },
{
    match (entry, interpreter) {
        (Some(e), Some(n)) => Ok((e, n)),
        _ => Err(SidecarError::ResolutionError),
    }
}

} // verus!
