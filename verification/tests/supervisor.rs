use soul_core::sidecar::{
    start_plan, stop_step, ProcName, SidecarError, SidecarManager, StopAction, StopPhase,
    GRACE_PERIOD_MS, STOP_POLL_MS,
};

#[test]
fn start_publishes_starting_then_running() {
    let mut sup = SidecarManager::new(String::from("/tmp/soul"));
    let (to_kill, starting) = sup.begin_start(ProcName::Engine);
    assert_eq!(to_kill, None);
    assert_eq!(starting.process, "soul-engine");
    assert_eq!(starting.status, "starting");
    assert_eq!(starting.pid, None);
    assert_eq!(starting.uptime_secs, None);

    let running = sup.confirm_started(ProcName::Engine, 4242, 10_000);
    assert_eq!(running.process, "soul-engine");
    assert_eq!(running.status, "running");
    assert_eq!(running.pid, Some(4242));
    assert_eq!(running.uptime_secs, Some(0));
}

#[test]
fn restart_leaves_exactly_one_live_child() {
    // starting twice in succession: the first child is surrendered for
    // termination before the second spawn, and only the second is live
    let mut sup = SidecarManager::new(String::from("/tmp/soul"));
    let (k1, _) = sup.begin_start(ProcName::Engine);
    assert_eq!(k1, None);
    sup.confirm_started(ProcName::Engine, 100, 0);

    let (k2, _) = sup.begin_start(ProcName::Engine);
    assert_eq!(k2, Some(100));
    let ev = sup.confirm_started(ProcName::Engine, 200, 5_000);
    assert_eq!(ev.pid, Some(200));
    let status = sup.get_status(5_000);
    assert_eq!(status.pid, Some(200));
    assert_eq!(status.status, "running");
}

#[test]
fn stop_clears_record_and_reports_stopped() {
    let mut sup = SidecarManager::new(String::from("/tmp/soul"));
    sup.begin_start(ProcName::Chain);
    sup.confirm_started(ProcName::Chain, 31, 0);
    let (pid, ev) = sup.stop_chain();
    assert_eq!(pid, Some(31));
    assert_eq!(ev.process, "soul-chain");
    assert_eq!(ev.status, "stopped");
    let st = sup.get_chain_status(9_000);
    assert_eq!(st.status, "stopped");
    assert_eq!(st.pid, None);
    assert_eq!(st.uptime_secs, None);
    // stopping again still succeeds, with nothing left to terminate
    let (pid2, _) = sup.stop_chain();
    assert_eq!(pid2, None);
}

#[test]
fn stubborn_child_is_force_killed_within_grace_period() {
    // the child ignores the polite signal: every poll says "still running";
    // the machine must force-kill and finish within the grace period plus a
    // small epsilon
    let mut phase = StopPhase::Polling { waited_ms: 0 };
    let mut waited: u64 = 0;
    let mut forced = false;
    let mut steps: u64 = 0;
    loop {
        let (next, action) = stop_step(phase, false);
        steps += 1;
        match action {
            StopAction::Sleep => waited += STOP_POLL_MS,
            StopAction::ForceKill => forced = true,
            StopAction::Finished => break,
        }
        phase = next;
        assert!(steps < 1000, "termination machine must not spin forever");
    }
    assert!(forced, "a stubborn child must be force-killed");
    assert_eq!(phase, StopPhase::Done { forced: true });
    assert!(waited <= GRACE_PERIOD_MS + STOP_POLL_MS);
}

#[test]
fn cooperative_child_finishes_without_force() {
    let phase = StopPhase::Polling { waited_ms: 0 };
    // still running on the first poll, exits on the second
    let (phase, action) = stop_step(phase, false);
    assert_eq!(action, StopAction::Sleep);
    let (phase, action) = stop_step(phase, true);
    assert_eq!(phase, StopPhase::Done { forced: false });
    assert_eq!(action, StopAction::Finished);
}

#[test]
fn shutdown_all_leaves_zero_live_children() {
    // a supervisor with two running named processes and a manager with
    // three open sessions: after both teardowns nothing is live, in either
    // call order
    for sidecar_first in [true, false] {
        let mut sup = SidecarManager::new(String::from("/tmp/soul"));
        sup.begin_start(ProcName::Engine);
        sup.confirm_started(ProcName::Engine, 11, 0);
        sup.begin_start(ProcName::Chain);
        sup.confirm_started(ProcName::Chain, 22, 0);
        let mut mgr = soul_core::pty::PtyManager::new(String::from("/tmp/soul"));
        let s1 = mgr.create();
        let s2 = mgr.create();
        let s3 = mgr.create();

        let mut live: Vec<u32> = vec![11, 22, s1, s2, s3];
        if sidecar_first {
            let (e, c) = sup.shutdown();
            live.retain(|p| Some(*p) != e && Some(*p) != c);
            for id in mgr.shutdown() {
                live.retain(|p| *p != id);
            }
        } else {
            for id in mgr.shutdown() {
                live.retain(|p| *p != id);
            }
            let (e, c) = sup.shutdown();
            live.retain(|p| Some(*p) != e && Some(*p) != c);
        }
        assert!(live.is_empty(), "every live child must be surrendered for termination");
        assert_eq!(sup.get_status(0).pid, None);
        assert_eq!(sup.get_chain_status(0).pid, None);
        assert!(!mgr.has_session(s1) && !mgr.has_session(s2) && !mgr.has_session(s3));
    }
}

#[test]
fn status_reports_uptime_from_start_time() {
    let mut sup = SidecarManager::new(String::from("/tmp/soul"));
    sup.begin_start(ProcName::Engine);
    sup.confirm_started(ProcName::Engine, 9, 2_000);
    let st = sup.get_status(7_500);
    assert_eq!(st.uptime_secs, Some(5));
    assert_eq!(st.pid, Some(9));
    assert_eq!(st.status, "running");
}

#[test]
fn is_running_reaps_an_exited_child() {
    let mut sup = SidecarManager::new(String::from("/tmp/soul"));
    assert!(!sup.is_running(Some(false)));
    sup.begin_start(ProcName::Engine);
    sup.confirm_started(ProcName::Engine, 5, 0);
    assert!(sup.is_running(Some(false)));
    // the child exited without an explicit stop: the check reaps it
    assert!(!sup.is_running(Some(true)));
    let st = sup.get_status(0);
    assert_eq!(st.status, "stopped");
    assert_eq!(st.pid, None);
}

#[test]
fn failed_spawn_is_not_persisted() {
    let mut sup = SidecarManager::new(String::from("/tmp/soul"));
    sup.begin_start(ProcName::Engine);
    sup.fail_start(ProcName::Engine);
    let st = sup.get_status(0);
    assert_eq!(st.status, "stopped");
    assert_eq!(st.pid, None);
}

#[test]
fn start_is_blocked_without_entry_point_or_interpreter() {
    assert_eq!(
        start_plan(None, Some(String::from("/usr/bin/node"))),
        Err(SidecarError::ResolutionError)
    );
    assert_eq!(
        start_plan(Some(String::from("/a/index.js")), None),
        Err(SidecarError::ResolutionError)
    );
    assert_eq!(
        start_plan(Some(String::from("/a/index.js")), Some(String::from("/usr/bin/node"))),
        Ok((String::from("/a/index.js"), String::from("/usr/bin/node")))
    );
}
