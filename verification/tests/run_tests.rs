use nails_core::deactivation::run::{
    already_inactive_report, cleanup_outcome, completed_report, decoy_after_check,
    decoy_after_link, decoy_after_run, decoy_start, run_step, DecoyStep, RunAction, RunEvent,
    RunPhase,
};
use nails_core::deactivation::{
    CleanupMode, CleanupReport, DeactivationMode, ElapsedTime, PostUnmountCleanupReport,
    SystemState,
};
use nails_core::error::NailsError;

fn report_with_errors() -> CleanupReport {
    let mut r = CleanupReport::new(CleanupMode::Thorough { verify_cleanup: true });
    r.errors.push("history: denied".to_string());
    r
}

#[test]
fn normal_cleanup_with_errors_stops_the_run() {
    match cleanup_outcome(DeactivationMode::Normal, Ok(report_with_errors())) {
        Err(NailsError::CleanupError(m)) => assert!(m.starts_with("Cleanup had 1 error(s): history: denied")),
        _ => panic!("expected CleanupError"),
    }
}

#[test]
fn emergency_cleanup_errors_do_not_stop_the_run() {
    let r = cleanup_outcome(DeactivationMode::Emergency, Ok(report_with_errors())).unwrap();
    assert_eq!(r.errors, vec!["history: denied".to_string()]);
    let failed = cleanup_outcome(
        DeactivationMode::Emergency,
        Err(NailsError::CleanupError("boom".to_string())),
    )
    .unwrap();
    assert_eq!(failed.mode, CleanupMode::Fast);
    assert!(failed.cleaned_items.is_empty());
}

#[test]
fn decoy_switch_steps() {
    assert!(matches!(decoy_start(false, Some("/p")), DecoyStep::Done(None)));
    match decoy_start(true, None) {
        DecoyStep::Done(Some(NailsError::NixOSError(m))) => {
            assert_eq!(m, "No system profile available for decoy switch")
        }
        _ => panic!("expected an error"),
    }
    match decoy_after_link("/nix/var/nix/profiles/system", Ok(()), true) {
        DecoyStep::CheckScript(s) => {
            assert_eq!(s, "/nix/var/nix/profiles/system/bin/switch-to-configuration")
        }
        _ => panic!("expected CheckScript"),
    }
    match decoy_after_link("/p", Err(NailsError::NixOSError("x".to_string())), true) {
        DecoyStep::Done(Some(NailsError::NixOSError(m))) => assert_eq!(
            m,
            "Failed to prepare /run/current-system for NixOS switch: NixOS operation failed: x"
        ),
        _ => panic!("expected an error"),
    }
    match decoy_after_check("/s", Ok(false), false) {
        DecoyStep::Done(Some(NailsError::NixOSError(m))) => {
            assert_eq!(m, "System profile switch script missing: /s")
        }
        _ => panic!("expected an error"),
    }
    assert!(matches!(decoy_after_check("/s", Ok(true), true), DecoyStep::Done(None)));
    assert!(matches!(decoy_after_check("/s", Ok(true), false), DecoyStep::RunScript(_)));
    assert!(decoy_after_run(Ok((true, String::new()))).is_none());
    match decoy_after_run(Ok((false, "bad".to_string()))) {
        Some(NailsError::NixOSError(m)) => assert_eq!(m, "System profile switch failed: bad"),
        _ => panic!("expected an error"),
    }
}

#[test]
fn run_reports() {
    let d = ElapsedTime::from_millis(150);
    let r = already_inactive_report(d);
    assert!(r.was_already_inactive && r.is_successful());
    let c = completed_report(
        CleanupReport::default(),
        vec!["/etc".to_string()],
        d,
        PostUnmountCleanupReport::default(),
    );
    assert!(!c.was_already_inactive && c.is_successful());
    assert_eq!(c.unmounted_overlays, vec!["/etc".to_string()]);
}

#[test]
fn run_on_an_inactive_system_stops_with_the_default_report() {
    let (phase, action) = run_step(
        DeactivationMode::Normal,
        true,
        RunPhase::Start,
        RunEvent::StateRead(SystemState::Inactive),
        ElapsedTime::new(0, 5_000_000),
    );
    assert!(matches!(phase, RunPhase::Done));
    match action {
        RunAction::Stop(Ok(rep)) => {
            assert!(rep.was_already_inactive);
            assert!(rep.unmounted_overlays.is_empty());
            assert!(rep.cleanup_report.verification_passed.is_none());
            assert!(!rep.post_unmount_cleanup.was_performed);
            assert_eq!(rep.final_state, SystemState::Inactive);
        }
        _ => panic!("expected the already-inactive report"),
    }
}

fn active_state(overlays: &[String]) -> SystemState {
    SystemState::Active { activated_at: 7, overlays: overlays.to_vec() }
}

fn step(phase: RunPhase, event: RunEvent) -> (RunPhase, RunAction) {
    run_step(DeactivationMode::Normal, true, phase, event, ElapsedTime::new(2, 0))
}

#[test]
fn run_on_an_active_system_marks_cleans_unmounts_switches_then_marks_inactive() {
    let overlays = vec!["/home".to_string(), "/var".to_string()];
    let (phase, action) =
        step(RunPhase::Start, RunEvent::StateRead(active_state(&overlays)));
    assert!(matches!(action, RunAction::MarkDeactivating));
    let (phase, action) = step(phase, RunEvent::Marked(Ok(())));
    assert!(matches!(action, RunAction::CleanOverlayLayer));
    let clean = CleanupReport::new(CleanupMode::Thorough { verify_cleanup: true });
    let (phase, action) = step(phase, RunEvent::Cleaned(Ok(clean)));
    match action {
        RunAction::UnmountOverlays(v) => assert_eq!(v, overlays),
        _ => panic!("expected the overlays to be unmounted"),
    }
    let (phase, action) = step(phase, RunEvent::Unmounted(Ok(overlays.clone())));
    assert!(matches!(action, RunAction::CleanRealDisk));
    let disk = PostUnmountCleanupReport {
        cleaned_items: vec!["cleaned".to_string()],
        warnings: Vec::new(),
        was_performed: true,
    };
    let (phase, action) = step(phase, RunEvent::DiskCleaned(disk));
    assert!(matches!(action, RunAction::SwitchToDecoy));
    let (phase, action) = step(phase, RunEvent::Switched(None));
    assert!(matches!(action, RunAction::MarkInactive));
    let (phase, action) = step(phase, RunEvent::Marked(Ok(())));
    assert!(matches!(phase, RunPhase::Done));
    match action {
        RunAction::Stop(Ok(rep)) => {
            assert!(!rep.was_already_inactive);
            assert_eq!(rep.final_state, SystemState::Inactive);
            assert_eq!(rep.unmounted_overlays, overlays);
            assert!(rep.post_unmount_cleanup.was_performed);
            assert_eq!(rep.duration.as_secs(), 2);
        }
        _ => panic!("expected the completed report"),
    }
}

#[test]
fn run_rolls_back_without_unmounting_when_the_cleanup_has_errors() {
    let overlays = vec!["/home".to_string()];
    let (_, action) = step(
        RunPhase::Cleaning(active_state(&overlays), overlays.clone()),
        RunEvent::Cleaned(Ok(report_with_errors())),
    );
    match action {
        RunAction::RollBack(state, NailsError::CleanupError(_)) => {
            assert_eq!(state, active_state(&overlays))
        }
        _ => panic!("expected a rollback with the cleanup error"),
    }
}

#[test]
fn failed_decoy_switch_rolls_back_to_active() {
    let overlays = vec!["/home".to_string()];
    let switch_error = match decoy_start(true, None) {
        DecoyStep::Done(Some(e)) => e,
        _ => panic!("expected the missing-profile error"),
    };
    let (phase, action) = step(
        RunPhase::Switching(
            active_state(&overlays),
            CleanupReport::new(CleanupMode::Fast),
            overlays.clone(),
            PostUnmountCleanupReport::default(),
        ),
        RunEvent::Switched(Some(switch_error)),
    );
    assert!(matches!(phase, RunPhase::Done));
    match action {
        RunAction::RollBack(state, NailsError::NixOSError(m)) => {
            assert!(state.is_active());
            assert!(m.contains("No system profile available for decoy switch"));
        }
        _ => panic!("expected a rollback to the active state"),
    }
}

#[test]
fn failure_to_mark_deactivating_rolls_back() {
    let overlays = vec!["/home".to_string()];
    let (_, action) = step(
        RunPhase::MarkingDeactivating(active_state(&overlays), overlays.clone()),
        RunEvent::Marked(Err(NailsError::InvalidState("state file locked".to_string()))),
    );
    match action {
        RunAction::RollBack(state, NailsError::InvalidState(m)) => {
            assert_eq!(state, active_state(&overlays));
            assert_eq!(m, "state file locked");
        }
        _ => panic!("expected a rollback"),
    }
}

#[test]
fn emergency_run_skips_the_real_disk_cleanup() {
    let overlays = vec!["/home".to_string()];
    let (phase, action) = run_step(
        DeactivationMode::Emergency,
        true,
        RunPhase::Unmounting(active_state(&overlays), CleanupReport::new(CleanupMode::Fast)),
        RunEvent::Unmounted(Ok(overlays.clone())),
        ElapsedTime::new(0, 0),
    );
    assert!(matches!(action, RunAction::SwitchToDecoy));
    match phase {
        RunPhase::Switching(_, _, v, d) => {
            assert_eq!(v, overlays);
            assert!(!d.was_performed);
        }
        _ => panic!("expected the switching phase"),
    }
}

#[test]
fn run_refuses_an_event_out_of_order() {
    let (phase, action) = step(RunPhase::Start, RunEvent::Switched(None));
    assert!(matches!(phase, RunPhase::Done));
    match action {
        RunAction::Stop(Err(NailsError::InvalidState(m))) => {
            assert_eq!(m, "Unexpected event for the deactivation phase")
        }
        _ => panic!("expected an invalid-state error"),
    }
    let overlays = vec!["/home".to_string()];
    let (_, action) = step(
        RunPhase::Cleaning(active_state(&overlays), overlays.clone()),
        RunEvent::Switched(None),
    );
    assert!(matches!(action, RunAction::RollBack(SystemState::Active { .. }, _)));
}
