use nails_core::deactivation::{
    check_cleanup_report, deactivation_start, post_unmount_cleanup_wanted, rollback_unmounts,
    unmount_overlays, unmount_single_overlay, CleanupMode, CleanupReport, DeactivationMode,
    DeactivationReport, DeactivationStart, ElapsedTime, PostUnmountCleanupReport, SystemState,
};
use nails_core::error::NailsError;
use nails_core::filesystem::{Filesystem, MockFilesystem, MockOp};

#[test]
fn test_deactivation_report_new() {
    let report = DeactivationReport {
        cleanup_report: CleanupReport::default(),
        unmounted_overlays: vec!["/home".to_string(), "/etc".to_string()],
        duration: ElapsedTime::from_millis(150),
        final_state: SystemState::Inactive,
        was_already_inactive: false,
        post_unmount_cleanup: PostUnmountCleanupReport::default(),
    };

    assert!(report.is_successful());
    assert_eq!(report.unmounted_overlays.len(), 2);
    assert!(!report.was_already_inactive);
}

#[test]
fn test_deactivation_report_display_already_inactive() {
    let report = DeactivationReport {
        cleanup_report: CleanupReport::default(),
        unmounted_overlays: Vec::new(),
        duration: ElapsedTime::from_millis(5),
        final_state: SystemState::Inactive,
        was_already_inactive: true,
        post_unmount_cleanup: PostUnmountCleanupReport::default(),
    };

    let output = report.report_text();
    assert!(output.contains("Already inactive"));
}

#[test]
fn test_deactivation_report_display_with_items() {
    let mut cleanup_report = CleanupReport::new(CleanupMode::Fast);
    cleanup_report.add_cleaned("Removed 3 history entries");
    cleanup_report.duration = ElapsedTime::from_millis(100);

    let report = DeactivationReport {
        cleanup_report,
        unmounted_overlays: vec!["/home".to_string(), "/etc".to_string()],
        duration: ElapsedTime::from_millis(150),
        final_state: SystemState::Inactive,
        was_already_inactive: false,
        post_unmount_cleanup: PostUnmountCleanupReport::default(),
    };

    let output = report.report_text();
    assert!(output.contains("Deactivation Report"));
    assert!(output.contains("Removed 3 history entries"));
    assert!(output.contains("/home"));
    assert!(output.contains("/etc"));
    assert!(output.contains("Deactivation complete"));
}

#[test]
fn test_deactivation_report_display_with_post_unmount_cleanup() {
    let mut cleanup_report = CleanupReport::new(CleanupMode::Fast);
    cleanup_report.add_cleaned("Removed 3 history entries");
    cleanup_report.duration = ElapsedTime::from_millis(100);

    let post_unmount_cleanup = PostUnmountCleanupReport {
        cleaned_items: vec![
            "~/.bash_history (real disk)".to_string(),
            "~/.zsh_history (real disk)".to_string(),
        ],
        warnings: vec!["Failed to clean ~/.fish_history: Permission denied".to_string()],
        was_performed: true,
    };

    let report = DeactivationReport {
        cleanup_report,
        unmounted_overlays: vec!["/home".to_string(), "/etc".to_string()],
        duration: ElapsedTime::from_millis(150),
        final_state: SystemState::Inactive,
        was_already_inactive: false,
        post_unmount_cleanup,
    };

    let output = report.report_text();
    assert!(output.contains("Deactivation Report"));
    assert!(output.contains("Phase 1 - Overlay Cleanup:"));
    assert!(output.contains("Removed 3 history entries"));
    assert!(output.contains("Unmounted Overlays:"));
    assert!(output.contains("/home"));
    assert!(output.contains("/etc"));
    assert!(output.contains("Phase 2 - Real Disk Cleanup:"));
    assert!(output.contains("~/.bash_history (real disk)"));
    assert!(output.contains("~/.zsh_history (real disk)"));
    assert!(output.contains("⚠ Failed to clean ~/.fish_history: Permission denied"));
    assert!(output.contains("✓ Deactivation complete"));
}

#[test]
fn test_deactivation_report_display_without_post_unmount_cleanup() {
    let mut cleanup_report = CleanupReport::new(CleanupMode::Fast);
    cleanup_report.add_cleaned("Removed 3 history entries");
    cleanup_report.duration = ElapsedTime::from_millis(100);

    let post_unmount_cleanup = PostUnmountCleanupReport {
        cleaned_items: vec![],
        warnings: vec![],
        was_performed: false,
    };

    let report = DeactivationReport {
        cleanup_report,
        unmounted_overlays: vec!["/home".to_string()],
        duration: ElapsedTime::from_millis(150),
        final_state: SystemState::Inactive,
        was_already_inactive: false,
        post_unmount_cleanup,
    };

    let output = report.report_text();
    assert!(output.contains("Deactivation Report"));
    assert!(output.contains("Phase 1 - Overlay Cleanup:"));
    assert!(!output.contains("Phase 2 - Real Disk Cleanup:"));
}

#[test]
fn test_deactivation_report_is_successful_with_inactive_state() {
    let report = DeactivationReport {
        cleanup_report: CleanupReport::default(),
        unmounted_overlays: vec![],
        duration: ElapsedTime::from_millis(100),
        final_state: SystemState::Inactive,
        was_already_inactive: false,
        post_unmount_cleanup: PostUnmountCleanupReport::default(),
    };

    assert!(report.is_successful());
}

#[test]
fn test_deactivation_report_is_not_successful_with_active_state() {
    let report = DeactivationReport {
        cleanup_report: CleanupReport::default(),
        unmounted_overlays: vec![],
        duration: ElapsedTime::from_millis(100),
        final_state: SystemState::Active {
            activated_at: chrono::Utc::now().timestamp_millis(),
            overlays: vec![],
        },
        was_already_inactive: false,
        post_unmount_cleanup: PostUnmountCleanupReport::default(),
    };

    assert!(!report.is_successful());
}

#[test]
fn test_post_unmount_cleanup_report_default() {
    let report = PostUnmountCleanupReport::default();
    assert_eq!(report.cleaned_items.len(), 0);
    assert_eq!(report.warnings.len(), 0);
    assert!(!report.was_performed);
}

#[test]
fn test_post_unmount_cleanup_report_with_data() {
    let report = PostUnmountCleanupReport {
        cleaned_items: vec!["file1".to_string(), "file2".to_string()],
        warnings: vec!["warning1".to_string()],
        was_performed: true,
    };

    assert_eq!(report.cleaned_items.len(), 2);
    assert_eq!(report.warnings.len(), 1);
    assert!(report.was_performed);
}

#[test]
fn report_text_is_exact() {
    let mut cleanup_report = CleanupReport::new(CleanupMode::Thorough { verify_cleanup: true });
    cleanup_report.add_cleaned("a");
    let report = DeactivationReport {
        cleanup_report,
        unmounted_overlays: vec!["/home".to_string()],
        duration: ElapsedTime::from_millis(1500),
        final_state: SystemState::Inactive,
        was_already_inactive: false,
        post_unmount_cleanup: PostUnmountCleanupReport {
            cleaned_items: vec!["b".to_string()],
            warnings: vec!["w".to_string()],
            was_performed: true,
        },
    };
    assert_eq!(
        report.report_text(),
        "Deactivation Report\n===================\nDuration: 1.5s\nFinal State: Inactive\n\n\
         Phase 1 - Overlay Cleanup:\n  ✓ a\n\nUnmounted Overlays:\n  ✓ /home\n\n\
         Phase 2 - Real Disk Cleanup:\n  ✓ b\n  ⚠ w\n\n✓ Deactivation complete\n"
    );
}

#[test]
fn report_of_failed_deactivation_does_not_claim_completion() {
    let report = DeactivationReport {
        cleanup_report: CleanupReport::default(),
        unmounted_overlays: vec![],
        duration: ElapsedTime::from_millis(150),
        final_state: SystemState::Deactivating { started_at: 0 },
        was_already_inactive: false,
        post_unmount_cleanup: PostUnmountCleanupReport::default(),
    };
    let text = report.report_text();
    assert!(text.contains("Duration: 150ms"));
    assert!(text.contains("Final State: Deactivating { started_at: 0 }\n"));
    assert!(!text.contains("Deactivation complete"));
}

#[test]
fn elapsed_time_keeps_milliseconds() {
    let t = ElapsedTime::from_millis(12_345);
    assert_eq!(t.as_secs(), 12);
    assert_eq!(t.subsec_nanos(), 345_000_000);
    let u = ElapsedTime::new(3, 7);
    assert_eq!(u.as_secs(), 3);
    assert_eq!(u.subsec_nanos(), 7);
}

#[test]
fn cleanup_report_records_items() {
    let mut r = CleanupReport::new(CleanupMode::Fast);
    r.add_cleaned("one");
    r.add_cleaned("two");
    assert_eq!(r.cleaned_items, vec!["one".to_string(), "two".to_string()]);
    assert!(r.errors.is_empty());
    assert_eq!(r.verification_passed, None);
    assert_eq!(CleanupReport::default().mode, CleanupMode::Fast);
}

// ------------------------------------------------------------------------
// Phase decisions
// ------------------------------------------------------------------------

#[test]
fn normal_mode_is_idempotent_on_inactive_system() {
    match deactivation_start(DeactivationMode::Normal, &SystemState::Inactive) {
        Ok(DeactivationStart::AlreadyInactive) => {}
        _ => panic!("expected AlreadyInactive"),
    }
}

#[test]
fn emergency_mode_refuses_inactive_system() {
    match deactivation_start(DeactivationMode::Emergency, &SystemState::Inactive) {
        Err(NailsError::InvalidState(msg)) => {
            assert!(msg.contains("Cannot deactivate"));
            assert_eq!(msg, "Cannot deactivate from state Inactive. Must be ACTIVE.");
        }
        _ => panic!("expected InvalidState"),
    }
}

#[test]
fn active_system_proceeds_with_its_overlays() {
    let state = SystemState::Active {
        activated_at: 0,
        overlays: vec!["/home".to_string(), "/etc".to_string()],
    };
    for mode in [DeactivationMode::Normal, DeactivationMode::Emergency] {
        match deactivation_start(mode, &state) {
            Ok(DeactivationStart::Proceed(v)) => {
                assert_eq!(v, vec!["/home".to_string(), "/etc".to_string()])
            }
            _ => panic!("expected Proceed"),
        }
    }
}

#[test]
fn deactivating_system_is_refused() {
    match deactivation_start(DeactivationMode::Normal, &SystemState::Deactivating { started_at: 5 })
    {
        Err(NailsError::InvalidState(msg)) => {
            assert_eq!(
                msg,
                "Cannot deactivate from state Deactivating { started_at: 5 }. Must be ACTIVE."
            );
            assert_eq!(msg, format!("Cannot deactivate from state {:?}. Must be ACTIVE.", SystemState::Deactivating { started_at: 5 }));
        }
        _ => panic!("expected InvalidState"),
    }
}

#[test]
fn cleanup_errors_stop_deactivation() {
    let mut report = CleanupReport::new(CleanupMode::Thorough { verify_cleanup: true });
    report.errors = vec!["a failed".to_string(), "b failed".to_string()];
    match check_cleanup_report(&report) {
        Err(NailsError::CleanupError(msg)) => assert_eq!(
            msg,
            "Cleanup had 2 error(s): a failed; b failed. Overlays remain mounted. State: ACTIVE"
        ),
        other => panic!("expected CleanupError, got {:?}", other),
    }
}

#[test]
fn failed_verification_stops_deactivation() {
    let mut report = CleanupReport::new(CleanupMode::Thorough { verify_cleanup: true });
    report.verification_passed = Some(false);
    match check_cleanup_report(&report) {
        Err(NailsError::CleanupError(msg)) => assert_eq!(
            msg,
            "Cleanup verification failed: forensic artifacts may remain. Overlays remain mounted. State: ACTIVE"
        ),
        other => panic!("expected CleanupError, got {:?}", other),
    }
    report.verification_passed = Some(true);
    assert!(check_cleanup_report(&report).is_ok());
    report.verification_passed = None;
    assert!(check_cleanup_report(&report).is_ok());
}

#[test]
fn emergency_mode_skips_real_disk_cleanup() {
    assert!(post_unmount_cleanup_wanted(DeactivationMode::Normal, true));
    assert!(!post_unmount_cleanup_wanted(DeactivationMode::Normal, false));
    assert!(!post_unmount_cleanup_wanted(DeactivationMode::Emergency, true));
    assert!(!post_unmount_cleanup_wanted(DeactivationMode::Emergency, false));
}

// ------------------------------------------------------------------------
// Unmounting with rollback
// ------------------------------------------------------------------------

fn mounted_overlay(fs: &mut MockFilesystem, target: &str) {
    let lower = format!("/lower{}", target);
    let upper = format!("/upper{}", target);
    let work = format!("/work{}", target);
    fs.mock_set_path_exists(&lower, true);
    fs.mock_set_path_exists(&upper, true);
    fs.mock_set_path_exists(&work, true);
    fs.mount_overlay(&[lower.as_str()], &upper, &work, target)
        .unwrap();
}

#[test]
fn overlays_unmount_in_reverse_order() {
    let mut fs = MockFilesystem::new();
    mounted_overlay(&mut fs, "/home");
    mounted_overlay(&mut fs, "/etc");
    let result = unmount_overlays(&mut fs, &vec!["/home".to_string(), "/etc".to_string()]).unwrap();
    assert_eq!(result, vec!["/etc".to_string(), "/home".to_string()]);
    assert!(!fs.is_mounted("/home").unwrap());
    assert!(!fs.is_mounted("/etc").unwrap());
}

#[test]
fn busy_overlay_is_unmounted_by_force() {
    let mut fs = MockFilesystem::new();
    mounted_overlay(&mut fs, "/home");
    fs.mock_set_busy("/home", true);
    assert!(unmount_single_overlay(&mut fs, "/home").is_ok());
    assert!(!fs.is_mounted("/home").unwrap());
}

#[test]
fn failed_unmount_remounts_the_overlays_already_unmounted() {
    let mut fs = MockFilesystem::new();
    mounted_overlay(&mut fs, "/home");
    mounted_overlay(&mut fs, "/etc");
    fs.mock_set_unmount_should_fail("/home", true);
    let result = unmount_overlays(&mut fs, &vec!["/home".to_string(), "/etc".to_string()]);
    match result {
        Err(NailsError::UnmountError { path, .. }) => assert_eq!(path, "/home"),
        other => panic!("expected UnmountError, got {:?}", other),
    }
    assert!(fs.is_mounted("/home").unwrap());
    // The overlay unmounted before the failure is mounted again from the
    // metadata read before its unmount.
    assert!(fs.is_mounted("/etc").unwrap());
    assert!(fs.get_mount_info("/etc").is_some());
}

#[test]
fn rollback_always_succeeds() {
    let mut fs = MockFilesystem::new();
    assert!(rollback_unmounts(&mut fs, &vec!["/nowhere".to_string()]).is_ok());
}

#[test]
fn test_deactivation_from_non_active_state_fails() {
    let state = SystemState::Activating { started_at: -1_700_000_000_000 };
    match deactivation_start(DeactivationMode::Normal, &state) {
        Err(NailsError::InvalidState(msg)) => {
            assert!(msg.contains("Cannot deactivate from state"));
            assert!(msg.contains("Must be ACTIVE"));
            assert_eq!(msg, format!("Cannot deactivate from state {:?}. Must be ACTIVE.", state));
        }
        _ => panic!("Expected InvalidState error"),
    }
}

#[test]
fn test_emergency_mode_fails_on_inactive_state() {
    let result = deactivation_start(DeactivationMode::Emergency, &SystemState::Inactive);
    assert!(result.is_err(), "Emergency mode should fail on Inactive state");
    match result {
        Err(NailsError::InvalidState(msg)) => {
            assert!(msg.contains("Cannot deactivate"));
        }
        _ => panic!("Expected InvalidState error"),
    }
}

#[test]
fn test_normal_mode_is_idempotent_on_inactive() {
    let result = deactivation_start(DeactivationMode::Normal, &SystemState::Inactive);
    assert!(result.is_ok());
    assert!(matches!(result, Ok(DeactivationStart::AlreadyInactive)));
}

#[test]
fn elapsed_time_carries_whole_seconds_of_nanoseconds() {
    let t = ElapsedTime::new(3, 1_500_000_000);
    assert_eq!(t.as_secs(), 4);
    assert_eq!(t.subsec_nanos(), 500_000_000);
}

#[test]
fn single_overlay_is_unmounted_gracefully_before_force() {
    let mut fs = MockFilesystem::new();
    mounted_overlay(&mut fs, "/home");
    fs.mock_set_unmount_graceful_fails("/home", true);
    let before = fs.mock_ops().len();
    assert!(unmount_single_overlay(&mut fs, "/home").is_ok());
    let ops = fs.mock_ops();
    assert_eq!(
        ops[before..].to_vec(),
        vec![
            MockOp::Unmount { target: "/home".to_string(), force: false },
            MockOp::Unmount { target: "/home".to_string(), force: true },
        ]
    );
}
