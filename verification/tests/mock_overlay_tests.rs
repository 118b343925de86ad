use nails_core::error::NailsError;
use nails_core::filesystem::{verify_mount_preconditions, Filesystem, MockFilesystem};

#[test]
fn tests_overlay_test_mount_overlay_success_tracks_mount_info() {
    let mut fs = MockFilesystem::new();

    fs.mock_set_path_exists("/", true);
    fs.mock_set_path_exists("/mnt/hidden/upper", true);
    fs.mock_set_path_exists("/mnt/hidden/work", true);

    let result = fs.mount_overlay(&["/"], "/mnt/hidden/upper", "/mnt/hidden/work", "/home");

    assert!(result.is_ok());
    assert!(fs.is_mounted("/home").unwrap());

    let mount_info = fs.mock_get_mount_info("/home");
    assert!(mount_info.is_some());

    let info = mount_info.unwrap();
    assert_eq!(info.lower, "/");
    assert_eq!(info.upper, "/mnt/hidden/upper");
    assert_eq!(info.work, "/mnt/hidden/work");
    assert_eq!(info.target, "/home");
    let elapsed_ms = chrono::Utc::now().timestamp_millis() - info.mounted_at;
    assert!(elapsed_ms / 1000 < 2);
}

#[test]
fn tests_overlay_test_mount_overlay_fails_on_missing_lower() {
    let mut fs = MockFilesystem::new();

    fs.mock_set_path_exists("/mnt/hidden/upper", true);
    fs.mock_set_path_exists("/mnt/hidden/work", true);

    let result = fs.mount_overlay(
        &["/nonexistent/lower"],
        "/mnt/hidden/upper",
        "/mnt/hidden/work",
        "/home",
    );

    assert!(result.is_err());
    match result.unwrap_err() {
        NailsError::OverlayError(msg) => {
            assert!(msg.contains("Lower directory not found"));
            assert!(msg.contains("/nonexistent/lower"));
        }
        _ => panic!("Expected OverlayError for missing lower directory"),
    }
}

#[test]
fn tests_overlay_test_mount_overlay_fails_on_missing_upper() {
    let mut fs = MockFilesystem::new();

    fs.mock_set_path_exists("/", true);
    fs.mock_set_path_exists("/mnt/hidden/work", true);

    let result = fs.mount_overlay(&["/"], "/nonexistent/upper", "/mnt/hidden/work", "/home");

    assert!(result.is_err());
    match result.unwrap_err() {
        NailsError::OverlayError(msg) => {
            assert!(msg.contains("Upper directory not found"));
            assert!(msg.contains("/nonexistent/upper"));
        }
        _ => panic!("Expected OverlayError for missing upper directory"),
    }
}

#[test]
fn tests_overlay_test_mount_overlay_fails_on_missing_work() {
    let mut fs = MockFilesystem::new();

    fs.mock_set_path_exists("/", true);
    fs.mock_set_path_exists("/mnt/hidden/upper", true);

    let result = fs.mount_overlay(&["/"], "/mnt/hidden/upper", "/nonexistent/work", "/home");

    assert!(result.is_err());
    match result.unwrap_err() {
        NailsError::OverlayError(msg) => {
            assert!(msg.contains("Work directory not found"));
            assert!(msg.contains("/nonexistent/work"));
        }
        _ => panic!("Expected OverlayError for missing work directory"),
    }
}

#[test]
fn tests_overlay_test_mount_overlay_fails_on_already_mounted() {
    let mut fs = MockFilesystem::new();

    fs.mock_set_path_exists("/", true);
    fs.mock_set_path_exists("/mnt/hidden/upper", true);
    fs.mock_set_path_exists("/mnt/hidden/work", true);

    let result = fs.mount_overlay(&["/"], "/mnt/hidden/upper", "/mnt/hidden/work", "/home");
    assert!(result.is_ok());

    let result = fs.mount_overlay(&["/"], "/mnt/hidden/upper", "/mnt/hidden/work", "/home");

    assert!(result.is_err());
    match result.unwrap_err() {
        NailsError::AlreadyMounted { path } => {
            assert_eq!(path, "/home");
        }
        _ => panic!("Expected AlreadyMounted error"),
    }
}

#[test]
fn tests_overlay_test_mock_filesystem_can_simulate_mount_failure() {
    let mut fs = MockFilesystem::new();

    fs.mock_set_path_exists("/", true);
    fs.mock_set_path_exists("/mnt/hidden/upper", true);
    fs.mock_set_path_exists("/mnt/hidden/work", true);
    fs.mock_set_mount_should_fail("/home", true);

    let result = fs.mount_overlay(&["/"], "/mnt/hidden/upper", "/mnt/hidden/work", "/home");

    assert!(result.is_err());
    match result.unwrap_err() {
        NailsError::OverlayError(msg) => {
            assert!(msg.contains("Mock mount failure for testing"));
            assert!(msg.contains("/home"), "Error should include target path");
        }
        _ => panic!("Expected OverlayError for simulated failure"),
    }
}

#[test]
fn tests_overlay_test_mount_overlay_target_contains_merged_view() {
    let mut fs = MockFilesystem::new();

    fs.mock_set_path_exists("/", true);
    fs.mock_set_path_exists("/mnt/hidden/upper", true);
    fs.mock_set_path_exists("/mnt/hidden/work", true);

    let result = fs.mount_overlay(&["/"], "/mnt/hidden/upper", "/mnt/hidden/work", "/home");
    assert!(result.is_ok());

    let mount_info = fs.mock_get_mount_info("/home").unwrap();
    assert_eq!(mount_info.lower, "/", "Lower directory should be tracked");
    assert_eq!(
        mount_info.upper, "/mnt/hidden/upper",
        "Upper directory should be tracked"
    );
    assert_eq!(
        mount_info.work, "/mnt/hidden/work",
        "Work directory should be tracked"
    );
    assert_eq!(
        mount_info.target, "/home",
        "Target mount point should be tracked"
    );
}

#[test]
fn tests_overlay_test_unmount_removes_mount_info() {
    let mut fs = MockFilesystem::new();

    fs.mock_set_path_exists("/", true);
    fs.mock_set_path_exists("/mnt/hidden/upper", true);
    fs.mock_set_path_exists("/mnt/hidden/work", true);

    fs.mount_overlay(&["/"], "/mnt/hidden/upper", "/mnt/hidden/work", "/home").unwrap();

    assert!(fs.is_mounted("/home").unwrap());
    assert!(fs.mock_get_mount_info("/home").is_some());

    fs.unmount("/home", false).unwrap();

    assert!(!fs.is_mounted("/home").unwrap());
    assert!(fs.mock_get_mount_info("/home").is_none());
}

#[test]
fn tests_overlay_test_verify_mount_preconditions_succeeds_when_all_valid() {
    let mut fs = MockFilesystem::new();

    fs.mock_set_path_exists("/", true);
    fs.mock_set_path_exists("/mnt/hidden/upper", true);
    fs.mock_set_path_exists("/mnt/hidden/work", true);

    let result = verify_mount_preconditions(&fs, "/", "/mnt/hidden/upper", "/mnt/hidden/work", "/home");

    assert!(result.is_ok());
}

#[test]
fn tests_overlay_test_verify_mount_preconditions_fails_on_missing_lower() {
    let mut fs = MockFilesystem::new();

    fs.mock_set_path_exists("/mnt/hidden/upper", true);
    fs.mock_set_path_exists("/mnt/hidden/work", true);

    let result = verify_mount_preconditions(&fs, "/nonexistent", "/mnt/hidden/upper", "/mnt/hidden/work", "/home");

    assert!(result.is_err());
    match result.unwrap_err() {
        NailsError::OverlayError(msg) => {
            assert!(msg.contains("Lower directory not found"));
        }
        _ => panic!("Expected OverlayError"),
    }
}

#[test]
fn tests_overlay_test_verify_mount_preconditions_fails_on_missing_upper() {
    let mut fs = MockFilesystem::new();

    fs.mock_set_path_exists("/", true);
    fs.mock_set_path_exists("/mnt/hidden/work", true);

    let result = verify_mount_preconditions(&fs, "/", "/nonexistent/subdir/upper", "/mnt/hidden/work", "/home");

    assert!(result.is_err());
    match result.unwrap_err() {
        NailsError::OverlayError(msg) => {
            assert!(msg.contains("Upper directory not found and parent doesn't exist"));
        }
        _ => panic!("Expected OverlayError"),
    }
}

#[test]
fn tests_overlay_test_verify_mount_preconditions_fails_on_missing_work() {
    let mut fs = MockFilesystem::new();

    fs.mock_set_path_exists("/", true);
    fs.mock_set_path_exists("/mnt/hidden/upper", true);

    let result = verify_mount_preconditions(&fs, "/", "/mnt/hidden/upper", "/nonexistent/subdir/work", "/home");

    assert!(result.is_err());
    match result.unwrap_err() {
        NailsError::OverlayError(msg) => {
            assert!(msg.contains("Work directory not found and parent doesn't exist"));
        }
        _ => panic!("Expected OverlayError"),
    }
}

#[test]
fn tests_overlay_test_verify_mount_preconditions_fails_on_already_mounted() {
    let mut fs = MockFilesystem::new();

    fs.mock_set_path_exists("/", true);
    fs.mock_set_path_exists("/mnt/hidden/upper", true);
    fs.mock_set_path_exists("/mnt/hidden/work", true);

    fs.mount_overlay(&["/"], "/mnt/hidden/upper", "/mnt/hidden/work", "/home").unwrap();

    let result = verify_mount_preconditions(&fs, "/", "/mnt/hidden/upper", "/mnt/hidden/work", "/home");

    assert!(result.is_err());
    match result.unwrap_err() {
        NailsError::AlreadyMounted { path } => {
            assert_eq!(path, "/home");
        }
        _ => panic!("Expected AlreadyMounted error"),
    }
}

#[test]
fn tests_overlay_test_verify_mount_preconditions_succeeds_when_upper_creatable() {
    let mut fs = MockFilesystem::new();

    fs.mock_set_path_exists("/", true);
    fs.mock_set_path_exists("/mnt/hidden/work", true);
    fs.mock_set_directory_creatable("/mnt/hidden/upper", true);

    let result = verify_mount_preconditions(&fs, "/", "/mnt/hidden/upper", "/mnt/hidden/work", "/home");

    assert!(result.is_ok());
}

#[test]
fn tests_overlay_test_verify_mount_preconditions_succeeds_when_work_creatable() {
    let mut fs = MockFilesystem::new();

    fs.mock_set_path_exists("/", true);
    fs.mock_set_path_exists("/mnt/hidden/upper", true);
    fs.mock_set_directory_creatable("/mnt/hidden/work", true);

    let result = verify_mount_preconditions(&fs, "/", "/mnt/hidden/upper", "/mnt/hidden/work", "/home");

    assert!(result.is_ok());
}

#[test]
fn tests_overlay_test_verify_mount_preconditions_fails_when_upper_not_creatable() {
    let mut fs = MockFilesystem::new();

    fs.mock_set_path_exists("/", true);
    fs.mock_set_path_exists("/mnt/hidden/work", true);
    fs.mock_set_directory_creatable("/mnt/hidden/upper", false);

    let result = verify_mount_preconditions(&fs, "/", "/mnt/hidden/upper", "/mnt/hidden/work", "/home");

    assert!(result.is_err());
    match result.unwrap_err() {
        NailsError::PermissionDenied(msg) => {
            assert!(msg.contains("Upper directory not found and parent not writable"));
        }
        _ => panic!("Expected PermissionDenied error"),
    }
}

#[test]
fn tests_overlay_test_verify_mount_preconditions_fails_when_work_not_creatable() {
    let mut fs = MockFilesystem::new();

    fs.mock_set_path_exists("/", true);
    fs.mock_set_path_exists("/mnt/hidden/upper", true);
    fs.mock_set_directory_creatable("/mnt/hidden/work", false);

    let result = verify_mount_preconditions(&fs, "/", "/mnt/hidden/upper", "/mnt/hidden/work", "/home");

    assert!(result.is_err());
    match result.unwrap_err() {
        NailsError::PermissionDenied(msg) => {
            assert!(msg.contains("Work directory not found and parent not writable"));
        }
        _ => panic!("Expected PermissionDenied error"),
    }
}
