use nails_core::error::NailsError;
use nails_core::filesystem::{verify_mount_preconditions, Filesystem, MockFilesystem};

#[test]
fn filesystem_test_mock_filesystem_new_starts_empty() {
    let fs = MockFilesystem::new();
    assert!(fs.get_mounted_paths().is_empty());
    assert!(!fs.swap_is_enabled().unwrap());
}

#[test]
fn filesystem_test_mock_filesystem_reset_clears_state() {
    let mut fs = MockFilesystem::new();
    fs.mock_set_mounted("/home", true);
    fs.mock_set_swap_enabled(true);
    fs.reset();
    assert!(fs.get_mounted_paths().is_empty());
    assert!(!fs.swap_is_enabled().unwrap());
}

#[test]
fn filesystem_test_mock_filesystem_nixos_build_profile_adds_profile() {
    let mut fs = MockFilesystem::new();

    assert!(fs.nixos_build_profile("test-profile").is_ok());
    assert!(fs.nixos_profile_exists("test-profile").unwrap());

    assert!(fs.nixos_build_profile("test-profile").is_ok());
}

#[test]
fn filesystem_test_mock_set_mounted_can_unmount() {
    let mut fs = MockFilesystem::new();
    let path = "/test/mount";

    fs.mock_set_mounted(path, true);
    assert!(fs.is_mounted(path).unwrap());

    fs.mock_set_mounted(path, false);
    assert!(!fs.is_mounted(path).unwrap());
}

#[test]
fn filesystem_test_mock_filesystem_swap_is_disabled_by_default() {
    let mut fs = MockFilesystem::new();
    assert!(!fs.swap_is_enabled().unwrap());

    fs.mock_set_swap_enabled(true);
    assert!(fs.swap_is_enabled().unwrap());

    fs.mock_set_swap_enabled(false);
    assert!(!fs.swap_is_enabled().unwrap());
}

#[test]
fn filesystem_test_mock_filesystem_directory_operations() {
    let mut fs = MockFilesystem::new();
    let path = "/test/dir";

    fs.mock_set_path_exists("/test/dir", true);
    fs.mock_set_path_type("/test/dir", "directory");

    assert!(fs.path_exists(path).unwrap());
    assert!(fs.is_directory(path).unwrap());
}

#[test]
fn filesystem_test_mock_filesystem_file_permissions() {
    let mut fs = MockFilesystem::new();
    let path = "/test/file";

    fs.mock_set_path_exists("/test/file", true);
    fs.mock_set_readable("/test/file", true);
    fs.mock_set_writable("/test/file", true);

    assert!(fs.is_readable(path).unwrap());
    assert!(fs.is_writable(path).unwrap());
}

#[test]
fn filesystem_test_mount_overlay_success_tracks_mount_info() {
    let mut fs = MockFilesystem::new();

    fs.mock_set_path_exists("/", true);
    fs.mock_set_path_exists("/mnt/hidden/upper", true);
    fs.mock_set_path_exists("/mnt/hidden/work", true);

    let result = fs.mount_overlay(&["/"], "/mnt/hidden/upper", "/mnt/hidden/work", "/home");

    assert!(result.is_ok());
    assert!(fs.is_mounted("/home").unwrap());

    let mount_info = fs.mock_get_mount_info("/home");
    assert!(mount_info.is_some());

    let info = mount_info.unwrap();
    assert_eq!(info.lower, "/");
    assert_eq!(info.upper, "/mnt/hidden/upper");
    assert_eq!(info.work, "/mnt/hidden/work");
    assert_eq!(info.target, "/home");
    let elapsed_ms = chrono::Utc::now().timestamp_millis() - info.mounted_at;
    assert!(elapsed_ms / 1000 < 2);
}

#[test]
fn filesystem_test_mount_overlay_fails_on_missing_lower() {
    let mut fs = MockFilesystem::new();

    fs.mock_set_path_exists("/mnt/hidden/upper", true);
    fs.mock_set_path_exists("/mnt/hidden/work", true);

    let result = fs.mount_overlay(
        &["/nonexistent/lower"],
        "/mnt/hidden/upper",
        "/mnt/hidden/work",
        "/home",
    );

    assert!(result.is_err());
    match result.unwrap_err() {
        NailsError::OverlayError(msg) => {
            assert!(msg.contains("Lower directory not found"));
            assert!(msg.contains("/nonexistent/lower"));
        }
        _ => panic!("Expected OverlayError for missing lower directory"),
    }
}

#[test]
fn filesystem_test_mount_overlay_fails_on_missing_upper() {
    let mut fs = MockFilesystem::new();

    fs.mock_set_path_exists("/", true);
    fs.mock_set_path_exists("/mnt/hidden/work", true);

    let result = fs.mount_overlay(&["/"], "/nonexistent/upper", "/mnt/hidden/work", "/home");

    assert!(result.is_err());
    match result.unwrap_err() {
        NailsError::OverlayError(msg) => {
            assert!(msg.contains("Upper directory not found"));
            assert!(msg.contains("/nonexistent/upper"));
        }
        _ => panic!("Expected OverlayError for missing upper directory"),
    }
}

#[test]
fn filesystem_test_mount_overlay_fails_on_missing_work() {
    let mut fs = MockFilesystem::new();

    fs.mock_set_path_exists("/", true);
    fs.mock_set_path_exists("/mnt/hidden/upper", true);

    let result = fs.mount_overlay(&["/"], "/mnt/hidden/upper", "/nonexistent/work", "/home");

    assert!(result.is_err());
    match result.unwrap_err() {
        NailsError::OverlayError(msg) => {
            assert!(msg.contains("Work directory not found"));
            assert!(msg.contains("/nonexistent/work"));
        }
        _ => panic!("Expected OverlayError for missing work directory"),
    }
}

#[test]
fn filesystem_test_mount_overlay_fails_on_already_mounted() {
    let mut fs = MockFilesystem::new();

    fs.mock_set_path_exists("/", true);
    fs.mock_set_path_exists("/mnt/hidden/upper", true);
    fs.mock_set_path_exists("/mnt/hidden/work", true);

    let result = fs.mount_overlay(&["/"], "/mnt/hidden/upper", "/mnt/hidden/work", "/home");
    assert!(result.is_ok());

    let result = fs.mount_overlay(&["/"], "/mnt/hidden/upper", "/mnt/hidden/work", "/home");

    assert!(result.is_err());
    match result.unwrap_err() {
        NailsError::AlreadyMounted { path } => {
            assert_eq!(path, "/home");
        }
        _ => panic!("Expected AlreadyMounted error"),
    }
}

#[test]
fn filesystem_test_mock_filesystem_can_simulate_mount_failure() {
    let mut fs = MockFilesystem::new();

    fs.mock_set_path_exists("/", true);
    fs.mock_set_path_exists("/mnt/hidden/upper", true);
    fs.mock_set_path_exists("/mnt/hidden/work", true);
    fs.mock_set_mount_should_fail("/home", true);

    let result = fs.mount_overlay(&["/"], "/mnt/hidden/upper", "/mnt/hidden/work", "/home");

    assert!(result.is_err());
    match result.unwrap_err() {
        NailsError::OverlayError(msg) => {
            assert!(msg.contains("Mock mount failure for testing"));
            assert!(msg.contains("/home"), "Error should include target path");
        }
        _ => panic!("Expected OverlayError for simulated failure"),
    }
}

#[test]
fn filesystem_test_mount_overlay_target_contains_merged_view() {
    let mut fs = MockFilesystem::new();

    fs.mock_set_path_exists("/", true);
    fs.mock_set_path_exists("/mnt/hidden/upper", true);
    fs.mock_set_path_exists("/mnt/hidden/work", true);

    let result = fs.mount_overlay(&["/"], "/mnt/hidden/upper", "/mnt/hidden/work", "/home");
    assert!(result.is_ok());

    let mount_info = fs.mock_get_mount_info("/home").unwrap();
    assert_eq!(mount_info.lower, "/", "Lower directory should be tracked");
    assert_eq!(
        mount_info.upper, "/mnt/hidden/upper",
        "Upper directory should be tracked"
    );
    assert_eq!(
        mount_info.work, "/mnt/hidden/work",
        "Work directory should be tracked"
    );
    assert_eq!(
        mount_info.target, "/home",
        "Target mount point should be tracked"
    );
}

#[test]
fn filesystem_test_unmount_removes_mount_info() {
    let mut fs = MockFilesystem::new();

    fs.mock_set_path_exists("/", true);
    fs.mock_set_path_exists("/mnt/hidden/upper", true);
    fs.mock_set_path_exists("/mnt/hidden/work", true);

    fs.mount_overlay(&["/"], "/mnt/hidden/upper", "/mnt/hidden/work", "/home").unwrap();

    assert!(fs.is_mounted("/home").unwrap());
    assert!(fs.mock_get_mount_info("/home").is_some());

    fs.unmount("/home", false).unwrap();

    assert!(!fs.is_mounted("/home").unwrap());
    assert!(fs.mock_get_mount_info("/home").is_none());
}

#[test]
fn filesystem_test_verify_mount_preconditions_succeeds_when_all_valid() {
    let mut fs = MockFilesystem::new();

    fs.mock_set_path_exists("/", true);
    fs.mock_set_path_exists("/mnt/hidden/upper", true);
    fs.mock_set_path_exists("/mnt/hidden/work", true);

    let result = verify_mount_preconditions(&fs, "/", "/mnt/hidden/upper", "/mnt/hidden/work", "/home");

    assert!(result.is_ok());
}

#[test]
fn filesystem_test_verify_mount_preconditions_fails_on_missing_lower() {
    let mut fs = MockFilesystem::new();

    fs.mock_set_path_exists("/mnt/hidden/upper", true);
    fs.mock_set_path_exists("/mnt/hidden/work", true);

    let result = verify_mount_preconditions(&fs, "/nonexistent", "/mnt/hidden/upper", "/mnt/hidden/work", "/home");

    assert!(result.is_err());
    match result.unwrap_err() {
        NailsError::OverlayError(msg) => {
            assert!(msg.contains("Lower directory not found"));
        }
        _ => panic!("Expected OverlayError"),
    }
}

#[test]
fn filesystem_test_verify_mount_preconditions_fails_on_missing_upper() {
    let mut fs = MockFilesystem::new();

    fs.mock_set_path_exists("/", true);
    fs.mock_set_path_exists("/mnt/hidden/work", true);

    let result = verify_mount_preconditions(&fs, "/", "/nonexistent/subdir/upper", "/mnt/hidden/work", "/home");

    assert!(result.is_err());
    match result.unwrap_err() {
        NailsError::OverlayError(msg) => {
            assert!(msg.contains("Upper directory not found and parent doesn't exist"));
        }
        _ => panic!("Expected OverlayError"),
    }
}

#[test]
fn filesystem_test_verify_mount_preconditions_fails_on_missing_work() {
    let mut fs = MockFilesystem::new();

    fs.mock_set_path_exists("/", true);
    fs.mock_set_path_exists("/mnt/hidden/upper", true);

    let result = verify_mount_preconditions(&fs, "/", "/mnt/hidden/upper", "/nonexistent/subdir/work", "/home");

    assert!(result.is_err());
    match result.unwrap_err() {
        NailsError::OverlayError(msg) => {
            assert!(msg.contains("Work directory not found and parent doesn't exist"));
        }
        _ => panic!("Expected OverlayError"),
    }
}

#[test]
fn filesystem_test_verify_mount_preconditions_fails_on_already_mounted() {
    let mut fs = MockFilesystem::new();

    fs.mock_set_path_exists("/", true);
    fs.mock_set_path_exists("/mnt/hidden/upper", true);
    fs.mock_set_path_exists("/mnt/hidden/work", true);

    fs.mount_overlay(&["/"], "/mnt/hidden/upper", "/mnt/hidden/work", "/home").unwrap();

    let result = verify_mount_preconditions(&fs, "/", "/mnt/hidden/upper", "/mnt/hidden/work", "/home");

    assert!(result.is_err());
    match result.unwrap_err() {
        NailsError::AlreadyMounted { path } => {
            assert_eq!(path, "/home");
        }
        _ => panic!("Expected AlreadyMounted error"),
    }
}

#[test]
fn filesystem_test_verify_mount_preconditions_succeeds_when_upper_creatable() {
    let mut fs = MockFilesystem::new();

    fs.mock_set_path_exists("/", true);
    fs.mock_set_path_exists("/mnt/hidden/work", true);
    fs.mock_set_directory_creatable("/mnt/hidden/upper", true);

    let result = verify_mount_preconditions(&fs, "/", "/mnt/hidden/upper", "/mnt/hidden/work", "/home");

    assert!(result.is_ok());
}

#[test]
fn filesystem_test_verify_mount_preconditions_succeeds_when_work_creatable() {
    let mut fs = MockFilesystem::new();

    fs.mock_set_path_exists("/", true);
    fs.mock_set_path_exists("/mnt/hidden/upper", true);
    fs.mock_set_directory_creatable("/mnt/hidden/work", true);

    let result = verify_mount_preconditions(&fs, "/", "/mnt/hidden/upper", "/mnt/hidden/work", "/home");

    assert!(result.is_ok());
}

#[test]
fn filesystem_test_verify_mount_preconditions_fails_when_upper_not_creatable() {
    let mut fs = MockFilesystem::new();

    fs.mock_set_path_exists("/", true);
    fs.mock_set_path_exists("/mnt/hidden/work", true);
    fs.mock_set_directory_creatable("/mnt/hidden/upper", false);

    let result = verify_mount_preconditions(&fs, "/", "/mnt/hidden/upper", "/mnt/hidden/work", "/home");

    assert!(result.is_err());
    match result.unwrap_err() {
        NailsError::PermissionDenied(msg) => {
            assert!(msg.contains("Upper directory not found and parent not writable"));
        }
        _ => panic!("Expected PermissionDenied error"),
    }
}

#[test]
fn filesystem_test_verify_mount_preconditions_fails_when_work_not_creatable() {
    let mut fs = MockFilesystem::new();

    fs.mock_set_path_exists("/", true);
    fs.mock_set_path_exists("/mnt/hidden/upper", true);
    fs.mock_set_directory_creatable("/mnt/hidden/work", false);

    let result = verify_mount_preconditions(&fs, "/", "/mnt/hidden/upper", "/mnt/hidden/work", "/home");

    assert!(result.is_err());
    match result.unwrap_err() {
        NailsError::PermissionDenied(msg) => {
            assert!(msg.contains("Work directory not found and parent not writable"));
        }
        _ => panic!("Expected PermissionDenied error"),
    }
}

#[test]
fn filesystem_test_mock_mount_tmpfs_success() {
    let mut fs = MockFilesystem::new();

    fs.mock_set_path_exists("/run/nails/var-upper", true);

    let result = fs.mount_tmpfs("/run/nails/var-upper", "1G");
    assert!(result.is_ok());

    assert!(fs.is_mounted("/run/nails/var-upper").unwrap());
}

#[test]
fn filesystem_test_mock_mount_tmpfs_validates_size_format() {
    let mut fs = MockFilesystem::new();

    fs.mock_set_directory_creatable("/run/nails/test1", true);
    fs.mock_set_directory_creatable("/run/nails/test2", true);
    fs.mock_set_directory_creatable("/run/nails/test3", true);
    fs.mock_set_directory_creatable("/run/nails/invalid", true);

    assert!(fs.mount_tmpfs("/run/nails/test1", "1G").is_ok());
    assert!(fs.mount_tmpfs("/run/nails/test2", "512M").is_ok());
    assert!(fs.mount_tmpfs("/run/nails/test3", "1024").is_ok());

    let result = fs.mount_tmpfs("/run/nails/invalid", "invalid");
    assert!(result.is_err());
    match result.unwrap_err() {
        NailsError::OverlayError(msg) => {
            assert!(msg.contains("Invalid tmpfs size format"));
        }
        _ => panic!("Expected OverlayError for invalid size"),
    }
}

#[test]
fn filesystem_test_mock_mount_tmpfs_rejects_already_mounted() {
    let mut fs = MockFilesystem::new();

    fs.mock_set_path_exists("/run/nails/var-upper", true);

    assert!(fs.mount_tmpfs("/run/nails/var-upper", "1G").is_ok());

    let result = fs.mount_tmpfs("/run/nails/var-upper", "1G");
    assert!(result.is_err());
    match result.unwrap_err() {
        NailsError::AlreadyMounted { path } => {
            assert_eq!(path, "/run/nails/var-upper");
        }
        _ => panic!("Expected AlreadyMounted error"),
    }
}

#[test]
fn filesystem_test_mock_mount_tmpfs_creates_directory() {
    let mut fs = MockFilesystem::new();

    fs.mock_set_directory_creatable("/run/nails/new-dir", true);

    assert!(!fs.path_exists("/run/nails/new-dir").unwrap());

    let result = fs.mount_tmpfs("/run/nails/new-dir", "512M");
    assert!(result.is_ok());

    assert!(fs.path_exists("/run/nails/new-dir").unwrap());
}

#[test]
fn filesystem_test_mock_unmount_tmpfs_success() {
    let mut fs = MockFilesystem::new();

    fs.mock_set_path_exists("/run/nails/var-upper", true);
    fs.mount_tmpfs("/run/nails/var-upper", "1G").unwrap();

    assert!(fs.is_mounted("/run/nails/var-upper").unwrap());

    let result = fs.unmount_tmpfs("/run/nails/var-upper");
    assert!(result.is_ok());

    assert!(!fs.is_mounted("/run/nails/var-upper").unwrap());
}

#[test]
fn filesystem_test_mock_unmount_tmpfs_idempotent() {
    let mut fs = MockFilesystem::new();

    let result = fs.unmount_tmpfs("/not/mounted");
    assert!(result.is_ok());
}

#[test]
fn filesystem_test_mock_tmpfs_multiple_mounts() {
    let mut fs = MockFilesystem::new();

    fs.mock_set_path_exists("/run/nails/var-upper", true);
    fs.mock_set_path_exists("/run/nails/tmp-upper", true);

    assert!(fs.mount_tmpfs("/run/nails/var-upper", "1G").is_ok());
    assert!(fs.mount_tmpfs("/run/nails/tmp-upper", "512M").is_ok());

    assert!(fs.is_mounted("/run/nails/var-upper").unwrap());
    assert!(fs.is_mounted("/run/nails/tmp-upper").unwrap());

    assert!(fs.unmount_tmpfs("/run/nails/var-upper").is_ok());

    assert!(!fs.is_mounted("/run/nails/var-upper").unwrap());
    assert!(fs.is_mounted("/run/nails/tmp-upper").unwrap());
}

#[test]
fn filesystem_test_mock_tmpfs_reset_clears_mounts() {
    let mut fs = MockFilesystem::new();

    fs.mock_set_path_exists("/run/nails/var-upper", true);
    fs.mount_tmpfs("/run/nails/var-upper", "1G").unwrap();

    assert!(fs.is_mounted("/run/nails/var-upper").unwrap());

    fs.reset();

    assert!(!fs.is_mounted("/run/nails/var-upper").unwrap());
}
