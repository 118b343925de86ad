use nails_core::error::{IoError, IoErrorKind, NailsError};
use nails_core::filesystem::Filesystem;
use nails_core::filesystem::MockFilesystem;
use nails_core::logging::{
    clean_path, exceeds_size_limit, is_permission_denied, is_rotated_log_name,
    log_age_days, log_directory_action, log_file_path, log_retention_expired, numbered_log_path,
    rotation_plan, LogDirectoryAction, LoggingConfig, LoggingManager,
};

fn manager(log: &str, hidden: &str) -> LoggingManager {
    LoggingManager::new(log.to_string(), hidden.to_string())
}

// ------------------------------------------------------------------------
// LoggingManager construction
// ------------------------------------------------------------------------

#[test]
fn test_new_sets_default_max_log_size() {
    let manager = manager("/mnt/hidden-volume/logs", "/mnt/hidden-volume");
    assert_eq!(manager.max_log_size_mb, 10);
}

#[test]
fn test_new_sets_default_retention_days() {
    let manager = manager("/mnt/hidden-volume/logs", "/mnt/hidden-volume");
    assert_eq!(manager.retention_days, 7);
}

#[test]
fn test_new_stores_log_path() {
    let log_path = "/mnt/hidden-volume/logs".to_string();
    let manager = LoggingManager::new(log_path.clone(), "/mnt/hidden-volume".to_string());
    assert_eq!(manager.log_path, log_path);
}

#[test]
fn test_new_stores_hidden_volume_path() {
    let hidden = "/mnt/hidden-volume".to_string();
    let manager = LoggingManager::new("/mnt/hidden-volume/logs".to_string(), hidden.clone());
    assert_eq!(manager.hidden_volume_path, hidden);
}

#[test]
fn test_new_is_cloneable() {
    let manager = manager("/mnt/hidden-volume/logs", "/mnt/hidden-volume");
    let cloned = manager.clone();
    assert_eq!(cloned.log_path, manager.log_path);
    assert_eq!(cloned.hidden_volume_path, manager.hidden_volume_path);
}

#[test]
fn test_new_is_debuggable() {
    let manager = manager("/mnt/hidden-volume/logs", "/mnt/hidden-volume");
    let debug_str = format!("{:?}", manager);
    assert!(debug_str.contains("LoggingManager"));
}

// ------------------------------------------------------------------------
// Hidden volume path validation
// ------------------------------------------------------------------------

#[test]
fn test_validate_log_path_valid() {
    let manager = manager("/mnt/hidden-volume/logs", "/mnt/hidden-volume");
    assert!(manager.validate_log_path(&MockFilesystem::new()).is_ok());
}

#[test]
fn test_validate_log_path_nested_valid() {
    let manager = manager("/mnt/hidden-volume/.nails/logs", "/mnt/hidden-volume");
    assert!(manager.validate_log_path(&MockFilesystem::new()).is_ok());
}

#[test]
fn test_validate_log_path_outside_hidden_volume() {
    let manager = manager("/var/log", "/mnt/hidden-volume");
    let err = manager.validate_log_path(&MockFilesystem::new()).unwrap_err();
    match &err {
        NailsError::InvalidState(msg) => {
            assert!(msg.contains("Log path must be on hidden volume"));
            assert!(msg.contains("/var/log"));
        }
        _ => panic!("Expected InvalidState error, got: {:?}", err),
    }
}

#[test]
fn test_validate_log_path_traversal_attack() {
    let manager = manager("/mnt/hidden-volume/../var/log", "/mnt/hidden-volume");
    let err = manager.validate_log_path(&MockFilesystem::new()).unwrap_err();
    match &err {
        NailsError::InvalidState(msg) => {
            assert!(msg.contains("Log path must be on hidden volume"));
        }
        _ => panic!("Expected InvalidState error, got: {:?}", err),
    }
}

#[test]
fn test_validate_log_path_similar_prefix() {
    let manager = manager("/mnt/hidden-volume-fake/logs", "/mnt/hidden-volume");
    let err = manager.validate_log_path(&MockFilesystem::new()).unwrap_err();
    match &err {
        NailsError::InvalidState(msg) => {
            assert!(msg.contains("Log path must be on hidden volume"));
        }
        _ => panic!("Expected InvalidState error, got: {:?}", err),
    }
}

#[test]
fn test_validate_log_path_exact_match() {
    let manager = manager("/mnt/hidden-volume", "/mnt/hidden-volume");
    assert!(manager.validate_log_path(&MockFilesystem::new()).is_ok());
}

#[test]
fn test_validate_log_path_double_traversal() {
    let manager = manager("/mnt/hidden-volume/../../etc", "/mnt/hidden-volume");
    assert!(manager.validate_log_path(&MockFilesystem::new()).is_err());
}

#[test]
fn test_validate_log_path_empty_path() {
    let manager = manager("", "/mnt/hidden-volume");
    assert!(manager.validate_log_path(&MockFilesystem::new()).is_err());
}

#[test]
fn validate_log_path_error_text_is_exact() {
    let manager = manager("/var/log", "/mnt/hidden-volume");
    let err = manager.validate_log_path(&MockFilesystem::new()).unwrap_err();
    assert_eq!(
        err.message(),
        "Invalid state: Log path must be on hidden volume: /var/log"
    );
}

#[test]
fn validate_log_path_accepts_traversal_that_stays_inside() {
    let manager = manager("/mnt/hidden-volume/a/../logs", "/mnt/hidden-volume/.");
    assert!(manager.validate_log_path(&MockFilesystem::new()).is_ok());
}

// ------------------------------------------------------------------------
// init()
// ------------------------------------------------------------------------

#[test]
fn test_init_fails_when_hidden_volume_not_mounted() {
    let manager = manager("/mnt/hidden-volume/logs", "/mnt/hidden-volume");
    let mut fs = MockFilesystem::new();

    let err = manager.init(&mut fs).unwrap_err();
    match &err {
        NailsError::InvalidState(msg) => {
            assert!(
                msg.contains("Hidden volume not mounted"),
                "Unexpected message: {}",
                msg
            );
        }
        _ => panic!("Expected InvalidState error, got: {:?}", err),
    }
}

#[test]
fn test_init_fails_when_path_outside_hidden_volume() {
    let manager = manager("/var/log", "/mnt/hidden-volume");
    let mut fs = MockFilesystem::new();
    fs.mock_set_path_exists("/mnt/hidden-volume", true);

    let err = manager.init(&mut fs).unwrap_err();
    match &err {
        NailsError::InvalidState(msg) => {
            assert!(msg.contains("Log path must be on hidden volume"));
        }
        _ => panic!("Expected InvalidState error, got: {:?}", err),
    }
}

#[test]
fn test_init_creates_log_directory_when_missing() {
    let manager = manager("/mnt/hidden-volume/logs", "/mnt/hidden-volume");
    let mut fs = MockFilesystem::new();
    fs.mock_set_path_exists("/mnt/hidden-volume", true);
    fs.mock_set_path_exists("/mnt/hidden-volume/logs", false);
    fs.mock_set_writable("/mnt/hidden-volume", true);

    let result = manager.init(&mut fs);
    assert!(result.is_ok());
    assert!(fs.path_exists("/mnt/hidden-volume/logs").unwrap());
    assert!(fs.is_directory("/mnt/hidden-volume/logs").unwrap());
}

#[test]
fn test_init_succeeds_when_log_directory_exists() {
    let manager = manager("/mnt/hidden-volume/logs", "/mnt/hidden-volume");
    let mut fs = MockFilesystem::new();
    fs.mock_set_path_exists("/mnt/hidden-volume", true);
    fs.mock_set_path_exists("/mnt/hidden-volume/logs", true);

    let result = manager.init(&mut fs);
    assert!(result.is_ok());
}

#[test]
fn test_init_returns_correct_log_file_path() {
    let manager = manager("/mnt/hidden-volume/logs", "/mnt/hidden-volume");
    let mut fs = MockFilesystem::new();
    fs.mock_set_path_exists("/mnt/hidden-volume", true);
    fs.mock_set_path_exists("/mnt/hidden-volume/logs", true);

    let config = manager.init(&mut fs).unwrap();
    assert_eq!(config.log_file_path, "/mnt/hidden-volume/logs/nails.log");
}

#[test]
fn test_init_with_traversal_path_fails() {
    let manager = manager("/mnt/hidden-volume/../var/log", "/mnt/hidden-volume");
    let mut fs = MockFilesystem::new();
    fs.mock_set_path_exists("/mnt/hidden-volume", true);

    let err = manager.init(&mut fs).unwrap_err();
    match &err {
        NailsError::InvalidState(msg) => {
            assert!(msg.contains("Log path must be on hidden volume"));
        }
        _ => panic!("Expected InvalidState error, got: {:?}", err),
    }
}

#[test]
fn test_init_fails_when_log_path_is_symlink() {
    let manager = manager("/var/log", "/mnt/hidden-volume");
    let mut fs = MockFilesystem::new();
    fs.mock_set_path_exists("/mnt/hidden-volume", true);
    fs.mock_set_path_exists("/var/log", true);
    fs.mock_set_is_symlink("/var/log", true);

    let err = manager.init(&mut fs).unwrap_err();
    match &err {
        NailsError::InvalidState(msg) => {
            assert!(
                msg.contains("Hidden volume not mounted")
                    || msg.contains("Log path must be on hidden volume"),
                "Expected error about hidden volume or log path, got: {}",
                msg
            );
        }
        _ => panic!("Expected InvalidState error, got: {:?}", err),
    }
}

#[test]
fn test_init_succeeds_when_path_is_not_symlink() {
    let manager = manager("/mnt/hidden-volume/logs", "/mnt/hidden-volume");
    let mut fs = MockFilesystem::new();
    fs.mock_set_path_exists("/mnt/hidden-volume", true);
    fs.mock_set_path_exists("/mnt/hidden-volume/logs", true);
    fs.mock_set_is_symlink("/mnt/hidden-volume/logs", false);

    let result = manager.init(&mut fs);
    assert!(result.is_ok());
}

#[test]
fn init_refuses_symlinked_log_directory_inside_volume() {
    let manager = manager("/mnt/hidden-volume/logs", "/mnt/hidden-volume");
    let mut fs = MockFilesystem::new();
    fs.mock_set_path_exists("/mnt/hidden-volume", true);
    fs.mock_set_path_exists("/mnt/hidden-volume/logs", true);
    fs.mock_set_is_symlink("/mnt/hidden-volume/logs", true);

    let err = manager.init(&mut fs).unwrap_err();
    assert_eq!(err.message(), "Invalid state: Log path must not be a symlink");
}

#[test]
fn log_directory_action_decides_each_case() {
    assert_eq!(log_directory_action(false, false).unwrap(), LogDirectoryAction::Create);
    assert_eq!(log_directory_action(false, true).unwrap(), LogDirectoryAction::Create);
    assert_eq!(log_directory_action(true, false).unwrap(), LogDirectoryAction::UseExisting);
    match log_directory_action(true, true) {
        Err(NailsError::InvalidState(msg)) => assert_eq!(msg, "Log path must not be a symlink"),
        other => panic!("Expected InvalidState, got {:?}", other),
    }
}

// ------------------------------------------------------------------------
// LoggingConfig
// ------------------------------------------------------------------------

#[test]
fn test_logging_config_is_cloneable() {
    let config = LoggingConfig {
        log_file_path: "/mnt/hidden-volume/logs/nails.log".to_string(),
    };
    let cloned = config.clone();
    assert_eq!(cloned.log_file_path, config.log_file_path);
}

#[test]
fn test_logging_config_is_debuggable() {
    let config = LoggingConfig {
        log_file_path: "/mnt/hidden-volume/logs/nails.log".to_string(),
    };
    let debug_str = format!("{:?}", config);
    assert!(debug_str.contains("LoggingConfig"));
    assert!(debug_str.contains("nails.log"));
}

// ------------------------------------------------------------------------
// clean_path
// ------------------------------------------------------------------------

#[test]
fn test_clean_path_no_traversal() {
    assert_eq!(clean_path("/mnt/hidden-volume/logs"), "/mnt/hidden-volume/logs");
}

#[test]
fn test_clean_path_with_single_traversal() {
    assert_eq!(clean_path("/mnt/hidden-volume/../var/log"), "/mnt/var/log");
}

#[test]
fn test_clean_path_with_double_traversal() {
    assert_eq!(clean_path("/mnt/hidden-volume/../../etc"), "/etc");
}

#[test]
fn test_clean_path_root() {
    assert_eq!(clean_path("/"), "/");
}

#[test]
fn test_clean_path_with_dot() {
    assert_eq!(clean_path("/mnt/./hidden-volume/logs"), "/mnt/hidden-volume/logs");
}

#[test]
fn test_clean_path_trailing_slash() {
    assert_eq!(clean_path("/mnt/hidden-volume/"), "/mnt/hidden-volume");
}

#[test]
fn clean_path_edge_cases() {
    assert_eq!(clean_path(""), "");
    assert_eq!(clean_path("/../../x"), "/x");
    assert_eq!(clean_path("a/b/../c"), "a/c");
    assert_eq!(clean_path("../a"), "a");
    assert_eq!(clean_path("./a//b/"), "a/b");
}

#[test]
fn clean_path_is_idempotent_on_examples() {
    for p in ["/mnt/a/../b/./c", "x/../../y", "/", "", "a//b/.."] {
        let once = clean_path(p);
        assert_eq!(clean_path(&once), once);
        assert!(!once.split('/').any(|part| part == ".." || part == "."));
    }
}

// ------------------------------------------------------------------------
// rotate_logs
// ------------------------------------------------------------------------

#[test]
fn test_rotate_logs_no_op_when_under_size_limit() {
    let manager = manager("/mnt/hidden/logs", "/mnt/hidden");
    let mut fs = MockFilesystem::new();

    fs.mock_set_path_exists("/mnt/hidden/logs/nails.log", true);
    fs.mock_set_file_size("/mnt/hidden/logs/nails.log", 5_000_000);

    let result = manager.rotate_logs(&mut fs);
    assert!(result.is_ok(), "Rotation should succeed (no-op)");

    assert!(fs.path_exists("/mnt/hidden/logs/nails.log").unwrap());
}

#[test]
fn test_rotate_logs_rotates_when_exceeds_size_limit() {
    let manager = manager("/mnt/hidden/logs", "/mnt/hidden");
    let mut fs = MockFilesystem::new();

    fs.mock_set_path_exists("/mnt/hidden/logs/nails.log", true);
    fs.mock_set_file_size("/mnt/hidden/logs/nails.log", 11_000_000);
    fs.mock_set_file_content("/mnt/hidden/logs/nails.log", "log data");

    fs.mock_set_path_exists("/mnt/hidden/logs", true);
    fs.mock_set_path_type("/mnt/hidden/logs", "directory");
    fs.mock_set_directory_contents(
        "/mnt/hidden/logs",
        vec!["/mnt/hidden/logs/nails.log".to_string()],
    );

    let result = manager.rotate_logs(&mut fs);
    assert!(result.is_ok(), "Rotation should succeed");

    assert!(fs.path_exists("/mnt/hidden/logs/nails.log.1").unwrap());
    assert!(fs.path_exists("/mnt/hidden/logs/nails.log").unwrap());

    let content = fs.read_file_content("/mnt/hidden/logs/nails.log").unwrap();
    assert_eq!(content, "");
}

#[test]
fn test_rotate_logs_shifts_existing_numbered_logs() {
    let manager = manager("/mnt/hidden/logs", "/mnt/hidden");
    let mut fs = MockFilesystem::new();

    fs.mock_set_path_exists("/mnt/hidden/logs/nails.log", true);
    fs.mock_set_file_size("/mnt/hidden/logs/nails.log", 11_000_000);
    fs.mock_set_file_content("/mnt/hidden/logs/nails.log", "current");

    fs.mock_set_path_exists("/mnt/hidden/logs/nails.log.1", true);
    fs.mock_set_file_content("/mnt/hidden/logs/nails.log.1", "old1");

    fs.mock_set_path_exists("/mnt/hidden/logs/nails.log.2", true);
    fs.mock_set_file_content("/mnt/hidden/logs/nails.log.2", "old2");

    fs.mock_set_path_exists("/mnt/hidden/logs", true);
    fs.mock_set_path_type("/mnt/hidden/logs", "directory");
    fs.mock_set_directory_contents(
        "/mnt/hidden/logs",
        vec![
            "/mnt/hidden/logs/nails.log".to_string(),
            "/mnt/hidden/logs/nails.log.1".to_string(),
            "/mnt/hidden/logs/nails.log.2".to_string(),
        ],
    );

    let result = manager.rotate_logs(&mut fs);
    assert!(result.is_ok());

    assert_eq!(
        fs.read_file_content("/mnt/hidden/logs/nails.log.1").unwrap(),
        "current"
    );
    assert_eq!(
        fs.read_file_content("/mnt/hidden/logs/nails.log.2").unwrap(),
        "old1"
    );
    assert_eq!(
        fs.read_file_content("/mnt/hidden/logs/nails.log.3").unwrap(),
        "old2"
    );
    assert_eq!(fs.read_file_content("/mnt/hidden/logs/nails.log").unwrap(), "");
}

#[test]
fn test_rotate_logs_handles_nonexistent_log_file() {
    let manager = manager("/mnt/hidden/logs", "/mnt/hidden");
    let mut fs = MockFilesystem::new();

    fs.mock_set_path_exists("/mnt/hidden/logs/nails.log", false);

    let result = manager.rotate_logs(&mut fs);
    assert!(result.is_err());
}

#[test]
fn test_rotate_logs_handles_permission_denied_on_rename() {
    let manager = manager("/mnt/hidden/logs", "/mnt/hidden");
    let mut fs = MockFilesystem::new();

    fs.mock_set_path_exists("/mnt/hidden/logs/nails.log", true);
    fs.mock_set_file_size("/mnt/hidden/logs/nails.log", 11_000_000);

    fs.mock_set_rename_should_fail("/mnt/hidden/logs/nails.log", true);

    fs.mock_set_path_exists("/mnt/hidden/logs", true);
    fs.mock_set_path_type("/mnt/hidden/logs", "directory");
    fs.mock_set_directory_contents(
        "/mnt/hidden/logs",
        vec!["/mnt/hidden/logs/nails.log".to_string()],
    );

    let result = manager.rotate_logs(&mut fs);
    assert!(result.is_err());
    assert!(is_permission_denied(&result.unwrap_err()));
}

#[test]
fn rotate_logs_restores_log_when_new_file_cannot_be_written() {
    let manager = manager("/mnt/hidden/logs", "/mnt/hidden");
    let mut fs = MockFilesystem::new();
    fs.mock_set_path_exists("/mnt/hidden/logs/nails.log", true);
    fs.mock_set_file_size("/mnt/hidden/logs/nails.log", 11_000_000);
    fs.mock_set_file_content("/mnt/hidden/logs/nails.log", "current");
    fs.mock_set_write_should_fail("/mnt/hidden/logs/nails.log", true);

    let result = manager.rotate_logs(&mut fs);
    assert!(result.is_err());
    assert_eq!(fs.read_file_content("/mnt/hidden/logs/nails.log").unwrap(), "current");
    assert!(!fs.path_exists("/mnt/hidden/logs/nails.log.1").unwrap());
}

#[test]
fn failed_rotation_does_not_apply_retention() {
    let manager = manager("/mnt/hidden/logs", "/mnt/hidden");
    let mut fs = MockFilesystem::new();
    fs.mock_set_path_exists("/mnt/hidden/logs", true);
    fs.mock_set_path_type("/mnt/hidden/logs", "directory");
    fs.mock_set_path_exists("/mnt/hidden/logs/nails.log", true);
    fs.mock_set_file_size("/mnt/hidden/logs/nails.log", 11_000_000);
    fs.mock_set_file_content("/mnt/hidden/logs/nails.log", "current");
    fs.mock_set_write_should_fail("/mnt/hidden/logs/nails.log", true);
    let old = "/mnt/hidden/logs/nails.log.9";
    fs.mock_set_path_exists(old, true);
    fs.mock_set_modified_time(old, 0);
    fs.mock_set_directory_contents(
        "/mnt/hidden/logs",
        vec!["/mnt/hidden/logs/nails.log".to_string(), old.to_string()],
    );

    assert!(manager.rotate_logs(&mut fs).is_err());
    assert!(fs.path_exists(old).unwrap());
    assert_eq!(fs.read_file_content("/mnt/hidden/logs/nails.log").unwrap(), "current");
}

// ------------------------------------------------------------------------
// enforce_retention
// ------------------------------------------------------------------------

#[test]
fn test_enforce_retention_deletes_old_numbered_logs() {
    let manager = manager("/mnt/hidden/logs", "/mnt/hidden");
    let mut fs = MockFilesystem::new();

    fs.mock_set_path_exists("/mnt/hidden/logs", true);
    fs.mock_set_path_type("/mnt/hidden/logs", "directory");

    let now = chrono::Utc::now();

    let mut dir_contents = vec![];
    for i in 1..=10 {
        let path = format!("/mnt/hidden/logs/nails.log.{}", i);
        fs.mock_set_path_exists(&path, true);
        dir_contents.push(path.clone());

        if i >= 8 {
            let old_time = now - chrono::Duration::days(i as i64);
            fs.mock_set_modified_time(&path, old_time.timestamp_millis());
        }
    }
    fs.mock_set_directory_contents("/mnt/hidden/logs", dir_contents);

    let result = manager.enforce_retention(&mut fs);
    assert!(result.is_ok());

    for i in 1..=7 {
        assert!(fs
            .path_exists(&format!("/mnt/hidden/logs/nails.log.{}", i))
            .unwrap());
    }

    for i in 8..=10 {
        assert!(!fs
            .path_exists(&format!("/mnt/hidden/logs/nails.log.{}", i))
            .unwrap());
    }
}

#[test]
fn test_enforce_retention_handles_no_old_logs() {
    let manager = manager("/mnt/hidden/logs", "/mnt/hidden");
    let mut fs = MockFilesystem::new();

    fs.mock_set_path_exists("/mnt/hidden/logs", true);
    fs.mock_set_path_type("/mnt/hidden/logs", "directory");

    let mut dir_contents = vec![];
    for i in 1..=5 {
        let path = format!("/mnt/hidden/logs/nails.log.{}", i);
        fs.mock_set_path_exists(&path, true);
        dir_contents.push(path);
    }
    fs.mock_set_directory_contents("/mnt/hidden/logs", dir_contents);

    let result = manager.enforce_retention(&mut fs);
    assert!(result.is_ok());

    for i in 1..=5 {
        assert!(fs
            .path_exists(&format!("/mnt/hidden/logs/nails.log.{}", i))
            .unwrap());
    }
}

#[test]
fn enforce_retention_leaves_other_files_alone() {
    let manager = manager("/mnt/hidden/logs", "/mnt/hidden");
    let mut fs = MockFilesystem::new();
    let old = (chrono::Utc::now() - chrono::Duration::days(30)).timestamp_millis();
    for p in ["/mnt/hidden/logs/nails.log", "/mnt/hidden/logs/other.log.1"] {
        fs.mock_set_path_exists(p, true);
        fs.mock_set_modified_time(p, old);
    }
    fs.mock_set_directory_contents(
        "/mnt/hidden/logs",
        vec![
            "/mnt/hidden/logs/nails.log".to_string(),
            "/mnt/hidden/logs/other.log.1".to_string(),
        ],
    );
    assert!(manager.enforce_retention(&mut fs).is_ok());
    assert!(fs.path_exists("/mnt/hidden/logs/nails.log").unwrap());
    assert!(fs.path_exists("/mnt/hidden/logs/other.log.1").unwrap());
}

#[test]
fn enforce_retention_fails_without_directory_listing() {
    let manager = manager("/mnt/hidden/logs", "/mnt/hidden");
    let mut fs = MockFilesystem::new();
    assert!(manager.enforce_retention(&mut fs).is_err());
}

// ------------------------------------------------------------------------
// should_rotate
// ------------------------------------------------------------------------

#[test]
fn test_should_rotate_returns_true_when_exceeds_limit() {
    let manager = manager("/mnt/hidden/logs", "/mnt/hidden");
    let mut fs = MockFilesystem::new();

    fs.mock_set_path_exists("/mnt/hidden/logs/nails.log", true);
    fs.mock_set_file_size("/mnt/hidden/logs/nails.log", 11_000_000);

    let result = manager.should_rotate(&fs);
    assert!(result.is_ok());
    assert!(result.unwrap(), "Should rotate when file exceeds limit");
}

#[test]
fn test_should_rotate_returns_false_when_under_limit() {
    let manager = manager("/mnt/hidden/logs", "/mnt/hidden");
    let mut fs = MockFilesystem::new();

    fs.mock_set_path_exists("/mnt/hidden/logs/nails.log", true);
    fs.mock_set_file_size("/mnt/hidden/logs/nails.log", 5_000_000);

    let result = manager.should_rotate(&fs);
    assert!(result.is_ok());
    assert!(
        !result.unwrap(),
        "Should not rotate when file is under limit"
    );
}

#[test]
fn test_should_rotate_handles_exact_limit() {
    let manager = manager("/mnt/hidden/logs", "/mnt/hidden");
    let mut fs = MockFilesystem::new();

    fs.mock_set_path_exists("/mnt/hidden/logs/nails.log", true);
    fs.mock_set_file_size("/mnt/hidden/logs/nails.log", 10_485_760);

    let result = manager.should_rotate(&fs);
    assert!(result.is_ok());
    assert!(
        !result.unwrap(),
        "Should not rotate when file equals limit (uses > not >=)"
    );
}

#[test]
fn test_should_rotate_handles_missing_file() {
    let manager = manager("/mnt/hidden/logs", "/mnt/hidden");
    let mut fs = MockFilesystem::new();

    fs.mock_set_path_exists("/mnt/hidden/logs/nails.log", false);

    let result = manager.should_rotate(&fs);
    assert!(result.is_err(), "Should return error for missing file");
}

#[test]
fn test_rotation_uses_checked_mul_for_size_calculation() {
    let mut manager = manager("/mnt/hidden/logs", "/mnt/hidden");
    manager.max_log_size_mb = (u64::MAX / 1024 / 1024) + 1;

    let mut fs = MockFilesystem::new();

    fs.mock_set_path_exists("/mnt/hidden/logs/nails.log", true);
    fs.mock_set_file_size("/mnt/hidden/logs/nails.log", 1_000_000);

    let result = manager.should_rotate(&fs);
    assert!(result.is_ok());
    assert!(
        !result.unwrap(),
        "Overflow should result in no rotation (threshold = MAX)"
    );
}

// ------------------------------------------------------------------------
// Rotation and retention decisions
// ------------------------------------------------------------------------

#[test]
fn exceeds_size_limit_formula() {
    assert!(!exceeds_size_limit(10 * 1024 * 1024, 10));
    assert!(exceeds_size_limit(10 * 1024 * 1024 + 1, 10));
    assert!(!exceeds_size_limit(0, 0));
    assert!(exceeds_size_limit(1, 0));
    assert!(!exceeds_size_limit(u64::MAX, u64::MAX));
    assert!(!exceeds_size_limit(u64::MAX, 17_592_186_044_416));
    assert!(exceeds_size_limit(u64::MAX, 17_592_186_044_415));
}

#[test]
fn log_paths_are_joined_under_the_directory() {
    assert_eq!(log_file_path("/mnt/hidden/logs"), "/mnt/hidden/logs/nails.log");
    assert_eq!(log_file_path("/mnt/hidden/logs/"), "/mnt/hidden/logs/nails.log");
    assert_eq!(numbered_log_path("/mnt/hidden/logs", 12), "/mnt/hidden/logs/nails.log.12");
    assert_eq!(numbered_log_path("logs", 0), "logs/nails.log.0");
}

#[test]
fn rotation_plan_runs_from_highest_to_lowest() {
    let plan = rotation_plan("/l", 4);
    assert_eq!(
        plan,
        vec![
            ("/l/nails.log.3".to_string(), "/l/nails.log.4".to_string()),
            ("/l/nails.log.2".to_string(), "/l/nails.log.3".to_string()),
            ("/l/nails.log.1".to_string(), "/l/nails.log.2".to_string()),
        ]
    );
    assert!(rotation_plan("/l", 1).is_empty());
    assert!(rotation_plan("/l", 0).is_empty());
    for j in 0..plan.len() {
        for k in (j + 1)..plan.len() {
            assert_ne!(plan[j].1, plan[k].0);
        }
    }
}

#[test]
fn log_age_days_rounds_toward_zero() {
    let day = 86_400_000i64;
    assert_eq!(log_age_days(8 * day, 0), 8);
    assert_eq!(log_age_days(8 * day - 1, 0), 7);
    assert_eq!(log_age_days(0, 8 * day - 1), -7);
    assert_eq!(log_age_days(0, 0), 0);
    assert_eq!(log_age_days(i64::MAX, i64::MIN), 213_503_982_334);
}

#[test]
fn retention_expires_after_the_period() {
    let day = 86_400_000i64;
    assert!(!log_retention_expired(7 * day, 0, 7));
    assert!(!log_retention_expired(8 * day - 1, 0, 7));
    assert!(log_retention_expired(8 * day, 0, 7));
    assert!(!log_retention_expired(0, 10 * day, 7));
}

#[test]
fn rotated_log_names_are_recognised() {
    assert!(is_rotated_log_name("/mnt/hidden/logs/nails.log.1"));
    assert!(is_rotated_log_name("nails.log.x"));
    assert!(!is_rotated_log_name("/mnt/hidden/logs/nails.log"));
    assert!(!is_rotated_log_name("/mnt/hidden/logs/other.log.1"));
    assert!(!is_rotated_log_name("/"));
    assert!(!is_rotated_log_name(""));
}

#[test]
fn permission_denied_is_detected_only_for_io_errors() {
    let denied = NailsError::IoError(IoError::new(IoErrorKind::PermissionDenied, "x".to_string()));
    let missing = NailsError::IoError(IoError::new(IoErrorKind::NotFound, "x".to_string()));
    assert!(is_permission_denied(&denied));
    assert!(!is_permission_denied(&missing));
    assert!(!is_permission_denied(&NailsError::PermissionDenied("x".to_string())));
}

#[test]
fn rotate_logs_keeps_the_log_when_it_cannot_be_moved() {
    let manager = manager("/mnt/hidden/logs", "/mnt/hidden");
    let mut fs = MockFilesystem::new();
    fs.mock_set_path_exists("/mnt/hidden/logs/nails.log", true);
    fs.mock_set_file_size("/mnt/hidden/logs/nails.log", 11_000_000);
    fs.mock_set_file_content("/mnt/hidden/logs/nails.log", "current");
    fs.mock_set_rename_should_fail("/mnt/hidden/logs/nails.log", true);
    assert!(manager.rotate_logs(&mut fs).is_err());
    assert!(fs.path_exists("/mnt/hidden/logs/nails.log").unwrap());
    assert_eq!(fs.read_file_content("/mnt/hidden/logs/nails.log").unwrap(), "current");
    assert!(!fs.path_exists("/mnt/hidden/logs/nails.log.1").unwrap());
    assert!(fs.mock_ops().is_empty());
}

#[test]
fn validate_log_path_refuses_a_symbolic_link() {
    let manager = manager("/mnt/hidden-volume/logs", "/mnt/hidden-volume");
    let mut fs = MockFilesystem::new();
    fs.mock_set_path_exists("/mnt/hidden-volume/logs", true);
    fs.mock_set_is_symlink("/mnt/hidden-volume/logs", true);
    match manager.validate_log_path(&fs) {
        Err(NailsError::InvalidState(msg)) => assert_eq!(msg, "Log path must not be a symlink"),
        other => panic!("expected InvalidState, got {:?}", other),
    }
}

#[test]
fn init_refuses_a_log_directory_that_cannot_be_created() {
    let manager = manager("/mnt/hidden-volume/logs", "/mnt/hidden-volume");
    let mut fs = MockFilesystem::new();
    fs.mock_set_path_exists("/mnt/hidden-volume", true);
    fs.mock_set_writable("/mnt/hidden-volume", false);
    match manager.init(&mut fs) {
        Err(NailsError::InvalidState(msg)) => {
            assert!(msg.starts_with("Log directory cannot be created: /mnt/hidden-volume/logs: "))
        }
        other => panic!("expected InvalidState, got {:?}", other.map(|c| c.log_file_path)),
    }
}

#[test]
fn enforce_retention_reports_a_failed_deletion_after_trying_all() {
    let manager = manager("/mnt/hidden/logs", "/mnt/hidden");
    let mut fs = MockFilesystem::new();
    let old = 0i64;
    for i in 1..=3 {
        let path = format!("/mnt/hidden/logs/nails.log.{}", i);
        fs.mock_set_path_exists(&path, true);
        fs.mock_set_modified_time(&path, old);
    }
    fs.mock_set_remove_should_fail("/mnt/hidden/logs/nails.log.1", true);
    fs.mock_set_directory_contents(
        "/mnt/hidden/logs",
        (1..=3).map(|i| format!("/mnt/hidden/logs/nails.log.{}", i)).collect(),
    );
    match manager.enforce_retention(&mut fs) {
        Err(NailsError::IoError(e)) => assert_eq!(e.kind(), IoErrorKind::PermissionDenied),
        other => panic!("expected IoError, got {:?}", other),
    }
    assert!(fs.path_exists("/mnt/hidden/logs/nails.log.1").unwrap());
    assert!(!fs.path_exists("/mnt/hidden/logs/nails.log.2").unwrap());
    assert!(!fs.path_exists("/mnt/hidden/logs/nails.log.3").unwrap());
}

#[test]
fn retention_at_a_given_time_deletes_exactly_the_expired_logs() {
    let manager = manager("/mnt/hidden/logs", "/mnt/hidden");
    let mut fs = MockFilesystem::new();
    let day: i64 = 86_400_000;
    let now: i64 = 100 * day;
    for i in 1..=3i64 {
        let path = format!("/mnt/hidden/logs/nails.log.{}", i);
        fs.mock_set_path_exists(&path, true);
        fs.mock_set_modified_time(&path, now - (i * 4) * day);
    }
    fs.mock_set_path_exists("/mnt/hidden/logs/nails.log", true);
    fs.mock_set_directory_contents(
        "/mnt/hidden/logs",
        vec![
            "/mnt/hidden/logs/nails.log".to_string(),
            "/mnt/hidden/logs/nails.log.1".to_string(),
            "/mnt/hidden/logs/nails.log.2".to_string(),
            "/mnt/hidden/logs/nails.log.3".to_string(),
        ],
    );
    assert!(manager.enforce_retention_at(&mut fs, now).is_ok());
    assert!(fs.path_exists("/mnt/hidden/logs/nails.log").unwrap());
    assert!(fs.path_exists("/mnt/hidden/logs/nails.log.1").unwrap());
    assert!(!fs.path_exists("/mnt/hidden/logs/nails.log.2").unwrap());
    assert!(!fs.path_exists("/mnt/hidden/logs/nails.log.3").unwrap());
}
