use nails_core::error::{IoErrorKind, NailsError};
use nails_core::filesystem::mock::is_valid_tmpfs_size;
use nails_core::filesystem::{Filesystem, MockFilesystem, MockOp};

fn overlay_ready(fs: &mut MockFilesystem) {
    fs.mock_set_path_exists("/", true);
    fs.mock_set_path_exists("/mnt/hidden/upper", true);
    fs.mock_set_path_exists("/mnt/hidden/work", true);
}

#[test]
fn mount_then_forced_unmount_leaves_nothing_mounted() {
    let mut fs = MockFilesystem::new();
    overlay_ready(&mut fs);
    fs.mount_overlay(&["/"], "/mnt/hidden/upper", "/mnt/hidden/work", "/home")
        .unwrap();
    fs.mock_set_busy("/home", true);
    assert!(matches!(
        fs.unmount("/home", false),
        Err(NailsError::MountBusy { .. })
    ));
    fs.unmount("/home", true).unwrap();
    assert!(!fs.is_mounted("/home").unwrap());
    assert!(fs.get_mount_info("/home").is_none());
    assert_eq!(
        fs.mock_ops(),
        vec![
            MockOp::MountOverlay { target: "/home".to_string() },
            MockOp::Unmount { target: "/home".to_string(), force: false },
            MockOp::Unmount { target: "/home".to_string(), force: true },
        ]
    );
}

#[test]
fn unmount_is_idempotent() {
    let mut fs = MockFilesystem::new();
    assert!(fs.unmount("/never/mounted", false).is_ok());
    fs.mock_set_mounted("/x", true);
    assert!(fs.unmount("/x", false).is_ok());
    assert!(fs.unmount("/x", false).is_ok());
    assert!(!fs.is_mounted("/x").unwrap());
}

#[test]
fn configured_unmount_failures_are_reported() {
    let mut fs = MockFilesystem::new();
    fs.mock_set_mounted("/x", true);
    fs.mock_set_unmount_graceful_fails("/x", true);
    assert!(matches!(
        fs.unmount("/x", false),
        Err(NailsError::UnmountError { .. })
    ));
    assert!(fs.unmount("/x", true).is_ok());
    fs.mock_set_mounted("/y", true);
    fs.mock_set_unmount_should_fail("/y", true);
    match fs.unmount("/y", true) {
        Err(NailsError::UnmountError { path, reason }) => {
            assert_eq!(path, "/y");
            assert_eq!(reason, "Mock unmount failure for testing");
        }
        other => panic!("unexpected {:?}", other),
    }
}

#[test]
fn mock_paths_are_matched_by_components() {
    let mut fs = MockFilesystem::new();
    fs.mock_set_path_exists("/a/b/", true);
    assert!(fs.path_exists("/a//b").unwrap());
    assert!(fs.path_exists("/a/./b").unwrap());
    assert!(!fs.path_exists("/a/b/c").unwrap());
}

#[test]
fn write_then_read_gives_the_content() {
    let mut fs = MockFilesystem::new();
    fs.write_file_content("/etc/motd", "hello").unwrap();
    assert!(fs.path_exists("/etc/motd").unwrap());
    assert_eq!(fs.read_file_content("/etc/motd").unwrap(), "hello");
    assert_eq!(fs.get_written_content("/etc/motd"), Some("hello".to_string()));
    assert_eq!(fs.file_size("/etc/motd").unwrap(), 5);
}

#[test]
fn configured_write_failure_is_permission_denied() {
    let mut fs = MockFilesystem::new();
    fs.mock_set_write_should_fail("/etc/motd", true);
    match fs.write_file_content("/etc/motd", "x") {
        Err(NailsError::IoError(e)) => {
            assert_eq!(e.kind(), IoErrorKind::PermissionDenied);
            assert_eq!(e.message, "Mock write failure for /etc/motd");
        }
        other => panic!("unexpected {:?}", other),
    }
    assert!(fs.read_file_content("/etc/motd").is_err());
}

#[test]
fn rename_moves_the_content() {
    let mut fs = MockFilesystem::new();
    fs.mock_set_path_exists("/a", true);
    fs.mock_set_file_content("/a", "data");
    fs.rename_file("/a", "/b").unwrap();
    assert!(!fs.path_exists("/a").unwrap());
    assert!(fs.path_exists("/b").unwrap());
    assert_eq!(fs.read_file_content("/b").unwrap(), "data");
    assert!(fs.read_file_content("/a").is_err());
    match fs.rename_file("/a", "/c") {
        Err(NailsError::IoError(e)) => assert_eq!(e.kind(), IoErrorKind::NotFound),
        other => panic!("unexpected {:?}", other),
    }
}

#[test]
fn removal_makes_the_file_absent() {
    let mut fs = MockFilesystem::new();
    fs.mock_set_path_exists("/f", true);
    fs.mock_set_file_content("/f", "x");
    fs.remove_file("/f").unwrap();
    assert!(!fs.path_exists("/f").unwrap());
    assert!(fs.read_file_content("/f").is_err());
    fs.mock_set_path_exists("/g", true);
    fs.mock_set_remove_should_fail("/g", true);
    match fs.secure_delete("/g") {
        Err(NailsError::IoError(e)) => {
            assert_eq!(e.message, "Mock: secure_delete configured to fail for /g")
        }
        other => panic!("unexpected {:?}", other),
    }
    assert!(fs.path_exists("/g").unwrap());
}

#[test]
fn created_directories_exist_with_their_parents() {
    let mut fs = MockFilesystem::new();
    fs.mock_set_path_exists("/srv", true);
    fs.mock_set_writable("/srv", true);
    fs.create_directory("/srv/a/b").unwrap();
    assert!(fs.is_directory("/srv/a").unwrap());
    assert!(fs.is_directory("/srv/a/b").unwrap());
}

#[test]
fn directory_under_read_only_parent_is_refused() {
    let mut fs = MockFilesystem::new();
    fs.mock_set_path_exists("/ro", true);
    fs.mock_set_writable("/ro", false);
    match fs.create_directory("/ro/x") {
        Err(NailsError::PermissionDenied(msg)) => {
            assert_eq!(msg, "Parent directory not writable: /ro")
        }
        other => panic!("unexpected {:?}", other),
    }
}

#[test]
fn permissions_set_are_read_back() {
    let mut fs = MockFilesystem::new();
    fs.mock_set_path_exists("/f", true);
    assert_eq!(fs.get_permissions("/f").unwrap(), 0o755);
    fs.set_permissions("/f", 0o600).unwrap();
    assert_eq!(fs.get_permissions("/f").unwrap(), 0o600);
    assert_eq!(fs.mock_get_permissions("/f"), Some(0o600));
    assert!(fs.set_permissions("/missing", 0o600).is_err());
}

#[test]
fn profiles_switch_only_when_built() {
    let mut fs = MockFilesystem::new();
    match fs.nixos_switch_profile("decoy") {
        Err(NailsError::NixOSProfileNotFound { profile }) => assert_eq!(profile, "decoy"),
        other => panic!("unexpected {:?}", other),
    }
    assert!(fs.nixos_get_current_profile().is_err());
    fs.nixos_build_profile("decoy").unwrap();
    fs.nixos_switch_profile("decoy").unwrap();
    assert_eq!(fs.nixos_get_current_profile().unwrap(), "decoy");
}

#[test]
fn bind_mount_then_unmount() {
    let mut fs = MockFilesystem::new();
    fs.mock_set_path_exists("/src", true);
    fs.bind_mount("/src", "/dst").unwrap();
    assert!(fs.is_mounted("/dst").unwrap());
    assert!(matches!(
        fs.bind_mount("/src", "/dst"),
        Err(NailsError::AlreadyMounted { .. })
    ));
    fs.unmount_bind("/dst").unwrap();
    assert!(!fs.is_mounted("/dst").unwrap());
    assert!(fs.unmount_bind("/dst").is_ok());
    match fs.bind_mount("/nope", "/dst") {
        Err(NailsError::OverlayError(msg)) => assert_eq!(msg, "Bind mount source not found: /nope"),
        other => panic!("unexpected {:?}", other),
    }
}

#[test]
fn symlinks_are_created_once() {
    let mut fs = MockFilesystem::new();
    fs.create_symlink("/target", "/link").unwrap();
    assert!(fs.is_symlink("/link").unwrap());
    assert_eq!(fs.mock_get_symlink_target("/link"), Some("/target".to_string()));
    assert!(fs.create_symlink("/target/", "/link").is_ok());
    match fs.create_symlink("/other", "/link") {
        Err(NailsError::IoError(e)) => assert_eq!(e.kind(), IoErrorKind::AlreadyExists),
        other => panic!("unexpected {:?}", other),
    }
}

#[test]
fn reset_clears_mounts_profiles_and_paths() {
    let mut fs = MockFilesystem::new();
    fs.mock_set_path_exists("/p", true);
    fs.mock_set_mounted("/m", true);
    fs.nixos_build_profile("p").unwrap();
    fs.mock_set_nails_process_running(true);
    fs.reset();
    assert!(!fs.path_exists("/p").unwrap());
    assert!(!fs.is_mounted("/m").unwrap());
    assert!(!fs.nixos_profile_exists("p").unwrap());
    assert!(!fs.nails_process_running().unwrap());
}

#[test]
fn default_mock_is_empty() {
    let fs = MockFilesystem::default();
    assert!(fs.get_mounted_paths().is_empty());
    assert!(!fs.swap_is_enabled().unwrap());
}

#[test]
fn clone_is_an_independent_copy() {
    let mut fs1 = MockFilesystem::new();
    fs1.mock_set_mounted("/home", true);
    let mut fs2 = fs1.clone();
    assert!(fs2.is_mounted("/home").unwrap());
    fs2.mock_set_mounted("/tmp", true);
    assert!(!fs1.is_mounted("/tmp").unwrap());
}

#[test]
fn swap_disable_turns_swap_off() {
    let mut fs = MockFilesystem::new();
    fs.mock_set_swap_enabled(true);
    fs.swap_disable().unwrap();
    assert!(!fs.swap_is_enabled().unwrap());
    fs.swap_disable().unwrap();
    assert!(!fs.swap_is_enabled().unwrap());
}

#[test]
fn tmpfs_size_must_be_digits_with_optional_unit() {
    assert!(is_valid_tmpfs_size("1G"));
    assert!(is_valid_tmpfs_size("512m"));
    assert!(is_valid_tmpfs_size("1024"));
    assert!(!is_valid_tmpfs_size(""));
    assert!(!is_valid_tmpfs_size("G"));
    assert!(!is_valid_tmpfs_size("1T"));
    assert!(!is_valid_tmpfs_size("1.5G"));
}

#[test]
fn pattern_search_skips_files_that_no_longer_exist() {
    let mut fs = MockFilesystem::new();
    fs.mock_set_files_with_pattern("/home", "history", &["/home/a/.bash_history", "/home/b/.zsh_history"]);
    fs.mock_set_path_exists("/home/b/.zsh_history", false);
    assert_eq!(
        fs.find_files_with_pattern("/home", "history").unwrap(),
        vec!["/home/a/.bash_history".to_string()]
    );
    assert!(fs.find_files_with_pattern("/home", "other").unwrap().is_empty());
}

#[test]
fn copy_tree_is_logged_and_can_fail() {
    let mut fs = MockFilesystem::new();
    fs.copy_tree("/a", "/b").unwrap();
    fs.mock_set_copy_tree_should_fail("/c");
    assert!(fs.copy_tree("/c", "/d").is_err());
    assert_eq!(
        fs.mock_ops(),
        vec![
            MockOp::CopyTree { src: "/a".to_string(), dst: "/b".to_string() },
            MockOp::CopyTree { src: "/c".to_string(), dst: "/d".to_string() },
        ]
    );
}

#[test]
fn modified_time_is_the_configured_one() {
    let mut fs = MockFilesystem::new();
    fs.mock_set_modified_time("/f", 1234);
    assert_eq!(fs.modified_time("/f").unwrap(), 1234);
    let now = chrono::Utc::now().timestamp_millis();
    assert!(fs.modified_time("/g").unwrap() >= now);
}

#[test]
fn configured_sizes_and_types_are_reported() {
    let mut fs = MockFilesystem::new();
    assert_eq!(fs.get_free_space("/").unwrap(), 1_099_511_627_776);
    fs.mock_set_free_space("/", 42);
    assert_eq!(fs.get_free_space("/").unwrap(), 42);
    fs.mock_set_filesystem_type("/home", "overlay");
    assert_eq!(fs.get_filesystem_type("/home").unwrap(), Some("overlay".to_string()));
    fs.mock_set_directory_size("/var", 77);
    assert_eq!(fs.get_directory_size("/var").unwrap(), 77);
    fs.mock_set_submount_sources("/home", vec![("/home/x".to_string(), "/srv/x".to_string())]);
    assert_eq!(
        fs.find_submount_sources("/home").unwrap(),
        vec![("/home/x".to_string(), "/srv/x".to_string())]
    );
}

#[test]
fn reset_empties_every_part_of_the_state() {
    let mut fs = MockFilesystem::new();
    fs.mock_set_mounted("/home", true);
    fs.mock_set_swap_enabled(true);
    fs.mock_set_file_content("/f", "x");
    fs.mock_set_nails_process_running(true);
    fs.reset();
    assert!(fs.get_mounted_paths().is_empty());
    assert!(!fs.swap_is_enabled().unwrap());
    assert!(fs.read_file_content("/f").is_err());
    assert!(!fs.nails_process_running().unwrap());
}
