use nails_core::filesystem::submount::{parse_mount_records, parse_submount_sources, split_words};

fn pair(a: &str, b: &str) -> (String, String) {
    (a.to_string(), b.to_string())
}

const TABLE: &str = "\
100 1 8:1 / /home rw - ext4 /dev/sda1 rw
101 100 8:2 / /data rw - ext4 /dev/sdb1 rw
102 100 8:2 /projects /home/user/projects rw - ext4 /dev/sdb1 rw
103 100 0:5 / /home/tmpfs rw - tmpfs tmpfs rw
104 100 8:3 / /home/disk rw - ext4 /dev/sdc1 rw
105 100 0:40 / /home/nfs rw - nfs4 /srv/export rw
";

#[test]
fn submounts_under_target_are_resolved_and_sorted() {
    let found = parse_submount_sources(TABLE, "/home");
    assert_eq!(
        found,
        vec![
            pair("/home/nfs", "/srv/export"),
            pair("/home/user/projects", "/data/projects"),
        ]
    );
}

#[test]
fn target_itself_and_outside_mounts_are_left_out() {
    assert!(parse_submount_sources(TABLE, "/data").is_empty());
    assert!(parse_submount_sources(TABLE, "/nowhere").is_empty());
    assert!(parse_submount_sources("", "/home").is_empty());
}

#[test]
fn same_device_submounts_are_kept_unless_self_backed() {
    let table = "\
1 0 8:1 / / rw - ext4 /dev/sda1 rw
2 1 8:1 /home /home rw - ext4 /dev/sda1 rw
3 2 8:1 /home/alice /home/alice rw - ext4 /dev/sda1 rw
4 2 8:1 /srv/bob /home/bob rw - ext4 /dev/sda1 rw
5 2 8:1 /other/carol /home/carol rw - ext4 /dev/sda1 rw
";
    let found = parse_submount_sources(table, "/home");
    assert_eq!(
        found,
        vec![pair("/home/bob", "/srv/bob"), pair("/home/carol", "/other/carol")]
    );
}

#[test]
fn target_equivalent_submount_is_left_out() {
    let table = "\
1 0 8:1 / / rw - ext4 /dev/sda1 rw
2 1 8:1 /data /mnt/view rw - ext4 /dev/sda1 rw
3 2 8:1 /data/a /mnt/view/a rw - ext4 /dev/sda1 rw
4 2 8:1 /elsewhere/b /mnt/view/b rw - ext4 /dev/sda1 rw
";
    let found = parse_submount_sources(table, "/mnt/view");
    assert_eq!(found, vec![pair("/mnt/view/b", "/elsewhere/b")]);
}

#[test]
fn device_without_root_mount_is_left_out() {
    let table = "7 1 9:9 /x /home/x rw - ext4 /dev/sdz rw\n";
    assert!(parse_submount_sources(table, "/home").is_empty());
}

#[test]
fn short_or_malformed_records_are_skipped() {
    let table = "1 2 3 4\n5 6 7:7 / /home/a rw ext4 /dev/x\n8 9 7:7 / /home/b rw - ext4\n";
    assert!(parse_submount_sources(table, "/home").is_empty());
}

#[test]
fn fields_split_on_any_white_space() {
    assert_eq!(
        split_words("  a\tb \u{a0}c\r\n"),
        vec!["a".to_string(), "b".to_string(), "c".to_string()]
    );
    let recs = parse_mount_records("a b\n\nc");
    assert_eq!(recs.len(), 3);
    assert_eq!(recs[0], vec!["a".to_string(), "b".to_string()]);
    assert!(recs[1].is_empty());
}

#[test]
fn shortest_root_mount_of_a_device_is_used() {
    let table = "\
1 0 8:2 / /mnt/deep/data rw - ext4 /dev/sdb1 rw
2 0 8:2 / /data rw - ext4 /dev/sdb1 rw
3 0 8:2 /p /home/p rw - ext4 /dev/sdb1 rw
";
    assert_eq!(parse_submount_sources(table, "/home"), vec![pair("/home/p", "/data/p")]);
}
