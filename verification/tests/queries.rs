use mnt::{
    get_mount_from, get_mount_writable_from, get_submounts_from, MntOps, MountInfoEntry,
    MountInfoIter, MountInfoParam, VecMountEntry,
};

fn entry(id: i32, file: &str, ops: &str) -> MountInfoEntry {
    let line = format!("{} 1 0:1 / {} {} - tmpfs none rw", id, file, ops);
    MountInfoEntry::from_str(&line).unwrap()
}

fn iter_over(lines: &[&str]) -> MountInfoIter {
    MountInfoIter::new(lines.iter().map(|l| l.to_string()).collect())
}

#[test]
fn contains_matches_each_field() {
    let e = MountInfoEntry::from_str("20 66 0:20 /r /sys rw,nosuid shared:2 - sysfs sysfs rw,seclabel")
        .unwrap();
    assert!(e.contains(&MountInfoParam::MountId(20)));
    assert!(!e.contains(&MountInfoParam::MountId(21)));
    assert!(e.contains(&MountInfoParam::ParentId(66)));
    assert!(e.contains(&MountInfoParam::Major(0)));
    assert!(e.contains(&MountInfoParam::Minor(20)));
    assert!(e.contains(&MountInfoParam::Root("/r")));
    assert!(e.contains(&MountInfoParam::MountPoint("/sys")));
    assert!(!e.contains(&MountInfoParam::MountPoint("/sy")));
    assert!(e.contains(&MountInfoParam::MntOps(&MntOps::Write(true))));
    assert!(!e.contains(&MountInfoParam::MntOps(&MntOps::Write(false))));
    assert!(e.contains(&MountInfoParam::Optionals("shared")));
    assert!(!e.contains(&MountInfoParam::Optionals("master")));
    assert!(e.contains(&MountInfoParam::VfsType("sysfs")));
    assert!(e.contains(&MountInfoParam::Spec(Some("sysfs"))));
    assert!(!e.contains(&MountInfoParam::Spec(None)));
    assert!(e.contains(&MountInfoParam::SuperOptions("seclabel")));
    assert!(!e.contains(&MountInfoParam::SuperOptions("quota")));
}

#[test]
fn contains_spec_none_matches_absent_source() {
    let e = MountInfoEntry::from_str("1 1 0:1 / /a rw - tmpfs none rw").unwrap();
    assert!(e.contains(&MountInfoParam::Spec(None)));
    assert!(!e.contains(&MountInfoParam::Spec(Some("none"))));
}

#[test]
fn submounts_keep_subtree_in_order() {
    let it = iter_over(&[
        "1 0 0:1 / / rw - rootfs none rw",
        "2 1 0:2 / /var rw - tmpfs none rw",
        "3 1 0:3 / /var/tmp rw - tmpfs none rw",
        "4 1 0:4 / /home rw - tmpfs none rw",
    ]);
    let subs = get_submounts_from("/var", it).unwrap();
    let files: Vec<&str> = subs.iter().map(|m| m.file.as_str()).collect();
    assert_eq!(files, vec!["/var", "/var/tmp"]);
}

#[test]
fn submounts_compare_whole_components() {
    let it = iter_over(&[
        "1 0 0:1 / /var rw - tmpfs none rw",
        "2 0 0:2 / /variant rw - tmpfs none rw",
    ]);
    let subs = get_submounts_from("/var", it).unwrap();
    let files: Vec<&str> = subs.iter().map(|m| m.file.as_str()).collect();
    assert_eq!(files, vec!["/var"]);
}

#[test]
fn submounts_abort_on_first_bad_line() {
    let it = iter_over(&[
        "1 0 0:1 / /var rw - tmpfs none rw",
        "garbage",
        "2 0 0:2 / /var/tmp rw - tmpfs none rw",
    ]);
    let err = get_submounts_from("/var", it).unwrap_err();
    assert_eq!(
        err.description(),
        "Mount parsing: Failed at line 1: Line parsing: Bad 'id' field value: garbage"
    );
}

#[test]
fn point_lookup_prefers_most_recent_ancestor() {
    let lines = [
        "1 0 0:1 / / rw - rootfs none rw",
        "2 1 0:2 / /home rw - tmpfs none rw",
    ];
    let found = get_mount_from("/home/alice", iter_over(&lines)).unwrap().unwrap();
    assert_eq!(found.file, "/home");
    let found = get_mount_from("/etc", iter_over(&lines)).unwrap().unwrap();
    assert_eq!(found.file, "/");
}

#[test]
fn point_lookup_without_match_is_none() {
    let it = iter_over(&["2 1 0:2 / /home rw - tmpfs none rw"]);
    assert_eq!(get_mount_from("/etc", it).unwrap(), None);
}

#[test]
fn writable_lookup_checks_the_rw_flag() {
    let ro = ["1 0 0:1 / / ro - rootfs none ro"];
    let rw = ["1 0 0:1 / / rw - rootfs none rw"];
    assert!(get_mount_writable_from("/etc", iter_over(&ro), true).is_none());
    assert!(get_mount_writable_from("/etc", iter_over(&ro), false).is_some());
    assert!(get_mount_writable_from("/etc", iter_over(&rw), true).is_some());
    assert!(get_mount_writable_from("/nope", iter_over(&[]), false).is_none());
}

#[test]
fn writable_lookup_swallows_errors() {
    let bad = ["garbage"];
    assert!(get_mount_writable_from("/etc", iter_over(&bad), false).is_none());
}

#[test]
fn overlap_resolution_drops_shadowed_and_root_entries() {
    let mounts = vec![
        entry(1, "/", "rw"),
        entry(2, "/var", "rw"),
        entry(3, "/var/tmp", "rw"),
        entry(4, "/var", "rw"),
    ];
    let resolved = mounts.remove_overlaps(&Vec::new());
    let ids: Vec<i32> = resolved.iter().map(|m| m.id).collect();
    assert_eq!(ids, vec![4]);
}

#[test]
fn overlap_resolution_keeps_nested_mounts_without_overmount() {
    let mounts = vec![
        entry(1, "/", "rw"),
        entry(2, "/var", "rw"),
        entry(3, "/var/tmp", "rw"),
    ];
    let resolved = mounts.remove_overlaps(&Vec::new());
    let ids: Vec<i32> = resolved.iter().map(|m| m.id).collect();
    assert_eq!(ids, vec![2, 3]);
}

#[test]
fn exclusion_removes_an_obstruction_but_forces_nothing() {
    let mounts = vec![
        entry(1, "/", "rw"),
        entry(2, "/var", "rw"),
        entry(3, "/var/tmp", "rw"),
        entry(4, "/var", "rw"),
    ];
    // Excluding the shadowing mount point lets everything beneath survive.
    let resolved = mounts.clone().remove_overlaps(&vec!["/var".to_string()]);
    let ids: Vec<i32> = resolved.iter().map(|m| m.id).collect();
    assert_eq!(ids, vec![2, 3, 4]);
    // Excluding a mount that obstructs nothing changes nothing, and does
    // not force the excluded entry itself to stay.
    let resolved = mounts.remove_overlaps(&vec!["/var/tmp".to_string()]);
    let ids: Vec<i32> = resolved.iter().map(|m| m.id).collect();
    assert_eq!(ids, vec![4]);
}

#[test]
fn overlap_resolution_is_idempotent_on_its_output() {
    let mounts = vec![
        entry(1, "/", "rw"),
        entry(2, "/var", "rw"),
        entry(3, "/var/tmp", "rw"),
        entry(4, "/var", "rw"),
        entry(5, "/home", "rw"),
    ];
    let excl = vec!["/var".to_string()];
    let once = mounts.remove_overlaps(&excl);
    let twice = once.clone().remove_overlaps(&excl);
    assert_eq!(once, twice);
}
