use mnt::{LineError, MntOps, MountInfoEntry, MountInfoIter, MountInfoParam};

const TEST_MOUNTINFO: &str = "\
            20 66 0:20 / /sys rw,nosuid,nodev,noexec,relatime shared:2 - sysfs sysfs rw,seclabel
21 66 0:4 / /proc rw,nosuid,nodev,noexec,relatime shared:24 - proc proc rw
22 66 0:6 / /dev rw,nosuid shared:20 - devtmpfs devtmpfs rw,seclabel,size=7898068k,nr_inodes=1974517,mode=755
23 20 0:7 / /sys/kernel/security rw,nosuid,nodev,noexec,relatime shared:3 - securityfs securityfs rw
24 22 0:21 / /dev/shm rw,nosuid,nodev shared:21 - tmpfs tmpfs rw,seclabel
25 22 0:22 / /dev/pts rw,nosuid,noexec,relatime shared:22 - devpts devpts rw,seclabel,gid=5,mode=620,ptmxmode=000
26 66 0:23 / /run rw,nosuid,nodev shared:23 - tmpfs tmpfs rw,seclabel,mode=755
27 20 0:24 / /sys/fs/cgroup ro,nosuid,nodev,noexec shared:4 - tmpfs tmpfs ro,seclabel,mode=755
cgroup rw,seclabel,devices
39 27 0:36 / /sys/fs/cgroup/blkio rw,nosuid,nodev,noexec,relatime shared:15 - cgroup cgroup rw,seclabel,blkio
40 27 0:37 / /sys/fs/cgroup/cpu,cpuacct rw,nosuid,nodev,noexec,relatime shared:16 - cgroup cgroup rw,seclabel,cpu,cpuacct
63 20 0:38 / /sys/kernel/config rw,relatime shared:18 - configfs configfs rw
66 0 253:0 / / rw,relatime shared:1 - xfs /dev/mapper/luks-3334ad94-8d7e-4134-8ba3-a7677b2651ef rw,seclabel,attr2,inode64,noquota
41 20 0:19 / /sys/fs/selinux rw,relatime shared:19 - selinuxfs selinuxfs rw
42 21 0:40 / /proc/sys/fs/binfmt_misc rw,relatime shared:25 - autofs systemd-1 rw,fd=24,pgrp=1,timeout=0,minproto=5,maxproto=5,direct,pipe_ino=16858
43 20 0:8 / /sys/kernel/debug rw,relatime shared:26 - debugfs debugfs rw,seclabel
44 22 0:41 / /dev/hugepages rw,relatime shared:27 - hugetlbfs hugetlbfs rw,seclabel,pagesize=2M
45 22 0:18 / /dev/mqueue rw,relatime shared:28 - mqueue mqueue rw,seclabel
78 21 0:42 / /proc/fs/nfsd rw,relatime shared:29 - nfsd nfsd rw
80 66 0:43 / /tmp rw,nosuid,nodev shared:30 - tmpfs tmpfs rw,seclabel
82 66 8:1 / /boot rw,relatime shared:31 - ext4 /dev/sda1 rw,seclabel,data=ordered
84 66 0:44 / /var/lib/nfs/rpc_pipefs rw,relatime shared:32 - rpc_pipefs sunrpc rw
287 26 0:46 / /run/user/42 rw,nosuid,nodev,relatime shared:229 - tmpfs tmpfs rw,seclabel,size=1582224k,mode=700,uid=42,gid=42
433 26 0:48 / /run/user/1000 rw,nosuid,nodev,relatime shared:371 - tmpfs tmpfs rw,seclabel,size=1582224k,mode=700,uid=1001,gid=1001
444 433 0:49 / /run/user/1000/gvfs rw,nosuid,nodev,relatime shared:381 - fuse.gvfsd-fuse gvfsd-fuse rw,user_id=1001,group_id=1001
455 20 0:50 / /sys/fs/fuse/connections rw,relatime shared:391 - fusectl fusectl rw
493 26 179:1 / /run/media/agrover/A3D2-CF16 rw,nosuid,nodev,relatime shared:400 - vfat /dev/mmcblk0p1 rw,uid=1001,gid=1001,fmask=0022,dmask=0022,codepage=437,iocharset=ascii,shortname=mixed,showexec,utf8,flush,errors=remount-ro
        ";

fn table_lines() -> Vec<String> {
    TEST_MOUNTINFO.lines().map(|l| l.to_string()).collect()
}

#[test]
fn test_mountinfo_from() {
    let mount_sysfs = MountInfoEntry {
        id: 20,
        parent_id: 66,
        major: 0,
        minor: 20,
        root: "/".to_string(),
        file: "/sys".to_string(),
        mntops: vec![
            MntOps::Write(true),
            MntOps::Suid(false),
            MntOps::Dev(false),
            MntOps::Exec(false),
            MntOps::RelAtime(true),
        ],
        optionals: vec![("shared".to_string(), Some("2".to_string()))],
        vfstype: "sysfs".to_string(),
        spec: Some("sysfs".to_string()),
        super_options: vec!["rw".to_string(), "seclabel".to_string()],
    };

    let mut mounts = MountInfoIter::new(table_lines());
    let mnt_ops = [
        MntOps::Write(true),
        MntOps::Suid(false),
        MntOps::Dev(false),
        MntOps::Exec(false),
    ];
    let mut found = None;
    while let Some(item) = mounts.next() {
        let m = item.unwrap();
        if mnt_ops
            .iter()
            .all(|o| m.contains(&MountInfoParam::MntOps(o)))
        {
            found = Some(m);
            break;
        }
    }
    assert_eq!(found.unwrap(), mount_sysfs.clone());
}

#[test]
fn vocabulary_spellings_decode_to_their_flags() {
    assert_eq!(MntOps::from_str("atime"), MntOps::Atime(true));
    assert_eq!(MntOps::from_str("noatime"), MntOps::Atime(false));
    assert_eq!(MntOps::from_str("diratime"), MntOps::DirAtime(true));
    assert_eq!(MntOps::from_str("nodiratime"), MntOps::DirAtime(false));
    assert_eq!(MntOps::from_str("relatime"), MntOps::RelAtime(true));
    assert_eq!(MntOps::from_str("norelatime"), MntOps::RelAtime(false));
    assert_eq!(MntOps::from_str("dev"), MntOps::Dev(true));
    assert_eq!(MntOps::from_str("nodev"), MntOps::Dev(false));
    assert_eq!(MntOps::from_str("exec"), MntOps::Exec(true));
    assert_eq!(MntOps::from_str("noexec"), MntOps::Exec(false));
    assert_eq!(MntOps::from_str("suid"), MntOps::Suid(true));
    assert_eq!(MntOps::from_str("nosuid"), MntOps::Suid(false));
    assert_eq!(MntOps::from_str("rw"), MntOps::Write(true));
    assert_eq!(MntOps::from_str("ro"), MntOps::Write(false));
}

#[test]
fn unknown_tokens_are_kept_verbatim() {
    assert_eq!(
        MntOps::from_str("seclabel"),
        MntOps::Extra("seclabel".to_string())
    );
    assert_eq!(MntOps::from_str(""), MntOps::Extra("".to_string()));
    assert_eq!(MntOps::from_str("RW"), MntOps::Extra("RW".to_string()));
}

#[test]
fn well_formed_line_parses_fully() {
    let e =
        MountInfoEntry::from_str("20 66 0:20 /root /sys rw,nosuid shared:2 - sysfs none rw,seclabel")
            .unwrap();
    assert_eq!(e.id, 20);
    assert_eq!(e.parent_id, 66);
    assert_eq!(e.major, 0);
    assert_eq!(e.minor, 20);
    assert_eq!(e.root, "/root");
    assert_eq!(e.file, "/sys");
    assert_eq!(e.mntops, vec![MntOps::Write(true), MntOps::Suid(false)]);
    assert_eq!(
        e.optionals,
        vec![("shared".to_string(), Some("2".to_string()))]
    );
    assert_eq!(e.vfstype, "sysfs");
    assert_eq!(e.spec, None);
    assert_eq!(
        e.super_options,
        vec!["rw".to_string(), "seclabel".to_string()]
    );
}

#[test]
fn source_other_than_none_is_kept() {
    let e = MountInfoEntry::from_str("1 1 8:1 / /boot rw - ext4 /dev/sda1 rw").unwrap();
    assert_eq!(e.spec, Some("/dev/sda1".to_string()));
}

#[test]
fn optional_fields_last_occurrence_wins() {
    let e = MountInfoEntry::from_str(
        "1 1 0:1 / /a rw shared:2 master:1 shared:5 - tmpfs none rw",
    )
    .unwrap();
    assert_eq!(
        e.optionals,
        vec![
            ("shared".to_string(), Some("5".to_string())),
            ("master".to_string(), Some("1".to_string())),
        ]
    );
}

#[test]
fn optional_field_without_colon_has_no_value() {
    let e = MountInfoEntry::from_str("1 1 0:1 / /a rw unbindable - tmpfs none rw").unwrap();
    assert_eq!(e.optionals, vec![("unbindable".to_string(), None)]);
}

#[test]
fn optional_field_value_may_contain_colons() {
    let e = MountInfoEntry::from_str("1 1 0:1 / /a rw tag:a:b - tmpfs none rw").unwrap();
    assert_eq!(e.optionals, vec![("tag".to_string(), Some("a:b".to_string()))]);
}

#[test]
fn zero_optional_fields_parse() {
    let e = MountInfoEntry::from_str("1 1 0:1 / /a rw - tmpfs none rw").unwrap();
    assert_eq!(e.optionals, Vec::new());
}

#[test]
fn super_options_collapse_duplicates() {
    let e = MountInfoEntry::from_str("1 1 0:1 / /a rw - tmpfs none rw,rw,seclabel,rw").unwrap();
    assert_eq!(
        e.super_options,
        vec!["rw".to_string(), "seclabel".to_string()]
    );
}

#[test]
fn trailing_tokens_are_ignored() {
    let short = MountInfoEntry::from_str("1 1 0:1 / /a rw - tmpfs none rw").unwrap();
    let long = MountInfoEntry::from_str("1 1 0:1 / /a rw - tmpfs none rw 0 0").unwrap();
    assert_eq!(short, long);
}

#[test]
fn truncation_names_each_missing_field() {
    assert_eq!(MountInfoEntry::from_str(""), Err(LineError::MissingId));
    assert_eq!(MountInfoEntry::from_str("20"), Err(LineError::MissingParentId));
    assert_eq!(MountInfoEntry::from_str("20 66"), Err(LineError::MissingMajMin));
    assert_eq!(MountInfoEntry::from_str("20 66 0:20"), Err(LineError::MissingRoot));
    assert_eq!(MountInfoEntry::from_str("20 66 0:20 /"), Err(LineError::MissingFile));
    assert_eq!(
        MountInfoEntry::from_str("20 66 0:20 / /sys"),
        Err(LineError::MissingMntops)
    );
    assert_eq!(
        MountInfoEntry::from_str("20 66 0:20 / /sys rw,nosuid"),
        Err(LineError::MissingOptional)
    );
    assert_eq!(
        MountInfoEntry::from_str("20 66 0:20 / /sys rw,nosuid shared:2"),
        Err(LineError::MissingOptional)
    );
    assert_eq!(
        MountInfoEntry::from_str("20 66 0:20 / /sys rw,nosuid shared:2 -"),
        Err(LineError::MissingVfstype)
    );
    assert_eq!(
        MountInfoEntry::from_str("20 66 0:20 / /sys rw,nosuid shared:2 - sysfs"),
        Err(LineError::MissingSpec)
    );
    assert_eq!(
        MountInfoEntry::from_str("20 66 0:20 / /sys rw,nosuid shared:2 - sysfs sysfs"),
        Err(LineError::MissingSuperOptions)
    );
}

#[test]
fn malformed_majmin_keeps_raw_text() {
    assert_eq!(
        MountInfoEntry::from_str("20 66 123 / /sys rw - sysfs sysfs rw"),
        Err(LineError::InvalidMajMin("123".to_string()))
    );
    assert_eq!(
        MountInfoEntry::from_str("20 66 a:b / /sys rw - sysfs sysfs rw"),
        Err(LineError::InvalidMajMin("a:b".to_string()))
    );
}

#[test]
fn malformed_ids_keep_raw_text() {
    assert_eq!(
        MountInfoEntry::from_str("abc 66 0:20 / /sys rw - sysfs sysfs rw"),
        Err(LineError::InvalidId("abc".to_string()))
    );
    assert_eq!(
        MountInfoEntry::from_str("20 -1 0:20 / /sys rw - sysfs sysfs rw"),
        Err(LineError::InvalidParentId("-1".to_string()))
    );
    assert_eq!(
        MountInfoEntry::from_str("99999999999999999999 66 0:20 / /sys rw - sysfs sysfs rw"),
        Err(LineError::InvalidId("99999999999999999999".to_string()))
    );
}

#[test]
fn surrounding_whitespace_is_trimmed() {
    let a = MountInfoEntry::from_str("1 1 0:1 / /a rw - tmpfs none rw").unwrap();
    let b = MountInfoEntry::from_str("  \t1 1  0:1 /\t/a rw - tmpfs none rw \t").unwrap();
    assert_eq!(a, b);
}

#[test]
fn iterator_numbers_failing_lines() {
    let lines = vec![
        "1 1 0:1 / /a rw - tmpfs none rw".to_string(),
        "broken".to_string(),
    ];
    let mut it = MountInfoIter::new(lines);
    assert!(it.next().unwrap().is_ok());
    let err = it.next().unwrap().unwrap_err();
    assert_eq!(
        err.description(),
        "Mount parsing: Failed at line 1: Line parsing: Bad 'id' field value: broken"
    );
    assert!(it.next().is_none());
}

#[test]
fn iterator_renders_multi_digit_line_numbers() {
    let mut lines: Vec<String> = Vec::new();
    for i in 0..11 {
        lines.push(format!("{} 1 0:1 / /a rw - tmpfs none rw", i + 1));
    }
    lines.push("0:0".to_string());
    let mut it = MountInfoIter::new(lines);
    let mut last = None;
    while let Some(item) = it.next() {
        last = Some(item);
    }
    let err = last.unwrap().unwrap_err();
    assert_eq!(
        err.description(),
        "Mount parsing: Failed at line 11: Line parsing: Bad 'id' field value: 0:0"
    );
}

#[test]
fn line_error_messages_keep_offending_text() {
    assert_eq!(
        LineError::InvalidMajMin("123".to_string()).message(),
        "Line parsing: Bad 'maj:min' field value: 123"
    );
    assert_eq!(
        LineError::MissingId.message(),
        "Line parsing: Missing field: id"
    );
}

#[test]
fn parse_error_new_prefixes_detail() {
    let e = mnt::ParseError::new("boom".to_string());
    assert_eq!(e.description(), "Mount parsing: boom");
}
