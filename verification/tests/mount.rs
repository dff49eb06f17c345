use bls::mount::{mount_command, mount_next, MountAction, MountEvent};

#[test]
fn mounting_starts_by_checking_the_mount_point() {
    assert!(matches!(mount_next(&MountEvent::Started, "/mnt/win"), MountAction::QueryMountPoint));
}

#[test]
fn busy_mount_point_is_refused() {
    let event = MountEvent::MountPointQueried { in_use: true };
    match mount_next(&event, "/mnt/win") {
        MountAction::Fail(m) => assert_eq!(m, "mount point already in use: /mnt/win"),
        _ => panic!("expected a failure"),
    }
    let event = MountEvent::MountPointQueried { in_use: false };
    assert!(matches!(mount_next(&event, "/mnt/win"), MountAction::QuerySource));
}

#[test]
fn unmounted_partition_is_mounted_read_only() {
    let event = MountEvent::SourceQueried { found: false, output: Vec::new() };
    assert!(matches!(mount_next(&event, "/mnt/win"), MountAction::MountNtfs));
    let event = MountEvent::Mounted { ok: true, status: "exit status: 0".to_string() };
    assert!(matches!(mount_next(&event, "/mnt/win"), MountAction::Finish));
    let event = MountEvent::Mounted { ok: false, status: "exit status: 32".to_string() };
    match mount_next(&event, "/mnt/win") {
        MountAction::Fail(m) => assert_eq!(m, "mount failed: exit status: 32"),
        _ => panic!("expected a failure"),
    }
}

#[test]
fn mounted_partition_is_bound_at_its_first_mount_point() {
    let event = MountEvent::SourceQueried {
        found: true,
        output: b"/media/windows\n/other\n".to_vec(),
    };
    match mount_next(&event, "/mnt/win") {
        MountAction::Bind { source } => assert_eq!(source, "/media/windows"),
        _ => panic!("expected a bind"),
    }
    let event = MountEvent::Bound { ok: true, status: "exit status: 0".to_string() };
    assert!(matches!(mount_next(&event, "/mnt/win"), MountAction::RemountReadOnly));
    let event = MountEvent::Remounted { ok: true };
    assert!(matches!(mount_next(&event, "/mnt/win"), MountAction::Finish));
}

#[test]
fn failed_bind_steps_are_reported() {
    let event = MountEvent::Bound { ok: false, status: "exit status: 1".to_string() };
    match mount_next(&event, "/mnt/win") {
        MountAction::Fail(m) => assert_eq!(m, "bind mount failed: exit status: 1"),
        _ => panic!("expected a failure"),
    }
    let event = MountEvent::Remounted { ok: false };
    match mount_next(&event, "/mnt/win") {
        MountAction::UnmountAndFail(m) => assert_eq!(m, "could not make bind mount read-only"),
        _ => panic!("expected an unmount"),
    }
}

#[test]
fn unusable_findmnt_output_is_refused() {
    let event = MountEvent::SourceQueried { found: true, output: vec![0xff, 0xfe] };
    match mount_next(&event, "/mnt/win") {
        MountAction::Fail(m) => assert_eq!(m, "invalid existing mount path"),
        _ => panic!("expected a failure"),
    }
    let event = MountEvent::SourceQueried { found: true, output: Vec::new() };
    match mount_next(&event, "/mnt/win") {
        MountAction::Fail(m) => assert_eq!(m, "missing existing mount path"),
        _ => panic!("expected a failure"),
    }
}

#[test]
fn mounts_are_read_only() {
    assert_eq!(
        mount_command(&MountAction::MountNtfs, "/dev/sda3", "/mnt/win"),
        vec!["mount", "-t", "ntfs3", "-o", "ro,nosuid,nodev,noexec", "--", "/dev/sda3", "/mnt/win"]
    );
    assert_eq!(
        mount_command(&MountAction::RemountReadOnly, "/dev/sda3", "/mnt/win"),
        vec!["mount", "-o", "remount,bind,ro,nosuid,nodev,noexec", "--", "/mnt/win"]
    );
    assert_eq!(
        mount_command(&MountAction::Bind { source: "/media/w".to_string() }, "/dev/sda3", "/mnt/win"),
        vec!["mount", "--bind", "--", "/media/w", "/mnt/win"]
    );
    assert_eq!(
        mount_command(&MountAction::QuerySource, "/dev/sda3", "/mnt/win"),
        vec!["findmnt", "-n", "-o", "TARGET", "--source", "/dev/sda3"]
    );
    assert_eq!(
        mount_command(&MountAction::QueryMountPoint, "/dev/sda3", "/mnt/win"),
        vec!["findmnt", "--mountpoint", "/mnt/win"]
    );
    assert_eq!(
        mount_command(&MountAction::UnmountAndFail("x".to_string()), "/dev/sda3", "/mnt/win"),
        vec!["umount", "/mnt/win"]
    );
    assert!(mount_command(&MountAction::Finish, "/dev/sda3", "/mnt/win").is_empty());
}
