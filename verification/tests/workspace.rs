use pkgbuilder::action::{Action, Policy, StepKind};
use pkgbuilder::descriptor::{PkgFile, PkgFilePackage};
use pkgbuilder::error::WorkspaceError;
use pkgbuilder::workspace::{prepare, WorkspacePaths, TEMP_ROOT};

fn descriptor(name: &str, version: &str) -> PkgFile {
    PkgFile {
        package: PkgFilePackage {
            name: name.to_string(),
            version: version.to_string(),
            description: "a package".to_string(),
            license: "MIT".to_string(),
        },
        subpackage: None,
        source: None,
        build: None,
    }
}

#[test]
fn scratch_directories_are_named_after_the_run() {
    let paths = WorkspacePaths::new("/tmp/pkgbuilder", "foo", "1.0", 1700000000).unwrap();
    assert_eq!(paths.build_dir, "/tmp/pkgbuilder/build_foo_1.0_1700000000");
    assert_eq!(paths.out_dir, "/tmp/pkgbuilder/build_foo_1.0_1700000000_out");
    assert_eq!(paths.package_dir, "/tmp/pkgbuilder/build_foo_1.0_1700000000_package");
}

#[test]
fn scratch_directories_below_another_root() {
    let paths = WorkspacePaths::new("/var/scratch", "lib-x", "2.1.0-rc1", 0).unwrap();
    assert_eq!(paths.build_dir, "/var/scratch/build_lib-x_2.1.0-rc1_0");
    assert_eq!(paths.out_dir, "/var/scratch/build_lib-x_2.1.0-rc1_0_out");
    assert_eq!(paths.package_dir, "/var/scratch/build_lib-x_2.1.0-rc1_0_package");
}

#[test]
fn runs_of_different_seconds_do_not_share_directories() {
    let first = WorkspacePaths::new(TEMP_ROOT, "foo", "1.0", 1700000000).unwrap();
    let second = WorkspacePaths::new(TEMP_ROOT, "foo", "1.0", 1700000001).unwrap();
    assert_ne!(first.build_dir, second.build_dir);
    assert_ne!(first.out_dir, second.out_dir);
    assert_ne!(first.package_dir, second.package_dir);
}

#[test]
fn an_unsafe_name_is_refused() {
    assert_eq!(
        WorkspacePaths::new(TEMP_ROOT, "../etc", "1.0", 1).err(),
        Some(WorkspaceError::UnsafeName)
    );
    assert_eq!(
        WorkspacePaths::new(TEMP_ROOT, "", "1.0", 1).err(),
        Some(WorkspaceError::UnsafeName)
    );
}

#[test]
fn an_unsafe_version_is_refused() {
    assert_eq!(
        WorkspacePaths::new(TEMP_ROOT, "foo", "1/0", 1).err(),
        Some(WorkspaceError::UnsafeVersion)
    );
    assert_eq!(
        WorkspacePaths::new(TEMP_ROOT, "foo", "", 1).err(),
        Some(WorkspaceError::UnsafeVersion)
    );
}

#[test]
fn the_name_is_looked_at_first() {
    assert_eq!(
        WorkspacePaths::new(TEMP_ROOT, "a b", "1 0", 1).err(),
        Some(WorkspaceError::UnsafeName)
    );
}

#[test]
fn the_directories_are_created_in_order() {
    let paths = WorkspacePaths::new("/t", "foo", "1.0", 5).unwrap();
    let steps = paths.create();
    assert_eq!(steps.len(), 3);
    let expected = ["/t/build_foo_1.0_5", "/t/build_foo_1.0_5_out", "/t/build_foo_1.0_5_package"];
    for (step, path) in steps.iter().zip(expected) {
        assert_eq!(step.kind, StepKind::Scratch);
        assert_eq!(step.on_failure, Policy::Abort);
        assert!(matches!(&step.action, Action::CreateDir { path: p } if p == path));
    }
}

#[test]
fn the_directories_are_removed_in_order() {
    let paths = WorkspacePaths::new("/t", "foo", "1.0", 5).unwrap();
    let steps = paths.teardown();
    assert_eq!(steps.len(), 3);
    let expected = ["/t/build_foo_1.0_5", "/t/build_foo_1.0_5_out", "/t/build_foo_1.0_5_package"];
    for (step, path) in steps.iter().zip(expected) {
        assert_eq!(step.kind, StepKind::Cleanup);
        assert_eq!(step.on_failure, Policy::Continue);
        assert!(matches!(&step.action, Action::RemoveDir { path: p } if p == path));
    }
}

#[test]
fn prepare_names_directories_for_this_moment() {
    let paths = prepare(&descriptor("foo", "1.0")).unwrap();
    let stem = "/tmp/pkgbuilder/build_foo_1.0_";
    assert!(paths.build_dir.starts_with(stem));
    let stamp = &paths.build_dir[stem.len()..];
    assert!(!stamp.is_empty());
    assert!(stamp.chars().all(|c| c.is_ascii_digit()));
    let seconds: i64 = stamp.parse().unwrap();
    assert!(seconds > 1_600_000_000);
    assert_eq!(paths.out_dir, format!("{}_out", paths.build_dir));
    assert_eq!(paths.package_dir, format!("{}_package", paths.build_dir));
}

#[test]
fn prepare_refuses_what_may_not_be_run() {
    assert_eq!(prepare(&descriptor("a/b", "1.0")).err(), Some(WorkspaceError::UnsafeName));
    assert_eq!(prepare(&descriptor("foo", "..")).err(), Some(WorkspaceError::UnsafeVersion));
}

#[test]
fn validation_of_descriptors() {
    assert_eq!(descriptor("foo", "1.0").validate(), Ok(()));
    assert_eq!(descriptor("", "1.0").validate(), Err(WorkspaceError::UnsafeName));
    assert_eq!(descriptor("foo", "1 0").validate(), Err(WorkspaceError::UnsafeVersion));
    assert_eq!(descriptor("..", "").validate(), Err(WorkspaceError::UnsafeName));
}
