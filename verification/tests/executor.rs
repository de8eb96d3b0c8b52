use pkgbuilder::action::{Action, ExitResult, Policy, StepKind, FAILED, NOT_STARTED, NO_STATUS};
use pkgbuilder::error::BuildError;
use pkgbuilder::executor::{build, build_result};
use pkgbuilder::workspace::WorkspacePaths;

#[test]
fn the_script_runs_in_the_build_tree_and_finds_the_output_tree() {
    let paths = WorkspacePaths::new("/t", "foo", "1.0", 9).unwrap();
    let steps = build(Some("make\nmake install"), &paths);
    assert_eq!(steps.len(), 1);
    assert_eq!(steps[0].kind, StepKind::Build);
    assert_eq!(steps[0].on_failure, Policy::Abort);
    assert_eq!(steps[0].unit, 0);
    match &steps[0].action {
        Action::RunLive { command } => {
            assert_eq!(command.program, "bash");
            assert_eq!(
                command.args,
                vec!["-c".to_string(), "source /root/.bashrc\n\nmake\nmake install".to_string()]
            );
            assert_eq!(command.cwd, Some("/t/build_foo_1.0_9".to_string()));
            assert_eq!(
                command.env,
                vec![("OUT".to_string(), "/t/build_foo_1.0_9_out".to_string())]
            );
        }
        other => panic!("not a live command: {:?}", other),
    }
}

#[test]
fn no_script_no_build() {
    let paths = WorkspacePaths::new("/t", "foo", "1.0", 9).unwrap();
    assert!(build(None, &paths).is_empty());
}

#[test]
fn an_empty_script_is_still_run() {
    let paths = WorkspacePaths::new("/t", "foo", "1.0", 9).unwrap();
    let steps = build(Some(""), &paths);
    assert_eq!(steps.len(), 1);
    match &steps[0].action {
        Action::RunLive { command } => {
            assert_eq!(command.args[1], "source /root/.bashrc\n\n");
        }
        other => panic!("not a live command: {:?}", other),
    }
}

#[test]
fn status_zero_is_success() {
    assert_eq!(build_result(0), Ok(()));
}

#[test]
fn any_other_status_is_the_error_that_carries_it() {
    assert_eq!(build_result(1), Err(BuildError::NonZeroExit(1)));
    assert_eq!(build_result(127), Err(BuildError::NonZeroExit(127)));
    assert_eq!(build_result(-1), Err(BuildError::NonZeroExit(-1)));
    assert_eq!(build_result(i32::MIN), Err(BuildError::NonZeroExit(i32::MIN)));
}

#[test]
fn how_actions_end() {
    let done = ExitResult::success();
    assert!(done.succeeded());
    assert_eq!(done, ExitResult { status: 0, stdout: String::new(), stderr: String::new() });
    let failed = ExitResult::failure("no space left".to_string());
    assert!(!failed.succeeded());
    assert_eq!(failed.status, FAILED);
    assert_eq!(failed.status, 1);
    assert_eq!(failed.stderr, "no space left");
    assert_eq!(failed.stdout, "");
}

#[test]
fn how_commands_end() {
    let ran = ExitResult::exited(Some(0), "out".to_string(), "err".to_string());
    assert!(ran.succeeded());
    assert_eq!(ran, ExitResult { status: 0, stdout: "out".to_string(), stderr: "err".to_string() });
    let ran = ExitResult::exited(Some(3), String::new(), "bad".to_string());
    assert!(!ran.succeeded());
    assert_eq!(ran.status, 3);
    let killed = ExitResult::exited(None, "partial".to_string(), String::new());
    assert!(!killed.succeeded());
    assert_eq!(killed.status, NO_STATUS);
    assert_eq!(killed.status, -1);
    assert_eq!(killed.stdout, "partial");
    let missing = ExitResult::not_started("no such program".to_string());
    assert!(!missing.succeeded());
    assert_eq!(missing.status, NOT_STARTED);
    assert_eq!(missing.status, 127);
    assert_eq!(missing.stderr, "no such program");
}
