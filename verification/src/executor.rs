//! The build executor: the one command that runs the build script, and
//! what its exit status means.

use vstd::prelude::*;
use crate::action::{Action, ActionSpec, Command, CommandSpec, Policy, Step, StepKind, StepSpec};
use crate::error::BuildError;
use crate::text::{chain, push_deep, push_text};
use crate::workspace::{Paths, WorkspacePaths};

verus! {

/// The shell that runs the build script: `bash -c`, on the script behind a
/// line that reads the shell's startup file. It runs in the build tree, and
/// finds the output tree in the variable `OUT`.
pub open spec fn build_command(script: Seq<char>, paths: Paths) -> CommandSpec {
    CommandSpec {
        program: "bash"@,
        args: seq!["-c"@, "source /root/.bashrc\n\n"@ + script],
        cwd: Some(paths.build_dir),
        env: seq![("OUT"@, paths.out_dir)],
    }
}

/// The build stage: one step where there is a script, none where there is
/// not. A failure of the build is fatal.
pub open spec fn build_steps(script: Option<Seq<char>>, paths: Paths) -> Seq<StepSpec> {
    match script {
        Some(script) => seq![
            StepSpec {
                action: ActionSpec::RunLive { command: build_command(script, paths) },
                kind: StepKind::Build,
                unit: 0,
                on_failure: Policy::Abort,
            },
        ],
        None => Seq::empty(),
    }
}

/// The steps of the build stage.
pub fn build(script: Option<&str>, paths: &WorkspacePaths) -> (steps: Vec<Step>)
    ensures
        steps.deep_view() == build_steps(script.deep_view(), paths@),
{
    let mut steps: Vec<Step> = Vec::new();
    assert(steps.deep_view() =~= Seq::empty());
    match script {
        Some(script) => {
            let mut args: Vec<String> = Vec::new();
            assert(args.deep_view() =~= Seq::empty());
            push_text(&mut args, "-c");
            let wrapped = chain("source /root/.bashrc\n\n", script);
            push_text(&mut args, wrapped.as_str());
            assert(args.deep_view() =~= build_command(script@, paths@).args);
            let mut env: Vec<(String, String)> = Vec::new();
            env.push(("OUT".to_owned(), paths.out_dir.clone()));
            assert(env.deep_view() =~= build_command(script@, paths@).env);
            let command = Command {
                program: "bash".to_owned(),
                args,
                cwd: Some(paths.build_dir.clone()),
                env,
            };
            push_deep(
                &mut steps,
                Step {
                    action: Action::RunLive { command },
                    kind: StepKind::Build,
                    unit: 0,
                    on_failure: Policy::Abort,
                },
            );
            assert(steps.deep_view() =~= build_steps(Some(script@), paths@));
        },
        None => {},
    }
    steps
}

/// What the exit status of the build script means: zero is success, and
/// anything else the error that carries the status.
pub fn build_result(status: i32) -> (r: Result<(), BuildError>)
    ensures
        r == if status == 0 {
            Ok::<(), BuildError>(())
        } else {
            Err(BuildError::NonZeroExit(status))
        },
{
    if status == 0 {
        Ok(())
    } else {
        Err(BuildError::NonZeroExit(status))
    }
}

} // verus!
