use pkgbuilder::action::{
    policy_for_unit, Action, Command, ExitResult, Policies, Policy, Step, StepKind,
};
use pkgbuilder::descriptor::{
    PkgFile, PkgFileBuild, PkgFilePackage, PkgFileSource, PkgFileSubPackage,
};
use pkgbuilder::error::{
    BuildError, Failure, FetchError, PackageError, PipelineError, WorkspaceError,
};
use pkgbuilder::pipeline::{error_for, setup_build_environment, setup_steps, Pipeline};
use pkgbuilder::workspace::WorkspacePaths;

const B: &str = "/tmp/pkgbuilder/build_foo_1.0_1700000000";
const O: &str = "/tmp/pkgbuilder/build_foo_1.0_1700000000_out";
const P: &str = "/tmp/pkgbuilder/build_foo_1.0_1700000000_package";

fn ok(stdout: &str) -> ExitResult {
    ExitResult { status: 0, stdout: stdout.to_string(), stderr: String::new() }
}

fn failed(status: i32) -> ExitResult {
    ExitResult { status, stdout: String::new(), stderr: "it failed".to_string() }
}

fn package(name: &str) -> PkgFilePackage {
    PkgFilePackage {
        name: name.to_string(),
        version: "1.0".to_string(),
        description: "a package".to_string(),
        license: "MIT".to_string(),
    }
}

fn bare() -> PkgFile {
    PkgFile { package: package("foo"), subpackage: None, source: None, build: None }
}

fn foo() -> PkgFile {
    PkgFile {
        package: package("foo"),
        subpackage: None,
        source: Some(vec![PkgFileSource {
            source: "https://x/repo.git".to_string(),
            git_ref: None,
            git_commit: None,
            destination: None,
        }]),
        build: Some(PkgFileBuild { script: "echo hi > $OUT/hi.txt".to_string() }),
    }
}

fn split() -> PkgFile {
    PkgFile {
        package: package("foo"),
        subpackage: Some(vec![
            PkgFileSubPackage {
                name: "tools".to_string(),
                description: "the tools".to_string(),
                files: vec!["bin/*".to_string()],
            },
            PkgFileSubPackage {
                name: "rest".to_string(),
                description: "all the rest".to_string(),
                files: vec!["**".to_string(), "etc/*".to_string()],
            },
        ]),
        source: Some(vec![
            PkgFileSource {
                source: "https://x/a.tar.gz".to_string(),
                git_ref: None,
                git_commit: None,
                destination: Some("a".to_string()),
            },
            PkgFileSource {
                source: "https://x/b.git".to_string(),
                git_ref: None,
                git_commit: Some("c0ffee".to_string()),
                destination: Some("b".to_string()),
            },
        ]),
        build: Some(PkgFileBuild { script: "make install".to_string() }),
    }
}

fn line(command: &Command) -> String {
    let mut text = String::new();
    for (key, value) in &command.env {
        text.push_str(&format!("{}={} ", key, value));
    }
    if let Some(cwd) = &command.cwd {
        text.push_str(&format!("[{}] ", cwd));
    }
    text.push_str(&command.program);
    for arg in &command.args {
        text.push_str(&format!(" {:?}", arg));
    }
    text
}

fn describe(step: &Step) -> String {
    match &step.action {
        Action::CreateDir { path } => format!("mkdir {}", path),
        Action::RemoveDir { path } => format!("rmdir {}", path),
        Action::RemoveFile { path } => format!("rm {}", path),
        Action::CopyFile { from, to } => format!("cp {} {}", from, to),
        Action::Run { command } => format!("run {}", line(command)),
        Action::RunLive { command } => format!("live {}", line(command)),
    }
}

fn start(pkgfile: &PkgFile) -> Pipeline {
    start_with(pkgfile, Policies::lenient())
}

fn start_with(pkgfile: &PkgFile, policies: Policies) -> Pipeline {
    let paths = WorkspacePaths::new("/tmp/pkgbuilder", "foo", "1.0", 1700000000).unwrap();
    Pipeline::new(pkgfile, &paths, "/src/foo/package.toml", "/out", policies).unwrap()
}

/// Runs the pipeline to its end. Each step ends as `host` says, which is
/// told the kind of the step, its unit, and how many steps of that kind and
/// unit came before it.
fn drive(
    pipeline: &mut Pipeline,
    host: &dyn Fn(StepKind, usize, usize) -> ExitResult,
) -> Vec<(StepKind, usize)> {
    let mut seen: Vec<(StepKind, usize)> = Vec::new();
    let mut guard = 0;
    loop {
        let (kind, unit) = match pipeline.current() {
            Some(step) => (step.kind, step.unit),
            None => break,
        };
        let earlier = seen.iter().filter(|s| **s == (kind, unit)).count();
        seen.push((kind, unit));
        let outcome = host(kind, unit, earlier);
        let recorded = pipeline.advance(&outcome);
        assert_eq!(recorded.is_some(), outcome.status != 0);
        guard += 1;
        assert!(guard < 1000);
    }
    assert!(pipeline.is_finished());
    seen
}

fn cleaned(seen: &[(StepKind, usize)]) -> bool {
    seen.len() >= 3 && seen[seen.len() - 3..].iter().all(|s| *s == (StepKind::Cleanup, 0))
}

#[test]
fn foo_is_fetched_built_and_packaged() {
    let mut pipeline = start(&foo());
    let mut seen = Vec::new();
    while let Some(step) = pipeline.current() {
        seen.push(describe(step));
        assert_eq!(pipeline.advance(&ok("")), None);
    }
    assert_eq!(
        seen,
        vec![
            format!("mkdir {B}"),
            format!("mkdir {O}"),
            format!("mkdir {P}"),
            format!("run git \"clone\" \"--depth\" \"1\" \"https://x/repo.git\" \"{B}\""),
            format!("live OUT={O} [{B}] bash \"-c\" \"source /root/.bashrc\\n\\necho hi > $OUT/hi.txt\""),
            "mkdir /out".to_string(),
            format!("cp /src/foo/package.toml {O}/package.toml"),
            format!("run mv \"{O}\" \"{P}/foo\""),
            format!("run [{P}/foo] tar \"-czf\" \"{P}/foo.tar.gz\" \"./\""),
            format!("cp {P}/foo.tar.gz /out/foo.tar.gz"),
            format!("rmdir {B}"),
            format!("rmdir {O}"),
            format!("rmdir {P}"),
        ]
    );
    assert!(pipeline.is_finished());
    assert_eq!(pipeline.result(), Ok(&vec!["/out/foo.tar.gz".to_string()]));
    assert!(pipeline.failures().is_empty());
    assert_eq!(pipeline.fatal(), None);
}

#[test]
fn a_bare_descriptor_still_yields_one_archive() {
    let mut pipeline = start(&bare());
    let mut seen = Vec::new();
    while let Some(step) = pipeline.current() {
        seen.push(describe(step));
        pipeline.advance(&ok(""));
    }
    assert_eq!(
        seen,
        vec![
            format!("mkdir {B}"),
            format!("mkdir {O}"),
            format!("mkdir {P}"),
            "mkdir /out".to_string(),
            format!("cp /src/foo/package.toml {O}/package.toml"),
            format!("run mv \"{O}\" \"{P}/foo\""),
            format!("run [{P}/foo] tar \"-czf\" \"{P}/foo.tar.gz\" \"./\""),
            format!("cp {P}/foo.tar.gz /out/foo.tar.gz"),
            format!("rmdir {B}"),
            format!("rmdir {O}"),
            format!("rmdir {P}"),
        ]
    );
    assert_eq!(pipeline.result(), Ok(&vec!["/out/foo.tar.gz".to_string()]));
    assert!(pipeline.failures().is_empty());
}

#[test]
fn a_pattern_that_matches_nothing_still_yields_an_archive() {
    let mut pkgfile = bare();
    pkgfile.subpackage = Some(vec![PkgFileSubPackage {
        name: "foo-doc".to_string(),
        description: String::new(),
        files: vec!["share/doc/*".to_string()],
    }]);
    let mut pipeline = start(&pkgfile);
    let mut seen = Vec::new();
    while let Some(step) = pipeline.current() {
        seen.push(describe(step));
        pipeline.advance(&ok("\0"));
    }
    assert_eq!(
        seen[3..11],
        vec![
            "mkdir /out".to_string(),
            format!("mkdir {P}/foo-doc"),
            format!("run [{B}] bash \"-c\" \"shopt -s nullglob dotglob globstar; printf '%s\\\\0' {O}/share/doc/*\""),
            format!("cp /src/foo/package.toml {P}/foo-doc/package.toml"),
            format!("run [{P}/foo-doc] tar \"-czf\" \"{P}/foo-doc.tar.gz\" \"./\""),
            format!("cp {P}/foo-doc.tar.gz /out/foo-doc.tar.gz"),
            format!("rmdir {P}/foo-doc"),
            format!("cp /src/foo/package.toml {O}/package.toml"),
        ]
    );
    assert_eq!(
        pipeline.result(),
        Ok(&vec!["/out/foo-doc.tar.gz".to_string(), "/out/foo.tar.gz".to_string()])
    );
    assert!(pipeline.failures().is_empty());
}

#[test]
fn overlapping_subpackages_share_out_the_files() {
    let mut pipeline = start(&split());
    let mut seen = Vec::new();
    let mut expansions = 0;
    while let Some(step) = pipeline.current() {
        seen.push(describe(step));
        let outcome = if step.kind == StepKind::Expand {
            expansions += 1;
            match expansions {
                1 => ok(&format!("{O}/bin/tool\0{O}/bin/.hidden\0")),
                2 => ok(&format!(
                    "{O}/bin\0{O}/bin/tool\0{O}/etc\0{O}/etc/foo.conf\0{O}/lib\0{O}/lib/libfoo.so\0"
                )),
                _ => ok(&format!("{O}/etc/foo.conf\0")),
            }
        } else {
            ok("")
        };
        pipeline.advance(&outcome);
    }
    let packaging: Vec<String> = seen.iter().skip_while(|s| *s != "mkdir /out").cloned().collect();
    assert_eq!(
        packaging,
        vec![
            "mkdir /out".to_string(),
            format!("mkdir {P}/tools"),
            format!("run [{B}] bash \"-c\" \"shopt -s nullglob dotglob globstar; printf '%s\\\\0' {O}/bin/*\""),
            format!("mkdir {P}/tools/bin"),
            format!("run mv \"{O}/bin/tool\" \"{P}/tools/bin/tool\""),
            format!("mkdir {P}/tools/bin"),
            format!("run mv \"{O}/bin/.hidden\" \"{P}/tools/bin/.hidden\""),
            format!("cp /src/foo/package.toml {P}/tools/package.toml"),
            format!("run [{P}/tools] tar \"-czf\" \"{P}/tools.tar.gz\" \"./\""),
            format!("cp {P}/tools.tar.gz /out/tools.tar.gz"),
            format!("rmdir {P}/tools"),
            format!("mkdir {P}/rest"),
            format!("run [{B}] bash \"-c\" \"shopt -s nullglob dotglob globstar; printf '%s\\\\0' {O}/**\""),
            format!("mkdir {P}/rest/"),
            format!("run mv \"{O}/bin\" \"{P}/rest/bin\""),
            format!("mkdir {P}/rest/"),
            format!("run mv \"{O}/etc\" \"{P}/rest/etc\""),
            format!("mkdir {P}/rest/"),
            format!("run mv \"{O}/lib\" \"{P}/rest/lib\""),
            format!("run [{B}] bash \"-c\" \"shopt -s nullglob dotglob globstar; printf '%s\\\\0' {O}/etc/*\""),
            format!("cp /src/foo/package.toml {P}/rest/package.toml"),
            format!("run [{P}/rest] tar \"-czf\" \"{P}/rest.tar.gz\" \"./\""),
            format!("cp {P}/rest.tar.gz /out/rest.tar.gz"),
            format!("rmdir {P}/rest"),
            format!("cp /src/foo/package.toml {O}/package.toml"),
            format!("run mv \"{O}\" \"{P}/foo\""),
            format!("run [{P}/foo] tar \"-czf\" \"{P}/foo.tar.gz\" \"./\""),
            format!("cp {P}/foo.tar.gz /out/foo.tar.gz"),
            format!("rmdir {B}"),
            format!("rmdir {O}"),
            format!("rmdir {P}"),
        ]
    );
    let moves_of_tool =
        seen.iter().filter(|s| s.starts_with(&format!("run mv \"{O}/bin/tool\""))).count();
    assert_eq!(moves_of_tool, 1);
    assert_eq!(pipeline.owner("bin/tool"), Some(0));
    assert_eq!(pipeline.owner("bin/.hidden"), Some(0));
    assert_eq!(pipeline.owner("bin/other"), Some(1));
    assert_eq!(pipeline.owner("etc/foo.conf"), Some(1));
    assert_eq!(pipeline.owner("lib/libfoo.so"), Some(1));
    assert_eq!(pipeline.owner("share/doc/README"), None);
    assert_eq!(pipeline.owner("package.toml"), None);
    assert_eq!(
        pipeline.result(),
        Ok(&vec![
            "/out/tools.tar.gz".to_string(),
            "/out/rest.tar.gz".to_string(),
            "/out/foo.tar.gz".to_string()
        ])
    );
}

#[test]
fn the_whole_plan_of_a_descriptor_with_everything() {
    let mut pipeline = start(&split());
    let seen = drive(&mut pipeline, &|_, _, _| ok(""));
    assert_eq!(
        seen,
        vec![
            (StepKind::Scratch, 0),
            (StepKind::Scratch, 0),
            (StepKind::Scratch, 0),
            (StepKind::Destination, 0),
            (StepKind::Download, 0),
            (StepKind::Extract, 0),
            (StepKind::Discard, 0),
            (StepKind::Clone, 1),
            (StepKind::Reset, 1),
            (StepKind::Build, 0),
            (StepKind::Output, 0),
            (StepKind::Subdir, 0),
            (StepKind::Expand, 0),
            (StepKind::Manifest, 0),
            (StepKind::Archive, 0),
            (StepKind::Deliver, 0),
            (StepKind::Release, 0),
            (StepKind::Subdir, 1),
            (StepKind::Expand, 1),
            (StepKind::Expand, 1),
            (StepKind::Manifest, 1),
            (StepKind::Archive, 1),
            (StepKind::Deliver, 1),
            (StepKind::Release, 1),
            (StepKind::Manifest, 2),
            (StepKind::Gather, 2),
            (StepKind::Archive, 2),
            (StepKind::Deliver, 2),
            (StepKind::Cleanup, 0),
            (StepKind::Cleanup, 0),
            (StepKind::Cleanup, 0),
        ]
    );
}

#[test]
fn a_build_that_succeeds_goes_on_to_packaging() {
    let mut pipeline = start(&foo());
    let seen = drive(&mut pipeline, &|_, _, _| ok(""));
    let build = seen.iter().position(|s| s.0 == StepKind::Build).unwrap();
    assert_eq!(seen[build + 1], (StepKind::Output, 0));
    assert!(pipeline.result().is_ok());
}

#[test]
fn a_build_that_fails_packages_nothing() {
    for status in [1, 2, 127, -1, 255] {
        let mut pipeline = start(&split());
        let seen = drive(&mut pipeline, &|kind, _, _| {
            if kind == StepKind::Build {
                failed(status)
            } else {
                ok("")
            }
        });
        let build = seen.iter().position(|s| s.0 == StepKind::Build).unwrap();
        assert_eq!(
            seen[build + 1..],
            vec![(StepKind::Cleanup, 0), (StepKind::Cleanup, 0), (StepKind::Cleanup, 0)]
        );
        assert_eq!(
            pipeline.result(),
            Err(PipelineError::Build(BuildError::NonZeroExit(status)))
        );
        assert!(pipeline.archives().is_empty());
        assert_eq!(
            pipeline.fatal(),
            Some(Failure {
                error: PipelineError::Build(BuildError::NonZeroExit(status)),
                unit: 0,
                status
            })
        );
    }
}

#[test]
fn the_cleanup_runs_whatever_fails() {
    let all = drive(&mut start(&split()), &|_, _, _| ok(""));
    for failing in 0..all.len() {
        let (kind, unit) = all[failing];
        let earlier = all[..failing].iter().filter(|s| **s == (kind, unit)).count();
        let mut pipeline = start(&split());
        let seen = drive(&mut pipeline, &|k, u, e| {
            if (k, u, e) == (kind, unit, earlier) {
                failed(1)
            } else {
                ok("")
            }
        });
        assert!(cleaned(&seen), "no cleanup after a failed {:?}", kind);
        assert_eq!(pipeline.failures().len(), 1);
    }
}

#[test]
fn the_cleanup_runs_when_everything_fails() {
    let mut pipeline = start(&split());
    let seen = drive(&mut pipeline, &|_, _, _| failed(1));
    assert_eq!(
        seen,
        vec![
            (StepKind::Scratch, 0),
            (StepKind::Cleanup, 0),
            (StepKind::Cleanup, 0),
            (StepKind::Cleanup, 0)
        ]
    );
    assert_eq!(
        pipeline.result(),
        Err(PipelineError::Workspace(WorkspaceError::CreateFailed))
    );
    assert_eq!(
        pipeline.failures(),
        &vec![
            Failure {
                error: PipelineError::Workspace(WorkspaceError::CreateFailed),
                unit: 0,
                status: 1
            },
            Failure {
                error: PipelineError::Workspace(WorkspaceError::RemoveFailed),
                unit: 0,
                status: 1
            },
            Failure {
                error: PipelineError::Workspace(WorkspaceError::RemoveFailed),
                unit: 0,
                status: 1
            },
            Failure {
                error: PipelineError::Workspace(WorkspaceError::RemoveFailed),
                unit: 0,
                status: 1
            },
        ]
    );
}

#[test]
fn a_failed_cleanup_does_not_mask_the_archives() {
    let mut pipeline = start(&foo());
    drive(&mut pipeline, &|kind, _, _| {
        if kind == StepKind::Cleanup {
            failed(13)
        } else {
            ok("")
        }
    });
    assert_eq!(pipeline.result(), Ok(&vec!["/out/foo.tar.gz".to_string()]));
    assert_eq!(pipeline.failures().len(), 3);
    assert_eq!(pipeline.fatal(), None);
}

#[test]
fn a_source_that_fails_is_given_up_and_the_build_goes_on() {
    let mut pipeline = start(&split());
    let seen = drive(&mut pipeline, &|kind, _, _| {
        if kind == StepKind::Download {
            failed(22)
        } else {
            ok("")
        }
    });
    assert_eq!(
        seen[3..10],
        vec![
            (StepKind::Destination, 0),
            (StepKind::Download, 0),
            (StepKind::Discard, 0),
            (StepKind::Clone, 1),
            (StepKind::Reset, 1),
            (StepKind::Build, 0),
            (StepKind::Output, 0),
        ]
    );
    assert_eq!(
        pipeline.failures(),
        &vec![Failure {
            error: PipelineError::Fetch(FetchError::Transport),
            unit: 0,
            status: 22
        }]
    );
    assert_eq!(pipeline.result().map(|a| a.len()), Ok(3));
}

#[test]
fn a_clone_that_fails_is_not_reset() {
    let mut pipeline = start(&split());
    let seen = drive(&mut pipeline, &|kind, _, _| {
        if kind == StepKind::Clone {
            failed(128)
        } else {
            ok("")
        }
    });
    assert!(!seen.contains(&(StepKind::Reset, 1)));
    assert!(seen.contains(&(StepKind::Build, 0)));
    assert_eq!(
        pipeline.failures(),
        &vec![Failure {
            error: PipelineError::Fetch(FetchError::Transport),
            unit: 1,
            status: 128
        }]
    );
}

#[test]
fn an_unknown_source_is_flagged_and_nothing_else() {
    let mut pkgfile = bare();
    pkgfile.source = Some(vec![PkgFileSource {
        source: "https://x/readme.txt".to_string(),
        git_ref: None,
        git_commit: None,
        destination: None,
    }]);
    let mut pipeline = start(&pkgfile);
    assert_eq!(
        pipeline.failures(),
        &vec![Failure {
            error: PipelineError::Fetch(FetchError::UnknownFormat),
            unit: 0,
            status: 0
        }]
    );
    let seen = drive(&mut pipeline, &|_, _, _| ok(""));
    assert_eq!(seen.len(), 11);
    assert_eq!(pipeline.result(), Ok(&vec!["/out/foo.tar.gz".to_string()]));
}

#[test]
fn a_subpackage_that_cannot_be_expanded_is_given_up() {
    let mut pipeline = start(&split());
    let seen = drive(&mut pipeline, &|kind, unit, earlier| {
        if (kind, unit, earlier) == (StepKind::Expand, 1, 0) {
            failed(2)
        } else {
            ok("")
        }
    });
    let packaging: Vec<(StepKind, usize)> =
        seen.iter().skip_while(|s| s.0 != StepKind::Subdir || s.1 != 1).cloned().collect();
    assert_eq!(
        packaging[..4],
        vec![
            (StepKind::Subdir, 1),
            (StepKind::Expand, 1),
            (StepKind::Release, 1),
            (StepKind::Manifest, 2),
        ]
    );
    assert_eq!(
        pipeline.result(),
        Ok(&vec!["/out/tools.tar.gz".to_string(), "/out/foo.tar.gz".to_string()])
    );
    assert_eq!(
        pipeline.failures(),
        &vec![Failure {
            error: PipelineError::Package(PackageError::Expansion),
            unit: 1,
            status: 2
        }]
    );
}

#[test]
fn a_subpackage_that_cannot_be_archived_is_given_up() {
    let mut pipeline = start(&split());
    let seen = drive(&mut pipeline, &|kind, unit, _| {
        if (kind, unit) == (StepKind::Archive, 0) {
            failed(2)
        } else {
            ok("")
        }
    });
    assert!(!seen.contains(&(StepKind::Deliver, 0)));
    assert!(seen.contains(&(StepKind::Release, 0)));
    assert_eq!(
        pipeline.result(),
        Ok(&vec!["/out/rest.tar.gz".to_string(), "/out/foo.tar.gz".to_string()])
    );
    assert_eq!(
        pipeline.failures(),
        &vec![Failure {
            error: PipelineError::Package(PackageError::Archive),
            unit: 0,
            status: 2
        }]
    );
}

#[test]
fn a_file_that_cannot_be_moved_holds_up_nothing() {
    let mut pipeline = start(&split());
    let seen = drive(&mut pipeline, &|kind, unit, earlier| match kind {
        StepKind::Expand if (unit, earlier) == (0, 0) => ok(&format!("{O}/bin/a\0{O}/bin/b\0")),
        StepKind::Move if earlier == 0 => failed(1),
        StepKind::Parent if earlier == 1 => failed(1),
        _ => ok(""),
    });
    assert_eq!(seen.iter().filter(|s| **s == (StepKind::Move, 0)).count(), 2);
    assert_eq!(pipeline.result().map(|a| a.len()), Ok(3));
    assert_eq!(
        pipeline.failures(),
        &vec![
            Failure { error: PipelineError::Package(PackageError::Move), unit: 0, status: 1 },
            Failure { error: PipelineError::Package(PackageError::Layout), unit: 0, status: 1 },
        ]
    );
}

#[test]
fn fatal_failures_of_the_packaging() {
    let cases = [
        (StepKind::Output, 0, PackageError::Output, 0),
        (StepKind::Manifest, 0, PackageError::Manifest, 0),
        (StepKind::Deliver, 0, PackageError::Delivery, 0),
        (StepKind::Manifest, 2, PackageError::Manifest, 2),
        (StepKind::Gather, 2, PackageError::Move, 2),
        (StepKind::Archive, 2, PackageError::Archive, 2),
        (StepKind::Deliver, 2, PackageError::Delivery, 2),
    ];
    for (kind, unit, error, archives) in cases {
        let mut pipeline = start(&split());
        let seen = drive(&mut pipeline, &|k, u, _| {
            if (k, u) == (kind, unit) {
                failed(1)
            } else {
                ok("")
            }
        });
        let at = seen.iter().position(|s| *s == (kind, unit)).unwrap();
        assert_eq!(seen.len(), at + 4);
        assert!(cleaned(&seen));
        assert_eq!(pipeline.result(), Err(PipelineError::Package(error)));
        assert_eq!(pipeline.archives().len(), archives);
    }
}

#[test]
fn a_tree_that_cannot_be_made_gives_up_its_subpackage() {
    let mut pipeline = start(&split());
    let seen = drive(&mut pipeline, &|kind, unit, _| {
        if (kind, unit) == (StepKind::Subdir, 0) {
            failed(1)
        } else {
            ok("")
        }
    });
    assert!(!seen.contains(&(StepKind::Expand, 0)));
    assert!(!seen.contains(&(StepKind::Manifest, 0)));
    assert!(seen.contains(&(StepKind::Release, 0)));
    assert!(seen.contains(&(StepKind::Expand, 1)));
    assert_eq!(
        pipeline.failures(),
        &vec![Failure {
            error: PipelineError::Package(PackageError::Layout),
            unit: 0,
            status: 1
        }]
    );
}

#[test]
fn every_kind_of_step_has_its_error() {
    let fetch = |e| PipelineError::Fetch(e);
    let pack = |e| PipelineError::Package(e);
    let work = |e| PipelineError::Workspace(e);
    assert_eq!(error_for(StepKind::Scratch, 1), work(WorkspaceError::CreateFailed));
    assert_eq!(error_for(StepKind::Clone, 1), fetch(FetchError::Transport));
    assert_eq!(error_for(StepKind::Download, 1), fetch(FetchError::Transport));
    assert_eq!(error_for(StepKind::Reset, 1), fetch(FetchError::Checkout));
    assert_eq!(error_for(StepKind::Destination, 1), fetch(FetchError::Extraction));
    assert_eq!(error_for(StepKind::Extract, 1), fetch(FetchError::Extraction));
    assert_eq!(error_for(StepKind::Discard, 1), work(WorkspaceError::RemoveFailed));
    assert_eq!(
        error_for(StepKind::Build, 42),
        PipelineError::Build(BuildError::NonZeroExit(42))
    );
    assert_eq!(error_for(StepKind::Output, 1), pack(PackageError::Output));
    assert_eq!(error_for(StepKind::Subdir, 1), pack(PackageError::Layout));
    assert_eq!(error_for(StepKind::Parent, 1), pack(PackageError::Layout));
    assert_eq!(error_for(StepKind::Expand, 1), pack(PackageError::Expansion));
    assert_eq!(error_for(StepKind::Move, 1), pack(PackageError::Move));
    assert_eq!(error_for(StepKind::Gather, 1), pack(PackageError::Move));
    assert_eq!(error_for(StepKind::Manifest, 1), pack(PackageError::Manifest));
    assert_eq!(error_for(StepKind::Archive, 1), pack(PackageError::Archive));
    assert_eq!(error_for(StepKind::Deliver, 1), pack(PackageError::Delivery));
    assert_eq!(error_for(StepKind::Release, 1), work(WorkspaceError::RemoveFailed));
    assert_eq!(error_for(StepKind::Cleanup, 1), work(WorkspaceError::RemoveFailed));
}

#[test]
fn a_run_that_is_over_stays_over() {
    let mut pipeline = start(&bare());
    drive(&mut pipeline, &|_, _, _| ok(""));
    assert!(pipeline.current().is_none());
    assert_eq!(pipeline.advance(&failed(1)), None);
    assert_eq!(pipeline.advance(&ok("")), None);
    assert!(pipeline.is_finished());
    assert_eq!(pipeline.result(), Ok(&vec!["/out/foo.tar.gz".to_string()]));
    assert!(pipeline.failures().is_empty());
}

#[test]
fn a_descriptor_that_may_not_be_run_is_refused() {
    let paths = WorkspacePaths::new("/t", "foo", "1.0", 1).unwrap();
    let mut pkgfile = bare();
    pkgfile.package.name = "../foo".to_string();
    assert_eq!(
        Pipeline::new(&pkgfile, &paths, "/m", "/out", Policies::lenient()).err(),
        Some(WorkspaceError::UnsafeName)
    );
    assert_eq!(
        Pipeline::start(&pkgfile, "/m", "/out", Policies::strict()).err(),
        Some(WorkspaceError::UnsafeName)
    );
    assert_eq!(setup_build_environment(&pkgfile, false).err(), Some(WorkspaceError::UnsafeName));
    pkgfile.package.name = "foo".to_string();
    pkgfile.package.version = "1.0 beta".to_string();
    assert_eq!(
        Pipeline::new(&pkgfile, &paths, "/m", "/out", Policies::lenient()).err(),
        Some(WorkspaceError::UnsafeVersion)
    );
    assert_eq!(
        Pipeline::start(&pkgfile, "/m", "/out", Policies::lenient()).err(),
        Some(WorkspaceError::UnsafeVersion)
    );
    assert_eq!(setup_build_environment(&pkgfile, false).err(), Some(WorkspaceError::UnsafeVersion));
}

#[test]
fn a_run_that_starts_now_works_in_directories_of_this_moment() {
    let pipeline = Pipeline::start(&foo(), "/m", "/out", Policies::lenient()).unwrap();
    let first = describe(pipeline.current().unwrap());
    assert!(first.starts_with("mkdir /tmp/pkgbuilder/build_foo_1.0_"));
    let stamp = &first["mkdir /tmp/pkgbuilder/build_foo_1.0_".len()..];
    assert!(stamp.parse::<i64>().unwrap() > 1_600_000_000);
}

#[test]
fn the_build_environment_is_set_up_before_anything_else() {
    let paths = WorkspacePaths::new("/tmp/pkgbuilder", "foo", "1.0", 1700000000).unwrap();
    let (steps, unknown) = setup_steps(&foo(), &paths, false);
    let seen: Vec<String> = steps.iter().map(describe).collect();
    assert_eq!(
        seen,
        vec![
            format!("mkdir {B}"),
            format!("mkdir {O}"),
            format!("mkdir {P}"),
            format!("run git \"clone\" \"--depth\" \"1\" \"https://x/repo.git\" \"{B}\""),
        ]
    );
    assert!(unknown.is_empty());
    let (paths, steps, unknown) = setup_build_environment(&foo(), false).unwrap();
    assert_eq!(steps.len(), 4);
    assert!(unknown.is_empty());
    assert_eq!(describe(&steps[0]), format!("mkdir {}", paths.build_dir));
    assert_eq!(describe(&steps[1]), format!("mkdir {}", paths.out_dir));
    assert_eq!(describe(&steps[2]), format!("mkdir {}", paths.package_dir));
    assert_eq!(
        describe(&steps[3]),
        format!("run git \"clone\" \"--depth\" \"1\" \"https://x/repo.git\" \"{}\"", paths.build_dir)
    );
}

#[test]
fn the_two_sets_of_policies() {
    assert_eq!(
        Policies::lenient(),
        Policies { fetch_failure_is_fatal: false, subpackage_failure_is_fatal: false }
    );
    assert_eq!(
        Policies::strict(),
        Policies { fetch_failure_is_fatal: true, subpackage_failure_is_fatal: true }
    );
    assert_eq!(policy_for_unit(false), Policy::SkipUnit);
    assert_eq!(policy_for_unit(true), Policy::Abort);
}

#[test]
fn where_fetching_is_strict_a_source_that_fails_ends_the_run() {
    let policies = Policies { fetch_failure_is_fatal: true, subpackage_failure_is_fatal: false };
    let mut pipeline = start_with(&split(), policies);
    let seen = drive(&mut pipeline, &|kind, _, _| {
        if kind == StepKind::Download {
            failed(22)
        } else {
            ok("")
        }
    });
    assert_eq!(
        seen[3..],
        vec![
            (StepKind::Destination, 0),
            (StepKind::Download, 0),
            (StepKind::Cleanup, 0),
            (StepKind::Cleanup, 0),
            (StepKind::Cleanup, 0),
        ]
    );
    assert_eq!(pipeline.result(), Err(PipelineError::Fetch(FetchError::Transport)));
    assert!(pipeline.archives().is_empty());
}

#[test]
fn where_fetching_is_strict_a_reset_that_fails_ends_the_run() {
    let policies = Policies { fetch_failure_is_fatal: true, subpackage_failure_is_fatal: false };
    let mut pipeline = start_with(&split(), policies);
    let seen = drive(&mut pipeline, &|kind, _, _| {
        if kind == StepKind::Reset {
            failed(128)
        } else {
            ok("")
        }
    });
    assert!(!seen.contains(&(StepKind::Build, 0)));
    assert!(cleaned(&seen));
    assert_eq!(pipeline.result(), Err(PipelineError::Fetch(FetchError::Checkout)));
}

#[test]
fn where_fetching_is_strict_an_archive_that_cannot_be_unpacked_ends_the_run() {
    let policies = Policies { fetch_failure_is_fatal: true, subpackage_failure_is_fatal: false };
    let mut pipeline = start_with(&split(), policies);
    let seen = drive(&mut pipeline, &|kind, _, _| {
        if kind == StepKind::Extract {
            failed(2)
        } else {
            ok("")
        }
    });
    assert!(!seen.contains(&(StepKind::Build, 0)));
    assert!(cleaned(&seen));
    assert_eq!(pipeline.result(), Err(PipelineError::Fetch(FetchError::Extraction)));
}

#[test]
fn where_packaging_is_strict_a_subpackage_that_fails_ends_the_run() {
    let policies = Policies { fetch_failure_is_fatal: false, subpackage_failure_is_fatal: true };
    let cases = [
        (StepKind::Subdir, PackageError::Layout),
        (StepKind::Expand, PackageError::Expansion),
        (StepKind::Parent, PackageError::Layout),
        (StepKind::Move, PackageError::Move),
        (StepKind::Archive, PackageError::Archive),
    ];
    for (kind, error) in cases {
        let mut pipeline = start_with(&split(), policies);
        let seen = drive(&mut pipeline, &|k, u, _| {
            if (k, u) == (kind, 0) {
                failed(1)
            } else if k == StepKind::Expand {
                ok(&format!("{O}/bin/tool\0"))
            } else {
                ok("")
            }
        });
        let at = seen.iter().position(|s| *s == (kind, 0)).unwrap();
        assert_eq!(seen.len(), at + 4);
        assert!(cleaned(&seen));
        assert_eq!(pipeline.result(), Err(PipelineError::Package(error)));
        assert!(pipeline.archives().is_empty());
    }
}

#[test]
fn where_packaging_is_strict_a_source_that_fails_is_still_given_up() {
    let policies = Policies { fetch_failure_is_fatal: false, subpackage_failure_is_fatal: true };
    let mut pipeline = start_with(&split(), policies);
    drive(&mut pipeline, &|kind, _, _| {
        if kind == StepKind::Clone {
            failed(128)
        } else {
            ok("")
        }
    });
    assert_eq!(pipeline.result().map(|a| a.len()), Ok(3));
    assert_eq!(pipeline.failures().len(), 1);
}

#[test]
fn the_cleanup_runs_whatever_fails_where_everything_is_strict() {
    let all = drive(&mut start_with(&split(), Policies::strict()), &|_, _, _| ok(""));
    for failing in 0..all.len() {
        let (kind, unit) = all[failing];
        let earlier = all[..failing].iter().filter(|s| **s == (kind, unit)).count();
        let mut pipeline = start_with(&split(), Policies::strict());
        let seen = drive(&mut pipeline, &|k, u, e| {
            if (k, u, e) == (kind, unit, earlier) {
                failed(1)
            } else {
                ok("")
            }
        });
        assert!(cleaned(&seen), "no cleanup after a failed {:?}", kind);
    }
}

#[test]
fn where_nothing_fails_every_package_is_delivered_in_order() {
    for policies in [Policies::lenient(), Policies::strict()] {
        let mut pipeline = start_with(&split(), policies);
        drive(&mut pipeline, &|kind, unit, earlier| match (kind, unit, earlier) {
            (StepKind::Expand, 0, 0) => ok(&format!("{O}/bin/a\0{O}/bin/b\0")),
            (StepKind::Expand, 1, 0) => ok(&format!("{O}/share\0{O}/share/doc\0")),
            _ => ok(""),
        });
        assert_eq!(
            pipeline.result(),
            Ok(&vec![
                "/out/tools.tar.gz".to_string(),
                "/out/rest.tar.gz".to_string(),
                "/out/foo.tar.gz".to_string()
            ])
        );
        assert!(pipeline.failures().is_empty());
    }
}

#[test]
fn a_file_with_white_space_in_its_name_goes_to_its_subpackage() {
    let mut pkgfile = bare();
    pkgfile.subpackage = Some(vec![PkgFileSubPackage {
        name: "docs".to_string(),
        description: String::new(),
        files: vec!["share/*".to_string()],
    }]);
    let mut pipeline = start(&pkgfile);
    let mut seen = Vec::new();
    while let Some(step) = pipeline.current() {
        seen.push(describe(step));
        let outcome = if step.kind == StepKind::Expand {
            ok(&format!("{O}/share/read me.txt\0{O}/share/a b/c d\0"))
        } else {
            ok("")
        };
        pipeline.advance(&outcome);
    }
    assert_eq!(
        seen[6..10],
        vec![
            format!("mkdir {P}/docs/share"),
            format!("run mv \"{O}/share/read me.txt\" \"{P}/docs/share/read me.txt\""),
            format!("mkdir {P}/docs/share/a b"),
            format!("run mv \"{O}/share/a b/c d\" \"{P}/docs/share/a b/c d\""),
        ]
    );
    assert_eq!(pipeline.owner("share/read me.txt"), Some(0));
    assert_eq!(pipeline.owner("share/a b/c d"), Some(0));
    assert_eq!(pipeline.owner("share/read"), None);
    assert_eq!(pipeline.owner("share/a"), None);
}
