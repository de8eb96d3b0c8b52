use pkgbuilder::action::{Action, Policy, Step, StepKind};
use pkgbuilder::descriptor::PkgFileSource;
use pkgbuilder::error::{Failure, FetchError, PipelineError};
use pkgbuilder::fetch::{classify, fetch, fetch_source, SourceKind};

fn source(location: &str) -> PkgFileSource {
    PkgFileSource {
        source: location.to_string(),
        git_ref: None,
        git_commit: None,
        destination: None,
    }
}

fn command_line(step: &Step) -> (Vec<String>, Option<String>) {
    match &step.action {
        Action::Run { command } => {
            assert!(command.env.is_empty());
            let mut line = vec![command.program.clone()];
            line.extend(command.args.iter().cloned());
            (line, command.cwd.clone())
        }
        other => panic!("not a command: {:?}", other),
    }
}

fn words(line: &[&str]) -> Vec<String> {
    line.iter().map(|w| w.to_string()).collect()
}

#[test]
fn kinds_by_suffix() {
    assert_eq!(classify("https://x/repo.git"), SourceKind::Git);
    assert_eq!(classify("https://x/a.tar.gz"), SourceKind::Tarball);
    assert_eq!(classify("https://x/a.tgz"), SourceKind::Tarball);
    assert_eq!(classify("https://x/a.tar.bz2"), SourceKind::Tarball);
    assert_eq!(classify("https://x/a.tar.xz"), SourceKind::Tarball);
    assert_eq!(classify("https://x/a.zip"), SourceKind::Zip);
}

#[test]
fn kinds_that_are_not_known() {
    assert_eq!(classify("https://x/a.gz"), SourceKind::Unknown);
    assert_eq!(classify("https://x/a.tar"), SourceKind::Unknown);
    assert_eq!(classify("https://x/repo"), SourceKind::Unknown);
    assert_eq!(classify(""), SourceKind::Unknown);
    assert_eq!(classify("git"), SourceKind::Unknown);
    assert_eq!(classify("https://x/repo.git/"), SourceKind::Unknown);
}

#[test]
fn only_the_end_of_the_location_counts() {
    assert_eq!(classify("https://x/a.zip.tar.gz"), SourceKind::Tarball);
    assert_eq!(classify("https://x/a.tar.gz.zip"), SourceKind::Zip);
    assert_eq!(classify("https://x/a.git.zip"), SourceKind::Zip);
    assert_eq!(classify("https://x/a.zip.git"), SourceKind::Git);
}

#[test]
fn a_repository_is_cloned_shallow() {
    let steps = fetch_source(&source("https://x/repo.git"), 0, "/b", false);
    assert_eq!(steps.len(), 1);
    assert_eq!(steps[0].kind, StepKind::Clone);
    assert_eq!(steps[0].unit, 0);
    assert_eq!(steps[0].on_failure, Policy::SkipUnit);
    assert_eq!(
        command_line(&steps[0]),
        (words(&["git", "clone", "--depth", "1", "https://x/repo.git", "/b"]), None)
    );
}

#[test]
fn a_ref_is_cloned_directly() {
    let mut repo = source("https://x/repo.git");
    repo.git_ref = Some("v2".to_string());
    repo.destination = Some("src".to_string());
    let steps = fetch_source(&repo, 3, "/b", false);
    assert_eq!(steps.len(), 1);
    assert_eq!(steps[0].unit, 3);
    assert_eq!(
        command_line(&steps[0]),
        (
            words(&["git", "clone", "--depth", "1", "--branch", "v2", "https://x/repo.git", "/b/src"]),
            None
        )
    );
}

#[test]
fn a_commit_takes_a_shallow_clone_and_a_reset() {
    let mut repo = source("https://x/repo.git");
    repo.git_commit = Some("abc123".to_string());
    repo.destination = Some("/src".to_string());
    let steps = fetch_source(&repo, 1, "/b", false);
    assert_eq!(steps.len(), 2);
    assert_eq!(steps[0].kind, StepKind::Clone);
    assert_eq!(
        command_line(&steps[0]),
        (words(&["git", "clone", "--depth", "1", "https://x/repo.git", "/b/src"]), None)
    );
    assert_eq!(steps[1].kind, StepKind::Reset);
    assert_eq!(steps[1].unit, 1);
    assert_eq!(steps[1].on_failure, Policy::SkipUnit);
    assert_eq!(
        command_line(&steps[1]),
        (words(&["git", "reset", "--hard", "abc123"]), Some("/b/src".to_string()))
    );
}

#[test]
fn a_ref_and_a_commit_together() {
    let mut repo = source("https://x/repo.git");
    repo.git_ref = Some("main".to_string());
    repo.git_commit = Some("abc123".to_string());
    let steps = fetch_source(&repo, 0, "/b", false);
    assert_eq!(steps.len(), 2);
    assert_eq!(
        command_line(&steps[0]),
        (
            words(&["git", "clone", "--depth", "1", "--branch", "main", "https://x/repo.git", "/b"]),
            None
        )
    );
    assert_eq!(
        command_line(&steps[1]),
        (words(&["git", "reset", "--hard", "abc123"]), Some("/b".to_string()))
    );
}

#[test]
fn a_tarball_is_downloaded_unpacked_and_discarded() {
    let mut tarball = source("https://x/a.tar.gz");
    tarball.destination = Some("vendor".to_string());
    let steps = fetch_source(&tarball, 2, "/b", false);
    assert_eq!(steps.len(), 4);
    assert_eq!(steps[0].kind, StepKind::Destination);
    assert!(matches!(&steps[0].action, Action::CreateDir { path } if path == "/b/vendor"));
    assert_eq!(steps[1].kind, StepKind::Download);
    assert_eq!(
        command_line(&steps[1]),
        (words(&["curl", "-L", "https://x/a.tar.gz", "-o", "/b/vendor.tmpdownload"]), None)
    );
    assert_eq!(steps[2].kind, StepKind::Extract);
    assert_eq!(
        command_line(&steps[2]),
        (words(&["tar", "-xvf", "/b/vendor.tmpdownload", "-C", "/b/vendor"]), None)
    );
    assert_eq!(steps[3].kind, StepKind::Discard);
    assert!(matches!(&steps[3].action, Action::RemoveFile { path } if path == "/b/vendor.tmpdownload"));
    for step in &steps[..3] {
        assert_eq!(step.on_failure, Policy::SkipUnit);
        assert_eq!(step.unit, 2);
    }
    assert_eq!(steps[3].on_failure, Policy::Continue);
    assert_eq!(steps[3].unit, 2);
}

#[test]
fn a_zip_archive_is_unzipped() {
    let steps = fetch_source(&source("https://x/a.zip"), 0, "/b", false);
    assert_eq!(steps.len(), 4);
    assert!(matches!(&steps[0].action, Action::CreateDir { path } if path == "/b"));
    assert_eq!(
        command_line(&steps[1]),
        (words(&["curl", "-L", "https://x/a.zip", "-o", "/b.tmpdownload"]), None)
    );
    assert_eq!(steps[2].kind, StepKind::Extract);
    assert_eq!(
        command_line(&steps[2]),
        (words(&["unzip", "-o", "/b.tmpdownload", "-d", "/b"]), None)
    );
    assert!(matches!(&steps[3].action, Action::RemoveFile { path } if path == "/b.tmpdownload"));
}

#[test]
fn an_unknown_source_has_no_steps() {
    assert!(fetch_source(&source("https://x/readme.txt"), 0, "/b", false).is_empty());
    assert!(fetch_source(&source("https://x/readme.txt"), 0, "/b", true).is_empty());
}

#[test]
fn sources_are_fetched_in_order() {
    let sources = vec![
        source("https://x/one.git"),
        source("https://x/readme.txt"),
        source("https://x/two.zip"),
        source("ftp://x/three"),
    ];
    let (steps, unknown) = fetch(&sources, "/b", false);
    let kinds: Vec<(StepKind, usize)> = steps.iter().map(|s| (s.kind, s.unit)).collect();
    assert_eq!(
        kinds,
        vec![
            (StepKind::Clone, 0),
            (StepKind::Destination, 2),
            (StepKind::Download, 2),
            (StepKind::Extract, 2),
            (StepKind::Discard, 2),
        ]
    );
    assert_eq!(
        unknown,
        vec![
            Failure { error: PipelineError::Fetch(FetchError::UnknownFormat), unit: 1, status: 0 },
            Failure { error: PipelineError::Fetch(FetchError::UnknownFormat), unit: 3, status: 0 },
        ]
    );
}

#[test]
fn no_sources_no_steps() {
    let (steps, unknown) = fetch(&Vec::new(), "/b", true);
    assert!(steps.is_empty());
    assert!(unknown.is_empty());
}

#[test]
fn where_fetching_is_strict_every_step_but_the_discard_is_fatal() {
    let mut repo = source("https://x/repo.git");
    repo.git_commit = Some("abc123".to_string());
    let steps = fetch_source(&repo, 0, "/b", true);
    assert_eq!(steps.len(), 2);
    assert_eq!(steps[0].on_failure, Policy::Abort);
    assert_eq!(steps[1].on_failure, Policy::Abort);
    let steps = fetch_source(&source("https://x/a.tar.xz"), 0, "/b", true);
    let policies: Vec<Policy> = steps.iter().map(|s| s.on_failure).collect();
    assert_eq!(policies, vec![Policy::Abort, Policy::Abort, Policy::Abort, Policy::Continue]);
}

#[test]
fn strictness_changes_nothing_but_the_policies() {
    let sources = vec![source("https://x/one.git"), source("https://x/two.zip")];
    let (lenient, _) = fetch(&sources, "/b", false);
    let (strict, _) = fetch(&sources, "/b", true);
    assert_eq!(lenient.len(), strict.len());
    for (a, b) in lenient.iter().zip(strict.iter()) {
        assert_eq!(a.action, b.action);
        assert_eq!(a.kind, b.kind);
        assert_eq!(a.unit, b.unit);
    }
}

#[test]
fn a_ref_and_a_commit_are_cloned_at_the_ref_and_then_reset() {
    let mut repo = source("https://x/r.git");
    repo.git_ref = Some("v1".to_string());
    repo.git_commit = Some("abc123".to_string());
    let steps = fetch_source(&repo, 0, "/tmp/pkgbuilder/build_foo_1.0_7", false);
    let kinds: Vec<StepKind> = steps.iter().map(|s| s.kind).collect();
    assert_eq!(kinds, vec![StepKind::Clone, StepKind::Reset]);
    assert_eq!(
        command_line(&steps[0]),
        (
            words(&[
                "git",
                "clone",
                "--depth",
                "1",
                "--branch",
                "v1",
                "https://x/r.git",
                "/tmp/pkgbuilder/build_foo_1.0_7"
            ]),
            None
        )
    );
    assert_eq!(
        command_line(&steps[1]),
        (
            words(&["git", "reset", "--hard", "abc123"]),
            Some("/tmp/pkgbuilder/build_foo_1.0_7".to_string())
        )
    );
}
