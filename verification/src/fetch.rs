//! The source fetcher: the steps that bring each source into the build
//! tree.
//!
//! How a source is fetched follows from the suffix of its location. A
//! repository is cloned, shallow, and reset where a commit is asked for
//! (which a shallow clone can follow only to its one commit); an archive
//! is downloaded beside its destination, unpacked into it, and the
//! download removed. A failure gives up the source it occurs in; whether
//! it also ends the run is for the caller to say.

use vstd::prelude::*;
use crate::action::{
    policy_for_unit,
    unit_policy,
    Action,
    ActionSpec,
    Command,
    CommandSpec,
    Policy,
    Step,
    StepKind,
    StepSpec,
};
use crate::descriptor::{PkgFileSource, SourceSpec};
use crate::error::{Failure, FetchError, PipelineError};
use crate::path::{join, join_path};
use crate::text::{append_deep, chain, ends_with, push_deep, push_text};

verus! {

/// The ways in which a source is fetched.
#[derive(Debug, Clone, Copy, PartialEq, Eq, Structural)]
pub enum SourceKind {
    /// A repository, to be cloned.
    Git,
    /// A tar archive, plain or compressed.
    Tarball,
    /// A zip archive.
    Zip,
    /// Nothing the fetcher knows how to handle.
    Unknown,
}

/// The kind of a source, by the suffix of its location.
pub open spec fn source_kind(source: Seq<char>) -> SourceKind {
    if ".git"@.is_suffix_of(source) {
        SourceKind::Git
    } else if ".tar.gz"@.is_suffix_of(source) || ".tgz"@.is_suffix_of(source)
        || ".tar.bz2"@.is_suffix_of(source) || ".tar.xz"@.is_suffix_of(source) {
        SourceKind::Tarball
    } else if ".zip"@.is_suffix_of(source) {
        SourceKind::Zip
    } else {
        SourceKind::Unknown
    }
}

/// Tells how `source` is fetched.
pub fn classify(source: &str) -> (kind: SourceKind)
    ensures
        kind == source_kind(source@),
{
    if ends_with(source, ".git") {
        SourceKind::Git
    } else if ends_with(source, ".tar.gz") || ends_with(source, ".tgz") || ends_with(
        source,
        ".tar.bz2",
    ) || ends_with(source, ".tar.xz") {
        SourceKind::Tarball
    } else if ends_with(source, ".zip") {
        SourceKind::Zip
    } else {
        SourceKind::Unknown
    }
}

/// Where a source is put: its destination below the build tree, or the
/// build tree itself when it names none.
pub open spec fn destination_of(source: SourceSpec, build_dir: Seq<char>) -> Seq<char> {
    match source.destination {
        Some(destination) => join(build_dir, destination),
        None => build_dir,
    }
}

/// Where an archive is downloaded to before it is unpacked: beside its
/// destination.
pub open spec fn download_of(destination: Seq<char>) -> Seq<char> {
    destination + ".tmpdownload"@
}

/// `git clone`, into `destination`. The clone is always shallow, of depth
/// one; a ref is cloned directly.
///
/// A commit that is asked for is reset to after the clone. A shallow clone
/// holds one commit only, the tip of the ref or of the default branch: the
/// reset reaches a commit only where it is that one, and fails for every
/// other, which gives up the source.
pub open spec fn clone_command(source: SourceSpec, destination: Seq<char>) -> CommandSpec {
    let depth = seq!["--depth"@, "1"@];
    let branch = match source.git_ref {
        Some(git_ref) => seq!["--branch"@, git_ref],
        None => Seq::empty(),
    };
    CommandSpec {
        program: "git"@,
        args: seq!["clone"@] + depth + branch + seq![source.source, destination],
        cwd: None,
        env: Seq::empty(),
    }
}

/// `git reset --hard`, to `commit`, in the clone.
pub open spec fn reset_command(commit: Seq<char>, destination: Seq<char>) -> CommandSpec {
    CommandSpec {
        program: "git"@,
        args: seq!["reset"@, "--hard"@, commit],
        cwd: Some(destination),
        env: Seq::empty(),
    }
}

/// `curl`, following redirections, from `source` to the file `download`.
pub open spec fn download_command(source: Seq<char>, download: Seq<char>) -> CommandSpec {
    CommandSpec {
        program: "curl"@,
        args: seq!["-L"@, source, "-o"@, download],
        cwd: None,
        env: Seq::empty(),
    }
}

/// `tar`, unpacking `download` into `destination`.
pub open spec fn untar_command(download: Seq<char>, destination: Seq<char>) -> CommandSpec {
    CommandSpec {
        program: "tar"@,
        args: seq!["-xvf"@, download, "-C"@, destination],
        cwd: None,
        env: Seq::empty(),
    }
}

/// `unzip`, unpacking `download` into `destination` over what is there.
pub open spec fn unzip_command(download: Seq<char>, destination: Seq<char>) -> CommandSpec {
    CommandSpec {
        program: "unzip"@,
        args: seq!["-o"@, download, "-d"@, destination],
        cwd: None,
        env: Seq::empty(),
    }
}

/// A step of the fetcher for source number `unit`. A download is removed
/// whatever became of it; a failure of any other step gives up the source,
/// and ends the run where `fatal` says so.
pub open spec fn fetch_step(
    action: ActionSpec,
    kind: StepKind,
    unit: usize,
    fatal: bool,
) -> StepSpec {
    StepSpec {
        action,
        kind,
        unit,
        on_failure: if kind == StepKind::Discard {
            Policy::Continue
        } else {
            unit_policy(fatal)
        },
    }
}

/// The steps that fetch a repository.
pub open spec fn git_steps(
    source: SourceSpec,
    unit: usize,
    destination: Seq<char>,
    fatal: bool,
) -> Seq<StepSpec> {
    let clone = fetch_step(
        ActionSpec::Run { command: clone_command(source, destination) },
        StepKind::Clone,
        unit,
        fatal,
    );
    match source.git_commit {
        Some(commit) => seq![
            clone,
            fetch_step(
                ActionSpec::Run { command: reset_command(commit, destination) },
                StepKind::Reset,
                unit,
                fatal,
            ),
        ],
        None => seq![clone],
    }
}

/// The steps that fetch an archive; `unpack` is the command that unpacks
/// it.
pub open spec fn archive_steps(
    source: SourceSpec,
    unit: usize,
    destination: Seq<char>,
    unpack: CommandSpec,
    fatal: bool,
) -> Seq<StepSpec> {
    seq![
        fetch_step(
            ActionSpec::CreateDir { path: destination },
            StepKind::Destination,
            unit,
            fatal,
        ),
        fetch_step(
            ActionSpec::Run {
                command: download_command(source.source, download_of(destination)),
            },
            StepKind::Download,
            unit,
            fatal,
        ),
        fetch_step(ActionSpec::Run { command: unpack }, StepKind::Extract, unit, fatal),
        fetch_step(
            ActionSpec::RemoveFile { path: download_of(destination) },
            StepKind::Discard,
            unit,
            fatal,
        ),
    ]
}

/// The steps that fetch source number `unit`. A source of unknown kind has
/// none.
pub open spec fn source_steps(
    source: SourceSpec,
    unit: usize,
    build_dir: Seq<char>,
    fatal: bool,
) -> Seq<StepSpec> {
    let destination = destination_of(source, build_dir);
    match source_kind(source.source) {
        SourceKind::Git => git_steps(source, unit, destination, fatal),
        SourceKind::Tarball => archive_steps(
            source,
            unit,
            destination,
            untar_command(download_of(destination), destination),
            fatal,
        ),
        SourceKind::Zip => archive_steps(
            source,
            unit,
            destination,
            unzip_command(download_of(destination), destination),
            fatal,
        ),
        SourceKind::Unknown => Seq::empty(),
    }
}

/// The steps that fetch all sources, in the order of the descriptor.
pub open spec fn fetch_plan(sources: Seq<SourceSpec>, build_dir: Seq<char>, fatal: bool) -> Seq<
    StepSpec,
>
    decreases sources.len(),
{
    if sources.len() == 0 {
        Seq::empty()
    } else {
        fetch_plan(sources.drop_last(), build_dir, fatal) + source_steps(
            sources.last(),
            (sources.len() - 1) as usize,
            build_dir,
            fatal,
        )
    }
}

/// The failure that stands for a source of unknown kind.
pub open spec fn unknown_format(unit: usize) -> Failure {
    Failure { error: PipelineError::Fetch(FetchError::UnknownFormat), unit, status: 0 }
}

/// One failure for each source of unknown kind, in the order of the
/// descriptor.
pub open spec fn unknown_sources(sources: Seq<SourceSpec>) -> Seq<Failure>
    decreases sources.len(),
{
    if sources.len() == 0 {
        Seq::empty()
    } else {
        let before = unknown_sources(sources.drop_last());
        if source_kind(sources.last().source) == SourceKind::Unknown {
            before.push(unknown_format((sources.len() - 1) as usize))
        } else {
            before
        }
    }
}

fn command(program: &str, args: Vec<String>, cwd: Option<String>) -> (c: Command)
    ensures
        c@ == (CommandSpec {
            program: program@,
            args: args.deep_view(),
            cwd: cwd.deep_view(),
            env: Seq::empty(),
        }),
{
    let env: Vec<(String, String)> = Vec::new();
    assert(env.deep_view() =~= Seq::empty());
    Command { program: program.to_owned(), args, cwd, env }
}

fn step(action: Action, kind: StepKind, unit: usize, fatal: bool) -> (s: Step)
    ensures
        s@ == fetch_step(action@, kind, unit, fatal),
{
    let on_failure = match kind {
        StepKind::Discard => Policy::Continue,
        _ => policy_for_unit(fatal),
    };
    Step { action, kind, unit, on_failure }
}

fn git(source: &PkgFileSource, unit: usize, destination: &str, fatal: bool) -> (steps: Vec<Step>)
    ensures
        steps.deep_view() == git_steps(source@, unit, destination@, fatal),
{
    let mut args: Vec<String> = Vec::new();
    assert(args.deep_view() =~= Seq::empty());
    push_text(&mut args, "clone");
    push_text(&mut args, "--depth");
    push_text(&mut args, "1");
    match &source.git_ref {
        Some(git_ref) => {
            push_text(&mut args, "--branch");
            push_text(&mut args, git_ref.as_str());
        },
        None => {},
    }
    push_text(&mut args, source.source.as_str());
    push_text(&mut args, destination);
    assert(args.deep_view() =~= clone_command(source@, destination@).args);
    let mut steps: Vec<Step> = Vec::new();
    assert(steps.deep_view() =~= Seq::empty());
    push_deep(
        &mut steps,
        step(Action::Run { command: command("git", args, None) }, StepKind::Clone, unit, fatal),
    );
    match &source.git_commit {
        Some(commit) => {
            let mut args: Vec<String> = Vec::new();
            assert(args.deep_view() =~= Seq::empty());
            push_text(&mut args, "reset");
            push_text(&mut args, "--hard");
            push_text(&mut args, commit.as_str());
            assert(args.deep_view() =~= reset_command(commit@, destination@).args);
            push_deep(
                &mut steps,
                step(
                    Action::Run { command: command("git", args, Some(destination.to_owned())) },
                    StepKind::Reset,
                    unit,
                    fatal,
                ),
            );
        },
        None => {},
    }
    assert(steps.deep_view() =~= git_steps(source@, unit, destination@, fatal));
    steps
}

fn archive(
    source: &PkgFileSource,
    unit: usize,
    destination: &str,
    zip: bool,
    fatal: bool,
) -> (steps: Vec<Step>)
    ensures
        steps.deep_view() == archive_steps(
            source@,
            unit,
            destination@,
            if zip {
                unzip_command(download_of(destination@), destination@)
            } else {
                untar_command(download_of(destination@), destination@)
            },
            fatal,
        ),
{
    let download = chain(destination, ".tmpdownload");
    let mut fetch: Vec<String> = Vec::new();
    assert(fetch.deep_view() =~= Seq::empty());
    push_text(&mut fetch, "-L");
    push_text(&mut fetch, source.source.as_str());
    push_text(&mut fetch, "-o");
    push_text(&mut fetch, download.as_str());
    assert(fetch.deep_view() =~= download_command(source@.source, download@).args);
    let mut unpack: Vec<String> = Vec::new();
    assert(unpack.deep_view() =~= Seq::empty());
    let program = if zip {
        push_text(&mut unpack, "-o");
        push_text(&mut unpack, download.as_str());
        push_text(&mut unpack, "-d");
        push_text(&mut unpack, destination);
        assert(unpack.deep_view() =~= unzip_command(download@, destination@).args);
        "unzip"
    } else {
        push_text(&mut unpack, "-xvf");
        push_text(&mut unpack, download.as_str());
        push_text(&mut unpack, "-C");
        push_text(&mut unpack, destination);
        assert(unpack.deep_view() =~= untar_command(download@, destination@).args);
        "tar"
    };
    let mut steps: Vec<Step> = Vec::new();
    assert(steps.deep_view() =~= Seq::empty());
    push_deep(
        &mut steps,
        step(
            Action::CreateDir { path: destination.to_owned() },
            StepKind::Destination,
            unit,
            fatal,
        ),
    );
    push_deep(
        &mut steps,
        step(
            Action::Run { command: command("curl", fetch, None) },
            StepKind::Download,
            unit,
            fatal,
        ),
    );
    push_deep(
        &mut steps,
        step(
            Action::Run { command: command(program, unpack, None) },
            StepKind::Extract,
            unit,
            fatal,
        ),
    );
    push_deep(
        &mut steps,
        step(Action::RemoveFile { path: download }, StepKind::Discard, unit, fatal),
    );
    assert(steps.deep_view() =~= archive_steps(
        source@,
        unit,
        destination@,
        if zip {
            unzip_command(download_of(destination@), destination@)
        } else {
            untar_command(download_of(destination@), destination@)
        },
        fatal,
    ));
    steps
}

/// The steps that fetch `source`, the source number `unit`, into the build
/// tree at `build_dir`. A failure ends the run where `fatal` says so.
pub fn fetch_source(source: &PkgFileSource, unit: usize, build_dir: &str, fatal: bool) -> (steps:
    Vec<Step>)
    ensures
        steps.deep_view() == source_steps(source@, unit, build_dir@, fatal),
{
    let destination = match &source.destination {
        Some(destination) => join_path(build_dir, destination.as_str()),
        None => build_dir.to_owned(),
    };
    match classify(source.source.as_str()) {
        SourceKind::Git => git(source, unit, destination.as_str(), fatal),
        SourceKind::Tarball => archive(source, unit, destination.as_str(), false, fatal),
        SourceKind::Zip => archive(source, unit, destination.as_str(), true, fatal),
        SourceKind::Unknown => {
            let steps: Vec<Step> = Vec::new();
            assert(steps.deep_view() =~= Seq::empty());
            steps
        },
    }
}

/// The steps that fetch all of `sources` into the build tree at
/// `build_dir`, and one failure for each source of unknown kind. A failure
/// of a step ends the run where `fatal` says so.
pub fn fetch(sources: &Vec<PkgFileSource>, build_dir: &str, fatal: bool) -> (r: (
    Vec<Step>,
    Vec<Failure>,
))
    ensures
        r.0.deep_view() == fetch_plan(sources.deep_view(), build_dir@, fatal),
        r.1@ == unknown_sources(sources.deep_view()),
{
    let mut steps: Vec<Step> = Vec::new();
    let mut unknown: Vec<Failure> = Vec::new();
    let ghost all = sources.deep_view();
    assert(steps.deep_view() =~= Seq::empty());
    assert(all.take(0) =~= Seq::empty());
    let mut i: usize = 0;
    while i < sources.len()
        invariant
            i <= sources.len(),
            all == sources.deep_view(),
            steps.deep_view() == fetch_plan(all.take(i as int), build_dir@, fatal),
            unknown@ == unknown_sources(all.take(i as int)),
        decreases sources.len() - i,
    {
        let source = &sources[i];
        proof {
            let next = all.take(i + 1);
            assert(next.drop_last() =~= all.take(i as int));
            assert(next.last() == source@);
        }
        if classify(source.source.as_str()) == SourceKind::Unknown {
            unknown.push(
                Failure {
                    error: PipelineError::Fetch(FetchError::UnknownFormat),
                    unit: i,
                    status: 0,
                },
            );
        }
        append_deep(&mut steps, fetch_source(source, i, build_dir, fatal));
        i += 1;
    }
    assert(all.take(i as int) =~= all);
    (steps, unknown)
}

} // verus!
