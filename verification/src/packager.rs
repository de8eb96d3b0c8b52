//! The artifact packager: the steps that turn the output tree into one
//! archive for each package.
//!
//! Each subpackage, in the order of declaration, gets a tree of its own
//! below the package directory. Its patterns are expanded against the
//! output tree, what they match is moved into its tree under the same
//! relative path, the manifest is written beside it, and the tree is
//! archived and the archive copied to the output directory. What is left in
//! the output tree when all subpackages had their turn is the main package,
//! and is archived the same way.
//!
//! The shell that expands a pattern prints each match with a separator
//! behind it that no path can hold, so a match is listed under its own name
//! whatever characters the name holds.

use vstd::prelude::*;
use crate::action::{
    policy_for_unit,
    unit_policy,
    Action,
    ActionSpec,
    Command,
    CommandSpec,
    Policy,
    Step,
    StepKind,
    StepSpec,
};
use crate::descriptor::{Descriptor, PkgFile, PkgFileSubPackage, SubpackageSpec};
use crate::path::{dir_of, directory_of, is_under, join, join_path, relative, relative_to};
use crate::text::{
    append_deep,
    chain,
    chain3,
    chain4,
    chars_of,
    fields,
    push_deep,
    push_text,
    split_fields,
    string_of,
};
use crate::workspace::{Paths, WorkspacePaths};

verus! {

/// The file that holds the descriptor inside a package.
pub const MANIFEST_NAME: &'static str = "package.toml";

/// What separates the paths that an expansion prints: the one character
/// that no path can hold.
pub const SEPARATOR: char = '\0';

/// What the shell is told before a pattern is handed to it: a pattern that
/// matches nothing expands to nothing, hidden files match, `**` matches
/// through directories, and every match is printed as it is, with a
/// `SEPARATOR` behind it.
pub const EXPAND_PREFIX: &'static str = "shopt -s nullglob dotglob globstar; printf '%s\\0' ";

/// The tree of the package called `name`.
pub open spec fn package_tree(paths: Paths, name: Seq<char>) -> Seq<char> {
    paths.package_dir + "/"@ + name
}

/// Where the archive of the package called `name` is created.
pub open spec fn scratch_archive(paths: Paths, name: Seq<char>) -> Seq<char> {
    paths.package_dir + "/"@ + name + ".tar.gz"@
}

/// Where the archive of the package called `name` is wanted.
pub open spec fn delivered_archive(output: Seq<char>, name: Seq<char>) -> Seq<char> {
    output + "/"@ + name + ".tar.gz"@
}

/// Where the manifest stands in the package tree `tree`.
pub open spec fn manifest_in(tree: Seq<char>) -> Seq<char> {
    tree + "/"@ + MANIFEST_NAME@
}

/// The shell that expands `pattern` against the output tree and prints what
/// it matches, one path after the other, each with a `SEPARATOR` behind
/// it.
pub open spec fn expand_command(pattern: Seq<char>, paths: Paths) -> CommandSpec {
    CommandSpec {
        program: "bash"@,
        args: seq!["-c"@, EXPAND_PREFIX@ + join(paths.out_dir, pattern)],
        cwd: Some(paths.build_dir),
        env: Seq::empty(),
    }
}

/// `tar`, creating the compressed archive `archive` of all that `tree`
/// holds.
pub open spec fn archive_command(tree: Seq<char>, archive: Seq<char>) -> CommandSpec {
    CommandSpec {
        program: "tar"@,
        args: seq!["-czf"@, archive, "./"@],
        cwd: Some(tree),
        env: Seq::empty(),
    }
}

/// `mv`, from `from` to `to`.
pub open spec fn move_command(from: Seq<char>, to: Seq<char>) -> CommandSpec {
    CommandSpec { program: "mv"@, args: seq![from, to], cwd: None, env: Seq::empty() }
}

/// The step that expands one pattern of subpackage number `unit`.
pub open spec fn expand_step(
    pattern: Seq<char>,
    unit: usize,
    paths: Paths,
    fatal: bool,
) -> StepSpec {
    StepSpec {
        action: ActionSpec::Run { command: expand_command(pattern, paths) },
        kind: StepKind::Expand,
        unit,
        on_failure: unit_policy(fatal),
    }
}

/// The steps that package subpackage number `unit`.
///
/// A tree that cannot be made, a pattern that cannot be expanded, or an
/// archive that cannot be created, gives up the subpackage, and ends the
/// run where `fatal` says so. A manifest that cannot be written, or an
/// archive that cannot be copied out, always ends the run. The tree is
/// removed even when the subpackage was given up.
pub open spec fn subpackage_steps(
    subpackage: SubpackageSpec,
    unit: usize,
    paths: Paths,
    manifest: Seq<char>,
    output: Seq<char>,
    fatal: bool,
) -> Seq<StepSpec> {
    let tree = package_tree(paths, subpackage.name);
    let archive = scratch_archive(paths, subpackage.name);
    seq![
        StepSpec {
            action: ActionSpec::CreateDir { path: tree },
            kind: StepKind::Subdir,
            unit,
            on_failure: unit_policy(fatal),
        },
    ] + Seq::new(
        subpackage.files.len(),
        |i: int| expand_step(subpackage.files[i], unit, paths, fatal),
    ) + seq![
        StepSpec {
            action: ActionSpec::CopyFile { from: manifest, to: manifest_in(tree) },
            kind: StepKind::Manifest,
            unit,
            on_failure: Policy::Abort,
        },
        StepSpec {
            action: ActionSpec::Run { command: archive_command(tree, archive) },
            kind: StepKind::Archive,
            unit,
            on_failure: unit_policy(fatal),
        },
        StepSpec {
            action: ActionSpec::CopyFile {
                from: archive,
                to: delivered_archive(output, subpackage.name),
            },
            kind: StepKind::Deliver,
            unit,
            on_failure: Policy::Abort,
        },
        StepSpec {
            action: ActionSpec::RemoveDir { path: tree },
            kind: StepKind::Release,
            unit,
            on_failure: Policy::Continue,
        },
    ]
}

/// The steps that package all subpackages, in the order of declaration.
pub open spec fn subpackages_plan(
    subpackages: Seq<SubpackageSpec>,
    paths: Paths,
    manifest: Seq<char>,
    output: Seq<char>,
    fatal: bool,
) -> Seq<StepSpec>
    decreases subpackages.len(),
{
    if subpackages.len() == 0 {
        Seq::empty()
    } else {
        subpackages_plan(subpackages.drop_last(), paths, manifest, output, fatal)
            + subpackage_steps(
            subpackages.last(),
            (subpackages.len() - 1) as usize,
            paths,
            manifest,
            output,
            fatal,
        )
    }
}

/// The steps that package what the subpackages left: the manifest is
/// written into the output tree, the output tree becomes the tree of the
/// main package, and that tree is archived and the archive copied out. A
/// failure of any of them is fatal.
pub open spec fn main_steps(
    name: Seq<char>,
    unit: usize,
    paths: Paths,
    manifest: Seq<char>,
    output: Seq<char>,
) -> Seq<StepSpec> {
    let tree = package_tree(paths, name);
    let archive = scratch_archive(paths, name);
    seq![
        StepSpec {
            action: ActionSpec::CopyFile { from: manifest, to: manifest_in(paths.out_dir) },
            kind: StepKind::Manifest,
            unit,
            on_failure: Policy::Abort,
        },
        StepSpec {
            action: ActionSpec::Run { command: move_command(paths.out_dir, tree) },
            kind: StepKind::Gather,
            unit,
            on_failure: Policy::Abort,
        },
        StepSpec {
            action: ActionSpec::Run { command: archive_command(tree, archive) },
            kind: StepKind::Archive,
            unit,
            on_failure: Policy::Abort,
        },
        StepSpec {
            action: ActionSpec::CopyFile { from: archive, to: delivered_archive(output, name) },
            kind: StepKind::Deliver,
            unit,
            on_failure: Policy::Abort,
        },
    ]
}

/// The packaging stage: the output directory is created, then come the
/// subpackages, then the main package. A subpackage that cannot be packaged
/// ends the run where `fatal` says so.
pub open spec fn package_plan(
    descriptor: Descriptor,
    paths: Paths,
    manifest: Seq<char>,
    output: Seq<char>,
    fatal: bool,
) -> Seq<StepSpec> {
    seq![
        StepSpec {
            action: ActionSpec::CreateDir { path: output },
            kind: StepKind::Output,
            unit: 0,
            on_failure: Policy::Abort,
        },
    ] + subpackages_plan(descriptor.subpackages, paths, manifest, output, fatal) + main_steps(
        descriptor.name,
        descriptor.subpackages.len() as usize,
        paths,
        manifest,
        output,
    )
}

/// The records that an expansion printed: the fields of its output between
/// one `SEPARATOR` and the next. A path is a record whatever characters it
/// holds, white space among them.
pub open spec fn records(stdout: Seq<char>) -> Seq<Seq<char>> {
    fields(stdout, SEPARATOR)
}

/// What an expansion lists, relative to the output tree: of the records it
/// printed, those that lie below `out_dir`, each without `out_dir` in front.
pub open spec fn listing(out_dir: Seq<char>, printed: Seq<Seq<char>>) -> Seq<Seq<char>>
    decreases printed.len(),
{
    if printed.len() == 0 {
        Seq::empty()
    } else {
        let before = listing(out_dir, printed.drop_last());
        if is_under(out_dir, printed.last()) {
            before.push(relative(out_dir, printed.last()))
        } else {
            before
        }
    }
}

/// What follows when a file cannot be moved, given what follows when the
/// expansion that listed it fails: where that ends the run, this does too;
/// elsewhere the failure is recorded and holds up nothing.
pub open spec fn move_policy(expansion: Policy) -> Policy {
    if expansion == Policy::Abort {
        Policy::Abort
    } else {
        Policy::Continue
    }
}

/// The two steps that move the path `rel` of the output tree into `tree`:
/// the directory it goes into is created, and then it is moved there, to
/// the same path relative to `tree` that it had relative to the output
/// tree.
pub open spec fn move_steps(
    rel: Seq<char>,
    unit: usize,
    out_dir: Seq<char>,
    tree: Seq<char>,
    on_failure: Policy,
) -> Seq<StepSpec> {
    seq![
        StepSpec {
            action: ActionSpec::CreateDir { path: tree + "/"@ + dir_of(rel) },
            kind: StepKind::Parent,
            unit,
            on_failure,
        },
        StepSpec {
            action: ActionSpec::Run {
                command: move_command(out_dir + "/"@ + rel, tree + "/"@ + rel),
            },
            kind: StepKind::Move,
            unit,
            on_failure,
        },
    ]
}

/// The steps that move each of `got` into `tree`, in order.
pub open spec fn collect_steps(
    got: Seq<Seq<char>>,
    unit: usize,
    out_dir: Seq<char>,
    tree: Seq<char>,
    on_failure: Policy,
) -> Seq<StepSpec>
    decreases got.len(),
{
    if got.len() == 0 {
        Seq::empty()
    } else {
        collect_steps(got.drop_last(), unit, out_dir, tree, on_failure) + move_steps(
            got.last(),
            unit,
            out_dir,
            tree,
            on_failure,
        )
    }
}

fn run(program: &str, args: Vec<String>, cwd: Option<String>) -> (action: Action)
    ensures
        action@ == (ActionSpec::Run {
            command: CommandSpec {
                program: program@,
                args: args.deep_view(),
                cwd: cwd.deep_view(),
                env: Seq::empty(),
            },
        }),
{
    let env: Vec<(String, String)> = Vec::new();
    assert(env.deep_view() =~= Seq::empty());
    Action::Run { command: Command { program: program.to_owned(), args, cwd, env } }
}

fn archive_tree(tree: &str, archive: &str) -> (action: Action)
    ensures
        action@ == (ActionSpec::Run { command: archive_command(tree@, archive@) }),
{
    let mut args: Vec<String> = Vec::new();
    assert(args.deep_view() =~= Seq::empty());
    push_text(&mut args, "-czf");
    push_text(&mut args, archive);
    push_text(&mut args, "./");
    assert(args.deep_view() =~= archive_command(tree@, archive@).args);
    run("tar", args, Some(tree.to_owned()))
}

fn move_to(from: &str, to: &str) -> (action: Action)
    ensures
        action@ == (ActionSpec::Run { command: move_command(from@, to@) }),
{
    let mut args: Vec<String> = Vec::new();
    assert(args.deep_view() =~= Seq::empty());
    push_text(&mut args, from);
    push_text(&mut args, to);
    assert(args.deep_view() =~= move_command(from@, to@).args);
    run("mv", args, None)
}

fn expand(pattern: &str, unit: usize, paths: &WorkspacePaths, fatal: bool) -> (step: Step)
    ensures
        step@ == expand_step(pattern@, unit, paths@, fatal),
{
    let glob = join_path(paths.out_dir.as_str(), pattern);
    let mut args: Vec<String> = Vec::new();
    assert(args.deep_view() =~= Seq::empty());
    push_text(&mut args, "-c");
    let script = chain(EXPAND_PREFIX, glob.as_str());
    push_text(&mut args, script.as_str());
    assert(args.deep_view() =~= expand_command(pattern@, paths@).args);
    Step {
        action: run("bash", args, Some(paths.build_dir.clone())),
        kind: StepKind::Expand,
        unit,
        on_failure: policy_for_unit(fatal),
    }
}

/// The steps that package `subpackage`, the subpackage number `unit`. A
/// subpackage that cannot be packaged ends the run where `fatal` says so.
pub fn package_subpackage(
    subpackage: &PkgFileSubPackage,
    unit: usize,
    paths: &WorkspacePaths,
    manifest: &str,
    output: &str,
    fatal: bool,
) -> (steps: Vec<Step>)
    ensures
        steps.deep_view() == subpackage_steps(
            subpackage@,
            unit,
            paths@,
            manifest@,
            output@,
            fatal,
        ),
{
    let name = subpackage.name.as_str();
    let tree = chain3(paths.package_dir.as_str(), "/", name);
    let scratch = chain4(paths.package_dir.as_str(), "/", name, ".tar.gz");
    let delivered = chain4(output, "/", name, ".tar.gz");
    let mut steps: Vec<Step> = Vec::new();
    assert(steps.deep_view() =~= Seq::empty());
    push_deep(
        &mut steps,
        Step {
            action: Action::CreateDir { path: tree.clone() },
            kind: StepKind::Subdir,
            unit,
            on_failure: policy_for_unit(fatal),
        },
    );
    let ghost first = steps.deep_view();
    let ghost files = subpackage@.files;
    let mut i: usize = 0;
    while i < subpackage.files.len()
        invariant
            i <= subpackage.files.len(),
            files == subpackage.files.deep_view(),
            steps.deep_view() == first + Seq::new(
                i as nat,
                |k: int| expand_step(files[k], unit, paths@, fatal),
            ),
        decreases subpackage.files.len() - i,
    {
        let ghost before = steps.deep_view();
        push_deep(&mut steps, expand(subpackage.files[i].as_str(), unit, paths, fatal));
        assert(steps.deep_view() =~= first + Seq::new(
            (i + 1) as nat,
            |k: int| expand_step(files[k], unit, paths@, fatal),
        ));
        i += 1;
    }
    push_deep(
        &mut steps,
        Step {
            action: Action::CopyFile {
                from: manifest.to_owned(),
                to: chain3(tree.as_str(), "/", MANIFEST_NAME),
            },
            kind: StepKind::Manifest,
            unit,
            on_failure: Policy::Abort,
        },
    );
    push_deep(
        &mut steps,
        Step {
            action: archive_tree(tree.as_str(), scratch.as_str()),
            kind: StepKind::Archive,
            unit,
            on_failure: policy_for_unit(fatal),
        },
    );
    push_deep(
        &mut steps,
        Step {
            action: Action::CopyFile { from: scratch, to: delivered },
            kind: StepKind::Deliver,
            unit,
            on_failure: Policy::Abort,
        },
    );
    push_deep(
        &mut steps,
        Step {
            action: Action::RemoveDir { path: tree },
            kind: StepKind::Release,
            unit,
            on_failure: Policy::Continue,
        },
    );
    assert(steps.deep_view() =~= subpackage_steps(
        subpackage@,
        unit,
        paths@,
        manifest@,
        output@,
        fatal,
    ));
    steps
}

/// The steps that package what the subpackages left, as the package called
/// `name`.
pub fn package_main(
    name: &str,
    unit: usize,
    paths: &WorkspacePaths,
    manifest: &str,
    output: &str,
) -> (steps: Vec<Step>)
    ensures
        steps.deep_view() == main_steps(name@, unit, paths@, manifest@, output@),
{
    let tree = chain3(paths.package_dir.as_str(), "/", name);
    let scratch = chain4(paths.package_dir.as_str(), "/", name, ".tar.gz");
    let delivered = chain4(output, "/", name, ".tar.gz");
    let mut steps: Vec<Step> = Vec::new();
    assert(steps.deep_view() =~= Seq::empty());
    push_deep(
        &mut steps,
        Step {
            action: Action::CopyFile {
                from: manifest.to_owned(),
                to: chain3(paths.out_dir.as_str(), "/", MANIFEST_NAME),
            },
            kind: StepKind::Manifest,
            unit,
            on_failure: Policy::Abort,
        },
    );
    push_deep(
        &mut steps,
        Step {
            action: move_to(paths.out_dir.as_str(), tree.as_str()),
            kind: StepKind::Gather,
            unit,
            on_failure: Policy::Abort,
        },
    );
    push_deep(
        &mut steps,
        Step {
            action: archive_tree(tree.as_str(), scratch.as_str()),
            kind: StepKind::Archive,
            unit,
            on_failure: Policy::Abort,
        },
    );
    push_deep(
        &mut steps,
        Step {
            action: Action::CopyFile { from: scratch, to: delivered },
            kind: StepKind::Deliver,
            unit,
            on_failure: Policy::Abort,
        },
    );
    assert(steps.deep_view() =~= main_steps(name@, unit, paths@, manifest@, output@));
    steps
}

/// The steps of the packaging stage: the archives of `pkgfile` are made
/// from the output tree of `paths`, each holds a copy of the file
/// `manifest`, and each is copied into the directory `output`. A subpackage
/// that cannot be packaged ends the run where `fatal` says so.
pub fn package(
    pkgfile: &PkgFile,
    paths: &WorkspacePaths,
    manifest: &str,
    output: &str,
    fatal: bool,
) -> (steps: Vec<Step>)
    ensures
        steps.deep_view() == package_plan(pkgfile@, paths@, manifest@, output@, fatal),
{
    let mut steps: Vec<Step> = Vec::new();
    assert(steps.deep_view() =~= Seq::empty());
    push_deep(
        &mut steps,
        Step {
            action: Action::CreateDir { path: output.to_owned() },
            kind: StepKind::Output,
            unit: 0,
            on_failure: Policy::Abort,
        },
    );
    let ghost first = steps.deep_view();
    let ghost all = pkgfile@.subpackages;
    let mut count: usize = 0;
    assert(all.take(0) =~= Seq::empty());
    assert(first + Seq::<StepSpec>::empty() =~= first);
    match &pkgfile.subpackage {
        Some(subpackages) => {
            let mut i: usize = 0;
            while i < subpackages.len()
                invariant
                    i <= subpackages.len(),
                    all == subpackages.deep_view(),
                    steps.deep_view() == first + subpackages_plan(
                        all.take(i as int),
                        paths@,
                        manifest@,
                        output@,
                        fatal,
                    ),
                decreases subpackages.len() - i,
            {
                let subpackage = &subpackages[i];
                let ghost before = subpackages_plan(
                    all.take(i as int),
                    paths@,
                    manifest@,
                    output@,
                    fatal,
                );
                proof {
                    let next = all.take(i + 1);
                    assert(next.drop_last() =~= all.take(i as int));
                    assert(next.last() == subpackage@);
                }
                let more = package_subpackage(subpackage, i, paths, manifest, output, fatal);
                assert((first + before) + more.deep_view() =~= first + (before
                    + more.deep_view()));
                append_deep(&mut steps, more);
                i += 1;
            }
            assert(all.take(i as int) =~= all);
            count = i;
        },
        None => {},
    }
    append_deep(
        &mut steps,
        package_main(pkgfile.package.name.as_str(), count, paths, manifest, output),
    );
    steps
}

/// What the expansion that printed `stdout` lists, relative to `out_dir`.
pub fn list_relative(out_dir: &str, stdout: &str) -> (listed: Vec<Vec<char>>)
    ensures
        listed.deep_view() == listing(out_dir@, records(stdout@)),
{
    let base = chars_of(out_dir);
    let printed = split_fields(stdout, SEPARATOR);
    let ghost all = printed.deep_view();
    let mut listed: Vec<Vec<char>> = Vec::new();
    assert(listed.deep_view() =~= Seq::<Seq<char>>::empty());
    assert(all.take(0) =~= Seq::<Seq<char>>::empty());
    let mut i: usize = 0;
    while i < printed.len()
        invariant
            i <= printed.len(),
            base@ == out_dir@,
            all == printed.deep_view(),
            listed.deep_view() == listing(out_dir@, all.take(i as int)),
        decreases printed.len() - i,
    {
        let record = chars_of(printed[i].as_str());
        proof {
            let next = all.take(i + 1);
            assert(next.drop_last() =~= all.take(i as int));
            assert(next.last() == record@);
        }
        match relative_to(&base, &record) {
            Some(rel) => {
                let ghost before = listed.deep_view();
                let ghost r = rel.deep_view();
                assert(r =~= rel@);
                listed.push(rel);
                assert(listed.deep_view() =~= before.push(r));
            },
            None => {},
        }
        i += 1;
    }
    assert(all.take(i as int) =~= all);
    listed
}

/// What follows when a file cannot be moved, given what follows when the
/// expansion that listed it fails.
pub fn policy_for_move(expansion: Policy) -> (policy: Policy)
    ensures
        policy == move_policy(expansion),
{
    match expansion {
        Policy::Abort => Policy::Abort,
        _ => Policy::Continue,
    }
}

/// The steps that move each of `got`, paths of the output tree at
/// `out_dir`, into the tree `tree` of subpackage number `unit`. What follows
/// when one of them fails is `on_failure`.
pub fn collect(
    got: &Vec<Vec<char>>,
    unit: usize,
    out_dir: &str,
    tree: &str,
    on_failure: Policy,
) -> (steps: Vec<Step>)
    ensures
        steps.deep_view() == collect_steps(got.deep_view(), unit, out_dir@, tree@, on_failure),
{
    let ghost all = got.deep_view();
    let mut steps: Vec<Step> = Vec::new();
    assert(steps.deep_view() =~= Seq::empty());
    assert(all.take(0) =~= Seq::<Seq<char>>::empty());
    let mut i: usize = 0;
    while i < got.len()
        invariant
            i <= got.len(),
            all == got.deep_view(),
            steps.deep_view() == collect_steps(
                all.take(i as int),
                unit,
                out_dir@,
                tree@,
                on_failure,
            ),
        decreases got.len() - i,
    {
        let path = &got[i];
        proof {
            let next = all.take(i + 1);
            assert(next.drop_last() =~= all.take(i as int));
            assert(next.last() == path@);
        }
        let rel = string_of(path, 0, path.len());
        assert(rel@ =~= path@);
        let parent = directory_of(path);
        let ghost before = steps.deep_view();
        push_deep(
            &mut steps,
            Step {
                action: Action::CreateDir { path: chain3(tree, "/", parent.as_str()) },
                kind: StepKind::Parent,
                unit,
                on_failure,
            },
        );
        push_deep(
            &mut steps,
            Step {
                action: move_to(
                    chain3(out_dir, "/", rel.as_str()).as_str(),
                    chain3(tree, "/", rel.as_str()).as_str(),
                ),
                kind: StepKind::Move,
                unit,
                on_failure,
            },
        );
        assert(steps.deep_view() =~= before + move_steps(
            path@,
            unit,
            out_dir@,
            tree@,
            on_failure,
        ));
        i += 1;
    }
    assert(all.take(i as int) =~= all);
    steps
}

} // verus!
