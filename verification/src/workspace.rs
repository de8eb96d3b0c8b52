//! The scratch directories of one run: how they are named, created and
//! removed.

use vstd::prelude::*;
use crate::action::{Action, ActionSpec, Policy, Step, StepKind, StepSpec};
use crate::descriptor::{checked, PkgFile};
use crate::error::WorkspaceError;
use crate::path::{is_safe_name, safe_name, within};
use crate::text::{decimal, decimal_string, lemma_decimal_differs};

verus! {

/// The directory below which every run keeps its scratch directories.
pub const TEMP_ROOT: &'static str = "/tmp/pkgbuilder";

/// The three scratch directories of one run.
#[derive(Debug, Clone, PartialEq, Eq)]
pub struct WorkspacePaths {
    /// Where the sources are put and the build script runs.
    pub build_dir: String,
    /// Where the build script leaves what is to be packaged.
    pub out_dir: String,
    /// Where the package trees are assembled.
    pub package_dir: String,
}

/// The scratch directories, as text.
pub struct Paths {
    pub build_dir: Seq<char>,
    pub out_dir: Seq<char>,
    pub package_dir: Seq<char>,
}

impl View for WorkspacePaths {
    type V = Paths;

    open spec fn view(&self) -> Paths {
        Paths {
            build_dir: self.build_dir@,
            out_dir: self.out_dir@,
            package_dir: self.package_dir@,
        }
    }
}

/// The build directory of the run of package `name`, `version` that started
/// at `timestamp`: `<root>/build_<name>_<version>_<timestamp>`.
pub open spec fn scratch_stem(
    root: Seq<char>,
    name: Seq<char>,
    version: Seq<char>,
    timestamp: int,
) -> Seq<char> {
    root + "/build_"@ + name + "_"@ + version + "_"@ + decimal(timestamp)
}

/// The scratch directories of that run: the build directory, and beside it
/// the same name with `_out` and with `_package` behind it.
pub open spec fn scratch_paths(
    root: Seq<char>,
    name: Seq<char>,
    version: Seq<char>,
    timestamp: int,
) -> Paths {
    let stem = scratch_stem(root, name, version, timestamp);
    Paths { build_dir: stem, out_dir: stem + "_out"@, package_dir: stem + "_package"@ }
}

/// The steps that create the scratch directories. A failure of any of them
/// is fatal.
pub open spec fn scratch_steps(paths: Paths) -> Seq<StepSpec> {
    seq![
        StepSpec {
            action: ActionSpec::CreateDir { path: paths.build_dir },
            kind: StepKind::Scratch,
            unit: 0,
            on_failure: Policy::Abort,
        },
        StepSpec {
            action: ActionSpec::CreateDir { path: paths.out_dir },
            kind: StepKind::Scratch,
            unit: 0,
            on_failure: Policy::Abort,
        },
        StepSpec {
            action: ActionSpec::CreateDir { path: paths.package_dir },
            kind: StepKind::Scratch,
            unit: 0,
            on_failure: Policy::Abort,
        },
    ]
}

/// The steps that remove the scratch directories, the build directory
/// first. Each runs whatever became of the one before it.
pub open spec fn cleanup_steps(paths: Paths) -> Seq<StepSpec> {
    seq![
        StepSpec {
            action: ActionSpec::RemoveDir { path: paths.build_dir },
            kind: StepKind::Cleanup,
            unit: 0,
            on_failure: Policy::Continue,
        },
        StepSpec {
            action: ActionSpec::RemoveDir { path: paths.out_dir },
            kind: StepKind::Cleanup,
            unit: 0,
            on_failure: Policy::Continue,
        },
        StepSpec {
            action: ActionSpec::RemoveDir { path: paths.package_dir },
            kind: StepKind::Cleanup,
            unit: 0,
            on_failure: Policy::Continue,
        },
    ]
}

/// Runs that start in different seconds work in different directories:
/// none of the scratch directories of the one is a scratch directory of the
/// other at the same place.
pub proof fn lemma_scratch_paths_differ(
    root: Seq<char>,
    name: Seq<char>,
    version: Seq<char>,
    first: int,
    second: int,
)
    requires
        first != second,
    ensures
        scratch_paths(root, name, version, first).build_dir != scratch_paths(
            root,
            name,
            version,
            second,
        ).build_dir,
        scratch_paths(root, name, version, first).out_dir != scratch_paths(
            root,
            name,
            version,
            second,
        ).out_dir,
        scratch_paths(root, name, version, first).package_dir != scratch_paths(
            root,
            name,
            version,
            second,
        ).package_dir,
{
    let front = root + "/build_"@ + name + "_"@ + version + "_"@;
    let a = scratch_stem(root, name, version, first);
    let b = scratch_stem(root, name, version, second);
    if a == b {
        assert(decimal(first) =~= a.skip(front.len() as int));
        assert(decimal(second) =~= b.skip(front.len() as int));
        lemma_decimal_differs(first, second);
    }
    if a + "_out"@ == b + "_out"@ {
        assert((a + "_out"@).len() == a.len() + "_out"@.len());
        assert((b + "_out"@).len() == b.len() + "_out"@.len());
        assert(a =~= (a + "_out"@).take(a.len() as int));
        assert(b =~= (b + "_out"@).take(b.len() as int));
    }
    if a + "_package"@ == b + "_package"@ {
        assert((a + "_package"@).len() == a.len() + "_package"@.len());
        assert((b + "_package"@).len() == b.len() + "_package"@.len());
        assert(a =~= (a + "_package"@).take(a.len() as int));
        assert(b =~= (b + "_package"@).take(b.len() as int));
    }
}

/// The scratch directories of a run stand side by side: none of them is
/// another of them, or lies within another.
pub proof fn lemma_scratch_dirs_are_apart(
    root: Seq<char>,
    name: Seq<char>,
    version: Seq<char>,
    timestamp: int,
)
    ensures
        ({
            let paths = scratch_paths(root, name, version, timestamp);
            &&& !within(paths.build_dir, paths.out_dir)
            &&& !within(paths.build_dir, paths.package_dir)
            &&& !within(paths.out_dir, paths.build_dir)
            &&& !within(paths.out_dir, paths.package_dir)
            &&& !within(paths.package_dir, paths.build_dir)
            &&& !within(paths.package_dir, paths.out_dir)
        }),
{
    reveal_strlit("_out");
    reveal_strlit("_package");
    let paths = scratch_paths(root, name, version, timestamp);
    let stem = paths.build_dir;
    let n = stem.len() as int;
    assert(paths.out_dir[n] == '_');
    assert(paths.package_dir[n] == '_');
    assert(paths.out_dir[n + 1] == 'o');
    assert(paths.package_dir[n + 1] == 'p');
    assert(paths.out_dir.len() == n + 4);
    assert(paths.package_dir.len() == n + 8);
    if stem.push('/').is_prefix_of(paths.out_dir) {
        assert(paths.out_dir.subrange(0, n + 1)[n] == '/');
    }
    if stem.push('/').is_prefix_of(paths.package_dir) {
        assert(paths.package_dir.subrange(0, n + 1)[n] == '/');
    }
    if paths.out_dir.push('/').is_prefix_of(paths.package_dir) {
        assert(paths.package_dir.subrange(0, n + 5)[n + 1] == 'o');
    }
}

/// Reads the system clock through chrono, `Utc::now().timestamp()`: the
/// seconds since the Unix epoch.
///
/// Trusted. Nothing is claimed of the value, which differs from call to
/// call. chrono panics where the clock reads a time before the epoch.
#[verifier::external_body]
fn unix_timestamp() -> (seconds: i64) {
    chrono::Utc::now().timestamp()
}

impl WorkspacePaths {
    /// Names the scratch directories of a run below `root`.
    ///
    /// The name and the version become part of each path, so both have to be
    /// safe names; the name is looked at first.
    pub fn new(root: &str, name: &str, version: &str, timestamp: i64) -> (r: Result<
        WorkspacePaths,
        WorkspaceError,
    >)
        ensures
            r is Ok <==> is_safe_name(name@) && is_safe_name(version@),
            r matches Ok(paths) ==> paths@ == scratch_paths(
                root@,
                name@,
                version@,
                timestamp as int,
            ),
            r matches Err(e) ==> e == if !is_safe_name(name@) {
                WorkspaceError::UnsafeName
            } else {
                WorkspaceError::UnsafeVersion
            },
    {
        if !safe_name(name) {
            return Err(WorkspaceError::UnsafeName);
        }
        if !safe_name(version) {
            return Err(WorkspaceError::UnsafeVersion);
        }
        let mut stem = String::new();
        stem.append(root);
        stem.append("/build_");
        stem.append(name);
        stem.append("_");
        stem.append(version);
        stem.append("_");
        let stamp = decimal_string(timestamp);
        stem.append(stamp.as_str());
        let mut out_dir = stem.clone();
        out_dir.append("_out");
        let mut package_dir = stem.clone();
        package_dir.append("_package");
        Ok(WorkspacePaths { build_dir: stem, out_dir, package_dir })
    }

    /// The steps that create the scratch directories.
    pub fn create(&self) -> (steps: Vec<Step>)
        ensures
            steps.deep_view() == scratch_steps(self@),
    {
        let mut steps: Vec<Step> = Vec::new();
        steps.push(
            Step {
                action: Action::CreateDir { path: self.build_dir.clone() },
                kind: StepKind::Scratch,
                unit: 0,
                on_failure: Policy::Abort,
            },
        );
        steps.push(
            Step {
                action: Action::CreateDir { path: self.out_dir.clone() },
                kind: StepKind::Scratch,
                unit: 0,
                on_failure: Policy::Abort,
            },
        );
        steps.push(
            Step {
                action: Action::CreateDir { path: self.package_dir.clone() },
                kind: StepKind::Scratch,
                unit: 0,
                on_failure: Policy::Abort,
            },
        );
        assert(steps.deep_view() =~= scratch_steps(self@));
        steps
    }

    /// The steps that remove the scratch directories.
    pub fn teardown(&self) -> (steps: Vec<Step>)
        ensures
            steps.deep_view() == cleanup_steps(self@),
    {
        let mut steps: Vec<Step> = Vec::new();
        steps.push(
            Step {
                action: Action::RemoveDir { path: self.build_dir.clone() },
                kind: StepKind::Cleanup,
                unit: 0,
                on_failure: Policy::Continue,
            },
        );
        steps.push(
            Step {
                action: Action::RemoveDir { path: self.out_dir.clone() },
                kind: StepKind::Cleanup,
                unit: 0,
                on_failure: Policy::Continue,
            },
        );
        steps.push(
            Step {
                action: Action::RemoveDir { path: self.package_dir.clone() },
                kind: StepKind::Cleanup,
                unit: 0,
                on_failure: Policy::Continue,
            },
        );
        assert(steps.deep_view() =~= cleanup_steps(self@));
        steps
    }
}

/// Names the scratch directories for a run of `pkgfile` that starts now,
/// below `TEMP_ROOT`.
///
/// Succeeds exactly when the descriptor may be run. The directories are
/// those of some second of the clock.
pub fn prepare(pkgfile: &PkgFile) -> (r: Result<WorkspacePaths, WorkspaceError>)
    ensures
        match r {
            Ok(paths) => checked(pkgfile@) is Ok && exists|timestamp: i64|
                paths@ == #[trigger] scratch_paths(
                    TEMP_ROOT@,
                    pkgfile@.name,
                    pkgfile@.version,
                    timestamp as int,
                ),
            Err(e) => checked(pkgfile@) == Err::<(), WorkspaceError>(e),
        },
{
    let timestamp = unix_timestamp();
    WorkspacePaths::new(
        TEMP_ROOT,
        pkgfile.package.name.as_str(),
        pkgfile.package.version.as_str(),
        timestamp,
    )
}

} // verus!
