//! What the pipeline asks its host to do, and what the host reports back.

use vstd::prelude::*;

verus! {

/// One invocation of an external program.
#[derive(Debug, Clone, PartialEq, Eq)]
pub struct Command {
    pub program: String,
    pub args: Vec<String>,
    /// Working directory; that of the host when absent.
    pub cwd: Option<String>,
    /// Variables added to the environment of the host.
    pub env: Vec<(String, String)>,
}

/// A command, as text.
pub struct CommandSpec {
    pub program: Seq<char>,
    pub args: Seq<Seq<char>>,
    pub cwd: Option<Seq<char>>,
    pub env: Seq<(Seq<char>, Seq<char>)>,
}

impl View for Command {
    type V = CommandSpec;

    open spec fn view(&self) -> CommandSpec {
        CommandSpec {
            program: self.program@,
            args: self.args.deep_view(),
            cwd: self.cwd.deep_view(),
            env: self.env.deep_view(),
        }
    }
}

/// One thing for the host to do.
#[derive(Debug, Clone, PartialEq, Eq)]
pub enum Action {
    /// Create the directory and any missing parent.
    CreateDir { path: String },
    /// Remove the directory and all it holds; a directory that is not there
    /// is removed already.
    RemoveDir { path: String },
    /// Remove the file; a file that is not there is removed already.
    RemoveFile { path: String },
    /// Copy the file `from` to the file `to`.
    CopyFile { from: String, to: String },
    /// Run the command to its end and capture what it prints.
    Run { command: Command },
    /// Run the command to its end while passing on, as it comes, what it
    /// prints to the output and error streams.
    RunLive { command: Command },
}

/// An action, as text.
pub enum ActionSpec {
    CreateDir { path: Seq<char> },
    RemoveDir { path: Seq<char> },
    RemoveFile { path: Seq<char> },
    CopyFile { from: Seq<char>, to: Seq<char> },
    Run { command: CommandSpec },
    RunLive { command: CommandSpec },
}

impl View for Action {
    type V = ActionSpec;

    open spec fn view(&self) -> ActionSpec {
        match self {
            Action::CreateDir { path } => ActionSpec::CreateDir { path: path@ },
            Action::RemoveDir { path } => ActionSpec::RemoveDir { path: path@ },
            Action::RemoveFile { path } => ActionSpec::RemoveFile { path: path@ },
            Action::CopyFile { from, to } => ActionSpec::CopyFile { from: from@, to: to@ },
            Action::Run { command } => ActionSpec::Run { command: command@ },
            Action::RunLive { command } => ActionSpec::RunLive { command: command@ },
        }
    }
}

/// How an action ended. For a command, `status` is its exit status; for the
/// other actions it is zero when they succeeded.
#[derive(Debug, Clone, PartialEq, Eq)]
pub struct ExitResult {
    pub status: i32,
    pub stdout: String,
    pub stderr: String,
}

/// The outcome of an action, as text.
pub struct Outcome {
    pub status: i32,
    pub stdout: Seq<char>,
    pub stderr: Seq<char>,
}

impl View for ExitResult {
    type V = Outcome;

    open spec fn view(&self) -> Outcome {
        Outcome { status: self.status, stdout: self.stdout@, stderr: self.stderr@ }
    }
}

/// The status of an action that failed without a status of its own.
pub const FAILED: i32 = 1;

/// The status of a command that could not be started, as a shell reports
/// it.
pub const NOT_STARTED: i32 = 127;

/// The status of a command that ended without one, as when a signal ended
/// it.
pub const NO_STATUS: i32 = -1;

impl ExitResult {
    /// Whether the action succeeded: its status is zero.
    pub fn succeeded(&self) -> (r: bool)
        ensures
            r == (self@.status == 0),
    {
        self.status == 0
    }

    /// How an action ended that succeeded and printed nothing.
    pub fn success() -> (r: ExitResult)
        ensures
            r@ == (Outcome { status: 0, stdout: Seq::empty(), stderr: Seq::empty() }),
    {
        ExitResult { status: 0, stdout: String::new(), stderr: String::new() }
    }

    /// How an action ended that failed for `reason`.
    pub fn failure(reason: String) -> (r: ExitResult)
        ensures
            r@ == (Outcome { status: FAILED, stdout: Seq::empty(), stderr: reason@ }),
    {
        ExitResult { status: FAILED, stdout: String::new(), stderr: reason }
    }

    /// How a command ended that could not be started, for `reason`.
    pub fn not_started(reason: String) -> (r: ExitResult)
        ensures
            r@ == (Outcome { status: NOT_STARTED, stdout: Seq::empty(), stderr: reason@ }),
    {
        ExitResult { status: NOT_STARTED, stdout: String::new(), stderr: reason }
    }

    /// How a command ended that ran: with its exit code where it has one,
    /// and having failed where it has none.
    pub fn exited(code: Option<i32>, stdout: String, stderr: String) -> (r: ExitResult)
        ensures
            r@ == (Outcome {
                status: match code {
                    Some(status) => status,
                    None => NO_STATUS,
                },
                stdout: stdout@,
                stderr: stderr@,
            }),
    {
        let status = match code {
            Some(status) => status,
            None => NO_STATUS,
        };
        ExitResult { status, stdout, stderr }
    }
}

/// Why a step is in the plan.
#[derive(Debug, Clone, Copy, PartialEq, Eq, Structural)]
pub enum StepKind {
    /// Create a scratch directory.
    Scratch,
    /// Clone a repository.
    Clone,
    /// Reset a clone to a commit.
    Reset,
    /// Create the destination of an archive.
    Destination,
    /// Download an archive.
    Download,
    /// Unpack a downloaded archive.
    Extract,
    /// Remove a downloaded archive.
    Discard,
    /// Run the build script.
    Build,
    /// Create the directory that receives the archives.
    Output,
    /// Create the tree of a subpackage.
    Subdir,
    /// Expand a file pattern of a subpackage.
    Expand,
    /// Create the directory a matched file moves into.
    Parent,
    /// Move a matched file into the tree of its subpackage.
    Move,
    /// Write the manifest into a package tree.
    Manifest,
    /// Move what is left of the output tree into the tree of the main
    /// package.
    Gather,
    /// Create the archive of a package tree.
    Archive,
    /// Copy an archive to where it is wanted.
    Deliver,
    /// Remove the tree of a subpackage.
    Release,
    /// Remove a scratch directory.
    Cleanup,
}

/// The stages of the pipeline, in the order in which they run.
#[derive(Debug, Clone, Copy, PartialEq, Eq, Structural)]
pub enum Stage {
    Workspace,
    Fetch,
    Build,
    Package,
    Cleanup,
}

/// What follows when a step fails.
#[derive(Debug, Clone, Copy, PartialEq, Eq, Structural)]
pub enum Policy {
    /// The failure is recorded and the next step runs.
    Continue,
    /// The failure is recorded and the rest of the unit (the source, or the
    /// subpackage) is given up, but for the steps that tidy up after it.
    SkipUnit,
    /// The failure is fatal: nothing but the cleanup runs after it.
    Abort,
}

/// Which failures end the run. A failure that does not end the run gives
/// up the unit it occurs in, and the run goes on with the next unit.
#[derive(Debug, Clone, Copy, PartialEq, Eq, Structural)]
pub struct Policies {
    /// Whether a source that cannot be fetched ends the run.
    pub fetch_failure_is_fatal: bool,
    /// Whether a subpackage that cannot be packaged ends the run.
    pub subpackage_failure_is_fatal: bool,
}

impl Policies {
    /// No failure of a source or of a subpackage ends the run.
    pub fn lenient() -> (policies: Policies)
        ensures
            policies == (Policies {
                fetch_failure_is_fatal: false,
                subpackage_failure_is_fatal: false,
            }),
    {
        Policies { fetch_failure_is_fatal: false, subpackage_failure_is_fatal: false }
    }

    /// Every failure of a source or of a subpackage ends the run.
    pub fn strict() -> (policies: Policies)
        ensures
            policies == (Policies {
                fetch_failure_is_fatal: true,
                subpackage_failure_is_fatal: true,
            }),
    {
        Policies { fetch_failure_is_fatal: true, subpackage_failure_is_fatal: true }
    }
}

/// What follows when a step fails on which the rest of its unit depends.
pub open spec fn unit_policy(fatal: bool) -> Policy {
    if fatal {
        Policy::Abort
    } else {
        Policy::SkipUnit
    }
}

/// What follows when a step fails on which the rest of its unit depends.
pub fn policy_for_unit(fatal: bool) -> (policy: Policy)
    ensures
        policy == unit_policy(fatal),
{
    if fatal {
        Policy::Abort
    } else {
        Policy::SkipUnit
    }
}

/// One step of the plan.
#[derive(Debug, Clone, PartialEq, Eq)]
pub struct Step {
    pub action: Action,
    pub kind: StepKind,
    /// The source (when fetching) or the package (when packaging) that the
    /// step belongs to; the main package comes after the subpackages.
    pub unit: usize,
    pub on_failure: Policy,
}

/// A step, as text.
pub struct StepSpec {
    pub action: ActionSpec,
    pub kind: StepKind,
    pub unit: usize,
    pub on_failure: Policy,
}

impl View for Step {
    type V = StepSpec;

    open spec fn view(&self) -> StepSpec {
        StepSpec {
            action: self.action@,
            kind: self.kind,
            unit: self.unit,
            on_failure: self.on_failure,
        }
    }
}

impl DeepView for Step {
    type V = StepSpec;

    open spec fn deep_view(&self) -> StepSpec {
        self@
    }
}

/// The stage a kind of step belongs to.
pub open spec fn stage_of(kind: StepKind) -> Stage {
    match kind {
        StepKind::Scratch => Stage::Workspace,
        StepKind::Clone
        | StepKind::Reset
        | StepKind::Destination
        | StepKind::Download
        | StepKind::Extract
        | StepKind::Discard => Stage::Fetch,
        StepKind::Build => Stage::Build,
        StepKind::Cleanup => Stage::Cleanup,
        _ => Stage::Package,
    }
}

/// The stage a kind of step belongs to.
pub fn stage(kind: StepKind) -> (s: Stage)
    ensures
        s == stage_of(kind),
{
    match kind {
        StepKind::Scratch => Stage::Workspace,
        StepKind::Clone
        | StepKind::Reset
        | StepKind::Destination
        | StepKind::Download
        | StepKind::Extract
        | StepKind::Discard => Stage::Fetch,
        StepKind::Build => Stage::Build,
        StepKind::Cleanup => Stage::Cleanup,
        _ => Stage::Package,
    }
}

} // verus!
