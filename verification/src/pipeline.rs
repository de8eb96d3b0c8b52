//! The pipeline: which step comes next, given how the one before it ended.
//!
//! The pipeline performs nothing itself. It names the step to perform, is
//! told how that step ended, and moves on: to the next step, past the rest
//! of a unit that was given up, or straight to the cleanup after a fatal
//! failure. The host performs each step and reports back.

use std::collections::VecDeque;
use vstd::prelude::*;
use crate::action::{
    stage,
    stage_of,
    Action,
    ActionSpec,
    ExitResult,
    Outcome,
    Policies,
    Policy,
    Stage,
    Step,
    StepKind,
    StepSpec,
};
use crate::claims::{claim_all, granted, owner_of, ClaimSpec, Claims};
use crate::descriptor::{checked, Descriptor, PkgFile, SourceSpec};
use crate::error::{
    BuildError,
    Failure,
    FetchError,
    PackageError,
    PipelineError,
    WorkspaceError,
};
use crate::executor::{build, build_steps};
use crate::fetch::{fetch, fetch_plan, unknown_sources};
use crate::packager::{
    collect,
    collect_steps,
    list_relative,
    listing,
    move_policy,
    package,
    package_plan,
    package_tree,
    policy_for_move,
    records,
};
use crate::text::{append_deep, chain3, chars_of};
use crate::workspace::{
    cleanup_steps,
    prepare,
    scratch_paths,
    scratch_steps,
    Paths,
    WorkspacePaths,
    TEMP_ROOT,
};

verus! {

/// The state of a run, as text.
pub struct PipelineSpec {
    /// The steps still to perform before the cleanup, next first.
    pub pending: Seq<StepSpec>,
    /// The steps of the cleanup still to perform, next first.
    pub cleanup: Seq<StepSpec>,
    /// The output tree.
    pub out_dir: Seq<char>,
    /// The tree of each subpackage, by its number.
    pub trees: Seq<Seq<char>>,
    /// The claims laid on the output tree so far.
    pub claims: Seq<ClaimSpec>,
    /// The archives copied out so far.
    pub archives: Seq<Seq<char>>,
    /// Every failure met so far, oldest first.
    pub failures: Seq<Failure>,
    /// The failure that ended the run early, if one did.
    pub fatal: Option<Failure>,
}

/// The steps that set up the build environment: the scratch directories are
/// created, then the sources are fetched. A source that cannot be fetched
/// ends the run where `fatal` says so.
pub open spec fn setup_plan(sources: Seq<SourceSpec>, paths: Paths, fatal: bool) -> Seq<StepSpec> {
    scratch_steps(paths) + fetch_plan(sources, paths.build_dir, fatal)
}

/// All the steps of a run but the cleanup, as planned before any ran: set
/// up, build, package.
pub open spec fn plan(
    descriptor: Descriptor,
    paths: Paths,
    manifest: Seq<char>,
    output: Seq<char>,
    policies: Policies,
) -> Seq<StepSpec> {
    setup_plan(descriptor.sources, paths, policies.fetch_failure_is_fatal) + build_steps(
        descriptor.script,
        paths,
    ) + package_plan(descriptor, paths, manifest, output, policies.subpackage_failure_is_fatal)
}

/// The state in which a run starts.
pub open spec fn initial(
    descriptor: Descriptor,
    paths: Paths,
    manifest: Seq<char>,
    output: Seq<char>,
    policies: Policies,
) -> PipelineSpec {
    PipelineSpec {
        pending: plan(descriptor, paths, manifest, output, policies),
        cleanup: cleanup_steps(paths),
        out_dir: paths.out_dir,
        trees: Seq::new(
            descriptor.subpackages.len(),
            |i: int| package_tree(paths, descriptor.subpackages[i].name),
        ),
        claims: Seq::empty(),
        archives: Seq::empty(),
        failures: unknown_sources(descriptor.sources),
        fatal: None,
    }
}

/// The step to perform next; none when the run is over.
pub open spec fn next_step(s: PipelineSpec) -> Option<StepSpec> {
    if s.pending.len() > 0 {
        Some(s.pending[0])
    } else if s.cleanup.len() > 0 {
        Some(s.cleanup[0])
    } else {
        None
    }
}

/// Whether the run is over.
pub open spec fn finished(s: PipelineSpec) -> bool {
    s.pending.len() == 0 && s.cleanup.len() == 0
}

/// The error that a failed step of kind `kind` stands for.
pub open spec fn error_of(kind: StepKind, status: i32) -> PipelineError {
    match kind {
        StepKind::Scratch => PipelineError::Workspace(WorkspaceError::CreateFailed),
        StepKind::Clone | StepKind::Download => PipelineError::Fetch(FetchError::Transport),
        StepKind::Reset => PipelineError::Fetch(FetchError::Checkout),
        StepKind::Destination | StepKind::Extract => PipelineError::Fetch(
            FetchError::Extraction,
        ),
        StepKind::Build => PipelineError::Build(BuildError::NonZeroExit(status)),
        StepKind::Output => PipelineError::Package(PackageError::Output),
        StepKind::Subdir | StepKind::Parent => PipelineError::Package(PackageError::Layout),
        StepKind::Expand => PipelineError::Package(PackageError::Expansion),
        StepKind::Move | StepKind::Gather => PipelineError::Package(PackageError::Move),
        StepKind::Manifest => PipelineError::Package(PackageError::Manifest),
        StepKind::Archive => PipelineError::Package(PackageError::Archive),
        StepKind::Deliver => PipelineError::Package(PackageError::Delivery),
        StepKind::Discard | StepKind::Release | StepKind::Cleanup => PipelineError::Workspace(
            WorkspaceError::RemoveFailed,
        ),
    }
}

/// The failure that is recorded when `step` ends with `status`.
pub open spec fn failure_of(step: StepSpec, status: i32) -> Failure {
    Failure { error: error_of(step.kind, status), unit: step.unit, status }
}

/// Whether `step` goes when unit `unit` of `stage` is given up: it belongs
/// to that unit, and is not one of the steps that tidy up after it.
pub open spec fn given_up(step: StepSpec, stage: Stage, unit: usize) -> bool {
    stage_of(step.kind) == stage && step.unit == unit && step.on_failure != Policy::Continue
}

/// `pending` without the steps at its front that go when unit `unit` of
/// `stage` is given up.
pub open spec fn skip_unit(pending: Seq<StepSpec>, stage: Stage, unit: usize) -> Seq<StepSpec>
    decreases pending.len(),
{
    if pending.len() > 0 && given_up(pending[0], stage, unit) {
        skip_unit(pending.skip(1), stage, unit)
    } else {
        pending
    }
}

/// The state after `step` succeeded, printing `stdout`; `s` is the state
/// without that step.
///
/// An expansion lays the claims of its subpackage on what it lists, and the
/// steps that move what it got come next; they end the run when they fail
/// where the expansion would have. A delivery adds its archive to those
/// copied out. Any other step just makes way for the next.
pub open spec fn succeed(s: PipelineSpec, step: StepSpec, stdout: Seq<char>) -> PipelineSpec {
    match step.kind {
        StepKind::Expand => if step.unit < s.trees.len() {
            let listed = listing(s.out_dir, records(stdout));
            PipelineSpec {
                pending: collect_steps(
                    granted(s.claims, step.unit, listed),
                    step.unit,
                    s.out_dir,
                    s.trees[step.unit as int],
                    move_policy(step.on_failure),
                ) + s.pending,
                claims: claim_all(s.claims, step.unit, listed),
                ..s
            }
        } else {
            s
        },
        StepKind::Deliver => match step.action {
            ActionSpec::CopyFile { to, .. } => PipelineSpec {
                archives: s.archives.push(to),
                ..s
            },
            _ => s,
        },
        _ => s,
    }
}

/// The state after `step` failed with `status`; `s` is the state without
/// that step.
///
/// The failure is recorded. Then, as the step says: the run goes on, or the
/// rest of the unit is given up, or nothing is left to do but the cleanup
/// and the failure is the one that ended the run.
pub open spec fn fail(s: PipelineSpec, step: StepSpec, status: i32) -> PipelineSpec {
    let failure = failure_of(step, status);
    let failures = s.failures.push(failure);
    match step.on_failure {
        Policy::Continue => PipelineSpec { failures, ..s },
        Policy::SkipUnit => PipelineSpec {
            pending: skip_unit(s.pending, stage_of(step.kind), step.unit),
            failures,
            ..s
        },
        Policy::Abort => PipelineSpec {
            pending: Seq::empty(),
            failures,
            fatal: Some(failure),
            ..s
        },
    }
}

/// The state after the step that was next ended with `outcome`. A step
/// succeeded when its status is zero. The cleanup runs when nothing else is
/// pending, and goes on whatever becomes of its steps. A run that is over
/// stays as it is.
pub open spec fn advance(s: PipelineSpec, outcome: Outcome) -> PipelineSpec {
    if s.pending.len() > 0 {
        let step = s.pending[0];
        let rest = PipelineSpec { pending: s.pending.skip(1), ..s };
        if outcome.status == 0 {
            succeed(rest, step, outcome.stdout)
        } else {
            fail(rest, step, outcome.status)
        }
    } else if s.cleanup.len() > 0 {
        let step = s.cleanup[0];
        let rest = PipelineSpec { cleanup: s.cleanup.skip(1), ..s };
        if outcome.status == 0 {
            rest
        } else {
            PipelineSpec { failures: rest.failures.push(failure_of(step, outcome.status)), ..rest }
        }
    } else {
        s
    }
}

/// The failure that `advance` records for `outcome`, if it records one.
pub open spec fn recorded(s: PipelineSpec, outcome: Outcome) -> Option<Failure> {
    match next_step(s) {
        Some(step) => if outcome.status == 0 {
            None
        } else {
            Some(failure_of(step, outcome.status))
        },
        None => None,
    }
}

/// What the run came to: the archives copied out, or the error that ended
/// it early.
pub open spec fn result_of(s: PipelineSpec) -> Result<Seq<Seq<char>>, PipelineError> {
    match s.fatal {
        Some(failure) => Err(failure.error),
        None => Ok(s.archives),
    }
}

/// The steps of a queue, as text.
pub open spec fn specs_of(steps: Seq<Step>) -> Seq<StepSpec> {
    Seq::new(steps.len(), |i: int| steps[i]@)
}

/// The error that a failed step of kind `kind` stands for.
pub fn error_for(kind: StepKind, status: i32) -> (e: PipelineError)
    ensures
        e == error_of(kind, status),
{
    match kind {
        StepKind::Scratch => PipelineError::Workspace(WorkspaceError::CreateFailed),
        StepKind::Clone | StepKind::Download => PipelineError::Fetch(FetchError::Transport),
        StepKind::Reset => PipelineError::Fetch(FetchError::Checkout),
        StepKind::Destination | StepKind::Extract => PipelineError::Fetch(
            FetchError::Extraction,
        ),
        StepKind::Build => PipelineError::Build(BuildError::NonZeroExit(status)),
        StepKind::Output => PipelineError::Package(PackageError::Output),
        StepKind::Subdir | StepKind::Parent => PipelineError::Package(PackageError::Layout),
        StepKind::Expand => PipelineError::Package(PackageError::Expansion),
        StepKind::Move | StepKind::Gather => PipelineError::Package(PackageError::Move),
        StepKind::Manifest => PipelineError::Package(PackageError::Manifest),
        StepKind::Archive => PipelineError::Package(PackageError::Archive),
        StepKind::Deliver => PipelineError::Package(PackageError::Delivery),
        StepKind::Discard | StepKind::Release | StepKind::Cleanup => PipelineError::Workspace(
            WorkspaceError::RemoveFailed,
        ),
    }
}

fn enqueue(steps: Vec<Step>) -> (queue: VecDeque<Step>)
    ensures
        specs_of(queue@) == steps.deep_view(),
{
    let mut queue: VecDeque<Step> = VecDeque::new();
    assert(specs_of(queue@) =~= Seq::<StepSpec>::empty());
    prepend(&mut queue, steps);
    assert(steps.deep_view() + Seq::<StepSpec>::empty() =~= steps.deep_view());
    queue
}

fn prepend(queue: &mut VecDeque<Step>, steps: Vec<Step>)
    ensures
        specs_of(final(queue)@) == steps.deep_view() + specs_of(old(queue)@),
{
    let mut steps = steps;
    let ghost all = steps.deep_view() + specs_of(queue@);
    while steps.len() > 0
        invariant
            all == steps.deep_view() + specs_of(queue@),
        decreases steps.len(),
    {
        let ghost front = steps.deep_view();
        let ghost back = specs_of(queue@);
        let step = steps.pop().unwrap();
        assert(steps.deep_view() =~= front.drop_last());
        queue.push_front(step);
        assert(specs_of(queue@) =~= seq![front.last()] + back);
        assert(front =~= front.drop_last() + seq![front.last()]);
        assert(all =~= steps.deep_view() + specs_of(queue@));
    }
    assert(steps.deep_view() =~= Seq::<StepSpec>::empty());
    assert(all =~= specs_of(queue@));
}

fn skip(queue: &mut VecDeque<Step>, stage_given_up: Stage, unit: usize)
    ensures
        specs_of(final(queue)@) == skip_unit(specs_of(old(queue)@), stage_given_up, unit),
{
    loop
        invariant
            skip_unit(specs_of(queue@), stage_given_up, unit) == skip_unit(
                specs_of(old(queue)@),
                stage_given_up,
                unit,
            ),
        ensures
            specs_of(queue@) == skip_unit(specs_of(old(queue)@), stage_given_up, unit),
        decreases queue.len(),
    {
        if queue.len() == 0 {
            break ;
        }
        let front = &queue[0];
        let goes = stage(front.kind) == stage_given_up && front.unit == unit && front.on_failure
            != Policy::Continue;
        assert(goes == given_up(specs_of(queue@)[0], stage_given_up, unit));
        if !goes {
            break ;
        }
        let ghost before = specs_of(queue@);
        queue.pop_front();
        assert(specs_of(queue@) =~= before.skip(1));
    }
}

/// One run of the pipeline.
#[derive(Debug)]
pub struct Pipeline {
    pending: VecDeque<Step>,
    cleanup: VecDeque<Step>,
    out_dir: String,
    trees: Vec<String>,
    claims: Claims,
    archives: Vec<String>,
    failures: Vec<Failure>,
    fatal: Option<Failure>,
}

impl View for Pipeline {
    type V = PipelineSpec;

    closed spec fn view(&self) -> PipelineSpec {
        PipelineSpec {
            pending: specs_of(self.pending@),
            cleanup: specs_of(self.cleanup@),
            out_dir: self.out_dir@,
            trees: self.trees.deep_view(),
            claims: self.claims@,
            archives: self.archives.deep_view(),
            failures: self.failures@,
            fatal: self.fatal,
        }
    }
}

/// The steps that set up the build environment of `pkgfile` in the scratch
/// directories `paths`, and one failure for each source of unknown kind. A
/// source that cannot be fetched ends the run where `fatal` says so.
pub fn setup_steps(pkgfile: &PkgFile, paths: &WorkspacePaths, fatal: bool) -> (r: (
    Vec<Step>,
    Vec<Failure>,
))
    ensures
        r.0.deep_view() == setup_plan(pkgfile@.sources, paths@, fatal),
        r.1@ == unknown_sources(pkgfile@.sources),
{
    let mut steps = paths.create();
    match &pkgfile.source {
        Some(sources) => {
            let (more, unknown) = fetch(sources, paths.build_dir.as_str(), fatal);
            append_deep(&mut steps, more);
            (steps, unknown)
        },
        None => {
            let unknown: Vec<Failure> = Vec::new();
            assert(steps.deep_view() + Seq::<StepSpec>::empty() =~= steps.deep_view());
            (steps, unknown)
        },
    }
}

/// Names the scratch directories for a run of `pkgfile` that starts now,
/// and plans how the build environment is set up in them.
///
/// Succeeds exactly when the descriptor may be run. The directories are
/// those of some second of the clock; the plan is the plan for those
/// directories. A source that cannot be fetched ends the run where `fatal`
/// says so.
pub fn setup_build_environment(pkgfile: &PkgFile, fatal: bool) -> (r: Result<
    (WorkspacePaths, Vec<Step>, Vec<Failure>),
    WorkspaceError,
>)
    ensures
        match r {
            Ok(setup) => {
                &&& checked(pkgfile@) is Ok
                &&& exists|timestamp: i64|
                    setup.0@ == #[trigger] scratch_paths(
                        TEMP_ROOT@,
                        pkgfile@.name,
                        pkgfile@.version,
                        timestamp as int,
                    )
                &&& setup.1.deep_view() == setup_plan(pkgfile@.sources, setup.0@, fatal)
                &&& setup.2@ == unknown_sources(pkgfile@.sources)
            },
            Err(e) => checked(pkgfile@) == Err::<(), WorkspaceError>(e),
        },
{
    match prepare(pkgfile) {
        Ok(paths) => {
            let (steps, unknown) = setup_steps(pkgfile, &paths, fatal);
            Ok((paths, steps, unknown))
        },
        Err(e) => Err(e),
    }
}

impl Pipeline {
    /// A run of `pkgfile` in the scratch directories `paths`. The file
    /// `manifest` is copied into every package; the archives are copied
    /// into the directory `output`; `policies` says which failures end the
    /// run.
    ///
    /// Succeeds exactly when the descriptor may be run.
    pub fn new(
        pkgfile: &PkgFile,
        paths: &WorkspacePaths,
        manifest: &str,
        output: &str,
        policies: Policies,
    ) -> (r: Result<Pipeline, WorkspaceError>)
        ensures
            match r {
                Ok(p) => checked(pkgfile@) is Ok && p@ == initial(
                    pkgfile@,
                    paths@,
                    manifest@,
                    output@,
                    policies,
                ),
                Err(e) => checked(pkgfile@) == Err::<(), WorkspaceError>(e),
            },
    {
        match pkgfile.validate() {
            Ok(()) => {},
            Err(e) => {
                return Err(e);
            },
        }
        let (mut steps, failures) = setup_steps(pkgfile, paths, policies.fetch_failure_is_fatal);
        let script = match &pkgfile.build {
            Some(b) => Some(b.script.as_str()),
            None => None,
        };
        append_deep(&mut steps, build(script, paths));
        append_deep(
            &mut steps,
            package(pkgfile, paths, manifest, output, policies.subpackage_failure_is_fatal),
        );
        let mut trees: Vec<String> = Vec::new();
        let ghost subpackages = pkgfile@.subpackages;
        assert(trees.deep_view() =~= Seq::<Seq<char>>::empty());
        match &pkgfile.subpackage {
            Some(declared) => {
                let mut i: usize = 0;
                while i < declared.len()
                    invariant
                        i <= declared.len(),
                        subpackages == declared.deep_view(),
                        trees.deep_view() == Seq::new(
                            i as nat,
                            |k: int| package_tree(paths@, subpackages[k].name),
                        ),
                    decreases declared.len() - i,
                {
                    let tree = chain3(
                        paths.package_dir.as_str(),
                        "/",
                        declared[i].name.as_str(),
                    );
                    let ghost before = trees.deep_view();
                    let ghost t = tree@;
                    trees.push(tree);
                    assert(trees.deep_view() =~= before.push(t));
                    assert(trees.deep_view() =~= Seq::new(
                        (i + 1) as nat,
                        |k: int| package_tree(paths@, subpackages[k].name),
                    ));
                    i += 1;
                }
            },
            None => {},
        }
        let archives: Vec<String> = Vec::new();
        assert(archives.deep_view() =~= Seq::<Seq<char>>::empty());
        let p = Pipeline {
            pending: enqueue(steps),
            cleanup: enqueue(paths.teardown()),
            out_dir: paths.out_dir.clone(),
            trees,
            claims: Claims::new(),
            archives,
            failures,
            fatal: None,
        };
        assert(p@.trees =~= initial(pkgfile@, paths@, manifest@, output@, policies).trees);
        Ok(p)
    }

    /// A run of `pkgfile` that starts now, in scratch directories named for
    /// this moment.
    ///
    /// Succeeds exactly when the descriptor may be run. The run is one in
    /// the directories of some second of the clock.
    pub fn start(pkgfile: &PkgFile, manifest: &str, output: &str, policies: Policies) -> (r:
        Result<Pipeline, WorkspaceError>)
        ensures
            match r {
                Ok(p) => checked(pkgfile@) is Ok && exists|timestamp: i64|
                    p@ == initial(
                        pkgfile@,
                        #[trigger] scratch_paths(
                            TEMP_ROOT@,
                            pkgfile@.name,
                            pkgfile@.version,
                            timestamp as int,
                        ),
                        manifest@,
                        output@,
                        policies,
                    ),
                Err(e) => checked(pkgfile@) == Err::<(), WorkspaceError>(e),
            },
    {
        match prepare(pkgfile) {
            Ok(paths) => Pipeline::new(pkgfile, &paths, manifest, output, policies),
            Err(e) => Err(e),
        }
    }

    /// The step to perform next; none when the run is over.
    pub fn current(&self) -> (r: Option<&Step>)
        ensures
            r.deep_view() == next_step(self@),
    {
        if self.pending.len() > 0 {
            Some(&self.pending[0])
        } else if self.cleanup.len() > 0 {
            Some(&self.cleanup[0])
        } else {
            None
        }
    }

    /// Whether the run is over.
    pub fn is_finished(&self) -> (r: bool)
        ensures
            r == finished(self@),
    {
        self.pending.len() == 0 && self.cleanup.len() == 0
    }

    /// Takes note of how the step that was next ended, and moves on.
    /// Returns the failure that was recorded, if the step failed.
    pub fn advance(&mut self, outcome: &ExitResult) -> (failure: Option<Failure>)
        ensures
            final(self)@ == advance(old(self)@, outcome@),
            failure == recorded(old(self)@, outcome@),
    {
        if self.pending.len() > 0 {
            let ghost before = specs_of(self.pending@);
            let step = self.pending.pop_front().unwrap();
            assert(specs_of(self.pending@) =~= before.skip(1));
            assert(step@ == before[0]);
            if outcome.succeeded() {
                self.succeed(step, outcome.stdout.as_str());
                None
            } else {
                Some(self.fail(step, outcome.status))
            }
        } else if self.cleanup.len() > 0 {
            let ghost before = specs_of(self.cleanup@);
            let step = self.cleanup.pop_front().unwrap();
            assert(specs_of(self.cleanup@) =~= before.skip(1));
            assert(step@ == before[0]);
            if outcome.succeeded() {
                None
            } else {
                let failure = Failure {
                    error: error_for(step.kind, outcome.status),
                    unit: step.unit,
                    status: outcome.status,
                };
                self.failures.push(failure);
                Some(failure)
            }
        } else {
            None
        }
    }

    fn succeed(&mut self, step: Step, stdout: &str)
        ensures
            final(self)@ == succeed(old(self)@, step@, stdout@),
    {
        match step.kind {
            StepKind::Expand => {
                if step.unit < self.trees.len() {
                    let listed = list_relative(self.out_dir.as_str(), stdout);
                    let got = self.claims.claim(step.unit, &listed);
                    let steps = collect(
                        &got,
                        step.unit,
                        self.out_dir.as_str(),
                        self.trees[step.unit].as_str(),
                        policy_for_move(step.on_failure),
                    );
                    prepend(&mut self.pending, steps);
                }
            },
            StepKind::Deliver => {
                match step.action {
                    Action::CopyFile { to, .. } => {
                        let ghost before = self.archives.deep_view();
                        let ghost archive = to@;
                        self.archives.push(to);
                        assert(self.archives.deep_view() =~= before.push(archive));
                    },
                    _ => {},
                }
            },
            _ => {},
        }
    }

    fn fail(&mut self, step: Step, status: i32) -> (failure: Failure)
        ensures
            final(self)@ == fail(old(self)@, step@, status),
            failure == failure_of(step@, status),
    {
        let failure = Failure { error: error_for(step.kind, status), unit: step.unit, status };
        self.failures.push(failure);
        match step.on_failure {
            Policy::Continue => {},
            Policy::SkipUnit => {
                skip(&mut self.pending, stage(step.kind), step.unit);
            },
            Policy::Abort => {
                self.pending.clear();
                assert(specs_of(self.pending@) =~= Seq::<StepSpec>::empty());
                self.fatal = Some(failure);
            },
        }
        failure
    }

    /// The subpackage that has the path `rel` of the output tree, by its
    /// number; none when the path is left to the main package.
    pub fn owner(&self, rel: &str) -> (r: Option<usize>)
        ensures
            r == owner_of(self@.claims, rel@),
    {
        self.claims.owner(&chars_of(rel))
    }

    /// The archives copied out so far.
    pub fn archives(&self) -> (r: &Vec<String>)
        ensures
            r.deep_view() == self@.archives,
    {
        &self.archives
    }

    /// Every failure met so far, oldest first.
    pub fn failures(&self) -> (r: &Vec<Failure>)
        ensures
            r@ == self@.failures,
    {
        &self.failures
    }

    /// The failure that ended the run early, if one did.
    pub fn fatal(&self) -> (r: Option<Failure>)
        ensures
            r == self@.fatal,
    {
        self.fatal
    }

    /// What the run came to: the archives copied out, or the error that
    /// ended it early.
    pub fn result(&self) -> (r: Result<&Vec<String>, PipelineError>)
        ensures
            match r {
                Ok(archives) => result_of(self@) == Ok::<Seq<Seq<char>>, PipelineError>(
                    archives.deep_view(),
                ),
                Err(e) => result_of(self@) == Err::<Seq<Seq<char>>, PipelineError>(e),
            },
    {
        match self.fatal {
            Some(failure) => Err(failure.error),
            None => Ok(&self.archives),
        }
    }
}

} // verus!
