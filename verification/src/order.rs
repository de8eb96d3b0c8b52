//! The order of the stages: nothing is packaged before the build has
//! succeeded, and nothing at all once it has failed.

use vstd::prelude::*;
use crate::action::{stage_of, Outcome, Policies, Policy, Stage, StepKind, StepSpec};
use crate::claims::granted;
use crate::descriptor::{Descriptor, SourceSpec, SubpackageSpec};
use crate::error::{BuildError, PipelineError};
use crate::executor::build_steps;
use crate::fetch::{fetch_plan, source_steps};
use crate::packager::{
    collect_steps,
    listing,
    main_steps,
    move_policy,
    package_plan,
    records,
    subpackage_steps,
    subpackages_plan,
};
use crate::pipeline::{
    advance,
    failure_of,
    given_up,
    initial,
    next_step,
    plan,
    result_of,
    setup_plan,
    skip_unit,
    PipelineSpec,
};
use crate::runs::{lemma_step_at_prefix, run, step_at};
use crate::workspace::{cleanup_steps, scratch_steps, Paths};

verus! {

/// Whether `step` belongs to the setting up: to the workspace or to the
/// fetcher.
pub open spec fn is_early(step: StepSpec) -> bool {
    stage_of(step.kind) == Stage::Workspace || stage_of(step.kind) == Stage::Fetch
}

/// Whether `step` belongs to the packaging.
pub open spec fn is_packaging(step: StepSpec) -> bool {
    stage_of(step.kind) == Stage::Package
}

/// Whether all of `steps` belong to the setting up.
pub open spec fn all_early(steps: Seq<StepSpec>) -> bool {
    forall|k: int| 0 <= k < steps.len() ==> is_early(#[trigger] steps[k])
}

/// Whether all of `steps` belong to the packaging.
pub open spec fn all_packaging(steps: Seq<StepSpec>) -> bool {
    forall|k: int| 0 <= k < steps.len() ==> is_packaging(#[trigger] steps[k])
}

/// Whether the build is still ahead in `steps`, at position `b`: only
/// setting up comes before it and only packaging after it, and its failure
/// is fatal.
pub open spec fn build_ahead(steps: Seq<StepSpec>, b: int) -> bool {
    &&& 0 <= b < steps.len()
    &&& steps[b].kind == StepKind::Build
    &&& steps[b].on_failure == Policy::Abort
    &&& forall|k: int| 0 <= k < b ==> is_early(#[trigger] steps[k])
    &&& forall|k: int| b < k < steps.len() ==> is_packaging(#[trigger] steps[k])
}

/// The steps that fetch the sources all belong to the setting up.
pub proof fn lemma_fetch_is_early(sources: Seq<SourceSpec>, build_dir: Seq<char>, fatal: bool)
    ensures
        all_early(fetch_plan(sources, build_dir, fatal)),
    decreases sources.len(),
{
    if sources.len() > 0 {
        let before = fetch_plan(sources.drop_last(), build_dir, fatal);
        let last = source_steps(sources.last(), (sources.len() - 1) as usize, build_dir, fatal);
        lemma_fetch_is_early(sources.drop_last(), build_dir, fatal);
        assert(all_early(last));
        let all = fetch_plan(sources, build_dir, fatal);
        assert forall|k: int| 0 <= k < all.len() implies is_early(#[trigger] all[k]) by {
            if k < before.len() {
                assert(all[k] == before[k]);
            } else {
                assert(all[k] == last[k - before.len()]);
            }
        }
    }
}

/// The steps that package one subpackage all belong to the packaging.
pub proof fn lemma_subpackage_is_packaging(
    subpackage: SubpackageSpec,
    unit: usize,
    paths: Paths,
    manifest: Seq<char>,
    output: Seq<char>,
    fatal: bool,
)
    ensures
        all_packaging(subpackage_steps(subpackage, unit, paths, manifest, output, fatal)),
{
    let steps = subpackage_steps(subpackage, unit, paths, manifest, output, fatal);
    let n = subpackage.files.len();
    assert forall|k: int| 0 <= k < steps.len() implies is_packaging(#[trigger] steps[k]) by {
        if k == 0 {
        } else if k < 1 + n {
            assert(steps[k].kind == StepKind::Expand);
        } else {
            assert(k - 1 - n < 4);
        }
    }
}

/// The steps that package the subpackages all belong to the packaging.
pub proof fn lemma_subpackages_are_packaging(
    subpackages: Seq<SubpackageSpec>,
    paths: Paths,
    manifest: Seq<char>,
    output: Seq<char>,
    fatal: bool,
)
    ensures
        all_packaging(subpackages_plan(subpackages, paths, manifest, output, fatal)),
    decreases subpackages.len(),
{
    if subpackages.len() > 0 {
        let before = subpackages_plan(subpackages.drop_last(), paths, manifest, output, fatal);
        let last = subpackage_steps(
            subpackages.last(),
            (subpackages.len() - 1) as usize,
            paths,
            manifest,
            output,
            fatal,
        );
        lemma_subpackages_are_packaging(subpackages.drop_last(), paths, manifest, output, fatal);
        lemma_subpackage_is_packaging(
            subpackages.last(),
            (subpackages.len() - 1) as usize,
            paths,
            manifest,
            output,
            fatal,
        );
        let all = subpackages_plan(subpackages, paths, manifest, output, fatal);
        assert forall|k: int| 0 <= k < all.len() implies is_packaging(#[trigger] all[k]) by {
            if k < before.len() {
                assert(all[k] == before[k]);
            } else {
                assert(all[k] == last[k - before.len()]);
            }
        }
    }
}

/// The packaging stage is made of packaging steps.
pub proof fn lemma_package_plan_is_packaging(
    descriptor: Descriptor,
    paths: Paths,
    manifest: Seq<char>,
    output: Seq<char>,
    fatal: bool,
)
    ensures
        all_packaging(package_plan(descriptor, paths, manifest, output, fatal)),
{
    let subs = subpackages_plan(descriptor.subpackages, paths, manifest, output, fatal);
    let main = main_steps(
        descriptor.name,
        descriptor.subpackages.len() as usize,
        paths,
        manifest,
        output,
    );
    lemma_subpackages_are_packaging(descriptor.subpackages, paths, manifest, output, fatal);
    let all = package_plan(descriptor, paths, manifest, output, fatal);
    assert forall|k: int| 0 <= k < all.len() implies is_packaging(#[trigger] all[k]) by {
        if k == 0 {
        } else if k < 1 + subs.len() {
            assert(all[k] == subs[k - 1]);
        } else {
            assert(all[k] == main[k - 1 - subs.len()]);
        }
    }
}

/// The setting up is made of early steps.
pub proof fn lemma_setup_is_early(sources: Seq<SourceSpec>, paths: Paths, fatal: bool)
    ensures
        all_early(setup_plan(sources, paths, fatal)),
{
    lemma_fetch_is_early(sources, paths.build_dir, fatal);
    let scratch = scratch_steps(paths);
    let fetched = fetch_plan(sources, paths.build_dir, fatal);
    let all = setup_plan(sources, paths, fatal);
    assert forall|k: int| 0 <= k < all.len() implies is_early(#[trigger] all[k]) by {
        if k < 3 {
            assert(all[k] == scratch[k]);
        } else {
            assert(all[k] == fetched[k - 3]);
        }
    }
}

/// Where the descriptor has a build script, the build is ahead in the plan,
/// right behind the setting up.
pub proof fn lemma_plan_has_build_ahead(
    descriptor: Descriptor,
    paths: Paths,
    manifest: Seq<char>,
    output: Seq<char>,
    policies: Policies,
)
    requires
        descriptor.script is Some,
    ensures
        build_ahead(
            plan(descriptor, paths, manifest, output, policies),
            setup_plan(descriptor.sources, paths, policies.fetch_failure_is_fatal).len() as int,
        ),
{
    let setup = setup_plan(descriptor.sources, paths, policies.fetch_failure_is_fatal);
    let built = build_steps(descriptor.script, paths);
    let packaged = package_plan(
        descriptor,
        paths,
        manifest,
        output,
        policies.subpackage_failure_is_fatal,
    );
    let all = plan(descriptor, paths, manifest, output, policies);
    let b = setup.len() as int;
    lemma_setup_is_early(descriptor.sources, paths, policies.fetch_failure_is_fatal);
    lemma_package_plan_is_packaging(
        descriptor,
        paths,
        manifest,
        output,
        policies.subpackage_failure_is_fatal,
    );
    assert(built.len() == 1);
    assert(all[b] == built[0]);
    assert forall|k: int| 0 <= k < b implies is_early(#[trigger] all[k]) by {
        assert(all[k] == setup[k]);
    }
    assert forall|k: int| b < k < all.len() implies is_packaging(#[trigger] all[k]) by {
        assert(all[k] == packaged[k - b - 1]);
    }
}

/// How many steps at the front of `pending` go when unit `unit` of `stage`
/// is given up.
pub open spec fn given_up_count(pending: Seq<StepSpec>, stage: Stage, unit: usize) -> nat
    decreases pending.len(),
{
    if pending.len() > 0 && given_up(pending[0], stage, unit) {
        1 + given_up_count(pending.skip(1), stage, unit)
    } else {
        0
    }
}

/// Giving up a unit takes steps off the front, all that go and no more, and
/// leaves the others as they are.
pub proof fn lemma_skip_is_suffix(pending: Seq<StepSpec>, stage: Stage, unit: usize)
    ensures
        ({
            let n = given_up_count(pending, stage, unit) as int;
            &&& n <= pending.len()
            &&& skip_unit(pending, stage, unit) == pending.skip(n)
            &&& forall|k: int| 0 <= k < n ==> given_up(#[trigger] pending[k], stage, unit)
            &&& n < pending.len() ==> !given_up(pending[n], stage, unit)
        }),
    decreases pending.len(),
{
    if pending.len() > 0 && given_up(pending[0], stage, unit) {
        let rest = pending.skip(1);
        lemma_skip_is_suffix(rest, stage, unit);
        let n = given_up_count(rest, stage, unit) as int;
        assert(rest.skip(n) =~= pending.skip(n + 1));
        assert forall|k: int| 0 <= k < n + 1 implies given_up(
            #[trigger] pending[k],
            stage,
            unit,
        ) by {
            if k > 0 {
                assert(pending[k] == rest[k - 1]);
            }
        }
        if n + 1 < pending.len() {
            assert(pending[n + 1] == rest[n]);
        }
    } else {
        assert(pending.skip(0) =~= pending);
    }
}

/// Whether all of `steps` move files, or make the directories they move
/// into.
pub open spec fn all_moving(steps: Seq<StepSpec>) -> bool {
    forall|k: int|
        0 <= k < steps.len() ==> (#[trigger] steps[k]).kind == StepKind::Parent || steps[k].kind
            == StepKind::Move
}

/// The steps that move what a subpackage got do nothing else.
pub proof fn lemma_collect_is_moving(
    got: Seq<Seq<char>>,
    unit: usize,
    out_dir: Seq<char>,
    tree: Seq<char>,
    on_failure: Policy,
)
    ensures
        all_moving(collect_steps(got, unit, out_dir, tree, on_failure)),
    decreases got.len(),
{
    if got.len() > 0 {
        lemma_collect_is_moving(got.drop_last(), unit, out_dir, tree, on_failure);
        let before = collect_steps(got.drop_last(), unit, out_dir, tree, on_failure);
        let all = collect_steps(got, unit, out_dir, tree, on_failure);
        assert forall|k: int| 0 <= k < all.len() implies (#[trigger] all[k]).kind
            == StepKind::Parent || all[k].kind == StepKind::Move by {
            if k < before.len() {
                assert(all[k] == before[k]);
            }
        }
    }
}

/// The steps that a step leaves in front of those that were pending behind
/// it: after an expansion that succeeded, the steps that move what it got.
pub open spec fn moved_in(before: PipelineSpec, outcome: Outcome) -> Seq<StepSpec> {
    let step = before.pending[0];
    if outcome.status == 0 && step.kind == StepKind::Expand && step.unit < before.trees.len() {
        collect_steps(
            granted(before.claims, step.unit, listing(before.out_dir, records(outcome.stdout))),
            step.unit,
            before.out_dir,
            before.trees[step.unit as int],
            move_policy(step.on_failure),
        )
    } else {
        Seq::empty()
    }
}

/// How many of the steps that were pending are no longer: the step that
/// was performed, and those that went with a unit that was given up, or
/// all of them after a fatal failure.
pub open spec fn taken_off(before: PipelineSpec, outcome: Outcome) -> int {
    let step = before.pending[0];
    if outcome.status == 0 || step.on_failure == Policy::Continue {
        1
    } else if step.on_failure == Policy::SkipUnit {
        1 + given_up_count(before.pending.skip(1), stage_of(step.kind), step.unit) as int
    } else {
        before.pending.len() as int
    }
}

/// What `advance` leaves pending: the steps that were moved in, in front of
/// what is left of the steps that were pending.
pub proof fn lemma_advance_pending(before: PipelineSpec, outcome: Outcome)
    requires
        before.pending.len() > 0,
    ensures
        1 <= taken_off(before, outcome) <= before.pending.len(),
        advance(before, outcome).pending == moved_in(before, outcome) + before.pending.skip(
            taken_off(before, outcome),
        ),
        all_moving(moved_in(before, outcome)),
        moved_in(before, outcome).len() > 0 ==> before.pending[0].kind == StepKind::Expand,
{
    let step = before.pending[0];
    let rest = before.pending.skip(1);
    let now = advance(before, outcome);
    let none = Seq::<StepSpec>::empty();
    if outcome.status == 0 {
        if step.kind == StepKind::Expand && step.unit < before.trees.len() {
            lemma_collect_is_moving(
                granted(
                    before.claims,
                    step.unit,
                    listing(before.out_dir, records(outcome.stdout)),
                ),
                step.unit,
                before.out_dir,
                before.trees[step.unit as int],
                move_policy(step.on_failure),
            );
        } else {
            assert(now.pending =~= none + rest);
        }
    } else if step.on_failure == Policy::Continue {
        assert(now.pending =~= none + rest);
    } else if step.on_failure == Policy::SkipUnit {
        lemma_skip_is_suffix(rest, stage_of(step.kind), step.unit);
        let n = given_up_count(rest, stage_of(step.kind), step.unit) as int;
        assert(rest.skip(n) =~= before.pending.skip(n + 1));
        assert(now.pending =~= none + before.pending.skip(n + 1));
    } else {
        assert(now.pending =~= none + before.pending.skip(before.pending.len() as int));
    }
}

/// Giving up a unit of the setting up leaves the build ahead.
pub proof fn lemma_skip_keeps_build_ahead(
    pending: Seq<StepSpec>,
    b: int,
    stage: Stage,
    unit: usize,
)
    requires
        build_ahead(pending, b),
        stage != Stage::Build,
    ensures
        exists|c: int| build_ahead(skip_unit(pending, stage, unit), c),
{
    lemma_skip_is_suffix(pending, stage, unit);
    let n = given_up_count(pending, stage, unit) as int;
    if n > b {
        assert(given_up(pending[b], stage, unit));
    }
    let left = pending.skip(n);
    assert(build_ahead(left, b - n)) by {
        assert(left[b - n] == pending[b]);
        assert forall|k: int| 0 <= k < b - n implies is_early(#[trigger] left[k]) by {
            assert(left[k] == pending[k + n]);
        }
        assert forall|k: int| b - n < k < left.len() implies is_packaging(#[trigger] left[k]) by {
            assert(left[k] == pending[k + n]);
        }
    }
}

/// Whether the step performed at position `j` of the run was the build,
/// and succeeded.
pub open spec fn build_succeeded_at(s: PipelineSpec, outcomes: Seq<Outcome>, j: int) -> bool {
    &&& 0 <= j < outcomes.len()
    &&& step_at(s, outcomes, j) matches Some(step) && step.kind == StepKind::Build
    &&& outcomes[j].status == 0
}

/// Whether the step performed at position `j` of the run was the build,
/// and failed.
pub open spec fn build_failed_at(s: PipelineSpec, outcomes: Seq<Outcome>, j: int) -> bool {
    &&& 0 <= j < outcomes.len()
    &&& step_at(s, outcomes, j) matches Some(step) && step.kind == StepKind::Build
    &&& outcomes[j].status != 0
}

/// Whether a step was performed at position `i` of the run, and belonged
/// to the packaging.
pub open spec fn packaged_at(s: PipelineSpec, outcomes: Seq<Outcome>, i: int) -> bool {
    &&& 0 <= i < outcomes.len()
    &&& step_at(s, outcomes, i) matches Some(step) && is_packaging(step)
}

/// Whether a step was performed at position `i` of the run, and belonged
/// to the setting up.
pub open spec fn early_at(s: PipelineSpec, outcomes: Seq<Outcome>, i: int) -> bool {
    &&& 0 <= i < outcomes.len()
    &&& step_at(s, outcomes, i) matches Some(step) && is_early(step)
}

/// Whether the build succeeded somewhere before position `i` of the run.
pub open spec fn built_before(s: PipelineSpec, outcomes: Seq<Outcome>, i: int) -> bool {
    exists|j: int| j < i && #[trigger] build_succeeded_at(s, outcomes, j)
}

/// What a failed build leaves behind: nothing is pending but the cleanup,
/// no archive was copied out, the failure of the build is the one that
/// ended the run, and no step of the packaging was ever performed.
pub open spec fn nothing_packaged(s: PipelineSpec, outcomes: Seq<Outcome>, j: int) -> bool {
    let now = run(s, outcomes);
    &&& now.pending.len() == 0
    &&& now.archives.len() == 0
    &&& step_at(s, outcomes, j) matches Some(step) && now.fatal == Some(
        failure_of(step, outcomes[j].status),
    )
    &&& forall|i: int| !#[trigger] packaged_at(s, outcomes, i)
}

/// Where a run stands with respect to the build.
pub open spec fn standing(s: PipelineSpec, outcomes: Seq<Outcome>) -> bool {
    let now = run(s, outcomes);
    ||| {
        &&& exists|b: int| build_ahead(now.pending, b)
        &&& now.archives.len() == 0
        &&& now.fatal is None
        &&& forall|i: int| 0 <= i < outcomes.len() ==> #[trigger] early_at(s, outcomes, i)
    }
    ||| all_packaging(now.pending) && built_before(s, outcomes, outcomes.len() as int)
    ||| now.pending.len() == 0
}

/// What holds of every run of a descriptor that has a build script.
pub open spec fn in_order(s: PipelineSpec, outcomes: Seq<Outcome>) -> bool {
    let now = run(s, outcomes);
    &&& forall|k: int|
        0 <= k < now.cleanup.len() ==> (#[trigger] now.cleanup[k]).kind == StepKind::Cleanup
    &&& standing(s, outcomes)
    &&& forall|j: int| #[trigger]
        build_failed_at(s, outcomes, j) ==> nothing_packaged(s, outcomes, j)
    &&& forall|i: int| #[trigger] packaged_at(s, outcomes, i) ==> built_before(s, outcomes, i)
}

proof fn lemma_advance_early(before: PipelineSpec, outcome: Outcome, b: int)
    requires
        build_ahead(before.pending, b),
        b > 0,
    ensures
        ({
            let now = advance(before, outcome);
            &&& now.cleanup == before.cleanup
            &&& now.archives == before.archives
            &&& now.pending.len() == 0 || (now.fatal == before.fatal && exists|c: int|
                build_ahead(now.pending, c))
        }),
{
    let step = before.pending[0];
    let rest = before.pending.skip(1);
    assert(is_early(step));
    assert(build_ahead(rest, b - 1)) by {
        assert(rest[b - 1] == before.pending[b]);
        assert forall|k: int| 0 <= k < b - 1 implies is_early(#[trigger] rest[k]) by {
            assert(rest[k] == before.pending[k + 1]);
        }
        assert forall|k: int| b - 1 < k < rest.len() implies is_packaging(#[trigger] rest[k]) by {
            assert(rest[k] == before.pending[k + 1]);
        }
    }
    if outcome.status != 0 && step.on_failure == Policy::SkipUnit {
        lemma_skip_keeps_build_ahead(rest, b - 1, stage_of(step.kind), step.unit);
    }
}

proof fn lemma_advance_build(before: PipelineSpec, outcome: Outcome)
    requires
        build_ahead(before.pending, 0),
    ensures
        ({
            let now = advance(before, outcome);
            &&& now.cleanup == before.cleanup
            &&& now.archives == before.archives
            &&& outcome.status == 0 ==> all_packaging(now.pending) && now.fatal == before.fatal
            &&& outcome.status != 0 ==> now.pending.len() == 0 && now.fatal == Some(
                failure_of(before.pending[0], outcome.status),
            )
        }),
{
    let rest = before.pending.skip(1);
    assert forall|k: int| 0 <= k < rest.len() implies is_packaging(#[trigger] rest[k]) by {
        assert(rest[k] == before.pending[k + 1]);
    }
}

proof fn lemma_advance_packaging(before: PipelineSpec, outcome: Outcome)
    requires
        all_packaging(before.pending),
        before.pending.len() > 0,
    ensures
        ({
            let now = advance(before, outcome);
            &&& now.cleanup == before.cleanup
            &&& all_packaging(now.pending)
        }),
{
    let now = advance(before, outcome);
    let extra = moved_in(before, outcome);
    let off = taken_off(before, outcome);
    lemma_advance_pending(before, outcome);
    assert forall|k: int| 0 <= k < now.pending.len() implies is_packaging(
        #[trigger] now.pending[k],
    ) by {
        if k < extra.len() {
            assert(now.pending[k] == extra[k]);
        } else {
            assert(now.pending[k] == before.pending[k - extra.len() + off]);
        }
    }
}

proof fn lemma_same_before(s: PipelineSpec, outcomes: Seq<Outcome>, i: int)
    requires
        0 <= i < outcomes.len() - 1,
    ensures
        step_at(s, outcomes, i) == step_at(s, outcomes.drop_last(), i),
        outcomes[i] == outcomes.drop_last()[i],
        early_at(s, outcomes, i) == early_at(s, outcomes.drop_last(), i),
        packaged_at(s, outcomes, i) == packaged_at(s, outcomes.drop_last(), i),
        build_succeeded_at(s, outcomes, i) == build_succeeded_at(s, outcomes.drop_last(), i),
        build_failed_at(s, outcomes, i) == build_failed_at(s, outcomes.drop_last(), i),
{
    assert(outcomes.drop_last() =~= outcomes.take(outcomes.len() - 1));
    lemma_step_at_prefix(s, outcomes, outcomes.len() - 1, i);
}

proof fn lemma_built_before_longer(s: PipelineSpec, outcomes: Seq<Outcome>, i: int)
    requires
        outcomes.len() > 0,
        i <= outcomes.len() - 1,
        built_before(s, outcomes.drop_last(), i),
    ensures
        built_before(s, outcomes, i),
{
    let j = choose|j: int| j < i && #[trigger] build_succeeded_at(s, outcomes.drop_last(), j);
    lemma_same_before(s, outcomes, j);
    assert(build_succeeded_at(s, outcomes, j));
}

proof fn lemma_last_step(s: PipelineSpec, outcomes: Seq<Outcome>)
    requires
        outcomes.len() > 0,
    ensures
        step_at(s, outcomes, outcomes.len() - 1) == next_step(run(s, outcomes.drop_last())),
        run(s, outcomes) == advance(run(s, outcomes.drop_last()), outcomes.last()),
        forall|i: int|
            0 <= i < outcomes.len() - 1 ==> #[trigger] early_at(s, outcomes, i) == early_at(
                s,
                outcomes.drop_last(),
                i,
            ),
        forall|i: int|
            i < outcomes.len() - 1 ==> #[trigger] packaged_at(s, outcomes, i) == packaged_at(
                s,
                outcomes.drop_last(),
                i,
            ),
        forall|i: int|
            i < outcomes.len() - 1 ==> #[trigger] build_succeeded_at(s, outcomes, i)
                == build_succeeded_at(s, outcomes.drop_last(), i),
        forall|i: int|
            i < outcomes.len() - 1 ==> #[trigger] build_failed_at(s, outcomes, i)
                == build_failed_at(s, outcomes.drop_last(), i),
{
    let shorter = outcomes.drop_last();
    let last = outcomes.len() - 1;
    assert(outcomes.take(last) =~= shorter);
    assert forall|i: int| 0 <= i < last implies #[trigger] early_at(s, outcomes, i) == early_at(
        s,
        shorter,
        i,
    ) by {
        lemma_same_before(s, outcomes, i);
    }
    assert forall|i: int| i < last implies #[trigger] packaged_at(s, outcomes, i) == packaged_at(
        s,
        shorter,
        i,
    ) by {
        if 0 <= i {
            lemma_same_before(s, outcomes, i);
        }
    }
    assert forall|i: int| i < last implies #[trigger] build_succeeded_at(s, outcomes, i)
        == build_succeeded_at(s, shorter, i) by {
        if 0 <= i {
            lemma_same_before(s, outcomes, i);
        }
    }
    assert forall|i: int| i < last implies #[trigger] build_failed_at(s, outcomes, i)
        == build_failed_at(s, shorter, i) by {
        if 0 <= i {
            lemma_same_before(s, outcomes, i);
        }
    }
}

proof fn lemma_packaged_earlier(s: PipelineSpec, outcomes: Seq<Outcome>)
    requires
        outcomes.len() > 0,
        in_order(s, outcomes.drop_last()),
    ensures
        forall|i: int|
            i < outcomes.len() - 1 && #[trigger] packaged_at(s, outcomes, i) ==> built_before(
                s,
                outcomes,
                i,
            ),
{
    lemma_last_step(s, outcomes);
    assert forall|i: int| i < outcomes.len() - 1 && #[trigger] packaged_at(
        s,
        outcomes,
        i,
    ) implies built_before(s, outcomes, i) by {
        assert(packaged_at(s, outcomes.drop_last(), i));
        lemma_built_before_longer(s, outcomes, i);
    }
}

proof fn lemma_step_cleanup(s: PipelineSpec, outcomes: Seq<Outcome>)
    requires
        outcomes.len() > 0,
        in_order(s, outcomes.drop_last()),
        run(s, outcomes.drop_last()).pending.len() == 0,
    ensures
        in_order(s, outcomes),
{
    let shorter = outcomes.drop_last();
    let last = outcomes.len() - 1;
    let before = run(s, shorter);
    let now = run(s, outcomes);
    lemma_last_step(s, outcomes);
    lemma_packaged_earlier(s, outcomes);
    assert(now.pending.len() == 0);
    assert(now.archives == before.archives);
    assert(now.fatal == before.fatal);
    assert forall|k: int| 0 <= k < now.cleanup.len() implies (#[trigger] now.cleanup[k]).kind
        == StepKind::Cleanup by {
        if before.cleanup.len() > 0 {
            assert(now.cleanup[k] == before.cleanup[k + 1]);
        }
    }
    if before.cleanup.len() > 0 {
        assert(before.cleanup[0].kind == StepKind::Cleanup);
    }
    assert(!packaged_at(s, outcomes, last));
    assert(!build_failed_at(s, outcomes, last));
    assert forall|j: int| #[trigger] build_failed_at(s, outcomes, j) implies nothing_packaged(
        s,
        outcomes,
        j,
    ) by {
        assert(build_failed_at(s, shorter, j));
        assert(nothing_packaged(s, shorter, j));
        lemma_same_before(s, outcomes, j);
        assert forall|i: int| !#[trigger] packaged_at(s, outcomes, i) by {
            if i < last {
                assert(!packaged_at(s, shorter, i));
            }
        }
    }
    assert(standing(s, outcomes));
}

proof fn lemma_step_early(s: PipelineSpec, outcomes: Seq<Outcome>, b: int)
    requires
        outcomes.len() > 0,
        in_order(s, outcomes.drop_last()),
        build_ahead(run(s, outcomes.drop_last()).pending, b),
    ensures
        in_order(s, outcomes),
{
    let shorter = outcomes.drop_last();
    let last = outcomes.len() - 1;
    let outcome = outcomes.last();
    let before = run(s, shorter);
    let now = run(s, outcomes);
    let step = before.pending[0];
    lemma_last_step(s, outcomes);
    // With the build ahead something is pending, so no build has failed,
    // and not all that is pending is packaging.
    assert forall|j: int| !#[trigger] build_failed_at(s, shorter, j) by {
        if build_failed_at(s, shorter, j) {
            assert(nothing_packaged(s, shorter, j));
        }
    }
    assert(!all_packaging(before.pending)) by {
        assert(!is_packaging(before.pending[b]));
    }
    assert(before.archives.len() == 0 && before.fatal is None);
    assert forall|i: int| 0 <= i < last implies #[trigger] early_at(s, outcomes, i) by {
        assert(early_at(s, shorter, i));
    }
    assert forall|i: int| i < last implies !#[trigger] packaged_at(s, outcomes, i) by {
        if 0 <= i {
            assert(early_at(s, outcomes, i));
        }
    }
    assert forall|j: int| j < last implies !#[trigger] build_failed_at(s, outcomes, j) by {
        if 0 <= j {
            assert(early_at(s, outcomes, j));
        }
    }
    if b > 0 {
        lemma_advance_early(before, outcome, b);
        assert(is_early(step));
        assert(early_at(s, outcomes, last));
        assert(!packaged_at(s, outcomes, last));
        assert(!build_failed_at(s, outcomes, last));
        assert(standing(s, outcomes));
    } else {
        lemma_advance_build(before, outcome);
        assert(!packaged_at(s, outcomes, last));
        if outcome.status == 0 {
            assert(build_succeeded_at(s, outcomes, last));
            assert(built_before(s, outcomes, outcomes.len() as int));
            assert(!build_failed_at(s, outcomes, last));
            assert(standing(s, outcomes));
        } else {
            assert(standing(s, outcomes));
            assert(forall|i: int| !#[trigger] packaged_at(s, outcomes, i));
            assert(nothing_packaged(s, outcomes, last));
        }
    }
}

proof fn lemma_step_packaging(s: PipelineSpec, outcomes: Seq<Outcome>)
    requires
        outcomes.len() > 0,
        in_order(s, outcomes.drop_last()),
        run(s, outcomes.drop_last()).pending.len() > 0,
        all_packaging(run(s, outcomes.drop_last()).pending),
        built_before(s, outcomes.drop_last(), outcomes.len() - 1),
    ensures
        in_order(s, outcomes),
{
    let shorter = outcomes.drop_last();
    let last = outcomes.len() - 1;
    let outcome = outcomes.last();
    let before = run(s, shorter);
    let now = run(s, outcomes);
    lemma_last_step(s, outcomes);
    lemma_packaged_earlier(s, outcomes);
    lemma_advance_packaging(before, outcome);
    lemma_built_before_longer(s, outcomes, last);
    assert(is_packaging(before.pending[0]));
    assert forall|j: int| !#[trigger] build_failed_at(s, shorter, j) by {
        if build_failed_at(s, shorter, j) {
            assert(nothing_packaged(s, shorter, j));
        }
    }
    assert(!build_failed_at(s, outcomes, last));
    let j = choose|j: int| j < last && #[trigger] build_succeeded_at(s, outcomes, j);
    assert(built_before(s, outcomes, outcomes.len() as int));
    assert(standing(s, outcomes));
}

proof fn lemma_in_order_step(s: PipelineSpec, outcomes: Seq<Outcome>)
    requires
        outcomes.len() > 0,
        in_order(s, outcomes.drop_last()),
    ensures
        in_order(s, outcomes),
{
    let before = run(s, outcomes.drop_last());
    if before.pending.len() == 0 {
        lemma_step_cleanup(s, outcomes);
    } else if exists|b: int| build_ahead(before.pending, b) {
        let b = choose|b: int| build_ahead(before.pending, b);
        lemma_step_early(s, outcomes, b);
    } else {
        lemma_step_packaging(s, outcomes);
    }
}

/// Every run that starts with the build ahead is in order.
pub proof fn lemma_in_order(s: PipelineSpec, outcomes: Seq<Outcome>, paths: Paths)
    requires
        exists|b: int| build_ahead(s.pending, b),
        s.cleanup == cleanup_steps(paths),
        s.archives.len() == 0,
        s.fatal is None,
    ensures
        in_order(s, outcomes),
    decreases outcomes.len(),
{
    if outcomes.len() == 0 {
        assert(standing(s, outcomes));
    } else {
        lemma_in_order(s, outcomes.drop_last(), paths);
        lemma_in_order_step(s, outcomes);
    }
}

/// Packaging follows a successful build. In a run of a descriptor that has
/// a build script, a step of the packaging is performed only after the
/// build was performed and ended with status zero.
pub proof fn lemma_packaging_follows_build(
    descriptor: Descriptor,
    paths: Paths,
    manifest: Seq<char>,
    output: Seq<char>,
    policies: Policies,
    outcomes: Seq<Outcome>,
    i: int,
)
    requires
        descriptor.script is Some,
        packaged_at(initial(descriptor, paths, manifest, output, policies), outcomes, i),
    ensures
        built_before(initial(descriptor, paths, manifest, output, policies), outcomes, i),
{
    let s = initial(descriptor, paths, manifest, output, policies);
    lemma_plan_has_build_ahead(descriptor, paths, manifest, output, policies);
    let setup = setup_plan(descriptor.sources, paths, policies.fetch_failure_is_fatal);
    assert(build_ahead(s.pending, setup.len() as int));
    lemma_in_order(s, outcomes, paths);
}

/// A failed build packages nothing. In a run of a descriptor that has a
/// build script, once the build ended with a status that is not zero, no
/// step of the packaging is performed at any position, no archive is
/// copied out, and the run comes to the error that carries that status.
pub proof fn lemma_failed_build_packages_nothing(
    descriptor: Descriptor,
    paths: Paths,
    manifest: Seq<char>,
    output: Seq<char>,
    policies: Policies,
    outcomes: Seq<Outcome>,
    j: int,
)
    requires
        descriptor.script is Some,
        build_failed_at(initial(descriptor, paths, manifest, output, policies), outcomes, j),
    ensures
        forall|i: int| !#[trigger]
            packaged_at(initial(descriptor, paths, manifest, output, policies), outcomes, i),
        run(initial(descriptor, paths, manifest, output, policies), outcomes).archives.len() == 0,
        result_of(run(initial(descriptor, paths, manifest, output, policies), outcomes)) == Err::<
            Seq<Seq<char>>,
            PipelineError,
        >(PipelineError::Build(BuildError::NonZeroExit(outcomes[j].status))),
{
    let s = initial(descriptor, paths, manifest, output, policies);
    lemma_plan_has_build_ahead(descriptor, paths, manifest, output, policies);
    let setup = setup_plan(descriptor.sources, paths, policies.fetch_failure_is_fatal);
    assert(build_ahead(s.pending, setup.len() as int));
    lemma_in_order(s, outcomes, paths);
    assert(nothing_packaged(s, outcomes, j));
}

} // verus!
