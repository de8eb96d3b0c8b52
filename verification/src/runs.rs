//! Runs of the pipeline: what holds of every run, whatever the steps come
//! to.
//!
//! A run is the pipeline together with the outcomes that its host reported,
//! oldest first. The step performed at position `i` of a run is the step
//! that was next when the first `i` outcomes had been reported.

use vstd::prelude::*;
use crate::action::{ActionSpec, Outcome, Policies, Policy, StepKind, StepSpec};
use crate::descriptor::Descriptor;
use crate::pipeline::{advance, finished, initial, next_step, PipelineSpec};
use crate::workspace::{cleanup_steps, Paths};

verus! {

/// The state after `outcomes` were reported, starting from `s`.
pub open spec fn run(s: PipelineSpec, outcomes: Seq<Outcome>) -> PipelineSpec
    decreases outcomes.len(),
{
    if outcomes.len() == 0 {
        s
    } else {
        advance(run(s, outcomes.drop_last()), outcomes.last())
    }
}

/// The step performed at position `i` of the run: the one that was next
/// after the first `i` outcomes. None when the run was over by then.
pub open spec fn step_at(s: PipelineSpec, outcomes: Seq<Outcome>, i: int) -> Option<StepSpec> {
    next_step(run(s, outcomes.take(i)))
}

/// Whether `step` was performed in the run.
pub open spec fn performed(s: PipelineSpec, outcomes: Seq<Outcome>, step: StepSpec) -> bool {
    exists|i: int| 0 <= i < outcomes.len() && #[trigger] step_at(s, outcomes, i) == Some(step)
}

/// A run in two parts is the run of the second part from where the first
/// part led.
pub proof fn lemma_run_split(s: PipelineSpec, first: Seq<Outcome>, second: Seq<Outcome>)
    ensures
        run(s, first + second) == run(run(s, first), second),
    decreases second.len(),
{
    if second.len() == 0 {
        assert(first + second =~= first);
    } else {
        let all = first + second;
        assert(all.drop_last() =~= first + second.drop_last());
        assert(all.last() == second.last());
        lemma_run_split(s, first, second.drop_last());
    }
}

/// What was performed at a position does not depend on what was reported
/// later.
pub proof fn lemma_step_at_prefix(s: PipelineSpec, outcomes: Seq<Outcome>, n: int, i: int)
    requires
        0 <= i <= n <= outcomes.len(),
    ensures
        step_at(s, outcomes.take(n), i) == step_at(s, outcomes, i),
{
    assert(outcomes.take(n).take(i) =~= outcomes.take(i));
}

/// The step that removes the build tree.
pub open spec fn remove_build_tree(paths: Paths) -> StepSpec {
    StepSpec {
        action: ActionSpec::RemoveDir { path: paths.build_dir },
        kind: StepKind::Cleanup,
        unit: 0,
        on_failure: Policy::Continue,
    }
}

/// How far the cleanup has come: its first `k` steps were performed, and
/// the others are what is left of it.
pub open spec fn cleanup_at(
    s: PipelineSpec,
    outcomes: Seq<Outcome>,
    paths: Paths,
    k: int,
) -> bool {
    let now = run(s, outcomes);
    &&& 0 <= k <= 3
    &&& now.cleanup == cleanup_steps(paths).skip(k)
    &&& forall|j: int| 0 <= j < k ==> performed(s, outcomes, #[trigger] cleanup_steps(paths)[j])
}

proof fn lemma_performed_longer(
    s: PipelineSpec,
    outcomes: Seq<Outcome>,
    step: StepSpec,
)
    requires
        outcomes.len() > 0,
        performed(s, outcomes.drop_last(), step),
    ensures
        performed(s, outcomes, step),
{
    let shorter = outcomes.drop_last();
    let i = choose|i: int|
        0 <= i < shorter.len() && #[trigger] step_at(s, shorter, i) == Some(step);
    assert(shorter =~= outcomes.take(outcomes.len() - 1));
    lemma_step_at_prefix(s, outcomes, outcomes.len() - 1, i);
    assert(step_at(s, outcomes, i) == Some(step));
}

/// In every run the cleanup is somewhere on its way: the steps it has left
/// are the last of its three, and the others were performed.
pub proof fn lemma_cleanup_progress(s: PipelineSpec, outcomes: Seq<Outcome>, paths: Paths)
    requires
        s.cleanup == cleanup_steps(paths),
    ensures
        exists|k: int| cleanup_at(s, outcomes, paths, k),
    decreases outcomes.len(),
{
    let all = cleanup_steps(paths);
    if outcomes.len() == 0 {
        assert(all.skip(0) =~= all);
        assert(cleanup_at(s, outcomes, paths, 0));
    } else {
        let shorter = outcomes.drop_last();
        lemma_cleanup_progress(s, shorter, paths);
        let k = choose|k: int| cleanup_at(s, shorter, paths, k);
        let before = run(s, shorter);
        let now = run(s, outcomes);
        assert(outcomes.take(outcomes.len() - 1) =~= shorter);
        assert forall|j: int| 0 <= j < k implies performed(s, outcomes, #[trigger] all[j]) by {
            lemma_performed_longer(s, outcomes, all[j]);
        }
        if before.pending.len() > 0 {
            assert(now.cleanup == before.cleanup);
            assert(cleanup_at(s, outcomes, paths, k));
        } else if before.cleanup.len() > 0 {
            assert(k < 3);
            assert(before.cleanup[0] == all[k]);
            assert(now.cleanup =~= all.skip(k + 1));
            assert(step_at(s, outcomes, outcomes.len() - 1) == Some(all[k]));
            assert(performed(s, outcomes, all[k]));
            assert(cleanup_at(s, outcomes, paths, k + 1));
        } else {
            assert(cleanup_at(s, outcomes, paths, k));
        }
    }
}

/// The cleanup always runs. Whatever the steps of a run came to, once the
/// run is over the build tree was removed, and so were the output tree and
/// the package directory.
pub proof fn lemma_cleanup_always_runs(
    descriptor: Descriptor,
    paths: Paths,
    manifest: Seq<char>,
    output: Seq<char>,
    policies: Policies,
    outcomes: Seq<Outcome>,
)
    requires
        finished(run(initial(descriptor, paths, manifest, output, policies), outcomes)),
    ensures
        performed(
            initial(descriptor, paths, manifest, output, policies),
            outcomes,
            remove_build_tree(paths),
        ),
        forall|j: int|
            0 <= j < 3 ==> performed(
                initial(descriptor, paths, manifest, output, policies),
                outcomes,
                #[trigger] cleanup_steps(paths)[j],
            ),
{
    let s = initial(descriptor, paths, manifest, output, policies);
    lemma_cleanup_progress(s, outcomes, paths);
    let k = choose|k: int| cleanup_at(s, outcomes, paths, k);
    assert(cleanup_steps(paths).skip(k).len() == 3 - k);
    assert(k == 3);
    assert(cleanup_steps(paths)[0] == remove_build_tree(paths));
}

} // verus!
