//! What every archive holds: no package is archived, and no archive copied
//! out, before the manifest was written into the tree of the package.

use vstd::prelude::*;
use crate::action::{stage_of, Outcome, Policies, Policy, Stage, StepKind, StepSpec};
use crate::descriptor::{Descriptor, SubpackageSpec};
use crate::executor::build_steps;
use crate::order::{
    is_early,
    lemma_advance_pending,
    lemma_setup_is_early,
    lemma_skip_is_suffix,
    moved_in,
    taken_off,
};
use crate::packager::{main_steps, subpackage_steps, subpackages_plan};
use crate::pipeline::{given_up, initial, plan, setup_plan, PipelineSpec};
use crate::runs::run;
use crate::success::output_step;
use crate::workspace::Paths;

verus! {

/// Whether `step` closes a package: it archives the tree of the package, or
/// copies its archive out.
pub open spec fn closes(step: StepSpec) -> bool {
    step.kind == StepKind::Archive || step.kind == StepKind::Deliver
}

/// Whether `step` is bound to the packaging of package number `unit`: it
/// belongs to it, and goes when the package is given up.
pub open spec fn bound_to(step: StepSpec, unit: usize) -> bool {
    given_up(step, Stage::Package, unit)
}

/// Whether the step at `i` of `pending` writes the manifest of the package
/// that the step at `j` belongs to, and stands guard over it: its failure
/// is fatal, and all that comes after it up to `j` is bound to the
/// packaging of that package.
pub open spec fn guards(pending: Seq<StepSpec>, i: int, j: int) -> bool {
    &&& 0 <= i < j < pending.len()
    &&& pending[i].kind == StepKind::Manifest
    &&& pending[i].on_failure == Policy::Abort
    &&& pending[i].unit == pending[j].unit
    &&& forall|k: int| i < k <= j ==> bound_to(#[trigger] pending[k], pending[i].unit)
}

/// Whether the manifest was written into the tree of package number `unit`
/// at position `i` of the run.
pub open spec fn manifest_written_at(
    s: PipelineSpec,
    outcomes: Seq<Outcome>,
    i: int,
    unit: usize,
) -> bool {
    &&& 0 <= i < outcomes.len()
    &&& run(s, outcomes.take(i)).pending.len() > 0
    &&& run(s, outcomes.take(i)).pending[0].kind == StepKind::Manifest
    &&& run(s, outcomes.take(i)).pending[0].unit == unit
    &&& outcomes[i].status == 0
}

/// Whether the manifest was written into the tree of package number `unit`
/// before position `j` of the run.
pub open spec fn manifest_written(
    s: PipelineSpec,
    outcomes: Seq<Outcome>,
    unit: usize,
    j: int,
) -> bool {
    exists|i: int| i < j && #[trigger] manifest_written_at(s, outcomes, i, unit)
}

/// Whether package number `unit` was closed at position `j` of the run: a
/// step that archives its tree, or copies its archive out, was performed.
pub open spec fn closed_at(s: PipelineSpec, outcomes: Seq<Outcome>, j: int, unit: usize) -> bool {
    &&& 0 <= j < outcomes.len()
    &&& run(s, outcomes.take(j)).pending.len() > 0
    &&& closes(run(s, outcomes.take(j)).pending[0])
    &&& run(s, outcomes.take(j)).pending[0].unit == unit
}

/// Whether every pending step that closes a package has the manifest of
/// the package behind it, or a step that writes it standing guard.
pub open spec fn guarded(s: PipelineSpec, outcomes: Seq<Outcome>) -> bool {
    let pending = run(s, outcomes).pending;
    forall|j: int|
        0 <= j < pending.len() && closes(#[trigger] pending[j]) ==> manifest_written(
            s,
            outcomes,
            pending[j].unit,
            outcomes.len() as int,
        ) || exists|i: int| guards(pending, i, j)
}

/// What holds of every run with respect to the manifest.
pub open spec fn manifest_first(s: PipelineSpec, outcomes: Seq<Outcome>) -> bool {
    &&& guarded(s, outcomes)
    &&& forall|j: int, unit: usize| #[trigger]
        closed_at(s, outcomes, j, unit) ==> manifest_written(s, outcomes, unit, j)
}

proof fn lemma_written_before(s: PipelineSpec, outcomes: Seq<Outcome>)
    requires
        outcomes.len() > 0,
    ensures
        outcomes.take(outcomes.len() - 1) == outcomes.drop_last(),
        forall|i: int, unit: usize|
            i < outcomes.len() - 1 ==> #[trigger] manifest_written_at(s, outcomes, i, unit)
                == manifest_written_at(s, outcomes.drop_last(), i, unit),
        forall|j: int, unit: usize|
            j < outcomes.len() - 1 ==> #[trigger] closed_at(s, outcomes, j, unit) == closed_at(
                s,
                outcomes.drop_last(),
                j,
                unit,
            ),
        forall|j: int, unit: usize|
            j <= outcomes.len() - 1 && manifest_written(s, outcomes.drop_last(), unit, j)
                ==> #[trigger] manifest_written(s, outcomes, unit, j),
{
    let shorter = outcomes.drop_last();
    assert(outcomes.take(outcomes.len() - 1) =~= shorter);
    assert forall|i: int, unit: usize|
        i < outcomes.len() - 1 implies #[trigger] manifest_written_at(s, outcomes, i, unit)
        == manifest_written_at(s, shorter, i, unit) by {
        if 0 <= i {
            assert(shorter.take(i) =~= outcomes.take(i));
        }
    }
    assert forall|j: int, unit: usize| j < outcomes.len() - 1 implies #[trigger] closed_at(
        s,
        outcomes,
        j,
        unit,
    ) == closed_at(s, shorter, j, unit) by {
        if 0 <= j {
            assert(shorter.take(j) =~= outcomes.take(j));
        }
    }
    assert forall|j: int, unit: usize|
        j <= outcomes.len() - 1 && manifest_written(
            s,
            shorter,
            unit,
            j,
        ) implies #[trigger] manifest_written(s, outcomes, unit, j) by {
        let i = choose|i: int| i < j && #[trigger] manifest_written_at(s, shorter, i, unit);
        assert(manifest_written_at(s, outcomes, i, unit));
    }
}

proof fn lemma_guard_stays(
    before: Seq<StepSpec>,
    now: Seq<StepSpec>,
    ahead: int,
    off: int,
    i: int,
    j: int,
)
    requires
        guards(before, i, j),
        0 <= ahead,
        off <= i,
        now.len() == ahead + before.len() - off,
        forall|k: int| ahead <= k < now.len() ==> #[trigger] now[k] == before[k - ahead + off],
    ensures
        guards(now, i - off + ahead, j - off + ahead),
{
    let shift = ahead - off;
    assert forall|k: int| i + shift < k <= j + shift implies bound_to(
        #[trigger] now[k],
        now[i + shift].unit,
    ) by {
        assert(bound_to(before[k - shift], before[i].unit));
    }
}

proof fn lemma_manifest_step(s: PipelineSpec, outcomes: Seq<Outcome>)
    requires
        outcomes.len() > 0,
        manifest_first(s, outcomes.drop_last()),
    ensures
        manifest_first(s, outcomes),
{
    let shorter = outcomes.drop_last();
    let last = outcomes.len() - 1;
    let outcome = outcomes.last();
    let before = run(s, shorter);
    let now = run(s, outcomes);
    lemma_written_before(s, outcomes);
    assert forall|j: int, unit: usize| #[trigger] closed_at(
        s,
        outcomes,
        j,
        unit,
    ) implies manifest_written(s, outcomes, unit, j) by {
        if j < last {
            assert(closed_at(s, shorter, j, unit));
        } else {
            assert(closes(before.pending[0]));
            if exists|i: int| guards(before.pending, i, 0) {
                let i = choose|i: int| guards(before.pending, i, 0);
                assert(false);
            }
            assert(manifest_written(s, shorter, unit, last));
        }
    }
    if before.pending.len() > 0 {
        let step = before.pending[0];
        let extra = moved_in(before, outcome);
        let off = taken_off(before, outcome);
        let ahead = extra.len() as int;
        lemma_advance_pending(before, outcome);
        assert forall|k: int| ahead <= k < now.pending.len() implies #[trigger] now.pending[k]
            == before.pending[k - ahead + off] by {
            assert(now.pending[k] == before.pending.skip(off)[k - ahead]);
        }
        assert forall|j: int|
            0 <= j < now.pending.len() && closes(
                #[trigger] now.pending[j],
            ) implies manifest_written(s, outcomes, now.pending[j].unit, outcomes.len() as int)
            || exists|i: int| guards(now.pending, i, j) by {
            if j < ahead {
                assert(now.pending[j] == extra[j]);
            }
            let was = j - ahead + off;
            let unit = now.pending[j].unit;
            assert(now.pending[j] == before.pending[was]);
            if manifest_written(s, shorter, unit, last) {
                assert(manifest_written(s, outcomes, unit, last));
                let i = choose|i: int| i < last && #[trigger] manifest_written_at(
                    s,
                    outcomes,
                    i,
                    unit,
                );
                assert(manifest_written_at(s, outcomes, i, unit));
            } else {
                let i = choose|i: int| guards(before.pending, i, was);
                if i >= off {
                    lemma_guard_stays(before.pending, now.pending, ahead, off, i, was);
                    assert(guards(now.pending, i - off + ahead, j));
                } else if i == 0 {
                    // The step performed wrote the manifest; had it failed,
                    // nothing would be pending.
                    assert(step.on_failure == Policy::Abort);
                    assert(outcome.status == 0);
                    assert(outcomes[last] == outcome);
                    assert(manifest_written_at(s, outcomes, last, unit));
                } else {
                    // A unit was given up, the manifest with it; then so
                    // were all the steps that it stood guard over.
                    let rest = before.pending.skip(1);
                    lemma_skip_is_suffix(rest, stage_of(step.kind), step.unit);
                    assert(rest[i - 1] == before.pending[i]);
                    assert(given_up(before.pending[i], stage_of(step.kind), step.unit));
                    assert(bound_to(before.pending[off], before.pending[i].unit));
                    assert(rest[off - 1] == before.pending[off]);
                    assert(false);
                }
            }
        }
    }
}

/// In every run that starts with the manifests standing guard, no package
/// is closed before its manifest was written.
pub proof fn lemma_manifest_first(s: PipelineSpec, outcomes: Seq<Outcome>)
    requires
        forall|j: int|
            0 <= j < s.pending.len() && closes(#[trigger] s.pending[j]) ==> exists|i: int|
                guards(s.pending, i, j),
    ensures
        manifest_first(s, outcomes),
    decreases outcomes.len(),
{
    if outcomes.len() > 0 {
        lemma_manifest_first(s, outcomes.drop_last());
        lemma_manifest_step(s, outcomes);
    }
}

/// Whether every step of `steps` that closes a package has a step before
/// it, among `steps`, that writes the manifest and stands guard over it.
pub open spec fn all_guarded(steps: Seq<StepSpec>) -> bool {
    forall|j: int|
        0 <= j < steps.len() && closes(#[trigger] steps[j]) ==> exists|i: int|
            guards(steps, i, j)
}

/// Steps that are guarded among themselves stay so among others.
pub proof fn lemma_guarded_among(front: Seq<StepSpec>, steps: Seq<StepSpec>, back: Seq<StepSpec>)
    requires
        all_guarded(steps),
    ensures
        forall|j: int|
            front.len() <= j < front.len() + steps.len() && closes(
                #[trigger] (front + steps + back)[j],
            ) ==> exists|i: int| guards(front + steps + back, i, j),
{
    let all = front + steps + back;
    let ahead = front.len() as int;
    assert forall|j: int| ahead <= j < ahead + steps.len() && closes(
        #[trigger] all[j],
    ) implies exists|i: int| guards(all, i, j) by {
        assert(all[j] == steps[j - ahead]);
        let inner = j - ahead;
        let i = choose|i: int| guards(steps, i, inner);
        assert forall|k: int| i + ahead < k <= j implies bound_to(
            #[trigger] all[k],
            all[i + ahead].unit,
        ) by {
            assert(all[k] == steps[k - ahead]);
            assert(bound_to(steps[k - ahead], steps[i].unit));
        }
        assert(all[i + ahead] == steps[i]);
        assert(guards(all, i + ahead, j));
    }
}

/// In the steps of a subpackage the manifest stands guard over the
/// archive and its delivery.
pub proof fn lemma_subpackage_is_guarded(
    subpackage: SubpackageSpec,
    unit: usize,
    paths: Paths,
    manifest: Seq<char>,
    output: Seq<char>,
    fatal: bool,
)
    ensures
        all_guarded(subpackage_steps(subpackage, unit, paths, manifest, output, fatal)),
{
    let own = subpackage_steps(subpackage, unit, paths, manifest, output, fatal);
    let n = subpackage.files.len() as int;
    assert forall|j: int| 0 <= j < own.len() && closes(#[trigger] own[j]) implies exists|i: int|
        guards(own, i, j) by {
        if 1 <= j <= n {
            assert(own[j].kind == StepKind::Expand);
        }
        assert(j == n + 2 || j == n + 3);
        assert(own[n + 1].kind == StepKind::Manifest);
        assert forall|k: int| n + 1 < k <= j implies bound_to(#[trigger] own[k], unit) by {}
        assert(guards(own, n + 1, j));
    }
}

/// In the steps of the subpackages every manifest stands guard over its
/// archive and the delivery of it.
pub proof fn lemma_subpackages_are_guarded(
    subpackages: Seq<SubpackageSpec>,
    paths: Paths,
    manifest: Seq<char>,
    output: Seq<char>,
    fatal: bool,
)
    ensures
        all_guarded(subpackages_plan(subpackages, paths, manifest, output, fatal)),
    decreases subpackages.len(),
{
    if subpackages.len() > 0 {
        let before = subpackages_plan(subpackages.drop_last(), paths, manifest, output, fatal);
        let last = subpackage_steps(
            subpackages.last(),
            (subpackages.len() - 1) as usize,
            paths,
            manifest,
            output,
            fatal,
        );
        let none = Seq::<StepSpec>::empty();
        let all = subpackages_plan(subpackages, paths, manifest, output, fatal);
        lemma_subpackages_are_guarded(subpackages.drop_last(), paths, manifest, output, fatal);
        lemma_subpackage_is_guarded(
            subpackages.last(),
            (subpackages.len() - 1) as usize,
            paths,
            manifest,
            output,
            fatal,
        );
        lemma_guarded_among(none, before, last);
        lemma_guarded_among(before, last, none);
        assert(none + before + last =~= all);
        assert(before + last + none =~= all);
    }
}

/// In the plan every manifest stands guard over the archive of its package
/// and the delivery of it.
pub proof fn lemma_plan_is_guarded(
    descriptor: Descriptor,
    paths: Paths,
    manifest: Seq<char>,
    output: Seq<char>,
    policies: Policies,
)
    ensures
        all_guarded(plan(descriptor, paths, manifest, output, policies)),
{
    let setup = setup_plan(descriptor.sources, paths, policies.fetch_failure_is_fatal);
    let built = build_steps(descriptor.script, paths);
    let subs = subpackages_plan(
        descriptor.subpackages,
        paths,
        manifest,
        output,
        policies.subpackage_failure_is_fatal,
    );
    let unit = descriptor.subpackages.len() as usize;
    let main = main_steps(descriptor.name, unit, paths, manifest, output);
    let all = plan(descriptor, paths, manifest, output, policies);
    let front = setup + built + seq![output_step(output)];
    let none = Seq::<StepSpec>::empty();
    lemma_setup_is_early(descriptor.sources, paths, policies.fetch_failure_is_fatal);
    lemma_subpackages_are_guarded(
        descriptor.subpackages,
        paths,
        manifest,
        output,
        policies.subpackage_failure_is_fatal,
    );
    assert forall|j: int| 0 <= j < main.len() && closes(#[trigger] main[j]) implies exists|i: int|
        guards(main, i, j) by {
        assert forall|k: int| 0 < k <= j implies bound_to(#[trigger] main[k], unit) by {}
        assert(guards(main, 0, j));
    }
    lemma_guarded_among(front, subs, main);
    lemma_guarded_among(front + subs, main, none);
    assert(front + subs + main =~= all);
    assert(front + subs + main + none =~= all);
    assert forall|j: int| 0 <= j < all.len() && closes(#[trigger] all[j]) implies exists|i: int|
        guards(all, i, j) by {
        if j < setup.len() {
            assert(all[j] == setup[j]);
            assert(is_early(setup[j]));
        } else if j < setup.len() + built.len() {
            assert(all[j] == built[j - setup.len()]);
        } else if j < front.len() {
        } else if j < front.len() + subs.len() {
            assert(all[j] == (front + subs + main)[j]);
        } else {
            assert(all[j] == (front + subs + main + none)[j]);
        }
    }
}

/// Every archive holds the manifest. In every run, the tree of a package is
/// archived, and its archive copied out, only after the manifest was written
/// into that tree.
pub proof fn lemma_archives_hold_the_manifest(
    descriptor: Descriptor,
    paths: Paths,
    manifest: Seq<char>,
    output: Seq<char>,
    policies: Policies,
    outcomes: Seq<Outcome>,
    j: int,
    unit: usize,
)
    requires
        closed_at(initial(descriptor, paths, manifest, output, policies), outcomes, j, unit),
    ensures
        manifest_written(
            initial(descriptor, paths, manifest, output, policies),
            outcomes,
            unit,
            j,
        ),
{
    let s = initial(descriptor, paths, manifest, output, policies);
    lemma_plan_is_guarded(descriptor, paths, manifest, output, policies);
    lemma_manifest_first(s, outcomes);
}

} // verus!
