//! Runs in which nothing fails: every package is archived and its archive
//! copied out, also for a descriptor without sources and build, and also
//! for a subpackage whose patterns match nothing.

use vstd::prelude::*;
use crate::text::field_len;
use crate::action::{ActionSpec, Outcome, Policies, Policy, StepKind, StepSpec};
use crate::claims::{claim_all, granted};
use crate::descriptor::{Descriptor, SubpackageSpec};
use crate::order::{is_early, lemma_collect_is_moving, lemma_setup_is_early};
use crate::error::PipelineError;
use crate::executor::build_steps;
use crate::fetch::unknown_sources;
use crate::packager::{
    collect_steps,
    delivered_archive,
    listing,
    main_steps,
    move_policy,
    records,
    subpackage_steps,
    subpackages_plan,
    SEPARATOR,
};
use crate::pipeline::{advance, finished, initial, plan, result_of, setup_plan, PipelineSpec};
use crate::runs::{lemma_run_split, run};
use crate::workspace::{cleanup_steps, scratch_steps, Paths};

verus! {

/// Whether `step`, ending with `outcome`, leaves the plan as it was: it
/// succeeded, and if it was an expansion it listed nothing in the output
/// tree.
pub open spec fn is_quiet(out_dir: Seq<char>, step: StepSpec, outcome: Outcome) -> bool {
    &&& outcome.status == 0
    &&& step.kind == StepKind::Expand ==> listing(out_dir, records(outcome.stdout)).len() == 0
}

/// The archives that the deliveries among `steps` copy out, in order.
pub open spec fn deliveries(steps: Seq<StepSpec>) -> Seq<Seq<char>>
    decreases steps.len(),
{
    if steps.len() == 0 {
        Seq::empty()
    } else {
        let before = deliveries(steps.drop_last());
        match steps.last().action {
            ActionSpec::CopyFile { to, .. } => if steps.last().kind == StepKind::Deliver {
                before.push(to)
            } else {
                before
            },
            _ => before,
        }
    }
}

/// The deliveries of two runs of steps are those of the first, then those
/// of the second.
pub proof fn lemma_deliveries_concat(first: Seq<StepSpec>, second: Seq<StepSpec>)
    ensures
        deliveries(first + second) == deliveries(first) + deliveries(second),
    decreases second.len(),
{
    if second.len() == 0 {
        assert(first + second =~= first);
        assert(deliveries(first) + deliveries(second) =~= deliveries(first));
    } else {
        let all = first + second;
        assert(all.drop_last() =~= first + second.drop_last());
        assert(all.last() == second.last());
        lemma_deliveries_concat(first, second.drop_last());
        assert(deliveries(all) =~= deliveries(first) + deliveries(second));
    }
}

/// Steps among which there is no delivery copy nothing out.
pub proof fn lemma_no_deliveries(steps: Seq<StepSpec>)
    requires
        forall|k: int| 0 <= k < steps.len() ==> (#[trigger] steps[k]).kind != StepKind::Deliver,
    ensures
        deliveries(steps) == Seq::<Seq<char>>::empty(),
    decreases steps.len(),
{
    if steps.len() > 0 {
        let fewer = steps.drop_last();
        assert forall|k: int| 0 <= k < fewer.len() implies (#[trigger] fewer[k]).kind
            != StepKind::Deliver by {
            assert(fewer[k] == steps[k]);
        }
        lemma_no_deliveries(fewer);
        assert(steps.last() == steps[steps.len() - 1]);
    }
}

/// Records that are all empty list nothing.
pub proof fn lemma_empty_records_list_nothing(out_dir: Seq<char>, printed: Seq<Seq<char>>)
    requires
        forall|i: int| 0 <= i < printed.len() ==> (#[trigger] printed[i]).len() == 0,
    ensures
        listing(out_dir, printed).len() == 0,
    decreases printed.len(),
{
    if printed.len() > 0 {
        let fewer = printed.drop_last();
        assert forall|i: int| 0 <= i < fewer.len() implies (#[trigger] fewer[i]).len() == 0 by {
            assert(fewer[i] == printed[i]);
        }
        lemma_empty_records_list_nothing(out_dir, fewer);
        assert(printed.last() == printed[printed.len() - 1]);
    }
}

/// Output that holds nothing but separators is made of empty records.
pub proof fn lemma_separators_are_empty_records(stdout: Seq<char>)
    requires
        forall|k: int| 0 <= k < stdout.len() ==> stdout[k] == SEPARATOR,
    ensures
        forall|i: int|
            0 <= i < records(stdout).len() ==> (#[trigger] records(stdout)[i]).len() == 0,
    decreases stdout.len(),
{
    if stdout.len() > 0 {
        let rest = stdout.skip(1);
        assert(field_len(stdout, SEPARATOR) == 0);
        assert forall|k: int| 0 <= k < rest.len() implies rest[k] == SEPARATOR by {
            assert(rest[k] == stdout[k + 1]);
        }
        lemma_separators_are_empty_records(rest);
        let first = seq![stdout.take(0)];
        assert(records(stdout) == first + records(rest));
        assert forall|i: int| 0 <= i < records(stdout).len() implies (#[trigger] records(
            stdout,
        )[i]).len() == 0 by {
            if i > 0 {
                assert(records(stdout)[i] == records(rest)[i - 1]);
            }
        }
    }
}

/// An expansion that matched nothing lists nothing. Where no path matches,
/// the shell prints nothing, or the separator alone; neither lists a path.
pub proof fn lemma_no_match_lists_nothing(out_dir: Seq<char>, stdout: Seq<char>)
    requires
        forall|k: int| 0 <= k < stdout.len() ==> stdout[k] == SEPARATOR,
    ensures
        listing(out_dir, records(stdout)).len() == 0,
{
    lemma_separators_are_empty_records(stdout);
    lemma_empty_records_list_nothing(out_dir, records(stdout));
}

/// A quiet step makes way for the next and changes nothing else, but that
/// a delivery adds its archive.
pub proof fn lemma_quiet_step(s: PipelineSpec, outcome: Outcome)
    requires
        s.pending.len() > 0,
        is_quiet(s.out_dir, s.pending[0], outcome),
    ensures
        advance(s, outcome) == (PipelineSpec {
            pending: s.pending.skip(1),
            archives: s.archives + deliveries(s.pending.take(1)),
            ..s
        }),
{
    let step = s.pending[0];
    let first = s.pending.take(1);
    assert(first.drop_last() =~= Seq::<StepSpec>::empty());
    assert(first.last() == step);
    assert(deliveries(first.drop_last()) =~= Seq::<Seq<char>>::empty());
    let rest = s.pending.skip(1);
    if step.kind == StepKind::Expand && step.unit < s.trees.len() {
        let listed = listing(s.out_dir, records(outcome.stdout));
        assert(listed =~= Seq::<Seq<char>>::empty());
        assert(granted(s.claims, step.unit, listed) =~= Seq::<Seq<char>>::empty());
        assert(claim_all(s.claims, step.unit, listed) == s.claims);
        assert(collect_steps(
            granted(s.claims, step.unit, listed),
            step.unit,
            s.out_dir,
            s.trees[step.unit as int],
            move_policy(step.on_failure),
        ) + rest =~= rest);
    }
    assert(s.archives + Seq::<Seq<char>>::empty() =~= s.archives);
    match step.action {
        ActionSpec::CopyFile { to, .. } => {
            assert(s.archives + Seq::<Seq<char>>::empty().push(to) =~= s.archives.push(to));
        },
        _ => {},
    }
}

/// A run of quiet steps takes them off the plan one by one and changes
/// nothing else, but that each delivery adds its archive.
pub proof fn lemma_quiet_run(s: PipelineSpec, outcomes: Seq<Outcome>)
    requires
        outcomes.len() <= s.pending.len(),
        forall|i: int|
            0 <= i < outcomes.len() ==> is_quiet(s.out_dir, s.pending[i], #[trigger] outcomes[i]),
    ensures
        run(s, outcomes) == (PipelineSpec {
            pending: s.pending.skip(outcomes.len() as int),
            archives: s.archives + deliveries(s.pending.take(outcomes.len() as int)),
            ..s
        }),
    decreases outcomes.len(),
{
    if outcomes.len() == 0 {
        assert(s.pending.skip(0) =~= s.pending);
        assert(s.pending.take(0) =~= Seq::<StepSpec>::empty());
        assert(s.archives + Seq::<Seq<char>>::empty() =~= s.archives);
    } else {
        let n = outcomes.len() - 1;
        let shorter = outcomes.drop_last();
        assert forall|i: int| 0 <= i < shorter.len() implies is_quiet(
            s.out_dir,
            s.pending[i],
            #[trigger] shorter[i],
        ) by {
            assert(shorter[i] == outcomes[i]);
        }
        lemma_quiet_run(s, shorter);
        let before = run(s, shorter);
        assert(before.pending[0] == s.pending[n]);
        assert(is_quiet(s.out_dir, s.pending[n], outcomes[n]));
        lemma_quiet_step(before, outcomes.last());
        assert(before.pending.skip(1) =~= s.pending.skip(n + 1));
        let done = s.pending.take(n);
        let one = before.pending.take(1);
        assert(s.pending.take(n + 1) =~= done + one);
        lemma_deliveries_concat(done, one);
        assert((s.archives + deliveries(done)) + deliveries(one) =~= s.archives + (deliveries(
            done,
        ) + deliveries(one)));
    }
}

/// A cleanup in which nothing fails goes through its steps and changes
/// nothing else.
pub proof fn lemma_quiet_cleanup(s: PipelineSpec, outcomes: Seq<Outcome>)
    requires
        s.pending.len() == 0,
        outcomes.len() <= s.cleanup.len(),
        forall|i: int| 0 <= i < outcomes.len() ==> (#[trigger] outcomes[i]).status == 0,
    ensures
        run(s, outcomes) == (PipelineSpec { cleanup: s.cleanup.skip(outcomes.len() as int), ..s }),
    decreases outcomes.len(),
{
    if outcomes.len() == 0 {
        assert(s.cleanup.skip(0) =~= s.cleanup);
    } else {
        let n = outcomes.len() - 1;
        let shorter = outcomes.drop_last();
        assert forall|i: int| 0 <= i < shorter.len() implies (#[trigger] shorter[i]).status
            == 0 by {
            assert(shorter[i] == outcomes[i]);
        }
        lemma_quiet_cleanup(s, shorter);
        let before = run(s, shorter);
        assert(outcomes.last() == outcomes[n]);
        assert(before.cleanup.skip(1) =~= s.cleanup.skip(n + 1));
    }
}

/// The step that creates the directory that receives the archives.
pub open spec fn output_step(output: Seq<char>) -> StepSpec {
    StepSpec {
        action: ActionSpec::CreateDir { path: output },
        kind: StepKind::Output,
        unit: 0,
        on_failure: Policy::Abort,
    }
}

/// The plan of a descriptor that has no sources, no build script and no
/// subpackages: the scratch directories are created, the output directory
/// is created, and the main package is made of the output tree, into which
/// nothing was put but the manifest.
pub proof fn lemma_bare_plan(
    descriptor: Descriptor,
    paths: Paths,
    manifest: Seq<char>,
    output: Seq<char>,
    policies: Policies,
)
    requires
        descriptor.sources.len() == 0,
        descriptor.subpackages.len() == 0,
        descriptor.script is None,
    ensures
        plan(descriptor, paths, manifest, output, policies) == scratch_steps(paths) + seq![
            output_step(output),
        ] + main_steps(descriptor.name, 0, paths, manifest, output),
        plan(descriptor, paths, manifest, output, policies).len() == 8,
        unknown_sources(descriptor.sources).len() == 0,
{
    let main = main_steps(descriptor.name, 0, paths, manifest, output);
    assert(plan(descriptor, paths, manifest, output, policies) =~= scratch_steps(paths) + seq![
        output_step(output),
    ] + main);
}

/// A descriptor without sources, build script and subpackages still comes
/// to one archive. Where every step of its run succeeds, the run is over
/// after eleven steps, nothing has failed, and the one archive copied out
/// is that of the main package.
pub proof fn lemma_bare_descriptor_yields_one_archive(
    descriptor: Descriptor,
    paths: Paths,
    manifest: Seq<char>,
    output: Seq<char>,
    policies: Policies,
    outcomes: Seq<Outcome>,
)
    requires
        descriptor.sources.len() == 0,
        descriptor.subpackages.len() == 0,
        descriptor.script is None,
        outcomes.len() == 11,
        forall|i: int| 0 <= i < outcomes.len() ==> (#[trigger] outcomes[i]).status == 0,
    ensures
        finished(run(initial(descriptor, paths, manifest, output, policies), outcomes)),
        run(initial(descriptor, paths, manifest, output, policies), outcomes).failures.len() == 0,
        result_of(run(initial(descriptor, paths, manifest, output, policies), outcomes)) == Ok::<
            Seq<Seq<char>>,
            PipelineError,
        >(seq![delivered_archive(output, descriptor.name)]),
{
    let s = initial(descriptor, paths, manifest, output, policies);
    lemma_bare_plan(descriptor, paths, manifest, output, policies);
    let main = main_steps(descriptor.name, 0, paths, manifest, output);
    let steps = s.pending;
    let work = outcomes.take(8);
    let tidy = outcomes.skip(8);
    assert(outcomes =~= work + tidy);
    assert forall|i: int| 0 <= i < work.len() implies is_quiet(
        s.out_dir,
        steps[i],
        #[trigger] work[i],
    ) by {
        assert(work[i] == outcomes[i]);
        if i < 3 {
            assert(steps[i] == scratch_steps(paths)[i]);
        } else if i == 3 {
            assert(steps[i] == output_step(output));
        } else {
            assert(steps[i] == main[i - 4]);
        }
    }
    lemma_quiet_run(s, work);
    let worked = run(s, work);
    assert(steps.take(8) =~= steps);
    assert(steps.skip(8) =~= Seq::<StepSpec>::empty());
    // Of the eight steps only the last delivers.
    let head = steps.drop_last();
    assert forall|k: int| 0 <= k < head.len() implies (#[trigger] head[k]).kind
        != StepKind::Deliver by {
        assert(head[k] == steps[k]);
        if k < 3 {
            assert(steps[k] == scratch_steps(paths)[k]);
        } else if k == 3 {
            assert(steps[k] == output_step(output));
        } else {
            assert(steps[k] == main[k - 4]);
        }
    }
    lemma_no_deliveries(head);
    assert(steps.last() == main[3]);
    assert(deliveries(steps) =~= seq![delivered_archive(output, descriptor.name)]);
    assert(worked.archives =~= seq![delivered_archive(output, descriptor.name)]);
    assert forall|i: int| 0 <= i < tidy.len() implies (#[trigger] tidy[i]).status == 0 by {
        assert(tidy[i] == outcomes[i + 8]);
    }
    lemma_quiet_cleanup(worked, tidy);
    lemma_run_split(s, work, tidy);
    assert(cleanup_steps(paths).skip(3) =~= Seq::<StepSpec>::empty());
}

/// A subpackage whose patterns match nothing is packaged all the same.
/// Where its steps are next, every one of them succeeds and none of its
/// expansions lists anything, they leave the rest of the plan to come, no
/// claim is laid and nothing is moved, and the archive of the subpackage is
/// copied out.
pub proof fn lemma_empty_match_still_packages(
    s: PipelineSpec,
    subpackage: SubpackageSpec,
    unit: usize,
    paths: Paths,
    manifest: Seq<char>,
    output: Seq<char>,
    fatal: bool,
    rest: Seq<StepSpec>,
    outcomes: Seq<Outcome>,
)
    requires
        s.pending == subpackage_steps(subpackage, unit, paths, manifest, output, fatal) + rest,
        outcomes.len() == subpackage.files.len() + 5,
        forall|i: int| 0 <= i < outcomes.len() ==> (#[trigger] outcomes[i]).status == 0,
        forall|i: int|
            1 <= i <= subpackage.files.len() ==> listing(
                s.out_dir,
                records((#[trigger] outcomes[i]).stdout),
            ).len() == 0,
    ensures
        run(s, outcomes) == (PipelineSpec {
            pending: rest,
            archives: s.archives.push(delivered_archive(output, subpackage.name)),
            ..s
        }),
{
    let own = subpackage_steps(subpackage, unit, paths, manifest, output, fatal);
    let n = subpackage.files.len() as int;
    assert(own.len() == n + 5);
    assert forall|i: int| 0 <= i < outcomes.len() implies is_quiet(
        s.out_dir,
        s.pending[i],
        #[trigger] outcomes[i],
    ) by {
        assert(s.pending[i] == own[i]);
        if i == 0 {
        } else if i <= n {
        } else {
            assert(own[i].kind != StepKind::Expand);
        }
    }
    lemma_quiet_run(s, outcomes);
    assert(s.pending.skip(n + 5) =~= rest);
    assert(s.pending.take(n + 5) =~= own);
    lemma_subpackage_delivers(subpackage, unit, paths, manifest, output, fatal);
    assert(s.archives + deliveries(own) =~= s.archives.push(
        delivered_archive(output, subpackage.name),
    ));
}

/// The archive of each subpackage where it is wanted, in the order of
/// declaration.
pub open spec fn subpackage_archives(
    subpackages: Seq<SubpackageSpec>,
    output: Seq<char>,
) -> Seq<Seq<char>> {
    Seq::new(subpackages.len(), |i: int| delivered_archive(output, subpackages[i].name))
}

/// The archive of every package where it is wanted: those of the
/// subpackages in the order of declaration, then that of the main package.
pub open spec fn package_archives(descriptor: Descriptor, output: Seq<char>) -> Seq<Seq<char>> {
    subpackage_archives(descriptor.subpackages, output).push(
        delivered_archive(output, descriptor.name),
    )
}

/// Of the steps of a subpackage one delivers: the archive of the
/// subpackage.
pub proof fn lemma_subpackage_delivers(
    subpackage: SubpackageSpec,
    unit: usize,
    paths: Paths,
    manifest: Seq<char>,
    output: Seq<char>,
    fatal: bool,
)
    ensures
        deliveries(subpackage_steps(subpackage, unit, paths, manifest, output, fatal)) == seq![
            delivered_archive(output, subpackage.name),
        ],
{
    let own = subpackage_steps(subpackage, unit, paths, manifest, output, fatal);
    let n = subpackage.files.len() as int;
    let head = own.take(n + 3);
    let tail = own.skip(n + 3);
    assert(own =~= head + tail);
    assert forall|k: int| 0 <= k < head.len() implies (#[trigger] head[k]).kind
        != StepKind::Deliver by {
        assert(head[k] == own[k]);
        if 1 <= k <= n {
            assert(own[k].kind == StepKind::Expand);
        }
    }
    lemma_no_deliveries(head);
    lemma_deliveries_concat(head, tail);
    let one = tail.drop_last();
    assert(one.drop_last() =~= Seq::<StepSpec>::empty());
    assert(tail.last() == own[n + 4]);
    assert(one.last() == own[n + 3]);
    assert(deliveries(one.drop_last()) =~= Seq::<Seq<char>>::empty());
    assert(deliveries(one) =~= seq![delivered_archive(output, subpackage.name)]);
    assert(deliveries(tail) == deliveries(one));
    assert(deliveries(own) =~= seq![delivered_archive(output, subpackage.name)]);
}

/// The steps of the subpackages deliver the archive of each, in the order
/// of declaration.
pub proof fn lemma_subpackages_deliver(
    subpackages: Seq<SubpackageSpec>,
    paths: Paths,
    manifest: Seq<char>,
    output: Seq<char>,
    fatal: bool,
)
    ensures
        deliveries(subpackages_plan(subpackages, paths, manifest, output, fatal))
            == subpackage_archives(subpackages, output),
    decreases subpackages.len(),
{
    if subpackages.len() == 0 {
        assert(subpackage_archives(subpackages, output) =~= Seq::<Seq<char>>::empty());
    } else {
        let fewer = subpackages.drop_last();
        let before = subpackages_plan(fewer, paths, manifest, output, fatal);
        let last = subpackage_steps(
            subpackages.last(),
            (subpackages.len() - 1) as usize,
            paths,
            manifest,
            output,
            fatal,
        );
        lemma_subpackages_deliver(fewer, paths, manifest, output, fatal);
        lemma_subpackage_delivers(
            subpackages.last(),
            (subpackages.len() - 1) as usize,
            paths,
            manifest,
            output,
            fatal,
        );
        lemma_deliveries_concat(before, last);
        assert(subpackage_archives(subpackages, output) =~= subpackage_archives(fewer, output)
            + seq![delivered_archive(output, subpackages.last().name)]);
    }
}

/// The plan delivers the archive of every package: those of the
/// subpackages in the order of declaration, then that of the main package.
pub proof fn lemma_plan_delivers(
    descriptor: Descriptor,
    paths: Paths,
    manifest: Seq<char>,
    output: Seq<char>,
    policies: Policies,
)
    ensures
        deliveries(plan(descriptor, paths, manifest, output, policies)) == package_archives(
            descriptor,
            output,
        ),
{
    let setup = setup_plan(descriptor.sources, paths, policies.fetch_failure_is_fatal);
    let built = build_steps(descriptor.script, paths);
    let first = seq![output_step(output)];
    let subs = subpackages_plan(
        descriptor.subpackages,
        paths,
        manifest,
        output,
        policies.subpackage_failure_is_fatal,
    );
    let main = main_steps(
        descriptor.name,
        descriptor.subpackages.len() as usize,
        paths,
        manifest,
        output,
    );
    let all = plan(descriptor, paths, manifest, output, policies);
    let none = Seq::<Seq<char>>::empty();
    lemma_setup_is_early(descriptor.sources, paths, policies.fetch_failure_is_fatal);
    assert forall|k: int| 0 <= k < setup.len() implies (#[trigger] setup[k]).kind
        != StepKind::Deliver by {
        assert(is_early(setup[k]));
    }
    lemma_no_deliveries(setup);
    lemma_no_deliveries(built);
    lemma_no_deliveries(first);
    lemma_subpackages_deliver(
        descriptor.subpackages,
        paths,
        manifest,
        output,
        policies.subpackage_failure_is_fatal,
    );
    let head = main.drop_last();
    assert forall|k: int| 0 <= k < head.len() implies (#[trigger] head[k]).kind
        != StepKind::Deliver by {
        assert(head[k] == main[k]);
    }
    lemma_no_deliveries(head);
    assert(main.last() == main[3]);
    assert(deliveries(main) =~= seq![delivered_archive(output, descriptor.name)]);
    assert(all =~= setup + built + first + subs + main);
    lemma_deliveries_concat(setup, built);
    lemma_deliveries_concat(setup + built, first);
    lemma_deliveries_concat(setup + built + first, subs);
    lemma_deliveries_concat(setup + built + first + subs, main);
    assert(none + none + none + subpackage_archives(descriptor.subpackages, output) + seq![
        delivered_archive(output, descriptor.name),
    ] =~= package_archives(descriptor, output));
}

/// What was delivered and what is still to be delivered: the archives
/// copied out so far, then those that the pending steps copy out.
pub open spec fn in_all(s: PipelineSpec) -> Seq<Seq<char>> {
    s.archives + deliveries(s.pending)
}

/// A step that succeeds loses no delivery: what was delivered and what is
/// still to be delivered stay the same together, and nothing is recorded.
pub proof fn lemma_success_step(s: PipelineSpec, outcome: Outcome)
    requires
        outcome.status == 0,
    ensures
        in_all(advance(s, outcome)) == in_all(s),
        advance(s, outcome).fatal == s.fatal,
        advance(s, outcome).failures == s.failures,
{
    if s.pending.len() > 0 {
        let step = s.pending[0];
        let first = seq![step];
        let rest = s.pending.skip(1);
        let now = advance(s, outcome);
        assert(s.pending =~= first + rest);
        lemma_deliveries_concat(first, rest);
        assert(first.drop_last() =~= Seq::<StepSpec>::empty());
        assert(first.last() == step);
        assert(deliveries(first.drop_last()) =~= Seq::<Seq<char>>::empty());
        if step.kind == StepKind::Expand && step.unit < s.trees.len() {
            let got = granted(s.claims, step.unit, listing(s.out_dir, records(outcome.stdout)));
            let tree = s.trees[step.unit as int];
            let policy = move_policy(step.on_failure);
            let extra = collect_steps(got, step.unit, s.out_dir, tree, policy);
            lemma_collect_is_moving(got, step.unit, s.out_dir, tree, policy);
            assert forall|k: int| 0 <= k < extra.len() implies (#[trigger] extra[k]).kind
                != StepKind::Deliver by {}
            lemma_no_deliveries(extra);
            lemma_deliveries_concat(extra, rest);
            assert(now.pending == extra + rest);
            assert(in_all(now) =~= in_all(s));
        } else {
            assert(now.pending == rest);
            assert(in_all(now) =~= in_all(s));
        }
    }
}

/// A run in which nothing fails loses no delivery and records nothing.
pub proof fn lemma_successful_run(s: PipelineSpec, outcomes: Seq<Outcome>)
    requires
        forall|i: int| 0 <= i < outcomes.len() ==> (#[trigger] outcomes[i]).status == 0,
    ensures
        in_all(run(s, outcomes)) == in_all(s),
        run(s, outcomes).fatal == s.fatal,
        run(s, outcomes).failures == s.failures,
    decreases outcomes.len(),
{
    if outcomes.len() > 0 {
        let shorter = outcomes.drop_last();
        assert forall|i: int| 0 <= i < shorter.len() implies (#[trigger] shorter[i]).status
            == 0 by {
            assert(shorter[i] == outcomes[i]);
        }
        lemma_successful_run(s, shorter);
        assert(outcomes.last() == outcomes[outcomes.len() - 1]);
        lemma_success_step(run(s, shorter), outcomes.last());
    }
}

/// Where nothing fails, every package is delivered. A run in which every
/// step succeeded and that is over has copied out the archive of every
/// package, those of the subpackages in the order of declaration and then
/// that of the main package, and has recorded no failure but the sources of
/// unknown kind.
pub proof fn lemma_success_delivers_every_package(
    descriptor: Descriptor,
    paths: Paths,
    manifest: Seq<char>,
    output: Seq<char>,
    policies: Policies,
    outcomes: Seq<Outcome>,
)
    requires
        forall|i: int| 0 <= i < outcomes.len() ==> (#[trigger] outcomes[i]).status == 0,
        finished(run(initial(descriptor, paths, manifest, output, policies), outcomes)),
    ensures
        result_of(run(initial(descriptor, paths, manifest, output, policies), outcomes)) == Ok::<
            Seq<Seq<char>>,
            PipelineError,
        >(package_archives(descriptor, output)),
        run(initial(descriptor, paths, manifest, output, policies), outcomes).failures
            == unknown_sources(descriptor.sources),
{
    let s = initial(descriptor, paths, manifest, output, policies);
    let end = run(s, outcomes);
    lemma_successful_run(s, outcomes);
    lemma_plan_delivers(descriptor, paths, manifest, output, policies);
    assert(end.pending =~= Seq::<StepSpec>::empty());
    assert(in_all(end) =~= end.archives);
    assert(in_all(s) =~= package_archives(descriptor, output));
}

} // verus!
