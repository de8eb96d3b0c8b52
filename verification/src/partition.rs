//! How a run parts the output tree among the packages: every path goes to
//! the subpackage that asked for it first, under the relative path it had.

use vstd::prelude::*;
use crate::action::{ActionSpec, Outcome, Policies, Policy, StepKind, StepSpec};
use crate::claims::{
    claim_all,
    claim_one,
    covered,
    first_to_ask,
    granted,
    lemma_first_declared_wins,
    lemma_first_request_wins,
    lemma_owner_iff_covered,
    lemma_served_claim_all,
    owner_of,
    requests_of,
    served,
    ClaimSpec,
    Request,
};
use crate::descriptor::{Descriptor, SubpackageSpec};
use crate::executor::build_steps;
use crate::order::{is_early, lemma_advance_pending, lemma_setup_is_early, moved_in, taken_off};
use crate::packager::{
    listing,
    main_steps,
    move_command,
    move_steps,
    records,
    subpackage_steps,
    subpackages_plan,
    SEPARATOR,
};
use crate::path::{is_under, lemma_relative_join, relative, within};
use crate::pipeline::{advance, initial, plan, setup_plan, PipelineSpec};
use crate::runs::run;
use crate::text::{field_len, lemma_field_len};
use crate::workspace::Paths;

verus! {

/// What the expansion performed next in `s` asks for when it ends with
/// `outcome`: each path it lists, for its subpackage. Nothing when the step
/// that is next is no expansion, or fails.
pub open spec fn asks(s: PipelineSpec, outcome: Outcome) -> Seq<Request> {
    if s.pending.len() > 0 && s.pending[0].kind == StepKind::Expand && outcome.status == 0
        && s.pending[0].unit < s.trees.len() {
        requests_of(s.pending[0].unit, listing(s.out_dir, records(outcome.stdout)))
    } else {
        Seq::empty()
    }
}

/// All that was asked for in a run, in the order in which it was asked.
pub open spec fn asked(s: PipelineSpec, outcomes: Seq<Outcome>) -> Seq<Request>
    decreases outcomes.len(),
{
    if outcomes.len() == 0 {
        Seq::empty()
    } else {
        asked(s, outcomes.drop_last()) + asks(run(s, outcomes.drop_last()), outcomes.last())
    }
}

/// The claims that stand after a run are those that serving all that was
/// asked for leads to.
pub proof fn lemma_claims_are_served(
    s: PipelineSpec,
    outcomes: Seq<Outcome>,
    earlier: Seq<Request>,
)
    requires
        s.claims == served(earlier),
    ensures
        run(s, outcomes).claims == served(earlier + asked(s, outcomes)),
    decreases outcomes.len(),
{
    if outcomes.len() == 0 {
        assert(earlier + asked(s, outcomes) =~= earlier);
    } else {
        let shorter = outcomes.drop_last();
        let before = run(s, shorter);
        let outcome = outcomes.last();
        lemma_claims_are_served(s, shorter, earlier);
        let so_far = earlier + asked(s, shorter);
        let more = asks(before, outcome);
        assert(earlier + asked(s, outcomes) =~= so_far + more);
        if more.len() == 0 {
            assert(so_far + more =~= so_far);
            if before.pending.len() > 0 && before.pending[0].kind == StepKind::Expand
                && outcome.status == 0 && before.pending[0].unit < before.trees.len() {
                let listed = listing(before.out_dir, records(outcome.stdout));
                assert(listed.len() == 0);
                assert(claim_all(before.claims, before.pending[0].unit, listed)
                    == before.claims);
            }
        } else {
            let unit = before.pending[0].unit;
            let listed = listing(before.out_dir, records(outcome.stdout));
            lemma_served_claim_all(so_far, unit, listed);
        }
    }
}

/// In a run, the first to ask wins. After any run of the pipeline, a path
/// of the output tree belongs to the subpackage whose expansion was the
/// first to list it or a directory above it, and to no other; a path that
/// no expansion listed belongs to the main package.
pub proof fn lemma_run_first_request_wins(
    descriptor: Descriptor,
    paths: Paths,
    manifest: Seq<char>,
    output: Seq<char>,
    policies: Policies,
    outcomes: Seq<Outcome>,
    p: Seq<char>,
)
    ensures
        ({
            let s = initial(descriptor, paths, manifest, output, policies);
            match owner_of(run(s, outcomes).claims, p) {
                Some(owner) => exists|i: int| #[trigger]
                    first_to_ask(asked(s, outcomes), i, p) && asked(s, outcomes)[i].owner
                        == owner,
                None => forall|i: int|
                    0 <= i < asked(s, outcomes).len() ==> !within(
                        #[trigger] asked(s, outcomes)[i].path,
                        p,
                    ),
            }
        }),
{
    let s = initial(descriptor, paths, manifest, output, policies);
    let none = Seq::<Request>::empty();
    lemma_claims_are_served(s, outcomes, none);
    assert(none + asked(s, outcomes) =~= asked(s, outcomes));
    lemma_first_request_wins(asked(s, outcomes), p);
}

/// A path that has an owner keeps it when another claim is laid.
pub proof fn lemma_claim_one_keeps_owner(
    claims: Seq<ClaimSpec>,
    owner: usize,
    p: Seq<char>,
    q: Seq<char>,
)
    requires
        owner_of(claims, q) is Some,
    ensures
        owner_of(claim_one(claims, owner, p), q) == owner_of(claims, q),
{
    if !covered(claims, p) {
        let now = claims.push(ClaimSpec { path: p, owner });
        assert(now.drop_last() =~= claims);
    }
}

/// A path that has an owner keeps it whatever is claimed later.
pub proof fn lemma_claim_all_keeps_owner(
    claims: Seq<ClaimSpec>,
    owner: usize,
    listed: Seq<Seq<char>>,
    q: Seq<char>,
)
    requires
        owner_of(claims, q) is Some,
    ensures
        owner_of(claim_all(claims, owner, listed), q) == owner_of(claims, q),
    decreases listed.len(),
{
    if listed.len() > 0 {
        lemma_claim_all_keeps_owner(claims, owner, listed.drop_last(), q);
        lemma_claim_one_keeps_owner(
            claim_all(claims, owner, listed.drop_last()),
            owner,
            listed.last(),
            q,
        );
    }
}

/// What a subpackage got is its own: each path it was granted was listed
/// by it, was free before, and belongs to it afterwards.
pub proof fn lemma_granted_is_owned(
    claims: Seq<ClaimSpec>,
    owner: usize,
    listed: Seq<Seq<char>>,
    i: int,
)
    requires
        0 <= i < granted(claims, owner, listed).len(),
    ensures
        listed.contains(granted(claims, owner, listed)[i]),
        owner_of(claims, granted(claims, owner, listed)[i]) is None,
        owner_of(claim_all(claims, owner, listed), granted(claims, owner, listed)[i]) == Some(
            owner,
        ),
    decreases listed.len(),
{
    let got = granted(claims, owner, listed);
    let q = got[i];
    let fewer = listed.drop_last();
    let standing = claim_all(claims, owner, fewer);
    let got_before = granted(claims, owner, fewer);
    if i < got_before.len() {
        assert(got[i] == got_before[i]);
        lemma_granted_is_owned(claims, owner, fewer, i);
        let k = choose|k: int| 0 <= k < fewer.len() && fewer[k] == q;
        assert(listed[k] == q);
        lemma_claim_one_keeps_owner(standing, owner, listed.last(), q);
    } else {
        assert(q == listed.last());
        assert(listed[listed.len() - 1] == q);
        assert(!covered(standing, q));
        lemma_owner_iff_covered(standing, q);
        let now = standing.push(ClaimSpec { path: q, owner });
        assert(now.drop_last() =~= standing);
        if owner_of(claims, q) is Some {
            lemma_claim_all_keeps_owner(claims, owner, fewer, q);
        }
    }
}

/// Each path that an expansion lists is a record that the shell printed,
/// lying below the output tree, without the output tree in front.
pub proof fn lemma_listing_is_relative(out_dir: Seq<char>, printed: Seq<Seq<char>>, i: int)
    requires
        0 <= i < listing(out_dir, printed).len(),
    ensures
        exists|k: int|
            0 <= k < printed.len() && is_under(out_dir, #[trigger] printed[k]) && listing(
                out_dir,
                printed,
            )[i] == relative(out_dir, printed[k]) && out_dir.push('/') + listing(
                out_dir,
                printed,
            )[i] == printed[k],
    decreases printed.len(),
{
    let fewer = printed.drop_last();
    let before = listing(out_dir, fewer);
    if i < before.len() {
        assert(listing(out_dir, printed)[i] == before[i]);
        lemma_listing_is_relative(out_dir, fewer, i);
        let k = choose|k: int|
            0 <= k < fewer.len() && is_under(out_dir, #[trigger] fewer[k]) && before[i]
                == relative(out_dir, fewer[k]) && out_dir.push('/') + before[i] == fewer[k];
        assert(printed[k] == fewer[k]);
    } else {
        let k = printed.len() - 1;
        assert(printed[k] == printed.last());
        lemma_relative_join(out_dir, printed[k]);
    }
}

/// Whether `text` can be part of a path: it holds no `SEPARATOR`.
pub open spec fn is_path_text(text: Seq<char>) -> bool {
    forall|k: int| 0 <= k < text.len() ==> text[k] != SEPARATOR
}

/// The paths `rels` of the output tree, each with `out_dir` and a `/` in
/// front.
pub open spec fn paths_below(out_dir: Seq<char>, rels: Seq<Seq<char>>) -> Seq<Seq<char>> {
    Seq::new(rels.len(), |i: int| out_dir.push('/') + rels[i])
}

/// What the shell prints when a pattern matches the paths `rels` of the
/// output tree: each with `out_dir` and a `/` in front and a `SEPARATOR`
/// behind it, one after the other.
pub open spec fn printed(out_dir: Seq<char>, rels: Seq<Seq<char>>) -> Seq<char>
    decreases rels.len(),
{
    if rels.len() == 0 {
        Seq::empty()
    } else {
        (out_dir.push('/') + rels[0]).push(SEPARATOR) + printed(out_dir, rels.skip(1))
    }
}

/// The records of what the shell prints are the paths that matched, and an
/// empty record behind the last separator.
pub proof fn lemma_records_of_printed(out_dir: Seq<char>, rels: Seq<Seq<char>>)
    requires
        is_path_text(out_dir),
        forall|i: int| 0 <= i < rels.len() ==> is_path_text(#[trigger] rels[i]),
    ensures
        records(printed(out_dir, rels)) == paths_below(out_dir, rels).push(Seq::empty()),
    decreases rels.len(),
{
    let text = printed(out_dir, rels);
    let none = Seq::<char>::empty();
    if rels.len() == 0 {
        assert(field_len(text, SEPARATOR) == 0);
        assert(records(text) =~= paths_below(out_dir, rels).push(none));
    } else {
        let first = out_dir.push('/') + rels[0];
        let others = rels.skip(1);
        let rest = printed(out_dir, others);
        let n = first.len();
        assert(is_path_text(rels[0]));
        assert forall|k: int| 0 <= k < n implies text[k] != SEPARATOR by {
            assert(text[k] == first[k]);
            if k < out_dir.len() {
                assert(first[k] == out_dir[k]);
            } else if k > out_dir.len() {
                assert(first[k] == rels[0][k - out_dir.len() - 1]);
            }
        }
        assert(text[n as int] == SEPARATOR);
        lemma_field_len(text, SEPARATOR, n);
        assert(text.take(n as int) =~= first);
        assert(text.skip(n as int + 1) =~= rest);
        assert forall|i: int| 0 <= i < others.len() implies is_path_text(
            #[trigger] others[i],
        ) by {
            assert(others[i] == rels[i + 1]);
        }
        lemma_records_of_printed(out_dir, others);
        assert(records(text) == seq![first] + records(rest));
        assert(records(text) =~= paths_below(out_dir, rels).push(none)) by {
            let all = paths_below(out_dir, rels).push(none);
            assert(records(text).len() == all.len());
            assert forall|i: int| 0 <= i < all.len() implies records(text)[i] == all[i] by {
                if 0 < i < rels.len() {
                    assert(records(rest)[i - 1] == paths_below(out_dir, others)[i - 1]);
                    assert(others[i - 1] == rels[i]);
                }
            }
        }
    }
}

/// Paths of the output tree, written with `out_dir` in front, are listed
/// as they are without it.
pub proof fn lemma_listing_of_paths(out_dir: Seq<char>, rels: Seq<Seq<char>>)
    requires
        forall|i: int| 0 <= i < rels.len() ==> (#[trigger] rels[i]).len() > 0,
    ensures
        listing(out_dir, paths_below(out_dir, rels)) == rels,
    decreases rels.len(),
{
    let all = paths_below(out_dir, rels);
    if rels.len() == 0 {
        assert(listing(out_dir, all) =~= rels);
    } else {
        let fewer = rels.drop_last();
        assert(all.drop_last() =~= paths_below(out_dir, fewer));
        assert forall|i: int| 0 <= i < fewer.len() implies (#[trigger] fewer[i]).len() > 0 by {
            assert(fewer[i] == rels[i]);
        }
        lemma_listing_of_paths(out_dir, fewer);
        let last = all.last();
        let head = out_dir.push('/');
        assert(rels.last() == rels[rels.len() - 1]);
        assert(last == head + rels.last());
        assert(head =~= last.subrange(0, head.len() as int));
        assert(is_under(out_dir, last));
        assert(relative(out_dir, last) =~= rels.last());
        assert(listing(out_dir, all) =~= rels);
    }
}

/// Every match is listed, under its own name. Whatever paths of the output
/// tree a pattern matches, and whatever characters their names hold, white
/// space among them: from what the shell prints for them the library lists
/// exactly those paths, each once for each time it was printed, in the
/// order in which they were printed. A pattern that matches nothing lists
/// nothing.
pub proof fn lemma_matches_are_listed(out_dir: Seq<char>, rels: Seq<Seq<char>>)
    requires
        is_path_text(out_dir),
        forall|i: int|
            0 <= i < rels.len() ==> is_path_text(#[trigger] rels[i]) && rels[i].len() > 0,
    ensures
        listing(out_dir, records(printed(out_dir, rels))) == rels,
{
    lemma_records_of_printed(out_dir, rels);
    lemma_listing_of_paths(out_dir, rels);
    let all = paths_below(out_dir, rels);
    let with_end = all.push(Seq::empty());
    assert(with_end.drop_last() =~= all);
    assert(with_end.last().len() == 0);
}

/// All that a subpackage asks for is covered afterwards: by the claim it
/// was granted, or by the claim that stood before.
pub proof fn lemma_asked_is_covered(
    claims: Seq<ClaimSpec>,
    owner: usize,
    listed: Seq<Seq<char>>,
    i: int,
)
    requires
        0 <= i < listed.len(),
    ensures
        covered(claim_all(claims, owner, listed), listed[i]),
    decreases listed.len(),
{
    let fewer = listed.drop_last();
    let standing = claim_all(claims, owner, fewer);
    let now = claim_all(claims, owner, listed);
    let last = listed.last();
    if i < fewer.len() {
        lemma_asked_is_covered(claims, owner, fewer, i);
        assert(fewer[i] == listed[i]);
        let k = choose|k: int| 0 <= k < standing.len() && within(
            #[trigger] standing[k].path,
            listed[i],
        );
        if !covered(standing, last) {
            assert(now[k] == standing[k]);
        }
        assert(within(now[k].path, listed[i]));
    } else {
        assert(listed[i] == last);
        if !covered(standing, last) {
            assert(within(now[now.len() - 1].path, last));
        }
    }
}

/// Every match is claimed. Where an expansion succeeds and prints the
/// paths `rels` of the output tree, whatever characters their names hold,
/// the subpackage asks for exactly those paths, and each of them has an
/// owner afterwards.
pub proof fn lemma_expansion_claims_every_match(
    s: PipelineSpec,
    outcome: Outcome,
    rels: Seq<Seq<char>>,
    i: int,
)
    requires
        s.pending.len() > 0,
        s.pending[0].kind == StepKind::Expand,
        s.pending[0].unit < s.trees.len(),
        outcome.status == 0,
        outcome.stdout == printed(s.out_dir, rels),
        is_path_text(s.out_dir),
        forall|k: int|
            0 <= k < rels.len() ==> is_path_text(#[trigger] rels[k]) && rels[k].len() > 0,
        0 <= i < rels.len(),
    ensures
        asks(s, outcome) == requests_of(s.pending[0].unit, rels),
        advance(s, outcome).claims == claim_all(s.claims, s.pending[0].unit, rels),
        owner_of(advance(s, outcome).claims, rels[i]) is Some,
{
    lemma_matches_are_listed(s.out_dir, rels);
    lemma_asked_is_covered(s.claims, s.pending[0].unit, rels, i);
    lemma_owner_iff_covered(advance(s, outcome).claims, rels[i]);
}

/// A file keeps its relative path when it is moved. The path `rel` of the
/// output tree is moved from `rel` below the output tree to `rel` below the
/// tree of the subpackage.
pub proof fn lemma_move_keeps_relative_path(
    rel: Seq<char>,
    unit: usize,
    out_dir: Seq<char>,
    tree: Seq<char>,
    on_failure: Policy,
)
    requires
        rel.len() > 0,
    ensures
        ({
            let from = out_dir.push('/') + rel;
            let to = tree.push('/') + rel;
            &&& move_steps(rel, unit, out_dir, tree, on_failure)[1].action == ActionSpec::Run {
                command: move_command(from, to),
            }
            &&& is_under(out_dir, from) && relative(out_dir, from) == rel
            &&& is_under(tree, to) && relative(tree, to) == rel
        }),
{
    reveal_strlit("/");
    let from = out_dir.push('/') + rel;
    let to = tree.push('/') + rel;
    assert("/"@ =~= seq!['/']);
    assert(out_dir + "/"@ + rel =~= from);
    assert(tree + "/"@ + rel =~= to);
    assert(out_dir.push('/') =~= from.subrange(0, out_dir.len() as int + 1));
    assert(tree.push('/') =~= to.subrange(0, tree.len() as int + 1));
    assert(from.skip(out_dir.len() as int + 1) =~= rel);
    assert(to.skip(tree.len() as int + 1) =~= rel);
}

/// Whether `step` is an expansion.
pub open spec fn is_expansion(step: StepSpec) -> bool {
    step.kind == StepKind::Expand
}

/// Whether the expansions among `pending` come in the order in which their
/// subpackages were declared.
pub open spec fn expansions_in_order(pending: Seq<StepSpec>) -> bool {
    forall|i: int, j: int|
        0 <= i <= j < pending.len() && is_expansion(#[trigger] pending[i]) && is_expansion(
            #[trigger] pending[j],
        ) ==> pending[i].unit <= pending[j].unit
}

/// Whether `requests` come in the order in which their subpackages were
/// declared.
pub open spec fn requests_in_order(requests: Seq<Request>) -> bool {
    forall|a: int, b: int|
        0 <= a <= b < requests.len() ==> (#[trigger] requests[a]).owner <= (
        #[trigger] requests[b]).owner
}

/// Whether every expansion among `pending` belongs to a subpackage declared
/// no earlier than any that made one of `requests`.
pub open spec fn requests_precede(requests: Seq<Request>, pending: Seq<StepSpec>) -> bool {
    forall|a: int, k: int|
        0 <= a < requests.len() && 0 <= k < pending.len() && is_expansion(#[trigger] pending[k])
            ==> (#[trigger] requests[a]).owner <= pending[k].unit
}

/// The steps of the subpackages belong, in order, to one subpackage after
/// the other.
pub proof fn lemma_subpackages_in_order(
    subpackages: Seq<SubpackageSpec>,
    paths: Paths,
    manifest: Seq<char>,
    output: Seq<char>,
    fatal: bool,
)
    requires
        subpackages.len() <= usize::MAX,
    ensures
        forall|k: int|
            0 <= k < subpackages_plan(
                subpackages,
                paths,
                manifest,
                output,
                fatal,
            ).len() ==> (#[trigger] subpackages_plan(
                subpackages,
                paths,
                manifest,
                output,
                fatal,
            )[k]).unit < subpackages.len(),
        expansions_in_order(
            subpackages_plan(subpackages, paths, manifest, output, fatal),
        ),
    decreases subpackages.len(),
{
    if subpackages.len() > 0 {
        let n = subpackages.len();
        let before = subpackages_plan(
            subpackages.drop_last(),
            paths,
            manifest,
            output,
            fatal,
        );
        let last = subpackage_steps(
            subpackages.last(),
            (n - 1) as usize,
            paths,
            manifest,
            output,
            fatal,
        );
        lemma_subpackages_in_order(subpackages.drop_last(), paths, manifest, output, fatal);
        let all = subpackages_plan(subpackages, paths, manifest, output, fatal);
        assert(all == before + last);
        assert forall|k: int| 0 <= k < last.len() implies (#[trigger] last[k]).unit == n - 1 by {
            if 1 <= k <= subpackages.last().files.len() {
            }
        }
        assert forall|k: int| 0 <= k < all.len() implies (#[trigger] all[k]).unit < n by {
            if k < before.len() {
                assert(all[k] == before[k]);
            } else {
                assert(all[k] == last[k - before.len()]);
            }
        }
        assert forall|i: int, j: int|
            0 <= i <= j < all.len() && is_expansion(#[trigger] all[i]) && is_expansion(
                #[trigger] all[j],
            ) implies all[i].unit <= all[j].unit by {
            if j < before.len() {
                assert(all[i] == before[i] && all[j] == before[j]);
            } else if i < before.len() {
                assert(all[i] == before[i]);
                assert(all[j] == last[j - before.len()]);
            } else {
                assert(all[i] == last[i - before.len()]);
                assert(all[j] == last[j - before.len()]);
            }
        }
    }
}

/// The expansions of the plan come in the order in which their subpackages
/// were declared.
pub proof fn lemma_plan_in_order(
    descriptor: Descriptor,
    paths: Paths,
    manifest: Seq<char>,
    output: Seq<char>,
    policies: Policies,
)
    requires
        descriptor.subpackages.len() <= usize::MAX,
    ensures
        expansions_in_order(plan(descriptor, paths, manifest, output, policies)),
{
    let setup = setup_plan(descriptor.sources, paths, policies.fetch_failure_is_fatal);
    let built = build_steps(descriptor.script, paths);
    let subs = subpackages_plan(
        descriptor.subpackages,
        paths,
        manifest,
        output,
        policies.subpackage_failure_is_fatal,
    );
    let main = main_steps(
        descriptor.name,
        descriptor.subpackages.len() as usize,
        paths,
        manifest,
        output,
    );
    let all = plan(descriptor, paths, manifest, output, policies);
    let front = setup.len() + built.len() + 1;
    lemma_setup_is_early(descriptor.sources, paths, policies.fetch_failure_is_fatal);
    lemma_subpackages_in_order(
        descriptor.subpackages,
        paths,
        manifest,
        output,
        policies.subpackage_failure_is_fatal,
    );
    assert forall|k: int| 0 <= k < all.len() && is_expansion(#[trigger] all[k]) implies front <= k
        < front + subs.len() && all[k] == subs[k - front] by {
        if k < setup.len() {
            assert(all[k] == setup[k]);
            assert(is_early(setup[k]));
        } else if k < setup.len() + built.len() {
            assert(all[k] == built[k - setup.len()]);
        } else if k < front {
        } else if k < front + subs.len() {
            assert(all[k] == subs[k - front]);
        } else {
            assert(all[k] == main[k - front - subs.len()]);
        }
    }
}

proof fn lemma_in_order_step(s: PipelineSpec, outcomes: Seq<Outcome>)
    requires
        outcomes.len() > 0,
        expansions_in_order(run(s, outcomes.drop_last()).pending),
        requests_in_order(asked(s, outcomes.drop_last())),
        requests_precede(asked(s, outcomes.drop_last()), run(s, outcomes.drop_last()).pending),
    ensures
        expansions_in_order(run(s, outcomes).pending),
        requests_in_order(asked(s, outcomes)),
        requests_precede(asked(s, outcomes), run(s, outcomes).pending),
{
    let before = run(s, outcomes.drop_last());
    let outcome = outcomes.last();
    let now = run(s, outcomes);
    let old = asked(s, outcomes.drop_last());
    let more = asks(before, outcome);
    let all = asked(s, outcomes);
    assert(all == old + more);
    if before.pending.len() == 0 {
        assert(all =~= old);
        assert(now.pending.len() == 0);
    } else {
        let step = before.pending[0];
        lemma_advance_pending(before, outcome);
        let extra = moved_in(before, outcome);
        let n = taken_off(before, outcome);
        let tail = before.pending.skip(n);
        assert forall|k: int| 0 <= k < now.pending.len() && is_expansion(
            #[trigger] now.pending[k],
        ) implies extra.len() <= k && now.pending[k] == before.pending[k - extra.len() + n] by {
            if k < extra.len() {
                assert(now.pending[k] == extra[k]);
            } else {
                assert(now.pending[k] == tail[k - extra.len()]);
            }
        }
        assert(expansions_in_order(now.pending));
        assert forall|a: int, b: int| 0 <= a <= b < all.len() implies (#[trigger] all[a]).owner <= (
        #[trigger] all[b]).owner by {
            if b < old.len() {
                assert(all[a] == old[a] && all[b] == old[b]);
            } else {
                assert(all[b] == more[b - old.len()]);
                assert(is_expansion(before.pending[0]));
                if a < old.len() {
                    assert(all[a] == old[a]);
                } else {
                    assert(all[a] == more[a - old.len()]);
                }
            }
        }
        assert forall|a: int, k: int|
            0 <= a < all.len() && 0 <= k < now.pending.len() && is_expansion(
                #[trigger] now.pending[k],
            ) implies (#[trigger] all[a]).owner <= now.pending[k].unit by {
            let m = k - extra.len() + n;
            assert(now.pending[k] == before.pending[m]);
            if a < old.len() {
                assert(all[a] == old[a]);
            } else {
                assert(all[a] == more[a - old.len()]);
                assert(is_expansion(before.pending[0]));
            }
        }
    }
}

/// In every run the subpackages ask in the order in which they were
/// declared.
pub proof fn lemma_asked_in_order(s: PipelineSpec, outcomes: Seq<Outcome>)
    requires
        expansions_in_order(s.pending),
    ensures
        expansions_in_order(run(s, outcomes).pending),
        requests_in_order(asked(s, outcomes)),
        requests_precede(asked(s, outcomes), run(s, outcomes).pending),
    decreases outcomes.len(),
{
    if outcomes.len() > 0 {
        lemma_asked_in_order(s, outcomes.drop_last());
        lemma_in_order_step(s, outcomes);
    }
}

/// In a run, the subpackage declared first wins. Where the expansion of a
/// subpackage listed `p` or a directory above it, `p` belongs to that
/// subpackage or to one declared before it: never to one declared later,
/// and never to the main package. The subpackages are as many as a vector
/// can hold.
pub proof fn lemma_run_first_declared_wins(
    descriptor: Descriptor,
    paths: Paths,
    manifest: Seq<char>,
    output: Seq<char>,
    policies: Policies,
    outcomes: Seq<Outcome>,
    i: int,
    p: Seq<char>,
)
    requires
        descriptor.subpackages.len() <= usize::MAX,
        0 <= i < asked(initial(descriptor, paths, manifest, output, policies), outcomes).len(),
        within(asked(initial(descriptor, paths, manifest, output, policies), outcomes)[i].path, p),
    ensures
        ({
            let s = initial(descriptor, paths, manifest, output, policies);
            owner_of(run(s, outcomes).claims, p) matches Some(owner) && owner <= asked(
                s,
                outcomes,
            )[i].owner
        }),
{
    let s = initial(descriptor, paths, manifest, output, policies);
    let none = Seq::<Request>::empty();
    lemma_plan_in_order(descriptor, paths, manifest, output, policies);
    lemma_asked_in_order(s, outcomes);
    lemma_claims_are_served(s, outcomes, none);
    assert(none + asked(s, outcomes) =~= asked(s, outcomes));
    lemma_first_declared_wins(asked(s, outcomes), i, p);
}

/// Whether `step` sorts files out of the output tree: it expands a
/// pattern, or moves what an expansion got.
pub open spec fn is_sorting(step: StepSpec) -> bool {
    step.kind == StepKind::Expand || step.kind == StepKind::Parent || step.kind
        == StepKind::Move
}

/// Whether nothing is sorted out of the output tree once it was gathered:
/// no step of `pending` that comes after a gathering sorts.
pub open spec fn gathering_is_last(pending: Seq<StepSpec>) -> bool {
    forall|i: int, j: int|
        0 <= i < j < pending.len() && (#[trigger] pending[i]).kind == StepKind::Gather
            ==> !is_sorting(#[trigger] pending[j])
}

/// Whether none of `pending` sorts.
pub open spec fn none_sorting(pending: Seq<StepSpec>) -> bool {
    forall|k: int| 0 <= k < pending.len() ==> !is_sorting(#[trigger] pending[k])
}

/// Whether the output tree was gathered into the main package at position
/// `g` of the run.
pub open spec fn gathered_at(s: PipelineSpec, outcomes: Seq<Outcome>, g: int) -> bool {
    &&& 0 <= g < outcomes.len()
    &&& run(s, outcomes.take(g)).pending.len() > 0
    &&& run(s, outcomes.take(g)).pending[0].kind == StepKind::Gather
}

/// Whether a step that sorts was performed at position `m` of the run.
pub open spec fn sorted_at(s: PipelineSpec, outcomes: Seq<Outcome>, m: int) -> bool {
    &&& 0 <= m < outcomes.len()
    &&& run(s, outcomes.take(m)).pending.len() > 0
    &&& is_sorting(run(s, outcomes.take(m)).pending[0])
}

/// What holds of every run with respect to the gathering.
pub open spec fn sorted_before_gathered(s: PipelineSpec, outcomes: Seq<Outcome>) -> bool {
    &&& gathering_is_last(run(s, outcomes).pending)
    &&& (exists|g: int| gathered_at(s, outcomes, g)) ==> none_sorting(run(s, outcomes).pending)
    &&& forall|g: int, m: int| #[trigger]
        gathered_at(s, outcomes, g) && #[trigger] sorted_at(s, outcomes, m) ==> m < g
}

/// In the plan the gathering comes after all that sorts.
pub proof fn lemma_plan_gathers_last(
    descriptor: Descriptor,
    paths: Paths,
    manifest: Seq<char>,
    output: Seq<char>,
    policies: Policies,
)
    ensures
        gathering_is_last(plan(descriptor, paths, manifest, output, policies)),
{
    let setup = setup_plan(descriptor.sources, paths, policies.fetch_failure_is_fatal);
    let built = build_steps(descriptor.script, paths);
    let subs = subpackages_plan(
        descriptor.subpackages,
        paths,
        manifest,
        output,
        policies.subpackage_failure_is_fatal,
    );
    let main = main_steps(
        descriptor.name,
        descriptor.subpackages.len() as usize,
        paths,
        manifest,
        output,
    );
    let all = plan(descriptor, paths, manifest, output, policies);
    let front = setup.len() + built.len() + 1 + subs.len();
    lemma_setup_is_early(descriptor.sources, paths, policies.fetch_failure_is_fatal);
    lemma_subpackages_never_gather(
        descriptor.subpackages,
        paths,
        manifest,
        output,
        policies.subpackage_failure_is_fatal,
    );
    assert forall|i: int, j: int|
        0 <= i < j < all.len() && (#[trigger] all[i]).kind == StepKind::Gather implies !is_sorting(
        #[trigger] all[j],
    ) by {
        if i < setup.len() {
            assert(all[i] == setup[i]);
            assert(is_early(setup[i]));
        } else if i < setup.len() + built.len() {
            assert(all[i] == built[i - setup.len()]);
        } else if i < setup.len() + built.len() + 1 {
        } else if i < front {
            assert(all[i] == subs[i - setup.len() - built.len() - 1]);
        } else {
            assert(all[i] == main[i - front]);
            assert(all[j] == main[j - front]);
        }
    }
}

/// No step of the subpackages gathers the output tree.
pub proof fn lemma_subpackages_never_gather(
    subpackages: Seq<SubpackageSpec>,
    paths: Paths,
    manifest: Seq<char>,
    output: Seq<char>,
    fatal: bool,
)
    ensures
        forall|k: int|
            0 <= k < subpackages_plan(
                subpackages,
                paths,
                manifest,
                output,
                fatal,
            ).len() ==> (#[trigger] subpackages_plan(
                subpackages,
                paths,
                manifest,
                output,
                fatal,
            )[k]).kind != StepKind::Gather,
    decreases subpackages.len(),
{
    if subpackages.len() > 0 {
        let before = subpackages_plan(
            subpackages.drop_last(),
            paths,
            manifest,
            output,
            fatal,
        );
        let last = subpackage_steps(
            subpackages.last(),
            (subpackages.len() - 1) as usize,
            paths,
            manifest,
            output,
            fatal,
        );
        lemma_subpackages_never_gather(subpackages.drop_last(), paths, manifest, output, fatal);
        let all = subpackages_plan(subpackages, paths, manifest, output, fatal);
        assert forall|k: int| 0 <= k < all.len() implies (#[trigger] all[k]).kind
            != StepKind::Gather by {
            if k < before.len() {
                assert(all[k] == before[k]);
            } else {
                assert(all[k] == last[k - before.len()]);
            }
        }
    }
}

proof fn lemma_positions_before(s: PipelineSpec, outcomes: Seq<Outcome>)
    requires
        outcomes.len() > 0,
    ensures
        forall|i: int|
            i < outcomes.len() - 1 ==> #[trigger] gathered_at(s, outcomes, i) == gathered_at(
                s,
                outcomes.drop_last(),
                i,
            ),
        forall|i: int|
            i < outcomes.len() - 1 ==> #[trigger] sorted_at(s, outcomes, i) == sorted_at(
                s,
                outcomes.drop_last(),
                i,
            ),
        outcomes.take(outcomes.len() - 1) == outcomes.drop_last(),
{
    let shorter = outcomes.drop_last();
    assert(outcomes.take(outcomes.len() - 1) =~= shorter);
    assert forall|i: int| i < outcomes.len() - 1 implies #[trigger] gathered_at(s, outcomes, i)
        == gathered_at(s, shorter, i) by {
        if 0 <= i {
            assert(shorter.take(i) =~= outcomes.take(i));
        }
    }
    assert forall|i: int| i < outcomes.len() - 1 implies #[trigger] sorted_at(s, outcomes, i)
        == sorted_at(s, shorter, i) by {
        if 0 <= i {
            assert(shorter.take(i) =~= outcomes.take(i));
        }
    }
}

proof fn lemma_gathering_step(s: PipelineSpec, outcomes: Seq<Outcome>)
    requires
        outcomes.len() > 0,
        sorted_before_gathered(s, outcomes.drop_last()),
    ensures
        sorted_before_gathered(s, outcomes),
{
    let shorter = outcomes.drop_last();
    let last = outcomes.len() - 1;
    let before = run(s, shorter);
    let outcome = outcomes.last();
    let now = run(s, outcomes);
    lemma_positions_before(s, outcomes);
    if before.pending.len() == 0 {
        assert(now.pending.len() == 0);
        assert(!gathered_at(s, outcomes, last));
        assert(!sorted_at(s, outcomes, last));
        if exists|g: int| gathered_at(s, outcomes, g) {
            let g = choose|g: int| gathered_at(s, outcomes, g);
            assert(gathered_at(s, shorter, g));
        }
    } else {
        let step = before.pending[0];
        lemma_advance_pending(before, outcome);
        let extra = moved_in(before, outcome);
        let n = taken_off(before, outcome);
        let tail = before.pending.skip(n);
        assert forall|k: int| extra.len() <= k < now.pending.len() implies #[trigger] now.pending[k]
            == before.pending[k - extra.len() + n] by {
            assert(now.pending[k] == tail[k - extra.len()]);
        }
        assert forall|k: int| 0 <= k < extra.len() implies (#[trigger] now.pending[k]).kind
            != StepKind::Gather by {
            assert(now.pending[k] == extra[k]);
        }
        assert(gathering_is_last(now.pending));
        let gathered_earlier = exists|g: int| gathered_at(s, shorter, g);
        if gathered_earlier {
            assert(none_sorting(before.pending));
            assert(!is_sorting(step));
            assert(extra.len() == 0);
            assert(none_sorting(now.pending));
            assert(!sorted_at(s, outcomes, last));
        }
        if step.kind == StepKind::Gather {
            assert(extra.len() == 0);
            assert(none_sorting(now.pending));
            assert(!sorted_at(s, outcomes, last));
        }
        if exists|g: int| gathered_at(s, outcomes, g) {
            let g = choose|g: int| gathered_at(s, outcomes, g);
            if g < last {
                assert(gathered_at(s, shorter, g));
            }
            assert(none_sorting(now.pending));
        }
        assert forall|g: int, m: int| #[trigger]
            gathered_at(s, outcomes, g) && #[trigger] sorted_at(s, outcomes, m) implies m < g by {
            if g < last && m < last {
                assert(gathered_at(s, shorter, g) && sorted_at(s, shorter, m));
            } else if g < last {
                assert(gathered_at(s, shorter, g));
            }
        }
    }
}

/// In every run that starts with the gathering last, all that is sorted
/// out of the output tree is sorted out before the tree is gathered.
pub proof fn lemma_sorted_before_gathered(s: PipelineSpec, outcomes: Seq<Outcome>)
    requires
        gathering_is_last(s.pending),
    ensures
        sorted_before_gathered(s, outcomes),
    decreases outcomes.len(),
{
    if outcomes.len() > 0 {
        lemma_sorted_before_gathered(s, outcomes.drop_last());
        lemma_gathering_step(s, outcomes);
    }
}

/// What a subpackage has never reaches the main package. In every run,
/// every expansion and every move of a file into the tree of a subpackage
/// is performed before the output tree is gathered into the main package;
/// what is gathered is what no subpackage took.
pub proof fn lemma_main_package_gets_the_rest(
    descriptor: Descriptor,
    paths: Paths,
    manifest: Seq<char>,
    output: Seq<char>,
    policies: Policies,
    outcomes: Seq<Outcome>,
    g: int,
    m: int,
)
    requires
        gathered_at(initial(descriptor, paths, manifest, output, policies), outcomes, g),
        sorted_at(initial(descriptor, paths, manifest, output, policies), outcomes, m),
    ensures
        m < g,
{
    let s = initial(descriptor, paths, manifest, output, policies);
    lemma_plan_gathers_last(descriptor, paths, manifest, output, policies);
    lemma_sorted_before_gathered(s, outcomes);
}

} // verus!
