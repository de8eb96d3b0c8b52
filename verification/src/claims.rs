//! Who gets which file: the claims that subpackages lay on the output tree.
//!
//! A subpackage claims the paths that its patterns match. A claim on a
//! directory covers all that lies below it. A path that is covered already
//! cannot be claimed again, so of two subpackages that match the same file
//! the one declared first has it, and what no subpackage claims is left to
//! the main package.

use vstd::prelude::*;
use crate::path::{is_within, lemma_within_transitive, within};

verus! {

/// A claim, as text: `owner` is the number of the subpackage that has the
/// path.
pub struct ClaimSpec {
    pub path: Seq<char>,
    pub owner: usize,
}

/// Whether a claim covers `p`: one was laid on `p` itself or on a directory
/// above it.
pub open spec fn covered(claims: Seq<ClaimSpec>, p: Seq<char>) -> bool {
    exists|i: int| 0 <= i < claims.len() && within(#[trigger] claims[i].path, p)
}

/// The subpackage that has `p`: the owner of the earliest claim that covers
/// it. `None` when no claim does, and `p` is left to the main package.
pub open spec fn owner_of(claims: Seq<ClaimSpec>, p: Seq<char>) -> Option<usize>
    decreases claims.len(),
{
    if claims.len() == 0 {
        None
    } else {
        match owner_of(claims.drop_last(), p) {
            Some(owner) => Some(owner),
            None => if within(claims.last().path, p) {
                Some(claims.last().owner)
            } else {
                None
            },
        }
    }
}

/// The claims after `owner` asked for `p`: a path that is covered stays
/// with whoever has it.
pub open spec fn claim_one(claims: Seq<ClaimSpec>, owner: usize, p: Seq<char>) -> Seq<
    ClaimSpec,
> {
    if covered(claims, p) {
        claims
    } else {
        claims.push(ClaimSpec { path: p, owner })
    }
}

/// The claims after `owner` asked for each of `listed`, in order.
pub open spec fn claim_all(claims: Seq<ClaimSpec>, owner: usize, listed: Seq<Seq<char>>) -> Seq<
    ClaimSpec,
>
    decreases listed.len(),
{
    if listed.len() == 0 {
        claims
    } else {
        claim_one(claim_all(claims, owner, listed.drop_last()), owner, listed.last())
    }
}

/// Those of `listed` that `owner` got by asking for each in order: the ones
/// that no claim covered when their turn came.
pub open spec fn granted(claims: Seq<ClaimSpec>, owner: usize, listed: Seq<Seq<char>>) -> Seq<
    Seq<char>,
>
    decreases listed.len(),
{
    if listed.len() == 0 {
        Seq::empty()
    } else {
        let before = granted(claims, owner, listed.drop_last());
        if covered(claim_all(claims, owner, listed.drop_last()), listed.last()) {
            before
        } else {
            before.push(listed.last())
        }
    }
}

/// A path has an owner exactly when a claim covers it.
pub proof fn lemma_owner_iff_covered(claims: Seq<ClaimSpec>, p: Seq<char>)
    ensures
        owner_of(claims, p) is Some <==> covered(claims, p),
    decreases claims.len(),
{
    if claims.len() > 0 {
        let before = claims.drop_last();
        lemma_owner_iff_covered(before, p);
        if covered(before, p) {
            let i = choose|i: int| 0 <= i < before.len() && within(#[trigger] before[i].path, p);
            assert(within(claims[i].path, p));
        }
        if covered(claims, p) && !covered(before, p) {
            let i = choose|i: int| 0 <= i < claims.len() && within(#[trigger] claims[i].path, p);
            if i < before.len() {
                assert(within(before[i].path, p));
            }
        }
        if within(claims.last().path, p) {
            assert(within(claims[claims.len() - 1].path, p));
        }
    }
}

/// What is covered stays covered below: a claim above `q` covers all that
/// lies within `q`.
pub proof fn lemma_covered_within(claims: Seq<ClaimSpec>, q: Seq<char>, p: Seq<char>)
    requires
        covered(claims, q),
        within(q, p),
    ensures
        covered(claims, p),
{
    let i = choose|i: int| 0 <= i < claims.len() && within(#[trigger] claims[i].path, q);
    lemma_within_transitive(claims[i].path, q, p);
}

/// A request: subpackage number `owner` asks for `path`.
pub struct Request {
    pub owner: usize,
    pub path: Seq<char>,
}

/// The claims that stand once `requests` were served in order, starting
/// with none.
pub open spec fn served(requests: Seq<Request>) -> Seq<ClaimSpec>
    decreases requests.len(),
{
    if requests.len() == 0 {
        Seq::empty()
    } else {
        claim_one(served(requests.drop_last()), requests.last().owner, requests.last().path)
    }
}

/// The requests of one subpackage for each of `listed`, in order.
pub open spec fn requests_of(owner: usize, listed: Seq<Seq<char>>) -> Seq<Request> {
    Seq::new(listed.len(), |i: int| Request { owner, path: listed[i] })
}

/// Whether the request at `i` is the first of `requests` to ask for `p` or
/// for a directory above it.
pub open spec fn first_to_ask(requests: Seq<Request>, i: int, p: Seq<char>) -> bool {
    &&& 0 <= i < requests.len()
    &&& within(requests[i].path, p)
    &&& forall|j: int| 0 <= j < i ==> !within(#[trigger] requests[j].path, p)
}

/// The first to ask wins. However the requests of the subpackages overlap,
/// a path belongs to the subpackage whose request was the first to name it
/// or a directory above it, and to that one alone; a path that no request
/// names belongs to no subpackage, and so to the main package.
pub proof fn lemma_first_request_wins(requests: Seq<Request>, p: Seq<char>)
    ensures
        match owner_of(served(requests), p) {
            Some(owner) => exists|i: int| #[trigger]
                first_to_ask(requests, i, p) && requests[i].owner == owner,
            None => forall|i: int|
                0 <= i < requests.len() ==> !within(#[trigger] requests[i].path, p),
        },
    decreases requests.len(),
{
    if requests.len() > 0 {
        let before = requests.drop_last();
        let last = requests.last();
        let standing = served(before);
        lemma_first_request_wins(before, p);
        lemma_owner_iff_covered(standing, p);
        if covered(standing, last.path) {
            if within(last.path, p) {
                lemma_covered_within(standing, last.path, p);
            }
        } else {
            let now = standing.push(ClaimSpec { path: last.path, owner: last.owner });
            assert(now.drop_last() =~= standing);
        }
        match owner_of(standing, p) {
            Some(owner) => {
                let i = choose|i: int| #[trigger]
                    first_to_ask(before, i, p) && before[i].owner == owner;
                assert forall|j: int| 0 <= j < i implies !within(
                    #[trigger] requests[j].path,
                    p,
                ) by {
                    assert(requests[j] == before[j]);
                }
                assert(first_to_ask(requests, i, p) && requests[i].owner == owner);
            },
            None => {
                assert forall|j: int| 0 <= j < requests.len() - 1 implies !within(
                    #[trigger] requests[j].path,
                    p,
                ) by {
                    assert(requests[j] == before[j]);
                }
                if within(last.path, p) {
                    assert(first_to_ask(requests, requests.len() - 1, p));
                }
            },
        }
    }
}

/// Of two subpackages that both ask for a file, the one declared first has
/// it: where the requests come in the order of declaration, no subpackage
/// declared after one that asked for `p` owns `p`.
pub proof fn lemma_first_declared_wins(requests: Seq<Request>, i: int, p: Seq<char>)
    requires
        0 <= i < requests.len(),
        within(requests[i].path, p),
        forall|a: int, b: int|
            0 <= a <= b < requests.len() ==> (#[trigger] requests[a]).owner <= (
            #[trigger] requests[b]).owner,
    ensures
        owner_of(served(requests), p) matches Some(owner) && owner <= requests[i].owner,
{
    lemma_first_request_wins(requests, p);
    match owner_of(served(requests), p) {
        Some(owner) => {
            let k = choose|k: int| #[trigger]
                first_to_ask(requests, k, p) && requests[k].owner == owner;
            if k > i {
                assert(!within(requests[i].path, p));
            }
        },
        None => {},
    }
}

/// Serving the requests of one subpackage after `requests` is laying its
/// claims on what stands.
pub proof fn lemma_served_claim_all(requests: Seq<Request>, owner: usize, listed: Seq<Seq<char>>)
    ensures
        served(requests + requests_of(owner, listed)) == claim_all(
            served(requests),
            owner,
            listed,
        ),
    decreases listed.len(),
{
    let more = requests_of(owner, listed);
    if listed.len() == 0 {
        assert(requests + more =~= requests);
    } else {
        let fewer = requests_of(owner, listed.drop_last());
        let all = requests + more;
        assert(all.drop_last() =~= requests + fewer);
        assert(all.last() == more[listed.len() - 1]);
        lemma_served_claim_all(requests, owner, listed.drop_last());
    }
}

/// One claim on a path of the output tree.
#[derive(Debug, Clone)]
pub struct Claim {
    path: Vec<char>,
    owner: usize,
}

/// The claims laid so far, oldest first.
#[derive(Debug, Clone)]
pub struct Claims {
    entries: Vec<Claim>,
}

impl View for Claims {
    type V = Seq<ClaimSpec>;

    closed spec fn view(&self) -> Seq<ClaimSpec> {
        Seq::new(
            self.entries@.len(),
            |i: int| ClaimSpec { path: self.entries@[i].path@, owner: self.entries@[i].owner },
        )
    }
}

impl Claims {
    /// No claims.
    pub fn new() -> (claims: Claims)
        ensures
            claims@ == Seq::<ClaimSpec>::empty(),
    {
        let claims = Claims { entries: Vec::new() };
        assert(claims@ =~= Seq::<ClaimSpec>::empty());
        claims
    }

    /// Whether a claim covers `p`.
    pub fn covers(&self, p: &Vec<char>) -> (r: bool)
        ensures
            r == covered(self@, p@),
    {
        let mut i: usize = 0;
        while i < self.entries.len()
            invariant
                i <= self.entries.len(),
                forall|k: int| 0 <= k < i ==> !within(#[trigger] self@[k].path, p@),
            decreases self.entries.len() - i,
        {
            if is_within(&self.entries[i].path, p) {
                assert(within(self@[i as int].path, p@));
                return true;
            }
            i += 1;
        }
        false
    }

    /// The subpackage that has `p`, if any has.
    pub fn owner(&self, p: &Vec<char>) -> (r: Option<usize>)
        ensures
            r == owner_of(self@, p@),
    {
        let mut i: usize = 0;
        assert(self@.take(0) =~= Seq::<ClaimSpec>::empty());
        while i < self.entries.len()
            invariant
                i <= self.entries.len(),
                owner_of(self@.take(i as int), p@) is None,
            decreases self.entries.len() - i,
        {
            let ghost next = self@.take(i + 1);
            assert(next.drop_last() =~= self@.take(i as int));
            assert(next.last() == self@[i as int]);
            if is_within(&self.entries[i].path, p) {
                proof {
                    lemma_owner_prefix(self@, (i + 1) as int, p@);
                }
                return Some(self.entries[i].owner);
            }
            i += 1;
        }
        assert(self@.take(i as int) =~= self@);
        None
    }

    /// Lays the claims of `owner` on each of `listed`, in order, and returns
    /// the paths it got.
    pub fn claim(&mut self, owner: usize, listed: &Vec<Vec<char>>) -> (got: Vec<Vec<char>>)
        ensures
            final(self)@ == claim_all(old(self)@, owner, listed.deep_view()),
            got.deep_view() == granted(old(self)@, owner, listed.deep_view()),
    {
        let ghost all = listed.deep_view();
        let mut got: Vec<Vec<char>> = Vec::new();
        assert(got.deep_view() =~= Seq::<Seq<char>>::empty());
        assert(all.take(0) =~= Seq::<Seq<char>>::empty());
        let mut i: usize = 0;
        while i < listed.len()
            invariant
                i <= listed.len(),
                all == listed.deep_view(),
                self@ == claim_all(old(self)@, owner, all.take(i as int)),
                got.deep_view() == granted(old(self)@, owner, all.take(i as int)),
            decreases listed.len() - i,
        {
            let p = &listed[i];
            proof {
                let next = all.take(i + 1);
                assert(next.drop_last() =~= all.take(i as int));
                assert(next.last() == p@);
            }
            if !self.covers(p) {
                let ghost before = self@;
                let ghost had = got.deep_view();
                self.entries.push(Claim { path: p.clone(), owner });
                assert(self@ =~= before.push(ClaimSpec { path: p@, owner }));
                got.push(p.clone());
                assert(got.deep_view() =~= had.push(p@));
            }
            i += 1;
        }
        assert(all.take(i as int) =~= all);
        got
    }
}

/// The owner found among the first `n` claims is the owner among all of
/// them.
pub proof fn lemma_owner_prefix(claims: Seq<ClaimSpec>, n: int, p: Seq<char>)
    requires
        0 <= n <= claims.len(),
        owner_of(claims.take(n), p) is Some,
    ensures
        owner_of(claims, p) == owner_of(claims.take(n), p),
    decreases claims.len() - n,
{
    if n < claims.len() {
        let next = claims.take(n + 1);
        assert(next.drop_last() =~= claims.take(n));
        lemma_owner_prefix(claims, n + 1, p);
    } else {
        assert(claims.take(n) =~= claims);
    }
}

} // verus!
