//! Laws of claims: when a commit is valid, and what is counted on checking it.
use vstd::prelude::*;

use crate::chain::Chain;
use crate::commit::{
    committers, contradict, contradictions, contradicts_itself, is_valid_commit, precommits_to,
    repeats, repetitions, strangers,
};
use crate::messages::{CommitView, SignedPrecommit};
use crate::number::TargetNumber;
use crate::voter_set::is_voter;
use crate::weights::{
    lemma_same_selection, supermajority_is_more_than_two_thirds, total_of, weight_of,
};

verus! {

/// The chain holds a target of this identity at this view.
pub open spec fn is_held<H, N: TargetNumber, C: Chain<H, N>>(chain: C, hash: H, number: N) -> bool {
    chain.target_at(hash) matches Some(target) && target.hash() == hash && target.number()
        == number
}

/// A commit has a precommit of a voter for its target or a descendant of it.
pub open spec fn speaks_for<I, H, N: TargetNumber, S, C: Chain<H, N>>(
    chain: C,
    commit: CommitView<H, N, S, I>,
    id: I,
) -> bool {
    exists|k: int|
        0 <= k < commit.precommits.len() && (#[trigger] commit.precommits[k]).id == id
            && chain.reaches(commit.target_hash, commit.precommits[k].precommit.target_hash)
}

/// A commit has two precommits of a voter that differ in target, view or signature.
pub open spec fn speaks_twice<I, H, N: TargetNumber, S>(
    list: Seq<SignedPrecommit<H, N, S, I>>,
    id: I,
) -> bool {
    exists|j: int, k: int|
        0 <= j < list.len() && 0 <= k < list.len() && (#[trigger] list[j]).id == id
            && (#[trigger] list[k]).id == id && list[j] != list[k]
}

/// The two ways to say that a voter has signed two different precommits agree.
proof fn lemma_twice<I, H, N: TargetNumber, S>(list: Seq<SignedPrecommit<H, N, S, I>>, id: I)
    ensures
        speaks_twice(list, id) <==> contradicts_itself(list, id),
{
    if speaks_twice(list, id) {
        let (j, k) = choose|j: int, k: int|
            0 <= j < list.len() && 0 <= k < list.len() && (#[trigger] list[j]).id == id && (
            #[trigger] list[k]).id == id && list[j] != list[k];
        assert(contradict(list[j], list[k]));
    }
    if contradicts_itself(list, id) {
        let (j, k) = choose|j: int, k: int|
            0 <= j < list.len() && 0 <= k < list.len() && (#[trigger] list[j]).id == id
                && contradict(list[j], #[trigger] list[k]);
        assert(list[j] != list[k]);
    }
}

/// A commit is valid if and only if the chain holds its target at its view and those of
/// all precommits of voters at theirs, and the voters that precommitted for the target
/// or a descendant of it, or signed two different precommits, have more than two thirds
/// of the weight.
pub proof fn claims_need_two_thirds<I, H, N: TargetNumber, S, C: Chain<H, N>>(
    chain: C,
    commit: CommitView<H, N, S, I>,
    voters: Seq<(I, u64)>,
    who: spec_fn(int) -> bool,
)
    requires
        total_of(voters) > 0,
        forall|i: int|
            0 <= i < voters.len() ==> (#[trigger] who(i) <==> speaks_for(
                chain,
                commit,
                voters[i].0,
            ) || speaks_twice(commit.precommits, voters[i].0)),
    ensures
        is_valid_commit(commit, voters, chain) <==> {
            &&& is_held(chain, commit.target_hash, commit.target_number)
            &&& forall|k: int|
                #![trigger commit.precommits[k]]
                0 <= k < commit.precommits.len() && is_voter(voters, commit.precommits[k].id)
                    ==> is_held(
                    chain,
                    commit.precommits[k].precommit.target_hash,
                    commit.precommits[k].precommit.target_number,
                )
            &&& 3 * weight_of(voters, who) > 2 * total_of(voters)
        },
{
    let list = commit.precommits;
    let counted = committers(chain, voters, list, commit.target_hash);
    assert forall|i: int| 0 <= i < voters.len() implies #[trigger] counted(i) == who(i) by {
        lemma_twice(list, voters[i].0);
        assert(speaks_for(chain, commit, voters[i].0) <==> precommits_to(
            chain,
            list,
            voters[i].0,
            commit.target_hash,
        ));
    }
    lemma_same_selection(voters, counted, who, voters.len());
    supermajority_is_more_than_two_thirds(total_of(voters), weight_of(voters, who));
}

/// An empty commit has nothing to count. One more precommit is one more of a stranger
/// exactly if no voter has signed it, and one more repetition exactly if a voter has
/// and the very same precommit was there before.
pub proof fn precommits_are_counted_one_by_one<I, H, N: TargetNumber, S>(
    voters: Seq<(I, u64)>,
    list: Seq<SignedPrecommit<H, N, S, I>>,
    next: SignedPrecommit<H, N, S, I>,
)
    ensures
        strangers(voters, Seq::<SignedPrecommit<H, N, S, I>>::empty(), 0) == 0,
        repetitions(voters, Seq::<SignedPrecommit<H, N, S, I>>::empty(), 0) == 0,
        ({
            let more = list.push(next);
            let of_voter = exists|i: int|
                0 <= i < voters.len() && (#[trigger] voters[i]).0 == next.id;
            &&& strangers(voters, more, more.len()) == strangers(voters, list, list.len()) + (
            if of_voter {
                0nat
            } else {
                1
            })
            &&& repetitions(voters, more, more.len()) == repetitions(voters, list, list.len()) + (
            if of_voter && list.contains(next) {
                1nat
            } else {
                0
            })
        }),
{
    let more = list.push(next);
    let n = list.len();
    lemma_same_counts(voters, list, more, n);
    assert(is_voter(voters, next.id) <==> exists|i: int|
        0 <= i < voters.len() && (#[trigger] voters[i]).0 == next.id);
    if list.contains(next) {
        let j = choose|j: int| 0 <= j < n && list[j] == next;
        assert(more[j] == more[n as int]);
    }
    if exists|j: int| 0 <= j < n && #[trigger] more[j] == more[n as int] {
        let j = choose|j: int| 0 <= j < n && #[trigger] more[j] == more[n as int];
        assert(list[j] == next);
    }
}

/// Lists that begin alike have the same counts as far as they do.
proof fn lemma_same_counts<I, H, N: TargetNumber, S>(
    voters: Seq<(I, u64)>,
    a: Seq<SignedPrecommit<H, N, S, I>>,
    b: Seq<SignedPrecommit<H, N, S, I>>,
    n: nat,
)
    requires
        forall|k: int| 0 <= k < n ==> #[trigger] a[k] == b[k],
    ensures
        strangers(voters, a, n) == strangers(voters, b, n),
        repetitions(voters, a, n) == repetitions(voters, b, n),
    decreases n,
{
    if n > 0 {
        lemma_same_counts(voters, a, b, (n - 1) as nat);
        assert(a[n - 1] == b[n - 1]);
        if repeats(voters, a, n - 1) {
            let j = choose|j: int| 0 <= j < n - 1 && #[trigger] a[j] == a[n - 1];
            assert(a[j] == b[j]);
            assert(b[j] == b[n - 1]);
        }
        if repeats(voters, b, n - 1) {
            let j = choose|j: int| 0 <= j < n - 1 && #[trigger] b[j] == b[n - 1];
            assert(a[j] == b[j]);
            assert(a[j] == a[n - 1]);
        }
    }
}

/// Without voters nobody contradicts itself. One more voter is one more that does
/// exactly if it has signed two different precommits, however many more it has signed.
pub proof fn contradictions_are_counted_by_voter<I, H, N: TargetNumber, S>(
    voters: Seq<(I, u64)>,
    list: Seq<SignedPrecommit<H, N, S, I>>,
    next: (I, u64),
)
    ensures
        contradictions(Seq::<(I, u64)>::empty(), list, 0) == 0,
        ({
            let more = voters.push(next);
            contradictions(more, list, more.len()) == contradictions(voters, list, voters.len()) + (
            if speaks_twice(list, next.0) {
                1nat
            } else {
                0
            })
        }),
{
    let more = voters.push(next);
    lemma_same_contradictions(voters, more, list, voters.len());
    lemma_twice(list, next.0);
}

/// Voters that begin alike contradict themselves alike as far as they do.
proof fn lemma_same_contradictions<I, H, N: TargetNumber, S>(
    a: Seq<(I, u64)>,
    b: Seq<(I, u64)>,
    list: Seq<SignedPrecommit<H, N, S, I>>,
    n: nat,
)
    requires
        forall|k: int| 0 <= k < n ==> #[trigger] a[k] == b[k],
    ensures
        contradictions(a, list, n) == contradictions(b, list, n),
    decreases n,
{
    if n > 0 {
        lemma_same_contradictions(a, b, list, (n - 1) as nat);
        assert(a[n - 1] == b[n - 1]);
    }
}

} // verus!
