//! Laws that connect rounds, commits and the chain.
use vstd::prelude::*;

use crate::chain::{Chain, Error};
use crate::commit::{
    all_known, committers, contradict, contradicts_itself, is_valid_commit, precommits_to,
};
use crate::ident::Identity;
use crate::messages::{CommitView, Precommit, Prevote, RoundState, SignedPrecommit};
use crate::number::{BlockNumber, TargetNumber};
use crate::round::{
    lemma_state_fits, lemma_vote_path_fits, new_round, signed_precommit, target_is_known,
    vote_path, RoundView,
};
use crate::round_laws::{lemma_beginning_of_beginning, lemma_position_is_unique};
use crate::tally::{
    added, backers, backs, ballot_after, has_supermajority, lemma_climb, lemma_highest, votes_upto,
    BallotView, Ballots,
};
use crate::tree::TargetId;
use crate::tree_laws::{
    ancestors_are_comparable, ancestry_includes_every_view, descent_is_transitive, lemma_one_step,
    lemma_path_views_are_consecutive, one_step, path_holds_what_is_new,
    view_counts_the_targets_on_the_path,
};
use crate::view_chain::{TargetRef, ViewChain};
use crate::voter_set::{is_voter, position_of};
use crate::voting_round::{import_list, VotingRoundView};
use crate::weights::{
    everyone, lemma_same_selection, lemma_supermajorities_overlap, lemma_union_and_overlap,
    lemma_weight_is_monotone, tolerated, total_of, weight_of,
};

verus! {

/// The chain holds every target on the path of a ballot, and the ballot's target
/// descends from each; it holds the target of a second vote too.
pub open spec fn ballot_is_on_chain<H, N: TargetNumber, S, C: Chain<H, N>>(
    chain: C,
    base: (H, N),
    ballot: BallotView<H, N, S>,
) -> bool {
    &&& forall|k: int|
        #![trigger ballot.path[k]]
        0 <= k < ballot.path.len() ==> target_is_known(
            chain,
            ballot.path[k],
            N::with_value((base.1.value() + k) as nat)->0,
        ) && chain.reaches(ballot.path[k], ballot.path.last())
    &&& ballot.second matches Some(second) ==> target_is_known(chain, second.0.0, second.0.1)
}

/// All ballots are on the chain.
pub open spec fn ballots_are_on_chain<H, N: TargetNumber, S, C: Chain<H, N>>(
    chain: C,
    base: (H, N),
    ballots: Ballots<H, N, S>,
) -> bool {
    forall|i: int|
        #![trigger ballots[i]]
        0 <= i < ballots.len() && ballots[i] is Some ==> ballot_is_on_chain(
            chain,
            base,
            ballots[i]->0,
        )
}

/// The base and all votes of a round are on the chain.
pub open spec fn is_on_chain<I, H, N: TargetNumber, S, C: Chain<H, N>>(
    round: RoundView<I, H, N, S>,
    chain: C,
) -> bool {
    &&& target_is_known(chain, round.base.0, round.base.1)
    &&& ballots_are_on_chain(chain, round.base, round.prevotes)
    &&& ballots_are_on_chain(chain, round.base, round.precommits)
}

/// The votes that count for a target: each is the first or second vote of a
/// voter that counts, and every such vote is there.
proof fn lemma_votes_upto<I, H, N: TargetNumber, S>(
    voters: Seq<(I, u64)>,
    ballots: Ballots<H, N, S>,
    target: Seq<H>,
    n: nat,
)
    requires
        n <= voters.len(),
        n <= ballots.len(),
    ensures
        ({
            let list = votes_upto(voters, ballots, target, n);
            &&& forall|k: int|
                0 <= k < list.len() ==> exists|i: int|
                    #![trigger ballots[i]]
                    0 <= i < n && is_vote_of(voters, ballots, i, #[trigger] list[k])
            &&& forall|i: int|
                0 <= i < n && #[trigger] backs(ballots, i, target) ==> {
                    &&& list.contains((voters[i].0, ballots[i]->0.target, ballots[i]->0.signature))
                    &&& ballots[i]->0.second matches Some(second) ==> list.contains(
                        (voters[i].0, second.0, second.1),
                    )
                }
        }),
    decreases n,
{
    if n > 0 {
        lemma_votes_upto(voters, ballots, target, (n - 1) as nat);
        let shorter = votes_upto(voters, ballots, target, (n - 1) as nat);
        let list = votes_upto(voters, ballots, target, n);
        assert forall|k: int| 0 <= k < list.len() implies exists|i: int|
            #![trigger ballots[i]]
            0 <= i < n && is_vote_of(voters, ballots, i, #[trigger] list[k]) by {
            if k < shorter.len() {
                assert(list[k] == shorter[k]);
                let i = choose|i: int|
                    #![trigger ballots[i]]
                    0 <= i < n - 1 && is_vote_of(voters, ballots, i, shorter[k]);
                assert(is_vote_of(voters, ballots, i, list[k]));
            } else {
                assert(is_vote_of(voters, ballots, n - 1, list[k]));
            }
        }
        assert forall|vote: (I, (H, N), S)|
            #[trigger] shorter.contains(vote) implies list.contains(vote) by {
            let k = choose|k: int| 0 <= k < shorter.len() && shorter[k] == vote;
            assert(list[k] == vote);
        }
        if backs(ballots, n - 1, target) {
            assert(list[shorter.len() as int] == (
                voters[n - 1].0,
                ballots[n - 1]->0.target,
                ballots[n - 1]->0.signature,
            ));
            if let Some(second) = ballots[n - 1]->0.second {
                assert(list[shorter.len() as int + 1] == (voters[n - 1].0, second.0, second.1));
            }
        }
    }
}

/// A vote is the first or second vote of the voter at a position.
pub open spec fn is_vote_of<I, H, N: TargetNumber, S>(
    voters: Seq<(I, u64)>,
    ballots: Ballots<H, N, S>,
    i: int,
    vote: (I, (H, N), S),
) -> bool {
    &&& ballots[i] is Some
    &&& vote.0 == voters[i].0
    &&& (vote.1, vote.2) == (ballots[i]->0.target, ballots[i]->0.signature) || Some(
        (vote.1, vote.2),
    ) == ballots[i]->0.second
}

/// What a round has finalized is on the chain.
proof fn lemma_finalized_target_is_known<I, H, N: TargetNumber, S, C: Chain<H, N>>(
    round: RoundView<I, H, N, S>,
    chain: C,
)
    requires
        round.well_formed(),
        is_on_chain(round, chain),
        round.finalized() is Some,
    ensures
        target_is_known(
            chain,
            round.target(round.finalized()->0).0,
            round.target(round.finalized()->0).1,
        ),
{
    let done = round.finalized()->0;
    let top = round.prevote_ghost()->0;
    let start = seq![round.base.0];
    lemma_state_fits(round);
    lemma_climb(round.prevotes, has_supermajority(round.voters, round.prevotes), start);
    round.base.1.value_determines();
    if top == start {
        assert(done.len() == 1);
        assert(top.subrange(0, 1)[0] == round.base.0);
    } else {
        let i = choose|i: int|
            0 <= i < round.prevotes.len() && (#[trigger] round.prevotes[i]) is Some
                && top.is_prefix_of(round.prevotes[i]->0.path);
        let path = round.prevotes[i]->0.path;
        lemma_beginning_of_beginning(done, top, path);
        assert(path.subrange(0, done.len() as int)[done.len() - 1] == path[done.len() - 1]);
        assert(ballot_is_on_chain(chain, round.base, round.prevotes[i]->0));
    }
}

/// A round proves its finality: the commit that it makes for what it has
/// finalized is valid on every chain that its votes are on.
pub proof fn commits_of_a_round_are_valid<I, H, N: TargetNumber, S, C: Chain<H, N>>(
    round: VotingRoundView<I, H, N, S>,
    chain: C,
)
    requires
        round.votes.well_formed(),
        is_on_chain(round.votes, chain),
        round.votes.finalized() is Some,
    ensures
        is_valid_commit(round.commit(), round.votes.voters, chain),
{
    let votes = round.votes;
    let voters = votes.voters;
    let ballots = votes.precommits;
    let done = votes.finalized()->0;
    let raw = votes_upto(voters, ballots, done, voters.len());
    let list = round.commit().precommits;
    let target = round.commit().target_hash;
    lemma_state_fits(votes);
    lemma_finalized_target_is_known(votes, chain);
    lemma_votes_upto(voters, ballots, done, voters.len());
    lemma_highest(has_supermajority(voters, ballots), votes.prevote_ghost()->0);
    assert forall|k: int|
        #![trigger list[k]]
        0 <= k < list.len() && is_voter(voters, list[k].id) implies target_is_known(
        chain,
        list[k].precommit.target_hash,
        list[k].precommit.target_number,
    ) by {
        assert(list[k] == signed_precommit(raw[k]));
        let i = choose|i: int|
            #![trigger ballots[i]]
            0 <= i < voters.len() && is_vote_of(voters, ballots, i, raw[k]);
        let ballot = ballots[i]->0;
        assert(ballot_is_on_chain(chain, votes.base, ballot));
        assert(ballot.path[ballot.path.len() - 1] == ballot.target.0);
        ballot.target.1.value_determines();
    }
    let who = committers(chain, voters, list, target);
    assert forall|i: int| 0 <= i < voters.len() && #[trigger] backers(ballots, done)(i) implies who(
        i,
    ) by {
        let ballot = ballots[i]->0;
        let first = (voters[i].0, ballot.target, ballot.signature);
        assert(backs(ballots, i, done));
        assert(raw.contains(first));
        let j = choose|j: int| 0 <= j < raw.len() && raw[j] == first;
        assert(list[j] == signed_precommit(first));
        if let Some(second) = ballot.second {
            let other = (voters[i].0, second.0, second.1);
            assert(raw.contains(other));
            let k = choose|k: int| 0 <= k < raw.len() && raw[k] == other;
            assert(list[k] == signed_precommit(other));
            assert(contradict(list[j], list[k]));
        } else {
            assert(ballot_is_on_chain(chain, votes.base, ballot));
            assert(ballot.path.subrange(0, done.len() as int)[done.len() - 1]
                == ballot.path[done.len() - 1]);
            assert(chain.reaches(ballot.path[done.len() - 1], ballot.path.last()));
            assert(precommits_to(chain, list, voters[i].0, target));
        }
    }
    lemma_weight_is_monotone(voters, backers(ballots, done), who, voters.len());
}

/// A round learns nothing from its own commit: importing it changes no vote and
/// accuses nobody.
pub proof fn own_commit_changes_nothing<I, H, N: TargetNumber, S, C: Chain<H, N>>(
    round: VotingRoundView<I, H, N, S>,
    chain: C,
)
    requires
        round.votes.well_formed(),
        round.votes.finalized() is Some,
    ensures
        ({
            let list = round.commit().precommits;
            let done = import_list(round.votes, chain, list, list.len());
            done.round == round.votes && done.equivocations.len() == 0
        }),
{
    lemma_own_precommits_change_nothing(round, chain, round.commit().precommits.len());
}

/// Importing the first `n` precommits of the own commit changes nothing.
proof fn lemma_own_precommits_change_nothing<I, H, N: TargetNumber, S, C: Chain<H, N>>(
    round: VotingRoundView<I, H, N, S>,
    chain: C,
    n: nat,
)
    requires
        round.votes.well_formed(),
        round.votes.finalized() is Some,
        n <= round.commit().precommits.len(),
    ensures
        ({
            let done = import_list(round.votes, chain, round.commit().precommits, n);
            done.round == round.votes && done.equivocations.len() == 0
        }),
    decreases n,
{
    if n > 0 {
        lemma_own_precommits_change_nothing(round, chain, (n - 1) as nat);
        let votes = round.votes;
        let list = round.commit().precommits;
        let raw = votes_upto(
            votes.voters,
            votes.precommits,
            votes.finalized()->0,
            votes.voters.len(),
        );
        lemma_votes_upto(
            votes.voters,
            votes.precommits,
            votes.finalized()->0,
            votes.voters.len(),
        );
        let signed = list[n - 1];
        assert(signed == signed_precommit(raw[n - 1]));
        let i = choose|i: int|
            #![trigger votes.precommits[i]]
            0 <= i < votes.voters.len() && is_vote_of(
                votes.voters,
                votes.precommits,
                i,
                raw[n - 1],
            );
        lemma_position_is_unique(votes.voters, i);
        let target = (signed.precommit.target_hash, signed.precommit.target_number);
        assert(added(votes.precommits[i], target, signed.signature) is Duplicate);
    }
}

/// Precommits of strangers make no difference to the validity of a commit.
pub proof fn strangers_do_not_matter<I, H, N: TargetNumber, S, C: Chain<H, N>>(
    commit: CommitView<H, N, S, I>,
    stranger: SignedPrecommit<H, N, S, I>,
    voters: Seq<(I, u64)>,
    chain: C,
)
    requires
        !is_voter(voters, stranger.id),
    ensures
        is_valid_commit(
            CommitView { precommits: commit.precommits.push(stranger), ..commit },
            voters,
            chain,
        ) == is_valid_commit(commit, voters, chain),
{
    let list = commit.precommits;
    let more = list.push(stranger);
    if all_known(chain, voters, more) {
        assert forall|k: int|
            #![trigger list[k]]
            0 <= k < list.len() && is_voter(voters, list[k].id) implies target_is_known(
            chain,
            list[k].precommit.target_hash,
            list[k].precommit.target_number,
        ) by {
            assert(more[k] == list[k]);
        }
    }
    if all_known(chain, voters, list) {
        assert forall|k: int|
            #![trigger more[k]]
            0 <= k < more.len() && is_voter(voters, more[k].id) implies target_is_known(
            chain,
            more[k].precommit.target_hash,
            more[k].precommit.target_number,
        ) by {
            if k < list.len() {
                assert(more[k] == list[k]);
            }
        }
    }
    let target = commit.target_hash;
    let a = committers(chain, voters, list, target);
    let b = committers(chain, voters, more, target);
    assert forall|i: int| 0 <= i < voters.len() implies #[trigger] a(i) == b(i) by {
        let id = voters[i].0;
        assert(is_voter(voters, id));
        if precommits_to(chain, list, id, target) {
            let k = choose|k: int|
                0 <= k < list.len() && (#[trigger] list[k]).id == id && chain.reaches(
                    target,
                    list[k].precommit.target_hash,
                );
            assert(more[k] == list[k]);
        }
        if contradicts_itself(list, id) {
            let (j, k) = choose|j: int, k: int|
                0 <= j < list.len() && 0 <= k < list.len() && (#[trigger] list[j]).id == id
                    && contradict(list[j], #[trigger] list[k]);
            assert(more[j] == list[j] && more[k] == list[k]);
        }
        if precommits_to(chain, more, id, target) {
            let k = choose|k: int|
                0 <= k < more.len() && (#[trigger] more[k]).id == id && chain.reaches(
                    target,
                    more[k].precommit.target_hash,
                );
            assert(more[k] == list[k]);
        }
        if contradicts_itself(more, id) {
            let (j, k) = choose|j: int, k: int|
                0 <= j < more.len() && 0 <= k < more.len() && (#[trigger] more[j]).id == id
                    && contradict(more[j], #[trigger] more[k]);
            assert(more[j] == list[j] && more[k] == list[k]);
        }
    }
    lemma_same_selection(voters, a, b, voters.len());
}

/// On a [`ViewChain`], a vote is acceptable exactly if its target is stored at
/// its view and descends from the base; the path to it then names every view.
pub proof fn votes_on_a_view_chain<H: Identity, N: BlockNumber>(
    chain: ViewChain<H, N>,
    base: (TargetId, u64),
    hash: TargetId,
    number: u64,
)
    requires
        chain@.well_formed(),
        chain@.known(base.0),
        chain@.view_of(base.0) == base.1,
    ensures
        vote_path(chain, base, hash, number) == (if !chain@.known(hash) || chain@.view_of(hash)
            != number {
            Err::<Seq<TargetId>, Error>(Error::InvalidTarget)
        } else if !chain@.descends(base.0, hash) {
            Err(Error::NotDescendent)
        } else {
            Ok(seq![base.0] + chain@.path(base.0, hash))
        }),
{
    let tree = chain@;
    if tree.descends(base.0, hash) {
        view_counts_the_targets_on_the_path(tree, base.0, hash);
        let path = tree.path(base.0, hash);
        if hash == base.0 {
            assert(seq![base.0] + path =~= seq![hash]);
        } else {
            let parent = tree.target(hash).parent->0;
            assert(path == tree.path(base.0, parent).push(hash));
            let between = tree.between(base.0, hash);
            assert(between.reverse() =~= path.drop_last());
            assert(seq![base.0] + between.reverse() + seq![hash] =~= seq![base.0] + path);
        }
    }
}

/// The targets on the way from a base to a descendant are stored, one view after
/// the other, and the descendant descends from each.
proof fn lemma_targets_on_the_way<H: Identity, N: BlockNumber>(
    chain: ViewChain<H, N>,
    base: (TargetId, u64),
    hash: TargetId,
    k: int,
)
    requires
        chain@.well_formed(),
        chain@.descends(base.0, hash),
        chain@.view_of(base.0) == base.1,
        0 <= k <= chain@.path(base.0, hash).len(),
    ensures
        ({
            let target = (seq![base.0] + chain@.path(base.0, hash))[k];
            &&& target_is_known(chain, target, u64::with_value((base.1.value() + k) as nat)->0)
            &&& chain.reaches(target, hash)
        }),
{
    let tree = chain@;
    let line = tree.path(base.0, hash);
    let target = (seq![base.0] + line)[k];
    view_counts_the_targets_on_the_path(tree, base.0, hash);
    assert(tree.known(target) && tree.view_of(target) == base.1 + k && tree.descends(target, hash))
        by {
        if k > 0 {
            lemma_path_views_are_consecutive(tree, base.0, hash);
            assert(target == line[k - 1]);
            path_holds_what_is_new(tree, base.0, hash, line[k - 1]);
        }
    }
}

/// A ballot for an acceptable path of a [`ViewChain`] is on the chain.
proof fn lemma_path_is_on_chain<H: Identity, N: BlockNumber, S>(
    chain: ViewChain<H, N>,
    base: (TargetId, u64),
    ballot: BallotView<TargetId, u64, S>,
)
    requires
        chain@.well_formed(),
        chain@.known(base.0),
        chain@.view_of(base.0) == base.1,
        ballot.second is None,
        vote_path(chain, base, ballot.target.0, ballot.target.1) == Ok::<Seq<TargetId>, Error>(
            ballot.path,
        ),
    ensures
        ballot_is_on_chain(chain, base, ballot),
{
    let hash = ballot.target.0;
    votes_on_a_view_chain(chain, base, hash, ballot.target.1);
    lemma_vote_path_fits(chain, base, hash, ballot.target.1);
    assert forall|k: int|
        #![trigger ballot.path[k]]
        0 <= k < ballot.path.len() implies target_is_known(
        chain,
        ballot.path[k],
        u64::with_value((base.1.value() + k) as nat)->0,
    ) && chain.reaches(ballot.path[k], ballot.path.last()) by {
        lemma_targets_on_the_way(chain, base, hash, k);
    }
}

/// A round without votes is on every chain that holds its base.
pub proof fn new_rounds_are_on_chain<I, H, N: TargetNumber, S, C: Chain<H, N>>(
    number: u64,
    voters: Seq<(I, u64)>,
    base: (H, N),
    chain: C,
)
    requires
        target_is_known(chain, base.0, base.1),
    ensures
        is_on_chain(new_round::<I, H, N, S>(number, voters, base), chain),
{
}

/// Votes that are imported against a [`ViewChain`] are on it.
pub proof fn imported_votes_are_on_chain<I, H: Identity, N: BlockNumber, S>(
    round: RoundView<I, TargetId, u64, S>,
    chain: ViewChain<H, N>,
    prevote: Prevote<TargetId, u64>,
    precommit: Precommit<TargetId, u64>,
    id: I,
    signature: S,
)
    requires
        round.well_formed(),
        chain@.well_formed(),
        is_on_chain(round, chain),
    ensures
        is_on_chain(round.after_prevote(chain, prevote, id, signature), chain),
        is_on_chain(round.after_precommit(chain, precommit, id, signature), chain),
{
    if let (Some(at), Ok(path)) = (
        position_of(round.voters, id),
        vote_path(chain, round.base, prevote.target_hash, prevote.target_number),
    ) {
        let target = (prevote.target_hash, prevote.target_number);
        lemma_ballots_after_are_on_chain(
            chain,
            round.base,
            round.prevotes,
            at,
            path,
            target,
            signature,
        );
    }
    if let (Some(at), Ok(path)) = (
        position_of(round.voters, id),
        vote_path(chain, round.base, precommit.target_hash, precommit.target_number),
    ) {
        let target = (precommit.target_hash, precommit.target_number);
        lemma_ballots_after_are_on_chain(
            chain,
            round.base,
            round.precommits,
            at,
            path,
            target,
            signature,
        );
    }
}

/// A ballot for an acceptable vote, or extended by one, is on the chain.
proof fn lemma_ballot_after_is_on_chain<H: Identity, N: BlockNumber, S>(
    chain: ViewChain<H, N>,
    base: (TargetId, u64),
    ballot: Option<BallotView<TargetId, u64, S>>,
    path: Seq<TargetId>,
    target: (TargetId, u64),
    signature: S,
)
    requires
        chain@.well_formed(),
        chain@.known(base.0),
        chain@.view_of(base.0) == base.1,
        ballot is Some ==> ballot_is_on_chain(chain, base, ballot->0),
        vote_path(chain, base, target.0, target.1) == Ok::<Seq<TargetId>, Error>(path),
    ensures
        ballot_after(ballot, path, target, signature) matches Some(after) && ballot_is_on_chain(
            chain,
            base,
            after,
        ),
{
    match ballot {
        None => {
            lemma_path_is_on_chain(
                chain,
                base,
                BallotView { target, path, signature, second: None },
            );
        },
        Some(before) => {
            let after = ballot_after(ballot, path, target, signature)->0;
            assert(after.path == before.path);
        },
    }
}

/// Adding an acceptable vote keeps the ballots on the chain.
proof fn lemma_ballots_after_are_on_chain<H: Identity, N: BlockNumber, S>(
    chain: ViewChain<H, N>,
    base: (TargetId, u64),
    ballots: Ballots<TargetId, u64, S>,
    at: int,
    path: Seq<TargetId>,
    target: (TargetId, u64),
    signature: S,
)
    requires
        chain@.well_formed(),
        chain@.known(base.0),
        chain@.view_of(base.0) == base.1,
        0 <= at < ballots.len(),
        ballots_are_on_chain(chain, base, ballots),
        vote_path(chain, base, target.0, target.1) == Ok::<Seq<TargetId>, Error>(path),
    ensures
        ballots_are_on_chain(
            chain,
            base,
            ballots.update(at, ballot_after(ballots[at], path, target, signature)),
        ),
{
    lemma_ballot_after_is_on_chain(chain, base, ballots[at], path, target, signature);
}

/// What is on a [`ViewChain`] stays on it, whatever is imported or finalized.
pub proof fn votes_stay_on_chain<I, H: Identity, N: BlockNumber, S>(
    round: RoundView<I, TargetId, u64, S>,
    before: ViewChain<H, N>,
    after: ViewChain<H, N>,
)
    requires
        before@.well_formed(),
        one_step(before@, after@),
        is_on_chain(round, before),
    ensures
        is_on_chain(round, after),
{
    lemma_one_step(before@, after@, round.base.0, round.base.0);
    lemma_ballots_stay_on_chain(round.base, round.prevotes, before, after);
    lemma_ballots_stay_on_chain(round.base, round.precommits, before, after);
}

/// A ballot on a [`ViewChain`] stays on it.
proof fn lemma_ballot_stays_on_chain<H: Identity, N: BlockNumber, S>(
    base: (TargetId, u64),
    ballot: BallotView<TargetId, u64, S>,
    before: ViewChain<H, N>,
    after: ViewChain<H, N>,
)
    requires
        before@.well_formed(),
        one_step(before@, after@),
        ballot_is_on_chain(before, base, ballot),
    ensures
        ballot_is_on_chain(after, base, ballot),
{
    assert forall|k: int|
        #![trigger ballot.path[k]]
        0 <= k < ballot.path.len() implies target_is_known(
        after,
        ballot.path[k],
        u64::with_value((base.1.value() + k) as nat)->0,
    ) && after.reaches(ballot.path[k], ballot.path.last()) by {
        assert(ballot.path.last() == ballot.path[ballot.path.len() - 1]);
        lemma_one_step(before@, after@, ballot.path[k], ballot.path[k]);
        lemma_one_step(before@, after@, ballot.path[k], ballot.path.last());
    }
    if let Some(second) = ballot.second {
        lemma_one_step(before@, after@, second.0.0, second.0.0);
    }
}

/// Ballots on a [`ViewChain`] stay on it.
proof fn lemma_ballots_stay_on_chain<H: Identity, N: BlockNumber, S>(
    base: (TargetId, u64),
    ballots: Ballots<TargetId, u64, S>,
    before: ViewChain<H, N>,
    after: ViewChain<H, N>,
)
    requires
        before@.well_formed(),
        one_step(before@, after@),
        ballots_are_on_chain(before, base, ballots),
    ensures
        ballots_are_on_chain(after, base, ballots),
{
    assert forall|i: int|
        #![trigger ballots[i]]
        0 <= i < ballots.len() && ballots[i] is Some implies ballot_is_on_chain(
        after,
        base,
        ballots[i]->0,
    ) by {
        lemma_ballot_stays_on_chain(base, ballots[i]->0, before, after);
    }
}

/// What a round finalizes can be finalized in the tree: while finality has not
/// moved past the base of the round, the tree accepts it.
pub proof fn what_a_round_finalizes_can_be_finalized<I, H: Identity, N: BlockNumber, S>(
    round: RoundView<I, TargetId, u64, S>,
    chain: ViewChain<H, N>,
)
    requires
        round.well_formed(),
        chain@.well_formed(),
        is_on_chain(round, chain),
        chain@.descends(chain@.finalized.id, round.base.0),
        round.finalized() is Some,
    ensures
        ({
            let target = round.state().finalized->0;
            chain@.finalization_error((TargetRef { id: target.0, view: target.1 })) is None
        }),
{
    let tree = chain@;
    let done = round.finalized()->0;
    let top = round.prevote_ghost()->0;
    let start = seq![round.base.0];
    lemma_finalized_target_is_known(round, chain);
    lemma_state_fits(round);
    lemma_climb(round.prevotes, has_supermajority(round.voters, round.prevotes), start);
    if top == start {
        assert(top.subrange(0, 1)[0] == round.base.0);
    } else {
        let i = choose|i: int|
            0 <= i < round.prevotes.len() && (#[trigger] round.prevotes[i]) is Some
                && top.is_prefix_of(round.prevotes[i]->0.path);
        let path = round.prevotes[i]->0.path;
        lemma_beginning_of_beginning(done, top, path);
        let k = done.len() - 1;
        assert(path.subrange(0, done.len() as int)[k] == path[k]);
        assert(ballot_is_on_chain(chain, round.base, round.prevotes[i]->0));
        assert(chain.reaches(path[0], path.last()) && chain.reaches(path[k], path.last()));
        ancestors_are_comparable(tree, path[0], path[k], path.last());
        if tree.descends(path[k], path[0]) {
            view_counts_the_targets_on_the_path(tree, path[k], path[0]);
        }
        descent_is_transitive(tree, tree.finalized.id, path[0], path[k]);
    }
}

/// Selects the voters that contradict themselves in a list.
pub open spec fn contradictory<I, H, N: TargetNumber, S>(
    voters: Seq<(I, u64)>,
    list: Seq<SignedPrecommit<H, N, S, I>>,
) -> spec_fn(int) -> bool {
    |i: int| contradicts_itself(list, voters[i].0)
}

/// Valid commits agree: while no more than the tolerated weight contradicts itself
/// in them, one of the two targets descends from the other.
pub proof fn valid_commits_agree<I, H: Identity, N: BlockNumber, S>(
    a: CommitView<TargetId, u64, S, I>,
    b: CommitView<TargetId, u64, S, I>,
    voters: Seq<(I, u64)>,
    chain: ViewChain<H, N>,
)
    requires
        chain@.well_formed(),
        total_of(voters) > 0,
        is_valid_commit(a, voters, chain),
        is_valid_commit(b, voters, chain),
        weight_of(voters, contradictory(voters, a.precommits + b.precommits)) <= tolerated(
            total_of(voters),
        ),
    ensures
        chain@.descends(a.target_hash, b.target_hash) || chain@.descends(
            b.target_hash,
            a.target_hash,
        ),
{
    let n = voters.len();
    let all = a.precommits + b.precommits;
    let for_a = committers(chain, voters, a.precommits, a.target_hash);
    let for_b = committers(chain, voters, b.precommits, b.target_hash);
    let bad = contradictory(voters, all);
    let either = |i: int| for_a(i) || for_b(i);
    let both = |i: int| for_a(i) && for_b(i);
    lemma_union_and_overlap(voters, for_a, for_b, n);
    lemma_same_selection(voters, either, |i: int| for_a(i) || for_b(i), n);
    lemma_same_selection(voters, both, |i: int| for_a(i) && for_b(i), n);
    lemma_weight_is_monotone(voters, either, everyone(), n);
    lemma_supermajorities_overlap(total_of(voters));
    if forall|i: int| 0 <= i < n && #[trigger] both(i) ==> bad(i) {
        lemma_weight_is_monotone(voters, both, bad, n);
    }
    let i = choose|i: int| 0 <= i < n && #[trigger] both(i) && !bad(i);
    assert(both(i) && !bad(i));
    let id = voters[i].0;
    lemma_contradictions_persist(a.precommits, b.precommits, id);
    let j = choose|j: int|
        0 <= j < a.precommits.len() && (#[trigger] a.precommits[j]).id == id && chain.reaches(
            a.target_hash,
            a.precommits[j].precommit.target_hash,
        );
    let k = choose|k: int|
        0 <= k < b.precommits.len() && (#[trigger] b.precommits[k]).id == id && chain.reaches(
            b.target_hash,
            b.precommits[k].precommit.target_hash,
        );
    let x = all[j];
    let y = all[a.precommits.len() + k];
    assert(x == a.precommits[j] && y == b.precommits[k]);
    assert(!contradict(x, y));
    ancestors_are_comparable(
        chain@,
        a.target_hash,
        b.target_hash,
        x.precommit.target_hash,
    );
}

/// Who contradicts itself in a part of a list does so in the list.
proof fn lemma_contradictions_persist<I, H, N: TargetNumber, S>(
    a: Seq<SignedPrecommit<H, N, S, I>>,
    b: Seq<SignedPrecommit<H, N, S, I>>,
    id: I,
)
    ensures
        contradicts_itself(a, id) ==> contradicts_itself(a + b, id),
        contradicts_itself(b, id) ==> contradicts_itself(a + b, id),
{
    let all = a + b;
    if contradicts_itself(a, id) {
        let (j, k) = choose|j: int, k: int|
            0 <= j < a.len() && 0 <= k < a.len() && (#[trigger] a[j]).id == id && contradict(
                a[j],
                #[trigger] a[k],
            );
        assert(all[j] == a[j] && all[k] == a[k]);
    }
    if contradicts_itself(b, id) {
        let (j, k) = choose|j: int, k: int|
            0 <= j < b.len() && 0 <= k < b.len() && (#[trigger] b[j]).id == id && contradict(
                b[j],
                #[trigger] b[k],
            );
        assert(all[a.len() + j] == b[j] && all[a.len() + k] == b[k]);
    }
}

/// On a [`ViewChain`], the primary's hint is adopted if and only if it is the prior
/// round's prevote-ghost, or is stored at its view strictly between the estimate
/// and the ghost. Otherwise the estimate is what a prevote must descend from.
pub proof fn hints_are_adopted_exactly_where_they_belong<I, H: Identity, N: BlockNumber, S>(
    round: VotingRoundView<I, TargetId, u64, S>,
    chain: ViewChain<H, N>,
    last: RoundState<TargetId, u64>,
)
    requires
        chain@.well_formed(),
        round.has_anchor(last),
        round.primary_block is Some,
        chain@.known((last.prevote_ghost->0).0),
        chain@.view_of((last.prevote_ghost->0).0) == (last.prevote_ghost->0).1,
    ensures
        ({
            let hint = round.primary_block->0;
            let estimate = (last.estimate->0).0;
            let top = last.prevote_ghost->0;
            let belongs = {
                ||| hint == top
                ||| {
                    &&& chain@.descends(estimate, top.0)
                    &&& chain@.between(estimate, top.0).contains(hint.0)
                    &&& chain@.view_of(hint.0) == hint.1
                }
            };
            round.anchor(chain, last) == if belongs {
                hint.0
            } else {
                estimate
            }
        }),
{
    let tree = chain@;
    let hint = round.primary_block->0;
    let estimate = (last.estimate->0).0;
    let top = last.prevote_ghost->0;
    let between = tree.between(estimate, top.0);
    let offset = top.1 - hint.1 - 1;
    if hint != top && tree.descends(estimate, top.0) && estimate != top.0 {
        ancestry_includes_every_view(tree, estimate, top.0, offset);
        if between.contains(hint.0) {
            let i = choose|i: int| 0 <= i < between.len() && between[i] == hint.0;
            ancestry_includes_every_view(tree, estimate, top.0, i);
        }
    }
}

/// On a [`ViewChain`], the primary's hint is adopted only where it belongs: the
/// target that a prevote must descend from is the prior round's estimate, or its
/// prevote-ghost, or lies between the two at the hinted view.
pub proof fn anchor_lies_between_estimate_and_ghost<I, H: Identity, N: BlockNumber, S>(
    round: VotingRoundView<I, TargetId, u64, S>,
    chain: ViewChain<H, N>,
    last: RoundState<TargetId, u64>,
)
    requires
        chain@.well_formed(),
        round.has_anchor(last),
        round.primary_block is Some,
        chain@.known((last.prevote_ghost->0).0),
        chain@.view_of((last.prevote_ghost->0).0) == (last.prevote_ghost->0).1,
    ensures
        ({
            let anchor = round.anchor(chain, last);
            let estimate = (last.estimate->0).0;
            let top = (last.prevote_ghost->0).0;
            ||| anchor == estimate
            ||| anchor == top && round.primary_block == last.prevote_ghost
            ||| {
                &&& Some((anchor, chain@.view_of(anchor))) == round.primary_block
                &&& chain@.descends(estimate, anchor)
                &&& chain@.descends(anchor, top)
            }
        }),
{
    let tree = chain@;
    let estimate = (last.estimate->0).0;
    let top = last.prevote_ghost->0;
    let hint = round.primary_block->0;
    let anchor = round.anchor(chain, last);
    hints_are_adopted_exactly_where_they_belong(round, chain, last);
    if anchor != estimate && hint != top {
        let between = tree.between(estimate, top.0);
        let line = tree.path(estimate, top.0);
        assert(line.contains(anchor)) by {
            let i = choose|i: int| 0 <= i < between.len() && between[i] == anchor;
            assert(between[i] == line[line.len() - 2 - i]);
        }
        path_holds_what_is_new(tree, estimate, top.0, anchor);
        ancestors_are_comparable(tree, estimate, anchor, top.0);
    }
}

} // verus!
