//! Laws of handling messages and polling: which messages count, what a round announces,
//! and when it is done.
use vstd::prelude::*;

use crate::chain::{Chain, Error, VoteTarget};
use crate::counting_laws::{first_precommits_are_counted, first_prevotes_are_counted};
use crate::host::Host;
use crate::ident::Identity;
use crate::messages::{
    Commit, HistoricalVotes, Message, RoundState, SignedMessage, SignedPrecommit,
};
use crate::number::{BlockNumber, TargetNumber};
use crate::round::{lemma_ghost_fits, lemma_state_fits, vote_path, RoundView};
use crate::store_laws::{hosts_answer_about_their_trees, trees_answer_about_themselves};
use crate::tally::{cast, has_supermajority, lemma_highest, lemma_support, support};
use crate::tree::TargetId;
use crate::view_chain::ViewChain;
use crate::voting_round::{
    commit_view, import_list, FinalizedNotification, Misbehaviour, State, VotingRoundView,
};
use crate::weights::{supermajority_is_more_than_two_thirds, total_of};

verus! {

/// The chain holds the target of a message at its view, above the base of the round or
/// at it, and names as many targets in between as there are views.
pub open spec fn is_well_placed<I, H, N: TargetNumber, S, C: Chain<H, N>>(
    votes: RoundView<I, H, N, S>,
    chain: C,
    hash: H,
    number: N,
) -> bool {
    &&& chain.target_at(hash) matches Some(target) && target.hash() == hash && target.number()
        == number
    &&& chain.reaches(votes.base.0, hash)
    &&& hash == votes.base.0 ==> number == votes.base.1
    &&& hash != votes.base.0 ==> (chain.ancestors(votes.base.0, hash) matches Ok(between)
        && number.value() == votes.base.1.value() + between.len() + 1)
}

/// Whatever the round has established and however far the local voter has got, the
/// first prevote of a voter for a well-placed target is counted: the voter then has a
/// ballot for that target, the weight of the prevotes has grown by the voter's weight,
/// and the vote is the last one in the history. Nothing else of the round changes, and
/// no misbehaviour is reported.
pub proof fn first_prevotes_always_count<I, H, N: TargetNumber, S, C: Chain<H, N>>(
    round: VotingRoundView<I, H, N, S>,
    chain: C,
    vote: SignedMessage<H, N, S, I>,
    at: int,
)
    requires
        round.votes.well_formed(),
        0 <= at < round.votes.voters.len(),
        round.votes.voters[at].0 == vote.id,
        round.votes.prevotes[at] is None,
        vote.message is Prevote,
        is_well_placed(round.votes, chain, vote.message.hash(), vote.message.number()),
    ensures
        ({
            let after = round.after_message(chain, vote);
            let voters = round.votes.voters;
            let weight = voters[at].1;
            &&& after.votes.prevotes.len() == round.votes.prevotes.len()
            &&& after.votes.prevotes[at] matches Some(ballot) && {
                &&& ballot.target == (vote.message->Prevote_0.target_hash,
                    vote.message->Prevote_0.target_number)
                &&& ballot.signature == vote.signature
                &&& ballot.second is None
                &&& ballot.path[0] == round.votes.base.0
                &&& ballot.path.last() == vote.message->Prevote_0.target_hash
            }
            &&& forall|i: int|
                0 <= i < voters.len() && i != at ==> after.votes.prevotes[i]
                    == #[trigger] round.votes.prevotes[i]
            &&& cast(voters, after.votes.prevotes) == cast(voters, round.votes.prevotes) + weight
            &&& after.votes.history.seen == round.votes.history.seen.push(vote)
            &&& after.votes.precommits == round.votes.precommits
            &&& after.votes.voters == voters
            &&& after.votes.base == round.votes.base
            &&& after.votes.number == round.votes.number
            &&& after.votes.history.prevote_idx == round.votes.history.prevote_idx
            &&& after.votes.history.precommit_idx == round.votes.history.precommit_idx
            &&& after == (VotingRoundView { votes: after.votes, ..round })
            &&& round.message_report(chain, vote) == Ok::<
                Option<Misbehaviour<I, H, N, S>>,
                Error,
            >(None)
        }),
{
    let prevote = vote.message->Prevote_0;
    let path = vote_path(chain, round.votes.base, prevote.target_hash, prevote.target_number)->Ok_0;
    first_prevotes_are_counted(round.votes, chain, prevote, at, vote.signature, path);
    let after = round.after_message(chain, vote);
    assert(after.votes.history.seen =~= after.votes.history.seen.drop_last().push(
        after.votes.history.seen.last(),
    ));
}

/// Whatever the round has established and however far the local voter has got, the
/// first precommit of a voter for a well-placed target is counted: the voter then has a
/// ballot for that target, the weight of the precommits has grown by the voter's
/// weight, and the vote is the last one in the history. Nothing else of the round
/// changes, and no misbehaviour is reported.
pub proof fn first_precommits_always_count<I, H, N: TargetNumber, S, C: Chain<H, N>>(
    round: VotingRoundView<I, H, N, S>,
    chain: C,
    vote: SignedMessage<H, N, S, I>,
    at: int,
)
    requires
        round.votes.well_formed(),
        0 <= at < round.votes.voters.len(),
        round.votes.voters[at].0 == vote.id,
        round.votes.precommits[at] is None,
        vote.message is Precommit,
        is_well_placed(round.votes, chain, vote.message.hash(), vote.message.number()),
    ensures
        ({
            let after = round.after_message(chain, vote);
            let voters = round.votes.voters;
            let weight = voters[at].1;
            &&& after.votes.precommits.len() == round.votes.precommits.len()
            &&& after.votes.precommits[at] matches Some(ballot) && {
                &&& ballot.target == (vote.message->Precommit_0.target_hash,
                    vote.message->Precommit_0.target_number)
                &&& ballot.signature == vote.signature
                &&& ballot.second is None
                &&& ballot.path[0] == round.votes.base.0
                &&& ballot.path.last() == vote.message->Precommit_0.target_hash
            }
            &&& forall|i: int|
                0 <= i < voters.len() && i != at ==> after.votes.precommits[i]
                    == #[trigger] round.votes.precommits[i]
            &&& cast(voters, after.votes.precommits) == cast(voters, round.votes.precommits)
                + weight
            &&& after.votes.history.seen == round.votes.history.seen.push(vote)
            &&& after.votes.prevotes == round.votes.prevotes
            &&& after.votes.voters == voters
            &&& after.votes.base == round.votes.base
            &&& after.votes.number == round.votes.number
            &&& after.votes.history.prevote_idx == round.votes.history.prevote_idx
            &&& after.votes.history.precommit_idx == round.votes.history.precommit_idx
            &&& after == (VotingRoundView { votes: after.votes, ..round })
            &&& round.message_report(chain, vote) == Ok::<
                Option<Misbehaviour<I, H, N, S>>,
                Error,
            >(None)
        }),
{
    let precommit = vote.message->Precommit_0;
    let path = vote_path(
        chain,
        round.votes.base,
        precommit.target_hash,
        precommit.target_number,
    )->Ok_0;
    first_precommits_are_counted(round.votes, chain, precommit, at, vote.signature, path);
    let after = round.after_message(chain, vote);
    assert(after.votes.history.seen =~= after.votes.history.seen.drop_last().push(
        after.votes.history.seen.last(),
    ));
}

/// In a round whose base a tree stores at its view, a target is well placed if and only
/// if it is stored at its view and descends from the base.
pub proof fn stored_descendants_are_well_placed<I, H: Identity, N: BlockNumber, S>(
    votes: RoundView<I, TargetId, u64, S>,
    chain: ViewChain<H, N>,
    hash: TargetId,
    number: u64,
)
    requires
        chain@.well_formed(),
        chain@.known(votes.base.0),
        chain@.target(votes.base.0).view == votes.base.1,
    ensures
        is_well_placed(votes, chain, hash, number) <==> {
            &&& chain@.known(hash)
            &&& chain@.target(hash).view == number
            &&& chain@.descends(votes.base.0, hash)
        },
{
    trees_answer_about_themselves(chain, votes.base.0, hash, 0);
}

/// In a round whose base a host stores at its view, a target is well placed if and only
/// if the host stores it at its view and it descends from the base.
pub proof fn hosted_descendants_are_well_placed<I, H: Identity, N: BlockNumber, S>(
    votes: RoundView<I, TargetId, u64, S>,
    host: Host<H, N, S, I>,
    hash: TargetId,
    number: u64,
)
    requires
        host@.tree.well_formed(),
        host@.tree.known(votes.base.0),
        host@.tree.target(votes.base.0).view == votes.base.1,
    ensures
        is_well_placed(votes, host, hash, number) <==> {
            &&& host@.tree.known(hash)
            &&& host@.tree.target(hash).view == number
            &&& host@.tree.descends(votes.base.0, hash)
        },
{
    hosts_answer_about_their_trees(host, votes.base.0, hash, 0);
}

/// Whatever a round on a tree has established and however far the local voter has got,
/// the first prevote or precommit of a voter for a target that the tree stores at its
/// view, at the base of the round or above it, is counted: the voter then has a ballot
/// for that target in that phase, the weight of the phase has grown by the voter's
/// weight, and the vote is the last one in the history.
pub proof fn stored_descendants_always_count<I, H: Identity, N: BlockNumber, S>(
    round: VotingRoundView<I, TargetId, u64, S>,
    chain: ViewChain<H, N>,
    vote: SignedMessage<TargetId, u64, S, I>,
    at: int,
)
    requires
        round.votes.well_formed(),
        chain@.well_formed(),
        chain@.known(round.votes.base.0),
        chain@.target(round.votes.base.0).view == round.votes.base.1,
        0 <= at < round.votes.voters.len(),
        round.votes.voters[at].0 == vote.id,
        chain@.known(vote.message.hash()),
        chain@.target(vote.message.hash()).view == vote.message.number(),
        chain@.descends(round.votes.base.0, vote.message.hash()),
    ensures
        ({
            let after = round.after_message(chain, vote);
            let voters = round.votes.voters;
            let target = (vote.message.hash(), vote.message.number());
            &&& vote.message is Prevote && round.votes.prevotes[at] is None ==> {
                &&& after.votes.prevotes[at] matches Some(ballot) && ballot.target == target
                &&& cast(voters, after.votes.prevotes) == cast(voters, round.votes.prevotes)
                    + voters[at].1
                &&& after.votes.history.seen == round.votes.history.seen.push(vote)
            }
            &&& vote.message is Precommit && round.votes.precommits[at] is None ==> {
                &&& after.votes.precommits[at] matches Some(ballot) && ballot.target == target
                &&& cast(voters, after.votes.precommits) == cast(voters, round.votes.precommits)
                    + voters[at].1
                &&& after.votes.history.seen == round.votes.history.seen.push(vote)
            }
        }),
{
    stored_descendants_are_well_placed(
        round.votes,
        chain,
        vote.message.hash(),
        vote.message.number(),
    );
    if vote.message is Prevote && round.votes.prevotes[at] is None {
        first_prevotes_always_count(round, chain, vote, at);
    }
    if vote.message is Precommit && round.votes.precommits[at] is None {
        first_precommits_always_count(round, chain, vote, at);
    }
}

/// A message whose target the chain does not hold at its view, or that does not descend
/// from the base of the round, changes nothing and is not an error.
pub proof fn misplaced_messages_are_ignored<I, H, N: TargetNumber, S, C: Chain<H, N>>(
    round: VotingRoundView<I, H, N, S>,
    chain: C,
    vote: SignedMessage<H, N, S, I>,
)
    ensures
        ({
            let held = chain.target_at(vote.message.hash()) matches Some(target) && target.hash()
                == vote.message.hash() && target.number() == vote.message.number();
            let astray = !chain.reaches(round.votes.base.0, vote.message.hash());
            !held || astray ==> {
                &&& round.after_message(chain, vote) == round
                &&& round.message_report(chain, vote) == Ok::<
                    Option<Misbehaviour<I, H, N, S>>,
                    Error,
                >(None)
            }
        }),
{
}

/// Messages and vote targets point at the target that they carry.
pub proof fn messages_point_at_their_targets<H, N>(message: Message<H, N>, hash: H, number: N)
    ensures
        VoteTarget::Block(hash, number).hash() == hash,
        VoteTarget::Block(hash, number).number() == number,
        VoteTarget::ViewTimeout(hash, number).hash() == hash,
        VoteTarget::ViewTimeout(hash, number).number() == number,
        message matches Message::Prevote(vote) ==> message.hash() == vote.target_hash
            && message.number() == vote.target_number,
        message matches Message::Precommit(vote) ==> message.hash() == vote.target_hash
            && message.number() == vote.target_number,
        message matches Message::PrimaryPropose(hint) ==> message.hash() == hint.target_hash
            && message.number() == hint.target_number,
{
}

/// What is said of commits and histories is said of their fields.
pub proof fn records_show_their_fields<H, N, S, I>(
    commit: Commit<H, N, S, I>,
    history: HistoricalVotes<H, N, S, I>,
)
    ensures
        commit@.target_hash == commit.target_hash,
        commit@.target_number == commit.target_number,
        commit@.precommits == commit.precommits@,
        commit_view(Some(commit)) == Some(commit@),
        commit_view(None::<Commit<H, N, S, I>>) is None,
        history@.seen == history.seen@,
        history@.prevote_idx == history.prevote_idx,
        history@.precommit_idx == history.precommit_idx,
{
}

/// States and errors have the names of their variants.
pub proof fn names_are_those_of_the_variants<H, N>(hash: H, target: (H, N))
    ensures
        State::<H, N>::Start.spec_name() == "Start"@,
        State::<H, N>::Proposed.spec_name() == "Proposed"@,
        State::<H, N>::Prevoting(hash, target).spec_name() == "Prevoting"@,
        State::<H, N>::Prevoted.spec_name() == "Prevoted"@,
        State::<H, N>::Precommitted.spec_name() == "Precommitted"@,
        Error::InvalidTarget.spec_name() == "InvalidTarget"@,
        Error::NotDescendent.spec_name() == "NotDescendent"@,
{
}

/// A vote for a target that the chain holds above the base does to a round what its
/// import does to the votes, and leaves the rest alone. The evidence that the import
/// reports is handed on as misbehaviour in its phase, and so is an error.
pub proof fn votes_in_place_are_imported<I, H, N: TargetNumber, S, C: Chain<H, N>>(
    round: VotingRoundView<I, H, N, S>,
    chain: C,
    vote: SignedMessage<H, N, S, I>,
)
    requires
        chain.target_at(vote.message.hash()) is Some,
        (chain.target_at(vote.message.hash())->0).hash() == vote.message.hash(),
        (chain.target_at(vote.message.hash())->0).number() == vote.message.number(),
        chain.reaches(round.votes.base.0, vote.message.hash()),
    ensures
        vote.message matches Message::Prevote(prevote) ==> {
            &&& round.after_message(chain, vote) == (VotingRoundView {
                votes: round.votes.after_prevote(chain, prevote, vote.id, vote.signature),
                ..round
            })
            &&& match round.votes.prevote_report(chain, prevote, vote.id, vote.signature) {
                Err(e) => round.message_report(chain, vote) == Err::<
                    Option<Misbehaviour<I, H, N, S>>,
                    Error,
                >(e),
                Ok(report) => match report.equivocation {
                    Some(evidence) => round.message_report(chain, vote) == Ok::<
                        Option<Misbehaviour<I, H, N, S>>,
                        Error,
                    >(Some(Misbehaviour::Prevote(evidence))),
                    None => round.message_report(chain, vote) == Ok::<
                        Option<Misbehaviour<I, H, N, S>>,
                        Error,
                    >(None),
                },
            }
        },
        vote.message matches Message::Precommit(precommit) ==> {
            &&& round.after_message(chain, vote) == (VotingRoundView {
                votes: round.votes.after_precommit(chain, precommit, vote.id, vote.signature),
                ..round
            })
            &&& match round.votes.precommit_report(chain, precommit, vote.id, vote.signature) {
                Err(e) => round.message_report(chain, vote) == Err::<
                    Option<Misbehaviour<I, H, N, S>>,
                    Error,
                >(e),
                Ok(report) => match report.equivocation {
                    Some(evidence) => round.message_report(chain, vote) == Ok::<
                        Option<Misbehaviour<I, H, N, S>>,
                        Error,
                    >(Some(Misbehaviour::Precommit(evidence))),
                    None => round.message_report(chain, vote) == Ok::<
                        Option<Misbehaviour<I, H, N, S>>,
                        Error,
                    >(None),
                },
            }
        },
{
}

/// A hint is noted if and only if it comes from the voter whose turn it is in this
/// round, and the chain holds its target at its view above the base or at it. A later
/// hint replaces an earlier one. Hints change nothing else and report nothing.
pub proof fn only_the_primary_hints<I, H, N: TargetNumber, S, C: Chain<H, N>>(
    round: VotingRoundView<I, H, N, S>,
    chain: C,
    vote: SignedMessage<H, N, S, I>,
)
    requires
        vote.message is PrimaryPropose,
    ensures
        ({
            let hint = vote.message->PrimaryPropose_0;
            let after = round.after_message(chain, vote);
            let voters = round.votes.voters;
            let counts = {
                &&& vote.id == voters[round.votes.number as int % voters.len() as int].0
                &&& chain.target_at(hint.target_hash) matches Some(target) && target.hash()
                    == hint.target_hash && target.number() == hint.target_number
                &&& chain.reaches(round.votes.base.0, hint.target_hash)
            };
            &&& after.primary_block == if counts {
                Some((hint.target_hash, hint.target_number))
            } else {
                round.primary_block
            }
            &&& after == (VotingRoundView { primary_block: after.primary_block, ..round })
            &&& round.message_report(chain, vote) == Ok::<
                Option<Misbehaviour<I, H, N, S>>,
                Error,
            >(None)
        }),
{
}

/// A list of precommits is imported in its order. As long as none was refused, the next
/// one is imported into what the others left, and its evidence joins theirs, in order;
/// one that is refused changes nothing and ends the import with its error, and nothing
/// after it counts.
pub proof fn lists_are_imported_until_one_is_refused<I, H, N: TargetNumber, S, C: Chain<H, N>>(
    round: RoundView<I, H, N, S>,
    chain: C,
    list: Seq<SignedPrecommit<H, N, S, I>>,
    n: nat,
)
    requires
        n < list.len(),
    ensures
        ({
            let nothing = import_list(round, chain, list, 0);
            let before = import_list(round, chain, list, n);
            let after = import_list(round, chain, list, n + 1);
            let next = list[n as int];
            let report = before.round.precommit_report(
                chain,
                next.precommit,
                next.id,
                next.signature,
            );
            &&& nothing.round == round && nothing.failure is None
            &&& nothing.equivocations.len() == 0
            &&& before.failure is Some ==> after == before
            &&& before.failure is None && report is Err ==> {
                &&& after.failure == Some(report->Err_0)
                &&& after.round == before.round
                &&& after.equivocations == before.equivocations
            }
            &&& before.failure is None && report is Ok ==> {
                &&& after.failure is None
                &&& after.round == before.round.after_precommit(
                    chain,
                    next.precommit,
                    next.id,
                    next.signature,
                )
                &&& after.equivocations == match report->Ok_0.equivocation {
                    Some(evidence) => before.equivocations.push(evidence),
                    None => before.equivocations,
                }
            }
        }),
{
    reveal_with_fuel(import_list, 2);
}

/// A round announces what it has finalized if and only if it is completable and has
/// finalized a target, the local voter has precommitted or cannot vote for want of a
/// prior round, and the finalized target is another one than before, or nothing was
/// announced yet. So a change of what is finalized is announced whatever was announced
/// before.
pub proof fn changed_finality_is_announced<I, H, N: TargetNumber, S>(
    round: VotingRoundView<I, H, N, S>,
    earlier: RoundState<H, N>,
)
    ensures
        ({
            let now = round.votes.state();
            let due = {
                &&& now.completable
                &&& now.finalized is Some
                &&& round.state == Some(State::<H, N>::Precommitted) || round.last_round_state
                    is None
            };
            &&& due && earlier.finalized != now.finalized ==> round.announces(earlier)
            &&& due && round.best_finalized is None ==> round.announces(earlier)
            &&& round.announces(earlier) ==> due
            &&& round.announces(earlier) ==> earlier.finalized != now.finalized
                || round.best_finalized is None
        }),
{
}

/// After an announcement, the commit that is kept is for what the round has finalized
/// now, with the precommits of this round for it. Without one it is what it was.
pub proof fn announced_commits_are_kept<I, H, N: TargetNumber, S>(
    round: VotingRoundView<I, H, N, S>,
    earlier: RoundState<H, N>,
)
    ensures
        ({
            let after = round.notified(earlier);
            let now = round.votes.state();
            &&& round.announces(earlier) ==> (after.best_finalized matches Some(commit) && {
                &&& now.finalized == Some((commit.target_hash, commit.target_number))
                &&& commit.precommits == round.votes.finalizing_precommits()
            })
            &&& !round.announces(earlier) ==> after.best_finalized == round.best_finalized
            &&& after.votes == round.votes
        }),
{
}

/// If a round is completable, has finalized a target, and the local voter has
/// precommitted or has no prior round, then after it was notified of another finalized
/// target than before, the commit that it keeps is for the target that it has finalized
/// now.
pub proof fn the_kept_commit_follows_finality<I, H, N: TargetNumber, S>(
    round: VotingRoundView<I, H, N, S>,
    earlier: RoundState<H, N>,
)
    requires
        round.votes.state().completable,
        round.votes.state().finalized is Some,
        round.state == Some(State::<H, N>::Precommitted) || round.last_round_state is None,
        earlier.finalized != round.votes.state().finalized,
    ensures
        round.notified(earlier).best_finalized matches Some(commit)
            && round.votes.state().finalized == Some((commit.target_hash, commit.target_number)),
{
    changed_finality_is_announced(round, earlier);
    announced_commits_are_kept(round, earlier);
}

/// The later round is told of a changed state if it was handed one before. Notifying
/// changes nothing but what the later round is told and which commit is kept.
pub proof fn later_rounds_are_told_of_changes<I, H, N: TargetNumber, S>(
    round: VotingRoundView<I, H, N, S>,
    earlier: RoundState<H, N>,
)
    ensures
        ({
            let after = round.notified(earlier);
            let now = round.votes.state();
            &&& round.bridged_round_state is None ==> after.bridged_round_state is None
            &&& round.bridged_round_state is Some && earlier != now ==> after.bridged_round_state
                == Some(now)
            &&& earlier == now ==> after.bridged_round_state == round.bridged_round_state
            &&& after == (VotingRoundView {
                bridged_round_state: after.bridged_round_state,
                best_finalized: after.best_finalized,
                ..round
            })
        }),
{
}

/// A notification names what the round has finalized, the number of the round, and a
/// commit for the same target with the precommits of the round for it.
pub proof fn notifications_name_what_is_final<I, H, N: TargetNumber, S>(
    round: VotingRoundView<I, H, N, S>,
    notification: FinalizedNotification<H, N, S, I>,
)
    requires
        notification.is_about(round),
        round.votes.state().finalized is Some,
    ensures
        round.votes.state().finalized == Some((notification.hash, notification.number)),
        notification.round_number == round.votes.number,
        notification.commit@.target_hash == notification.hash,
        notification.commit@.target_number == notification.number,
        notification.commit@.precommits == round.votes.finalizing_precommits(),
{
}

/// A round is complete if and only if it is completable and, where it has a prior
/// round, that round has both an estimate and a finalized target, and the view of the
/// estimate is at most that of what one of the two rounds has finalized.
pub proof fn rounds_complete_once_the_prior_estimate_is_final<I, H, N: TargetNumber, S>(
    round: VotingRoundView<I, H, N, S>,
)
    ensures
        round.is_complete() <==> {
            &&& round.votes.state().completable
            &&& round.last_round_state matches Some(last) ==> {
                &&& last.estimate is Some && last.finalized is Some
                &&& {
                    ||| (last.estimate->0).1.value() <= (last.finalized->0).1.value()
                    ||| round.votes.state().finalized matches Some(here) && (
                    last.estimate->0).1.value() <= here.1.value()
                }
            }
        },
{
}

/// If a round with a prior round is complete, then the view of the prior round's
/// estimate is at most the view of what the prior round has finalized, or at most the
/// view of a target that more than two thirds of the precommits and of the prevotes of
/// this round count for.
pub proof fn complete_rounds_settle_the_prior_estimate<I, H, N: TargetNumber, S>(
    round: VotingRoundView<I, H, N, S>,
)
    requires
        round.votes.well_formed(),
        round.is_complete(),
        round.last_round_state is Some,
    ensures
        ({
            let last = round.last_round_state->0;
            let votes = round.votes;
            let total = total_of(votes.voters);
            &&& last.estimate is Some && last.finalized is Some
            &&& {
                ||| (last.estimate->0).1.value() <= (last.finalized->0).1.value()
                ||| exists|target: Seq<H>|
                    {
                        &&& 3 * #[trigger] support(votes.voters, votes.precommits, target) > 2
                            * total
                        &&& 3 * support(votes.voters, votes.prevotes, target) > 2 * total
                        &&& target.len() > 0 && target[0] == votes.base.0
                        &&& (last.estimate->0).1.value() <= votes.base.1.value() + target.len() - 1
                    }
            }
        }),
{
    let last = round.last_round_state->0;
    let votes = round.votes;
    if (last.estimate->0).1.value() > (last.finalized->0).1.value() {
        let target = votes.finalized()->0;
        let ghost_path = votes.prevote_ghost()->0;
        lemma_state_fits(votes);
        lemma_ghost_fits(votes, votes.prevotes);
        lemma_highest(has_supermajority(votes.voters, votes.precommits), ghost_path);
        lemma_support(votes.voters, votes.prevotes, target, ghost_path);
        supermajority_is_more_than_two_thirds(
            total_of(votes.voters),
            support(votes.voters, votes.precommits, target),
        );
        supermajority_is_more_than_two_thirds(
            total_of(votes.voters),
            support(votes.voters, votes.prevotes, target),
        );
        N::representation_is_exact((votes.base.1.value() + target.len() - 1) as nat);
        assert(target[0] == ghost_path.subrange(0, target.len() as int)[0]);
    }
}

} // verus!
