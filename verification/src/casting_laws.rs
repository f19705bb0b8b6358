//! Laws of casting: when the local voter sends a hint, looks up what to prevote for,
//! prevotes, precommits, or gives up.
use vstd::prelude::*;

use crate::chain::{Chain, Error, VoteTarget};
use crate::messages::{HistoricalVotesView, Message, Precommit, Prevote, RoundState};
use crate::number::TargetNumber;
use crate::round::RoundView;
use crate::voter_set::is_voter;
use crate::voting_round::{
    role, Attempt, Failure, PrevoteAction, Signal, State, Step, Voting, VotingRoundView,
};

verus! {

/// The voter at the round number, counted round and round, is the primary; every
/// other voter votes, and nobody else does.
pub proof fn roles_follow_from_the_round_number<I, H, N: TargetNumber, S>(
    votes: RoundView<I, H, N, S>,
    id: I,
)
    requires
        votes.well_formed(),
    ensures
        role(votes, None::<I>) is No,
        role(votes, Some(id)) is Primary <==> id == votes.voters[votes.number as int
            % votes.voters.len() as int].0,
        role(votes, Some(id)) is No <==> forall|i: int|
            0 <= i < votes.voters.len() ==> (#[trigger] votes.voters[i]).0 != id,
{
    let at = votes.number as int % votes.voters.len() as int;
    assert(0 <= at < votes.voters.len()) by (nonlinear_arith)
        requires
            at == votes.number as int % votes.voters.len() as int,
            votes.voters.len() > 0,
    ;
    assert(is_voter(votes.voters, votes.voters[at].0));
    if is_voter(votes.voters, id) {
        let i = choose|i: int| 0 <= i < votes.voters.len() && #[trigger] votes.voters[i].0 == id;
        assert(votes.voters[i].0 == id);
    }
}

/// The primary that has said nothing yet sends a hint if and only if the prior round
/// has an estimate above everything that it has finalized. The hint names that
/// estimate. Nothing else that the prior round established matters.
pub proof fn hints_are_sent_for_open_estimates<I, H, N: TargetNumber, S>(
    round: VotingRoundView<I, H, N, S>,
    last: RoundState<H, N>,
)
    ensures
        round.proposal(last) is Some <==> {
            &&& round.voting is Primary
            &&& round.state == Some(State::<H, N>::Start)
            &&& last.estimate is Some
            &&& last.finalized is Some ==> (last.finalized->0).1.value() < (
            last.estimate->0).1.value()
        },
        round.proposal(last) matches Some(hint) ==> last.estimate == Some(
            (hint.target_hash, hint.target_number),
        ),
{
}

/// A message that is cast waits for being recorded, and nothing else changes.
pub proof fn cast_messages_wait_for_being_recorded<I, H, N: TargetNumber, S>(
    round: VotingRoundView<I, H, N, S>,
    message: Message<H, N>,
)
    ensures
        round.awaiting(message).pending == Some(message),
        round.awaiting(message).state is None,
        round.awaiting(message) == (VotingRoundView {
            pending: Some(message),
            state: None,
            ..round
        }),
{
}

/// Recording queues exactly the message that waits, as the last one, and takes the
/// voter to the phase after it. A vote leaves the number of votes seen so far in the
/// history, in the place of its phase. Nothing else changes.
pub proof fn recording_queues_the_message<I, H, N: TargetNumber, S>(
    round: VotingRoundView<I, H, N, S>,
)
    ensures
        round.pending is None ==> round.recorded() == round,
        round.pending matches Some(message) ==> {
            let after = round.recorded();
            let seen = round.votes.history.seen.len() as u64;
            &&& after.pending is None
            &&& after.outgoing.len() == round.outgoing.len() + 1
            &&& after.outgoing.last() == message
            &&& after.outgoing.drop_last() == round.outgoing
            &&& message is PrimaryPropose ==> after.state == Some(State::<H, N>::Proposed)
                && after.votes == round.votes
            &&& message is Prevote ==> after.state == Some(State::<H, N>::Prevoted) && after.votes
                == (RoundView {
                history: HistoricalVotesView { prevote_idx: Some(seen), ..round.votes.history },
                ..round.votes
            })
            &&& message is Precommit ==> after.state == Some(State::<H, N>::Precommitted)
                && after.votes == (RoundView {
                history: HistoricalVotesView { precommit_idx: Some(seen), ..round.votes.history },
                ..round.votes
            })
            &&& after == (VotingRoundView {
                pending: None,
                outgoing: after.outgoing,
                state: after.state,
                votes: after.votes,
                ..round
            })
        },
{
    if let Some(message) = round.pending {
        assert(round.recorded().outgoing.drop_last() =~= round.outgoing);
    }
}

/// Giving up a message drops it and nothing else; stopping ends the voting and the
/// state, and nothing else.
pub proof fn giving_up_drops_nothing_else<I, H, N: TargetNumber, S>(
    round: VotingRoundView<I, H, N, S>,
)
    ensures
        round.abandoned() == (VotingRoundView { pending: None, ..round }),
        round.stopped() == (VotingRoundView { voting: Voting::No, state: None, ..round }),
{
}

/// The timer of a phase lets the voter act: it has elapsed, or it is running and the
/// round is completable anyway.
pub open spec fn is_due<I, H, N: TargetNumber, S, E>(
    round: VotingRoundView<I, H, N, S>,
    timer: Signal<(), E>,
) -> bool {
    ||| timer is Ready
    ||| timer is Pending && round.votes.state().completable
}

/// Before the prevote only the timer counts. A failed timer ends the voting with its
/// error. Until the prevote is due the voter waits. Then it looks up the best chain
/// containing the anchor, noting what is final now; who does not vote passes on.
pub proof fn prevoting_starts_when_it_is_due<I, H, N: TargetNumber, S, C: Chain<H, N>, E>(
    round: VotingRoundView<I, H, N, S>,
    chain: C,
    last: RoundState<H, N>,
    timer: Signal<(), E>,
    best: Signal<Option<VoteTarget<H, N>>, E>,
)
    requires
        round.state == Some(State::<H, N>::Start) || round.state == Some(State::<H, N>::Proposed),
    ensures
        ({
            let (after, r) = round.prevoting(chain, last, timer, best);
            let base = round.anchor(chain, last);
            &&& timer matches Signal::Failed(e) ==> r == Err::<PrevoteAction<H, N>, Failure<E>>(
                Failure::Host(e),
            ) && after == (VotingRoundView { state: None, ..round })
            &&& !(timer is Failed) && !is_due(round, timer) ==> r == Ok::<
                PrevoteAction<H, N>,
                Failure<E>,
            >(PrevoteAction::Wait) && after == round
            &&& is_due(round, timer) && round.voting is No ==> r == Ok::<
                PrevoteAction<H, N>,
                Failure<E>,
            >(PrevoteAction::Wait) && after == (VotingRoundView {
                state: Some(State::Prevoted),
                ..round
            })
            &&& is_due(round, timer) && !(round.voting is No) ==> r == Ok::<
                PrevoteAction<H, N>,
                Failure<E>,
            >(PrevoteAction::Query(base)) && after == (VotingRoundView {
                state: Some(State::Prevoting(base, round.latest_finalized)),
                ..round
            })
        }),
{
}

/// The anchor is the prior round's estimate, unless the primary hinted at the prior
/// round's prevote-ghost or at a target that the chain names between the two, as many
/// places below the ghost as its view is below the ghost's; then it is the hint.
pub proof fn anchors_are_estimates_or_hints<I, H, N: TargetNumber, S, C: Chain<H, N>>(
    round: VotingRoundView<I, H, N, S>,
    chain: C,
    last: RoundState<H, N>,
)
    requires
        last.estimate is Some,
        round.primary_block is Some ==> last.prevote_ghost is Some,
    ensures
        round.primary_block is None ==> round.anchor(chain, last) == (last.estimate->0).0,
        round.primary_block matches Some(hint) ==> {
            let top = last.prevote_ghost->0;
            let estimate = (last.estimate->0).0;
            let named = chain.ancestors(estimate, top.0) matches Ok(between) && exists|k: int|
                0 <= k < between.len() && #[trigger] between[k] == hint.0 && hint.1.value() + k + 1
                    == top.1.value();
            round.anchor(chain, last) == if hint == top || named {
                hint.0
            } else {
                estimate
            }
        },
{
    if let Some(hint) = round.primary_block {
        let top = last.prevote_ghost->0;
        let estimate = (last.estimate->0).0;
        if let Ok(between) = chain.ancestors(estimate, top.0) {
            let k = top.1.value() - hint.1.value() - 1;
            if 0 <= k < between.len() && between[k] == hint.0 {
                assert(hint.1.value() + k + 1 == top.1.value());
            }
        }
    }
}

/// An answer is prevoted for if and only if the chain holds exactly the answered
/// target, and the target descends from the base of the look-up and from the latest
/// finalized target. The prevote names the target, and waits for being recorded.
pub proof fn sound_answers_are_prevoted_for<I, H, N: TargetNumber, S, C: Chain<H, N>, E>(
    round: VotingRoundView<I, H, N, S>,
    chain: C,
    last: RoundState<H, N>,
    timer: Signal<(), E>,
    base: H,
    observed: (H, N),
    target: VoteTarget<H, N>,
)
    requires
        round.state == Some(State::Prevoting(base, observed)),
    ensures
        ({
            let (after, r) = round.prevoting(
                chain,
                last,
                timer,
                Signal::Ready(Some(target)),
            );
            let sound = {
                &&& chain.target_at(target.hash()) == Some(target)
                &&& chain.reaches(base, target.hash())
                &&& chain.reaches(round.latest_finalized.0, target.hash())
            };
            &&& (r matches Ok(PrevoteAction::Cast(_))) <==> sound
            &&& after.pending != round.pending ==> sound
            &&& r matches Ok(PrevoteAction::Cast(vote)) ==> {
                &&& vote.target_hash == target.hash()
                &&& vote.target_number == target.number()
                &&& after == (VotingRoundView {
                    state: None,
                    pending: Some(Message::Prevote(vote)),
                    ..round
                })
            }
        }),
{
}

/// An answer that the chain does not hold exactly so is refused as an invalid target.
/// One that does not descend from the base of the look-up is refused, and so is one
/// that does not descend from finality while finality is what it was at the query.
/// Nothing else is refused. A refusal ends the voting.
pub proof fn unsound_answers_are_refused<I, H, N: TargetNumber, S, C: Chain<H, N>, E>(
    round: VotingRoundView<I, H, N, S>,
    chain: C,
    last: RoundState<H, N>,
    timer: Signal<(), E>,
    base: H,
    observed: (H, N),
    target: VoteTarget<H, N>,
)
    requires
        round.state == Some(State::Prevoting(base, observed)),
    ensures
        ({
            let (after, r) = round.prevoting(
                chain,
                last,
                timer,
                Signal::Ready(Some(target)),
            );
            let held = chain.target_at(target.hash()) == Some(target);
            let astray = !chain.reaches(base, target.hash()) || (!chain.reaches(
                round.latest_finalized.0,
                target.hash(),
            ) && round.latest_finalized == observed);
            &&& r == Err::<PrevoteAction<H, N>, Failure<E>>(Failure::Refused(Error::InvalidTarget))
                <==> !held
            &&& r == Err::<PrevoteAction<H, N>, Failure<E>>(Failure::Refused(Error::NotDescendent))
                <==> held && astray
            &&& r is Err ==> (!held || astray) && after == (VotingRoundView {
                state: None,
                ..round
            })
        }),
{
}

/// An answer that finality has overtaken is asked for again: if the chain holds the
/// answered target, the target descends from the base of the look-up but not from the
/// latest finalized target, finality has changed since the query, and the latest
/// finalized target descends from the base, then the voter stays as it is and looks up
/// the best chain containing the latest finalized target.
pub proof fn overtaken_answers_are_asked_for_again<I, H, N: TargetNumber, S, C: Chain<H, N>, E>(
    round: VotingRoundView<I, H, N, S>,
    chain: C,
    last: RoundState<H, N>,
    timer: Signal<(), E>,
    base: H,
    observed: (H, N),
    target: VoteTarget<H, N>,
)
    requires
        round.state == Some(State::Prevoting(base, observed)),
        chain.target_at(target.hash()) == Some(target),
        chain.reaches(base, target.hash()),
        !chain.reaches(round.latest_finalized.0, target.hash()),
        round.latest_finalized != observed,
        chain.reaches(base, round.latest_finalized.0),
    ensures
        ({
            let (after, r) = round.prevoting(
                chain,
                last,
                timer,
                Signal::Ready(Some(target)),
            );
            &&& r == Ok::<PrevoteAction<H, N>, Failure<E>>(
                PrevoteAction::Query(round.latest_finalized.0),
            )
            &&& after.voting == round.voting
            &&& after == (VotingRoundView {
                state: Some(State::Prevoting(round.latest_finalized.0, round.latest_finalized)),
                ..round
            })
        }),
{
}

/// Prevoting makes the voter give up voting if and only if a look-up found nothing, or
/// found a target that the chain holds above the base but off a finality that has
/// changed and does not descend from the base. It then leaves the round silently.
pub proof fn voting_is_given_up_only_without_a_way_on<
    I,
    H,
    N: TargetNumber,
    S,
    C: Chain<H, N>,
    E,
>(
    round: VotingRoundView<I, H, N, S>,
    chain: C,
    last: RoundState<H, N>,
    timer: Signal<(), E>,
    best: Signal<Option<VoteTarget<H, N>>, E>,
)
    requires
        !(round.voting is No),
    ensures
        ({
            let (after, r) = round.prevoting(chain, last, timer, best);
            let stuck = round.state matches Some(State::Prevoting(base, observed)) && {
                ||| best matches Signal::Ready(None)
                ||| best matches Signal::Ready(Some(target)) && {
                    &&& chain.target_at(target.hash()) == Some(target)
                    &&& chain.reaches(base, target.hash())
                    &&& !chain.reaches(round.latest_finalized.0, target.hash())
                    &&& round.latest_finalized != observed
                    &&& !chain.reaches(base, round.latest_finalized.0)
                }
            };
            &&& after.voting != round.voting <==> stuck
            &&& stuck ==> r == Ok::<PrevoteAction<H, N>, Failure<E>>(PrevoteAction::Wait) && after
                == (VotingRoundView { voting: Voting::No, state: None, ..round })
        }),
{
}

/// While a look-up is pending the voter waits for it, whatever the timer says; a
/// failed look-up ends the voting with its error. In every other phase prevoting does
/// nothing.
pub proof fn prevoting_waits_for_the_answer<I, H, N: TargetNumber, S, C: Chain<H, N>, E>(
    round: VotingRoundView<I, H, N, S>,
    chain: C,
    last: RoundState<H, N>,
    timer: Signal<(), E>,
    best: Signal<Option<VoteTarget<H, N>>, E>,
)
    ensures
        ({
            let (after, r) = round.prevoting(chain, last, timer, best);
            let idle = Ok::<PrevoteAction<H, N>, Failure<E>>(PrevoteAction::Wait);
            let looking_up = round.state matches Some(State::Prevoting(_, _));
            &&& looking_up && best is Pending ==> after == round && r == idle
            &&& looking_up ==> (best matches Signal::Failed(e) ==> r == Err::<
                PrevoteAction<H, N>,
                Failure<E>,
            >(Failure::Host(e)) && after == (VotingRoundView { state: None, ..round }))
            &&& round.state is None || round.state == Some(State::<H, N>::Prevoted) || round.state
                == Some(State::<H, N>::Precommitted) ==> after == round && r == idle
        }),
{
}

/// The voter has prevoted, and the round's prevote-ghost is the prior round's estimate
/// or descends from it.
pub open spec fn may_precommit<I, H, N: TargetNumber, S, C: Chain<H, N>>(
    round: VotingRoundView<I, H, N, S>,
    chain: C,
    estimate: (H, N),
) -> bool {
    &&& round.state == Some(State::<H, N>::Prevoted)
    &&& round.votes.state().prevote_ghost is Some
    &&& {
        let top = round.votes.state().prevote_ghost->0;
        top == estimate || chain.reaches(estimate.0, top.0)
    }
}

/// The voter precommits if and only if it votes, has prevoted, the round's
/// prevote-ghost is the prior round's estimate or descends from it, and the precommit
/// is due. The precommit names the ghost, and waits for being recorded.
pub proof fn precommits_are_cast_when_due<I, H, N: TargetNumber, S, C: Chain<H, N>, E>(
    round: VotingRoundView<I, H, N, S>,
    chain: C,
    last: RoundState<H, N>,
    timer: Signal<(), E>,
)
    requires
        last.estimate is Some,
    ensures
        ({
            let (after, r) = round.precommitting(chain, last, timer);
            &&& round.unblocked(chain, last) <==> may_precommit(round, chain, last.estimate->0)
            &&& (r matches Ok(Some(_))) <==> {
                &&& !(round.voting is No)
                &&& may_precommit(round, chain, last.estimate->0)
                &&& is_due(round, timer)
            }
            &&& r matches Ok(Some(vote)) ==> {
                &&& round.votes.state().prevote_ghost == Some(
                    (vote.target_hash, vote.target_number),
                )
                &&& after == (VotingRoundView {
                    state: None,
                    pending: Some(Message::Precommit(vote)),
                    ..round
                })
            }
        }),
{
}

/// Where no precommit is cast, a failed timer that was waited for ends the voting with
/// its error, who does not vote passes on when the precommit is due, and otherwise
/// nothing changes.
pub proof fn precommitting_otherwise_waits<I, H, N: TargetNumber, S, C: Chain<H, N>, E>(
    round: VotingRoundView<I, H, N, S>,
    chain: C,
    last: RoundState<H, N>,
    timer: Signal<(), E>,
)
    requires
        last.estimate is Some,
    ensures
        ({
            let (after, r) = round.precommitting(chain, last, timer);
            let ready = may_precommit(round, chain, last.estimate->0);
            let idle = Ok::<Option<Precommit<H, N>>, Failure<E>>(None);
            &&& r is Err <==> ready && timer is Failed
            &&& ready ==> (timer matches Signal::Failed(e) ==> r == Err::<
                Option<Precommit<H, N>>,
                Failure<E>,
            >(Failure::Host(e)) && after == (VotingRoundView { state: None, ..round }))
            &&& ready && round.voting is No && is_due(round, timer) ==> r == idle && after == (
            VotingRoundView { state: Some(State::Precommitted), ..round })
            &&& !ready || (!is_due(round, timer) && !(timer is Failed)) ==> r == idle && after
                == round
        }),
{
}

/// An attempt does what proposing, prevoting or precommitting does on the round's own
/// state of the prior round. Its result says what it did: a message to be recorded is
/// the one that waits afterwards, and a look-up is the one that goes on afterwards.
pub proof fn attempts_rely_on_the_own_prior_state<I, H, N: TargetNumber, S, C: Chain<H, N>, E>(
    round: VotingRoundView<I, H, N, S>,
    chain: C,
    timer: Signal<(), E>,
    best: Signal<Option<VoteTarget<H, N>>, E>,
)
    ensures
        ({
            let (proposed, p) = round.stepping(chain, Attempt::<H, N, E>::Propose);
            let (prevoted, v) = round.stepping(chain, Attempt::Prevote(timer, best));
            let (precommitted, c) = round.stepping(chain, Attempt::Precommit(timer));
            match round.last_round_state {
                None => {
                    &&& proposed == round && prevoted == round && precommitted == round
                    &&& p == Ok::<Step<H, N>, Failure<E>>(Step::Wait)
                    &&& v == p && c == p
                },
                Some(last) => {
                    &&& match round.proposal(last) {
                        Some(hint) => proposed.pending == Some(Message::PrimaryPropose(hint))
                            && proposed == (VotingRoundView {
                            state: None,
                            pending: proposed.pending,
                            ..round
                        }) && p == Ok::<Step<H, N>, Failure<E>>(
                            Step::Record(Message::PrimaryPropose(hint)),
                        ),
                        None => proposed == round && p == Ok::<Step<H, N>, Failure<E>>(Step::Wait),
                    }
                    &&& prevoted == round.prevoting(chain, last, timer, best).0
                    &&& match round.prevoting(chain, last, timer, best).1 {
                        Ok(PrevoteAction::Cast(vote)) => v == Ok::<Step<H, N>, Failure<E>>(
                            Step::Record(Message::Prevote(vote)),
                        ),
                        Ok(PrevoteAction::Query(base)) => v == Ok::<Step<H, N>, Failure<E>>(
                            Step::Query(base),
                        ),
                        Ok(PrevoteAction::Wait) => v == Ok::<Step<H, N>, Failure<E>>(Step::Wait),
                        Err(e) => v == Err::<Step<H, N>, Failure<E>>(e),
                    }
                    &&& precommitted == round.precommitting(chain, last, timer).0
                    &&& match round.precommitting(chain, last, timer).1 {
                        Ok(Some(vote)) => c == Ok::<Step<H, N>, Failure<E>>(
                            Step::Record(Message::Precommit(vote)),
                        ),
                        Ok(None) => c == Ok::<Step<H, N>, Failure<E>>(Step::Wait),
                        Err(e) => c == Err::<Step<H, N>, Failure<E>>(e),
                    }
                },
            }
        }),
{
}

/// An attempt can be made unless it needs something that the prior round has not
/// established: prevoting needs its estimate, and its prevote-ghost where the primary
/// has hinted, once the prevote is due and only for who votes; precommitting needs its
/// estimate once the prevote is cast.
pub proof fn attempts_need_little_of_the_prior_round<I, H, N: TargetNumber, S, E>(
    round: VotingRoundView<I, H, N, S>,
    timer: Signal<(), E>,
    best: Signal<Option<VoteTarget<H, N>>, E>,
)
    ensures
        round.can_attempt(Attempt::<H, N, E>::Propose),
        round.last_round_state is None ==> round.can_attempt(Attempt::Prevote(timer, best))
            && round.can_attempt(Attempt::<H, N, E>::Precommit(timer)),
        round.last_round_state matches Some(last) ==> {
            let early = round.state == Some(State::<H, N>::Start) || round.state == Some(
                State::<H, N>::Proposed,
            );
            let anchored = last.estimate is Some && (round.primary_block is Some
                ==> last.prevote_ghost is Some);
            &&& round.has_anchor(last) <==> anchored
            &&& round.can_attempt(Attempt::Prevote(timer, best)) <==> (early && is_due(round, timer)
                && !(round.voting is No) ==> anchored)
            &&& round.can_attempt(Attempt::<H, N, E>::Precommit(timer)) <==> (round.state == Some(
                State::<H, N>::Prevoted,
            ) ==> last.estimate is Some)
        },
{
}

} // verus!
