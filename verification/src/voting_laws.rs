//! Laws of voting rounds.
use vstd::prelude::*;

use crate::chain::{Chain, VoteTarget};
use crate::messages::{Message, Prevote, RoundState, SignedMessage, SignedPrecommit};
use crate::number::TargetNumber;
use crate::round::{lemma_ghost_fits, target_is_known};
use crate::tally::has_supermajority;
use crate::voting_round::{import_list, Attempt, PrevoteAction, Signal, State, VotingRoundView};

verus! {

/// How far the local voter has got, as a number that only grows.
pub open spec fn stage<I, H, N: TargetNumber, S>(round: VotingRoundView<I, H, N, S>) -> int {
    match round.pending {
        Some(Message::PrimaryPropose(_)) => 1,
        Some(Message::Prevote(_)) => 4,
        Some(Message::Precommit(_)) => 6,
        None => match round.state {
            Some(State::Start) => 0,
            Some(State::Proposed) => 2,
            Some(State::Prevoting(_, _)) => 3,
            Some(State::Prevoted) => 5,
            Some(State::Precommitted) => 7,
            None => 8,
        },
    }
}

/// The message that going from one state of a round to the next queues.
pub open spec fn queued<I, H, N: TargetNumber, S>(
    before: VotingRoundView<I, H, N, S>,
    after: VotingRoundView<I, H, N, S>,
) -> Option<Message<H, N>> {
    if before.pending is Some && after == before.recorded() {
        before.pending
    } else {
        None
    }
}

/// `after` is what proposing, prevoting or precommitting makes of `before`, whatever
/// the prior round is said to have established.
pub open spec fn casts<I, H, N: TargetNumber, S, C: Chain<H, N>, E>(
    before: VotingRoundView<I, H, N, S>,
    after: VotingRoundView<I, H, N, S>,
) -> bool {
    ||| exists|last: RoundState<H, N>|
        (#[trigger] before.proposal(last)) is Some && after == before.awaiting(
            Message::PrimaryPropose(before.proposal(last)->0),
        )
    ||| exists|
        chain: C,
        last: RoundState<H, N>,
        timer: Signal<(), E>,
        best: Signal<Option<VoteTarget<H, N>>, E>,
    | #[trigger]
        before.prevoting(chain, last, timer, best).0 == after
    ||| exists|chain: C, last: RoundState<H, N>, timer: Signal<(), E>| #[trigger]
        before.precommitting(chain, last, timer).0 == after
}

/// `after` is what an attempt makes of `before`.
pub open spec fn attempts<I, H, N: TargetNumber, S, C: Chain<H, N>, E>(
    before: VotingRoundView<I, H, N, S>,
    after: VotingRoundView<I, H, N, S>,
) -> bool {
    exists|chain: C, attempt: Attempt<H, N, E>| #[trigger]
        before.stepping(chain, attempt).0 == after
}

/// `after` is what an operation other than casting makes of `before`: recording or
/// giving up a message, handling votes and commits, polling, being told something,
/// sending, or stopping.
pub open spec fn proceeds<I, H, N: TargetNumber, S, C: Chain<H, N>>(
    before: VotingRoundView<I, H, N, S>,
    after: VotingRoundView<I, H, N, S>,
) -> bool {
    ||| after == before.recorded()
    ||| after == before.abandoned()
    ||| exists|chain: C, vote: SignedMessage<H, N, S, I>| #[trigger]
        before.after_message(chain, vote) == after
    ||| exists|chain: C, list: Seq<SignedPrecommit<H, N, S, I>>| #[trigger]
        with_imports(before, chain, list) == after
    ||| exists|earlier: RoundState<H, N>| #[trigger] before.notified(earlier) == after
    ||| keeps_votes(before, after)
    ||| after == (VotingRoundView { pending: None, ..before.stopped() })
}

/// `after` is what one operation on a voting round makes of `before`.
pub open spec fn one_act<I, H, N: TargetNumber, S, C: Chain<H, N>, E>(
    before: VotingRoundView<I, H, N, S>,
    after: VotingRoundView<I, H, N, S>,
) -> bool {
    casts::<I, H, N, S, C, E>(before, after) || proceeds::<I, H, N, S, C>(before, after)
}

/// `after` is what one operation makes of `before`, where messages are cast by
/// attempts alone.
pub open spec fn one_driven_act<I, H, N: TargetNumber, S, C: Chain<H, N>, E>(
    before: VotingRoundView<I, H, N, S>,
    after: VotingRoundView<I, H, N, S>,
) -> bool {
    attempts::<I, H, N, S, C, E>(before, after) || proceeds::<I, H, N, S, C>(before, after)
}

/// The round after the precommits of a commit were imported.
pub open spec fn with_imports<I, H, N: TargetNumber, S, C: Chain<H, N>>(
    before: VotingRoundView<I, H, N, S>,
    chain: C,
    list: Seq<SignedPrecommit<H, N, S, I>>,
) -> VotingRoundView<I, H, N, S> {
    VotingRoundView { votes: import_list(before.votes, chain, list, list.len()).round, ..before }
}

/// `after` differs from `before` only in what it was told about other rounds, and
/// in messages that were sent. A round without the prior round's state stays so.
pub open spec fn keeps_votes<I, H, N: TargetNumber, S>(
    before: VotingRoundView<I, H, N, S>,
    after: VotingRoundView<I, H, N, S>,
) -> bool {
    &&& after == (VotingRoundView {
        latest_finalized: after.latest_finalized,
        last_round_state: after.last_round_state,
        bridged_round_state: after.bridged_round_state,
        outgoing: after.outgoing,
        ..before
    })
    &&& before.last_round_state is None ==> after.last_round_state is None
    &&& after.outgoing == before.outgoing || (before.outgoing.len() > 0 && after.outgoing
        == before.outgoing.drop_first())
}

/// A run: each state of the round is what one operation makes of the one before.
pub open spec fn is_run<I, H, N: TargetNumber, S, C: Chain<H, N>, E>(
    run: Seq<VotingRoundView<I, H, N, S>>,
) -> bool {
    forall|i: int|
        #![trigger run[i]]
        0 <= i < run.len() - 1 ==> one_act::<I, H, N, S, C, E>(run[i], run[i + 1])
}

/// A run in which messages are cast by attempts alone.
pub open spec fn is_driven_run<I, H, N: TargetNumber, S, C: Chain<H, N>, E>(
    run: Seq<VotingRoundView<I, H, N, S>>,
) -> bool {
    forall|i: int|
        #![trigger run[i]]
        0 <= i < run.len() - 1 ==> one_driven_act::<I, H, N, S, C, E>(run[i], run[i + 1])
}

/// A prevote was checked against a chain: the chain holds its target at its view,
/// and the target descends from the base of the look-up and from the latest
/// finalized target.
pub open spec fn checks_prevote<I, H, N: TargetNumber, S, C: Chain<H, N>>(
    round: VotingRoundView<I, H, N, S>,
    chain: C,
    vote: Prevote<H, N>,
) -> bool {
    &&& target_is_known(chain, vote.target_hash, vote.target_number)
    &&& chain.reaches(round.latest_finalized.0, vote.target_hash)
    &&& round.state matches Some(State::Prevoting(base, _)) && chain.reaches(
        base,
        vote.target_hash,
    )
}

/// What casting does to the voter: it goes on, queues nothing yet, casts nothing
/// without being active, precommits only after the prevote and for the
/// prevote-ghost, and does nothing once it is out.
proof fn lemma_casting<I, H, N: TargetNumber, S, C: Chain<H, N>, E>(
    before: VotingRoundView<I, H, N, S>,
    after: VotingRoundView<I, H, N, S>,
)
    requires
        casts::<I, H, N, S, C, E>(before, after),
        before.pending is Some ==> before.state is None,
    ensures
        after.pending is Some ==> after.state is None,
        stage(after) >= stage(before),
        after.outgoing == before.outgoing,
        after.last_round_state == before.last_round_state,
        after.voting == before.voting || after.voting is No,
        after != before ==> before.state is Some,
        before.voting is No && !(before.state matches Some(State::Prevoting(_, _)))
            ==> after.voting is No && after.pending == before.pending && !(after.state matches Some(
            State::Prevoting(_, _),
        )),
        after.pending matches Some(Message::Precommit(_)) ==> after == before || (before.state
            == Some(State::<H, N>::Prevoted) && !(before.voting is No)),
        after.pending matches Some(Message::Prevote(vote)) ==> after == before || exists|chain: C|
            checks_prevote(before, chain, vote),
        after.pending matches Some(Message::Precommit(vote)) ==> after == before
            || before.votes.state().prevote_ghost == Some((vote.target_hash, vote.target_number)),
        after.state == Some(State::<H, N>::Prevoted) ==> before.state == after.state
            || before.voting is No,
{
    if exists|
        chain: C,
        last: RoundState<H, N>,
        timer: Signal<(), E>,
        best: Signal<Option<VoteTarget<H, N>>, E>,
    | #[trigger]
        before.prevoting(chain, last, timer, best).0 == after {
        let (chain, last, timer, best) = choose|
            chain: C,
            last: RoundState<H, N>,
            timer: Signal<(), E>,
            best: Signal<Option<VoteTarget<H, N>>, E>,
        | #[trigger]
            before.prevoting(chain, last, timer, best).0 == after;
        assert(before.prevoting(chain, last, timer, best).0 == after);
        if let Some(Message::Prevote(vote)) = after.pending {
            if after != before {
                assert(checks_prevote(before, chain, vote));
            }
        }
    }
}

/// An attempt casts what proposing, prevoting or precommitting on the round's own
/// state of the prior round casts, so that whatever holds of runs holds of driven
/// runs.
pub proof fn driven_runs_are_runs<I, H, N: TargetNumber, S, C: Chain<H, N>, E>(
    run: Seq<VotingRoundView<I, H, N, S>>,
)
    requires
        is_driven_run::<I, H, N, S, C, E>(run),
    ensures
        is_run::<I, H, N, S, C, E>(run),
{
    assert forall|i: int|
        #![trigger run[i]]
        0 <= i < run.len() - 1 implies one_act::<I, H, N, S, C, E>(run[i], run[i + 1]) by {
        let before = run[i];
        let after = run[i + 1];
        assert(one_driven_act::<I, H, N, S, C, E>(before, after));
        if attempts::<I, H, N, S, C, E>(before, after) {
            let (chain, attempt) = choose|chain: C, attempt: Attempt<H, N, E>| #[trigger]
                before.stepping(chain, attempt).0 == after;
            match before.last_round_state {
                None => {
                    assert(keeps_votes(before, after));
                },
                Some(last) => match attempt {
                    Attempt::Propose => {
                        if before.proposal(last) is None {
                            assert(keeps_votes(before, after));
                        }
                    },
                    Attempt::Prevote(timer, best) => {
                        assert(before.prevoting(chain, last, timer, best).0 == after);
                    },
                    Attempt::Precommit(timer) => {
                        assert(before.precommitting(chain, last, timer).0 == after);
                    },
                },
            }
        }
    }
}

/// Every operation leaves the voter at least as far as it was; queueing a message
/// takes it further. Only a recorded message is ever queued.
pub proof fn voter_never_goes_back<I, H, N: TargetNumber, S, C: Chain<H, N>, E>(
    before: VotingRoundView<I, H, N, S>,
    after: VotingRoundView<I, H, N, S>,
)
    requires
        one_act::<I, H, N, S, C, E>(before, after),
        before.pending is Some ==> before.state is None,
    ensures
        after.pending is Some ==> after.state is None,
        stage(after) >= stage(before),
        queued(before, after) is Some ==> stage(after) > stage(before),
        after.outgoing == before.outgoing || after.outgoing == before.outgoing.drop_first() || (
        queued(before, after) matches Some(message) && after.outgoing == before.outgoing.push(
            message,
        )),
{
    if casts::<I, H, N, S, C, E>(before, after) {
        lemma_casting::<I, H, N, S, C, E>(before, after);
    }
}

/// The place of a message among the messages of a voter.
pub open spec fn place<H, N>(message: Message<H, N>) -> int {
    match message {
        Message::PrimaryPropose(_) => 0,
        Message::Prevote(_) => 1,
        Message::Precommit(_) => 2,
    }
}

/// The messages of a voter are queued in order: the hint before the prevote, and
/// the prevote before the precommit.
pub proof fn messages_are_queued_in_order<I, H, N: TargetNumber, S, C: Chain<H, N>, E>(
    run: Seq<VotingRoundView<I, H, N, S>>,
    i: int,
    j: int,
)
    requires
        is_run::<I, H, N, S, C, E>(run),
        run.len() > 0,
        run[0].pending is Some ==> run[0].state is None,
        0 <= i < j < run.len() - 1,
        queued(run[i], run[i + 1]) is Some,
        queued(run[j], run[j + 1]) is Some,
    ensures
        place(queued(run[i], run[i + 1])->0) < place(queued(run[j], run[j + 1])->0),
{
    lemma_stages_grow::<I, H, N, S, C, E>(run, 0, i);
    voter_never_goes_back::<I, H, N, S, C, E>(run[i], run[i + 1]);
    lemma_stages_grow::<I, H, N, S, C, E>(run, i + 1, j);
}

/// In every run at most one message of each kind is queued: one hint, one
/// prevote and one precommit.
pub proof fn one_vote_per_phase<I, H, N: TargetNumber, S, C: Chain<H, N>, E>(
    run: Seq<VotingRoundView<I, H, N, S>>,
    i: int,
    j: int,
)
    requires
        is_run::<I, H, N, S, C, E>(run),
        run.len() > 0,
        run[0].pending is Some ==> run[0].state is None,
        0 <= i < j < run.len() - 1,
        queued(run[i], run[i + 1]) is Some,
        queued(run[j], run[j + 1]) is Some,
    ensures
        !(queued(run[i], run[i + 1])->0 is PrimaryPropose && queued(
            run[j],
            run[j + 1],
        )->0 is PrimaryPropose),
        !(queued(run[i], run[i + 1])->0 is Prevote && queued(run[j], run[j + 1])->0 is Prevote),
        !(queued(run[i], run[i + 1])->0 is Precommit && queued(run[j], run[j + 1])->0 is Precommit),
{
    messages_are_queued_in_order::<I, H, N, S, C, E>(run, i, j);
}

/// A prevote is queued in one of the first `n` operations of a run.
pub open spec fn has_prevoted<I, H, N: TargetNumber, S>(
    run: Seq<VotingRoundView<I, H, N, S>>,
    n: int,
) -> bool {
    exists|i: int|
        #![trigger run[i]]
        0 <= i < n && queued(run[i], run[i + 1]) matches Some(Message::Prevote(_))
}

/// A precommit is queued only after a prevote: a voter that starts a round
/// precommits nothing unless it has prevoted in it.
pub proof fn precommits_follow_a_prevote<I, H, N: TargetNumber, S, C: Chain<H, N>, E>(
    run: Seq<VotingRoundView<I, H, N, S>>,
    j: int,
)
    requires
        is_run::<I, H, N, S, C, E>(run),
        run.len() > 0,
        run[0].state == Some(State::<H, N>::Start),
        run[0].pending is None,
        0 <= j < run.len() - 1,
        queued(run[j], run[j + 1]) matches Some(Message::Precommit(_)),
    ensures
        has_prevoted(run, j),
{
    lemma_prevoted_first::<I, H, N, S, C, E>(run, j);
}

/// Whoever votes and is past the prevote has prevoted.
proof fn lemma_prevoted_first<I, H, N: TargetNumber, S, C: Chain<H, N>, E>(
    run: Seq<VotingRoundView<I, H, N, S>>,
    j: int,
)
    requires
        is_run::<I, H, N, S, C, E>(run),
        run.len() > 0,
        run[0].state == Some(State::<H, N>::Start),
        run[0].pending is None,
        0 <= j < run.len(),
    ensures
        run[j].pending is Some ==> run[j].state is None,
        run[j].pending matches Some(Message::Precommit(_)) ==> has_prevoted(run, j),
        run[j].state == Some(State::<H, N>::Prevoted) && !(run[j].voting is No) ==> has_prevoted(
            run,
            j,
        ),
    decreases j,
{
    if j > 0 {
        lemma_prevoted_first::<I, H, N, S, C, E>(run, j - 1);
        let before = run[j - 1];
        let after = run[j];
        assert(one_act::<I, H, N, S, C, E>(before, run[j - 1 + 1]));
        voter_never_goes_back::<I, H, N, S, C, E>(before, after);
        if casts::<I, H, N, S, C, E>(before, after) {
            lemma_casting::<I, H, N, S, C, E>(before, after);
        }
        if has_prevoted(run, j - 1) {
            let i = choose|i: int|
                #![trigger run[i]]
                0 <= i < j - 1 && queued(run[i], run[i + 1]) matches Some(Message::Prevote(_));
            assert(queued(run[i], run[i + 1]) matches Some(Message::Prevote(_)));
        } else if after.state == Some(State::<H, N>::Prevoted) && !(after.voting is No) {
            assert(after == before.recorded());
            assert(queued(run[j - 1], run[j - 1 + 1]) matches Some(Message::Prevote(_)));
        }
    }
}

/// The target is the prevote-ghost in one of the first `n` states of a run.
pub open spec fn was_the_ghost<I, H, N: TargetNumber, S>(
    run: Seq<VotingRoundView<I, H, N, S>>,
    target: (H, N),
    n: int,
) -> bool {
    exists|k: int|
        #![trigger run[k]]
        0 <= k < n && run[k].votes.state().prevote_ghost == Some(target)
}

/// Every precommit that is queued is for what was the round's prevote-ghost at some
/// earlier moment of the run.
pub proof fn queued_precommits_are_for_a_prevote_ghost<I, H, N: TargetNumber, S, C: Chain<H, N>, E>(
    run: Seq<VotingRoundView<I, H, N, S>>,
    j: int,
)
    requires
        is_run::<I, H, N, S, C, E>(run),
        run.len() > 0,
        run[0].pending is None,
        0 <= j < run.len() - 1,
    ensures
        queued(run[j], run[j + 1]) matches Some(Message::Precommit(vote)) ==> was_the_ghost(
            run,
            (vote.target_hash, vote.target_number),
            j,
        ),
{
    lemma_pending_precommit::<I, H, N, S, C, E>(run, j);
}

/// A precommit that waits for being recorded is for a former prevote-ghost.
proof fn lemma_pending_precommit<I, H, N: TargetNumber, S, C: Chain<H, N>, E>(
    run: Seq<VotingRoundView<I, H, N, S>>,
    j: int,
)
    requires
        is_run::<I, H, N, S, C, E>(run),
        run.len() > 0,
        run[0].pending is None,
        0 <= j < run.len(),
    ensures
        run[j].pending is Some ==> run[j].state is None,
        run[j].pending matches Some(Message::Precommit(vote)) ==> was_the_ghost(
            run,
            (vote.target_hash, vote.target_number),
            j,
        ),
    decreases j,
{
    if j > 0 {
        lemma_pending_precommit::<I, H, N, S, C, E>(run, j - 1);
        let before = run[j - 1];
        let after = run[j];
        assert(one_act::<I, H, N, S, C, E>(before, run[j - 1 + 1]));
        voter_never_goes_back::<I, H, N, S, C, E>(before, after);
        if casts::<I, H, N, S, C, E>(before, after) {
            lemma_casting::<I, H, N, S, C, E>(before, after);
        }
        if let Some(Message::Precommit(vote)) = after.pending {
            let target = (vote.target_hash, vote.target_number);
            if after.pending == before.pending {
                let k = choose|k: int|
                    #![trigger run[k]]
                    0 <= k < j - 1 && run[k].votes.state().prevote_ghost == Some(target);
                assert(run[k].votes.state().prevote_ghost == Some(target));
            } else {
                assert(run[j - 1].votes.state().prevote_ghost == Some(target));
            }
        }
    }
}

/// In one of the first `n` states of a run the prevote was checked against a chain.
pub open spec fn was_checked<I, H, N: TargetNumber, S, C: Chain<H, N>>(
    run: Seq<VotingRoundView<I, H, N, S>>,
    vote: Prevote<H, N>,
    n: int,
) -> bool {
    exists|k: int, chain: C|
        #![trigger checks_prevote(run[k], chain, vote)]
        0 <= k < n && checks_prevote(run[k], chain, vote)
}

/// Every prevote that is queued was checked at some earlier moment of the run.
pub proof fn queued_prevotes_were_checked<I, H, N: TargetNumber, S, C: Chain<H, N>, E>(
    run: Seq<VotingRoundView<I, H, N, S>>,
    j: int,
)
    requires
        is_run::<I, H, N, S, C, E>(run),
        run.len() > 0,
        run[0].pending is None,
        0 <= j < run.len() - 1,
    ensures
        queued(run[j], run[j + 1]) matches Some(Message::Prevote(vote)) ==> was_checked::<
            I,
            H,
            N,
            S,
            C,
        >(run, vote, j),
{
    lemma_pending_prevote::<I, H, N, S, C, E>(run, j);
}

/// A prevote that waits for being recorded was checked.
proof fn lemma_pending_prevote<I, H, N: TargetNumber, S, C: Chain<H, N>, E>(
    run: Seq<VotingRoundView<I, H, N, S>>,
    j: int,
)
    requires
        is_run::<I, H, N, S, C, E>(run),
        run.len() > 0,
        run[0].pending is None,
        0 <= j < run.len(),
    ensures
        run[j].pending is Some ==> run[j].state is None,
        run[j].pending matches Some(Message::Prevote(vote)) ==> was_checked::<I, H, N, S, C>(
            run,
            vote,
            j,
        ),
    decreases j,
{
    if j > 0 {
        lemma_pending_prevote::<I, H, N, S, C, E>(run, j - 1);
        let before = run[j - 1];
        let after = run[j];
        assert(one_act::<I, H, N, S, C, E>(before, run[j - 1 + 1]));
        voter_never_goes_back::<I, H, N, S, C, E>(before, after);
        if casts::<I, H, N, S, C, E>(before, after) {
            lemma_casting::<I, H, N, S, C, E>(before, after);
        }
        if let Some(Message::Prevote(vote)) = after.pending {
            if after.pending == before.pending {
                let (k, chain) = choose|k: int, chain: C|
                    #![trigger checks_prevote(run[k], chain, vote)]
                    0 <= k < j - 1 && checks_prevote(run[k], chain, vote);
                assert(checks_prevote(run[k], chain, vote));
            } else {
                let chain = choose|chain: C| checks_prevote(before, chain, vote);
                assert(checks_prevote(run[j - 1], chain, vote));
            }
        }
    }
}

/// Along a run the stage only grows.
proof fn lemma_stages_grow<I, H, N: TargetNumber, S, C: Chain<H, N>, E>(
    run: Seq<VotingRoundView<I, H, N, S>>,
    i: int,
    j: int,
)
    requires
        is_run::<I, H, N, S, C, E>(run),
        0 <= i <= j < run.len(),
        run[i].pending is Some ==> run[i].state is None,
    ensures
        run[j].pending is Some ==> run[j].state is None,
        stage(run[i]) <= stage(run[j]),
    decreases j - i,
{
    if i < j {
        lemma_stages_grow::<I, H, N, S, C, E>(run, i, j - 1);
        let before = run[j - 1];
        assert(one_act::<I, H, N, S, C, E>(before, run[j - 1 + 1]));
        voter_never_goes_back::<I, H, N, S, C, E>(before, run[j]);
    }
}

/// The voter is out of the round: it has nothing more to do or to record.
pub open spec fn is_out<I, H, N: TargetNumber, S>(round: VotingRoundView<I, H, N, S>) -> bool {
    round.state is None && round.pending is None
}

/// A voter that is out of a round stays out, and queues nothing.
pub proof fn who_is_out_stays_out<I, H, N: TargetNumber, S, C: Chain<H, N>, E>(
    run: Seq<VotingRoundView<I, H, N, S>>,
    i: int,
    j: int,
)
    requires
        is_run::<I, H, N, S, C, E>(run),
        0 <= i <= j < run.len(),
        is_out(run[i]),
    ensures
        is_out(run[j]),
        j < run.len() - 1 ==> queued(run[j], run[j + 1]) is None,
        j > i ==> run[j].outgoing == run[j - 1].outgoing || run[j].outgoing == run[j
            - 1].outgoing.drop_first(),
    decreases j - i,
{
    if i < j {
        who_is_out_stays_out::<I, H, N, S, C, E>(run, i, j - 1);
        let before = run[j - 1];
        let after = run[j];
        assert(one_act::<I, H, N, S, C, E>(before, run[j - 1 + 1]));
        voter_never_goes_back::<I, H, N, S, C, E>(before, after);
        if casts::<I, H, N, S, C, E>(before, after) {
            lemma_casting::<I, H, N, S, C, E>(before, after);
        }
    }
}

/// A message that could not be recorded is never sent, nor is any other after it:
/// giving it up leaves the voter out of the round.
pub proof fn abandoned_votes_are_never_queued<I, H, N: TargetNumber, S, C: Chain<H, N>, E>(
    run: Seq<VotingRoundView<I, H, N, S>>,
    i: int,
    j: int,
)
    requires
        is_run::<I, H, N, S, C, E>(run),
        0 <= i < j < run.len() - 1,
        run[i].pending is Some,
        run[i].state is None,
        run[i + 1] == run[i].abandoned(),
    ensures
        is_out(run[j]),
        queued(run[i], run[i + 1]) is None,
        queued(run[j], run[j + 1]) is None,
{
    who_is_out_stays_out::<I, H, N, S, C, E>(run, i + 1, j);
}

/// The voter only watches: it does not vote and is about to do nothing about it.
pub open spec fn watches<I, H, N: TargetNumber, S>(round: VotingRoundView<I, H, N, S>) -> bool {
    round.voting is No && round.pending is None && !(round.state matches Some(
        State::Prevoting(_, _),
    ))
}

/// Who only watches a round goes on doing so, and queues nothing.
pub proof fn watchers_stay_silent<I, H, N: TargetNumber, S, C: Chain<H, N>, E>(
    run: Seq<VotingRoundView<I, H, N, S>>,
    i: int,
    j: int,
)
    requires
        is_run::<I, H, N, S, C, E>(run),
        0 <= i <= j < run.len(),
        watches(run[i]),
    ensures
        watches(run[j]),
        j < run.len() - 1 ==> queued(run[j], run[j + 1]) is None,
    decreases j - i,
{
    if i < j {
        watchers_stay_silent::<I, H, N, S, C, E>(run, i, j - 1);
        let before = run[j - 1];
        let after = run[j];
        assert(one_act::<I, H, N, S, C, E>(before, run[j - 1 + 1]));
        if casts::<I, H, N, S, C, E>(before, after) {
            lemma_casting::<I, H, N, S, C, E>(before, after);
        }
    }
}

/// A round that was started without the prior round's state never gets one and
/// casts nothing: along a driven run it stays where it is, unless it is stopped,
/// has nothing to record, and queues nothing. Votes are handled all the same.
pub proof fn rounds_without_the_prior_state_cast_nothing<
    I,
    H,
    N: TargetNumber,
    S,
    C: Chain<H, N>,
    E,
>(
    run: Seq<VotingRoundView<I, H, N, S>>,
    i: int,
    j: int,
)
    requires
        is_driven_run::<I, H, N, S, C, E>(run),
        0 <= i <= j < run.len(),
        run[i].last_round_state is None,
        run[i].pending is None,
    ensures
        run[j].last_round_state is None,
        run[j].pending is None,
        run[j].state == run[i].state || run[j].state is None,
        j < run.len() - 1 ==> queued(run[j], run[j + 1]) is None,
        j > i ==> run[j].outgoing == run[j - 1].outgoing || run[j].outgoing == run[j
            - 1].outgoing.drop_first(),
    decreases j - i,
{
    if i < j {
        rounds_without_the_prior_state_cast_nothing::<I, H, N, S, C, E>(run, i, j - 1);
        let before = run[j - 1];
        let after = run[j];
        assert(one_driven_act::<I, H, N, S, C, E>(before, run[j - 1 + 1]));
        if attempts::<I, H, N, S, C, E>(before, after) {
            assert(after == before);
        }
    }
}

/// A prevote is for a target exactly as the chain holds it, descends from the
/// queried base and from the latest finalized target, and is cast by an active
/// look-up only.
pub proof fn prevotes_respect_finality<I, H, N: TargetNumber, S, C: Chain<H, N>, E>(
    round: VotingRoundView<I, H, N, S>,
    chain: C,
    last: RoundState<H, N>,
    timer: Signal<(), E>,
    best: Signal<Option<VoteTarget<H, N>>, E>,
)
    ensures
        round.prevoting(chain, last, timer, best).1 matches Ok(PrevoteAction::Cast(prevote)) ==> {
            &&& round.state is Some
            &&& round.state->0 is Prevoting
            &&& best matches Signal::Ready(Some(target)) && chain.target_at(target.hash()) == Some(
                target,
            ) && prevote.target_hash == target.hash() && prevote.target_number == target.number()
            &&& chain.reaches(round.state->0->Prevoting_0, prevote.target_hash)
            &&& chain.reaches(round.latest_finalized.0, prevote.target_hash)
            &&& round.prevoting(chain, last, timer, best).0.pending == Some(
                Message::<H, N>::Prevote(prevote),
            )
        },
{
}

/// A precommit is for the prevote-ghost, which a supermajority of prevotes
/// counts for and which is the prior round's estimate or descends from it.
pub proof fn precommits_are_for_the_prevote_ghost<I, H, N: TargetNumber, S, C: Chain<H, N>, E>(
    round: VotingRoundView<I, H, N, S>,
    chain: C,
    last: RoundState<H, N>,
    timer: Signal<(), E>,
)
    requires
        round.votes.well_formed(),
        last.estimate is Some,
    ensures
        round.precommitting(chain, last, timer).1 matches Ok(Some(precommit)) ==> {
            &&& round.votes.prevote_ghost() is Some
            &&& (precommit.target_hash, precommit.target_number) == round.votes.target(
                round.votes.prevote_ghost()->0,
            )
            &&& has_supermajority(round.votes.voters, round.votes.prevotes)(
                round.votes.prevote_ghost()->0,
            )
            &&& Some((precommit.target_hash, precommit.target_number)) == last.estimate
                || chain.reaches((last.estimate->0).0, precommit.target_hash)
        },
{
    lemma_ghost_fits(round.votes, round.votes.prevotes);
}

/// What was announced is not announced again until it changes.
pub proof fn finality_is_announced_once<I, H, N: TargetNumber, S>(
    round: VotingRoundView<I, H, N, S>,
    earlier: RoundState<H, N>,
)
    requires
        round.announces(earlier),
    ensures
        !round.notified(earlier).announces(round.votes.state()),
        round.notified(earlier).best_finalized == Some(round.commit()),
{
}

/// A voter that takes part in the round announces nothing before it has
/// precommitted, and never before the round is completable.
pub proof fn announcements_follow_the_precommit<I, H, N: TargetNumber, S>(
    round: VotingRoundView<I, H, N, S>,
    earlier: RoundState<H, N>,
)
    requires
        round.announces(earlier),
    ensures
        round.votes.completable(),
        round.votes.finalized() is Some,
        round.last_round_state is Some ==> round.state == Some(State::<H, N>::Precommitted),
{
}

} // verus!
