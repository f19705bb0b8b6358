//! Laws of counting: what a vote adds, and what the votes of a round establish.
use vstd::prelude::*;

use crate::chain::{Chain, Error};
use crate::messages::{
    HistoricalVotesView, ImportResult, Message, Precommit, Prevote, SignedMessage,
};
use crate::number::TargetNumber;
use crate::round::{new_round, vote_path, RoundView};
use crate::round_laws::lemma_position_is_unique;
use crate::tally::{
    backers, backs, cast, equivocated, equivocators, has_doubled, has_voted, participants, support,
    turnout, BallotView, Ballots,
};
use crate::voter_set::is_voter;
use crate::weights::{lemma_nobody_weighs_nothing, lemma_weight_after_change};

verus! {

/// A round starts without votes, and so without any weight.
pub proof fn new_rounds_are_empty<I, H, N: TargetNumber, S>(
    number: u64,
    voters: Seq<(I, u64)>,
    base: (H, N),
    target: Seq<H>,
)
    ensures
        ({
            let round = new_round::<I, H, N, S>(number, voters, base);
            &&& round.number == number && round.voters == voters && round.base == base
            &&& round.prevotes.len() == voters.len() && round.precommits.len() == voters.len()
            &&& round.history.seen.len() == 0
            &&& round.history.prevote_idx is None && round.history.precommit_idx is None
            &&& cast(voters, round.prevotes) == 0 && cast(voters, round.precommits) == 0
            &&& support(voters, round.prevotes, target) == 0
            &&& support(voters, round.precommits, target) == 0
            &&& equivocated(voters, round.prevotes) == 0
            &&& equivocated(voters, round.precommits) == 0
            &&& turnout(round.prevotes, voters.len()) == 0
            &&& turnout(round.precommits, voters.len()) == 0
        }),
{
    let round = new_round::<I, H, N, S>(number, voters, base);
    lemma_no_ballots(voters, round.prevotes, target, voters.len());
    lemma_no_ballots(voters, round.precommits, target, voters.len());
}

/// Without ballots there is no weight.
proof fn lemma_no_ballots<I, H, N, S>(
    voters: Seq<(I, u64)>,
    ballots: Ballots<H, N, S>,
    target: Seq<H>,
    n: nat,
)
    requires
        forall|i: int| 0 <= i < n ==> (#[trigger] ballots[i]) is None,
        n == voters.len(),
    ensures
        cast(voters, ballots) == 0,
        support(voters, ballots, target) == 0,
        equivocated(voters, ballots) == 0,
        turnout(ballots, n) == 0,
{
    lemma_nobody_weighs_nothing(voters, participants(ballots), n);
    lemma_nobody_weighs_nothing(voters, backers(ballots, target), n);
    lemma_nobody_weighs_nothing(voters, equivocators(ballots), n);
    lemma_no_turnout(ballots, n);
}

/// Without ballots nobody has turned out.
proof fn lemma_no_turnout<H, N, S>(ballots: Ballots<H, N, S>, n: nat)
    requires
        forall|i: int| 0 <= i < n ==> (#[trigger] ballots[i]) is None,
    ensures
        turnout(ballots, n) == 0,
    decreases n,
{
    if n > 0 {
        lemma_no_turnout(ballots, (n - 1) as nat);
        assert(ballots[n - 1] is None);
    }
}

/// One more ballot is one more voter that has turned out.
proof fn lemma_turnout_after_change<H, N, S>(
    before: Ballots<H, N, S>,
    after: Ballots<H, N, S>,
    at: int,
    n: nat,
)
    requires
        forall|i: int|
            0 <= i < n && i != at ==> has_voted(after, i) == #[trigger] has_voted(before, i),
    ensures
        turnout(after, n) + (if 0 <= at < n && has_voted(before, at) {
            1nat
        } else {
            0
        }) == turnout(before, n) + (if 0 <= at < n && has_voted(after, at) {
            1nat
        } else {
            0
        }),
    decreases n,
{
    if n > 0 {
        lemma_turnout_after_change(before, after, at, (n - 1) as nat);
        if at != n - 1 {
            assert(has_voted(before, n - 1) == has_voted(after, n - 1));
        }
    }
}

/// What one more ballot, or one more vote on a ballot, adds to the weights.
proof fn lemma_weights_after_change<I, H, N, S>(
    voters: Seq<(I, u64)>,
    before: Ballots<H, N, S>,
    at: int,
    ballot: BallotView<H, N, S>,
    target: Seq<H>,
)
    requires
        voters.len() == before.len(),
        0 <= at < voters.len(),
    ensures
        ({
            let after = before.update(at, Some(ballot));
            let weight = voters[at].1;
            &&& cast(voters, after) + (if before[at] is Some {
                weight as nat
            } else {
                0
            }) == cast(voters, before) + weight
            &&& equivocated(voters, after) + (if has_doubled(before, at) {
                weight as nat
            } else {
                0
            }) == equivocated(voters, before) + (if ballot.second is Some {
                weight as nat
            } else {
                0
            })
            &&& support(voters, after, target) + (if backs(before, at, target) {
                weight as nat
            } else {
                0
            }) == support(voters, before, target) + (if ballot.second is Some
                || target.is_prefix_of(ballot.path) {
                weight as nat
            } else {
                0
            })
            &&& turnout(after, voters.len()) + (if before[at] is Some {
                1nat
            } else {
                0
            }) == turnout(before, voters.len()) + 1
        }),
{
    let after = before.update(at, Some(ballot));
    let n = voters.len();
    assert forall|i: int| 0 <= i < n && i != at implies after[i] == before[i] by {}
    lemma_weight_after_change(voters, participants(before), participants(after), at, n);
    lemma_weight_after_change(voters, equivocators(before), equivocators(after), at, n);
    lemma_weight_after_change(voters, backers(before, target), backers(after, target), at, n);
    lemma_turnout_after_change(before, after, at, n);
}

/// What counting a first vote makes of one phase: the voter has a ballot for the
/// target, and its weight is added to what was cast and to the support of the target
/// and of everything below it on the path, and to nothing else.
pub open spec fn counts_first_vote<I, H, N: TargetNumber, S>(
    voters: Seq<(I, u64)>,
    before: Ballots<H, N, S>,
    after: Ballots<H, N, S>,
    at: int,
    path: Seq<H>,
    target: (H, N),
    signature: S,
    other: Seq<H>,
) -> bool {
    &&& after.len() == before.len()
    &&& after[at] == Some(BallotView { target, path, signature, second: None })
    &&& forall|i: int| 0 <= i < before.len() && i != at ==> after[i] == #[trigger] before[i]
    &&& cast(voters, after) == cast(voters, before) + voters[at].1
    &&& equivocated(voters, after) == equivocated(voters, before)
    &&& turnout(after, after.len()) == turnout(before, before.len()) + 1
    &&& support(voters, after, other) == support(voters, before, other) + if other.is_prefix_of(
        path,
    ) {
        voters[at].1 as nat
    } else {
        0
    }
}

/// What counting a second, contradicting vote makes of one phase: the ballot keeps its
/// first vote and gets the second one, nothing more is cast, and the voter's weight is
/// added to what has equivocated and to the support of everything that it did not
/// support before.
pub open spec fn counts_second_vote<I, H, N: TargetNumber, S>(
    voters: Seq<(I, u64)>,
    before: Ballots<H, N, S>,
    after: Ballots<H, N, S>,
    at: int,
    target: (H, N),
    signature: S,
    other: Seq<H>,
) -> bool {
    &&& after.len() == before.len()
    &&& after[at] matches Some(ballot) && {
        &&& ballot.target == before[at]->0.target
        &&& ballot.path == before[at]->0.path
        &&& ballot.signature == before[at]->0.signature
        &&& ballot.second == Some((target, signature))
    }
    &&& forall|i: int| 0 <= i < before.len() && i != at ==> after[i] == #[trigger] before[i]
    &&& cast(voters, after) == cast(voters, before)
    &&& equivocated(voters, after) == equivocated(voters, before) + voters[at].1
    &&& turnout(after, after.len()) == turnout(before, before.len())
    &&& support(voters, after, other) == support(voters, before, other) + if other.is_prefix_of(
        before[at]->0.path,
    ) {
        0
    } else {
        voters[at].1 as nat
    }
}

/// The vote is the last one in the history, and the round is otherwise the same but for
/// the votes of its phase.
pub open spec fn remembers<I, H, N: TargetNumber, S>(
    before: RoundView<I, H, N, S>,
    after: RoundView<I, H, N, S>,
    vote: SignedMessage<H, N, S, I>,
) -> bool {
    &&& after.history.seen.len() == before.history.seen.len() + 1
    &&& after.history.seen.last() == vote
    &&& after.history.seen.drop_last() == before.history.seen
    &&& after.history == (HistoricalVotesView { seen: after.history.seen, ..before.history })
    &&& after.number == before.number && after.base == before.base && after.voters
        == before.voters
}

/// The first prevote of a voter along an acceptable path is counted, whatever the round
/// has established so far.
pub proof fn first_prevotes_are_counted<I, H, N: TargetNumber, S, C: Chain<H, N>>(
    round: RoundView<I, H, N, S>,
    chain: C,
    vote: Prevote<H, N>,
    at: int,
    signature: S,
    other: Seq<H>,
)
    requires
        round.well_formed(),
        0 <= at < round.voters.len(),
        round.prevotes[at] is None,
        vote_path(chain, round.base, vote.target_hash, vote.target_number) is Ok,
    ensures
        ({
            let id = round.voters[at].0;
            let after = round.after_prevote(chain, vote, id, signature);
            let path = vote_path(chain, round.base, vote.target_hash, vote.target_number)->Ok_0;
            &&& counts_first_vote(
                round.voters,
                round.prevotes,
                after.prevotes,
                at,
                path,
                (vote.target_hash, vote.target_number),
                signature,
                other,
            )
            &&& after.precommits == round.precommits
            &&& remembers(
                round,
                after,
                (SignedMessage { message: Message::Prevote(vote), signature, id }),
            )
            &&& round.prevote_report(chain, vote, id, signature) == Ok::<
                ImportResult<I, Prevote<H, N>, S>,
                Error,
            >(ImportResult { valid_voter: true, duplicated: false, equivocation: None })
        }),
{
    let id = round.voters[at].0;
    let after = round.after_prevote(chain, vote, id, signature);
    let target = (vote.target_hash, vote.target_number);
    let path = vote_path(chain, round.base, target.0, target.1)->Ok_0;
    let ballot = BallotView { target, path, signature, second: None };
    lemma_position_is_unique(round.voters, at);
    lemma_weights_after_change(round.voters, round.prevotes, at, ballot, other);
    assert(after.prevotes == round.prevotes.update(at, Some(ballot)));
    assert(after.history.seen.drop_last() =~= round.history.seen);
}

/// The first precommit of a voter along an acceptable path is counted, whatever the
/// round has established so far.
pub proof fn first_precommits_are_counted<I, H, N: TargetNumber, S, C: Chain<H, N>>(
    round: RoundView<I, H, N, S>,
    chain: C,
    vote: Precommit<H, N>,
    at: int,
    signature: S,
    other: Seq<H>,
)
    requires
        round.well_formed(),
        0 <= at < round.voters.len(),
        round.precommits[at] is None,
        vote_path(chain, round.base, vote.target_hash, vote.target_number) is Ok,
    ensures
        ({
            let id = round.voters[at].0;
            let after = round.after_precommit(chain, vote, id, signature);
            let path = vote_path(chain, round.base, vote.target_hash, vote.target_number)->Ok_0;
            &&& counts_first_vote(
                round.voters,
                round.precommits,
                after.precommits,
                at,
                path,
                (vote.target_hash, vote.target_number),
                signature,
                other,
            )
            &&& after.prevotes == round.prevotes
            &&& remembers(
                round,
                after,
                (SignedMessage { message: Message::Precommit(vote), signature, id }),
            )
            &&& round.precommit_report(chain, vote, id, signature) == Ok::<
                ImportResult<I, Precommit<H, N>, S>,
                Error,
            >(ImportResult { valid_voter: true, duplicated: false, equivocation: None })
        }),
{
    let id = round.voters[at].0;
    let after = round.after_precommit(chain, vote, id, signature);
    let target = (vote.target_hash, vote.target_number);
    let path = vote_path(chain, round.base, target.0, target.1)->Ok_0;
    let ballot = BallotView { target, path, signature, second: None };
    lemma_position_is_unique(round.voters, at);
    lemma_weights_after_change(round.voters, round.precommits, at, ballot, other);
    assert(after.precommits == round.precommits.update(at, Some(ballot)));
    assert(after.history.seen.drop_last() =~= round.history.seen);
}

/// A prevote that differs from the only one of its voter is kept as the second one, and
/// reported with the first one as evidence.
pub proof fn contradicting_prevotes_are_exposed<I, H, N: TargetNumber, S, C: Chain<H, N>>(
    round: RoundView<I, H, N, S>,
    chain: C,
    vote: Prevote<H, N>,
    at: int,
    signature: S,
    other: Seq<H>,
)
    requires
        round.well_formed(),
        0 <= at < round.voters.len(),
        round.prevotes[at] is Some,
        round.prevotes[at]->0.second is None,
        (round.prevotes[at]->0.target, round.prevotes[at]->0.signature) != (
            (vote.target_hash, vote.target_number),
            signature,
        ),
        vote_path(chain, round.base, vote.target_hash, vote.target_number) is Ok,
    ensures
        ({
            let id = round.voters[at].0;
            let first = round.prevotes[at]->0;
            let after = round.after_prevote(chain, vote, id, signature);
            &&& counts_second_vote(
                round.voters,
                round.prevotes,
                after.prevotes,
                at,
                (vote.target_hash, vote.target_number),
                signature,
                other,
            )
            &&& after.precommits == round.precommits
            &&& remembers(
                round,
                after,
                (SignedMessage { message: Message::Prevote(vote), signature, id }),
            )
            &&& round.prevote_report(chain, vote, id, signature) matches Ok(report) && {
                &&& report.valid_voter && !report.duplicated
                &&& report.equivocation matches Some(evidence) && {
                    &&& evidence.round_number == round.number && evidence.identity == id
                    &&& (evidence.first.0.target_hash, evidence.first.0.target_number)
                        == first.target
                    &&& evidence.first.1 == first.signature
                    &&& evidence.second == (vote, signature)
                }
            }
        }),
{
    let id = round.voters[at].0;
    let after = round.after_prevote(chain, vote, id, signature);
    let target = (vote.target_hash, vote.target_number);
    let ballot = BallotView { second: Some((target, signature)), ..round.prevotes[at]->0 };
    lemma_position_is_unique(round.voters, at);
    lemma_weights_after_change(round.voters, round.prevotes, at, ballot, other);
    assert(after.prevotes == round.prevotes.update(at, Some(ballot)));
    assert(after.history.seen.drop_last() =~= round.history.seen);
}

/// A precommit that differs from the only one of its voter is kept as the second one,
/// and reported with the first one as evidence.
pub proof fn contradicting_precommits_are_exposed<I, H, N: TargetNumber, S, C: Chain<H, N>>(
    round: RoundView<I, H, N, S>,
    chain: C,
    vote: Precommit<H, N>,
    at: int,
    signature: S,
    other: Seq<H>,
)
    requires
        round.well_formed(),
        0 <= at < round.voters.len(),
        round.precommits[at] is Some,
        round.precommits[at]->0.second is None,
        (round.precommits[at]->0.target, round.precommits[at]->0.signature) != (
            (vote.target_hash, vote.target_number),
            signature,
        ),
        vote_path(chain, round.base, vote.target_hash, vote.target_number) is Ok,
    ensures
        ({
            let id = round.voters[at].0;
            let first = round.precommits[at]->0;
            let after = round.after_precommit(chain, vote, id, signature);
            &&& counts_second_vote(
                round.voters,
                round.precommits,
                after.precommits,
                at,
                (vote.target_hash, vote.target_number),
                signature,
                other,
            )
            &&& after.prevotes == round.prevotes
            &&& remembers(
                round,
                after,
                (SignedMessage { message: Message::Precommit(vote), signature, id }),
            )
            &&& round.precommit_report(chain, vote, id, signature) matches Ok(report) && {
                &&& report.valid_voter && !report.duplicated
                &&& report.equivocation matches Some(evidence) && {
                    &&& evidence.round_number == round.number && evidence.identity == id
                    &&& (evidence.first.0.target_hash, evidence.first.0.target_number)
                        == first.target
                    &&& evidence.first.1 == first.signature
                    &&& evidence.second == (vote, signature)
                }
            }
        }),
{
    let id = round.voters[at].0;
    let after = round.after_precommit(chain, vote, id, signature);
    let target = (vote.target_hash, vote.target_number);
    let ballot = BallotView { second: Some((target, signature)), ..round.precommits[at]->0 };
    lemma_position_is_unique(round.voters, at);
    lemma_weights_after_change(round.voters, round.precommits, at, ballot, other);
    assert(after.precommits == round.precommits.update(at, Some(ballot)));
    assert(after.history.seen.drop_last() =~= round.history.seen);
}

/// A ballot holds this very vote.
pub open spec fn holds_vote<H, N, S>(
    ballot: BallotView<H, N, S>,
    target: (H, N),
    signature: S,
) -> bool {
    ||| ballot.target == target && ballot.signature == signature
    ||| ballot.second == Some((target, signature))
}

/// A vote that the voter's ballot holds already changes nothing and is reported as
/// repeated. A voter that has voted twice cannot vote again: any further vote changes
/// nothing and is reported as neither repeated nor new evidence.
pub proof fn further_votes_change_nothing<I, H, N: TargetNumber, S, C: Chain<H, N>>(
    round: RoundView<I, H, N, S>,
    chain: C,
    prevote: Prevote<H, N>,
    precommit: Precommit<H, N>,
    at: int,
    signature: S,
)
    requires
        round.well_formed(),
        0 <= at < round.voters.len(),
    ensures
        ({
            let id = round.voters[at].0;
            let target = (prevote.target_hash, prevote.target_number);
            &&& vote_path(chain, round.base, target.0, target.1) is Ok ==> (
            round.prevotes[at] matches Some(ballot) ==> (holds_vote(ballot, target, signature)
                || ballot.second is Some ==> {
                &&& round.after_prevote(chain, prevote, id, signature) == round
                &&& round.prevote_report(chain, prevote, id, signature) matches Ok(report)
                    && report.valid_voter && report.equivocation is None && report.duplicated
                    == holds_vote(ballot, target, signature)
            }))
        }),
        ({
            let id = round.voters[at].0;
            let target = (precommit.target_hash, precommit.target_number);
            &&& vote_path(chain, round.base, target.0, target.1) is Ok ==> (
            round.precommits[at] matches Some(ballot) ==> (holds_vote(ballot, target, signature)
                || ballot.second is Some ==> {
                &&& round.after_precommit(chain, precommit, id, signature) == round
                &&& round.precommit_report(chain, precommit, id, signature) matches Ok(report)
                    && report.valid_voter && report.equivocation is None && report.duplicated
                    == holds_vote(ballot, target, signature)
            }))
        }),
{
    lemma_position_is_unique(round.voters, at);
}

/// Votes of strangers change nothing and are reported as such, without looking at the
/// target.
pub proof fn strangers_are_not_counted<I, H, N: TargetNumber, S, C: Chain<H, N>>(
    round: RoundView<I, H, N, S>,
    chain: C,
    prevote: Prevote<H, N>,
    precommit: Precommit<H, N>,
    id: I,
    signature: S,
)
    requires
        forall|i: int| 0 <= i < round.voters.len() ==> (#[trigger] round.voters[i]).0 != id,
    ensures
        round.after_prevote(chain, prevote, id, signature) == round,
        round.after_precommit(chain, precommit, id, signature) == round,
        round.prevote_report(chain, prevote, id, signature) == Ok::<
            ImportResult<I, Prevote<H, N>, S>,
            Error,
        >(ImportResult { valid_voter: false, duplicated: false, equivocation: None }),
        round.precommit_report(chain, precommit, id, signature) == Ok::<
            ImportResult<I, Precommit<H, N>, S>,
            Error,
        >(ImportResult { valid_voter: false, duplicated: false, equivocation: None }),
{
    assert(!is_voter(round.voters, id));
}

/// A vote of a voter is refused exactly for what is wrong with its target, and with the
/// same error in both phases.
pub proof fn votes_are_refused_for_their_targets<I, H, N: TargetNumber, S, C: Chain<H, N>>(
    round: RoundView<I, H, N, S>,
    chain: C,
    prevote: Prevote<H, N>,
    precommit: Precommit<H, N>,
    at: int,
    signature: S,
)
    requires
        0 <= at < round.voters.len(),
    ensures
        ({
            let id = round.voters[at].0;
            let path = vote_path(chain, round.base, prevote.target_hash, prevote.target_number);
            match path {
                Ok(_) => round.prevote_report(chain, prevote, id, signature) is Ok,
                Err(e) => round.prevote_report(chain, prevote, id, signature) == Err::<
                    ImportResult<I, Prevote<H, N>, S>,
                    Error,
                >(e) && round.after_prevote(chain, prevote, id, signature) == round,
            }
        }),
        ({
            let id = round.voters[at].0;
            let path = vote_path(chain, round.base, precommit.target_hash, precommit.target_number);
            match path {
                Ok(_) => round.precommit_report(chain, precommit, id, signature) is Ok,
                Err(e) => round.precommit_report(chain, precommit, id, signature) == Err::<
                    ImportResult<I, Precommit<H, N>, S>,
                    Error,
                >(e) && round.after_precommit(chain, precommit, id, signature) == round,
            }
        }),
{
    assert(is_voter(round.voters, round.voters[at].0));
}

/// A target is invalid for a vote if the chain does not hold it at its view, and astray
/// if the chain does but it does not descend from the base. Otherwise it is acceptable
/// if it is the base itself, or if the chain names as many targets between the two as
/// there are views; the path then leads from the base over these, from the lowest to
/// the highest, to the target. Where the numbers do not add up the target is invalid
/// too, and where the chain does not name the targets, its error stands.
pub proof fn acceptable_targets_lie_on_a_path<H, N: TargetNumber, C: Chain<H, N>>(
    chain: C,
    base: (H, N),
    hash: H,
    number: N,
)
    ensures
        ({
            let path = vote_path(chain, base, hash, number);
            let held = chain.target_at(hash) matches Some(target) && target.hash() == hash
                && target.number() == number;
            let above = held && chain.reaches(base.0, hash) && hash != base.0;
            &&& !held ==> path == Err::<Seq<H>, Error>(Error::InvalidTarget)
            &&& held && !chain.reaches(base.0, hash) ==> path == Err::<Seq<H>, Error>(
                Error::NotDescendent,
            )
            &&& held && chain.reaches(base.0, hash) && hash == base.0 ==> path == if number
                == base.1 {
                Ok::<Seq<H>, Error>(seq![base.0])
            } else {
                Err(Error::InvalidTarget)
            }
            &&& above ==> match chain.ancestors(base.0, hash) {
                Err(e) => path == Err::<Seq<H>, Error>(e),
                Ok(between) => if number.value() != base.1.value() + between.len() + 1 {
                    path == Err::<Seq<H>, Error>(Error::InvalidTarget)
                } else {
                    &&& path matches Ok(line) && line.len() == between.len() + 2 && line[0]
                        == base.0 && line.last() == hash
                    &&& forall|k: int|
                        0 <= k < between.len() ==> (path->Ok_0)[between.len() - k]
                            == #[trigger] between[k]
                },
            }
        }),
{
}

} // verus!
