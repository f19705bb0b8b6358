//! Voting and handling messages within a single round.
//!
//! The round decides; its owner acts. Timers, best-chain queries, the recording
//! of votes and the network belong to the owner, who tells the round what came
//! of them.
use vstd::prelude::*;

use crate::chain::{Chain, Error, VoteTarget};
use crate::commit::{is_valid_commit, validate_commit};
use crate::ident::{duplicate_option, same_option, Identity};
use crate::messages::{
    Commit, CommitView, Equivocation, HistoricalVotes, Message, Precommit, Prevote, PrimaryPropose,
    RoundState, SignedMessage, SignedPrecommit,
};
use crate::number::TargetNumber;
use crate::round::{is_known_target, new_round, target_is_known, Round, RoundParams, RoundView};
use crate::tally::cast;
use crate::voter_set::{is_voter, VoteWeight, VoterSet};

verus! {

/// How far the local voter has got in a round.
#[derive(Debug, PartialEq, Eq)]
pub enum State<H, N> {
    /// Nothing has been said.
    Start,
    /// The primary's hint has been sent.
    Proposed,
    /// The best chain containing a target is being looked up; the finalized target
    /// at the time of the query is kept along.
    Prevoting(H, (H, N)),
    /// The prevote has been cast, or is not ours to cast.
    Prevoted,
    /// The precommit has been cast, or is not ours to cast.
    Precommitted,
}

impl<H, N> State<H, N> {
    /// The name of the state.
    pub open spec fn spec_name(self) -> Seq<char> {
        match self {
            State::Start => "Start"@,
            State::Proposed => "Proposed"@,
            State::Prevoting(_, _) => "Prevoting"@,
            State::Prevoted => "Prevoted"@,
            State::Precommitted => "Precommitted"@,
        }
    }

    /// The name of the state.
    pub fn name(&self) -> (r: &'static str)
        ensures
            r@ == self.spec_name(),
    {
        match self {
            State::Start => "Start",
            State::Proposed => "Proposed",
            State::Prevoting(_, _) => "Prevoting",
            State::Prevoted => "Prevoted",
            State::Precommitted => "Precommitted",
        }
    }
}

/// Whether we should vote in the current round.
#[derive(Clone, Copy, Debug, PartialEq, Eq, Structural)]
pub enum Voting {
    /// Voting is disabled for the current round.
    No,
    /// Voting is enabled for the current round (prevotes and precommits).
    Yes,
    /// Voting is enabled for the current round and we are the primary proposer
    /// (we can also push primary propose messages).
    Primary,
}

impl Voting {
    /// Whether the voter should cast round votes (prevotes and precommits).
    pub fn is_active(&self) -> (r: bool)
        ensures
            r == !(*self is No),
    {
        match self {
            Voting::No => false,
            _ => true,
        }
    }

    /// Whether the voter is the primary proposer.
    pub fn is_primary(&self) -> (r: bool)
        ensures
            r == (*self is Primary),
    {
        match self {
            Voting::Primary => true,
            _ => false,
        }
    }
}

/// What came of something that the owner of a round waits for.
#[derive(Debug)]
pub enum Signal<T, E> {
    /// It is not there yet.
    Pending,
    /// It is there.
    Ready(T),
    /// It failed.
    Failed(E),
}

/// Why a round cannot go on.
#[derive(Clone, Debug, PartialEq, Eq)]
pub enum Failure<E> {
    /// A target was refused.
    Refused(Error),
    /// The owner of the round reported an error.
    Host(E),
}

/// What the owner of a round has to do so that the round can prevote.
#[derive(Debug, PartialEq, Eq)]
pub enum PrevoteAction<H, N> {
    /// Nothing now.
    Wait,
    /// Look up the best chain containing a target, and come back with the result.
    Query(H),
    /// Record the prevote, and then have it sent.
    Cast(Prevote<H, N>),
}

/// What the owner of a round tries next, with what came of what it waits for.
#[derive(Debug)]
pub enum Attempt<H, N, E> {
    /// Send the primary's hint.
    Propose,
    /// Prevote: the prevote timer, and the best chain that is being looked up.
    Prevote(Signal<(), E>, Signal<Option<VoteTarget<H, N>>, E>),
    /// Precommit: the precommit timer.
    Precommit(Signal<(), E>),
}

/// What the owner of a round has to do after an attempt.
#[derive(Debug, PartialEq, Eq)]
pub enum Step<H, N> {
    /// Nothing now.
    Wait,
    /// Look up the best chain containing a target, and come back with the result.
    Query(H),
    /// Record the message, and then have it sent.
    Record(Message<H, N>),
}

/// Evidence of misbehaviour that a vote completed.
#[derive(Debug, PartialEq, Eq)]
pub enum Misbehaviour<I, H, N, S> {
    /// Two prevotes.
    Prevote(Equivocation<I, Prevote<H, N>, S>),
    /// Two precommits.
    Precommit(Equivocation<I, Precommit<H, N>, S>),
}

/// A finalized target, the round that finalized it, and the proof.
#[derive(Debug, PartialEq, Eq)]
pub struct FinalizedNotification<H, N, S, I> {
    /// The identity of the finalized target.
    pub hash: H,
    /// The view of the finalized target.
    pub number: N,
    /// The round that finalized it.
    pub round_number: u64,
    /// The proof.
    pub commit: Commit<H, N, S, I>,
}

/// What came of a poll.
#[derive(Debug)]
pub struct RoundPoll<H, N, S, I> {
    /// All messages are sent, the round is complete, and the previous round's
    /// estimate is finalized.
    pub ready: bool,
    /// A newly finalized target.
    pub finalized: Option<FinalizedNotification<H, N, S, I>>,
}

/// What came of checking and importing a commit.
#[derive(Debug)]
pub struct CommitImport<H, N, S, I> {
    /// The finalized target if the commit is valid and could be imported.
    pub finalized: Result<Option<(H, N)>, Error>,
    /// The misbehaviour that its precommits completed.
    pub equivocations: Vec<Equivocation<I, Precommit<H, N>, S>>,
}

/// What importing a list of precommits does.
#[verifier::ext_equal]
pub struct ImportedList<I, H, N, S> {
    /// The round afterwards.
    pub round: RoundView<I, H, N, S>,
    /// The error that ended the import.
    pub failure: Option<Error>,
    /// The misbehaviour on the way.
    pub equivocations: Seq<Equivocation<I, Precommit<H, N>, S>>,
}

/// What importing the first `n` of a list of precommits does: they are imported
/// in order until one is refused.
pub open spec fn import_list<I, H, N: TargetNumber, S, C: Chain<H, N>>(
    round: RoundView<I, H, N, S>,
    chain: C,
    list: Seq<SignedPrecommit<H, N, S, I>>,
    n: nat,
) -> ImportedList<I, H, N, S>
    decreases n,
{
    if n == 0 {
        ImportedList { round, failure: None, equivocations: Seq::empty() }
    } else {
        let before = import_list(round, chain, list, (n - 1) as nat);
        let signed = list[n - 1];
        if before.failure is Some {
            before
        } else {
            match before.round.precommit_report(
                chain,
                signed.precommit,
                signed.id,
                signed.signature,
            ) {
                Err(e) => ImportedList { failure: Some(e), ..before },
                Ok(report) => ImportedList {
                    round: before.round.after_precommit(
                        chain,
                        signed.precommit,
                        signed.id,
                        signed.signature,
                    ),
                    failure: None,
                    equivocations: match report.equivocation {
                        Some(e) => before.equivocations.push(e),
                        None => before.equivocations,
                    },
                },
            }
        }
    }
}

/// What a voting round holds.
#[verifier::ext_equal]
pub struct VotingRoundView<I, H, N, S> {
    /// Whether and how we vote.
    pub voting: Voting,
    /// The votes of the round.
    pub votes: RoundView<I, H, N, S>,
    /// How far we have got; `None` once we are out of the round.
    pub state: Option<State<H, N>>,
    /// A message that waits for being recorded.
    pub pending: Option<Message<H, N>>,
    /// The latest finalized target, including timeout views.
    pub latest_finalized: (H, N),
    /// The state last handed to the later round.
    pub bridged_round_state: Option<RoundState<H, N>>,
    /// The state of the prior round, unless it is not known.
    pub last_round_state: Option<RoundState<H, N>>,
    /// The target that the primary hinted at.
    pub primary_block: Option<(H, N)>,
    /// Messages to be sent, the first one first.
    pub outgoing: Seq<Message<H, N>>,
    /// The commit for the best finalized target.
    pub best_finalized: Option<CommitView<H, N, S, I>>,
}

/// What an optional commit holds.
pub open spec fn commit_view<H, N, S, I>(commit: Option<Commit<H, N, S, I>>) -> Option<
    CommitView<H, N, S, I>,
> {
    match commit {
        Some(commit) => Some(commit@),
        None => None,
    }
}

/// The evidence in a report, as misbehaviour in the prevote phase.
pub open spec fn prevote_misbehaviour<I, H, N: TargetNumber, S>(
    equivocation: Option<Equivocation<I, Prevote<H, N>, S>>,
) -> Option<Misbehaviour<I, H, N, S>> {
    match equivocation {
        Some(e) => Some(Misbehaviour::Prevote(e)),
        None => None,
    }
}

/// The evidence in a report, as misbehaviour in the precommit phase.
pub open spec fn precommit_misbehaviour<I, H, N: TargetNumber, S>(
    equivocation: Option<Equivocation<I, Precommit<H, N>, S>>,
) -> Option<Misbehaviour<I, H, N, S>> {
    match equivocation {
        Some(e) => Some(Misbehaviour::Precommit(e)),
        None => None,
    }
}

/// Something that the owner waits for is there.
pub open spec fn elapsed<E>(timer: Signal<(), E>, completable: bool) -> bool {
    match timer {
        Signal::Ready(_) => true,
        Signal::Pending => completable,
        Signal::Failed(_) => false,
    }
}

/// The role of a voter in a round.
pub open spec fn role<I, H, N: TargetNumber, S>(
    votes: RoundView<I, H, N, S>,
    voter_id: Option<I>,
) -> Voting {
    match voter_id {
        None => Voting::No,
        Some(id) => if id == votes.primary() {
            Voting::Primary
        } else if is_voter(votes.voters, id) {
            Voting::Yes
        } else {
            Voting::No
        },
    }
}

impl<I, H, N: TargetNumber, S> VotingRoundView<I, H, N, S> {
    /// The round is well formed: a message waits for being recorded only while
    /// nothing else goes on.
    pub open spec fn well_formed(self) -> bool {
        &&& self.votes.well_formed()
        &&& self.pending is Some ==> self.state is None
    }

    /// The hint that the primary sends: the prior round's estimate, unless that is
    /// finalized already.
    pub open spec fn proposal(self, last_round_state: RoundState<H, N>) -> Option<
        PrimaryPropose<H, N>,
    > {
        match last_round_state.estimate {
            Some(estimate) => if self.state == Some(State::<H, N>::Start) && self.voting is Primary
                && (match last_round_state.finalized {
                Some(finalized) => estimate.1.value() > finalized.1.value(),
                None => true,
            }) {
                Some(PrimaryPropose { target_hash: estimate.0, target_number: estimate.1 })
            } else {
                None
            },
            None => None,
        }
    }

    /// The round while a message waits for being recorded.
    pub open spec fn awaiting(self, message: Message<H, N>) -> Self {
        VotingRoundView { state: None, pending: Some(message), ..self }
    }

    /// The round once the waiting message was recorded: it is to be sent, and the
    /// voter is one step further.
    pub open spec fn recorded(self) -> Self {
        match self.pending {
            None => self,
            Some(message) => VotingRoundView {
                pending: None,
                outgoing: self.outgoing.push(message),
                state: match message {
                    Message::PrimaryPropose(_) => Some(State::Proposed),
                    Message::Prevote(_) => Some(State::Prevoted),
                    Message::Precommit(_) => Some(State::Precommitted),
                },
                votes: match message {
                    Message::PrimaryPropose(_) => self.votes,
                    Message::Prevote(_) => self.votes.with_prevoted_index(),
                    Message::Precommit(_) => self.votes.with_precommitted_index(),
                },
                ..self
            },
        }
    }

    /// The round once the waiting message was given up: it is never sent.
    pub open spec fn abandoned(self) -> Self {
        VotingRoundView { pending: None, ..self }
    }

    /// What an attempt does. Nothing is attempted without the state of the prior
    /// round.
    pub open spec fn stepping<C: Chain<H, N>, E>(self, chain: C, attempt: Attempt<H, N, E>) -> (
        Self,
        Result<Step<H, N>, Failure<E>>,
    ) {
        match self.last_round_state {
            None => (self, Ok(Step::Wait)),
            Some(last) => match attempt {
                Attempt::Propose => match self.proposal(last) {
                    Some(hint) => (
                        self.awaiting(Message::PrimaryPropose(hint)),
                        Ok(Step::Record(Message::PrimaryPropose(hint))),
                    ),
                    None => (self, Ok(Step::Wait)),
                },
                Attempt::Prevote(timer, best_chain) => {
                    let done = self.prevoting(chain, last, timer, best_chain);
                    (
                        done.0,
                        match done.1 {
                            Ok(PrevoteAction::Wait) => Ok(Step::Wait),
                            Ok(PrevoteAction::Query(base)) => Ok(Step::Query(base)),
                            Ok(PrevoteAction::Cast(prevote)) => Ok(
                                Step::Record(Message::Prevote(prevote)),
                            ),
                            Err(e) => Err(e),
                        },
                    )
                },
                Attempt::Precommit(timer) => {
                    let done = self.precommitting(chain, last, timer);
                    (
                        done.0,
                        match done.1 {
                            Ok(Some(precommit)) => Ok(Step::Record(Message::Precommit(precommit))),
                            Ok(None) => Ok(Step::Wait),
                            Err(e) => Err(e),
                        },
                    )
                },
            },
        }
    }

    /// The prior round's state has what an attempt needs of it.
    pub open spec fn can_attempt<E>(self, attempt: Attempt<H, N, E>) -> bool {
        self.last_round_state matches Some(last) ==> match attempt {
            Attempt::Propose => true,
            Attempt::Prevote(timer, _) => self.starts_prevoting(timer) && !(self.voting is No)
                ==> self.has_anchor(last),
            Attempt::Precommit(_) => self.state == Some(State::<H, N>::Prevoted)
                ==> last.estimate is Some,
        }
    }

    /// The round after the voter has left it for good.
    pub open spec fn stopped(self) -> Self {
        VotingRoundView { voting: Voting::No, state: None, ..self }
    }

    /// The prior round has what [`Self::anchor`] needs.
    pub open spec fn has_anchor(self, last_round_state: RoundState<H, N>) -> bool {
        &&& last_round_state.estimate is Some
        &&& self.primary_block is Some ==> last_round_state.prevote_ghost is Some
    }

    /// The target that our prevote must descend from: the prior round's estimate,
    /// or the primary's hint if that lies between the estimate and the prior
    /// round's prevote-ghost.
    pub open spec fn anchor<C: Chain<H, N>>(
        self,
        chain: C,
        last_round_state: RoundState<H, N>,
    ) -> H {
        let estimate = last_round_state.estimate->0;
        match self.primary_block {
            None => estimate.0,
            Some(hint) => {
                let top = last_round_state.prevote_ghost->0;
                if hint == top {
                    hint.0
                } else if hint.1.value() >= top.1.value() {
                    estimate.0
                } else {
                    match chain.ancestors(estimate.0, top.0) {
                        Ok(between) => {
                            let offset = top.1.value() - hint.1.value() - 1;
                            if offset < between.len() && between[offset] == hint.0 {
                                hint.0
                            } else {
                                estimate.0
                            }
                        },
                        Err(_) => estimate.0,
                    }
                }
            },
        }
    }

    /// Our prevote is not cast yet, nor being looked up.
    pub open spec fn before_prevote(self) -> bool {
        self.state == Some(State::<H, N>::Start) || self.state == Some(State::<H, N>::Proposed)
    }

    /// The prevote timer lets us look up what to prevote for.
    pub open spec fn starts_prevoting<E>(self, timer: Signal<(), E>) -> bool {
        &&& self.before_prevote()
        &&& elapsed(timer, self.votes.completable())
    }

    /// The round while the best chain containing `base` is being looked up.
    pub open spec fn querying(self, base: H) -> Self {
        VotingRoundView { state: Some(State::Prevoting(base, self.latest_finalized)), ..self }
    }

    /// What the prevote timer does before the prevote.
    pub open spec fn start_prevoting<C: Chain<H, N>, E>(
        self,
        chain: C,
        last_round_state: RoundState<H, N>,
        timer: Signal<(), E>,
    ) -> (Self, Result<PrevoteAction<H, N>, Failure<E>>) {
        if timer is Failed {
            (VotingRoundView { state: None, ..self }, Err(Failure::Host(timer->Failed_0)))
        } else if !self.starts_prevoting(timer) {
            (self, Ok(PrevoteAction::Wait))
        } else if self.voting is No {
            (VotingRoundView { state: Some(State::Prevoted), ..self }, Ok(PrevoteAction::Wait))
        } else {
            let base = self.anchor(chain, last_round_state);
            (self.querying(base), Ok(PrevoteAction::Query(base)))
        }
    }

    /// What the best chain does while it is being looked up: the target must be
    /// exactly what the chain holds, and must descend from the queried base and
    /// from the latest finalized target. If finality moved on in the meantime, the
    /// query is repeated from there, or given up if it contradicts finality.
    pub open spec fn finish_prevoting<C: Chain<H, N>, E>(
        self,
        chain: C,
        base: H,
        observed: (H, N),
        best_chain: Signal<Option<VoteTarget<H, N>>, E>,
    ) -> (Self, Result<PrevoteAction<H, N>, Failure<E>>) {
        let out = VotingRoundView { state: None, ..self };
        match best_chain {
            Signal::Pending => (self, Ok(PrevoteAction::Wait)),
            Signal::Failed(e) => (out, Err(Failure::Host(e))),
            Signal::Ready(None) => (self.stopped(), Ok(PrevoteAction::Wait)),
            Signal::Ready(Some(target)) => {
                let hash = target.hash();
                let finalized = self.latest_finalized;
                if chain.target_at(hash) != Some(target) {
                    (out, Err(Failure::Refused(Error::InvalidTarget)))
                } else if !chain.reaches(base, hash) {
                    (out, Err(Failure::Refused(Error::NotDescendent)))
                } else if chain.reaches(finalized.0, hash) {
                    let prevote = Prevote { target_hash: hash, target_number: target.number() };
                    (self.awaiting(Message::Prevote(prevote)), Ok(PrevoteAction::Cast(prevote)))
                } else if finalized == observed {
                    (out, Err(Failure::Refused(Error::NotDescendent)))
                } else if chain.reaches(base, finalized.0) {
                    (self.querying(finalized.0), Ok(PrevoteAction::Query(finalized.0)))
                } else {
                    (self.stopped(), Ok(PrevoteAction::Wait))
                }
            },
        }
    }

    /// What one attempt at prevoting does.
    pub open spec fn prevoting<C: Chain<H, N>, E>(
        self,
        chain: C,
        last_round_state: RoundState<H, N>,
        timer: Signal<(), E>,
        best_chain: Signal<Option<VoteTarget<H, N>>, E>,
    ) -> (Self, Result<PrevoteAction<H, N>, Failure<E>>) {
        match self.state {
            Some(State::Start) | Some(State::Proposed) => self.start_prevoting(
                chain,
                last_round_state,
                timer,
            ),
            Some(State::Prevoting(base, observed)) => self.finish_prevoting(
                chain,
                base,
                observed,
                best_chain,
            ),
            _ => (self, Ok(PrevoteAction::Wait)),
        }
    }

    /// Our prevote is cast, and the round's prevote-ghost is the prior round's
    /// estimate or descends from it: only the timer keeps us from precommitting.
    pub open spec fn unblocked<C: Chain<H, N>>(
        self,
        chain: C,
        last_round_state: RoundState<H, N>,
    ) -> bool {
        &&& self.state == Some(State::<H, N>::Prevoted)
        &&& self.votes.state().prevote_ghost matches Some(top) && (top
            == last_round_state.estimate->0 || chain.reaches(
            (last_round_state.estimate->0).0,
            top.0,
        ))
    }

    /// Our precommit: the prevote-ghost, or the base if there is none.
    pub open spec fn own_precommit(self) -> Precommit<H, N> {
        let target = match self.votes.state().prevote_ghost {
            Some(top) => top,
            None => self.votes.base,
        };
        Precommit { target_hash: target.0, target_number: target.1 }
    }

    /// What one attempt at precommitting does.
    pub open spec fn precommitting<C: Chain<H, N>, E>(
        self,
        chain: C,
        last_round_state: RoundState<H, N>,
        timer: Signal<(), E>,
    ) -> (Self, Result<Option<Precommit<H, N>>, Failure<E>>) {
        if !self.unblocked(chain, last_round_state) {
            (self, Ok(None))
        } else if timer is Failed {
            (VotingRoundView { state: None, ..self }, Err(Failure::Host(timer->Failed_0)))
        } else if !elapsed(timer, self.votes.completable()) {
            (self, Ok(None))
        } else if self.voting is No {
            (VotingRoundView { state: Some(State::Precommitted), ..self }, Ok(None))
        } else {
            (
                self.awaiting(Message::Precommit(self.own_precommit())),
                Ok(Some(self.own_precommit())),
            )
        }
    }

    /// A message that concerns the round: its target is known at its view and
    /// descends from the base of the round.
    pub open spec fn concerns<C: Chain<H, N>>(self, chain: C, message: Message<H, N>) -> bool {
        &&& target_is_known(chain, message.hash(), message.number())
        &&& chain.reaches(self.votes.base.0, message.hash())
    }

    /// What a vote does to the round.
    pub open spec fn after_message<C: Chain<H, N>>(
        self,
        chain: C,
        vote: SignedMessage<H, N, S, I>,
    ) -> Self {
        if !self.concerns(chain, vote.message) {
            self
        } else {
            match vote.message {
                Message::Prevote(prevote) => VotingRoundView {
                    votes: self.votes.after_prevote(chain, prevote, vote.id, vote.signature),
                    ..self
                },
                Message::Precommit(precommit) => VotingRoundView {
                    votes: self.votes.after_precommit(chain, precommit, vote.id, vote.signature),
                    ..self
                },
                Message::PrimaryPropose(hint) => if vote.id == self.votes.primary() {
                    VotingRoundView {
                        primary_block: Some((hint.target_hash, hint.target_number)),
                        ..self
                    }
                } else {
                    self
                },
            }
        }
    }

    /// What handling a vote reports.
    pub open spec fn message_report<C: Chain<H, N>>(
        self,
        chain: C,
        vote: SignedMessage<H, N, S, I>,
    ) -> Result<Option<Misbehaviour<I, H, N, S>>, Error> {
        if !self.concerns(chain, vote.message) {
            Ok(None)
        } else {
            match vote.message {
                Message::Prevote(prevote) => match self.votes.prevote_report(
                    chain,
                    prevote,
                    vote.id,
                    vote.signature,
                ) {
                    Ok(report) => Ok(prevote_misbehaviour(report.equivocation)),
                    Err(e) => Err(e),
                },
                Message::Precommit(precommit) => match self.votes.precommit_report(
                    chain,
                    precommit,
                    vote.id,
                    vote.signature,
                ) {
                    Ok(report) => Ok(precommit_misbehaviour(report.equivocation)),
                    Err(e) => Err(e),
                },
                Message::PrimaryPropose(_) => Ok(None),
            }
        }
    }

    /// The round announces what it has finalized: it is completable, its finality
    /// changed or was never announced, and our precommit is cast or never will be.
    pub open spec fn announces(self, earlier: RoundState<H, N>) -> bool {
        let now = self.votes.state();
        &&& now.completable
        &&& earlier.finalized != now.finalized || self.best_finalized is None
        &&& self.state == Some(State::<H, N>::Precommitted) || self.last_round_state is None
        &&& now.finalized is Some
    }

    /// The commit for what the round has finalized.
    pub open spec fn commit(self) -> CommitView<H, N, S, I> {
        let finalized = self.votes.state().finalized->0;
        CommitView {
            target_hash: finalized.0,
            target_number: finalized.1,
            precommits: self.votes.finalizing_precommits(),
        }
    }

    /// The round after it told the later round and its owner about changes.
    pub open spec fn notified(self, earlier: RoundState<H, N>) -> Self {
        VotingRoundView {
            bridged_round_state: if self.bridged_round_state is Some && earlier
                != self.votes.state() {
                Some(self.votes.state())
            } else {
                self.bridged_round_state
            },
            best_finalized: if self.announces(earlier) {
                Some(self.commit())
            } else {
                self.best_finalized
            },
            ..self
        }
    }

    /// The prior round's estimate is finalized, there or here.
    pub open spec fn prior_estimate_is_finalized(self) -> bool {
        match self.last_round_state {
            None => true,
            Some(last) => match (last.estimate, last.finalized) {
                (Some(estimate), Some(finalized)) => {
                    ||| estimate.1.value() <= finalized.1.value()
                    ||| self.votes.state().finalized matches Some(here) && estimate.1.value()
                        <= here.1.value()
                },
                _ => false,
            },
        }
    }

    /// The round is complete.
    pub open spec fn is_complete(self) -> bool {
        self.votes.completable() && self.prior_estimate_is_finalized()
    }
}

impl<H, N: TargetNumber, S, I> FinalizedNotification<H, N, S, I> {
    /// The notification is about what the round has finalized.
    pub open spec fn is_about(self, round: VotingRoundView<I, H, N, S>) -> bool {
        &&& self.hash == round.commit().target_hash
        &&& self.number == round.commit().target_number
        &&& self.round_number == round.votes.number
        &&& self.commit@ == round.commit()
    }
}

/// The local voter in a round.
#[derive(Debug)]
pub struct VotingRound<I, H, N, S> {
    voting: Voting,
    votes: Round<I, H, N, S>,
    state: Option<State<H, N>>,
    pending: Option<Message<H, N>>,
    latest_finalized: (H, N),
    bridged_round_state: Option<RoundState<H, N>>,
    last_round_state: Option<RoundState<H, N>>,
    primary_block: Option<(H, N)>,
    outgoing: Vec<Message<H, N>>,
    best_finalized: Option<Commit<H, N, S, I>>,
}

impl<I, H, N, S> View for VotingRound<I, H, N, S> {
    type V = VotingRoundView<I, H, N, S>;

    closed spec fn view(&self) -> VotingRoundView<I, H, N, S> {
        VotingRoundView {
            voting: self.voting,
            votes: self.votes@,
            state: self.state,
            pending: self.pending,
            latest_finalized: self.latest_finalized,
            bridged_round_state: self.bridged_round_state,
            last_round_state: self.last_round_state,
            primary_block: self.primary_block,
            outgoing: self.outgoing@,
            best_finalized: commit_view(self.best_finalized),
        }
    }
}

impl<I, H, N: TargetNumber, S> VotingRound<I, H, N, S> {
    /// The round is well formed.
    pub closed spec fn well_formed(&self) -> bool {
        &&& self.votes.well_formed()
        &&& self@.well_formed()
    }

    /// What a well-formed round guarantees.
    pub proof fn lemma_well_formed(&self)
        requires
            self.well_formed(),
        ensures
            self@.well_formed(),
    {
    }
}

impl<I: Identity, H: Identity, N: TargetNumber, S: Identity> VotingRound<I, H, N, S> {
    /// Create a new voting round.
    ///
    /// The local voter proposes if it is the primary voter, votes if it is a voter,
    /// and otherwise only watches.
    pub fn new(
        round_number: u64,
        voters: VoterSet<I>,
        base: (H, N),
        last_round_state: Option<RoundState<H, N>>,
        voter_id: Option<I>,
    ) -> (r: Self)
        requires
            voters.well_formed(),
        ensures
            r.well_formed(),
            r@ == (VotingRoundView {
                voting: role(new_round::<I, H, N, S>(round_number, voters@, base), voter_id),
                votes: new_round::<I, H, N, S>(round_number, voters@, base),
                state: Some(State::Start),
                pending: None,
                latest_finalized: base,
                bridged_round_state: None,
                last_round_state,
                primary_block: None,
                outgoing: Seq::empty(),
                best_finalized: None,
            }),
    {
        let latest_finalized = base.duplicate();
        let votes: Round<I, H, N, S> = Round::new(RoundParams { round_number, voters, base });
        let voting = match &voter_id {
            None => Voting::No,
            Some(id) => if id.same(votes.primary_voter().0) {
                Voting::Primary
            } else if votes.voters().contains(id) {
                Voting::Yes
            } else {
                Voting::No
            },
        };
        proof {
            votes.lemma_well_formed();
        }
        let r = VotingRound {
            voting,
            votes,
            state: Some(State::Start),
            pending: None,
            latest_finalized,
            bridged_round_state: None,
            last_round_state,
            primary_block: None,
            outgoing: Vec::new(),
            best_finalized: None,
        };
        assert(r@.outgoing =~= Seq::empty());
        r
    }

    /// Create a voting round from a completed [`Round`]. We will not vote further
    /// in this round.
    pub fn completed(
        votes: Round<I, H, N, S>,
        last_round_state: Option<RoundState<H, N>>,
    ) -> (r: Self)
        requires
            votes.well_formed(),
        ensures
            r.well_formed(),
            r@ == (VotingRoundView {
                voting: Voting::No,
                votes: votes@,
                state: None,
                pending: None,
                latest_finalized: votes@.base,
                bridged_round_state: None,
                last_round_state,
                primary_block: None,
                outgoing: Seq::empty(),
                best_finalized: None,
            }),
    {
        let latest_finalized = votes.base();
        proof {
            votes.lemma_well_formed();
        }
        let r = VotingRound {
            voting: Voting::No,
            votes,
            state: None,
            pending: None,
            latest_finalized,
            bridged_round_state: None,
            last_round_state,
            primary_block: None,
            outgoing: Vec::new(),
            best_finalized: None,
        };
        assert(r@.outgoing =~= Seq::empty());
        r
    }

    /// Supply the latest target durably finalized by the outer voter.
    pub fn note_finalized(&mut self, finalized: (H, N))
        requires
            old(self).well_formed(),
        ensures
            final(self).well_formed(),
            final(self)@ == (VotingRoundView {
                latest_finalized: if finalized.1.value() > old(self)@.latest_finalized.1.value() {
                    finalized
                } else {
                    old(self)@.latest_finalized
                },
                ..old(self)@
            }),
    {
        if finalized.1.to_u64() > self.latest_finalized.1.to_u64() {
            self.latest_finalized = finalized;
        }
    }

    /// Supply the current state of the prior round. A round that was started
    /// without access to the prior round stays without.
    pub fn note_last_round_state(&mut self, last_round_state: RoundState<H, N>)
        requires
            old(self).well_formed(),
        ensures
            final(self).well_formed(),
            final(self)@ == (VotingRoundView {
                last_round_state: match old(self)@.last_round_state {
                    Some(_) => Some(last_round_state),
                    None => None,
                },
                ..old(self)@
            }),
    {
        if self.last_round_state.is_some() {
            self.last_round_state = Some(last_round_state);
        }
    }

    /// Stop creating local votes when a verified catch-up skips this round.
    ///
    /// This also cancels any pending best-chain query, timer or unrecorded message.
    /// The votes are kept, so the background round can still receive votes and
    /// process existing finality proofs.
    pub fn stop_voting(&mut self)
        requires
            old(self).well_formed(),
        ensures
            final(self).well_formed(),
            final(self)@ == (VotingRoundView { pending: None, ..old(self)@.stopped() }),
    {
        self.voting = Voting::No;
        self.state = None;
        self.pending = None;
    }

    /// Inspect the state of this round.
    pub fn state(&self) -> (r: Option<&State<H, N>>)
        ensures
            match r {
                Some(state) => self@.state == Some(*state),
                None => self@.state is None,
            },
    {
        self.state.as_ref()
    }

    /// Whether and how we vote in this round.
    pub fn voting(&self) -> (r: Voting)
        ensures
            r == self@.voting,
    {
        self.voting
    }

    /// The message that waits for being recorded.
    pub fn pending(&self) -> (r: Option<&Message<H, N>>)
        ensures
            match r {
                Some(message) => self@.pending == Some(*message),
                None => self@.pending is None,
            },
    {
        self.pending.as_ref()
    }

    /// The state of the prior round. We only cast votes when we have access to it:
    /// a round may have been started as a prospect to check whether we lag behind.
    pub fn last_round_state(&self) -> (r: Option<RoundState<H, N>>)
        ensures
            r == self@.last_round_state,
    {
        duplicate_option(&self.last_round_state)
    }

    /// The target that the primary hinted at.
    pub fn primary_block(&self) -> (r: Option<(H, N)>)
        ensures
            r == self@.primary_block,
    {
        duplicate_option(&self.primary_block)
    }

    /// The number of the round.
    pub fn round_number(&self) -> (r: u64)
        ensures
            r == self@.votes.number,
    {
        self.votes.number()
    }

    /// The state of the round.
    pub fn round_state(&self) -> (r: RoundState<H, N>)
        requires
            self.well_formed(),
        ensures
            r == self@.votes.state(),
    {
        self.votes.state()
    }

    /// The base of the round.
    pub fn dag_base(&self) -> (r: (H, N))
        ensures
            r == self@.votes.base,
    {
        self.votes.base()
    }

    /// The voters in this round.
    pub fn voters(&self) -> (r: &VoterSet<I>)
        requires
            self.well_formed(),
        ensures
            r@ == self@.votes.voters,
            r.well_formed(),
    {
        self.votes.voters()
    }

    /// The best target finalized in this round.
    pub fn finalized(&self) -> (r: Option<(H, N)>)
        requires
            self.well_formed(),
        ensures
            r == self@.votes.state().finalized,
    {
        self.votes.finalized()
    }

    /// The current total weight of prevotes.
    pub fn prevote_weight(&self) -> (r: VoteWeight)
        requires
            self.well_formed(),
        ensures
            r.0 == cast(self@.votes.voters, self@.votes.prevotes),
    {
        self.votes.prevote_participation().0
    }

    /// The current total weight of precommits.
    pub fn precommit_weight(&self) -> (r: VoteWeight)
        requires
            self.well_formed(),
        ensures
            r.0 == cast(self@.votes.voters, self@.votes.precommits),
    {
        self.votes.precommit_participation().0
    }

    /// The identities of the prevoters.
    pub fn prevote_ids(&self) -> (r: Vec<I>)
        requires
            self.well_formed(),
        ensures
            r@ == self@.votes.senders(self@.votes.prevotes),
    {
        self.votes.prevote_ids()
    }

    /// The identities of the precommitters.
    pub fn precommit_ids(&self) -> (r: Vec<I>)
        requires
            self.well_formed(),
        ensures
            r@ == self@.votes.senders(self@.votes.precommits),
    {
        self.votes.precommit_ids()
    }

    /// The votes of the round.
    pub fn votes(&self) -> (r: &Round<I, H, N, S>)
        requires
            self.well_formed(),
        ensures
            r@ == self@.votes,
            r.well_formed(),
    {
        &self.votes
    }

    /// Check a commit. If it is valid, import all the votes into the round as well.
    /// Returns the finalized target if it checks out.
    pub fn check_and_import_from_commit<C: Chain<H, N>>(
        &mut self,
        chain: &C,
        commit: &Commit<H, N, S, I>,
    ) -> (r: CommitImport<H, N, S, I>)
        requires
            old(self).well_formed(),
            chain.consistent(),
        ensures
            final(self).well_formed(),
            ({
                let list = commit@.precommits;
                let done = import_list(old(self)@.votes, *chain, list, list.len());
                if is_valid_commit(commit@, old(self)@.votes.voters, *chain) {
                    &&& final(self)@ == (VotingRoundView { votes: done.round, ..old(self)@ })
                    &&& r.equivocations@ == done.equivocations
                    &&& r.finalized == match done.failure {
                        Some(e) => Err::<Option<(H, N)>, Error>(e),
                        None => Ok(Some((commit.target_hash, commit.target_number))),
                    }
                } else {
                    &&& final(self)@ == old(self)@
                    &&& r.equivocations@ == Seq::<Equivocation<I, Precommit<H, N>, S>>::empty()
                    &&& r.finalized == Ok::<Option<(H, N)>, Error>(None)
                }
            }),
    {
        let mut equivocations: Vec<Equivocation<I, Precommit<H, N>, S>> = Vec::new();
        assert(equivocations@ =~= Seq::empty());
        let valid = match validate_commit(commit, self.votes.voters(), chain) {
            Ok(found) => found.is_valid(),
            Err(e) => {
                return CommitImport { finalized: Err(e), equivocations };
            },
        };
        if !valid {
            return CommitImport { finalized: Ok(None), equivocations };
        }
        let ghost before = self@;
        let list = &commit.precommits;
        let mut k: usize = 0;
        while k < list.len()
            invariant
                self.well_formed(),
                chain.consistent(),
                list == &commit.precommits,
                k <= list.len(),
                import_list(before.votes, *chain, list@, k as nat) == (ImportedList {
                    round: self@.votes,
                    failure: None,
                    equivocations: equivocations@,
                }),
                self@ == (VotingRoundView { votes: self@.votes, ..before }),
                before == old(self)@,
                before.pending is Some ==> before.state is None,
                is_valid_commit(commit@, before.votes.voters, *chain),
            decreases list.len() - k,
        {
            let signed = &list[k];
            match self.votes.import_precommit(
                chain,
                signed.precommit.duplicate(),
                signed.id.duplicate(),
                signed.signature.duplicate(),
            ) {
                Ok(report) => {
                    if let Some(e) = report.equivocation {
                        equivocations.push(e);
                    }
                },
                Err(e) => {
                    proof {
                        self.votes.lemma_well_formed();
                        lemma_failure_persists(
                            before.votes,
                            *chain,
                            list@,
                            (k + 1) as nat,
                            list@.len(),
                        );
                        assert(self@ =~= (VotingRoundView { votes: self@.votes, ..before }));
                    }
                    return CommitImport { finalized: Err(e), equivocations };
                },
            }
            proof {
                self.votes.lemma_well_formed();
            }
            assert(self@ =~= (VotingRoundView { votes: self@.votes, ..before }));
            k += 1;
        }
        CommitImport {
            finalized: Ok(Some((commit.target_hash.duplicate(), commit.target_number.duplicate()))),
            equivocations,
        }
    }

    /// Hand the state of this round to the round built on top of it. Later changes
    /// of the state are kept for it, see [`Self::bridged_round_state`].
    pub fn bridge_state(&mut self) -> (r: RoundState<H, N>)
        requires
            old(self).well_formed(),
        ensures
            final(self).well_formed(),
            r == old(self)@.votes.state(),
            final(self)@ == (VotingRoundView { bridged_round_state: Some(r), ..old(self)@ }),
    {
        let state = self.votes.state();
        self.bridged_round_state = Some(state.duplicate());
        state
    }

    /// The state last handed to the later round.
    pub fn bridged_round_state(&self) -> (r: Option<&RoundState<H, N>>)
        ensures
            match r {
                Some(state) => self@.bridged_round_state == Some(*state),
                None => self@.bridged_round_state is None,
            },
    {
        self.bridged_round_state.as_ref()
    }

    /// Get a commit justifying the best finalized target.
    pub fn finalizing_commit(&self) -> (r: Option<&Commit<H, N, S, I>>)
        ensures
            match r {
                Some(commit) => self@.best_finalized == Some(commit@),
                None => self@.best_finalized is None,
            },
    {
        self.best_finalized.as_ref()
    }

    /// Return all votes for the round (prevotes and precommits), sorted by
    /// imported order and indicating the indices where we voted. At most two
    /// prevotes and two precommits per voter are present, further equivocations
    /// are not stored (as they are redundant).
    pub fn historical_votes(&self) -> (r: &HistoricalVotes<H, N, S, I>)
        ensures
            r@ == self@.votes.history,
    {
        self.votes.historical_votes()
    }

    /// Take the first message that is to be sent.
    pub fn next_outgoing(&mut self) -> (r: Option<Message<H, N>>)
        requires
            old(self).well_formed(),
        ensures
            final(self).well_formed(),
            if old(self)@.outgoing.len() == 0 {
                r is None && final(self)@ == old(self)@
            } else {
                &&& r == Some(old(self)@.outgoing[0])
                &&& final(self)@ == (VotingRoundView {
                    outgoing: old(self)@.outgoing.drop_first(),
                    ..old(self)@
                })
            },
    {
        if self.outgoing.len() == 0 {
            None
        } else {
            let message = self.outgoing.remove(0);
            assert(self.outgoing@ =~= old(self)@.outgoing.drop_first());
            Some(message)
        }
    }

    /// Handle a vote manually.
    ///
    /// A message for a target that is unknown, has another view, or does not descend
    /// from the base of the round is ignored. Only the primary's hint counts.
    pub fn handle_vote<C: Chain<H, N>>(
        &mut self,
        chain: &C,
        vote: SignedMessage<H, N, S, I>,
    ) -> (r: Result<Option<Misbehaviour<I, H, N, S>>, Error>)
        requires
            old(self).well_formed(),
            chain.consistent(),
        ensures
            final(self).well_formed(),
            r == old(self)@.message_report(*chain, vote),
            final(self)@ == old(self)@.after_message(*chain, vote),
    {
        let ghost before = self@;
        let SignedMessage { message, signature, id } = vote;
        if !is_known_target(chain, message.target().0, message.target().1) {
            return Ok(None);
        }
        if !chain.is_equal_or_descendent_of(self.votes.base().0, message.target().0.duplicate()) {
            return Ok(None);
        }
        match message {
            Message::Prevote(prevote) => {
                let imported = self.votes.import_prevote(chain, prevote, id, signature);
                proof {
                    self.votes.lemma_well_formed();
                    assert(self@ =~= before.after_message(*chain, vote));
                }
                match imported {
                    Ok(report) => match report.equivocation {
                        Some(e) => Ok(Some(Misbehaviour::Prevote(e))),
                        None => Ok(None),
                    },
                    Err(e) => Err(e),
                }
            },
            Message::Precommit(precommit) => {
                let imported = self.votes.import_precommit(chain, precommit, id, signature);
                proof {
                    self.votes.lemma_well_formed();
                    assert(self@ =~= before.after_message(*chain, vote));
                }
                match imported {
                    Ok(report) => match report.equivocation {
                        Some(e) => Ok(Some(Misbehaviour::Precommit(e))),
                        None => Ok(None),
                    },
                    Err(e) => Err(e),
                }
            },
            Message::PrimaryPropose(primary) => {
                // The identity is the one of the sender, not of the receiver.
                if id.same(self.votes.primary_voter().0) {
                    self.primary_block = Some((primary.target_hash, primary.target_number));
                }
                Ok(None)
            },
        }
    }

    /// Decide whether to send the primary's hint.
    ///
    /// The hint has to be recorded before it is sent: see [`Self::record_vote`].
    pub fn primary_propose(&mut self, last_round_state: &RoundState<H, N>) -> (r: Option<
        PrimaryPropose<H, N>,
    >)
        requires
            old(self).well_formed(),
        ensures
            final(self).well_formed(),
            r == old(self)@.proposal(*last_round_state),
            final(self)@ == match r {
                Some(hint) => old(self)@.awaiting(Message::PrimaryPropose(hint)),
                None => old(self)@,
            },
    {
        match &self.state {
            Some(State::Start) => {},
            _ => {
                return None;
            },
        }
        if !self.voting.is_primary() {
            return None;
        }
        match &last_round_state.estimate {
            Some(estimate) => {
                let should_send = match &last_round_state.finalized {
                    Some(finalized) => estimate.1.to_u64() > finalized.1.to_u64(),
                    None => true,
                };
                if !should_send {
                    return None;
                }
                let primary = PrimaryPropose {
                    target_hash: estimate.0.duplicate(),
                    target_number: estimate.1.duplicate(),
                };
                self.state = None;
                self.pending = Some(Message::PrimaryPropose(primary.duplicate()));
                Some(primary)
            },
            None => None,
        }
    }

    /// Go on after the pending message was recorded: it is queued for sending.
    pub fn record_vote(&mut self)
        requires
            old(self).well_formed(),
        ensures
            final(self).well_formed(),
            final(self)@ == old(self)@.recorded(),
    {
        let ghost before = self@;
        let message = match self.pending.take() {
            Some(message) => message,
            None => {
                assert(self@ =~= before);
                return;
            },
        };
        match &message {
            Message::PrimaryPropose(_) => {
                self.state = Some(State::Proposed);
            },
            Message::Prevote(_) => {
                self.votes.set_prevoted_index();
                self.state = Some(State::Prevoted);
            },
            Message::Precommit(_) => {
                self.votes.set_precommitted_index();
                self.state = Some(State::Precommitted);
            },
        }
        self.outgoing.push(message);
        proof {
            self.votes.lemma_well_formed();
        }
        assert(self@ =~= before.recorded());
    }

    /// Give up the pending message, because recording it failed: it is never sent.
    pub fn abandon_vote(&mut self)
        requires
            old(self).well_formed(),
        ensures
            final(self).well_formed(),
            final(self)@ == old(self)@.abandoned(),
    {
        self.pending = None;
    }

    /// Try to cast the next message of ours.
    ///
    /// We only cast votes when we have access to the state of the prior round: a
    /// round that was started without it attempts nothing. A message has to be
    /// recorded before it is sent: see [`Self::record_vote`] and
    /// [`Self::abandon_vote`].
    pub fn step<C: Chain<H, N>, E>(&mut self, chain: &C, attempt: Attempt<H, N, E>) -> (r: Result<
        Step<H, N>,
        Failure<E>,
    >)
        requires
            old(self).well_formed(),
            chain.consistent(),
            old(self)@.can_attempt(attempt),
        ensures
            final(self).well_formed(),
            (final(self)@, r) == old(self)@.stepping(*chain, attempt),
            old(self)@.last_round_state is None ==> final(self)@ == old(self)@ && r == Ok::<
                Step<H, N>,
                Failure<E>,
            >(Step::Wait),
    {
        let last = match self.last_round_state() {
            Some(last) => last,
            None => {
                return Ok(Step::Wait);
            },
        };
        match attempt {
            Attempt::Propose => match self.primary_propose(&last) {
                Some(hint) => Ok(Step::Record(Message::PrimaryPropose(hint))),
                None => Ok(Step::Wait),
            },
            Attempt::Prevote(timer, best_chain) => {
                match self.prevote(chain, &last, timer, best_chain) {
                    Ok(PrevoteAction::Wait) => Ok(Step::Wait),
                    Ok(PrevoteAction::Query(base)) => Ok(Step::Query(base)),
                    Ok(PrevoteAction::Cast(prevote)) => Ok(Step::Record(Message::Prevote(prevote))),
                    Err(e) => Err(e),
                }
            },
            Attempt::Precommit(timer) => match self.precommit(chain, &last, timer) {
                Ok(Some(precommit)) => Ok(Step::Record(Message::Precommit(precommit))),
                Ok(None) => Ok(Step::Wait),
                Err(e) => Err(e),
            },
        }
    }

    /// The target that our prevote must descend from.
    fn construct_prevote<C: Chain<H, N>>(
        &self,
        chain: &C,
        last_round_state: &RoundState<H, N>,
    ) -> (r: H)
        requires
            chain.consistent(),
            self@.has_anchor(*last_round_state),
        ensures
            r == self@.anchor(*chain, *last_round_state),
    {
        let estimate = last_round_state.estimate.as_ref().unwrap();
        match &self.primary_block {
            None => estimate.0.duplicate(),
            Some(hint) => {
                // The hint counts if and only if the prior round's prevote-ghost
                // included it and it is a strict descendant of the estimate.
                let top = last_round_state.prevote_ghost.as_ref().unwrap();
                if hint.same(top) {
                    hint.0.duplicate()
                } else if hint.1.to_u64() >= top.1.to_u64() {
                    estimate.0.duplicate()
                } else {
                    match chain.ancestry(estimate.0.duplicate(), top.0.duplicate()) {
                        Ok(ancestry) => {
                            let offset: u64 = top.1.to_u64() - hint.1.to_u64() - 1;
                            if offset < ancestry.len() as u64 && ancestry[offset as usize].same(
                                &hint.0,
                            ) {
                                hint.0.duplicate()
                            } else {
                                estimate.0.duplicate()
                            }
                        },
                        // Only possible in case of massive equivocation.
                        Err(_) => estimate.0.duplicate(),
                    }
                }
            },
        }
    }

    /// Decide whether to prevote, and for what.
    ///
    /// `timer` is looked at before the prevote, `best_chain` while the best chain is
    /// being looked up. The prevote has to be recorded before it is sent: see
    /// [`Self::record_vote`].
    pub fn prevote<C: Chain<H, N>, E>(
        &mut self,
        chain: &C,
        last_round_state: &RoundState<H, N>,
        timer: Signal<(), E>,
        best_chain: Signal<Option<VoteTarget<H, N>>, E>,
    ) -> (r: Result<PrevoteAction<H, N>, Failure<E>>)
        requires
            old(self).well_formed(),
            chain.consistent(),
            old(self)@.starts_prevoting(timer) && !(old(self)@.voting is No) ==> old(
                self,
            )@.has_anchor(*last_round_state),
        ensures
            final(self).well_formed(),
            (final(self)@, r) == old(self)@.prevoting(*chain, *last_round_state, timer, best_chain),
    {
        match &self.state {
            Some(State::Start) | Some(State::Proposed) => self.start_prevoting(
                chain,
                last_round_state,
                timer,
            ),
            Some(State::Prevoting(_, _)) => self.finish_prevoting(chain, best_chain),
            _ => Ok(PrevoteAction::Wait),
        }
    }

    /// Look up what to prevote for once the timer allows it.
    fn start_prevoting<C: Chain<H, N>, E>(
        &mut self,
        chain: &C,
        last_round_state: &RoundState<H, N>,
        timer: Signal<(), E>,
    ) -> (r: Result<PrevoteAction<H, N>, Failure<E>>)
        requires
            old(self).well_formed(),
            old(self)@.before_prevote(),
            chain.consistent(),
            old(self)@.starts_prevoting(timer) && !(old(self)@.voting is No) ==> old(
                self,
            )@.has_anchor(*last_round_state),
        ensures
            final(self).well_formed(),
            (final(self)@, r) == old(self)@.start_prevoting(*chain, *last_round_state, timer),
    {
        let should_prevote = match timer {
            Signal::Failed(e) => {
                self.state = None;
                return Err(Failure::Host(e));
            },
            Signal::Ready(_) => true,
            Signal::Pending => self.votes.completable(),
        };
        if !should_prevote {
            return Ok(PrevoteAction::Wait);
        }
        if !self.voting.is_active() {
            self.state = Some(State::Prevoted);
            return Ok(PrevoteAction::Wait);
        }
        let base = self.construct_prevote(chain, last_round_state);
        self.state = Some(
            State::Prevoting(base.duplicate(), self.latest_finalized.duplicate()),
        );
        Ok(PrevoteAction::Query(base))
    }

    /// Prevote for the best chain once it is there.
    fn finish_prevoting<C: Chain<H, N>, E>(
        &mut self,
        chain: &C,
        best_chain: Signal<Option<VoteTarget<H, N>>, E>,
    ) -> (r: Result<PrevoteAction<H, N>, Failure<E>>)
        requires
            old(self).well_formed(),
            chain.consistent(),
            old(self)@.state matches Some(State::Prevoting(_, _)),
        ensures
            final(self).well_formed(),
            old(self)@.state matches Some(State::Prevoting(base, observed)) && (final(self)@, r)
                == old(self)@.finish_prevoting(*chain, base, observed, best_chain),
    {
        let found = match best_chain {
            Signal::Pending => {
                return Ok(PrevoteAction::Wait);
            },
            Signal::Failed(e) => {
                self.state = None;
                return Err(Failure::Host(e));
            },
            Signal::Ready(found) => found,
        };
        let (base, observed) = match self.state.take() {
            Some(State::Prevoting(base, observed)) => (base, observed),
            _ => {
                return Ok(PrevoteAction::Wait);
            },
        };
        let target = match found {
            Some(target) => target,
            None => {
                // Something has gone wrong: the base is not usable any more. When we
                // cannot construct a prevote, we should not precommit.
                self.voting = Voting::No;
                return Ok(PrevoteAction::Wait);
            },
        };
        let hash = target.target().0.duplicate();
        if !same_option(&chain.vote_target(hash.duplicate()), &Some(target.duplicate())) {
            return Err(Failure::Refused(Error::InvalidTarget));
        }
        if !chain.is_equal_or_descendent_of(base.duplicate(), hash.duplicate()) {
            return Err(Failure::Refused(Error::NotDescendent));
        }
        if !chain.is_equal_or_descendent_of(self.latest_finalized.0.duplicate(), hash.duplicate()) {
            if self.latest_finalized.same(&observed) {
                return Err(Failure::Refused(Error::NotDescendent));
            }
            if chain.is_equal_or_descendent_of(base, self.latest_finalized.0.duplicate()) {
                // The query completed using an old choice of fork. Repeat it from the
                // new finalized descendant.
                let base = self.latest_finalized.0.duplicate();
                self.state = Some(
                    State::Prevoting(base.duplicate(), self.latest_finalized.duplicate()),
                );
                return Ok(PrevoteAction::Query(base));
            }
            self.voting = Voting::No;
            return Ok(PrevoteAction::Wait);
        }
        let (target_hash, target_number) = target.into_target();
        let prevote = Prevote { target_hash, target_number };
        self.pending = Some(Message::Prevote(prevote.duplicate()));
        Ok(PrevoteAction::Cast(prevote))
    }

    /// Whether only the timer keeps us from precommitting. Otherwise the precommit
    /// timer is not looked at.
    pub fn awaits_precommit_timer<C: Chain<H, N>>(
        &self,
        chain: &C,
        last_round_state: &RoundState<H, N>,
    ) -> (r: bool)
        requires
            self.well_formed(),
            chain.consistent(),
            self@.state == Some(State::<H, N>::Prevoted) ==> last_round_state.estimate is Some,
        ensures
            r == self@.unblocked(*chain, *last_round_state),
    {
        match &self.state {
            Some(State::Prevoted) => {},
            _ => {
                return false;
            },
        }
        let estimate = last_round_state.estimate.as_ref().unwrap();
        match self.votes.state().prevote_ghost {
            Some(top) => top.same(estimate) || chain.is_equal_or_descendent_of(
                estimate.0.duplicate(),
                top.0.duplicate(),
            ),
            None => false,
        }
    }

    /// Decide whether to precommit: we wait for the prior round's estimate to be
    /// equal to or the ancestor of the current round's prevote-ghost, and for the
    /// timer unless the round is completable.
    ///
    /// The precommit has to be recorded before it is sent: see
    /// [`Self::record_vote`].
    pub fn precommit<C: Chain<H, N>, E>(
        &mut self,
        chain: &C,
        last_round_state: &RoundState<H, N>,
        timer: Signal<(), E>,
    ) -> (r: Result<Option<Precommit<H, N>>, Failure<E>>)
        requires
            old(self).well_formed(),
            chain.consistent(),
            old(self)@.state == Some(State::<H, N>::Prevoted) ==> last_round_state.estimate is Some,
        ensures
            final(self).well_formed(),
            (final(self)@, r) == old(self)@.precommitting(*chain, *last_round_state, timer),
    {
        if !self.awaits_precommit_timer(chain, last_round_state) {
            return Ok(None);
        }
        let should_precommit = match timer {
            Signal::Failed(e) => {
                self.state = None;
                return Err(Failure::Host(e));
            },
            Signal::Ready(_) => true,
            Signal::Pending => self.votes.completable(),
        };
        if !should_precommit {
            return Ok(None);
        }
        if !self.voting.is_active() {
            self.state = Some(State::Precommitted);
            return Ok(None);
        }
        let precommit = self.construct_precommit();
        self.state = None;
        self.pending = Some(Message::Precommit(precommit.duplicate()));
        Ok(Some(precommit))
    }

    /// Our precommit: the prevote-ghost, or the base if there is none.
    fn construct_precommit(&self) -> (r: Precommit<H, N>)
        requires
            self.well_formed(),
        ensures
            r == self@.own_precommit(),
    {
        let target = match self.votes.state().prevote_ghost {
            Some(target) => target,
            None => self.votes.base(),
        };
        Precommit { target_hash: target.0, target_number: target.1 }
    }

    /// Tell the later round about a changed state, and announce what was finalized.
    ///
    /// What was finalized is announced only when the round is completable and we
    /// have cast our votes, so that a voter that is started again after a shutdown
    /// never creates the same round again on a base that was finalized in it.
    fn notify(
        &mut self,
        last_state: RoundState<H, N>,
        new_state: RoundState<H, N>,
    ) -> (r: Option<FinalizedNotification<H, N, S, I>>)
        requires
            old(self).well_formed(),
            new_state == old(self)@.votes.state(),
        ensures
            final(self).well_formed(),
            final(self)@ == old(self)@.notified(last_state),
            match r {
                Some(notification) => old(self)@.announces(last_state) && notification.is_about(
                    old(self)@,
                ),
                None => !old(self)@.announces(last_state),
            },
    {
        let ghost before = self@;
        if !last_state.same(&new_state) && self.bridged_round_state.is_some() {
            self.bridged_round_state = Some(new_state.duplicate());
        }
        let state_changed = !same_option(&last_state.finalized, &new_state.finalized);
        let sent_finality_notifications = self.best_finalized.is_some();
        if !(new_state.completable && (state_changed || !sent_finality_notifications)) {
            assert(self@ =~= before.notified(last_state));
            return None;
        }
        let precommitted = match &self.state {
            Some(State::Precommitted) => true,
            _ => false,
        };
        // We only cast votes when we have access to the previous round state, which
        // is not the case whenever we catch up to a later round.
        let cant_vote = self.last_round_state.is_none();
        if !(precommitted || cant_vote) {
            assert(self@ =~= before.notified(last_state));
            return None;
        }
        let (hash, number) = match new_state.finalized {
            Some(finalized) => finalized,
            None => {
                assert(self@ =~= before.notified(last_state));
                return None;
            },
        };
        let commit = Commit {
            target_hash: hash.duplicate(),
            target_number: number.duplicate(),
            precommits: self.votes.finalizing_precommits().unwrap(),
        };
        self.best_finalized = Some(commit.duplicate());
        assert(commit@ =~= before.commit());
        assert(self@ =~= before.notified(last_state));
        Some(FinalizedNotification { hash, number, round_number: self.votes.number(), commit })
    }

    /// Conclude a poll of the round after votes were cast and messages were sent:
    /// announce what was finalized since `pre_state`, and say whether the round is
    /// complete. While messages wait for being sent, nothing is concluded.
    pub fn poll(&mut self, pre_state: RoundState<H, N>) -> (r: RoundPoll<H, N, S, I>)
        requires
            old(self).well_formed(),
        ensures
            final(self).well_formed(),
            if old(self)@.outgoing.len() > 0 {
                &&& final(self)@ == old(self)@
                &&& !r.ready
                &&& r.finalized is None
            } else {
                &&& final(self)@ == old(self)@.notified(pre_state)
                &&& r.ready == old(self)@.is_complete()
                &&& match r.finalized {
                    Some(notification) => old(self)@.announces(pre_state) && notification.is_about(
                        old(self)@,
                    ),
                    None => !old(self)@.announces(pre_state),
                }
            },
    {
        if self.outgoing.len() > 0 {
            return RoundPoll { ready: false, finalized: None };
        }
        let finalized = self.notify(pre_state, self.votes.state());
        if !self.votes.completable() {
            return RoundPoll { ready: false, finalized };
        }
        // The estimate of the previous round must be finalized, either there or here.
        let estimate_finalized = match &self.last_round_state {
            Some(last) => match (&last.estimate, &last.finalized) {
                (Some(estimate), Some(there)) => estimate.1.to_u64() <= there.1.to_u64() || (
                match self.votes.finalized() {
                    Some(here) => estimate.1.to_u64() <= here.1.to_u64(),
                    None => false,
                }),
                _ => false,
            },
            None => true,
        };
        RoundPoll { ready: estimate_finalized, finalized }
    }
}

/// An error among the first precommits ends the import of the whole list.
proof fn lemma_failure_persists<I, H, N: TargetNumber, S, C: Chain<H, N>>(
    round: RoundView<I, H, N, S>,
    chain: C,
    list: Seq<SignedPrecommit<H, N, S, I>>,
    m: nat,
    n: nat,
)
    requires
        m <= n,
        import_list(round, chain, list, m).failure is Some,
    ensures
        import_list(round, chain, list, n) == import_list(round, chain, list, m),
    decreases n,
{
    if m < n {
        lemma_failure_persists(round, chain, list, m, (n - 1) as nat);
    }
}

} // verus!
