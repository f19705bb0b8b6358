//! One voter in one round.

use finality_grandpa::chain::{Chain, Error, VoteTarget};
use finality_grandpa::ident::Identity;
use finality_grandpa::messages::{
    Message, Precommit, Prevote, PrimaryPropose, RoundState, SignedMessage,
};
use finality_grandpa::round::{Round, RoundParams};
use finality_grandpa::voter_set::{VoteWeight, VoterSet};
use finality_grandpa::voting_round::{
    Attempt, Failure, Misbehaviour, PrevoteAction, Signal, State, Step, Voting, VotingRound,
};

#[derive(Clone, Copy, Debug, PartialEq, Eq)]
struct Id(u32);

impl Identity for Id {
    fn same(&self, other: &Self) -> bool {
        self == other
    }

    fn duplicate(&self) -> Self {
        *self
    }
}

#[derive(Clone, Copy, Debug, PartialEq, Eq)]
struct Signature(u32);

impl Identity for Signature {
    fn same(&self, other: &Self) -> bool {
        self == other
    }

    fn duplicate(&self) -> Self {
        *self
    }
}

#[derive(Clone, Copy, Debug, PartialEq, Eq)]
struct Name(&'static str);

impl Identity for Name {
    fn same(&self, other: &Self) -> bool {
        self == other
    }

    fn duplicate(&self) -> Self {
        *self
    }
}

const GENESIS_HASH: Name = Name("genesis");
const A: Name = Name("A");
const B: Name = Name("B");
const C: Name = Name("C");
const X: Name = Name("X");
const Y: Name = Name("Y");
const Z: Name = Name("Z");

/// Blocks with their parents and numbers; the genesis block has number one.
struct TestChain {
    blocks: Vec<(Name, Name, u32)>,
}

impl TestChain {
    fn new() -> Self {
        TestChain { blocks: vec![(GENESIS_HASH, GENESIS_HASH, 1)] }
    }

    fn find(&self, hash: Name) -> Option<(Name, u32)> {
        self.blocks.iter().find(|block| block.0 == hash).map(|block| (block.1, block.2))
    }

    fn push_blocks(&mut self, parent: Name, blocks: &[Name]) {
        let mut parent = parent;
        for block in blocks {
            let number = self.find(parent).unwrap().1 + 1;
            self.blocks.push((*block, parent, number));
            parent = *block;
        }
    }
}

impl Chain<Name, u32> for TestChain {
    fn vote_target(&self, hash: Name) -> Option<VoteTarget<Name, u32>> {
        self.find(hash).map(|(_, number)| VoteTarget::Block(hash, number))
    }

    fn ancestry(&self, base: Name, block: Name) -> Result<Vec<Name>, Error> {
        let mut ancestry = Vec::new();
        let mut cursor = block;
        while cursor != base {
            let parent = match self.find(cursor) {
                Some((parent, _)) if parent != cursor => parent,
                _ => return Err(Error::NotDescendent),
            };
            if parent != base {
                ancestry.push(parent);
            }
            cursor = parent;
        }
        Ok(ancestry)
    }

    fn is_equal_or_descendent_of(&self, base: Name, block: Name) -> bool {
        self.ancestry(base, block).is_ok()
    }
}

type TestRound = VotingRound<Id, Name, u32, Signature>;

fn round() -> (TestChain, TestRound) {
    let mut chain = TestChain::new();
    chain.push_blocks(GENESIS_HASH, &[A, B, C]);
    let round = VotingRound::new(
        1,
        VoterSet::new(vec![(Id(0), 1)]).unwrap(),
        (GENESIS_HASH, 1),
        None,
        Some(Id(0)),
    );
    (chain, round)
}

/// Look up the best chain containing `base`, as of genesis finality.
fn start_query(chain: &TestChain, round: &mut TestRound, base: (Name, u32)) {
    let timer: Signal<(), Error> = Signal::Ready(());
    assert_eq!(
        round.prevote(chain, &RoundState::genesis(base), timer, Signal::Pending),
        Ok(PrevoteAction::Query(base.0))
    );
    assert_eq!(round.state(), Some(&State::Prevoting(base.0, (GENESIS_HASH, 1))));
}

/// Hand the result of the query to the round.
fn answer(
    chain: &TestChain,
    round: &mut TestRound,
    target: VoteTarget<Name, u32>,
) -> Result<PrevoteAction<Name, u32>, Failure<Error>> {
    let previous = RoundState::genesis((GENESIS_HASH, 1));
    round.prevote(chain, &previous, Signal::Pending, Signal::Ready(Some(target)))
}

#[test]
fn local_prevote_rejects_incorrect_target_kind_and_view() {
    for candidate in [VoteTarget::ViewTimeout(A, 2), VoteTarget::Block(A, 99)] {
        let (chain, mut round) = round();
        start_query(&chain, &mut round, (GENESIS_HASH, 1));
        assert_eq!(
            answer(&chain, &mut round, candidate),
            Err(Failure::Refused(Error::InvalidTarget))
        );
        assert_eq!(round.pending(), None);
        assert_eq!(round.next_outgoing(), None);
    }
}

#[test]
fn primary_and_votes_ignore_unknown_or_forged_target_pairs() {
    let (chain, mut round) = round();
    for message in [
        Message::PrimaryPropose(PrimaryPropose::new(A, 99)),
        Message::Prevote(Prevote::new(Name("unknown"), 99)),
        Message::Precommit(Precommit::new(A, 99)),
    ] {
        round
            .handle_vote(&chain, SignedMessage { message, signature: Signature(0), id: Id(0) })
            .unwrap();
    }
    assert_eq!(round.primary_block(), None);
    assert_eq!(round.prevote_weight(), VoteWeight(0));
    assert_eq!(round.precommit_weight(), VoteWeight(0));
    round
        .handle_vote(
            &chain,
            SignedMessage {
                message: Message::PrimaryPropose(PrimaryPropose::new(A, 2)),
                signature: Signature(0),
                id: Id(0),
            },
        )
        .unwrap();
    assert_eq!(round.primary_block(), Some((A, 2)));
}

#[test]
fn delayed_query_restarts_from_new_finality_before_voting() {
    let (chain, mut round) = round();
    start_query(&chain, &mut round, (GENESIS_HASH, 1));
    round.note_finalized((C, 4));
    assert_eq!(
        answer(&chain, &mut round, VoteTarget::Block(B, 3)),
        Ok(PrevoteAction::Query(C))
    );
    assert_eq!(round.next_outgoing(), None);
    assert!(matches!(round.state(), Some(State::Prevoting(Name("C"), (Name("C"), 4)))));
    assert_eq!(
        answer(&chain, &mut round, VoteTarget::Block(C, 4)),
        Ok(PrevoteAction::Cast(Prevote::new(C, 4)))
    );
    round.record_vote();
    assert!(matches!(round.state(), Some(State::Prevoted)));
    assert_eq!(round.next_outgoing(), Some(Message::Prevote(Prevote::new(C, 4))));
    assert_eq!(
        answer(&chain, &mut round, VoteTarget::Block(C, 4)),
        Ok(PrevoteAction::Wait)
    );
    assert_eq!(round.pending(), None);
    assert_eq!(round.next_outgoing(), None);
}

#[test]
fn delayed_query_stops_voting_if_its_anchor_conflicts_with_new_finality() {
    let (mut chain, mut round) = round();
    chain.push_blocks(GENESIS_HASH, &[X, Y, Z]);
    start_query(&chain, &mut round, (A, 2));
    round.note_finalized((Z, 4));
    assert_eq!(answer(&chain, &mut round, VoteTarget::Block(B, 3)), Ok(PrevoteAction::Wait));
    assert!(round.state().is_none());
    assert!(!round.voting().is_active());
    assert_eq!(round.pending(), None);
    assert_eq!(round.next_outgoing(), None);
}

fn say(message: Message<Name, u32>, id: u32) -> SignedMessage<Name, u32, Signature, Id> {
    SignedMessage { message, signature: Signature(id), id: Id(id) }
}

/// A round among four voters of which we are one.
fn round_of_four(
    number: u64,
    last: Option<RoundState<Name, u32>>,
    voter: Option<Id>,
) -> (TestChain, TestRound) {
    let mut chain = TestChain::new();
    chain.push_blocks(GENESIS_HASH, &[A, B, C]);
    let voters = VoterSet::new((0..4).map(|id| (Id(id), 1)).collect()).unwrap();
    let round = VotingRound::new(number, voters, (GENESIS_HASH, 1), last, voter);
    (chain, round)
}

fn established(
    prevote_ghost: (Name, u32),
    finalized: (Name, u32),
    estimate: (Name, u32),
) -> RoundState<Name, u32> {
    RoundState {
        prevote_ghost: Some(prevote_ghost),
        finalized: Some(finalized),
        estimate: Some(estimate),
        completable: true,
    }
}

#[test]
fn the_role_of_a_voter_follows_from_the_round_number() {
    for (number, id, voting) in [
        (0, Some(Id(0)), Voting::Primary),
        (5, Some(Id(1)), Voting::Primary),
        (5, Some(Id(0)), Voting::Yes),
        (5, Some(Id(9)), Voting::No),
        (5, None, Voting::No),
    ] {
        let (_, round) = round_of_four(number, None, id);
        assert_eq!(round.voting(), voting);
        assert_eq!(round.round_number(), number);
        assert_eq!(round.dag_base(), (GENESIS_HASH, 1));
        assert_eq!(round.voters().len(), 4);
    }
}

#[test]
fn the_primary_hints_at_an_estimate_that_is_not_final() {
    let last = established((B, 3), (GENESIS_HASH, 1), (A, 2));
    let (_, mut round) = round_of_four(4, Some(last.clone()), Some(Id(0)));
    assert_eq!(round.last_round_state(), Some(last.clone()));
    assert_eq!(round.primary_propose(&last), Some(PrimaryPropose::new(A, 2)));
    assert_eq!(round.state(), None);
    assert_eq!(round.next_outgoing(), None);
    round.record_vote();
    assert_eq!(round.state(), Some(&State::Proposed));
    assert_eq!(
        round.next_outgoing(),
        Some(Message::PrimaryPropose(PrimaryPropose::new(A, 2)))
    );
    assert_eq!(round.primary_propose(&last), None);

    let done = established((B, 3), (A, 2), (A, 2));
    let (_, mut round) = round_of_four(4, Some(done.clone()), Some(Id(0)));
    assert_eq!(round.primary_propose(&done), None);
    assert_eq!(round.state(), Some(&State::Start));

    let (_, mut round) = round_of_four(4, Some(last.clone()), Some(Id(1)));
    assert_eq!(round.primary_propose(&last), None);
    assert_eq!(round.state(), Some(&State::Start));

    let unsettled = RoundState { estimate: None, ..last };
    let (_, mut round) = round_of_four(4, Some(unsettled.clone()), Some(Id(0)));
    assert_eq!(round.primary_propose(&unsettled), None);
}

#[test]
fn a_hint_is_adopted_only_between_the_estimate_and_the_ghost() {
    for (hint, last, base) in [
        // Strictly between.
        (Some((B, 3)), established((C, 4), (GENESIS_HASH, 1), (A, 2)), B),
        // The ghost itself.
        (Some((C, 4)), established((C, 4), (GENESIS_HASH, 1), (A, 2)), C),
        // The estimate is not strictly above itself.
        (Some((A, 2)), established((C, 4), (GENESIS_HASH, 1), (A, 2)), A),
        // Above the ghost.
        (Some((C, 4)), established((B, 3), (GENESIS_HASH, 1), (A, 2)), A),
        // On another branch.
        (Some((Y, 3)), established((C, 4), (GENESIS_HASH, 1), (A, 2)), A),
        // The ghost does not descend from the estimate.
        (Some((Y, 3)), established((C, 4), (GENESIS_HASH, 1), (X, 2)), X),
        // No hint.
        (None, established((C, 4), (GENESIS_HASH, 1), (A, 2)), A),
    ] {
        let (mut chain, mut round) = round_of_four(4, Some(last.clone()), Some(Id(1)));
        chain.push_blocks(GENESIS_HASH, &[X, Y, Z]);
        if let Some((hash, number)) = hint {
            let message = Message::PrimaryPropose(PrimaryPropose::new(hash, number));
            // Only the primary's hint counts.
            assert_eq!(round.handle_vote(&chain, say(message.clone(), 2)), Ok(None));
            assert_eq!(round.primary_block(), None);
            assert_eq!(round.handle_vote(&chain, say(message, 0)), Ok(None));
            assert_eq!(round.primary_block(), hint);
        }
        let timer: Signal<(), Error> = Signal::Ready(());
        assert_eq!(
            round.prevote(&chain, &last, timer, Signal::Pending),
            Ok(PrevoteAction::Query(base))
        );
    }
}

#[test]
fn a_prevote_waits_for_its_timer_and_fails_with_it() {
    let last = RoundState::genesis((GENESIS_HASH, 1));
    let (chain, mut round) = round_of_four(4, Some(last.clone()), Some(Id(1)));
    assert_eq!(
        round.prevote(&chain, &last, Signal::Pending, Signal::<_, Error>::Pending),
        Ok(PrevoteAction::Wait)
    );
    assert_eq!(round.state(), Some(&State::Start));
    assert_eq!(
        round.prevote(&chain, &last, Signal::Failed("broken"), Signal::Pending),
        Err(Failure::Host("broken"))
    );
    assert_eq!(round.state(), None);

    let (chain, mut round) = round_of_four(4, Some(last.clone()), Some(Id(1)));
    let timer: Signal<(), &'static str> = Signal::Ready(());
    assert_eq!(
        round.prevote(&chain, &last, timer, Signal::Pending),
        Ok(PrevoteAction::Query(GENESIS_HASH))
    );
    assert_eq!(
        round.prevote(&chain, &last, Signal::Pending, Signal::Failed("broken")),
        Err(Failure::Host("broken"))
    );
    assert_eq!(round.state(), None);
}

#[test]
fn a_vanished_base_silences_the_voter() {
    let (chain, mut round) = round();
    start_query(&chain, &mut round, (GENESIS_HASH, 1));
    let previous = RoundState::genesis((GENESIS_HASH, 1));
    let answer: Signal<_, Error> = Signal::Ready(None);
    assert_eq!(
        round.prevote(&chain, &previous, Signal::Pending, answer),
        Ok(PrevoteAction::Wait)
    );
    assert!(round.state().is_none());
    assert!(!round.voting().is_active());
}

#[test]
fn a_prevote_must_descend_from_its_base_and_from_finality() {
    let (mut chain, mut round) = round();
    chain.push_blocks(GENESIS_HASH, &[X, Y, Z]);
    start_query(&chain, &mut round, (A, 2));
    assert_eq!(
        answer(&chain, &mut round, VoteTarget::Block(Y, 3)),
        Err(Failure::Refused(Error::NotDescendent))
    );
    assert!(round.state().is_none());

    let (mut chain, mut round) = self::round();
    chain.push_blocks(GENESIS_HASH, &[X, Y, Z]);
    round.note_finalized((C, 4));
    let timer: Signal<(), Error> = Signal::Ready(());
    assert_eq!(
        round.prevote(&chain, &RoundState::genesis((A, 2)), timer, Signal::Pending),
        Ok(PrevoteAction::Query(A))
    );
    // Finality has not moved since the query, so there is nothing to repeat.
    assert_eq!(
        answer(&chain, &mut round, VoteTarget::Block(B, 3)),
        Err(Failure::Refused(Error::NotDescendent))
    );
}

#[test]
fn finality_that_is_told_only_moves_up() {
    let (chain, mut round) = round();
    round.note_finalized((C, 4));
    round.note_finalized((A, 2));
    let timer: Signal<(), Error> = Signal::Ready(());
    assert_eq!(
        round.prevote(&chain, &RoundState::genesis((GENESIS_HASH, 1)), timer, Signal::Pending),
        Ok(PrevoteAction::Query(GENESIS_HASH))
    );
    assert_eq!(round.state(), Some(&State::Prevoting(GENESIS_HASH, (C, 4))));
}

#[test]
fn a_stopped_voter_drops_its_query_and_its_unrecorded_vote() {
    let (chain, mut round) = round();
    start_query(&chain, &mut round, (GENESIS_HASH, 1));
    assert_eq!(
        answer(&chain, &mut round, VoteTarget::Block(B, 3)),
        Ok(PrevoteAction::Cast(Prevote::new(B, 3)))
    );
    assert_eq!(round.pending(), Some(&Message::Prevote(Prevote::new(B, 3))));
    round.stop_voting();
    assert!(round.state().is_none());
    assert!(!round.voting().is_active());
    assert_eq!(round.pending(), None);
    round.record_vote();
    assert_eq!(round.next_outgoing(), None);
    assert_eq!(
        answer(&chain, &mut round, VoteTarget::Block(B, 3)),
        Ok(PrevoteAction::Wait)
    );
    // Votes of others still count.
    let vote = Message::Prevote(Prevote::new(C, 4));
    assert_eq!(round.handle_vote(&chain, say(vote, 0)), Ok(None));
    assert_eq!(round.prevote_weight(), VoteWeight(1));
}

#[test]
fn watchers_pass_through_the_phases_without_a_vote() {
    let last = RoundState::genesis((GENESIS_HASH, 1));
    let (chain, mut round) = round_of_four(4, Some(last.clone()), None);
    let timer: Signal<(), Error> = Signal::Ready(());
    assert_eq!(
        round.prevote(&chain, &last, timer, Signal::Pending),
        Ok(PrevoteAction::Wait)
    );
    assert_eq!(round.state(), Some(&State::Prevoted));
    for id in 1..4 {
        let vote = Message::Prevote(Prevote::new(B, 3));
        assert_eq!(round.handle_vote(&chain, say(vote, id)), Ok(None));
    }
    let timer: Signal<(), Error> = Signal::Ready(());
    assert_eq!(round.precommit(&chain, &last, timer), Ok(None));
    assert_eq!(round.state(), Some(&State::Precommitted));
    assert_eq!(round.next_outgoing(), None);
    assert_eq!(round.historical_votes().precommit_idx, None);
}

#[test]
fn a_precommit_waits_for_the_ghost_and_for_its_timer() {
    let last = RoundState::genesis((A, 2));
    let (mut chain, mut round) = round_of_four(4, Some(last.clone()), Some(Id(0)));
    chain.push_blocks(GENESIS_HASH, &[X, Y, Z]);
    let timer: Signal<(), Error> = Signal::Ready(());
    round.prevote(&chain, &last, timer, Signal::Pending).unwrap();
    assert_eq!(
        answer(&chain, &mut round, VoteTarget::Block(C, 4)),
        Ok(PrevoteAction::Cast(Prevote::new(C, 4)))
    );
    round.record_vote();
    let sent = round.next_outgoing().unwrap();
    round.handle_vote(&chain, say(sent, 0)).unwrap();
    assert_eq!(round.historical_votes().prevote_idx, Some(0));

    // One vote of four makes no ghost.
    assert!(!round.awaits_precommit_timer(&chain, &last));
    assert_eq!(round.precommit(&chain, &last, Signal::<(), Error>::Ready(())), Ok(None));
    // A ghost below the estimate of the prior round is not enough either.
    for id in [1, 2] {
        round.handle_vote(&chain, say(Message::Prevote(Prevote::new(X, 2)), id)).unwrap();
    }
    assert_eq!(round.round_state().prevote_ghost, Some((GENESIS_HASH, 1)));
    assert!(!round.awaits_precommit_timer(&chain, &last));
    // Two equivocations count for everything, and lift the ghost to our vote.
    for id in [1, 2] {
        let found =
            round.handle_vote(&chain, say(Message::Prevote(Prevote::new(B, 3)), id)).unwrap();
        assert!(matches!(
            found,
            Some(Misbehaviour::Prevote(e)) if e.identity == Id(id)
                && e.first.0 == Prevote::new(X, 2) && e.second.0 == Prevote::new(B, 3)
        ));
    }
    assert_eq!(round.round_state().prevote_ghost, Some((C, 4)));
    assert_eq!(round.prevote_ids(), vec![Id(0), Id(1), Id(1), Id(2), Id(2)]);
    assert!(round.awaits_precommit_timer(&chain, &last));
    assert_eq!(round.precommit(&chain, &last, Signal::<(), Error>::Pending), Ok(None));
    assert_eq!(round.state(), Some(&State::Prevoted));
    assert_eq!(
        round.precommit(&chain, &last, Signal::<(), Error>::Ready(())),
        Ok(Some(Precommit::new(C, 4)))
    );
    round.record_vote();
    assert_eq!(round.state(), Some(&State::Precommitted));
    assert_eq!(round.next_outgoing(), Some(Message::Precommit(Precommit::new(C, 4))));
    assert_eq!(round.historical_votes().precommit_idx, Some(5));
    assert_eq!(round.precommit_ids(), vec![]);
}

#[test]
fn a_failing_precommit_timer_ends_the_voting() {
    let last = RoundState::genesis((GENESIS_HASH, 1));
    let (chain, mut round) = round_of_four(4, Some(last.clone()), None);
    let timer: Signal<(), Error> = Signal::Ready(());
    round.prevote(&chain, &last, timer, Signal::Pending).unwrap();
    for id in 1..4 {
        round.handle_vote(&chain, say(Message::Prevote(Prevote::new(B, 3)), id)).unwrap();
    }
    assert_eq!(
        round.precommit(&chain, &last, Signal::Failed("broken")),
        Err(Failure::Host("broken"))
    );
    assert_eq!(round.state(), None);
}

/// Both votes of the first three voters for a block.
fn vote_for(chain: &TestChain, round: &mut TestRound, block: (Name, u32)) {
    for id in 0..3 {
        let prevote = Message::Prevote(Prevote::new(block.0, block.1));
        let precommit = Message::Precommit(Precommit::new(block.0, block.1));
        round.handle_vote(chain, say(prevote, id)).unwrap();
        round.handle_vote(chain, say(precommit, id)).unwrap();
    }
}

#[test]
fn finality_is_announced_once_and_bridged_to_the_later_round() {
    let (chain, mut round) = round_of_four(4, None, None);
    let before = round.round_state();
    assert_eq!(round.bridge_state(), before);
    vote_for(&chain, &mut round, (B, 3));
    let polled = round.poll(before);
    assert!(polled.ready);
    let done = polled.finalized.unwrap();
    assert_eq!((done.hash, done.number, done.round_number), (B, 3, 4));
    assert_eq!(done.commit.precommits.len(), 3);
    assert_eq!(round.finalizing_commit(), Some(&done.commit));
    assert_eq!(round.finalized(), Some((B, 3)));
    assert_eq!(round.bridged_round_state(), Some(&round.round_state()));
    let state = round.round_state();
    assert!(round.poll(state).finalized.is_none());

    // Its own commit tells the round nothing new.
    let imported = round.check_and_import_from_commit(&chain, &done.commit);
    assert_eq!(imported.finalized, Ok(Some((B, 3))));
    assert!(imported.equivocations.is_empty());
    assert_eq!(round.precommit_weight(), VoteWeight(3));
}

#[test]
fn a_round_is_complete_once_the_prior_estimate_is_final() {
    let open = established((C, 4), (A, 2), (C, 4));
    let (chain, mut round) = round_of_four(4, Some(open), None);
    let before = round.round_state();
    vote_for(&chain, &mut round, (B, 3));
    let polled = round.poll(before);
    assert!(round.round_state().completable);
    assert!(!polled.ready);
    // We have not precommitted, so nothing is announced yet.
    assert!(polled.finalized.is_none());
    // The prior round finalizes its estimate after all.
    round.note_last_round_state(established((C, 4), (C, 4), (C, 4)));
    let state = round.round_state();
    assert!(round.poll(state).ready);
    // Or the estimate falls to what this round has finalized.
    round.note_last_round_state(established((C, 4), (A, 2), (B, 3)));
    let state = round.round_state();
    assert!(round.poll(state).ready);
    round.note_last_round_state(RoundState {
        estimate: None,
        ..established((C, 4), (A, 2), (B, 3))
    });
    let state = round.round_state();
    assert!(!round.poll(state).ready);
}

#[test]
fn commits_are_checked_before_they_are_imported() {
    let (chain, mut source) = round_of_four(4, None, None);
    let before = source.round_state();
    vote_for(&chain, &mut source, (B, 3));
    let commit = source.poll(before).finalized.unwrap().commit;

    let (chain, mut round) = round_of_four(4, None, None);
    let mut short = commit.clone();
    short.precommits.pop();
    let refused = round.check_and_import_from_commit(&chain, &short);
    assert_eq!(refused.finalized, Ok(None));
    assert_eq!(round.precommit_weight(), VoteWeight(0));

    // A voter that we have seen precommit for something else is exposed.
    let other = Message::Precommit(Precommit::new(C, 4));
    round.handle_vote(&chain, say(other, 1)).unwrap();
    let imported = round.check_and_import_from_commit(&chain, &commit);
    assert_eq!(imported.finalized, Ok(Some((B, 3))));
    assert_eq!(imported.equivocations.len(), 1);
    assert_eq!(imported.equivocations[0].identity, Id(1));
    assert_eq!(round.precommit_weight(), VoteWeight(3));

    // A precommit below the base of the round ends the import.
    let voters = VoterSet::new((0..4).map(|id| (Id(id), 1)).collect()).unwrap();
    let mut late: TestRound = VotingRound::new(5, voters, (C, 4), None, None);
    let imported = late.check_and_import_from_commit(&chain, &commit);
    assert_eq!(imported.finalized, Err(Error::NotDescendent));
    assert_eq!(late.precommit_weight(), VoteWeight(0));
}

#[test]
fn a_completed_round_is_only_watched() {
    let (chain, mut source) = round_of_four(4, None, None);
    vote_for(&chain, &mut source, (B, 3));
    let voters = VoterSet::new((0..4).map(|id| (Id(id), 1)).collect()).unwrap();
    let mut votes = Round::new(RoundParams { round_number: 4, voters, base: (GENESIS_HASH, 1) });
    for signed in &source.historical_votes().seen {
        match signed.message.clone() {
            Message::Prevote(vote) => {
                votes.import_prevote(&chain, vote, signed.id, signed.signature).unwrap();
            }
            Message::Precommit(vote) => {
                votes.import_precommit(&chain, vote, signed.id, signed.signature).unwrap();
            }
            Message::PrimaryPropose(_) => unreachable!("hints are not votes"),
        }
    }
    let mut round = VotingRound::completed(votes, None);
    assert!(round.state().is_none());
    assert_eq!(round.voting(), Voting::No);
    assert_eq!(round.round_state(), source.round_state());
    assert_eq!(round.votes().number(), 4);
    let state = round.round_state();
    assert!(round.poll(state).finalized.is_some());
}

#[test]
fn states_and_errors_have_names() {
    assert_eq!(State::<Name, u32>::Start.name(), "Start");
    assert_eq!(State::<Name, u32>::Proposed.name(), "Proposed");
    assert_eq!(State::Prevoting(A, (A, 2)).name(), "Prevoting");
    assert_eq!(State::<Name, u32>::Prevoted.name(), "Prevoted");
    assert_eq!(State::<Name, u32>::Precommitted.name(), "Precommitted");
    for error in [Error::InvalidTarget, Error::NotDescendent] {
        assert_eq!(error.name(), format!("{error:?}"));
    }
    assert!(Voting::Primary.is_primary() && !Voting::Yes.is_primary());
    assert!(Voting::Yes.is_active() && !Voting::No.is_active());
}

/// Attempts with everything ready.
fn eager_attempts() -> Vec<Attempt<Name, u32, Error>> {
    vec![
        Attempt::Propose,
        Attempt::Prevote(Signal::Ready(()), Signal::Ready(Some(VoteTarget::Block(C, 4)))),
        Attempt::Precommit(Signal::Ready(())),
    ]
}

#[test]
fn a_round_without_the_prior_state_attempts_nothing() {
    let (chain, mut round) = round_of_four(4, None, Some(Id(0)));
    assert_eq!(round.voting(), Voting::Primary);
    // Being told a prior state does not help a round that was started without.
    round.note_last_round_state(established((B, 3), (GENESIS_HASH, 1), (A, 2)));
    assert_eq!(round.last_round_state(), None);
    for _ in 0..3 {
        for attempt in eager_attempts() {
            assert_eq!(round.step(&chain, attempt), Ok(Step::Wait));
            assert_eq!(round.state(), Some(&State::Start));
            assert_eq!(round.pending(), None);
            assert_eq!(round.next_outgoing(), None);
        }
        vote_for(&chain, &mut round, (B, 3));
    }
    // Votes of others are handled all the same.
    assert_eq!(round.prevote_weight(), VoteWeight(3));
}

#[test]
fn hint_prevote_and_precommit_come_in_order() {
    let last = established((B, 3), (GENESIS_HASH, 1), (A, 2));
    let (chain, mut round) = round_of_four(4, Some(last), Some(Id(0)));
    let mut sent = Vec::new();
    for _ in 0..4 {
        for attempt in eager_attempts() {
            match round.step(&chain, attempt).unwrap() {
                Step::Wait => {}
                Step::Query(base) => assert_eq!(base, A),
                Step::Record(message) => {
                    assert_eq!(round.pending(), Some(&message));
                    round.record_vote();
                }
            }
            while let Some(message) = round.next_outgoing() {
                round.handle_vote(&chain, say(message.clone(), 0)).unwrap();
                sent.push(message);
            }
        }
        for id in 1..4 {
            round.handle_vote(&chain, say(Message::Prevote(Prevote::new(C, 4)), id)).unwrap();
        }
    }
    assert_eq!(
        sent,
        vec![
            Message::PrimaryPropose(PrimaryPropose::new(A, 2)),
            Message::Prevote(Prevote::new(C, 4)),
            Message::Precommit(Precommit::new(C, 4)),
        ]
    );
}

#[test]
fn a_failing_step_says_why() {
    let last = established((B, 3), (GENESIS_HASH, 1), (A, 2));
    let (chain, mut round) = round_of_four(4, Some(last), Some(Id(1)));
    let attempt: Attempt<Name, u32, Error> = Attempt::Prevote(Signal::Ready(()), Signal::Pending);
    assert_eq!(round.step(&chain, attempt), Ok(Step::Query(A)));
    let target = VoteTarget::ViewTimeout(B, 3);
    let attempt: Attempt<Name, u32, Error> =
        Attempt::Prevote(Signal::Pending, Signal::Ready(Some(target)));
    assert_eq!(round.step(&chain, attempt), Err(Failure::Refused(Error::InvalidTarget)));
}

#[test]
fn a_message_that_is_not_recorded_is_never_sent() {
    let last = established((B, 3), (GENESIS_HASH, 1), (A, 2));
    let (chain, mut round) = round_of_four(4, Some(last), Some(Id(0)));
    let attempt: Attempt<Name, u32, Error> = Attempt::Propose;
    let hint = Message::PrimaryPropose(PrimaryPropose::new(A, 2));
    assert_eq!(round.step(&chain, attempt), Ok(Step::Record(hint)));
    round.abandon_vote();
    assert_eq!(round.pending(), None);
    assert_eq!(round.state(), None);
    assert_eq!(round.voting(), Voting::Primary);
    round.record_vote();
    assert_eq!(round.next_outgoing(), None);
    for attempt in eager_attempts() {
        assert_eq!(round.step(&chain, attempt), Ok(Step::Wait));
        assert_eq!(round.next_outgoing(), None);
    }
}

#[test]
fn nothing_is_concluded_while_messages_wait() {
    let last = established((B, 3), (GENESIS_HASH, 1), (A, 2));
    let (chain, mut round) = round_of_four(4, Some(last), Some(Id(3)));
    let before = round.round_state();
    let attempt: Attempt<Name, u32, Error> = Attempt::Prevote(Signal::Ready(()), Signal::Pending);
    assert_eq!(round.step(&chain, attempt), Ok(Step::Query(A)));
    let found = Signal::Ready(Some(VoteTarget::Block(B, 3)));
    let attempt: Attempt<Name, u32, Error> = Attempt::Prevote(Signal::Pending, found);
    let prevote = Message::Prevote(Prevote::new(B, 3));
    assert_eq!(round.step(&chain, attempt), Ok(Step::Record(prevote.clone())));
    round.record_vote();
    vote_for(&chain, &mut round, (B, 3));
    let attempt: Attempt<Name, u32, Error> = Attempt::Precommit(Signal::Ready(()));
    let precommit = Message::Precommit(Precommit::new(B, 3));
    assert_eq!(round.step(&chain, attempt), Ok(Step::Record(precommit.clone())));
    round.record_vote();
    for message in [prevote, precommit] {
        let polled = round.poll(before.clone());
        assert!(!polled.ready);
        assert!(polled.finalized.is_none());
        assert_eq!(round.finalizing_commit(), None);
        assert_eq!(round.next_outgoing(), Some(message));
    }
    let polled = round.poll(before);
    assert!(polled.ready);
    assert_eq!(polled.finalized.unwrap().number, 3);
}
