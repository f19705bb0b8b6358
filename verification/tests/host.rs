//! A host that drives rounds of a single voter.

use std::collections::VecDeque;

use finality_grandpa::chain::{Chain, Error, VoteTarget};
use finality_grandpa::commit::validate_commit;
use finality_grandpa::host::{Host, HostError};
use finality_grandpa::messages::{
    Commit, Message, Precommit, RoundState, SignedMessage, SignedPrecommit,
};
use finality_grandpa::view::{BlockRef, TargetKind};
use finality_grandpa::view_chain::{ConsensusTarget, TargetId, TargetRef, ViewChain, ViewError};
use finality_grandpa::voter_set::VoterSet;
use finality_grandpa::voting_round::{Attempt, Signal, State, Step, VotingRound};

type TestChain = ViewChain<[u8; 32], u64>;
type TestHost = Host<[u8; 32], u64, u64, u64>;
type TestRound = VotingRound<u64, TargetId, u64, u64>;

fn block(number: u64, tag: u8) -> BlockRef<[u8; 32], u64> {
    BlockRef { hash: [tag; 32], number }
}

fn chain() -> TestChain {
    TestChain::new(10, block(100, 0))
}

fn voters() -> VoterSet<u64> {
    VoterSet::new(vec![(0, 1)]).unwrap()
}

fn commit(target: TargetRef) -> Commit<TargetId, u64, u64, u64> {
    Commit {
        target_hash: target.id,
        target_number: target.view,
        precommits: vec![SignedPrecommit {
            precommit: Precommit::new(target.id, target.view),
            signature: 0,
            id: 0,
        }],
    }
}

/// Sign and loop back everything that is to be sent.
fn loop_back(host: &TestHost, round: &mut TestRound, emitted: &mut Vec<(u64, Message<u64, u64>)>) {
    while let Some(message) = round.next_outgoing() {
        emitted.push((round.round_number(), message.clone()));
        let misbehaviour =
            round.handle_vote(host, SignedMessage { message, signature: 0, id: 0 }).unwrap();
        assert!(misbehaviour.is_none());
    }
}

/// Run a round to its end, and hand what it finalizes to the host.
fn run_round(
    host: &mut TestHost,
    number: u64,
    base: TargetRef,
    last: RoundState<TargetId, u64>,
    emitted: &mut Vec<(u64, Message<u64, u64>)>,
) -> Result<RoundState<TargetId, u64>, HostError> {
    let mut round: TestRound =
        VotingRound::new(number, voters(), base.as_pair(), Some(last), Some(0));
    let mut query: Signal<Option<VoteTarget<TargetId, u64>>, HostError> = Signal::Pending;
    for _ in 0..8 {
        let pre_state = round.round_state();
        for phase in 0..3 {
            let attempt = match phase {
                0 => Attempt::Propose,
                1 => {
                    let answer = std::mem::replace(&mut query, Signal::Pending);
                    Attempt::Prevote(Signal::Ready(()), answer)
                }
                _ => Attempt::Precommit(Signal::Ready(())),
            };
            match round.step(host, attempt).unwrap() {
                Step::Wait => {}
                Step::Query(base) => query = host.best_chain_containing(base),
                Step::Record(_) => round.record_vote(),
            }
            loop_back(host, &mut round, emitted);
        }
        let polled = round.poll(pre_state);
        if let Some(done) = polled.finalized {
            host.finalize_target(done.hash, done.number, done.round_number, done.commit)?;
        }
        if polled.ready {
            break;
        }
    }
    assert_eq!(round.state(), Some(&State::Precommitted));
    Ok(round.round_state())
}

#[test]
fn rounds_finalize_a_block_and_then_a_timeout_at_the_same_real_height() {
    let chain = chain();
    let root = chain.root();
    let first_block = chain.block(root.id, block(101, 1)).unwrap();
    let mut expected_chain = chain.clone();
    let block_ref = expected_chain.import(first_block.clone()).unwrap();
    let timeout = ConsensusTarget {
        parent: Some(block_ref.id),
        view: block_ref.view + 1,
        kind: TargetKind::ViewTimeout,
    };
    let timeout_ref = expected_chain.import(timeout.clone()).unwrap();
    let mut host: TestHost = Host::new(chain, VecDeque::from(vec![first_block, timeout]), false);
    let mut emitted = Vec::new();
    let genesis = RoundState::genesis(root.as_pair());
    let first = run_round(&mut host, 1, root, genesis, &mut emitted).unwrap();
    assert_eq!(first.finalized, Some(block_ref.as_pair()));
    let second = run_round(&mut host, 2, block_ref, first, &mut emitted).unwrap();
    assert_eq!(second.finalized, Some(timeout_ref.as_pair()));

    let finalizations = host.finalizations();
    assert_eq!(finalizations.len(), 2);
    assert_eq!(finalizations[0].0, 1);
    assert_eq!(finalizations[0].1.target, block_ref);
    assert_eq!(finalizations[0].1.block, block(101, 1));
    assert!(finalizations[0].1.block_changed);
    assert_eq!(finalizations[1].0, 2);
    assert_eq!(finalizations[1].1.target, timeout_ref);
    assert_eq!(finalizations[1].1.block, block(101, 1));
    assert!(!finalizations[1].1.block_changed);
    assert_eq!(host.chain().finalized_target(), timeout_ref);
    assert_eq!(host.chain().finalized_block(), &block(101, 1));
    assert_eq!(
        host.vote_target(block_ref.id),
        Some(VoteTarget::Block(block_ref.id, block_ref.view))
    );
    assert_eq!(
        host.vote_target(timeout_ref.id),
        Some(VoteTarget::ViewTimeout(timeout_ref.id, timeout_ref.view))
    );
    let durable = host.durable().unwrap();
    assert_eq!(durable.round, 2);
    assert_eq!(durable.target, timeout_ref);
    assert!(validate_commit(&durable.commit, &voters(), &host).unwrap().is_valid());
    for (round, target) in [(1, block_ref), (2, timeout_ref)] {
        let of_round: Vec<_> = emitted.iter().filter(|(r, _)| *r == round).collect();
        let prevotes = of_round
            .iter()
            .filter(|(_, message)| {
                matches!(message, Message::Prevote(vote)
                    if (vote.target_hash, vote.target_number) == target.as_pair())
            })
            .count();
        let precommits = of_round
            .iter()
            .filter(|(_, message)| {
                matches!(message, Message::Precommit(vote)
                    if (vote.target_hash, vote.target_number) == target.as_pair())
            })
            .count();
        assert_eq!((prevotes, precommits, of_round.len()), (1, 1, 2));
    }
}

#[test]
fn a_failure_to_persist_keeps_finality_where_it_was() {
    let chain = chain();
    let root = chain.root();
    let candidate = chain.block(root.id, block(101, 1)).unwrap();
    let candidate_ref = chain.clone().import(candidate.clone()).unwrap();
    let mut host: TestHost = Host::new(chain, VecDeque::from(vec![candidate]), true);
    let mut emitted = Vec::new();
    let genesis = RoundState::genesis(root.as_pair());
    let failure = run_round(&mut host, 1, root, genesis, &mut emitted).unwrap_err();
    assert_eq!(failure, HostError("persistence failure".to_string()));
    assert_eq!(host.chain().finalized_target(), root);
    assert_eq!(host.chain().finalized_block(), &block(100, 0));
    assert!(host.durable().is_none());
    assert!(host.finalizations().is_empty());
    // The candidate was admitted; only finality and its record stayed put.
    assert_eq!(
        host.vote_target(candidate_ref.id),
        Some(VoteTarget::Block(candidate_ref.id, candidate_ref.view)),
    );
}

#[test]
fn candidates_are_offered_in_order_and_only_above_the_base() {
    let mut chain = chain();
    let root = chain.root();
    let real = chain.block(root.id, block(101, 1)).unwrap();
    let real_ref = chain.import(real).unwrap();
    let timeout = chain.timeout(root.id).unwrap();
    let malformed = ConsensusTarget { view: 99, ..timeout.clone() };
    let above = chain.timeout(real_ref.id).unwrap();
    let mut host: TestHost =
        Host::new(chain, VecDeque::from(vec![timeout, malformed, above]), false);
    assert!(matches!(
        host.best_chain_containing(real_ref.id),
        Signal::Failed(HostError(words)) if words == "NotDescendent"
    ));
    assert_eq!(host.vote_target(3), Some(VoteTarget::ViewTimeout(3, 11)));
    assert!(matches!(
        host.best_chain_containing(real_ref.id),
        Signal::Failed(HostError(words)) if words == "invalid consensus view"
    ));
    assert!(matches!(
        host.best_chain_containing(real_ref.id),
        Signal::Ready(Some(VoteTarget::ViewTimeout(4, 12)))
    ));
    assert!(matches!(host.best_chain_containing(real_ref.id), Signal::Pending));
    assert_eq!(host.chain().len(), 4);
    assert_eq!(host.ancestry(root.id, 4), Ok(vec![real_ref.id]));
    assert!(!host.is_equal_or_descendent_of(3, 4));
    assert_eq!(host.ancestry(3, 4), Err(Error::NotDescendent));
}

#[test]
fn a_host_refuses_to_finalize_what_it_does_not_hold() {
    let chain = chain();
    let mut host: TestHost = Host::new(chain, VecDeque::new(), false);
    let unknown = TargetRef { id: 9, view: 11 };
    assert_eq!(
        host.finalize_target(9, 11, 1, commit(unknown)),
        Err(HostError::from_view_error(ViewError::UnknownTarget))
    );
    assert_eq!(
        host.finalize_target(1, 11, 1, commit(TargetRef { id: 1, view: 11 })),
        Err(HostError::from_view_error(ViewError::InvalidView))
    );
    assert!(host.durable().is_none());
    let root = host.chain().root();
    assert_eq!(host.finalize_target(root.id, root.view, 7, commit(root)), Ok(()));
    assert_eq!(host.durable().unwrap().round, 7);
    assert_eq!(host.durable().unwrap().commit, commit(root));
    assert!(host.finalizations()[0].1.newly_finalized.is_empty());
}
