//! Voters, rounds and commits on concrete values.

use finality_grandpa::chain::{Chain, Error, VoteTarget};
use finality_grandpa::commit::validate_commit;
use finality_grandpa::ident::Identity;
use finality_grandpa::messages::{
    Commit, Message, Precommit, Prevote, RoundState, SignedPrecommit,
};
use finality_grandpa::number::{BlockNumber, TargetNumber};
use finality_grandpa::round::{Round, RoundParams};
use finality_grandpa::view::{BlockRef, TargetKind};
use finality_grandpa::view_chain::{TargetId, TargetRef, ViewChain};
use finality_grandpa::voter_set::{VoteWeight, VoterSet};

type TestChain = ViewChain<u64, u64>;
type TestRound = Round<u64, TargetId, u64, u64>;

/// A root, a block and a timeout above it, and a timeout above each of the two.
fn forked_chain() -> (TestChain, [TargetRef; 5]) {
    let mut chain = TestChain::new(10, BlockRef { hash: 100, number: 100 });
    let root = chain.root();
    let target = chain.block(root.id, BlockRef { hash: 101, number: 101 }).unwrap();
    let left = chain.import(target).unwrap();
    let target = chain.timeout(root.id).unwrap();
    let right = chain.import(target).unwrap();
    let target = chain.timeout(left.id).unwrap();
    let above_left = chain.import(target).unwrap();
    let target = chain.timeout(right.id).unwrap();
    let above_right = chain.import(target).unwrap();
    (chain, [root, left, right, above_left, above_right])
}

fn voters(count: u64) -> VoterSet<u64> {
    VoterSet::new((0..count).map(|id| (id, 1)).collect()).unwrap()
}

fn round(voters: VoterSet<u64>, base: TargetRef) -> TestRound {
    Round::new(RoundParams { round_number: 6, voters, base: base.as_pair() })
}

fn prevote(round: &mut TestRound, chain: &TestChain, target: TargetRef, id: u64) {
    round.import_prevote(chain, Prevote::new(target.id, target.view), id, id).unwrap();
}

fn precommit(round: &mut TestRound, chain: &TestChain, target: TargetRef, id: u64) {
    round.import_precommit(chain, Precommit::new(target.id, target.view), id, id).unwrap();
}

fn signed(target: TargetRef, id: u64, signature: u64) -> SignedPrecommit<TargetId, u64, u64, u64> {
    SignedPrecommit { precommit: Precommit::new(target.id, target.view), signature, id }
}

#[test]
fn partial_weights_accumulate_in_the_order_of_first_mention() {
    let set = VoterSet::new(vec![(7u64, 2), (3, 0), (5, 4), (7, 1), (9, 0), (5, 3)]).unwrap();
    assert_eq!(set.len(), 2);
    assert_eq!(set.nth(0), (&7, 3));
    assert_eq!(set.nth(1), (&5, 7));
    assert_eq!(set.total_weight(), 10);
    assert_eq!(set.position(&5), Some(1));
    assert_eq!(set.position(&3), None);
    assert!(set.contains(&7) && !set.contains(&9));
    assert_eq!(set.nth_mod(5), (&5, 7));
    assert_eq!(set.nth_mod(6), (&7, 3));
    assert_eq!(set.duplicate().threshold(), set.threshold());
}

#[test]
fn a_voter_set_needs_some_weight_and_not_too_much() {
    assert!(VoterSet::<u64>::new(vec![]).is_none());
    assert!(VoterSet::new(vec![(1u64, 0), (2, 0)]).is_none());
    assert!(VoterSet::new(vec![(1u64, u64::MAX), (2, 1)]).is_none());
    assert!(VoterSet::new(vec![(1u64, u64::MAX), (1, 1)]).is_none());
    let full = VoterSet::new(vec![(1u64, u64::MAX)]).unwrap();
    assert_eq!(full.total_weight(), u64::MAX);
}

#[test]
fn a_supermajority_exceeds_two_thirds() {
    for (total, threshold) in [(1, 1), (2, 2), (3, 3), (4, 3), (5, 4), (6, 5), (7, 5), (100, 67)] {
        let set = VoterSet::new(vec![(0u64, total)]).unwrap();
        assert_eq!(set.threshold(), threshold);
    }
}

#[test]
fn numbers_have_a_successor_until_they_run_out() {
    assert_eq!(41u32.checked_successor(), Some(42));
    assert_eq!(41u64.checked_successor(), Some(42));
    assert_eq!((u32::MAX - 1).checked_successor(), Some(u32::MAX));
    assert_eq!((u64::MAX - 1).checked_successor(), Some(u64::MAX));
    assert_eq!(u32::MAX.checked_successor(), None);
    assert_eq!(u64::MAX.checked_successor(), None);
}

#[test]
fn identities_are_compared_by_all_they_hold() {
    let mut bytes = [7u8; 32];
    assert!(bytes.same(&[7; 32]));
    bytes[31] = 8;
    assert!(!bytes.same(&[7; 32]));
    assert_eq!(bytes.duplicate(), bytes);
    assert!((1u8, 2u16).same(&(1, 2)) && !(1u8, 2u16).same(&(1, 3)));
    assert!(5u128.same(&5) && !5u128.same(&6));
    let kind: TargetKind<u64, u64> = TargetKind::ViewTimeout;
    assert!(kind.same(&TargetKind::ViewTimeout));
    assert!(!kind.same(&TargetKind::Block(BlockRef { hash: 1, number: 1 })));
    assert!(!VoteTarget::Block(1u64, 2u64).same(&VoteTarget::ViewTimeout(1, 2)));
    assert_eq!(VoteTarget::ViewTimeout(1u64, 2u64).target(), (&1, &2));
}

#[test]
fn the_round_number_selects_the_primary() {
    let (_, targets) = forked_chain();
    let round = round(voters(4), targets[0]);
    assert_eq!(round.primary_voter(), (&2, 1));
    assert_eq!(round.number(), 6);
    assert_eq!(round.base(), (1, 10));
    assert_eq!(round.voters().len(), 4);
}

#[test]
fn votes_of_strangers_are_reported_and_ignored() {
    let (chain, targets) = forked_chain();
    let mut round = round(voters(4), targets[0]);
    let found = round.import_prevote(&chain, Prevote::new(99, 99), 9, 9).unwrap();
    assert!(!found.valid_voter && !found.duplicated && found.equivocation.is_none());
    let found = round.import_precommit(&chain, Precommit::new(99, 99), 9, 9).unwrap();
    assert!(!found.valid_voter);
    assert_eq!(round.prevote_participation(), (VoteWeight(0), 0));
    assert!(round.historical_votes().seen.is_empty());
}

#[test]
fn at_most_two_votes_of_a_voter_are_kept_per_phase() {
    let (chain, [root, left, right, above_left, _]) = forked_chain();
    let mut round = round(voters(4), root);
    prevote(&mut round, &chain, left, 0);
    prevote(&mut round, &chain, right, 0);
    let third = round
        .import_prevote(&chain, Prevote::new(above_left.id, above_left.view), 0, 0)
        .unwrap();
    assert!(third.valid_voter && !third.duplicated && third.equivocation.is_none());
    // The second vote is recognized as well as the first one.
    let again = round.import_prevote(&chain, Prevote::new(right.id, right.view), 0, 0).unwrap();
    assert!(again.duplicated);
    assert_eq!(round.historical_votes().seen.len(), 2);
    assert_eq!(round.prevote_participation(), (VoteWeight(1), 1));
    assert_eq!(round.prevote_ids(), vec![0, 0]);
    assert!(matches!(round.historical_votes().seen[0].message, Message::Prevote(_)));
}

#[test]
fn another_signature_on_the_same_vote_is_an_equivocation() {
    let (chain, [root, left, ..]) = forked_chain();
    let mut round = round(voters(4), root);
    round.import_precommit(&chain, Precommit::new(left.id, left.view), 0, 1).unwrap();
    let found = round.import_precommit(&chain, Precommit::new(left.id, left.view), 0, 2).unwrap();
    let evidence = found.equivocation.unwrap();
    assert_eq!((evidence.first.1, evidence.second.1), (1, 2));
    assert_eq!(round.precommit_ids(), vec![0, 0]);
}

#[test]
fn who_votes_twice_counts_for_everything() {
    let (chain, [root, left, right, above_left, _]) = forked_chain();
    let mut round = round(voters(4), root);
    prevote(&mut round, &chain, above_left, 0);
    prevote(&mut round, &chain, left, 1);
    prevote(&mut round, &chain, right, 2);
    assert_eq!(round.state().prevote_ghost, Some((root.id, 10)));
    prevote(&mut round, &chain, root, 2);
    assert_eq!(round.state().prevote_ghost, Some((left.id, 11)));
    prevote(&mut round, &chain, right, 1);
    assert_eq!(round.state().prevote_ghost, Some((above_left.id, 12)));
}

#[test]
fn weights_decide_rather_than_heads() {
    let (chain, [root, left, right, ..]) = forked_chain();
    let heavy = VoterSet::new(vec![(0u64, 7), (1, 1), (2, 1), (3, 1)]).unwrap();
    let mut round = round(heavy, root);
    prevote(&mut round, &chain, left, 0);
    for id in 1..4 {
        prevote(&mut round, &chain, right, id);
    }
    assert_eq!(round.state().prevote_ghost, Some((left.id, 11)));
    assert_eq!(round.prevote_participation(), (VoteWeight(10), 4));
}

#[test]
fn the_estimate_falls_when_precommits_go_elsewhere() {
    let (chain, [root, left, _, above_left, _]) = forked_chain();
    let mut round = round(voters(4), root);
    for id in 0..3 {
        prevote(&mut round, &chain, above_left, id);
    }
    assert_eq!(round.state().estimate, Some((above_left.id, 12)));
    assert!(!round.state().completable);
    precommit(&mut round, &chain, left, 0);
    precommit(&mut round, &chain, left, 1);
    // Two of four precommits do not settle anything.
    assert_eq!(round.state().estimate, Some((above_left.id, 12)));
    precommit(&mut round, &chain, left, 2);
    // One outstanding vote and one tolerated equivocation make two at most.
    assert_eq!(round.state().finalized, Some((left.id, 11)));
    assert_eq!(round.state().estimate, Some((left.id, 11)));
    assert!(round.completable());
}

#[test]
fn a_round_stays_open_while_a_child_of_the_ghost_may_win() {
    let (chain, [root, left, _, above_left, _]) = forked_chain();
    let mut round = round(voters(4), root);
    prevote(&mut round, &chain, left, 0);
    prevote(&mut round, &chain, left, 1);
    prevote(&mut round, &chain, above_left, 2);
    for id in 0..2 {
        precommit(&mut round, &chain, left, id);
    }
    precommit(&mut round, &chain, above_left, 2);
    assert_eq!(round.state().prevote_ghost, Some((left.id, 11)));
    assert_eq!(round.state().finalized, Some((left.id, 11)));
    // One vote is there, one is outstanding and one may be an equivocation.
    assert!(!round.completable());
    precommit(&mut round, &chain, left, 3);
    assert!(round.completable());
}

#[test]
fn finality_of_a_round_only_moves_up() {
    let (chain, [root, left, right, above_left, _]) = forked_chain();
    let mut round = round(voters(4), root);
    for id in 0..3 {
        prevote(&mut round, &chain, above_left, id);
        precommit(&mut round, &chain, left, id);
    }
    assert_eq!(round.finalized(), Some((left.id, 11)));
    // The fourth voter cannot take anything back.
    prevote(&mut round, &chain, right, 3);
    precommit(&mut round, &chain, right, 3);
    assert_eq!(round.finalized(), Some((left.id, 11)));
    assert_eq!(round.state().prevote_ghost, Some((above_left.id, 12)));
    assert_eq!(round.precommit_ghost(), Some((left.id, 11)));
}

#[test]
fn finalizing_precommits_make_a_valid_commit() {
    let (chain, [root, left, right, above_left, _]) = forked_chain();
    let mut round = round(voters(4), root);
    assert!(round.finalizing_precommits().is_none());
    for id in 0..3 {
        prevote(&mut round, &chain, above_left, id);
    }
    precommit(&mut round, &chain, above_left, 0);
    precommit(&mut round, &chain, left, 1);
    precommit(&mut round, &chain, right, 2);
    precommit(&mut round, &chain, left, 2);
    precommit(&mut round, &chain, right, 3);
    assert_eq!(round.finalized(), Some((left.id, 11)));
    let list = round.finalizing_precommits().unwrap();
    assert_eq!(
        list,
        vec![
            signed(above_left, 0, 0),
            signed(left, 1, 1),
            signed(right, 2, 2),
            signed(left, 2, 2)
        ]
    );
    let commit = Commit { target_hash: left.id, target_number: left.view, precommits: list };
    let found = validate_commit(&commit, &voters(4), &chain).unwrap();
    assert!(found.is_valid());
    assert_eq!(found.num_precommits(), 4);
    assert_eq!(found.num_equivocations(), 1);
    assert_eq!(found.num_duplicated_precommits(), 0);
    assert_eq!(found.num_invalid_voters(), 0);
    assert_eq!(commit.duplicate(), commit);
}

#[test]
fn repeated_precommits_count_once() {
    let (chain, [_, left, right, ..]) = forked_chain();
    let mut commit = Commit {
        target_hash: left.id,
        target_number: left.view,
        precommits: vec![signed(left, 0, 0), signed(left, 1, 1), signed(left, 1, 1)],
    };
    let found = validate_commit(&commit, &voters(4), &chain).unwrap();
    assert!(!found.is_valid());
    assert_eq!(found.num_duplicated_precommits(), 1);
    // A voter for the competing target does not help either.
    commit.precommits.push(signed(right, 2, 2));
    assert!(!validate_commit(&commit, &voters(4), &chain).unwrap().is_valid());
    // Unless it contradicts itself, and so counts for everything.
    commit.precommits.push(signed(right, 2, 3));
    let found = validate_commit(&commit, &voters(4), &chain).unwrap();
    assert!(found.is_valid());
    assert_eq!(found.num_equivocations(), 1);
}

#[test]
fn old_commits_stay_valid_after_the_tree_moved_on() {
    let (mut chain, [_, left, right, above_left, above_right]) = forked_chain();
    let commit = Commit {
        target_hash: left.id,
        target_number: left.view,
        precommits: vec![
            signed(left, 0, 0),
            signed(above_left, 1, 1),
            signed(above_left, 2, 2),
        ],
    };
    assert!(validate_commit(&commit, &voters(4), &chain).unwrap().is_valid());
    chain.finalize(above_right).unwrap();
    assert!(chain.is_equal_or_descendent_of(right.id, chain.finalized_target().id));
    assert!(validate_commit(&commit, &voters(4), &chain).unwrap().is_valid());
}

#[test]
fn the_base_is_a_target_like_any_other() {
    let (chain, [root, left, ..]) = forked_chain();
    let mut round = round(voters(1), left);
    // The base itself may be voted for, at its own view alone.
    assert_eq!(
        round.import_prevote(&chain, Prevote::new(left.id, 12), 0, 0),
        Err(Error::InvalidTarget)
    );
    assert_eq!(
        round.import_prevote(&chain, Prevote::new(root.id, root.view), 0, 0),
        Err(Error::NotDescendent)
    );
    prevote(&mut round, &chain, left, 0);
    precommit(&mut round, &chain, left, 0);
    assert_eq!(
        round.state(),
        RoundState {
            prevote_ghost: Some((left.id, 11)),
            finalized: Some((left.id, 11)),
            estimate: Some((left.id, 11)),
            completable: true,
        }
    );
}

#[test]
fn competing_commits_take_a_contradiction() {
    let (mut chain, [_, left, right, above_left, _]) = forked_chain();
    let commit = |target: TargetRef, votes: &[(u64, u64)]| Commit {
        target_hash: target.id,
        target_number: target.view,
        precommits: votes.iter().map(|(id, mark)| signed(target, *id, *mark)).collect(),
    };
    let first = commit(left, &[(0, 0), (1, 1), (2, 2)]);
    assert!(validate_commit(&first, &voters(4), &chain).unwrap().is_valid());
    // The remaining voter cannot make a competing target final.
    let second = commit(right, &[(3, 3)]);
    assert!(!validate_commit(&second, &voters(4), &chain).unwrap().is_valid());
    // Two of four voters that precommit for both sides can.
    let second = commit(right, &[(1, 1), (2, 2), (3, 3)]);
    assert!(validate_commit(&second, &voters(4), &chain).unwrap().is_valid());
    // The tree accepts what is final on one side only.
    chain.finalize(above_left).unwrap();
    assert!(chain.finalize(right).is_err());
}

#[test]
fn what_a_round_finalizes_is_accepted_by_the_tree() {
    let (mut chain, [root, left, _, above_left, _]) = forked_chain();
    let mut round = round(voters(4), root);
    for id in 0..3 {
        prevote(&mut round, &chain, above_left, id);
        precommit(&mut round, &chain, left, id);
    }
    let (id, view) = round.finalized().unwrap();
    let update = chain.finalize(TargetRef { id, view }).unwrap();
    assert_eq!(update.newly_finalized, vec![left]);
    assert_eq!(update.block, BlockRef { hash: 101, number: 101 });
}

#[test]
fn target_numbers_are_kept_as_far_as_their_type_goes() {
    assert_eq!(u32::from_u64(7), Some(7));
    assert_eq!(u32::from_u64(u32::MAX as u64), Some(u32::MAX));
    assert_eq!(u32::from_u64(u32::MAX as u64 + 1), None);
    assert_eq!(u64::from_u64(u64::MAX), Some(u64::MAX));
    assert_eq!(9u32.to_u64(), 9);
    assert_eq!(9u64.to_u64(), 9);
}

#[test]
fn ancestry_lists_outlast_imports_and_finality() {
    let (mut chain, [root, left, right, above_left, above_right]) = forked_chain();
    let before: Vec<_> =
        [above_left, above_right].iter().map(|tip| chain.ancestry(root.id, tip.id)).collect();
    assert_eq!(before, vec![Ok(vec![left.id]), Ok(vec![right.id])]);
    chain.finalize(right).unwrap();
    let target = chain.timeout(above_right.id).unwrap();
    let tip = chain.import(target).unwrap();
    chain.finalize(tip).unwrap();
    let after: Vec<_> =
        [above_left, above_right].iter().map(|tip| chain.ancestry(root.id, tip.id)).collect();
    assert_eq!(before, after);
}
