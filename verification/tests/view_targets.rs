//! Rounds and commits over mixed histories of blocks and timeouts.

use finality_grandpa::chain::{Chain, Error};
use finality_grandpa::commit::validate_commit;
use finality_grandpa::messages::{Commit, Precommit, Prevote, SignedPrecommit};
use finality_grandpa::round::{Round, RoundParams};
use finality_grandpa::view::{BlockRef, TargetKind};
use finality_grandpa::view_chain::{ConsensusTarget, TargetId, TargetRef, ViewChain};
use finality_grandpa::voter_set::VoterSet;

type TestChain = ViewChain<[u8; 32], u64>;
type TestRound = Round<u64, TargetId, u64, u64>;

fn block(number: u64, tag: u8) -> BlockRef<[u8; 32], u64> {
    BlockRef { hash: [tag; 32], number }
}

fn chain() -> TestChain {
    TestChain::new(10, block(100, 0))
}

fn voters() -> VoterSet<u64> {
    VoterSet::new((0..4).map(|id| (id, 1)).collect()).unwrap()
}

fn round(base: TargetRef) -> TestRound {
    Round::new(RoundParams { round_number: 17, voters: voters(), base: (base.id, base.view) })
}

fn append_block(chain: &mut TestChain, parent: TargetRef, number: u64, tag: u8) -> TargetRef {
    let target = chain.block(parent.id, block(number, tag)).unwrap();
    chain.import(target).unwrap()
}

fn append_timeout(chain: &mut TestChain, parent: TargetRef) -> TargetRef {
    let target = chain.timeout(parent.id).unwrap();
    chain.import(target).unwrap()
}

fn signed_precommit(target: TargetRef, voter: u64) -> SignedPrecommit<TargetId, u64, u64, u64> {
    SignedPrecommit {
        precommit: Precommit::new(target.id, target.view),
        signature: voter,
        id: voter,
    }
}

#[test]
fn mixed_history_uses_view_for_ghost_finality_and_estimate() {
    let mut chain = chain();
    let root = chain.root();
    let first_block = append_block(&mut chain, root, 101, 1);
    let first_timeout = append_timeout(&mut chain, first_block);
    let second_timeout = append_timeout(&mut chain, first_timeout);
    let second_block = append_block(&mut chain, second_timeout, 102, 2);

    assert_eq!(second_block.view, 14);
    assert_eq!(
        chain.ancestry(root.id, second_block.id).unwrap(),
        vec![second_timeout.id, first_timeout.id, first_block.id],
    );

    let mut round = round(root);
    for id in 0..3 {
        round
            .import_prevote(&chain, Prevote::new(second_block.id, second_block.view), id, id)
            .unwrap();
    }
    assert_eq!(round.state().prevote_ghost, Some((second_block.id, 14)));
    assert_eq!(round.state().estimate, Some((second_block.id, 14)));
    assert_eq!(round.state().finalized, None);

    // One vote at the timeout plus two at its block descendant finalizes the
    // timeout, without inventing a real block at either timeout's view.
    for (id, target) in [(0, second_timeout), (1, second_block), (2, second_block)] {
        round
            .import_precommit(&chain, Precommit::new(target.id, target.view), id, id)
            .unwrap();
    }
    assert_eq!(round.precommit_ghost(), Some((second_timeout.id, 13)));
    assert_eq!(round.state().finalized, Some((second_timeout.id, 13)));
    assert_eq!(round.state().estimate, Some((second_block.id, 14)));

    // The fourth precommit supplies a true supermajority for the block itself.
    round
        .import_precommit(&chain, Precommit::new(second_block.id, second_block.view), 3, 3)
        .unwrap();
    assert_eq!(round.state().finalized, Some((second_block.id, 14)));
    assert_eq!(round.state().estimate, Some((second_block.id, 14)));
    assert!(round.state().completable);
}

#[test]
fn block_and_timeout_at_the_same_view_do_not_merge_voting_weight() {
    let mut chain = chain();
    let root = chain.root();
    let block = append_block(&mut chain, root, 101, 1);
    let timeout = append_timeout(&mut chain, root);
    assert_eq!(block.view, timeout.view);
    assert_ne!(block.id, timeout.id);
    assert!(!chain.is_equal_or_descendent_of(block.id, timeout.id));
    assert!(!chain.is_equal_or_descendent_of(timeout.id, block.id));

    let mut round = round(root);
    for (id, target) in [(0, block), (1, block), (2, timeout), (3, timeout)] {
        round
            .import_prevote(&chain, Prevote::new(target.id, target.view), id, id)
            .unwrap();
        round
            .import_precommit(&chain, Precommit::new(target.id, target.view), id, id)
            .unwrap();
    }

    assert_eq!(round.state().prevote_ghost, Some((root.id, root.view)));
    assert_eq!(round.precommit_ghost(), Some((root.id, root.view)));
    assert_eq!(round.state().finalized, Some((root.id, root.view)));
    assert_eq!(round.state().estimate, Some((root.id, root.view)));
}

#[test]
fn block_and_timeout_by_one_voter_are_equivocations_in_each_phase() {
    let mut chain = chain();
    let root = chain.root();
    let block = append_block(&mut chain, root, 101, 1);
    let timeout = append_timeout(&mut chain, root);
    let mut round = round(root);

    let block_prevote = Prevote::new(block.id, block.view);
    let timeout_prevote = Prevote::new(timeout.id, timeout.view);
    assert!(round
        .import_prevote(&chain, block_prevote.clone(), 0, 0)
        .unwrap()
        .equivocation
        .is_none());
    assert!(round.import_prevote(&chain, block_prevote.clone(), 0, 0).unwrap().duplicated);
    let equivocation = round
        .import_prevote(&chain, timeout_prevote.clone(), 0, 0)
        .unwrap()
        .equivocation
        .expect("Block and Timeout are distinct targets, even at the same view");
    assert_eq!(equivocation.round_number, 17);
    assert_eq!(equivocation.first.0, block_prevote);
    assert_eq!(equivocation.second.0, timeout_prevote);
    assert_eq!(round.prevote_participation().1, 1);

    let block_precommit = Precommit::new(block.id, block.view);
    let timeout_precommit = Precommit::new(timeout.id, timeout.view);
    round.import_precommit(&chain, block_precommit.clone(), 0, 0).unwrap();
    let equivocation = round
        .import_precommit(&chain, timeout_precommit.clone(), 0, 0)
        .unwrap()
        .equivocation
        .unwrap();
    assert_eq!(equivocation.first.0, block_precommit);
    assert_eq!(equivocation.second.0, timeout_precommit);
    assert_eq!(round.precommit_participation().1, 1);
}

#[test]
fn timeout_commit_accepts_descendant_votes_and_finalizes_preceding_real_block() {
    let mut chain = chain();
    let root = chain.root();
    let first_block = append_block(&mut chain, root, 101, 1);
    let timeout = append_timeout(&mut chain, first_block);
    let descendant = append_block(&mut chain, timeout, 102, 2);
    let commit = Commit {
        target_hash: timeout.id,
        target_number: timeout.view,
        precommits: vec![
            signed_precommit(timeout, 0),
            signed_precommit(descendant, 1),
            signed_precommit(descendant, 2),
        ],
    };
    assert!(validate_commit(&commit, &voters(), &chain).unwrap().is_valid());

    let finalized = chain.finalize(timeout).unwrap();
    assert_eq!(finalized.target, timeout);
    assert_eq!(finalized.block, block(101, 1));
    assert!(finalized.block_changed);
    assert_eq!(finalized.newly_finalized.len(), 2);

    // Another timeout advances finality, but the projected block does not move.
    let next_timeout = append_timeout(&mut chain, timeout);
    let finalized = chain.finalize(next_timeout).unwrap();
    assert_eq!(finalized.target.view, timeout.view + 1);
    assert_eq!(finalized.block, block(101, 1));
    assert!(!finalized.block_changed);
}

#[test]
fn finalized_timeout_rejects_late_block_but_accepts_a_block_in_the_next_view() {
    let mut chain = chain();
    let root = chain.root();
    let timeout = append_timeout(&mut chain, root);
    // Capture the exact competing candidate before finality so its rejection
    // cannot be attributed to an inability to construct it after finality.
    let late_block = chain.block(root.id, block(101, 1)).unwrap();
    let existing_conflict = append_block(&mut chain, root, 101, 2);
    let finalized = chain.finalize(timeout).unwrap();
    assert_eq!(finalized.block, block(100, 0));
    assert!(!finalized.block_changed);
    assert!(chain.import(late_block).is_err());
    assert!(chain.finalize(existing_conflict).is_err());

    let next_block = append_block(&mut chain, timeout, 101, 3);
    assert_eq!(next_block.view, timeout.view + 1);
    assert_eq!(chain.finalize(next_block).unwrap().block, block(101, 3));
}

#[test]
fn malformed_view_and_real_block_height_are_rejected_before_round_import() {
    let mut chain = chain();
    let root = chain.root();
    let timeout = append_timeout(&mut chain, root);

    // View advances on every edge, even when real block height does not.
    let skipped_view = ConsensusTarget {
        parent: Some(timeout.id),
        view: timeout.view + 2,
        kind: TargetKind::ViewTimeout,
    };
    assert!(chain.import(skipped_view).is_err());
    let wrong_block_number = ConsensusTarget {
        parent: Some(timeout.id),
        view: timeout.view + 1,
        kind: TargetKind::Block(block(102, 1)),
    };
    assert!(chain.import(wrong_block_number).is_err());
    let same_block_number = ConsensusTarget {
        parent: Some(timeout.id),
        view: timeout.view + 1,
        kind: TargetKind::Block(block(100, 1)),
    };
    assert!(chain.import(same_block_number).is_err());

    // Neither invalid candidate should prevent importing the legitimate child.
    let next_block = append_block(&mut chain, timeout, 101, 1);
    assert_eq!(chain.ancestry(root.id, next_block.id).unwrap(), vec![timeout.id]);
}

#[test]
fn round_rejects_unknown_or_forged_views_without_consuming_the_voters_vote() {
    let mut chain = chain();
    let root = chain.root();
    let timeout = append_timeout(&mut chain, root);
    let mut round = round(root);
    for invalid in [
        TargetRef { id: 99, view: timeout.view },
        TargetRef { id: timeout.id, view: timeout.view + 1 },
    ] {
        assert!(matches!(
            round.import_prevote(&chain, Prevote::new(invalid.id, invalid.view), 0, 0),
            Err(Error::InvalidTarget),
        ));
        assert!(matches!(
            round.import_precommit(&chain, Precommit::new(invalid.id, invalid.view), 0, 0),
            Err(Error::InvalidTarget),
        ));
    }
    assert_eq!(round.prevote_participation().1, 0);
    assert_eq!(round.precommit_participation().1, 0);
    assert_eq!(round.state().prevote_ghost, None);
    assert_eq!(round.state().finalized, None);

    let valid = round
        .import_prevote(&chain, Prevote::new(timeout.id, timeout.view), 0, 0)
        .unwrap();
    assert!(valid.valid_voter);
    assert!(!valid.duplicated);
    assert!(valid.equivocation.is_none());
    let valid = round
        .import_precommit(&chain, Precommit::new(timeout.id, timeout.view), 0, 0)
        .unwrap();
    assert!(valid.valid_voter);
    assert!(!valid.duplicated);
    assert!(valid.equivocation.is_none());
    assert_eq!(round.prevote_participation().1, 1);
    assert_eq!(round.precommit_participation().1, 1);
}

#[test]
fn round_rejects_a_known_competing_block_before_tracking_the_vote() {
    let mut chain = chain();
    let root = chain.root();
    let timeout = append_timeout(&mut chain, root);
    let block = append_block(&mut chain, root, 101, 1);
    let mut round = round(timeout);
    assert!(matches!(
        round.import_prevote(&chain, Prevote::new(block.id, block.view), 0, 0),
        Err(Error::NotDescendent),
    ));
    assert!(matches!(
        round.import_precommit(&chain, Precommit::new(block.id, block.view), 0, 0),
        Err(Error::NotDescendent),
    ));
    let prevote = round
        .import_prevote(&chain, Prevote::new(timeout.id, timeout.view), 0, 0)
        .unwrap();
    let precommit = round
        .import_precommit(&chain, Precommit::new(timeout.id, timeout.view), 0, 0)
        .unwrap();
    assert!(!prevote.duplicated && prevote.equivocation.is_none());
    assert!(!precommit.duplicated && precommit.equivocation.is_none());
}

#[test]
fn commit_validation_rejects_forged_views_but_ignores_nonvoter_metadata() {
    let mut chain = chain();
    let root = chain.root();
    let timeout = append_timeout(&mut chain, root);
    let valid = Commit {
        target_hash: timeout.id,
        target_number: timeout.view,
        precommits: (0..3).map(|id| signed_precommit(timeout, id)).collect(),
    };
    assert!(validate_commit(&valid, &voters(), &chain).unwrap().is_valid());

    let mut wrong_commit_view = valid.clone();
    wrong_commit_view.target_number += 1;
    let mut unknown_commit = valid.clone();
    unknown_commit.target_hash = 99;
    let mut wrong_vote_view = valid.clone();
    wrong_vote_view.precommits[0].precommit.target_number += 1;
    let mut unknown_vote = valid.clone();
    unknown_vote.precommits[0].precommit.target_hash = 99;
    let mut forged_height_everywhere = valid.clone();
    forged_height_everywhere.target_number += 100;
    for signed in &mut forged_height_everywhere.precommits {
        signed.precommit.target_number = forged_height_everywhere.target_number;
    }
    for invalid in
        [wrong_commit_view, unknown_commit, wrong_vote_view, unknown_vote, forged_height_everywhere]
    {
        assert!(!validate_commit(&invalid, &voters(), &chain).unwrap().is_valid());
    }

    let mut with_nonvoter = valid;
    with_nonvoter
        .precommits
        .push(signed_precommit(TargetRef { id: 99, view: u64::MAX }, 99));
    let validation = validate_commit(&with_nonvoter, &voters(), &chain).unwrap();
    assert!(validation.is_valid());
    assert_eq!(validation.num_invalid_voters(), 1);
}

#[test]
fn mixed_sequences_preserve_ancestry_round_finality_and_block_projection() {
    // Enumerate all eight-event Block/Timeout sequences. In particular this
    // includes runs consisting entirely of timeouts and transitions after
    // several timeouts, where using block_number as graph height would fail.
    for pattern in 0u16..256 {
        let mut chain = chain();
        let root = chain.root();
        let mut path = vec![root];
        let mut latest = block(100, 0);
        for step in 0..8 {
            let parent = *path.last().unwrap();
            let next = if pattern & (1 << step) == 0 {
                append_timeout(&mut chain, parent)
            } else {
                latest = block(latest.number + 1, step as u8 + 1);
                append_block(&mut chain, parent, latest.number, step as u8 + 1)
            };
            assert_eq!(next.view, root.view + step + 1);
            path.push(next);
        }
        let tip = *path.last().unwrap();
        for (index, ancestor) in path.iter().take(8).enumerate() {
            let expected: Vec<_> = path[index + 1..8].iter().rev().map(|x| x.id).collect();
            assert_eq!(chain.ancestry(ancestor.id, tip.id).unwrap(), expected);
        }

        let mut round = round(root);
        for voter in 0..3 {
            round
                .import_prevote(&chain, Prevote::new(tip.id, tip.view), voter, voter)
                .unwrap();
            round
                .import_precommit(&chain, Precommit::new(tip.id, tip.view), voter, voter)
                .unwrap();
        }
        assert_eq!(round.state().prevote_ghost, Some((tip.id, tip.view)));
        assert_eq!(round.state().finalized, Some((tip.id, tip.view)));
        assert_eq!(round.state().estimate, Some((tip.id, tip.view)));
        assert!(round.state().completable);
        let finalized = chain.finalize(tip).unwrap();
        assert_eq!(finalized.block, latest);
        assert_eq!(finalized.newly_finalized.len(), 8);
        assert_eq!(finalized.block_changed, pattern != 0);
    }
}
