//! A host of the voter: it owns the consensus tree, offers candidates for votes,
//! and keeps a durable record of finality.
use std::collections::VecDeque;

use vstd::prelude::*;

use crate::chain::{Chain, Error, VoteTarget};
use crate::ident::Identity;
use crate::messages::{Commit, CommitView};
use crate::number::BlockNumber;
use crate::tree::{FinalizationView, Tree};
use crate::tree_laws::{imports, one_step};
use crate::view_chain::{
    ConsensusTarget, Finalization, TargetId, TargetRef, ViewChain, ViewError, ViewNumber,
};
use crate::voting_round::Signal;

verus! {

/// What went wrong, in words.
#[derive(Clone, Debug, PartialEq, Eq)]
pub struct HostError(pub String);

impl View for HostError {
    type V = Seq<char>;

    open spec fn view(&self) -> Seq<char> {
        self.0@
    }
}

impl HostError {
    /// A vote or a query was rejected.
    pub fn from_error(error: Error) -> (r: Self)
        ensures
            r@ == error.spec_name(),
    {
        HostError(error.name().to_owned())
    }

    /// A target or an operation on the tree was refused.
    pub fn from_view_error(error: ViewError) -> (r: Self)
        ensures
            r@ == error.spec_message(),
    {
        HostError(error.message().to_owned())
    }
}

/// A finalized target as it was persisted, with the round that finalized it and
/// the proof.
#[derive(Debug)]
pub struct SavedFinality<S, I> {
    /// The finalized target.
    pub target: TargetRef,
    /// The round that finalized it.
    pub round: u64,
    /// The proof.
    pub commit: Commit<TargetId, ViewNumber, S, I>,
}

/// What [`SavedFinality`] holds.
#[verifier::ext_equal]
pub struct SavedFinalityView<S, I> {
    /// The finalized target.
    pub target: TargetRef,
    /// The round that finalized it.
    pub round: u64,
    /// The proof.
    pub commit: CommitView<TargetId, ViewNumber, S, I>,
}

impl<S, I> View for SavedFinality<S, I> {
    type V = SavedFinalityView<S, I>;

    open spec fn view(&self) -> SavedFinalityView<S, I> {
        SavedFinalityView { target: self.target, round: self.round, commit: self.commit@ }
    }
}

/// What a host holds.
#[verifier::ext_equal]
pub struct HostView<H, N, S, I> {
    /// The consensus tree.
    pub tree: Tree<H, N>,
    /// Targets to be offered for votes, the first one first.
    pub candidates: Seq<ConsensusTarget<H, N>>,
    /// The accepted finality changes, with the rounds that made them.
    pub finalizations: Seq<(u64, FinalizationView<H, N>)>,
    /// The last persisted finality.
    pub durable: Option<SavedFinalityView<S, I>>,
    /// Whether persisting fails.
    pub fail_persistence: bool,
}

impl<H, N: BlockNumber, S, I> HostView<H, N, S, I> {
    /// The tree is well formed, and what is durable is what is final.
    pub open spec fn well_formed(self) -> bool {
        &&& self.tree.well_formed()
        &&& self.durable is Some <==> self.finalizations.len() > 0
        &&& self.durable matches Some(saved) ==> {
            &&& saved.target == self.tree.finalized
            &&& saved.commit.target_hash == saved.target.id
            &&& saved.commit.target_number == saved.target.view
            &&& self.finalizations.last().0 == saved.round
            &&& self.finalizations.last().1.target == saved.target
        }
    }

    /// The host after it offered its first candidate: the candidate is gone from
    /// the queue and, unless it was refused, is in the tree.
    pub open spec fn after_offer(self) -> Self {
        if self.candidates.len() == 0 {
            self
        } else {
            HostView {
                tree: self.tree.after_import(self.candidates[0]),
                candidates: self.candidates.drop_first(),
                ..self
            }
        }
    }

    /// The host after it accepted and persisted a finalized target.
    pub open spec fn after_finality(
        self,
        target: TargetRef,
        round: u64,
        commit: CommitView<TargetId, ViewNumber, S, I>,
    ) -> Self {
        HostView {
            tree: self.tree.with_finalized(target),
            finalizations: self.finalizations.push((round, self.tree.finalization(target))),
            durable: Some(SavedFinalityView { target, round, commit }),
            ..self
        }
    }

    /// A proof that comes with a finalized target: it is for the target, and one
    /// precommit makes it.
    pub open spec fn is_proof(
        target: TargetRef,
        commit: CommitView<TargetId, ViewNumber, S, I>,
    ) -> bool {
        &&& (commit.target_hash, commit.target_number) == (target.id, target.view)
        &&& commit.precommits.len() == 1
    }
}

/// The owner of a consensus tree.
#[derive(Debug)]
pub struct Host<H, N, S, I> {
    chain: ViewChain<H, N>,
    candidates: VecDeque<ConsensusTarget<H, N>>,
    finalizations: Vec<(u64, Finalization<H, N>)>,
    durable: Option<SavedFinality<S, I>>,
    fail_persistence: bool,
}

/// What an optional record holds.
pub open spec fn saved_view<S, I>(saved: Option<SavedFinality<S, I>>) -> Option<
    SavedFinalityView<S, I>,
> {
    match saved {
        Some(saved) => Some(saved@),
        None => None,
    }
}

impl<H, N, S, I> View for Host<H, N, S, I> {
    type V = HostView<H, N, S, I>;

    closed spec fn view(&self) -> HostView<H, N, S, I> {
        HostView {
            tree: self.chain@,
            candidates: self.candidates@,
            finalizations: self.finalizations@.map_values(
                |change: (u64, Finalization<H, N>)| (change.0, change.1@),
            ),
            durable: saved_view(self.durable),
            fail_persistence: self.fail_persistence,
        }
    }
}

impl<H: Identity, N: BlockNumber, S, I> Host<H, N, S, I> {
    /// A host of the given tree that has not persisted anything yet.
    pub fn new(
        chain: ViewChain<H, N>,
        candidates: VecDeque<ConsensusTarget<H, N>>,
        fail_persistence: bool,
    ) -> (r: Self)
        requires
            chain@.well_formed(),
        ensures
            r@.well_formed(),
            r@ == (HostView::<H, N, S, I> {
                tree: chain@,
                candidates: candidates@,
                finalizations: Seq::empty(),
                durable: None,
                fail_persistence,
            }),
    {
        let r = Host {
            chain,
            candidates,
            finalizations: Vec::new(),
            durable: None,
            fail_persistence,
        };
        assert(r@.finalizations =~= Seq::empty());
        r
    }

    /// The consensus tree.
    pub fn chain(&self) -> (r: &ViewChain<H, N>)
        ensures
            r@ == self@.tree,
    {
        &self.chain
    }

    /// The accepted finality changes, with the rounds that made them.
    pub fn finalizations(&self) -> (r: &Vec<(u64, Finalization<H, N>)>)
        ensures
            r@.len() == self@.finalizations.len(),
            forall|i: int|
                0 <= i < r@.len() ==> (#[trigger] r@[i]).0 == self@.finalizations[i].0 && r@[i].1@
                    == self@.finalizations[i].1,
    {
        &self.finalizations
    }

    /// The last persisted finality.
    pub fn durable(&self) -> (r: Option<&SavedFinality<S, I>>)
        ensures
            match r {
                Some(saved) => self@.durable == Some(saved@),
                None => self@.durable is None,
            },
    {
        self.durable.as_ref()
    }

    /// Offer the first candidate for a vote, provided that it descends from `base`.
    ///
    /// The candidate is stored before its typed vote target is returned. Without a
    /// candidate there is nothing to vote for yet.
    pub fn best_chain_containing(&mut self, base: TargetId) -> (r: Signal<
        Option<VoteTarget<TargetId, ViewNumber>>,
        HostError,
    >)
        requires
            old(self)@.well_formed(),
            old(self)@.candidates.len() > 0 ==> old(self)@.tree.has_room_for(
                old(self)@.candidates[0],
            ),
        ensures
            final(self)@.well_formed(),
            final(self)@ == old(self)@.after_offer(),
            if old(self)@.candidates.len() == 0 {
                r is Pending
            } else {
                match old(self)@.tree.import_result(old(self)@.candidates[0]) {
                    Err(e) => r matches Signal::Failed(error) && error@ == e.spec_message(),
                    Ok(target) => if final(self)@.tree.descends(base, target.id) {
                        r matches Signal::Ready(offer) && offer == final(self)@.tree.vote_target(
                            target.id,
                        )
                    } else {
                        r matches Signal::Failed(error) && error@
                            == Error::NotDescendent.spec_name()
                    },
                }
            },
    {
        let ghost before = self@;
        let candidate = match self.candidates.pop_front() {
            Some(candidate) => candidate,
            None => {
                return Signal::Pending;
            },
        };
        assert(self.candidates@ =~= before.candidates.drop_first());
        let imported = self.chain.import(candidate);
        assert(self@ =~= before.after_offer());
        match imported {
            Err(e) => Signal::Failed(HostError::from_view_error(e)),
            Ok(target) => {
                if !self.chain.is_equal_or_descendent_of(base, target.id) {
                    return Signal::Failed(HostError::from_error(Error::NotDescendent));
                }
                Signal::Ready(self.chain.vote_target(target.id))
            },
        }
    }

    /// Accept a finalized target with its proof: persist it, note the changes, and
    /// then move the finality of the tree.
    ///
    /// A target that cannot be finalized is refused. If persisting fails, nothing
    /// changes.
    pub fn finalize_target(
        &mut self,
        hash: TargetId,
        view: ViewNumber,
        round: u64,
        commit: Commit<TargetId, ViewNumber, S, I>,
    ) -> (r: Result<(), HostError>)
        requires
            old(self)@.well_formed(),
            old(self)@.tree.finalization_error((TargetRef { id: hash, view })) is None
                ==> HostView::<H, N, S, I>::is_proof((TargetRef { id: hash, view }), commit@),
        ensures
            final(self)@.well_formed(),
            match old(self)@.tree.finalization_error((TargetRef { id: hash, view })) {
                Some(e) => {
                    &&& r matches Err(error) && error@ == e.spec_message()
                    &&& final(self)@ == old(self)@
                },
                None => if old(self)@.fail_persistence {
                    &&& r matches Err(error) && error@ == "persistence failure"@
                    &&& final(self)@ == old(self)@
                } else {
                    &&& r is Ok
                    &&& final(self)@ == old(self)@.after_finality(
                        (TargetRef { id: hash, view }),
                        round,
                        commit@,
                    )
                },
            },
    {
        let ghost before = self@;
        let target = TargetRef { id: hash, view };
        let finalization = match self.chain.preview_finalization(target) {
            Ok(finalization) => finalization,
            Err(e) => {
                return Err(HostError::from_view_error(e));
            },
        };
        if self.fail_persistence {
            return Err(HostError("persistence failure".to_owned()));
        }
        self.durable = Some(SavedFinality { target, round, commit });
        self.finalizations.push((round, finalization));
        match self.chain.finalize(target) {
            Ok(_) => {
                assert(self@ =~= before.after_finality(target, round, commit@));
                Ok(())
            },
            Err(e) => Err(HostError::from_view_error(e)),
        }
    }
}

impl<H: Identity, N: BlockNumber, S, I> Chain<TargetId, ViewNumber> for Host<H, N, S, I> {
    open spec fn consistent(&self) -> bool {
        self@.tree.well_formed()
    }

    open spec fn target_at(&self, hash: TargetId) -> Option<VoteTarget<TargetId, ViewNumber>> {
        self@.tree.vote_target(hash)
    }

    open spec fn ancestors(&self, base: TargetId, block: TargetId) -> Result<Seq<TargetId>, Error> {
        if self@.tree.descends(base, block) {
            Ok(self@.tree.between(base, block))
        } else {
            Err(Error::NotDescendent)
        }
    }

    open spec fn reaches(&self, base: TargetId, block: TargetId) -> bool {
        self@.tree.descends(base, block)
    }

    fn vote_target(&self, hash: TargetId) -> (r: Option<VoteTarget<TargetId, ViewNumber>>) {
        self.chain.vote_target(hash)
    }

    fn ancestry(&self, base: TargetId, block: TargetId) -> (r: Result<Vec<TargetId>, Error>) {
        self.chain.ancestry(base, block)
    }

    fn is_equal_or_descendent_of(&self, base: TargetId, block: TargetId) -> (r: bool) {
        self.chain.is_equal_or_descendent_of(base, block)
    }
}

/// Whatever a host accepts takes its tree one step further, so that everything
/// that holds of the history of a tree holds of a host's tree.
pub proof fn hosts_advance_their_tree_step_by_step<H, N: BlockNumber, S, I>(
    host: HostView<H, N, S, I>,
    target: TargetRef,
    round: u64,
    commit: CommitView<TargetId, ViewNumber, S, I>,
)
    requires
        host.well_formed(),
        host.candidates.len() > 0 ==> host.tree.has_room_for(host.candidates[0]),
    ensures
        one_step(host.tree, host.after_offer().tree),
        host.after_offer().tree.finalized == host.tree.finalized,
        host.tree.finalization_error(target) is None ==> one_step(
            host.tree,
            host.after_finality(target, round, commit).tree,
        ),
{
    if host.candidates.len() > 0 {
        let candidate = host.candidates[0];
        let after = host.tree.after_import(candidate);
        if after != host.tree {
            assert(imports(host.tree, candidate, after));
        }
    }
}

} // verus!
