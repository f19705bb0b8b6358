//! What voters say to each other.
use vstd::prelude::*;

use crate::ident::{duplicate_option, same_option, Identity};

verus! {

/// A prevote for a consensus target and everything it descends from.
#[derive(Clone, Debug, PartialEq, Eq)]
pub struct Prevote<H, N> {
    /// The identity of the consensus target.
    pub target_hash: H,
    /// The view of the consensus target.
    pub target_number: N,
}

impl<H, N> Prevote<H, N> {
    /// A vote for the given target.
    pub fn new(target_hash: H, target_number: N) -> (r: Self)
        ensures
            r.target_hash == target_hash,
            r.target_number == target_number,
    {
        Prevote { target_hash, target_number }
    }
}

impl<H: Identity, N: Identity> Identity for Prevote<H, N> {
    fn same(&self, other: &Self) -> (r: bool) {
        self.target_hash.same(&other.target_hash) && self.target_number.same(&other.target_number)
    }

    fn duplicate(&self) -> (r: Self) {
        Prevote {
            target_hash: self.target_hash.duplicate(),
            target_number: self.target_number.duplicate(),
        }
    }
}

/// A precommit for a consensus target and everything it descends from.
#[derive(Clone, Debug, PartialEq, Eq)]
pub struct Precommit<H, N> {
    /// The identity of the consensus target.
    pub target_hash: H,
    /// The view of the consensus target.
    pub target_number: N,
}

impl<H, N> Precommit<H, N> {
    /// A vote for the given target.
    pub fn new(target_hash: H, target_number: N) -> (r: Self)
        ensures
            r.target_hash == target_hash,
            r.target_number == target_number,
    {
        Precommit { target_hash, target_number }
    }
}

impl<H: Identity, N: Identity> Identity for Precommit<H, N> {
    fn same(&self, other: &Self) -> (r: bool) {
        self.target_hash.same(&other.target_hash) && self.target_number.same(&other.target_number)
    }

    fn duplicate(&self) -> (r: Self) {
        Precommit {
            target_hash: self.target_hash.duplicate(),
            target_number: self.target_number.duplicate(),
        }
    }
}

/// The primary's hint at a target that the round should build on.
#[derive(Clone, Debug, PartialEq, Eq)]
pub struct PrimaryPropose<H, N> {
    /// The identity of the consensus target.
    pub target_hash: H,
    /// The view of the consensus target.
    pub target_number: N,
}

impl<H, N> PrimaryPropose<H, N> {
    /// A vote for the given target.
    pub fn new(target_hash: H, target_number: N) -> (r: Self)
        ensures
            r.target_hash == target_hash,
            r.target_number == target_number,
    {
        PrimaryPropose { target_hash, target_number }
    }
}

impl<H: Identity, N: Identity> Identity for PrimaryPropose<H, N> {
    fn same(&self, other: &Self) -> (r: bool) {
        self.target_hash.same(&other.target_hash) && self.target_number.same(&other.target_number)
    }

    fn duplicate(&self) -> (r: Self) {
        PrimaryPropose {
            target_hash: self.target_hash.duplicate(),
            target_number: self.target_number.duplicate(),
        }
    }
}

/// A message that a voter sends in a round.
#[derive(Clone, Debug, PartialEq, Eq)]
pub enum Message<H, N> {
    /// A prevote.
    Prevote(Prevote<H, N>),
    /// A precommit.
    Precommit(Precommit<H, N>),
    /// The primary's proposal.
    PrimaryPropose(PrimaryPropose<H, N>),
}

impl<H, N> Message<H, N> {
    /// The identity of the target that the message points at.
    pub open spec fn hash(self) -> H {
        match self {
            Message::Prevote(vote) => vote.target_hash,
            Message::Precommit(vote) => vote.target_hash,
            Message::PrimaryPropose(proposal) => proposal.target_hash,
        }
    }

    /// The view of the target that the message points at.
    pub open spec fn number(self) -> N {
        match self {
            Message::Prevote(vote) => vote.target_number,
            Message::Precommit(vote) => vote.target_number,
            Message::PrimaryPropose(proposal) => proposal.target_number,
        }
    }

    /// The identity and view of the target that the message points at.
    pub fn target(&self) -> (r: (&H, &N))
        ensures
            *r.0 == self.hash(),
            *r.1 == self.number(),
    {
        match self {
            Message::Prevote(vote) => (&vote.target_hash, &vote.target_number),
            Message::Precommit(vote) => (&vote.target_hash, &vote.target_number),
            Message::PrimaryPropose(proposal) => (&proposal.target_hash, &proposal.target_number),
        }
    }
}

impl<H: Identity, N: Identity> Identity for Message<H, N> {
    fn same(&self, other: &Self) -> (r: bool) {
        match (self, other) {
            (Message::Prevote(a), Message::Prevote(b)) => a.same(b),
            (Message::Precommit(a), Message::Precommit(b)) => a.same(b),
            (Message::PrimaryPropose(a), Message::PrimaryPropose(b)) => a.same(b),
            _ => false,
        }
    }

    fn duplicate(&self) -> (r: Self) {
        match self {
            Message::Prevote(vote) => Message::Prevote(vote.duplicate()),
            Message::Precommit(vote) => Message::Precommit(vote.duplicate()),
            Message::PrimaryPropose(proposal) => Message::PrimaryPropose(proposal.duplicate()),
        }
    }
}

/// A message with the identity and the signature of its sender.
#[derive(Clone, Debug, PartialEq, Eq)]
pub struct SignedMessage<H, N, S, I> {
    /// What was said.
    pub message: Message<H, N>,
    /// The signature of the sender.
    pub signature: S,
    /// The sender.
    pub id: I,
}

/// A precommit with the identity and the signature of its sender.
#[derive(Clone, Debug, PartialEq, Eq)]
pub struct SignedPrecommit<H, N, S, I> {
    /// The precommit.
    pub precommit: Precommit<H, N>,
    /// The signature of the sender.
    pub signature: S,
    /// The sender.
    pub id: I,
}

impl<H: Identity, N: Identity, S: Identity, I: Identity> Identity for SignedPrecommit<H, N, S, I> {
    fn same(&self, other: &Self) -> (r: bool) {
        self.precommit.same(&other.precommit) && self.signature.same(&other.signature)
            && self.id.same(&other.id)
    }

    fn duplicate(&self) -> (r: Self) {
        SignedPrecommit {
            precommit: self.precommit.duplicate(),
            signature: self.signature.duplicate(),
            id: self.id.duplicate(),
        }
    }
}

/// A claim that a target is final, with the precommits that show it.
#[derive(Clone, Debug, PartialEq, Eq)]
pub struct Commit<H, N, S, I> {
    /// The identity of the finalized target.
    pub target_hash: H,
    /// The view of the finalized target.
    pub target_number: N,
    /// The precommits for the target or its descendants.
    pub precommits: Vec<SignedPrecommit<H, N, S, I>>,
}

/// What a [`Commit`] holds.
#[verifier::ext_equal]
pub struct CommitView<H, N, S, I> {
    /// The identity of the finalized target.
    pub target_hash: H,
    /// The view of the finalized target.
    pub target_number: N,
    /// The precommits for the target or its descendants.
    pub precommits: Seq<SignedPrecommit<H, N, S, I>>,
}

impl<H, N, S, I> View for Commit<H, N, S, I> {
    type V = CommitView<H, N, S, I>;

    open spec fn view(&self) -> CommitView<H, N, S, I> {
        CommitView {
            target_hash: self.target_hash,
            target_number: self.target_number,
            precommits: self.precommits@,
        }
    }
}

impl<H: Identity, N: Identity, S: Identity, I: Identity> Commit<H, N, S, I> {
    /// A copy of the commit.
    pub fn duplicate(&self) -> (r: Self)
        ensures
            r@ == self@,
    {
        let mut precommits: Vec<SignedPrecommit<H, N, S, I>> = Vec::new();
        let mut next: usize = 0;
        while next < self.precommits.len()
            invariant
                next <= self.precommits.len(),
                precommits@ =~= self.precommits@.take(next as int),
            decreases self.precommits.len() - next,
        {
            precommits.push(self.precommits[next].duplicate());
            next += 1;
        }
        let r = Commit {
            target_hash: self.target_hash.duplicate(),
            target_number: self.target_number.duplicate(),
            precommits,
        };
        assert(r@ =~= self@);
        r
    }
}

/// Evidence that a voter voted twice in one phase of a round.
#[derive(Debug, PartialEq, Eq)]
pub struct Equivocation<I, V, S> {
    /// The round.
    pub round_number: u64,
    /// The voter.
    pub identity: I,
    /// The first vote and its signature.
    pub first: (V, S),
    /// The second vote and its signature.
    pub second: (V, S),
}

/// What importing a vote did.
#[derive(Debug, PartialEq, Eq)]
pub struct ImportResult<I, V, S> {
    /// The sender is a voter.
    pub valid_voter: bool,
    /// The very same vote had been imported before.
    pub duplicated: bool,
    /// The vote contradicts an earlier one of the sender.
    pub equivocation: Option<Equivocation<I, V, S>>,
}

/// The votes of a round in the order of their import, with the positions at
/// which the local voter voted.
#[derive(Clone, Debug, PartialEq, Eq)]
pub struct HistoricalVotes<H, N, S, I> {
    /// The imported votes.
    pub seen: Vec<SignedMessage<H, N, S, I>>,
    /// How many votes had been imported when the local prevote was cast.
    pub prevote_idx: Option<u64>,
    /// How many votes had been imported when the local precommit was cast.
    pub precommit_idx: Option<u64>,
}

/// What [`HistoricalVotes`] hold.
#[verifier::ext_equal]
pub struct HistoricalVotesView<H, N, S, I> {
    /// The imported votes.
    pub seen: Seq<SignedMessage<H, N, S, I>>,
    /// How many votes had been imported when the local prevote was cast.
    pub prevote_idx: Option<u64>,
    /// How many votes had been imported when the local precommit was cast.
    pub precommit_idx: Option<u64>,
}

impl<H, N, S, I> View for HistoricalVotes<H, N, S, I> {
    type V = HistoricalVotesView<H, N, S, I>;

    open spec fn view(&self) -> HistoricalVotesView<H, N, S, I> {
        HistoricalVotesView {
            seen: self.seen@,
            prevote_idx: self.prevote_idx,
            precommit_idx: self.precommit_idx,
        }
    }
}

/// What a round has established so far.
#[derive(Debug, PartialEq, Eq)]
pub struct RoundState<H, N> {
    /// The highest target that a supermajority of prevotes supports.
    pub prevote_ghost: Option<(H, N)>,
    /// The highest target that the round has finalized.
    pub finalized: Option<(H, N)>,
    /// The highest target that the round could still finalize.
    pub estimate: Option<(H, N)>,
    /// No target above the estimate can be finalized any more.
    pub completable: bool,
}

impl<H: Identity, N: Identity> RoundState<H, N> {
    /// The state before the first round.
    pub fn genesis(genesis: (H, N)) -> (r: Self)
        ensures
            r.prevote_ghost == Some(genesis),
            r.finalized == Some(genesis),
            r.estimate == Some(genesis),
            r.completable,
    {
        RoundState {
            prevote_ghost: Some(genesis.duplicate()),
            finalized: Some(genesis.duplicate()),
            estimate: Some(genesis),
            completable: true,
        }
    }
}

impl<H: Identity, N: Identity> Clone for RoundState<H, N> {
    fn clone(&self) -> (r: Self)
        ensures
            r == *self,
    {
        self.duplicate()
    }
}

impl<H: Identity, N: Identity> Identity for RoundState<H, N> {
    fn same(&self, other: &Self) -> (r: bool) {
        same_option(&self.prevote_ghost, &other.prevote_ghost) && same_option(
            &self.finalized,
            &other.finalized,
        ) && same_option(&self.estimate, &other.estimate) && self.completable == other.completable
    }

    fn duplicate(&self) -> (r: Self) {
        RoundState {
            prevote_ghost: duplicate_option(&self.prevote_ghost),
            finalized: duplicate_option(&self.finalized),
            estimate: duplicate_option(&self.estimate),
            completable: self.completable,
        }
    }
}

} // verus!
