//! The votes of one round and what they establish.
use vstd::prelude::*;

use crate::chain::{Chain, Error};
use crate::ident::Identity;
use crate::messages::{
    Equivocation, HistoricalVotes, HistoricalVotesView, ImportResult, Message, Precommit, Prevote,
    RoundState, SignedMessage, SignedPrecommit,
};
use crate::number::TargetNumber;
use crate::tally::{
    added, ballot_after, ballots_fit, beginning, cast, child_towards, climb, equivocated,
    ghost_of, has_supermajority, highest, lemma_climb, lemma_highest, lemma_support, passes,
    support, turnout, votes_upto, Added, BallotView, Ballots, Tally,
};
use crate::voter_set::{is_voter, listed_once, position_of, VoteWeight, VoterSet};
use crate::weights::{supermajority, tolerated, total_of};

verus! {

/// The chain holds a target of this identity and view.
pub open spec fn target_is_known<H, N: TargetNumber, C: Chain<H, N>>(
    chain: C,
    hash: H,
    number: N,
) -> bool {
    chain.target_at(hash) matches Some(target) && target.hash() == hash && target.number()
        == number
}

/// The path from the base of a round to a target, both included, or why a vote
/// for the target is not acceptable.
pub open spec fn vote_path<H, N: TargetNumber, C: Chain<H, N>>(
    chain: C,
    base: (H, N),
    hash: H,
    number: N,
) -> Result<Seq<H>, Error> {
    if !target_is_known(chain, hash, number) {
        Err(Error::InvalidTarget)
    } else if !chain.reaches(base.0, hash) {
        Err(Error::NotDescendent)
    } else if hash == base.0 {
        if number == base.1 {
            Ok(seq![hash])
        } else {
            Err(Error::InvalidTarget)
        }
    } else {
        match chain.ancestors(base.0, hash) {
            Err(e) => Err(e),
            Ok(between) => if number.value() == base.1.value() + between.len() + 1 {
                Ok(seq![base.0] + between.reverse() + seq![hash])
            } else {
                Err(Error::InvalidTarget)
            },
        }
    }
}

/// Whether the chain holds a target of this identity and view.
pub fn is_known_target<H: Identity, N: TargetNumber, C: Chain<H, N>>(
    chain: &C,
    hash: &H,
    number: &N,
) -> (r: bool)
    requires
        chain.consistent(),
    ensures
        r == target_is_known(*chain, *hash, *number),
{
    match chain.vote_target(hash.duplicate()) {
        Some(target) => target.target().0.same(hash) && target.target().1.same(number),
        None => false,
    }
}

/// The path from the base of a round to a target, both included, or why a vote
/// for the target is not acceptable.
fn path_of_vote<H: Identity, N: TargetNumber, C: Chain<H, N>>(
    chain: &C,
    base: &(H, N),
    hash: &H,
    number: &N,
) -> (r: Result<Vec<H>, Error>)
    requires
        chain.consistent(),
    ensures
        match r {
            Ok(path) => vote_path(*chain, *base, *hash, *number) == Ok::<Seq<H>, Error>(path@),
            Err(e) => vote_path(*chain, *base, *hash, *number) == Err::<Seq<H>, Error>(e),
        },
{
    if !is_known_target(chain, hash, number) {
        return Err(Error::InvalidTarget);
    }
    if !chain.is_equal_or_descendent_of(base.0.duplicate(), hash.duplicate()) {
        return Err(Error::NotDescendent);
    }
    let mut path: Vec<H> = Vec::new();
    path.push(base.0.duplicate());
    if hash.same(&base.0) {
        if !number.same(&base.1) {
            return Err(Error::InvalidTarget);
        }
        assert(path@ =~= seq![*hash]);
        return Ok(path);
    }
    let between = match chain.ancestry(base.0.duplicate(), hash.duplicate()) {
        Ok(between) => between,
        Err(e) => {
            return Err(e);
        },
    };
    let (height, start) = (number.to_u64(), base.1.to_u64());
    if height <= start || height - start - 1 != between.len() as u64 {
        return Err(Error::InvalidTarget);
    }
    let mut left: usize = between.len();
    while left > 0
        invariant
            left <= between.len(),
            path@ =~= seq![base.0] + between@.reverse().take(between.len() - left),
        decreases left,
    {
        left -= 1;
        path.push(between[left].duplicate());
    }
    path.push(hash.duplicate());
    assert(path@ =~= seq![base.0] + between@.reverse() + seq![*hash]);
    Ok(path)
}

/// Selects the targets that a supermajority of precommits could still count for:
/// every voter that has not precommitted may yet do so, and voters that have may
/// equivocate as far as misbehaviour is tolerated.
pub open spec fn could_commit<I, H, N: TargetNumber, S>(
    voters: Seq<(I, u64)>,
    precommits: Ballots<H, N, S>,
) -> spec_fn(Seq<H>) -> bool {
    |target: Seq<H>| reachable_weight(voters, precommits, target) >= supermajority(total_of(voters))
}

/// The precommit weight that a target could still reach.
pub open spec fn reachable_weight<I, H, N: TargetNumber, S>(
    voters: Seq<(I, u64)>,
    precommits: Ballots<H, N, S>,
    target: Seq<H>,
) -> int {
    let total = total_of(voters);
    let backed = support(voters, precommits, target);
    let elsewhere = cast(voters, precommits) - backed;
    let spare = tolerated(total) - equivocated(voters, precommits);
    backed + (total - cast(voters, precommits)) + if spare <= 0 {
        0
    } else if elsewhere < spare {
        elsewhere
    } else {
        spare
    }
}

/// How many prevotes, or else precommits, of a voter are in a history.
pub open spec fn times_seen<I, H, N: TargetNumber, S>(
    seen: Seq<SignedMessage<H, N, S, I>>,
    id: I,
    prevotes: bool,
) -> nat
    decreases seen.len(),
{
    if seen.len() == 0 {
        0
    } else {
        let last = seen.last();
        let counts = last.id == id && if prevotes {
            last.message is Prevote
        } else {
            last.message is Precommit
        };
        times_seen(seen.drop_last(), id, prevotes) + if counts {
            1nat
        } else {
            0nat
        }
    }
}

/// How many votes a ballot holds.
pub open spec fn votes_in<H, N: TargetNumber, S>(ballot: Option<BallotView<H, N, S>>) -> nat {
    match ballot {
        None => 0,
        Some(ballot) => if ballot.second is Some {
            2
        } else {
            1
        },
    }
}

/// What a round holds.
#[verifier::ext_equal]
pub struct RoundView<I, H, N, S> {
    /// The number of the round.
    pub number: u64,
    /// The target that every vote must reach.
    pub base: (H, N),
    /// The voters and their weights.
    pub voters: Seq<(I, u64)>,
    /// The prevotes.
    pub prevotes: Ballots<H, N, S>,
    /// The precommits.
    pub precommits: Ballots<H, N, S>,
    /// The votes in the order of their import.
    pub history: HistoricalVotesView<H, N, S, I>,
}

impl<I, H, N: TargetNumber, S> RoundView<I, H, N, S> {
    /// Every ballot belongs to a voter and fits the base.
    pub open spec fn well_formed(self) -> bool {
        &&& self.voters.len() > 0
        &&& listed_once(self.voters)
        &&& forall|i: int| 0 <= i < self.voters.len() ==> (#[trigger] self.voters[i]).1 > 0
        &&& 0 < total_of(self.voters) <= u64::MAX
        &&& self.prevotes.len() == self.voters.len()
        &&& self.precommits.len() == self.voters.len()
        &&& ballots_fit(self.prevotes, self.base)
        &&& ballots_fit(self.precommits, self.base)
        &&& forall|i: int|
            0 <= i < self.voters.len() ==> times_seen(
                self.history.seen,
                (#[trigger] self.voters[i]).0,
                true,
            ) == votes_in(self.prevotes[i])
        &&& forall|i: int|
            0 <= i < self.voters.len() ==> times_seen(
                self.history.seen,
                (#[trigger] self.voters[i]).0,
                false,
            ) == votes_in(self.precommits[i])
    }

    /// The weight that constitutes a supermajority.
    pub open spec fn threshold(self) -> nat {
        supermajority(total_of(self.voters))
    }

    /// The identity and view of the target that a path leads to.
    pub open spec fn target(self, path: Seq<H>) -> (H, N) {
        (path.last(), N::with_value((self.base.1.value() + path.len() - 1) as nat)->0)
    }

    /// A path leads somewhere, and the view there is a number.
    pub open spec fn leads_to_a_target(self, path: Seq<H>) -> bool {
        0 < path.len() && N::with_value((self.base.1.value() + path.len() - 1) as nat) is Some
    }

    /// The identity and view of the target that a path leads to, if there is one.
    pub open spec fn target_option(self, path: Option<Seq<H>>) -> Option<(H, N)> {
        match path {
            Some(path) => Some(self.target(path)),
            None => None,
        }
    }

    /// The highest target that a supermajority of prevotes counts for.
    pub open spec fn prevote_ghost(self) -> Option<Seq<H>> {
        ghost_of(self.voters, self.prevotes, self.base.0)
    }

    /// The highest target that a supermajority of precommits counts for.
    pub open spec fn precommit_ghost(self) -> Option<Seq<H>> {
        ghost_of(self.voters, self.precommits, self.base.0)
    }

    /// The highest target that supermajorities of both phases count for.
    pub open spec fn finalized(self) -> Option<Seq<H>> {
        match self.prevote_ghost() {
            Some(ghost) => highest(has_supermajority(self.voters, self.precommits), ghost),
            None => None,
        }
    }

    /// A supermajority has precommitted.
    pub open spec fn committed(self) -> bool {
        cast(self.voters, self.precommits) >= self.threshold()
    }

    /// The highest target on the line to the prevote-ghost that could still get a
    /// supermajority of precommits.
    pub open spec fn estimate(self) -> Option<Seq<H>> {
        match self.prevote_ghost() {
            Some(ghost) => if self.committed() {
                highest(could_commit(self.voters, self.precommits), ghost)
            } else {
                Some(ghost)
            },
            None => None,
        }
    }

    /// A voted-for child of the target could still get a supermajority of
    /// precommits.
    pub open spec fn could_grow(self, target: Seq<H>) -> bool {
        let ok = could_commit(self.voters, self.precommits);
        ||| exists|i: int|
            0 <= i < self.voters.len() && #[trigger] passes(self.prevotes, i, target) && ok(
                child_towards(self.prevotes, i, target),
            )
        ||| exists|i: int|
            0 <= i < self.voters.len() && #[trigger] passes(self.precommits, i, target) && ok(
                child_towards(self.precommits, i, target),
            )
    }

    /// No target above the estimate can be finalized any more.
    pub open spec fn completable(self) -> bool {
        &&& self.committed()
        &&& self.estimate() is Some
        &&& self.estimate() != self.prevote_ghost() || !self.could_grow(self.prevote_ghost()->0)
    }

    /// What the round has established so far.
    pub open spec fn state(self) -> RoundState<H, N> {
        RoundState {
            prevote_ghost: self.target_option(self.prevote_ghost()),
            finalized: self.target_option(self.finalized()),
            estimate: self.target_option(self.estimate()),
            completable: self.completable(),
        }
    }

    /// The precommits that finalize what the round has finalized.
    pub open spec fn finalizing_precommits(self) -> Seq<SignedPrecommit<H, N, S, I>> {
        votes_upto(
            self.voters,
            self.precommits,
            self.finalized()->0,
            self.voters.len(),
        ).map_values(|vote: (I, (H, N), S)| signed_precommit(vote))
    }

    /// The senders of the votes of one phase, in the order of the voters.
    pub open spec fn senders(self, ballots: Ballots<H, N, S>) -> Seq<I> {
        votes_upto(self.voters, ballots, Seq::empty(), self.voters.len()).map_values(
            |vote: (I, (H, N), S)| vote.0,
        )
    }

    /// The voter that proposes in this round.
    pub open spec fn primary(self) -> I {
        self.voters[self.number as int % self.voters.len() as int].0
    }

    /// The round with the local prevote noted.
    pub open spec fn with_prevoted_index(self) -> Self {
        RoundView {
            history: HistoricalVotesView {
                prevote_idx: Some(self.history.seen.len() as u64),
                ..self.history
            },
            ..self
        }
    }

    /// The round with the local precommit noted.
    pub open spec fn with_precommitted_index(self) -> Self {
        RoundView {
            history: HistoricalVotesView {
                precommit_idx: Some(self.history.seen.len() as u64),
                ..self.history
            },
            ..self
        }
    }

    /// The history with one more vote.
    pub open spec fn remember(
        self,
        message: Message<H, N>,
        signature: S,
        id: I,
    ) -> HistoricalVotesView<H, N, S, I> {
        HistoricalVotesView {
            seen: self.history.seen.push(SignedMessage { message, signature, id }),
            ..self.history
        }
    }

    /// The round after a prevote along an acceptable path.
    pub open spec fn with_prevote(
        self,
        at: int,
        path: Seq<H>,
        vote: Prevote<H, N>,
        id: I,
        signature: S,
    ) -> Self {
        let target = (vote.target_hash, vote.target_number);
        match added(self.prevotes[at], target, signature) {
            Added::First | Added::Equivocation(_, _) => RoundView {
                prevotes: self.prevotes.update(
                    at,
                    ballot_after(self.prevotes[at], path, target, signature),
                ),
                history: self.remember(Message::Prevote(vote), signature, id),
                ..self
            },
            _ => self,
        }
    }

    /// The round after a precommit along an acceptable path.
    pub open spec fn with_precommit(
        self,
        at: int,
        path: Seq<H>,
        vote: Precommit<H, N>,
        id: I,
        signature: S,
    ) -> Self {
        let target = (vote.target_hash, vote.target_number);
        match added(self.precommits[at], target, signature) {
            Added::First | Added::Equivocation(_, _) => RoundView {
                precommits: self.precommits.update(
                    at,
                    ballot_after(self.precommits[at], path, target, signature),
                ),
                history: self.remember(Message::Precommit(vote), signature, id),
                ..self
            },
            _ => self,
        }
    }

    /// What importing a prevote reports.
    pub open spec fn prevote_report<C: Chain<H, N>>(
        self,
        chain: C,
        vote: Prevote<H, N>,
        id: I,
        signature: S,
    ) -> Result<ImportResult<I, Prevote<H, N>, S>, Error> {
        match position_of(self.voters, id) {
            None => Ok(ImportResult { valid_voter: false, duplicated: false, equivocation: None }),
            Some(at) => match vote_path(chain, self.base, vote.target_hash, vote.target_number) {
                Err(e) => Err(e),
                Ok(_) => {
                    let outcome = added(
                        self.prevotes[at],
                        (vote.target_hash, vote.target_number),
                        signature,
                    );
                    Ok(
                        ImportResult {
                            valid_voter: true,
                            duplicated: outcome is Duplicate,
                            equivocation: match outcome {
                                Added::Equivocation(first, first_signature) => Some(
                                    Equivocation {
                                        round_number: self.number,
                                        identity: id,
                                        first: (
                                            Prevote {
                                                target_hash: first.0,
                                                target_number: first.1,
                                            },
                                            first_signature,
                                        ),
                                        second: (vote, signature),
                                    },
                                ),
                                _ => None,
                            },
                        },
                    )
                },
            },
        }
    }

    /// What importing a precommit reports.
    pub open spec fn precommit_report<C: Chain<H, N>>(
        self,
        chain: C,
        vote: Precommit<H, N>,
        id: I,
        signature: S,
    ) -> Result<ImportResult<I, Precommit<H, N>, S>, Error> {
        match position_of(self.voters, id) {
            None => Ok(ImportResult { valid_voter: false, duplicated: false, equivocation: None }),
            Some(at) => match vote_path(chain, self.base, vote.target_hash, vote.target_number) {
                Err(e) => Err(e),
                Ok(_) => {
                    let outcome = added(
                        self.precommits[at],
                        (vote.target_hash, vote.target_number),
                        signature,
                    );
                    Ok(
                        ImportResult {
                            valid_voter: true,
                            duplicated: outcome is Duplicate,
                            equivocation: match outcome {
                                Added::Equivocation(first, first_signature) => Some(
                                    Equivocation {
                                        round_number: self.number,
                                        identity: id,
                                        first: (
                                            Precommit {
                                                target_hash: first.0,
                                                target_number: first.1,
                                            },
                                            first_signature,
                                        ),
                                        second: (vote, signature),
                                    },
                                ),
                                _ => None,
                            },
                        },
                    )
                },
            },
        }
    }

    /// The round after a prevote was imported: rejected votes and votes of
    /// strangers leave it as it is.
    pub open spec fn after_prevote<C: Chain<H, N>>(
        self,
        chain: C,
        vote: Prevote<H, N>,
        id: I,
        signature: S,
    ) -> Self {
        match (
            position_of(self.voters, id),
            vote_path(chain, self.base, vote.target_hash, vote.target_number),
        ) {
            (Some(at), Ok(path)) => self.with_prevote(at, path, vote, id, signature),
            _ => self,
        }
    }

    /// The round after a precommit was imported: rejected votes and votes of
    /// strangers leave it as it is.
    pub open spec fn after_precommit<C: Chain<H, N>>(
        self,
        chain: C,
        vote: Precommit<H, N>,
        id: I,
        signature: S,
    ) -> Self {
        match (
            position_of(self.voters, id),
            vote_path(chain, self.base, vote.target_hash, vote.target_number),
        ) {
            (Some(at), Ok(path)) => self.with_precommit(at, path, vote, id, signature),
            _ => self,
        }
    }
}

/// A vote as a signed precommit.
pub open spec fn signed_precommit<I, H, N: TargetNumber, S>(
    vote: (I, (H, N), S),
) -> SignedPrecommit<H, N, S, I> {
    SignedPrecommit {
        precommit: Precommit { target_hash: vote.1.0, target_number: vote.1.1 },
        signature: vote.2,
        id: vote.0,
    }
}

/// A round without votes.
pub open spec fn new_round<I, H, N, S>(
    number: u64,
    voters: Seq<(I, u64)>,
    base: (H, N),
) -> RoundView<I, H, N, S> {
    RoundView {
        number,
        base,
        voters,
        prevotes: Seq::new(voters.len(), |i: int| None),
        precommits: Seq::new(voters.len(), |i: int| None),
        history: HistoricalVotesView { seen: Seq::empty(), prevote_idx: None, precommit_idx: None },
    }
}

/// The parameters of a new round.
pub struct RoundParams<I, H, N> {
    /// The number of the round.
    pub round_number: u64,
    /// The voters and their weights.
    pub voters: VoterSet<I>,
    /// The target that every vote must reach.
    pub base: (H, N),
}

/// The votes of one round.
#[derive(Debug)]
pub struct Round<I, H, N, S> {
    number: u64,
    base: (H, N),
    voters: VoterSet<I>,
    prevotes: Tally<H, N, S>,
    precommits: Tally<H, N, S>,
    history: HistoricalVotes<H, N, S, I>,
}

impl<I, H, N, S> View for Round<I, H, N, S> {
    type V = RoundView<I, H, N, S>;

    closed spec fn view(&self) -> RoundView<I, H, N, S> {
        RoundView {
            number: self.number,
            base: self.base,
            voters: self.voters@,
            prevotes: self.prevotes@,
            precommits: self.precommits@,
            history: self.history@,
        }
    }
}

impl<I, H, N: TargetNumber, S> Round<I, H, N, S> {
    /// The round is well formed.
    pub closed spec fn well_formed(&self) -> bool {
        &&& self.voters.well_formed()
        &&& self@.well_formed()
    }

    /// What a well-formed round guarantees.
    pub proof fn lemma_well_formed(&self)
        requires
            self.well_formed(),
        ensures
            self@.well_formed(),
    {
    }
}

impl<I: Identity, H: Identity, N: TargetNumber, S: Identity> Round<I, H, N, S> {
    /// A round without votes.
    pub fn new(params: RoundParams<I, H, N>) -> (r: Self)
        requires
            params.voters.well_formed(),
        ensures
            r.well_formed(),
            r@ == new_round::<I, H, N, S>(params.round_number, params.voters@, params.base),
    {
        let len: usize = params.voters.len();
        proof {
            params.voters.lemma_well_formed();
        }
        let r = Round {
            number: params.round_number,
            base: params.base,
            voters: params.voters,
            prevotes: Tally::new(len),
            precommits: Tally::new(len),
            history: HistoricalVotes { seen: Vec::new(), prevote_idx: None, precommit_idx: None },
        };
        assert(r@ =~= new_round::<I, H, N, S>(params.round_number, params.voters@, params.base));
        r
    }

    /// Add a vote to the history.
    fn remember(&mut self, message: Message<H, N>, signature: S, id: I)
        ensures
            final(self)@ == (RoundView {
                history: old(self)@.remember(message, signature, id),
                ..old(self)@
            }),
            final(self).voters == old(self).voters,
    {
        self.history.seen.push(SignedMessage { message, signature, id });
        assert(self@.history =~= old(self)@.remember(message, signature, id));
    }

    /// Import a prevote.
    ///
    /// A vote of a stranger is reported and ignored. A vote for a target that the
    /// chain does not hold at that view, or that does not descend from the base of
    /// the round, is rejected without using up the voter's vote.
    pub fn import_prevote<C: Chain<H, N>>(
        &mut self,
        chain: &C,
        prevote: Prevote<H, N>,
        signer: I,
        signature: S,
    ) -> (r: Result<ImportResult<I, Prevote<H, N>, S>, Error>)
        requires
            old(self).well_formed(),
            chain.consistent(),
        ensures
            final(self).well_formed(),
            r == old(self)@.prevote_report(*chain, prevote, signer, signature),
            final(self)@ == old(self)@.after_prevote(*chain, prevote, signer, signature),
    {
        let ghost before = self@;
        let at: usize = match self.voters.position(&signer) {
            Some(at) => at,
            None => {
                return Ok(
                    ImportResult { valid_voter: false, duplicated: false, equivocation: None },
                );
            },
        };
        let path = match path_of_vote(
            chain,
            &self.base,
            &prevote.target_hash,
            &prevote.target_number,
        ) {
            Ok(path) => path,
            Err(e) => {
                return Err(e);
            },
        };
        let ghost line = path@;
        proof {
            lemma_position(before.voters, signer);
            lemma_vote_path_fits(*chain, before.base, prevote.target_hash, prevote.target_number);
        }
        let target = (prevote.target_hash.duplicate(), prevote.target_number.duplicate());
        let outcome = self.prevotes.add(at, path, target, signature.duplicate());
        assert(ballots_fit(self.prevotes@, before.base));
        match outcome {
            Added::First => {
                self.remember(
                    Message::Prevote(prevote.duplicate()),
                    signature.duplicate(),
                    signer.duplicate(),
                );
                assert(self@ =~= before.with_prevote(at as int, line, prevote, signer, signature));
                assert(self@.history.seen.drop_last() =~= before.history.seen);
                Ok(ImportResult { valid_voter: true, duplicated: false, equivocation: None })
            },
            Added::Equivocation(first, first_signature) => {
                self.remember(
                    Message::Prevote(prevote.duplicate()),
                    signature.duplicate(),
                    signer.duplicate(),
                );
                assert(self@ =~= before.with_prevote(at as int, line, prevote, signer, signature));
                assert(self@.history.seen.drop_last() =~= before.history.seen);
                Ok(
                    ImportResult {
                        valid_voter: true,
                        duplicated: false,
                        equivocation: Some(
                            Equivocation {
                                round_number: self.number,
                                identity: signer,
                                first: (
                                    Prevote { target_hash: first.0, target_number: first.1 },
                                    first_signature,
                                ),
                                second: (prevote, signature),
                            },
                        ),
                    },
                )
            },
            Added::Duplicate => {
                assert(self@ =~= before);
                Ok(ImportResult { valid_voter: true, duplicated: true, equivocation: None })
            },
            Added::Ignored => {
                assert(self@ =~= before);
                Ok(ImportResult { valid_voter: true, duplicated: false, equivocation: None })
            },
        }
    }

    /// Import a precommit.
    ///
    /// A vote of a stranger is reported and ignored. A vote for a target that the
    /// chain does not hold at that view, or that does not descend from the base of
    /// the round, is rejected without using up the voter's vote.
    pub fn import_precommit<C: Chain<H, N>>(
        &mut self,
        chain: &C,
        precommit: Precommit<H, N>,
        signer: I,
        signature: S,
    ) -> (r: Result<ImportResult<I, Precommit<H, N>, S>, Error>)
        requires
            old(self).well_formed(),
            chain.consistent(),
        ensures
            final(self).well_formed(),
            r == old(self)@.precommit_report(*chain, precommit, signer, signature),
            final(self)@ == old(self)@.after_precommit(*chain, precommit, signer, signature),
    {
        let ghost before = self@;
        let at: usize = match self.voters.position(&signer) {
            Some(at) => at,
            None => {
                return Ok(
                    ImportResult { valid_voter: false, duplicated: false, equivocation: None },
                );
            },
        };
        let path = match path_of_vote(
            chain,
            &self.base,
            &precommit.target_hash,
            &precommit.target_number,
        ) {
            Ok(path) => path,
            Err(e) => {
                return Err(e);
            },
        };
        let ghost line = path@;
        proof {
            lemma_position(before.voters, signer);
            lemma_vote_path_fits(
                *chain,
                before.base,
                precommit.target_hash,
                precommit.target_number,
            );
        }
        let target = (precommit.target_hash.duplicate(), precommit.target_number.duplicate());
        let outcome = self.precommits.add(at, path, target, signature.duplicate());
        assert(ballots_fit(self.precommits@, before.base));
        match outcome {
            Added::First => {
                self.remember(
                    Message::Precommit(precommit.duplicate()),
                    signature.duplicate(),
                    signer.duplicate(),
                );
                assert(self@ =~= before.with_precommit(
                    at as int,
                    line,
                    precommit,
                    signer,
                    signature,
                ));
                assert(self@.history.seen.drop_last() =~= before.history.seen);
                Ok(ImportResult { valid_voter: true, duplicated: false, equivocation: None })
            },
            Added::Equivocation(first, first_signature) => {
                self.remember(
                    Message::Precommit(precommit.duplicate()),
                    signature.duplicate(),
                    signer.duplicate(),
                );
                assert(self@ =~= before.with_precommit(
                    at as int,
                    line,
                    precommit,
                    signer,
                    signature,
                ));
                assert(self@.history.seen.drop_last() =~= before.history.seen);
                Ok(
                    ImportResult {
                        valid_voter: true,
                        duplicated: false,
                        equivocation: Some(
                            Equivocation {
                                round_number: self.number,
                                identity: signer,
                                first: (
                                    Precommit { target_hash: first.0, target_number: first.1 },
                                    first_signature,
                                ),
                                second: (precommit, signature),
                            },
                        ),
                    },
                )
            },
            Added::Duplicate => {
                assert(self@ =~= before);
                Ok(ImportResult { valid_voter: true, duplicated: true, equivocation: None })
            },
            Added::Ignored => {
                assert(self@ =~= before);
                Ok(ImportResult { valid_voter: true, duplicated: false, equivocation: None })
            },
        }
    }

    /// The number of the round.
    pub fn number(&self) -> (r: u64)
        ensures
            r == self@.number,
    {
        self.number
    }

    /// The target that every vote must reach.
    pub fn base(&self) -> (r: (H, N))
        ensures
            r == self@.base,
    {
        self.base.duplicate()
    }

    /// The voters and their weights.
    pub fn voters(&self) -> (r: &VoterSet<I>)
        requires
            self.well_formed(),
        ensures
            r@ == self@.voters,
            r.well_formed(),
    {
        &self.voters
    }

    /// The voter that proposes in this round.
    pub fn primary_voter(&self) -> (r: (&I, u64))
        requires
            self.well_formed(),
        ensures
            *r.0 == self@.primary(),
            r.1 == self@.voters[self@.number as int % self@.voters.len() as int].1,
    {
        self.voters.nth_mod(self.number)
    }

    /// The weight and the number of the voters that have prevoted.
    pub fn prevote_participation(&self) -> (r: (VoteWeight, usize))
        requires
            self.well_formed(),
        ensures
            r.0.0 == cast(self@.voters, self@.prevotes),
            r.1 == turnout(self@.prevotes, self@.prevotes.len()),
    {
        (VoteWeight(self.prevotes.cast(&self.voters)), self.prevotes.turnout())
    }

    /// The weight and the number of the voters that have precommitted.
    pub fn precommit_participation(&self) -> (r: (VoteWeight, usize))
        requires
            self.well_formed(),
        ensures
            r.0.0 == cast(self@.voters, self@.precommits),
            r.1 == turnout(self@.precommits, self@.precommits.len()),
    {
        (VoteWeight(self.precommits.cast(&self.voters)), self.precommits.turnout())
    }

    /// The senders of the prevotes; one that prevoted twice is named twice.
    pub fn prevote_ids(&self) -> (r: Vec<I>)
        requires
            self.well_formed(),
        ensures
            r@ == self@.senders(self@.prevotes),
    {
        let votes = self.prevotes.votes_for(&self.voters, &Vec::new());
        senders(votes)
    }

    /// The senders of the precommits; one that precommitted twice is named twice.
    pub fn precommit_ids(&self) -> (r: Vec<I>)
        requires
            self.well_formed(),
        ensures
            r@ == self@.senders(self@.precommits),
    {
        let votes = self.precommits.votes_for(&self.voters, &Vec::new());
        senders(votes)
    }

    /// All imported votes in the order of their import.
    pub fn historical_votes(&self) -> (r: &HistoricalVotes<H, N, S, I>)
        ensures
            r@ == self@.history,
    {
        &self.history
    }

    /// Note that the local voter prevotes now.
    pub fn set_prevoted_index(&mut self)
        requires
            old(self).well_formed(),
        ensures
            final(self).well_formed(),
            final(self)@ == old(self)@.with_prevoted_index(),
    {
        self.history.prevote_idx = Some(self.history.seen.len() as u64);
        assert(self@ =~= old(self)@.with_prevoted_index());
    }

    /// Note that the local voter precommits now.
    pub fn set_precommitted_index(&mut self)
        requires
            old(self).well_formed(),
        ensures
            final(self).well_formed(),
            final(self)@ == old(self)@.with_precommitted_index(),
    {
        self.history.precommit_idx = Some(self.history.seen.len() as u64);
        assert(self@ =~= old(self)@.with_precommitted_index());
    }

    /// The identity and view of the target that a path leads to.
    fn target(&self, path: &Vec<H>) -> (r: (H, N))
        requires
            self@.leads_to_a_target(path@),
        ensures
            r == self@.target(path@),
    {
        proof {
            let value = (self.base.1.value() + path@.len() - 1) as nat;
            N::representation_is_exact(value);
            N::with_value(value)->0.value_determines();
        }
        let number = N::from_u64(self.base.1.to_u64() + (path.len() - 1) as u64).unwrap();
        (path[path.len() - 1].duplicate(), number)
    }

    /// The identity and view of the target that a path leads to, if there is one.
    fn target_option(&self, path: &Option<Vec<H>>) -> (r: Option<(H, N)>)
        requires
            path matches Some(path) ==> self@.leads_to_a_target(path@),
        ensures
            r == self@.target_option(path_view(*path)),
    {
        match path {
            Some(path) => Some(self.target(path)),
            None => None,
        }
    }

    /// The path to the prevote-ghost.
    fn prevote_ghost_path(&self) -> (r: Option<Vec<H>>)
        requires
            self.well_formed(),
        ensures
            path_view(r) == self@.prevote_ghost(),
    {
        self.prevotes.ghost_target(&self.voters, &self.base.0)
    }

    /// The highest target that a supermajority of precommits counts for.
    pub fn precommit_ghost(&self) -> (r: Option<(H, N)>)
        requires
            self.well_formed(),
        ensures
            r == self@.target_option(self@.precommit_ghost()),
    {
        let path = self.precommits.ghost_target(&self.voters, &self.base.0);
        proof {
            lemma_ghost_fits(self@, self@.precommits);
        }
        self.target_option(&path)
    }

    /// The path to the highest finalized target.
    fn finalized_path(&self) -> (r: Option<Vec<H>>)
        requires
            self.well_formed(),
        ensures
            path_view(r) == self@.finalized(),
    {
        let ghost_path = match self.prevote_ghost_path() {
            Some(path) => path,
            None => {
                return None;
            },
        };
        let ghost ok = has_supermajority(self@.voters, self@.precommits);
        let threshold: u64 = self.voters.threshold();
        let mut len: usize = ghost_path.len();
        assert(ghost_path@.take(len as int) =~= ghost_path@);
        while len > 0
            invariant
                self.well_formed(),
                threshold == self@.threshold(),
                ok == has_supermajority(self@.voters, self@.precommits),
                len <= ghost_path@.len(),
                self@.prevote_ghost() == Some(ghost_path@),
                highest(ok, ghost_path@.take(len as int)) == highest(ok, ghost_path@),
            decreases len,
        {
            let candidate = beginning(&ghost_path, len);
            if self.precommits.support(&self.voters, &candidate) >= threshold {
                return Some(candidate);
            }
            assert(candidate@.drop_last() =~= ghost_path@.take(len - 1));
            len -= 1;
        }
        None
    }

    /// Whether a supermajority of precommits could still count for a target.
    fn could_commit(&self, target: &Vec<H>) -> (r: bool)
        requires
            self.well_formed(),
        ensures
            r == could_commit(self@.voters, self@.precommits)(target@),
    {
        proof {
            self.voters.lemma_well_formed();
            assert(target@ =~= target@.subrange(0, target@.len() as int));
            lemma_support(self@.voters, self@.precommits, target@, target@);
        }
        let total: u64 = self.voters.total_weight();
        let threshold: u64 = self.voters.threshold();
        let current: u64 = self.precommits.cast(&self.voters);
        let backed: u64 = self.precommits.support(&self.voters, target);
        let doubled: u64 = self.precommits.equivocated(&self.voters);
        let spare: u64 = if total - threshold > doubled {
            total - threshold - doubled
        } else {
            0
        };
        let elsewhere: u64 = current - backed;
        let possible: u64 = if elsewhere < spare {
            elsewhere
        } else {
            spare
        };
        backed + (total - current) + possible >= threshold
    }

    /// The path to the round estimate.
    fn estimate_path(&self) -> (r: Option<Vec<H>>)
        requires
            self.well_formed(),
        ensures
            path_view(r) == self@.estimate(),
    {
        let ghost_path = match self.prevote_ghost_path() {
            Some(path) => path,
            None => {
                return None;
            },
        };
        if self.precommits.cast(&self.voters) < self.voters.threshold() {
            return Some(ghost_path);
        }
        let ghost ok = could_commit(self@.voters, self@.precommits);
        let mut len: usize = ghost_path.len();
        assert(ghost_path@.take(len as int) =~= ghost_path@);
        while len > 0
            invariant
                self.well_formed(),
                self@.committed(),
                ok == could_commit(self@.voters, self@.precommits),
                len <= ghost_path@.len(),
                self@.prevote_ghost() == Some(ghost_path@),
                highest(ok, ghost_path@.take(len as int)) == highest(ok, ghost_path@),
            decreases len,
        {
            let candidate = beginning(&ghost_path, len);
            if self.could_commit(&candidate) {
                return Some(candidate);
            }
            assert(candidate@.drop_last() =~= ghost_path@.take(len - 1));
            len -= 1;
        }
        None
    }

    /// Whether a voted-for child of a target could still get a supermajority of
    /// precommits.
    fn could_grow(&self, target: &Vec<H>) -> (r: bool)
        requires
            self.well_formed(),
        ensures
            r == self@.could_grow(target@),
    {
        let ghost ok = could_commit(self@.voters, self@.precommits);
        let mut i: usize = 0;
        while i < self.voters.len()
            invariant
                self.well_formed(),
                ok == could_commit(self@.voters, self@.precommits),
                i <= self@.voters.len(),
                forall|k: int|
                    0 <= k < i && #[trigger] passes(self@.prevotes, k, target@) ==> !ok(
                        child_towards(self@.prevotes, k, target@),
                    ),
                forall|k: int|
                    0 <= k < i && #[trigger] passes(self@.precommits, k, target@) ==> !ok(
                        child_towards(self@.precommits, k, target@),
                    ),
            decreases self@.voters.len() - i,
        {
            if let Some(child) = self.prevotes.child_towards(i, target) {
                if self.could_commit(&child) {
                    return true;
                }
            }
            if let Some(child) = self.precommits.child_towards(i, target) {
                if self.could_commit(&child) {
                    return true;
                }
            }
            i += 1;
        }
        false
    }

    /// Whether no target above the estimate can be finalized any more.
    pub fn completable(&self) -> (r: bool)
        requires
            self.well_formed(),
        ensures
            r == self@.completable(),
    {
        if self.precommits.cast(&self.voters) < self.voters.threshold() {
            return false;
        }
        match (self.prevote_ghost_path(), self.estimate_path()) {
            (Some(ghost_path), Some(estimate)) => {
                proof {
                    lemma_highest(
                        could_commit(self@.voters, self@.precommits),
                        ghost_path@,
                    );
                    if estimate@.len() == ghost_path@.len() {
                        assert(ghost_path@ =~= ghost_path@.subrange(0, ghost_path@.len() as int));
                        assert(estimate@ == ghost_path@);
                    }
                }
                estimate.len() != ghost_path.len() || !self.could_grow(&ghost_path)
            },
            _ => false,
        }
    }

    /// The highest target that the round has finalized.
    pub fn finalized(&self) -> (r: Option<(H, N)>)
        requires
            self.well_formed(),
        ensures
            r == self@.state().finalized,
    {
        let path = self.finalized_path();
        proof {
            lemma_state_fits(self@);
        }
        self.target_option(&path)
    }

    /// What the round has established so far.
    pub fn state(&self) -> (r: RoundState<H, N>)
        requires
            self.well_formed(),
        ensures
            r == self@.state(),
    {
        let ghost_path = self.prevote_ghost_path();
        let estimate = self.estimate_path();
        proof {
            lemma_state_fits(self@);
        }
        RoundState {
            prevote_ghost: self.target_option(&ghost_path),
            finalized: self.finalized(),
            estimate: self.target_option(&estimate),
            completable: self.completable(),
        }
    }

    /// The precommits that finalize what the round has finalized, if it has.
    ///
    /// They are the precommits for the finalized target and its descendants, and
    /// both precommits of every voter that precommitted twice.
    pub fn finalizing_precommits(&self) -> (r: Option<Vec<SignedPrecommit<H, N, S, I>>>)
        requires
            self.well_formed(),
        ensures
            match r {
                Some(list) => self@.finalized() is Some && list@ == self@.finalizing_precommits(),
                None => self@.finalized() is None,
            },
    {
        let path = match self.finalized_path() {
            Some(path) => path,
            None => {
                return None;
            },
        };
        let votes = self.precommits.votes_for(&self.voters, &path);
        let mut list: Vec<SignedPrecommit<H, N, S, I>> = Vec::new();
        let mut i: usize = 0;
        while i < votes.len()
            invariant
                i <= votes.len(),
                list@ =~= votes@.take(i as int).map_values(
                    |vote: (I, (H, N), S)| signed_precommit(vote),
                ),
            decreases votes.len() - i,
        {
            let vote = &votes[i];
            list.push(
                SignedPrecommit {
                    precommit: Precommit {
                        target_hash: vote.1.0.duplicate(),
                        target_number: vote.1.1.duplicate(),
                    },
                    signature: vote.2.duplicate(),
                    id: vote.0.duplicate(),
                },
            );
            i += 1;
        }
        assert(votes@.take(i as int) =~= votes@);
        Some(list)
    }
}

/// The senders of a list of votes.
fn senders<I: Identity, H, N, S>(votes: Vec<(I, (H, N), S)>) -> (r: Vec<I>)
    ensures
        r@ == votes@.map_values(|vote: (I, (H, N), S)| vote.0),
{
    let mut ids: Vec<I> = Vec::new();
    let mut i: usize = 0;
    while i < votes.len()
        invariant
            i <= votes.len(),
            ids@ =~= votes@.take(i as int).map_values(|vote: (I, (H, N), S)| vote.0),
        decreases votes.len() - i,
    {
        ids.push(votes[i].0.duplicate());
        i += 1;
    }
    assert(votes@.take(i as int) =~= votes@);
    ids
}

/// The path that is there, if there is one.
pub open spec fn path_view<H>(path: Option<Vec<H>>) -> Option<Seq<H>> {
    match path {
        Some(path) => Some(path@),
        None => None,
    }
}

/// A ghost starts at the base and its view is a view.
pub proof fn lemma_ghost_fits<I, H, N: TargetNumber, S>(
    round: RoundView<I, H, N, S>,
    ballots: Ballots<H, N, S>,
)
    requires
        round.well_formed(),
        ballots.len() == round.voters.len(),
        ballots_fit(ballots, round.base),
    ensures
        ghost_of(round.voters, ballots, round.base.0) matches Some(path) ==> {
            &&& path[0] == round.base.0
            &&& round.leads_to_a_target(path)
            &&& has_supermajority(round.voters, ballots)(path)
        },
{
    let start = seq![round.base.0];
    let ok = has_supermajority(round.voters, ballots);
    lemma_climb(ballots, ok, start);
    let path = climb(ballots, ok, start);
    assert(start[0] == path.subrange(0, 1)[0]);
    round.base.1.value_determines();
    if path != start {
        let i = choose|i: int|
            0 <= i < ballots.len() && (#[trigger] ballots[i]) is Some && path.is_prefix_of(
                ballots[i]->0.path,
            );
        assert(path.len() <= ballots[i]->0.path.len());
        lemma_lower_paths_lead_to_targets(round, path, ballots[i]->0.target.1);
    }
}

/// A path that leads no further than a number leads to a target.
proof fn lemma_lower_paths_lead_to_targets<I, H, N: TargetNumber, S>(
    round: RoundView<I, H, N, S>,
    path: Seq<H>,
    limit: N,
)
    requires
        0 < path.len(),
        round.base.1.value() + path.len() - 1 <= limit.value(),
    ensures
        round.leads_to_a_target(path),
{
    limit.lower_values_are_represented((round.base.1.value() + path.len() - 1) as nat);
}

/// Everything that a round establishes lies on the line to the prevote-ghost.
pub proof fn lemma_state_fits<I, H, N: TargetNumber, S>(round: RoundView<I, H, N, S>)
    requires
        round.well_formed(),
    ensures
        round.prevote_ghost() matches Some(path) ==> round.leads_to_a_target(path),
        round.finalized() matches Some(path) ==> round.leads_to_a_target(path)
            && path.is_prefix_of(round.prevote_ghost()->0),
        round.estimate() matches Some(path) ==> round.leads_to_a_target(path)
            && path.is_prefix_of(round.prevote_ghost()->0),
{
    lemma_ghost_fits(round, round.prevotes);
    if let Some(line) = round.prevote_ghost() {
        lemma_highest(has_supermajority(round.voters, round.precommits), line);
        lemma_highest(could_commit(round.voters, round.precommits), line);
        assert(line =~= line.subrange(0, line.len() as int));
        let value = (round.base.1.value() + line.len() - 1) as nat;
        let limit = N::with_value(value)->0;
        N::representation_is_exact(value);
        if let Some(path) = round.finalized() {
            lemma_lower_paths_lead_to_targets(round, path, limit);
        }
        if let Some(path) = round.estimate() {
            lemma_lower_paths_lead_to_targets(round, path, limit);
        }
    }
}

/// The position of a voter is one of the positions.
proof fn lemma_position<I>(voters: Seq<(I, u64)>, id: I)
    requires
        is_voter(voters, id),
    ensures
        0 <= position_of(voters, id)->0 < voters.len(),
        voters[position_of(voters, id)->0].0 == id,
{
}

/// An acceptable path leads from the base to the target, one view at a time.
pub proof fn lemma_vote_path_fits<H, N: TargetNumber, C: Chain<H, N>>(
    chain: C,
    base: (H, N),
    hash: H,
    number: N,
)
    ensures
        vote_path(chain, base, hash, number) matches Ok(path) ==> {
            &&& path.len() > 0
            &&& path[0] == base.0
            &&& path.last() == hash
            &&& number.value() == base.1.value() + path.len() - 1
        },
{
}

} // verus!
