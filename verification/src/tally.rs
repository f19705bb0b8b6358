//! The votes of one phase of a round, and the weight behind each target.
//!
//! A vote counts for its target and for everything that the target descends
//! from. It is kept as the path from the base of the round to its target, so a
//! target is a path too, and a vote counts for every beginning of its path.
use vstd::prelude::*;

use crate::ident::Identity;
use crate::number::TargetNumber;
use crate::voter_set::VoterSet;
use crate::weights::{
    everyone, lemma_weight_grows, lemma_weight_is_monotone, supermajority, total_of, weight_of,
    weight_upto,
};

verus! {

/// What a voter said in one phase.
#[derive(Debug)]
pub struct Ballot<H, N, S> {
    /// The target of the first vote.
    pub target: (H, N),
    /// The targets from the base of the round to the target, both included.
    pub path: Vec<H>,
    /// The signature of the first vote.
    pub signature: S,
    /// A second, contradicting vote.
    pub second: Option<((H, N), S)>,
}

/// What a [`Ballot`] holds.
#[verifier::ext_equal]
pub struct BallotView<H, N, S> {
    /// The target of the first vote.
    pub target: (H, N),
    /// The targets from the base of the round to the target, both included.
    pub path: Seq<H>,
    /// The signature of the first vote.
    pub signature: S,
    /// A second, contradicting vote.
    pub second: Option<((H, N), S)>,
}

impl<H, N, S> View for Ballot<H, N, S> {
    type V = BallotView<H, N, S>;

    open spec fn view(&self) -> BallotView<H, N, S> {
        BallotView {
            target: self.target,
            path: self.path@,
            signature: self.signature,
            second: self.second,
        }
    }
}

/// The ballots of all voters, by position.
pub type Ballots<H, N, S> = Seq<Option<BallotView<H, N, S>>>;

/// The voter at a position has voted.
pub open spec fn has_voted<H, N, S>(ballots: Ballots<H, N, S>, i: int) -> bool {
    ballots[i] is Some
}

/// The voter at a position has voted twice.
pub open spec fn has_doubled<H, N, S>(ballots: Ballots<H, N, S>, i: int) -> bool {
    ballots[i] matches Some(ballot) && ballot.second is Some
}

/// The voter at a position counts for a target: its vote is for the target or a
/// descendant, or it has voted twice and counts for everything.
pub open spec fn backs<H, N, S>(ballots: Ballots<H, N, S>, i: int, target: Seq<H>) -> bool {
    ballots[i] matches Some(ballot) && (ballot.second is Some || target.is_prefix_of(ballot.path))
}

/// Selects the voters that have voted.
pub open spec fn participants<H, N, S>(ballots: Ballots<H, N, S>) -> spec_fn(int) -> bool {
    |i: int| has_voted(ballots, i)
}

/// Selects the voters that have voted twice.
pub open spec fn equivocators<H, N, S>(ballots: Ballots<H, N, S>) -> spec_fn(int) -> bool {
    |i: int| has_doubled(ballots, i)
}

/// Selects the voters that count for a target.
pub open spec fn backers<H, N, S>(
    ballots: Ballots<H, N, S>,
    target: Seq<H>,
) -> spec_fn(int) -> bool {
    |i: int| backs(ballots, i, target)
}

/// The weight of the voters that have voted.
pub open spec fn cast<I, H, N, S>(voters: Seq<(I, u64)>, ballots: Ballots<H, N, S>) -> nat {
    weight_of(voters, participants(ballots))
}

/// The weight of the voters that have voted twice.
pub open spec fn equivocated<I, H, N, S>(voters: Seq<(I, u64)>, ballots: Ballots<H, N, S>) -> nat {
    weight_of(voters, equivocators(ballots))
}

/// The weight of the voters that count for a target.
pub open spec fn support<I, H, N, S>(
    voters: Seq<(I, u64)>,
    ballots: Ballots<H, N, S>,
    target: Seq<H>,
) -> nat {
    weight_of(voters, backers(ballots, target))
}

/// Selects the targets that a supermajority counts for.
pub open spec fn has_supermajority<I, H, N, S>(
    voters: Seq<(I, u64)>,
    ballots: Ballots<H, N, S>,
) -> spec_fn(Seq<H>) -> bool {
    |target: Seq<H>| support(voters, ballots, target) >= supermajority(total_of(voters))
}

/// The number of voters that have voted, among the first `n`.
pub open spec fn turnout<H, N, S>(ballots: Ballots<H, N, S>, n: nat) -> nat
    decreases n,
{
    if n == 0 {
        0
    } else {
        turnout(ballots, (n - 1) as nat) + if has_voted(ballots, n - 1) {
            1nat
        } else {
            0nat
        }
    }
}

/// The vote at a position is for a proper descendant of a target.
pub open spec fn passes<H, N, S>(ballots: Ballots<H, N, S>, i: int, target: Seq<H>) -> bool {
    ballots[i] matches Some(ballot) && target.len() < ballot.path.len() && target.is_prefix_of(
        ballot.path,
    )
}

/// The child of a target towards the vote at a position.
pub open spec fn child_towards<H, N, S>(
    ballots: Ballots<H, N, S>,
    i: int,
    target: Seq<H>,
) -> Seq<H> {
    target.push(ballots[i]->0.path[target.len() as int])
}

/// The first of `n` positions whose vote leads to a child that `ok` selects.
pub open spec fn first_lead<H, N, S>(
    ballots: Ballots<H, N, S>,
    ok: spec_fn(Seq<H>) -> bool,
    target: Seq<H>,
    n: nat,
) -> Option<int>
    decreases n,
{
    if n == 0 {
        None
    } else {
        match first_lead(ballots, ok, target, (n - 1) as nat) {
            Some(i) => Some(i),
            None => if passes(ballots, n - 1, target) && ok(child_towards(ballots, n - 1, target)) {
                Some(n - 1)
            } else {
                None
            },
        }
    }
}

/// The length of the longest path among the first `n` ballots.
pub open spec fn longest<H, N, S>(ballots: Ballots<H, N, S>, n: nat) -> nat
    decreases n,
{
    if n == 0 {
        0
    } else {
        let rest = longest(ballots, (n - 1) as nat);
        match ballots[n - 1] {
            Some(ballot) => if ballot.path.len() > rest {
                ballot.path.len()
            } else {
                rest
            },
            None => rest,
        }
    }
}

/// No path is longer than the longest.
pub proof fn lemma_longest<H, N, S>(ballots: Ballots<H, N, S>, n: nat, i: int)
    requires
        0 <= i < n,
        ballots[i] is Some,
    ensures
        ballots[i]->0.path.len() <= longest(ballots, n),
    decreases n,
{
    if i < n - 1 {
        lemma_longest(ballots, (n - 1) as nat, i);
    }
}

/// A lead is a position whose vote leads to a selected child, and the first one.
pub proof fn lemma_first_lead<H, N, S>(
    ballots: Ballots<H, N, S>,
    ok: spec_fn(Seq<H>) -> bool,
    target: Seq<H>,
    n: nat,
)
    ensures
        match first_lead(ballots, ok, target, n) {
            Some(i) => {
                &&& 0 <= i < n
                &&& passes(ballots, i, target)
                &&& ok(child_towards(ballots, i, target))
            },
            None => forall|i: int|
                0 <= i < n && #[trigger] passes(ballots, i, target) ==> !ok(
                    child_towards(ballots, i, target),
                ),
        },
    decreases n,
{
    if n > 0 {
        lemma_first_lead(ballots, ok, target, (n - 1) as nat);
    }
}

/// The target reached by following selected children as far as they go.
pub open spec fn climb<H, N, S>(
    ballots: Ballots<H, N, S>,
    ok: spec_fn(Seq<H>) -> bool,
    target: Seq<H>,
) -> Seq<H>
    decreases longest(ballots, ballots.len()) - target.len(),
{
    match first_lead(ballots, ok, target, ballots.len()) {
        Some(i) => {
            proof {
                lemma_first_lead(ballots, ok, target, ballots.len());
                lemma_longest(ballots, ballots.len(), i);
            }
            climb(ballots, ok, child_towards(ballots, i, target))
        },
        None => target,
    }
}

/// The highest target on the line to `target` that `ok` selects.
pub open spec fn highest<H>(ok: spec_fn(Seq<H>) -> bool, target: Seq<H>) -> Option<Seq<H>>
    decreases target.len(),
{
    if target.len() == 0 {
        None
    } else if ok(target) {
        Some(target)
    } else {
        highest(ok, target.drop_last())
    }
}

/// The highest target that a supermajority of the votes counts for.
pub open spec fn ghost_of<I, H, N, S>(
    voters: Seq<(I, u64)>,
    ballots: Ballots<H, N, S>,
    base: H,
) -> Option<Seq<H>> {
    let ok = has_supermajority(voters, ballots);
    if ok(seq![base]) {
        Some(climb(ballots, ok, seq![base]))
    } else {
        None
    }
}

/// The votes of those of the first `n` voters that count for a target, in the
/// order of the voters; a voter that voted twice has two.
pub open spec fn votes_upto<I, H, N, S>(
    voters: Seq<(I, u64)>,
    ballots: Ballots<H, N, S>,
    target: Seq<H>,
    n: nat,
) -> Seq<(I, (H, N), S)>
    decreases n,
{
    if n == 0 {
        Seq::empty()
    } else {
        let rest = votes_upto(voters, ballots, target, (n - 1) as nat);
        if backs(ballots, n - 1, target) {
            let id = voters[n - 1].0;
            let ballot = ballots[n - 1]->0;
            match ballot.second {
                Some(second) => rest.push((id, ballot.target, ballot.signature)).push(
                    (id, second.0, second.1),
                ),
                None => rest.push((id, ballot.target, ballot.signature)),
            }
        } else {
            rest
        }
    }
}

/// A ballot fits a round that starts at `base`.
pub open spec fn ballot_fits<H, N: TargetNumber, S>(
    ballot: BallotView<H, N, S>,
    base: (H, N),
) -> bool {
    &&& ballot.path.len() > 0
    &&& ballot.path[0] == base.0
    &&& ballot.path.last() == ballot.target.0
    &&& ballot.target.1.value() == base.1.value() + ballot.path.len() - 1
    &&& ballot.second != Some((ballot.target, ballot.signature))
}

/// All ballots fit a round that starts at `base`.
pub open spec fn ballots_fit<H, N: TargetNumber, S>(
    ballots: Ballots<H, N, S>,
    base: (H, N),
) -> bool {
    forall|i: int|
        0 <= i < ballots.len() && (#[trigger] ballots[i]) is Some ==> ballot_fits(
            ballots[i]->0,
            base,
        )
}

/// What adding a vote to a tally did.
pub enum Added<H, N, S> {
    /// It is the voter's first vote.
    First,
    /// The very same vote was there already.
    Duplicate,
    /// It contradicts the voter's first vote, which is given.
    Equivocation((H, N), S),
    /// The voter had voted twice already.
    Ignored,
}

/// What adding a vote does.
pub open spec fn added<H, N, S>(
    ballot: Option<BallotView<H, N, S>>,
    target: (H, N),
    signature: S,
) -> Added<H, N, S> {
    match ballot {
        None => Added::First,
        Some(ballot) => if (ballot.target, ballot.signature) == (target, signature)
            || ballot.second == Some((target, signature)) {
            Added::Duplicate
        } else if ballot.second is Some {
            Added::Ignored
        } else {
            Added::Equivocation(ballot.target, ballot.signature)
        },
    }
}

/// The ballot after a vote was added.
pub open spec fn ballot_after<H, N, S>(
    ballot: Option<BallotView<H, N, S>>,
    path: Seq<H>,
    target: (H, N),
    signature: S,
) -> Option<BallotView<H, N, S>> {
    match added(ballot, target, signature) {
        Added::First => Some(BallotView { target, path, signature, second: None }),
        Added::Equivocation(_, _) => Some(
            BallotView { second: Some((target, signature)), ..ballot->0 },
        ),
        _ => ballot,
    }
}

/// The votes of one phase, by the position of the voter.
#[derive(Debug)]
pub struct Tally<H, N, S> {
    ballots: Vec<Option<Ballot<H, N, S>>>,
}

impl<H, N, S> View for Tally<H, N, S> {
    type V = Ballots<H, N, S>;

    closed spec fn view(&self) -> Ballots<H, N, S> {
        self.ballots@.map_values(
            |ballot: Option<Ballot<H, N, S>>|
                match ballot {
                    Some(ballot) => Some(ballot@),
                    None => None,
                },
        )
    }
}

/// Whether one path is a beginning of another.
pub fn is_beginning<H: Identity>(target: &Vec<H>, path: &Vec<H>) -> (r: bool)
    ensures
        r == target@.is_prefix_of(path@),
{
    if target.len() > path.len() {
        return false;
    }
    let mut i: usize = 0;
    while i < target.len()
        invariant
            i <= target.len() <= path.len(),
            forall|k: int| 0 <= k < i ==> target@[k] == path@[k],
        decreases target.len() - i,
    {
        if !target[i].same(&path[i]) {
            assert(target@[i as int] != path@.subrange(0, target@.len() as int)[i as int]);
            return false;
        }
        i += 1;
    }
    assert(path@.subrange(0, target@.len() as int) =~= target@);
    true
}

/// A copy of the first `len` targets of a path.
pub fn beginning<H: Identity>(path: &Vec<H>, len: usize) -> (r: Vec<H>)
    requires
        len <= path@.len(),
    ensures
        r@ == path@.take(len as int),
{
    let mut r: Vec<H> = Vec::new();
    let mut i: usize = 0;
    while i < len
        invariant
            i <= len <= path@.len(),
            r@ =~= path@.take(i as int),
        decreases len - i,
    {
        r.push(path[i].duplicate());
        i += 1;
    }
    r
}

impl<H: Identity, N: Identity, S: Identity> Tally<H, N, S> {
    /// No votes by `len` voters.
    pub fn new(len: usize) -> (r: Self)
        ensures
            r@.len() == len,
            forall|i: int| 0 <= i < len ==> (#[trigger] r@[i]) is None,
    {
        let mut ballots: Vec<Option<Ballot<H, N, S>>> = Vec::new();
        let mut i: usize = 0;
        while i < len
            invariant
                i <= len,
                ballots@.len() == i,
                forall|k: int| 0 <= k < i ==> (#[trigger] ballots@[k]) is None,
            decreases len - i,
        {
            ballots.push(None);
            i += 1;
        }
        Tally { ballots }
    }

    /// The ballot of the voter at a position.
    pub fn ballot(&self, at: usize) -> (r: &Option<Ballot<H, N, S>>)
        requires
            at < self@.len(),
        ensures
            match *r {
                Some(ballot) => self@[at as int] == Some(ballot@),
                None => self@[at as int] is None,
            },
    {
        &self.ballots[at]
    }

    /// Count a vote of the voter at a position.
    pub fn add(&mut self, at: usize, path: Vec<H>, target: (H, N), signature: S) -> (r: Added<
        H,
        N,
        S,
    >)
        requires
            at < old(self)@.len(),
        ensures
            r == added(old(self)@[at as int], target, signature),
            final(self)@ == old(self)@.update(
                at as int,
                ballot_after(old(self)@[at as int], path@, target, signature),
            ),
    {
        let ghost before = self@;
        let decided = match &self.ballots[at] {
            None => Added::First,
            Some(ballot) => {
                let repeats = ballot.target.same(&target) && ballot.signature.same(&signature);
                match &ballot.second {
                    Some(second) => if repeats || (second.0.same(&target) && second.1.same(
                        &signature,
                    )) {
                        Added::Duplicate
                    } else {
                        Added::Ignored
                    },
                    None => if repeats {
                        Added::Duplicate
                    } else {
                        Added::Equivocation(ballot.target.duplicate(), ballot.signature.duplicate())
                    },
                }
            },
        };
        assert(decided == added(before[at as int], target, signature));
        match &decided {
            Added::First => {
                self.ballots[at] = Some(Ballot { target, path, signature, second: None });
            },
            Added::Equivocation(_, _) => {
                let mut slot: Option<Ballot<H, N, S>> = None;
                std::mem::swap(&mut slot, &mut self.ballots[at]);
                if let Some(ballot) = slot {
                    self.ballots[at] = Some(
                        Ballot {
                            target: ballot.target,
                            path: ballot.path,
                            signature: ballot.signature,
                            second: Some((target, signature)),
                        },
                    );
                }
            },
            _ => {},
        }
        assert(self@ =~= before.update(
            at as int,
            ballot_after(before[at as int], path@, target, signature),
        ));
        decided
    }

    /// The weight of the voters that have voted.
    pub fn cast<I: Identity>(&self, voters: &VoterSet<I>) -> (r: u64)
        requires
            voters.well_formed(),
            self@.len() == voters@.len(),
        ensures
            r == cast(voters@, self@),
    {
        let ghost who = participants(self@);
        let mut sum: u64 = 0;
        let mut i: usize = 0;
        while i < voters.len()
            invariant
                voters.well_formed(),
                self@.len() == voters@.len(),
                i <= voters@.len(),
                who == participants(self@),
                sum == weight_upto(voters@, who, i as nat),
            decreases voters@.len() - i,
        {
            proof {
                lemma_partial_weight_fits(voters, who, (i + 1) as nat);
            }
            if self.ballot(i).is_some() {
                sum += voters.nth(i).1;
            }
            i += 1;
        }
        sum
    }

    /// The weight of the voters that have voted twice.
    pub fn equivocated<I: Identity>(&self, voters: &VoterSet<I>) -> (r: u64)
        requires
            voters.well_formed(),
            self@.len() == voters@.len(),
        ensures
            r == equivocated(voters@, self@),
    {
        let ghost who = equivocators(self@);
        let mut sum: u64 = 0;
        let mut i: usize = 0;
        while i < voters.len()
            invariant
                voters.well_formed(),
                self@.len() == voters@.len(),
                i <= voters@.len(),
                who == equivocators(self@),
                sum == weight_upto(voters@, who, i as nat),
            decreases voters@.len() - i,
        {
            proof {
                lemma_partial_weight_fits(voters, who, (i + 1) as nat);
            }
            if let Some(ballot) = self.ballot(i) {
                if ballot.second.is_some() {
                    sum += voters.nth(i).1;
                }
            }
            i += 1;
        }
        sum
    }

    /// The weight of the voters that count for a target.
    pub fn support<I: Identity>(&self, voters: &VoterSet<I>, target: &Vec<H>) -> (r: u64)
        requires
            voters.well_formed(),
            self@.len() == voters@.len(),
        ensures
            r == support(voters@, self@, target@),
    {
        let ghost who = backers(self@, target@);
        let mut sum: u64 = 0;
        let mut i: usize = 0;
        while i < voters.len()
            invariant
                voters.well_formed(),
                self@.len() == voters@.len(),
                i <= voters@.len(),
                who == backers(self@, target@),
                sum == weight_upto(voters@, who, i as nat),
            decreases voters@.len() - i,
        {
            proof {
                lemma_partial_weight_fits(voters, who, (i + 1) as nat);
            }
            if let Some(ballot) = self.ballot(i) {
                if ballot.second.is_some() || is_beginning(target, &ballot.path) {
                    sum += voters.nth(i).1;
                }
            }
            i += 1;
        }
        sum
    }

    /// The number of voters that have voted.
    pub fn turnout(&self) -> (r: usize)
        ensures
            r == turnout(self@, self@.len()),
    {
        let mut count: usize = 0;
        let mut i: usize = 0;
        while i < self.ballots.len()
            invariant
                i <= self.ballots.len(),
                self@.len() == self.ballots.len(),
                count <= i,
                count == turnout(self@, i as nat),
            decreases self.ballots.len() - i,
        {
            if self.ballot(i).is_some() {
                count += 1;
            }
            i += 1;
        }
        count
    }

    /// The votes that count for a target, in the order of the voters.
    pub fn votes_for<I: Identity>(&self, voters: &VoterSet<I>, target: &Vec<H>) -> (r: Vec<
        (I, (H, N), S),
    >)
        requires
            self@.len() == voters@.len(),
        ensures
            r@ == votes_upto(voters@, self@, target@, voters@.len()),
    {
        let mut votes: Vec<(I, (H, N), S)> = Vec::new();
        let mut i: usize = 0;
        while i < voters.len()
            invariant
                self@.len() == voters@.len(),
                i <= voters@.len(),
                votes@ == votes_upto(voters@, self@, target@, i as nat),
            decreases voters@.len() - i,
        {
            if let Some(ballot) = self.ballot(i) {
                if ballot.second.is_some() || is_beginning(target, &ballot.path) {
                    votes.push(
                        (
                            voters.nth(i).0.duplicate(),
                            ballot.target.duplicate(),
                            ballot.signature.duplicate(),
                        ),
                    );
                }
                if let Some(second) = &ballot.second {
                    votes.push(
                        (
                            voters.nth(i).0.duplicate(),
                            second.0.duplicate(),
                            second.1.duplicate(),
                        ),
                    );
                }
            }
            i += 1;
        }
        votes
    }

    /// The child of a target towards the vote at a position, if the vote is for a
    /// proper descendant of the target.
    pub fn child_towards(&self, at: usize, target: &Vec<H>) -> (r: Option<Vec<H>>)
        requires
            at < self@.len(),
        ensures
            match r {
                Some(child) => passes(self@, at as int, target@) && child@ == child_towards(
                    self@,
                    at as int,
                    target@,
                ),
                None => !passes(self@, at as int, target@),
            },
    {
        match self.ballot(at) {
            None => None,
            Some(ballot) => if target.len() < ballot.path.len() && is_beginning(
                target,
                &ballot.path,
            ) {
                let child = beginning(&ballot.path, target.len() + 1);
                assert(child@ =~= child_towards(self@, at as int, target@));
                Some(child)
            } else {
                None
            },
        }
    }

    /// The highest target that a supermajority of the votes counts for.
    pub fn ghost_target<I: Identity>(&self, voters: &VoterSet<I>, base: &H) -> (r: Option<Vec<H>>)
        requires
            voters.well_formed(),
            self@.len() == voters@.len(),
        ensures
            match r {
                Some(target) => ghost_of(voters@, self@, *base) == Some(target@),
                None => ghost_of(voters@, self@, *base) is None,
            },
    {
        let ghost ok = has_supermajority(voters@, self@);
        let threshold: u64 = voters.threshold();
        let mut target: Vec<H> = Vec::new();
        target.push(base.duplicate());
        assert(target@ =~= seq![*base]);
        if self.support(voters, &target) < threshold {
            return None;
        }
        loop
            invariant
                voters.well_formed(),
                self@.len() == voters@.len(),
                ok == has_supermajority(voters@, self@),
                threshold == supermajority(total_of(voters@)),
                climb(self@, ok, target@) == climb(self@, ok, seq![*base]),
                ok(seq![*base]),
            decreases longest(self@, self@.len()) - target@.len(),
        {
            let mut lead: Option<Vec<H>> = None;
            let mut i: usize = 0;
            while i < voters.len() && lead.is_none()
                invariant
                    voters.well_formed(),
                    self@.len() == voters@.len(),
                    ok == has_supermajority(voters@, self@),
                    threshold == supermajority(total_of(voters@)),
                    i <= voters@.len(),
                    match lead {
                        None => first_lead(self@, ok, target@, i as nat) is None,
                        Some(child) => {
                            &&& first_lead(self@, ok, target@, i as nat) == Some(i - 1)
                            &&& child@ == child_towards(self@, i - 1, target@)
                            &&& i > 0
                        },
                    },
                decreases voters@.len() - i,
            {
                if let Some(child) = self.child_towards(i, &target) {
                    if self.support(voters, &child) >= threshold {
                        lead = Some(child);
                    }
                }
                i += 1;
            }
            match lead {
                None => {
                    return Some(target);
                },
                Some(child) => {
                    proof {
                        lemma_first_lead_is_stable(self@, ok, target@, i as nat, self@.len());
                        lemma_first_lead(self@, ok, target@, self@.len());
                        lemma_longest(self@, self@.len(), i - 1);
                    }
                    target = child;
                },
            }
        }
    }
}

/// Climbing stays on the line of some vote: the target reached extends the start
/// and is the start itself or a beginning of a vote's path.
pub proof fn lemma_climb<H, N, S>(
    ballots: Ballots<H, N, S>,
    ok: spec_fn(Seq<H>) -> bool,
    target: Seq<H>,
)
    ensures
        ({
            let reached = climb(ballots, ok, target);
            &&& target.is_prefix_of(reached)
            &&& reached == target || ok(reached)
            &&& reached == target || exists|i: int|
                0 <= i < ballots.len() && (#[trigger] ballots[i]) is Some && reached.is_prefix_of(
                    ballots[i]->0.path,
                )
            &&& first_lead(ballots, ok, reached, ballots.len()) is None
        }),
    decreases longest(ballots, ballots.len()) - target.len(),
{
    match first_lead(ballots, ok, target, ballots.len()) {
        Some(i) => {
            lemma_first_lead(ballots, ok, target, ballots.len());
            lemma_longest(ballots, ballots.len(), i);
            let child = child_towards(ballots, i, target);
            lemma_climb(ballots, ok, child);
            let reached = climb(ballots, ok, target);
            assert(reached == climb(ballots, ok, child));
            assert(target =~= reached.subrange(0, target.len() as int)) by {
                assert(child =~= reached.subrange(0, child.len() as int));
                assert forall|k: int| 0 <= k < target.len() implies target[k] == reached[k] by {
                    assert(child[k] == target[k]);
                    assert(reached.subrange(0, child.len() as int)[k] == reached[k]);
                }
            }
            if reached == child {
                let path = ballots[i]->0.path;
                assert(child =~= path.subrange(0, child.len() as int)) by {
                    assert forall|k: int| 0 <= k < target.len() implies target[k] == path[k] by {
                        assert(path.subrange(0, target.len() as int)[k] == path[k]);
                    }
                }
            }
        },
        None => {},
    }
}

/// The highest selected target lies on the line, is selected, and nothing above
/// it on the line is.
pub proof fn lemma_highest<H>(ok: spec_fn(Seq<H>) -> bool, target: Seq<H>)
    ensures
        match highest(ok, target) {
            Some(found) => {
                &&& found.len() > 0
                &&& found.is_prefix_of(target)
                &&& ok(found)
                &&& forall|k: int|
                    found.len() < k <= target.len() ==> !ok(#[trigger] target.take(k))
            },
            None => forall|k: int| 0 < k <= target.len() ==> !ok(#[trigger] target.take(k)),
        },
    decreases target.len(),
{
    if target.len() > 0 {
        assert(target.take(target.len() as int) =~= target);
        if !ok(target) {
            let shorter = target.drop_last();
            lemma_highest(ok, shorter);
            assert forall|k: int| 0 <= k <= shorter.len() implies shorter.take(k)
                == #[trigger] target.take(k) by {
                assert(shorter.take(k) =~= target.take(k));
            }
            if let Some(found) = highest(ok, shorter) {
                assert(found =~= target.subrange(0, found.len() as int)) by {
                    assert(found =~= shorter.subrange(0, found.len() as int));
                }
            }
        }
    }
}

/// The voters that count for a target have voted, and count for every target
/// that it descends from; those that voted twice count for every target.
pub proof fn lemma_support<I, H, N, S>(
    voters: Seq<(I, u64)>,
    ballots: Ballots<H, N, S>,
    lower: Seq<H>,
    target: Seq<H>,
)
    requires
        lower.is_prefix_of(target),
    ensures
        equivocated(voters, ballots) <= support(voters, ballots, target),
        support(voters, ballots, target) <= support(voters, ballots, lower),
        support(voters, ballots, lower) <= cast(voters, ballots),
        cast(voters, ballots) <= total_of(voters),
{
    let n = voters.len();
    lemma_weight_is_monotone(voters, equivocators(ballots), backers(ballots, target), n);
    assert forall|i: int| 0 <= i < n && #[trigger] backers(ballots, target)(i) implies backers(
        ballots,
        lower,
    )(i) by {
        let ballot = ballots[i]->0;
        if ballot.second is None {
            assert(lower =~= ballot.path.subrange(0, lower.len() as int)) by {
                assert forall|k: int| 0 <= k < lower.len() implies lower[k] == ballot.path[k] by {
                    assert(target.subrange(0, lower.len() as int)[k] == target[k]);
                    assert(ballot.path.subrange(0, target.len() as int)[k] == ballot.path[k]);
                }
            }
        }
    }
    lemma_weight_is_monotone(voters, backers(ballots, target), backers(ballots, lower), n);
    lemma_weight_is_monotone(voters, backers(ballots, lower), participants(ballots), n);
    lemma_weight_is_monotone(voters, participants(ballots), everyone(), n);
}

/// The weight of some of the first voters is no more than a weight can hold.
pub proof fn lemma_partial_weight_fits<I>(voters: &VoterSet<I>, who: spec_fn(int) -> bool, n: nat)
    requires
        voters.well_formed(),
        n <= voters@.len(),
    ensures
        weight_upto(voters@, who, n) <= total_of(voters@) <= u64::MAX,
{
    voters.lemma_well_formed();
    lemma_weight_is_monotone(voters@, who, everyone(), n);
    lemma_weight_grows(voters@, everyone(), n, voters@.len());
}

/// A lead stays the first one when more positions are considered.
proof fn lemma_first_lead_is_stable<H, N, S>(
    ballots: Ballots<H, N, S>,
    ok: spec_fn(Seq<H>) -> bool,
    target: Seq<H>,
    m: nat,
    n: nat,
)
    requires
        m <= n,
        first_lead(ballots, ok, target, m) is Some,
    ensures
        first_lead(ballots, ok, target, n) == first_lead(ballots, ok, target, m),
    decreases n,
{
    if m < n {
        lemma_first_lead_is_stable(ballots, ok, target, m, (n - 1) as nat);
    }
}

} // verus!
