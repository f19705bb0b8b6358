//! The voters of a round and their weights.
use vstd::prelude::*;

use crate::ident::Identity;
use crate::weights::{
    everyone, lemma_same_beginning, lemma_total_after_push, lemma_total_after_update,
    lemma_weight_grows, lemma_weight_is_monotone, supermajority, total_of, weight_of, weight_upto,
};

verus! {

/// An amount of voting weight.
#[derive(Clone, Copy, Debug, PartialEq, Eq, Structural)]
pub struct VoteWeight(pub u64);

/// `id` is one of the voters.
pub open spec fn is_voter<I>(voters: Seq<(I, u64)>, id: I) -> bool {
    exists|i: int| 0 <= i < voters.len() && #[trigger] voters[i].0 == id
}

/// The position of a voter.
pub open spec fn position_of<I>(voters: Seq<(I, u64)>, id: I) -> Option<int> {
    if is_voter(voters, id) {
        Some(choose|i: int| 0 <= i < voters.len() && #[trigger] voters[i].0 == id)
    } else {
        None
    }
}

/// No voter is listed twice.
pub open spec fn listed_once<I>(voters: Seq<(I, u64)>) -> bool {
    forall|i: int, j: int|
        0 <= i < voters.len() && 0 <= j < voters.len() && #[trigger] voters[i].0
            == #[trigger] voters[j].0 ==> i == j
}

/// The voters after one more partial weight: partial weights of one voter
/// accumulate, and a weight of zero does not make a voter.
pub open spec fn with_weight<I>(voters: Seq<(I, u64)>, id: I, weight: u64) -> Seq<(I, u64)> {
    if weight == 0 {
        voters
    } else {
        match position_of(voters, id) {
            Some(at) => voters.update(at, (id, (voters[at].1 + weight) as u64)),
            None => voters.push((id, weight)),
        }
    }
}

/// The voters that a list of partial weights makes.
pub open spec fn gathered<I>(weights: Seq<(I, u64)>) -> Seq<(I, u64)>
    decreases weights.len(),
{
    if weights.len() == 0 {
        Seq::empty()
    } else {
        with_weight(gathered(weights.drop_last()), weights.last().0, weights.last().1)
    }
}

/// A non-empty set of voters with positive weights, in the order in which they
/// were first named.
#[derive(Clone, Debug)]
pub struct VoterSet<I> {
    voters: Vec<(I, u64)>,
    total_weight: u64,
    threshold: u64,
}

impl<I> View for VoterSet<I> {
    type V = Seq<(I, u64)>;

    closed spec fn view(&self) -> Seq<(I, u64)> {
        self.voters@
    }
}

impl<I> VoterSet<I> {
    /// The set is not empty, names every voter once with a positive weight, and
    /// knows its total and its threshold.
    pub closed spec fn well_formed(&self) -> bool {
        &&& self.voters@.len() > 0
        &&& listed_once(self.voters@)
        &&& forall|i: int| 0 <= i < self.voters@.len() ==> (#[trigger] self.voters@[i]).1 > 0
        &&& self.total_weight == total_of(self.voters@)
        &&& self.threshold == supermajority(total_of(self.voters@))
    }

    /// What a well-formed set guarantees.
    pub proof fn lemma_well_formed(&self)
        requires
            self.well_formed(),
        ensures
            self@.len() > 0,
            listed_once(self@),
            forall|i: int| 0 <= i < self@.len() ==> (#[trigger] self@[i]).1 > 0,
            0 < total_of(self@) <= u64::MAX,
    {
        let n = self.voters@.len();
        assert(self.voters@[n - 1].1 > 0);
        assert(everyone()(n - 1));
    }
}

impl<I: Identity> VoterSet<I> {
    /// Create a voter set from partial weights.
    ///
    /// Returns `None` if no weight is positive, or if the total exceeds what a
    /// weight can hold.
    pub fn new(weights: Vec<(I, u64)>) -> (r: Option<Self>)
        ensures
            match r {
                Some(set) => {
                    &&& set.well_formed()
                    &&& set@ == gathered(weights@)
                    &&& total_of(set@) == total_of(weights@)
                    &&& 0 < total_of(weights@) <= u64::MAX
                },
                None => total_of(weights@) == 0 || total_of(weights@) > u64::MAX,
            },
    {
        let mut voters: Vec<(I, u64)> = Vec::new();
        let mut total: u64 = 0;
        let mut next: usize = 0;
        while next < weights.len()
            invariant
                next <= weights.len(),
                voters@ == gathered(weights@.take(next as int)),
                listed_once(voters@),
                forall|i: int| 0 <= i < voters@.len() ==> (#[trigger] voters@[i]).1 > 0,
                total == total_of(voters@),
                total == weight_upto(weights@, everyone(), next as nat),
                voters@.len() == 0 <==> total == 0,
            decreases weights.len() - next,
        {
            let ghost before = voters@;
            let weight: u64 = weights[next].1;
            proof {
                assert(weights@.take(next + 1).drop_last() =~= weights@.take(next as int));
                assert(weights@.take(next + 1).last() == weights@[next as int]);
                assert(weight_upto(weights@, everyone(), (next + 1) as nat) == total + weight);
                lemma_weight_grows(
                    weights@,
                    everyone(),
                    (next + 1) as nat,
                    weights@.len(),
                );
            }
            if weight > 0 {
                total = match total.checked_add(weight) {
                    Some(sum) => sum,
                    None => {
                        return None;
                    },
                };
                match position(&voters, &weights[next].0) {
                    Some(at) => {
                        proof {
                            lemma_part_of_total(before, at as int);
                            lemma_total_after_update(
                                before,
                                at as int,
                                before[at as int].0,
                                (before[at as int].1 + weight) as u64,
                                before.len(),
                            );
                        }
                        let sum: u64 = voters[at].1 + weight;
                        let id = voters[at].0.duplicate();
                        voters.set(at, (id, sum));
                    },
                    None => {
                        proof {
                            lemma_total_after_push(
                                before,
                                weights@[next as int].0,
                                weight,
                                before.len(),
                            );
                        }
                        voters.push((weights[next].0.duplicate(), weight));
                        assert(everyone()(before.len() as int));
                    },
                }
            }
            next += 1;
        }
        assert(weights@.take(next as int) =~= weights@);
        if voters.len() == 0 {
            return None;
        }
        let threshold: u64 = total - (total - 1) / 3;
        Some(VoterSet { voters, total_weight: total, threshold })
    }

    /// Whether `id` is a voter.
    pub fn contains(&self, id: &I) -> (r: bool)
        ensures
            r == is_voter(self@, *id),
    {
        match position(&self.voters, id) {
            Some(_) => true,
            None => false,
        }
    }

    /// The position of a voter.
    pub fn position(&self, id: &I) -> (r: Option<usize>)
        requires
            self.well_formed(),
        ensures
            match r {
                Some(at) => position_of(self@, *id) == Some(at as int),
                None => position_of(self@, *id) is None,
            },
    {
        let at = position(&self.voters, id);
        proof {
            if let Some(i) = at {
                let j = position_of(self@, *id)->0;
                assert(self@[i as int].0 == self@[j].0);
            }
        }
        at
    }

    /// The voter and its weight at a position.
    pub fn nth(&self, at: usize) -> (r: (&I, u64))
        requires
            at < self@.len(),
        ensures
            *r.0 == self@[at as int].0,
            r.1 == self@[at as int].1,
    {
        (&self.voters[at].0, self.voters[at].1)
    }

    /// The voter at a position counted round and round.
    pub fn nth_mod(&self, n: u64) -> (r: (&I, u64))
        requires
            self.well_formed(),
        ensures
            *r.0 == self@[n as int % self@.len() as int].0,
            r.1 == self@[n as int % self@.len() as int].1,
    {
        let at: usize = (n % (self.voters.len() as u64)) as usize;
        self.nth(at)
    }

    /// The number of voters.
    pub fn len(&self) -> (r: usize)
        ensures
            r == self@.len(),
    {
        self.voters.len()
    }

    /// The total weight of all voters.
    pub fn total_weight(&self) -> (r: u64)
        requires
            self.well_formed(),
        ensures
            r == total_of(self@),
    {
        self.total_weight
    }

    /// The weight that constitutes a supermajority.
    pub fn threshold(&self) -> (r: u64)
        requires
            self.well_formed(),
        ensures
            r == supermajority(total_of(self@)),
    {
        self.threshold
    }

    /// A copy of the set.
    pub fn duplicate(&self) -> (r: Self)
        requires
            self.well_formed(),
        ensures
            r.well_formed(),
            r@ == self@,
    {
        let mut voters: Vec<(I, u64)> = Vec::new();
        let mut next: usize = 0;
        while next < self.voters.len()
            invariant
                next <= self.voters.len(),
                voters@ =~= self.voters@.take(next as int),
            decreases self.voters.len() - next,
        {
            voters.push((self.voters[next].0.duplicate(), self.voters[next].1));
            next += 1;
        }
        assert(voters@ =~= self.voters@);
        VoterSet { voters, total_weight: self.total_weight, threshold: self.threshold }
    }
}

/// The position of a voter in a list.
fn position<I: Identity>(voters: &Vec<(I, u64)>, id: &I) -> (r: Option<usize>)
    ensures
        match r {
            Some(at) => at < voters@.len() && voters@[at as int].0 == *id,
            None => !is_voter(voters@, *id),
        },
{
    let mut at: usize = 0;
    while at < voters.len()
        invariant
            at <= voters.len(),
            forall|i: int| 0 <= i < at ==> (#[trigger] voters@[i]).0 != *id,
        decreases voters.len() - at,
    {
        if voters[at].0.same(id) {
            return Some(at);
        }
        at += 1;
    }
    None
}

/// A voter weighs no more than all voters together.
proof fn lemma_part_of_total<I>(voters: Seq<(I, u64)>, at: int)
    requires
        0 <= at < voters.len(),
    ensures
        voters[at].1 <= total_of(voters),
{
    lemma_weight_grows(voters, everyone(), (at + 1) as nat, voters.len());
    assert(everyone()(at));
}

/// A position names the voter that stands there, and everybody that is listed has one.
pub proof fn positions_name_their_voters<I>(voters: Seq<(I, u64)>, id: I)
    ensures
        match position_of(voters, id) {
            Some(at) => 0 <= at < voters.len() && voters[at].0 == id,
            None => forall|i: int| 0 <= i < voters.len() ==> (#[trigger] voters[i]).0 != id,
        },
{
}

/// The weight that a list of partial weights gives to `id`.
pub open spec fn weight_given<I>(weights: Seq<(I, u64)>, id: I) -> nat {
    weight_of(weights, |i: int| weights[i].0 == id)
}

/// A voter set lists everybody once who is given any weight, with all the weight that
/// it is given, and nobody else.
pub proof fn voters_weigh_what_they_are_given<I>(weights: Seq<(I, u64)>, id: I)
    requires
        total_of(weights) <= u64::MAX,
    ensures
        listed_once(gathered(weights)),
        is_voter(gathered(weights), id) <==> weight_given(weights, id) > 0,
        forall|at: int|
            0 <= at < gathered(weights).len() && (#[trigger] gathered(weights)[at]).0 == id
                ==> gathered(weights)[at].1 == weight_given(weights, id),
    decreases weights.len(),
{
    if weights.len() > 0 {
        let shorter = weights.drop_last();
        let last = weights.last();
        let n = shorter.len();
        let before = gathered(shorter);
        let after = gathered(weights);
        lemma_same_beginning(shorter, weights, everyone(), everyone(), n);
        assert(everyone()(n as int));
        voters_weigh_what_they_are_given(shorter, id);
        voters_weigh_what_they_are_given(shorter, last.0);
        lemma_same_beginning(
            shorter,
            weights,
            |i: int| shorter[i].0 == id,
            |i: int| weights[i].0 == id,
            n,
        );
        lemma_weight_is_monotone(shorter, |i: int| shorter[i].0 == last.0, everyone(), n);
        assert(weight_given(weights, id) == weight_given(shorter, id) + if last.0 == id {
            last.1 as nat
        } else {
            0
        });
        if last.1 > 0 {
            match position_of(before, last.0) {
                Some(at) => {
                    assert(before[at].0 == last.0);
                    assert(after == before.update(at, (last.0, (before[at].1 + last.1) as u64)));
                    assert forall|i: int, j: int|
                        0 <= i < after.len() && 0 <= j < after.len() && #[trigger] after[i].0
                            == #[trigger] after[j].0 implies i == j by {
                        assert(before[i].0 == after[i].0 && before[j].0 == after[j].0);
                    }
                    assert forall|k: int|
                        0 <= k < after.len() && (#[trigger] after[k]).0 == id implies after[k].1
                        == weight_given(weights, id) by {
                        assert(before[k].0 == id);
                    }
                    if is_voter(before, id) {
                        let k = choose|k: int|
                            0 <= k < before.len() && #[trigger] before[k].0 == id;
                        assert(after[k].0 == id);
                    }
                    if is_voter(after, id) {
                        let k = choose|k: int| 0 <= k < after.len() && #[trigger] after[k].0 == id;
                        assert(before[k].0 == id);
                    }
                },
                None => {
                    assert(after == before.push((last.0, last.1)));
                    assert forall|i: int, j: int|
                        0 <= i < after.len() && 0 <= j < after.len() && #[trigger] after[i].0
                            == #[trigger] after[j].0 implies i == j by {
                        if i < before.len() {
                            assert(before[i].0 == after[i].0);
                        }
                        if j < before.len() {
                            assert(before[j].0 == after[j].0);
                        }
                    }
                    assert forall|k: int|
                        0 <= k < after.len() && (#[trigger] after[k]).0 == id implies after[k].1
                        == weight_given(weights, id) by {
                        if k < before.len() {
                            assert(before[k].0 == id);
                        }
                    }
                    if is_voter(before, id) {
                        let k = choose|k: int|
                            0 <= k < before.len() && #[trigger] before[k].0 == id;
                        assert(after[k].0 == id);
                    }
                    if is_voter(after, id) {
                        let k = choose|k: int| 0 <= k < after.len() && #[trigger] after[k].0 == id;
                        if k < before.len() {
                            assert(before[k].0 == id);
                        }
                    }
                    assert(after[before.len() as int].0 == last.0);
                },
            }
        }
    }
}

/// Voters keep their places: a further partial weight moves nobody, and somebody new
/// comes last.
pub proof fn voters_keep_their_places<I>(weights: Seq<(I, u64)>, id: I, weight: u64)
    ensures
        ({
            let before = gathered(weights);
            let after = gathered(weights.push((id, weight)));
            &&& forall|i: int|
                0 <= i < before.len() ==> (#[trigger] after[i]).0 == before[i].0
            &&& weight > 0 && !is_voter(before, id) ==> after == before.push((id, weight))
            &&& weight == 0 || is_voter(before, id) ==> after.len() == before.len()
        }),
{
    let longer = weights.push((id, weight));
    assert(longer.drop_last() =~= weights);
}

} // verus!
