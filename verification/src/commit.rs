//! Checking claims that a target is final.
use vstd::prelude::*;

use crate::chain::{Chain, Error};
use crate::ident::Identity;
use crate::messages::{Commit, CommitView, SignedPrecommit};
use crate::number::TargetNumber;
use crate::tally::lemma_partial_weight_fits;
use crate::round::{is_known_target, target_is_known};
use crate::voter_set::{is_voter, VoterSet};
use crate::weights::{supermajority, total_of, weight_of, weight_upto};

verus! {

/// The chain holds the target of every precommit of a voter, at its view.
pub open spec fn all_known<I, H, N: TargetNumber, S, C: Chain<H, N>>(
    chain: C,
    voters: Seq<(I, u64)>,
    list: Seq<SignedPrecommit<H, N, S, I>>,
) -> bool {
    forall|k: int|
        #![trigger list[k]]
        0 <= k < list.len() && is_voter(voters, list[k].id) ==> target_is_known(
            chain,
            list[k].precommit.target_hash,
            list[k].precommit.target_number,
        )
}

/// A voter has precommitted for the target or a descendant of it.
pub open spec fn precommits_to<I, H, N: TargetNumber, S, C: Chain<H, N>>(
    chain: C,
    list: Seq<SignedPrecommit<H, N, S, I>>,
    id: I,
    target: H,
) -> bool {
    exists|k: int|
        0 <= k < list.len() && (#[trigger] list[k]).id == id && chain.reaches(
            target,
            list[k].precommit.target_hash,
        )
}

/// Two precommits are by the same voter and differ.
pub open spec fn contradict<I, H, N: TargetNumber, S>(
    a: SignedPrecommit<H, N, S, I>,
    b: SignedPrecommit<H, N, S, I>,
) -> bool {
    a.id == b.id && (a.precommit != b.precommit || a.signature != b.signature)
}

/// A voter has signed two different precommits.
pub open spec fn contradicts_itself<I, H, N: TargetNumber, S>(
    list: Seq<SignedPrecommit<H, N, S, I>>,
    id: I,
) -> bool {
    exists|j: int, k: int|
        0 <= j < list.len() && 0 <= k < list.len() && (#[trigger] list[j]).id == id && contradict(
            list[j],
            #[trigger] list[k],
        )
}

/// Selects the voters that count for the target: they precommitted for it or a
/// descendant of it, or they contradict themselves and count for everything.
pub open spec fn committers<I, H, N: TargetNumber, S, C: Chain<H, N>>(
    chain: C,
    voters: Seq<(I, u64)>,
    list: Seq<SignedPrecommit<H, N, S, I>>,
    target: H,
) -> spec_fn(int) -> bool {
    |i: int|
        precommits_to(chain, list, voters[i].0, target) || contradicts_itself(list, voters[i].0)
}

/// How many of the first `n` voters contradict themselves.
pub open spec fn contradictions<I, H, N: TargetNumber, S>(
    voters: Seq<(I, u64)>,
    list: Seq<SignedPrecommit<H, N, S, I>>,
    n: nat,
) -> nat
    decreases n,
{
    if n == 0 {
        0
    } else {
        contradictions(voters, list, (n - 1) as nat) + if contradicts_itself(
            list,
            voters[n - 1].0,
        ) {
            1nat
        } else {
            0nat
        }
    }
}

/// The precommit at a position repeats an earlier one of a voter.
pub open spec fn repeats<I, H, N: TargetNumber, S>(
    voters: Seq<(I, u64)>,
    list: Seq<SignedPrecommit<H, N, S, I>>,
    k: int,
) -> bool {
    is_voter(voters, list[k].id) && exists|j: int| 0 <= j < k && #[trigger] list[j] == list[k]
}

/// How many of the first `n` precommits repeat an earlier one of a voter.
pub open spec fn repetitions<I, H, N: TargetNumber, S>(
    voters: Seq<(I, u64)>,
    list: Seq<SignedPrecommit<H, N, S, I>>,
    n: nat,
) -> nat
    decreases n,
{
    if n == 0 {
        0
    } else {
        repetitions(voters, list, (n - 1) as nat) + if repeats(voters, list, n - 1) {
            1nat
        } else {
            0nat
        }
    }
}

/// How many of the first `n` precommits are by strangers.
pub open spec fn strangers<I, H, N: TargetNumber, S>(
    voters: Seq<(I, u64)>,
    list: Seq<SignedPrecommit<H, N, S, I>>,
    n: nat,
) -> nat
    decreases n,
{
    if n == 0 {
        0
    } else {
        strangers(voters, list, (n - 1) as nat) + if is_voter(voters, list[n - 1].id) {
            0nat
        } else {
            1nat
        }
    }
}

/// A commit is valid: the chain holds its target and the targets of all voters'
/// precommits, and a supermajority of the voters counts for its target.
pub open spec fn is_valid_commit<I, H, N: TargetNumber, S, C: Chain<H, N>>(
    commit: CommitView<H, N, S, I>,
    voters: Seq<(I, u64)>,
    chain: C,
) -> bool {
    &&& target_is_known(chain, commit.target_hash, commit.target_number)
    &&& all_known(chain, voters, commit.precommits)
    &&& weight_of(voters, committers(chain, voters, commit.precommits, commit.target_hash))
        >= supermajority(total_of(voters))
}

/// What checking a commit found.
#[derive(Clone, Copy, Debug, PartialEq, Eq, Structural)]
pub struct CommitValidationResult {
    valid: bool,
    num_precommits: usize,
    num_duplicated_precommits: usize,
    num_equivocations: usize,
    num_invalid_voters: usize,
}

impl CommitValidationResult {
    /// The commit is valid.
    pub closed spec fn valid(self) -> bool {
        self.valid
    }

    /// The number of precommits in the commit.
    pub closed spec fn precommits(self) -> usize {
        self.num_precommits
    }

    /// The number of precommits that repeat an earlier one.
    pub closed spec fn duplicated(self) -> usize {
        self.num_duplicated_precommits
    }

    /// The number of voters that contradict themselves.
    pub closed spec fn equivocated(self) -> usize {
        self.num_equivocations
    }

    /// The number of precommits of strangers.
    pub closed spec fn strangers(self) -> usize {
        self.num_invalid_voters
    }

    /// Whether the commit is valid.
    pub fn is_valid(&self) -> (r: bool)
        ensures
            r == self.valid(),
    {
        self.valid
    }

    /// The number of precommits in the commit.
    pub fn num_precommits(&self) -> (r: usize)
        ensures
            r == self.precommits(),
    {
        self.num_precommits
    }

    /// The number of precommits that repeat an earlier one.
    pub fn num_duplicated_precommits(&self) -> (r: usize)
        ensures
            r == self.duplicated(),
    {
        self.num_duplicated_precommits
    }

    /// The number of voters that contradict themselves.
    pub fn num_equivocations(&self) -> (r: usize)
        ensures
            r == self.equivocated(),
    {
        self.num_equivocations
    }

    /// The number of precommits of strangers, which are ignored.
    pub fn num_invalid_voters(&self) -> (r: usize)
        ensures
            r == self.strangers(),
    {
        self.num_invalid_voters
    }
}

/// Check a commit.
///
/// Precommits of strangers are counted and otherwise ignored. The check itself
/// never fails.
pub fn validate_commit<I: Identity, H: Identity, N: TargetNumber, S: Identity, C: Chain<H, N>>(
    commit: &Commit<H, N, S, I>,
    voters: &VoterSet<I>,
    chain: &C,
) -> (r: Result<CommitValidationResult, Error>)
    requires
        voters.well_formed(),
        chain.consistent(),
    ensures
        r matches Ok(found) && {
            &&& found.valid() == is_valid_commit(commit@, voters@, *chain)
            &&& found.precommits() == commit@.precommits.len()
            &&& found.strangers() == strangers(
                voters@,
                commit@.precommits,
                commit@.precommits.len(),
            )
            &&& found.duplicated() == repetitions(
                voters@,
                commit@.precommits,
                commit@.precommits.len(),
            )
            &&& found.equivocated() == contradictions(voters@, commit@.precommits, voters@.len())
        },
{
    let list = &commit.precommits;
    let mut all_known_so_far = true;
    let mut num_duplicated_precommits: usize = 0;
    let mut num_invalid_voters: usize = 0;
    let mut k: usize = 0;
    while k < list.len()
        invariant
            chain.consistent(),
            list == &commit.precommits,
            k <= list.len(),
            num_duplicated_precommits <= k,
            num_duplicated_precommits == repetitions(voters@, list@, k as nat),
            num_invalid_voters <= k,
            num_invalid_voters == strangers(voters@, list@, k as nat),
            all_known_so_far == all_known(*chain, voters@, list@.take(k as int)),
        decreases list.len() - k,
    {
        let signed = &list[k];
        if !voters.contains(&signed.id) {
            num_invalid_voters += 1;
        } else {
            if repeats_earlier(list, k) {
                num_duplicated_precommits += 1;
            }
            let vote = &signed.precommit;
            if !is_known_target(chain, &vote.target_hash, &vote.target_number) {
                assert(list@.take(k + 1)[k as int] == *signed);
                all_known_so_far = false;
            }
        }
        proof {
            let shorter = list@.take(k as int);
            let longer = list@.take(k + 1);
            if all_known(*chain, voters@, longer) {
                assert forall|i: int|
                    #![trigger shorter[i]]
                    0 <= i < shorter.len() && is_voter(
                        voters@,
                        shorter[i].id,
                    ) implies target_is_known(
                    *chain,
                    shorter[i].precommit.target_hash,
                    shorter[i].precommit.target_number,
                ) by {
                    assert(longer[i] == shorter[i]);
                }
            }
            if all_known_so_far {
                assert forall|i: int|
                    #![trigger longer[i]]
                    0 <= i < longer.len() && is_voter(
                        voters@,
                        longer[i].id,
                    ) implies target_is_known(
                    *chain,
                    longer[i].precommit.target_hash,
                    longer[i].precommit.target_number,
                ) by {
                    if i < k {
                        assert(longer[i] == shorter[i]);
                    }
                }
            }
        }
        k += 1;
    }
    assert(list@.take(k as int) =~= list@);
    let ghost who = committers(*chain, voters@, list@, commit.target_hash);
    let mut weight: u64 = 0;
    let mut num_equivocations: usize = 0;
    let mut i: usize = 0;
    while i < voters.len()
        invariant
            voters.well_formed(),
            chain.consistent(),
            list == &commit.precommits,
            who == committers(*chain, voters@, list@, commit.target_hash),
            i <= voters@.len(),
            weight == weight_upto(voters@, who, i as nat),
            num_equivocations <= i,
            num_equivocations == contradictions(voters@, list@, i as nat),
        decreases voters@.len() - i,
    {
        let voter = voters.nth(i);
        proof {
            lemma_partial_weight_fits(voters, who, (i + 1) as nat);
        }
        let doubled = has_contradiction(list, voter.0);
        if doubled {
            num_equivocations += 1;
        }
        if doubled || has_precommitted(chain, list, voter.0, &commit.target_hash) {
            weight += voter.1;
        }
        i += 1;
    }
    let valid = is_known_target(chain, &commit.target_hash, &commit.target_number)
        && all_known_so_far && weight >= voters.threshold();
    Ok(
        CommitValidationResult {
            valid,
            num_precommits: list.len(),
            num_duplicated_precommits,
            num_equivocations,
            num_invalid_voters,
        },
    )
}

/// Whether the precommit at a position repeats an earlier one.
fn repeats_earlier<I: Identity, H: Identity, N: TargetNumber, S: Identity>(
    list: &Vec<SignedPrecommit<H, N, S, I>>,
    k: usize,
) -> (r: bool)
    requires
        k < list@.len(),
    ensures
        r == exists|j: int| 0 <= j < k && #[trigger] list@[j] == list@[k as int],
{
    let mut j: usize = 0;
    while j < k
        invariant
            j <= k < list@.len(),
            forall|i: int| 0 <= i < j ==> #[trigger] list@[i] != list@[k as int],
        decreases k - j,
    {
        if list[j].same(&list[k]) {
            return true;
        }
        j += 1;
    }
    false
}

/// Whether a voter has signed two different precommits.
fn has_contradiction<I: Identity, H: Identity, N: TargetNumber, S: Identity>(
    list: &Vec<SignedPrecommit<H, N, S, I>>,
    id: &I,
) -> (r: bool)
    ensures
        r == contradicts_itself(list@, *id),
{
    let mut first: Option<usize> = None;
    let mut k: usize = 0;
    while k < list.len()
        invariant
            k <= list.len(),
            match first {
                None => forall|i: int| 0 <= i < k ==> (#[trigger] list@[i]).id != *id,
                Some(f) => {
                    &&& f < k
                    &&& list@[f as int].id == *id
                    &&& forall|i: int|
                        0 <= i < k && (#[trigger] list@[i]).id == *id ==> list@[i]
                            == list@[f as int]
                },
            },
        decreases list.len() - k,
    {
        if list[k].id.same(id) {
            match first {
                None => {
                    first = Some(k);
                },
                Some(f) => {
                    if !list[k].same(&list[f]) {
                        assert(contradict(list@[f as int], list@[k as int]));
                        return true;
                    }
                },
            }
        }
        k += 1;
    }
    false
}

/// Whether a voter has precommitted for the target or a descendant of it.
fn has_precommitted<I: Identity, H: Identity, N: TargetNumber, S: Identity, C: Chain<H, N>>(
    chain: &C,
    list: &Vec<SignedPrecommit<H, N, S, I>>,
    id: &I,
    target: &H,
) -> (r: bool)
    requires
        chain.consistent(),
    ensures
        r == precommits_to(*chain, list@, *id, *target),
{
    let mut k: usize = 0;
    while k < list.len()
        invariant
            chain.consistent(),
            k <= list.len(),
            forall|i: int|
                0 <= i < k && (#[trigger] list@[i]).id == *id ==> !chain.reaches(
                    *target,
                    list@[i].precommit.target_hash,
                ),
        decreases list.len() - k,
    {
        if list[k].id.same(id) && chain.is_equal_or_descendent_of(
            target.duplicate(),
            list[k].precommit.target_hash.duplicate(),
        ) {
            return true;
        }
        k += 1;
    }
    false
}

} // verus!
