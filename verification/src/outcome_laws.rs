//! Laws of outcomes: what the votes of a round establish, said in weights.
use vstd::prelude::*;

use crate::number::TargetNumber;
use crate::round::{could_commit, lemma_ghost_fits, lemma_state_fits, RoundView};
use crate::round_laws::lemma_position_is_unique;
use crate::tally::{
    backs, cast, child_towards, climb, equivocated, first_lead, ghost_of, has_supermajority,
    lemma_climb, lemma_first_lead, lemma_highest, lemma_longest, lemma_support, longest, passes,
    support, votes_upto, Ballots,
};
use crate::voter_set::{listed_once, position_of};
use crate::weights::{supermajority_is_more_than_two_thirds, tolerated, total_of};

verus! {

/// More than two thirds of the weight counts for a target.
pub open spec fn is_agreed<I, H, N: TargetNumber, S>(
    voters: Seq<(I, u64)>,
    ballots: Ballots<H, N, S>,
    target: Seq<H>,
) -> bool {
    3 * support(voters, ballots, target) > 2 * total_of(voters)
}

/// The vote at a position is for a proper descendant of a target.
pub open spec fn goes_beyond<H, N: TargetNumber, S>(
    ballots: Ballots<H, N, S>,
    i: int,
    target: Seq<H>,
) -> bool {
    &&& 0 <= i < ballots.len()
    &&& ballots[i] is Some
    &&& target.len() < ballots[i]->0.path.len()
    &&& target == ballots[i]->0.path.take(target.len() as int)
}

/// The child of a target on the way to the vote at a position.
pub open spec fn next_towards<H, N: TargetNumber, S>(
    ballots: Ballots<H, N, S>,
    i: int,
    target: Seq<H>,
) -> Seq<H> {
    ballots[i]->0.path.take(target.len() as int + 1)
}

/// The two ways to say that a vote is for a proper descendant agree.
proof fn lemma_beyond<H, N: TargetNumber, S>(ballots: Ballots<H, N, S>, i: int, target: Seq<H>)
    requires
        0 <= i < ballots.len(),
    ensures
        goes_beyond(ballots, i, target) <==> passes(ballots, i, target),
        goes_beyond(ballots, i, target) ==> next_towards(ballots, i, target) == child_towards(
            ballots,
            i,
            target,
        ),
{
    if goes_beyond(ballots, i, target) {
        let path = ballots[i]->0.path;
        assert(target =~= path.subrange(0, target.len() as int));
        assert(next_towards(ballots, i, target) =~= child_towards(ballots, i, target)) by {
            assert forall|k: int| 0 <= k < target.len() implies target[k] == path[k] by {
                assert(path.take(target.len() as int)[k] == path[k]);
            }
        }
    }
    if passes(ballots, i, target) {
        assert(target =~= ballots[i]->0.path.take(target.len() as int));
    }
}

/// A supermajority is more than two thirds.
proof fn lemma_agreed<I, H, N: TargetNumber, S>(
    voters: Seq<(I, u64)>,
    ballots: Ballots<H, N, S>,
    target: Seq<H>,
)
    requires
        total_of(voters) > 0,
    ensures
        is_agreed(voters, ballots, target) <==> has_supermajority(voters, ballots)(target),
{
    supermajority_is_more_than_two_thirds(total_of(voters), support(voters, ballots, target));
}

/// The next target is a child that a vote leads to and that more than two thirds count
/// for, and no earlier vote leads to such a child.
pub open spec fn steps_first<I, H, N: TargetNumber, S>(
    voters: Seq<(I, u64)>,
    ballots: Ballots<H, N, S>,
    target: Seq<H>,
    next: Seq<H>,
) -> bool {
    &&& is_agreed(voters, ballots, next)
    &&& exists|i: int| #[trigger]
        goes_beyond(ballots, i, target) && next == next_towards(ballots, i, target) && forall|
            j: int,
        |
            j < i && #[trigger] goes_beyond(ballots, j, target) ==> !is_agreed(
                voters,
                ballots,
                next_towards(ballots, j, target),
            )
}

/// What the votes of a phase agree on: there is such a target if and only if more than
/// two thirds count for the base. It starts at the base, more than two thirds count for
/// it, and no more than that count for any child of it that a vote leads to. Where
/// votes lead to several children that more than two thirds count for, it goes on
/// towards the vote of the first voter.
pub open spec fn is_top_of<I, H, N: TargetNumber, S>(
    voters: Seq<(I, u64)>,
    ballots: Ballots<H, N, S>,
    base: H,
    top: Option<Seq<H>>,
) -> bool {
    &&& top is Some <==> is_agreed(voters, ballots, seq![base])
    &&& top matches Some(top) ==> {
        &&& top.len() > 0
        &&& top[0] == base
        &&& is_agreed(voters, ballots, top)
        &&& forall|i: int| #[trigger]
            goes_beyond(ballots, i, top) ==> !is_agreed(
                voters,
                ballots,
                next_towards(ballots, i, top),
            )
        &&& forall|k: int|
            0 < k < top.len() ==> steps_first(
                voters,
                ballots,
                #[trigger] top.take(k),
                top.take(k + 1),
            )
    }
}

/// The ghosts of a round are the highest targets that its prevotes and its precommits
/// agree on.
pub proof fn ghosts_are_what_the_votes_agree_on<I, H, N: TargetNumber, S>(
    round: RoundView<I, H, N, S>,
)
    requires
        round.well_formed(),
    ensures
        is_top_of(round.voters, round.prevotes, round.base.0, round.prevote_ghost()),
        is_top_of(round.voters, round.precommits, round.base.0, round.precommit_ghost()),
{
    lemma_top(round.voters, round.prevotes, round.base.0);
    lemma_top(round.voters, round.precommits, round.base.0);
}

/// The ghost of one phase is the highest target that its votes agree on.
proof fn lemma_top<I, H, N: TargetNumber, S>(
    voters: Seq<(I, u64)>,
    ballots: Ballots<H, N, S>,
    base: H,
)
    requires
        total_of(voters) > 0,
    ensures
        is_top_of(voters, ballots, base, ghost_of(voters, ballots, base)),
{
    let ok = has_supermajority(voters, ballots);
    let start = seq![base];
    lemma_agreed(voters, ballots, start);
    if ok(start) {
        let top = climb(ballots, ok, start);
        lemma_climb(ballots, ok, start);
        lemma_agreed(voters, ballots, top);
        lemma_climb_stops(ballots, ok, start);
        assert(top[0] == top.subrange(0, 1)[0] && start[0] == base);
        assert forall|i: int| #[trigger] goes_beyond(ballots, i, top) implies !is_agreed(
            voters,
            ballots,
            next_towards(ballots, i, top),
        ) by {
            lemma_beyond(ballots, i, top);
            lemma_agreed(voters, ballots, next_towards(ballots, i, top));
        }
        assert forall|k: int| 0 < k < top.len() implies steps_first(
            voters,
            ballots,
            #[trigger] top.take(k),
            top.take(k + 1),
        ) by {
            let below = top.take(k);
            lemma_climb_steps(ballots, ok, start, k);
            let i = first_lead(ballots, ok, below, ballots.len())->0;
            lemma_first_of_leads(ballots, ok, below, ballots.len());
            lemma_beyond(ballots, i, below);
            lemma_agreed(voters, ballots, top.take(k + 1));
            assert forall|j: int|
                j < i && #[trigger] goes_beyond(ballots, j, below) implies !is_agreed(
                voters,
                ballots,
                next_towards(ballots, j, below),
            ) by {
                lemma_beyond(ballots, j, below);
                lemma_agreed(voters, ballots, next_towards(ballots, j, below));
            }
            assert(goes_beyond(ballots, i, below));
        }
    }
}

/// Climbing stops where no vote leads to a selected child.
proof fn lemma_climb_stops<H, N: TargetNumber, S>(
    ballots: Ballots<H, N, S>,
    ok: spec_fn(Seq<H>) -> bool,
    target: Seq<H>,
)
    ensures
        forall|i: int|
            0 <= i < ballots.len() && #[trigger] passes(ballots, i, climb(ballots, ok, target))
                ==> !ok(child_towards(ballots, i, climb(ballots, ok, target))),
    decreases longest(ballots, ballots.len()) - target.len(),
{
    lemma_first_lead(ballots, ok, target, ballots.len());
    if let Some(i) = first_lead(ballots, ok, target, ballots.len()) {
        let child = child_towards(ballots, i, target);
        lemma_longest(ballots, ballots.len(), i);
        lemma_climb_stops(ballots, ok, child);
        assert(climb(ballots, ok, target) == climb(ballots, ok, child));
    } else {
        assert(climb(ballots, ok, target) == target);
    }
}

/// No earlier vote than the first lead leads to a selected child.
proof fn lemma_first_of_leads<H, N: TargetNumber, S>(
    ballots: Ballots<H, N, S>,
    ok: spec_fn(Seq<H>) -> bool,
    target: Seq<H>,
    n: nat,
)
    ensures
        first_lead(ballots, ok, target, n) matches Some(i) ==> {
            &&& 0 <= i < n
            &&& passes(ballots, i, target)
            &&& ok(child_towards(ballots, i, target))
            &&& forall|j: int|
                0 <= j < i && #[trigger] passes(ballots, j, target) ==> !ok(
                    child_towards(ballots, j, target),
                )
        },
    decreases n,
{
    if n > 0 {
        lemma_first_of_leads(ballots, ok, target, (n - 1) as nat);
        lemma_first_lead(ballots, ok, target, (n - 1) as nat);
    }
}

/// Every step of a climb goes towards the first lead.
proof fn lemma_climb_steps<H, N: TargetNumber, S>(
    ballots: Ballots<H, N, S>,
    ok: spec_fn(Seq<H>) -> bool,
    target: Seq<H>,
    k: int,
)
    requires
        target.len() <= k < climb(ballots, ok, target).len(),
    ensures
        ({
            let top = climb(ballots, ok, target);
            let lead = first_lead(ballots, ok, top.take(k), ballots.len());
            lead is Some && top.take(k + 1) == child_towards(ballots, lead->0, top.take(k))
        }),
    decreases longest(ballots, ballots.len()) - target.len(),
{
    let top = climb(ballots, ok, target);
    lemma_climb(ballots, ok, target);
    assert(top.take(target.len() as int) =~= top.subrange(0, target.len() as int));
    lemma_first_lead(ballots, ok, target, ballots.len());
    match first_lead(ballots, ok, target, ballots.len()) {
        Some(i) => {
            let child = child_towards(ballots, i, target);
            lemma_longest(ballots, ballots.len(), i);
            lemma_climb(ballots, ok, child);
            assert(top.take(child.len() as int) =~= top.subrange(0, child.len() as int));
            if k > target.len() {
                lemma_climb_steps(ballots, ok, child, k);
            }
        },
        None => {},
    }
}

/// What a round has finalized is the highest target on the line to its prevote-ghost
/// that more than two thirds of the precommits count for; it has finalized nothing if
/// and only if there is no such target.
pub proof fn finality_takes_two_thirds_of_both_phases<I, H, N: TargetNumber, S>(
    round: RoundView<I, H, N, S>,
)
    requires
        round.well_formed(),
    ensures
        round.prevote_ghost() is None ==> round.finalized() is None,
        round.prevote_ghost() matches Some(top) ==> match round.finalized() {
            Some(final_one) => {
                &&& 0 < final_one.len() <= top.len()
                &&& final_one == top.take(final_one.len() as int)
                &&& is_agreed(round.voters, round.precommits, final_one)
                &&& forall|k: int|
                    final_one.len() < k <= top.len() ==> !is_agreed(
                        round.voters,
                        round.precommits,
                        #[trigger] top.take(k),
                    )
            },
            None => forall|k: int|
                0 < k <= top.len() ==> !is_agreed(
                    round.voters,
                    round.precommits,
                    #[trigger] top.take(k),
                ),
        },
{
    if let Some(top) = round.prevote_ghost() {
        let ok = has_supermajority(round.voters, round.precommits);
        lemma_highest(ok, top);
        assert forall|k: int| 0 < k <= top.len() implies is_agreed(
            round.voters,
            round.precommits,
            #[trigger] top.take(k),
        ) == ok(top.take(k)) by {
            lemma_agreed(round.voters, round.precommits, top.take(k));
        }
        if let Some(final_one) = round.finalized() {
            assert(final_one =~= top.take(final_one.len() as int));
        }
    }
}

/// A target can still be committed: the weight of the precommits for something else is
/// at most what is tolerated, and what of that has not shown by voting twice.
pub open spec fn is_open<I, H, N: TargetNumber, S>(
    voters: Seq<(I, u64)>,
    precommits: Ballots<H, N, S>,
    target: Seq<H>,
) -> bool {
    let elsewhere = cast(voters, precommits) - support(voters, precommits, target);
    let allowed = tolerated(total_of(voters)) as int;
    let shown = equivocated(voters, precommits) as int;
    elsewhere <= allowed + if shown < allowed {
        allowed - shown
    } else {
        0
    }
}

/// The two ways to say that a target can still be committed agree.
proof fn lemma_open<I, H, N: TargetNumber, S>(
    voters: Seq<(I, u64)>,
    precommits: Ballots<H, N, S>,
    target: Seq<H>,
)
    requires
        total_of(voters) > 0,
    ensures
        is_open(voters, precommits, target) <==> could_commit(voters, precommits)(target),
{
    assert(target =~= target.subrange(0, target.len() as int));
    lemma_support(voters, precommits, target, target);
    supermajority_is_more_than_two_thirds(
        total_of(voters),
        support(voters, precommits, target),
    );
}

/// Without a prevote-ghost there is no estimate. Until more than two thirds have
/// precommitted, the estimate is the ghost. From then on it is the highest target on
/// the line to the ghost that can still be committed.
pub proof fn estimates_can_still_be_committed<I, H, N: TargetNumber, S>(
    round: RoundView<I, H, N, S>,
)
    requires
        round.well_formed(),
    ensures
        round.prevote_ghost() is None ==> round.estimate() is None,
        3 * cast(round.voters, round.precommits) <= 2 * total_of(round.voters)
            ==> round.estimate() == round.prevote_ghost(),
        3 * cast(round.voters, round.precommits) > 2 * total_of(round.voters) ==> (
        round.prevote_ghost() matches Some(top) ==> match round.estimate() {
            Some(estimate) => {
                &&& 0 < estimate.len() <= top.len()
                &&& estimate == top.take(estimate.len() as int)
                &&& is_open(round.voters, round.precommits, estimate)
                &&& forall|k: int|
                    estimate.len() < k <= top.len() ==> !is_open(
                        round.voters,
                        round.precommits,
                        #[trigger] top.take(k),
                    )
            },
            None => forall|k: int|
                0 < k <= top.len() ==> !is_open(
                    round.voters,
                    round.precommits,
                    #[trigger] top.take(k),
                ),
        }),
{
    supermajority_is_more_than_two_thirds(
        total_of(round.voters),
        cast(round.voters, round.precommits),
    );
    if let Some(top) = round.prevote_ghost() {
        let ok = could_commit(round.voters, round.precommits);
        lemma_highest(ok, top);
        assert forall|k: int| 0 < k <= top.len() implies is_open(
            round.voters,
            round.precommits,
            #[trigger] top.take(k),
        ) == ok(top.take(k)) by {
            lemma_open(round.voters, round.precommits, top.take(k));
        }
        if round.committed() {
            if let Some(estimate) = round.estimate() {
                assert(estimate =~= top.take(estimate.len() as int));
            }
        }
    }
}

/// A round is completable if and only if more than two thirds have precommitted, there
/// is an estimate, and the estimate lies below the prevote-ghost, or no child of the
/// ghost that a vote of either phase leads to can still be committed.
pub proof fn completable_rounds_cannot_grow<I, H, N: TargetNumber, S>(round: RoundView<I, H, N, S>)
    requires
        round.well_formed(),
    ensures
        round.state().completable == round.completable(),
        round.completable() <==> {
            &&& 3 * cast(round.voters, round.precommits) > 2 * total_of(round.voters)
            &&& round.estimate() is Some
            &&& round.prevote_ghost() matches Some(top) && (round.estimate() != Some(top) || {
                &&& forall|i: int| #[trigger]
                    goes_beyond(round.prevotes, i, top) ==> !is_open(
                        round.voters,
                        round.precommits,
                        next_towards(round.prevotes, i, top),
                    )
                &&& forall|i: int| #[trigger]
                    goes_beyond(round.precommits, i, top) ==> !is_open(
                        round.voters,
                        round.precommits,
                        next_towards(round.precommits, i, top),
                    )
            })
        },
{
    supermajority_is_more_than_two_thirds(
        total_of(round.voters),
        cast(round.voters, round.precommits),
    );
    if let Some(top) = round.prevote_ghost() {
        lemma_growth(round, round.prevotes, top);
        lemma_growth(round, round.precommits, top);
    }
}

/// The two ways to say that a target cannot grow along the votes of a phase agree.
proof fn lemma_growth<I, H, N: TargetNumber, S>(
    round: RoundView<I, H, N, S>,
    ballots: Ballots<H, N, S>,
    top: Seq<H>,
)
    requires
        round.well_formed(),
        ballots.len() == round.voters.len(),
    ensures
        (forall|i: int| #[trigger]
            goes_beyond(ballots, i, top) ==> !is_open(
                round.voters,
                round.precommits,
                next_towards(ballots, i, top),
            )) <==> !(exists|i: int|
            0 <= i < round.voters.len() && #[trigger] passes(ballots, i, top) && could_commit(
                round.voters,
                round.precommits,
            )(child_towards(ballots, i, top))),
{
    assert forall|i: int| #[trigger] goes_beyond(ballots, i, top) implies passes(ballots, i, top)
        && is_open(round.voters, round.precommits, next_towards(ballots, i, top)) == could_commit(
        round.voters,
        round.precommits,
    )(child_towards(ballots, i, top)) by {
        lemma_beyond(ballots, i, top);
        lemma_open(round.voters, round.precommits, next_towards(ballots, i, top));
    }
    assert forall|i: int|
        0 <= i < round.voters.len() && #[trigger] passes(ballots, i, top) implies goes_beyond(
        ballots,
        i,
        top,
    ) by {
        lemma_beyond(ballots, i, top);
    }
}

/// A state names a target where there is one: by the end of the path to it, and by a
/// view that is as many above the view of the base as there are steps on that path.
pub open spec fn names_target<I, H, N: TargetNumber, S>(
    round: RoundView<I, H, N, S>,
    named: Option<(H, N)>,
    path: Option<Seq<H>>,
) -> bool {
    match path {
        None => named is None,
        Some(path) => {
            &&& path.len() > 0
            &&& named matches Some(target) && target.0 == path.last() && target.1.value() + 1
                == round.base.1.value() + path.len()
        },
    }
}

/// The state of a round names its prevote-ghost, what it has finalized, and its
/// estimate, each where it belongs.
pub proof fn states_name_what_is_established<I, H, N: TargetNumber, S>(round: RoundView<I, H, N, S>)
    requires
        round.well_formed(),
    ensures
        names_target(round, round.state().prevote_ghost, round.prevote_ghost()),
        names_target(round, round.state().finalized, round.finalized()),
        names_target(round, round.state().estimate, round.estimate()),
        names_target(round, round.target_option(round.precommit_ghost()), round.precommit_ghost()),
{
    lemma_state_fits(round);
    lemma_ghost_fits(round, round.precommits);
    lemma_named(round, round.prevote_ghost());
    lemma_named(round, round.finalized());
    lemma_named(round, round.estimate());
    lemma_named(round, round.precommit_ghost());
}

/// A path that leads to a target is named by it.
proof fn lemma_named<I, H, N: TargetNumber, S>(
    round: RoundView<I, H, N, S>,
    path: Option<Seq<H>>,
)
    requires
        path matches Some(path) ==> round.leads_to_a_target(path),
    ensures
        names_target(round, round.target_option(path), path),
{
    if let Some(path) = path {
        N::representation_is_exact((round.base.1.value() + path.len() - 1) as nat);
    }
}

/// The first vote of a voter, or its second one, with its sender.
pub open spec fn vote_at<I, H, N: TargetNumber, S>(
    voters: Seq<(I, u64)>,
    ballots: Ballots<H, N, S>,
    i: int,
    second: bool,
) -> (I, (H, N), S) {
    let ballot = ballots[i]->0;
    if second {
        (voters[i].0, (ballot.second->0).0, (ballot.second->0).1)
    } else {
        (voters[i].0, ballot.target, ballot.signature)
    }
}

/// A voter has cast this vote, first or second, and counts for a target.
pub open spec fn counts_for<H, N: TargetNumber, S>(
    ballots: Ballots<H, N, S>,
    i: int,
    second: bool,
    target: Seq<H>,
) -> bool {
    &&& 0 <= i < ballots.len()
    &&& ballots[i] is Some
    &&& second ==> ballots[i]->0.second is Some
    &&& ballots[i]->0.second is Some || (target.len() <= ballots[i]->0.path.len() && target
        == ballots[i]->0.path.take(target.len() as int))
}

/// A vote is one of the first `n` voters, and counts for a target.
pub open spec fn is_counted_vote<I, H, N: TargetNumber, S>(
    voters: Seq<(I, u64)>,
    ballots: Ballots<H, N, S>,
    target: Seq<H>,
    n: nat,
    vote: (I, (H, N), S),
) -> bool {
    exists|i: int, second: bool|
        i < n && #[trigger] counts_for(ballots, i, second, target) && vote == vote_at(
            voters,
            ballots,
            i,
            second,
        )
}

/// A list holds exactly the votes of the voters that count for a target, in the order
/// of the voters, the first vote of a voter before its second one.
pub open spec fn lists_votes_for<I, H, N: TargetNumber, S>(
    voters: Seq<(I, u64)>,
    ballots: Ballots<H, N, S>,
    target: Seq<H>,
    list: Seq<(I, (H, N), S)>,
) -> bool {
    &&& forall|k: int|
        0 <= k < list.len() ==> is_counted_vote(
            voters,
            ballots,
            target,
            voters.len(),
            #[trigger] list[k],
        )
    &&& forall|i: int, second: bool| #[trigger]
        counts_for(ballots, i, second, target) ==> list.contains(
            vote_at(voters, ballots, i, second),
        )
    &&& forall|j: int, k: int|
        #![trigger list[j], list[k]]
        0 <= j < k < list.len() ==> {
            let earlier = position_of(voters, list[j].0)->0;
            let later = position_of(voters, list[k].0)->0;
            earlier <= later && (earlier == later ==> list[j] == vote_at(
                voters,
                ballots,
                earlier,
                false,
            ) && list[k] == vote_at(voters, ballots, later, true))
        }
}

/// What the votes of the first `n` voters are.
proof fn lemma_listed<I, H, N: TargetNumber, S>(
    voters: Seq<(I, u64)>,
    ballots: Ballots<H, N, S>,
    target: Seq<H>,
    n: nat,
)
    requires
        listed_once(voters),
        n <= voters.len(),
        voters.len() == ballots.len(),
    ensures
        ({
            let list = votes_upto(voters, ballots, target, n);
            &&& forall|k: int|
                0 <= k < list.len() ==> is_counted_vote(
                    voters,
                    ballots,
                    target,
                    n,
                    #[trigger] list[k],
                )
            &&& forall|i: int, second: bool|
                i < n && #[trigger] counts_for(ballots, i, second, target) ==> list.contains(
                    vote_at(voters, ballots, i, second),
                )
            &&& forall|k: int|
                0 <= k < list.len() ==> 0 <= position_of(voters, (#[trigger] list[k]).0)->0 < n
            &&& forall|j: int, k: int|
                #![trigger list[j], list[k]]
                0 <= j < k < list.len() ==> {
                    let earlier = position_of(voters, list[j].0)->0;
                    let later = position_of(voters, list[k].0)->0;
                    earlier <= later && (earlier == later ==> list[j] == vote_at(
                        voters,
                        ballots,
                        earlier,
                        false,
                    ) && list[k] == vote_at(voters, ballots, later, true))
                }
        }),
    decreases n,
{
    if n > 0 {
        let m = (n - 1) as nat;
        lemma_listed(voters, ballots, target, m);
        let shorter = votes_upto(voters, ballots, target, m);
        let list = votes_upto(voters, ballots, target, n);
        let at = n - 1;
        lemma_position_is_unique(voters, at);
        assert(counts_for(ballots, at, false, target) <==> backs(ballots, at, target)) by {
            if let Some(ballot) = ballots[at] {
                assert(ballot.path.take(target.len() as int) =~= ballot.path.subrange(
                    0,
                    target.len() as int,
                ));
            }
        }
        assert forall|k: int| 0 <= k < list.len() implies is_counted_vote(
            voters,
            ballots,
            target,
            n,
            #[trigger] list[k],
        ) by {
            if k < shorter.len() {
                assert(list[k] == shorter[k]);
                let (i, second) = choose|i: int, second: bool|
                    i < m && #[trigger] counts_for(ballots, i, second, target) && shorter[k]
                        == vote_at(voters, ballots, i, second);
                assert(counts_for(ballots, i, second, target));
            } else {
                let second = k > shorter.len();
                assert(counts_for(ballots, at, second, target));
                assert(list[k] == vote_at(voters, ballots, at, second));
            }
        }
        assert forall|i: int, second: bool|
            i < n && #[trigger] counts_for(ballots, i, second, target) implies list.contains(
            vote_at(voters, ballots, i, second),
        ) by {
            let vote = vote_at(voters, ballots, i, second);
            if i < m {
                assert(shorter.contains(vote));
                let k = choose|k: int| 0 <= k < shorter.len() && shorter[k] == vote;
                assert(list[k] == vote);
            } else {
                assert(counts_for(ballots, at, false, target));
                let k = shorter.len() + if second {
                    1int
                } else {
                    0
                };
                assert(list[k] == vote);
            }
        }
        assert forall|k: int| 0 <= k < list.len() implies 0 <= position_of(
            voters,
            (#[trigger] list[k]).0,
        )->0 < n by {
            if k < shorter.len() {
                assert(list[k] == shorter[k]);
            }
        }
        assert forall|j: int, k: int|
            #![trigger list[j], list[k]]
            0 <= j < k < list.len() implies {
            let earlier = position_of(voters, list[j].0)->0;
            let later = position_of(voters, list[k].0)->0;
            earlier <= later && (earlier == later ==> list[j] == vote_at(
                voters,
                ballots,
                earlier,
                false,
            ) && list[k] == vote_at(voters, ballots, later, true))
        } by {
            if k < shorter.len() {
                assert(list[j] == shorter[j] && list[k] == shorter[k]);
            } else if j < shorter.len() {
                assert(list[j] == shorter[j]);
            }
        }
    }
}

/// The precommits that prove what a round has finalized are exactly those of the voters
/// that count for it, with their targets and signatures, in the order of the voters; a
/// voter that precommitted twice contributes both.
pub proof fn proofs_hold_all_precommits_for_the_target<I, H, N: TargetNumber, S>(
    round: RoundView<I, H, N, S>,
)
    requires
        round.well_formed(),
        round.finalized() is Some,
    ensures
        ({
            let list = round.finalizing_precommits();
            lists_votes_for(
                round.voters,
                round.precommits,
                round.finalized()->0,
                Seq::new(
                    list.len(),
                    |k: int|
                        (
                            list[k].id,
                            (list[k].precommit.target_hash, list[k].precommit.target_number),
                            list[k].signature,
                        ),
                ),
            )
        }),
{
    let target = round.finalized()->0;
    let votes = votes_upto(round.voters, round.precommits, target, round.voters.len());
    let list = round.finalizing_precommits();
    lemma_listed(round.voters, round.precommits, target, round.voters.len());
    let plain = Seq::new(
        list.len(),
        |k: int|
            (
                list[k].id,
                (list[k].precommit.target_hash, list[k].precommit.target_number),
                list[k].signature,
            ),
    );
    assert(plain =~= votes);
}

/// The senders of the votes of a phase are the voters that have voted, in their order;
/// a voter that voted twice is there twice.
pub proof fn senders_are_those_who_voted<I, H, N: TargetNumber, S>(
    round: RoundView<I, H, N, S>,
    ballots: Ballots<H, N, S>,
)
    requires
        round.well_formed(),
        ballots.len() == round.voters.len(),
    ensures
        exists|votes: Seq<(I, (H, N), S)>|
            {
                &&& #[trigger] lists_votes_for(round.voters, ballots, Seq::empty(), votes)
                &&& round.senders(ballots).len() == votes.len()
                &&& forall|k: int|
                    0 <= k < votes.len() ==> round.senders(ballots)[k] == (#[trigger] votes[k]).0
            },
{
    let votes = votes_upto(round.voters, ballots, Seq::empty(), round.voters.len());
    lemma_listed(round.voters, ballots, Seq::empty(), round.voters.len());
    assert(lists_votes_for(round.voters, ballots, Seq::empty(), votes));
}

} // verus!
