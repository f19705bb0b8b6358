//! Laws of rounds: what supermajorities imply, and what later votes cannot undo.
use vstd::prelude::*;

use crate::chain::Chain;
use crate::messages::{Precommit, Prevote};
use crate::number::TargetNumber;
use crate::round::{could_commit, lemma_ghost_fits, lemma_state_fits, times_seen, RoundView};
use crate::tally::{
    backers, backs, cast, child_towards, climb, equivocated, equivocators, ghost_of, has_doubled,
    has_supermajority, has_voted, lemma_climb, lemma_first_lead, lemma_highest, lemma_support,
    participants, passes, support, turnout, Ballots,
};
use crate::voter_set::{listed_once, position_of};
use crate::weights::{
    everyone, lemma_same_selection, lemma_supermajorities_overlap, lemma_union_and_overlap,
    lemma_weight_is_monotone, supermajority, tolerated, total_of, weight_upto,
};

verus! {

/// Two targets lie on one line.
pub open spec fn on_one_line<H>(a: Seq<H>, b: Seq<H>) -> bool {
    a.is_prefix_of(b) || b.is_prefix_of(a)
}

/// Beginnings of one path lie on one line.
pub proof fn lemma_beginnings_of_one_path<H>(a: Seq<H>, b: Seq<H>, path: Seq<H>)
    requires
        a.is_prefix_of(path),
        b.is_prefix_of(path),
    ensures
        on_one_line(a, b),
        a.len() <= b.len() ==> a.is_prefix_of(b),
{
    if a.len() <= b.len() {
        assert(a =~= b.subrange(0, a.len() as int));
    } else {
        assert(b =~= a.subrange(0, b.len() as int));
    }
}

/// A beginning of a beginning is a beginning.
pub proof fn lemma_beginning_of_beginning<H>(a: Seq<H>, b: Seq<H>, c: Seq<H>)
    requires
        a.is_prefix_of(b),
        b.is_prefix_of(c),
    ensures
        a.is_prefix_of(c),
{
    assert(a =~= c.subrange(0, a.len() as int)) by {
        assert forall|k: int| 0 <= k < a.len() implies a[k] == c[k] by {
            assert(b.subrange(0, a.len() as int)[k] == b[k]);
            assert(c.subrange(0, b.len() as int)[k] == c[k]);
        }
    }
}

/// Votes for competing targets do not merge: only voters that voted twice count
/// for both.
pub proof fn competing_targets_share_only_equivocators<I, H, N: TargetNumber, S>(
    voters: Seq<(I, u64)>,
    ballots: Ballots<H, N, S>,
    a: Seq<H>,
    b: Seq<H>,
)
    requires
        !on_one_line(a, b),
    ensures
        support(voters, ballots, a) + support(voters, ballots, b) <= cast(voters, ballots)
            + equivocated(voters, ballots),
{
    let n = voters.len();
    let for_a = backers(ballots, a);
    let for_b = backers(ballots, b);
    let either = |i: int| for_a(i) || for_b(i);
    let both = |i: int| for_a(i) && for_b(i);
    lemma_union_and_overlap(voters, for_a, for_b, n);
    lemma_same_selection(voters, either, |i: int| for_a(i) || for_b(i), n);
    lemma_same_selection(voters, both, |i: int| for_a(i) && for_b(i), n);
    lemma_weight_is_monotone(voters, either, participants(ballots), n);
    assert forall|i: int| 0 <= i < n && #[trigger] both(i) implies equivocators(ballots)(i) by {
        if !has_doubled(ballots, i) {
            lemma_beginnings_of_one_path(a, b, ballots[i]->0.path);
        }
    }
    lemma_weight_is_monotone(voters, both, equivocators(ballots), n);
}

/// While no more than the tolerated weight votes twice, all targets with a
/// supermajority lie on one line.
pub proof fn supermajorities_agree<I, H, N: TargetNumber, S>(
    voters: Seq<(I, u64)>,
    ballots: Ballots<H, N, S>,
    a: Seq<H>,
    b: Seq<H>,
)
    requires
        total_of(voters) > 0,
        equivocated(voters, ballots) <= tolerated(total_of(voters)),
        has_supermajority(voters, ballots)(a),
        has_supermajority(voters, ballots)(b),
    ensures
        on_one_line(a, b),
{
    if !on_one_line(a, b) {
        competing_targets_share_only_equivocators(voters, ballots, a, b);
        lemma_supermajorities_overlap(total_of(voters));
        assert(a =~= a.subrange(0, a.len() as int));
        lemma_support(voters, ballots, a, a);
    }
}

/// A target with a supermajority is in the path of a voter that voted once.
proof fn lemma_honest_backer<I, H, N: TargetNumber, S>(
    voters: Seq<(I, u64)>,
    ballots: Ballots<H, N, S>,
    a: Seq<H>,
)
    requires
        total_of(voters) > 0,
        equivocated(voters, ballots) <= tolerated(total_of(voters)),
        has_supermajority(voters, ballots)(a),
    ensures
        exists|i: int|
            0 <= i < voters.len() && (#[trigger] ballots[i]) is Some && a.is_prefix_of(
                ballots[i]->0.path,
            ),
{
    lemma_supermajorities_overlap(total_of(voters));
    if forall|i: int|
        0 <= i < voters.len() && #[trigger] backers(ballots, a)(i) ==> equivocators(ballots)(i) {
        lemma_weight_is_monotone(voters, backers(ballots, a), equivocators(ballots), voters.len());
    } else {
        let i = choose|i: int|
            0 <= i < voters.len() && #[trigger] backers(ballots, a)(i) && !equivocators(ballots)(i);
        assert(backs(ballots, i, a) && !has_doubled(ballots, i));
        assert(ballots[i] is Some);
    }
}

/// The ghost is the highest target with a supermajority: it has one, and while
/// no more than the tolerated weight votes twice, every target with a
/// supermajority is the ghost or an ancestor of it.
pub proof fn ghost_is_the_highest<I, H, N: TargetNumber, S>(
    voters: Seq<(I, u64)>,
    ballots: Ballots<H, N, S>,
    base: H,
    a: Seq<H>,
)
    requires
        total_of(voters) > 0,
        voters.len() == ballots.len(),
        equivocated(voters, ballots) <= tolerated(total_of(voters)),
        has_supermajority(voters, ballots)(a),
        seq![base].is_prefix_of(a),
    ensures
        ghost_of(voters, ballots, base) matches Some(top) && has_supermajority(voters, ballots)(top)
            && a.is_prefix_of(top),
{
    let ok = has_supermajority(voters, ballots);
    lemma_support(voters, ballots, seq![base], a);
    let top = climb(ballots, ok, seq![base]);
    lemma_climb(ballots, ok, seq![base]);
    supermajorities_agree(voters, ballots, a, top);
    if !a.is_prefix_of(top) {
        lemma_honest_backer(voters, ballots, a);
        let i = choose|i: int|
            0 <= i < voters.len() && (#[trigger] ballots[i]) is Some && a.is_prefix_of(
                ballots[i]->0.path,
            );
        lemma_beginning_of_beginning(top, a, ballots[i]->0.path);
        if top.len() == a.len() {
            assert(a =~= top);
            assert(a =~= a.subrange(0, a.len() as int));
        }
        assert(passes(ballots, i, top));
        let child = child_towards(ballots, i, top);
        assert(child =~= a.subrange(0, child.len() as int)) by {
            let path = ballots[i]->0.path;
            assert forall|k: int| 0 <= k < child.len() implies child[k] == a[k] by {
                assert(path.subrange(0, a.len() as int)[k] == path[k]);
                if k < top.len() {
                    assert(a.subrange(0, top.len() as int)[k] == a[k]);
                }
            }
        }
        lemma_support(voters, ballots, child, a);
        lemma_first_lead(ballots, ok, top, ballots.len());
    }
}

/// Later votes of one phase: no vote is taken back.
pub open spec fn grows_into<H, N: TargetNumber, S>(
    before: Ballots<H, N, S>,
    after: Ballots<H, N, S>,
) -> bool {
    &&& after.len() == before.len()
    &&& forall|i: int|
        0 <= i < before.len() && (#[trigger] before[i]) is Some ==> {
            &&& after[i] is Some
            &&& after[i]->0.path == before[i]->0.path
            &&& before[i]->0.second is Some ==> after[i]->0.second is Some
        }
}

/// Votes only add weight: later votes lower no target's support.
pub proof fn support_only_grows<I, H, N: TargetNumber, S>(
    voters: Seq<(I, u64)>,
    before: Ballots<H, N, S>,
    after: Ballots<H, N, S>,
    target: Seq<H>,
)
    requires
        voters.len() == before.len(),
        grows_into(before, after),
    ensures
        support(voters, before, target) <= support(voters, after, target),
        cast(voters, before) <= cast(voters, after),
        equivocated(voters, before) <= equivocated(voters, after),
{
    let n = voters.len();
    assert forall|i: int| 0 <= i < n && #[trigger] backers(before, target)(i) implies backers(
        after,
        target,
    )(i) by {
        assert(before[i] is Some);
    }
    lemma_weight_is_monotone(voters, backers(before, target), backers(after, target), n);
    assert forall|i: int| 0 <= i < n && #[trigger] participants(before)(i) implies participants(
        after,
    )(i) by {
        assert(before[i] is Some);
    }
    lemma_weight_is_monotone(voters, participants(before), participants(after), n);
    assert forall|i: int| 0 <= i < n && #[trigger] equivocators(before)(i) implies equivocators(
        after,
    )(i) by {
        assert(before[i] is Some);
    }
    lemma_weight_is_monotone(voters, equivocators(before), equivocators(after), n);
}

/// Importing a vote takes no vote back.
pub proof fn import_takes_no_vote_back<I, H, N: TargetNumber, S, C: Chain<H, N>>(
    round: RoundView<I, H, N, S>,
    chain: C,
    prevote: Prevote<H, N>,
    precommit: Precommit<H, N>,
    id: I,
    signature: S,
)
    requires
        round.well_formed(),
    ensures
        grows_into(round.prevotes, round.after_prevote(chain, prevote, id, signature).prevotes),
        round.after_prevote(chain, prevote, id, signature).precommits == round.precommits,
        grows_into(
            round.precommits,
            round.after_precommit(chain, precommit, id, signature).precommits,
        ),
        round.after_precommit(chain, precommit, id, signature).prevotes == round.prevotes,
{
}

/// A vote that is refused leaves no trace, so the voter can still cast another.
pub proof fn refused_votes_leave_no_trace<I, H, N: TargetNumber, S, C: Chain<H, N>>(
    round: RoundView<I, H, N, S>,
    chain: C,
    prevote: Prevote<H, N>,
    precommit: Precommit<H, N>,
    id: I,
    signature: S,
)
    ensures
        round.prevote_report(chain, prevote, id, signature) is Err ==> round.after_prevote(
            chain,
            prevote,
            id,
            signature,
        ) == round,
        round.precommit_report(chain, precommit, id, signature) is Err ==> round.after_precommit(
            chain,
            precommit,
            id,
            signature,
        ) == round,
{
}

/// A target that a supermajority of precommits ever counts for could get one all
/// along, while no more than the tolerated weight votes twice.
pub proof fn what_is_committed_was_possible<I, H, N: TargetNumber, S>(
    voters: Seq<(I, u64)>,
    before: Ballots<H, N, S>,
    after: Ballots<H, N, S>,
    target: Seq<H>,
)
    requires
        total_of(voters) > 0,
        voters.len() == before.len(),
        grows_into(before, after),
        equivocated(voters, after) <= tolerated(total_of(voters)),
        has_supermajority(voters, after)(target),
    ensures
        could_commit(voters, before)(target),
{
    let n = voters.len();
    let now = backers(after, target);
    let already = backers(before, target);
    let silent = |i: int| !has_voted(before, i);
    // Voters that had voted elsewhere and now count for the target voted twice.
    let turned = |i: int|
        has_doubled(after, i) && has_voted(before, i) && !backs(before, i, target);
    let elsewhere = |i: int| has_voted(before, i) && !backs(before, i, target);
    lemma_split(voters, now, already, silent, turned, n);
    lemma_complement(voters, participants(before), silent, n);
    // The voters that turned had voted elsewhere.
    lemma_weight_is_monotone(voters, turned, elsewhere, n);
    lemma_difference(voters, participants(before), already, elsewhere, n);
    // They are new among those that voted twice.
    lemma_disjoint(voters, turned, equivocators(before), equivocators(after), n);
    assert(target =~= target.subrange(0, target.len() as int));
    lemma_support(voters, before, target, target);
}

/// Selections that cover another one weigh at least as much.
proof fn lemma_split<I>(
    voters: Seq<(I, u64)>,
    whole: spec_fn(int) -> bool,
    a: spec_fn(int) -> bool,
    b: spec_fn(int) -> bool,
    c: spec_fn(int) -> bool,
    n: nat,
)
    requires
        forall|i: int| 0 <= i < n && #[trigger] whole(i) ==> a(i) || b(i) || c(i),
    ensures
        weight_upto(voters, whole, n) <= weight_upto(voters, a, n) + weight_upto(voters, b, n)
            + weight_upto(voters, c, n),
    decreases n,
{
    if n > 0 {
        lemma_split(voters, whole, a, b, c, (n - 1) as nat);
    }
}

/// A selection and its complement weigh together what everyone weighs.
proof fn lemma_complement<I>(
    voters: Seq<(I, u64)>,
    a: spec_fn(int) -> bool,
    b: spec_fn(int) -> bool,
    n: nat,
)
    requires
        forall|i: int| 0 <= i < n ==> #[trigger] a(i) == !b(i),
    ensures
        weight_upto(voters, a, n) + weight_upto(voters, b, n) == weight_upto(voters, everyone(), n),
    decreases n,
{
    if n > 0 {
        lemma_complement(voters, a, b, (n - 1) as nat);
        assert(a(n - 1) == !b(n - 1));
    }
}

/// What a selection has beyond a part of it weighs the difference.
proof fn lemma_difference<I>(
    voters: Seq<(I, u64)>,
    whole: spec_fn(int) -> bool,
    part: spec_fn(int) -> bool,
    rest: spec_fn(int) -> bool,
    n: nat,
)
    requires
        forall|i: int| 0 <= i < n && #[trigger] part(i) ==> whole(i),
        forall|i: int| 0 <= i < n ==> #[trigger] rest(i) == (whole(i) && !part(i)),
    ensures
        weight_upto(voters, rest, n) == weight_upto(voters, whole, n) - weight_upto(
            voters,
            part,
            n,
        ),
    decreases n,
{
    if n > 0 {
        lemma_difference(voters, whole, part, rest, (n - 1) as nat);
        assert(rest(n - 1) == (whole(n - 1) && !part(n - 1)));
    }
}

/// Disjoint parts of a selection weigh together no more than it.
proof fn lemma_disjoint<I>(
    voters: Seq<(I, u64)>,
    a: spec_fn(int) -> bool,
    b: spec_fn(int) -> bool,
    whole: spec_fn(int) -> bool,
    n: nat,
)
    requires
        forall|i: int| 0 <= i < n && #[trigger] a(i) ==> whole(i) && !b(i),
        forall|i: int| 0 <= i < n && #[trigger] b(i) ==> whole(i),
    ensures
        weight_upto(voters, a, n) + weight_upto(voters, b, n) <= weight_upto(voters, whole, n),
    decreases n,
{
    if n > 0 {
        lemma_disjoint(voters, a, b, whole, (n - 1) as nat);
    }
}

/// What a round establishes lies on one line: the finalized target is the
/// estimate or an ancestor of it, and the estimate is the prevote-ghost or an
/// ancestor of it.
pub proof fn finalized_estimate_and_ghost_are_ordered<I, H, N: TargetNumber, S>(
    round: RoundView<I, H, N, S>,
)
    requires
        round.well_formed(),
    ensures
        round.finalized() matches Some(done) ==> {
            &&& round.estimate() is Some
            &&& done.is_prefix_of(round.estimate()->0)
        },
        round.estimate() matches Some(bound) ==> {
            &&& round.prevote_ghost() is Some
            &&& bound.is_prefix_of(round.prevote_ghost()->0)
        },
{
    lemma_state_fits(round);
    if let Some(done) = round.finalized() {
        let line = round.prevote_ghost()->0;
        let could = could_commit(round.voters, round.precommits);
        lemma_highest(has_supermajority(round.voters, round.precommits), line);
        lemma_highest(could, line);
        assert(done =~= done.subrange(0, done.len() as int));
        lemma_support(round.voters, round.precommits, done, done);
        if round.committed() {
            assert(could(done));
            assert(line.take(done.len() as int) =~= done);
            match round.estimate() {
                Some(bound) => {
                    lemma_beginnings_of_one_path(done, bound, line);
                },
                None => {},
            }
        }
    }
}

/// The round at a later time: the same round with more votes.
pub open spec fn later<I, H, N: TargetNumber, S>(
    before: RoundView<I, H, N, S>,
    after: RoundView<I, H, N, S>,
) -> bool {
    &&& after.voters == before.voters
    &&& after.base == before.base
    &&& after.number == before.number
    &&& grows_into(before.prevotes, after.prevotes)
    &&& grows_into(before.precommits, after.precommits)
}

/// No more than the tolerated weight has voted twice in either phase.
pub open spec fn tolerable<I, H, N: TargetNumber, S>(round: RoundView<I, H, N, S>) -> bool {
    &&& equivocated(round.voters, round.prevotes) <= tolerated(total_of(round.voters))
    &&& equivocated(round.voters, round.precommits) <= tolerated(total_of(round.voters))
}

/// The prevote-ghost only moves to descendants, while no more than the tolerated
/// weight votes twice.
pub proof fn ghost_only_advances<I, H, N: TargetNumber, S>(
    before: RoundView<I, H, N, S>,
    after: RoundView<I, H, N, S>,
)
    requires
        before.well_formed(),
        after.well_formed(),
        later(before, after),
        tolerable(after),
        before.prevote_ghost() is Some,
    ensures
        after.prevote_ghost() is Some,
        before.prevote_ghost()->0.is_prefix_of(after.prevote_ghost()->0),
{
    let top = before.prevote_ghost()->0;
    lemma_ghost_fits(before, before.prevotes);
    support_only_grows(before.voters, before.prevotes, after.prevotes, top);
    assert(seq![before.base.0] =~= top.subrange(0, 1));
    ghost_is_the_highest(after.voters, after.prevotes, after.base.0, top);
}

/// What a round has finalized stays finalized, while no more than the tolerated
/// weight votes twice: later it has finalized the same target or a descendant of it.
pub proof fn finality_of_a_round_only_advances<I, H, N: TargetNumber, S>(
    before: RoundView<I, H, N, S>,
    after: RoundView<I, H, N, S>,
)
    requires
        before.well_formed(),
        after.well_formed(),
        later(before, after),
        tolerable(after),
        before.finalized() is Some,
    ensures
        after.finalized() is Some,
        before.finalized()->0.is_prefix_of(after.finalized()->0),
{
    let done = before.finalized()->0;
    ghost_only_advances(before, after);
    let line = after.prevote_ghost()->0;
    lemma_highest(
        has_supermajority(before.voters, before.precommits),
        before.prevote_ghost()->0,
    );
    support_only_grows(before.voters, before.precommits, after.precommits, done);
    lemma_beginning_of_beginning(done, before.prevote_ghost()->0, line);
    let ok = has_supermajority(after.voters, after.precommits);
    lemma_highest(ok, line);
    assert(line.take(done.len() as int) =~= done);
    assert(ok(done));
    lemma_beginnings_of_one_path(done, after.finalized()->0, line);
}

/// A child of a target that nobody has voted for cannot get a supermajority of
/// precommits once a supermajority has precommitted.
proof fn lemma_unvoted_target_cannot_commit<I, H, N: TargetNumber, S>(
    voters: Seq<(I, u64)>,
    precommits: Ballots<H, N, S>,
    target: Seq<H>,
)
    requires
        total_of(voters) > 0,
        cast(voters, precommits) >= supermajority(total_of(voters)),
        forall|i: int|
            0 <= i < voters.len() && (#[trigger] precommits[i]) is Some
                && precommits[i]->0.second is None ==> !target.is_prefix_of(precommits[i]->0.path),
        equivocated(voters, precommits) <= tolerated(total_of(voters)),
    ensures
        !could_commit(voters, precommits)(target),
{
    assert forall|i: int| 0 <= i < voters.len() && #[trigger] backers(precommits, target)(
        i,
    ) implies equivocators(precommits)(i) by {
        assert(precommits[i] is Some);
    }
    lemma_weight_is_monotone(
        voters,
        backers(precommits, target),
        equivocators(precommits),
        voters.len(),
    );
    assert(target =~= target.subrange(0, target.len() as int));
    lemma_support(voters, precommits, target, target);
    lemma_supermajorities_overlap(total_of(voters));
}

/// The estimate of a completable round bounds its finality: whatever votes follow,
/// the round finalizes nothing but the estimate or ancestors of it, while no more
/// than the tolerated weight votes twice.
pub proof fn completable_rounds_finalize_nothing_above_the_estimate<I, H, N: TargetNumber, S>(
    before: RoundView<I, H, N, S>,
    after: RoundView<I, H, N, S>,
)
    requires
        before.well_formed(),
        after.well_formed(),
        later(before, after),
        tolerable(after),
        before.completable(),
        after.finalized() is Some,
    ensures
        after.finalized()->0.is_prefix_of(before.estimate()->0),
{
    let voters = before.voters;
    let top = before.prevote_ghost()->0;
    let bound = before.estimate()->0;
    let done = after.finalized()->0;
    let could = could_commit(voters, before.precommits);
    ghost_only_advances(before, after);
    let line = after.prevote_ghost()->0;
    lemma_highest(has_supermajority(voters, after.precommits), line);
    lemma_highest(could, top);
    lemma_beginnings_of_one_path(done, top, line);
    lemma_state_fits(before);
    if done.len() <= top.len() {
        what_is_committed_was_possible(voters, before.precommits, after.precommits, done);
        assert(top.take(done.len() as int) =~= done);
        lemma_beginnings_of_one_path(done, bound, top);
    } else {
        lemma_beginnings_of_one_path(top, done, line);
        lemma_support(voters, after.precommits, top, done);
        what_is_committed_was_possible(voters, before.precommits, after.precommits, top);
        assert(top.take(top.len() as int) =~= top);
        assert(bound.len() == top.len());
        assert(bound =~= top);
        let child = done.subrange(0, top.len() as int + 1);
        assert(child.is_prefix_of(done)) by {
            assert(child =~= done.subrange(0, child.len() as int));
        }
        assert(top.is_prefix_of(child)) by {
            assert(top =~= child.subrange(0, top.len() as int));
        }
        lemma_support(voters, after.precommits, child, done);
        what_is_committed_was_possible(voters, before.precommits, after.precommits, child);
        support_only_grows(voters, before.precommits, after.precommits, top);
        if exists|i: int|
            0 <= i < voters.len() && (#[trigger] before.precommits[i]) is Some
                && child.is_prefix_of(before.precommits[i]->0.path) {
            let i = choose|i: int|
                0 <= i < voters.len() && (#[trigger] before.precommits[i]) is Some
                    && child.is_prefix_of(before.precommits[i]->0.path);
            lemma_beginning_of_beginning(top, child, before.precommits[i]->0.path);
            assert(passes(before.precommits, i, top));
            assert(child_towards(before.precommits, i, top) =~= child) by {
                let path = before.precommits[i]->0.path;
                let next = top.len() as int;
                assert(path.subrange(0, child.len() as int)[next] == path[next]);
            }
            assert(before.could_grow(top));
        } else {
            lemma_unvoted_target_cannot_commit(voters, before.precommits, child);
        }
        assert(false);
    }
}

/// The history holds at most two prevotes and two precommits of every voter.
pub proof fn history_holds_two_votes_per_phase<I, H, N: TargetNumber, S>(
    round: RoundView<I, H, N, S>,
    i: int,
)
    requires
        round.well_formed(),
        0 <= i < round.voters.len(),
    ensures
        times_seen(round.history.seen, round.voters[i].0, true) <= 2,
        times_seen(round.history.seen, round.voters[i].0, false) <= 2,
{
}

/// A voter's weight counts once per phase: further votes of a voter that has
/// voted add neither weight nor participants.
pub proof fn further_votes_add_no_weight<I, H, N: TargetNumber, S, C: Chain<H, N>>(
    round: RoundView<I, H, N, S>,
    chain: C,
    prevote: Prevote<H, N>,
    precommit: Precommit<H, N>,
    at: int,
    signature: S,
)
    requires
        round.well_formed(),
        0 <= at < round.voters.len(),
    ensures
        ({
            let after = round.after_prevote(chain, prevote, round.voters[at].0, signature);
            has_voted(round.prevotes, at) ==> {
                &&& cast(round.voters, after.prevotes) == cast(round.voters, round.prevotes)
                &&& turnout(after.prevotes, after.prevotes.len()) == turnout(
                    round.prevotes,
                    round.prevotes.len(),
                )
            }
        }),
        ({
            let after = round.after_precommit(chain, precommit, round.voters[at].0, signature);
            has_voted(round.precommits, at) ==> {
                &&& cast(round.voters, after.precommits) == cast(round.voters, round.precommits)
                &&& turnout(after.precommits, after.precommits.len()) == turnout(
                    round.precommits,
                    round.precommits.len(),
                )
            }
        }),
{
    let n = round.voters.len();
    let id = round.voters[at].0;
    lemma_position_is_unique(round.voters, at);
    if has_voted(round.prevotes, at) {
        let after = round.after_prevote(chain, prevote, id, signature).prevotes;
        lemma_same_selection(round.voters, participants(after), participants(round.prevotes), n);
        lemma_same_turnout(after, round.prevotes, n);
    }
    if has_voted(round.precommits, at) {
        let after = round.after_precommit(chain, precommit, id, signature).precommits;
        lemma_same_selection(round.voters, participants(after), participants(round.precommits), n);
        lemma_same_turnout(after, round.precommits, n);
    }
}

/// A voter is found where it is listed.
pub proof fn lemma_position_is_unique<I>(voters: Seq<(I, u64)>, at: int)
    requires
        listed_once(voters),
        0 <= at < voters.len(),
    ensures
        position_of(voters, voters[at].0) == Some(at),
{
    let found = position_of(voters, voters[at].0);
    assert(voters[found->0].0 == voters[at].0);
}

/// The same participants make the same turnout.
proof fn lemma_same_turnout<H, N: TargetNumber, S>(a: Ballots<H, N, S>, b: Ballots<H, N, S>, n: nat)
    requires
        forall|i: int| 0 <= i < n ==> #[trigger] has_voted(a, i) == has_voted(b, i),
    ensures
        turnout(a, n) == turnout(b, n),
    decreases n,
{
    if n > 0 {
        lemma_same_turnout(a, b, (n - 1) as nat);
        assert(has_voted(a, n - 1) == has_voted(b, n - 1));
    }
}

} // verus!
