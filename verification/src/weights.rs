//! Sums of voting weight.
use vstd::prelude::*;

verus! {

/// The weight of those of the first `n` voters that `who` selects.
pub open spec fn weight_upto<I>(voters: Seq<(I, u64)>, who: spec_fn(int) -> bool, n: nat) -> nat
    decreases n,
{
    if n == 0 {
        0
    } else {
        weight_upto(voters, who, (n - 1) as nat) + if who(n - 1) {
            voters[n - 1].1 as nat
        } else {
            0nat
        }
    }
}

/// The weight of the voters that `who` selects.
pub open spec fn weight_of<I>(voters: Seq<(I, u64)>, who: spec_fn(int) -> bool) -> nat {
    weight_upto(voters, who, voters.len())
}

/// Selects every voter.
pub open spec fn everyone() -> spec_fn(int) -> bool {
    |i: int| true
}

/// The weight of all voters.
pub open spec fn total_of<I>(voters: Seq<(I, u64)>) -> nat {
    weight_of(voters, everyone())
}

/// The largest weight that may misbehave without endangering agreement.
pub open spec fn tolerated(total: nat) -> nat {
    if total == 0 {
        0
    } else {
        ((total - 1) / 3) as nat
    }
}

/// The weight that constitutes a supermajority.
pub open spec fn supermajority(total: nat) -> nat {
    (total - tolerated(total)) as nat
}

/// A larger selection weighs at least as much.
pub proof fn lemma_weight_is_monotone<I>(
    voters: Seq<(I, u64)>,
    few: spec_fn(int) -> bool,
    many: spec_fn(int) -> bool,
    n: nat,
)
    requires
        forall|i: int| 0 <= i < n && #[trigger] few(i) ==> many(i),
    ensures
        weight_upto(voters, few, n) <= weight_upto(voters, many, n),
    decreases n,
{
    if n > 0 {
        lemma_weight_is_monotone(voters, few, many, (n - 1) as nat);
    }
}

/// Counting further voters never lowers the weight.
pub proof fn lemma_weight_grows<I>(
    voters: Seq<(I, u64)>,
    who: spec_fn(int) -> bool,
    m: nat,
    n: nat,
)
    requires
        m <= n,
    ensures
        weight_upto(voters, who, m) <= weight_upto(voters, who, n),
    decreases n,
{
    if m < n {
        lemma_weight_grows(voters, who, m, (n - 1) as nat);
    }
}

/// Two selections that agree weigh the same.
pub proof fn lemma_same_selection<I>(
    voters: Seq<(I, u64)>,
    a: spec_fn(int) -> bool,
    b: spec_fn(int) -> bool,
    n: nat,
)
    requires
        forall|i: int| 0 <= i < n ==> #[trigger] a(i) == b(i),
    ensures
        weight_upto(voters, a, n) == weight_upto(voters, b, n),
    decreases n,
{
    if n > 0 {
        lemma_same_selection(voters, a, b, (n - 1) as nat);
    }
}

/// Two selections weigh together what their union and their overlap weigh.
pub proof fn lemma_union_and_overlap<I>(
    voters: Seq<(I, u64)>,
    a: spec_fn(int) -> bool,
    b: spec_fn(int) -> bool,
    n: nat,
)
    ensures
        weight_upto(voters, a, n) + weight_upto(voters, b, n) == weight_upto(
            voters,
            |i: int| a(i) || b(i),
            n,
        ) + weight_upto(voters, |i: int| a(i) && b(i), n),
    decreases n,
{
    if n > 0 {
        lemma_union_and_overlap(voters, a, b, (n - 1) as nat);
    }
}

/// Two supermajorities overlap in more weight than may misbehave.
pub proof fn lemma_supermajorities_overlap(total: nat)
    requires
        total > 0,
    ensures
        2 * supermajority(total) > total + tolerated(total),
        tolerated(total) < supermajority(total) <= total,
{
}

/// Changing the weight of one voter changes the total by as much.
pub proof fn lemma_total_after_update<I>(
    voters: Seq<(I, u64)>,
    at: int,
    id: I,
    weight: u64,
    n: nat,
)
    requires
        0 <= at < voters.len(),
        n <= voters.len(),
    ensures
        weight_upto(voters.update(at, (id, weight)), everyone(), n) == weight_upto(
            voters,
            everyone(),
            n,
        ) + if at < n {
            weight - voters[at].1
        } else {
            0
        },
    decreases n,
{
    if n > 0 {
        lemma_total_after_update(voters, at, id, weight, (n - 1) as nat);
    }
}

/// Appending a voter adds its weight to the total.
pub proof fn lemma_total_after_push<I>(voters: Seq<(I, u64)>, id: I, weight: u64, n: nat)
    requires
        n <= voters.len(),
    ensures
        weight_upto(voters.push((id, weight)), everyone(), n) == weight_upto(
            voters,
            everyone(),
            n,
        ),
    decreases n,
{
    if n > 0 {
        lemma_total_after_push(voters, id, weight, (n - 1) as nat);
    }
}

/// A supermajority is more than two thirds of the weight. The tolerated weight is what
/// is left of it, and the most that is less than a third.
pub proof fn supermajority_is_more_than_two_thirds(total: nat, weight: nat)
    requires
        total > 0,
    ensures
        weight >= supermajority(total) <==> 3 * weight > 2 * total,
        supermajority(total) + tolerated(total) == total,
        weight <= tolerated(total) <==> 3 * weight < total,
{
}

/// Nobody weighs nothing, everybody weighs the total, a single voter weighs what it is
/// listed with, and two selections without a common voter weigh their sum.
pub proof fn weights_add_up<I>(
    voters: Seq<(I, u64)>,
    at: int,
    a: spec_fn(int) -> bool,
    b: spec_fn(int) -> bool,
)
    requires
        0 <= at < voters.len(),
        forall|i: int| 0 <= i < voters.len() && #[trigger] a(i) ==> !b(i),
    ensures
        weight_of(voters, |i: int| false) == 0,
        weight_of(voters, |i: int| true) == total_of(voters),
        weight_of(voters, |i: int| i == at) == voters[at].1,
        weight_of(voters, |i: int| a(i) || b(i)) == weight_of(voters, a) + weight_of(voters, b),
{
    let n = voters.len();
    let nobody = |i: int| false;
    let alone = |i: int| i == at;
    lemma_nobody_weighs_nothing(voters, nobody, n);
    lemma_same_selection(voters, |i: int| true, everyone(), n);
    lemma_weight_after_change(voters, nobody, alone, at, n);
    lemma_union_and_overlap(voters, a, b, n);
    lemma_nobody_weighs_nothing(voters, |i: int| a(i) && b(i), n);
}

/// A selection of nobody weighs nothing.
pub proof fn lemma_nobody_weighs_nothing<I>(
    voters: Seq<(I, u64)>,
    who: spec_fn(int) -> bool,
    n: nat,
)
    requires
        forall|i: int| 0 <= i < n ==> !#[trigger] who(i),
    ensures
        weight_upto(voters, who, n) == 0,
    decreases n,
{
    if n > 0 {
        lemma_nobody_weighs_nothing(voters, who, (n - 1) as nat);
    }
}

/// Selections that differ in one voter differ by its weight.
pub proof fn lemma_weight_after_change<I>(
    voters: Seq<(I, u64)>,
    before: spec_fn(int) -> bool,
    after: spec_fn(int) -> bool,
    at: int,
    n: nat,
)
    requires
        0 <= at,
        forall|i: int| 0 <= i < n && i != at ==> #[trigger] before(i) == after(i),
    ensures
        weight_upto(voters, after, n) + (if at < n && before(at) {
            voters[at].1 as nat
        } else {
            0
        }) == weight_upto(voters, before, n) + (if at < n && after(at) {
            voters[at].1 as nat
        } else {
            0
        }),
    decreases n,
{
    if n > 0 {
        lemma_weight_after_change(voters, before, after, at, (n - 1) as nat);
        if at != n - 1 {
            assert(before(n - 1) == after(n - 1));
        }
    }
}

/// Lists that begin alike weigh alike as far as they do.
pub proof fn lemma_same_beginning<I>(
    a: Seq<(I, u64)>,
    b: Seq<(I, u64)>,
    for_a: spec_fn(int) -> bool,
    for_b: spec_fn(int) -> bool,
    n: nat,
)
    requires
        forall|i: int| 0 <= i < n ==> #[trigger] a[i] == b[i] && for_a(i) == for_b(i),
    ensures
        weight_upto(a, for_a, n) == weight_upto(b, for_b, n),
    decreases n,
{
    if n > 0 {
        lemma_same_beginning(a, b, for_a, for_b, (n - 1) as nat);
        assert(a[n - 1] == b[n - 1]);
    }
}

} // verus!
