//! Laws of consensus trees.
use vstd::prelude::*;

use crate::number::BlockNumber;
use crate::tree::{Entry, TargetId, Tree, ViewError, ViewNumber};
use crate::view::{BlockRef, ConsensusTarget, TargetKind, TargetRef};

verus! {

/// A descendant is stored, is not older than its base, and stands above it by
/// as many views as the path between them has targets.
pub proof fn view_counts_the_targets_on_the_path<H, N: BlockNumber>(
    tree: Tree<H, N>,
    base: TargetId,
    id: TargetId,
)
    requires
        tree.well_formed(),
        tree.descends(base, id),
    ensures
        tree.known(base),
        tree.known(id),
        base <= id,
        tree.view_of(id) == tree.view_of(base) + tree.path(base, id).len(),
    decreases id,
{
    if id != base {
        let parent = tree.target(id).parent->0;
        view_counts_the_targets_on_the_path(tree, base, parent);
        assert(tree.linked(id));
    }
}

/// Importing changes neither the ancestry of stored targets nor the paths
/// between them.
pub proof fn import_keeps_ancestry<H, N: BlockNumber>(
    tree: Tree<H, N>,
    entry: Entry<H, N>,
    base: TargetId,
    id: TargetId,
)
    requires
        tree.well_formed(),
        tree.entries.len() < TargetId::MAX,
        tree.known(id),
    ensures
        ({
            let new = (tree.entries.len() + 1) as TargetId;
            let grown = tree.with_entry(new, entry);
            &&& grown.known(id)
            &&& grown.entries[id] == tree.entries[id]
            &&& grown.descends(base, id) == tree.descends(base, id)
            &&& tree.descends(base, id) ==> grown.path(base, id) == tree.path(base, id)
        }),
    decreases id,
{
    let new = (tree.entries.len() + 1) as TargetId;
    let grown = tree.with_entry(new, entry);
    assert(tree.linked(id));
    assert(id != new);
    if id != base && tree.target(id).parent is Some {
        let parent = tree.target(id).parent->0;
        if tree.known(parent) {
            import_keeps_ancestry(tree, entry, base, parent);
        }
    }
}

/// After a new target was added, every target continues its parent.
proof fn lemma_import_keeps_the_links<H, N: BlockNumber>(
    tree: Tree<H, N>,
    entry: Entry<H, N>,
    id: TargetId,
)
    requires
        tree.well_formed(),
        tree.entries.len() < TargetId::MAX,
        tree.child(entry.target) == Ok::<BlockRef<H, N>, ViewError>(entry.latest_block),
        tree.with_entry((tree.entries.len() + 1) as TargetId, entry).known(id),
    ensures
        tree.with_entry((tree.entries.len() + 1) as TargetId, entry).linked(id),
{
    let new = (tree.entries.len() + 1) as TargetId;
    let grown = tree.with_entry(new, entry);
    let target = grown.target(id);
    assert(!tree.known(new));
    if id != new {
        assert(tree.known(id));
        assert(tree.linked(id));
    }
    if target.parent is Some {
        assert(tree.known(target.parent->0));
        assert(tree.entries[target.parent->0] == grown.entries[target.parent->0]);
    }
}

/// After a new target was added, no target is stored twice.
proof fn lemma_import_repeats_nothing<H, N: BlockNumber>(
    tree: Tree<H, N>,
    entry: Entry<H, N>,
    i: TargetId,
    j: TargetId,
)
    requires
        tree.well_formed(),
        tree.entries.len() < TargetId::MAX,
        tree.find(entry.target) is None,
        ({
            let grown = tree.with_entry((tree.entries.len() + 1) as TargetId, entry);
            grown.known(i) && grown.known(j) && grown.target(i) == grown.target(j)
        }),
    ensures
        i == j,
{
    let new = (tree.entries.len() + 1) as TargetId;
    if i != new && j != new {
        assert(tree.target(i) == tree.target(j));
        assert(tree.known(i) && tree.known(j));
    } else if i != new {
        assert(tree.holds(i, entry.target));
    } else if j != new {
        assert(tree.holds(j, entry.target));
    }
}

/// A new target that passes every check leaves the tree well formed.
pub proof fn lemma_import_keeps_the_tree_well_formed<H, N: BlockNumber>(
    tree: Tree<H, N>,
    entry: Entry<H, N>,
)
    requires
        tree.well_formed(),
        tree.entries.len() < TargetId::MAX,
        tree.find(entry.target) is None,
        tree.child(entry.target) == Ok::<BlockRef<H, N>, ViewError>(entry.latest_block),
    ensures
        tree.with_entry((tree.entries.len() + 1) as TargetId, entry).well_formed(),
{
    let new = (tree.entries.len() + 1) as TargetId;
    let grown = tree.with_entry(new, entry);
    assert(!tree.known(new));
    assert(grown.entries.len() == tree.entries.len() + 1);
    assert forall|id: TargetId| #[trigger] grown.known(id) implies grown.linked(id) by {
        lemma_import_keeps_the_links(tree, entry, id);
    }
    assert forall|i: TargetId, j: TargetId|
        #![trigger grown.target(i), grown.target(j)]
        grown.known(i) && grown.known(j) && grown.target(i) == grown.target(j) implies i == j by {
        lemma_import_repeats_nothing(tree, entry, i, j);
    }
    assert(tree.known(tree.finalized.id));
    assert forall|id: TargetId| #[trigger] grown.known(id) <==> 1 <= id <= grown.entries.len() by {
        assert(tree.known(id) <==> 1 <= id <= tree.entries.len());
    }
}

/// Moving finality changes no ancestry and no path.
pub proof fn finality_keeps_ancestry<H, N>(
    tree: Tree<H, N>,
    target: TargetRef<TargetId, ViewNumber>,
    base: TargetId,
    id: TargetId,
)
    ensures
        tree.with_finalized(target).descends(base, id) == tree.descends(base, id),
        tree.with_finalized(target).path(base, id) == tree.path(base, id),
    decreases id,
{
    if id != base && tree.target(id).parent is Some && tree.target(id).parent->0 < id {
        finality_keeps_ancestry(tree, target, base, tree.target(id).parent->0);
    }
}

/// Finalizing a stored target leaves the tree well formed.
pub proof fn lemma_finality_keeps_the_tree_well_formed<H, N: BlockNumber>(
    tree: Tree<H, N>,
    target: TargetRef<TargetId, ViewNumber>,
)
    requires
        tree.well_formed(),
        tree.known(target.id),
        target.view == tree.view_of(target.id),
    ensures
        tree.with_finalized(target).well_formed(),
{
    let moved = tree.with_finalized(target);
    assert forall|id: TargetId| #[trigger] moved.known(id) implies moved.linked(id) by {
        assert(tree.known(id));
        assert(tree.linked(id));
    }
    assert forall|i: TargetId, j: TargetId|
        #![trigger moved.target(i), moved.target(j)]
        moved.known(i) && moved.known(j) && moved.target(i) == moved.target(j) implies i == j by {
        assert(tree.known(i) && tree.known(j));
        assert(tree.target(i) == tree.target(j));
    }
    assert forall|id: TargetId| #[trigger] moved.known(id) <==> 1 <= id <= moved.entries.len() by {
        assert(tree.known(id) <==> 1 <= id <= tree.entries.len());
    }
}

/// A stored target descends from itself.
pub proof fn descent_is_reflexive<H, N>(tree: Tree<H, N>, id: TargetId)
    ensures
        tree.descends(id, id) == tree.known(id),
{
}

/// Descent is transitive, and paths compose.
pub proof fn descent_is_transitive<H, N>(tree: Tree<H, N>, a: TargetId, b: TargetId, c: TargetId)
    requires
        tree.descends(a, b),
        tree.descends(b, c),
    ensures
        tree.descends(a, c),
        a != c || a == b,
        tree.path(a, c) == tree.path(a, b) + tree.path(b, c),
    decreases c,
{
    lemma_descendants_are_not_smaller(tree, a, b);
    lemma_descendants_are_not_smaller(tree, b, c);
    if c == b {
        assert(tree.path(b, c) =~= Seq::empty());
        assert(tree.path(a, c) =~= tree.path(a, b) + tree.path(b, c));
    } else {
        let parent = tree.target(c).parent->0;
        descent_is_transitive(tree, a, b, parent);
        assert(tree.path(a, c) =~= tree.path(a, b) + tree.path(b, c));
    }
}

/// A descendant never has a smaller identity than its ancestor.
proof fn lemma_descendants_are_not_smaller<H, N>(tree: Tree<H, N>, base: TargetId, id: TargetId)
    requires
        tree.descends(base, id),
    ensures
        base <= id,
        tree.known(base),
    decreases id,
{
    if id != base {
        lemma_descendants_are_not_smaller(tree, base, tree.target(id).parent->0);
    }
}

/// Two targets that descend from one another are the same.
pub proof fn descent_is_antisymmetric<H, N>(tree: Tree<H, N>, a: TargetId, b: TargetId)
    requires
        tree.descends(a, b),
        tree.descends(b, a),
    ensures
        a == b,
{
    lemma_descendants_are_not_smaller(tree, a, b);
    lemma_descendants_are_not_smaller(tree, b, a);
}

/// The ancestors of a target form a single line.
pub proof fn ancestors_are_comparable<H, N>(
    tree: Tree<H, N>,
    a: TargetId,
    b: TargetId,
    id: TargetId,
)
    requires
        tree.descends(a, id),
        tree.descends(b, id),
    ensures
        tree.descends(a, b) || tree.descends(b, a),
    decreases id,
{
    if id != a && id != b {
        ancestors_are_comparable(tree, a, b, tree.target(id).parent->0);
    }
}

/// Every stored target descends from the trusted root.
pub proof fn everything_descends_from_the_root<H, N: BlockNumber>(tree: Tree<H, N>, id: TargetId)
    requires
        tree.well_formed(),
        tree.known(id),
    ensures
        tree.descends(tree.root.id, id),
    decreases id,
{
    assert(tree.linked(id));
    if id != tree.root.id {
        everything_descends_from_the_root(tree, tree.target(id).parent->0);
    }
}

/// Two different targets of one view compete: neither descends from the other,
/// and no target descends from both.
pub proof fn targets_of_one_view_compete<H, N: BlockNumber>(
    tree: Tree<H, N>,
    a: TargetId,
    b: TargetId,
    id: TargetId,
)
    requires
        tree.well_formed(),
        tree.known(a),
        tree.known(b),
        a != b,
        tree.view_of(a) == tree.view_of(b),
    ensures
        !tree.descends(a, b),
        !tree.descends(b, a),
        !(tree.descends(a, id) && tree.descends(b, id)),
{
    if tree.descends(a, b) {
        view_counts_the_targets_on_the_path(tree, a, b);
    }
    if tree.descends(b, a) {
        view_counts_the_targets_on_the_path(tree, b, a);
    }
    if tree.descends(a, id) && tree.descends(b, id) {
        ancestors_are_comparable(tree, a, b, id);
    }
}

/// How many targets of a path are real blocks.
pub open spec fn blocks_on<H, N>(tree: Tree<H, N>, path: Seq<TargetId>) -> nat
    decreases path.len(),
{
    if path.len() == 0 {
        0
    } else {
        blocks_on(tree, path.drop_last()) + if tree.target(path.last()).kind is Block {
            1nat
        } else {
            0nat
        }
    }
}

/// Only real blocks advance the real block number: it grows by the number of
/// blocks on the path, however many views were skipped.
pub proof fn block_number_counts_the_blocks_on_the_path<H, N: BlockNumber>(
    tree: Tree<H, N>,
    base: TargetId,
    id: TargetId,
)
    requires
        tree.well_formed(),
        tree.descends(base, id),
    ensures
        tree.latest(id).number.height() == tree.latest(base).number.height() + blocks_on(
            tree,
            tree.path(base, id),
        ),
        blocks_on(tree, tree.path(base, id)) == 0 ==> tree.latest(id) == tree.latest(base),
        blocks_on(tree, tree.path(base, id)) <= tree.view_of(id) - tree.view_of(base),
    decreases id,
{
    view_counts_the_targets_on_the_path(tree, base, id);
    if id != base {
        let parent = tree.target(id).parent->0;
        block_number_counts_the_blocks_on_the_path(tree, base, parent);
        view_counts_the_targets_on_the_path(tree, base, parent);
        assert(tree.linked(id));
        assert(tree.path(base, id).drop_last() =~= tree.path(base, parent));
        tree.latest(parent).number.successor_is_one_higher();
    }
}

/// The projected real block changes exactly when a real block is newly
/// finalized, whatever the kind of the finalized target.
pub proof fn block_changes_when_a_block_is_finalized<H, N: BlockNumber>(
    tree: Tree<H, N>,
    target: TargetRef<TargetId, ViewNumber>,
)
    requires
        tree.well_formed(),
        tree.finalization_error(target) is None,
    ensures
        tree.latest(target.id) != tree.latest(tree.finalized.id) <==> blocks_on(
            tree,
            tree.path(tree.finalized.id, target.id),
        ) > 0,
{
    block_number_counts_the_blocks_on_the_path(tree, tree.finalized.id, target.id);
}

/// The path after `base` holds exactly the targets that `id` descends from and
/// `base` does not.
pub proof fn path_holds_what_is_new<H, N: BlockNumber>(
    tree: Tree<H, N>,
    base: TargetId,
    id: TargetId,
    other: TargetId,
)
    requires
        tree.well_formed(),
        tree.descends(base, id),
    ensures
        tree.path(base, id).contains(other) <==> tree.descends(other, id) && !tree.descends(
            other,
            base,
        ),
    decreases id,
{
    if id == base {
        assert(tree.path(base, id) =~= Seq::empty());
    } else {
        let parent = tree.target(id).parent->0;
        path_holds_what_is_new(tree, base, parent, other);
        let up = tree.path(base, parent);
        assert(tree.path(base, id) == up.push(id));
        if up.contains(other) {
            let i = choose|i: int| 0 <= i < up.len() && up[i] == other;
            assert(up.push(id)[i] == other);
        }
        if other == id {
            assert(up.push(id).last() == other);
            lemma_descendants_are_not_smaller(tree, base, parent);
            if tree.descends(id, base) {
                lemma_descendants_are_not_smaller(tree, id, base);
            }
        } else if up.push(id).contains(other) {
            let i = choose|i: int| 0 <= i < up.push(id).len() && up.push(id)[i] == other;
            assert(up[i] == other);
        }
    }
}

/// Finalizing newly finalizes exactly the targets that were not final before
/// and are final afterwards, in order of view.
pub proof fn finalization_lists_what_is_new<H, N: BlockNumber>(
    tree: Tree<H, N>,
    target: TargetRef<TargetId, ViewNumber>,
    i: int,
    j: int,
    other: TargetId,
)
    requires
        tree.well_formed(),
        tree.finalization_error(target) is None,
    ensures
        ({
            let list = tree.finalization(target).newly_finalized;
            let after = tree.with_finalized(target);
            &&& list.contains(tree.reference(other)) <==> after.descends(other, after.finalized.id)
                && !tree.descends(other, tree.finalized.id)
            &&& 0 <= i < j < list.len() ==> list[i].view < list[j].view
        }),
{
    let path = tree.path(tree.finalized.id, target.id);
    let list = tree.finalization(target).newly_finalized;
    if path.contains(other) {
        let k = choose|k: int| 0 <= k < path.len() && path[k] == other;
        assert(list[k] == tree.reference(other));
    }
    if list.contains(tree.reference(other)) {
        let k = choose|k: int| 0 <= k < list.len() && list[k] == tree.reference(other);
        assert(path[k] == other);
    }
    path_holds_what_is_new(tree, tree.finalized.id, target.id, other);
    finality_keeps_ancestry(tree, target, other, target.id);
    lemma_path_views_are_consecutive(tree, tree.finalized.id, target.id);
}

/// The targets on a path have consecutive views.
pub proof fn lemma_path_views_are_consecutive<H, N: BlockNumber>(
    tree: Tree<H, N>,
    base: TargetId,
    id: TargetId,
)
    requires
        tree.well_formed(),
        tree.descends(base, id),
    ensures
        forall|i: int|
            0 <= i < tree.path(base, id).len() ==> tree.known(#[trigger] tree.path(base, id)[i])
                && tree.view_of(tree.path(base, id)[i]) == tree.view_of(base) + i + 1,
    decreases id,
{
    if id != base {
        let parent = tree.target(id).parent->0;
        lemma_path_views_are_consecutive(tree, base, parent);
        view_counts_the_targets_on_the_path(tree, base, id);
        let up = tree.path(base, parent);
        assert(tree.path(base, id) == up.push(id));
        assert forall|i: int| 0 <= i < tree.path(base, id).len() implies tree.known(
            #[trigger] tree.path(base, id)[i],
        ) && tree.view_of(tree.path(base, id)[i]) == tree.view_of(base) + i + 1 by {
            if i < up.len() {
                assert(tree.path(base, id)[i] == up[i]);
            }
        }
    }
}

/// `after` is what one accepted operation makes of `before`: an import, a
/// finalization, or nothing.
pub open spec fn one_step<H, N: BlockNumber>(before: Tree<H, N>, after: Tree<H, N>) -> bool {
    ||| after == before
    ||| exists|target: ConsensusTarget<TargetId, ViewNumber, H, N>|
        #[trigger] imports(before, target, after)
    ||| exists|target: TargetRef<TargetId, ViewNumber>|
        #[trigger] before.finalization_error(target) is None && after == before.with_finalized(
            target,
        )
}

/// `after` is `before` with the new target imported.
pub open spec fn imports<H, N: BlockNumber>(
    before: Tree<H, N>,
    target: ConsensusTarget<TargetId, ViewNumber, H, N>,
    after: Tree<H, N>,
) -> bool {
    &&& before.entries.len() < TargetId::MAX
    &&& before.find(target) is None
    &&& before.import_error(target) is None
    &&& after == before.after_import(target)
}

/// A history: each tree is what one accepted operation makes of the one before.
pub open spec fn is_history<H, N: BlockNumber>(history: Seq<Tree<H, N>>) -> bool {
    &&& history.len() > 0
    &&& history[0].well_formed()
    &&& forall|i: int|
        #![trigger history[i]]
        0 <= i < history.len() - 1 ==> one_step(history[i], history[i + 1])
}

/// One accepted operation keeps the tree well formed, keeps every target and
/// its ancestry, and moves finality only forward.
pub proof fn lemma_one_step<H, N: BlockNumber>(
    before: Tree<H, N>,
    after: Tree<H, N>,
    base: TargetId,
    id: TargetId,
)
    requires
        before.well_formed(),
        one_step(before, after),
    ensures
        after.well_formed(),
        after.root == before.root,
        after.descends(before.finalized.id, after.finalized.id),
        before.known(id) ==> after.known(id) && after.entries[id] == before.entries[id],
        before.known(id) ==> after.descends(base, id) == before.descends(base, id),
        before.descends(base, id) ==> after.path(base, id) == before.path(base, id),
{
    if after == before {
    } else if exists|target: ConsensusTarget<TargetId, ViewNumber, H, N>|
        #[trigger] imports(before, target, after) {
        let target = choose|target: ConsensusTarget<TargetId, ViewNumber, H, N>|
            #[trigger] imports(before, target, after);
        let entry = Entry { target, latest_block: before.child(target)->Ok_0 };
        lemma_import_keeps_the_tree_well_formed(before, entry);
        if before.known(id) {
            import_keeps_ancestry(before, entry, base, id);
        }
        assert(after.known(after.finalized.id));
    } else {
        let target = choose|target: TargetRef<TargetId, ViewNumber>|
            #[trigger] before.finalization_error(target) is None && after
                == before.with_finalized(target);
        lemma_finality_keeps_the_tree_well_formed(before, target);
        finality_keeps_ancestry(before, target, base, id);
        finality_keeps_ancestry(before, target, before.finalized.id, target.id);
    }
}

/// Whatever happens, stored targets, their ancestry and the lists of targets
/// between them are retained, and finality only moves forward.
pub proof fn history_is_retained<H, N: BlockNumber>(
    history: Seq<Tree<H, N>>,
    base: TargetId,
    id: TargetId,
)
    requires
        is_history(history),
    ensures
        ({
            let first = history[0];
            let last = history.last();
            &&& last.well_formed()
            &&& last.root == first.root
            &&& last.descends(first.finalized.id, last.finalized.id)
            &&& last.finalized.view >= first.finalized.view
            &&& first.known(id) ==> last.known(id) && last.entries[id] == first.entries[id]
            &&& first.known(id) ==> last.descends(base, id) == first.descends(base, id)
            &&& first.descends(base, id) ==> {
                &&& last.path(base, id) == first.path(base, id)
                &&& last.between(base, id) == first.between(base, id)
            }
        }),
    decreases history.len(),
{
    let first = history[0];
    let last = history.last();
    if history.len() > 1 {
        let shorter = history.drop_last();
        assert forall|i: int| #![trigger shorter[i]] 0 <= i < shorter.len() - 1 implies one_step(
            shorter[i],
            shorter[i + 1],
        ) by {
            assert(shorter[i] == history[i]);
        }
        history_is_retained(shorter, base, id);
        let before = shorter.last();
        assert(before == history[history.len() - 2]);
        assert(one_step(before, last));
        lemma_one_step(before, last, base, id);
        history_is_retained(shorter, first.finalized.id, before.finalized.id);
        lemma_one_step(before, last, first.finalized.id, before.finalized.id);
        assert(before.known(before.finalized.id));
        descent_is_transitive(
            last,
            first.finalized.id,
            before.finalized.id,
            last.finalized.id,
        );
        view_counts_the_targets_on_the_path(last, before.finalized.id, last.finalized.id);
    } else {
        assert(first.known(first.finalized.id));
    }
}

/// Once a target is finalized, nothing that competes with it ever enters the
/// finalized branch or can be finalized.
pub proof fn finality_excludes_competitors<H, N: BlockNumber>(
    history: Seq<Tree<H, N>>,
    competitor: TargetId,
)
    requires
        is_history(history),
        history.last().known(competitor),
        !history.last().descends(history[0].finalized.id, competitor),
        !history.last().descends(competitor, history[0].finalized.id),
    ensures
        !history.last().descends(competitor, history.last().finalized.id),
        history.last().finalization_error(history.last().reference(competitor))
            == Some(ViewError::ConflictingFinality),
{
    let last = history.last();
    let settled = history[0].finalized.id;
    history_is_retained(history, settled, competitor);
    if last.descends(competitor, last.finalized.id) {
        ancestors_are_comparable(last, competitor, settled, last.finalized.id);
    }
    if last.descends(last.finalized.id, competitor) {
        descent_is_transitive(last, settled, last.finalized.id, competitor);
    }
}

/// A finalized target, be it a block or a timeout, settles its view: every other
/// target of that view is shut out of the finalized branch for good.
pub proof fn finality_settles_the_view<H, N: BlockNumber>(
    history: Seq<Tree<H, N>>,
    competitor: TargetId,
)
    requires
        is_history(history),
        history.last().known(competitor),
        competitor != history[0].finalized.id,
        history.last().view_of(competitor) == history[0].finalized.view,
    ensures
        !history.last().descends(competitor, history.last().finalized.id),
        history.last().finalization_error(history.last().reference(competitor))
            == Some(ViewError::ConflictingFinality),
{
    let settled = history[0].finalized.id;
    history_is_retained(history, settled, settled);
    assert(history[0].known(settled));
    targets_of_one_view_compete(history.last(), settled, competitor, settled);
    finality_excludes_competitors(history, competitor);
}

/// After finality has passed a target, every new child of it that would compete
/// with the finalized branch is refused.
pub proof fn late_children_are_refused<H, N: BlockNumber>(
    tree: Tree<H, N>,
    target: ConsensusTarget<TargetId, ViewNumber, H, N>,
)
    requires
        tree.well_formed(),
        tree.find(target) is None,
        tree.child(target) is Ok,
        target.view <= tree.finalized.view,
    ensures
        tree.import_error(target) == Some(ViewError::ConflictingFinality),
{
    let parent = target.parent->0;
    if tree.descends(tree.finalized.id, parent) {
        view_counts_the_targets_on_the_path(tree, tree.finalized.id, parent);
    }
}

/// Importing an accepted target again returns the same reference and changes
/// nothing.
pub proof fn import_is_idempotent<H, N: BlockNumber>(
    before: Tree<H, N>,
    target: ConsensusTarget<TargetId, ViewNumber, H, N>,
)
    requires
        before.well_formed(),
        before.has_room_for(target),
        before.import_result(target) is Ok,
    ensures
        ({
            let after = before.after_import(target);
            &&& after.holds((before.import_result(target)->Ok_0).id, target)
            &&& after.import_result(target) == before.import_result(target)
            &&& after.after_import(target) == after
        }),
{
    let after = before.after_import(target);
    let id = (before.import_result(target)->Ok_0).id;
    if before.find(target) is None {
        assert(imports(before, target, after));
        assert(one_step(before, after));
        lemma_one_step(before, after, before.finalized.id, target.parent->0);
    }
    assert(after.holds(id, target));
    let found = choose|k: TargetId| after.holds(k, target);
    assert(after.target(found) == after.target(id));
    assert(after.known(found) && after.known(id));
}

/// Importing a stored target, the root and targets off the finalized branch
/// included, returns the reference to it and changes nothing.
pub proof fn stored_targets_are_found_again<H, N: BlockNumber>(tree: Tree<H, N>, id: TargetId)
    requires
        tree.well_formed(),
        tree.known(id),
    ensures
        tree.has_room_for(tree.target(id)),
        tree.import_result(tree.target(id)) == Ok::<TargetRef<TargetId, ViewNumber>, ViewError>(
            tree.reference(id),
        ),
        tree.after_import(tree.target(id)) == tree,
{
    let target = tree.target(id);
    assert(tree.holds(id, target));
    let found = choose|k: TargetId| tree.holds(k, target);
    assert(tree.target(found) == tree.target(id));
}

/// The child of `parent` in the next view that holds `kind`.
pub open spec fn next_child<H, N>(
    tree: Tree<H, N>,
    parent: TargetId,
    kind: TargetKind<H, N>,
) -> ConsensusTarget<TargetId, ViewNumber, H, N> {
    ConsensusTarget { parent: Some(parent), view: tree.next_view(parent)->Ok_0, kind }
}

/// What can be constructed on the finalized branch can be imported: a block or a
/// timeout in the view after its parent, whose kind may follow the parent, is
/// accepted and stored as it is. The last real block of a block is the block, and
/// that of a timeout is the one of its parent.
pub proof fn what_is_constructed_can_be_imported<H, N: BlockNumber>(
    tree: Tree<H, N>,
    parent: TargetId,
    kind: TargetKind<H, N>,
)
    requires
        tree.well_formed(),
        tree.has_room_for(next_child(tree, parent, kind)),
        tree.next_view(parent) is Ok,
        tree.child_block(parent, kind) is Ok,
        tree.descends(tree.finalized.id, parent),
    ensures
        ({
            let target = next_child(tree, parent, kind);
            let after = tree.after_import(target);
            tree.import_result(target) matches Ok(stored) && {
                &&& stored.view == tree.view_of(parent) + 1
                &&& after.well_formed()
                &&& after.holds(stored.id, target)
                &&& kind matches TargetKind::Block(block) ==> after.latest(stored.id) == block
                &&& kind is ViewTimeout ==> after.latest(stored.id) == tree.latest(parent)
            }
        }),
{
    let target = next_child(tree, parent, kind);
    let after = tree.after_import(target);
    let id = (tree.import_result(target)->Ok_0).id;
    if tree.find(target) is None {
        assert(imports(tree, target, after));
        assert(one_step(tree, after));
        lemma_one_step(tree, after, tree.finalized.id, parent);
    } else {
        assert(tree.holds(id, target));
        assert(tree.linked(id));
    }
}

/// New targets extend the finalized branch: what was not stored before descends
/// from the finalized target.
pub proof fn imports_extend_the_finalized_branch<H, N: BlockNumber>(
    before: Tree<H, N>,
    target: ConsensusTarget<TargetId, ViewNumber, H, N>,
    id: TargetId,
)
    requires
        before.well_formed(),
        before.has_room_for(target),
        before.after_import(target).known(id),
        !before.known(id),
    ensures
        before.after_import(target).target(id) == target,
        before.after_import(target).descends(before.finalized.id, id),
{
    let after = before.after_import(target);
    assert(imports(before, target, after));
    assert(one_step(before, after));
    lemma_one_step(before, after, before.finalized.id, target.parent->0);
}

/// A refused target leaves the tree as it is.
pub proof fn refused_targets_leave_no_trace<H, N: BlockNumber>(
    tree: Tree<H, N>,
    target: ConsensusTarget<TargetId, ViewNumber, H, N>,
)
    requires
        tree.import_result(target) is Err,
    ensures
        tree.after_import(target) == tree,
{
}

/// Finalizing the finalized target again changes nothing and finalizes nothing
/// new.
pub proof fn finality_is_idempotent<H, N: BlockNumber>(tree: Tree<H, N>)
    requires
        tree.well_formed(),
    ensures
        tree.finalization_error(tree.finalized) is None,
        tree.with_finalized(tree.finalized) == tree,
        tree.finalization(tree.finalized).newly_finalized.len() == 0,
        !tree.finalization(tree.finalized).block_changed,
{
}

/// A target older than the finalized one cannot be finalized any more.
pub proof fn older_targets_are_refused<H, N: BlockNumber>(tree: Tree<H, N>, older: TargetId)
    requires
        tree.well_formed(),
        tree.descends(older, tree.finalized.id),
        older != tree.finalized.id,
    ensures
        tree.finalization_error(tree.reference(older)) == Some(ViewError::ConflictingFinality),
{
    view_counts_the_targets_on_the_path(tree, older, tree.finalized.id);
    if tree.descends(tree.finalized.id, older) {
        descent_is_antisymmetric(tree, older, tree.finalized.id);
    }
}

/// The targets between a base and a descendant include every skipped view: they
/// are one fewer than the views between them.
pub proof fn ancestry_includes_every_view<H, N: BlockNumber>(
    tree: Tree<H, N>,
    base: TargetId,
    id: TargetId,
    i: int,
)
    requires
        tree.well_formed(),
        tree.descends(base, id),
        id != base,
    ensures
        tree.between(base, id).len() == tree.view_of(id) - tree.view_of(base) - 1,
        0 <= i < tree.between(base, id).len() ==> tree.view_of(tree.between(base, id)[i])
            == tree.view_of(id) - 1 - i,
{
    let path = tree.path(base, id);
    assert(path.len() == tree.view_of(id) - tree.view_of(base)) by {
        view_counts_the_targets_on_the_path(tree, base, id);
    }
    assert(path.len() > 0) by {
        assert(path == tree.path(base, tree.target(id).parent->0).push(id));
    }
    let list = path.drop_last().reverse();
    assert(list.len() == path.len() - 1);
    if 0 <= i < list.len() {
        let k = path.len() - 2 - i;
        assert(list[i] == path[k]);
        assert(tree.view_of(path[k]) == tree.view_of(base) + k + 1) by {
            lemma_path_views_are_consecutive(tree, base, id);
        }
    }
}

/// A vote target names one stored target: it has that identity, kind and view.
pub proof fn vote_targets_are_exact<H, N>(tree: Tree<H, N>, id: TargetId)
    ensures
        tree.vote_target(id) is Some <==> tree.known(id),
        tree.vote_target(id) matches Some(target) ==> {
            &&& target.hash() == id
            &&& target.number() == tree.view_of(id)
            &&& target is Block <==> tree.target(id).kind is Block
        },
{
}

} // verus!
