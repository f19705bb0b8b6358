//! Laws of storing: which targets a tree takes, what it makes final, and what a host does
//! with both.
use vstd::prelude::*;

use crate::chain::{Chain, Error, VoteTarget};
use crate::host::{saved_view, Host, HostError, HostView, SavedFinality};
use crate::ident::Identity;
use crate::messages::CommitView;
use crate::number::{BlockNumber, TargetNumber};
use crate::tree::{root_tree, TargetId, Tree, ViewError, ViewNumber};
use crate::tree_laws::{
    ancestry_includes_every_view, lemma_path_views_are_consecutive,
    view_counts_the_targets_on_the_path,
};
use crate::view::{BlockRef, ConsensusTarget, TargetKind, TargetRef};
use crate::view_chain::{Finalization, ViewChain};

verus! {

/// A new tree holds its root and nothing else. The root is a real block without a
/// parent, and it is final.
pub proof fn new_trees_hold_a_final_root<H, N: BlockNumber>(
    root_view: ViewNumber,
    root: BlockRef<H, N>,
    id: TargetId,
)
    ensures
        ({
            let tree = root_tree(root_view, root);
            &&& tree.known(id) <==> id == tree.root.id
            &&& tree.root == (TargetRef { id: 1u64, view: root_view })
            &&& tree.finalized == tree.root
            &&& tree.target(1).parent is None
            &&& tree.target(1).view == root_view
            &&& tree.target(1).kind == TargetKind::Block(root)
            &&& tree.latest(1) == root
            &&& tree.entries.len() == 1
        }),
{
}

/// A stored target descends from itself and from what its parent descends from; the
/// root descends from itself alone, and what is not stored descends from nothing. The
/// path to a target is that to its parent and then the target.
pub proof fn targets_descend_through_their_parents<H, N: BlockNumber>(
    tree: Tree<H, N>,
    base: TargetId,
    id: TargetId,
)
    requires
        tree.well_formed(),
    ensures
        !tree.known(id) ==> !tree.descends(base, id),
        tree.known(id) ==> tree.view_of(id) == tree.target(id).view,
        tree.known(id) ==> match tree.target(id).parent {
            None => tree.descends(base, id) <==> base == id,
            Some(parent) => {
                &&& tree.known(parent)
                &&& tree.view_of(id) == tree.view_of(parent) + 1
                &&& tree.descends(base, id) <==> base == id || tree.descends(base, parent)
                &&& tree.descends(base, parent) ==> tree.path(base, id) == tree.path(
                    base,
                    parent,
                ).push(id)
            },
        },
        tree.path(id, id).len() == 0,
{
    if tree.known(id) {
        assert(tree.linked(id));
        if let Some(parent) = tree.target(id).parent {
            if tree.descends(base, parent) {
                view_counts_the_targets_on_the_path(tree, base, parent);
            }
        }
    }
}

/// The view after a stored target is one higher, unless views have run out.
pub proof fn views_follow_one_by_one<H, N>(tree: Tree<H, N>, parent: TargetId)
    ensures
        tree.next_view(parent) == Err::<ViewNumber, ViewError>(ViewError::UnknownTarget)
            <==> !tree.known(parent),
        tree.next_view(parent) == Err::<ViewNumber, ViewError>(ViewError::ViewOverflow)
            <==> tree.known(parent) && tree.target(parent).view == u64::MAX,
        tree.known(parent) && tree.target(parent).view < u64::MAX ==> (tree.next_view(
            parent,
        ) matches Ok(view) && view == tree.target(parent).view + 1),
{
}

/// The last real block after a timeout is that of the parent. A block is its own last
/// real block, and must have the number after that of the parent's.
pub proof fn only_blocks_advance_the_block<H, N: BlockNumber>(
    tree: Tree<H, N>,
    parent: TargetId,
    block: BlockRef<H, N>,
)
    ensures
        tree.child_block(parent, TargetKind::ViewTimeout) == Ok::<BlockRef<H, N>, ViewError>(
            tree.entries[parent].latest_block,
        ),
        ({
            let r = tree.child_block(parent, TargetKind::Block(block));
            let next = tree.entries[parent].latest_block.number.successor();
            &&& next is None <==> r == Err::<BlockRef<H, N>, ViewError>(
                ViewError::BlockNumberOverflow,
            )
            &&& next is Some && next != Some(block.number) <==> r == Err::<
                BlockRef<H, N>,
                ViewError,
            >(ViewError::InvalidBlockNumber)
            &&& next == Some(block.number) <==> r == Ok::<BlockRef<H, N>, ViewError>(block)
        }),
{
}

/// A new target is refused for exactly one reason, the first that applies: it has no
/// parent; its parent is not stored; views have run out; its view is not the one after
/// its parent's; block numbers have run out; its block number is not the one after its
/// parent's last real block; its parent is not on the finalized branch.
pub proof fn targets_are_refused_for_a_reason<H, N: BlockNumber>(
    tree: Tree<H, N>,
    target: ConsensusTarget<TargetId, ViewNumber, H, N>,
)
    ensures
        ({
            let error = tree.import_error(target);
            let parent = target.parent->0;
            let stored = target.parent is Some && tree.known(parent);
            let room = stored && tree.target(parent).view < u64::MAX;
            let in_turn = room && target.view == tree.target(parent).view + 1;
            let number = tree.entries[parent].latest_block.number;
            let fits = in_turn && match target.kind {
                TargetKind::ViewTimeout => true,
                TargetKind::Block(block) => number.successor() == Some(block.number),
            };
            let exhausted = in_turn && target.kind is Block && number.successor() is None;
            &&& error == Some(ViewError::InvalidRoot) <==> target.parent is None
            &&& error == Some(ViewError::UnknownTarget) <==> target.parent is Some && !tree.known(
                parent,
            )
            &&& error == Some(ViewError::ViewOverflow) <==> stored && !room
            &&& error == Some(ViewError::InvalidView) <==> room && !in_turn
            &&& error == Some(ViewError::BlockNumberOverflow) <==> exhausted
            &&& error == Some(ViewError::InvalidBlockNumber) <==> in_turn && !fits && !exhausted
            &&& error == Some(ViewError::ConflictingFinality) <==> fits && !tree.descends(
                tree.finalized.id,
                parent,
            )
            &&& error is None <==> fits && tree.descends(tree.finalized.id, parent)
        }),
{
}

/// A target that is stored is found, wherever it stands, and one that is not is not.
pub proof fn stored_targets_are_found<H, N: BlockNumber>(
    tree: Tree<H, N>,
    target: ConsensusTarget<TargetId, ViewNumber, H, N>,
    id: TargetId,
)
    requires
        tree.well_formed(),
    ensures
        tree.find(target) == Some(id) <==> tree.known(id) && tree.target(id) == target,
        tree.find(target) is None ==> !(tree.known(id) && tree.target(id) == target),
{
    if tree.holds(id, target) {
        let found = tree.find(target)->0;
        assert(tree.holds(found, target));
        assert(tree.target(found) == tree.target(id));
    }
    if let Some(found) = tree.find(target) {
        assert(tree.holds(found, target));
    }
}

/// Importing a target that is stored gives its identity and changes nothing, even off
/// the finalized branch. Importing one that is refused gives the reason and changes
/// nothing. Importing any other one stores it under the next identity, with the last
/// real block of its history, and changes nothing else.
pub proof fn imports_store_what_is_new<H, N: BlockNumber>(
    tree: Tree<H, N>,
    target: ConsensusTarget<TargetId, ViewNumber, H, N>,
    id: TargetId,
    other: TargetId,
)
    requires
        tree.well_formed(),
    ensures
        ({
            let r = tree.import_result(target);
            let after = tree.after_import(target);
            let error = tree.import_error(target);
            let new = tree.find(target) is None;
            &&& tree.known(id) && tree.target(id) == target ==> after == tree && r == Ok::<
                TargetRef<TargetId, ViewNumber>,
                ViewError,
            >(TargetRef { id, view: target.view })
            &&& new ==> (error matches Some(e) ==> after == tree && r == Err::<
                TargetRef<TargetId, ViewNumber>,
                ViewError,
            >(e))
            &&& new && error is None && tree.entries.len() < u64::MAX ==> {
                &&& r matches Ok(stored) && stored.id == tree.entries.len() + 1 && stored.view
                    == target.view
                &&& !tree.known((r->Ok_0).id)
                &&& after.known((r->Ok_0).id)
                &&& after.target((r->Ok_0).id) == target
                &&& after.latest((r->Ok_0).id) == match target.kind {
                    TargetKind::Block(block) => block,
                    TargetKind::ViewTimeout => tree.latest(target.parent->0),
                }
                &&& other != (r->Ok_0).id ==> after.known(other) == tree.known(other) && (
                tree.known(other) ==> after.entries[other] == tree.entries[other])
                &&& after.root == tree.root && after.finalized == tree.finalized
            }
        }),
{
    stored_targets_are_found(tree, target, id);
}

/// Only a target that is new and not refused takes up room.
pub proof fn stored_and_refused_targets_need_no_room<H, N: BlockNumber>(
    tree: Tree<H, N>,
    target: ConsensusTarget<TargetId, ViewNumber, H, N>,
)
    ensures
        tree.has_room_for(target) <==> tree.entries.len() < u64::MAX || tree.find(target) is Some
            || tree.import_error(target) is Some,
{
}

/// A target can be made final if and only if it is stored at its view and descends from
/// what is final. It is unknown if it is not stored, has an invalid view if it is
/// stored at another one, and conflicts with finality otherwise.
pub proof fn only_descendants_become_final<H, N: BlockNumber>(
    tree: Tree<H, N>,
    target: TargetRef<TargetId, ViewNumber>,
)
    ensures
        ({
            let error = tree.finalization_error(target);
            let in_place = tree.known(target.id) && tree.target(target.id).view == target.view;
            &&& error == Some(ViewError::UnknownTarget) <==> !tree.known(target.id)
            &&& error == Some(ViewError::InvalidView) <==> tree.known(target.id) && !in_place
            &&& error == Some(ViewError::ConflictingFinality) <==> in_place && !tree.descends(
                tree.finalized.id,
                target.id,
            )
            &&& error is None <==> in_place && tree.descends(tree.finalized.id, target.id)
        }),
{
}

/// Making a target final moves finality to it and touches nothing that is stored. The
/// change names the target, the last real block of its history, whether that is another
/// one than before, and one target for every view since the old finality, each the
/// parent of the next, up to the target itself.
pub proof fn finality_moves_to_the_target<H, N: BlockNumber>(
    tree: Tree<H, N>,
    target: TargetRef<TargetId, ViewNumber>,
    k: int,
)
    requires
        tree.well_formed(),
        tree.finalization_error(target) is None,
    ensures
        ({
            let after = tree.with_finalized(target);
            let change = tree.finalization(target);
            let list = change.newly_finalized;
            &&& after.finalized == target
            &&& after.entries == tree.entries && after.root == tree.root
            &&& change.target == target
            &&& change.block == tree.entries[target.id].latest_block
            &&& change.block_changed <==> tree.entries[target.id].latest_block
                != tree.entries[tree.finalized.id].latest_block
            &&& list.len() == target.view - tree.finalized.view
            &&& list.len() > 0 ==> list.last() == target
            &&& 0 <= k < list.len() ==> {
                &&& tree.known(list[k].id)
                &&& list[k].view == tree.finalized.view + k + 1
                &&& tree.target(list[k].id).view == list[k].view
                &&& tree.target(list[k].id).parent == Some(
                    if k == 0 {
                        tree.finalized.id
                    } else {
                        list[k - 1].id
                    },
                )
            }
        }),
{
    let base = tree.finalized.id;
    view_counts_the_targets_on_the_path(tree, base, target.id);
    lemma_path_views_are_consecutive(tree, base, target.id);
    let path = tree.path(base, target.id);
    if path.len() > 0 {
        assert(path.last() == target.id);
    }
    if 0 <= k < path.len() {
        lemma_path_follows_parents(tree, base, target.id, k);
    }
}

/// Every target on a path is the child of the one before, the first one of the base.
proof fn lemma_path_follows_parents<H, N: BlockNumber>(
    tree: Tree<H, N>,
    base: TargetId,
    id: TargetId,
    k: int,
)
    requires
        tree.well_formed(),
        tree.descends(base, id),
        0 <= k < tree.path(base, id).len(),
    ensures
        tree.target(tree.path(base, id)[k]).parent == Some(
            if k == 0 {
                base
            } else {
                tree.path(base, id)[k - 1]
            },
        ),
    decreases id,
{
    assert(tree.linked(id));
    let parent = tree.target(id).parent->0;
    let path = tree.path(base, id);
    let shorter = tree.path(base, parent);
    assert(path == shorter.push(id));
    if k < shorter.len() {
        lemma_path_follows_parents(tree, base, parent, k);
    } else if k > 0 {
        assert(tree.linked(parent));
        assert(shorter.last() == parent);
    } else {
        view_counts_the_targets_on_the_path(tree, base, parent);
        if parent != base {
            assert(tree.linked(parent));
            assert(shorter.len() > 0);
        }
    }
}

/// What a chain answers about a tree: a target is what the tree stores; a target
/// reaches what descends from it; and the ancestors of a descendant are its parent, the
/// parent's parent and so on, up to the child of the base.
pub open spec fn answers_about<H, N: BlockNumber, C: Chain<TargetId, ViewNumber>>(
    chain: C,
    tree: Tree<H, N>,
    base: TargetId,
    id: TargetId,
    k: int,
) -> bool {
    &&& chain.reaches(base, id) <==> tree.descends(base, id)
    &&& chain.target_at(id) == if !tree.known(id) {
        None
    } else if tree.target(id).kind is Block {
        Some(VoteTarget::Block(id, tree.target(id).view))
    } else {
        Some(VoteTarget::ViewTimeout(id, tree.target(id).view))
    }
    &&& !tree.descends(base, id) ==> chain.ancestors(base, id) == Err::<Seq<TargetId>, Error>(
        Error::NotDescendent,
    )
    &&& tree.descends(base, id) ==> (chain.ancestors(base, id) matches Ok(list) && {
        &&& id == base ==> list.len() == 0
        &&& id != base ==> list.len() + 1 == tree.target(id).view - tree.target(base).view
        &&& 0 <= k < list.len() ==> tree.target(
            if k == 0 {
                id
            } else {
                list[k - 1]
            },
        ).parent == Some(list[k])
        &&& id != base ==> tree.target(
            if list.len() == 0 {
                id
            } else {
                list.last()
            },
        ).parent == Some(base)
    })
}

/// A tree in memory answers what voting asks about it.
pub proof fn trees_answer_about_themselves<H: Identity, N: BlockNumber>(
    chain: ViewChain<H, N>,
    base: TargetId,
    id: TargetId,
    k: int,
)
    ensures
        chain.consistent() <==> chain@.well_formed(),
        chain@.well_formed() ==> answers_about(chain, chain@, base, id, k),
{
    if chain@.well_formed() && chain@.descends(base, id) {
        lemma_between(chain@, base, id, k);
    }
}

/// A host answers what voting asks about its tree.
pub proof fn hosts_answer_about_their_trees<H: Identity, N: BlockNumber, S, I>(
    host: Host<H, N, S, I>,
    base: TargetId,
    id: TargetId,
    k: int,
)
    ensures
        host.consistent() <==> host@.tree.well_formed(),
        host@.tree.well_formed() ==> answers_about(host, host@.tree, base, id, k),
{
    if host@.tree.well_formed() && host@.tree.descends(base, id) {
        lemma_between(host@.tree, base, id, k);
    }
}

/// The targets between two are each the parent of the one before.
proof fn lemma_between<H, N: BlockNumber>(
    tree: Tree<H, N>,
    base: TargetId,
    id: TargetId,
    k: int,
)
    requires
        tree.well_formed(),
        tree.descends(base, id),
    ensures
        ({
            let list = tree.between(base, id);
            &&& id == base ==> list.len() == 0
            &&& id != base ==> list.len() + 1 == tree.target(id).view - tree.target(base).view
            &&& 0 <= k < list.len() ==> tree.target(
                if k == 0 {
                    id
                } else {
                    list[k - 1]
                },
            ).parent == Some(list[k])
            &&& id != base ==> tree.target(
                if list.len() == 0 {
                    id
                } else {
                    list.last()
                },
            ).parent == Some(base)
        }),
{
    if id != base {
        let path = tree.path(base, id);
        let list = tree.between(base, id);
        ancestry_includes_every_view(tree, base, id, k);
        assert(path.last() == id);
        assert(forall|j: int| 0 <= j < list.len() ==> list[j] == path[path.len() - 2 - j]);
        if 0 <= k < list.len() {
            lemma_path_follows_parents(tree, base, id, path.len() - 1 - k);
        }
        lemma_path_follows_parents(tree, base, id, 0);
    }
}

/// A host offers its candidates in order. The first one leaves the queue whether it is
/// refused or not; the tree imports it; nothing else changes. Without a candidate
/// nothing changes.
pub proof fn hosts_offer_candidates_in_order<H, N: BlockNumber, S, I>(host: HostView<H, N, S, I>)
    ensures
        host.candidates.len() == 0 ==> host.after_offer() == host,
        host.candidates.len() > 0 ==> {
            let after = host.after_offer();
            &&& after.candidates == host.candidates.subrange(1, host.candidates.len() as int)
            &&& after.tree == host.tree.after_import(host.candidates[0])
            &&& after == (HostView {
                candidates: after.candidates,
                tree: after.tree,
                ..host
            })
        },
{
}

/// A host that accepts a finalized target keeps it with its round and its proof, notes
/// the change as the last one with its round, and moves the finality of its tree.
/// Nothing else changes.
pub proof fn hosts_record_what_becomes_final<H, N: BlockNumber, S, I>(
    host: HostView<H, N, S, I>,
    target: TargetRef<TargetId, ViewNumber>,
    round: u64,
    commit: CommitView<TargetId, ViewNumber, S, I>,
)
    ensures
        ({
            let after = host.after_finality(target, round, commit);
            &&& after.durable matches Some(saved) && saved.target == target && saved.round == round
                && saved.commit == commit
            &&& after.finalizations.len() == host.finalizations.len() + 1
            &&& after.finalizations.drop_last() == host.finalizations
            &&& after.finalizations.last() == (round, host.tree.finalization(target))
            &&& after.tree == (Tree { finalized: target, ..host.tree })
            &&& after.candidates == host.candidates
            &&& after.fail_persistence == host.fail_persistence
        }),
        HostView::<H, N, S, I>::is_proof(target, commit) <==> commit.target_hash == target.id
            && commit.target_number == target.view && commit.precommits.len() == 1,
{
    let after = host.after_finality(target, round, commit);
    assert(after.finalizations.drop_last() =~= host.finalizations);
}

/// What is said of finality changes and of what is saved is said of their fields.
pub proof fn changes_show_their_fields<H, N, S, I>(
    change: Finalization<H, N>,
    saved: SavedFinality<S, I>,
    error: HostError,
)
    ensures
        change@.target == change.target,
        change@.block == change.block,
        change@.newly_finalized == change.newly_finalized@,
        change@.block_changed == change.block_changed,
        saved@.target == saved.target,
        saved@.round == saved.round,
        saved@.commit == saved.commit@,
        saved_view(Some(saved)) == Some(saved@),
        saved_view(None::<SavedFinality<S, I>>) is None,
        error@ == error.0@,
{
}

/// Block numbers and views of 32 and 64 bits count up by one until they run out, and a
/// value has a number exactly if it fits.
pub proof fn numbers_are_plain_integers(a: u32, b: u64, value: nat)
    ensures
        a.height() == a && a.value() == a,
        b.height() == b && b.value() == b,
        a.successor() is Some <==> a < u32::MAX,
        a.successor() matches Some(next) ==> next == a + 1,
        b.successor() is Some <==> b < u64::MAX,
        b.successor() matches Some(next) ==> next == b + 1,
        u32::with_value(value) is Some <==> value <= u32::MAX,
        u32::with_value(value) matches Some(number) ==> number == value,
        u64::with_value(value) is Some <==> value <= u64::MAX,
        u64::with_value(value) matches Some(number) ==> number == value,
{
}

} // verus!
