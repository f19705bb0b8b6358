//! A consensus tree in memory, containing real blocks and timeout events.
use std::collections::BTreeMap;

use vstd::prelude::*;

use crate::chain::{Chain, Error, VoteTarget};
use crate::ident::Identity;
use crate::number::BlockNumber;
use crate::tree::{root_tree, Entry, FinalizationView, Tree};
use crate::tree_laws::{
    lemma_finality_keeps_the_tree_well_formed, lemma_import_keeps_the_tree_well_formed,
    view_counts_the_targets_on_the_path,
};
use crate::view::{BlockRef, TargetKind};

pub use crate::tree::{TargetId, ViewError, ViewNumber};

verus! {

/// A reference to a target of a [`ViewChain`].
pub type TargetRef = crate::view::TargetRef<TargetId, ViewNumber>;

/// A target of a [`ViewChain`].
pub type ConsensusTarget<H, N> = crate::view::ConsensusTarget<TargetId, ViewNumber, H, N>;

impl ViewError {
    /// The error in words.
    pub open spec fn spec_message(self) -> Seq<char> {
        match self {
            ViewError::UnknownTarget => "unknown consensus target"@,
            ViewError::InvalidView => "invalid consensus view"@,
            ViewError::InvalidBlockNumber => "invalid real block number"@,
            ViewError::ConflictingFinality => "consensus target conflicts with finality"@,
            ViewError::ViewOverflow => "consensus view overflow"@,
            ViewError::BlockNumberOverflow => "real block number overflow"@,
            ViewError::InvalidRoot => "invalid consensus root"@,
        }
    }

    /// The error in words.
    pub fn message(&self) -> (r: &'static str)
        ensures
            r@ == self.spec_message(),
    {
        match self {
            ViewError::UnknownTarget => "unknown consensus target",
            ViewError::InvalidView => "invalid consensus view",
            ViewError::InvalidBlockNumber => "invalid real block number",
            ViewError::ConflictingFinality => "consensus target conflicts with finality",
            ViewError::ViewOverflow => "consensus view overflow",
            ViewError::BlockNumberOverflow => "real block number overflow",
            ViewError::InvalidRoot => "invalid consensus root",
        }
    }
}

/// The changes made when a consensus target becomes finalized.
///
/// Finalizing a timeout can also finalize earlier, previously unfinalized real
/// blocks. Consumers must inspect `block_changed`, not just the target's kind.
#[derive(Clone, Debug, PartialEq, Eq)]
pub struct Finalization<H, N> {
    /// The new finalized consensus position, including any timeout views.
    pub target: TargetRef,
    /// The latest real block in the newly finalized consensus history.
    pub block: BlockRef<H, N>,
    /// Newly finalized targets in ascending view order, excluding old finality.
    pub newly_finalized: Vec<TargetRef>,
    /// Whether the real-block finality projection advanced.
    pub block_changed: bool,
}

impl<H, N> View for Finalization<H, N> {
    type V = FinalizationView<H, N>;

    open spec fn view(&self) -> FinalizationView<H, N> {
        FinalizationView {
            target: self.target,
            block: self.block,
            newly_finalized: self.newly_finalized@,
            block_changed: self.block_changed,
        }
    }
}

/// An in-memory consensus tree containing real blocks and timeout events.
///
/// Every edge advances the view by one. Historical branches are retained for
/// ancestry proofs, but new imports cannot leave the finalized branch.
/// Application code must validate real block content, parent hashes,
/// consensus-parent commitments and timeout eligibility before importing.
#[derive(Clone, Debug)]
pub struct ViewChain<H, N> {
    entries: BTreeMap<TargetId, Entry<H, N>>,
    root: TargetRef,
    finalized: TargetRef,
}

impl<H, N> View for ViewChain<H, N> {
    type V = Tree<H, N>;

    closed spec fn view(&self) -> Tree<H, N> {
        Tree { entries: self.entries@, root: self.root, finalized: self.finalized }
    }
}

impl<H: Identity, N: BlockNumber> ViewChain<H, N> {
    /// Start at a trusted checkpoint and its latest finalized real block.
    ///
    /// `root_view` need not equal `root.number`; views can have been skipped
    /// before the checkpoint. The checkpoint is considered finalized.
    ///
    /// The root receives ID 1; later imports receive successive IDs.
    pub fn new(root_view: ViewNumber, root: BlockRef<H, N>) -> (r: Self)
        ensures
            r@ == root_tree(root_view, root),
            r@.well_formed(),
    {
        let target = ConsensusTarget {
            parent: None,
            view: root_view,
            kind: TargetKind::Block(root.duplicate()),
        };
        let root_ref = TargetRef { id: 1, view: root_view };
        let mut entries = BTreeMap::new();
        entries.insert(root_ref.id, Entry { target, latest_block: root });
        let r = Self { entries, root: root_ref, finalized: root_ref };
        assert(r@ =~= root_tree(root_view, root));
        r
    }

    /// The number of stored targets.
    pub fn len(&self) -> (r: usize)
        ensures
            r == self@.entries.len(),
    {
        self.entries.len()
    }

    /// The trusted root checkpoint.
    pub fn root(&self) -> (r: TargetRef)
        ensures
            r == self@.root,
    {
        self.root
    }

    /// The current finalized consensus target, including finalized timeouts.
    pub fn finalized_target(&self) -> (r: TargetRef)
        ensures
            r == self@.finalized,
    {
        self.finalized
    }

    /// The current finalized real block, unchanged by timeout-only progress.
    pub fn finalized_block(&self) -> (r: &BlockRef<H, N>)
        requires
            self@.well_formed(),
        ensures
            *r == self@.latest(self@.finalized.id),
    {
        assert(self@.known(self.finalized.id));
        &self.entries.get(&self.finalized.id).unwrap().latest_block
    }

    /// Look up a stored target, including historical non-finalized branches.
    pub fn target(&self, id: TargetId) -> (r: Option<&ConsensusTarget<H, N>>)
        ensures
            match r {
                Some(target) => self@.known(id) && *target == self@.target(id),
                None => !self@.known(id),
            },
    {
        match self.entries.get(&id) {
            Some(entry) => Some(&entry.target),
            None => None,
        }
    }

    /// The last real block in a target's ancestry, or the target itself if a block.
    pub fn latest_block(&self, id: TargetId) -> (r: Option<&BlockRef<H, N>>)
        ensures
            match r {
                Some(block) => self@.known(id) && *block == self@.latest(id),
                None => !self@.known(id),
            },
    {
        match self.entries.get(&id) {
            Some(entry) => Some(&entry.latest_block),
            None => None,
        }
    }

    /// Whether an exact `(target identity, view)` pair exists in this tree.
    pub fn contains(&self, id: TargetId, view: ViewNumber) -> (r: bool)
        ensures
            r == (self@.known(id) && self@.view_of(id) == view),
    {
        match self.target(id) {
            Some(target) => target.view == view,
            None => false,
        }
    }

    /// The view after the one of `parent`.
    pub fn next_view(&self, parent: TargetId) -> (r: Result<ViewNumber, ViewError>)
        ensures
            r == self@.next_view(parent),
    {
        match self.target(parent) {
            None => Err(ViewError::UnknownTarget),
            Some(target) => match target.view.checked_add(1) {
                Some(next) => Ok(next),
                None => Err(ViewError::ViewOverflow),
            },
        }
    }

    /// Whether `target` is `base` or descends from it; unknown targets do not.
    pub fn descends_from(&self, base: TargetId, target: TargetId) -> (r: bool)
        requires
            self@.well_formed(),
        ensures
            r == self@.descends(base, target),
    {
        let base_view: ViewNumber = match self.target(base) {
            Some(base) => base.view,
            None => {
                proof {
                    if self@.descends(base, target) {
                        view_counts_the_targets_on_the_path(self@, base, target);
                    }
                }
                return false;
            },
        };
        let mut cursor: TargetId = target;
        loop
            invariant
                self@.well_formed(),
                self@.known(base),
                base_view == self@.view_of(base),
                self@.descends(base, cursor) == self@.descends(base, target),
            decreases cursor,
        {
            let entry = match self.entries.get(&cursor) {
                Some(entry) => entry,
                None => {
                    return false;
                },
            };
            assert(self@.known(cursor));
            if cursor == base {
                return true;
            }
            assert(self@.linked(cursor));
            if entry.target.view <= base_view {
                proof {
                    if self@.descends(base, cursor) {
                        view_counts_the_targets_on_the_path(self@, base, cursor);
                    }
                }
                return false;
            }
            match entry.target.parent {
                Some(parent) => {
                    cursor = parent;
                },
                None => {
                    return false;
                },
            }
        }
    }

    /// The last real block of a new child, or why the child is malformed.
    fn validate_child(&self, target: &ConsensusTarget<H, N>) -> (r: Result<
        BlockRef<H, N>,
        ViewError,
    >)
        ensures
            r == self@.child(*target),
    {
        let parent: TargetId = match target.parent {
            Some(parent) => parent,
            None => {
                return Err(ViewError::InvalidRoot);
            },
        };
        let parent_entry = match self.entries.get(&parent) {
            Some(entry) => entry,
            None => {
                return Err(ViewError::UnknownTarget);
            },
        };
        let next: ViewNumber = match self.next_view(parent) {
            Ok(next) => next,
            Err(e) => {
                return Err(e);
            },
        };
        if target.view != next {
            return Err(ViewError::InvalidView);
        }
        match &target.kind {
            TargetKind::ViewTimeout => Ok(parent_entry.latest_block.duplicate()),
            TargetKind::Block(block) => {
                let next_number = match parent_entry.latest_block.number.checked_successor() {
                    Some(number) => number,
                    None => {
                        return Err(ViewError::BlockNumberOverflow);
                    },
                };
                if !block.number.same(&next_number) {
                    return Err(ViewError::InvalidBlockNumber);
                }
                Ok(block.duplicate())
            },
        }
    }

    /// Construct the next-view block after `parent`, checking its real height.
    ///
    /// This does not import the target or validate its header/content. A block's
    /// real parent must be [`Self::latest_block`] of the consensus parent.
    pub fn block(&self, parent: TargetId, block: BlockRef<H, N>) -> (r: Result<
        ConsensusTarget<H, N>,
        ViewError,
    >)
        ensures
            match (self@.next_view(parent), self@.child_block(parent, TargetKind::Block(block))) {
                (Err(e), _) => r == Err::<ConsensusTarget<H, N>, ViewError>(e),
                (Ok(_), Err(e)) => r == Err::<ConsensusTarget<H, N>, ViewError>(e),
                (Ok(view), Ok(_)) => r == Ok::<ConsensusTarget<H, N>, ViewError>(
                    (ConsensusTarget {
                        parent: Some(parent),
                        view,
                        kind: TargetKind::Block(block),
                    }),
                ),
            },
            r matches Ok(target) ==> self@.child(target) == Ok::<BlockRef<H, N>, ViewError>(block),
    {
        let view: ViewNumber = match self.next_view(parent) {
            Ok(view) => view,
            Err(e) => {
                return Err(e);
            },
        };
        let target = ConsensusTarget { parent: Some(parent), view, kind: TargetKind::Block(block) };
        match self.validate_child(&target) {
            Ok(_) => Ok(target),
            Err(e) => Err(e),
        }
    }

    /// Construct the next-view timeout after `parent`, without importing it.
    ///
    /// The application is responsible for deciding when the view has timed out.
    pub fn timeout(&self, parent: TargetId) -> (r: Result<ConsensusTarget<H, N>, ViewError>)
        ensures
            r == match self@.next_view(parent) {
                Err(e) => Err::<ConsensusTarget<H, N>, ViewError>(e),
                Ok(view) => Ok(
                    ConsensusTarget { parent: Some(parent), view, kind: TargetKind::ViewTimeout },
                ),
            },
    {
        match self.next_view(parent) {
            Ok(view) => Ok(
                ConsensusTarget { parent: Some(parent), view, kind: TargetKind::ViewTimeout },
            ),
            Err(e) => Err(e),
        }
    }

    /// The identity under which an identical target is stored.
    fn find(&self, target: &ConsensusTarget<H, N>) -> (r: Option<TargetId>)
        requires
            self@.well_formed(),
        ensures
            r == self@.find(*target),
    {
        let count: usize = self.entries.len();
        let mut index: usize = 0;
        while index < count
            invariant
                self@.well_formed(),
                count == self@.entries.len(),
                index <= count,
                forall|k: TargetId| 1 <= k <= index ==> !self@.holds(k, *target),
            decreases count - index,
        {
            let id: TargetId = index as TargetId + 1;
            assert(self@.known(id));
            let entry = self.entries.get(&id).unwrap();
            if entry.target.same(target) {
                assert(self@.holds(id, *target));
                let ghost found = choose|k: TargetId| self@.holds(k, *target);
                assert(self@.target(found) == self@.target(id));
                return Some(id);
            }
            index += 1;
        }
        assert forall|k: TargetId| !self@.holds(k, *target) by {
            if self@.known(k) {
                assert(1 <= k <= count);
            }
        }
        None
    }

    /// Validate and import a block or timeout target.
    ///
    /// Unknown parents, skipped views, invalid real block heights and new forks
    /// conflicting with finality are rejected. Existing identical targets are
    /// accepted idempotently, even if retained solely for historical proofs.
    /// Only a target that is new and accepted takes up another identity.
    pub fn import(&mut self, target: ConsensusTarget<H, N>) -> (r: Result<TargetRef, ViewError>)
        requires
            old(self)@.well_formed(),
            old(self)@.has_room_for(target),
        ensures
            final(self)@.well_formed(),
            r == old(self)@.import_result(target),
            final(self)@ == old(self)@.after_import(target),
    {
        if let Some(id) = self.find(&target) {
            return Ok(TargetRef { id, view: target.view });
        }
        let latest_block = match self.validate_child(&target) {
            Ok(block) => block,
            Err(e) => {
                return Err(e);
            },
        };
        let parent: TargetId = match target.parent {
            Some(parent) => parent,
            None => {
                return Err(ViewError::InvalidRoot);
            },
        };
        if !self.descends_from(self.finalized.id, parent) {
            return Err(ViewError::ConflictingFinality);
        }
        let id: TargetId = self.entries.len() as TargetId + 1;
        let target_ref = TargetRef { id, view: target.view };
        let ghost entry = Entry { target, latest_block };
        self.entries.insert(id, Entry { target, latest_block });
        proof {
            assert(self@ =~= old(self)@.with_entry(id, entry));
            lemma_import_keeps_the_tree_well_formed(old(self)@, entry);
        }
        Ok(target_ref)
    }

    /// Compute the finality changes without mutating the tree.
    ///
    /// A finalization callback can persist this result before calling
    /// [`Self::finalize`]. It must serialize finalization operations so the preview
    /// remains current.
    /// This method validates ancestry, not a finality certificate; callers must
    /// establish finality through voting or independently verify a certificate.
    pub fn preview_finalization(&self, target: TargetRef) -> (r: Result<
        Finalization<H, N>,
        ViewError,
    >)
        requires
            self@.well_formed(),
        ensures
            match (self@.finalization_error(target), r) {
                (None, Ok(changes)) => changes@ == self@.finalization(target),
                (Some(e), Err(f)) => e == f,
                _ => false,
            },
    {
        let entry = match self.entries.get(&target.id) {
            Some(entry) => entry,
            None => {
                return Err(ViewError::UnknownTarget);
            },
        };
        if entry.target.view != target.view {
            return Err(ViewError::InvalidView);
        }
        if !self.descends_from(self.finalized.id, target.id) {
            return Err(ViewError::ConflictingFinality);
        }
        let mut upward: Vec<TargetRef> = Vec::new();
        let mut cursor: TargetId = target.id;
        let ghost base = self@.finalized.id;
        while cursor != self.finalized.id
            invariant
                self@.well_formed(),
                base == self@.finalized.id,
                base == self.finalized.id,
                self@.descends(base, cursor),
                self@.references(self@.path(base, target.id)) =~= self@.references(
                    self@.path(base, cursor),
                ) + upward@.reverse(),
            decreases cursor,
        {
            assert(self@.known(cursor));
            assert(self@.linked(cursor));
            let ancestor = &self.entries.get(&cursor).unwrap().target;
            upward.push(TargetRef { id: cursor, view: ancestor.view });
            cursor = match ancestor.parent {
                Some(parent) => parent,
                None => {
                    return Err(ViewError::InvalidRoot);
                },
            };
        }
        let newly_finalized = reversed(&upward);
        Ok(
            Finalization {
                target,
                block: entry.latest_block.duplicate(),
                newly_finalized,
                block_changed: !entry.latest_block.same(self.finalized_block()),
            },
        )
    }

    /// Advance consensus finality and project it onto real-block finality.
    ///
    /// Repeating the current target is idempotent. Any older or conflicting
    /// target is rejected. The caller must have verified a finality certificate;
    /// this method alone does not authenticate a finalization request.
    pub fn finalize(&mut self, target: TargetRef) -> (r: Result<Finalization<H, N>, ViewError>)
        requires
            old(self)@.well_formed(),
        ensures
            final(self)@.well_formed(),
            match (old(self)@.finalization_error(target), r) {
                (None, Ok(changes)) => {
                    &&& changes@ == old(self)@.finalization(target)
                    &&& final(self)@ == old(self)@.with_finalized(target)
                },
                (Some(e), Err(f)) => e == f && final(self)@ == old(self)@,
                _ => false,
            },
    {
        let update = match self.preview_finalization(target) {
            Ok(update) => update,
            Err(e) => {
                return Err(e);
            },
        };
        self.finalized = target;
        proof {
            assert(self@ =~= old(self)@.with_finalized(target));
            lemma_finality_keeps_the_tree_well_formed(old(self)@, target);
        }
        Ok(update)
    }
}

/// A list of references in reverse order.
fn reversed(list: &Vec<TargetRef>) -> (r: Vec<TargetRef>)
    ensures
        r@ == list@.reverse(),
{
    let mut r: Vec<TargetRef> = Vec::new();
    let mut left: usize = list.len();
    while left > 0
        invariant
            left <= list.len(),
            r@ =~= list@.reverse().take(list.len() - left),
        decreases left,
    {
        left -= 1;
        r.push(list[left]);
    }
    r
}

impl<H: Identity, N: BlockNumber> Chain<TargetId, ViewNumber> for ViewChain<H, N> {
    open spec fn consistent(&self) -> bool {
        self@.well_formed()
    }

    open spec fn target_at(&self, hash: TargetId) -> Option<VoteTarget<TargetId, ViewNumber>> {
        self@.vote_target(hash)
    }

    open spec fn ancestors(&self, base: TargetId, block: TargetId) -> Result<Seq<TargetId>, Error> {
        if self@.descends(base, block) {
            Ok(self@.between(base, block))
        } else {
            Err(Error::NotDescendent)
        }
    }

    open spec fn reaches(&self, base: TargetId, block: TargetId) -> bool {
        self@.descends(base, block)
    }

    fn vote_target(&self, hash: TargetId) -> (r: Option<VoteTarget<TargetId, ViewNumber>>) {
        match self.target(hash) {
            None => None,
            Some(target) => match &target.kind {
                TargetKind::Block(_) => Some(VoteTarget::Block(hash, target.view)),
                TargetKind::ViewTimeout => Some(VoteTarget::ViewTimeout(hash, target.view)),
            },
        }
    }

    fn ancestry(&self, base: TargetId, block: TargetId) -> (r: Result<Vec<TargetId>, Error>) {
        if !self.descends_from(base, block) {
            return Err(Error::NotDescendent);
        }
        let mut ancestry: Vec<TargetId> = Vec::new();
        let mut cursor: TargetId = block;
        while cursor != base
            invariant
                self@.well_formed(),
                self@.descends(base, block),
                self@.descends(base, cursor),
                self@.between(base, block) =~= ancestry@ + self@.between(base, cursor),
            decreases cursor,
        {
            assert(self@.known(cursor));
            assert(self@.linked(cursor));
            let parent: TargetId = match self.entries.get(&cursor).unwrap().target.parent {
                Some(parent) => parent,
                None => {
                    return Err(Error::NotDescendent);
                },
            };
            proof {
                assert(self@.path(base, cursor) == self@.path(base, parent).push(cursor));
                assert(self@.path(base, cursor).drop_last() =~= self@.path(base, parent));
            }
            if parent != base {
                proof {
                    let up = self@.path(base, parent);
                    assert(self@.descends(base, parent));
                    assert(up == self@.path(base, self@.target(parent).parent->0).push(parent));
                    assert(up.reverse() =~= seq![parent] + up.drop_last().reverse());
                }
                ancestry.push(parent);
            }
            cursor = parent;
        }
        Ok(ancestry)
    }

    fn is_equal_or_descendent_of(&self, base: TargetId, block: TargetId) -> (r: bool) {
        // Unknown equal IDs are not valid targets.
        self.descends_from(base, block)
    }
}

} // verus!
