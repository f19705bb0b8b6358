//! The mathematical model of a consensus tree.
use vstd::prelude::*;

use crate::chain::VoteTarget;
use crate::number::BlockNumber;
use crate::view::{BlockRef, ConsensusTarget, TargetKind, TargetRef};

verus! {

/// The identity of a stored target: the order in which it was imported.
pub type TargetId = u64;

/// The number of a view.
pub type ViewNumber = u64;

/// A stored target with the last real block of its history.
#[derive(Clone, Debug)]
pub struct Entry<H, N> {
    /// The target itself.
    pub target: ConsensusTarget<TargetId, ViewNumber, H, N>,
    /// The last real block in the target's ancestry, or the target's own block.
    pub latest_block: BlockRef<H, N>,
}

/// Invalid targets, or operations incompatible with known finality.
#[derive(Clone, Copy, Debug, PartialEq, Eq, Structural)]
pub enum ViewError {
    /// The target, or its parent, is not stored.
    UnknownTarget,
    /// The view is not the one at that position.
    InvalidView,
    /// The real block does not follow its parent's latest real block.
    InvalidBlockNumber,
    /// The target is not on the finalized branch.
    ConflictingFinality,
    /// The view number is exhausted.
    ViewOverflow,
    /// The real block number is exhausted.
    BlockNumberOverflow,
    /// Only the trusted root has no parent.
    InvalidRoot,
}

/// The contents of a consensus tree.
#[verifier::ext_equal]
pub struct Tree<H, N> {
    /// Every stored target.
    pub entries: Map<TargetId, Entry<H, N>>,
    /// The trusted root.
    pub root: TargetRef<TargetId, ViewNumber>,
    /// The finalized target.
    pub finalized: TargetRef<TargetId, ViewNumber>,
}

/// The changes made when a consensus target becomes finalized.
#[verifier::ext_equal]
pub struct FinalizationView<H, N> {
    /// The new finalized consensus position.
    pub target: TargetRef<TargetId, ViewNumber>,
    /// The latest real block in the newly finalized consensus history.
    pub block: BlockRef<H, N>,
    /// Newly finalized targets in ascending view order, excluding old finality.
    pub newly_finalized: Seq<TargetRef<TargetId, ViewNumber>>,
    /// Whether the real-block finality projection advanced.
    pub block_changed: bool,
}

impl<H, N> Tree<H, N> {
    /// A target is stored under `id`.
    pub open spec fn known(self, id: TargetId) -> bool {
        self.entries.contains_key(id)
    }

    /// The target stored under `id`.
    pub open spec fn target(self, id: TargetId) -> ConsensusTarget<TargetId, ViewNumber, H, N> {
        self.entries[id].target
    }

    /// The view of the target stored under `id`.
    pub open spec fn view_of(self, id: TargetId) -> ViewNumber {
        self.entries[id].target.view
    }

    /// The last real block in the history of `id`.
    pub open spec fn latest(self, id: TargetId) -> BlockRef<H, N> {
        self.entries[id].latest_block
    }

    /// The reference to the target stored under `id`.
    pub open spec fn reference(self, id: TargetId) -> TargetRef<TargetId, ViewNumber> {
        TargetRef { id, view: self.view_of(id) }
    }

    /// `id` is `base` or descends from it; both are stored.
    pub open spec fn descends(self, base: TargetId, id: TargetId) -> bool
        decreases id,
    {
        &&& self.known(id)
        &&& id == base || match self.target(id).parent {
            Some(parent) => parent < id && self.descends(base, parent),
            None => false,
        }
    }

    /// The targets after `base` up to and including `id`, in order of view.
    pub open spec fn path(self, base: TargetId, id: TargetId) -> Seq<TargetId>
        decreases id,
    {
        if id == base {
            Seq::empty()
        } else {
            match self.target(id).parent {
                Some(parent) => if parent < id {
                    self.path(base, parent).push(id)
                } else {
                    Seq::empty()
                },
                None => Seq::empty(),
            }
        }
    }

    /// The targets strictly between `base` and `id`, closest to `id` first.
    pub open spec fn between(self, base: TargetId, id: TargetId) -> Seq<TargetId> {
        if id == base {
            Seq::empty()
        } else {
            self.path(base, id).drop_last().reverse()
        }
    }

    /// The references along a path.
    pub open spec fn references(self, path: Seq<TargetId>) -> Seq<
        TargetRef<TargetId, ViewNumber>,
    > {
        path.map_values(|id: TargetId| self.reference(id))
    }

    /// The identity under which `target` is stored, if it is.
    pub open spec fn find(
        self,
        target: ConsensusTarget<TargetId, ViewNumber, H, N>,
    ) -> Option<TargetId> {
        if exists|id: TargetId| self.holds(id, target) {
            Some(choose|id: TargetId| self.holds(id, target))
        } else {
            None
        }
    }

    /// `target` is stored under `id`.
    pub open spec fn holds(
        self,
        id: TargetId,
        target: ConsensusTarget<TargetId, ViewNumber, H, N>,
    ) -> bool {
        self.known(id) && self.target(id) == target
    }

    /// What a vote for `id` points at.
    pub open spec fn vote_target(self, id: TargetId) -> Option<VoteTarget<TargetId, ViewNumber>> {
        if !self.known(id) {
            None
        } else {
            match self.target(id).kind {
                TargetKind::Block(_) => Some(VoteTarget::Block(id, self.view_of(id))),
                TargetKind::ViewTimeout => Some(VoteTarget::ViewTimeout(id, self.view_of(id))),
            }
        }
    }

    /// The tree with finality moved to `target`.
    pub open spec fn with_finalized(self, target: TargetRef<TargetId, ViewNumber>) -> Self {
        Tree { finalized: target, ..self }
    }

    /// The tree with one more entry.
    pub open spec fn with_entry(self, id: TargetId, entry: Entry<H, N>) -> Self {
        Tree { entries: self.entries.insert(id, entry), ..self }
    }

    /// Why `target` cannot be finalized, if it cannot.
    pub open spec fn finalization_error(
        self,
        target: TargetRef<TargetId, ViewNumber>,
    ) -> Option<ViewError> {
        if !self.known(target.id) {
            Some(ViewError::UnknownTarget)
        } else if self.view_of(target.id) != target.view {
            Some(ViewError::InvalidView)
        } else if !self.descends(self.finalized.id, target.id) {
            Some(ViewError::ConflictingFinality)
        } else {
            None
        }
    }

    /// The changes that finalizing `target` makes.
    pub open spec fn finalization(
        self,
        target: TargetRef<TargetId, ViewNumber>,
    ) -> FinalizationView<H, N> {
        FinalizationView {
            target,
            block: self.latest(target.id),
            newly_finalized: self.references(self.path(self.finalized.id, target.id)),
            block_changed: self.latest(target.id) != self.latest(self.finalized.id),
        }
    }

    /// The view that follows the one of `parent`.
    pub open spec fn next_view(self, parent: TargetId) -> Result<ViewNumber, ViewError> {
        if !self.known(parent) {
            Err(ViewError::UnknownTarget)
        } else if self.view_of(parent) == ViewNumber::MAX {
            Err(ViewError::ViewOverflow)
        } else {
            Ok((self.view_of(parent) + 1) as ViewNumber)
        }
    }
}

impl<H, N: BlockNumber> Tree<H, N> {
    /// The last real block of a child, if its kind may follow `parent`.
    pub open spec fn child_block(
        self,
        parent: TargetId,
        kind: TargetKind<H, N>,
    ) -> Result<BlockRef<H, N>, ViewError> {
        match kind {
            TargetKind::ViewTimeout => Ok(self.latest(parent)),
            TargetKind::Block(block) => match self.latest(parent).number.successor() {
                None => Err(ViewError::BlockNumberOverflow),
                Some(next) => if block.number != next {
                    Err(ViewError::InvalidBlockNumber)
                } else {
                    Ok(block)
                },
            },
        }
    }

    /// The last real block of `target` as a new child, or why it cannot be one.
    pub open spec fn child(
        self,
        target: ConsensusTarget<TargetId, ViewNumber, H, N>,
    ) -> Result<BlockRef<H, N>, ViewError> {
        match target.parent {
            None => Err(ViewError::InvalidRoot),
            Some(parent) => match self.next_view(parent) {
                Err(e) => Err(e),
                Ok(next) => if target.view != next {
                    Err(ViewError::InvalidView)
                } else {
                    self.child_block(parent, target.kind)
                },
            },
        }
    }

    /// Why `target` cannot be imported, if it is new and cannot.
    pub open spec fn import_error(
        self,
        target: ConsensusTarget<TargetId, ViewNumber, H, N>,
    ) -> Option<ViewError> {
        match self.child(target) {
            Err(e) => Some(e),
            Ok(_) => if !self.descends(self.finalized.id, target.parent->0) {
                Some(ViewError::ConflictingFinality)
            } else {
                None
            },
        }
    }

    /// What importing `target` gives: the reference to the target as it is or will
    /// be stored, or why it is refused.
    pub open spec fn import_result(
        self,
        target: ConsensusTarget<TargetId, ViewNumber, H, N>,
    ) -> Result<TargetRef<TargetId, ViewNumber>, ViewError> {
        match (self.find(target), self.import_error(target)) {
            (Some(id), _) => Ok(TargetRef { id, view: target.view }),
            (None, Some(e)) => Err(e),
            (None, None) => Ok(
                TargetRef { id: (self.entries.len() + 1) as TargetId, view: target.view },
            ),
        }
    }

    /// There is an identity left for `target`, should importing it add it.
    pub open spec fn has_room_for(
        self,
        target: ConsensusTarget<TargetId, ViewNumber, H, N>,
    ) -> bool {
        self.find(target) is None && self.import_error(target) is None ==> self.entries.len()
            < TargetId::MAX
    }

    /// The tree after importing `target`: it grows only by a target that is new and
    /// not refused.
    pub open spec fn after_import(
        self,
        target: ConsensusTarget<TargetId, ViewNumber, H, N>,
    ) -> Self {
        if self.find(target) is None && self.import_error(target) is None {
            self.with_entry(
                (self.entries.len() + 1) as TargetId,
                Entry { target, latest_block: self.child(target)->Ok_0 },
            )
        } else {
            self
        }
    }

    /// The entry stored under `id` continues the one of its parent.
    pub open spec fn linked(self, id: TargetId) -> bool {
        let target = self.target(id);
        if id == self.root.id {
            &&& target.parent is None
            &&& target.view == self.root.view
            &&& target.kind == TargetKind::Block(self.latest(id))
        } else {
            &&& target.parent is Some
            &&& self.root.id <= target.parent->0 < id
            &&& self.child(target) == Ok::<BlockRef<H, N>, ViewError>(self.latest(id))
        }
    }

    /// The tree is well formed: identities count up from the root, every target
    /// continues its parent, no target is stored twice, and the finalized target
    /// is stored.
    pub open spec fn well_formed(self) -> bool {
        &&& self.entries.dom().finite()
        &&& self.root.id == 1
        &&& self.entries.len() >= 1
        &&& forall|id: TargetId| #[trigger] self.known(id) <==> 1 <= id <= self.entries.len()
        &&& forall|id: TargetId| #[trigger] self.known(id) ==> self.linked(id)
        &&& forall|i: TargetId, j: TargetId|
            #![trigger self.target(i), self.target(j)]
            self.known(i) && self.known(j) && self.target(i) == self.target(j) ==> i == j
        &&& self.known(self.finalized.id)
        &&& self.finalized.view == self.view_of(self.finalized.id)
    }
}

/// A tree that holds nothing but a trusted root.
pub open spec fn root_tree<H, N>(root_view: ViewNumber, root: BlockRef<H, N>) -> Tree<H, N> {
    let reference = TargetRef { id: 1u64, view: root_view };
    Tree {
        entries: Map::empty().insert(
            1u64,
            Entry {
                target: ConsensusTarget {
                    parent: None,
                    view: root_view,
                    kind: TargetKind::Block(root),
                },
                latest_block: root,
            },
        ),
        root: reference,
        finalized: reference,
    }
}

} // verus!
