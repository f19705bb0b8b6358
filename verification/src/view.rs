//! A consensus history containing both blocks and skipped views.
//!
//! Every consensus edge advances the view exactly once, including a
//! [`TargetKind::ViewTimeout`]; only a [`TargetKind::Block`] advances the real
//! block number. This keeps consensus heights consecutive without assigning
//! artificial heights to real blocks.
//!
//! A timeout is a competing child of its parent, not a notification that a
//! timer elapsed. It becomes irreversible only when it is finalized.
use vstd::prelude::*;

use crate::ident::{duplicate_option, same_option, Identity};

verus! {

/// A real block referenced by a consensus target.
#[derive(Clone, Debug, PartialEq, Eq, PartialOrd, Ord)]
pub struct BlockRef<H, N> {
    /// The real block hash.
    pub hash: H,
    /// The real block number, which does not increase during timeout views.
    pub number: N,
}

/// The event represented by a consensus target.
#[derive(Clone, Debug, PartialEq, Eq)]
pub enum TargetKind<H, N> {
    /// A real block extending the parent's latest real block.
    Block(BlockRef<H, N>),
    /// No block was selected for this view; inherit the parent's latest block.
    ViewTimeout,
}

/// A block or timeout with a unique position in the consensus tree.
///
/// `I` and `V` are the application's consensus target ID and view types.
/// `H` and `N` are the real block hash and number types.
#[derive(Clone, Debug, PartialEq, Eq)]
pub struct ConsensusTarget<I, V, H, N> {
    /// The consensus parent. Only the trusted root checkpoint has no parent.
    pub parent: Option<I>,
    /// Exactly the parent's view plus one, except at the trusted root.
    pub view: V,
    /// The block or timeout selected at this position.
    pub kind: TargetKind<H, N>,
}

/// A compact vote target: consensus identity and consensus height.
#[derive(Clone, Copy, Debug, PartialEq, Eq, PartialOrd, Ord, Hash)]
pub struct TargetRef<I, V> {
    /// The consensus target's identity.
    pub id: I,
    /// The target's view, used as the target number in votes.
    pub view: V,
}

impl<I, V> TargetRef<I, V> {
    /// Return the `(hash, number)` pair that votes carry.
    pub fn as_pair(self) -> (r: (I, V))
        ensures
            r == (self.id, self.view),
    {
        (self.id, self.view)
    }
}

impl<H: Identity, N: Identity> Identity for BlockRef<H, N> {
    fn same(&self, other: &Self) -> (r: bool) {
        self.hash.same(&other.hash) && self.number.same(&other.number)
    }

    fn duplicate(&self) -> (r: Self) {
        BlockRef { hash: self.hash.duplicate(), number: self.number.duplicate() }
    }
}

impl<H: Identity, N: Identity> Identity for TargetKind<H, N> {
    fn same(&self, other: &Self) -> (r: bool) {
        match (self, other) {
            (TargetKind::Block(a), TargetKind::Block(b)) => a.same(b),
            (TargetKind::ViewTimeout, TargetKind::ViewTimeout) => true,
            _ => false,
        }
    }

    fn duplicate(&self) -> (r: Self) {
        match self {
            TargetKind::Block(block) => TargetKind::Block(block.duplicate()),
            TargetKind::ViewTimeout => TargetKind::ViewTimeout,
        }
    }
}

impl<I: Identity, V: Identity, H: Identity, N: Identity> Identity for ConsensusTarget<I, V, H, N> {
    fn same(&self, other: &Self) -> (r: bool) {
        same_option(&self.parent, &other.parent) && self.view.same(&other.view) && self.kind.same(
            &other.kind,
        )
    }

    fn duplicate(&self) -> (r: Self) {
        ConsensusTarget {
            parent: duplicate_option(&self.parent),
            view: self.view.duplicate(),
            kind: self.kind.duplicate(),
        }
    }
}

} // verus!
