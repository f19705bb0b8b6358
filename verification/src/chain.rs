//! What a vote can point at, and the ancestry that the application supplies.
use vstd::prelude::*;

use crate::ident::Identity;

verus! {

/// Why a vote or a query was rejected.
#[derive(Clone, Copy, Debug, PartialEq, Eq, Structural)]
pub enum Error {
    /// The target is unknown, or its kind or view does not match the chain.
    InvalidTarget,
    /// The target is not the required base nor a descendant of it.
    NotDescendent,
}

impl Error {
    /// The name of the error.
    pub open spec fn spec_name(self) -> Seq<char> {
        match self {
            Error::InvalidTarget => "InvalidTarget"@,
            Error::NotDescendent => "NotDescendent"@,
        }
    }

    /// The name of the error.
    pub fn name(&self) -> (r: &'static str)
        ensures
            r@ == self.spec_name(),
    {
        match self {
            Error::InvalidTarget => "InvalidTarget",
            Error::NotDescendent => "NotDescendent",
        }
    }
}

/// A target that a voter can choose.
///
/// `H` is the identity of a consensus target and `N` its view; neither is the
/// hash or the number of a real block.
#[derive(Clone, Copy, Debug, PartialEq, Eq)]
pub enum VoteTarget<H, N> {
    /// A real block was selected for the view.
    Block(H, N),
    /// The view was skipped.
    ViewTimeout(H, N),
}

impl<H, N> VoteTarget<H, N> {
    /// The identity of the target.
    pub open spec fn hash(self) -> H {
        match self {
            VoteTarget::Block(hash, _) => hash,
            VoteTarget::ViewTimeout(hash, _) => hash,
        }
    }

    /// The view of the target.
    pub open spec fn number(self) -> N {
        match self {
            VoteTarget::Block(_, number) => number,
            VoteTarget::ViewTimeout(_, number) => number,
        }
    }

    /// The target's identity and view.
    pub fn target(&self) -> (r: (&H, &N))
        ensures
            *r.0 == self.hash(),
            *r.1 == self.number(),
    {
        match self {
            VoteTarget::Block(hash, number) => (hash, number),
            VoteTarget::ViewTimeout(hash, number) => (hash, number),
        }
    }

    /// The target's identity and view, by value.
    pub fn into_target(self) -> (r: (H, N))
        ensures
            r == (self.hash(), self.number()),
    {
        match self {
            VoteTarget::Block(hash, number) => (hash, number),
            VoteTarget::ViewTimeout(hash, number) => (hash, number),
        }
    }
}

impl<H: Identity, N: Identity> Identity for VoteTarget<H, N> {
    fn same(&self, other: &Self) -> (r: bool) {
        match (self, other) {
            (VoteTarget::Block(h, n), VoteTarget::Block(i, m)) => h.same(i) && n.same(m),
            (VoteTarget::ViewTimeout(h, n), VoteTarget::ViewTimeout(i, m)) => h.same(i) && n.same(
                m,
            ),
            _ => false,
        }
    }

    fn duplicate(&self) -> (r: Self) {
        match self {
            VoteTarget::Block(h, n) => VoteTarget::Block(h.duplicate(), n.duplicate()),
            VoteTarget::ViewTimeout(h, n) => VoteTarget::ViewTimeout(h.duplicate(), n.duplicate()),
        }
    }
}

/// The consensus tree as the application stores it.
///
/// `H` identifies consensus targets and `N` is the type of views. A tree that is
/// stored by ordinary code implements the executable functions alone; nothing is
/// then known of what they answer.
pub trait Chain<H, N>: Sized {
    /// The stored tree is well formed.
    closed spec fn consistent(&self) -> bool {
        arbitrary()
    }

    /// What the tree holds under an identity.
    closed spec fn target_at(&self, hash: H) -> Option<VoteTarget<H, N>> {
        arbitrary()
    }

    /// The targets strictly between `base` and `block`, closest to `block` first.
    closed spec fn ancestors(&self, base: H, block: H) -> Result<Seq<H>, Error> {
        arbitrary()
    }

    /// `block` is `base` or descends from it.
    closed spec fn reaches(&self, base: H, block: H) -> bool {
        arbitrary()
    }

    /// The kind, identity and view of a known target.
    fn vote_target(&self, hash: H) -> (r: Option<VoteTarget<H, N>>)
        requires
            self.consistent(),
        ensures
            r == self.target_at(hash),
    ;

    /// The targets strictly between `base` and `block`, closest to `block`
    /// first; skipped views are part of it.
    fn ancestry(&self, base: H, block: H) -> (r: Result<Vec<H>, Error>)
        requires
            self.consistent(),
        ensures
            match r {
                Ok(list) => self.ancestors(base, block) == Ok::<Seq<H>, Error>(list@),
                Err(e) => self.ancestors(base, block) == Err::<Seq<H>, Error>(e),
            },
    ;

    /// Whether `block` is `base` or descends from it.
    fn is_equal_or_descendent_of(&self, base: H, block: H) -> (r: bool)
        requires
            self.consistent(),
        ensures
            r == self.reaches(base, block),
    ;
}

} // verus!
