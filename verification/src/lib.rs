//! Voting on a consensus history that mixes real blocks and skipped views.
//!
//! A consensus target is a real block or a timeout: the decision to skip a view.
//! Every target advances the view by one; only a block advances the real block
//! number. Votes name the identity and the view of a target, and a vote for a
//! target counts for everything that the target descends from.
//!
//! - [`ident`] and [`number`]: what the rest asks of identities and numbers.
//! - [`view`], [`tree`] and [`view_chain`]: targets and the tree that holds them.
//! - [`chain`]: what voting needs to know of a tree.
//! - [`voter_set`], [`weights`], [`messages`], [`tally`] and [`round`]: voters,
//!   their votes, and what a round of votes establishes.
//! - [`commit`]: claims that a target is final.
//! - [`voting_round`]: the local voter in a round.
//! - [`host`]: an owner of a tree that offers candidates and records finality.
//! - [`store_laws`], [`counting_laws`], [`outcome_laws`], [`claim_laws`],
//!   [`casting_laws`] and [`handling_laws`]: what each operation does, in terms of
//!   what it is given and what it gives.
//! - [`tree_laws`], [`round_laws`], [`commit_laws`] and [`voting_laws`]: what holds
//!   of all of these together.
pub mod casting_laws;
pub mod chain;
pub mod claim_laws;
pub mod commit;
pub mod commit_laws;
pub mod counting_laws;
pub mod handling_laws;
pub mod host;
pub mod ident;
pub mod messages;
pub mod number;
pub mod outcome_laws;
pub mod round;
pub mod round_laws;
pub mod store_laws;
pub mod tally;
pub mod tree;
pub mod tree_laws;
pub mod view;
pub mod view_chain;
pub mod voter_set;
pub mod voting_laws;
pub mod voting_round;
pub mod weights;
