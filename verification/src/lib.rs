//! Proposal state for a Git-native review inbox, encoded entirely in refs.
//!
//! Every proposal lives under `refs/soulgit/proposals/<id>/`; its head ref marks
//! the current revision, and metadata, reviews and checks count only while their
//! ref points at that revision. The state is reconstructed from a ref listing
//! alone, without a database.

pub mod text;
pub mod kinds;
pub mod validate;
pub mod proposal;
pub mod refs;
pub mod project;
pub mod commands;
pub mod laws;
pub mod reorder;
pub mod rules;

pub use kinds::{CheckResult, ParseError, ProposalState, ReviewDecision};
pub use validate::{validate_actor, validate_id, validate_target};
pub use proposal::{Check, Proposal, Review};
pub use refs::{
    author_ref, check_ref, head_ref, review_ref, state_ref, target_ref, PROPOSAL_PREFIX,
};
pub use project::project;
pub use commands::delete_matching_except;
