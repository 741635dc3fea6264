//! Payloads of the group-protocol frames. The bytes they carry come from
//! the group-protocol library and are opaque here.

use vstd::prelude::*;

verus! {

/// A key package that a client publishes so that others can add it.
#[derive(Debug, Clone, PartialEq, Eq)]
pub struct KeyPackageData {
    /// The serialized key package.
    pub key_package_bytes: Vec<u8>,
}

/// A proposed change to a group.
#[derive(Debug, Clone, PartialEq, Eq)]
pub struct ProposalData {
    /// The serialized proposal.
    pub proposal_bytes: Vec<u8>,
    /// What kind of change it proposes.
    pub proposal_type: ProposalType,
}

/// Kinds of group proposals.
#[allow(clippy::upper_case_acronyms)]
#[derive(Debug, Clone, Copy, PartialEq, Eq, Structural)]
pub enum ProposalType {
    /// Add a member.
    Add,
    /// Remove a member.
    Remove,
    /// Update one's own key material.
    Update,
    /// Pre-shared key.
    PSK,
    /// Reinitialize the group with other parameters.
    ReInit,
    /// External initialization.
    ExternalInit,
    /// Change the group context extensions.
    GroupContextExtensions,
}

/// A commit, which applies proposals and advances the epoch.
#[derive(Debug, Clone, PartialEq, Eq)]
pub struct CommitData {
    /// The serialized commit.
    pub commit_bytes: Vec<u8>,
    /// The epoch the group enters.
    pub new_epoch: u64,
    /// The ratchet tree hash after the commit.
    pub tree_hash: [u8; 32],
    /// Whether the commit is external (from a joiner).
    pub is_external: bool,
}

/// A welcome, sent to a newly added member only.
#[derive(Debug, Clone, PartialEq, Eq)]
pub struct WelcomeData {
    /// The serialized welcome.
    pub welcome_bytes: Vec<u8>,
    /// The epoch at which the new member joins.
    pub epoch: u64,
}

} // verus!
