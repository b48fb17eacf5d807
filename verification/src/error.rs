//! Error values for the store and the governance layer.
//!
//! Every rejected operation names the specific invariant it violated, and
//! each variant belongs to one of three broad kinds: absence of an entity,
//! an operation illegal in the current state, or malformed input. All
//! validation happens before any state is mutated, so an error implies the
//! receiver is unchanged.

use vstd::prelude::*;

verus! {

/// The broad kind of a rejection, as callers may want to dispatch on it.
#[derive(Debug, Clone, Copy, PartialEq, Eq, Structural)]
pub enum ErrorKind {
    NotFound,
    InvalidState,
    InvalidInput,
}

/// A rejected operation, naming the exact invariant violated.
#[derive(Debug, Clone, Copy, PartialEq, Eq, Structural)]
pub enum Error {
    /// A node lookup or mutation named an id with no node.
    NodeNotFound,
    /// An edge deletion named an id with no edge.
    EdgeNotFound,
    /// A proposal operation named an id with no proposal.
    ProposalNotFound,
    /// A direct store mutation was attempted by an agent whose capability
    /// mode is not `Direct`.
    MutationNotPermitted,
    /// A vote was cast, or a withdrawal attempted, on a proposal that is no
    /// longer pending.
    ProposalNotPending,
    /// A proposal was submitted by an agent whose capability mode is
    /// `Observer`.
    ObserverCannotPropose,
    /// A vote was cast by an agent whose capability record has
    /// `can_vote == false`.
    VoterCannotVote,
    /// A capability record change was attempted while runtime changes are
    /// disabled by policy.
    RuntimeChangesDisabled,
    /// A module registration used a name that is empty or contains `':'`
    /// or `' '`.
    InvalidModuleName,
    /// A module registration repeated a name that is already registered.
    ModuleAlreadyRegistered,
    /// A module unregistration named a module that is not registered.
    ModuleNotRegistered,
    /// A reputation decay was requested with a factor above one (factors
    /// are fixed-point values in thousandths, so above 1000).
    InvalidDecayFactor,
}

impl Error {
    /// The broad kind this error belongs to.
    pub open spec fn spec_kind(&self) -> ErrorKind {
        match self {
            Error::NodeNotFound => ErrorKind::NotFound,
            Error::EdgeNotFound => ErrorKind::NotFound,
            Error::ProposalNotFound => ErrorKind::NotFound,
            Error::MutationNotPermitted => ErrorKind::InvalidState,
            Error::ProposalNotPending => ErrorKind::InvalidState,
            Error::ObserverCannotPropose => ErrorKind::InvalidState,
            Error::VoterCannotVote => ErrorKind::InvalidState,
            Error::RuntimeChangesDisabled => ErrorKind::InvalidState,
            Error::InvalidModuleName => ErrorKind::InvalidInput,
            Error::ModuleAlreadyRegistered => ErrorKind::InvalidState,
            Error::ModuleNotRegistered => ErrorKind::NotFound,
            Error::InvalidDecayFactor => ErrorKind::InvalidInput,
        }
    }

    /// The broad kind this error belongs to.
    #[verifier::when_used_as_spec(spec_kind)]
    pub fn kind(&self) -> (k: ErrorKind)
        ensures
            k == self.spec_kind(),
    {
        match self {
            Error::NodeNotFound => ErrorKind::NotFound,
            Error::EdgeNotFound => ErrorKind::NotFound,
            Error::ProposalNotFound => ErrorKind::NotFound,
            Error::MutationNotPermitted => ErrorKind::InvalidState,
            Error::ProposalNotPending => ErrorKind::InvalidState,
            Error::ObserverCannotPropose => ErrorKind::InvalidState,
            Error::VoterCannotVote => ErrorKind::InvalidState,
            Error::RuntimeChangesDisabled => ErrorKind::InvalidState,
            Error::InvalidModuleName => ErrorKind::InvalidInput,
            Error::ModuleAlreadyRegistered => ErrorKind::InvalidState,
            Error::ModuleNotRegistered => ErrorKind::NotFound,
            Error::InvalidDecayFactor => ErrorKind::InvalidInput,
        }
    }

    /// The sentence naming each violated invariant.
    pub open spec fn spec_message(&self) -> Seq<char> {
        match self {
            Error::NodeNotFound => "node not found"@,
            Error::EdgeNotFound => "edge not found"@,
            Error::ProposalNotFound => "proposal not found"@,
            Error::MutationNotPermitted => "agent lacks direct mutation capability"@,
            Error::ProposalNotPending => "proposal already resolved"@,
            Error::ObserverCannotPropose => "observer agents cannot propose"@,
            Error::VoterCannotVote => "agent lacks vote capability"@,
            Error::RuntimeChangesDisabled => "runtime capability changes are disabled"@,
            Error::InvalidModuleName => "module name is empty or contains ':' or ' '"@,
            Error::ModuleAlreadyRegistered => "module is already registered"@,
            Error::ModuleNotRegistered => "module is not registered"@,
            Error::InvalidDecayFactor => "decay factor must be between 0 and 1"@,
        }
    }

    /// A human-readable sentence naming the violated invariant.
    pub fn message(&self) -> (r: String)
        ensures
            r@ == self.spec_message(),
    {
        match self {
            Error::NodeNotFound => "node not found".to_owned(),
            Error::EdgeNotFound => "edge not found".to_owned(),
            Error::ProposalNotFound => "proposal not found".to_owned(),
            Error::MutationNotPermitted => "agent lacks direct mutation capability".to_owned(),
            Error::ProposalNotPending => "proposal already resolved".to_owned(),
            Error::ObserverCannotPropose => "observer agents cannot propose".to_owned(),
            Error::VoterCannotVote => "agent lacks vote capability".to_owned(),
            Error::RuntimeChangesDisabled => "runtime capability changes are disabled".to_owned(),
            Error::InvalidModuleName => "module name is empty or contains ':' or ' '".to_owned(),
            Error::ModuleAlreadyRegistered => "module is already registered".to_owned(),
            Error::ModuleNotRegistered => "module is not registered".to_owned(),
            Error::InvalidDecayFactor => "decay factor must be between 0 and 1".to_owned(),
        }
    }
}

} // verus!
