//! Local-first knowledge graph shared by cooperating agents.
//!
//! The crate has two halves that feed each other: an event-sourced graph
//! store (nodes, edges, an append-only event log) and a governance layer
//! that gates mutation of that store (capability modes, proposals, weighted
//! voting, reputation). Every mutation of the store is journaled as an
//! event; agents without direct capability route mutations through
//! proposals, votes decide resolution, and reputation tracks how often each
//! voter agreed with final resolutions.
//!
//! All fractional quantities (vote weights, reputation scores, decay
//! factors) are fixed-point values in thousandths, so that the arithmetic
//! is exact integer arithmetic throughout.

use vstd::prelude::*;

mod capability;
mod error;
mod laws;
mod proposal;
mod reputation;
mod schema;
mod store;
mod util;
mod voting;

pub use capability::AgentCapabilities;
pub use capability::CapabilityConfig;
pub use capability::CapabilityMode;
pub use capability::DEFAULT_VOTE_WEIGHT;
pub use capability::valid_module_name;
pub use error::Error;
pub use error::ErrorKind;
pub use proposal::Proposal;
pub use proposal::ProposalManager;
pub use proposal::ProposalStatus;
pub use proposal::ProposalTarget;
pub use proposal::lemma_cleanup_keeps_pending;
pub use proposal::lemma_expire_idempotent;
pub use reputation::Reputation;
pub use reputation::ReputationTracker;
pub use reputation::CORRECT_VOTE_CREDIT;
pub use schema::AgentId;
pub use schema::EdgeKind;
pub use schema::NodeKind;
pub use schema::Operation;
pub use schema::StateEdge;
pub use schema::StateEvent;
pub use schema::StateNode;
pub use schema::Target;
pub use schema::Value;
pub use store::GraphStore;
pub use store::lemma_replay_reconstructs;
pub use laws::lemma_record_vote_wf;
pub use laws::lemma_revote_keeps_one_ballot;
pub use laws::lemma_single_resolution;
pub use util::contains_char;
pub use util::edge_kind_name;
pub use util::node_kind_name;
pub use util::operation_name;
pub use util::parse_agent_id;
pub use util::parse_duration;
pub use util::parse_edge_kind;
pub use util::parse_node_kind;
pub use util::parse_operation;
pub use util::parse_proposal_target;
pub use util::parse_u64;
pub use util::str_eq;
pub use util::str_starts_with;
pub use util::str_trim;
pub use util::str_suffix;
pub use voting::Vote;
pub use voting::VoteDecision;
pub use voting::VotingCoordinator;
pub use voting::VotingStrategy;

verus! {

/// Shortens a string for display: a string of at most `max_len` characters
/// is returned unchanged; a longer one is cut to `max_len - 3` characters
/// (zero when `max_len < 3`) with `"..."` appended.
pub fn truncate_str(s: &str, max_len: usize) -> (r: String)
    ensures
        s@.len() <= max_len ==> r@ == s@,
        s@.len() > max_len ==> r@ == s@.subrange(
            0,
            if max_len >= 3 { max_len - 3 } else { 0int },
        ) + "..."@,
{
    let n = s.unicode_len();
    if n <= max_len {
        s.to_owned()
    } else {
        let keep = if max_len >= 3 { max_len - 3 } else { 0 };
        let head = s.substring_char(0, keep);
        let mut out = head.to_owned();
        out.append("...");
        out
    }
}

} // verus!
