use elegant_state::AgentId;
use elegant_state::CapabilityConfig;
use elegant_state::Error;
use elegant_state::Operation;
use elegant_state::ProposalManager;
use elegant_state::ProposalStatus;
use elegant_state::ProposalTarget;
use elegant_state::ReputationTracker;
use elegant_state::Value;
use elegant_state::Vote;
use elegant_state::VoteDecision;
use elegant_state::VotingCoordinator;
use elegant_state::VotingStrategy;

const DAY_MS: i64 = 86_400_000;

fn vote(pid: u64, voter: AgentId, decision: VoteDecision, ts: i64) -> Vote {
    Vote { proposal_id: pid, voter, decision, reason: None, timestamp: ts }
}

fn update_target(node: u64) -> ProposalTarget {
    ProposalTarget::Node { id: Some(node), kind: None }
}

#[test]
fn majority_approval_scenario_credits_correct_voters() {
    // Proposal P: operation Update on node 7 with payload {"x": 1},
    // submitted by the user (default mode Proposal). Assistant and Llama
    // (default can_vote, weight one) both approve; under simple majority
    // with a quorum of two weight units, P resolves to Approved and both
    // voters' correct_votes increment.
    let config = CapabilityConfig::new();
    let mut manager = ProposalManager::new(DAY_MS);
    let mut tracker = ReputationTracker::new();
    let mut coordinator =
        VotingCoordinator::new(VotingStrategy::SimpleMajority { quorum: 2000 });

    let payload = Value::Obj(vec![("x".to_string(), Value::Int(1))]);
    let pid = manager
        .submit(AgentId::User, Operation::Update, update_target(7), payload, None, &config, 100)
        .unwrap();
    assert_eq!(pid, 1);
    assert_eq!(manager.get(pid).unwrap().status, ProposalStatus::Pending);

    let st1 = coordinator
        .cast_vote(vote(pid, AgentId::Assistant, VoteDecision::Approve, 110), &config, &mut manager, &mut tracker, 110)
        .unwrap();
    assert_eq!(st1, ProposalStatus::Pending);

    let st2 = coordinator
        .cast_vote(vote(pid, AgentId::Llama, VoteDecision::Approve, 120), &config, &mut manager, &mut tracker, 120)
        .unwrap();
    assert_eq!(st2, ProposalStatus::Approved);
    assert_eq!(manager.get(pid).unwrap().status, ProposalStatus::Approved);
    assert_eq!(manager.get(pid).unwrap().resolved_at, Some(120));

    let assistant = tracker.get(&AgentId::Assistant).unwrap();
    assert_eq!(assistant.total_votes, 1);
    assert_eq!(assistant.correct_votes, 1);
    assert_eq!(assistant.score, 1000);
    let llama = tracker.get(&AgentId::Llama).unwrap();
    assert_eq!(llama.total_votes, 1);
    assert_eq!(llama.correct_votes, 1);
}

#[test]
fn revoting_keeps_one_ballot_with_the_later_decision() {
    let config = CapabilityConfig::new();
    let mut manager = ProposalManager::new(DAY_MS);
    let mut tracker = ReputationTracker::new();
    // High quorum so nothing resolves while revoting.
    let mut coordinator =
        VotingCoordinator::new(VotingStrategy::SimpleMajority { quorum: 1_000_000 });

    let pid = manager
        .submit(AgentId::User, Operation::Delete, update_target(3), Value::Null, None, &config, 1)
        .unwrap();

    coordinator
        .cast_vote(vote(pid, AgentId::Assistant, VoteDecision::Approve, 2), &config, &mut manager, &mut tracker, 2)
        .unwrap();
    coordinator
        .cast_vote(vote(pid, AgentId::Assistant, VoteDecision::Reject, 3), &config, &mut manager, &mut tracker, 3)
        .unwrap();

    let votes = coordinator.get_votes(pid);
    assert_eq!(votes.len(), 1);
    assert_eq!(votes[0].voter, AgentId::Assistant);
    assert_eq!(votes[0].decision, VoteDecision::Reject);
    assert_eq!(votes[0].timestamp, 3);

    let (approve, reject, abstains) = coordinator.tally(pid, &config);
    assert_eq!(approve, 0);
    assert_eq!(reject, 1000);
    assert_eq!(abstains, 0);
}

#[test]
fn a_proposal_resolves_exactly_once() {
    let config = CapabilityConfig::new();
    let mut manager = ProposalManager::new(DAY_MS);
    let mut tracker = ReputationTracker::new();
    let mut coordinator =
        VotingCoordinator::new(VotingStrategy::SimpleMajority { quorum: 1000 });

    let pid = manager
        .submit(AgentId::User, Operation::Update, update_target(1), Value::Null, None, &config, 1)
        .unwrap();

    let st = coordinator
        .cast_vote(vote(pid, AgentId::Assistant, VoteDecision::Approve, 2), &config, &mut manager, &mut tracker, 2)
        .unwrap();
    assert_eq!(st, ProposalStatus::Approved);

    // The deciding transition happened exactly once; any further ballot
    // is rejected and changes nothing.
    let before_votes = coordinator.get_votes(pid);
    let err = coordinator
        .cast_vote(vote(pid, AgentId::Llama, VoteDecision::Reject, 3), &config, &mut manager, &mut tracker, 3)
        .unwrap_err();
    assert_eq!(err, Error::ProposalNotPending);
    assert_eq!(manager.get(pid).unwrap().status, ProposalStatus::Approved);
    assert_eq!(coordinator.get_votes(pid), before_votes);
    assert!(tracker.get(&AgentId::Llama).is_none());
}

#[test]
fn ties_do_not_resolve() {
    let config = CapabilityConfig::new();
    let mut manager = ProposalManager::new(DAY_MS);
    let mut tracker = ReputationTracker::new();
    let mut coordinator =
        VotingCoordinator::new(VotingStrategy::SimpleMajority { quorum: 2000 });

    let pid = manager
        .submit(AgentId::User, Operation::Update, update_target(1), Value::Null, None, &config, 1)
        .unwrap();
    coordinator
        .cast_vote(vote(pid, AgentId::Assistant, VoteDecision::Approve, 2), &config, &mut manager, &mut tracker, 2)
        .unwrap();
    let st = coordinator
        .cast_vote(vote(pid, AgentId::Llama, VoteDecision::Reject, 3), &config, &mut manager, &mut tracker, 3)
        .unwrap();
    // Quorum is met but the tally is tied: no resolution.
    assert_eq!(st, ProposalStatus::Pending);
    assert_eq!(manager.get(pid).unwrap().status, ProposalStatus::Pending);
}

#[test]
fn unanimous_strategy_rejects_on_any_reject() {
    let config = CapabilityConfig::new();
    let mut manager = ProposalManager::new(DAY_MS);
    let mut tracker = ReputationTracker::new();
    let mut coordinator = VotingCoordinator::new(VotingStrategy::Unanimous { quorum: 2000 });

    let pid = manager
        .submit(AgentId::User, Operation::Update, update_target(1), Value::Null, None, &config, 1)
        .unwrap();
    let st = coordinator
        .cast_vote(vote(pid, AgentId::Assistant, VoteDecision::Reject, 2), &config, &mut manager, &mut tracker, 2)
        .unwrap();
    assert_eq!(st, ProposalStatus::Rejected);
    assert_eq!(manager.get(pid).unwrap().status, ProposalStatus::Rejected);
    // The rejecting voter agreed with the rejection.
    let assistant = tracker.get(&AgentId::Assistant).unwrap();
    assert_eq!(assistant.correct_votes, 1);
}

#[test]
fn unanimous_strategy_approves_at_quorum_without_rejects() {
    let config = CapabilityConfig::new();
    let mut manager = ProposalManager::new(DAY_MS);
    let mut tracker = ReputationTracker::new();
    let mut coordinator = VotingCoordinator::new(VotingStrategy::Unanimous { quorum: 2000 });

    let pid = manager
        .submit(AgentId::User, Operation::Update, update_target(1), Value::Null, None, &config, 1)
        .unwrap();
    let st1 = coordinator
        .cast_vote(vote(pid, AgentId::Assistant, VoteDecision::Approve, 2), &config, &mut manager, &mut tracker, 2)
        .unwrap();
    assert_eq!(st1, ProposalStatus::Pending);
    let st2 = coordinator
        .cast_vote(vote(pid, AgentId::Llama, VoteDecision::Approve, 3), &config, &mut manager, &mut tracker, 3)
        .unwrap();
    assert_eq!(st2, ProposalStatus::Approved);
}

#[test]
fn abstentions_carry_no_weight_and_no_credit() {
    let config = CapabilityConfig::new();
    let mut manager = ProposalManager::new(DAY_MS);
    let mut tracker = ReputationTracker::new();
    let mut coordinator =
        VotingCoordinator::new(VotingStrategy::SimpleMajority { quorum: 1000 });

    let pid = manager
        .submit(AgentId::User, Operation::Update, update_target(1), Value::Null, None, &config, 1)
        .unwrap();
    let st1 = coordinator
        .cast_vote(vote(pid, AgentId::User, VoteDecision::Abstain, 2), &config, &mut manager, &mut tracker, 2)
        .unwrap();
    assert_eq!(st1, ProposalStatus::Pending);
    let (approve, reject, abstains) = coordinator.tally(pid, &config);
    assert_eq!((approve, reject, abstains), (0, 0, 1));

    let st2 = coordinator
        .cast_vote(vote(pid, AgentId::Assistant, VoteDecision::Approve, 3), &config, &mut manager, &mut tracker, 3)
        .unwrap();
    assert_eq!(st2, ProposalStatus::Approved);
    // The abstaining voter is neither credited nor debited.
    assert!(tracker.get(&AgentId::User).is_none());
    assert_eq!(tracker.get(&AgentId::Assistant).unwrap().correct_votes, 1);
}

#[test]
fn observers_cannot_propose() {
    let mut config = CapabilityConfig::new();
    let mut caps = config.get_capabilities(&AgentId::User);
    caps.mode = elegant_state::CapabilityMode::Observer;
    config.set_capabilities(caps).unwrap();

    let mut manager = ProposalManager::new(DAY_MS);
    let err = manager
        .submit(AgentId::User, Operation::Update, update_target(1), Value::Null, None, &config, 1)
        .unwrap_err();
    assert_eq!(err, Error::ObserverCannotPropose);
    assert!(manager.all().is_empty());
}

#[test]
fn voting_requires_the_vote_capability() {
    let mut config = CapabilityConfig::new();
    let mut caps = config.get_capabilities(&AgentId::Assistant);
    caps.can_vote = false;
    config.set_capabilities(caps).unwrap();

    let mut manager = ProposalManager::new(DAY_MS);
    let mut tracker = ReputationTracker::new();
    let mut coordinator =
        VotingCoordinator::new(VotingStrategy::SimpleMajority { quorum: 1000 });
    let pid = manager
        .submit(AgentId::User, Operation::Update, update_target(1), Value::Null, None, &config, 1)
        .unwrap();

    let err = coordinator
        .cast_vote(vote(pid, AgentId::Assistant, VoteDecision::Approve, 2), &config, &mut manager, &mut tracker, 2)
        .unwrap_err();
    assert_eq!(err, Error::VoterCannotVote);
    assert!(coordinator.get_votes(pid).is_empty());
}

#[test]
fn voting_on_unknown_proposal_fails() {
    let config = CapabilityConfig::new();
    let mut manager = ProposalManager::new(DAY_MS);
    let mut tracker = ReputationTracker::new();
    let mut coordinator =
        VotingCoordinator::new(VotingStrategy::SimpleMajority { quorum: 1000 });
    let err = coordinator
        .cast_vote(vote(42, AgentId::Assistant, VoteDecision::Approve, 1), &config, &mut manager, &mut tracker, 1)
        .unwrap_err();
    assert_eq!(err, Error::ProposalNotFound);
}

#[test]
fn withdraw_only_from_pending() {
    let config = CapabilityConfig::new();
    let mut manager = ProposalManager::new(DAY_MS);
    let pid = manager
        .submit(AgentId::User, Operation::Update, update_target(1), Value::Null, None, &config, 1)
        .unwrap();

    assert_eq!(manager.withdraw(99, 2), Err(Error::ProposalNotFound));
    manager.withdraw(pid, 2).unwrap();
    let p = manager.get(pid).unwrap();
    assert_eq!(p.status, ProposalStatus::Withdrawn);
    assert_eq!(p.resolved_at, Some(2));
    assert_eq!(manager.withdraw(pid, 3), Err(Error::ProposalNotPending));
}

#[test]
fn expire_old_is_age_based_and_idempotent() {
    let config = CapabilityConfig::new();
    let mut manager = ProposalManager::new(1000);
    let early = manager
        .submit(AgentId::User, Operation::Update, update_target(1), Value::Null, None, &config, 0)
        .unwrap();
    let late = manager
        .submit(AgentId::User, Operation::Update, update_target(2), Value::Null, None, &config, 1500)
        .unwrap();

    manager.expire_old(2000);
    assert_eq!(manager.get(early).unwrap().status, ProposalStatus::Expired);
    assert_eq!(manager.get(early).unwrap().resolved_at, Some(2000));
    assert_eq!(manager.get(late).unwrap().status, ProposalStatus::Pending);

    let snapshot = manager.all();
    manager.expire_old(2000);
    assert_eq!(manager.all(), snapshot);
}

#[test]
fn cleanup_removes_only_old_resolved_proposals() {
    let config = CapabilityConfig::new();
    let mut manager = ProposalManager::new(DAY_MS);
    let old_resolved = manager
        .submit(AgentId::User, Operation::Update, update_target(1), Value::Null, None, &config, 0)
        .unwrap();
    let fresh_resolved = manager
        .submit(AgentId::User, Operation::Update, update_target(2), Value::Null, None, &config, 0)
        .unwrap();
    let pending = manager
        .submit(AgentId::User, Operation::Update, update_target(3), Value::Null, None, &config, 0)
        .unwrap();
    manager.withdraw(old_resolved, 10).unwrap();
    manager.withdraw(fresh_resolved, 900).unwrap();

    // Keep anything resolved within the last 100 time units.
    manager.cleanup(100, 1000);
    assert!(manager.get(old_resolved).is_none());
    assert!(manager.get(fresh_resolved).is_some());
    assert_eq!(manager.get(pending).unwrap().status, ProposalStatus::Pending);
    assert_eq!(manager.all().len(), 2);
}

#[test]
fn pending_lists_only_pending_proposals() {
    let config = CapabilityConfig::new();
    let mut manager = ProposalManager::new(DAY_MS);
    let a = manager
        .submit(AgentId::User, Operation::Update, update_target(1), Value::Null, None, &config, 0)
        .unwrap();
    let b = manager
        .submit(AgentId::User, Operation::Update, update_target(2), Value::Null, None, &config, 0)
        .unwrap();
    manager.withdraw(a, 1).unwrap();

    let pending = manager.pending();
    assert_eq!(pending.len(), 1);
    assert_eq!(pending[0].id, b);
    assert_eq!(manager.all().len(), 2);
}

#[test]
fn submit_assigns_monotonic_ids_and_keeps_fields() {
    let config = CapabilityConfig::new();
    let mut manager = ProposalManager::new(DAY_MS);
    let payload = Value::Obj(vec![("x".to_string(), Value::Int(1))]);
    let a = manager
        .submit(
            AgentId::User,
            Operation::Update,
            update_target(7),
            payload,
            Some("because".to_string()),
            &config,
            123,
        )
        .unwrap();
    let b = manager
        .submit(AgentId::Assistant, Operation::Create, ProposalTarget::Node { id: None, kind: Some(elegant_state::NodeKind::Task) }, Value::Null, None, &config, 124)
        .unwrap();
    assert_eq!((a, b), (1, 2));

    let p = manager.get(a).unwrap();
    assert_eq!(p.proposer, AgentId::User);
    assert_eq!(p.operation, Operation::Update);
    assert_eq!(p.created_at, 123);
    assert_eq!(p.rationale, Some("because".to_string()));
    assert_eq!(p.status, ProposalStatus::Pending);
    assert_eq!(p.resolved_at, None);
}

#[test]
fn incorrect_voters_are_not_credited() {
    let config = CapabilityConfig::new();
    let mut manager = ProposalManager::new(DAY_MS);
    let mut tracker = ReputationTracker::new();
    let mut coordinator =
        VotingCoordinator::new(VotingStrategy::SimpleMajority { quorum: 3000 });

    let pid = manager
        .submit(AgentId::User, Operation::Update, update_target(1), Value::Null, None, &config, 1)
        .unwrap();
    coordinator
        .cast_vote(vote(pid, AgentId::Assistant, VoteDecision::Approve, 2), &config, &mut manager, &mut tracker, 2)
        .unwrap();
    coordinator
        .cast_vote(vote(pid, AgentId::Llama, VoteDecision::Approve, 3), &config, &mut manager, &mut tracker, 3)
        .unwrap();
    let st = coordinator
        .cast_vote(vote(pid, AgentId::User, VoteDecision::Reject, 4), &config, &mut manager, &mut tracker, 4)
        .unwrap();
    // 2000 approve vs 1000 reject, quorum 3000 reached: approved.
    assert_eq!(st, ProposalStatus::Approved);

    let user = tracker.get(&AgentId::User).unwrap();
    assert_eq!(user.total_votes, 1);
    assert_eq!(user.correct_votes, 0);
    assert_eq!(user.score, 0);
    assert_eq!(tracker.get(&AgentId::Assistant).unwrap().score, 1000);
}
