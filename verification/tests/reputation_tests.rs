use elegant_state::AgentId;
use elegant_state::Error;
use elegant_state::Reputation;
use elegant_state::ReputationTracker;

#[test]
fn decay_by_half_halves_scores_and_keeps_counts() {
    let mut tracker = ReputationTracker::new();
    // Assistant: two correct of two; Llama: one correct of two.
    tracker.record_outcome(&AgentId::Assistant, true);
    tracker.record_outcome(&AgentId::Assistant, true);
    tracker.record_outcome(&AgentId::Llama, true);
    tracker.record_outcome(&AgentId::Llama, false);

    assert_eq!(tracker.get(&AgentId::Assistant).unwrap().score, 2000);
    assert_eq!(tracker.get(&AgentId::Llama).unwrap().score, 1000);

    tracker.apply_decay_all(500).unwrap();

    let assistant = tracker.get(&AgentId::Assistant).unwrap();
    assert_eq!(assistant.score, 1000);
    assert_eq!(assistant.total_votes, 2);
    assert_eq!(assistant.correct_votes, 2);
    let llama = tracker.get(&AgentId::Llama).unwrap();
    assert_eq!(llama.score, 500);
    assert_eq!(llama.total_votes, 2);
    assert_eq!(llama.correct_votes, 1);
}

#[test]
fn decay_factor_must_be_at_most_one() {
    let mut tracker = ReputationTracker::new();
    tracker.record_outcome(&AgentId::Assistant, true);
    let err = tracker.apply_decay_all(1001).unwrap_err();
    assert_eq!(err, Error::InvalidDecayFactor);
    assert_eq!(tracker.get(&AgentId::Assistant).unwrap().score, 1000);
    // Factor one leaves everything in place; factor zero clears scores.
    tracker.apply_decay_all(1000).unwrap();
    assert_eq!(tracker.get(&AgentId::Assistant).unwrap().score, 1000);
    tracker.apply_decay_all(0).unwrap();
    assert_eq!(tracker.get(&AgentId::Assistant).unwrap().score, 0);
    assert_eq!(tracker.get(&AgentId::Assistant).unwrap().total_votes, 1);
}

#[test]
fn accuracy_of_zero_votes_is_defined_as_zero() {
    let mut tracker = ReputationTracker::new();
    let fresh = tracker.get_or_create(&AgentId::User);
    assert_eq!(fresh.total_votes, 0);
    assert_eq!(fresh.accuracy_permille(), 0);
    let again = Reputation::new(AgentId::System);
    assert_eq!(again.accuracy_permille(), 0);
}

#[test]
fn accuracy_is_correct_over_total_in_thousandths() {
    let mut tracker = ReputationTracker::new();
    tracker.record_outcome(&AgentId::Assistant, true);
    tracker.record_outcome(&AgentId::Assistant, true);
    tracker.record_outcome(&AgentId::Assistant, false);
    let assistant = tracker.get(&AgentId::Assistant).unwrap();
    assert_eq!(assistant.total_votes, 3);
    assert_eq!(assistant.correct_votes, 2);
    assert_eq!(assistant.accuracy_permille(), 666);
}

#[test]
fn leaderboard_is_sorted_by_score_descending() {
    let mut tracker = ReputationTracker::new();
    tracker.record_outcome(&AgentId::Llama, true);
    tracker.record_outcome(&AgentId::Assistant, true);
    tracker.record_outcome(&AgentId::Assistant, true);
    tracker.record_outcome(&AgentId::User, false);

    let board = tracker.leaderboard();
    assert_eq!(board.len(), 3);
    assert_eq!(board[0].agent, AgentId::Assistant);
    assert_eq!(board[0].score, 2000);
    assert_eq!(board[1].agent, AgentId::Llama);
    assert_eq!(board[1].score, 1000);
    assert_eq!(board[2].agent, AgentId::User);
    assert_eq!(board[2].score, 0);
}

#[test]
fn reset_clears_one_agent() {
    let mut tracker = ReputationTracker::new();
    tracker.record_outcome(&AgentId::Assistant, true);
    tracker.record_outcome(&AgentId::Llama, true);
    tracker.reset(&AgentId::Assistant);
    let assistant = tracker.get(&AgentId::Assistant).unwrap();
    assert_eq!((assistant.score, assistant.total_votes, assistant.correct_votes), (0, 0, 0));
    assert_eq!(tracker.get(&AgentId::Llama).unwrap().score, 1000);
}

#[test]
fn records_are_created_lazily() {
    let mut tracker = ReputationTracker::new();
    assert!(tracker.get(&AgentId::Assistant).is_none());
    tracker.record_outcome(&AgentId::Assistant, false);
    let assistant = tracker.get(&AgentId::Assistant).unwrap();
    assert_eq!(assistant.total_votes, 1);
    assert_eq!(assistant.correct_votes, 0);
    assert_eq!(assistant.score, 0);
}

#[test]
fn module_agents_have_their_own_records() {
    let mut tracker = ReputationTracker::new();
    let alpha = AgentId::Module("alpha".to_string());
    let beta = AgentId::Module("beta".to_string());
    tracker.record_outcome(&alpha, true);
    assert_eq!(tracker.get(&alpha).unwrap().correct_votes, 1);
    assert!(tracker.get(&beta).is_none());
}
