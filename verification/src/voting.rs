//! Vote recording, tallying and resolution.
//!
//! A ballot names a proposal, a voter and a decision. A voter casts at
//! most one effective ballot per proposal: a later ballot from the same
//! voter supersedes the earlier one in place, so the display order is the
//! insertion order of first cast while the value is the latest. Votes are
//! accepted only while the proposal is pending and only from agents whose
//! capability record allows voting.
//!
//! Tallying is deterministic: every non-abstaining ballot contributes its
//! voter's configured vote weight (fixed-point thousandths) to its
//! decision's bucket; abstentions are counted but carry no weight. The
//! scaling policy is fixed and explicit: the tally uses the configured
//! weight alone, with no reputation scaling. The configured strategy maps
//! a tally to no resolution, approval, or rejection; ties never resolve.
//! On resolution the coordinator transitions the proposal and records one
//! outcome per non-abstaining voter with the reputation tracker.

use vstd::prelude::*;

use crate::capability::CapabilityConfig;
use crate::capability::ConfigV;
use crate::error::Error;
use crate::proposal::ProposalManager;
use crate::proposal::ProposalStatus;
use crate::proposal::is_terminal;
use crate::proposal::prop_has;
use crate::proposal::prop_index;
use crate::proposal::prop_of;
use crate::reputation::RepV;
use crate::reputation::ReputationTracker;
use crate::reputation::apply_outcome;
use crate::reputation::rep_has;
use crate::reputation::rep_index;
use crate::reputation::rep_of;
use crate::reputation::reps_wf;
use crate::reputation::zero_rep;
use crate::schema::AgentId;
use crate::schema::AgentIdV;

verus! {

/// An agent's stance on a proposal.
#[derive(Debug, Clone, Copy, PartialEq, Eq, Structural)]
pub enum VoteDecision {
    Approve,
    Reject,
    Abstain,
}

/// One ballot: a decision by one voter on one proposal.
#[derive(Debug, PartialEq, Eq)]
pub struct Vote {
    pub proposal_id: u64,
    pub voter: AgentId,
    pub decision: VoteDecision,
    pub reason: Option<String>,
    pub timestamp: i64,
}

/// Mathematical view of a [`Vote`].
pub struct VoteV {
    pub proposal_id: u64,
    pub voter: AgentIdV,
    pub decision: VoteDecision,
    pub reason: Option<Seq<char>>,
    pub timestamp: i64,
}

impl View for Vote {
    type V = VoteV;

    open spec fn view(&self) -> VoteV {
        VoteV {
            proposal_id: self.proposal_id,
            voter: self.voter@,
            decision: self.decision,
            reason: self.reason.deep_view(),
            timestamp: self.timestamp,
        }
    }
}

impl DeepView for Vote {
    type V = VoteV;

    open spec fn deep_view(&self) -> VoteV {
        self.view()
    }
}

impl Clone for Vote {
    fn clone(&self) -> (r: Self)
        ensures
            r@ == self@,
    {
        Vote {
            proposal_id: self.proposal_id,
            voter: self.voter.clone(),
            decision: self.decision,
            reason: match &self.reason {
                Some(s) => Some(s.clone()),
                None => None,
            },
            timestamp: self.timestamp,
        }
    }
}

/// The deterministic rule mapping a weighted tally to a resolution.
/// Weights and quorums are fixed-point values in thousandths.
#[derive(Debug, Clone, Copy, PartialEq, Eq, Structural)]
pub enum VotingStrategy {
    /// Resolves once the cast (non-abstaining) weight reaches `quorum`;
    /// the heavier bucket then wins, and a tie leaves the proposal
    /// unresolved.
    SimpleMajority { quorum: u64 },
    /// Any rejecting weight resolves to `Rejected`; otherwise approval
    /// needs at least `quorum` approving weight with no rejection.
    Unanimous { quorum: u64 },
}

/// The resolution a strategy yields for approving weight `approve` and
/// rejecting weight `reject`: `None` (still undecided), `Some(true)`
/// (approve) or `Some(false)` (reject). Ties never resolve.
pub open spec fn decide(strategy: VotingStrategy, approve: int, reject: int) -> Option<bool> {
    match strategy {
        VotingStrategy::SimpleMajority { quorum } => {
            if approve + reject >= quorum && approve != reject {
                Some(approve > reject)
            } else {
                None
            }
        },
        VotingStrategy::Unanimous { quorum } => {
            if reject > 0 {
                Some(false)
            } else if approve >= quorum {
                Some(true)
            } else {
                None
            }
        },
    }
}

/// Whether `s` holds a ballot by `voter` on proposal `pid`.
pub open spec fn vote_has(s: Seq<VoteV>, pid: u64, voter: AgentIdV) -> bool {
    exists|i: int| 0 <= i < s.len() && s[i].proposal_id == pid && s[i].voter == voter
}

/// The index of the ballot by `voter` on proposal `pid`.
pub open spec fn vote_index(s: Seq<VoteV>, pid: u64, voter: AgentIdV) -> int {
    choose|i: int| 0 <= i < s.len() && s[i].proposal_id == pid && s[i].voter == voter
}

/// The ballot list after recording `v`: a ballot by the same voter on the
/// same proposal is superseded in place, otherwise `v` is appended.
pub open spec fn record_vote(s: Seq<VoteV>, v: VoteV) -> Seq<VoteV> {
    if vote_has(s, v.proposal_id, v.voter) {
        s.update(vote_index(s, v.proposal_id, v.voter), v)
    } else {
        s.push(v)
    }
}

/// Well-formedness of a ballot list: at most one ballot per
/// (proposal, voter) pair.
pub open spec fn votes_wf(s: Seq<VoteV>) -> bool {
    forall|i: int, j: int|
        0 <= i < j < s.len() ==> !(s[i].proposal_id == s[j].proposal_id && s[i].voter
            == s[j].voter)
}

/// The ballots on proposal `pid`, in list order.
pub open spec fn votes_for(s: Seq<VoteV>, pid: u64) -> Seq<VoteV>
    decreases s.len(),
{
    if s.len() == 0 {
        Seq::empty()
    } else {
        let rest = votes_for(s.drop_last(), pid);
        if s.last().proposal_id == pid {
            rest.push(s.last())
        } else {
            rest
        }
    }
}

/// The total weight cast for `Approve` on proposal `pid`: each approving
/// ballot contributes its voter's configured weight.
pub open spec fn approve_weight(s: Seq<VoteV>, cfg: ConfigV, pid: u64) -> int
    decreases s.len(),
{
    if s.len() == 0 {
        0
    } else {
        approve_weight(s.drop_last(), cfg, pid) + if s.last().proposal_id == pid
            && s.last().decision is Approve {
            cfg.caps_of(s.last().voter).vote_weight as int
        } else {
            0
        }
    }
}

/// The total weight cast for `Reject` on proposal `pid`.
pub open spec fn reject_weight(s: Seq<VoteV>, cfg: ConfigV, pid: u64) -> int
    decreases s.len(),
{
    if s.len() == 0 {
        0
    } else {
        reject_weight(s.drop_last(), cfg, pid) + if s.last().proposal_id == pid
            && s.last().decision is Reject {
            cfg.caps_of(s.last().voter).vote_weight as int
        } else {
            0
        }
    }
}

/// The number of abstaining ballots on proposal `pid`.
pub open spec fn abstain_count(s: Seq<VoteV>, pid: u64) -> int
    decreases s.len(),
{
    if s.len() == 0 {
        0
    } else {
        abstain_count(s.drop_last(), pid) + if s.last().proposal_id == pid
            && s.last().decision is Abstain {
            1int
        } else {
            0int
        }
    }
}

/// Whether ballot decision `d` agrees with a resolution (`true` for
/// approval).
pub open spec fn agrees(d: VoteDecision, approved: bool) -> bool {
    if approved {
        d is Approve
    } else {
        d is Reject
    }
}

/// One step of the reputation credit pass for the resolution of `pid`:
/// a non-abstaining ballot on `pid` records one outcome for its voter;
/// any other ballot changes nothing.
pub open spec fn credit_step(t: Seq<RepV>, v: VoteV, pid: u64, approved: bool) -> Seq<RepV> {
    if v.proposal_id == pid && !(v.decision is Abstain) {
        if rep_has(t, v.voter) {
            t.update(
                rep_index(t, v.voter),
                apply_outcome(rep_of(t, v.voter), agrees(v.decision, approved)),
            )
        } else {
            t.push(apply_outcome(zero_rep(v.voter), agrees(v.decision, approved)))
        }
    } else {
        t
    }
}

/// The reputation state after crediting every ballot of `s` in order for
/// the resolution of `pid`.
pub open spec fn credited(t: Seq<RepV>, s: Seq<VoteV>, pid: u64, approved: bool) -> Seq<RepV>
    decreases s.len(),
{
    if s.len() == 0 {
        t
    } else {
        credit_step(credited(t, s.drop_last(), pid, approved), s.last(), pid, approved)
    }
}

/// Records ballots, tallies them under a configurable strategy, and
/// resolves proposals.
#[derive(Debug)]
pub struct VotingCoordinator {
    pub votes: Vec<Vote>,
    pub strategy: VotingStrategy,
}

/// Mathematical view of a [`VotingCoordinator`].
pub struct CoordV {
    pub votes: Seq<VoteV>,
    pub strategy: VotingStrategy,
}

impl View for VotingCoordinator {
    type V = CoordV;

    open spec fn view(&self) -> CoordV {
        CoordV { votes: self.votes.deep_view(), strategy: self.strategy }
    }
}

impl VotingCoordinator {
    /// A coordinator with no ballots under the given strategy.
    pub fn new(strategy: VotingStrategy) -> (r: Self)
        ensures
            r@.votes.len() == 0,
            r@.strategy == strategy,
            votes_wf(r@.votes),
    {
        VotingCoordinator { votes: Vec::new(), strategy }
    }

    /// Clones of the ballots on proposal `pid`, in insertion order of
    /// first cast (each holding the latest superseding value).
    #[verifier::loop_isolation(false)]
    pub fn get_votes(&self, pid: u64) -> (r: Vec<Vote>)
        ensures
            r.deep_view() == votes_for(self@.votes, pid),
    {
        let n = self.votes.len();
        let mut out: Vec<Vote> = Vec::new();
        let mut i: usize = 0;
        while i < n
            invariant
                n == self.votes.len(),
                i <= n,
                out.deep_view() == votes_for(self@.votes.subrange(0, i as int), pid),
            decreases n - i,
        {
            let ghost prev = out.deep_view();
            if self.votes[i].proposal_id == pid {
                out.push(self.votes[i].clone());
                proof {
                    assert(out.deep_view() =~= prev.push(self@.votes[i as int]));
                }
            }
            proof {
                assert(self@.votes.subrange(0, i + 1).drop_last() =~= self@.votes.subrange(
                    0,
                    i as int,
                ));
                assert(self@.votes.subrange(0, i + 1).last() == self@.votes[i as int]);
            }
            i = i + 1;
        }
        proof {
            assert(self@.votes.subrange(0, n as int) =~= self@.votes);
        }
        out
    }

    /// Records `vote`, superseding any earlier ballot by the same voter on
    /// the same proposal in place.
    #[verifier::loop_isolation(false)]
    fn record(&mut self, vote: Vote)
        requires
            votes_wf(old(self)@.votes),
        ensures
            votes_wf(final(self)@.votes),
            final(self)@.strategy == old(self)@.strategy,
            final(self)@.votes == record_vote(old(self)@.votes, vote@),
    {
        let ghost pre = self@.votes;
        let ghost vv = vote@;
        let n = self.votes.len();
        let mut i: usize = 0;
        while i < n
            invariant
                n == self.votes.len(),
                self@.votes == pre,
                self@.strategy == old(self)@.strategy,
                i <= n,
                forall|j: int|
                    0 <= j < i ==> !(pre[j].proposal_id == vv.proposal_id && pre[j].voter
                        == vv.voter),
            decreases n - i,
        {
            if self.votes[i].proposal_id == vote.proposal_id && self.votes[i].voter == vote.voter {
                proof {
                    let ghost di = i as int;
                    assert(pre[di].proposal_id == vv.proposal_id && pre[di].voter == vv.voter);
                    assert(vote_has(pre, vv.proposal_id, vv.voter));
                    let ghost k = vote_index(pre, vv.proposal_id, vv.voter);
                    assert(pre[k].proposal_id == vv.proposal_id && pre[k].voter == vv.voter);
                    assert(k == di);
                }
                self.votes.set(i, vote);
                proof {
                    assert(self@.votes =~= pre.update(i as int, vv));
                    assert(forall|j: int|
                        0 <= j < n && j != i ==> self@.votes[j] == pre[j]);
                    assert(votes_wf(self@.votes));
                }
                return ;
            }
            i = i + 1;
        }
        proof {
            assert(!vote_has(pre, vv.proposal_id, vv.voter));
        }
        self.votes.push(vote);
        proof {
            assert(self@.votes =~= pre.push(vv));
            assert(forall|j: int| 0 <= j < pre.len() ==> self@.votes[j] == pre[j]);
            assert(votes_wf(self@.votes));
        }
    }

    /// The deterministic weighted tally for proposal `pid` under `config`:
    /// approving weight, rejecting weight, and the abstention count. The
    /// tally uses each voter's configured weight alone (no reputation
    /// scaling).
    #[verifier::loop_isolation(false)]
    pub fn tally(&self, pid: u64, config: &CapabilityConfig) -> (r: (u128, u128, usize))
        requires
            config@.wf(),
        ensures
            r.0 == approve_weight(self@.votes, config@, pid),
            r.1 == reject_weight(self@.votes, config@, pid),
            r.2 == abstain_count(self@.votes, pid),
            r.0 + r.1 <= self@.votes.len() * (u64::MAX as int),
    {
        let n = self.votes.len();
        let mut approve: u128 = 0;
        let mut reject: u128 = 0;
        let mut abstains: usize = 0;
        let mut i: usize = 0;
        while i < n
            invariant
                n == self.votes.len(),
                i <= n,
                approve == approve_weight(self@.votes.subrange(0, i as int), config@, pid),
                reject == reject_weight(self@.votes.subrange(0, i as int), config@, pid),
                abstains == abstain_count(self@.votes.subrange(0, i as int), pid),
                approve + reject <= i * (u64::MAX as int),
                abstains <= i,
            decreases n - i,
        {
            proof {
                assert(self@.votes.subrange(0, i + 1).drop_last() =~= self@.votes.subrange(
                    0,
                    i as int,
                ));
                assert(self@.votes.subrange(0, i + 1).last() == self@.votes[i as int]);
            }
            let v = &self.votes[i];
            if v.proposal_id == pid {
                match v.decision {
                    VoteDecision::Approve => {
                        let caps = config.get_capabilities(&v.voter);
                        approve = approve + caps.vote_weight as u128;
                    },
                    VoteDecision::Reject => {
                        let caps = config.get_capabilities(&v.voter);
                        reject = reject + caps.vote_weight as u128;
                    },
                    VoteDecision::Abstain => {
                        abstains = abstains + 1;
                    },
                }
            }
            i = i + 1;
        }
        proof {
            assert(self@.votes.subrange(0, n as int) =~= self@.votes);
        }
        (approve, reject, abstains)
    }

    /// Casts a ballot and resolves the proposal when the resulting tally
    /// is decisive under the configured strategy.
    ///
    /// Validation happens before any state changes: the proposal must
    /// exist and be pending, and the voter's capability record must allow
    /// voting. On acceptance the ballot supersedes any earlier ballot by
    /// the same voter on the same proposal. If the new tally resolves,
    /// exactly one transition to `Approved` or `Rejected` happens (via
    /// the proposal manager) and the reputation tracker records one
    /// outcome per non-abstaining ballot on the proposal; the returned
    /// status is the proposal's status after the call.
    pub fn cast_vote(
        &mut self,
        vote: Vote,
        config: &CapabilityConfig,
        manager: &mut ProposalManager,
        tracker: &mut ReputationTracker,
        now: i64,
    ) -> (r: Result<ProposalStatus, Error>)
        requires
            votes_wf(old(self)@.votes),
            config@.wf(),
            old(manager)@.wf(),
            reps_wf(old(tracker)@),
        ensures
            votes_wf(final(self)@.votes),
            final(self)@.strategy == old(self)@.strategy,
            final(manager)@.wf(),
            final(manager)@.next_id == old(manager)@.next_id,
            final(manager)@.expiry_ms == old(manager)@.expiry_ms,
            reps_wf(final(tracker)@),
            r == Err::<ProposalStatus, Error>(Error::ProposalNotFound) <==> !prop_has(
                old(manager)@.proposals,
                vote@.proposal_id,
            ),
            r == Err::<ProposalStatus, Error>(Error::ProposalNotPending) <==> prop_has(
                old(manager)@.proposals,
                vote@.proposal_id,
            ) && is_terminal(prop_of(old(manager)@.proposals, vote@.proposal_id).status),
            r == Err::<ProposalStatus, Error>(Error::VoterCannotVote) <==> prop_has(
                old(manager)@.proposals,
                vote@.proposal_id,
            ) && !is_terminal(prop_of(old(manager)@.proposals, vote@.proposal_id).status)
                && !config@.caps_of(vote@.voter).can_vote,
            r is Ok <==> prop_has(old(manager)@.proposals, vote@.proposal_id) && !is_terminal(
                prop_of(old(manager)@.proposals, vote@.proposal_id).status,
            ) && config@.caps_of(vote@.voter).can_vote,
            r is Err ==> final(self)@ == old(self)@ && final(manager)@ == old(manager)@
                && final(tracker)@ == old(tracker)@,
            r is Ok ==> ({
                let votes1 = record_vote(old(self)@.votes, vote@);
                let pid = vote@.proposal_id;
                let a = approve_weight(votes1, config@, pid);
                let rj = reject_weight(votes1, config@, pid);
                &&& final(self)@.votes == votes1
                &&& match decide(old(self)@.strategy, a, rj) {
                    None => {
                        &&& r == Ok::<ProposalStatus, Error>(ProposalStatus::Pending)
                        &&& final(manager)@ == old(manager)@
                        &&& final(tracker)@ == old(tracker)@
                    },
                    Some(approved) => {
                        &&& r == Ok::<ProposalStatus, Error>(
                            if approved {
                                ProposalStatus::Approved
                            } else {
                                ProposalStatus::Rejected
                            },
                        )
                        &&& final(manager)@.proposals == old(manager)@.proposals.update(
                            prop_index(old(manager)@.proposals, pid),
                            crate::proposal::ProposalV {
                                status: if approved {
                                    ProposalStatus::Approved
                                } else {
                                    ProposalStatus::Rejected
                                },
                                resolved_at: Some(now),
                                ..prop_of(old(manager)@.proposals, pid)
                            },
                        )
                        &&& final(tracker)@ == credited(old(tracker)@, votes1, pid, approved)
                    },
                }
            }),
    {
        let pid = vote.proposal_id;
        let existing = manager.get(pid);
        match &existing {
            None => {
                return Err(Error::ProposalNotFound);
            },
            Some(p) => {
                if !matches!(p.status, ProposalStatus::Pending) {
                    return Err(Error::ProposalNotPending);
                }
            },
        }
        let caps = config.get_capabilities(&vote.voter);
        if !caps.can_vote {
            return Err(Error::VoterCannotVote);
        }
        self.record(vote);
        let ghost votes1 = self@.votes;
        let (approve, reject, _abstains) = self.tally(pid, config);
        let resolution = decide_exec(self.strategy, approve, reject, self.votes.len());
        match resolution {
            None => Ok(ProposalStatus::Pending),
            Some(approved) => {
                let res = manager.resolve(pid, approved, now);
                proof {
                    assert(res is Ok);
                }
                let ghost t0 = tracker@;
                let n = self.votes.len();
                let mut i: usize = 0;
                while i < n
                    invariant
                        n == self.votes.len(),
                        self@.votes == votes1,
                        i <= n,
                        reps_wf(tracker@),
                        tracker@ == credited(t0, votes1.subrange(0, i as int), pid, approved),
                    decreases n - i,
                {
                    proof {
                        assert(votes1.subrange(0, i + 1).drop_last() =~= votes1.subrange(
                            0,
                            i as int,
                        ));
                        assert(votes1.subrange(0, i + 1).last() == votes1[i as int]);
                    }
                    let v = &self.votes[i];
                    if v.proposal_id == pid && !matches!(v.decision, VoteDecision::Abstain) {
                        let correct = matches!(v.decision, VoteDecision::Approve) == approved;
                        proof {
                            assert(correct == agrees(votes1[i as int].decision, approved));
                        }
                        tracker.record_outcome(&v.voter, correct);
                    }
                    i = i + 1;
                }
                proof {
                    assert(votes1.subrange(0, n as int) =~= votes1);
                }
                if approved {
                    Ok(ProposalStatus::Approved)
                } else {
                    Ok(ProposalStatus::Rejected)
                }
            },
        }
    }
}

/// Exec mirror of [`decide`]; `len` bounds the tally so that the quorum
/// comparison cannot overflow.
fn decide_exec(strategy: VotingStrategy, approve: u128, reject: u128, len: usize) -> (r: Option<
    bool,
>)
    requires
        approve + reject <= len * (u64::MAX as int),
    ensures
        r == decide(strategy, approve as int, reject as int),
{
    proof {
        assert(len as int <= u64::MAX as int);
        assert(len * (u64::MAX as int) <= (u64::MAX as int) * (u64::MAX as int))
            by (nonlinear_arith)
            requires
                len as int <= u64::MAX as int,
        ;
        assert((u64::MAX as int) * (u64::MAX as int) < u128::MAX as int) by (nonlinear_arith);
    }
    match strategy {
        VotingStrategy::SimpleMajority { quorum } => {
            if approve + reject >= quorum as u128 && approve != reject {
                Some(approve > reject)
            } else {
                None
            }
        },
        VotingStrategy::Unanimous { quorum } => {
            if reject > 0 {
                Some(false)
            } else if approve >= quorum as u128 {
                Some(true)
            } else {
                None
            }
        },
    }
}

} // verus!
