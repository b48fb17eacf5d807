//! Proposals: pending, not-yet-applied mutation requests awaiting votes.
//!
//! Each proposal moves through a state machine with one non-terminal state
//! (`Pending`) and four terminal ones (`Approved`, `Rejected`, `Withdrawn`,
//! `Expired`); no transition ever leaves a terminal state. Terminal
//! proposals carry their resolution timestamp and are retained for audit
//! until an explicit cleanup removes those older than a retention window.

use vstd::prelude::*;

use crate::capability::CapabilityConfig;
use crate::capability::CapabilityMode;
use crate::error::Error;
use crate::schema::AgentId;
use crate::schema::AgentIdV;
use crate::schema::NodeKind;
use crate::schema::Operation;
use crate::schema::Value;
use crate::schema::ValueV;
use crate::schema::clone_value;
use crate::schema::value_view;

verus! {

/// Lifecycle state of a proposal. `Pending` is the only non-terminal
/// state.
#[derive(Debug, Clone, Copy, PartialEq, Eq, Structural)]
pub enum ProposalStatus {
    Pending,
    Approved,
    Rejected,
    Withdrawn,
    Expired,
}

/// What a proposal acts on: an existing node or edge by id, or a new node
/// of a declared kind when no id exists yet.
#[derive(Debug, Clone, Copy, PartialEq, Eq)]
pub enum ProposalTarget {
    Node { id: Option<u64>, kind: Option<NodeKind> },
    Edge { id: Option<u64>, from: Option<u64>, to: Option<u64> },
}

/// A pending or resolved mutation request.
#[derive(Debug, PartialEq, Eq)]
pub struct Proposal {
    pub id: u64,
    pub proposer: AgentId,
    pub operation: Operation,
    pub target: ProposalTarget,
    pub payload: Value,
    pub rationale: Option<String>,
    pub status: ProposalStatus,
    pub created_at: i64,
    pub resolved_at: Option<i64>,
}

/// Mathematical view of a [`Proposal`].
pub struct ProposalV {
    pub id: u64,
    pub proposer: AgentIdV,
    pub operation: Operation,
    pub target: ProposalTarget,
    pub payload: ValueV,
    pub rationale: Option<Seq<char>>,
    pub status: ProposalStatus,
    pub created_at: i64,
    pub resolved_at: Option<i64>,
}

impl View for Proposal {
    type V = ProposalV;

    open spec fn view(&self) -> ProposalV {
        ProposalV {
            id: self.id,
            proposer: self.proposer@,
            operation: self.operation,
            target: self.target,
            payload: value_view(self.payload),
            rationale: self.rationale.deep_view(),
            status: self.status,
            created_at: self.created_at,
            resolved_at: self.resolved_at,
        }
    }
}

impl DeepView for Proposal {
    type V = ProposalV;

    open spec fn deep_view(&self) -> ProposalV {
        self.view()
    }
}

impl Clone for Proposal {
    fn clone(&self) -> (r: Self)
        ensures
            r@ == self@,
    {
        let rationale = match &self.rationale {
            Some(s) => Some(s.clone()),
            None => None,
        };
        Proposal {
            id: self.id,
            proposer: self.proposer.clone(),
            operation: self.operation,
            target: self.target,
            payload: clone_value(&self.payload),
            rationale,
            status: self.status,
            created_at: self.created_at,
            resolved_at: self.resolved_at,
        }
    }
}

/// Whether a status is terminal: every state but `Pending`.
pub open spec fn is_terminal(st: ProposalStatus) -> bool {
    st != ProposalStatus::Pending
}

/// Whether some proposal in `s` has id `id`.
pub open spec fn prop_has(s: Seq<ProposalV>, id: u64) -> bool {
    exists|i: int| 0 <= i < s.len() && s[i].id == id
}

/// The index of the proposal with id `id`.
pub open spec fn prop_index(s: Seq<ProposalV>, id: u64) -> int {
    choose|i: int| 0 <= i < s.len() && s[i].id == id
}

/// The proposal with id `id` (meaningful only when `prop_has`).
pub open spec fn prop_of(s: Seq<ProposalV>, id: u64) -> ProposalV {
    s[prop_index(s, id)]
}

/// `p` after an expiry pass at time `now` against horizon `expiry_ms`:
/// pending proposals whose age has reached the horizon become `Expired`,
/// everything else is untouched.
pub open spec fn expire_one(p: ProposalV, expiry_ms: i64, now: i64) -> ProposalV {
    if p.status is Pending && p.created_at + expiry_ms <= now {
        ProposalV { status: ProposalStatus::Expired, resolved_at: Some(now), ..p }
    } else {
        p
    }
}

/// Whether cleanup at time `now` with window `retention_ms` keeps `p`:
/// pending proposals always stay; a terminal one stays while its
/// resolution time is within the window.
pub open spec fn kept(p: ProposalV, retention_ms: i64, now: i64) -> bool {
    ||| p.status is Pending
    ||| match p.resolved_at {
        Some(t) => t + retention_ms >= now,
        None => true,
    }
}

/// The subsequence of `s` that cleanup keeps.
pub open spec fn retained(s: Seq<ProposalV>, retention_ms: i64, now: i64) -> Seq<ProposalV>
    decreases s.len(),
{
    if s.len() == 0 {
        Seq::empty()
    } else {
        let rest = retained(s.drop_last(), retention_ms, now);
        if kept(s.last(), retention_ms, now) {
            rest.push(s.last())
        } else {
            rest
        }
    }
}

/// The subsequence of `s` that is pending.
pub open spec fn pending_of(s: Seq<ProposalV>) -> Seq<ProposalV>
    decreases s.len(),
{
    if s.len() == 0 {
        Seq::empty()
    } else {
        let rest = pending_of(s.drop_last());
        if s.last().status is Pending {
            rest.push(s.last())
        } else {
            rest
        }
    }
}

/// Well-formedness of a proposal list: unique ids, every id below
/// `next_id`, and the resolution timestamp present exactly on terminal
/// proposals.
pub open spec fn props_wf(s: Seq<ProposalV>, next_id: u64) -> bool {
    &&& forall|i: int, j: int| 0 <= i < j < s.len() ==> s[i].id != s[j].id
    &&& forall|i: int| 0 <= i < s.len() ==> #[trigger] s[i].id < next_id
    &&& forall|i: int| 0 <= i < s.len() ==> ((#[trigger] s[i].status) is Pending <==> s[i].resolved_at is None)
}

/// Owns the set of proposals and their lifecycle. Resolution itself is
/// decided elsewhere (by the voting coordinator), which transitions
/// proposals through [`ProposalManager::resolve`].
#[derive(Debug)]
pub struct ProposalManager {
    pub proposals: Vec<Proposal>,
    pub next_id: u64,
    pub expiry_ms: i64,
}

/// Mathematical view of a [`ProposalManager`].
pub struct ManagerV {
    pub proposals: Seq<ProposalV>,
    pub next_id: u64,
    pub expiry_ms: i64,
}

impl View for ProposalManager {
    type V = ManagerV;

    open spec fn view(&self) -> ManagerV {
        ManagerV {
            proposals: self.proposals.deep_view(),
            next_id: self.next_id,
            expiry_ms: self.expiry_ms,
        }
    }
}

impl ManagerV {
    /// Well-formedness of the whole manager.
    pub open spec fn wf(self) -> bool {
        props_wf(self.proposals, self.next_id)
    }
}

impl ProposalManager {
    /// An empty manager whose expiry pass uses horizon `expiry_ms`
    /// (milliseconds).
    pub fn new(expiry_ms: i64) -> (r: Self)
        ensures
            r@.proposals.len() == 0,
            r@.next_id == 1,
            r@.expiry_ms == expiry_ms,
            r@.wf(),
    {
        ProposalManager { proposals: Vec::new(), next_id: 1, expiry_ms }
    }

    /// Submits a new proposal: assigns a fresh id, sets status `Pending`
    /// and the creation time, and returns the id. Rejected (with nothing
    /// inserted) when the proposer's capability mode is `Observer`.
    pub fn submit(
        &mut self,
        proposer: AgentId,
        operation: Operation,
        target: ProposalTarget,
        payload: Value,
        rationale: Option<String>,
        config: &CapabilityConfig,
        now: i64,
    ) -> (r: Result<u64, Error>)
        requires
            old(self)@.wf(),
            config@.wf(),
            old(self)@.next_id < u64::MAX,
        ensures
            final(self)@.wf(),
            final(self)@.expiry_ms == old(self)@.expiry_ms,
            r is Err <==> config@.caps_of(proposer@).mode is Observer,
            r is Err ==> r == Err::<u64, Error>(Error::ObserverCannotPropose) && final(self)@
                == old(self)@,
            r is Ok ==> r == Ok::<u64, Error>(old(self)@.next_id) && final(self)@.next_id == old(
                self,
            )@.next_id + 1 && final(self)@.proposals == old(self)@.proposals.push(
                ProposalV {
                    id: old(self)@.next_id,
                    proposer: proposer@,
                    operation: operation,
                    target: target,
                    payload: value_view(payload),
                    rationale: rationale.deep_view(),
                    status: ProposalStatus::Pending,
                    created_at: now,
                    resolved_at: None,
                },
            ),
    {
        let caps = config.get_capabilities(&proposer);
        if matches!(caps.mode, CapabilityMode::Observer) {
            return Err(Error::ObserverCannotPropose);
        }
        let ghost pre = self@;
        let id = self.next_id;
        let prop = Proposal {
            id,
            proposer,
            operation,
            target,
            payload,
            rationale,
            status: ProposalStatus::Pending,
            created_at: now,
            resolved_at: None,
        };
        let ghost pv = prop@;
        self.proposals.push(prop);
        self.next_id = id + 1;
        proof {
            assert(self@.proposals =~= pre.proposals.push(pv));
            assert(forall|j: int|
                0 <= j < pre.proposals.len() ==> self@.proposals[j] == pre.proposals[j]);
            assert(self@.wf());
        }
        Ok(id)
    }

    /// The proposal with id `id`, if any.
    #[verifier::loop_isolation(false)]
    pub fn get(&self, id: u64) -> (r: Option<Proposal>)
        requires
            self@.wf(),
        ensures
            r is Some <==> prop_has(self@.proposals, id),
            r is Some ==> r->0@ == prop_of(self@.proposals, id),
    {
        let n = self.proposals.len();
        let mut i: usize = 0;
        while i < n
            invariant
                n == self.proposals.len(),
                i <= n,
                forall|j: int| 0 <= j < i ==> self@.proposals[j].id != id,
            decreases n - i,
        {
            if self.proposals[i].id == id {
                proof {
                    let ghost di = i as int;
                    assert(self@.proposals[di].id == id);
                    assert(prop_has(self@.proposals, id));
                    let ghost k = prop_index(self@.proposals, id);
                    assert(self@.proposals[k].id == id);
                    assert(k == di);
                }
                return Some(self.proposals[i].clone());
            }
            i = i + 1;
        }
        None
    }

    /// Withdraws a pending proposal: `Pending` becomes `Withdrawn` with
    /// resolution time `now`. Fails when the id is unknown or the
    /// proposal is already terminal, with nothing changed.
    #[verifier::loop_isolation(false)]
    pub fn withdraw(&mut self, id: u64, now: i64) -> (r: Result<(), Error>)
        requires
            old(self)@.wf(),
        ensures
            final(self)@.wf(),
            final(self)@.next_id == old(self)@.next_id,
            final(self)@.expiry_ms == old(self)@.expiry_ms,
            !prop_has(old(self)@.proposals, id) ==> r == Err::<(), Error>(Error::ProposalNotFound)
                && final(self)@ == old(self)@,
            prop_has(old(self)@.proposals, id) && is_terminal(
                prop_of(old(self)@.proposals, id).status,
            ) ==> r == Err::<(), Error>(Error::ProposalNotPending) && final(self)@ == old(self)@,
            prop_has(old(self)@.proposals, id) && !is_terminal(
                prop_of(old(self)@.proposals, id).status,
            ) ==> r == Ok::<(), Error>(()) && final(self)@.proposals == old(
                self,
            )@.proposals.update(
                prop_index(old(self)@.proposals, id),
                ProposalV {
                    status: ProposalStatus::Withdrawn,
                    resolved_at: Some(now),
                    ..prop_of(old(self)@.proposals, id)
                },
            ),
    {
        self.transition(id, ProposalStatus::Withdrawn, now)
    }

    /// Resolves a pending proposal to `Approved` or `Rejected` with
    /// resolution time `now`. This is the only path by which external
    /// resolution logic (the voting coordinator) flips a status. Fails
    /// when the id is unknown or the proposal is already terminal, with
    /// nothing changed.
    pub fn resolve(&mut self, id: u64, approved: bool, now: i64) -> (r: Result<(), Error>)
        requires
            old(self)@.wf(),
        ensures
            final(self)@.wf(),
            final(self)@.next_id == old(self)@.next_id,
            final(self)@.expiry_ms == old(self)@.expiry_ms,
            !prop_has(old(self)@.proposals, id) ==> r == Err::<(), Error>(Error::ProposalNotFound)
                && final(self)@ == old(self)@,
            prop_has(old(self)@.proposals, id) && is_terminal(
                prop_of(old(self)@.proposals, id).status,
            ) ==> r == Err::<(), Error>(Error::ProposalNotPending) && final(self)@ == old(self)@,
            prop_has(old(self)@.proposals, id) && !is_terminal(
                prop_of(old(self)@.proposals, id).status,
            ) ==> r == Ok::<(), Error>(()) && final(self)@.proposals == old(
                self,
            )@.proposals.update(
                prop_index(old(self)@.proposals, id),
                ProposalV {
                    status: if approved {
                        ProposalStatus::Approved
                    } else {
                        ProposalStatus::Rejected
                    },
                    resolved_at: Some(now),
                    ..prop_of(old(self)@.proposals, id)
                },
            ),
    {
        let st = if approved {
            ProposalStatus::Approved
        } else {
            ProposalStatus::Rejected
        };
        self.transition(id, st, now)
    }

    /// Shared transition out of `Pending` into the terminal state `st`.
    #[verifier::loop_isolation(false)]
    fn transition(&mut self, id: u64, st: ProposalStatus, now: i64) -> (r: Result<(), Error>)
        requires
            old(self)@.wf(),
            is_terminal(st),
        ensures
            final(self)@.wf(),
            final(self)@.next_id == old(self)@.next_id,
            final(self)@.expiry_ms == old(self)@.expiry_ms,
            !prop_has(old(self)@.proposals, id) ==> r == Err::<(), Error>(Error::ProposalNotFound)
                && final(self)@ == old(self)@,
            prop_has(old(self)@.proposals, id) && is_terminal(
                prop_of(old(self)@.proposals, id).status,
            ) ==> r == Err::<(), Error>(Error::ProposalNotPending) && final(self)@ == old(self)@,
            prop_has(old(self)@.proposals, id) && !is_terminal(
                prop_of(old(self)@.proposals, id).status,
            ) ==> r == Ok::<(), Error>(()) && final(self)@.proposals == old(
                self,
            )@.proposals.update(
                prop_index(old(self)@.proposals, id),
                ProposalV {
                    status: st,
                    resolved_at: Some(now),
                    ..prop_of(old(self)@.proposals, id)
                },
            ),
    {
        let ghost pre = self@;
        let n = self.proposals.len();
        let mut i: usize = 0;
        while i < n
            invariant
                n == self.proposals.len(),
                self@ == pre,
                i <= n,
                forall|j: int| 0 <= j < i ==> self@.proposals[j].id != id,
            decreases n - i,
        {
            if self.proposals[i].id == id {
                proof {
                    let ghost di = i as int;
                    assert(pre.proposals[di].id == id);
                    assert(prop_has(pre.proposals, id));
                    let ghost k = prop_index(pre.proposals, id);
                    assert(pre.proposals[k].id == id);
                    assert(k == di);
                }
                if !matches!(self.proposals[i].status, ProposalStatus::Pending) {
                    return Err(Error::ProposalNotPending);
                }
                let p = &self.proposals[i];
                let updated = Proposal {
                    id: p.id,
                    proposer: p.proposer.clone(),
                    operation: p.operation,
                    target: p.target,
                    payload: clone_value(&p.payload),
                    rationale: match &p.rationale {
                        Some(s) => Some(s.clone()),
                        None => None,
                    },
                    status: st,
                    created_at: p.created_at,
                    resolved_at: Some(now),
                };
                self.proposals.set(i, updated);
                proof {
                    let ghost di = i as int;
                    assert(self@.proposals =~= pre.proposals.update(
                        di,
                        ProposalV {
                            status: st,
                            resolved_at: Some(now),
                            ..prop_of(pre.proposals, id)
                        },
                    ));
                    assert(forall|j: int|
                        0 <= j < n && j != di ==> self@.proposals[j] == pre.proposals[j]);
                    assert(self@.wf());
                }
                return Ok(());
            }
            i = i + 1;
        }
        proof {
            assert(!prop_has(pre.proposals, id));
        }
        Err(Error::ProposalNotFound)
    }

    /// One expiry pass at time `now`: every pending proposal whose age
    /// has reached the configured horizon becomes `Expired` with
    /// resolution time `now`; everything else is untouched. Running the
    /// pass twice at the same time changes nothing more (see
    /// [`lemma_expire_idempotent`]).
    #[verifier::loop_isolation(false)]
    pub fn expire_old(&mut self, now: i64)
        requires
            old(self)@.wf(),
        ensures
            final(self)@.wf(),
            final(self)@.next_id == old(self)@.next_id,
            final(self)@.expiry_ms == old(self)@.expiry_ms,
            final(self)@.proposals.len() == old(self)@.proposals.len(),
            forall|i: int|
                0 <= i < old(self)@.proposals.len() ==> final(self)@.proposals[i] == expire_one(
                    old(self)@.proposals[i],
                    old(self)@.expiry_ms,
                    now,
                ),
    {
        let ghost pre = self@;
        let n = self.proposals.len();
        let mut i: usize = 0;
        while i < n
            invariant
                n == self.proposals.len(),
                self@.proposals.len() == pre.proposals.len(),
                self@.next_id == pre.next_id,
                self@.expiry_ms == pre.expiry_ms,
                i <= n,
                forall|j: int| i <= j < n ==> self@.proposals[j] == pre.proposals[j],
                forall|j: int|
                    0 <= j < i ==> self@.proposals[j] == expire_one(
                        pre.proposals[j],
                        pre.expiry_ms,
                        now,
                    ),
            decreases n - i,
        {
            let is_pending = matches!(self.proposals[i].status, ProposalStatus::Pending);
            let age_reached = (now as i128) - (self.proposals[i].created_at as i128) >= (
            self.expiry_ms as i128);
            if is_pending && age_reached {
                let p = &self.proposals[i];
                let updated = Proposal {
                    id: p.id,
                    proposer: p.proposer.clone(),
                    operation: p.operation,
                    target: p.target,
                    payload: clone_value(&p.payload),
                    rationale: match &p.rationale {
                        Some(s) => Some(s.clone()),
                        None => None,
                    },
                    status: ProposalStatus::Expired,
                    created_at: p.created_at,
                    resolved_at: Some(now),
                };
                let ghost prev = self@.proposals;
                self.proposals.set(i, updated);
                proof {
                    assert(self@.proposals =~= prev.update(i as int, updated@));
                    assert(forall|j: int|
                        0 <= j < n && j != i ==> self@.proposals[j] == prev[j]);
                    assert(self@.proposals[i as int] == expire_one(
                        pre.proposals[i as int],
                        pre.expiry_ms,
                        now,
                    ));
                }
            } else {
                proof {
                    assert(self@.proposals[i as int] == expire_one(
                        pre.proposals[i as int],
                        pre.expiry_ms,
                        now,
                    ));
                }
            }
            i = i + 1;
        }
        proof {
            assert(self@.wf());
        }
    }

    /// Removes every terminal proposal whose resolution time lies more
    /// than `retention_ms` before `now`. Pending proposals are never
    /// removed.
    #[verifier::loop_isolation(false)]
    pub fn cleanup(&mut self, retention_ms: i64, now: i64)
        requires
            old(self)@.wf(),
        ensures
            final(self)@.wf(),
            final(self)@.next_id == old(self)@.next_id,
            final(self)@.expiry_ms == old(self)@.expiry_ms,
            final(self)@.proposals == retained(old(self)@.proposals, retention_ms, now),
    {
        let ghost pre = self@;
        let n = self.proposals.len();
        let mut out: Vec<Proposal> = Vec::new();
        let mut i: usize = 0;
        while i < n
            invariant
                n == self.proposals.len(),
                self@ == pre,
                i <= n,
                out.deep_view() == retained(
                    pre.proposals.subrange(0, i as int),
                    retention_ms,
                    now,
                ),
            decreases n - i,
        {
            let keep = match (
                matches!(self.proposals[i].status, ProposalStatus::Pending),
                &self.proposals[i].resolved_at,
            ) {
                (true, _) => true,
                (false, Some(t)) => {
                    (*t as i128) + (retention_ms as i128) >= (now as i128)
                },
                (false, None) => true,
            };
            let ghost prev = out.deep_view();
            if keep {
                out.push(self.proposals[i].clone());
                proof {
                    assert(out.deep_view() =~= prev.push(pre.proposals[i as int]));
                }
            }
            proof {
                assert(pre.proposals.subrange(0, i + 1).drop_last() =~= pre.proposals.subrange(
                    0,
                    i as int,
                ));
                assert(pre.proposals.subrange(0, i + 1).last() == pre.proposals[i as int]);
                assert(kept(pre.proposals[i as int], retention_ms, now) == keep);
            }
            i = i + 1;
        }
        self.proposals = out;
        proof {
            assert(pre.proposals.subrange(0, n as int) =~= pre.proposals);
            lemma_retained_wf(pre.proposals, retention_ms, now, pre.next_id);
        }
    }

    /// Clones of all pending proposals, in insertion order.
    #[verifier::loop_isolation(false)]
    pub fn pending(&self) -> (r: Vec<Proposal>)
        ensures
            r.deep_view() == pending_of(self@.proposals),
    {
        let n = self.proposals.len();
        let mut out: Vec<Proposal> = Vec::new();
        let mut i: usize = 0;
        while i < n
            invariant
                n == self.proposals.len(),
                i <= n,
                out.deep_view() == pending_of(self@.proposals.subrange(0, i as int)),
            decreases n - i,
        {
            let ghost prev = out.deep_view();
            if matches!(self.proposals[i].status, ProposalStatus::Pending) {
                out.push(self.proposals[i].clone());
                proof {
                    assert(out.deep_view() =~= prev.push(self@.proposals[i as int]));
                }
            }
            proof {
                assert(self@.proposals.subrange(0, i + 1).drop_last() =~= self@.proposals.subrange(
                    0,
                    i as int,
                ));
                assert(self@.proposals.subrange(0, i + 1).last() == self@.proposals[i as int]);
            }
            i = i + 1;
        }
        proof {
            assert(self@.proposals.subrange(0, n as int) =~= self@.proposals);
        }
        out
    }

    /// Clones of all proposals, in insertion order.
    #[verifier::loop_isolation(false)]
    pub fn all(&self) -> (r: Vec<Proposal>)
        ensures
            r.deep_view() == self@.proposals,
    {
        let n = self.proposals.len();
        let mut out: Vec<Proposal> = Vec::new();
        let mut i: usize = 0;
        while i < n
            invariant
                n == self.proposals.len(),
                i <= n,
                out.deep_view() =~= self@.proposals.subrange(0, i as int),
            decreases n - i,
        {
            out.push(self.proposals[i].clone());
            i = i + 1;
        }
        proof {
            assert(self@.proposals.subrange(0, n as int) =~= self@.proposals);
        }
        out
    }
}

/// Every id in the retained subsequence already occurs in the original
/// sequence.
proof fn lemma_retained_ids(s: Seq<ProposalV>, retention_ms: i64, now: i64)
    ensures
        forall|k: int|
            0 <= k < retained(s, retention_ms, now).len() ==> exists|j: int|
                0 <= j < s.len() && s[j] == #[trigger] retained(s, retention_ms, now)[k],
    decreases s.len(),
{
    if s.len() > 0 {
        lemma_retained_ids(s.drop_last(), retention_ms, now);
        let r = retained(s, retention_ms, now);
        let rr = retained(s.drop_last(), retention_ms, now);
        assert forall|k: int| 0 <= k < r.len() implies exists|j: int|
            0 <= j < s.len() && s[j] == #[trigger] r[k] by {
            if k < rr.len() {
                let j = choose|j: int| 0 <= j < s.drop_last().len() && s.drop_last()[j] == rr[k];
                assert(s[j] == rr[k]);
                assert(r[k] == rr[k]);
            } else {
                assert(r[k] == s.last());
                assert(s[s.len() - 1] == s.last());
            }
        }
    }
}

/// Cleanup preserves well-formedness.
proof fn lemma_retained_wf(s: Seq<ProposalV>, retention_ms: i64, now: i64, next_id: u64)
    requires
        props_wf(s, next_id),
    ensures
        props_wf(retained(s, retention_ms, now), next_id),
    decreases s.len(),
{
    if s.len() > 0 {
        lemma_retained_wf(s.drop_last(), retention_ms, now, next_id);
        let r = retained(s, retention_ms, now);
        let rr = retained(s.drop_last(), retention_ms, now);
        lemma_retained_ids(s.drop_last(), retention_ms, now);
        if kept(s.last(), retention_ms, now) {
            assert forall|i: int, j: int| 0 <= i < j < r.len() implies r[i].id != r[j].id by {
                if j < rr.len() {
                    assert(r[i] == rr[i] && r[j] == rr[j]);
                } else {
                    assert(r[j] == s.last());
                    assert(r[i] == rr[i]);
                    let m = choose|m: int|
                        0 <= m < s.drop_last().len() && s.drop_last()[m] == rr[i];
                    assert(s[m] == rr[i]);
                    assert(s[m].id != s[s.len() - 1].id);
                }
            }
        }
    }
}

/// Cleanup never removes a pending proposal: every pending proposal of
/// the original list stands in the retained list.
pub proof fn lemma_cleanup_keeps_pending(s: Seq<ProposalV>, retention_ms: i64, now: i64)
    ensures
        forall|i: int|
            0 <= i < s.len() && (#[trigger] s[i].status) is Pending ==> retained(
                s,
                retention_ms,
                now,
            ).contains(s[i]),
    decreases s.len(),
{
    if s.len() > 0 {
        lemma_cleanup_keeps_pending(s.drop_last(), retention_ms, now);
        let r = retained(s, retention_ms, now);
        let rr = retained(s.drop_last(), retention_ms, now);
        assert forall|i: int|
            0 <= i < s.len() && (#[trigger] s[i].status) is Pending implies r.contains(s[i]) by {
            if i == s.len() - 1 {
                assert(kept(s.last(), retention_ms, now));
                assert(r.last() == s.last());
                assert(r.contains(s[i]));
            } else {
                assert(s.drop_last()[i] == s[i]);
                assert(rr.contains(s[i]));
                let j = choose|j: int| 0 <= j < rr.len() && rr[j] == s[i];
                if kept(s.last(), retention_ms, now) {
                    assert(r[j] == rr[j]);
                } else {
                    assert(r == rr);
                }
                assert(r.contains(s[i]));
            }
        }
    }
}

/// A second expiry pass at the same time is a no-op: expiry is
/// idempotent.
pub proof fn lemma_expire_idempotent(p: ProposalV, expiry_ms: i64, now: i64)
    ensures
        expire_one(expire_one(p, expiry_ms, now), expiry_ms, now) == expire_one(
            p,
            expiry_ms,
            now,
        ),
{
}

} // verus!
