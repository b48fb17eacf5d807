//! Reputation tracking: a per-agent record of how often the agent's votes
//! agreed with proposals' final resolutions, and a score derived from it.
//!
//! Scoring policy (explicit and fixed): every resolved, non-abstaining
//! ballot increments the voter's `total_votes`; when the ballot's decision
//! equals the resolution, `correct_votes` increments and the score gains a
//! fixed credit of [`CORRECT_VOTE_CREDIT`] (one, in fixed-point
//! thousandths). Absent decay, the score therefore equals
//! `CORRECT_VOTE_CREDIT * correct_votes`, which for a fixed vote count is
//! monotonically non-decreasing in accuracy. Decay multiplies every score
//! by a factor in `[0, 1]` (in thousandths) and touches no counts.
//! Counters saturate at `u64::MAX` instead of wrapping; the saturation
//! branches are stated exactly in the contracts and are unreachable in any
//! realistic history.

use vstd::prelude::*;

use crate::error::Error;
use crate::schema::AgentId;
use crate::schema::AgentIdV;

verus! {

/// Score credit for one correct vote, in fixed-point thousandths.
pub const CORRECT_VOTE_CREDIT: u64 = 1000;

/// One agent's reputation record. Valid records always have
/// `correct_votes <= total_votes`.
#[derive(Debug, PartialEq, Eq)]
pub struct Reputation {
    pub agent: AgentId,
    pub score: u64,
    pub total_votes: u64,
    pub correct_votes: u64,
}

/// Mathematical view of a [`Reputation`] record.
pub struct RepV {
    pub agent: AgentIdV,
    pub score: u64,
    pub total_votes: u64,
    pub correct_votes: u64,
}

impl View for Reputation {
    type V = RepV;

    open spec fn view(&self) -> RepV {
        RepV {
            agent: self.agent@,
            score: self.score,
            total_votes: self.total_votes,
            correct_votes: self.correct_votes,
        }
    }
}

impl DeepView for Reputation {
    type V = RepV;

    open spec fn deep_view(&self) -> RepV {
        self.view()
    }
}

impl Clone for Reputation {
    fn clone(&self) -> (r: Self)
        ensures
            r@ == self@,
    {
        Reputation {
            agent: self.agent.clone(),
            score: self.score,
            total_votes: self.total_votes,
            correct_votes: self.correct_votes,
        }
    }
}

/// The empty record an agent starts from.
pub open spec fn zero_rep(agent: AgentIdV) -> RepV {
    RepV { agent: agent, score: 0, total_votes: 0, correct_votes: 0 }
}

/// The record after one resolved, non-abstaining ballot: `total_votes`
/// increments, and a correct ballot additionally increments
/// `correct_votes` and credits the score. Saturates at `u64::MAX`.
pub open spec fn apply_outcome(e: RepV, correct: bool) -> RepV {
    if e.total_votes == u64::MAX {
        e
    } else {
        RepV {
            agent: e.agent,
            total_votes: (e.total_votes + 1) as u64,
            correct_votes: if correct {
                (e.correct_votes + 1) as u64
            } else {
                e.correct_votes
            },
            score: if correct && e.score + CORRECT_VOTE_CREDIT <= u64::MAX {
                (e.score + CORRECT_VOTE_CREDIT) as u64
            } else {
                e.score
            },
        }
    }
}

/// The record after a decay by `factor` thousandths: the score is scaled,
/// the counts are untouched.
pub open spec fn decayed(e: RepV, factor: u32) -> RepV {
    RepV {
        agent: e.agent,
        score: ((e.score * factor) / 1000) as u64,
        total_votes: e.total_votes,
        correct_votes: e.correct_votes,
    }
}

/// Accuracy in thousandths: `correct / total`, and zero for an agent with
/// no resolved ballots.
pub open spec fn spec_accuracy(e: RepV) -> u64 {
    if e.total_votes == 0 {
        0
    } else {
        ((e.correct_votes * 1000) / (e.total_votes as int)) as u64
    }
}

impl Reputation {
    /// A fresh, empty record for `agent`.
    pub fn new(agent: AgentId) -> (r: Self)
        ensures
            r@ == zero_rep(agent@),
    {
        Reputation { agent: agent, score: 0, total_votes: 0, correct_votes: 0 }
    }

    /// Accuracy in thousandths: `correct / total`, and zero for an agent
    /// with no resolved ballots (never a division fault).
    pub fn accuracy_permille(&self) -> (r: u64)
        requires
            self.correct_votes <= self.total_votes,
        ensures
            r == spec_accuracy(self@),
            r <= 1000,
    {
        if self.total_votes == 0 {
            0
        } else {
            let num: u128 = (self.correct_votes as u128) * 1000;
            let r: u128 = num / (self.total_votes as u128);
            proof {
                assert(r <= 1000) by (nonlinear_arith)
                    requires
                        r == ((self.correct_votes as int) * 1000) / (self.total_votes as int),
                        self.correct_votes <= self.total_votes,
                        self.total_votes > 0,
                ;
            }
            r as u64
        }
    }
}

/// Whether some record is tracked for `agent`.
pub open spec fn rep_has(s: Seq<RepV>, agent: AgentIdV) -> bool {
    exists|i: int| 0 <= i < s.len() && s[i].agent == agent
}

/// The index of the record tracked for `agent`.
pub open spec fn rep_index(s: Seq<RepV>, agent: AgentIdV) -> int {
    choose|i: int| 0 <= i < s.len() && s[i].agent == agent
}

/// The record governing `agent`: the tracked one, or the empty record.
pub open spec fn rep_of(s: Seq<RepV>, agent: AgentIdV) -> RepV {
    if rep_has(s, agent) {
        s[rep_index(s, agent)]
    } else {
        zero_rep(agent)
    }
}

/// Well-formedness of a tracker state: one record per agent, and counts
/// consistent.
pub open spec fn reps_wf(s: Seq<RepV>) -> bool {
    &&& forall|i: int, j: int| 0 <= i < j < s.len() ==> s[i].agent != s[j].agent
    &&& forall|i: int| 0 <= i < s.len() ==> #[trigger] s[i].correct_votes <= s[i].total_votes
}

/// The per-agent reputation store. Records are created lazily, on an
/// agent's first resolved ballot or an explicit reset.
#[derive(Debug)]
pub struct ReputationTracker {
    pub entries: Vec<Reputation>,
}

impl View for ReputationTracker {
    type V = Seq<RepV>;

    open spec fn view(&self) -> Seq<RepV> {
        self.entries.deep_view()
    }
}

impl ReputationTracker {
    /// An empty tracker.
    pub fn new() -> (r: Self)
        ensures
            r@.len() == 0,
            reps_wf(r@),
    {
        ReputationTracker { entries: Vec::new() }
    }

    /// The tracked record for `agent`, if any.
    #[verifier::loop_isolation(false)]
    pub fn get(&self, agent: &AgentId) -> (r: Option<Reputation>)
        requires
            reps_wf(self@),
        ensures
            r is Some <==> rep_has(self@, agent@),
            r is Some ==> r->0@ == rep_of(self@, agent@),
    {
        let n = self.entries.len();
        let mut i: usize = 0;
        while i < n
            invariant
                n == self.entries.len(),
                i <= n,
                forall|j: int| 0 <= j < i ==> self.entries.deep_view()[j].agent != agent@,
            decreases n - i,
        {
            if self.entries[i].agent == *agent {
                proof {
                    let ghost di = i as int;
                    assert(self@[di].agent == agent@);
                    assert(rep_has(self@, agent@));
                    let ghost k = rep_index(self@, agent@);
                    assert(self@[k].agent == agent@);
                    assert(k == di);
                }
                return Some(self.entries[i].clone());
            }
            i = i + 1;
        }
        proof {
            assert(!rep_has(self@, agent@));
        }
        None
    }

    /// The tracked record for `agent`, creating the empty record first
    /// when none is tracked yet.
    pub fn get_or_create(&mut self, agent: &AgentId) -> (r: Reputation)
        requires
            reps_wf(old(self)@),
        ensures
            reps_wf(final(self)@),
            r@ == rep_of(old(self)@, agent@),
            rep_has(old(self)@, agent@) ==> final(self)@ == old(self)@,
            !rep_has(old(self)@, agent@) ==> final(self)@ == old(self)@.push(zero_rep(agent@)),
    {
        let existing = self.get(agent);
        match existing {
            Some(r) => r,
            None => {
                let fresh = Reputation::new(agent.clone());
                let r = fresh.clone();
                self.entries.push(fresh);
                proof {
                    assert(self@ =~= old(self)@.push(zero_rep(agent@)));
                }
                r
            },
        }
    }

    /// Records one resolved, non-abstaining ballot for `agent`, creating
    /// the record if absent; see [`apply_outcome`] for the exact change.
    #[verifier::loop_isolation(false)]
    pub fn record_outcome(&mut self, agent: &AgentId, correct: bool)
        requires
            reps_wf(old(self)@),
        ensures
            reps_wf(final(self)@),
            rep_has(old(self)@, agent@) ==> final(self)@ == old(self)@.update(
                rep_index(old(self)@, agent@),
                apply_outcome(rep_of(old(self)@, agent@), correct),
            ),
            !rep_has(old(self)@, agent@) ==> final(self)@ == old(self)@.push(
                apply_outcome(zero_rep(agent@), correct),
            ),
            rep_of(final(self)@, agent@) == apply_outcome(rep_of(old(self)@, agent@), correct),
            forall|a: AgentIdV|
                a != agent@ ==> #[trigger] rep_of(final(self)@, a) == rep_of(old(self)@, a),
    {
        let ghost pre = self@;
        let n = self.entries.len();
        let mut i: usize = 0;
        while i < n
            invariant
                n == self.entries.len(),
                self@ == pre,
                i <= n,
                forall|j: int| 0 <= j < i ==> self.entries.deep_view()[j].agent != agent@,
            decreases n - i,
        {
            if self.entries[i].agent == *agent {
                proof {
                    let ghost di = i as int;
                    assert(pre[di].agent == agent@);
                    assert(rep_has(pre, agent@));
                    let ghost k = rep_index(pre, agent@);
                    assert(pre[k].agent == agent@);
                    assert(k == di);
                    assert(pre[di].correct_votes <= pre[di].total_votes);
                    assert(self.entries[di]@ == pre[di]);
                }
                let e = &self.entries[i];
                let updated = apply_outcome_exec(e, correct);
                self.entries.set(i, updated);
                proof {
                    let ghost di = i as int;
                    assert(self@ =~= pre.update(
                        di,
                        apply_outcome(rep_of(pre, agent@), correct),
                    ));
                    lemma_rep_lookup_update(pre, self@, di, agent@, correct);
                }
                return ;
            }
            i = i + 1;
        }
        proof {
            assert(!rep_has(pre, agent@));
        }
        let fresh = Reputation::new(agent.clone());
        let updated = apply_outcome_exec(&fresh, correct);
        self.entries.push(updated);
        proof {
            assert(self@ =~= pre.push(apply_outcome(zero_rep(agent@), correct)));
            lemma_rep_lookup_push(pre, self@, agent@, correct);
        }
    }

    /// Resets `agent` to the empty record, creating it when absent.
    #[verifier::loop_isolation(false)]
    pub fn reset(&mut self, agent: &AgentId)
        requires
            reps_wf(old(self)@),
        ensures
            reps_wf(final(self)@),
            rep_has(old(self)@, agent@) ==> final(self)@ == old(self)@.update(
                rep_index(old(self)@, agent@),
                zero_rep(agent@),
            ),
            !rep_has(old(self)@, agent@) ==> final(self)@ == old(self)@.push(zero_rep(agent@)),
    {
        let ghost pre = self@;
        let n = self.entries.len();
        let mut i: usize = 0;
        while i < n
            invariant
                n == self.entries.len(),
                self@ == pre,
                i <= n,
                forall|j: int| 0 <= j < i ==> self.entries.deep_view()[j].agent != agent@,
            decreases n - i,
        {
            if self.entries[i].agent == *agent {
                proof {
                    let ghost di = i as int;
                    assert(pre[di].agent == agent@);
                    assert(rep_has(pre, agent@));
                    let ghost k = rep_index(pre, agent@);
                    assert(pre[k].agent == agent@);
                    assert(k == di);
                }
                self.entries.set(i, Reputation::new(agent.clone()));
                proof {
                    assert(self@ =~= pre.update(rep_index(pre, agent@), zero_rep(agent@)));
                    assert(forall|p: int, q: int|
                        0 <= p < q < self@.len() ==> self@[p].agent != self@[q].agent);
                }
                return ;
            }
            i = i + 1;
        }
        proof {
            assert(!rep_has(pre, agent@));
        }
        self.entries.push(Reputation::new(agent.clone()));
        proof {
            assert(self@ =~= pre.push(zero_rep(agent@)));
        }
    }

    /// Scales every tracked score by `factor` thousandths, in place; the
    /// vote counts are untouched. A factor above one (1000 thousandths) is
    /// rejected with the tracker unchanged.
    #[verifier::loop_isolation(false)]
    pub fn apply_decay_all(&mut self, factor: u32) -> (r: Result<(), Error>)
        requires
            reps_wf(old(self)@),
        ensures
            reps_wf(final(self)@),
            r is Err <==> factor > 1000,
            r is Err ==> r == Err::<(), Error>(Error::InvalidDecayFactor) && final(self)@ == old(
                self,
            )@,
            r is Ok ==> final(self)@.len() == old(self)@.len() && (forall|i: int|
                0 <= i < old(self)@.len() ==> final(self)@[i] == decayed(old(self)@[i], factor)),
    {
        if factor > 1000 {
            return Err(Error::InvalidDecayFactor);
        }
        let ghost pre = self@;
        let n = self.entries.len();
        let mut i: usize = 0;
        while i < n
            invariant
                n == self.entries.len(),
                i <= n,
                factor <= 1000,
                self@.len() == pre.len(),
                forall|j: int| i <= j < n ==> self@[j] == pre[j],
                forall|j: int| 0 <= j < i ==> self@[j] == decayed(pre[j], factor),
                reps_wf(pre),
            decreases n - i,
        {
            let e = &self.entries[i];
            proof {
                assert((e.score as int) * (factor as int) <= (u64::MAX as int) * 1000)
                    by (nonlinear_arith)
                    requires
                        e.score <= u64::MAX,
                        factor <= 1000,
                ;
            }
            let scaled_wide: u128 = (e.score as u128) * (factor as u128);
            let scaled: u64 = (scaled_wide / 1000) as u64;
            proof {
                assert((e@.score * factor) / 1000 <= e@.score) by (nonlinear_arith)
                    requires
                        factor <= 1000,
                ;
            }
            let updated = Reputation {
                agent: e.agent.clone(),
                score: scaled,
                total_votes: e.total_votes,
                correct_votes: e.correct_votes,
            };
            let ghost prev = self@;
            self.entries.set(i, updated);
            proof {
                assert(self@ =~= prev.update(i as int, updated@));
                assert(forall|j: int| 0 <= j < n && j != i ==> self@[j] == prev[j]);
                assert(self@[i as int] == decayed(pre[i as int], factor));
            }
            i = i + 1;
        }
        proof {
            assert(forall|p: int, q: int|
                0 <= p < q < self@.len() ==> self@[p].agent != self@[q].agent);
            assert(forall|j: int|
                0 <= j < self@.len() ==> #[trigger] self@[j].correct_votes
                    <= self@[j].total_votes);
        }
        Ok(())
    }
}

impl ReputationTracker {
    /// The tracked records ordered by score, highest first: the same
    /// records as the tracker holds (as a multiset), sorted.
    #[verifier::loop_isolation(false)]
    pub fn leaderboard(&self) -> (r: Vec<Reputation>)
        ensures
            r.deep_view().to_multiset() == self@.to_multiset(),
            forall|i: int, j: int|
                0 <= i < j < r.deep_view().len() ==> r.deep_view()[i].score
                    >= r.deep_view()[j].score,
    {
        proof {
            broadcast use vstd::seq_lib::group_to_multiset_ensures;
        }
        let n = self.entries.len();
        let mut work: Vec<Reputation> = Vec::new();
        let mut i: usize = 0;
        while i < n
            invariant
                n == self.entries.len(),
                i <= n,
                work.deep_view() =~= self@.subrange(0, i as int),
            decreases n - i,
        {
            work.push(self.entries[i].clone());
            i = i + 1;
        }
        proof {
            assert(self@.subrange(0, n as int) =~= self@);
            assert(work.deep_view() == self@);
        }
        let ghost orig = self@;
        let mut out: Vec<Reputation> = Vec::new();
        while work.len() > 0
            invariant
                out.deep_view().to_multiset().add(work.deep_view().to_multiset())
                    =~= orig.to_multiset(),
                forall|p: int, q: int|
                    0 <= p < q < out.deep_view().len() ==> out.deep_view()[p].score
                        >= out.deep_view()[q].score,
                forall|p: int, j: int|
                    0 <= p < out.deep_view().len() && 0 <= j < work.deep_view().len()
                        ==> out.deep_view()[p].score >= work.deep_view()[j].score,
            decreases work.len(),
        {
            let wn = work.len();
            let mut mi: usize = 0;
            let mut k: usize = 1;
            while k < wn
                invariant
                    wn == work.len(),
                    k <= wn,
                    mi < wn,
                    wn > 0,
                    forall|j: int|
                        0 <= j < k ==> work.deep_view()[mi as int].score
                            >= work.deep_view()[j].score,
                decreases wn - k,
            {
                if work[k].score > work[mi].score {
                    mi = k;
                }
                k = k + 1;
            }
            let ghost pre_work = work.deep_view();
            let ghost pre_out = out.deep_view();
            let ghost w = pre_work[mi as int];
            let chosen = work.remove(mi);
            out.push(chosen);
            proof {
                assert(chosen@ == w);
                assert(work.deep_view() =~= pre_work.remove(mi as int));
                assert(out.deep_view() =~= pre_out.push(w));
                assert(pre_work.to_multiset().contains(w)) by {
                    assert(pre_work[mi as int] == w);
                    assert(pre_work.contains(w));
                }
                assert(work.deep_view().to_multiset() =~= pre_work.to_multiset().remove(w));
                assert(out.deep_view().to_multiset() =~= pre_out.to_multiset().insert(w));
                assert(out.deep_view().to_multiset().add(work.deep_view().to_multiset())
                    =~= pre_out.to_multiset().add(pre_work.to_multiset()));
                assert(forall|j: int|
                    0 <= j < work.deep_view().len() ==> work.deep_view()[j] == (if j < mi {
                        pre_work[j]
                    } else {
                        pre_work[j + 1]
                    }));
                assert(forall|j: int|
                    0 <= j < work.deep_view().len() ==> w.score >= work.deep_view()[j].score);
            }
        }
        proof {
            assert(work.deep_view().len() == 0);
            assert(work.deep_view().to_multiset().len() == 0);
            assert(out.deep_view().to_multiset() =~= orig.to_multiset());
        }
        out
    }
}

/// Exec mirror of [`apply_outcome`].
fn apply_outcome_exec(e: &Reputation, correct: bool) -> (r: Reputation)
    requires
        e.correct_votes <= e.total_votes,
    ensures
        r@ == apply_outcome(e@, correct),
{
    if e.total_votes == u64::MAX {
        e.clone()
    } else {
        let score = if correct && e.score <= u64::MAX - CORRECT_VOTE_CREDIT {
            e.score + CORRECT_VOTE_CREDIT
        } else {
            e.score
        };
        Reputation {
            agent: e.agent.clone(),
            score: score,
            total_votes: e.total_votes + 1,
            correct_votes: if correct {
                e.correct_votes + 1
            } else {
                e.correct_votes
            },
        }
    }
}

/// After updating the unique record at index `i` for `agent`, the lookup
/// for `agent` sees the updated record and every other lookup is
/// unchanged; well-formedness is preserved.
proof fn lemma_rep_lookup_update(pre: Seq<RepV>, post: Seq<RepV>, i: int, agent: AgentIdV, correct: bool)
    requires
        reps_wf(pre),
        0 <= i < pre.len(),
        pre[i].agent == agent,
        rep_has(pre, agent),
        rep_index(pre, agent) == i,
        post == pre.update(i, apply_outcome(pre[i], correct)),
    ensures
        reps_wf(post),
        rep_of(post, agent) == apply_outcome(rep_of(pre, agent), correct),
        forall|a: AgentIdV| a != agent ==> #[trigger] rep_of(post, a) == rep_of(pre, a),
{
    assert(post[i] == apply_outcome(pre[i], correct));
    assert(post[i].agent == agent);
    assert(reps_wf(post)) by {
        assert(forall|j: int| 0 <= j < post.len() && j != i ==> post[j] == pre[j]);
        assert(post[i].correct_votes <= post[i].total_votes);
    }
    assert(rep_has(post, agent));
    let k = rep_index(post, agent);
    assert(post[k].agent == agent);
    if k != i {
        assert(pre[k].agent == agent);
        assert(false);
    }
    assert forall|a: AgentIdV| a != agent implies #[trigger] rep_of(post, a) == rep_of(pre, a) by {
        if rep_has(pre, a) {
            let m = rep_index(pre, a);
            assert(pre[m].agent == a);
            assert(m != i);
            assert(post[m].agent == a);
            assert(rep_has(post, a));
            let m2 = rep_index(post, a);
            assert(post[m2].agent == a);
            assert(m2 != i);
            assert(pre[m2].agent == a);
            assert(m2 == m);
        } else {
            if rep_has(post, a) {
                let m2 = rep_index(post, a);
                assert(post[m2].agent == a);
                assert(m2 != i);
                assert(pre[m2].agent == a);
                assert(false);
            }
        }
    }
}

/// After appending a first record for `agent`, the lookup for `agent`
/// sees it and every other lookup is unchanged; well-formedness is
/// preserved.
proof fn lemma_rep_lookup_push(pre: Seq<RepV>, post: Seq<RepV>, agent: AgentIdV, correct: bool)
    requires
        reps_wf(pre),
        !rep_has(pre, agent),
        post == pre.push(apply_outcome(zero_rep(agent), correct)),
    ensures
        reps_wf(post),
        rep_of(post, agent) == apply_outcome(rep_of(pre, agent), correct),
        forall|a: AgentIdV| a != agent ==> #[trigger] rep_of(post, a) == rep_of(pre, a),
{
    let n = pre.len() as int;
    assert(post[n] == apply_outcome(zero_rep(agent), correct));
    assert(post[n].agent == agent);
    assert(reps_wf(post)) by {
        assert(forall|j: int| 0 <= j < n ==> post[j] == pre[j]);
        assert(forall|j: int| 0 <= j < n ==> post[j].agent != agent);
        assert(post[n].correct_votes <= post[n].total_votes);
    }
    assert(rep_has(post, agent));
    let k = rep_index(post, agent);
    assert(post[k].agent == agent);
    if k != n {
        assert(pre[k].agent == agent);
        assert(false);
    }
    assert forall|a: AgentIdV| a != agent implies #[trigger] rep_of(post, a) == rep_of(pre, a) by {
        if rep_has(pre, a) {
            let m = rep_index(pre, a);
            assert(pre[m].agent == a);
            assert(post[m].agent == a);
            assert(rep_has(post, a));
            let m2 = rep_index(post, a);
            assert(post[m2].agent == a);
            if m2 == n {
                assert(false);
            }
            assert(pre[m2].agent == a);
            assert(m2 == m);
        } else {
            if rep_has(post, a) {
                let m2 = rep_index(post, a);
                assert(post[m2].agent == a);
                if m2 == n {
                    assert(false);
                }
                assert(pre[m2].agent == a);
                assert(false);
            }
        }
    }
}

} // verus!
