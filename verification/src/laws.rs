//! Cross-cutting laws of the governance layer, stated and proved over
//! the same spec functions the components' contracts use.

use vstd::prelude::*;

use crate::proposal::ManagerV;
use crate::proposal::ProposalStatus;
use crate::proposal::ProposalV;
use crate::proposal::is_terminal;
use crate::proposal::prop_has;
use crate::proposal::prop_index;
use crate::proposal::prop_of;
use crate::voting::VoteV;
use crate::voting::record_vote;
use crate::voting::vote_has;
use crate::voting::vote_index;
use crate::voting::votes_wf;

verus! {

/// Recording one ballot keeps the ballot list well-formed, and the
/// ballot for its (proposal, voter) pair is exactly the one recorded.
pub proof fn lemma_record_vote_wf(s: Seq<VoteV>, v: VoteV)
    requires
        votes_wf(s),
    ensures
        votes_wf(record_vote(s, v)),
        vote_has(record_vote(s, v), v.proposal_id, v.voter),
        record_vote(s, v)[vote_index(record_vote(s, v), v.proposal_id, v.voter)] == v,
        record_vote(s, v).len() == if vote_has(s, v.proposal_id, v.voter) {
            s.len()
        } else {
            s.len() + 1
        },
{
    let s1 = record_vote(s, v);
    if vote_has(s, v.proposal_id, v.voter) {
        let k = vote_index(s, v.proposal_id, v.voter);
        assert(0 <= k < s.len() && s[k].proposal_id == v.proposal_id && s[k].voter == v.voter);
        assert(s1 == s.update(k, v));
        assert(votes_wf(s1)) by {
            assert(forall|j: int| 0 <= j < s.len() && j != k ==> s1[j] == s[j]);
        }
        assert(s1[k] == v);
        assert(vote_has(s1, v.proposal_id, v.voter));
        let k1 = vote_index(s1, v.proposal_id, v.voter);
        assert(0 <= k1 < s1.len() && s1[k1].proposal_id == v.proposal_id && s1[k1].voter
            == v.voter);
        if k1 != k {
            assert(s[k1].proposal_id == v.proposal_id && s[k1].voter == v.voter);
            assert(false);
        }
    } else {
        let n = s.len() as int;
        assert(s1 == s.push(v));
        assert(s1[n] == v);
        assert(votes_wf(s1)) by {
            assert(forall|j: int| 0 <= j < n ==> s1[j] == s[j]);
            assert(forall|j: int|
                0 <= j < n ==> !(s[j].proposal_id == v.proposal_id && s[j].voter == v.voter));
        }
        assert(vote_has(s1, v.proposal_id, v.voter));
        let k1 = vote_index(s1, v.proposal_id, v.voter);
        assert(0 <= k1 < s1.len() && s1[k1].proposal_id == v.proposal_id && s1[k1].voter
            == v.voter);
        if k1 != n {
            assert(s[k1].proposal_id == v.proposal_id && s[k1].voter == v.voter);
            assert(false);
        }
    }
}

/// Casting two ballots from the same voter on the same proposal leaves
/// exactly one ballot for that (proposal, voter) pair, and it carries the
/// later decision: the second recording supersedes the first.
pub proof fn lemma_revote_keeps_one_ballot(s: Seq<VoteV>, v1: VoteV, v2: VoteV)
    requires
        votes_wf(s),
        v1.proposal_id == v2.proposal_id,
        v1.voter == v2.voter,
    ensures
        ({
            let s2 = record_vote(record_vote(s, v1), v2);
            &&& votes_wf(s2)
            &&& vote_has(s2, v2.proposal_id, v2.voter)
            &&& s2[vote_index(s2, v2.proposal_id, v2.voter)] == v2
            &&& forall|i: int, j: int|
                0 <= i < s2.len() && 0 <= j < s2.len() && s2[i].proposal_id == v2.proposal_id
                    && s2[i].voter == v2.voter && s2[j].proposal_id == v2.proposal_id
                    && s2[j].voter == v2.voter ==> i == j
            &&& s2.len() == if vote_has(s, v1.proposal_id, v1.voter) {
                s.len()
            } else {
                s.len() + 1
            }
        }),
{
    let s1 = record_vote(s, v1);
    lemma_record_vote_wf(s, v1);
    lemma_record_vote_wf(s1, v2);
    let s2 = record_vote(s1, v2);
    assert(forall|i: int, j: int|
        0 <= i < s2.len() && 0 <= j < s2.len() && s2[i].proposal_id == v2.proposal_id
            && s2[i].voter == v2.voter && s2[j].proposal_id == v2.proposal_id && s2[j].voter
            == v2.voter ==> i == j) by {
        assert(votes_wf(s2));
    }
}

/// A proposal is resolved at most once: after the one transition out of
/// `Pending` into a terminal status, the proposal is terminal, and no
/// transition leaves a terminal status (`withdraw`, `resolve` and a vote
/// cast all reject such a proposal by their contracts).
pub proof fn lemma_single_resolution(m0: ManagerV, m1: ManagerV, pid: u64, st: ProposalStatus, now: i64)
    requires
        m0.wf(),
        is_terminal(st),
        prop_has(m0.proposals, pid),
        !is_terminal(prop_of(m0.proposals, pid).status),
        m1.proposals == m0.proposals.update(
            prop_index(m0.proposals, pid),
            ProposalV { status: st, resolved_at: Some(now), ..prop_of(m0.proposals, pid) },
        ),
    ensures
        prop_has(m1.proposals, pid),
        is_terminal(prop_of(m1.proposals, pid).status),
        prop_of(m1.proposals, pid).resolved_at == Some(now),
        forall|q: u64|
            q != pid && prop_has(m0.proposals, q) ==> prop_has(m1.proposals, q) && prop_of(
                m1.proposals,
                q,
            ) == prop_of(m0.proposals, q),
{
    let k = prop_index(m0.proposals, pid);
    assert(0 <= k < m0.proposals.len() && m0.proposals[k].id == pid);
    assert(m1.proposals[k].id == pid);
    assert(prop_has(m1.proposals, pid));
    let k1 = prop_index(m1.proposals, pid);
    assert(0 <= k1 < m1.proposals.len() && m1.proposals[k1].id == pid);
    if k1 != k {
        assert(m0.proposals[k1].id == pid);
        assert(false);
    }
    assert forall|q: u64| q != pid && prop_has(m0.proposals, q) implies prop_has(m1.proposals, q)
        && prop_of(m1.proposals, q) == prop_of(m0.proposals, q) by {
        let m = prop_index(m0.proposals, q);
        assert(0 <= m < m0.proposals.len() && m0.proposals[m].id == q);
        assert(m != k);
        assert(m1.proposals[m].id == q);
        assert(prop_has(m1.proposals, q));
        let m2 = prop_index(m1.proposals, q);
        assert(0 <= m2 < m1.proposals.len() && m1.proposals[m2].id == q);
        if m2 != m {
            if m2 == k {
                assert(false);
            }
            assert(m0.proposals[m2].id == q);
            assert(false);
        }
    }
}

} // verus!
