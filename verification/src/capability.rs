//! Capability configuration: the single source of truth for who may do
//! what. Each agent has a capability record (mutation mode, voting
//! eligibility, vote weight); agents without an explicit record get a
//! default one. The configuration also owns the registry of dynamically
//! registered extension modules.

use vstd::prelude::*;

use crate::error::Error;
use crate::schema::AgentId;
use crate::schema::AgentIdV;

verus! {

/// The default vote weight, a fixed-point value in thousandths (one).
pub const DEFAULT_VOTE_WEIGHT: u64 = 1000;

/// Per-agent mutation policy.
#[derive(Debug, Clone, Copy, PartialEq, Eq, Structural)]
pub enum CapabilityMode {
    /// May mutate the store immediately.
    Direct,
    /// Must route every mutation through a proposal.
    Proposal,
    /// May read but never mutate or vote.
    Observer,
}

/// One agent's capability record. The vote weight is a fixed-point value
/// in thousandths.
#[derive(Debug, PartialEq, Eq)]
pub struct AgentCapabilities {
    pub agent: AgentId,
    pub mode: CapabilityMode,
    pub can_vote: bool,
    pub vote_weight: u64,
}

/// Mathematical view of an [`AgentCapabilities`] record.
pub struct CapsV {
    pub agent: AgentIdV,
    pub mode: CapabilityMode,
    pub can_vote: bool,
    pub vote_weight: u64,
}

impl View for AgentCapabilities {
    type V = CapsV;

    open spec fn view(&self) -> CapsV {
        CapsV {
            agent: self.agent@,
            mode: self.mode,
            can_vote: self.can_vote,
            vote_weight: self.vote_weight,
        }
    }
}

impl DeepView for AgentCapabilities {
    type V = CapsV;

    open spec fn deep_view(&self) -> CapsV {
        self.view()
    }
}

impl Clone for AgentCapabilities {
    fn clone(&self) -> (r: Self)
        ensures
            r@ == self@,
    {
        AgentCapabilities {
            agent: self.agent.clone(),
            mode: self.mode,
            can_vote: self.can_vote,
            vote_weight: self.vote_weight,
        }
    }
}

/// The capability configuration: explicitly set records, the module
/// registry, and the runtime-change policy flag.
#[derive(Debug)]
pub struct CapabilityConfig {
    pub entries: Vec<AgentCapabilities>,
    pub modules: Vec<String>,
    pub allow_runtime_changes: bool,
}

/// Mathematical view of a [`CapabilityConfig`].
pub struct ConfigV {
    pub entries: Seq<CapsV>,
    pub modules: Seq<Seq<char>>,
    pub allow_runtime_changes: bool,
}

impl View for CapabilityConfig {
    type V = ConfigV;

    open spec fn view(&self) -> ConfigV {
        ConfigV {
            entries: self.entries.deep_view(),
            modules: self.modules.deep_view(),
            allow_runtime_changes: self.allow_runtime_changes,
        }
    }
}

impl ConfigV {
    /// Whether some explicit record is stored for `agent`.
    pub open spec fn has_entry(self, agent: AgentIdV) -> bool {
        exists|i: int| 0 <= i < self.entries.len() && self.entries[i].agent == agent
    }

    /// The first index holding an explicit record for `agent`.
    pub open spec fn entry_index(self, agent: AgentIdV) -> int {
        choose|i: int| 0 <= i < self.entries.len() && self.entries[i].agent == agent
    }

    /// The default capability record for `agent`: mode `Proposal` (but
    /// `Direct` for the system identity), voting allowed at the default
    /// weight.
    pub open spec fn default_caps(agent: AgentIdV) -> CapsV {
        CapsV {
            agent: agent,
            mode: if agent is System {
                CapabilityMode::Direct
            } else {
                CapabilityMode::Proposal
            },
            can_vote: true,
            vote_weight: DEFAULT_VOTE_WEIGHT,
        }
    }

    /// The record that governs `agent`: the explicitly stored one if any,
    /// the default otherwise.
    pub open spec fn caps_of(self, agent: AgentIdV) -> CapsV {
        if self.has_entry(agent) {
            self.entries[self.entry_index(agent)]
        } else {
            Self::default_caps(agent)
        }
    }

    /// Well-formedness: at most one explicit record per agent, and each
    /// module name registered at most once.
    pub open spec fn wf(self) -> bool {
        &&& forall|i: int, j: int|
            0 <= i < j < self.entries.len() ==> self.entries[i].agent != self.entries[j].agent
        &&& forall|i: int, j: int|
            0 <= i < j < self.modules.len() ==> self.modules[i] != self.modules[j]
    }

    /// Whether a module of this name is registered.
    pub open spec fn module_registered(self, name: Seq<char>) -> bool {
        exists|i: int| 0 <= i < self.modules.len() && self.modules[i] == name
    }

    /// The index at which this module name is registered.
    pub open spec fn module_index(self, name: Seq<char>) -> int {
        choose|i: int| 0 <= i < self.modules.len() && self.modules[i] == name
    }
}

/// Whether a module name is acceptable: non-empty, with no `':'` and no
/// `' '` in it.
pub open spec fn valid_module_name(s: Seq<char>) -> bool {
    s.len() > 0 && !s.contains(':') && !s.contains(' ')
}

impl CapabilityConfig {
    /// A configuration with no explicit records, no registered modules,
    /// and runtime changes allowed.
    pub fn new() -> (r: Self)
        ensures
            r@.entries.len() == 0,
            r@.modules.len() == 0,
            r@.allow_runtime_changes,
            r@.wf(),
    {
        CapabilityConfig { entries: Vec::new(), modules: Vec::new(), allow_runtime_changes: true }
    }

    /// The record that governs `agent`: the explicitly stored one if any,
    /// otherwise the default (mode `Proposal`, or `Direct` for the system
    /// identity; voting allowed at the default weight).
    #[verifier::loop_isolation(false)]
    pub fn get_capabilities(&self, agent: &AgentId) -> (r: AgentCapabilities)
        requires
            self@.wf(),
        ensures
            r@ == self@.caps_of(agent@),
            r@.agent == agent@,
    {
        let n = self.entries.len();
        let mut i: usize = 0;
        while i < n
            invariant
                n == self.entries.len(),
                i <= n,
                forall|j: int| 0 <= j < i ==> self.entries.deep_view()[j].agent != agent@,
            decreases n - i,
        {
            if self.entries[i].agent == *agent {
                proof {
                    let ghost di = i as int;
                    assert(self.entries.deep_view()[di].agent == agent@);
                    assert(self@.has_entry(agent@));
                    let ghost k = self@.entry_index(agent@);
                    assert(self@.entries[k].agent == agent@);
                    assert(self@.wf());
                    assert(k == di);
                }
                return self.entries[i].clone();
            }
            i = i + 1;
        }
        proof {
            assert(!self@.has_entry(agent@));
        }
        AgentCapabilities {
            agent: agent.clone(),
            mode: match agent {
                AgentId::System => CapabilityMode::Direct,
                _ => CapabilityMode::Proposal,
            },
            can_vote: true,
            vote_weight: DEFAULT_VOTE_WEIGHT,
        }
    }

    /// Stores `caps` as the explicit record for its agent, replacing any
    /// earlier record. Rejected (with the configuration unchanged) when
    /// runtime changes are disabled by policy.
    #[verifier::loop_isolation(false)]
    pub fn set_capabilities(&mut self, caps: AgentCapabilities) -> (r: Result<(), Error>)
        requires
            old(self)@.wf(),
        ensures
            final(self)@.wf(),
            final(self)@.modules == old(self)@.modules,
            final(self)@.allow_runtime_changes == old(self)@.allow_runtime_changes,
            r is Err <==> !old(self)@.allow_runtime_changes,
            r is Err ==> r == Err::<(), Error>(Error::RuntimeChangesDisabled) && final(self)@
                == old(self)@,
            r is Ok ==> final(self)@.caps_of(caps@.agent) == caps@ && (forall|a: AgentIdV|
                a != caps@.agent ==> final(self)@.caps_of(a) == old(self)@.caps_of(a)),
    {
        if !self.allow_runtime_changes {
            return Err(Error::RuntimeChangesDisabled);
        }
        let ghost cv = caps@;
        let ghost pre = self@;
        let n = self.entries.len();
        let mut i: usize = 0;
        while i < n
            invariant
                n == self.entries.len(),
                i <= n,
                self@ == pre,
                forall|j: int| 0 <= j < i ==> self.entries.deep_view()[j].agent != caps@.agent,
            decreases n - i,
        {
            if self.entries[i].agent == caps.agent {
                proof {
                    let ghost di = i as int;
                    assert(self.entries.deep_view()[di].agent == caps@.agent);
                }
                self.entries.set(i, caps);
                proof {
                    let ghost di = i as int;
                    let ghost post = self@;
                    assert(post.entries =~= pre.entries.update(di, cv));
                    assert(post.modules == pre.modules);
                    assert(post.wf());
                    lemma_caps_lookup_update(pre, post, di, cv);
                }
                return Ok(());
            }
            i = i + 1;
        }
        self.entries.push(caps);
        proof {
            let ghost post = self@;
            assert(post.entries =~= pre.entries.push(cv));
            assert(post.modules == pre.modules);
            assert(forall|j: int|
                0 <= j < pre.entries.len() ==> post.entries[j] == pre.entries[j]);
            assert(post.wf());
            lemma_caps_lookup_push(pre, post, cv);
        }
        Ok(())
    }

    /// Registers an extension module: adds its name to the registry and
    /// stores a capability record for the `module:<name>` identity with
    /// the given mode, voting allowed at the default weight. Rejected
    /// (with nothing changed) when runtime changes are disabled, the name
    /// is malformed (empty, or containing `':'` or `' '`), or the name is
    /// already registered.
    #[verifier::loop_isolation(false)]
    pub fn register_module(&mut self, name: &str, mode: CapabilityMode) -> (r: Result<(), Error>)
        requires
            old(self)@.wf(),
        ensures
            final(self)@.wf(),
            final(self)@.allow_runtime_changes == old(self)@.allow_runtime_changes,
            !old(self)@.allow_runtime_changes ==> r == Err::<(), Error>(
                Error::RuntimeChangesDisabled,
            ) && final(self)@ == old(self)@,
            old(self)@.allow_runtime_changes && !valid_module_name(name@)
                ==> r == Err::<(), Error>(Error::InvalidModuleName) && final(self)@ == old(self)@,
            old(self)@.allow_runtime_changes && valid_module_name(name@)
                && old(self)@.module_registered(name@)
                ==> r == Err::<(), Error>(Error::ModuleAlreadyRegistered)
                && final(self)@ == old(self)@,
            old(self)@.allow_runtime_changes && valid_module_name(name@)
                && !old(self)@.module_registered(name@) ==> ({
                &&& r is Ok
                &&& final(self)@.modules == old(self)@.modules.push(name@)
                &&& final(self)@.caps_of(AgentIdV::Module(name@)) == (CapsV {
                    agent: AgentIdV::Module(name@),
                    mode: mode,
                    can_vote: true,
                    vote_weight: DEFAULT_VOTE_WEIGHT,
                })
                &&& forall|a: AgentIdV|
                    a != AgentIdV::Module(name@) ==> final(self)@.caps_of(a)
                        == old(self)@.caps_of(a)
            }),
    {
        if !self.allow_runtime_changes {
            return Err(Error::RuntimeChangesDisabled);
        }
        if name.is_empty() || crate::util::contains_char(name, ':') || crate::util::contains_char(
            name,
            ' ',
        ) {
            return Err(Error::InvalidModuleName);
        }
        let ghost pre = self@;
        let n = self.modules.len();
        let mut i: usize = 0;
        while i < n
            invariant
                n == self.modules.len(),
                self@ == pre,
                i <= n,
                forall|j: int| 0 <= j < i ==> self@.modules[j] != name@,
            decreases n - i,
        {
            if crate::util::str_eq(self.modules[i].as_str(), name) {
                proof {
                    assert(self@.modules[i as int] == name@);
                    assert(self@.module_registered(name@));
                }
                return Err(Error::ModuleAlreadyRegistered);
            }
            i = i + 1;
        }
        proof {
            assert(!pre.module_registered(name@));
        }
        self.modules.push(name.to_owned());
        proof {
            assert(self@.modules =~= pre.modules.push(name@));
            assert(forall|j: int|
                0 <= j < pre.modules.len() ==> self@.modules[j] == pre.modules[j]);
            assert(self@.wf());
            assert(self@.entries == pre.entries);
        }
        let caps = AgentCapabilities {
            agent: AgentId::Module(name.to_owned()),
            mode,
            can_vote: true,
            vote_weight: DEFAULT_VOTE_WEIGHT,
        };
        let res = self.set_capabilities(caps);
        proof {
            assert(res is Ok);
        }
        Ok(())
    }

    /// Removes a module name from the registry; the module's capability
    /// record, if any, stays behind for audit. Rejected when the name is
    /// not registered.
    #[verifier::loop_isolation(false)]
    pub fn unregister_module(&mut self, name: &str) -> (r: Result<(), Error>)
        requires
            old(self)@.wf(),
        ensures
            final(self)@.wf(),
            final(self)@.entries == old(self)@.entries,
            final(self)@.allow_runtime_changes == old(self)@.allow_runtime_changes,
            !old(self)@.module_registered(name@) ==> r == Err::<(), Error>(
                Error::ModuleNotRegistered,
            ) && final(self)@ == old(self)@,
            old(self)@.module_registered(name@) ==> r == Ok::<(), Error>(())
                && final(self)@.modules == old(self)@.modules.remove(
                old(self)@.module_index(name@),
            ),
    {
        let ghost pre = self@;
        let n = self.modules.len();
        let mut i: usize = 0;
        while i < n
            invariant
                n == self.modules.len(),
                self@ == pre,
                i <= n,
                forall|j: int| 0 <= j < i ==> self@.modules[j] != name@,
            decreases n - i,
        {
            if crate::util::str_eq(self.modules[i].as_str(), name) {
                proof {
                    let ghost di = i as int;
                    assert(pre.modules[di] == name@);
                    assert(pre.module_registered(name@));
                    let ghost k = pre.module_index(name@);
                    assert(pre.modules[k] == name@);
                    assert(k == di);
                }
                let _removed = self.modules.remove(i);
                proof {
                    let ghost di = i as int;
                    assert(self@.modules =~= pre.modules.remove(di));
                    assert(forall|p: int, q: int|
                        0 <= p < q < self@.modules.len() ==> self@.modules[p]
                            != self@.modules[q]) by {
                        assert(forall|p: int|
                            0 <= p < self@.modules.len() ==> self@.modules[p] == (if p < di {
                                pre.modules[p]
                            } else {
                                pre.modules[p + 1]
                            }));
                    }
                    assert(self@.wf());
                }
                return Ok(());
            }
            i = i + 1;
        }
        proof {
            assert(!pre.module_registered(name@));
        }
        Err(Error::ModuleNotRegistered)
    }

    /// The registered module names, in registration order.
    pub fn modules(&self) -> (r: &Vec<String>)
        ensures
            r.deep_view() == self@.modules,
    {
        &self.modules
    }
}

/// After replacing the unique record at index `i` for an agent with a new
/// record for the same agent, lookups for that agent see the new record
/// and lookups for every other agent are unchanged.
proof fn lemma_caps_lookup_update(pre: ConfigV, post: ConfigV, i: int, caps: CapsV)
    requires
        pre.wf(),
        0 <= i < pre.entries.len(),
        pre.entries[i].agent == caps.agent,
        post.entries == pre.entries.update(i, caps),
        post.modules == pre.modules,
        forall|j: int| 0 <= j < i ==> pre.entries[j].agent != caps.agent,
    ensures
        post.caps_of(caps.agent) == caps,
        forall|a: AgentIdV| a != caps.agent ==> post.caps_of(a) == pre.caps_of(a),
{
    assert(post.entries[i].agent == caps.agent);
    assert(post.has_entry(caps.agent));
    assert(post.wf()) by {
        assert(forall|p: int, q: int|
            0 <= p < q < post.entries.len() ==> post.entries[p].agent != post.entries[q].agent);
    }
    let k = post.entry_index(caps.agent);
    assert(post.entries[k].agent == caps.agent);
    if k != i {
        assert(pre.entries[k].agent == caps.agent);
        assert(false);
    }
    assert forall|a: AgentIdV| a != caps.agent implies post.caps_of(a) == pre.caps_of(a) by {
        assert(forall|j: int|
            0 <= j < pre.entries.len() && j != i ==> post.entries[j] == pre.entries[j]);
        if pre.has_entry(a) {
            let m = pre.entry_index(a);
            assert(pre.entries[m].agent == a);
            assert(m != i);
            assert(post.entries[m].agent == a);
            assert(post.has_entry(a));
            let m2 = post.entry_index(a);
            assert(post.entries[m2].agent == a);
            assert(m2 != i);
            assert(pre.entries[m2].agent == a);
            assert(pre.wf());
            assert(m2 == m);
        } else {
            if post.has_entry(a) {
                let m2 = post.entry_index(a);
                assert(post.entries[m2].agent == a);
                assert(m2 != i);
                assert(pre.entries[m2].agent == a);
                assert(false);
            }
        }
    }
}

/// After appending a record for an agent that had none, lookups for that
/// agent see the new record and lookups for every other agent are
/// unchanged.
proof fn lemma_caps_lookup_push(pre: ConfigV, post: ConfigV, caps: CapsV)
    requires
        pre.wf(),
        post.entries == pre.entries.push(caps),
        post.modules == pre.modules,
        forall|j: int| 0 <= j < pre.entries.len() ==> pre.entries[j].agent != caps.agent,
    ensures
        post.caps_of(caps.agent) == caps,
        forall|a: AgentIdV| a != caps.agent ==> post.caps_of(a) == pre.caps_of(a),
{
    let n = pre.entries.len() as int;
    assert(post.entries[n] == caps);
    assert(post.has_entry(caps.agent));
    let k = post.entry_index(caps.agent);
    assert(post.entries[k].agent == caps.agent);
    if k != n {
        assert(pre.entries[k].agent == caps.agent);
        assert(false);
    }
    assert forall|a: AgentIdV| a != caps.agent implies post.caps_of(a) == pre.caps_of(a) by {
        if pre.has_entry(a) {
            let m = pre.entry_index(a);
            assert(pre.entries[m].agent == a);
            assert(post.entries[m].agent == a);
            assert(post.has_entry(a));
            let m2 = post.entry_index(a);
            assert(post.entries[m2].agent == a);
            if m2 == n {
                assert(false);
            }
            assert(pre.entries[m2].agent == a);
            assert(m2 == m);
        } else {
            if post.has_entry(a) {
                let m2 = post.entry_index(a);
                assert(post.entries[m2].agent == a);
                if m2 == n {
                    assert(false);
                }
                assert(pre.entries[m2].agent == a);
                assert(false);
            }
        }
    }
}

} // verus!
