//! The event-sourced graph store: nodes, edges, and the append-only event
//! log. Every mutation takes the acting agent, consults the capability
//! configuration (only `Direct` agents may mutate), and appends exactly
//! one event as part of the same call, so the log length equals the
//! number of successful mutating calls. Update events carry the pre- and
//! post-update node snapshots: the sole undo/diff mechanism.
//!
//! A standing invariant ties the log to the state: replaying the events'
//! snapshots in order reconstructs the current node map (see
//! [`replay`] and [`GraphStore::wf`]).
//!
//! Deleting a node does not delete edges that reference it: dangling
//! edges are defined behavior, and `edges_from` / `edges_to` /
//! `neighbors` may observe them.

use vstd::prelude::*;

use crate::capability::CapabilityConfig;
use crate::capability::CapabilityMode;
use crate::error::Error;
use crate::schema::AgentId;
use crate::schema::AgentIdV;
use crate::schema::EdgeKind;
use crate::schema::EventV;
use crate::schema::NodeKind;
use crate::schema::NodeV;
use crate::schema::Operation;
use crate::schema::StateEdge;
use crate::schema::StateEvent;
use crate::schema::StateNode;
use crate::schema::Target;
use crate::schema::Value;
use crate::schema::clone_value;
use crate::schema::clone_entries;

verus! {

/// The node map described by a node list: each node keyed by its id.
pub open spec fn nodes_map(s: Seq<NodeV>) -> Map<u64, NodeV>
    decreases s.len(),
{
    if s.len() == 0 {
        Map::empty()
    } else {
        nodes_map(s.drop_last()).insert(s.last().id, s.last())
    }
}

/// One event applied to a node map: create and update snapshots insert
/// the `after` node, a delete removes the target id, and edge events
/// leave the node map alone.
pub open spec fn apply_event(m: Map<u64, NodeV>, e: EventV) -> Map<u64, NodeV> {
    match e.target {
        Target::Node(id) => match e.operation {
            Operation::Create | Operation::Update => match e.after {
                Some(n) => m.insert(id, n),
                None => m,
            },
            Operation::Delete => m.remove(id),
            Operation::Link | Operation::Unlink => m,
        },
        Target::Edge(_) => m,
    }
}

/// The node map reconstructed by replaying an event log in order.
pub open spec fn replay(s: Seq<EventV>) -> Map<u64, NodeV>
    decreases s.len(),
{
    if s.len() == 0 {
        Map::empty()
    } else {
        apply_event(replay(s.drop_last()), s.last())
    }
}

/// Whether some node in `s` has id `id`.
pub open spec fn node_has(s: Seq<NodeV>, id: u64) -> bool {
    exists|i: int| 0 <= i < s.len() && s[i].id == id
}

/// The index of the node with id `id`.
pub open spec fn node_index(s: Seq<NodeV>, id: u64) -> int {
    choose|i: int| 0 <= i < s.len() && s[i].id == id
}

/// The node with id `id` (meaningful only when `node_has`).
pub open spec fn node_of(s: Seq<NodeV>, id: u64) -> NodeV {
    s[node_index(s, id)]
}

/// Whether some edge in `s` has id `id`.
pub open spec fn edge_has(s: Seq<StateEdge>, id: u64) -> bool {
    exists|i: int| 0 <= i < s.len() && s[i].id == id
}

/// The index of the edge with id `id`.
pub open spec fn edge_index(s: Seq<StateEdge>, id: u64) -> int {
    choose|i: int| 0 <= i < s.len() && s[i].id == id
}

/// The nodes of `s` that match the kind filter, in list order.
pub open spec fn select_nodes(s: Seq<NodeV>, kind: Option<NodeKind>) -> Seq<NodeV>
    decreases s.len(),
{
    if s.len() == 0 {
        Seq::empty()
    } else {
        let rest = select_nodes(s.drop_last(), kind);
        if match kind {
            Some(k) => s.last().kind == k,
            None => true,
        } {
            rest.push(s.last())
        } else {
            rest
        }
    }
}

/// The edges of `s` leaving node `id`, in list order.
pub open spec fn edges_from_of(s: Seq<StateEdge>, id: u64) -> Seq<StateEdge>
    decreases s.len(),
{
    if s.len() == 0 {
        Seq::empty()
    } else {
        let rest = edges_from_of(s.drop_last(), id);
        if s.last().from == id {
            rest.push(s.last())
        } else {
            rest
        }
    }
}

/// The edges of `s` entering node `id`, in list order.
pub open spec fn edges_to_of(s: Seq<StateEdge>, id: u64) -> Seq<StateEdge>
    decreases s.len(),
{
    if s.len() == 0 {
        Seq::empty()
    } else {
        let rest = edges_to_of(s.drop_last(), id);
        if s.last().to == id {
            rest.push(s.last())
        } else {
            rest
        }
    }
}

/// The events of `s` recorded by `agent`, in log order.
pub open spec fn events_by_of(s: Seq<EventV>, agent: AgentIdV) -> Seq<EventV>
    decreases s.len(),
{
    if s.len() == 0 {
        Seq::empty()
    } else {
        let rest = events_by_of(s.drop_last(), agent);
        if s.last().agent == agent {
            rest.push(s.last())
        } else {
            rest
        }
    }
}

/// The events of `s` acting on `target`, in log order.
pub open spec fn events_for_of(s: Seq<EventV>, target: Target) -> Seq<EventV>
    decreases s.len(),
{
    if s.len() == 0 {
        Seq::empty()
    } else {
        let rest = events_for_of(s.drop_last(), target);
        if s.last().target == target {
            rest.push(s.last())
        } else {
            rest
        }
    }
}

/// Whether edge `e` connects the two node ids, in either direction.
pub open spec fn connects(e: StateEdge, a: u64, b: u64) -> bool {
    (e.from == a && e.to == b) || (e.from == b && e.to == a)
}

/// Whether some edge of `s` connects `a` and `b`, in either direction.
pub open spec fn adjacent(s: Seq<StateEdge>, a: u64, b: u64) -> bool {
    exists|k: int| 0 <= k < s.len() && connects(s[k], a, b)
}

/// The ids within `k` hops of `start` over the edge list (traversal runs
/// over edge endpoints by id, whether or not a node with that id exists).
pub open spec fn reach(edges: Seq<StateEdge>, start: u64, k: nat) -> Set<u64>
    decreases k,
{
    if k == 0 {
        set![start]
    } else {
        let prev = reach(edges, start, (k - 1) as nat);
        prev.union(Set::new(|m: u64| exists|n: u64| prev.contains(n) && adjacent(edges, n, m)))
    }
}

/// The nodes within `depth` hops of `start` (excluding `start` itself),
/// in node-list order.
pub open spec fn neighbor_sel(
    nodes: Seq<NodeV>,
    edges: Seq<StateEdge>,
    start: u64,
    depth: nat,
) -> Seq<NodeV>
    decreases nodes.len(),
{
    if nodes.len() == 0 {
        Seq::empty()
    } else {
        let rest = neighbor_sel(nodes.drop_last(), edges, start, depth);
        if nodes.last().id != start && reach(edges, start, depth).contains(nodes.last().id) {
            rest.push(nodes.last())
        } else {
            rest
        }
    }
}

/// The event-sourced graph store.
#[derive(Debug)]
pub struct GraphStore {
    pub nodes: Vec<StateNode>,
    pub edges: Vec<StateEdge>,
    pub events: Vec<StateEvent>,
    pub next_node_id: u64,
    pub next_edge_id: u64,
}

/// Mathematical view of a [`GraphStore`].
pub struct StoreV {
    pub nodes: Seq<NodeV>,
    pub edges: Seq<StateEdge>,
    pub events: Seq<EventV>,
    pub next_node_id: u64,
    pub next_edge_id: u64,
}

impl View for GraphStore {
    type V = StoreV;

    open spec fn view(&self) -> StoreV {
        StoreV {
            nodes: self.nodes.deep_view(),
            edges: self.edges@,
            events: self.events.deep_view(),
            next_node_id: self.next_node_id,
            next_edge_id: self.next_edge_id,
        }
    }
}

impl StoreV {
    /// Well-formedness: ids are unique and below their counters, and the
    /// event log replays to the current node map.
    pub open spec fn wf(self) -> bool {
        &&& forall|i: int, j: int| 0 <= i < j < self.nodes.len() ==> self.nodes[i].id != self.nodes[j].id
        &&& forall|i: int| 0 <= i < self.nodes.len() ==> (#[trigger] self.nodes[i].id) < self.next_node_id
        &&& forall|i: int, j: int| 0 <= i < j < self.edges.len() ==> self.edges[i].id != self.edges[j].id
        &&& forall|i: int| 0 <= i < self.edges.len() ==> (#[trigger] self.edges[i].id) < self.next_edge_id
        &&& replay(self.events) == nodes_map(self.nodes)
    }
}

/// The event log of a well-formed store replays, snapshot by snapshot,
/// to exactly the store's current node map: the log is a faithful audit
/// trail of the node state.
pub proof fn lemma_replay_reconstructs(s: StoreV)
    requires
        s.wf(),
    ensures
        replay(s.events) == nodes_map(s.nodes),
{
}

/// Whether `x` occurs in `v`.
#[verifier::loop_isolation(false)]
fn contains_id(v: &Vec<u64>, x: u64) -> (r: bool)
    ensures
        r == v@.contains(x),
{
    let n = v.len();
    let mut i: usize = 0;
    while i < n
        invariant
            n == v.len(),
            i <= n,
            forall|j: int| 0 <= j < i ==> v@[j] != x,
        decreases n - i,
    {
        if v[i] == x {
            proof {
                assert(v@.contains(x));
            }
            return true;
        }
        i = i + 1;
    }
    proof {
        assert(!v@.contains(x));
    }
    false
}

/// A plain copy of an id list.
#[verifier::loop_isolation(false)]
fn copy_ids(v: &Vec<u64>) -> (r: Vec<u64>)
    ensures
        r@ == v@,
{
    let n = v.len();
    let mut out: Vec<u64> = Vec::new();
    let mut i: usize = 0;
    while i < n
        invariant
            n == v.len(),
            i <= n,
            out@ =~= v@.subrange(0, i as int),
        decreases n - i,
    {
        out.push(v[i]);
        i = i + 1;
    }
    proof {
        assert(v@.subrange(0, n as int) =~= v@);
    }
    out
}

/// In a list with unique ids, the node map holds exactly those ids, each
/// mapped to its node.
proof fn lemma_nodes_map_index(s: Seq<NodeV>)
    requires
        forall|i: int, j: int| 0 <= i < j < s.len() ==> s[i].id != s[j].id,
    ensures
        forall|id: u64|
            #[trigger] nodes_map(s).dom().contains(id) <==> node_has(s, id),
        forall|i: int|
            0 <= i < s.len() ==> nodes_map(s).dom().contains(#[trigger] s[i].id) && nodes_map(
                s,
            )[s[i].id] == s[i],
    decreases s.len(),
{
    if s.len() > 0 {
        lemma_nodes_map_index(s.drop_last());
        assert forall|id: u64| #[trigger] nodes_map(s).dom().contains(id) implies node_has(s, id) by {
            if id != s.last().id {
                assert(nodes_map(s.drop_last()).dom().contains(id));
                let j = choose|j: int| 0 <= j < s.drop_last().len() && s.drop_last()[j].id == id;
                assert(s[j].id == id);
            } else {
                assert(s[s.len() - 1].id == id);
            }
        }
        assert forall|id: u64| node_has(s, id) implies #[trigger] nodes_map(s).dom().contains(
            id,
        ) by {
            let j = choose|j: int| 0 <= j < s.len() && s[j].id == id;
            if j == s.len() - 1 {
            } else {
                assert(s.drop_last()[j].id == id);
                assert(node_has(s.drop_last(), id));
            }
        }
        assert forall|i: int| 0 <= i < s.len() implies nodes_map(s).dom().contains(
            #[trigger] s[i].id,
        ) && nodes_map(s)[s[i].id] == s[i] by {
            if i == s.len() - 1 {
            } else {
                assert(s.drop_last()[i] == s[i]);
                assert(s[i].id != s.last().id);
            }
        }
    }
}

/// Updating the node at position `i` with a node of the same id turns the
/// node map into an insert of that node.
proof fn lemma_nodes_map_update(s: Seq<NodeV>, i: int, n: NodeV)
    requires
        forall|p: int, q: int| 0 <= p < q < s.len() ==> s[p].id != s[q].id,
        0 <= i < s.len(),
        n.id == s[i].id,
    ensures
        nodes_map(s.update(i, n)) =~= nodes_map(s).insert(n.id, n),
    decreases s.len(),
{
    let su = s.update(i, n);
    if i == s.len() - 1 {
        assert(su.drop_last() =~= s.drop_last());
        assert(su.last() == n);
        assert(nodes_map(su) == nodes_map(s.drop_last()).insert(n.id, n));
        assert(nodes_map(s).insert(n.id, n) =~= nodes_map(s.drop_last()).insert(n.id, n));
    } else {
        assert(su.drop_last() =~= s.drop_last().update(i, n));
        assert(su.last() == s.last());
        lemma_nodes_map_update(s.drop_last(), i, n);
        assert(nodes_map(su) == nodes_map(s.drop_last().update(i, n)).insert(
            s.last().id,
            s.last(),
        ));
        assert(s.last().id != n.id);
        assert(nodes_map(s.drop_last()).insert(n.id, n).insert(s.last().id, s.last())
            =~= nodes_map(s.drop_last()).insert(s.last().id, s.last()).insert(n.id, n));
    }
}

/// Removing the node at position `i` turns the node map into a removal of
/// its id.
proof fn lemma_nodes_map_remove(s: Seq<NodeV>, i: int)
    requires
        forall|p: int, q: int| 0 <= p < q < s.len() ==> s[p].id != s[q].id,
        0 <= i < s.len(),
    ensures
        nodes_map(s.remove(i)) =~= nodes_map(s).remove(s[i].id),
    decreases s.len(),
{
    let sr = s.remove(i);
    if i == s.len() - 1 {
        assert(sr =~= s.drop_last());
        lemma_nodes_map_index(s.drop_last());
        assert(!node_has(s.drop_last(), s[i].id)) by {
            if node_has(s.drop_last(), s[i].id) {
                let j = choose|j: int|
                    0 <= j < s.drop_last().len() && s.drop_last()[j].id == s[i].id;
                assert(s[j].id == s[i].id);
                assert(false);
            }
        }
        assert(!nodes_map(s.drop_last()).dom().contains(s[i].id));
        assert(nodes_map(s).remove(s[i].id) =~= nodes_map(s.drop_last()));
    } else {
        assert(sr.drop_last() =~= s.drop_last().remove(i));
        assert(sr.last() == s.last());
        lemma_nodes_map_remove(s.drop_last(), i);
        assert(nodes_map(sr) == nodes_map(s.drop_last().remove(i)).insert(
            s.last().id,
            s.last(),
        ));
        assert(s.last().id != s[i].id);
        assert(nodes_map(s.drop_last()).remove(s[i].id).insert(s.last().id, s.last())
            =~= nodes_map(s.drop_last()).insert(s.last().id, s.last()).remove(s[i].id));
    }
}

impl GraphStore {
    /// An empty store.
    pub fn new() -> (r: Self)
        ensures
            r@.nodes.len() == 0,
            r@.edges.len() == 0,
            r@.events.len() == 0,
            r@.next_node_id == 1,
            r@.next_edge_id == 1,
            r@.wf(),
    {
        let s = GraphStore {
            nodes: Vec::new(),
            edges: Vec::new(),
            events: Vec::new(),
            next_node_id: 1,
            next_edge_id: 1,
        };
        proof {
            assert(replay(s@.events) =~= nodes_map(s@.nodes));
        }
        s
    }

    /// Creates a node with a fresh id and journals one `Create` event
    /// carrying the new node as its `after` snapshot. Rejected (with
    /// nothing changed) when `agent`'s capability mode is not `Direct`.
    pub fn create_node(
        &mut self,
        kind: NodeKind,
        content: Value,
        metadata: Vec<(String, Value)>,
        agent: &AgentId,
        config: &CapabilityConfig,
        now: i64,
    ) -> (r: Result<u64, Error>)
        requires
            old(self)@.wf(),
            config@.wf(),
            old(self)@.next_node_id < u64::MAX,
        ensures
            final(self)@.wf(),
            r is Err <==> !(config@.caps_of(agent@).mode is Direct),
            r is Err ==> r == Err::<u64, Error>(Error::MutationNotPermitted) && final(self)@
                == old(self)@,
            r is Ok ==> ({
                let node = NodeV {
                    id: old(self)@.next_node_id,
                    kind: kind,
                    content: content@,
                    metadata: crate::schema::entries_view(metadata@),
                    created_at: now,
                    updated_at: now,
                };
                &&& r == Ok::<u64, Error>(old(self)@.next_node_id)
                &&& final(self)@.nodes == old(self)@.nodes.push(node)
                &&& final(self)@.edges == old(self)@.edges
                &&& final(self)@.events == old(self)@.events.push(
                    EventV {
                        agent: agent@,
                        operation: Operation::Create,
                        target: Target::Node(old(self)@.next_node_id),
                        before: None,
                        after: Some(node),
                        timestamp: now,
                    },
                )
                &&& final(self)@.next_node_id == old(self)@.next_node_id + 1
                &&& final(self)@.next_edge_id == old(self)@.next_edge_id
            }),
    {
        let caps = config.get_capabilities(agent);
        if !matches!(caps.mode, CapabilityMode::Direct) {
            return Err(Error::MutationNotPermitted);
        }
        let ghost pre = self@;
        let id = self.next_node_id;
        let node = StateNode {
            id,
            kind,
            content,
            metadata,
            created_at: now,
            updated_at: now,
        };
        let snapshot = node.clone();
        let event = StateEvent {
            agent: agent.clone(),
            operation: Operation::Create,
            target: Target::Node(id),
            before: None,
            after: Some(snapshot),
            timestamp: now,
        };
        self.nodes.push(node);
        self.events.push(event);
        self.next_node_id = id + 1;
        proof {
            let ghost post = self@;
            assert(post.nodes =~= pre.nodes.push(post.nodes.last()));
            assert(post.events =~= pre.events.push(post.events.last()));
            assert(post.events.drop_last() =~= pre.events);
            assert(post.nodes.drop_last() =~= pre.nodes);
            assert(replay(post.events) == apply_event(replay(pre.events), post.events.last()));
            assert(nodes_map(post.nodes) == nodes_map(pre.nodes).insert(
                post.nodes.last().id,
                post.nodes.last(),
            ));
            assert(replay(post.events) =~= nodes_map(post.nodes));
            assert(forall|j: int| 0 <= j < pre.nodes.len() ==> post.nodes[j] == pre.nodes[j]);
            assert(post.wf());
        }
        Ok(id)
    }

    /// The node with id `id`, if any (a lookup on an unknown id is an
    /// explicit absence, not an error).
    #[verifier::loop_isolation(false)]
    pub fn get_node(&self, id: u64) -> (r: Option<StateNode>)
        requires
            self@.wf(),
        ensures
            r is Some <==> node_has(self@.nodes, id),
            r is Some ==> r->0@ == node_of(self@.nodes, id),
    {
        let n = self.nodes.len();
        let mut i: usize = 0;
        while i < n
            invariant
                n == self.nodes.len(),
                i <= n,
                forall|j: int| 0 <= j < i ==> self@.nodes[j].id != id,
            decreases n - i,
        {
            if self.nodes[i].id == id {
                proof {
                    let ghost di = i as int;
                    assert(self@.nodes[di].id == id);
                    assert(node_has(self@.nodes, id));
                    let ghost k = node_index(self@.nodes, id);
                    assert(self@.nodes[k].id == id);
                    assert(k == di);
                }
                return Some(self.nodes[i].clone());
            }
            i = i + 1;
        }
        None
    }

    /// Replaces the content of node `id` and journals one `Update` event
    /// whose `before` and `after` snapshots are the node before and after
    /// the change; id, kind, metadata and creation time never change.
    /// Returns the updated node. Rejected (with nothing changed) when
    /// `agent`'s mode is not `Direct` or the node does not exist.
    #[verifier::loop_isolation(false)]
    pub fn update_node(
        &mut self,
        id: u64,
        content: Value,
        agent: &AgentId,
        config: &CapabilityConfig,
        now: i64,
    ) -> (r: Result<StateNode, Error>)
        requires
            old(self)@.wf(),
            config@.wf(),
        ensures
            final(self)@.wf(),
            !(config@.caps_of(agent@).mode is Direct) ==> r == Err::<StateNode, Error>(
                Error::MutationNotPermitted,
            ) && final(self)@ == old(self)@,
            config@.caps_of(agent@).mode is Direct && !node_has(old(self)@.nodes, id) ==> r
                == Err::<StateNode, Error>(Error::NodeNotFound) && final(self)@ == old(self)@,
            config@.caps_of(agent@).mode is Direct && node_has(old(self)@.nodes, id) ==> ({
                let before = node_of(old(self)@.nodes, id);
                let after = NodeV { content: content@, updated_at: now, ..before };
                &&& r is Ok
                &&& r->Ok_0@ == after
                &&& final(self)@.nodes == old(self)@.nodes.update(
                    node_index(old(self)@.nodes, id),
                    after,
                )
                &&& final(self)@.edges == old(self)@.edges
                &&& final(self)@.events == old(self)@.events.push(
                    EventV {
                        agent: agent@,
                        operation: Operation::Update,
                        target: Target::Node(id),
                        before: Some(before),
                        after: Some(after),
                        timestamp: now,
                    },
                )
                &&& final(self)@.next_node_id == old(self)@.next_node_id
                &&& final(self)@.next_edge_id == old(self)@.next_edge_id
            }),
    {
        let caps = config.get_capabilities(agent);
        if !matches!(caps.mode, CapabilityMode::Direct) {
            return Err(Error::MutationNotPermitted);
        }
        let ghost pre = self@;
        let n = self.nodes.len();
        let mut i: usize = 0;
        while i < n
            invariant
                n == self.nodes.len(),
                self@ == pre,
                i <= n,
                forall|j: int| 0 <= j < i ==> self@.nodes[j].id != id,
            decreases n - i,
        {
            if self.nodes[i].id == id {
                proof {
                    let ghost di = i as int;
                    assert(pre.nodes[di].id == id);
                    assert(node_has(pre.nodes, id));
                    let ghost k = node_index(pre.nodes, id);
                    assert(pre.nodes[k].id == id);
                    assert(k == di);
                }
                let before = self.nodes[i].clone();
                let updated = StateNode {
                    id: before.id,
                    kind: before.kind,
                    content,
                    metadata: clone_entries(&before.metadata),
                    created_at: before.created_at,
                    updated_at: now,
                };
                let result = updated.clone();
                let after_snap = updated.clone();
                let event = StateEvent {
                    agent: agent.clone(),
                    operation: Operation::Update,
                    target: Target::Node(id),
                    before: Some(before),
                    after: Some(after_snap),
                    timestamp: now,
                };
                let ghost afterv = updated@;
                self.nodes.set(i, updated);
                self.events.push(event);
                proof {
                    let ghost di = i as int;
                    let ghost post = self@;
                    assert(afterv == NodeV {
                        content: content@,
                        updated_at: now,
                        ..node_of(pre.nodes, id)
                    });
                    assert(post.nodes =~= pre.nodes.update(di, afterv));
                    assert(post.events =~= pre.events.push(post.events.last()));
                    assert(post.events.drop_last() =~= pre.events);
                    assert(replay(post.events) == apply_event(
                        replay(pre.events),
                        post.events.last(),
                    ));
                    lemma_nodes_map_update(pre.nodes, di, afterv);
                    assert(replay(post.events) =~= nodes_map(post.nodes));
                    assert(forall|j: int|
                        0 <= j < n && j != di ==> post.nodes[j] == pre.nodes[j]);
                    assert(post.wf());
                }
                return Ok(result);
            }
            i = i + 1;
        }
        proof {
            assert(!node_has(pre.nodes, id));
        }
        Err(Error::NodeNotFound)
    }

    /// Deletes node `id` and journals one `Delete` event carrying the
    /// deleted node as its `before` snapshot. Edges that reference the
    /// node are deliberately left in place (dangling edges are defined
    /// behavior). Rejected (with nothing changed) when `agent`'s mode is
    /// not `Direct` or the node does not exist.
    #[verifier::loop_isolation(false)]
    pub fn delete_node(
        &mut self,
        id: u64,
        agent: &AgentId,
        config: &CapabilityConfig,
        now: i64,
    ) -> (r: Result<(), Error>)
        requires
            old(self)@.wf(),
            config@.wf(),
        ensures
            final(self)@.wf(),
            !(config@.caps_of(agent@).mode is Direct) ==> r == Err::<(), Error>(
                Error::MutationNotPermitted,
            ) && final(self)@ == old(self)@,
            config@.caps_of(agent@).mode is Direct && !node_has(old(self)@.nodes, id) ==> r
                == Err::<(), Error>(Error::NodeNotFound) && final(self)@ == old(self)@,
            config@.caps_of(agent@).mode is Direct && node_has(old(self)@.nodes, id) ==> ({
                let before = node_of(old(self)@.nodes, id);
                &&& r is Ok
                &&& final(self)@.nodes == old(self)@.nodes.remove(
                    node_index(old(self)@.nodes, id),
                )
                &&& final(self)@.edges == old(self)@.edges
                &&& final(self)@.events == old(self)@.events.push(
                    EventV {
                        agent: agent@,
                        operation: Operation::Delete,
                        target: Target::Node(id),
                        before: Some(before),
                        after: None,
                        timestamp: now,
                    },
                )
                &&& final(self)@.next_node_id == old(self)@.next_node_id
                &&& final(self)@.next_edge_id == old(self)@.next_edge_id
            }),
    {
        let caps = config.get_capabilities(agent);
        if !matches!(caps.mode, CapabilityMode::Direct) {
            return Err(Error::MutationNotPermitted);
        }
        let ghost pre = self@;
        let n = self.nodes.len();
        let mut i: usize = 0;
        while i < n
            invariant
                n == self.nodes.len(),
                self@ == pre,
                i <= n,
                forall|j: int| 0 <= j < i ==> self@.nodes[j].id != id,
            decreases n - i,
        {
            if self.nodes[i].id == id {
                proof {
                    let ghost di = i as int;
                    assert(pre.nodes[di].id == id);
                    assert(node_has(pre.nodes, id));
                    let ghost k = node_index(pre.nodes, id);
                    assert(pre.nodes[k].id == id);
                    assert(k == di);
                }
                let before = self.nodes.remove(i);
                let event = StateEvent {
                    agent: agent.clone(),
                    operation: Operation::Delete,
                    target: Target::Node(id),
                    before: Some(before),
                    after: None,
                    timestamp: now,
                };
                self.events.push(event);
                proof {
                    let ghost di = i as int;
                    let ghost post = self@;
                    assert(post.nodes =~= pre.nodes.remove(di));
                    assert(post.events =~= pre.events.push(post.events.last()));
                    assert(post.events.drop_last() =~= pre.events);
                    assert(replay(post.events) == apply_event(
                        replay(pre.events),
                        post.events.last(),
                    ));
                    lemma_nodes_map_remove(pre.nodes, di);
                    assert(replay(post.events) =~= nodes_map(post.nodes));
                    assert(forall|p: int, q: int|
                        0 <= p < q < post.nodes.len() ==> post.nodes[p].id != post.nodes[q].id)
                        by {
                        assert(forall|p: int|
                            0 <= p < post.nodes.len() ==> post.nodes[p] == (if p < di {
                                pre.nodes[p]
                            } else {
                                pre.nodes[p + 1]
                            }));
                    }
                    assert(post.wf());
                }
                return Ok(());
            }
            i = i + 1;
        }
        proof {
            assert(!node_has(pre.nodes, id));
        }
        Err(Error::NodeNotFound)
    }

    /// Creates an edge with a fresh id between two node ids (endpoints
    /// are not required to exist: an edge references nodes but does not
    /// own them) and journals one `Link` event. Rejected (with nothing
    /// changed) when `agent`'s mode is not `Direct`.
    pub fn create_edge(
        &mut self,
        from: u64,
        to: u64,
        kind: EdgeKind,
        weight: Option<u64>,
        agent: &AgentId,
        config: &CapabilityConfig,
        now: i64,
    ) -> (r: Result<u64, Error>)
        requires
            old(self)@.wf(),
            config@.wf(),
            old(self)@.next_edge_id < u64::MAX,
        ensures
            final(self)@.wf(),
            r is Err <==> !(config@.caps_of(agent@).mode is Direct),
            r is Err ==> r == Err::<u64, Error>(Error::MutationNotPermitted) && final(self)@
                == old(self)@,
            r is Ok ==> ({
                let edge = StateEdge {
                    id: old(self)@.next_edge_id,
                    from: from,
                    to: to,
                    kind: kind,
                    weight: weight,
                };
                &&& r == Ok::<u64, Error>(old(self)@.next_edge_id)
                &&& final(self)@.nodes == old(self)@.nodes
                &&& final(self)@.edges == old(self)@.edges.push(edge)
                &&& final(self)@.events == old(self)@.events.push(
                    EventV {
                        agent: agent@,
                        operation: Operation::Link,
                        target: Target::Edge(old(self)@.next_edge_id),
                        before: None,
                        after: None,
                        timestamp: now,
                    },
                )
                &&& final(self)@.next_node_id == old(self)@.next_node_id
                &&& final(self)@.next_edge_id == old(self)@.next_edge_id + 1
            }),
    {
        let caps = config.get_capabilities(agent);
        if !matches!(caps.mode, CapabilityMode::Direct) {
            return Err(Error::MutationNotPermitted);
        }
        let ghost pre = self@;
        let id = self.next_edge_id;
        let edge = StateEdge { id, from, to, kind, weight };
        let event = StateEvent {
            agent: agent.clone(),
            operation: Operation::Link,
            target: Target::Edge(id),
            before: None,
            after: None,
            timestamp: now,
        };
        self.edges.push(edge);
        self.events.push(event);
        self.next_edge_id = id + 1;
        proof {
            let ghost post = self@;
            assert(post.events =~= pre.events.push(post.events.last()));
            assert(post.events.drop_last() =~= pre.events);
            assert(replay(post.events) == apply_event(replay(pre.events), post.events.last()));
            assert(post.nodes =~= pre.nodes);
            assert(replay(post.events) =~= nodes_map(post.nodes));
            assert(post.edges =~= pre.edges.push(edge));
            assert(forall|j: int| 0 <= j < pre.edges.len() ==> post.edges[j] == pre.edges[j]);
            assert(post.wf());
        }
        Ok(id)
    }

    /// Deletes edge `id` and journals one `Unlink` event. Rejected (with
    /// nothing changed) when `agent`'s mode is not `Direct` or the edge
    /// does not exist.
    #[verifier::loop_isolation(false)]
    pub fn delete_edge(
        &mut self,
        id: u64,
        agent: &AgentId,
        config: &CapabilityConfig,
        now: i64,
    ) -> (r: Result<(), Error>)
        requires
            old(self)@.wf(),
            config@.wf(),
        ensures
            final(self)@.wf(),
            !(config@.caps_of(agent@).mode is Direct) ==> r == Err::<(), Error>(
                Error::MutationNotPermitted,
            ) && final(self)@ == old(self)@,
            config@.caps_of(agent@).mode is Direct && !edge_has(old(self)@.edges, id) ==> r
                == Err::<(), Error>(Error::EdgeNotFound) && final(self)@ == old(self)@,
            config@.caps_of(agent@).mode is Direct && edge_has(old(self)@.edges, id) ==> ({
                &&& r is Ok
                &&& final(self)@.nodes == old(self)@.nodes
                &&& final(self)@.edges == old(self)@.edges.remove(
                    edge_index(old(self)@.edges, id),
                )
                &&& final(self)@.events == old(self)@.events.push(
                    EventV {
                        agent: agent@,
                        operation: Operation::Unlink,
                        target: Target::Edge(id),
                        before: None,
                        after: None,
                        timestamp: now,
                    },
                )
                &&& final(self)@.next_node_id == old(self)@.next_node_id
                &&& final(self)@.next_edge_id == old(self)@.next_edge_id
            }),
    {
        let caps = config.get_capabilities(agent);
        if !matches!(caps.mode, CapabilityMode::Direct) {
            return Err(Error::MutationNotPermitted);
        }
        let ghost pre = self@;
        let n = self.edges.len();
        let mut i: usize = 0;
        while i < n
            invariant
                n == self.edges.len(),
                self@ == pre,
                i <= n,
                forall|j: int| 0 <= j < i ==> self@.edges[j].id != id,
            decreases n - i,
        {
            if self.edges[i].id == id {
                proof {
                    let ghost di = i as int;
                    assert(pre.edges[di].id == id);
                    assert(edge_has(pre.edges, id));
                    let ghost k = edge_index(pre.edges, id);
                    assert(pre.edges[k].id == id);
                    assert(k == di);
                }
                let _removed = self.edges.remove(i);
                let event = StateEvent {
                    agent: agent.clone(),
                    operation: Operation::Unlink,
                    target: Target::Edge(id),
                    before: None,
                    after: None,
                    timestamp: now,
                };
                self.events.push(event);
                proof {
                    let ghost di = i as int;
                    let ghost post = self@;
                    assert(post.edges =~= pre.edges.remove(di));
                    assert(post.events =~= pre.events.push(post.events.last()));
                    assert(post.events.drop_last() =~= pre.events);
                    assert(replay(post.events) == apply_event(
                        replay(pre.events),
                        post.events.last(),
                    ));
                    assert(post.nodes =~= pre.nodes);
                    assert(replay(post.events) =~= nodes_map(post.nodes));
                    assert(forall|p: int, q: int|
                        0 <= p < q < post.edges.len() ==> post.edges[p].id != post.edges[q].id)
                        by {
                        assert(forall|p: int|
                            0 <= p < post.edges.len() ==> post.edges[p] == (if p < di {
                                pre.edges[p]
                            } else {
                                pre.edges[p + 1]
                            }));
                    }
                    assert(post.wf());
                }
                return Ok(());
            }
            i = i + 1;
        }
        proof {
            assert(!edge_has(pre.edges, id));
        }
        Err(Error::EdgeNotFound)
    }

    /// Clones of the nodes matching the kind filter, in insertion order,
    /// at most `limit` of them (the first `limit` matches).
    #[verifier::loop_isolation(false)]
    pub fn list_nodes(&self, kind: Option<NodeKind>, limit: usize) -> (r: Vec<StateNode>)
        ensures
            select_nodes(self@.nodes, kind).len() <= limit ==> r.deep_view() == select_nodes(
                self@.nodes,
                kind,
            ),
            select_nodes(self@.nodes, kind).len() > limit ==> r.deep_view() == select_nodes(
                self@.nodes,
                kind,
            ).subrange(0, limit as int),
    {
        let n = self.nodes.len();
        let mut out: Vec<StateNode> = Vec::new();
        let mut i: usize = 0;
        while i < n
            invariant
                n == self.nodes.len(),
                i <= n,
                out.deep_view() == select_nodes(self@.nodes.subrange(0, i as int), kind),
            decreases n - i,
        {
            let ghost prev = out.deep_view();
            let matches_kind = match &kind {
                Some(k) => self.nodes[i].kind == *k,
                None => true,
            };
            if matches_kind {
                out.push(self.nodes[i].clone());
                proof {
                    assert(out.deep_view() =~= prev.push(self@.nodes[i as int]));
                }
            }
            proof {
                assert(self@.nodes.subrange(0, i + 1).drop_last() =~= self@.nodes.subrange(
                    0,
                    i as int,
                ));
                assert(self@.nodes.subrange(0, i + 1).last() == self@.nodes[i as int]);
            }
            i = i + 1;
        }
        proof {
            assert(self@.nodes.subrange(0, n as int) =~= self@.nodes);
        }
        if out.len() > limit {
            let ghost full = out.deep_view();
            out.truncate(limit);
            proof {
                assert(out.deep_view() =~= full.subrange(0, limit as int));
            }
        }
        out
    }

    /// The edges leaving node `id`, in insertion order. Dangling edges
    /// (whose endpoints no longer exist) are included.
    #[verifier::loop_isolation(false)]
    pub fn edges_from(&self, id: u64) -> (r: Vec<StateEdge>)
        ensures
            r@ == edges_from_of(self@.edges, id),
    {
        let n = self.edges.len();
        let mut out: Vec<StateEdge> = Vec::new();
        let mut i: usize = 0;
        while i < n
            invariant
                n == self.edges.len(),
                i <= n,
                out@ == edges_from_of(self@.edges.subrange(0, i as int), id),
            decreases n - i,
        {
            let ghost prev = out@;
            if self.edges[i].from == id {
                out.push(self.edges[i]);
                proof {
                    assert(out@ =~= prev.push(self@.edges[i as int]));
                }
            }
            proof {
                assert(self@.edges.subrange(0, i + 1).drop_last() =~= self@.edges.subrange(
                    0,
                    i as int,
                ));
                assert(self@.edges.subrange(0, i + 1).last() == self@.edges[i as int]);
            }
            i = i + 1;
        }
        proof {
            assert(self@.edges.subrange(0, n as int) =~= self@.edges);
        }
        out
    }

    /// The edges entering node `id`, in insertion order. Dangling edges
    /// are included.
    #[verifier::loop_isolation(false)]
    pub fn edges_to(&self, id: u64) -> (r: Vec<StateEdge>)
        ensures
            r@ == edges_to_of(self@.edges, id),
    {
        let n = self.edges.len();
        let mut out: Vec<StateEdge> = Vec::new();
        let mut i: usize = 0;
        while i < n
            invariant
                n == self.edges.len(),
                i <= n,
                out@ == edges_to_of(self@.edges.subrange(0, i as int), id),
            decreases n - i,
        {
            let ghost prev = out@;
            if self.edges[i].to == id {
                out.push(self.edges[i]);
                proof {
                    assert(out@ =~= prev.push(self@.edges[i as int]));
                }
            }
            proof {
                assert(self@.edges.subrange(0, i + 1).drop_last() =~= self@.edges.subrange(
                    0,
                    i as int,
                ));
                assert(self@.edges.subrange(0, i + 1).last() == self@.edges[i as int]);
            }
            i = i + 1;
        }
        proof {
            assert(self@.edges.subrange(0, n as int) =~= self@.edges);
        }
        out
    }

    /// Clones of the most recent `limit` events, oldest first.
    #[verifier::loop_isolation(false)]
    pub fn get_events(&self, limit: usize) -> (r: Vec<StateEvent>)
        ensures
            r.deep_view() == self@.events.subrange(
                if self@.events.len() <= limit {
                    0int
                } else {
                    self@.events.len() - limit
                },
                self@.events.len() as int,
            ),
    {
        let n = self.events.len();
        let start = if n <= limit {
            0
        } else {
            n - limit
        };
        let mut out: Vec<StateEvent> = Vec::new();
        let mut i: usize = start;
        while i < n
            invariant
                n == self.events.len(),
                start <= i <= n,
                out.deep_view() =~= self@.events.subrange(start as int, i as int),
            decreases n - i,
        {
            let ghost prev = out.deep_view();
            out.push(self.events[i].clone());
            proof {
                assert(out.deep_view() =~= prev.push(self@.events[i as int]));
                assert(self@.events.subrange(start as int, i + 1) =~= self@.events.subrange(
                    start as int,
                    i as int,
                ).push(self@.events[i as int]));
            }
            i = i + 1;
        }
        out
    }

    /// The nodes within `depth` hops of node `id`, breadth-first over
    /// edges of any kind in either direction, deduplicated, in node-list
    /// order, excluding `id` itself. Depth 0 returns the empty list.
    /// Cycles terminate (visited ids are tracked), and traversal runs
    /// over edge endpoints by id, so paths may pass through ids whose
    /// node has been deleted; only existing nodes are returned.
    #[verifier::loop_isolation(false)]
    pub fn neighbors(&self, id: u64, depth: usize) -> (r: Vec<StateNode>)
        ensures
            r.deep_view() == neighbor_sel(self@.nodes, self@.edges, id, depth as nat),
    {
        let mut reached: Vec<u64> = Vec::new();
        reached.push(id);
        proof {
            assert(reach(self@.edges, id, 0) == set![id]);
            assert(forall|m: u64|
                #[trigger] reached@.contains(m) <==> reach(self@.edges, id, 0).contains(m)) by {
                assert(reached@[0] == id);
                assert(forall|m: u64| reached@.contains(m) ==> m == id);
                assert(reached@.contains(id));
            }
        }
        let mut hop: usize = 0;
        while hop < depth
            invariant
                hop <= depth,
                forall|m: u64|
                    #[trigger] reached@.contains(m) <==> reach(
                        self@.edges,
                        id,
                        hop as nat,
                    ).contains(m),
                forall|p: int, q: int| 0 <= p < q < reached@.len() ==> reached@[p] != reached@[q],
            decreases depth - hop,
        {
            let ghost prev_set = reach(self@.edges, id, hop as nat);
            let mut next: Vec<u64> = copy_ids(&reached);
            let rn = reached.len();
            let mut ui: usize = 0;
            while ui < rn
                invariant
                    rn == reached.len(),
                    ui <= rn,
                    forall|m: u64|
                        #[trigger] next@.contains(m) <==> prev_set.contains(m) || (exists|j: int|
                            0 <= j < ui && adjacent(self@.edges, reached@[j], m)),
                    forall|p: int, q: int| 0 <= p < q < next@.len() ==> next@[p] != next@[q],
                decreases rn - ui,
            {
                let u = reached[ui];
                let en = self.edges.len();
                let mut ei: usize = 0;
                while ei < en
                    invariant
                        en == self.edges.len(),
                        ei <= en,
                        u == reached@[ui as int],
                        forall|m: u64|
                            #[trigger] next@.contains(m) <==> prev_set.contains(m) || (exists|
                                j: int,
                            |
                                0 <= j < ui && adjacent(self@.edges, reached@[j], m)) || (exists|
                                k: int,
                            |
                                0 <= k < ei && connects(self@.edges[k], u, m)),
                        forall|p: int, q: int| 0 <= p < q < next@.len() ==> next@[p] != next@[q],
                    decreases en - ei,
                {
                    let from = self.edges[ei].from;
                    let to = self.edges[ei].to;
                    if from == u {
                        if !contains_id(&next, to) {
                            let ghost prevn = next@;
                            next.push(to);
                            proof {
                                assert(forall|m: u64|
                                    #[trigger] next@.contains(m) <==> prevn.contains(m) || m
                                        == to) by {
                                    assert(next@.drop_last() =~= prevn);
                                    assert(next@.last() == to);
                                    assert(forall|m: u64|
                                        prevn.contains(m) ==> #[trigger] next@.contains(m)) by {
                                        assert(forall|j: int|
                                            0 <= j < prevn.len() ==> next@[j] == prevn[j]);
                                    }
                                }
                                assert(connects(self@.edges[ei as int], u, to));
                            }
                        }
                    }
                    let from2 = self.edges[ei].from;
                    if to == u {
                        if !contains_id(&next, from2) {
                            let ghost prevn = next@;
                            next.push(from2);
                            proof {
                                assert(forall|m: u64|
                                    #[trigger] next@.contains(m) <==> prevn.contains(m) || m
                                        == from2) by {
                                    assert(next@.drop_last() =~= prevn);
                                    assert(next@.last() == from2);
                                    assert(forall|m: u64|
                                        prevn.contains(m) ==> #[trigger] next@.contains(m)) by {
                                        assert(forall|j: int|
                                            0 <= j < prevn.len() ==> next@[j] == prevn[j]);
                                    }
                                }
                                assert(connects(self@.edges[ei as int], u, from2));
                            }
                        }
                    }
                    proof {
                        let ghost e = self@.edges[ei as int];
                        assert(forall|m: u64|
                            connects(e, u, m) ==> m == e.to || m == e.from);
                        assert(connects(e, u, e.to) ==> next@.contains(e.to));
                        assert(connects(e, u, e.from) ==> next@.contains(e.from));
                    }
                    ei = ei + 1;
                }
                ui = ui + 1;
            }
            proof {
                let ghost new_set = reach(self@.edges, id, (hop + 1) as nat);
                assert(new_set == prev_set.union(
                    Set::new(
                        |m: u64|
                            exists|n: u64| prev_set.contains(n) && adjacent(self@.edges, n, m),
                    ),
                ));
                assert(forall|m: u64| #[trigger] next@.contains(m) <==> new_set.contains(m)) by {
                    assert forall|m: u64| #[trigger] next@.contains(m) implies new_set.contains(
                        m,
                    ) by {
                        if !prev_set.contains(m) {
                            let j = choose|j: int|
                                0 <= j < rn && adjacent(self@.edges, reached@[j], m);
                            assert(reached@.contains(reached@[j]));
                            assert(prev_set.contains(reached@[j]));
                        }
                    }
                    assert forall|m: u64| new_set.contains(m) implies #[trigger] next@.contains(
                        m,
                    ) by {
                        if !prev_set.contains(m) {
                            let n = choose|n: u64|
                                prev_set.contains(n) && adjacent(self@.edges, n, m);
                            assert(reached@.contains(n));
                            let j = choose|j: int| 0 <= j < reached@.len() && reached@[j] == n;
                            assert(adjacent(self@.edges, reached@[j], m));
                        }
                    }
                }
            }
            reached = next;
            hop = hop + 1;
        }
        let n = self.nodes.len();
        let mut out: Vec<StateNode> = Vec::new();
        let mut i: usize = 0;
        while i < n
            invariant
                n == self.nodes.len(),
                i <= n,
                forall|m: u64|
                    #[trigger] reached@.contains(m) <==> reach(
                        self@.edges,
                        id,
                        depth as nat,
                    ).contains(m),
                out.deep_view() == neighbor_sel(
                    self@.nodes.subrange(0, i as int),
                    self@.edges,
                    id,
                    depth as nat,
                ),
            decreases n - i,
        {
            let ghost prev = out.deep_view();
            let nid = self.nodes[i].id;
            if nid != id && contains_id(&reached, nid) {
                out.push(self.nodes[i].clone());
                proof {
                    assert(out.deep_view() =~= prev.push(self@.nodes[i as int]));
                }
            }
            proof {
                assert(self@.nodes.subrange(0, i + 1).drop_last() =~= self@.nodes.subrange(
                    0,
                    i as int,
                ));
                assert(self@.nodes.subrange(0, i + 1).last() == self@.nodes[i as int]);
            }
            i = i + 1;
        }
        proof {
            assert(self@.nodes.subrange(0, n as int) =~= self@.nodes);
        }
        out
    }

    /// Clones of all events recorded by `agent`, in log order.
    #[verifier::loop_isolation(false)]
    pub fn events_by_agent(&self, agent: &AgentId) -> (r: Vec<StateEvent>)
        ensures
            r.deep_view() == events_by_of(self@.events, agent@),
    {
        let n = self.events.len();
        let mut out: Vec<StateEvent> = Vec::new();
        let mut i: usize = 0;
        while i < n
            invariant
                n == self.events.len(),
                i <= n,
                out.deep_view() == events_by_of(self@.events.subrange(0, i as int), agent@),
            decreases n - i,
        {
            let ghost prev = out.deep_view();
            if self.events[i].agent == *agent {
                out.push(self.events[i].clone());
                proof {
                    assert(out.deep_view() =~= prev.push(self@.events[i as int]));
                }
            }
            proof {
                assert(self@.events.subrange(0, i + 1).drop_last() =~= self@.events.subrange(
                    0,
                    i as int,
                ));
                assert(self@.events.subrange(0, i + 1).last() == self@.events[i as int]);
            }
            i = i + 1;
        }
        proof {
            assert(self@.events.subrange(0, n as int) =~= self@.events);
        }
        out
    }

    /// Clones of all events acting on `target`, in log order.
    #[verifier::loop_isolation(false)]
    pub fn events_for_target(&self, target: Target) -> (r: Vec<StateEvent>)
        ensures
            r.deep_view() == events_for_of(self@.events, target),
    {
        let n = self.events.len();
        let mut out: Vec<StateEvent> = Vec::new();
        let mut i: usize = 0;
        while i < n
            invariant
                n == self.events.len(),
                i <= n,
                out.deep_view() == events_for_of(self@.events.subrange(0, i as int), target),
            decreases n - i,
        {
            let ghost prev = out.deep_view();
            if self.events[i].target == target {
                out.push(self.events[i].clone());
                proof {
                    assert(out.deep_view() =~= prev.push(self@.events[i as int]));
                }
            }
            proof {
                assert(self@.events.subrange(0, i + 1).drop_last() =~= self@.events.subrange(
                    0,
                    i as int,
                ));
                assert(self@.events.subrange(0, i + 1).last() == self@.events[i as int]);
            }
            i = i + 1;
        }
        proof {
            assert(self@.events.subrange(0, n as int) =~= self@.events);
        }
        out
    }
}

} // verus!
