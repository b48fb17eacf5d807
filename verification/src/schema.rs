//! Identity and schema value types shared by the store and the governance
//! layer: agent identities, node/edge/operation kinds, and the structured
//! payload values that node content and proposal payloads are made of.
//!
//! Each type that holds a `String` or a `Vec` has a mathematical view
//! (`AgentIdV`, `ValueV`, ...) over `Seq`, and the contracts of the crate
//! speak of those views.

use vstd::prelude::*;

verus! {

/// An identified actor: one of the built-in identities, or a dynamically
/// registered extension module known by name.
#[derive(Debug)]
pub enum AgentId {
    User,
    Assistant,
    Llama,
    System,
    Module(String),
}

/// Mathematical view of an [`AgentId`]: module names become `Seq<char>`.
pub enum AgentIdV {
    User,
    Assistant,
    Llama,
    System,
    Module(Seq<char>),
}

impl View for AgentId {
    type V = AgentIdV;

    open spec fn view(&self) -> AgentIdV {
        match self {
            AgentId::User => AgentIdV::User,
            AgentId::Assistant => AgentIdV::Assistant,
            AgentId::Llama => AgentIdV::Llama,
            AgentId::System => AgentIdV::System,
            AgentId::Module(name) => AgentIdV::Module(name@),
        }
    }
}

impl DeepView for AgentId {
    type V = AgentIdV;

    open spec fn deep_view(&self) -> AgentIdV {
        self.view()
    }
}

impl Clone for AgentId {
    fn clone(&self) -> (r: Self)
        ensures
            r@ == self@,
    {
        match self {
            AgentId::User => AgentId::User,
            AgentId::Assistant => AgentId::Assistant,
            AgentId::Llama => AgentId::Llama,
            AgentId::System => AgentId::System,
            AgentId::Module(name) => AgentId::Module(name.clone()),
        }
    }
}

impl PartialEq for AgentId {
    fn eq(&self, other: &Self) -> (r: bool) {
        match (self, other) {
            (AgentId::User, AgentId::User) => true,
            (AgentId::Assistant, AgentId::Assistant) => true,
            (AgentId::Llama, AgentId::Llama) => true,
            (AgentId::System, AgentId::System) => true,
            (AgentId::Module(a), AgentId::Module(b)) => a.eq(b),
            _ => false,
        }
    }
}

impl Eq for AgentId {

}

impl vstd::std_specs::cmp::PartialEqSpecImpl for AgentId {
    open spec fn obeys_eq_spec() -> bool {
        true
    }

    open spec fn eq_spec(&self, other: &Self) -> bool {
        self@ == other@
    }
}

/// The fixed enumeration of node kinds.
#[derive(Debug, Clone, Copy, PartialEq, Eq, Structural)]
pub enum NodeKind {
    Conversation,
    Project,
    Insight,
    Task,
    Context,
    Module,
    Agent,
}

/// The fixed enumeration of edge kinds.
#[derive(Debug, Clone, Copy, PartialEq, Eq, Structural)]
pub enum EdgeKind {
    References,
    DerivedFrom,
    RelatedTo,
    PartOf,
    Blocks,
    Enables,
    Supersedes,
}

/// The kind of a store mutation, as recorded on events and proposals.
#[derive(Debug, Clone, Copy, PartialEq, Eq, Structural)]
pub enum Operation {
    Create,
    Update,
    Delete,
    Link,
    Unlink,
}

/// An opaque structured payload: a tree of null / bool / integer / string /
/// array / object values. Node content, node metadata values and proposal
/// payloads are of this type; the store never inspects their shape.
#[derive(Debug, PartialEq, Eq)]
pub enum Value {
    Null,
    Bool(bool),
    Int(i64),
    Text(String),
    Arr(Vec<Value>),
    Obj(Vec<(String, Value)>),
}

/// Mathematical view of a [`Value`].
pub enum ValueV {
    Null,
    Bool(bool),
    Int(i64),
    Text(Seq<char>),
    Arr(Seq<ValueV>),
    Obj(Seq<(Seq<char>, ValueV)>),
}

/// View of a single payload value.
pub open spec fn value_view(v: Value) -> ValueV
    decreases v,
{
    match v {
        Value::Null => ValueV::Null,
        Value::Bool(b) => ValueV::Bool(b),
        Value::Int(i) => ValueV::Int(i),
        Value::Text(s) => ValueV::Text(s@),
        Value::Arr(items) => ValueV::Arr(values_view(items@)),
        Value::Obj(entries) => ValueV::Obj(entries_view(entries@)),
    }
}

/// Elementwise view of a sequence of payload values.
pub open spec fn values_view(s: Seq<Value>) -> Seq<ValueV>
    decreases s,
{
    if s.len() == 0 {
        Seq::empty()
    } else {
        values_view(s.drop_last()).push(value_view(s.last()))
    }
}

/// Elementwise view of a sequence of keyed payload entries.
pub open spec fn entries_view(s: Seq<(String, Value)>) -> Seq<(Seq<char>, ValueV)>
    decreases s,
{
    if s.len() == 0 {
        Seq::empty()
    } else {
        entries_view(s.drop_last()).push((s.last().0@, value_view(s.last().1)))
    }
}

impl View for Value {
    type V = ValueV;

    open spec fn view(&self) -> ValueV {
        value_view(*self)
    }
}

impl DeepView for Value {
    type V = ValueV;

    open spec fn deep_view(&self) -> ValueV {
        value_view(*self)
    }
}

impl Clone for Value {
    fn clone(&self) -> (r: Self)
        ensures
            r@ == self@,
    {
        clone_value(self)
    }
}

/// Structural copy of a payload value, equal to the original at view level.
pub fn clone_value(v: &Value) -> (r: Value)
    ensures
        value_view(r) == value_view(*v),
    decreases *v,
{
    match v {
        Value::Null => Value::Null,
        Value::Bool(b) => Value::Bool(*b),
        Value::Int(i) => Value::Int(*i),
        Value::Text(s) => Value::Text(s.clone()),
        Value::Arr(items) => {
            proof {
                broadcast use vstd::std_specs::vec::group_vec_axioms;

                assert(decreases_to!(*v => *items));
                assert(decreases_to!(*items => items@));
            }
            Value::Arr(clone_values(items))
        },
        Value::Obj(entries) => {
            proof {
                broadcast use vstd::std_specs::vec::group_vec_axioms;

                assert(decreases_to!(*v => *entries));
                assert(decreases_to!(*entries => entries@));
            }
            Value::Obj(clone_entries(entries))
        },
    }
}

fn clone_values(items: &Vec<Value>) -> (r: Vec<Value>)
    ensures
        values_view(r@) == values_view(items@),
    decreases items@,
{
    let mut out: Vec<Value> = Vec::new();
    let mut i: usize = 0;
    while i < items.len()
        invariant
            i <= items.len(),
            values_view(out@) == values_view(items@.subrange(0, i as int)),
        decreases items.len() - i,
    {
        proof {
            broadcast use vstd::seq::axiom_seq_index_decreases;

            assert(decreases_to!(items@ => items@[i as int]));
            assert(items@[i as int] == items[i as int]);
        }
        let ghost prev = out@;
        let item = clone_value(&items[i]);
        out.push(item);
        proof {
            assert(out@.drop_last() =~= prev);
            assert(items@.subrange(0, i + 1).drop_last() =~= items@.subrange(0, i as int));
            assert(items@.subrange(0, i + 1).last() == items@[i as int]);
        }
        i = i + 1;
    }
    proof {
        assert(items@.subrange(0, items@.len() as int) =~= items@);
    }
    out
}

/// A graph node: a stable identity carrying a structured content value and
/// keyed metadata. The id and kind never change after creation; updates
/// replace the content and bump `updated_at`.
#[derive(Debug, PartialEq, Eq)]
pub struct StateNode {
    pub id: u64,
    pub kind: NodeKind,
    pub content: Value,
    pub metadata: Vec<(String, Value)>,
    pub created_at: i64,
    pub updated_at: i64,
}

/// Mathematical view of a [`StateNode`].
pub struct NodeV {
    pub id: u64,
    pub kind: NodeKind,
    pub content: ValueV,
    pub metadata: Seq<(Seq<char>, ValueV)>,
    pub created_at: i64,
    pub updated_at: i64,
}

impl View for StateNode {
    type V = NodeV;

    open spec fn view(&self) -> NodeV {
        NodeV {
            id: self.id,
            kind: self.kind,
            content: value_view(self.content),
            metadata: entries_view(self.metadata@),
            created_at: self.created_at,
            updated_at: self.updated_at,
        }
    }
}

impl DeepView for StateNode {
    type V = NodeV;

    open spec fn deep_view(&self) -> NodeV {
        self.view()
    }
}

impl Clone for StateNode {
    fn clone(&self) -> (r: Self)
        ensures
            r@ == self@,
    {
        StateNode {
            id: self.id,
            kind: self.kind,
            content: clone_value(&self.content),
            metadata: clone_entries(&self.metadata),
            created_at: self.created_at,
            updated_at: self.updated_at,
        }
    }
}

/// A directed edge between two nodes, referenced by their ids. An edge does
/// not own its endpoints: deleting a node leaves edges that mention it in
/// place. The optional weight is a fixed-point value in thousandths.
#[derive(Debug, Clone, Copy, PartialEq, Eq)]
pub struct StateEdge {
    pub id: u64,
    pub from: u64,
    pub to: u64,
    pub kind: EdgeKind,
    pub weight: Option<u64>,
}

/// What an event or a proposal acts on: a node or an edge, by id.
#[derive(Debug, Clone, Copy, PartialEq, Eq, Structural)]
pub enum Target {
    Node(u64),
    Edge(u64),
}

/// An immutable audit record of one store mutation. Events are appended by
/// the store itself, exactly one per mutating call, and never change.
#[derive(Debug, PartialEq, Eq)]
pub struct StateEvent {
    pub agent: AgentId,
    pub operation: Operation,
    pub target: Target,
    pub before: Option<StateNode>,
    pub after: Option<StateNode>,
    pub timestamp: i64,
}

/// Mathematical view of a [`StateEvent`].
pub struct EventV {
    pub agent: AgentIdV,
    pub operation: Operation,
    pub target: Target,
    pub before: Option<NodeV>,
    pub after: Option<NodeV>,
    pub timestamp: i64,
}

impl View for StateEvent {
    type V = EventV;

    open spec fn view(&self) -> EventV {
        EventV {
            agent: self.agent@,
            operation: self.operation,
            target: self.target,
            before: self.before.deep_view(),
            after: self.after.deep_view(),
            timestamp: self.timestamp,
        }
    }
}

impl DeepView for StateEvent {
    type V = EventV;

    open spec fn deep_view(&self) -> EventV {
        self.view()
    }
}

impl Clone for StateEvent {
    fn clone(&self) -> (r: Self)
        ensures
            r@ == self@,
    {
        let before = match &self.before {
            Some(n) => Some(n.clone()),
            None => None,
        };
        let after = match &self.after {
            Some(n) => Some(n.clone()),
            None => None,
        };
        StateEvent {
            agent: self.agent.clone(),
            operation: self.operation,
            target: self.target,
            before,
            after,
            timestamp: self.timestamp,
        }
    }
}

pub(crate) fn clone_entries(entries: &Vec<(String, Value)>) -> (r: Vec<(String, Value)>)
    ensures
        entries_view(r@) == entries_view(entries@),
    decreases entries@,
{
    let mut out: Vec<(String, Value)> = Vec::new();
    let mut i: usize = 0;
    while i < entries.len()
        invariant
            i <= entries.len(),
            entries_view(out@) == entries_view(entries@.subrange(0, i as int)),
        decreases entries.len() - i,
    {
        proof {
            broadcast use vstd::seq::axiom_seq_index_decreases;

            assert(decreases_to!(entries@ => entries@[i as int]));
            assert(entries@[i as int] == entries[i as int]);
        }
        let ghost prev = out@;
        let key = entries[i].0.clone();
        let val = clone_value(&entries[i].1);
        out.push((key, val));
        proof {
            assert(out@.drop_last() =~= prev);
            assert(entries@.subrange(0, i + 1).drop_last() =~= entries@.subrange(0, i as int));
            assert(entries@.subrange(0, i + 1).last() == entries@[i as int]);
        }
        i = i + 1;
    }
    proof {
        assert(entries@.subrange(0, entries@.len() as int) =~= entries@);
    }
    out
}

} // verus!
