use elegant_state::AgentId;
use elegant_state::CapabilityConfig;
use elegant_state::EdgeKind;
use elegant_state::Error;
use elegant_state::GraphStore;
use elegant_state::NodeKind;
use elegant_state::Operation;
use elegant_state::Target;
use elegant_state::Value;

fn obj(key: &str, v: Value) -> Value {
    Value::Obj(vec![(key.to_string(), v)])
}

#[test]
fn event_log_counts_mutating_calls() {
    let mut store = GraphStore::new();
    let config = CapabilityConfig::new();
    let sys = AgentId::System;

    let a = store
        .create_node(NodeKind::Task, obj("x", Value::Int(1)), Vec::new(), &sys, &config, 10)
        .unwrap();
    let b = store
        .create_node(NodeKind::Insight, Value::Null, Vec::new(), &sys, &config, 20)
        .unwrap();
    store.update_node(a, obj("x", Value::Int(2)), &sys, &config, 30).unwrap();
    store.delete_node(b, &sys, &config, 40).unwrap();

    let events = store.get_events(100);
    assert_eq!(events.len(), 4);
    assert_eq!(events[0].operation, Operation::Create);
    assert_eq!(events[1].operation, Operation::Create);
    assert_eq!(events[2].operation, Operation::Update);
    assert_eq!(events[3].operation, Operation::Delete);
    assert_eq!(events[0].target, Target::Node(a));
    assert_eq!(events[3].target, Target::Node(b));
}

#[test]
fn replaying_after_snapshots_rebuilds_state() {
    let mut store = GraphStore::new();
    let config = CapabilityConfig::new();
    let sys = AgentId::System;

    let a = store
        .create_node(NodeKind::Task, Value::Int(1), Vec::new(), &sys, &config, 10)
        .unwrap();
    let b = store
        .create_node(NodeKind::Task, Value::Int(2), Vec::new(), &sys, &config, 20)
        .unwrap();
    store.update_node(a, Value::Int(3), &sys, &config, 30).unwrap();
    store.delete_node(b, &sys, &config, 40).unwrap();

    // Replay the events' snapshots by hand and compare with the store.
    let mut replayed: Vec<elegant_state::StateNode> = Vec::new();
    for ev in store.get_events(100) {
        match ev.target {
            Target::Node(id) => match ev.operation {
                Operation::Create | Operation::Update => {
                    let n = ev.after.expect("create/update events carry an after snapshot");
                    replayed.retain(|x| x.id != id);
                    replayed.push(n);
                }
                Operation::Delete => {
                    replayed.retain(|x| x.id != id);
                }
                _ => {}
            },
            Target::Edge(_) => {}
        }
    }
    let mut live = store.list_nodes(None, usize::MAX);
    replayed.sort_by_key(|n| n.id);
    live.sort_by_key(|n| n.id);
    assert_eq!(replayed, live);
    assert_eq!(live.len(), 1);
    assert_eq!(live[0].content, Value::Int(3));
}

#[test]
fn update_event_carries_before_and_after_snapshots() {
    let mut store = GraphStore::new();
    let config = CapabilityConfig::new();
    let sys = AgentId::System;

    let id = store
        .create_node(NodeKind::Context, Value::Int(1), Vec::new(), &sys, &config, 5)
        .unwrap();
    store.update_node(id, Value::Int(2), &sys, &config, 6).unwrap();

    let events = store.get_events(10);
    let update = &events[1];
    assert_eq!(update.before.as_ref().unwrap().content, Value::Int(1));
    assert_eq!(update.after.as_ref().unwrap().content, Value::Int(2));
    assert_eq!(update.before.as_ref().unwrap().id, id);
    assert_eq!(update.after.as_ref().unwrap().updated_at, 6);
    assert_eq!(update.after.as_ref().unwrap().created_at, 5);
}

#[test]
fn neighbors_depth_zero_is_empty_and_depth_one_deduplicates() {
    let mut store = GraphStore::new();
    let config = CapabilityConfig::new();
    let sys = AgentId::System;

    let n = store
        .create_node(NodeKind::Task, Value::Null, Vec::new(), &sys, &config, 1)
        .unwrap();
    let a = store
        .create_node(NodeKind::Task, Value::Null, Vec::new(), &sys, &config, 2)
        .unwrap();
    let b = store
        .create_node(NodeKind::Task, Value::Null, Vec::new(), &sys, &config, 3)
        .unwrap();
    // Two parallel edges between n and a (one in each direction), and a -> b.
    store.create_edge(n, a, EdgeKind::References, None, &sys, &config, 4).unwrap();
    store.create_edge(a, n, EdgeKind::RelatedTo, None, &sys, &config, 5).unwrap();
    store.create_edge(a, b, EdgeKind::Enables, None, &sys, &config, 6).unwrap();

    assert!(store.neighbors(n, 0).is_empty());

    let one_hop = store.neighbors(n, 1);
    assert_eq!(one_hop.len(), 1);
    assert_eq!(one_hop[0].id, a);

    let two_hops = store.neighbors(n, 2);
    let mut ids: Vec<u64> = two_hops.iter().map(|x| x.id).collect();
    ids.sort();
    assert_eq!(ids, vec![a, b]);
}

#[test]
fn neighbors_terminates_on_cycles() {
    let mut store = GraphStore::new();
    let config = CapabilityConfig::new();
    let sys = AgentId::System;

    let n = store
        .create_node(NodeKind::Task, Value::Null, Vec::new(), &sys, &config, 1)
        .unwrap();
    let a = store
        .create_node(NodeKind::Task, Value::Null, Vec::new(), &sys, &config, 2)
        .unwrap();
    store.create_edge(n, a, EdgeKind::References, None, &sys, &config, 3).unwrap();
    store.create_edge(a, n, EdgeKind::References, None, &sys, &config, 4).unwrap();

    let far = store.neighbors(n, 50);
    assert_eq!(far.len(), 1);
    assert_eq!(far[0].id, a);
}

#[test]
fn deleting_a_node_preserves_dangling_edges() {
    let mut store = GraphStore::new();
    let config = CapabilityConfig::new();
    let sys = AgentId::System;

    let n = store
        .create_node(NodeKind::Project, Value::Null, Vec::new(), &sys, &config, 1)
        .unwrap();
    let m = store
        .create_node(NodeKind::Task, Value::Null, Vec::new(), &sys, &config, 2)
        .unwrap();
    let e = store.create_edge(n, m, EdgeKind::Blocks, None, &sys, &config, 3).unwrap();

    store.delete_node(n, &sys, &config, 4).unwrap();

    let from = store.edges_from(n);
    assert_eq!(from.len(), 1);
    assert_eq!(from[0].id, e);
    assert_eq!(from[0].from, n);
    assert_eq!(from[0].to, m);
    let to = store.edges_to(m);
    assert_eq!(to.len(), 1);
    assert_eq!(to[0].id, e);
}

#[test]
fn traversal_runs_over_ids_even_through_deleted_nodes() {
    let mut store = GraphStore::new();
    let config = CapabilityConfig::new();
    let sys = AgentId::System;

    let n = store
        .create_node(NodeKind::Task, Value::Null, Vec::new(), &sys, &config, 1)
        .unwrap();
    let a = store
        .create_node(NodeKind::Task, Value::Null, Vec::new(), &sys, &config, 2)
        .unwrap();
    let b = store
        .create_node(NodeKind::Task, Value::Null, Vec::new(), &sys, &config, 3)
        .unwrap();
    store.create_edge(n, a, EdgeKind::References, None, &sys, &config, 4).unwrap();
    store.create_edge(a, b, EdgeKind::References, None, &sys, &config, 5).unwrap();
    store.delete_node(a, &sys, &config, 6).unwrap();

    // The middle node is gone, but its dangling edges still connect the
    // ids, so the far node is reached; only existing nodes are returned.
    let two_hops = store.neighbors(n, 2);
    assert_eq!(two_hops.len(), 1);
    assert_eq!(two_hops[0].id, b);
}

#[test]
fn edges_may_reference_nonexistent_endpoints() {
    let mut store = GraphStore::new();
    let config = CapabilityConfig::new();
    let sys = AgentId::System;

    // An edge references nodes by id but does not own them; endpoints
    // need not exist.
    let e = store.create_edge(100, 200, EdgeKind::RelatedTo, None, &sys, &config, 1).unwrap();
    let from = store.edges_from(100);
    assert_eq!(from.len(), 1);
    assert_eq!(from[0].id, e);
    assert!(store.get_node(100).is_none());
}

#[test]
fn lookups_on_unknown_ids_signal_absence() {
    let mut store = GraphStore::new();
    let config = CapabilityConfig::new();
    let sys = AgentId::System;

    assert!(store.get_node(99).is_none());
    assert_eq!(
        store.update_node(99, Value::Null, &sys, &config, 1),
        Err(Error::NodeNotFound)
    );
    assert_eq!(store.delete_node(99, &sys, &config, 1), Err(Error::NodeNotFound));
    assert_eq!(store.delete_edge(99, &sys, &config, 1), Err(Error::EdgeNotFound));
}

#[test]
fn non_direct_agents_cannot_mutate() {
    let mut store = GraphStore::new();
    let config = CapabilityConfig::new();
    let user = AgentId::User;

    // The default mode for every non-system agent is Proposal.
    assert_eq!(
        store.create_node(NodeKind::Task, Value::Null, Vec::new(), &user, &config, 1),
        Err(Error::MutationNotPermitted)
    );
    assert_eq!(store.get_events(10).len(), 0);

    // An explicitly Direct agent may mutate.
    let mut config2 = CapabilityConfig::new();
    let mut caps = config2.get_capabilities(&user);
    caps.mode = elegant_state::CapabilityMode::Direct;
    config2.set_capabilities(caps).unwrap();
    assert!(store
        .create_node(NodeKind::Task, Value::Null, Vec::new(), &user, &config2, 2)
        .is_ok());
}

#[test]
fn list_nodes_filters_by_kind_and_limits() {
    let mut store = GraphStore::new();
    let config = CapabilityConfig::new();
    let sys = AgentId::System;

    for i in 0..5 {
        store
            .create_node(NodeKind::Task, Value::Int(i), Vec::new(), &sys, &config, i)
            .unwrap();
    }
    store
        .create_node(NodeKind::Insight, Value::Null, Vec::new(), &sys, &config, 9)
        .unwrap();

    let tasks = store.list_nodes(Some(NodeKind::Task), usize::MAX);
    assert_eq!(tasks.len(), 5);
    let limited = store.list_nodes(Some(NodeKind::Task), 2);
    assert_eq!(limited.len(), 2);
    assert_eq!(limited[0].content, Value::Int(0));
    assert_eq!(limited[1].content, Value::Int(1));
    let all = store.list_nodes(None, usize::MAX);
    assert_eq!(all.len(), 6);
}

#[test]
fn get_events_returns_most_recent_suffix_in_order() {
    let mut store = GraphStore::new();
    let config = CapabilityConfig::new();
    let sys = AgentId::System;

    for i in 0..4 {
        store
            .create_node(NodeKind::Task, Value::Int(i), Vec::new(), &sys, &config, 100 + i)
            .unwrap();
    }
    let last_two = store.get_events(2);
    assert_eq!(last_two.len(), 2);
    assert_eq!(last_two[0].timestamp, 102);
    assert_eq!(last_two[1].timestamp, 103);
}

#[test]
fn events_for_target_filters_by_target() {
    let mut store = GraphStore::new();
    let config = CapabilityConfig::new();
    let sys = AgentId::System;

    let a = store
        .create_node(NodeKind::Task, Value::Int(0), Vec::new(), &sys, &config, 1)
        .unwrap();
    let b = store
        .create_node(NodeKind::Task, Value::Int(1), Vec::new(), &sys, &config, 2)
        .unwrap();
    store.update_node(a, Value::Int(2), &sys, &config, 3).unwrap();

    let for_a = store.events_for_target(Target::Node(a));
    assert_eq!(for_a.len(), 2);
    assert_eq!(for_a[0].operation, Operation::Create);
    assert_eq!(for_a[1].operation, Operation::Update);
    let for_b = store.events_for_target(Target::Node(b));
    assert_eq!(for_b.len(), 1);
}

#[test]
fn events_by_agent_filters_by_actor() {
    let mut store = GraphStore::new();
    let mut config = CapabilityConfig::new();
    let sys = AgentId::System;
    let user = AgentId::User;
    let mut caps = config.get_capabilities(&user);
    caps.mode = elegant_state::CapabilityMode::Direct;
    config.set_capabilities(caps).unwrap();

    store.create_node(NodeKind::Task, Value::Int(0), Vec::new(), &sys, &config, 1).unwrap();
    store.create_node(NodeKind::Task, Value::Int(1), Vec::new(), &user, &config, 2).unwrap();
    store.create_node(NodeKind::Task, Value::Int(2), Vec::new(), &sys, &config, 3).unwrap();

    let by_sys = store.events_by_agent(&sys);
    assert_eq!(by_sys.len(), 2);
    assert_eq!(by_sys[0].timestamp, 1);
    assert_eq!(by_sys[1].timestamp, 3);
    let by_user = store.events_by_agent(&user);
    assert_eq!(by_user.len(), 1);
    assert_eq!(by_user[0].timestamp, 2);
}

#[test]
fn node_ids_are_stable_across_updates() {
    let mut store = GraphStore::new();
    let config = CapabilityConfig::new();
    let sys = AgentId::System;

    let id = store
        .create_node(NodeKind::Module, Value::Int(1), Vec::new(), &sys, &config, 1)
        .unwrap();
    let updated = store.update_node(id, Value::Int(2), &sys, &config, 2).unwrap();
    assert_eq!(updated.id, id);
    assert_eq!(updated.kind, NodeKind::Module);
    assert_eq!(updated.created_at, 1);
    assert_eq!(updated.updated_at, 2);
    let fetched = store.get_node(id).unwrap();
    assert_eq!(fetched.content, Value::Int(2));
}
