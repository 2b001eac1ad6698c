use gemini_bridge::bridge::{
    status_from_text, status_to_text, BridgeData, BridgeRequest, RequestStatus,
};
use gemini_bridge::graph::{GraphError, KnowledgeGraph, MAX_EDGES, MAX_NODES};
use gemini_bridge::memory::{
    clamp_importance, MemoryEntry, MemoryError, MemoryStore, IMPORTANCE_ONE, MAX_MEMORIES,
};

fn request(id: &str) -> BridgeRequest {
    BridgeRequest {
        id: id.to_string(),
        message: format!("run {}", id),
        status: RequestStatus::Pending,
    }
}

fn entry(agent: &str, timestamp: i64, importance: f32) -> MemoryEntry {
    MemoryEntry {
        id: format!("mem_{}", timestamp),
        agent: agent.to_string(),
        content: format!("note {}", timestamp),
        timestamp,
        importance: importance.to_bits(),
    }
}

#[test]
fn bridge_default_has_auto_approve_on() {
    let data = BridgeData::default();
    assert!(data.requests.is_empty());
    assert!(data.auto_approve);
}

#[test]
fn last_decision_by_id_wins() {
    let mut data = BridgeData::new();
    data.requests.push(request("a"));
    data.requests.push(request("b"));
    data.requests.push(request("c"));
    data.approve_request(&"a".to_string());
    data.reject_request(&"a".to_string());
    data.approve_request(&"b".to_string());
    data.reject_request(&"zzz".to_string());
    assert_eq!(data.requests[0].status, RequestStatus::Rejected);
    assert_eq!(data.requests[1].status, RequestStatus::Approved);
    assert_eq!(data.requests[2].status, RequestStatus::Pending);
    assert_eq!(data.requests[0].message, "run a");
    assert_eq!(data.requests.len(), 3);
}

#[test]
fn unknown_id_changes_nothing() {
    let mut data = BridgeData::new();
    data.requests.push(request("a"));
    data.approve_request(&"b".to_string());
    assert_eq!(data.requests[0].status, RequestStatus::Pending);
    assert_eq!(data.requests[0].id, "a");
}

#[test]
fn set_auto_approve_switches_flag() {
    let mut data = BridgeData::new();
    data.set_auto_approve(false);
    assert!(!data.auto_approve);
    data.set_auto_approve(true);
    assert!(data.auto_approve);
}

#[test]
fn inserting_past_bound_keeps_newest() {
    let mut store = MemoryStore::new();
    // timestamps out of order; the oldest is 500
    for i in 0..1001i64 {
        let ts = 1000 + ((i * 7919) % 1001);
        let agent = if i % 2 == 0 { "Alice" } else { "Bob" };
        store.insert(entry(agent, ts, 0.5));
    }
    assert_eq!(store.memories.len(), MAX_MEMORIES);
    assert!(store.memories.iter().all(|m| m.timestamp != 1000));
    for w in store.memories.windows(2) {
        assert!(w[0].timestamp >= w[1].timestamp);
    }
    assert_eq!(store.memories[0].timestamp, 2000);
    assert_eq!(store.memories[999].timestamp, 1001);
}

#[test]
fn within_bound_insertion_appends() {
    let mut store = MemoryStore::new();
    store.insert(entry("A", 5, 0.1));
    store.insert(entry("A", 9, 0.1));
    store.insert(entry("A", 7, 0.1));
    let ts: Vec<i64> = store.memories.iter().map(|m| m.timestamp).collect();
    assert_eq!(ts, vec![5, 9, 7]);
}

#[test]
fn equal_timestamps_past_bound_keep_earlier_entries() {
    let mut store = MemoryStore::new();
    for i in 0..1001i64 {
        let mut e = entry("A", 42, 0.5);
        e.id = format!("mem_{}", i);
        store.insert(e);
    }
    assert_eq!(store.memories.len(), 1000);
    assert_eq!(store.memories[0].id, "mem_0");
    assert_eq!(store.memories[999].id, "mem_999");
}

#[test]
fn top_memories_by_importance() {
    let mut store = MemoryStore::new();
    store.insert(entry("Bob", 1, 0.9));
    store.insert(entry("Bob", 2, 0.5));
    store.insert(entry("Bob", 3, 0.8));
    store.insert(entry("Alice", 4, 1.0));
    let top = store.get_agent_memories(&"Bob".to_string(), 2);
    assert_eq!(top.len(), 2);
    assert_eq!(f32::from_bits(top[0].importance), 0.9);
    assert_eq!(f32::from_bits(top[1].importance), 0.8);
    assert_eq!(top[0].agent, "Bob");
}

#[test]
fn agent_match_ignores_case_and_ties_go_to_newer() {
    let mut store = MemoryStore::new();
    store.insert(entry("bob", 10, 0.5));
    store.insert(entry("BOB", 20, 0.5));
    store.insert(entry("Alice", 30, 0.9));
    let top = store.get_agent_memories(&"Bob".to_string(), 10);
    let ts: Vec<i64> = top.iter().map(|m| m.timestamp).collect();
    assert_eq!(ts, vec![20, 10]);
    assert!(store.get_agent_memories(&"Carol".to_string(), 3).is_empty());
    assert!(store.get_agent_memories(&"bob".to_string(), 0).is_empty());
}

#[test]
fn add_memory_builds_entry() {
    let mut store = MemoryStore::new();
    let e = store
        .add_agent_memory("Bob".to_string(), "hello".to_string(), 0.75f32.to_bits(), 1_700_000_123_456)
        .unwrap();
    assert_eq!(e.id, "mem_1700000123456");
    assert_eq!(e.timestamp, 1_700_000_123);
    assert_eq!(f32::from_bits(e.importance), 0.75);
    assert_eq!(e.agent, "Bob");
    assert_eq!(store.memories.len(), 1);
    assert_eq!(store.memories[0].id, "mem_1700000123456");
}

#[test]
fn add_memory_clamps_importance() {
    let mut store = MemoryStore::new();
    let high = store.add_agent_memory("A".to_string(), "x".to_string(), 3.5f32.to_bits(), 0).unwrap();
    let low = store.add_agent_memory("A".to_string(), "y".to_string(), (-2.0f32).to_bits(), 0).unwrap();
    assert_eq!(f32::from_bits(high.importance), 1.0);
    assert_eq!(f32::from_bits(low.importance), 0.0);
    assert_eq!(high.id, "mem_0");
    assert_eq!(clamp_importance(0.25f32.to_bits()), 0.25f32.to_bits());
    assert_eq!(clamp_importance(2.0f32.to_bits()), IMPORTANCE_ONE);
}

#[test]
fn add_memory_rejects_empty_fields() {
    let mut store = MemoryStore::new();
    let r1 = store.add_agent_memory(String::new(), "x".to_string(), 0, 1000);
    let r2 = store.add_agent_memory("A".to_string(), String::new(), 0, 1000);
    assert!(matches!(r1, Err(MemoryError::EmptyField)));
    assert!(matches!(r2, Err(MemoryError::EmptyField)));
    assert!(store.memories.is_empty());
}

#[test]
fn add_memory_rejects_long_content() {
    let mut store = MemoryStore::new();
    let long = "a".repeat(10_001);
    let r = store.add_agent_memory("A".to_string(), long, 0, 1000);
    assert!(matches!(r, Err(MemoryError::ContentTooLong)));
    assert!(store.memories.is_empty());
    let ok = store.add_agent_memory("A".to_string(), "é".repeat(10_000), 0, 1000);
    assert!(ok.is_ok());
}

#[test]
fn clear_removes_agent_ignoring_case() {
    let mut store = MemoryStore::new();
    store.insert(entry("Bob", 1, 0.1));
    store.insert(entry("alice", 2, 0.1));
    store.insert(entry("BOB", 3, 0.1));
    let removed = store.clear_agent_memories(&"bob".to_string());
    assert_eq!(removed, 2);
    assert_eq!(store.memories.len(), 1);
    assert_eq!(store.memories[0].agent, "alice");
    assert_eq!(store.clear_agent_memories(&"nobody".to_string()), 0);
}

#[test]
fn duplicate_node_is_refused() {
    let mut g = KnowledgeGraph::new();
    g.add_knowledge_node("n1".to_string(), "topic".to_string(), "One".to_string()).unwrap();
    let r = g.add_knowledge_node("n1".to_string(), "other".to_string(), "Again".to_string());
    assert!(matches!(r, Err(GraphError::DuplicateNode)));
    assert_eq!(g.nodes.len(), 1);
    assert_eq!(g.nodes[0].label, "One");
}

#[test]
fn edge_to_missing_node_is_refused() {
    let mut g = KnowledgeGraph::new();
    g.add_knowledge_node("a".to_string(), "t".to_string(), "A".to_string()).unwrap();
    let r = g.add_knowledge_edge("a".to_string(), "b".to_string(), "knows".to_string());
    assert!(matches!(r, Err(GraphError::MissingNode)));
    assert!(g.edges.is_empty());
    g.add_knowledge_node("b".to_string(), "t".to_string(), "B".to_string()).unwrap();
    let e = g.add_knowledge_edge("a".to_string(), "b".to_string(), "knows".to_string()).unwrap();
    assert_eq!(e.label, "knows");
    assert_eq!(g.edges.len(), 1);
}

#[test]
fn empty_graph_fields_are_refused() {
    let mut g = KnowledgeGraph::new();
    let r1 = g.add_knowledge_node(String::new(), "t".to_string(), "L".to_string());
    let r2 = g.add_knowledge_node("x".to_string(), "t".to_string(), String::new());
    let r3 = g.add_knowledge_edge("x".to_string(), String::new(), "l".to_string());
    assert!(matches!(r1, Err(GraphError::EmptyNodeField)));
    assert!(matches!(r2, Err(GraphError::EmptyNodeField)));
    assert!(matches!(r3, Err(GraphError::EmptyEdgeField)));
    assert!(g.nodes.is_empty());
}

#[test]
fn node_cap_drops_newest_node() {
    let mut g = KnowledgeGraph::new();
    for i in 0..MAX_NODES {
        g.add_knowledge_node(format!("n{}", i), "t".to_string(), "L".to_string()).unwrap();
    }
    let r = g.add_knowledge_node("extra".to_string(), "t".to_string(), "L".to_string());
    assert!(r.is_ok());
    assert_eq!(g.nodes.len(), MAX_NODES);
    assert!(g.nodes.iter().all(|n| n.id != "extra"));
}

#[test]
fn edge_cap_keeps_first_edges() {
    let mut g = KnowledgeGraph::new();
    g.add_knowledge_node("a".to_string(), "t".to_string(), "A".to_string()).unwrap();
    for i in 0..MAX_EDGES + 1 {
        g.add_knowledge_edge("a".to_string(), "a".to_string(), format!("e{}", i)).unwrap();
    }
    assert_eq!(g.edges.len(), MAX_EDGES);
    assert_eq!(g.edges[MAX_EDGES - 1].label, format!("e{}", MAX_EDGES - 1));
}

#[test]
fn marked_entries_are_ranked_and_cut() {
    let mut store = MemoryStore::new();
    store.insert(entry("x", 1, 0.2));
    store.insert(entry("y", 2, 0.7));
    store.insert(entry("z", 3, 0.7));
    store.insert(entry("w", 4, 0.9));
    let top = store.top_selected(&vec![true, true, true, false], 2);
    let ts: Vec<i64> = top.iter().map(|m| m.timestamp).collect();
    assert_eq!(ts, vec![3, 2]);
    assert!(store.top_selected(&vec![false; 4], 5).is_empty());
}

#[test]
fn agent_marks_ignore_case() {
    let mut store = MemoryStore::new();
    store.insert(entry("Bob", 1, 0.2));
    store.insert(entry("alice", 2, 0.2));
    store.insert(entry("bOB", 3, 0.2));
    assert_eq!(store.agent_marks(&"BOB".to_string()), vec![true, false, true]);
}

#[test]
fn retain_selected_keeps_marked_in_order() {
    let mut store = MemoryStore::new();
    store.insert(entry("a", 1, 0.2));
    store.insert(entry("b", 2, 0.2));
    store.insert(entry("c", 3, 0.2));
    let removed = store.retain_selected(&vec![true, false, true]);
    assert_eq!(removed, 1);
    let ts: Vec<i64> = store.memories.iter().map(|m| m.timestamp).collect();
    assert_eq!(ts, vec![1, 3]);
}

#[test]
fn status_texts_round_trip() {
    assert_eq!(status_from_text("approved"), RequestStatus::Approved);
    assert_eq!(status_from_text("rejected"), RequestStatus::Rejected);
    assert_eq!(status_from_text("pending"), RequestStatus::Pending);
    assert_eq!(status_from_text("on hold"), RequestStatus::Pending);
    assert_eq!(status_to_text(RequestStatus::Approved), "approved");
    assert_eq!(status_to_text(RequestStatus::Pending), "pending");
    assert_eq!(status_to_text(RequestStatus::Rejected), "rejected");
}
