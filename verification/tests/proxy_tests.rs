use zawgl::proxy::{
    add_vertex, extract_nodes_labels, insert_padded, needs_all_nodes, pattern_node_ids,
    DbEdgeData, DbVertexData, EdgeWalk, PatternNode, ProxyNodeId, ProxyRelationshipId,
    ProxyTables, Lookup,
};
use std::collections::HashSet;

fn vdata(inb: Option<u64>, out: Option<u64>) -> DbVertexData {
    DbVertexData { first_inbound_edge: inb, first_outbound_edge: out }
}

#[test]
fn ids_compare_by_store_id() {
    assert_eq!(ProxyNodeId::new(1, 5), ProxyNodeId::new(2, 5));
    assert_ne!(ProxyNodeId::new(1, 5), ProxyNodeId::new(1, 6));
    assert_eq!(ProxyNodeId::new_db(5).mem_id, 0);
    assert_eq!(ProxyNodeId::new_db(5).get_store_id(), 5);
    assert_eq!(ProxyRelationshipId::new_db(3), ProxyRelationshipId::new(0, 3));
    assert_eq!(ProxyRelationshipId::new(4, 3).get_store_id(), 3);
}

#[test]
fn add_vertex_appends_with_store_links() {
    let mut vertices = Vec::new();
    let (pid, v) = add_vertex(&mut vertices, 40, vdata(Some(7), None));
    assert_eq!(pid.mem_id, 0);
    assert_eq!(pid.store_id, 40);
    assert_eq!(v.first_inbound_edge, Some(ProxyRelationshipId::new_db(7)));
    assert_eq!(v.first_outbound_edge, None);
    let (pid2, _) = add_vertex(&mut vertices, 41, vdata(None, None));
    assert_eq!(pid2.mem_id, 1);
    assert_eq!(vertices.len(), 2);
}

#[test]
fn tables_load_vertices_and_edges() {
    let mut t = ProxyTables::new();
    assert!(t.cached_vertex_data(10).is_none());
    let (a, _) = t.record_vertex_data(10, vdata(None, None));
    let (b, _) = t.record_vertex_data(11, vdata(None, Some(99)));
    let (cached, _) = t.cached_vertex_data(11).unwrap();
    assert_eq!(cached.mem_id, 1);
    let e = DbEdgeData { source: 10, target: 11, next_inbound_edge: Some(3), next_outbound_edge: None };
    let pid = t.add_edge(a, b, &e, 500);
    assert_eq!(pid, ProxyRelationshipId::new(0, 500));
    // the source had no outbound head, the target had no inbound head
    assert_eq!(t.vertex(0).first_outbound_edge, Some(pid));
    assert_eq!(t.vertex(1).first_inbound_edge, Some(pid));
    // an existing head is kept
    assert_eq!(t.vertex(1).first_outbound_edge, Some(ProxyRelationshipId::new_db(99)));
    assert_eq!(t.edge(0).next_inbound_edge, Some(ProxyRelationshipId::new_db(3)));
    // walking: the edge is not loaded until recorded
    assert_eq!(t.edge_walk_step(Some(ProxyRelationshipId::new_db(500)), true), EdgeWalk::Fetch(500));
    t.record_edge(500, pid, e);
    assert_eq!(
        t.edge_walk_step(Some(ProxyRelationshipId::new_db(500)), false),
        EdgeWalk::Yield(pid, Some(ProxyRelationshipId::new_db(3)))
    );
    assert_eq!(t.edge_walk_step(Some(ProxyRelationshipId::new_db(500)), true), EdgeWalk::Yield(pid, None));
    assert_eq!(t.edge_walk_step(None, true), EdgeWalk::End);
    assert_eq!(t.first_edge(&a, true), Some(pid));
    assert_eq!(t.first_edge(&b, false), Some(pid));
    assert_eq!(t.edge_end(&pid, true).store_id, 10);
    assert_eq!(t.edge_end(&pid, false).store_id, 11);
}

fn pnode(id: Option<u64>, labels: &[&str]) -> PatternNode {
    PatternNode { id, labels: labels.iter().map(|s| s.to_string()).collect() }
}

#[test]
fn pattern_ids_are_the_unlabelled_fixed_vertices() {
    let pattern = vec![
        pnode(Some(1), &["Person"]),
        pnode(Some(2), &[]),
        pnode(None, &["City", "Place"]),
        pnode(Some(3), &[]),
    ];
    let labels = extract_nodes_labels(&pattern);
    assert_eq!(labels, vec!["Person".to_string(), "City".to_string(), "Place".to_string()]);
    assert_eq!(pattern_node_ids(&pattern, &labels), vec![2, 3]);
    assert!(!needs_all_nodes(&pattern));
    let pattern2 = vec![pnode(None, &[]), pnode(Some(4), &["X"])];
    assert!(needs_all_nodes(&pattern2));
    let other = vec!["Y".to_string()];
    assert_eq!(pattern_node_ids(&pattern2, &other), vec![4]);
}

#[test]
fn padded_insert_fills_with_blanks() {
    let mut v = vec![1, 2];
    insert_padded(&mut v, 4, 9, &|| 0);
    assert_eq!(v, vec![1, 2, 0, 0, 9]);
    insert_padded(&mut v, 1, 7, &|| 0);
    assert_eq!(v, vec![1, 7, 2, 0, 0, 9]);
    insert_padded(&mut v, 6, 8, &|| 0);
    assert_eq!(v, vec![1, 7, 2, 0, 0, 9, 8]);
}

#[test]
fn lookups_use_filled_slots_only() {
    let mut t = ProxyTables::new();
    let (a, _) = t.record_vertex_data(10, vdata(None, None));
    let (_b, _) = t.record_vertex_data(11, vdata(None, None));
    let has_id = |x: &Option<u64>| x.is_some();
    let loaded: Vec<Option<u64>> = vec![Some(10)];
    assert_eq!(t.node_lookup(&loaded, &has_id, 10), Lookup::Cached(0));
    assert_eq!(t.node_lookup(&loaded, &has_id, 11), Lookup::Retrieve(true));
    assert_eq!(t.node_lookup(&loaded, &has_id, 12), Lookup::Retrieve(false));
    let blank: Vec<Option<u64>> = vec![None, None];
    assert_eq!(t.node_lookup(&blank, &has_id, 11), Lookup::Retrieve(true));
    let e = DbEdgeData { source: 10, target: 11, next_inbound_edge: None, next_outbound_edge: None };
    let pid = t.add_edge(a, a, &e, 7);
    assert_eq!(t.relationship_lookup(&loaded, &has_id, 7), Lookup::Retrieve(false));
    t.record_edge(7, pid, e);
    assert_eq!(t.relationship_lookup(&loaded, &has_id, 7), Lookup::Cached(0));
    assert_eq!(t.edge_entry(7).map(|x| x.0), Some(pid));
    assert_eq!(t.vertex_entry(11).map(|x| x.0.mem_id), Some(1));
    assert_eq!(t.vertices_len(), 2);
    assert_eq!(t.edges_len(), 1);
}

#[test]
fn node_ids_hash_by_store_id() {
    let mut set = HashSet::new();
    set.insert(ProxyNodeId::new(1, 5));
    assert!(set.contains(&ProxyNodeId::new(2, 5)));
    assert!(!set.contains(&ProxyNodeId::new(1, 6)));
}
