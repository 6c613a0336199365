use zawgl::graph::{EdgeIndex, Graph, NodeIndex};

fn collect_successors(graph: &Graph, n: &NodeIndex) -> Vec<NodeIndex> {
    let mut it = graph.successors(n);
    let mut res = Vec::new();
    while let Some(x) = it.next() {
        res.push(x);
    }
    res
}

fn collect_ancestors(graph: &Graph, n: &NodeIndex) -> Vec<NodeIndex> {
    let mut it = graph.ancestors(n);
    let mut res = Vec::new();
    while let Some(x) = it.next() {
        res.push(x);
    }
    res
}

#[test]
fn test_small_graph_it() {
    let mut graph = Graph::new();
    let n0 = graph.add_vertex();
    let n1 = graph.add_vertex();
    let n2 = graph.add_vertex();

    let e0 = graph.add_edge(n0, n1);
    let e1 = graph.add_edge(n1, n2);
    let e2 = graph.add_edge(n0, n2);

    let ed0 = graph.get_edge(e0);
    assert_eq!(ed0.source, n0);
    assert_eq!(ed0.target, n1);
    assert_eq!(ed0.next_outbound_edge, None);

    let nd0 = graph.get_vertex(n0);
    assert_eq!(nd0.first_outbound_edge, Some(e2));

    let ed2 = graph.get_edge(e2);
    assert_eq!(ed2.source, n0);
    assert_eq!(ed2.target, n2);
    assert_eq!(ed2.next_outbound_edge, Some(e0));

    let targets = collect_successors(&graph, &n0);
    assert_eq!(targets[0], n2);
    assert_eq!(targets[1], n1);
    assert_eq!(targets.len(), 2);

    let sources = collect_ancestors(&graph, &n2);
    assert_eq!(sources.len(), 2);
    let _ = e1;
}

#[test]
fn add_vertex_and_edge_return_positions() {
    let mut graph = Graph::new();
    assert_eq!(graph.add_vertex(), NodeIndex::new(0));
    assert_eq!(graph.add_vertex(), NodeIndex::new(1));
    assert_eq!(graph.nodes_len(), 2);
    assert_eq!(graph.add_edge(NodeIndex::new(1), NodeIndex::new(0)), EdgeIndex::new(0));
    assert_eq!(graph.add_edge(NodeIndex::new(1), NodeIndex::new(1)), EdgeIndex::new(1));
    assert_eq!(graph.edges_len(), 2);
    assert_eq!(graph.get_nodes().len(), 2);
    assert_eq!(graph.get_edges().len(), 2);
}

#[test]
fn successors_and_ancestors_are_newest_first() {
    let mut graph = Graph::new();
    let a = graph.add_vertex();
    let b = graph.add_vertex();
    let c = graph.add_vertex();
    graph.add_edge(a, b);
    graph.add_edge(c, b);
    graph.add_edge(a, c);
    graph.add_edge(a, a);
    assert_eq!(collect_successors(&graph, &a), vec![a, c, b]);
    assert_eq!(collect_successors(&graph, &b), vec![]);
    assert_eq!(collect_ancestors(&graph, &b), vec![c, a]);
    assert_eq!(collect_ancestors(&graph, &a), vec![a]);
    assert_eq!(graph.out_degree(&a), 3);
    assert_eq!(graph.in_degree(&b), 2);
    assert_eq!(graph.in_degree(&a), 1);
    assert_eq!(graph.out_degree(&b), 0);
}

#[test]
fn edge_walks_yield_edges_in_list_order() {
    let mut graph = Graph::new();
    let a = graph.add_vertex();
    let b = graph.add_vertex();
    let e0 = graph.add_edge(a, b);
    let e1 = graph.add_edge(b, a);
    let e2 = graph.add_edge(a, b);
    let mut out = graph.out_edges(&a);
    assert_eq!(out.next(), Some(e2));
    assert_eq!(out.next(), Some(e0));
    assert_eq!(out.next(), None);
    assert_eq!(out.next(), None);
    let mut inb = graph.in_edges(&a);
    assert_eq!(inb.next(), Some(e1));
    assert_eq!(inb.next(), None);
    assert_eq!(*graph.get_source_index(&e1), b);
    assert_eq!(*graph.get_target_index(&e1), a);
    let ids = graph.get_nodes_ids();
    assert_eq!(ids, vec![a, b]);
    assert_eq!(graph.get_vertex(b).get_first_inbound_edge(), Some(e2));
    assert_eq!(graph.get_vertex(b).get_first_outbound_edge(), Some(e1));
    assert_eq!(graph.get_edge(e2).get_next_inbound_edge(), Some(e0));
    assert_eq!(graph.get_edge(e2).get_next_outbound_edge(), Some(e0));
    assert_eq!(graph.get_edge(e1).get_source(), b);
    assert_eq!(graph.get_edge(e1).get_target(), a);
}

#[test]
fn degrees_add_up_to_edge_count() {
    let mut graph = Graph::new();
    let ids: Vec<NodeIndex> = (0..4).map(|_| graph.add_vertex()).collect();
    let pairs = [(0, 1), (1, 2), (2, 0), (0, 0), (3, 1), (0, 3)];
    for (s, t) in pairs {
        graph.add_edge(ids[s], ids[t]);
    }
    let out: usize = ids.iter().map(|n| graph.out_degree(n)).sum();
    let inn: usize = ids.iter().map(|n| graph.in_degree(n)).sum();
    assert_eq!(out, pairs.len());
    assert_eq!(inn, pairs.len());
    assert_eq!(graph.out_degree(&ids[0]), 3);
    assert_eq!(graph.in_degree(&ids[1]), 2);
}
