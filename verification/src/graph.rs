use vstd::prelude::*;

verus! {

/// An identifier of a vertex or an edge of an in-memory graph: an index into
/// the graph's vertex or edge table.
pub trait MemGraphId {
    /// The table position that the identifier denotes.
    spec fn index_of(&self) -> nat;

    fn get_index(&self) -> (r: usize)
        ensures
            r as nat == self.index_of(),
    ;
}

/// Index of an edge in a `Graph`.
#[derive(PartialEq, Eq, Copy, Clone, Debug, Hash)]
pub struct EdgeIndex {
    index: usize,
}

impl View for EdgeIndex {
    type V = nat;

    closed spec fn view(&self) -> nat {
        self.index as nat
    }
}

impl EdgeIndex {
    pub fn new(index: usize) -> (r: Self)
        ensures
            r@ == index,
    {
        EdgeIndex { index: index }
    }
}

impl MemGraphId for EdgeIndex {
    open spec fn index_of(&self) -> nat {
        self@
    }

    fn get_index(&self) -> (r: usize) {
        self.index
    }
}

/// Index of a vertex in a `Graph`.
#[derive(PartialEq, Eq, Copy, Clone, Debug, Hash)]
pub struct NodeIndex {
    index: usize,
}

impl View for NodeIndex {
    type V = nat;

    closed spec fn view(&self) -> nat {
        self.index as nat
    }
}

impl NodeIndex {
    pub fn new(index: usize) -> (r: Self)
        ensures
            r@ == index,
    {
        NodeIndex { index: index }
    }
}

impl MemGraphId for NodeIndex {
    open spec fn index_of(&self) -> nat {
        self@
    }

    fn get_index(&self) -> (r: usize) {
        self.index
    }
}

/// Two indices are the same exactly when they denote the same position.
pub proof fn lemma_index_view_injective(a: EdgeIndex, b: EdgeIndex, c: NodeIndex, d: NodeIndex)
    ensures
        (a@ == b@) <==> (a == b),
        (c@ == d@) <==> (c == d),
{
}

/// The heads of the two edge lists of a vertex: the most recently added edge
/// leaving it and the most recently added edge entering it.
pub struct VertexData<EID: MemGraphId> {
    pub first_outbound_edge: Option<EID>,
    pub first_inbound_edge: Option<EID>,
}

impl<EID: MemGraphId + Copy> VertexData<EID> {
    pub fn get_first_outbound_edge(&self) -> (r: Option<EID>)
        ensures
            r == self.first_outbound_edge,
    {
        self.first_outbound_edge
    }

    pub fn get_first_inbound_edge(&self) -> (r: Option<EID>)
        ensures
            r == self.first_inbound_edge,
    {
        self.first_inbound_edge
    }
}

/// An edge: its two end points, and the links to the next (older) edge that
/// leaves the same source and to the next (older) edge that enters the same
/// target.
pub struct EdgeData<NID: MemGraphId, EID: MemGraphId> {
    pub source: NID,
    pub target: NID,
    pub next_outbound_edge: Option<EID>,
    pub next_inbound_edge: Option<EID>,
}

impl<NID: MemGraphId + Copy, EID: MemGraphId + Copy> EdgeData<NID, EID> {
    pub fn get_source(&self) -> (r: NID)
        ensures
            r == self.source,
    {
        self.source
    }

    pub fn get_target(&self) -> (r: NID)
        ensures
            r == self.target,
    {
        self.target
    }

    pub fn get_next_outbound_edge(&self) -> (r: Option<EID>)
        ensures
            r == self.next_outbound_edge,
    {
        self.next_outbound_edge
    }

    pub fn get_next_inbound_edge(&self) -> (r: Option<EID>)
        ensures
            r == self.next_inbound_edge,
    {
        self.next_inbound_edge
    }
}

/// The mathematical content of a graph: how many vertices it has, and its
/// edges as (source, target) pairs in the order in which they were added.
pub struct GraphModel {
    pub node_count: nat,
    pub edges: Seq<(nat, nat)>,
}

/// The end point of edge `e` that an adjacency list is keyed by: the source
/// for outbound lists, the target for inbound lists.
pub open spec fn end_point(e: (nat, nat), outbound: bool) -> nat {
    if outbound {
        e.0
    } else {
        e.1
    }
}

/// The largest edge index below `k` whose end point (source when `outbound`,
/// target otherwise) is `n`.
pub open spec fn latest_edge(es: Seq<(nat, nat)>, n: nat, k: nat, outbound: bool) -> Option<nat>
    decreases k,
{
    if k == 0 {
        None
    } else if end_point(es[k - 1], outbound) == n {
        Some((k - 1) as nat)
    } else {
        latest_edge(es, n, (k - 1) as nat, outbound)
    }
}

/// The indices below `k` of the edges whose end point is `n`, newest first.
pub open spec fn edge_list(es: Seq<(nat, nat)>, n: nat, k: nat, outbound: bool) -> Seq<nat>
    decreases k,
{
    if k == 0 {
        Seq::empty()
    } else if end_point(es[k - 1], outbound) == n {
        seq![(k - 1) as nat] + edge_list(es, n, (k - 1) as nat, outbound)
    } else {
        edge_list(es, n, (k - 1) as nat, outbound)
    }
}

/// The targets of the edges that leave `n`, newest edge first.
pub open spec fn successor_list(m: GraphModel, n: nat) -> Seq<nat> {
    edge_list(m.edges, n, m.edges.len(), true).map_values(|e: nat| m.edges[e as int].1)
}

/// The sources of the edges that enter `n`, newest edge first.
pub open spec fn ancestor_list(m: GraphModel, n: nat) -> Seq<nat> {
    edge_list(m.edges, n, m.edges.len(), false).map_values(|e: nat| m.edges[e as int].0)
}

/// The view of an optional index.
pub open spec fn opt_index<I: View<V = nat>>(o: Option<I>) -> Option<nat> {
    match o {
        Some(i) => Some(i@),
        None => None,
    }
}

/// The head of an adjacency list is the newest edge of the list, and the rest
/// of the list starts below it.
pub proof fn lemma_edge_list_head(es: Seq<(nat, nat)>, n: nat, k: nat, outbound: bool)
    requires
        k <= es.len(),
    ensures
        match latest_edge(es, n, k, outbound) {
            None => edge_list(es, n, k, outbound) == Seq::<nat>::empty(),
            Some(j) => {
                &&& j < k
                &&& end_point(es[j as int], outbound) == n
                &&& edge_list(es, n, k, outbound) == seq![j] + edge_list(es, n, j, outbound)
            },
        },
    decreases k,
{
    if k > 0 {
        lemma_edge_list_head(es, n, (k - 1) as nat, outbound);
    }
}

/// Adding an edge does not change the adjacency lists below the new edge.
pub proof fn lemma_push_keeps_prefix(
    es: Seq<(nat, nat)>,
    x: (nat, nat),
    n: nat,
    k: nat,
    outbound: bool,
)
    requires
        k <= es.len(),
    ensures
        latest_edge(es.push(x), n, k, outbound) == latest_edge(es, n, k, outbound),
        edge_list(es.push(x), n, k, outbound) == edge_list(es, n, k, outbound),
    decreases k,
{
    if k > 0 {
        lemma_push_keeps_prefix(es, x, n, (k - 1) as nat, outbound);
        assert(es.push(x)[k - 1] == es[k - 1]);
    }
}

/// Every index of an adjacency list is below its bound and has `n` as its end point.
pub proof fn lemma_edge_list_members(es: Seq<(nat, nat)>, n: nat, k: nat, outbound: bool)
    requires
        k <= es.len(),
    ensures
        forall|i: int|
            0 <= i < edge_list(es, n, k, outbound).len() ==> {
                &&& #[trigger] edge_list(es, n, k, outbound)[i] < k
                &&& end_point(es[edge_list(es, n, k, outbound)[i] as int], outbound) == n
            },
        edge_list(es, n, k, outbound).len() <= k,
    decreases k,
{
    if k > 0 {
        lemma_edge_list_members(es, n, (k - 1) as nat, outbound);
    }
}

/// The (source, target) pairs of an edge table.
pub open spec fn edge_pairs(edges: Seq<EdgeData<NodeIndex, EdgeIndex>>) -> Seq<(nat, nat)> {
    edges.map_values(|e: EdgeData<NodeIndex, EdgeIndex>| (e.source@, e.target@))
}

/// The links stored in the tables agree with the edge sequence: all end
/// points are vertices, the list heads of every vertex are its newest
/// edges, and every edge links to the next older edge of the same list.
pub open spec fn tables_wf(
    nodes: Seq<VertexData<EdgeIndex>>,
    edges: Seq<EdgeData<NodeIndex, EdgeIndex>>,
) -> bool {
    let es = edge_pairs(edges);
    let nn = nodes.len();
    &&& forall|e: int| 0 <= e < es.len() ==> #[trigger] es[e].0 < nn && es[e].1 < nn
    &&& forall|n: int|
        0 <= n < nn ==> opt_index(#[trigger] nodes[n].first_outbound_edge) == latest_edge(
            es,
            n as nat,
            es.len(),
            true,
        )
    &&& forall|n: int|
        0 <= n < nn ==> opt_index(#[trigger] nodes[n].first_inbound_edge) == latest_edge(
            es,
            n as nat,
            es.len(),
            false,
        )
    &&& forall|e: int|
        0 <= e < es.len() ==> opt_index(#[trigger] edges[e].next_outbound_edge) == latest_edge(
            es,
            es[e].0,
            e as nat,
            true,
        )
    &&& forall|e: int|
        0 <= e < es.len() ==> opt_index(#[trigger] edges[e].next_inbound_edge) == latest_edge(
            es,
            es[e].1,
            e as nat,
            false,
        )
}

/// Linking a new edge from `s` to `t` in front of the lists of its end points
/// keeps the tables consistent.
proof fn lemma_link_new_edge(
    nodes: Seq<VertexData<EdgeIndex>>,
    edges: Seq<EdgeData<NodeIndex, EdgeIndex>>,
    nodes2: Seq<VertexData<EdgeIndex>>,
    edges2: Seq<EdgeData<NodeIndex, EdgeIndex>>,
    s: nat,
    t: nat,
)
    requires
        tables_wf(nodes, edges),
        s < nodes.len(),
        t < nodes.len(),
        edges2.len() == edges.len() + 1,
        forall|e: int| 0 <= e < edges.len() ==> edges2[e] == edges[e],
        edges2[edges.len() as int].source@ == s,
        edges2[edges.len() as int].target@ == t,
        opt_index(edges2[edges.len() as int].next_outbound_edge) == opt_index(
            nodes[s as int].first_outbound_edge,
        ),
        opt_index(edges2[edges.len() as int].next_inbound_edge) == opt_index(
            nodes[t as int].first_inbound_edge,
        ),
        nodes2.len() == nodes.len(),
        forall|n: int| 0 <= n < nodes.len() && n != s && n != t ==> nodes2[n] == nodes[n],
        opt_index(nodes2[s as int].first_outbound_edge) == Some(edges.len() as nat),
        opt_index(nodes2[t as int].first_inbound_edge) == Some(edges.len() as nat),
        s != t ==> nodes2[s as int].first_inbound_edge == nodes[s as int].first_inbound_edge,
        s != t ==> nodes2[t as int].first_outbound_edge == nodes[t as int].first_outbound_edge,
    ensures
        tables_wf(nodes2, edges2),
        edge_pairs(edges2) == edge_pairs(edges).push((s, t)),
{
    let es = edge_pairs(edges);
    let es2 = edge_pairs(edges2);
    let x = (s, t);
    assert(es2 =~= es.push(x)) by {
        assert forall|e: int| 0 <= e < es2.len() implies es2[e] == es.push(x)[e] by {
            if e < edges.len() {
                assert(edges2[e] == edges[e]);
            }
        }
    }
    let nn = nodes2.len();
    assert forall|e: int| 0 <= e < es2.len() implies #[trigger] es2[e].0 < nn && es2[e].1 < nn by {
        if e < es.len() {
            assert(es2[e] == es[e]);
        }
    }
    assert forall|n: int| 0 <= n < nn implies opt_index(#[trigger] nodes2[n].first_outbound_edge)
        == latest_edge(es2, n as nat, es2.len(), true) by {
        lemma_push_keeps_prefix(es, x, n as nat, es.len(), true);
        assert(es2[es.len() as int] == x);
        if n != s && n != t {
            assert(nodes2[n] == nodes[n]);
        }
    }
    assert forall|n: int| 0 <= n < nn implies opt_index(#[trigger] nodes2[n].first_inbound_edge)
        == latest_edge(es2, n as nat, es2.len(), false) by {
        lemma_push_keeps_prefix(es, x, n as nat, es.len(), false);
        assert(es2[es.len() as int] == x);
        if n != s && n != t {
            assert(nodes2[n] == nodes[n]);
        }
    }
    assert forall|e: int| 0 <= e < es2.len() implies opt_index(
        #[trigger] edges2[e].next_outbound_edge,
    ) == latest_edge(es2, es2[e].0, e as nat, true) by {
        lemma_push_keeps_prefix(es, x, es2[e].0, e as nat, true);
        if e < es.len() {
            assert(edges2[e] == edges[e]);
            assert(es2[e] == es[e]);
        }
    }
    assert forall|e: int| 0 <= e < es2.len() implies opt_index(
        #[trigger] edges2[e].next_inbound_edge,
    ) == latest_edge(es2, es2[e].1, e as nat, false) by {
        lemma_push_keeps_prefix(es, x, es2[e].1, e as nat, false);
        if e < es.len() {
            assert(edges2[e] == edges[e]);
            assert(es2[e] == es[e]);
        }
    }
}

/// An in-memory directed multigraph. Each vertex keeps the head of its list of
/// outbound edges and of its list of inbound edges; each edge links to the
/// next edge of both lists. New edges are put at the head of the lists.
pub struct Graph {
    nodes: Vec<VertexData<EdgeIndex>>,
    edges: Vec<EdgeData<NodeIndex, EdgeIndex>>,
}

impl View for Graph {
    type V = GraphModel;

    closed spec fn view(&self) -> GraphModel {
        GraphModel {
            node_count: self.nodes@.len(),
            edges: edge_pairs(self.edges@),
        }
    }
}

impl Graph {
    /// The links stored in the tables agree with the edge sequence: all end
    /// points are vertices, the list heads of every vertex are its newest
    /// edges, and every edge links to the next older edge of the same list.
    pub closed spec fn wf(&self) -> bool {
        tables_wf(self.nodes@, self.edges@)
    }

    /// Facts that follow from `wf` for users of the graph.
    pub proof fn lemma_wf_edges_in_range(&self)
        requires
            self.wf(),
        ensures
            forall|e: int|
                0 <= e < self@.edges.len() ==> #[trigger] self@.edges[e].0 < self@.node_count
                    && self@.edges[e].1 < self@.node_count,
    {
    }

    pub fn new() -> (g: Self)
        ensures
            g.wf(),
            g@.node_count == 0,
            g@.edges == Seq::<(nat, nat)>::empty(),
    {
        let g = Graph { nodes: Vec::new(), edges: Vec::new() };
        assert(g@.edges =~= Seq::<(nat, nat)>::empty());
        g
    }

    pub fn add_vertex(&mut self) -> (r: NodeIndex)
        requires
            old(self).wf(),
        ensures
            final(self).wf(),
            r@ == old(self)@.node_count,
            final(self)@.node_count == old(self)@.node_count + 1,
            final(self)@.edges == old(self)@.edges,
    {
        let index = self.nodes.len();
        self.nodes.push(VertexData::<EdgeIndex> { first_outbound_edge: None, first_inbound_edge: None });
        proof {
            let es = self@.edges;
            assert(es =~= old(self)@.edges);
            assert forall|n: int| 0 <= n < self.nodes@.len() implies opt_index(
                #[trigger] self.nodes@[n].first_outbound_edge,
            ) == latest_edge(es, n as nat, es.len(), true) && opt_index(
                self.nodes@[n].first_inbound_edge,
            ) == latest_edge(es, n as nat, es.len(), false) by {
                if n == index {
                    self.lemma_no_edge_at_fresh_vertex(es, n as nat, es.len());
                }
            }
        }
        NodeIndex::new(index)
    }

    proof fn lemma_no_edge_at_fresh_vertex(&self, es: Seq<(nat, nat)>, n: nat, k: nat)
        requires
            k <= es.len(),
            forall|e: int| 0 <= e < es.len() ==> #[trigger] es[e].0 < n && es[e].1 < n,
        ensures
            latest_edge(es, n, k, true) == None::<nat>,
            latest_edge(es, n, k, false) == None::<nat>,
        decreases k,
    {
        if k > 0 {
            assert(es[k - 1].0 < n);
            self.lemma_no_edge_at_fresh_vertex(es, n, (k - 1) as nat);
        }
    }

    pub fn get_vertex(&self, id: NodeIndex) -> (r: &VertexData<EdgeIndex>)
        requires
            self.wf(),
            id@ < self@.node_count,
        ensures
            opt_index(r.first_outbound_edge) == latest_edge(
                self@.edges,
                id@,
                self@.edges.len(),
                true,
            ),
            opt_index(r.first_inbound_edge) == latest_edge(
                self@.edges,
                id@,
                self@.edges.len(),
                false,
            ),
    {
        &self.nodes[id.get_index()]
    }

    pub fn get_edge(&self, id: EdgeIndex) -> (r: &EdgeData<NodeIndex, EdgeIndex>)
        requires
            self.wf(),
            id@ < self@.edges.len(),
        ensures
            r.source@ == self@.edges[id@ as int].0,
            r.target@ == self@.edges[id@ as int].1,
            opt_index(r.next_outbound_edge) == latest_edge(
                self@.edges,
                self@.edges[id@ as int].0,
                id@,
                true,
            ),
            opt_index(r.next_inbound_edge) == latest_edge(
                self@.edges,
                self@.edges[id@ as int].1,
                id@,
                false,
            ),
    {
        &self.edges[id.get_index()]
    }

    pub fn add_edge(&mut self, source: NodeIndex, target: NodeIndex) -> (r: EdgeIndex)
        requires
            old(self).wf(),
            source@ < old(self)@.node_count,
            target@ < old(self)@.node_count,
        ensures
            final(self).wf(),
            r@ == old(self)@.edges.len(),
            final(self)@.node_count == old(self)@.node_count,
            final(self)@.edges == old(self)@.edges.push((source@, target@)),
    {
        let ghost es = self@.edges;
        let index = self.edges.len();
        let next_out = self.nodes[source.get_index()].first_outbound_edge;
        let next_in = self.nodes[target.get_index()].first_inbound_edge;
        self.edges.push(
            EdgeData {
                source: source,
                target: target,
                next_inbound_edge: next_in,
                next_outbound_edge: next_out,
            },
        );
        let si = source.get_index();
        let old_in = self.nodes[si].first_inbound_edge;
        self.nodes.set(
            si,
            VertexData { first_outbound_edge: Some(EdgeIndex::new(index)), first_inbound_edge: old_in },
        );
        let ti = target.get_index();
        let old_out = self.nodes[ti].first_outbound_edge;
        self.nodes.set(
            ti,
            VertexData { first_outbound_edge: old_out, first_inbound_edge: Some(EdgeIndex::new(index)) },
        );
        proof {
            lemma_link_new_edge(
                old(self).nodes@,
                old(self).edges@,
                self.nodes@,
                self.edges@,
                source@,
                target@,
            );
        }
        EdgeIndex::new(index)
    }

    pub fn successors<'g>(&'g self, source: &NodeIndex) -> (r: Successors<'g>)
        requires
            self.wf(),
            source@ < self@.node_count,
        ensures
            r.wf(),
            r.graph() == self,
            r.pending_targets() == successor_list(self@, source@),
    {
        let first_outbound_edge = self.nodes[source.get_index()].first_outbound_edge;
        let r = Successors { graph: self, current_edge_index: first_outbound_edge };
        proof {
            let es = self@.edges;
            lemma_edge_list_head(es, source@, es.len(), true);
        }
        r
    }

    pub fn ancestors<'g>(&'g self, target: &NodeIndex) -> (r: Ancestors<'g>)
        requires
            self.wf(),
            target@ < self@.node_count,
        ensures
            r.wf(),
            r.graph() == self,
            r.pending_sources() == ancestor_list(self@, target@),
    {
        let first_inbound_edge = self.nodes[target.get_index()].first_inbound_edge;
        let r = Ancestors { graph: self, current_edge_index: first_inbound_edge };
        proof {
            let es = self@.edges;
            lemma_edge_list_head(es, target@, es.len(), false);
        }
        r
    }

    pub fn out_edges<'g>(&'g self, source: &NodeIndex) -> (r: OutEdges<'g>)
        requires
            self.wf(),
            source@ < self@.node_count,
        ensures
            r.wf(),
            r.graph() == self,
            r.pending_edges() == edge_list(self@.edges, source@, self@.edges.len(), true),
    {
        let first_outbound_edge = self.nodes[source.get_index()].first_outbound_edge;
        let r = OutEdges { graph: self, current_edge_index: first_outbound_edge };
        proof {
            lemma_edge_list_head(self@.edges, source@, self@.edges.len(), true);
        }
        r
    }

    pub fn in_edges<'g>(&'g self, target: &NodeIndex) -> (r: InEdges<'g>)
        requires
            self.wf(),
            target@ < self@.node_count,
        ensures
            r.wf(),
            r.graph() == self,
            r.pending_edges() == edge_list(self@.edges, target@, self@.edges.len(), false),
    {
        let first_inbound_edge = self.nodes[target.get_index()].first_inbound_edge;
        let r = InEdges { graph: self, current_edge_index: first_inbound_edge };
        proof {
            lemma_edge_list_head(self@.edges, target@, self@.edges.len(), false);
        }
        r
    }

    pub fn get_source_index(&self, edge_index: &EdgeIndex) -> (r: &NodeIndex)
        requires
            self.wf(),
            edge_index@ < self@.edges.len(),
        ensures
            r@ == self@.edges[edge_index@ as int].0,
    {
        &self.edges[edge_index.get_index()].source
    }

    pub fn get_target_index(&self, edge_index: &EdgeIndex) -> (r: &NodeIndex)
        requires
            self.wf(),
            edge_index@ < self@.edges.len(),
        ensures
            r@ == self@.edges[edge_index@ as int].1,
    {
        &self.edges[edge_index.get_index()].target
    }

    pub fn nodes_len(&self) -> (r: usize)
        ensures
            r == self@.node_count,
    {
        self.nodes.len()
    }

    pub fn edges_len(&self) -> (r: usize)
        ensures
            r == self@.edges.len(),
    {
        self.edges.len()
    }

    pub fn get_nodes_ids(&self) -> (r: Vec<NodeIndex>)
        ensures
            r@.len() == self@.node_count,
            forall|i: int| 0 <= i < r@.len() ==> (#[trigger] r@[i])@ == i,
    {
        let n = self.nodes_len();
        let mut r: Vec<NodeIndex> = Vec::new();
        let mut i: usize = 0;
        while i < n
            invariant
                i <= n,
                n == self@.node_count,
                r@.len() == i,
                forall|j: int| 0 <= j < r@.len() ==> (#[trigger] r@[j])@ == j,
            decreases n - i,
        {
            r.push(NodeIndex::new(i));
            i = i + 1;
        }
        r
    }

    pub fn in_degree(&self, node: &NodeIndex) -> (r: usize)
        requires
            self.wf(),
            node@ < self@.node_count,
        ensures
            r == edge_list(self@.edges, node@, self@.edges.len(), false).len(),
    {
        let mut it = self.in_edges(node);
        let ghost total = it.pending_edges().len();
        let edges_len = self.edges.len();
        proof {
            lemma_edge_list_members(self@.edges, node@, self@.edges.len(), false);
        }
        let mut count: usize = 0;
        loop
            invariant
                it.wf(),
                it.graph() == self,
                count + it.pending_edges().len() == total,
                total <= self@.edges.len(),
                self@.edges.len() == edges_len,
                total == edge_list(self@.edges, node@, self@.edges.len(), false).len(),
            decreases it.pending_edges().len(),
        {
            match it.next() {
                None => {
                    return count;
                },
                Some(_) => {
                    count = count + 1;
                },
            }
        }
    }

    pub fn out_degree(&self, node: &NodeIndex) -> (r: usize)
        requires
            self.wf(),
            node@ < self@.node_count,
        ensures
            r == edge_list(self@.edges, node@, self@.edges.len(), true).len(),
    {
        let mut it = self.out_edges(node);
        let ghost total = it.pending_edges().len();
        let edges_len = self.edges.len();
        proof {
            lemma_edge_list_members(self@.edges, node@, self@.edges.len(), true);
        }
        let mut count: usize = 0;
        loop
            invariant
                it.wf(),
                it.graph() == self,
                count + it.pending_edges().len() == total,
                total <= self@.edges.len(),
                self@.edges.len() == edges_len,
                total == edge_list(self@.edges, node@, self@.edges.len(), true).len(),
            decreases it.pending_edges().len(),
        {
            match it.next() {
                None => {
                    return count;
                },
                Some(_) => {
                    count = count + 1;
                },
            }
        }
    }

    pub fn get_nodes(&self) -> (r: &Vec<VertexData<EdgeIndex>>)
        requires
            self.wf(),
        ensures
            r@.len() == self@.node_count,
            forall|n: int|
                0 <= n < r@.len() ==> opt_index(#[trigger] r@[n].first_outbound_edge)
                    == latest_edge(self@.edges, n as nat, self@.edges.len(), true) && opt_index(
                    r@[n].first_inbound_edge,
                ) == latest_edge(self@.edges, n as nat, self@.edges.len(), false),
    {
        &self.nodes
    }

    pub fn get_edges(&self) -> (r: &Vec<EdgeData<NodeIndex, EdgeIndex>>)
        requires
            self.wf(),
        ensures
            r@.len() == self@.edges.len(),
            forall|e: int|
                0 <= e < r@.len() ==> (#[trigger] r@[e]).source@ == self@.edges[e].0
                    && r@[e].target@ == self@.edges[e].1 && opt_index(r@[e].next_outbound_edge)
                    == latest_edge(self@.edges, self@.edges[e].0, e as nat, true) && opt_index(
                    r@[e].next_inbound_edge,
                ) == latest_edge(self@.edges, self@.edges[e].1, e as nat, false),
    {
        &self.edges
    }
}

/// Walks the outbound list of a vertex and yields the target of each edge.
pub struct Successors<'g> {
    graph: &'g Graph,
    current_edge_index: Option<EdgeIndex>,
}

/// Walks the inbound list of a vertex and yields the source of each edge.
pub struct Ancestors<'g> {
    graph: &'g Graph,
    current_edge_index: Option<EdgeIndex>,
}

/// The edges that a walk from `current` along the lists keyed by `outbound`
/// still has to visit, newest first.
pub open spec fn pending_walk(m: GraphModel, current: Option<nat>, outbound: bool) -> Seq<nat> {
    match current {
        None => Seq::empty(),
        Some(e) => seq![e] + edge_list(
            m.edges,
            end_point(m.edges[e as int], outbound),
            e,
            outbound,
        ),
    }
}

impl<'g> Successors<'g> {
    pub closed spec fn graph(&self) -> &'g Graph {
        self.graph
    }

    pub closed spec fn wf(&self) -> bool {
        &&& self.graph.wf()
        &&& match self.current_edge_index {
            Some(e) => e@ < self.graph@.edges.len(),
            None => true,
        }
    }

    /// The edges still to visit.
    pub closed spec fn pending_edges(&self) -> Seq<nat> {
        pending_walk(self.graph@, opt_index(self.current_edge_index), true)
    }

    /// The targets still to be yielded, in order.
    pub open spec fn pending_targets(&self) -> Seq<nat> {
        self.pending_edges().map_values(|e: nat| self.graph()@.edges[e as int].1)
    }

    pub fn next(&mut self) -> (r: Option<NodeIndex>)
        requires
            old(self).wf(),
        ensures
            final(self).wf(),
            final(self).graph() == old(self).graph(),
            old(self).pending_targets().len() == 0 ==> r is None
                && final(self).pending_targets() == old(self).pending_targets(),
            old(self).pending_targets().len() > 0 ==> (r matches Some(n)
                && n@ == old(self).pending_targets()[0]
                && final(self).pending_targets() == old(self).pending_targets().drop_first()),
    {
        match self.current_edge_index {
            None => None,
            Some(edge_index) => {
                let ghost es = self.graph@.edges;
                let ghost src = es[edge_index@ as int].0;
                let edge = &self.graph.edges[edge_index.get_index()];
                self.current_edge_index = edge.next_outbound_edge;
                proof {
                    lemma_edge_list_head(es, src, edge_index@, true);
                    let old_p = pending_walk(self.graph@, Some(edge_index@), true);
                    let new_p = pending_walk(self.graph@, opt_index(self.current_edge_index), true);
                    assert(new_p =~= old_p.drop_first());
                    assert(self.pending_targets() =~= old(self).pending_targets().drop_first());
                }
                Some(edge.target)
            },
        }
    }
}

impl<'g> Ancestors<'g> {
    pub closed spec fn graph(&self) -> &'g Graph {
        self.graph
    }

    pub closed spec fn wf(&self) -> bool {
        &&& self.graph.wf()
        &&& match self.current_edge_index {
            Some(e) => e@ < self.graph@.edges.len(),
            None => true,
        }
    }

    /// The edges still to visit.
    pub closed spec fn pending_edges(&self) -> Seq<nat> {
        pending_walk(self.graph@, opt_index(self.current_edge_index), false)
    }

    /// The sources still to be yielded, in order.
    pub open spec fn pending_sources(&self) -> Seq<nat> {
        self.pending_edges().map_values(|e: nat| self.graph()@.edges[e as int].0)
    }

    pub fn next(&mut self) -> (r: Option<NodeIndex>)
        requires
            old(self).wf(),
        ensures
            final(self).wf(),
            final(self).graph() == old(self).graph(),
            old(self).pending_sources().len() == 0 ==> r is None
                && final(self).pending_sources() == old(self).pending_sources(),
            old(self).pending_sources().len() > 0 ==> (r matches Some(n)
                && n@ == old(self).pending_sources()[0]
                && final(self).pending_sources() == old(self).pending_sources().drop_first()),
    {
        match self.current_edge_index {
            None => None,
            Some(edge_index) => {
                let ghost es = self.graph@.edges;
                let ghost tgt = es[edge_index@ as int].1;
                let edge = &self.graph.edges[edge_index.get_index()];
                self.current_edge_index = edge.next_inbound_edge;
                proof {
                    lemma_edge_list_head(es, tgt, edge_index@, false);
                    let old_p = pending_walk(self.graph@, Some(edge_index@), false);
                    let new_p = pending_walk(self.graph@, opt_index(self.current_edge_index), false);
                    assert(new_p =~= old_p.drop_first());
                    assert(self.pending_sources() =~= old(self).pending_sources().drop_first());
                }
                Some(edge.source)
            },
        }
    }
}


/// Walks the outbound list of a vertex and yields each edge.
pub struct OutEdges<'g> {
    graph: &'g Graph,
    current_edge_index: Option<EdgeIndex>,
}

/// Walks the inbound list of a vertex and yields each edge.
pub struct InEdges<'g> {
    graph: &'g Graph,
    current_edge_index: Option<EdgeIndex>,
}

impl<'g> OutEdges<'g> {
    pub closed spec fn graph(&self) -> &'g Graph {
        self.graph
    }

    pub closed spec fn wf(&self) -> bool {
        &&& self.graph.wf()
        &&& match self.current_edge_index {
            Some(e) => e@ < self.graph@.edges.len(),
            None => true,
        }
    }

    /// The edges still to be yielded, in order.
    pub closed spec fn pending_edges(&self) -> Seq<nat> {
        pending_walk(self.graph@, opt_index(self.current_edge_index), true)
    }

    pub fn next(&mut self) -> (r: Option<EdgeIndex>)
        requires
            old(self).wf(),
        ensures
            final(self).wf(),
            final(self).graph() == old(self).graph(),
            old(self).pending_edges().len() == 0 ==> r is None
                && final(self).pending_edges() == old(self).pending_edges(),
            old(self).pending_edges().len() > 0 ==> (r matches Some(e)
                && e@ == old(self).pending_edges()[0]
                && final(self).pending_edges() == old(self).pending_edges().drop_first()),
    {
        match self.current_edge_index {
            None => None,
            Some(edge_index) => {
                let ghost es = self.graph@.edges;
                let ghost src = es[edge_index@ as int].0;
                let edge = &self.graph.edges[edge_index.get_index()];
                let curr_edge_index = self.current_edge_index;
                self.current_edge_index = edge.next_outbound_edge;
                proof {
                    lemma_edge_list_head(es, src, edge_index@, true);
                    let old_p = pending_walk(self.graph@, Some(edge_index@), true);
                    let new_p = pending_walk(self.graph@, opt_index(self.current_edge_index), true);
                    assert(new_p =~= old_p.drop_first());
                }
                curr_edge_index
            },
        }
    }
}

impl<'g> InEdges<'g> {
    pub closed spec fn graph(&self) -> &'g Graph {
        self.graph
    }

    pub closed spec fn wf(&self) -> bool {
        &&& self.graph.wf()
        &&& match self.current_edge_index {
            Some(e) => e@ < self.graph@.edges.len(),
            None => true,
        }
    }

    /// The edges still to be yielded, in order.
    pub closed spec fn pending_edges(&self) -> Seq<nat> {
        pending_walk(self.graph@, opt_index(self.current_edge_index), false)
    }

    pub fn next(&mut self) -> (r: Option<EdgeIndex>)
        requires
            old(self).wf(),
        ensures
            final(self).wf(),
            final(self).graph() == old(self).graph(),
            old(self).pending_edges().len() == 0 ==> r is None
                && final(self).pending_edges() == old(self).pending_edges(),
            old(self).pending_edges().len() > 0 ==> (r matches Some(e)
                && e@ == old(self).pending_edges()[0]
                && final(self).pending_edges() == old(self).pending_edges().drop_first()),
    {
        match self.current_edge_index {
            None => None,
            Some(edge_index) => {
                let ghost es = self.graph@.edges;
                let ghost tgt = es[edge_index@ as int].1;
                let edge = &self.graph.edges[edge_index.get_index()];
                let curr_edge_index = self.current_edge_index;
                self.current_edge_index = edge.next_inbound_edge;
                proof {
                    lemma_edge_list_head(es, tgt, edge_index@, false);
                    let old_p = pending_walk(self.graph@, Some(edge_index@), false);
                    let new_p = pending_walk(self.graph@, opt_index(self.current_edge_index), false);
                    assert(new_p =~= old_p.drop_first());
                }
                curr_edge_index
            },
        }
    }
}

/// Adding an edge from `s` to `t` puts `t` in front of the successors of `s`
/// and leaves the successors of every other vertex as they were.
pub proof fn law_add_edge_successors(m: GraphModel, s: nat, t: nat, n: nat)
    ensures
        successor_list(GraphModel { node_count: m.node_count, edges: m.edges.push((s, t)) }, n)
            == if n == s {
            seq![t] + successor_list(m, n)
        } else {
            successor_list(m, n)
        },
{
    let es = m.edges;
    let es2 = es.push((s, t));
    let m2 = GraphModel { node_count: m.node_count, edges: es2 };
    lemma_push_list(es, (s, t), n, true);
    let l = edge_list(es, n, es.len(), true);
    let f = |e: nat| es[e as int].1;
    let f2 = |e: nat| es2[e as int].1;
    assert(l.map_values(f2) =~= l.map_values(f)) by {
        assert forall|i: int| 0 <= i < l.len() implies l.map_values(f2)[i] == l.map_values(f)[i] by {
            assert(es2[l[i] as int] == es[l[i] as int]);
        }
    }
    if n == s {
        assert((seq![es.len()] + l).map_values(f2) =~= seq![t] + l.map_values(f2));
    }
}

/// Adding an edge from `s` to `t` puts `s` in front of the ancestors of `t`
/// and leaves the ancestors of every other vertex as they were.
pub proof fn law_add_edge_ancestors(m: GraphModel, s: nat, t: nat, n: nat)
    ensures
        ancestor_list(GraphModel { node_count: m.node_count, edges: m.edges.push((s, t)) }, n)
            == if n == t {
            seq![s] + ancestor_list(m, n)
        } else {
            ancestor_list(m, n)
        },
{
    let es = m.edges;
    let es2 = es.push((s, t));
    lemma_push_list(es, (s, t), n, false);
    let l = edge_list(es, n, es.len(), false);
    let f = |e: nat| es[e as int].0;
    let f2 = |e: nat| es2[e as int].0;
    assert(l.map_values(f2) =~= l.map_values(f)) by {
        assert forall|i: int| 0 <= i < l.len() implies l.map_values(f2)[i] == l.map_values(f)[i] by {
            assert(es2[l[i] as int] == es[l[i] as int]);
        }
    }
    if n == t {
        assert((seq![es.len()] + l).map_values(f2) =~= seq![s] + l.map_values(f2));
    }
}

/// The adjacency list of `n` after pushing edge `x`: the new edge in front
/// when `n` is its end point, and the old list, whose members all lie below
/// the new edge.
proof fn lemma_push_list(es: Seq<(nat, nat)>, x: (nat, nat), n: nat, outbound: bool)
    ensures
        edge_list(es.push(x), n, es.len() + 1, outbound) == if n == end_point(x, outbound) {
            seq![es.len()] + edge_list(es, n, es.len(), outbound)
        } else {
            edge_list(es, n, es.len(), outbound)
        },
        forall|i: int|
            0 <= i < edge_list(es, n, es.len(), outbound).len() ==> #[trigger] edge_list(
                es,
                n,
                es.len(),
                outbound,
            )[i] < es.len(),
{
    lemma_push_keeps_prefix(es, x, n, es.len(), outbound);
    lemma_edge_list_members(es, n, es.len(), outbound);
    assert(es.push(x)[es.len() as int] == x);
}


/// The total length of the adjacency lists of the vertices below `n`, over the
/// edges below `k`.
pub open spec fn degree_sum(es: Seq<(nat, nat)>, n: nat, k: nat, outbound: bool) -> nat
    decreases n,
{
    if n == 0 {
        0
    } else {
        degree_sum(es, (n - 1) as nat, k, outbound) + edge_list(es, (n - 1) as nat, k, outbound).len()
    }
}

proof fn lemma_degree_sum_step(es: Seq<(nat, nat)>, n: nat, k: nat, outbound: bool)
    requires
        k < es.len(),
    ensures
        degree_sum(es, n, k + 1, outbound) == degree_sum(es, n, k, outbound) + if end_point(
            es[k as int],
            outbound,
        ) < n {
            1nat
        } else {
            0nat
        },
    decreases n,
{
    if n > 0 {
        lemma_degree_sum_step(es, (n - 1) as nat, k, outbound);
    }
}

proof fn lemma_degree_sum_prefix(es: Seq<(nat, nat)>, n: nat, k: nat, outbound: bool)
    requires
        k <= es.len(),
        forall|e: int| 0 <= e < es.len() ==> #[trigger] end_point(es[e], outbound) < n,
    ensures
        degree_sum(es, n, k, outbound) == k,
    decreases k,
{
    if k == 0 {
        lemma_degree_sum_zero(es, n, outbound);
    } else {
        lemma_degree_sum_prefix(es, n, (k - 1) as nat, outbound);
        lemma_degree_sum_step(es, n, (k - 1) as nat, outbound);
        assert(end_point(es[k - 1], outbound) < n);
    }
}

proof fn lemma_degree_sum_zero(es: Seq<(nat, nat)>, n: nat, outbound: bool)
    ensures
        degree_sum(es, n, 0, outbound) == 0,
    decreases n,
{
    if n > 0 {
        lemma_degree_sum_zero(es, (n - 1) as nat, outbound);
    }
}

/// Every edge lies on exactly one outbound list and on exactly one inbound
/// list: in a graph whose edges join its vertices, the out-degrees of all
/// vertices add up to the number of edges, and so do the in-degrees.
pub proof fn law_degrees_sum_to_edge_count(m: GraphModel)
    requires
        forall|e: int| 0 <= e < m.edges.len() ==> #[trigger] m.edges[e].0 < m.node_count
            && m.edges[e].1 < m.node_count,
    ensures
        degree_sum(m.edges, m.node_count, m.edges.len(), true) == m.edges.len(),
        degree_sum(m.edges, m.node_count, m.edges.len(), false) == m.edges.len(),
{
    assert forall|e: int| 0 <= e < m.edges.len() implies #[trigger] end_point(m.edges[e], true)
        < m.node_count by {
        assert(m.edges[e].0 < m.node_count);
    }
    assert forall|e: int| 0 <= e < m.edges.len() implies #[trigger] end_point(m.edges[e], false)
        < m.node_count by {
        assert(m.edges[e].0 < m.node_count && m.edges[e].1 < m.node_count);
    }
    lemma_degree_sum_prefix(m.edges, m.node_count, m.edges.len(), true);
    lemma_degree_sum_prefix(m.edges, m.node_count, m.edges.len(), false);
}

} // verus!
