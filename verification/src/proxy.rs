use vstd::prelude::*;
use std::collections::HashMap;
use crate::graph::MemGraphId;
use vstd::std_specs::cmp::PartialEqSpecImpl;

verus! {

broadcast use vstd::std_specs::hash::group_hash_axioms;

/// A vertex of a graph proxy: its position in the proxy's vertex table and
/// its identifier in the store. Two ids denote the same vertex when their
/// store identifiers agree.
#[derive(Copy, Clone, Debug)]
pub struct ProxyNodeId {
    pub mem_id: usize,
    pub store_id: u64,
}

impl PartialEq for ProxyNodeId {
    fn eq(&self, other: &Self) -> (r: bool) {
        self.store_id == other.store_id
    }
}

impl PartialEqSpecImpl for ProxyNodeId {
    open spec fn obeys_eq_spec() -> bool {
        true
    }

    open spec fn eq_spec(&self, other: &Self) -> bool {
        self.store_id == other.store_id
    }
}

impl Eq for ProxyNodeId {

}

/// Feeds a store identifier to a hasher, through std's `Hash` impl for `u64`;
/// nothing is stated of the hasher's state afterwards.
#[verifier::external_body]
fn hash_store_id<H: core::hash::Hasher>(store_id: &u64, state: &mut H) {
    core::hash::Hash::hash(store_id, state)
}

/// Ids are hashed by their store identifier alone, as they are compared.
impl core::hash::Hash for ProxyNodeId {
    fn hash<H: core::hash::Hasher>(&self, state: &mut H) {
        hash_store_id(&self.store_id, state)
    }
}

impl MemGraphId for ProxyNodeId {
    open spec fn index_of(&self) -> nat {
        self.mem_id as nat
    }

    fn get_index(&self) -> (r: usize) {
        self.mem_id
    }
}

impl ProxyNodeId {
    /// An id known only by its store identifier.
    pub fn new_db(db_id: u64) -> (r: Self)
        ensures
            r == (ProxyNodeId { mem_id: 0, store_id: db_id }),
    {
        ProxyNodeId { mem_id: 0, store_id: db_id }
    }

    pub fn new(mem_id: usize, db_id: u64) -> (r: Self)
        ensures
            r == (ProxyNodeId { mem_id: mem_id, store_id: db_id }),
    {
        ProxyNodeId { mem_id: mem_id, store_id: db_id }
    }

    pub fn get_store_id(&self) -> (r: u64)
        ensures
            r == self.store_id,
    {
        self.store_id
    }
}

/// A relationship of a graph proxy: its position in the proxy's edge table
/// and its identifier in the store.
#[derive(PartialEq, Eq, Structural, Copy, Clone, Debug, Hash)]
pub struct ProxyRelationshipId {
    pub mem_id: usize,
    pub store_id: u64,
}

impl MemGraphId for ProxyRelationshipId {
    open spec fn index_of(&self) -> nat {
        self.mem_id as nat
    }

    fn get_index(&self) -> (r: usize) {
        self.mem_id
    }
}

impl ProxyRelationshipId {
    /// An id known only by its store identifier.
    pub fn new_db(db_id: u64) -> (r: Self)
        ensures
            r == db_relationship(db_id),
    {
        ProxyRelationshipId { mem_id: 0, store_id: db_id }
    }

    pub fn new(mem_id: usize, db_id: u64) -> (r: Self)
        ensures
            r == (ProxyRelationshipId { mem_id: mem_id, store_id: db_id }),
    {
        ProxyRelationshipId { mem_id: mem_id, store_id: db_id }
    }

    pub fn get_store_id(&self) -> (r: u64)
        ensures
            r == self.store_id,
    {
        self.store_id
    }
}

/// The relationship id known only by its store identifier.
pub open spec fn db_relationship(db_id: u64) -> ProxyRelationshipId {
    ProxyRelationshipId { mem_id: 0, store_id: db_id }
}

/// A store link turned into a relationship id.
pub open spec fn db_link(link: Option<u64>) -> Option<ProxyRelationshipId> {
    match link {
        Some(id) => Some(db_relationship(id)),
        None => None,
    }
}

/// The heads of the edge lists of a vertex as the store holds them.
#[derive(Copy, Clone, Debug)]
pub struct DbVertexData {
    pub first_inbound_edge: Option<u64>,
    pub first_outbound_edge: Option<u64>,
}

/// An edge as the store holds it: end points and list links, all by store
/// identifier.
#[derive(Copy, Clone, Debug)]
pub struct DbEdgeData {
    pub source: u64,
    pub target: u64,
    pub next_inbound_edge: Option<u64>,
    pub next_outbound_edge: Option<u64>,
}

/// The heads of the edge lists of a vertex of a graph proxy.
#[derive(Copy, Clone)]
pub struct InnerVertexData<EID: MemGraphId> {
    pub first_outbound_edge: Option<EID>,
    pub first_inbound_edge: Option<EID>,
}

/// An edge of a graph proxy.
#[derive(Clone)]
pub struct InnerEdgeData<NID: MemGraphId, EID: MemGraphId> {
    pub source: NID,
    pub target: NID,
    pub next_outbound_edge: Option<EID>,
    pub next_inbound_edge: Option<EID>,
}

pub type ProxyVertex = InnerVertexData<ProxyRelationshipId>;

pub type ProxyEdge = InnerEdgeData<ProxyNodeId, ProxyRelationshipId>;

/// The vertex data that a graph proxy makes of a stored vertex.
pub open spec fn vertex_of(vdata: DbVertexData) -> ProxyVertex {
    InnerVertexData {
        first_outbound_edge: db_link(vdata.first_outbound_edge),
        first_inbound_edge: db_link(vdata.first_inbound_edge),
    }
}

/// Adds the vertex `db_id`, with the list heads that the store gives, at the
/// end of the vertex table.
pub fn add_vertex(vertices: &mut Vec<ProxyVertex>, db_id: u64, vdata: DbVertexData) -> (r: (
    ProxyNodeId,
    ProxyVertex,
))
    ensures
        r.0 == (ProxyNodeId { mem_id: old(vertices)@.len() as usize, store_id: db_id }),
        r.1 == vertex_of(vdata),
        final(vertices)@ == old(vertices)@.push(vertex_of(vdata)),
{
    let index = vertices.len();
    let inbound = match vdata.first_inbound_edge {
        Some(id) => Some(ProxyRelationshipId::new_db(id)),
        None => None,
    };
    let outbound = match vdata.first_outbound_edge {
        Some(id) => Some(ProxyRelationshipId::new_db(id)),
        None => None,
    };
    let ivdata = InnerVertexData { first_outbound_edge: outbound, first_inbound_edge: inbound };
    vertices.push(ivdata);
    (ProxyNodeId::new(index, db_id), ivdata)
}

/// The tables that a graph proxy shares with its edge walks: the vertices and
/// edges loaded so far, and, by store identifier, where each loaded vertex and
/// edge stands and what the store gave for it.
pub struct ProxyTables {
    vertices: Vec<ProxyVertex>,
    edges: Vec<ProxyEdge>,
    map_vertices: HashMap<u64, (ProxyNodeId, DbVertexData)>,
    map_edges: HashMap<u64, (ProxyRelationshipId, DbEdgeData)>,
}

impl ProxyTables {
    /// The vertex table.
    pub closed spec fn vertex_table(&self) -> Seq<ProxyVertex> {
        self.vertices@
    }

    /// The edge table.
    pub closed spec fn edge_table(&self) -> Seq<ProxyEdge> {
        self.edges@
    }

    /// Where each loaded vertex stands, by store identifier, and what the
    /// store gave for it.
    pub closed spec fn vertex_map(&self) -> Map<u64, (ProxyNodeId, DbVertexData)> {
        self.map_vertices@
    }

    /// Where each loaded edge stands, by store identifier, and what the store
    /// gave for it.
    pub closed spec fn edge_map(&self) -> Map<u64, (ProxyRelationshipId, DbEdgeData)> {
        self.map_edges@
    }

    /// Every map entry names an entry of its table under its own store
    /// identifier, and every edge joins loaded vertices.
    #[verifier::type_invariant]
    closed spec fn wf(&self) -> bool {
        &&& forall|k: u64| #[trigger]
            self.map_vertices@.contains_key(k) ==> self.map_vertices@[k].0.store_id == k
                && self.map_vertices@[k].0.mem_id < self.vertices@.len()
        &&& forall|k: u64| #[trigger]
            self.map_edges@.contains_key(k) ==> self.map_edges@[k].0.store_id == k
                && self.map_edges@[k].0.mem_id < self.edges@.len()
        &&& forall|e: int|
            0 <= e < self.edges@.len() ==> (#[trigger] self.edges@[e]).source.mem_id
                < self.vertices@.len() && self.edges@[e].target.mem_id < self.vertices@.len()
    }

    pub fn new() -> (r: Self)
        ensures
            r.vertex_table() == Seq::<ProxyVertex>::empty(),
            r.edge_table() == Seq::<ProxyEdge>::empty(),
            r.vertex_map() == Map::<u64, (ProxyNodeId, DbVertexData)>::empty(),
            r.edge_map() == Map::<u64, (ProxyRelationshipId, DbEdgeData)>::empty(),
    {
        ProxyTables {
            vertices: Vec::new(),
            edges: Vec::new(),
            map_vertices: HashMap::new(),
            map_edges: HashMap::new(),
        }
    }

    /// The number of loaded vertices.
    pub fn vertices_len(&self) -> (r: usize)
        ensures
            r == self.vertex_table().len(),
    {
        self.vertices.len()
    }

    /// The number of loaded edges.
    pub fn edges_len(&self) -> (r: usize)
        ensures
            r == self.edge_table().len(),
    {
        self.edges.len()
    }

    /// The list heads of the loaded vertex at `index`.
    pub fn vertex(&self, index: usize) -> (r: ProxyVertex)
        requires
            index < self.vertex_table().len(),
        ensures
            r == self.vertex_table()[index as int],
    {
        self.vertices[index]
    }

    /// The loaded edge at `index`.
    pub fn edge(&self, index: usize) -> (r: ProxyEdge)
        requires
            index < self.edge_table().len(),
        ensures
            r == self.edge_table()[index as int],
    {
        let e = &self.edges[index];
        InnerEdgeData {
            source: e.source,
            target: e.target,
            next_outbound_edge: e.next_outbound_edge,
            next_inbound_edge: e.next_inbound_edge,
        }
    }

    /// The table entry of the store vertex `id`, if it is loaded.
    pub fn vertex_entry(&self, id: u64) -> (r: Option<(ProxyNodeId, DbVertexData)>)
        ensures
            r == self.vertex_map().get(id),
    {
        match self.map_vertices.get(&id) {
            Some(data) => Some(*data),
            None => None,
        }
    }

    /// The table entry of the store edge `id`, if it is loaded.
    pub fn edge_entry(&self, id: u64) -> (r: Option<(ProxyRelationshipId, DbEdgeData)>)
        ensures
            r == self.edge_map().get(id),
    {
        match self.map_edges.get(&id) {
            Some(data) => Some(*data),
            None => None,
        }
    }

    /// The vertex `id` if it is loaded: its proxy id and its list heads.
    pub fn cached_vertex_data(&self, id: u64) -> (r: Option<(ProxyNodeId, ProxyVertex)>)
        ensures
            self.vertex_map().contains_key(id) ==> r == Some(
                (
                    self.vertex_map()[id].0,
                    self.vertex_table()[self.vertex_map()[id].0.mem_id as int],
                ),
            ),
            !self.vertex_map().contains_key(id) ==> r is None,
    {
        proof {
            use_type_invariant(self);
        }
        match self.map_vertices.get(&id) {
            Some(data) => {
                let pid = data.0;
                Some((pid, self.vertices[pid.mem_id]))
            },
            None => None,
        }
    }

    /// Loads the vertex `id` with the data that the store gave for it.
    pub fn record_vertex_data(&mut self, id: u64, vdata: DbVertexData) -> (r: (
        ProxyNodeId,
        ProxyVertex,
    ))
        ensures
            r.0 == (ProxyNodeId { mem_id: old(self).vertex_table().len() as usize, store_id: id }),
            r.1 == vertex_of(vdata),
            final(self).vertex_table() == old(self).vertex_table().push(vertex_of(vdata)),
            final(self).edge_table() == old(self).edge_table(),
            final(self).vertex_map() == old(self).vertex_map().insert(id, (r.0, vdata)),
            final(self).edge_map() == old(self).edge_map(),
    {
        let mut taken = ProxyTables::new();
        std::mem::swap(self, &mut taken);
        proof {
            use_type_invariant(&taken);
        }
        let ProxyTables { mut vertices, edges, mut map_vertices, map_edges } = taken;
        let pid = add_vertex(&mut vertices, id, vdata);
        map_vertices.insert(id, (pid.0, vdata));
        *self = ProxyTables { vertices, edges, map_vertices, map_edges };
        pid
    }

    /// Adds the edge `rel_db_id` between two loaded vertices, with the links
    /// that the store gave for it, and makes it the head of the outbound list
    /// of its source and of the inbound list of its target where these lists
    /// have no head yet.
    pub fn add_edge(
        &mut self,
        source: ProxyNodeId,
        target: ProxyNodeId,
        db_edge_data: &DbEdgeData,
        rel_db_id: u64,
    ) -> (r: ProxyRelationshipId)
        requires
            source.mem_id < old(self).vertex_table().len(),
            target.mem_id < old(self).vertex_table().len(),
        ensures
            r == (ProxyRelationshipId { mem_id: old(self).edge_table().len() as usize, store_id: rel_db_id }),
            final(self).edge_table() == old(self).edge_table().push(
                InnerEdgeData {
                    source: source,
                    target: target,
                    next_outbound_edge: db_link(db_edge_data.next_outbound_edge),
                    next_inbound_edge: db_link(db_edge_data.next_inbound_edge),
                },
            ),
            final(self).vertex_table().len() == old(self).vertex_table().len(),
            forall|v: int|
                0 <= v < final(self).vertex_table().len() ==> (#[trigger] final(self).vertex_table()[v])
                    == link_new_edge(old(self).vertex_table()[v], v, source, target, r),
            forall|v: int|
                0 <= v < old(self).vertex_table().len() && (
                #[trigger] old(self).vertex_table()[v]).first_outbound_edge is Some ==> final(self).vertex_table()[v].first_outbound_edge == old(self).vertex_table()[v].first_outbound_edge,
            forall|v: int|
                0 <= v < old(self).vertex_table().len() && (
                #[trigger] old(self).vertex_table()[v]).first_inbound_edge is Some ==> final(self).vertex_table()[v].first_inbound_edge == old(self).vertex_table()[v].first_inbound_edge,
            old(self).vertex_table()[source.mem_id as int].first_outbound_edge is None ==> final(self).vertex_table()[source.mem_id as int].first_outbound_edge == Some(r),
            old(self).vertex_table()[target.mem_id as int].first_inbound_edge is None ==> final(self).vertex_table()[target.mem_id as int].first_inbound_edge == Some(r),
            forall|v: int|
                0 <= v < old(self).vertex_table().len() && v != source.mem_id ==> (
                #[trigger] final(self).vertex_table()[v]).first_outbound_edge == old(self).vertex_table()[v].first_outbound_edge,
            forall|v: int|
                0 <= v < old(self).vertex_table().len() && v != target.mem_id ==> (
                #[trigger] final(self).vertex_table()[v]).first_inbound_edge == old(self).vertex_table()[v].first_inbound_edge,
            final(self).vertex_map() == old(self).vertex_map(),
            final(self).edge_map() == old(self).edge_map(),
    {
        let mut taken = ProxyTables::new();
        std::mem::swap(self, &mut taken);
        proof {
            use_type_invariant(&taken);
        }
        let ProxyTables { mut vertices, mut edges, map_vertices, map_edges } = taken;
        let index = edges.len();
        let next_inbound_edge = match db_edge_data.next_inbound_edge {
            Some(id) => Some(ProxyRelationshipId::new_db(id)),
            None => None,
        };
        let next_outbound_edge = match db_edge_data.next_outbound_edge {
            Some(id) => Some(ProxyRelationshipId::new_db(id)),
            None => None,
        };
        edges.push(
            InnerEdgeData {
                source: source,
                target: target,
                next_inbound_edge: next_inbound_edge,
                next_outbound_edge: next_outbound_edge,
            },
        );
        let pid = ProxyRelationshipId::new(index, rel_db_id);
        let si = source.get_index();
        let ms = vertices[si];
        if ms.first_outbound_edge.is_none() {
            vertices.set(
                si,
                InnerVertexData { first_outbound_edge: Some(pid), first_inbound_edge: ms.first_inbound_edge },
            );
        }
        let ti = target.get_index();
        let mt = vertices[ti];
        if mt.first_inbound_edge.is_none() {
            vertices.set(
                ti,
                InnerVertexData { first_outbound_edge: mt.first_outbound_edge, first_inbound_edge: Some(pid) },
            );
        }
        *self = ProxyTables { vertices, edges, map_vertices, map_edges };
        pid
    }

    /// Records that the store vertex `store_id` is loaded as `pid`.
    pub fn record_vertex(&mut self, store_id: u64, pid: ProxyNodeId, vdata: DbVertexData)
        requires
            pid.store_id == store_id,
            pid.mem_id < old(self).vertex_table().len(),
        ensures
            final(self).vertex_table() == old(self).vertex_table(),
            final(self).edge_table() == old(self).edge_table(),
            final(self).vertex_map() == old(self).vertex_map().insert(store_id, (pid, vdata)),
            final(self).edge_map() == old(self).edge_map(),
    {
        let mut taken = ProxyTables::new();
        std::mem::swap(self, &mut taken);
        proof {
            use_type_invariant(&taken);
        }
        let ProxyTables { vertices, edges, mut map_vertices, map_edges } = taken;
        map_vertices.insert(store_id, (pid, vdata));
        *self = ProxyTables { vertices, edges, map_vertices, map_edges };
    }

    /// Records that the store edge `store_id` is loaded as `pid`.
    pub fn record_edge(&mut self, store_id: u64, pid: ProxyRelationshipId, edge_data: DbEdgeData)
        requires
            pid.store_id == store_id,
            pid.mem_id < old(self).edge_table().len(),
        ensures
            final(self).vertex_table() == old(self).vertex_table(),
            final(self).edge_table() == old(self).edge_table(),
            final(self).vertex_map() == old(self).vertex_map(),
            final(self).edge_map() == old(self).edge_map().insert(store_id, (pid, edge_data)),
    {
        let mut taken = ProxyTables::new();
        std::mem::swap(self, &mut taken);
        proof {
            use_type_invariant(&taken);
        }
        let ProxyTables { vertices, edges, map_vertices, mut map_edges } = taken;
        map_edges.insert(store_id, (pid, edge_data));
        *self = ProxyTables { vertices, edges, map_vertices, map_edges };
    }

    /// One step of a walk along the outbound (or inbound) list that `current`
    /// points into.
    pub fn edge_walk_step(&self, current: Option<ProxyRelationshipId>, outbound: bool) -> (r:
        EdgeWalk)
        ensures
            r == edge_walk(*self, current, outbound),
    {
        proof {
            use_type_invariant(self);
        }
        match current {
            None => EdgeWalk::End,
            Some(edge_index) => {
                match self.map_edges.get(&edge_index.store_id) {
                    Some(rdata) => {
                        let pid = rdata.0;
                        let curr_edge = &self.edges[pid.mem_id];
                        let next = if outbound {
                            curr_edge.next_outbound_edge
                        } else {
                            curr_edge.next_inbound_edge
                        };
                        EdgeWalk::Yield(pid, next)
                    },
                    None => EdgeWalk::Fetch(edge_index.store_id),
                }
            },
        }
    }

    /// The head of the outbound (or inbound) list of a loaded vertex.
    pub fn first_edge(&self, node: &ProxyNodeId, outbound: bool) -> (r: Option<ProxyRelationshipId>)
        requires
            self.vertex_map().contains_key(node.store_id),
        ensures
            ({
                let v = self.vertex_table()[self.vertex_map()[node.store_id].0.mem_id as int];
                r == if outbound {
                    v.first_outbound_edge
                } else {
                    v.first_inbound_edge
                }
            }),
    {
        proof {
            use_type_invariant(self);
        }
        let pid = self.map_vertices.get(&node.store_id).unwrap().0;
        let v = self.vertices[pid.mem_id];
        if outbound {
            v.first_outbound_edge
        } else {
            v.first_inbound_edge
        }
    }

    /// The source (or target) of a loaded edge.
    pub fn edge_end(&self, edge_index: &ProxyRelationshipId, source: bool) -> (r: ProxyNodeId)
        requires
            self.edge_map().contains_key(edge_index.store_id),
        ensures
            ({
                let e = self.edge_table()[self.edge_map()[edge_index.store_id].0.mem_id as int];
                r == if source {
                    e.source
                } else {
                    e.target
                }
            }),
    {
        proof {
            use_type_invariant(self);
        }
        let pid = self.map_edges.get(&edge_index.store_id).unwrap().0;
        if source {
            self.edges[pid.mem_id].source
        } else {
            self.edges[pid.mem_id].target
        }
    }
}

/// How a proxy answers a request for a vertex or an edge by store identifier.
#[derive(Debug, PartialEq, Eq, Structural, Clone, Copy)]
pub enum Lookup {
    /// It is loaded, at this index of the proxy's list.
    Cached(usize),
    /// It has to be read from the store; the flag says whether the tables hold
    /// it already, so that its links need not be read again.
    Retrieve(bool),
}

/// The answer for an object whose table entry, if any, points at `entry`,
/// where `has_id` tells a filled slot of `loaded` from a blank one.
fn lookup_decision<T, F: Fn(&T) -> bool>(entry: Option<usize>, loaded: &Vec<T>, has_id: &F) -> (r:
    Lookup)
    requires
        forall|x: &T| #[trigger] has_id.requires((x,)),
    ensures
        match entry {
            None => r == Lookup::Retrieve(false),
            Some(idx) => if idx < loaded@.len() {
                (r == Lookup::Cached(idx) && has_id.ensures((&loaded@[idx as int],), true)) || (r
                    == Lookup::Retrieve(true) && has_id.ensures(
                    (&loaded@[idx as int],),
                    false,
                ))
            } else {
                r == Lookup::Retrieve(true)
            },
        },
{
    match entry {
        None => Lookup::Retrieve(false),
        Some(idx) => {
            if idx < loaded.len() && has_id(&loaded[idx]) {
                Lookup::Cached(idx)
            } else {
                Lookup::Retrieve(true)
            }
        },
    }
}

impl ProxyTables {
    /// Where the vertex `id` can be found in the proxy's vertex list
    /// `loaded`, or whether it has to be read from the store.
    pub fn node_lookup<T, F: Fn(&T) -> bool>(&self, loaded: &Vec<T>, has_id: &F, id: u64) -> (r:
        Lookup)
        requires
            forall|x: &T| #[trigger] has_id.requires((x,)),
        ensures
            !self.vertex_map().contains_key(id) ==> r == Lookup::Retrieve(false),
            self.vertex_map().contains_key(id) ==> ({
                let idx = self.vertex_map()[id].0.mem_id;
                if idx < loaded@.len() {
                    (r == Lookup::Cached(idx) && has_id.ensures((&loaded@[idx as int],), true))
                        || (r == Lookup::Retrieve(true) && has_id.ensures(
                        (&loaded@[idx as int],),
                        false,
                    ))
                } else {
                    r == Lookup::Retrieve(true)
                }
            }),
    {
        let entry = match self.map_vertices.get(&id) {
            Some(data) => Some(data.0.mem_id),
            None => None,
        };
        lookup_decision(entry, loaded, has_id)
    }

    /// Where the edge `id` can be found in the proxy's edge list `loaded`,
    /// or whether it has to be read from the store.
    pub fn relationship_lookup<T, F: Fn(&T) -> bool>(
        &self,
        loaded: &Vec<T>,
        has_id: &F,
        id: u64,
    ) -> (r: Lookup)
        requires
            forall|x: &T| #[trigger] has_id.requires((x,)),
        ensures
            !self.edge_map().contains_key(id) ==> r == Lookup::Retrieve(false),
            self.edge_map().contains_key(id) ==> ({
                let idx = self.edge_map()[id].0.mem_id;
                if idx < loaded@.len() {
                    (r == Lookup::Cached(idx) && has_id.ensures((&loaded@[idx as int],), true))
                        || (r == Lookup::Retrieve(true) && has_id.ensures(
                        (&loaded@[idx as int],),
                        false,
                    ))
                } else {
                    r == Lookup::Retrieve(true)
                }
            }),
    {
        let entry = match self.map_edges.get(&id) {
            Some(data) => Some(data.0.mem_id),
            None => None,
        };
        lookup_decision(entry, loaded, has_id)
    }
}

/// A vertex after a new edge `pid` from `source` to `target` was linked: it
/// becomes the head of a list that had none.
pub open spec fn link_new_edge(
    v: ProxyVertex,
    index: int,
    source: ProxyNodeId,
    target: ProxyNodeId,
    pid: ProxyRelationshipId,
) -> ProxyVertex {
    InnerVertexData {
        first_outbound_edge: if index == source.mem_id && v.first_outbound_edge is None {
            Some(pid)
        } else {
            v.first_outbound_edge
        },
        first_inbound_edge: if index == target.mem_id && v.first_inbound_edge is None {
            Some(pid)
        } else {
            v.first_inbound_edge
        },
    }
}

/// Linking a new edge keeps every existing list head: only the source's
/// outbound list and the target's inbound list get the new edge as head, and
/// only where they had none.
pub proof fn law_link_keeps_heads(
    v: ProxyVertex,
    index: int,
    source: ProxyNodeId,
    target: ProxyNodeId,
    pid: ProxyRelationshipId,
)
    ensures
        v.first_outbound_edge is Some ==> link_new_edge(v, index, source, target, pid).first_outbound_edge
            == v.first_outbound_edge,
        v.first_inbound_edge is Some ==> link_new_edge(v, index, source, target, pid).first_inbound_edge
            == v.first_inbound_edge,
        index == source.mem_id && v.first_outbound_edge is None ==> link_new_edge(
            v,
            index,
            source,
            target,
            pid,
        ).first_outbound_edge == Some(pid),
        index == target.mem_id && v.first_inbound_edge is None ==> link_new_edge(
            v,
            index,
            source,
            target,
            pid,
        ).first_inbound_edge == Some(pid),
        index != source.mem_id ==> link_new_edge(v, index, source, target, pid).first_outbound_edge
            == v.first_outbound_edge,
        index != target.mem_id ==> link_new_edge(v, index, source, target, pid).first_inbound_edge
            == v.first_inbound_edge,
{
}

/// What one step of an edge walk gives: the walk is over; or it yields a
/// loaded edge and goes on at that edge's link; or the edge it stands at is
/// not loaded and has to be fetched from the store under that identifier.
#[derive(PartialEq, Eq, Structural, Copy, Clone, Debug)]
pub enum EdgeWalk {
    End,
    Yield(ProxyRelationshipId, Option<ProxyRelationshipId>),
    Fetch(u64),
}

/// The step of an edge walk at `current`.
pub open spec fn edge_walk(t: ProxyTables, current: Option<ProxyRelationshipId>, outbound: bool) -> EdgeWalk {
    match current {
        None => EdgeWalk::End,
        Some(e) => if t.edge_map().contains_key(e.store_id) {
            let pid = t.edge_map()[e.store_id].0;
            let edge = t.edge_table()[pid.mem_id as int];
            EdgeWalk::Yield(
                pid,
                if outbound {
                    edge.next_outbound_edge
                } else {
                    edge.next_inbound_edge
                },
            )
        } else {
            EdgeWalk::Fetch(e.store_id)
        },
    }
}


/// A vertex of a query pattern, as far as the choice of the vertices to load
/// reads it: its store identifier, if the pattern fixes one, and its labels.
pub struct PatternNode {
    pub id: Option<u64>,
    pub labels: Vec<String>,
}

/// The labels of a pattern vertex.
pub open spec fn node_labels(n: PatternNode) -> Seq<Seq<char>> {
    n.labels@.map_values(|s: String| s@)
}

/// The labels of all pattern vertices, vertex after vertex.
pub open spec fn pattern_labels(nodes: Seq<PatternNode>) -> Seq<Seq<char>>
    decreases nodes.len(),
{
    if nodes.len() == 0 {
        Seq::empty()
    } else {
        pattern_labels(nodes.drop_last()) + node_labels(nodes.last())
    }
}

/// No label of `b` is among `a`.
pub open spec fn labels_disjoint(a: Seq<Seq<char>>, b: Seq<Seq<char>>) -> bool {
    forall|i: int| 0 <= i < b.len() ==> !a.contains(#[trigger] b[i])
}

/// The fixed identifiers of the pattern vertices none of whose labels is
/// among `labels`, in pattern order.
pub open spec fn pattern_ids(nodes: Seq<PatternNode>, labels: Seq<Seq<char>>) -> Seq<u64>
    decreases nodes.len(),
{
    if nodes.len() == 0 {
        Seq::empty()
    } else {
        let rest = pattern_ids(nodes.drop_last(), labels);
        match nodes.last().id {
            Some(nid) => if labels_disjoint(labels, node_labels(nodes.last())) {
                rest.push(nid)
            } else {
                rest
            },
            None => rest,
        }
    }
}

/// The fixed identifiers of the pattern vertices that have no label.
pub open spec fn unlabelled_ids(nodes: Seq<PatternNode>) -> Seq<u64>
    decreases nodes.len(),
{
    if nodes.len() == 0 {
        Seq::empty()
    } else {
        let rest = unlabelled_ids(nodes.drop_last());
        match nodes.last().id {
            Some(nid) => if nodes.last().labels@.len() == 0 {
                rest.push(nid)
            } else {
                rest
            },
            None => rest,
        }
    }
}

/// Collects the labels of all pattern vertices.
pub fn extract_nodes_labels(pattern: &Vec<PatternNode>) -> (r: Vec<String>)
    ensures
        r@.map_values(|s: String| s@) == pattern_labels(pattern@),
{
    let mut res: Vec<String> = Vec::new();
    let mut i: usize = 0;
    while i < pattern.len()
        invariant
            i <= pattern@.len(),
            res@.map_values(|s: String| s@) == pattern_labels(pattern@.take(i as int)),
        decreases pattern@.len() - i,
    {
        let node = &pattern[i];
        let ghost before = res@.map_values(|s: String| s@);
        let mut j: usize = 0;
        while j < node.labels.len()
            invariant
                j <= node.labels@.len(),
                res@.map_values(|s: String| s@) == before + node_labels(*node).take(j as int),
            decreases node.labels@.len() - j,
        {
            let ghost prev = res@;
            let lbl = node.labels[j].clone();
            res.push(lbl);
            assert(res@.map_values(|s: String| s@) =~= prev.map_values(|s: String| s@).push(lbl@));
            assert(node_labels(*node).take(j + 1) =~= node_labels(*node).take(j as int).push(
                node.labels@[j as int]@,
            ));
            assert(res@.map_values(|s: String| s@) =~= before + node_labels(*node).take(j + 1));
            j = j + 1;
        }
        assert(pattern@.take(i + 1).drop_last() =~= pattern@.take(i as int));
        assert(node_labels(*node).take(node.labels@.len() as int) =~= node_labels(*node));
        i = i + 1;
    }
    assert(pattern@.take(pattern@.len() as int) =~= pattern@);
    res
}

/// Whether `label` is among `labels`.
fn contains_label(labels: &Vec<String>, label: &String) -> (r: bool)
    ensures
        r == labels@.map_values(|s: String| s@).contains(label@),
{
    let ghost ls = labels@.map_values(|s: String| s@);
    let mut i: usize = 0;
    while i < labels.len()
        invariant
            i <= labels@.len(),
            ls == labels@.map_values(|s: String| s@),
            forall|k: int| 0 <= k < i ==> ls[k] != label@,
        decreases labels@.len() - i,
    {
        if labels[i] == *label {
            assert(ls[i as int] == label@);
            return true;
        }
        i = i + 1;
    }
    false
}

/// Whether no label of `node` is among `labels`.
fn is_disjoint(labels: &Vec<String>, node: &PatternNode) -> (r: bool)
    ensures
        r == labels_disjoint(labels@.map_values(|s: String| s@), node_labels(*node)),
{
    let mut i: usize = 0;
    while i < node.labels.len()
        invariant
            i <= node.labels@.len(),
            forall|k: int|
                0 <= k < i ==> !labels@.map_values(|s: String| s@).contains(
                    #[trigger] node_labels(*node)[k],
                ),
        decreases node.labels@.len() - i,
    {
        if contains_label(labels, &node.labels[i]) {
            assert(node_labels(*node)[i as int] == node.labels@[i as int]@);
            return false;
        }
        i = i + 1;
    }
    true
}

/// The fixed identifiers of the pattern vertices that share no label with
/// `labels`: the vertices that a lookup by label does not find.
pub fn pattern_node_ids(pattern: &Vec<PatternNode>, labels: &Vec<String>) -> (r: Vec<u64>)
    ensures
        r@ == pattern_ids(pattern@, labels@.map_values(|s: String| s@)),
{
    let ghost ls = labels@.map_values(|s: String| s@);
    let mut res: Vec<u64> = Vec::new();
    let mut i: usize = 0;
    while i < pattern.len()
        invariant
            i <= pattern@.len(),
            ls == labels@.map_values(|s: String| s@),
            res@ == pattern_ids(pattern@.take(i as int), ls),
        decreases pattern@.len() - i,
    {
        let node = &pattern[i];
        assert(pattern@.take(i + 1).drop_last() =~= pattern@.take(i as int));
        assert(pattern@.take(i + 1).last() == *node);
        match node.id {
            Some(nid) => {
                if is_disjoint(labels, node) {
                    res.push(nid);
                }
            },
            None => {},
        }
        i = i + 1;
    }
    assert(pattern@.take(pattern@.len() as int) =~= pattern@);
    res
}

/// Whether some pattern vertex has neither a label nor a fixed identifier, so
/// that every stored vertex has to be considered.
pub fn needs_all_nodes(pattern: &Vec<PatternNode>) -> (r: bool)
    ensures
        r == exists|i: int|
            0 <= i < pattern@.len() && (#[trigger] pattern@[i]).labels@.len() == 0
                && pattern@[i].id is None,
{
    let mut i: usize = 0;
    while i < pattern.len()
        invariant
            i <= pattern@.len(),
            forall|k: int|
                0 <= k < i ==> !((#[trigger] pattern@[k]).labels@.len() == 0 && pattern@[k].id is None),
        decreases pattern@.len() - i,
    {
        if pattern[i].labels.len() == 0 && pattern[i].id.is_none() {
            return true;
        }
        i = i + 1;
    }
    false
}

/// Every label of a pattern vertex is among the labels of the whole pattern.
proof fn lemma_node_labels_in_pattern(nodes: Seq<PatternNode>, i: int)
    requires
        0 <= i < nodes.len(),
    ensures
        forall|k: int|
            0 <= k < node_labels(nodes[i]).len() ==> pattern_labels(nodes).contains(
                #[trigger] node_labels(nodes[i])[k],
            ),
    decreases nodes.len(),
{
    let last = nodes.len() - 1;
    let pre = pattern_labels(nodes.drop_last());
    let own = node_labels(nodes.last());
    assert forall|k: int| 0 <= k < node_labels(nodes[i]).len() implies pattern_labels(
        nodes,
    ).contains(#[trigger] node_labels(nodes[i])[k]) by {
        if i == last {
            assert((pre + own)[pre.len() + k] == own[k]);
        } else {
            lemma_node_labels_in_pattern(nodes.drop_last(), i);
            assert(nodes.drop_last()[i] == nodes[i]);
            let j = choose|j: int| 0 <= j < pre.len() && pre[j] == node_labels(nodes[i])[k];
            assert((pre + own)[j] == pre[j]);
        }
    }
}

/// A pattern vertex shares no label with the labels of the whole pattern
/// exactly when it has no label; so the vertices that a lookup by the
/// pattern's labels misses are the unlabelled ones with a fixed identifier.
pub proof fn law_missed_pattern_ids_are_unlabelled(nodes: Seq<PatternNode>)
    ensures
        pattern_ids(nodes, pattern_labels(nodes)) == unlabelled_ids(nodes),
{
    lemma_missed_ids_prefix(nodes, nodes.len() as nat);
    assert(nodes.take(nodes.len() as int) =~= nodes);
}

proof fn lemma_missed_ids_prefix(nodes: Seq<PatternNode>, k: nat)
    requires
        k <= nodes.len(),
    ensures
        pattern_ids(nodes.take(k as int), pattern_labels(nodes)) == unlabelled_ids(
            nodes.take(k as int),
        ),
    decreases k,
{
    if k > 0 {
        let pre = nodes.take(k as int);
        assert(pre.drop_last() =~= nodes.take(k - 1));
        lemma_missed_ids_prefix(nodes, (k - 1) as nat);
        let n = pre.last();
        assert(n == nodes[k - 1]);
        lemma_node_labels_in_pattern(nodes, k - 1);
        if node_labels(n).len() > 0 {
            assert(pattern_labels(nodes).contains(node_labels(n)[0]));
            assert(!labels_disjoint(pattern_labels(nodes), node_labels(n)));
        } else {
            assert(labels_disjoint(pattern_labels(nodes), node_labels(n)));
        }
    }
}

/// Puts `item` at `index` of `v`, first filling the table with blank entries
/// up to `index` when it is shorter; the entries from `index` on move up by
/// one.
pub fn insert_padded<T, F: Fn() -> T>(v: &mut Vec<T>, index: usize, item: T, blank: &F)
    requires
        blank.requires(()),
        index < usize::MAX,
    ensures
        final(v)@.len() == if index > old(v)@.len() {
            index as int + 1
        } else {
            old(v)@.len() as int + 1
        },
        final(v)@[index as int] == item,
        forall|i: int| 0 <= i < index && i < old(v)@.len() ==> final(v)@[i] == old(v)@[i],
        forall|i: int| old(v)@.len() <= i < index ==> blank.ensures((), #[trigger] final(v)@[i]),
        forall|i: int| index <= i < old(v)@.len() ==> final(v)@[i + 1] == old(v)@[i],
{
    while index > v.len()
        invariant
            blank.requires(()),
            old(v)@.len() <= v@.len(),
            v@.len() > old(v)@.len() ==> v@.len() <= index,
            forall|i: int| 0 <= i < old(v)@.len() ==> v@[i] == old(v)@[i],
            forall|i: int| old(v)@.len() <= i < v@.len() ==> blank.ensures((), #[trigger] v@[i]),
        decreases index - v@.len(),
    {
        let b = blank();
        v.push(b);
    }
    v.insert(index, item);
}

} // verus!
