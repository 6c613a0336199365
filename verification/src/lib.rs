//! Verified core of a graph database: an in-memory graph with linked
//! adjacency lists, B-tree nodes and their key lookup, the record pool of the
//! B-tree store, the tables of a lazily loaded graph proxy, and pieces of the
//! Cypher and Gremlin query models.

pub mod ast;
pub mod btree;
pub mod cypher;
pub mod graph;
pub mod gremlin;
pub mod gremlin_walk;
pub mod pool;
pub mod token_value;
pub mod proxy;
