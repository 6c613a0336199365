# zawgl

The verified core of a small graph database.

- `src/graph.rs`: an in-memory directed multigraph whose vertices head linked
  lists of their outbound and inbound edges; its view is the vertex count and
  the sequence of (source, target) pairs, and walks yield the successors,
  ancestors and edges of a vertex newest first.
- `src/btree.rs`: B-tree cells and nodes, the string order, the key lookup,
  the step that one node contributes to a key search, and the law that on a
  well-formed tree the descent finds exactly what the leaves store.
- `src/pool.rs`: the record pool of the B-tree store (records read once and
  then held), the free-list pointer of the store header and the walk of the
  free list.
- `src/proxy.rs`: the tables of a graph proxy that loads vertices and edges
  lazily (kept well formed by a type invariant), the choice between a loaded
  object and a read from the store, and the choice of the vertices that a
  query pattern loads.
- `src/cypher.rs`: the where-clause grammar of Cypher (comparisons, function
  calls, `AND` binding tighter than `OR`, parentheses), stated as spec
  functions over the token sequence; the function-call parser is passed in.
- `src/token_value.rs`: what a token of the syntax tree hands to a visitor,
  with the integer and boolean readings of its text.
- `src/ast.rs`: which visitor callback each tag node calls.
- `src/gremlin.rs`: Gremlin integers, and the decisions of the vertex-matching
  state of a traversal.
- `src/gremlin_walk.rs`: the walk that hands each step of a traversal, with
  the step before it, to a state machine, entering `match` traversals.
- `app/`: storage access, JSON encoding, the syntax-tree visitor (which reads
  floats), the walk over Gremlin steps and the graph dump, around the library.

The store layer (`Store`, its record codec, the transaction handler), the
Cypher `Parser` with its function-definition rule, and the Gremlin state
machine that the steps drive are not part of this code base; the library takes
them, or their results, as arguments where it needs them.
