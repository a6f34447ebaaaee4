//! Multi-file graph construction: parsing files and merging their graphs
//! into one graph with stable identities and provenance.
use crate::error::GraphError;
use crate::graph::{lemma_edges_closed, EdgeIndex, EdgeType, Graph, GraphView, Node, NodeIndex};
use crate::python;
use crate::python::{is_file_graph, source_graph};
use crate::syntax::{python_tree, SyntaxTree};
use vstd::prelude::*;
use vstd::multiset::Multiset;
use vstd::string::StrSliceExecFns;

verus! {

/// Source languages that can be parsed.
pub enum Language {
    Python,
}

/// Builds per-file graphs from source.
pub struct Parser;

impl Parser {
    pub fn new() -> Parser {
        Parser
    }

    /// Parse the source of the file at `path` (its canonical absolute path)
    /// in `lang` into the file's graph.
    pub fn parse_file(&self, path: &String, source: &[u8], lang: &Language) -> (r: Result<
        Graph,
        GraphError,
    >)
        ensures
            python_tree(source@) is Some ==> (r matches Ok(g) && g.wf() && source_graph(g@, source@, path@)),
            python_tree(source@) is None ==> (r matches Err(e) && e == (GraphError::Unparseable { path: *path })),
    {
        match lang {
            Language::Python => python::parse_file(path, source),
        }
    }
}

impl Default for Parser {
    fn default() -> Parser {
        Parser::new()
    }
}

/// Some node of `g` has the identifier `id`.
pub open spec fn has_id(g: GraphView, id: Seq<char>) -> bool {
    exists|k: int| 0 <= k < g.nodes.len() && (#[trigger] g.nodes[k]).id@ == id
}

/// The identifiers of the nodes of `g`.
pub open spec fn id_set(g: GraphView) -> Set<Seq<char>> {
    Set::new(|id: Seq<char>| has_id(g, id))
}

/// The identifiers of the nodes of `g`, in index order.
pub open spec fn node_ids(g: GraphView) -> Seq<Seq<char>> {
    Seq::new(g.nodes.len(), |k: int| g.nodes[k].id@)
}

/// Edge `k` of `g` as source identifier, target identifier and kind.
pub open spec fn edge_triple(g: GraphView, k: int) -> (Seq<char>, Seq<char>, EdgeType) {
    (g.nodes[g.edges[k].0 as int].id@, g.nodes[g.edges[k].1 as int].id@, g.edges[k].2.edge_type)
}

/// The edges of `g` as identifier triples, in index order.
pub open spec fn edge_triples(g: GraphView) -> Seq<(Seq<char>, Seq<char>, EdgeType)> {
    Seq::new(g.edges.len(), |k: int| edge_triple(g, k))
}

/// The texts of a sequence of strings.
pub open spec fn texts(v: Seq<String>) -> Seq<Seq<char>> {
    Seq::new(v.len(), |k: int| v[k]@)
}

/// `x` is a node of `fg`, the first one there with its identifier.
pub open spec fn first_of_its_id(x: Node, fg: GraphView) -> bool {
    exists|j: int|
        0 <= j < fg.nodes.len() && x == fg.nodes[j] && forall|q: int|
            0 <= q < j ==> #[trigger] fg.nodes[q].id@ != x.id@
}

impl Default for MultiFileGraph {
    fn default() -> (r: MultiFileGraph)
        ensures
            r.wf(),
            r.graph@.nodes.len() == 0,
            r.graph@.edges.len() == 0,
            r.files() == Set::<Seq<char>>::empty(),
            r.node_locations@.len() == 0,
            r.file_nodes@.len() == 0,
            r.node_id_map@.len() == 0,
    {
        MultiFileGraph::new()
    }
}

/// `after` is `before` with the graph `fg` of the file at `path` merged in.
///
/// Nodes whose identifier is new are appended, the first of each
/// identifier in `fg` in index order, and attributed to `path`; every edge
/// of `fg` is appended, joining the nodes that carry its endpoints'
/// identifiers.
pub open spec fn merged(before: MultiFileGraph, after: MultiFileGraph, fg: GraphView, path: Seq<char>) -> bool {
    let n0 = before.graph@.nodes.len() as int;
    let n1 = after.graph@.nodes.len() as int;
    &&& after.wf()
    &&& after.files() == before.files().insert(path)
    &&& id_set(after.graph@) == id_set(before.graph@).union(id_set(fg))
    &&& n0 <= n1 <= n0 + fg.nodes.len()
    &&& after.graph@.nodes.subrange(0, n0) == before.graph@.nodes
    &&& forall|k: int| n0 <= k < n1 ==> first_of_its_id(#[trigger] after.graph@.nodes[k], fg)
    &&& forall|k: int| 0 <= k < n0 ==> #[trigger] after.location(k) == before.location(k)
    &&& forall|k: int| n0 <= k < n1 ==> #[trigger] after.location(k) == path
    &&& edge_triples(after.graph@) == edge_triples(before.graph@) + edge_triples(fg)
    &&& after.graph@.edges.len() == before.graph@.edges.len() + fg.edges.len()
    &&& after.graph@.edges.subrange(0, before.graph@.edges.len() as int) == before.graph@.edges
}

/// `a` comes strictly before `b` in lexicographic order of code points.
pub open spec fn path_lt(a: Seq<char>, b: Seq<char>) -> bool {
    path_le(a, b) && a != b
}

/// Some entry of the identifier index has identifier `id`.
pub open spec fn indexed(index: Seq<(String, usize)>, id: Seq<char>) -> bool {
    exists|j: int| 0 <= j < index.len() && (#[trigger] index[j]).0@ == id
}

/// The identifier index of `g`: entries strictly sorted by identifier, each
/// naming a node that carries its identifier, and every node entered.
pub open spec fn index_ok(index: Seq<(String, usize)>, g: GraphView) -> bool {
    &&& forall|j: int|
        0 <= j < index.len() ==> (#[trigger] index[j]).1 < g.nodes.len() && g.nodes[index[j].1 as int].id@
            == index[j].0@
    &&& forall|i: int, j: int| 0 <= i < j < index.len() ==> path_lt(#[trigger] index[i].0@, #[trigger] index[j].0@)
    &&& forall|k: int| 0 <= k < g.nodes.len() ==> indexed(index, #[trigger] g.nodes[k].id@)
}

/// The graph of a parsing session: the merged graph, where each node was
/// defined, and which files were merged.
///
/// `node_locations` holds, for each node in index order, its identifier and
/// the file that contributed it. `node_id_map`, sorted by identifier, finds
/// a node by identifier in a logarithmic number of comparisons.
pub struct MultiFileGraph {
    pub graph: Graph,
    pub node_locations: Vec<(String, String)>,
    pub file_nodes: Vec<String>,
    /// The identifier index: (identifier, node index), sorted by identifier.
    pub node_id_map: Vec<(String, usize)>,
}

impl MultiFileGraph {
    /// Well-formedness: identifiers are unique, the location table follows
    /// the nodes, and each file is listed once.
    pub open spec fn wf(&self) -> bool {
        &&& self.graph.wf()
        &&& index_ok(self.node_id_map@, self.graph@)
        &&& self.node_locations@.len() == self.graph@.nodes.len()
        &&& forall|k: int|
            0 <= k < self.node_locations@.len() ==> (#[trigger] self.node_locations@[k]).0@
                == self.graph@.nodes[k].id@
        &&& node_ids(self.graph@).no_duplicates()
        &&& texts(self.file_nodes@).no_duplicates()
    }

    /// The files merged so far.
    pub open spec fn files(&self) -> Set<Seq<char>> {
        texts(self.file_nodes@).to_set()
    }

    /// The file that contributed node `k`.
    pub open spec fn location(&self, k: int) -> Seq<char> {
        self.node_locations@[k].1@
    }

    /// An empty session graph.
    pub fn new() -> (r: MultiFileGraph)
        ensures
            r.wf(),
            r.graph@.nodes.len() == 0,
            r.graph@.edges.len() == 0,
            r.files() == Set::<Seq<char>>::empty(),
            r.node_locations@.len() == 0,
            r.file_nodes@.len() == 0,
            r.node_id_map@.len() == 0,
    {
        let r = MultiFileGraph {
            graph: Graph::new(),
            node_locations: Vec::new(),
            file_nodes: Vec::new(),
            node_id_map: Vec::new(),
        };
        assert(node_ids(r.graph@) =~= Seq::<Seq<char>>::empty());
        assert(texts(r.file_nodes@) =~= Seq::<Seq<char>>::empty());
        assert(r.files() =~= Set::<Seq<char>>::empty());
        r
    }

    /// Where `id` stands or would stand in the identifier index: `(true, j)`
    /// where entry `j` has identifier `id`; `(false, j)` where the entries
    /// before `j` come before `id` and the others after it.
    fn search(&self, id: &String) -> (r: (bool, usize))
        requires
            self.wf(),
        ensures
            r.0 ==> r.1 < self.node_id_map@.len() && self.node_id_map@[r.1 as int].0@ == id@,
            !r.0 ==> r.1 <= self.node_id_map@.len() && (forall|j: int|
                0 <= j < r.1 ==> path_lt(#[trigger] self.node_id_map@[j].0@, id@)) && (forall|j: int|
                r.1 <= j < self.node_id_map@.len() ==> path_lt(id@, #[trigger] self.node_id_map@[j].0@)),
    {
        let ghost map = self.node_id_map@;
        let mut lo: usize = 0;
        let mut hi: usize = self.node_id_map.len();
        while lo < hi
            invariant
                self.wf(),
                map == self.node_id_map@,
                lo <= hi <= map.len(),
                forall|j: int| 0 <= j < lo ==> path_lt(#[trigger] map[j].0@, id@),
                forall|j: int| hi <= j < map.len() ==> path_lt(id@, #[trigger] map[j].0@),
            decreases hi - lo,
        {
            let mid = lo + (hi - lo) / 2;
            if self.node_id_map[mid].0 == *id {
                return (true, mid);
            }
            if path_le_exec(self.node_id_map[mid].0.as_str(), id.as_str()) {
                assert forall|j: int| 0 <= j < mid + 1 implies path_lt(#[trigger] map[j].0@, id@) by {
                    if j < mid {
                        lemma_path_lt_trans(map[j].0@, map[mid as int].0@, id@);
                    }
                }
                lo = mid + 1;
            } else {
                proof {
                    lemma_path_le_total(map[mid as int].0@, id@);
                }
                assert forall|j: int| mid <= j < map.len() implies path_lt(id@, #[trigger] map[j].0@) by {
                    if j > mid {
                        lemma_path_lt_trans(id@, map[mid as int].0@, map[j].0@);
                    }
                }
                hi = mid;
            }
        }
        (false, lo)
    }

    /// The index of the node with identifier `id`, if there is one.
    pub fn node_index(&self, id: &String) -> (r: Option<NodeIndex>)
        requires
            self.wf(),
        ensures
            r is None ==> !has_id(self.graph@, id@),
            r matches Some(x) ==> x.index < self.graph@.nodes.len() && self.graph@.nodes[x.index as int].id@
                == id@,
    {
        let (found, j) = self.search(id);
        if found {
            Some(NodeIndex::new(self.node_id_map[j].1))
        } else {
            proof {
                if has_id(self.graph@, id@) {
                    let k = choose|k: int| 0 <= k < self.graph@.nodes.len() && (#[trigger] self.graph@.nodes[k]).id@ == id@;
                    assert(indexed(self.node_id_map@, self.graph@.nodes[k].id@));
                    let q = choose|q: int| 0 <= q < self.node_id_map@.len() && self.node_id_map@[q].0@ == id@;
                    assert(path_lt(self.node_id_map@[q].0@, id@) || path_lt(id@, self.node_id_map@[q].0@));
                }
            }
            None
        }
    }

    /// Add `path` to the merged files, once.
    fn record_file(&mut self, path: &String)
        requires
            old(self).wf(),
        ensures
            final(self).wf(),
            final(self).files() == old(self).files().insert(path@),
            final(self).graph == old(self).graph,
            final(self).node_locations == old(self).node_locations,
    {
        let n = self.file_nodes.len();
        let mut k: usize = 0;
        while k < n
            invariant
                *self == *old(self),
                self.wf(),
                n == self.file_nodes@.len(),
                k <= n,
                forall|q: int| 0 <= q < k ==> self.file_nodes@[q]@ != path@,
            decreases n - k,
        {
            if self.file_nodes[k] == *path {
                assert(texts(self.file_nodes@)[k as int] == path@);
                assert(self.files() =~= self.files().insert(path@));
                return;
            }
            k = k + 1;
        }
        let ghost before = texts(self.file_nodes@);
        self.file_nodes.push(path.clone());
        assert(texts(self.file_nodes@) =~= before.push(path@));
        assert(!before.contains(path@));
        assert(self.files() =~= before.to_set().insert(path@)) by {
            broadcast use vstd::seq_lib::group_seq_properties;

        }
        assert(texts(self.file_nodes@).no_duplicates()) by {
            broadcast use vstd::seq_lib::group_seq_properties;

        }
    }

    /// Merge the graph of the file at `source_file` into this graph.
    ///
    /// A node whose identifier is already present maps to the present node;
    /// other nodes are added and attributed to `source_file`. Edges are added
    /// between the mapped endpoints.
    pub fn merge_file_graph(&mut self, file_graph: Graph, source_file: &String) -> (r: Result<(), GraphError>)
        requires
            old(self).wf(),
            file_graph.wf(),
            old(self).graph@.nodes.len() + file_graph@.nodes.len() < u32::MAX,
            old(self).graph@.edges.len() + file_graph@.edges.len() < u32::MAX,
        ensures
            r is Ok,
            merged(*old(self), *final(self), file_graph@, source_file@),
    {
        self.merge_from(&file_graph, source_file)
    }

    /// Append `node`, whose identifier is new, attributed to `path`.
    fn append_node(&mut self, node: &Node, path: &String) -> (r: NodeIndex)
        requires
            old(self).wf(),
            !has_id(old(self).graph@, node.id@),
            old(self).graph@.nodes.len() + 1 < u32::MAX,
        ensures
            final(self).wf(),
            final(self).graph@.nodes == old(self).graph@.nodes.push(*node),
            final(self).graph@.edges == old(self).graph@.edges,
            final(self).files() == old(self).files(),
            id_set(final(self).graph@) == id_set(old(self).graph@).insert(node.id@),
            forall|k: int| 0 <= k < old(self).graph@.nodes.len() ==> #[trigger] final(self).location(k) == old(self).location(k),
            final(self).location(old(self).graph@.nodes.len() as int) == path@,
            r.index == old(self).graph@.nodes.len(),
    {
        let ghost g0 = self.graph@;
        let ghost locs0 = self.node_locations@;
        let ghost map0 = self.node_id_map@;
        let (found, pos) = self.search(&node.id);
        if found {
            assert(has_id(g0, node.id@)) by {
                assert(g0.nodes[map0[pos as int].1 as int].id@ == node.id@);
            }
        }
        let idx = self.graph.add_node(node.duplicate());
        self.node_locations.push((node.id.clone(), path.clone()));
        self.node_id_map.insert(pos, (node.id.clone(), idx.index));
        let ghost map1 = self.node_id_map@;
        assert(map1 == map0.insert(pos as int, (node.id, idx.index)));
        assert forall|j: int| 0 <= j < map1.len() implies (#[trigger] map1[j]).1 < self.graph@.nodes.len()
            && self.graph@.nodes[map1[j].1 as int].id@ == map1[j].0@ by {
            if j < pos {
                assert(map1[j] == map0[j]);
                assert(self.graph@.nodes[map0[j].1 as int] == g0.nodes[map0[j].1 as int]);
            } else if j > pos {
                assert(map1[j] == map0[j - 1]);
                assert(self.graph@.nodes[map0[j - 1].1 as int] == g0.nodes[map0[j - 1].1 as int]);
            }
        }
        assert forall|i: int, j: int| 0 <= i < j < map1.len() implies path_lt(
            #[trigger] map1[i].0@,
            #[trigger] map1[j].0@,
        ) by {
            if j < pos {
                assert(map1[i] == map0[i] && map1[j] == map0[j]);
            } else if j == pos {
                assert(map1[i] == map0[i]);
            } else if i < pos {
                assert(map1[i] == map0[i] && map1[j] == map0[j - 1]);
                lemma_path_lt_trans(map0[i].0@, node.id@, map0[j - 1].0@);
            } else if i == pos {
                assert(map1[j] == map0[j - 1]);
            } else {
                assert(map1[i] == map0[i - 1] && map1[j] == map0[j - 1]);
            }
        }
        assert forall|k: int| 0 <= k < self.graph@.nodes.len() implies indexed(
            map1,
            #[trigger] self.graph@.nodes[k].id@,
        ) by {
            if k < g0.nodes.len() {
                assert(self.graph@.nodes[k] == g0.nodes[k]);
                assert(indexed(map0, g0.nodes[k].id@));
                let q = choose|q: int| 0 <= q < map0.len() && (#[trigger] map0[q]).0@ == g0.nodes[k].id@;
                if q < pos {
                    assert(map1[q] == map0[q]);
                } else {
                    assert(map1[q + 1] == map0[q]);
                }
            } else {
                assert(map1[pos as int].0@ == node.id@);
            }
        }
        assert(node_ids(self.graph@) =~= node_ids(g0).push(node.id@));
        assert(!node_ids(g0).contains(node.id@)) by {
            if node_ids(g0).contains(node.id@) {
                let k = choose|k: int| 0 <= k < node_ids(g0).len() && node_ids(g0)[k] == node.id@;
                assert(g0.nodes[k].id@ == node.id@);
            }
        }
        assert(id_set(self.graph@) =~= id_set(g0).insert(node.id@)) by {
            assert forall|id: Seq<char>| has_id(self.graph@, id) <==> (has_id(g0, id) || id == node.id@) by {
                if has_id(self.graph@, id) {
                    let k = choose|k: int| 0 <= k < self.graph@.nodes.len() && (#[trigger] self.graph@.nodes[k]).id@ == id;
                    if k < g0.nodes.len() {
                        assert(g0.nodes[k] == self.graph@.nodes[k]);
                    }
                }
                if has_id(g0, id) {
                    let k = choose|k: int| 0 <= k < g0.nodes.len() && (#[trigger] g0.nodes[k]).id@ == id;
                    assert(self.graph@.nodes[k] == g0.nodes[k]);
                }
                if id == node.id@ {
                    assert(self.graph@.nodes[g0.nodes.len() as int] == *node);
                }
            }
        }
        assert forall|k: int| 0 <= k < self.node_locations@.len() implies (#[trigger] self.node_locations@[k]).0@
            == self.graph@.nodes[k].id@ by {
            if k < locs0.len() {
                assert(self.node_locations@[k] == locs0[k]);
            }
        }
        idx
    }

    fn merge_from(&mut self, fg: &Graph, source_file: &String) -> (r: Result<(), GraphError>)
        requires
            old(self).wf(),
            fg.wf(),
            old(self).graph@.nodes.len() + fg@.nodes.len() < u32::MAX,
            old(self).graph@.edges.len() + fg@.edges.len() < u32::MAX,
        ensures
            r is Ok,
            merged(*old(self), *final(self), fg@, source_file@),
    {
        let ghost before = *self;
        let ghost n0 = before.graph@.nodes.len() as int;
        proof {
            lemma_edges_closed(&before.graph);
            lemma_edges_closed(fg);
        }
        self.record_file(source_file);
        let n = fg.node_count();
        let mut index_map: Vec<usize> = Vec::new();
        let mut j: usize = 0;
        while j < n
            invariant
                fg.wf(),
                fg@.edges_closed(),
                before.graph@.edges_closed(),
                n0 == before.graph@.nodes.len(),
                n == fg@.nodes.len(),
                j <= n,
                self.wf(),
                self.files() == before.files().insert(source_file@),
                n0 <= self.graph@.nodes.len() <= n0 + j,
                n0 + fg@.nodes.len() < u32::MAX,
                self.graph@.nodes.subrange(0, n0) == before.graph@.nodes,
                self.graph@.edges == before.graph@.edges,
                id_set(self.graph@) == id_set(before.graph@).union(
                    Set::new(|id: Seq<char>| exists|q: int| 0 <= q < j && (#[trigger] fg@.nodes[q]).id@ == id),
                ),
                index_map@.len() == j,
                forall|q: int|
                    0 <= q < j ==> (#[trigger] index_map@[q]) < self.graph@.nodes.len()
                        && self.graph@.nodes[index_map@[q] as int].id@ == fg@.nodes[q].id@,
                forall|k: int| n0 <= k < self.graph@.nodes.len() ==> first_of_its_id(#[trigger] self.graph@.nodes[k], fg@),
                forall|k: int| 0 <= k < n0 ==> #[trigger] self.location(k) == before.location(k),
                forall|k: int| n0 <= k < self.graph@.nodes.len() ==> #[trigger] self.location(k) == source_file@,
            decreases n - j,
        {
            let node = fg.node_weight(NodeIndex::new(j)).unwrap();
            let ghost seen = Set::new(|id: Seq<char>| exists|q: int| 0 <= q < j && (#[trigger] fg@.nodes[q]).id@ == id);
            let ghost seen1 = Set::new(|id: Seq<char>| exists|q: int| 0 <= q < j + 1 && (#[trigger] fg@.nodes[q]).id@ == id);
            assert(seen1 =~= seen.insert(node.id@));
            match self.node_index(&node.id) {
                Some(existing) => {
                    assert(has_id(self.graph@, node.id@));
                    assert(id_set(self.graph@).contains(node.id@));
                    index_map.push(existing.index);
                    assert(id_set(before.graph@).union(seen1) =~= id_set(before.graph@).union(seen).insert(node.id@));
                },
                None => {
                    assert forall|p: int| 0 <= p < j implies fg@.nodes[p].id@ != fg@.nodes[j as int].id@ by {
                        assert(seen.contains(fg@.nodes[p].id@));
                        assert(id_set(self.graph@).contains(fg@.nodes[p].id@));
                    }
                    let ghost g0 = self.graph@;
                    let idx = self.append_node(node, source_file);
                    assert(self.graph@.nodes == g0.nodes.push(*node));
                    assert(self.graph@.nodes.len() == g0.nodes.len() + 1);
                    assert(forall|k: int| 0 <= k < g0.nodes.len() ==> self.graph@.nodes[k] == g0.nodes[k]);
                    assert(g0.nodes.len() >= n0);
                    index_map.push(idx.index);
                    assert(id_set(before.graph@).union(seen1) =~= id_set(before.graph@).union(seen).insert(node.id@));
                    assert forall|i: int| 0 <= i < n0 implies self.graph@.nodes[i] == before.graph@.nodes[i] by {
                        assert(g0.nodes.subrange(0, n0)[i] == g0.nodes[i]);
                        assert(self.graph@.nodes[i] == g0.nodes[i]);
                    }
                    assert(self.graph@.nodes.subrange(0, n0).len() == before.graph@.nodes.len());
                    assert(self.graph@.nodes.subrange(0, n0) =~= before.graph@.nodes);
                    assert forall|k: int| n0 <= k < self.graph@.nodes.len() implies first_of_its_id(
                        #[trigger] self.graph@.nodes[k],
                        fg@,
                    ) by {
                        if k == g0.nodes.len() {
                            assert(self.graph@.nodes[k] == fg@.nodes[j as int]);
                        } else {
                            assert(k < g0.nodes.len());
                            assert(self.graph@.nodes[k] == g0.nodes[k]);
                        }
                    }
                },
            }
            j = j + 1;
        }
        assert(id_set(before.graph@).union(
            Set::new(|id: Seq<char>| exists|q: int| 0 <= q < n && (#[trigger] fg@.nodes[q]).id@ == id),
        ) =~= id_set(before.graph@).union(id_set(fg@)));
        let ghost n1 = self.graph@.nodes.len() as int;
        let ghost nodes1 = self.graph@.nodes;
        let ghost locs1 = self.node_locations;
        assert(forall|k: int| n0 <= k < n1 ==> first_of_its_id(#[trigger] nodes1[k], fg@));
        assert(forall|k: int| 0 <= k < n1 ==> (#[trigger] locs1@[k]).1@ == self.location(k));
        assert(edge_triples(self.graph@) =~= edge_triples(before.graph@)) by {
            assert forall|k: int| 0 <= k < self.graph@.edges.len() implies edge_triple(self.graph@, k) == edge_triple(
                before.graph@,
                k,
            ) by {
                let (a, b, w) = before.graph@.edges[k];
                assert(self.graph@.nodes[a as int] == before.graph@.nodes[a as int]);
                assert(self.graph@.nodes[b as int] == before.graph@.nodes[b as int]);
            }
        }
        assert(self.graph@.edges.subrange(0, before.graph@.edges.len() as int) =~= before.graph@.edges);
        let m = fg.edge_count();
        let mut e: usize = 0;
        while e < m
            invariant
                fg.wf(),
                fg@.edges_closed(),
                m == fg@.edges.len(),
                e <= m,
                n == fg@.nodes.len(),
                self.wf(),
                self.graph@.nodes == nodes1,
                self.node_locations == locs1,
                n0 == before.graph@.nodes.len(),
                n1 == nodes1.len(),
                forall|k: int| 0 <= k < n0 ==> (#[trigger] locs1@[k]).1@ == before.location(k),
                forall|k: int| n0 <= k < n1 ==> (#[trigger] locs1@[k]).1@ == source_file@,
                forall|k: int| n0 <= k < n1 ==> first_of_its_id(#[trigger] nodes1[k], fg@),
                self.files() == before.files().insert(source_file@),
                before.graph@.edges.len() + fg@.edges.len() < u32::MAX,
                self.graph@.edges.len() == before.graph@.edges.len() + e,
                index_map@.len() == n,
                forall|q: int|
                    0 <= q < n ==> (#[trigger] index_map@[q]) < self.graph@.nodes.len()
                        && self.graph@.nodes[index_map@[q] as int].id@ == fg@.nodes[q].id@,
                edge_triples(self.graph@) == edge_triples(before.graph@) + edge_triples(fg@).subrange(0, e as int),
                self.graph@.edges.subrange(0, before.graph@.edges.len() as int) == before.graph@.edges,
            decreases m - e,
        {
            let (s, t) = match fg.edge_endpoints_for(EdgeIndex::new(e)) {
                Some(p) => p,
                None => {
                    return Err(GraphError::MissingEndpoint { path: source_file.clone() });
                },
            };
            if s.index >= index_map.len() || t.index >= index_map.len() {
                return Err(GraphError::MissingEndpoint { path: source_file.clone() });
            }
            let w = *fg.edge_weight(EdgeIndex::new(e)).unwrap();
            let ghost g0 = self.graph@;
            self.graph.add_edge(NodeIndex::new(index_map[s.index]), NodeIndex::new(index_map[t.index]), w);
            assert(self.graph@.edges.subrange(0, before.graph@.edges.len() as int) =~= g0.edges.subrange(
                0,
                before.graph@.edges.len() as int,
            ));
            assert(edge_triples(self.graph@) =~= edge_triples(g0).push(edge_triple(fg@, e as int)));
            assert(edge_triples(fg@).subrange(0, e + 1) =~= edge_triples(fg@).subrange(0, e as int).push(
                edge_triple(fg@, e as int),
            ));
            e = e + 1;
        }
        assert(edge_triples(fg@).subrange(0, m as int) =~= edge_triples(fg@));
        let ghost after = *self;
        assert(forall|k: int| 0 <= k < n1 ==> (#[trigger] locs1@[k]).1@ == after.location(k));
        assert(after.wf());
        assert(after.files() == before.files().insert(source_file@));
        assert(id_set(after.graph@) == id_set(before.graph@).union(id_set(fg@)));
        assert(after.graph@.nodes.subrange(0, n0) == before.graph@.nodes);
        assert(forall|k: int| 0 <= k < n0 ==> #[trigger] after.location(k) == before.location(k));
        assert(forall|k: int| n0 <= k < n1 ==> #[trigger] after.location(k) == source_file@);
        assert(edge_triples(after.graph@) == edge_triples(before.graph@) + edge_triples(fg@));
        Ok(())
    }
}

/// `a` comes no later than `b` in lexicographic order of code points.
pub open spec fn path_le(a: Seq<char>, b: Seq<char>) -> bool
    decreases a.len(),
{
    if a.len() == 0 {
        true
    } else if b.len() == 0 {
        false
    } else if (a[0] as u32) != (b[0] as u32) {
        (a[0] as u32) < (b[0] as u32)
    } else {
        path_le(a.drop_first(), b.drop_first())
    }
}

proof fn lemma_path_le_total(a: Seq<char>, b: Seq<char>)
    ensures
        path_le(a, b) || path_le(b, a),
    decreases a.len(),
{
    if a.len() > 0 && b.len() > 0 && (a[0] as u32) == (b[0] as u32) {
        lemma_path_le_total(a.drop_first(), b.drop_first());
    }
}

proof fn lemma_path_le_trans(a: Seq<char>, b: Seq<char>, c: Seq<char>)
    requires
        path_le(a, b),
        path_le(b, c),
    ensures
        path_le(a, c),
    decreases a.len(),
{
    if a.len() > 0 && b.len() > 0 && c.len() > 0 && (a[0] as u32) == (b[0] as u32) && (b[0] as u32) == (
    c[0] as u32) {
        lemma_path_le_trans(a.drop_first(), b.drop_first(), c.drop_first());
    }
}

proof fn lemma_path_le_antisymmetric(a: Seq<char>, b: Seq<char>)
    requires
        path_le(a, b),
        path_le(b, a),
    ensures
        a == b,
    decreases a.len(),
{
    if a.len() > 0 && b.len() > 0 {
        lemma_path_le_antisymmetric(a.drop_first(), b.drop_first());
        vstd::utf8::char_u32_cast(a[0], a[0] as u32);
        vstd::utf8::char_u32_cast(b[0], b[0] as u32);
        assert(a[0] == b[0]);
        assert(a =~= seq![a[0]] + a.drop_first());
        assert(b =~= seq![b[0]] + b.drop_first());
    } else {
        assert(a =~= b);
    }
}

proof fn lemma_path_lt_trans(a: Seq<char>, b: Seq<char>, c: Seq<char>)
    requires
        path_le(a, b),
        path_le(b, c),
        path_lt(a, b) || path_lt(b, c),
    ensures
        path_lt(a, c),
{
    lemma_path_le_trans(a, b, c);
    if a == c {
        lemma_path_le_antisymmetric(a, b);
    }
}

/// Whether `a` comes no later than `b` in lexicographic order of code points.
pub fn path_le_exec(a: &str, b: &str) -> (r: bool)
    ensures
        r == path_le(a@, b@),
{
    let la = a.unicode_len();
    let lb = b.unicode_len();
    let mut i: usize = 0;
    assert(a@.skip(0) =~= a@);
    assert(b@.skip(0) =~= b@);
    while i < la && i < lb
        invariant
            la == a@.len(),
            lb == b@.len(),
            i <= la,
            i <= lb,
            path_le(a@, b@) == path_le(a@.skip(i as int), b@.skip(i as int)),
        decreases la - i,
    {
        let ca = a.get_char(i) as u32;
        let cb = b.get_char(i) as u32;
        assert(a@.skip(i as int)[0] == a@[i as int]);
        assert(b@.skip(i as int)[0] == b@[i as int]);
        if ca != cb {
            return ca < cb;
        }
        assert(a@.skip(i as int).drop_first() =~= a@.skip(i + 1));
        assert(b@.skip(i as int).drop_first() =~= b@.skip(i + 1));
        i = i + 1;
    }
    i == la
}

/// The inputs are in lexicographic order of their paths.
pub open spec fn sorted_by_path<T>(s: Seq<(String, T)>) -> bool {
    forall|i: int, j: int| 0 <= i < j < s.len() ==> path_le(#[trigger] s[i].0@, #[trigger] s[j].0@)
}

/// The inputs, reordered by path.
pub fn sort_by_path<T>(files: Vec<(String, T)>) -> (r: Vec<(String, T)>)
    ensures
        r@.to_multiset() == files@.to_multiset(),
        sorted_by_path(r@),
{
    broadcast use vstd::seq_lib::group_to_multiset_ensures;
    broadcast use vstd::multiset::group_multiset_axioms;

    let mut rest = files;
    let mut sorted: Vec<(String, T)> = Vec::new();
    assert(sorted@.to_multiset() =~= Multiset::empty());
    assert(sorted@.to_multiset().add(rest@.to_multiset()) =~= files@.to_multiset());
    while rest.len() > 0
        invariant
            sorted@.to_multiset().add(rest@.to_multiset()) == files@.to_multiset(),
            sorted_by_path(sorted@),
        decreases rest@.len(),
    {
        let ghost rest0 = rest@;
        let item = rest.pop().unwrap();
        assert(rest0 =~= rest@.push(item));
        let mut pos: usize = 0;
        let mut found = false;
        while pos < sorted.len() && !found
            invariant
                pos <= sorted@.len(),
                found ==> pos < sorted@.len() && !path_le(sorted@[pos as int].0@, item.0@),
                forall|q: int| 0 <= q < pos ==> path_le(#[trigger] sorted@[q].0@, item.0@),
            decreases sorted@.len() - pos + if found { 0int } else { 1int },
        {
            if !path_le_exec(sorted[pos].0.as_str(), item.0.as_str()) {
                found = true;
            } else {
                pos = pos + 1;
            }
        }
        let ghost before = sorted@;
        proof {
            if pos < before.len() {
                lemma_path_le_total(before[pos as int].0@, item.0@);
            }
        }
        assert(pos < before.len() ==> path_le(item.0@, before[pos as int].0@));
        sorted.insert(pos, item);
        assert(sorted@ == before.insert(pos as int, item));
        assert forall|i: int, j: int| 0 <= i < j < sorted@.len() implies path_le(
            #[trigger] sorted@[i].0@,
            #[trigger] sorted@[j].0@,
        ) by {
            if j < pos {
                assert(sorted@[i] == before[i] && sorted@[j] == before[j]);
            } else if j == pos {
                assert(sorted@[i] == before[i]);
            } else if i < pos {
                assert(sorted@[i] == before[i] && sorted@[j] == before[j - 1]);
                lemma_path_le_total(before[i].0@, before[j - 1].0@);
            } else if i == pos {
                assert(sorted@[j] == before[j - 1]);
                if pos < j - 1 {
                    lemma_path_le_trans(item.0@, before[pos as int].0@, before[j - 1].0@);
                }
            } else {
                assert(sorted@[i] == before[i - 1] && sorted@[j] == before[j - 1]);
            }
        }
        proof {
            vstd::seq_lib::to_multiset_insert(before, pos as int, item);
            vstd::seq_lib::to_multiset_build(rest@, item);
        }
        assert(sorted@.to_multiset().add(rest@.to_multiset()) =~= before.to_multiset().add(rest0.to_multiset()));
    }
    assert(rest@.to_multiset() =~= Multiset::empty());
    assert(sorted@.to_multiset() =~= files@.to_multiset());
    sorted
}

/// The paths of the inputs.
pub open spec fn input_paths<T>(s: Seq<(String, T)>) -> Set<Seq<char>> {
    Set::new(|p: Seq<char>| exists|i: int| 0 <= i < s.len() && (#[trigger] s[i]).0@ == p)
}

/// The identifiers of the nodes of the inputs' graphs.
pub open spec fn input_ids(s: Seq<(String, Graph)>) -> Set<Seq<char>> {
    Set::new(|id: Seq<char>| exists|i: int| 0 <= i < s.len() && has_id((#[trigger] s[i]).1@, id))
}

/// Some input's graph has an edge with identifier triple `t`.
pub open spec fn input_has_triple(s: Seq<(String, Graph)>, t: (Seq<char>, Seq<char>, EdgeType)) -> bool {
    exists|i: int| 0 <= i < s.len() && edge_triples((#[trigger] s[i]).1@).contains(t)
}

/// The number of nodes of the inputs' graphs, all together.
pub open spec fn sum_nodes(s: Seq<(String, Graph)>) -> nat
    decreases s.len(),
{
    if s.len() == 0 {
        0
    } else {
        sum_nodes(s.drop_last()) + s.last().1@.nodes.len()
    }
}

/// The number of edges of the inputs' graphs, all together.
pub open spec fn sum_edges(s: Seq<(String, Graph)>) -> nat
    decreases s.len(),
{
    if s.len() == 0 {
        0
    } else {
        sum_edges(s.drop_last()) + s.last().1@.edges.len()
    }
}

/// `m` is the merge of all the input graphs, each with its file's path.
pub open spec fn merged_all(m: MultiFileGraph, s: Seq<(String, Graph)>) -> bool {
    &&& m.wf()
    &&& m.files() == input_paths(s)
    &&& id_set(m.graph@) == input_ids(s)
    &&& forall|t: (Seq<char>, Seq<char>, EdgeType)|
        edge_triples(m.graph@).contains(t) <==> input_has_triple(s, t)
    &&& m.graph@.edges.len() == sum_edges(s)
    &&& forall|k: int|
        0 <= k < m.graph@.nodes.len() ==> provided_by(s, #[trigger] m.location(k), m.graph@.nodes[k].id@)
}

/// The first input whose graph has a node with identifier `id` is at `path`.
pub open spec fn first_provider(s: Seq<(String, Graph)>, path: Seq<char>, id: Seq<char>) -> bool {
    exists|i: int|
        0 <= i < s.len() && (#[trigger] s[i]).0@ == path && has_id(s[i].1@, id) && forall|j: int|
            0 <= j < i ==> !has_id(#[trigger] s[j].1@, id)
}

/// `path` is the least path, in lexicographic order, of the inputs whose
/// graph has a node with identifier `id`.
pub open spec fn least_provider(s: Seq<(String, Graph)>, path: Seq<char>, id: Seq<char>) -> bool {
    &&& provided_by(s, path, id)
    &&& forall|i: int| 0 <= i < s.len() && has_id(#[trigger] s[i].1@, id) ==> path_le(path, s[i].0@)
}

/// Each node of `m` is attributed to the least path that provides its identifier.
pub open spec fn provenance_least(m: MultiFileGraph, s: Seq<(String, Graph)>) -> bool {
    forall|k: int| 0 <= k < m.graph@.nodes.len() ==> least_provider(s, #[trigger] m.location(k), m.graph@.nodes[k].id@)
}

/// Some input at `path` has a node with identifier `id`.
pub open spec fn provided_by(s: Seq<(String, Graph)>, path: Seq<char>, id: Seq<char>) -> bool {
    exists|i: int| 0 <= i < s.len() && (#[trigger] s[i]).0@ == path && has_id(s[i].1@, id)
}

proof fn lemma_sums_remove(s: Seq<(String, Graph)>, j: int)
    requires
        0 <= j < s.len(),
    ensures
        sum_nodes(s) == sum_nodes(s.remove(j)) + s[j].1@.nodes.len(),
        sum_edges(s) == sum_edges(s.remove(j)) + s[j].1@.edges.len(),
    decreases s.len(),
{
    if j == s.len() - 1 {
        assert(s.remove(j) =~= s.drop_last());
    } else {
        lemma_sums_remove(s.drop_last(), j);
        assert(s.remove(j).drop_last() =~= s.drop_last().remove(j));
        assert(s.remove(j).last() == s.last());
    }
}

proof fn lemma_sums_permutation(s1: Seq<(String, Graph)>, s2: Seq<(String, Graph)>)
    requires
        s1.to_multiset() == s2.to_multiset(),
    ensures
        sum_nodes(s1) == sum_nodes(s2),
        sum_edges(s1) == sum_edges(s2),
    decreases s1.len(),
{
    broadcast use vstd::seq_lib::group_to_multiset_ensures;

    vstd::seq_lib::to_multiset_len(s1);
    vstd::seq_lib::to_multiset_len(s2);
    if s1.len() == 0 {
        assert(s2.len() == 0);
    } else {
        let x = s1.last();
        assert(s1 =~= s1.drop_last().push(x));
        assert(s1.to_multiset().count(x) > 0) by {
            assert(s1.contains(x)) by {
                assert(s1[s1.len() - 1] == x);
            }
        }
        assert(s2.contains(x));
        let j = choose|j: int| 0 <= j < s2.len() && s2[j] == x;
        vstd::seq_lib::to_multiset_build(s1.drop_last(), x);
        vstd::seq_lib::to_multiset_remove(s2, j);
        assert(s1.drop_last().to_multiset() =~= s2.remove(j).to_multiset());
        lemma_sums_permutation(s1.drop_last(), s2.remove(j));
        lemma_sums_remove(s2, j);
    }
}

proof fn lemma_permutation_contains(s1: Seq<(String, Graph)>, s2: Seq<(String, Graph)>, i: int)
    requires
        s1.to_multiset() == s2.to_multiset(),
        0 <= i < s1.len(),
    ensures
        exists|j: int| 0 <= j < s2.len() && s2[j] == s1[i],
{
    broadcast use vstd::seq_lib::group_to_multiset_ensures;

    assert(s1.contains(s1[i]));
    assert(s2.to_multiset().count(s1[i]) > 0);
    assert(s2.contains(s1[i]));
}

proof fn lemma_inputs_permutation(s1: Seq<(String, Graph)>, s2: Seq<(String, Graph)>)
    requires
        s1.to_multiset() == s2.to_multiset(),
    ensures
        input_paths(s1) == input_paths(s2),
        input_ids(s1) == input_ids(s2),
        forall|t: (Seq<char>, Seq<char>, EdgeType)| input_has_triple(s1, t) <==> input_has_triple(s2, t),
        sum_nodes(s1) == sum_nodes(s2),
        sum_edges(s1) == sum_edges(s2),
        forall|i: int| 0 <= i < s1.len() ==> exists|j: int| 0 <= j < s2.len() && s2[j] == #[trigger] s1[i],
{
    lemma_sums_permutation(s1, s2);
    assert forall|i: int| 0 <= i < s1.len() implies exists|j: int| 0 <= j < s2.len() && s2[j] == #[trigger] s1[i] by {
        lemma_permutation_contains(s1, s2, i);
    }
    assert forall|j: int| 0 <= j < s2.len() implies exists|i: int| 0 <= i < s1.len() && s1[i] == #[trigger] s2[j] by {
        lemma_permutation_contains(s2, s1, j);
    }
    assert(input_paths(s1) =~= input_paths(s2));
    assert(input_ids(s1) =~= input_ids(s2));
}

proof fn lemma_merge_step_triples(m0: MultiFileGraph, m1: MultiFileGraph, s: Seq<(String, Graph)>, k: int)
    requires
        0 <= k < s.len(),
        merged_all(m0, s.take(k)),
        merged(m0, m1, s[k].1@, s[k].0@),
    ensures
        forall|t: (Seq<char>, Seq<char>, EdgeType)|
            edge_triples(m1.graph@).contains(t) <==> input_has_triple(s.take(k + 1), t),
{
    let t0 = s.take(k);
    let t1 = s.take(k + 1);
    let fg = s[k].1@;
    assert(t1 =~= t0.push(s[k]));
    assert(t0.len() == k);
    assert forall|i: int| 0 <= i < k implies t1[i] == t0[i] by {}
    assert forall|t: (Seq<char>, Seq<char>, EdgeType)|
        edge_triples(m1.graph@).contains(t) <==> input_has_triple(t1, t) by {
        let e0 = edge_triples(m0.graph@);
        let ef = edge_triples(fg);
        if edge_triples(m1.graph@).contains(t) {
            let q = choose|q: int| 0 <= q < (e0 + ef).len() && (e0 + ef)[q] == t;
            if q < e0.len() {
                assert(e0[q] == t);
                assert(e0.contains(t));
                assert(input_has_triple(t0, t));
                let i = choose|i: int| 0 <= i < t0.len() && edge_triples((#[trigger] t0[i]).1@).contains(t);
                assert(t1[i] == t0[i]);
            } else {
                assert(ef[q - e0.len()] == t);
                assert(t1[k] == s[k]);
            }
        }
        if input_has_triple(t1, t) {
            let i = choose|i: int| 0 <= i < t1.len() && edge_triples((#[trigger] t1[i]).1@).contains(t);
            if i < k {
                assert(t0[i] == t1[i]);
                assert(input_has_triple(t0, t));
                let q = choose|q: int| 0 <= q < e0.len() && e0[q] == t;
                assert((e0 + ef)[q] == t);
            } else {
                let q = choose|q: int| 0 <= q < ef.len() && ef[q] == t;
                assert((e0 + ef)[e0.len() + q] == t);
            }
        }
    }
}

proof fn lemma_merge_step(m0: MultiFileGraph, m1: MultiFileGraph, s: Seq<(String, Graph)>, k: int)
    requires
        0 <= k < s.len(),
        merged_all(m0, s.take(k)),
        merged(m0, m1, s[k].1@, s[k].0@),
    ensures
        merged_all(m1, s.take(k + 1)),
{
    let t0 = s.take(k);
    let t1 = s.take(k + 1);
    let fg = s[k].1@;
    assert(t1 =~= t0.push(s[k]));
    assert(t1.drop_last() =~= t0);
    assert(input_paths(t1) =~= input_paths(t0).insert(s[k].0@)) by {
        assert forall|p: Seq<char>| input_paths(t1).contains(p) <==> input_paths(t0).insert(s[k].0@).contains(p) by {
            if input_paths(t1).contains(p) {
                let i = choose|i: int| 0 <= i < t1.len() && (#[trigger] t1[i]).0@ == p;
                if i < k {
                    assert(t0[i] == t1[i]);
                }
            }
            if input_paths(t0).contains(p) {
                let i = choose|i: int| 0 <= i < t0.len() && (#[trigger] t0[i]).0@ == p;
                assert(t1[i] == t0[i]);
            }
            if p == s[k].0@ {
                assert(t1[k] == s[k]);
            }
        }
    }
    assert(input_ids(t1) =~= input_ids(t0).union(id_set(fg))) by {
        assert forall|id: Seq<char>| input_ids(t1).contains(id) <==> input_ids(t0).union(id_set(fg)).contains(id) by {
            if input_ids(t1).contains(id) {
                let i = choose|i: int| 0 <= i < t1.len() && has_id((#[trigger] t1[i]).1@, id);
                if i < k {
                    assert(t0[i] == t1[i]);
                }
            }
            if input_ids(t0).contains(id) {
                let i = choose|i: int| 0 <= i < t0.len() && has_id((#[trigger] t0[i]).1@, id);
                assert(t1[i] == t0[i]);
            }
            if id_set(fg).contains(id) {
                assert(t1[k] == s[k]);
            }
        }
    }
    lemma_merge_step_triples(m0, m1, s, k);
    let n0 = m0.graph@.nodes.len() as int;
    assert forall|k2: int| 0 <= k2 < m1.graph@.nodes.len() implies provided_by(
        t1,
        #[trigger] m1.location(k2),
        m1.graph@.nodes[k2].id@,
    ) by {
        if k2 < n0 {
            assert(m1.graph@.nodes.subrange(0, n0)[k2] == m1.graph@.nodes[k2]);
            assert(m1.graph@.nodes[k2] == m0.graph@.nodes[k2]);
            assert(m1.location(k2) == m0.location(k2));
            let i = choose|i: int|
                0 <= i < t0.len() && (#[trigger] t0[i]).0@ == m0.location(k2) && has_id(
                    t0[i].1@,
                    m0.graph@.nodes[k2].id@,
                );
            assert(t1[i] == t0[i]);
        } else {
            assert(first_of_its_id(m1.graph@.nodes[k2], fg));
            let j = choose|j: int|
                0 <= j < fg.nodes.len() && m1.graph@.nodes[k2] == fg.nodes[j] && forall|q: int|
                    0 <= q < j ==> #[trigger] fg.nodes[q].id@ != m1.graph@.nodes[k2].id@;
            assert(has_id(fg, m1.graph@.nodes[k2].id@));
            assert(t1[k] == s[k]);
        }
    }
    assert(m1.wf());
    assert(m1.files() == input_paths(t1));
    assert(id_set(m1.graph@) == input_ids(t1));
    assert(edge_triples(m1.graph@).len() == m1.graph@.edges.len());
    assert(edge_triples(m0.graph@).len() == m0.graph@.edges.len());
    assert(edge_triples(fg).len() == fg.edges.len());
    assert(t1.last() == s[k]);
    assert(m1.graph@.edges.len() == sum_edges(t1));

}

/// Merge the graphs of many files into one, in lexicographic order of
/// their paths, so that the result does not depend on the order given.
pub fn merge_all(files: Vec<(String, Graph)>) -> (r: Result<MultiFileGraph, GraphError>)
    requires
        forall|i: int| 0 <= i < files@.len() ==> (#[trigger] files@[i]).1.wf(),
        sum_nodes(files@) < u32::MAX,
        sum_edges(files@) < u32::MAX,
    ensures
        r matches Ok(m) && merged_all(m, files@) && provenance_least(m, files@),
{
    let ghost input = files@;
    let sorted = sort_by_path(files);
    proof {
        lemma_inputs_permutation(sorted@, input);
        assert forall|i: int| 0 <= i < sorted@.len() implies (#[trigger] sorted@[i]).1.wf() by {
            let j = choose|j: int| 0 <= j < input.len() && input[j] == sorted@[i];
        }
    }
    let m = merge_in_order(&sorted);
    proof {
        lemma_merged_all_permutation(m, sorted@, input);
        lemma_first_is_least(m, sorted@);
        lemma_least_permutation(m, sorted@, input);
    }
    Ok(m)
}

/// Merge the graphs of many files into one, in the order given.
fn merge_in_order(files: &Vec<(String, Graph)>) -> (m: MultiFileGraph)
    requires
        forall|i: int| 0 <= i < files@.len() ==> (#[trigger] files@[i]).1.wf(),
        sum_nodes(files@) < u32::MAX,
        sum_edges(files@) < u32::MAX,
    ensures
        merged_all(m, files@),
        forall|q: int| 0 <= q < m.graph@.nodes.len() ==> first_provider(files@, #[trigger] m.location(q), m.graph@.nodes[q].id@),
{
    let mut m = MultiFileGraph::new();
    assert(files@.take(0) =~= Seq::<(String, Graph)>::empty());
    assert(input_paths(files@.take(0)) =~= Set::<Seq<char>>::empty());
    assert(input_ids(files@.take(0)) =~= Set::<Seq<char>>::empty());
    assert(id_set(m.graph@) =~= Set::<Seq<char>>::empty());
    let mut k: usize = 0;
    while k < files.len()
        invariant
            k <= files@.len(),
            forall|i: int| 0 <= i < files@.len() ==> (#[trigger] files@[i]).1.wf(),
            sum_nodes(files@) < u32::MAX,
            sum_edges(files@) < u32::MAX,
            merged_all(m, files@.take(k as int)),
            m.graph@.nodes.len() <= sum_nodes(files@.take(k as int)),
            forall|q: int| 0 <= q < m.graph@.nodes.len() ==> first_provider(files@, #[trigger] m.location(q), m.graph@.nodes[q].id@),
        decreases files@.len() - k,
    {
        let ghost m0 = m;
        proof {
            assert(files@.take(k + 1).drop_last() =~= files@.take(k as int));
            lemma_prefix_sums(files@, k + 1);
        }
        let r = m.merge_from(&files[k].1, &files[k].0);
        proof {
            lemma_merge_step(m0, m, files@, k as int);
            lemma_merge_step_first(m0, m, files@, k as int);
        }
        k = k + 1;
    }
    assert(files@.take(files@.len() as int) =~= files@);
    m
}

proof fn lemma_prefix_sums(s: Seq<(String, Graph)>, k: int)
    requires
        0 <= k <= s.len(),
    ensures
        sum_nodes(s.take(k)) <= sum_nodes(s),
        sum_edges(s.take(k)) <= sum_edges(s),
    decreases s.len(),
{
    if k < s.len() {
        assert(s.drop_last().take(k) =~= s.take(k));
        lemma_prefix_sums(s.drop_last(), k);
    } else {
        assert(s.take(k) =~= s);
    }
}

proof fn lemma_merged_all_permutation(m: MultiFileGraph, s1: Seq<(String, Graph)>, s2: Seq<(String, Graph)>)
    requires
        merged_all(m, s1),
        s1.to_multiset() == s2.to_multiset(),
    ensures
        merged_all(m, s2),
{
    lemma_inputs_permutation(s1, s2);
    assert forall|k: int| 0 <= k < m.graph@.nodes.len() implies provided_by(
        s2,
        #[trigger] m.location(k),
        m.graph@.nodes[k].id@,
    ) by {
        let i = choose|i: int|
            0 <= i < s1.len() && (#[trigger] s1[i]).0@ == m.location(k) && has_id(s1[i].1@, m.graph@.nodes[k].id@);
        assert(exists|j: int| 0 <= j < s2.len() && s2[j] == #[trigger] s1[i]);
    }
}

/// Some node of `m` has identifier `id` and was contributed by the file at `path`.
pub open spec fn provenance(m: MultiFileGraph, id: Seq<char>, path: Seq<char>) -> bool {
    exists|k: int| 0 <= k < m.graph@.nodes.len() && (#[trigger] m.graph@.nodes[k]).id@ == id && m.location(k) == path
}

proof fn lemma_node_count_is_id_count(m: MultiFileGraph)
    requires
        m.wf(),
    ensures
        id_set(m.graph@).finite(),
        id_set(m.graph@).len() == m.graph@.nodes.len(),
{
    let ids = node_ids(m.graph@);
    assert(id_set(m.graph@) =~= ids.to_set()) by {
        assert forall|id: Seq<char>| has_id(m.graph@, id) <==> ids.contains(id) by {
            if has_id(m.graph@, id) {
                let k = choose|k: int| 0 <= k < m.graph@.nodes.len() && (#[trigger] m.graph@.nodes[k]).id@ == id;
                assert(ids[k] == id);
            }
            if ids.contains(id) {
                let k = choose|k: int| 0 <= k < ids.len() && ids[k] == id;
                assert(m.graph@.nodes[k].id@ == id);
            }
        }
    }
    ids.unique_seq_to_set();
    vstd::seq_lib::seq_to_set_is_finite(ids);
}

/// Merging the same files in any order gives the same node identifiers,
/// the same number of nodes, the same edges as (source identifier, target
/// identifier, kind) triples, the same number of edges, the same set of
/// files and the same provenance of every identifier.
pub proof fn lemma_merge_order_independent(
    s1: Seq<(String, Graph)>,
    s2: Seq<(String, Graph)>,
    m1: MultiFileGraph,
    m2: MultiFileGraph,
)
    requires
        s1.to_multiset() == s2.to_multiset(),
        merged_all(m1, s1),
        provenance_least(m1, s1),
        merged_all(m2, s2),
        provenance_least(m2, s2),
    ensures
        id_set(m1.graph@) == id_set(m2.graph@),
        m1.graph@.nodes.len() == m2.graph@.nodes.len(),
        forall|t: (Seq<char>, Seq<char>, EdgeType)|
            edge_triples(m1.graph@).contains(t) <==> edge_triples(m2.graph@).contains(t),
        m1.graph@.edges.len() == m2.graph@.edges.len(),
        m1.files() == m2.files(),
        forall|id: Seq<char>, path: Seq<char>| provenance(m1, id, path) <==> provenance(m2, id, path),
{
    lemma_inputs_permutation(s1, s2);
    lemma_inputs_permutation(s2, s1);
    lemma_node_count_is_id_count(m1);
    lemma_node_count_is_id_count(m2);
    assert forall|t: (Seq<char>, Seq<char>, EdgeType)|
        edge_triples(m1.graph@).contains(t) <==> edge_triples(m2.graph@).contains(t) by {
        assert(edge_triples(m1.graph@).contains(t) <==> input_has_triple(s1, t));
        assert(edge_triples(m2.graph@).contains(t) <==> input_has_triple(s2, t));
    }
    assert forall|id: Seq<char>, path: Seq<char>| provenance(m1, id, path) <==> provenance(m2, id, path) by {
        lemma_provenance_is_least(m1, s1, id, path);
        lemma_provenance_is_least(m2, s2, id, path);
        if least_provider(s1, path, id) {
            let i = choose|i: int| 0 <= i < s1.len() && (#[trigger] s1[i]).0@ == path && has_id(s1[i].1@, id);
            let j = choose|j: int| 0 <= j < s2.len() && s2[j] == s1[i];
            assert(provided_by(s2, path, id));
            assert forall|i2: int| 0 <= i2 < s2.len() && has_id(#[trigger] s2[i2].1@, id) implies path_le(path, s2[i2].0@) by {
                let j2 = choose|j2: int| 0 <= j2 < s1.len() && s1[j2] == s2[i2];
                assert(has_id(s1[j2].1@, id));
            }
        }
        if least_provider(s2, path, id) {
            let i = choose|i: int| 0 <= i < s2.len() && (#[trigger] s2[i]).0@ == path && has_id(s2[i].1@, id);
            let j = choose|j: int| 0 <= j < s1.len() && s1[j] == s2[i];
            assert(provided_by(s1, path, id));
            assert forall|i2: int| 0 <= i2 < s1.len() && has_id(#[trigger] s1[i2].1@, id) implies path_le(path, s1[i2].0@) by {
                let j2 = choose|j2: int| 0 <= j2 < s2.len() && s2[j2] == s1[i2];
                assert(has_id(s2[j2].1@, id));
            }
        }
    }
}

proof fn lemma_paths_permutation<T>(s1: Seq<(String, T)>, s2: Seq<(String, T)>)
    requires
        s1.to_multiset() == s2.to_multiset(),
    ensures
        input_paths(s1) == input_paths(s2),
{
    broadcast use vstd::seq_lib::group_to_multiset_ensures;

    assert forall|p: Seq<char>| input_paths(s1).contains(p) <==> input_paths(s2).contains(p) by {
        if input_paths(s1).contains(p) {
            let i = choose|i: int| 0 <= i < s1.len() && (#[trigger] s1[i]).0@ == p;
            assert(s1.contains(s1[i]));
            assert(s2.to_multiset().count(s1[i]) > 0);
            let j = choose|j: int| 0 <= j < s2.len() && s2[j] == s1[i];
            assert(s2[j].0@ == p);
        }
        if input_paths(s2).contains(p) {
            let i = choose|i: int| 0 <= i < s2.len() && (#[trigger] s2[i]).0@ == p;
            assert(s2.contains(s2[i]));
            assert(s1.to_multiset().count(s2[i]) > 0);
            let j = choose|j: int| 0 <= j < s1.len() && s1[j] == s2[i];
            assert(s1[j].0@ == p);
        }
    }
    assert(input_paths(s1) =~= input_paths(s2));
}

/// `gs` holds, in order, the path and graph of each of `files`: the graph of
/// its source as the file at its path.
pub open spec fn graphs_of(gs: Seq<(String, Graph)>, files: Seq<(String, Vec<u8>)>) -> bool {
    &&& gs.len() == files.len()
    &&& forall|i: int|
        0 <= i < gs.len() ==> (#[trigger] gs[i]).0 == files[i].0 && gs[i].1.wf() && source_graph(
            gs[i].1@,
            files[i].1@,
            files[i].0@,
        )
}

/// Every file's source parses.
pub open spec fn all_parse(files: Seq<(String, Vec<u8>)>) -> bool {
    forall|i: int| 0 <= i < files.len() ==> (#[trigger] python_tree(files[i].1@)) is Some
}

/// `e` is a failure that parsing `files` can end in: a file whose source
/// does not parse, or graphs of some of the files, in some order, that
/// together reach `u32::MAX` nodes or edges.
pub open spec fn parse_failure(e: GraphError, files: Seq<(String, Vec<u8>)>) -> bool {
    match e {
        GraphError::Unparseable { path } => exists|i: int|
            0 <= i < files.len() && (#[trigger] files[i]).0 == path && python_tree(files[i].1@) is None,
        GraphError::TooLarge => exists|fs: Seq<(String, Vec<u8>)>, k: int, gs: Seq<(String, Graph)>|
            fs.to_multiset() == files.to_multiset() && 0 <= k <= fs.len() && #[trigger] graphs_of(gs, fs.take(k))
                && (sum_nodes(gs) >= u32::MAX || sum_edges(gs) >= u32::MAX),
        _ => false,
    }
}

/// `m` is the merge of the graphs of `files`, taken in some order.
pub open spec fn parsed_merge(m: MultiFileGraph, files: Seq<(String, Vec<u8>)>) -> bool {
    exists|fs: Seq<(String, Vec<u8>)>, gs: Seq<(String, Graph)>|
        fs.to_multiset() == files.to_multiset() && #[trigger] graphs_of(gs, fs) && merged_all(m, gs)
            && provenance_least(m, gs) && sum_nodes(gs) < u32::MAX && sum_edges(gs) < u32::MAX
}

proof fn lemma_contains_permuted<T>(s1: Seq<T>, s2: Seq<T>, i: int)
    requires
        s1.to_multiset() == s2.to_multiset(),
        0 <= i < s1.len(),
    ensures
        exists|j: int| 0 <= j < s2.len() && s2[j] == s1[i],
{
    broadcast use vstd::seq_lib::group_to_multiset_ensures;

    assert(s1.contains(s1[i]));
    assert(s2.to_multiset().count(s1[i]) > 0);
    assert(s2.contains(s1[i]));
}

/// Parse the Python files given as (canonical absolute path, source) and
/// merge their graphs. Files are parsed in lexicographic order of their
/// paths; the first that cannot be parsed fails the whole operation, as do
/// graphs too large for `u32` indices, and no graph is returned then.
pub fn parse_files(files: Vec<(String, Vec<u8>)>) -> (r: Result<MultiFileGraph, GraphError>)
    ensures
        files@.len() == 0 ==> r is Ok,
        all_parse(files@) ==> (r is Ok || r matches Err(GraphError::TooLarge)),
        r matches Ok(m) ==> parsed_merge(m, files@),
        r matches Err(e) ==> parse_failure(e, files@),
{
    let ghost input = files@;
    let sorted = sort_by_path(files);
    proof {
        vstd::seq_lib::to_multiset_len(sorted@);
        vstd::seq_lib::to_multiset_len(input);
    }
    let parser = Parser::new();
    let mut graphs: Vec<(String, Graph)> = Vec::new();
    let mut total_nodes: usize = 0;
    let mut total_edges: usize = 0;
    let mut k: usize = 0;
    while k < sorted.len()
        invariant
            k <= sorted@.len(),
            input == files@,
            sorted@.to_multiset() == input.to_multiset(),
            sorted@.len() == input.len(),
            graphs_of(graphs@, sorted@.take(k as int)),
            total_nodes == sum_nodes(graphs@),
            total_edges == sum_edges(graphs@),
            total_nodes < u32::MAX,
            total_edges < u32::MAX,
        decreases sorted@.len() - k,
    {
        let g = match parser.parse_file(&sorted[k].0, sorted[k].1.as_slice(), &Language::Python) {
            Ok(g) => g,
            Err(e) => {
                proof {
                    lemma_contains_permuted(sorted@, input, k as int);
                    let j = choose|j: int| 0 <= j < input.len() && input[j] == sorted@[k as int];
                    if all_parse(input) {
                        assert(python_tree(input[j].1@) is Some);
                    }
                }
                return Err(e);
            },
        };
        let ghost before = graphs@;
        let ghost entry = (sorted@[k as int].0, g);
        proof {
            assert(sorted@.take(k + 1) =~= sorted@.take(k as int).push(sorted@[k as int]));
            assert(before.push(entry).drop_last() =~= before);
            assert(graphs_of(before.push(entry), sorted@.take(k + 1))) by {
                assert forall|i: int| 0 <= i < k + 1 implies (#[trigger] before.push(entry)[i]).0
                    == sorted@.take(k + 1)[i].0 && before.push(entry)[i].1.wf() && source_graph(
                    before.push(entry)[i].1@,
                    sorted@.take(k + 1)[i].1@,
                    sorted@.take(k + 1)[i].0@,
                ) by {
                    if i < k {
                        assert(before[i] == before.push(entry)[i]);
                        assert(sorted@.take(k as int)[i] == sorted@.take(k + 1)[i]);
                    }
                }
            }
        }
        let nc = g.node_count();
        let ec = g.edge_count();
        if nc >= u32::MAX as usize - total_nodes || ec >= u32::MAX as usize - total_edges {
            assert(parse_failure(GraphError::TooLarge, input)) by {
                assert(graphs_of(before.push(entry), sorted@.take(k + 1)));
            }
            return Err(GraphError::TooLarge);
        }
        graphs.push((sorted[k].0.clone(), g));
        assert(graphs@ == before.push(entry));
        total_nodes = total_nodes + nc;
        total_edges = total_edges + ec;
        k = k + 1;
    }
    assert(sorted@.take(sorted@.len() as int) =~= sorted@);
    let ghost gs = graphs@;
    proof {
        assert forall|i: int| 0 <= i < gs.len() implies (#[trigger] gs[i]).1.wf() by {}
    }
    let r = merge_all(graphs);
    assert(graphs_of(gs, sorted@));
    r
}

proof fn lemma_merge_step_first(m0: MultiFileGraph, m1: MultiFileGraph, s: Seq<(String, Graph)>, k: int)
    requires
        0 <= k < s.len(),
        merged_all(m0, s.take(k)),
        merged(m0, m1, s[k].1@, s[k].0@),
        forall|q: int| 0 <= q < m0.graph@.nodes.len() ==> first_provider(s, #[trigger] m0.location(q), m0.graph@.nodes[q].id@),
    ensures
        forall|q: int| 0 <= q < m1.graph@.nodes.len() ==> first_provider(s, #[trigger] m1.location(q), m1.graph@.nodes[q].id@),
{
    let n0 = m0.graph@.nodes.len() as int;
    let fg = s[k].1@;
    let t0 = s.take(k);
    assert forall|q: int| 0 <= q < m1.graph@.nodes.len() implies first_provider(
        s,
        #[trigger] m1.location(q),
        m1.graph@.nodes[q].id@,
    ) by {
        let id = m1.graph@.nodes[q].id@;
        if q < n0 {
            assert(m1.graph@.nodes.subrange(0, n0)[q] == m1.graph@.nodes[q]);
            assert(m1.location(q) == m0.location(q));
            assert(first_provider(s, m0.location(q), m0.graph@.nodes[q].id@));
        } else {
            assert(first_of_its_id(m1.graph@.nodes[q], fg));
            let j = choose|j: int|
                0 <= j < fg.nodes.len() && m1.graph@.nodes[q] == fg.nodes[j] && forall|p: int|
                    0 <= p < j ==> #[trigger] fg.nodes[p].id@ != m1.graph@.nodes[q].id@;
            assert(has_id(fg, id));
            assert(!has_id(m0.graph@, id)) by {
                if has_id(m0.graph@, id) {
                    let q0 = choose|q0: int| 0 <= q0 < m0.graph@.nodes.len() && (#[trigger] m0.graph@.nodes[q0]).id@ == id;
                    assert(m1.graph@.nodes.subrange(0, n0)[q0] == m1.graph@.nodes[q0]);
                    assert(node_ids(m1.graph@)[q0] == node_ids(m1.graph@)[q]);
                }
            }
            assert(!input_ids(t0).contains(id));
            assert forall|j2: int| 0 <= j2 < k implies !has_id(#[trigger] s[j2].1@, id) by {
                assert(t0[j2] == s[j2]);
            }
            assert(s[k].0@ == m1.location(q));
        }
    }
}

proof fn lemma_path_le_reflexive(a: Seq<char>)
    ensures
        path_le(a, a),
    decreases a.len(),
{
    if a.len() > 0 {
        lemma_path_le_reflexive(a.drop_first());
    }
}

proof fn lemma_first_is_least(m: MultiFileGraph, s: Seq<(String, Graph)>)
    requires
        sorted_by_path(s),
        forall|q: int| 0 <= q < m.graph@.nodes.len() ==> first_provider(s, #[trigger] m.location(q), m.graph@.nodes[q].id@),
    ensures
        provenance_least(m, s),
{
    assert forall|q: int| 0 <= q < m.graph@.nodes.len() implies least_provider(
        s,
        #[trigger] m.location(q),
        m.graph@.nodes[q].id@,
    ) by {
        let id = m.graph@.nodes[q].id@;
        assert(first_provider(s, m.location(q), id));
        let i = choose|i: int|
            0 <= i < s.len() && (#[trigger] s[i]).0@ == m.location(q) && has_id(s[i].1@, id) && forall|j: int|
                0 <= j < i ==> !has_id(#[trigger] s[j].1@, id);
        assert forall|i2: int| 0 <= i2 < s.len() && has_id(#[trigger] s[i2].1@, id) implies path_le(
            m.location(q),
            s[i2].0@,
        ) by {
            if i2 == i {
                lemma_path_le_reflexive(s[i].0@);
            } else if i2 > i {
                assert(path_le(s[i].0@, s[i2].0@));
            }
        }
    }
}

proof fn lemma_least_permutation(m: MultiFileGraph, s1: Seq<(String, Graph)>, s2: Seq<(String, Graph)>)
    requires
        provenance_least(m, s1),
        s1.to_multiset() == s2.to_multiset(),
    ensures
        provenance_least(m, s2),
{
    lemma_inputs_permutation(s1, s2);
    lemma_inputs_permutation(s2, s1);
    assert forall|q: int| 0 <= q < m.graph@.nodes.len() implies least_provider(
        s2,
        #[trigger] m.location(q),
        m.graph@.nodes[q].id@,
    ) by {
        let id = m.graph@.nodes[q].id@;
        let p = m.location(q);
        assert(least_provider(s1, p, id));
        let i = choose|i: int| 0 <= i < s1.len() && (#[trigger] s1[i]).0@ == p && has_id(s1[i].1@, id);
        let j = choose|j: int| 0 <= j < s2.len() && s2[j] == s1[i];
        assert(provided_by(s2, p, id));
        assert forall|i2: int| 0 <= i2 < s2.len() && has_id(#[trigger] s2[i2].1@, id) implies path_le(p, s2[i2].0@) by {
            let j2 = choose|j2: int| 0 <= j2 < s1.len() && s1[j2] == s2[i2];
            assert(has_id(s1[j2].1@, id));
        }
    }
}

proof fn lemma_provenance_is_least(m: MultiFileGraph, s: Seq<(String, Graph)>, id: Seq<char>, path: Seq<char>)
    requires
        merged_all(m, s),
        provenance_least(m, s),
    ensures
        provenance(m, id, path) <==> (input_ids(s).contains(id) && least_provider(s, path, id)),
{
    if provenance(m, id, path) {
        let k = choose|k: int| 0 <= k < m.graph@.nodes.len() && (#[trigger] m.graph@.nodes[k]).id@ == id && m.location(k) == path;
        assert(least_provider(s, m.location(k), m.graph@.nodes[k].id@));
        assert(has_id(m.graph@, id));
        assert(id_set(m.graph@).contains(id));
    }
    if input_ids(s).contains(id) && least_provider(s, path, id) {
        assert(id_set(m.graph@).contains(id));
        let k = choose|k: int| 0 <= k < m.graph@.nodes.len() && (#[trigger] m.graph@.nodes[k]).id@ == id;
        let p2 = m.location(k);
        assert(least_provider(s, p2, id));
        let i = choose|i: int| 0 <= i < s.len() && (#[trigger] s[i]).0@ == p2 && has_id(s[i].1@, id);
        let j = choose|j: int| 0 <= j < s.len() && (#[trigger] s[j]).0@ == path && has_id(s[j].1@, id);
        assert(path_le(path, s[i].0@));
        assert(path_le(p2, s[j].0@));
        lemma_path_le_antisymmetric(path, p2);
    }
}

} // verus!
