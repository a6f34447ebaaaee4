//! The symbol graph: nodes, typed edges, and an index-stable container.
use petgraph::stable_graph::StableGraph;
use vstd::prelude::*;
use vstd::string::StringExecFns;

verus! {

/// Kinds of code elements that a node can stand for.
#[derive(Debug, Clone, Copy, PartialEq, Eq, Structural)]
pub enum NodeType {
    File,
    Module,
    Class,
    Interface,
    Struct,
    Function,
    Method,
    GlobalVariable,
    /// A logical grouping of code that is migrated together.
    MigrationUnit,
}

/// Kinds of relationships between nodes.
#[derive(Debug, Clone, Copy, PartialEq, Eq, Structural)]
pub enum EdgeType {
    /// Structural hierarchy: file, class, method.
    Contains,
    /// Execution dependency: function to function.
    Calls,
    /// Code dependency between modules or files.
    Imports,
    /// Class to base class.
    Inherits,
    /// Links a legacy node to its replacement.
    MigratedTo,
    /// Groups a node into a migration unit.
    PartOfMigration,
}

/// A typed relationship between two nodes.
#[derive(Debug, Clone, Copy, PartialEq, Eq, Structural)]
pub struct Edge {
    pub edge_type: EdgeType,
}

/// A code symbol.
#[derive(Debug, Clone)]
pub struct Node {
    /// Globally unique identifier, `<file path>::<symbol name>`.
    pub id: String,
    /// Symbol name.
    pub name: String,
    pub node_type: NodeType,
    /// Source language tag.
    pub language: String,
    /// Absolute path of the defining file.
    pub file_path: String,
    /// Line range `(start, end)`, where known.
    pub line_range: Option<(usize, usize)>,
}

/// The mathematical model of a [`Node`].
pub struct NodeView {
    pub id: Seq<char>,
    pub name: Seq<char>,
    pub node_type: NodeType,
    pub language: Seq<char>,
    pub file_path: Seq<char>,
    pub line_range: Option<(usize, usize)>,
}

impl View for Node {
    type V = NodeView;

    open spec fn view(&self) -> NodeView {
        NodeView {
            id: self.id@,
            name: self.name@,
            node_type: self.node_type,
            language: self.language@,
            file_path: self.file_path@,
            line_range: self.line_range,
        }
    }
}

impl Node {
    /// A field-by-field copy of this node.
    pub fn duplicate(&self) -> (r: Node)
        ensures
            r == *self,
    {
        Node {
            id: self.id.clone(),
            name: self.name.clone(),
            node_type: self.node_type,
            language: self.language.clone(),
            file_path: self.file_path.clone(),
            line_range: self.line_range,
        }
    }
}

/// Index of a node in a [`Graph`]; it stays valid for the life of the graph.
#[derive(Debug, Clone, Copy, PartialEq, Eq, Hash, Structural)]
pub struct NodeIndex {
    pub index: usize,
}

impl NodeIndex {
    pub fn new(index: usize) -> (r: NodeIndex)
        ensures
            r.index == index,
    {
        NodeIndex { index }
    }

    pub fn index(&self) -> (r: usize)
        ensures
            r == self.index,
    {
        self.index
    }
}

/// Index of an edge in a [`Graph`]; it stays valid for the life of the graph.
#[derive(Debug, Clone, Copy, PartialEq, Eq, Hash, Structural)]
pub struct EdgeIndex {
    pub index: usize,
}

impl EdgeIndex {
    pub fn new(index: usize) -> (r: EdgeIndex)
        ensures
            r.index == index,
    {
        EdgeIndex { index }
    }

    pub fn index(&self) -> (r: usize)
        ensures
            r == self.index,
    {
        self.index
    }
}

#[verifier::external_type_specification]
#[verifier::external_body]
#[verifier::reject_recursive_types(N)]
#[verifier::reject_recursive_types(E)]
#[verifier::reject_recursive_types(Ty)]
#[verifier::reject_recursive_types(Ix)]
pub struct ExStableGraph<N, E, Ty, Ix>(StableGraph<N, E, Ty, Ix>);

#[verifier::external_type_specification]
#[verifier::external_body]
pub struct ExDirected(petgraph::Directed);

/// The petgraph graph that holds the symbols.
pub type SymbolStore = StableGraph<Node, Edge>;

/// The occupied node slots of a store, by index.
pub uninterp spec fn stable_nodes(g: SymbolStore) -> Map<nat, Node>;

/// The occupied edge slots of a store, by index: source, target and weight.
pub uninterp spec fn stable_edges(g: SymbolStore) -> Map<nat, (nat, nat, Edge)>;

/// The length of a store's node slot table, vacant slots included.
pub uninterp spec fn stable_node_slots(g: SymbolStore) -> nat;

/// The length of a store's edge slot table, vacant slots included.
pub uninterp spec fn stable_edge_slots(g: SymbolStore) -> nat;

/// Relies on `StableGraph::new`: a store without nodes or edges.
#[verifier::external_body]
fn store_new() -> (r: SymbolStore)
    ensures
        forall|i: nat| !stable_nodes(r).contains_key(i),
        forall|i: nat| !stable_edges(r).contains_key(i),
        stable_node_slots(r) == 0,
        stable_edge_slots(r) == 0,
{
    StableGraph::new()
}

/// Relies on `StableGraph::add_node`: the weight goes into a vacant slot, or,
/// when no slot is vacant, into a new slot at the end of the table. It panics
/// only when the table is full for `u32` indices.
#[verifier::external_body]
fn store_add_node(g: &mut SymbolStore, n: Node) -> (r: usize)
    requires
        stable_node_slots(*old(g)) < u32::MAX,
    ensures
        !stable_nodes(*old(g)).contains_key(r as nat),
        stable_nodes(*final(g)) == stable_nodes(*old(g)).insert(r as nat, n),
        stable_edges(*final(g)) == stable_edges(*old(g)),
        stable_edge_slots(*final(g)) == stable_edge_slots(*old(g)),
        (forall|i: nat| i < stable_node_slots(*old(g)) ==> stable_nodes(*old(g)).contains_key(i))
            ==> r == stable_node_slots(*old(g)) && stable_node_slots(*final(g)) == r + 1,
{
    g.add_node(n).index()
}

/// Relies on `StableGraph::add_edge`: the edge goes into a vacant slot, or,
/// when no slot is vacant, into a new slot at the end of the table. It panics
/// when an endpoint is not a node, or when the table is full for `u32` indices.
#[verifier::external_body]
fn store_add_edge(g: &mut SymbolStore, a: usize, b: usize, e: Edge) -> (r: usize)
    requires
        a < u32::MAX,
        b < u32::MAX,
        stable_nodes(*old(g)).contains_key(a as nat),
        stable_nodes(*old(g)).contains_key(b as nat),
        stable_edge_slots(*old(g)) < u32::MAX,
    ensures
        !stable_edges(*old(g)).contains_key(r as nat),
        stable_edges(*final(g)) == stable_edges(*old(g)).insert(r as nat, (a as nat, b as nat, e)),
        stable_nodes(*final(g)) == stable_nodes(*old(g)),
        stable_node_slots(*final(g)) == stable_node_slots(*old(g)),
        (forall|i: nat| i < stable_edge_slots(*old(g)) ==> stable_edges(*old(g)).contains_key(i))
            ==> r == stable_edge_slots(*old(g)) && stable_edge_slots(*final(g)) == r + 1,
{
    g.add_edge(petgraph::stable_graph::NodeIndex::new(a), petgraph::stable_graph::NodeIndex::new(b), e).index()
}

/// Relies on `StableGraph::node_weight`: the weight in an occupied slot.
#[verifier::external_body]
fn store_node_weight(g: &SymbolStore, i: usize) -> (r: Option<&Node>)
    requires
        i < u32::MAX,
    ensures
        r is Some <==> stable_nodes(*g).contains_key(i as nat),
        r is Some ==> *r->0 == stable_nodes(*g)[i as nat],
{
    g.node_weight(petgraph::stable_graph::NodeIndex::new(i))
}

/// Relies on `StableGraph::edge_weight`: the weight in an occupied slot.
#[verifier::external_body]
fn store_edge_weight(g: &SymbolStore, i: usize) -> (r: Option<&Edge>)
    requires
        i < u32::MAX,
    ensures
        r is Some <==> stable_edges(*g).contains_key(i as nat),
        r is Some ==> *r->0 == stable_edges(*g)[i as nat].2,
{
    g.edge_weight(petgraph::stable_graph::EdgeIndex::new(i))
}

/// Relies on `StableGraph::edge_endpoints`: source and target of an occupied slot.
#[verifier::external_body]
fn store_edge_endpoints(g: &SymbolStore, i: usize) -> (r: Option<(usize, usize)>)
    requires
        i < u32::MAX,
    ensures
        r is Some <==> stable_edges(*g).contains_key(i as nat),
        r matches Some((a, b)) ==> a as nat == stable_edges(*g)[i as nat].0 && b as nat
            == stable_edges(*g)[i as nat].1,
{
    g.edge_endpoints(petgraph::stable_graph::EdgeIndex::new(i)).map(|(a, b)| (a.index(), b.index()))
}

/// Relies on `StableGraph::node_count`: the number of occupied node slots.
#[verifier::external_body]
fn store_node_count(g: &SymbolStore) -> (r: usize)
    ensures
        r as nat == stable_nodes(*g).dom().len(),
{
    g.node_count()
}

/// Relies on `StableGraph::edge_count`: the number of occupied edge slots.
#[verifier::external_body]
fn store_edge_count(g: &SymbolStore) -> (r: usize)
    ensures
        r as nat == stable_edges(*g).dom().len(),
{
    g.edge_count()
}

/// The numbers below `n`, as a set of `nat`.
pub open spec fn below(n: nat) -> Set<nat> {
    Set::new(|i: nat| i < n)
}

proof fn lemma_below_len(n: nat)
    ensures
        below(n).finite(),
        below(n).len() == n,
    decreases n,
{
    if n == 0 {
        assert(below(n) =~= Set::empty());
    } else {
        lemma_below_len((n - 1) as nat);
        assert(below(n) =~= below((n - 1) as nat).insert((n - 1) as nat));
    }
}

/// A directed graph of symbols whose node and edge indices stay valid as
/// the graph grows.
///
/// The nodes are modelled as the sequence `self@.nodes` in index order, the
/// edges as `self@.edges`, each a triple of source index, target index and
/// weight. Nothing is ever removed, so indices are dense and in insertion
/// order.
pub struct Graph {
    inner: SymbolStore,
}

/// The mathematical model of a [`Graph`].
pub struct GraphView {
    pub nodes: Seq<Node>,
    pub edges: Seq<(nat, nat, Edge)>,
}

impl GraphView {
    /// Every edge joins two nodes of the graph.
    pub open spec fn edges_closed(self) -> bool {
        forall|k: int|
            0 <= k < self.edges.len() ==> #[trigger] self.edges[k].0 < self.nodes.len()
                && self.edges[k].1 < self.nodes.len()
    }
}

impl View for Graph {
    type V = GraphView;

    closed spec fn view(&self) -> GraphView {
        GraphView {
            nodes: Seq::new(
                stable_node_slots(self.inner),
                |i: int| stable_nodes(self.inner)[i as nat],
            ),
            edges: Seq::new(
                stable_edge_slots(self.inner),
                |i: int| stable_edges(self.inner)[i as nat],
            ),
        }
    }
}

impl Graph {
    /// Well-formedness: the occupied slots are exactly the first ones, and
    /// every edge joins two nodes.
    pub closed spec fn wf(&self) -> bool {
        &&& stable_nodes(self.inner).dom() == below(stable_node_slots(self.inner))
        &&& stable_edges(self.inner).dom() == below(stable_edge_slots(self.inner))
        &&& self@.edges_closed()
        &&& stable_node_slots(self.inner) <= u32::MAX
        &&& stable_edge_slots(self.inner) <= u32::MAX
    }

    /// Create an empty graph.
    pub fn new() -> (r: Graph)
        ensures
            r.wf(),
            r@.nodes == Seq::<Node>::empty(),
            r@.edges == Seq::<(nat, nat, Edge)>::empty(),
    {
        let r = Graph { inner: store_new() };
        assert(stable_nodes(r.inner).dom() =~= below(0));
        assert(stable_edges(r.inner).dom() =~= below(0));
        assert(r@.nodes =~= Seq::<Node>::empty());
        assert(r@.edges =~= Seq::<(nat, nat, Edge)>::empty());
        r
    }

    /// Add a node; its index is the number of nodes before the call.
    pub fn add_node(&mut self, node: Node) -> (r: NodeIndex)
        requires
            old(self).wf(),
            old(self)@.nodes.len() < u32::MAX,
        ensures
            final(self).wf(),
            final(self)@.nodes == old(self)@.nodes.push(node),
            final(self)@.edges == old(self)@.edges,
            r.index == old(self)@.nodes.len(),
    {
        let ghost before = self@;
        let i = store_add_node(&mut self.inner, node);
        assert(stable_nodes(self.inner).dom() =~= below(stable_node_slots(self.inner)));
        assert(self@.nodes =~= before.nodes.push(node));
        assert(self@.edges =~= before.edges);
        NodeIndex { index: i }
    }

    /// Add an edge between two existing nodes; its index is the number of
    /// edges before the call.
    pub fn add_edge(&mut self, from: NodeIndex, to: NodeIndex, edge: Edge) -> (r: EdgeIndex)
        requires
            old(self).wf(),
            from.index < old(self)@.nodes.len(),
            to.index < old(self)@.nodes.len(),
            old(self)@.edges.len() < u32::MAX,
        ensures
            final(self).wf(),
            final(self)@.nodes == old(self)@.nodes,
            final(self)@.edges == old(self)@.edges.push((from.index as nat, to.index as nat, edge)),
            r.index == old(self)@.edges.len(),
    {
        let ghost before = self@;
        assert(stable_nodes(self.inner).contains_key(from.index as nat));
        assert(stable_nodes(self.inner).contains_key(to.index as nat));
        let i = store_add_edge(&mut self.inner, from.index, to.index, edge);
        assert(stable_edges(self.inner).dom() =~= below(stable_edge_slots(self.inner)));
        assert(self@.nodes =~= before.nodes);
        assert(self@.edges =~= before.edges.push((from.index as nat, to.index as nat, edge)));
        EdgeIndex { index: i }
    }

    /// The node at `index`, if there is one.
    pub fn node_weight(&self, index: NodeIndex) -> (r: Option<&Node>)
        requires
            self.wf(),
        ensures
            r is Some <==> index.index < self@.nodes.len(),
            r is Some ==> *r->0 == self@.nodes[index.index as int],
    {
        if index.index >= self.node_count() {
            return None;
        }
        store_node_weight(&self.inner, index.index)
    }

    /// The edge weight at `index`, if there is one.
    pub fn edge_weight(&self, index: EdgeIndex) -> (r: Option<&Edge>)
        requires
            self.wf(),
        ensures
            r is Some <==> index.index < self@.edges.len(),
            r is Some ==> *r->0 == self@.edges[index.index as int].2,
    {
        if index.index >= self.edge_count() {
            return None;
        }
        store_edge_weight(&self.inner, index.index)
    }

    /// The number of nodes.
    pub fn node_count(&self) -> (r: usize)
        requires
            self.wf(),
        ensures
            r == self@.nodes.len(),
    {
        proof {
            lemma_below_len(stable_node_slots(self.inner));
        }
        store_node_count(&self.inner)
    }

    /// The number of edges.
    pub fn edge_count(&self) -> (r: usize)
        requires
            self.wf(),
        ensures
            r == self@.edges.len(),
    {
        proof {
            lemma_below_len(stable_edge_slots(self.inner));
        }
        store_edge_count(&self.inner)
    }

    /// All nodes, in index order.
    pub fn nodes(&self) -> (r: Vec<Node>)
        requires
            self.wf(),
        ensures
            r@ == self@.nodes,
    {
        let n = self.node_count();
        let mut r: Vec<Node> = Vec::new();
        let mut i: usize = 0;
        while i < n
            invariant
                self.wf(),
                n == self@.nodes.len(),
                i <= n,
                r@ == self@.nodes.subrange(0, i as int),
            decreases n - i,
        {
            let node = self.node_weight(NodeIndex { index: i }).unwrap();
            r.push(node.duplicate());
            assert(r@ =~= self@.nodes.subrange(0, i + 1));
            i = i + 1;
        }
        assert(r@ =~= self@.nodes);
        r
    }

    /// All edge weights, in index order.
    pub fn edges(&self) -> (r: Vec<Edge>)
        requires
            self.wf(),
        ensures
            r@.len() == self@.edges.len(),
            forall|k: int| 0 <= k < r@.len() ==> #[trigger] r@[k] == self@.edges[k].2,
    {
        let m = self.edge_count();
        let mut r: Vec<Edge> = Vec::new();
        let mut i: usize = 0;
        while i < m
            invariant
                self.wf(),
                m == self@.edges.len(),
                i <= m,
                r@.len() == i,
                forall|k: int| 0 <= k < i ==> #[trigger] r@[k] == self@.edges[k].2,
            decreases m - i,
        {
            let e = self.edge_weight(EdgeIndex { index: i }).unwrap();
            r.push(*e);
            i = i + 1;
        }
        r
    }

    /// Every edge as source, target and weight, in index order.
    pub fn edge_endpoints(&self) -> (r: Vec<(NodeIndex, NodeIndex, Edge)>)
        requires
            self.wf(),
        ensures
            r@.len() == self@.edges.len(),
            forall|k: int|
                0 <= k < r@.len() ==> {
                    let (a, b, e) = #[trigger] r@[k];
                    self@.edges[k] == (a.index as nat, b.index as nat, e)
                },
    {
        let m = self.edge_count();
        let mut r: Vec<(NodeIndex, NodeIndex, Edge)> = Vec::new();
        let mut i: usize = 0;
        while i < m
            invariant
                self.wf(),
                m == self@.edges.len(),
                i <= m,
                r@.len() == i,
                forall|k: int|
                    0 <= k < i ==> {
                        let (a, b, e) = #[trigger] r@[k];
                        self@.edges[k] == (a.index as nat, b.index as nat, e)
                    },
            decreases m - i,
        {
            let (a, b) = self.edge_endpoints_for(EdgeIndex { index: i }).unwrap();
            let e = self.edge_weight(EdgeIndex { index: i }).unwrap();
            r.push((a, b, *e));
            i = i + 1;
        }
        r
    }

    /// The indices of all nodes, in increasing order.
    pub fn node_indices(&self) -> (r: Vec<NodeIndex>)
        requires
            self.wf(),
        ensures
            r@.len() == self@.nodes.len(),
            forall|k: int| 0 <= k < r@.len() ==> (#[trigger] r@[k]).index == k,
    {
        let n = self.node_count();
        let mut r: Vec<NodeIndex> = Vec::new();
        let mut i: usize = 0;
        while i < n
            invariant
                i <= n,
                r@.len() == i,
                forall|k: int| 0 <= k < i ==> (#[trigger] r@[k]).index == k,
            decreases n - i,
        {
            r.push(NodeIndex { index: i });
            i = i + 1;
        }
        r
    }

    /// The indices of all edges, in increasing order.
    pub fn edge_indices(&self) -> (r: Vec<EdgeIndex>)
        requires
            self.wf(),
        ensures
            r@.len() == self@.edges.len(),
            forall|k: int| 0 <= k < r@.len() ==> (#[trigger] r@[k]).index == k,
    {
        let m = self.edge_count();
        let mut r: Vec<EdgeIndex> = Vec::new();
        let mut i: usize = 0;
        while i < m
            invariant
                i <= m,
                r@.len() == i,
                forall|k: int| 0 <= k < i ==> (#[trigger] r@[k]).index == k,
            decreases m - i,
        {
            r.push(EdgeIndex { index: i });
            i = i + 1;
        }
        r
    }

    /// Source and target of the edge at `edge_index`, if there is one.
    pub fn edge_endpoints_for(&self, edge_index: EdgeIndex) -> (r: Option<(NodeIndex, NodeIndex)>)
        requires
            self.wf(),
        ensures
            r is Some <==> edge_index.index < self@.edges.len(),
            r matches Some((a, b)) ==> self@.edges[edge_index.index as int].0 == a.index
                && self@.edges[edge_index.index as int].1 == b.index && a.index < self@.nodes.len()
                && b.index < self@.nodes.len(),
    {
        if edge_index.index >= self.edge_count() {
            return None;
        }
        assert(self@.edges_closed());
        assert(self@.edges[edge_index.index as int].0 < self@.nodes.len());
        match store_edge_endpoints(&self.inner, edge_index.index) {
            Some((a, b)) => Some((NodeIndex { index: a }, NodeIndex { index: b })),
            None => None,
        }
    }

    /// The first node whose identifier is `id`, by a linear scan over all
    /// nodes. Callers that look up many identifiers keep an index of their own.
    pub fn find_node_by_id(&self, id: &str) -> (r: Option<NodeIndex>)
        requires
            self.wf(),
        ensures
            r is None ==> forall|k: int| 0 <= k < self@.nodes.len() ==> self@.nodes[k].id@ != id@,
            r matches Some(x) ==> x.index < self@.nodes.len() && self@.nodes[x.index as int].id@
                == id@ && forall|k: int| 0 <= k < x.index ==> self@.nodes[k].id@ != id@,
    {
        let wanted = String::from_str(id);
        let n = self.node_count();
        let mut i: usize = 0;
        while i < n
            invariant
                self.wf(),
                n == self@.nodes.len(),
                i <= n,
                wanted@ == id@,
                forall|k: int| 0 <= k < i ==> self@.nodes[k].id@ != id@,
            decreases n - i,
        {
            let node = self.node_weight(NodeIndex { index: i }).unwrap();
            if node.id == wanted {
                return Some(NodeIndex { index: i });
            }
            i = i + 1;
        }
        None
    }
}

impl Default for Graph {
    fn default() -> (r: Graph)
        ensures
            r.wf(),
            r@.nodes == Seq::<Node>::empty(),
            r@.edges == Seq::<(nat, nat, Edge)>::empty(),
    {
        Graph::new()
    }
}

/// The edges of a well-formed graph join nodes of the graph.
pub proof fn lemma_edges_closed(g: &Graph)
    requires
        g.wf(),
    ensures
        g@.edges_closed(),
{
}

} // verus!
