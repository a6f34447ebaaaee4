//! Symbol extraction from one Python file: its top-level functions and
//! classes, and the calls between them.
use crate::error::GraphError;
use crate::graph::{Edge, EdgeType, Graph, GraphView, Node, NodeType, NodeView};
use crate::syntax::{links_ok_at, parse_python, python_tree, tree_model, SyntaxKind, SyntaxTree};
use vstd::prelude::*;
use vstd::string::StringExecFns;

verus! {

/// The identifier of the symbol `name` of the file at `path`.
pub open spec fn symbol_id(path: Seq<char>, name: Seq<char>) -> Seq<char> {
    path + "::"@ + name
}

/// The text of the `name` field of node `i`, where it is an identifier.
pub open spec fn node_name(t: SyntaxTree, i: int) -> Option<Seq<char>> {
    match t.nodes@[i].name {
        Some(c) => if 0 <= c < t.size() {
            t.text(c as int)
        } else {
            None
        },
        None => None,
    }
}

/// The symbol that node `i` defines, if it is a named function or class.
pub open spec fn symbol_of(t: SyntaxTree, path: Seq<char>, i: int) -> Option<NodeView> {
    let node_type = if t.kind(i) == SyntaxKind::FunctionDefinition {
        Some(NodeType::Function)
    } else if t.kind(i) == SyntaxKind::ClassDefinition {
        Some(NodeType::Class)
    } else {
        None
    };
    match (node_type, node_name(t, i)) {
        (Some(ty), Some(name)) => Some(
            NodeView {
                id: symbol_id(path, name),
                name,
                node_type: ty,
                language: "python"@,
                file_path: path,
                line_range: None,
            },
        ),
        _ => None,
    }
}

/// The symbols that the first `k` top-level statements define, in order.
pub open spec fn symbols_upto(t: SyntaxTree, path: Seq<char>, k: int) -> Seq<NodeView>
    decreases k,
{
    if k <= 0 {
        Seq::empty()
    } else {
        let prev = symbols_upto(t, path, k - 1);
        match symbol_of(t, path, t.top_level()[k - 1] as int) {
            Some(s) => prev.push(s),
            None => prev,
        }
    }
}

/// The top-level symbols of a file, in source order, duplicates included.
pub open spec fn top_symbols(t: SyntaxTree, path: Seq<char>) -> Seq<NodeView> {
    symbols_upto(t, path, t.top_level().len() as int)
}

/// `k` is the first position of a symbol called `name`.
pub open spec fn is_first_named(syms: Seq<NodeView>, name: Seq<char>, k: int) -> bool {
    &&& 0 <= k < syms.len()
    &&& syms[k].name == name
    &&& forall|j: int| 0 <= j < k ==> syms[j].name != name
}

/// The symbol that a name resolves to: the first one of that name.
pub open spec fn resolve(syms: Seq<NodeView>, name: Seq<char>) -> Option<int> {
    if exists|k: int| is_first_named(syms, name, k) {
        Some(choose|k: int| is_first_named(syms, name, k))
    } else {
        None
    }
}

/// The dotted name that node `i` spells, for identifiers and attribute
/// accesses made of them.
pub open spec fn full_name(t: SyntaxTree, i: int) -> Option<Seq<char>>
    decreases t.size() - i,
{
    if !(0 <= i < t.size()) {
        None
    } else {
        match t.kind(i) {
            SyntaxKind::Identifier => t.text(i),
            SyntaxKind::Attribute => match (t.nodes@[i].object, t.nodes@[i].attribute) {
                (Some(o), Some(a)) => if i < o < t.size() && 0 <= a < t.size() {
                    match (full_name(t, o as int), t.text(a as int)) {
                        (Some(x), Some(y)) => Some(x + "."@ + y),
                        _ => None,
                    }
                } else {
                    None
                },
                _ => None,
            },
            _ => None,
        }
    }
}

/// The name that the call at node `i` calls: that of its first child.
pub open spec fn call_name(t: SyntaxTree, i: int) -> Option<Seq<char>> {
    let ch = t.nodes@[i].children@;
    if ch.len() == 0 {
        None
    } else {
        let c = ch[0] as int;
        if !(0 <= c < t.size()) {
            None
        } else {
            match t.kind(c) {
                SyntaxKind::Identifier => t.text(c),
                SyntaxKind::Attribute => full_name(t, c),
                SyntaxKind::Call => full_name(t, c),
                _ => None,
            }
        }
    }
}

/// The top-level statement that contains node `i`: the ancestor whose
/// parent is the root. `None` for the root.
pub open spec fn top_ancestor(t: SyntaxTree, i: int) -> Option<int>
    decreases i,
{
    if !(0 <= i < t.size()) {
        None
    } else {
        match t.nodes@[i].parent {
            None => None,
            Some(p) => if p == 0 {
                Some(i)
            } else if 0 < p < i {
                top_ancestor(t, p as int)
            } else {
                None
            },
        }
    }
}

/// The name of the top-level function that contains node `i`, however deeply.
pub open spec fn caller_name(t: SyntaxTree, i: int) -> Option<Seq<char>> {
    match top_ancestor(t, i) {
        Some(a) => if t.kind(a) == SyntaxKind::FunctionDefinition {
            node_name(t, a)
        } else {
            None
        },
        None => None,
    }
}

/// The call edge, as positions in `syms`, that node `i` gives: where it is
/// a call, and both its caller and its callee resolve.
pub open spec fn call_edge(t: SyntaxTree, syms: Seq<NodeView>, i: int) -> Option<(int, int)> {
    if t.kind(i) != SyntaxKind::Call {
        None
    } else {
        match (caller_name(t, i), call_name(t, i)) {
            (Some(caller), Some(callee)) => match (resolve(syms, caller), resolve(syms, callee)) {
                (Some(a), Some(b)) => Some((a, b)),
                _ => None,
            },
            _ => None,
        }
    }
}

/// The call edges of the first `k` nodes, in pre-order.
pub open spec fn calls_upto(t: SyntaxTree, syms: Seq<NodeView>, k: int) -> Seq<(int, int)>
    decreases k,
{
    if k <= 0 {
        Seq::empty()
    } else {
        let prev = calls_upto(t, syms, k - 1);
        match call_edge(t, syms, k - 1) {
            Some(e) => prev.push(e),
            None => prev,
        }
    }
}

/// The call edges of a file, in pre-order of the calls.
pub open spec fn call_edges(t: SyntaxTree, syms: Seq<NodeView>) -> Seq<(int, int)> {
    calls_upto(t, syms, t.size())
}

/// The models of a sequence of nodes.
pub open spec fn views(nodes: Seq<Node>) -> Seq<NodeView> {
    nodes.map_values(|n: Node| n@)
}

/// `g` is the graph of the file at `path` with syntax tree `t`: its nodes
/// are the top-level symbols, its edges the resolved calls.
pub open spec fn is_file_graph(g: GraphView, t: SyntaxTree, path: Seq<char>) -> bool {
    let syms = top_symbols(t, path);
    let calls = call_edges(t, syms);
    &&& views(g.nodes) == syms
    &&& g.edges.len() == calls.len()
    &&& forall|k: int|
        0 <= k < calls.len() ==> #[trigger] g.edges[k] == (
            calls[k].0 as nat,
            calls[k].1 as nat,
            Edge { edge_type: EdgeType::Calls },
        )
}

proof fn lemma_symbols_len(t: SyntaxTree, path: Seq<char>, k: int)
    ensures
        symbols_upto(t, path, k).len() <= if k < 0 { 0 } else { k },
    decreases k,
{
    if k > 0 {
        lemma_symbols_len(t, path, k - 1);
    }
}

proof fn lemma_calls_len(t: SyntaxTree, syms: Seq<NodeView>, k: int)
    ensures
        calls_upto(t, syms, k).len() <= if k < 0 { 0 } else { k },
    decreases k,
{
    if k > 0 {
        lemma_calls_len(t, syms, k - 1);
    }
}

proof fn lemma_resolve_in_range(syms: Seq<NodeView>, name: Seq<char>)
    ensures
        resolve(syms, name) matches Some(k) ==> is_first_named(syms, name, k),
{
}

proof fn lemma_calls_in_range(t: SyntaxTree, syms: Seq<NodeView>, k: int)
    ensures
        forall|j: int|
            0 <= j < calls_upto(t, syms, k).len() ==> 0 <= (#[trigger] calls_upto(t, syms, k)[j]).0
                < syms.len() && 0 <= calls_upto(t, syms, k)[j].1 < syms.len(),
    decreases k,
{
    if k > 0 {
        lemma_calls_in_range(t, syms, k - 1);
        let prev = calls_upto(t, syms, k - 1);
        match (caller_name(t, k - 1), call_name(t, k - 1)) {
            (Some(caller), Some(callee)) => {
                lemma_resolve_in_range(syms, caller);
                lemma_resolve_in_range(syms, callee);
            },
            _ => {},
        }
        match call_edge(t, syms, k - 1) {
            Some(e) => {
                assert(calls_upto(t, syms, k) == prev.push(e));
                assert forall|j: int| 0 <= j < calls_upto(t, syms, k).len() implies 0 <= (
                #[trigger] calls_upto(t, syms, k)[j]).0 < syms.len() && 0 <= calls_upto(
                    t,
                    syms,
                    k,
                )[j].1 < syms.len() by {
                    if j < prev.len() {
                        assert(calls_upto(t, syms, k)[j] == prev[j]);
                    }
                }
            },
            None => {},
        }
    }
}

/// The name of the definition at node `i`.
pub fn extract_node_name(t: &SyntaxTree, i: usize) -> (r: Option<String>)
    requires
        t.wf(),
        i < t.size(),
    ensures
        r is Some <==> node_name(*t, i as int) is Some,
        r matches Some(s) ==> node_name(*t, i as int) == Some(s@),
{
    match t.nodes[i].name {
        Some(c) => {
            assert(links_ok_at(t.nodes@, i as int));
            match &t.nodes[c].text {
                Some(s) => Some(s.clone()),
                None => None,
            }
        },
        None => None,
    }
}

/// The node for a top-level definition `i` of the file at `path`.
fn symbol_node(t: &SyntaxTree, path: &String, i: usize) -> (r: Option<Node>)
    requires
        t.wf(),
        i < t.size(),
    ensures
        r is Some <==> symbol_of(*t, path@, i as int) is Some,
        r matches Some(n) ==> symbol_of(*t, path@, i as int) == Some(n@),
{
    let node_type = match t.nodes[i].kind {
        SyntaxKind::FunctionDefinition => NodeType::Function,
        SyntaxKind::ClassDefinition => NodeType::Class,
        _ => {
            return None;
        },
    };
    match extract_node_name(t, i) {
        Some(name) => {
            let id = path.clone().concat("::").concat(name.as_str());
            let node = Node {
                id,
                name,
                node_type,
                language: String::from_str("python"),
                file_path: path.clone(),
                line_range: None,
            };
            assert(node@.id == symbol_id(path@, node@.name));
            Some(node)
        },
        None => None,
    }
}

/// The top-level functions and classes of the file at `path`, in source
/// order; nested definitions are not among them.
pub fn extract_top_level_nodes(t: &SyntaxTree, path: &String) -> (r: Vec<Node>)
    requires
        t.wf(),
    ensures
        views(r@) == top_symbols(*t, path@),
{
    let top = &t.nodes[0].children;
    let mut r: Vec<Node> = Vec::new();
    let mut k: usize = 0;
    while k < top.len()
        invariant
            t.wf(),
            *top == t.nodes@[0].children,
            k <= top@.len(),
            views(r@) == symbols_upto(*t, path@, k as int),
        decreases top@.len() - k,
    {
        assert(links_ok_at(t.nodes@, 0));
        let c = top[k];
        let ghost before = r@;
        match symbol_node(t, path, c) {
            Some(n) => {
                r.push(n);
                assert(views(r@) =~= views(before).push(n@));
            },
            None => {},
        }
        k = k + 1;
    }
    r
}

/// The position of the first of `nodes` called `name`.
fn lookup(nodes: &Vec<Node>, name: &String) -> (r: Option<usize>)
    ensures
        r is None ==> resolve(views(nodes@), name@) is None,
        r matches Some(k) ==> resolve(views(nodes@), name@) == Some(k as int),
{
    let ghost syms = views(nodes@);
    let mut i: usize = 0;
    while i < nodes.len()
        invariant
            syms == views(nodes@),
            i <= nodes@.len(),
            forall|j: int| 0 <= j < i ==> syms[j].name != name@,
        decreases nodes@.len() - i,
    {
        if nodes[i].name == *name {
            assert(is_first_named(syms, name@, i as int));
            proof {
                let k = choose|k: int| is_first_named(syms, name@, k);
                if k < i {
                    assert(syms[k].name == name@);
                } else if k > i {
                    assert(syms[i as int].name == name@);
                }
            }
            return Some(i);
        }
        i = i + 1;
    }
    assert(!exists|k: int| is_first_named(syms, name@, k)) by {
        if exists|k: int| is_first_named(syms, name@, k) {
            let k = choose|k: int| is_first_named(syms, name@, k);
            assert(syms[k].name == name@);
        }
    }
    None
}

/// The dotted name that node `i` spells: `a`, `a.b`, `a.b.c`, ...
pub fn extract_full_call_name(t: &SyntaxTree, i: usize) -> (r: Option<String>)
    requires
        t.wf(),
        i < t.size(),
    ensures
        r is Some <==> full_name(*t, i as int) is Some,
        r matches Some(s) ==> full_name(*t, i as int) == Some(s@),
    decreases t.size() - i,
{
    assert(links_ok_at(t.nodes@, i as int));
    match t.nodes[i].kind {
        SyntaxKind::Identifier => match &t.nodes[i].text {
            Some(s) => Some(s.clone()),
            None => None,
        },
        SyntaxKind::Attribute => match (t.nodes[i].object, t.nodes[i].attribute) {
            (Some(o), Some(a)) => {
                let object = extract_full_call_name(t, o);
                match (object, &t.nodes[a].text) {
                    (Some(x), Some(y)) => Some(x.concat(".").concat(y.as_str())),
                    _ => None,
                }
            },
            _ => None,
        },
        _ => None,
    }
}

/// The name that the call at node `i` calls.
pub fn extract_call_name(t: &SyntaxTree, i: usize) -> (r: Option<String>)
    requires
        t.wf(),
        i < t.size(),
    ensures
        r is Some <==> call_name(*t, i as int) is Some,
        r matches Some(s) ==> call_name(*t, i as int) == Some(s@),
{
    assert(links_ok_at(t.nodes@, i as int));
    if t.nodes[i].children.len() == 0 {
        return None;
    }
    let c = t.nodes[i].children[0];
    match t.nodes[c].kind {
        SyntaxKind::Identifier => match &t.nodes[c].text {
            Some(s) => Some(s.clone()),
            None => None,
        },
        SyntaxKind::Attribute => extract_full_call_name(t, c),
        SyntaxKind::Call => extract_full_call_name(t, c),
        _ => None,
    }
}

/// The position in `nodes` of the top-level function that contains node
/// `i`, found by walking up to the statement under the root and resolving
/// that function's name.
pub fn find_parent_function(t: &SyntaxTree, i: usize, nodes: &Vec<Node>) -> (r: Option<usize>)
    requires
        t.wf(),
        i < t.size(),
    ensures
        r is None ==> caller_name(*t, i as int) is None || resolve(
            views(nodes@),
            caller_name(*t, i as int)->0,
        ) is None,
        r matches Some(k) ==> caller_name(*t, i as int) is Some && resolve(
            views(nodes@),
            caller_name(*t, i as int)->0,
        ) == Some(k as int),
{
    let mut current: usize = i;
    loop
        invariant
            t.wf(),
            current < t.size(),
            top_ancestor(*t, current as int) == top_ancestor(*t, i as int),
        decreases current,
    {
        assert(links_ok_at(t.nodes@, current as int));
        match t.nodes[current].parent {
            None => {
                return None;
            },
            Some(p) => {
                if p == 0 {
                    if t.nodes[current].kind != SyntaxKind::FunctionDefinition {
                        return None;
                    }
                    return match extract_node_name(t, current) {
                        Some(name) => lookup(nodes, &name),
                        None => None,
                    };
                }
                current = p;
            },
        }
    }
}

/// The call edges of the file, as positions in `nodes`, in pre-order of
/// the calls. Calls whose caller or callee does not resolve are left out.
pub fn extract_calls_edges(t: &SyntaxTree, nodes: &Vec<Node>) -> (r: Vec<(usize, usize)>)
    requires
        t.wf(),
    ensures
        r@.len() == call_edges(*t, views(nodes@)).len(),
        forall|k: int|
            0 <= k < r@.len() ==> (#[trigger] r@[k]).0 as int == call_edges(
                *t,
                views(nodes@),
            )[k].0 && r@[k].1 as int == call_edges(*t, views(nodes@))[k].1,
{
    let ghost syms = views(nodes@);
    let n = t.nodes.len();
    let mut r: Vec<(usize, usize)> = Vec::new();
    let mut i: usize = 0;
    while i < n
        invariant
            t.wf(),
            n == t.size(),
            syms == views(nodes@),
            i <= n,
            r@.len() == calls_upto(*t, syms, i as int).len(),
            forall|k: int|
                0 <= k < r@.len() ==> (#[trigger] r@[k]).0 as int == calls_upto(
                    *t,
                    syms,
                    i as int,
                )[k].0 && r@[k].1 as int == calls_upto(*t, syms, i as int)[k].1,
        decreases n - i,
    {
        if t.nodes[i].kind == SyntaxKind::Call {
            match extract_call_name(t, i) {
                Some(callee) => match find_parent_function(t, i, nodes) {
                    Some(a) => match lookup(nodes, &callee) {
                        Some(b) => {
                            r.push((a, b));
                        },
                        None => {},
                    },
                    None => {},
                },
                None => {},
            }
        }
        i = i + 1;
    }
    r
}

/// The graph of one file from its syntax tree: a node for each top-level
/// function and class, and a `Calls` edge for each resolved call.
pub fn build_file_graph(t: &SyntaxTree, path: &String) -> (r: Graph)
    requires
        t.wf(),
    ensures
        r.wf(),
        is_file_graph(r@, *t, path@),
{
    let nodes = extract_top_level_nodes(t, path);
    let edges = extract_calls_edges(t, &nodes);
    let ghost syms = views(nodes@);
    let ghost calls = call_edges(*t, syms);
    proof {
        lemma_symbols_len(*t, path@, t.top_level().len() as int);
        lemma_calls_len(*t, syms, t.size());
        lemma_calls_in_range(*t, syms, t.size());
        assert(links_ok_at(t.nodes@, 0));
    }
    let mut g = Graph::new();
    let mut k: usize = 0;
    while k < nodes.len()
        invariant
            g.wf(),
            k <= nodes@.len(),
            nodes@.len() < u32::MAX,
            views(g@.nodes) == views(nodes@).subrange(0, k as int),
            g@.nodes.len() == k,
            g@.edges.len() == 0,
        decreases nodes@.len() - k,
    {
        let ghost before = g@.nodes;
        let node = nodes[k].duplicate();
        g.add_node(node);
        assert(g@.nodes == before.push(nodes@[k as int]));
        assert(views(g@.nodes) =~= views(before).push(nodes@[k as int]@));
        assert(views(nodes@).subrange(0, k + 1) =~= views(nodes@).subrange(0, k as int).push(
            nodes@[k as int]@,
        ));
        k = k + 1;
    }
    assert(views(g@.nodes) =~= syms);
    let mut e: usize = 0;
    while e < edges.len()
        invariant
            g.wf(),
            e <= edges@.len(),
            edges@.len() == calls.len(),
            edges@.len() < u32::MAX,
            views(g@.nodes) == syms,
            g@.nodes.len() == syms.len(),
            forall|k: int|
                0 <= k < edges@.len() ==> (#[trigger] edges@[k]).0 as int == calls[k].0
                    && edges@[k].1 as int == calls[k].1,
            forall|k: int| 0 <= k < calls.len() ==> 0 <= (#[trigger] calls[k]).0 < syms.len()
                && 0 <= calls[k].1 < syms.len(),
            g@.edges.len() == e,
            forall|k: int|
                0 <= k < e ==> #[trigger] g@.edges[k] == (
                    calls[k].0 as nat,
                    calls[k].1 as nat,
                    Edge { edge_type: EdgeType::Calls },
                ),
        decreases edges@.len() - e,
    {
        let (a, b) = edges[e];
        g.add_edge(
            crate::graph::NodeIndex::new(a),
            crate::graph::NodeIndex::new(b),
            Edge { edge_type: EdgeType::Calls },
        );
        e = e + 1;
    }
    g
}

/// `g` is the graph of the file at `path` whose source is `source`: the
/// file graph of the syntax tree that tree-sitter's parse of it converts to.
pub open spec fn source_graph(g: GraphView, source: Seq<u8>, path: Seq<char>) -> bool {
    exists|t: SyntaxTree| t.wf() && tree_model(t.nodes@) == python_tree(source)->0 && is_file_graph(g, t, path)
}

/// Parse Python source with tree-sitter and build the file's graph; `path`
/// is the file's canonical absolute path, from which identifiers derive.
/// The error is `Unparseable` exactly where tree-sitter gives no usable tree.
pub fn parse_file(path: &String, source: &[u8]) -> (r: Result<Graph, GraphError>)
    ensures
        python_tree(source@) is Some ==> (r matches Ok(g) && g.wf() && source_graph(g@, source@, path@)),
        python_tree(source@) is None ==> (r matches Err(e) && e == (GraphError::Unparseable { path: *path })),
{
    match parse_python(source) {
        Some(t) => Ok(build_file_graph(&t, path)),
        None => Err(GraphError::Unparseable { path: path.clone() }),
    }
}

proof fn lemma_symbols_shape(t: SyntaxTree, path: Seq<char>, k: int)
    ensures
        forall|q: int|
            0 <= q < symbols_upto(t, path, k).len() ==> (#[trigger] symbols_upto(t, path, k)[q]).id
                == symbol_id(path, symbols_upto(t, path, k)[q].name) && symbols_upto(t, path, k)[q].file_path
                == path,
    decreases k,
{
    if k > 0 {
        lemma_symbols_shape(t, path, k - 1);
        let prev = symbols_upto(t, path, k - 1);
        match symbol_of(t, path, t.top_level()[k - 1] as int) {
            Some(x) => {
                assert forall|q: int| 0 <= q < symbols_upto(t, path, k).len() implies (#[trigger] symbols_upto(
                    t,
                    path,
                    k,
                )[q]).id == symbol_id(path, symbols_upto(t, path, k)[q].name) && symbols_upto(t, path, k)[q].file_path
                    == path by {
                    if q < prev.len() {
                        assert(symbols_upto(t, path, k)[q] == prev[q]);
                    }
                }
            },
            None => {},
        }
    }
}

proof fn lemma_symbol_id_injective(path_a: Seq<char>, path_b: Seq<char>, name: Seq<char>)
    requires
        symbol_id(path_a, name) == symbol_id(path_b, name),
    ensures
        path_a == path_b,
{
    assert((path_a + "::"@).len() == path_a.len() + "::"@.len());
    assert((path_b + "::"@).len() == path_b.len() + "::"@.len());
    assert(symbol_id(path_a, name).len() == path_a.len() + "::"@.len() + name.len());
    assert(symbol_id(path_b, name).len() == path_b.len() + "::"@.len() + name.len());
    assert(path_a.len() == path_b.len());
    assert(symbol_id(path_a, name).subrange(0, path_a.len() as int) =~= path_a);
    assert(symbol_id(path_b, name).subrange(0, path_b.len() as int) =~= path_b);
}

/// Two different files that each define a top-level symbol of the same
/// name give those symbols different identifiers.
pub proof fn lemma_ids_distinct_across_files(
    t1: SyntaxTree,
    path1: Seq<char>,
    t2: SyntaxTree,
    path2: Seq<char>,
    i: int,
    j: int,
)
    requires
        path1 != path2,
        0 <= i < top_symbols(t1, path1).len(),
        0 <= j < top_symbols(t2, path2).len(),
        top_symbols(t1, path1)[i].name == top_symbols(t2, path2)[j].name,
    ensures
        top_symbols(t1, path1)[i].id != top_symbols(t2, path2)[j].id,
{
    lemma_symbols_shape(t1, path1, t1.top_level().len() as int);
    lemma_symbols_shape(t2, path2, t2.top_level().len() as int);
    if top_symbols(t1, path1)[i].id == top_symbols(t2, path2)[j].id {
        lemma_symbol_id_injective(path1, path2, top_symbols(t1, path1)[i].name);
    }
}

proof fn lemma_same_nodes(t1: SyntaxTree, t2: SyntaxTree, i: int)
    requires
        tree_model(t1.nodes@) == tree_model(t2.nodes@),
        0 <= i < t1.size(),
    ensures
        t1.size() == t2.size(),
        t1.nodes@[i].kind == t2.nodes@[i].kind,
        t1.nodes@[i].parent == t2.nodes@[i].parent,
        t1.nodes@[i].children@ == t2.nodes@[i].children@,
        t1.nodes@[i].name == t2.nodes@[i].name,
        t1.nodes@[i].object == t2.nodes@[i].object,
        t1.nodes@[i].attribute == t2.nodes@[i].attribute,
        t1.text(i) == t2.text(i),
{
    assert(tree_model(t1.nodes@).len() == t1.size());
    assert(tree_model(t1.nodes@)[i] == t1.nodes@[i]@);
    assert(tree_model(t2.nodes@)[i] == t2.nodes@[i]@);
}

proof fn lemma_same_model_names(t1: SyntaxTree, t2: SyntaxTree)
    requires
        t1.wf(),
        t2.wf(),
        tree_model(t1.nodes@) == tree_model(t2.nodes@),
    ensures
        t1.size() == t2.size(),
        forall|i: int| 0 <= i < t1.size() ==> #[trigger] node_name(t1, i) == node_name(t2, i),
        forall|i: int| 0 <= i < t1.size() ==> #[trigger] t1.kind(i) == t2.kind(i),
        forall|i: int| 0 <= i < t1.size() ==> #[trigger] full_name(t1, i) == full_name(t2, i),
        forall|i: int| 0 <= i < t1.size() ==> #[trigger] call_name(t1, i) == call_name(t2, i),
        forall|i: int| 0 <= i < t1.size() ==> #[trigger] top_ancestor(t1, i) == top_ancestor(t2, i),
        t1.top_level() == t2.top_level(),
{
    lemma_same_nodes(t1, t2, 0);
    assert forall|i: int| 0 <= i < t1.size() implies #[trigger] node_name(t1, i) == node_name(t2, i) by {
        lemma_same_nodes(t1, t2, i);
        assert(links_ok_at(t1.nodes@, i));
        if let Some(c) = t1.nodes@[i].name {
            lemma_same_nodes(t1, t2, c as int);
        }
    }
    assert forall|i: int| 0 <= i < t1.size() implies #[trigger] t1.kind(i) == t2.kind(i) by {
        lemma_same_nodes(t1, t2, i);
    }
    assert forall|i: int| 0 <= i < t1.size() implies #[trigger] full_name(t1, i) == full_name(t2, i) by {
        lemma_same_full_name(t1, t2, i);
    }
    assert forall|i: int| 0 <= i < t1.size() implies #[trigger] call_name(t1, i) == call_name(t2, i) by {
        lemma_same_nodes(t1, t2, i);
        assert(links_ok_at(t1.nodes@, i));
        let ch = t1.nodes@[i].children@;
        if ch.len() > 0 {
            lemma_same_nodes(t1, t2, ch[0] as int);
            lemma_same_full_name(t1, t2, ch[0] as int);
        }
    }
    assert forall|i: int| 0 <= i < t1.size() implies #[trigger] top_ancestor(t1, i) == top_ancestor(t2, i) by {
        lemma_same_top_ancestor(t1, t2, i);
    }
}

proof fn lemma_same_full_name(t1: SyntaxTree, t2: SyntaxTree, i: int)
    requires
        t1.wf(),
        t2.wf(),
        tree_model(t1.nodes@) == tree_model(t2.nodes@),
        0 <= i < t1.size(),
    ensures
        full_name(t1, i) == full_name(t2, i),
    decreases t1.size() - i,
{
    lemma_same_nodes(t1, t2, i);
    assert(links_ok_at(t1.nodes@, i));
    if let (Some(o), Some(a)) = (t1.nodes@[i].object, t1.nodes@[i].attribute) {
        lemma_same_nodes(t1, t2, a as int);
        lemma_same_full_name(t1, t2, o as int);
    }
}

proof fn lemma_same_top_ancestor(t1: SyntaxTree, t2: SyntaxTree, i: int)
    requires
        t1.wf(),
        t2.wf(),
        tree_model(t1.nodes@) == tree_model(t2.nodes@),
        0 <= i < t1.size(),
    ensures
        top_ancestor(t1, i) == top_ancestor(t2, i),
    decreases i,
{
    lemma_same_nodes(t1, t2, i);
    if let Some(p) = t1.nodes@[i].parent {
        if 0 < p < i {
            lemma_same_top_ancestor(t1, t2, p as int);
        }
    }
}

proof fn lemma_same_symbols(t1: SyntaxTree, t2: SyntaxTree, path: Seq<char>, k: int)
    requires
        t1.wf(),
        t2.wf(),
        tree_model(t1.nodes@) == tree_model(t2.nodes@),
        k <= t1.top_level().len(),
    ensures
        symbols_upto(t1, path, k) == symbols_upto(t2, path, k),
    decreases k,
{
    lemma_same_model_names(t1, t2);
    if k > 0 {
        lemma_same_symbols(t1, t2, path, k - 1);
        assert(links_ok_at(t1.nodes@, 0));
        let c = t1.top_level()[k - 1] as int;
        assert(0 < c < t1.size());
        assert(node_name(t1, c) == node_name(t2, c));
        assert(t1.kind(c) == t2.kind(c));
    }
}

proof fn lemma_same_calls(t1: SyntaxTree, t2: SyntaxTree, syms: Seq<NodeView>, k: int)
    requires
        t1.wf(),
        t2.wf(),
        tree_model(t1.nodes@) == tree_model(t2.nodes@),
        k <= t1.size(),
    ensures
        calls_upto(t1, syms, k) == calls_upto(t2, syms, k),
    decreases k,
{
    lemma_same_model_names(t1, t2);
    if k > 0 {
        lemma_same_calls(t1, t2, syms, k - 1);
        let i = k - 1;
        assert(t1.kind(i) == t2.kind(i));
        assert(call_name(t1, i) == call_name(t2, i));
        assert(top_ancestor(t1, i) == top_ancestor(t2, i));
        if let Some(a) = top_ancestor(t1, i) {
            lemma_top_ancestor_in_range(t1, i);
            assert(t1.kind(a) == t2.kind(a));
            assert(node_name(t1, a) == node_name(t2, a));
        }
        assert(caller_name(t1, i) == caller_name(t2, i));
        assert(call_edge(t1, syms, i) == call_edge(t2, syms, i));
    }
}

proof fn lemma_top_ancestor_in_range(t: SyntaxTree, i: int)
    requires
        0 <= i < t.size(),
    ensures
        top_ancestor(t, i) matches Some(a) ==> 0 <= a < t.size(),
    decreases i,
{
    if let Some(p) = t.nodes@[i].parent {
        if 0 < p < i {
            lemma_top_ancestor_in_range(t, p as int);
        }
    }
}

/// Extracting the same file twice gives the same graph: two trees with the
/// same model (as two parses of the same source have) give the same node
/// identifiers, in the same order, and the same edges.
pub proof fn lemma_extraction_deterministic(
    g1: GraphView,
    g2: GraphView,
    t1: SyntaxTree,
    t2: SyntaxTree,
    path: Seq<char>,
)
    requires
        t1.wf(),
        t2.wf(),
        tree_model(t1.nodes@) == tree_model(t2.nodes@),
        is_file_graph(g1, t1, path),
        is_file_graph(g2, t2, path),
    ensures
        views(g1.nodes) == views(g2.nodes),
        g1.nodes.len() == g2.nodes.len(),
        forall|k: int| 0 <= k < g1.nodes.len() ==> #[trigger] g1.nodes[k].id@ == g2.nodes[k].id@,
        g1.edges == g2.edges,
{
    lemma_same_model_names(t1, t2);
    lemma_same_symbols(t1, t2, path, t1.top_level().len() as int);
    let syms = top_symbols(t1, path);
    lemma_same_calls(t1, t2, syms, t1.size());
    assert(call_edges(t1, syms) == call_edges(t2, top_symbols(t2, path)));

    assert(views(g1.nodes).len() == views(g2.nodes).len());
    assert forall|k: int| 0 <= k < g1.nodes.len() implies #[trigger] g1.nodes[k].id@ == g2.nodes[k].id@ by {
        assert(views(g1.nodes)[k] == views(g2.nodes)[k]);
    }
    assert(g1.edges =~= g2.edges);
}

proof fn lemma_calls_sources(t: SyntaxTree, syms: Seq<NodeView>, k: int)
    ensures
        forall|q: int|
            0 <= q < calls_upto(t, syms, k).len() ==> exists|i: int|
                0 <= i < k && call_edge(t, syms, i) == Some(#[trigger] calls_upto(t, syms, k)[q]),
    decreases k,
{
    if k > 0 {
        lemma_calls_sources(t, syms, k - 1);
        let prev = calls_upto(t, syms, k - 1);
        assert forall|q: int| 0 <= q < calls_upto(t, syms, k).len() implies exists|i: int|
            0 <= i < k && call_edge(t, syms, i) == Some(#[trigger] calls_upto(t, syms, k)[q]) by {
            if q < prev.len() {
                assert(calls_upto(t, syms, k)[q] == prev[q]);
                let i = choose|i: int| 0 <= i < k - 1 && call_edge(t, syms, i) == Some(#[trigger] prev[q]);
            } else {
                assert(call_edge(t, syms, k - 1) == Some(calls_upto(t, syms, k)[q]));
            }
        }
    }
}

proof fn lemma_calls_complete(t: SyntaxTree, syms: Seq<NodeView>, k: int, i: int)
    requires
        0 <= i < k,
        call_edge(t, syms, i) is Some,
    ensures
        calls_upto(t, syms, k).contains(call_edge(t, syms, i)->0),
    decreases k,
{
    let prev = calls_upto(t, syms, k - 1);
    if i < k - 1 {
        lemma_calls_complete(t, syms, k - 1, i);
        let q = choose|q: int| 0 <= q < prev.len() && prev[q] == call_edge(t, syms, i)->0;
        match call_edge(t, syms, k - 1) {
            Some(e) => {
                assert(calls_upto(t, syms, k)[q] == prev[q]);
            },
            None => {},
        }
    } else {
        assert(calls_upto(t, syms, k)[prev.len() as int] == call_edge(t, syms, i)->0);
    }
}

/// Every edge of a file's graph comes from a call in the file: its target
/// is the first top-level symbol named as the call's callee, and its source
/// the first top-level symbol named as the top-level function that contains
/// the call. A call whose callee names no top-level symbol gives no edge.
pub proof fn lemma_edges_from_resolved_calls(g: GraphView, t: SyntaxTree, path: Seq<char>)
    requires
        is_file_graph(g, t, path),
    ensures
        forall|k: int|
            0 <= k < g.edges.len() ==> exists|i: int|
                0 <= i < t.size() && t.kind(i) == SyntaxKind::Call && call_name(t, i) == Some(
                    g.nodes[(#[trigger] g.edges[k]).1 as int].name@,
                ) && caller_name(t, i) == Some(g.nodes[g.edges[k].0 as int].name@),
{
    let syms = top_symbols(t, path);
    let calls = call_edges(t, syms);
    lemma_calls_sources(t, syms, t.size());
    assert forall|k: int| 0 <= k < g.edges.len() implies exists|i: int|
        0 <= i < t.size() && t.kind(i) == SyntaxKind::Call && call_name(t, i) == Some(
            g.nodes[(#[trigger] g.edges[k]).1 as int].name@,
        ) && caller_name(t, i) == Some(g.nodes[g.edges[k].0 as int].name@) by {
        assert(g.edges[k] == (calls[k].0 as nat, calls[k].1 as nat, Edge { edge_type: EdgeType::Calls }));
        let i = choose|i: int| 0 <= i < t.size() && call_edge(t, syms, i) == Some(#[trigger] calls[k]);
        let caller = caller_name(t, i)->0;
        let callee = call_name(t, i)->0;
        lemma_resolve_in_range(syms, caller);
        lemma_resolve_in_range(syms, callee);
        assert(views(g.nodes)[calls[k].0] == syms[calls[k].0]);
        assert(views(g.nodes)[calls[k].1] == syms[calls[k].1]);
    }
}

/// A call whose callee names no top-level symbol of the file gives no edge,
/// and raises no error: it is simply left out.
pub proof fn lemma_unresolved_call_gives_no_edge(t: SyntaxTree, path: Seq<char>, i: int)
    requires
        0 <= i < t.size(),
        t.kind(i) == SyntaxKind::Call,
        match call_name(t, i) {
            Some(callee) => forall|k: int| 0 <= k < top_symbols(t, path).len() ==> #[trigger] top_symbols(t, path)[k].name != callee,
            None => true,
        },
    ensures
        call_edge(t, top_symbols(t, path), i) is None,
{
    let syms = top_symbols(t, path);
    match call_name(t, i) {
        Some(callee) => {
            lemma_resolve_in_range(syms, callee);
        },
        None => {},
    }
}

/// A call anywhere inside a top-level function, however deeply nested,
/// gives an edge from that function (the first top-level symbol of its
/// name) to the first top-level symbol named as the callee.
pub proof fn lemma_nested_call_attributed(g: GraphView, t: SyntaxTree, path: Seq<char>, i: int, f: int)
    requires
        is_file_graph(g, t, path),
        0 <= i < t.size(),
        t.kind(i) == SyntaxKind::Call,
        top_ancestor(t, i) == Some(f),
        t.kind(f) == SyntaxKind::FunctionDefinition,
        node_name(t, f) is Some,
        call_name(t, i) is Some,
        resolve(top_symbols(t, path), node_name(t, f)->0) is Some,
        resolve(top_symbols(t, path), call_name(t, i)->0) is Some,
    ensures
        exists|k: int|
            0 <= k < g.edges.len() && #[trigger] g.edges[k] == (
                resolve(top_symbols(t, path), node_name(t, f)->0)->0 as nat,
                resolve(top_symbols(t, path), call_name(t, i)->0)->0 as nat,
                Edge { edge_type: EdgeType::Calls },
            ),
{
    let syms = top_symbols(t, path);
    let calls = call_edges(t, syms);
    lemma_calls_complete(t, syms, t.size(), i);
    let k = choose|k: int| 0 <= k < calls.len() && calls[k] == call_edge(t, syms, i)->0;
    lemma_resolve_in_range(syms, node_name(t, f)->0);
    lemma_resolve_in_range(syms, call_name(t, i)->0);
    assert(g.edges[k] == (calls[k].0 as nat, calls[k].1 as nat, Edge { edge_type: EdgeType::Calls }));
}

/// Parsing an unchanged file twice gives the same graph: the same nodes, in
/// the same order, and the same edges. So `Parser::parse_file` and
/// `parse_file`, whose results are both graphs of the source, agree.
pub proof fn lemma_parse_deterministic(g1: GraphView, g2: GraphView, source: Seq<u8>, path: Seq<char>)
    requires
        source_graph(g1, source, path),
        source_graph(g2, source, path),
    ensures
        views(g1.nodes) == views(g2.nodes),
        g1.nodes.len() == g2.nodes.len(),
        forall|k: int| 0 <= k < g1.nodes.len() ==> #[trigger] g1.nodes[k].id@ == g2.nodes[k].id@,
        g1.edges == g2.edges,
{
    let t1 = choose|t: SyntaxTree| t.wf() && tree_model(t.nodes@) == python_tree(source)->0 && is_file_graph(g1, t, path);
    let t2 = choose|t: SyntaxTree| t.wf() && tree_model(t.nodes@) == python_tree(source)->0 && is_file_graph(g2, t, path);
    lemma_extraction_deterministic(g1, g2, t1, t2, path);
}

} // verus!
