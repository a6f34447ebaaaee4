use graph_migrator::parser::path_le_exec;
use graph_migrator::{
    merge_all, parse_files, Edge, EdgeType, Graph, GraphError, MultiFileGraph, Node, NodeType,
};

const SAMPLE: &str = "def hello_world():\n    return \"Hello, world!\"\n\n\ndef another_function(x):\n    return x + 1\n\n\nclass Greeter:\n    def greet(self, name):\n        return name\n";

const NESTED: &str = "def outer_function():\n    def inner_function():\n        return 1\n\n    return inner_function\n\n\nclass OuterClass:\n    class InnerClass:\n        pass\n";

const MODULE_A: &str = "def helper():\n    return 1\n\n\ndef process():\n    return helper()\n";

const MODULE_B: &str = "def helper():\n    return 2\n\n\ndef transform(x):\n    return x\n";

const MAIN: &str = "def main():\n    return 0\n\n\ndef run():\n    return 1\n";

const ROOT: &str = "/project/tests/test-fixtures";

fn file(name: &str, source: &str) -> (String, Vec<u8>) {
    (format!("{}/{}", ROOT, name), source.as_bytes().to_vec())
}

fn ids(multi: &MultiFileGraph) -> Vec<String> {
    multi.graph.nodes().into_iter().map(|n| n.id).collect()
}

#[test]
fn test_parse_files_single_file() {
    let multi = parse_files(vec![file("sample.py", SAMPLE)]).unwrap();

    assert_eq!(multi.file_nodes.len(), 1);
    assert!(multi.graph.node_count() > 0);
    assert!(!multi.node_locations.is_empty());
}

#[test]
fn test_parse_files_multiple_files() {
    let multi = parse_files(vec![file("sample.py", SAMPLE), file("nested.py", NESTED)]).unwrap();

    assert_eq!(multi.file_nodes.len(), 2);
    assert!(multi.graph.node_count() >= 5);
}

#[test]
fn test_multi_file_project() {
    let multi = parse_files(vec![
        file("multi-file-project/module_a.py", MODULE_A),
        file("multi-file-project/module_b.py", MODULE_B),
        file("multi-file-project/main.py", MAIN),
    ])
    .unwrap();

    assert_eq!(multi.file_nodes.len(), 3);
    assert!(multi.graph.node_count() >= 6);
    for (_, file_path) in &multi.node_locations {
        assert!(multi.file_nodes.contains(file_path));
    }
}

#[test]
fn test_same_name_different_files() {
    let multi = parse_files(vec![
        file("multi-file-project/module_a.py", MODULE_A),
        file("multi-file-project/module_b.py", MODULE_B),
    ])
    .unwrap();

    let helpers: Vec<Node> = multi
        .graph
        .nodes()
        .into_iter()
        .filter(|n| n.name == "helper")
        .collect();

    assert_eq!(helpers.len(), 2);
    assert_ne!(helpers[0].id, helpers[1].id);
}

#[test]
fn test_node_locations_mapping() {
    let multi = parse_files(vec![
        file("multi-file-project/module_a.py", MODULE_A),
        file("multi-file-project/main.py", MAIN),
    ])
    .unwrap();

    for (node_id, file_path) in &multi.node_locations {
        assert!(
            multi.file_nodes.contains(file_path),
            "Node {} maps to file {:?} which is not in file_nodes",
            node_id,
            file_path
        );
    }
}

#[test]
fn test_file_nodes_reverse_lookup() {
    let multi = parse_files(vec![
        file("multi-file-project/module_a.py", MODULE_A),
        file("multi-file-project/module_b.py", MODULE_B),
    ])
    .unwrap();

    assert_eq!(multi.file_nodes.len(), 2);
    for file_path in &multi.file_nodes {
        assert!(file_path.ends_with("module_a.py") || file_path.ends_with("module_b.py"));
    }
}

#[test]
fn test_deterministic_merging() {
    let multi1 = parse_files(vec![
        file("multi-file-project/module_a.py", MODULE_A),
        file("multi-file-project/module_b.py", MODULE_B),
    ])
    .unwrap();
    let multi2 = parse_files(vec![
        file("multi-file-project/module_b.py", MODULE_B),
        file("multi-file-project/module_a.py", MODULE_A),
    ])
    .unwrap();

    assert_eq!(multi1.graph.node_count(), multi2.graph.node_count());
    assert_eq!(multi1.graph.edge_count(), multi2.graph.edge_count());
    assert_eq!(ids(&multi1), ids(&multi2));
}

#[test]
fn test_edge_preservation() {
    let multi = parse_files(vec![file("multi-file-project/module_a.py", MODULE_A)]).unwrap();

    let calls_count = multi
        .graph
        .edges()
        .into_iter()
        .filter(|e| e.edge_type == EdgeType::Calls)
        .count();

    assert!(calls_count >= 1, "Should have at least 1 Calls edge");
}

#[test]
fn test_empty_file_list() {
    let multi = parse_files(vec![]).unwrap();

    assert_eq!(multi.graph.node_count(), 0);
    assert_eq!(multi.file_nodes.len(), 0);
    assert!(multi.node_locations.is_empty());
}

#[test]
fn test_multifilegraph_new() {
    let multi = MultiFileGraph::new();

    assert_eq!(multi.graph.node_count(), 0);
    assert_eq!(multi.file_nodes.len(), 0);
    assert!(multi.node_locations.is_empty());
}

#[test]
fn test_multifilegraph_default() {
    let multi = MultiFileGraph::default();

    assert_eq!(multi.graph.node_count(), 0);
    assert_eq!(multi.file_nodes.len(), 0);
    assert!(multi.node_locations.is_empty());
}

#[test]
fn empty_merge_has_no_nodes_edges_or_files() {
    let multi = merge_all(vec![]).unwrap();
    assert_eq!(multi.graph.node_count(), 0);
    assert_eq!(multi.graph.edge_count(), 0);
    assert!(multi.file_nodes.is_empty());
}

#[test]
fn two_files_with_helper_give_two_nodes_and_two_locations() {
    let multi = parse_files(vec![
        ("/abs/b.py".to_string(), b"def helper(): pass\n".to_vec()),
        ("/abs/a.py".to_string(), b"def helper(): pass\n".to_vec()),
    ])
    .unwrap();
    assert_eq!(multi.graph.node_count(), 2);
    assert_eq!(multi.graph.edge_count(), 0);
    assert_eq!(ids(&multi), vec!["/abs/a.py::helper".to_string(), "/abs/b.py::helper".to_string()]);
    assert_eq!(
        multi.node_locations,
        vec![
            ("/abs/a.py::helper".to_string(), "/abs/a.py".to_string()),
            ("/abs/b.py::helper".to_string(), "/abs/b.py".to_string())
        ]
    );
}

#[test]
fn merge_order_does_not_change_ids_edges_or_locations() {
    let order1 = vec![
        file("c.py", MAIN),
        file("a.py", MODULE_A),
        file("b.py", MODULE_B),
    ];
    let order2 = vec![
        file("b.py", MODULE_B),
        file("c.py", MAIN),
        file("a.py", MODULE_A),
    ];
    let m1 = parse_files(order1).unwrap();
    let m2 = parse_files(order2).unwrap();
    assert_eq!(ids(&m1), ids(&m2));
    assert_eq!(m1.node_locations, m2.node_locations);
    assert_eq!(m1.graph.edge_count(), 1);
    assert_eq!(m2.graph.edge_count(), 1);
    let (a, b, _) = m1.graph.edge_endpoints()[0];
    assert_eq!(m1.graph.node_weight(a).unwrap().id, format!("{}/a.py::process", ROOT));
    assert_eq!(m1.graph.node_weight(b).unwrap().id, format!("{}/a.py::helper", ROOT));
}

fn node(id: &str, name: &str) -> Node {
    Node {
        id: id.to_string(),
        name: name.to_string(),
        node_type: NodeType::Function,
        language: "python".to_string(),
        file_path: "/x.py".to_string(),
        line_range: None,
    }
}

#[test]
fn merging_a_present_identifier_reuses_its_node() {
    let mut g1 = Graph::new();
    let a = g1.add_node(node("/x.py::a", "a"));
    let b = g1.add_node(node("/x.py::b", "b"));
    g1.add_edge(a, b, Edge { edge_type: EdgeType::Calls });
    let mut g2 = Graph::new();
    let a2 = g2.add_node(node("/x.py::a", "a"));
    let c2 = g2.add_node(node("/x.py::c", "c"));
    g2.add_edge(c2, a2, Edge { edge_type: EdgeType::Imports });

    let mut multi = MultiFileGraph::new();
    multi.merge_file_graph(g1, &"/x.py".to_string()).unwrap();
    multi.merge_file_graph(g2, &"/y.py".to_string()).unwrap();

    assert_eq!(multi.graph.node_count(), 3);
    assert_eq!(multi.graph.edge_count(), 2);
    assert_eq!(multi.file_nodes, vec!["/x.py".to_string(), "/y.py".to_string()]);
    assert_eq!(multi.node_locations[2], ("/x.py::c".to_string(), "/y.py".to_string()));
    let (from, to, e) = multi.graph.edge_endpoints()[1];
    assert_eq!(from.index(), 2);
    assert_eq!(to.index(), 0);
    assert_eq!(e.edge_type, EdgeType::Imports);
    assert_eq!(
        multi.node_index(&"/x.py::c".to_string()).map(|i| i.index()),
        Some(2)
    );
    assert_eq!(multi.node_index(&"/x.py::z".to_string()), None);
}

#[test]
fn merging_a_file_twice_lists_it_once() {
    let mut multi = MultiFileGraph::new();
    let mut g = Graph::new();
    g.add_node(node("/x.py::a", "a"));
    multi.merge_file_graph(g, &"/x.py".to_string()).unwrap();
    let mut g = Graph::new();
    g.add_node(node("/x.py::a", "a"));
    multi.merge_file_graph(g, &"/x.py".to_string()).unwrap();
    assert_eq!(multi.file_nodes.len(), 1);
    assert_eq!(multi.graph.node_count(), 1);
}

#[test]
fn paths_compare_by_code_points() {
    assert!(path_le_exec("/a/b.py", "/a/c.py"));
    assert!(!path_le_exec("/a/c.py", "/a/b.py"));
    assert!(path_le_exec("/a", "/a/b"));
    assert!(!path_le_exec("/a/b", "/a"));
    assert!(path_le_exec("", ""));
    assert!(path_le_exec("/a/B", "/a/b"));
}

#[test]
fn error_messages_name_the_file() {
    let e = GraphError::Unparseable { path: "/x.py".to_string() };
    assert_eq!(e.message(), "cannot parse file: /x.py");
    let e = GraphError::Unreadable { path: "/y.py".to_string() };
    assert_eq!(e.message(), "cannot read file: /y.py");
    let e = GraphError::MissingEndpoint { path: "/z.py".to_string() };
    assert!(e.message().ends_with("/z.py"));
    assert_eq!(GraphError::TooLarge.message(), "graph too large for its index type");
}

#[test]
fn shared_identifier_is_attributed_to_the_least_path_in_any_order() {
    let graph_with = |id: &str| {
        let mut g = Graph::new();
        g.add_node(node(id, "x"));
        g
    };
    let m1 = merge_all(vec![
        ("/z.py".to_string(), graph_with("/shared::x")),
        ("/a.py".to_string(), graph_with("/shared::x")),
    ])
    .unwrap();
    let m2 = merge_all(vec![
        ("/a.py".to_string(), graph_with("/shared::x")),
        ("/z.py".to_string(), graph_with("/shared::x")),
    ])
    .unwrap();
    assert_eq!(m1.graph.node_count(), 1);
    assert_eq!(m1.node_locations, vec![("/shared::x".to_string(), "/a.py".to_string())]);
    assert_eq!(m1.node_locations, m2.node_locations);
    assert_eq!(m1.file_nodes, vec!["/a.py".to_string(), "/z.py".to_string()]);
}
