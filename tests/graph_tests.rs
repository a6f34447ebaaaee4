use graph_migrator::{Edge, EdgeIndex, EdgeType, Graph, Node, NodeIndex, NodeType};

fn node(id: &str, name: &str, node_type: NodeType) -> Node {
    Node {
        id: id.to_string(),
        name: name.to_string(),
        node_type,
        language: "python".to_string(),
        file_path: "/f.py".to_string(),
        line_range: Some((1, 2)),
    }
}

#[test]
fn new_graph_is_empty() {
    let g = Graph::new();
    assert_eq!(g.node_count(), 0);
    assert_eq!(g.edge_count(), 0);
    assert!(g.nodes().is_empty());
    let d = Graph::default();
    assert_eq!(d.node_count(), 0);
}

#[test]
fn indices_are_dense_and_stable() {
    let mut g = Graph::new();
    let a = g.add_node(node("/f.py::a", "a", NodeType::Function));
    let b = g.add_node(node("/f.py::B", "B", NodeType::Class));
    assert_eq!(a.index(), 0);
    assert_eq!(b.index(), 1);
    let e = g.add_edge(a, b, Edge { edge_type: EdgeType::Contains });
    assert_eq!(e.index(), 0);
    assert_eq!(g.node_weight(a).unwrap().name, "a");
    assert_eq!(g.node_weight(b).unwrap().node_type, NodeType::Class);
    assert_eq!(g.node_weight(b).unwrap().line_range, Some((1, 2)));
    assert!(g.node_weight(NodeIndex::new(2)).is_none());
    assert_eq!(g.edge_weight(e).unwrap().edge_type, EdgeType::Contains);
    assert!(g.edge_weight(EdgeIndex::new(1)).is_none());
    assert_eq!(g.edge_endpoints_for(e), Some((a, b)));
    assert_eq!(g.edge_endpoints_for(EdgeIndex::new(5)), None);
    assert_eq!(g.node_indices(), vec![a, b]);
    assert_eq!(g.edge_indices(), vec![e]);
}

#[test]
fn every_edge_kind_round_trips() {
    let kinds = [
        EdgeType::Contains,
        EdgeType::Calls,
        EdgeType::Imports,
        EdgeType::Inherits,
        EdgeType::MigratedTo,
        EdgeType::PartOfMigration,
    ];
    let mut g = Graph::new();
    let a = g.add_node(node("/f.py::a", "a", NodeType::Module));
    let b = g.add_node(node("/f.py::u", "u", NodeType::MigrationUnit));
    for k in kinds.iter() {
        g.add_edge(a, b, Edge { edge_type: *k });
    }
    let got: Vec<EdgeType> = g.edges().into_iter().map(|e| e.edge_type).collect();
    assert_eq!(got, kinds.to_vec());
    for (i, (from, to, e)) in g.edge_endpoints().into_iter().enumerate() {
        assert_eq!((from, to), (a, b));
        assert_eq!(e.edge_type, kinds[i]);
    }
}

#[test]
fn find_node_by_id_returns_first_match() {
    let mut g = Graph::new();
    g.add_node(node("/f.py::a", "a", NodeType::Function));
    let second = g.add_node(node("/f.py::b", "b", NodeType::Function));
    g.add_node(node("/f.py::b", "b", NodeType::Function));
    assert_eq!(g.find_node_by_id("/f.py::b"), Some(second));
    assert_eq!(g.find_node_by_id("/f.py::zzz"), None);
}

#[test]
fn duplicate_copies_every_field() {
    let n = node("/f.py::a", "a", NodeType::GlobalVariable);
    let c = n.duplicate();
    assert_eq!(c.id, n.id);
    assert_eq!(c.name, n.name);
    assert_eq!(c.node_type, n.node_type);
    assert_eq!(c.language, n.language);
    assert_eq!(c.file_path, n.file_path);
    assert_eq!(c.line_range, n.line_range);
}

use graph_migrator::discovery::{build_glob_matcher, relative_to, select_files, WalkEntry};

#[test]
fn relative_paths_strip_the_root_and_separator() {
    assert_eq!(relative_to("/p", "/p/a/b.py"), Some("a/b.py".to_string()));
    assert_eq!(relative_to("/", "/x.py"), Some("x.py".to_string()));
    assert_eq!(relative_to("/p", "/pq/b.py"), None);
    assert_eq!(relative_to("/p/a", "/p"), None);
}

#[test]
fn selection_keeps_matching_files_under_the_root() {
    let matcher = build_glob_matcher(&vec!["**/*.py".to_string()]).unwrap();
    let entries = vec![
        WalkEntry { path: "/p".to_string(), is_file: false },
        WalkEntry { path: "/p/main.py".to_string(), is_file: true },
        WalkEntry { path: "/p/notes.txt".to_string(), is_file: true },
        WalkEntry { path: "/p/src/lib.py".to_string(), is_file: true },
        WalkEntry { path: "/p/pkg.py".to_string(), is_file: false },
        WalkEntry { path: "/other/x.py".to_string(), is_file: true },
    ];
    let chosen = select_files(&"/p".to_string(), &entries, &matcher);
    assert_eq!(chosen, vec!["/p/main.py".to_string(), "/p/src/lib.py".to_string()]);
}

#[test]
fn selection_by_directory_patterns() {
    let matcher =
        build_glob_matcher(&vec!["src/**/*.py".to_string(), "tests/**/*.py".to_string()]).unwrap();
    let entries = vec![
        WalkEntry { path: "/r/src/main.py".to_string(), is_file: true },
        WalkEntry { path: "/r/tests/test_main.py".to_string(), is_file: true },
        WalkEntry { path: "/r/setup.py".to_string(), is_file: true },
    ];
    let chosen = select_files(&"/r".to_string(), &entries, &matcher);
    assert_eq!(chosen.len(), 2);
    assert!(!chosen.contains(&"/r/setup.py".to_string()));
}

#[test]
fn invalid_glob_is_an_error() {
    assert!(build_glob_matcher(&vec!["a[".to_string()]).is_err());
}
