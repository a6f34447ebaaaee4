use graph_migrator::python::{build_file_graph, extract_call_name, extract_top_level_nodes};
use graph_migrator::syntax::parse_python;
use graph_migrator::{EdgeType, Graph, Language, NodeType, Parser};

const SAMPLE: &str = "def hello_world():\n    return \"Hello, world!\"\n\n\ndef another_function(x):\n    return x + 1\n\n\nclass Greeter:\n    def greet(self, name):\n        return name\n";

const NESTED: &str = "def outer_function():\n    def inner_function():\n        return 1\n\n    class InnerClass:\n        pass\n\n    return inner_function\n\n\nclass OuterClass:\n    class InnerClass:\n        pass\n\n    def method(self):\n        return 2\n";

const CALLS: &str = "def helper():\n    return 42\n\n\ndef caller():\n    return helper()\n\n\ndef another_caller():\n    x = helper()\n    return x\n\n\ndef no_calls():\n    return 0\n";

const CALLS_WITH_UNRESOLVED: &str = "import os\n\n\ndef my_func():\n    print(\"start\")\n    os.path.join(\"a\", \"b\")\n    undefined_function()\n    return helper()\n\n\ndef helper():\n    return 1\n";

const CALLS_EDGE_CASES: &str = "def helper():\n    return 1\n\n\ndef helper():\n    return 2\n\n\ndef caller():\n    return helper()\n\n\ndef dotted_caller():\n    return module.helper()\n\n\ndef method_caller(obj):\n    return obj.method()\n";

fn parse(path: &str, source: &str) -> Graph {
    let parser = Parser::new();
    parser
        .parse_file(&path.to_string(), source.as_bytes(), &Language::Python)
        .unwrap()
}

fn names(graph: &Graph) -> Vec<String> {
    graph.nodes().into_iter().map(|n| n.name).collect()
}

fn edge_names(graph: &Graph) -> Vec<(String, String)> {
    let mut r = Vec::new();
    for (from, to, _) in graph.edge_endpoints() {
        let a = graph.node_weight(from).unwrap().name.clone();
        let b = graph.node_weight(to).unwrap().name.clone();
        r.push((a, b));
    }
    r
}

#[test]
fn test_parse_python_file() {
    let graph = parse("/project/tests/test-fixtures/sample.py", SAMPLE);

    assert_eq!(graph.node_count(), 3);

    let node_names = names(&graph);
    assert!(node_names.contains(&"hello_world".to_string()));
    assert!(node_names.contains(&"another_function".to_string()));
    assert!(node_names.contains(&"Greeter".to_string()));

    for node in graph.nodes() {
        assert_eq!(node.language, "python");
    }
    for node in graph.nodes() {
        assert!(node.file_path.starts_with('/'));
    }
}

#[test]
fn test_nested_symbols_not_extracted() {
    let graph = parse("/project/tests/test-fixtures/nested.py", NESTED);

    assert_eq!(graph.node_count(), 2);

    let node_names = names(&graph);
    assert!(node_names.contains(&"outer_function".to_string()));
    assert!(node_names.contains(&"OuterClass".to_string()));
    assert!(!node_names.contains(&"inner_function".to_string()));
    assert!(!node_names.contains(&"InnerClass".to_string()));
}

#[test]
fn test_extract_calls_edges() {
    let graph = parse("/project/tests/test-fixtures/calls.py", CALLS);

    assert_eq!(graph.node_count(), 4);
    assert_eq!(graph.edge_count(), 2);
    for edge in graph.edges() {
        assert_eq!(edge.edge_type, EdgeType::Calls);
    }
}

#[test]
fn test_unresolved_calls_skipped() {
    let graph = parse(
        "/project/tests/test-fixtures/calls_with_unresolved.py",
        CALLS_WITH_UNRESOLVED,
    );

    assert_eq!(graph.node_count(), 2);
    assert_eq!(graph.edge_count(), 1);
}

#[test]
fn test_no_calls_no_edges() {
    let graph = parse("/project/tests/test-fixtures/sample.py", SAMPLE);

    assert_eq!(graph.edge_count(), 0);
}

#[test]
fn test_edge_case_duplicate_functions() {
    let graph = parse(
        "/project/tests/test-fixtures/calls_edge_cases.py",
        CALLS_EDGE_CASES,
    );

    assert_eq!(graph.node_count(), 5);
    assert_eq!(graph.edge_count(), 1);

    let mut found_caller_to_helper = false;
    for (from, to, edge) in graph.edge_endpoints() {
        if let (Some(from_node), Some(to_node)) = (graph.node_weight(from), graph.node_weight(to)) {
            if from_node.name == "caller" && to_node.name == "helper" {
                assert_eq!(edge.edge_type, EdgeType::Calls);
                found_caller_to_helper = true;
            }
        }
    }
    assert!(found_caller_to_helper);
}

#[test]
fn duplicate_name_resolves_to_first_definition() {
    let graph = parse("/p/dup.py", CALLS_EDGE_CASES);
    let (from, to, _) = graph.edge_endpoints()[0];
    assert_eq!(to.index(), 0);
    assert_eq!(graph.node_weight(from).unwrap().name, "caller");
}

#[test]
fn helper_and_caller_give_one_edge() {
    let graph = parse("/abs/example.py", "def helper(): pass\ndef caller(): helper()\n");
    assert_eq!(names(&graph), vec!["helper".to_string(), "caller".to_string()]);
    assert_eq!(graph.edge_count(), 1);
    assert_eq!(
        edge_names(&graph),
        vec![("caller".to_string(), "helper".to_string())]
    );
    let nodes = graph.nodes();
    assert_eq!(nodes[0].id, "/abs/example.py::helper");
    assert_eq!(nodes[1].id, "/abs/example.py::caller");
    assert_eq!(nodes[0].node_type, NodeType::Function);
    assert_eq!(nodes[0].file_path, "/abs/example.py");
    assert_eq!(nodes[0].line_range, None);
}

#[test]
fn nested_definitions_are_absent_but_their_parent_is_present() {
    let source = "def outer():\n    def inner():\n        pass\n    class Local:\n        pass\n";
    let graph = parse("/abs/n.py", source);
    assert_eq!(names(&graph), vec!["outer".to_string()]);
    assert_eq!(graph.edge_count(), 0);
}

#[test]
fn call_in_nested_function_is_attributed_to_top_level_function() {
    let source = "def helper():\n    pass\n\ndef outer():\n    def inner():\n        helper()\n    return inner\n";
    let graph = parse("/abs/nested_call.py", source);
    assert_eq!(
        edge_names(&graph),
        vec![("outer".to_string(), "helper".to_string())]
    );
}

#[test]
fn call_to_unknown_or_dotted_name_gives_no_edge() {
    let source = "def f():\n    g()\n    os.path.exists(\"x\")\n    f.attr()\n";
    let graph = parse("/abs/u.py", source);
    assert_eq!(graph.node_count(), 1);
    assert_eq!(graph.edge_count(), 0);
}

#[test]
fn module_level_call_has_no_caller() {
    let source = "def helper():\n    pass\n\nhelper()\n";
    let graph = parse("/abs/m.py", source);
    assert_eq!(graph.edge_count(), 0);
}

#[test]
fn recursive_call_gives_self_edge() {
    let graph = parse("/abs/r.py", "def f(n):\n    return f(n - 1)\n");
    assert_eq!(edge_names(&graph), vec![("f".to_string(), "f".to_string())]);
}

#[test]
fn class_names_are_class_nodes_and_calls_in_methods_are_dropped() {
    let source = "def helper():\n    pass\n\nclass C:\n    def m(self):\n        helper()\n";
    let graph = parse("/abs/c.py", source);
    let nodes = graph.nodes();
    assert_eq!(nodes[1].name, "C");
    assert_eq!(nodes[1].node_type, NodeType::Class);
    assert_eq!(graph.edge_count(), 0);
}

#[test]
fn extraction_is_idempotent() {
    let g1 = parse("/abs/i.py", CALLS);
    let g2 = parse("/abs/i.py", CALLS);
    let ids1: Vec<String> = g1.nodes().into_iter().map(|n| n.id).collect();
    let ids2: Vec<String> = g2.nodes().into_iter().map(|n| n.id).collect();
    assert_eq!(ids1, ids2);
    assert_eq!(edge_names(&g1), edge_names(&g2));
}

#[test]
fn same_name_in_two_files_gives_distinct_ids() {
    let a = parse("/abs/a.py", "def helper(): pass\n");
    let b = parse("/abs/b.py", "def helper(): pass\n");
    assert_eq!(a.nodes()[0].id, "/abs/a.py::helper");
    assert_eq!(b.nodes()[0].id, "/abs/b.py::helper");
    assert_ne!(a.nodes()[0].id, b.nodes()[0].id);
}

#[test]
fn dotted_call_names_are_spelled_in_full() {
    let tree = parse_python(b"os.path.exists(x)\n").unwrap();
    let call = tree
        .nodes
        .iter()
        .position(|n| n.kind == graph_migrator::syntax::SyntaxKind::Call)
        .unwrap();
    assert_eq!(extract_call_name(&tree, call), Some("os.path.exists".to_string()));
}

#[test]
fn syntax_tree_is_in_pre_order() {
    let tree = parse_python(b"def f():\n    g()\n").unwrap();
    assert!(tree.nodes[0].parent.is_none());
    for (i, node) in tree.nodes.iter().enumerate().skip(1) {
        assert!(node.parent.unwrap() < i);
    }
    let top = extract_top_level_nodes(&tree, &"/abs/t.py".to_string());
    assert_eq!(top.len(), 1);
    assert_eq!(top[0].id, "/abs/t.py::f");
}

#[test]
fn build_from_tree_matches_parse() {
    let tree = parse_python(CALLS.as_bytes()).unwrap();
    let g = build_file_graph(&tree, &"/abs/calls.py".to_string());
    assert_eq!(g.node_count(), 4);
    assert_eq!(
        edge_names(&g),
        vec![
            ("caller".to_string(), "helper".to_string()),
            ("another_caller".to_string(), "helper".to_string())
        ]
    );
}
