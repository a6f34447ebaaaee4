use graph_migrator::import::{
    FirstPassOutput, ImportMap, ImportStatement, ImportedModule, ImportedName, SourceRange,
};
use graph_migrator::MultiFileGraph;

#[test]
fn test_import_statement_structure() {
    let stmt = ImportStatement::Import {
        items: vec![
            ImportedModule {
                name: "os".to_string(),
                alias: None,
            },
            ImportedModule {
                name: "sys".to_string(),
                alias: Some("system".to_string()),
            },
        ],
        range: SourceRange {
            start_byte: 0,
            end_byte: 25,
            start_line: 1,
            end_line: 1,
        },
    };

    match stmt {
        ImportStatement::Import { items, range } => {
            assert_eq!(items.len(), 2);
            assert_eq!(items[0].name, "os");
            assert_eq!(items[1].alias, Some("system".to_string()));
            assert_eq!(range.start_line, 1);
        }
        _ => panic!("Expected Import variant"),
    }
}

#[test]
fn test_import_from_statement_structure() {
    let stmt = ImportStatement::ImportFrom {
        module: Some("os".to_string()),
        level: 0,
        names: vec![ImportedName {
            name: "path".to_string(),
            alias: None,
            is_star: false,
        }],
        range: SourceRange {
            start_byte: 0,
            end_byte: 20,
            start_line: 1,
            end_line: 1,
        },
    };

    match stmt {
        ImportStatement::ImportFrom {
            module,
            level,
            names,
            ..
        } => {
            assert_eq!(module, Some("os".to_string()));
            assert_eq!(level, 0);
            assert_eq!(names.len(), 1);
            assert_eq!(names[0].name, "path");
        }
        _ => panic!("Expected ImportFrom variant"),
    }
}

#[test]
fn test_relative_import_structure() {
    let stmt = ImportStatement::ImportFrom {
        module: None,
        level: 1,
        names: vec![ImportedName {
            name: "helper".to_string(),
            alias: None,
            is_star: false,
        }],
        range: SourceRange {
            start_byte: 0,
            end_byte: 23,
            start_line: 1,
            end_line: 1,
        },
    };

    match stmt {
        ImportStatement::ImportFrom {
            module,
            level,
            names,
            ..
        } => {
            assert_eq!(module, None);
            assert_eq!(level, 1);
            assert_eq!(names[0].name, "helper");
        }
        _ => panic!("Expected ImportFrom variant"),
    }
}

#[test]
fn test_star_import_structure() {
    let stmt = ImportStatement::ImportFrom {
        module: Some("typing".to_string()),
        level: 0,
        names: vec![ImportedName {
            name: "*".to_string(),
            alias: None,
            is_star: true,
        }],
        range: SourceRange {
            start_byte: 0,
            end_byte: 26,
            start_line: 1,
            end_line: 1,
        },
    };

    match stmt {
        ImportStatement::ImportFrom { names, .. } => {
            assert!(names[0].is_star);
            assert_eq!(names[0].name, "*");
        }
        _ => panic!("Expected ImportFrom variant"),
    }
}

#[test]
fn test_source_range_structure() {
    let range = SourceRange {
        start_byte: 100,
        end_byte: 250,
        start_line: 5,
        end_line: 7,
    };

    assert_eq!(range.start_byte, 100);
    assert_eq!(range.end_byte, 250);
    assert_eq!(range.start_line, 5);
    assert_eq!(range.end_line, 7);
}

#[test]
fn test_first_pass_output_structure() {
    let output = FirstPassOutput {
        graph: MultiFileGraph::default(),
        imports: ImportMap::new(),
    };

    assert_eq!(output.graph.graph.node_count(), 0);
    assert!(output.imports.is_empty());
}

#[test]
fn test_import_map_insertion() {
    let mut map = ImportMap::new();
    let path = String::from("/test/file.py");

    let imports = vec![ImportStatement::Import {
        items: vec![ImportedModule {
            name: "os".to_string(),
            alias: None,
        }],
        range: SourceRange {
            start_byte: 0,
            end_byte: 6,
            start_line: 1,
            end_line: 1,
        },
    }];

    map.insert(path.clone(), imports.clone());

    assert_eq!(map.len(), 1);
    assert_eq!(map.get(&path).unwrap().len(), 1);
}

use graph_migrator::import::extract_imports;

fn imports_of(source: &str) -> Vec<ImportStatement> {
    extract_imports(&"/abs/imports.py".to_string(), source.as_bytes()).unwrap()
}

#[test]
fn plain_imports_with_aliases() {
    let got = imports_of("import os, sys as system\n");
    assert_eq!(
        got,
        vec![ImportStatement::Import {
            items: vec![
                ImportedModule { name: "os".to_string(), alias: None },
                ImportedModule { name: "sys".to_string(), alias: Some("system".to_string()) },
            ],
            range: SourceRange { start_byte: 0, end_byte: 24, start_line: 1, end_line: 1 },
        }]
    );
}

#[test]
fn dotted_module_import() {
    let got = imports_of("x = 1\nimport os.path\n");
    match &got[0] {
        ImportStatement::Import { items, range } => {
            assert_eq!(items[0].name, "os.path");
            assert_eq!(range.start_line, 2);
            assert_eq!(range.start_byte, 6);
        }
        _ => panic!("Expected Import variant"),
    }
}

#[test]
fn from_import_with_alias() {
    let got = imports_of("from os import path as p, sep\n");
    match &got[0] {
        ImportStatement::ImportFrom { module, level, names, .. } => {
            assert_eq!(module, &Some("os".to_string()));
            assert_eq!(*level, 0);
            assert_eq!(names.len(), 2);
            assert_eq!(names[0].name, "path");
            assert_eq!(names[0].alias, Some("p".to_string()));
            assert!(!names[0].is_star);
            assert_eq!(names[1].name, "sep");
        }
        _ => panic!("Expected ImportFrom variant"),
    }
}

#[test]
fn relative_imports_record_their_level() {
    let got = imports_of("from . import helper\nfrom ..pkg.mod import (a, b)\n");
    assert_eq!(got.len(), 2);
    match &got[0] {
        ImportStatement::ImportFrom { module, level, names, .. } => {
            assert_eq!(module, &None);
            assert_eq!(*level, 1);
            assert_eq!(names[0].name, "helper");
        }
        _ => panic!("Expected ImportFrom variant"),
    }
    match &got[1] {
        ImportStatement::ImportFrom { module, level, names, .. } => {
            assert_eq!(module, &Some("pkg.mod".to_string()));
            assert_eq!(*level, 2);
            assert_eq!(names.len(), 2);
        }
        _ => panic!("Expected ImportFrom variant"),
    }
}

#[test]
fn star_import_is_one_star_name() {
    let got = imports_of("from typing import *\n");
    match &got[0] {
        ImportStatement::ImportFrom { module, names, .. } => {
            assert_eq!(module, &Some("typing".to_string()));
            assert_eq!(names.len(), 1);
            assert!(names[0].is_star);
            assert_eq!(names[0].name, "*");
        }
        _ => panic!("Expected ImportFrom variant"),
    }
}

#[test]
fn nested_imports_are_found_in_source_order() {
    let got = imports_of("import a\n\ndef f():\n    import b\n\nfrom __future__ import annotations\n");
    assert_eq!(got.len(), 3);
    match &got[1] {
        ImportStatement::Import { items, range } => {
            assert_eq!(items[0].name, "b");
            assert_eq!(range.start_line, 4);
        }
        _ => panic!("Expected Import variant"),
    }
    match &got[2] {
        ImportStatement::ImportFrom { module, names, .. } => {
            assert_eq!(module, &Some("__future__".to_string()));
            assert_eq!(names[0].name, "annotations");
        }
        _ => panic!("Expected ImportFrom variant"),
    }
}

#[test]
fn source_without_imports_has_none() {
    assert!(imports_of("def f():\n    return 1\n").is_empty());
}
