//! A lossless, structured record of Python import statements, for a later
//! pass that resolves imports across files.
use crate::error::GraphError;
use crate::parser::MultiFileGraph;
use crate::syntax::{links_ok_at, parse_python, python_tree, tree_model, Field, SyntaxKind, SyntaxTree};
use std::collections::HashMap;
use vstd::prelude::*;
use vstd::string::StringExecFns;

verus! {

/// Import statements of each file, keyed by the file's path.
pub type ImportMap = HashMap<String, Vec<ImportStatement>>;

/// The graph of a parsing session together with the imports of its files.
pub struct FirstPassOutput {
    pub graph: MultiFileGraph,
    pub imports: ImportMap,
}

/// One import statement of a Python file.
#[derive(Debug, Clone, PartialEq)]
pub enum ImportStatement {
    /// `import a, b as c`
    Import {
        /// The modules imported, in source order.
        items: Vec<ImportedModule>,
        /// Where the statement stands.
        range: SourceRange,
    },
    /// `from module import name [as alias]`, `from . import x`, `from m import *`
    ImportFrom {
        /// The module named; `None` for `from . import x`.
        module: Option<String>,
        /// Relative import level: 0 for absolute, 1 for `.`, 2 for `..`.
        level: u8,
        /// The names imported, a star import included.
        names: Vec<ImportedName>,
        /// Where the statement stands.
        range: SourceRange,
    },
}

/// One module of an `import` statement.
#[derive(Debug, Clone, PartialEq)]
pub struct ImportedModule {
    pub name: String,
    pub alias: Option<String>,
}

/// One name of a `from ... import` statement.
#[derive(Debug, Clone, PartialEq)]
pub struct ImportedName {
    /// The name, or `*` for a star import.
    pub name: String,
    pub alias: Option<String>,
    /// Whether this is `from module import *`.
    pub is_star: bool,
}

/// A statement's place in its file.
#[derive(Debug, Clone, Copy, PartialEq, Eq, Structural)]
pub struct SourceRange {
    /// Byte offset of the start, from 0.
    pub start_byte: usize,
    /// Byte offset of the end, from 0.
    pub end_byte: usize,
    /// First line, from 1.
    pub start_line: usize,
    /// Last line, from 1.
    pub end_line: usize,
}

/// The texts of an optional string.
pub open spec fn opt_text(o: Option<String>) -> Option<Seq<char>> {
    match o {
        Some(s) => Some(s@),
        None => None,
    }
}

/// The model of an [`ImportedModule`]: name and alias.
pub open spec fn module_view(m: ImportedModule) -> (Seq<char>, Option<Seq<char>>) {
    (m.name@, opt_text(m.alias))
}

/// The model of an [`ImportedName`]: name, alias and whether it is a star.
pub open spec fn name_view(n: ImportedName) -> (Seq<char>, Option<Seq<char>>, bool) {
    (n.name@, opt_text(n.alias), n.is_star)
}

/// The mathematical model of an [`ImportStatement`].
pub enum ImportView {
    Import { items: Seq<(Seq<char>, Option<Seq<char>>)>, range: SourceRange },
    ImportFrom {
        module: Option<Seq<char>>,
        level: u8,
        names: Seq<(Seq<char>, Option<Seq<char>>, bool)>,
        range: SourceRange,
    },
}

impl View for ImportStatement {
    type V = ImportView;

    open spec fn view(&self) -> ImportView {
        match self {
            ImportStatement::Import { items, range } => ImportView::Import {
                items: items@.map_values(|m: ImportedModule| module_view(m)),
                range: *range,
            },
            ImportStatement::ImportFrom { module, level, names, range } => ImportView::ImportFrom {
                module: opt_text(*module),
                level: *level,
                names: names@.map_values(|n: ImportedName| name_view(n)),
                range: *range,
            },
        }
    }
}

/// A row as a line number from 1; the largest row stays as it is.
pub open spec fn line_of(row: usize) -> usize {
    if row < usize::MAX {
        (row + 1) as usize
    } else {
        row
    }
}

/// Where node `i` stands in its file.
pub open spec fn range_of(t: SyntaxTree, i: int) -> SourceRange {
    let nd = t.nodes@[i];
    SourceRange {
        start_byte: nd.start_byte,
        end_byte: nd.end_byte,
        start_line: line_of(nd.start_row),
        end_line: line_of(nd.end_row),
    }
}

/// The module and alias that an entry `c` of an import list names: a dotted
/// name, or a dotted name with an alias.
pub open spec fn list_entry(t: SyntaxTree, c: int) -> Option<(Seq<char>, Option<Seq<char>>)> {
    if !(0 <= c < t.size()) {
        None
    } else if t.kind(c) == SyntaxKind::DottedName {
        match t.text(c) {
            Some(name) => Some((name, None)),
            None => None,
        }
    } else if t.kind(c) == SyntaxKind::AliasedImport {
        match (t.nodes@[c].name, t.nodes@[c].alias) {
            (Some(n), Some(a)) => if 0 <= n < t.size() && 0 <= a < t.size() {
                match (t.text(n as int), t.text(a as int)) {
                    (Some(name), Some(alias)) => Some((name, Some(alias))),
                    _ => None,
                }
            } else {
                None
            },
            _ => None,
        }
    } else {
        None
    }
}

/// The entries of the import list among the first `k` children of node `i`.
pub open spec fn list_upto(t: SyntaxTree, i: int, k: int) -> Seq<(Seq<char>, Option<Seq<char>>)>
    decreases k,
{
    if k <= 0 {
        Seq::empty()
    } else {
        let prev = list_upto(t, i, k - 1);
        let c = t.nodes@[i].children@[k - 1] as int;
        if 0 <= c < t.size() && t.nodes@[c].field == Some(Field::Name) {
            match list_entry(t, c) {
                Some(e) => prev.push(e),
                None => prev,
            }
        } else {
            prev
        }
    }
}

/// The import list of statement `i`, in source order.
pub open spec fn import_list(t: SyntaxTree, i: int) -> Seq<(Seq<char>, Option<Seq<char>>)> {
    list_upto(t, i, t.nodes@[i].children@.len() as int)
}

/// Some child of node `i` is `*`.
pub open spec fn has_wildcard(t: SyntaxTree, i: int) -> bool {
    exists|j: int|
        0 <= j < t.nodes@[i].children@.len() && 0 <= #[trigger] t.nodes@[i].children@[j] < t.size()
            && t.kind(t.nodes@[i].children@[j] as int) == SyntaxKind::WildcardImport
}

/// A relative import level, at most 255.
pub open spec fn level_of(dots: int) -> u8 {
    if dots < 255 {
        dots as u8
    } else {
        255
    }
}

/// The module and level that the `module_name` of statement `i` gives: a
/// dotted name at level 0, or the dots of a relative import and the dotted
/// name after them, if any.
pub open spec fn from_module(t: SyntaxTree, i: int) -> (Option<Seq<char>>, u8) {
    match t.nodes@[i].module_name {
        Some(m) => if !(0 <= m < t.size()) {
            (None, 0)
        } else if t.kind(m as int) == SyntaxKind::DottedName {
            (t.text(m as int), 0)
        } else if t.kind(m as int) == SyntaxKind::RelativeImport {
            let ch = t.nodes@[m as int].children@;
            let dots = if ch.len() > 0 && 0 <= ch[0] < t.size() && t.kind(ch[0] as int)
                == SyntaxKind::ImportPrefix {
                t.nodes@[ch[0] as int].children@.len() as int
            } else {
                0
            };
            let module = if ch.len() > 1 && 0 <= ch[1] < t.size() && t.kind(ch[1] as int)
                == SyntaxKind::DottedName {
                t.text(ch[1] as int)
            } else {
                None
            };
            (module, level_of(dots))
        } else {
            (None, 0)
        },
        None => (None, 0),
    }
}

/// The names of a `from` import list: each entry, not a star.
pub open spec fn from_names(entries: Seq<(Seq<char>, Option<Seq<char>>)>) -> Seq<(Seq<char>, Option<Seq<char>>, bool)> {
    entries.map_values(|e: (Seq<char>, Option<Seq<char>>)| (e.0, e.1, false))
}

/// The import statement that node `i` is, if it is one. A `from` import
/// whose module part names neither a module nor a relative level is left out.
pub open spec fn import_at(t: SyntaxTree, i: int) -> Option<ImportView> {
    if t.kind(i) == SyntaxKind::ImportStatement {
        Some(ImportView::Import { items: import_list(t, i), range: range_of(t, i) })
    } else if t.kind(i) == SyntaxKind::ImportFromStatement {
        let (module, level) = from_module(t, i);
        if module is None && level == 0 {
            None
        } else {
            Some(
                ImportView::ImportFrom {
                    module,
                    level,
                    names: if has_wildcard(t, i) {
                        seq![("*"@, None, true)]
                    } else {
                        from_names(import_list(t, i))
                    },
                    range: range_of(t, i),
                },
            )
        }
    } else if t.kind(i) == SyntaxKind::FutureImportStatement {
        Some(
            ImportView::ImportFrom {
                module: Some("__future__"@),
                level: 0,
                names: from_names(import_list(t, i)),
                range: range_of(t, i),
            },
        )
    } else {
        None
    }
}

/// The import statements among the first `k` nodes, in pre-order.
pub open spec fn imports_upto(t: SyntaxTree, k: int) -> Seq<ImportView>
    decreases k,
{
    if k <= 0 {
        Seq::empty()
    } else {
        let prev = imports_upto(t, k - 1);
        match import_at(t, k - 1) {
            Some(s) => prev.push(s),
            None => prev,
        }
    }
}

/// The import statements of a file, in source order.
pub open spec fn imports_of(t: SyntaxTree) -> Seq<ImportView> {
    imports_upto(t, t.size())
}

/// The models of a sequence of import statements.
pub open spec fn import_views(v: Seq<ImportStatement>) -> Seq<ImportView> {
    v.map_values(|s: ImportStatement| s@)
}

fn text_at(t: &SyntaxTree, i: usize) -> (r: Option<String>)
    requires
        i < t.size(),
    ensures
        opt_text(r) == t.text(i as int),
{
    match &t.nodes[i].text {
        Some(s) => Some(s.clone()),
        None => None,
    }
}

fn list_entry_at(t: &SyntaxTree, c: usize) -> (r: Option<ImportedModule>)
    requires
        t.wf(),
        c < t.size(),
    ensures
        r is Some <==> list_entry(*t, c as int) is Some,
        r matches Some(m) ==> list_entry(*t, c as int) == Some(module_view(m)),
{
    assert(links_ok_at(t.nodes@, c as int));
    match t.nodes[c].kind {
        SyntaxKind::DottedName => match text_at(t, c) {
            Some(name) => Some(ImportedModule { name, alias: None }),
            None => None,
        },
        SyntaxKind::AliasedImport => match (t.nodes[c].name, t.nodes[c].alias) {
            (Some(n), Some(a)) => match (text_at(t, n), text_at(t, a)) {
                (Some(name), Some(alias)) => Some(ImportedModule { name, alias: Some(alias) }),
                _ => None,
            },
            _ => None,
        },
        _ => None,
    }
}

fn import_list_at(t: &SyntaxTree, i: usize) -> (r: Vec<ImportedModule>)
    requires
        t.wf(),
        i < t.size(),
    ensures
        r@.map_values(|m: ImportedModule| module_view(m)) == import_list(*t, i as int),
{
    assert(links_ok_at(t.nodes@, i as int));
    let ch = &t.nodes[i].children;
    let mut r: Vec<ImportedModule> = Vec::new();
    let mut k: usize = 0;
    while k < ch.len()
        invariant
            t.wf(),
            i < t.size(),
            *ch == t.nodes@[i as int].children,
            links_ok_at(t.nodes@, i as int),
            k <= ch@.len(),
            r@.map_values(|m: ImportedModule| module_view(m)) == list_upto(*t, i as int, k as int),
        decreases ch@.len() - k,
    {
        let c = ch[k];
        let ghost before = r@;
        if t.nodes[c].field == Some(Field::Name) {
            match list_entry_at(t, c) {
                Some(m) => {
                    r.push(m);
                    assert(r@.map_values(|m: ImportedModule| module_view(m)) =~= before.map_values(
                        |m: ImportedModule| module_view(m),
                    ).push(module_view(m)));
                },
                None => {},
            }
        }
        k = k + 1;
    }
    r
}

fn has_wildcard_at(t: &SyntaxTree, i: usize) -> (r: bool)
    requires
        t.wf(),
        i < t.size(),
    ensures
        r == has_wildcard(*t, i as int),
{
    assert(links_ok_at(t.nodes@, i as int));
    let ch = &t.nodes[i].children;
    let mut k: usize = 0;
    while k < ch.len()
        invariant
            t.wf(),
            *ch == t.nodes@[i as int].children,
            links_ok_at(t.nodes@, i as int),
            k <= ch@.len(),
            forall|j: int|
                0 <= j < k ==> t.kind(#[trigger] t.nodes@[i as int].children@[j] as int)
                    != SyntaxKind::WildcardImport,
        decreases ch@.len() - k,
    {
        if t.nodes[ch[k]].kind == SyntaxKind::WildcardImport {
            return true;
        }
        k = k + 1;
    }
    false
}

fn from_module_at(t: &SyntaxTree, i: usize) -> (r: (Option<String>, u8))
    requires
        t.wf(),
        i < t.size(),
    ensures
        (opt_text(r.0), r.1) == from_module(*t, i as int),
{
    assert(links_ok_at(t.nodes@, i as int));
    match t.nodes[i].module_name {
        Some(m) => {
            assert(links_ok_at(t.nodes@, m as int));
            match t.nodes[m].kind {
                SyntaxKind::DottedName => (text_at(t, m), 0),
                SyntaxKind::RelativeImport => {
                    let ch = &t.nodes[m].children;
                    let dots: usize = if ch.len() > 0 && t.nodes[ch[0]].kind == SyntaxKind::ImportPrefix {
                        t.nodes[ch[0]].children.len()
                    } else {
                        0
                    };
                    let module = if ch.len() > 1 && t.nodes[ch[1]].kind == SyntaxKind::DottedName {
                        text_at(t, ch[1])
                    } else {
                        None
                    };
                    let level: u8 = if dots < 255 {
                        dots as u8
                    } else {
                        255
                    };
                    (module, level)
                },
                _ => (None, 0),
            }
        },
        None => (None, 0),
    }
}

fn from_names_of(entries: Vec<ImportedModule>) -> (r: Vec<ImportedName>)
    ensures
        r@.map_values(|n: ImportedName| name_view(n)) == from_names(
            entries@.map_values(|m: ImportedModule| module_view(m)),
        ),
{
    let mut r: Vec<ImportedName> = Vec::new();
    let mut k: usize = 0;
    while k < entries.len()
        invariant
            k <= entries@.len(),
            r@.len() == k,
            forall|j: int|
                0 <= j < k ==> name_view(#[trigger] r@[j]) == (
                    entries@[j].name@,
                    opt_text(entries@[j].alias),
                    false,
                ),
        decreases entries@.len() - k,
    {
        let m = &entries[k];
        r.push(ImportedName { name: m.name.clone(), alias: m.alias.clone(), is_star: false });
        k = k + 1;
    }
    assert(r@.map_values(|n: ImportedName| name_view(n)) =~= from_names(
        entries@.map_values(|m: ImportedModule| module_view(m)),
    ));
    r
}

/// The import statement that node `i` is, if it is one.
pub fn import_at_node(t: &SyntaxTree, i: usize) -> (r: Option<ImportStatement>)
    requires
        t.wf(),
        i < t.size(),
    ensures
        r is Some <==> import_at(*t, i as int) is Some,
        r matches Some(s) ==> import_at(*t, i as int) == Some(s@),
{
    let nd = &t.nodes[i];
    let range = SourceRange {
        start_byte: nd.start_byte,
        end_byte: nd.end_byte,
        start_line: if nd.start_row < usize::MAX {
            nd.start_row + 1
        } else {
            nd.start_row
        },
        end_line: if nd.end_row < usize::MAX {
            nd.end_row + 1
        } else {
            nd.end_row
        },
    };
    match nd.kind {
        SyntaxKind::ImportStatement => {
            let items = import_list_at(t, i);
            Some(ImportStatement::Import { items, range })
        },
        SyntaxKind::ImportFromStatement => {
            let (module, level) = from_module_at(t, i);
            if module.is_none() && level == 0 {
                return None;
            }
            let names = if has_wildcard_at(t, i) {
                let star = ImportedName { name: String::from_str("*"), alias: None, is_star: true };
                let v = vec![star];
                assert(v@.map_values(|n: ImportedName| name_view(n)) =~= seq![("*"@, None, true)]);
                v
            } else {
                from_names_of(import_list_at(t, i))
            };
            Some(ImportStatement::ImportFrom { module, level, names, range })
        },
        SyntaxKind::FutureImportStatement => {
            let names = from_names_of(import_list_at(t, i));
            Some(
                ImportStatement::ImportFrom {
                    module: Some(String::from_str("__future__")),
                    level: 0,
                    names,
                    range,
                },
            )
        },
        _ => None,
    }
}

/// The import statements of a syntax tree, in source order, nested ones
/// included.
pub fn imports_in_tree(t: &SyntaxTree) -> (r: Vec<ImportStatement>)
    requires
        t.wf(),
    ensures
        import_views(r@) == imports_of(*t),
{
    let n = t.nodes.len();
    let mut r: Vec<ImportStatement> = Vec::new();
    let mut i: usize = 0;
    while i < n
        invariant
            t.wf(),
            n == t.size(),
            i <= n,
            import_views(r@) == imports_upto(*t, i as int),
        decreases n - i,
    {
        let ghost before = r@;
        match import_at_node(t, i) {
            Some(s) => {
                r.push(s);
                assert(import_views(r@) =~= import_views(before).push(s@));
            },
            None => {},
        }
        i = i + 1;
    }
    r
}

/// A `from` import without a module name is relative: its level is at least 1.
pub proof fn lemma_moduleless_imports_are_relative(t: SyntaxTree, k: int)
    ensures
        forall|q: int|
            0 <= q < imports_upto(t, k).len() ==> (#[trigger] imports_upto(t, k)[q] matches ImportView::ImportFrom {
                module,
                level,
                ..
            } ==> module is Some || level > 0),
    decreases k,
{
    if k > 0 {
        lemma_moduleless_imports_are_relative(t, k - 1);
        let prev = imports_upto(t, k - 1);
        if let Some(s) = import_at(t, k - 1) {
            assert forall|q: int| 0 <= q < imports_upto(t, k).len() implies (#[trigger] imports_upto(t, k)[q] matches ImportView::ImportFrom {
                module,
                level,
                ..
            } ==> module is Some || level > 0) by {
                if q < prev.len() {
                    assert(imports_upto(t, k)[q] == prev[q]);
                }
            }
        }
    }
}

/// The imports of a source: those of the syntax tree that tree-sitter's
/// parse of it converts to.
pub open spec fn source_imports(v: Seq<ImportStatement>, source: Seq<u8>) -> bool {
    exists|t: SyntaxTree| t.wf() && tree_model(t.nodes@) == python_tree(source)->0 && import_views(v) == imports_of(t)
}

/// The import statements of the Python source of the file at `path`, in
/// source order; `Unparseable` exactly where tree-sitter gives no usable tree.
pub fn extract_imports(path: &String, source: &[u8]) -> (r: Result<Vec<ImportStatement>, GraphError>)
    ensures
        python_tree(source@) is Some ==> (r matches Ok(v) && source_imports(v@, source@)),
        python_tree(source@) is None ==> (r matches Err(e) && e == (GraphError::Unparseable { path: *path })),
{
    match parse_python(source) {
        Some(t) => Ok(imports_in_tree(&t)),
        None => Err(GraphError::Unparseable { path: path.clone() }),
    }
}

} // verus!
