//! A syntax tree held as plain values, and its construction from a
//! tree-sitter parse of Python source.
use tree_sitter::{Node as TsNode, Parser as TsParser, Tree as TsTree};
use vstd::prelude::*;
use vstd::slice::slice_subrange;
use vstd::string::StringExecFns;
use vstd::utf8::{decode_utf8, valid_utf8};

verus! {

/// The kinds of syntax node that symbol extraction tells apart.
#[derive(Debug, Clone, Copy, PartialEq, Eq, Structural)]
pub enum SyntaxKind {
    FunctionDefinition,
    ClassDefinition,
    Call,
    Identifier,
    Attribute,
    ImportStatement,
    ImportFromStatement,
    FutureImportStatement,
    AliasedImport,
    DottedName,
    RelativeImport,
    ImportPrefix,
    WildcardImport,
    Other,
}

/// The fields of a parent that symbol and import extraction read.
#[derive(Debug, Clone, Copy, PartialEq, Eq, Structural)]
pub enum Field {
    Name,
    Object,
    Attribute,
    Alias,
    ModuleName,
}

/// One node of a [`SyntaxTree`]. Indices refer to other nodes of the same tree.
#[derive(Debug, Clone)]
pub struct SyntaxNode {
    pub kind: SyntaxKind,
    /// The enclosing node; `None` for the root only.
    pub parent: Option<usize>,
    /// All children, named and anonymous, in source order.
    pub children: Vec<usize>,
    /// The child in the field `name` (of a definition).
    pub name: Option<usize>,
    /// The child in the field `object` (of an attribute access).
    pub object: Option<usize>,
    /// The child in the field `attribute` (of an attribute access).
    pub attribute: Option<usize>,
    /// The child in the field `alias` (of an aliased import).
    pub alias: Option<usize>,
    /// The child in the field `module_name` (of a `from` import).
    pub module_name: Option<usize>,
    /// The field of the parent that holds this node, if it is one of those above.
    pub field: Option<Field>,
    /// The source text of an identifier or a dotted name; `None` for other kinds.
    pub text: Option<String>,
    /// Byte offset of the start.
    pub start_byte: usize,
    /// Byte offset of the end.
    pub end_byte: usize,
    /// Row of the start, from 0.
    pub start_row: usize,
    /// Row of the end, from 0.
    pub end_row: usize,
}

/// A syntax tree whose nodes are numbered in depth-first pre-order: the
/// root is node 0 and every node comes before its descendants.
#[derive(Debug, Clone)]
pub struct SyntaxTree {
    pub nodes: Vec<SyntaxNode>,
}

/// The links of node `i` point into `nodes`: its parent before it, its
/// children and fields after it.
pub open spec fn links_ok_at(nodes: Seq<SyntaxNode>, i: int) -> bool {
    let nd = nodes[i];
    &&& (nd.parent is None <==> i == 0)
    &&& (nd.parent matches Some(p) ==> p < i)
    &&& nd.children@.len() < nodes.len()
    &&& forall|j: int|
        0 <= j < nd.children@.len() ==> i < #[trigger] nd.children@[j] < nodes.len()
    &&& (nd.name matches Some(c) ==> i < c < nodes.len())
    &&& (nd.object matches Some(c) ==> i < c < nodes.len())
    &&& (nd.attribute matches Some(c) ==> i < c < nodes.len())
    &&& (nd.alias matches Some(c) ==> i < c < nodes.len())
    &&& (nd.module_name matches Some(c) ==> i < c < nodes.len())
}

pub open spec fn links_ok(nodes: Seq<SyntaxNode>) -> bool {
    forall|i: int| 0 <= i < nodes.len() ==> #[trigger] links_ok_at(nodes, i)
}

impl SyntaxTree {
    /// Well-formedness: a root, consistent links, and indices that fit in `u32`.
    pub open spec fn wf(&self) -> bool {
        &&& self.nodes@.len() > 0
        &&& self.nodes@.len() < u32::MAX
        &&& links_ok(self.nodes@)
    }

    /// The number of nodes.
    pub open spec fn size(&self) -> int {
        self.nodes@.len() as int
    }

    pub open spec fn kind(&self, i: int) -> SyntaxKind {
        self.nodes@[i].kind
    }

    /// The text of node `i`, if it is an identifier or a dotted name.
    pub open spec fn text(&self, i: int) -> Option<Seq<char>> {
        match self.nodes@[i].text {
            Some(s) => Some(s@),
            None => None,
        }
    }

    /// The children of the root, in source order.
    pub open spec fn top_level(&self) -> Seq<usize> {
        self.nodes@[0].children@
    }
}

/// The kind that a tree-sitter kind name stands for.
pub open spec fn kind_of(k: Seq<char>) -> SyntaxKind {
    if k == "function_definition"@ {
        SyntaxKind::FunctionDefinition
    } else if k == "class_definition"@ {
        SyntaxKind::ClassDefinition
    } else if k == "call"@ {
        SyntaxKind::Call
    } else if k == "identifier"@ {
        SyntaxKind::Identifier
    } else if k == "attribute"@ {
        SyntaxKind::Attribute
    } else if k == "import_statement"@ {
        SyntaxKind::ImportStatement
    } else if k == "import_from_statement"@ {
        SyntaxKind::ImportFromStatement
    } else if k == "future_import_statement"@ {
        SyntaxKind::FutureImportStatement
    } else if k == "aliased_import"@ {
        SyntaxKind::AliasedImport
    } else if k == "dotted_name"@ {
        SyntaxKind::DottedName
    } else if k == "relative_import"@ {
        SyntaxKind::RelativeImport
    } else if k == "import_prefix"@ {
        SyntaxKind::ImportPrefix
    } else if k == "wildcard_import"@ {
        SyntaxKind::WildcardImport
    } else {
        SyntaxKind::Other
    }
}

/// The field that a tree-sitter field name stands for.
pub open spec fn field_of(f: Seq<char>) -> Option<Field> {
    if f == "name"@ {
        Some(Field::Name)
    } else if f == "object"@ {
        Some(Field::Object)
    } else if f == "attribute"@ {
        Some(Field::Attribute)
    } else if f == "alias"@ {
        Some(Field::Alias)
    } else if f == "module_name"@ {
        Some(Field::ModuleName)
    } else {
        None
    }
}

/// The tree-sitter names that classification compares against.
struct Vocabulary {
    function_definition: String,
    class_definition: String,
    call: String,
    identifier: String,
    attribute: String,
    import_statement: String,
    import_from_statement: String,
    future_import_statement: String,
    aliased_import: String,
    dotted_name: String,
    relative_import: String,
    import_prefix: String,
    wildcard_import: String,
    name: String,
    object: String,
    alias: String,
    module_name: String,
}

impl Vocabulary {
    spec fn wf(&self) -> bool {
        &&& self.function_definition@ == "function_definition"@
        &&& self.class_definition@ == "class_definition"@
        &&& self.call@ == "call"@
        &&& self.identifier@ == "identifier"@
        &&& self.attribute@ == "attribute"@
        &&& self.import_statement@ == "import_statement"@
        &&& self.import_from_statement@ == "import_from_statement"@
        &&& self.future_import_statement@ == "future_import_statement"@
        &&& self.aliased_import@ == "aliased_import"@
        &&& self.dotted_name@ == "dotted_name"@
        &&& self.relative_import@ == "relative_import"@
        &&& self.import_prefix@ == "import_prefix"@
        &&& self.wildcard_import@ == "wildcard_import"@
        &&& self.name@ == "name"@
        &&& self.object@ == "object"@
        &&& self.alias@ == "alias"@
        &&& self.module_name@ == "module_name"@
    }

    fn new() -> (r: Vocabulary)
        ensures
            r.wf(),
    {
        Vocabulary {
            function_definition: String::from_str("function_definition"),
            class_definition: String::from_str("class_definition"),
            call: String::from_str("call"),
            identifier: String::from_str("identifier"),
            attribute: String::from_str("attribute"),
            import_statement: String::from_str("import_statement"),
            import_from_statement: String::from_str("import_from_statement"),
            future_import_statement: String::from_str("future_import_statement"),
            aliased_import: String::from_str("aliased_import"),
            dotted_name: String::from_str("dotted_name"),
            relative_import: String::from_str("relative_import"),
            import_prefix: String::from_str("import_prefix"),
            wildcard_import: String::from_str("wildcard_import"),
            name: String::from_str("name"),
            object: String::from_str("object"),
            alias: String::from_str("alias"),
            module_name: String::from_str("module_name"),
        }
    }

    fn field(&self, f: &String) -> (r: Option<Field>)
        requires
            self.wf(),
        ensures
            r == field_of(f@),
    {
        if *f == self.name {
            Some(Field::Name)
        } else if *f == self.object {
            Some(Field::Object)
        } else if *f == self.attribute {
            Some(Field::Attribute)
        } else if *f == self.alias {
            Some(Field::Alias)
        } else if *f == self.module_name {
            Some(Field::ModuleName)
        } else {
            None
        }
    }

    fn classify(&self, k: &String) -> (r: SyntaxKind)
        requires
            self.wf(),
        ensures
            r == kind_of(k@),
    {
        if *k == self.function_definition {
            SyntaxKind::FunctionDefinition
        } else if *k == self.class_definition {
            SyntaxKind::ClassDefinition
        } else if *k == self.call {
            SyntaxKind::Call
        } else if *k == self.identifier {
            SyntaxKind::Identifier
        } else if *k == self.attribute {
            SyntaxKind::Attribute
        } else if *k == self.import_statement {
            SyntaxKind::ImportStatement
        } else if *k == self.import_from_statement {
            SyntaxKind::ImportFromStatement
        } else if *k == self.future_import_statement {
            SyntaxKind::FutureImportStatement
        } else if *k == self.aliased_import {
            SyntaxKind::AliasedImport
        } else if *k == self.dotted_name {
            SyntaxKind::DottedName
        } else if *k == self.relative_import {
            SyntaxKind::RelativeImport
        } else if *k == self.import_prefix {
            SyntaxKind::ImportPrefix
        } else if *k == self.wildcard_import {
            SyntaxKind::WildcardImport
        } else {
            SyntaxKind::Other
        }
    }
}

#[verifier::external_type_specification]
#[verifier::external_body]
pub struct ExTsParser(TsParser);

#[verifier::external_type_specification]
#[verifier::external_body]
pub struct ExTsTree(TsTree);

#[verifier::external_type_specification]
#[verifier::external_body]
pub struct ExTsNode<'tree>(TsNode<'tree>);

/// Tree-sitter parses the bytes, with the Python grammar, into a tree.
pub uninterp spec fn ts_parse_gives_tree(source: Seq<u8>) -> bool;

/// The kind name of the node reached from the root of the parse of
/// `source` by the child positions `at`.
pub uninterp spec fn ts_kind_at(source: Seq<u8>, at: Seq<int>) -> Seq<char>;

/// The number of children of that node.
pub uninterp spec fn ts_child_count_at(source: Seq<u8>, at: Seq<int>) -> usize;

/// That node exists.
pub uninterp spec fn ts_has_node_at(source: Seq<u8>, at: Seq<int>) -> bool;

/// The field of its parent that holds that node, by name.
pub uninterp spec fn ts_field_at(source: Seq<u8>, at: Seq<int>) -> Option<Seq<char>>;

/// The byte offset where that node starts.
pub uninterp spec fn ts_start_byte_at(source: Seq<u8>, at: Seq<int>) -> usize;

/// The byte offset where that node ends.
pub uninterp spec fn ts_end_byte_at(source: Seq<u8>, at: Seq<int>) -> usize;

/// The row where that node starts.
pub uninterp spec fn ts_start_row_at(source: Seq<u8>, at: Seq<int>) -> usize;

/// The row where that node ends.
pub uninterp spec fn ts_end_row_at(source: Seq<u8>, at: Seq<int>) -> usize;

/// The number of nodes under that node, itself included.
pub uninterp spec fn ts_descendants_at(source: Seq<u8>, at: Seq<int>) -> usize;

/// A tree-sitter parser with the Python grammar set. Made only by
/// `python_parser`.
struct PythonParser {
    parser: TsParser,
}

/// A tree-sitter tree with the source it was parsed from. Made only by
/// `ts_parse`.
struct ParsedTree {
    tree: TsTree,
    source: Ghost<Seq<u8>>,
}

/// A node of a [`ParsedTree`], with its source and its child positions from
/// the root. Made only by `ts_root` and `ts_child`.
struct TreeNode<'tree> {
    node: TsNode<'tree>,
    source: Ghost<Seq<u8>>,
    at: Ghost<Seq<int>>,
}

/// Relies on `tree_sitter::Parser::new`: a parser without a language.
#[verifier::external_body]
fn ts_parser_new() -> TsParser {
    TsParser::new()
}

/// Relies on `tree_sitter::Parser::set_language` with
/// `tree_sitter_python::LANGUAGE`: the grammar's version (14, in its
/// `parser.c`) lies in the range that this tree-sitter accepts (13 to 14),
/// so the language is set.
#[verifier::external_body]
fn python_parser(p: TsParser) -> PythonParser {
    let mut parser = p;
    let _ = parser.set_language(&tree_sitter_python::LANGUAGE.into());
    PythonParser { parser }
}

/// Relies on `tree_sitter::Parser::parse`: with the Python grammar set,
/// whether a tree comes back depends on the source alone.
#[verifier::external_body]
fn ts_parse(p: &mut PythonParser, source: &[u8]) -> (r: Option<ParsedTree>)
    ensures
        r is Some <==> ts_parse_gives_tree(source@),
        r matches Some(t) ==> t.source@ == source@,
{
    match p.parser.parse(source, None) {
        Some(tree) => Some(ParsedTree { tree, source: Ghost(source@) }),
        None => None,
    }
}

/// Relies on `tree_sitter::Tree::root_node`.
#[verifier::external_body]
fn ts_root<'tree>(t: &'tree ParsedTree) -> (r: TreeNode<'tree>)
    ensures
        r.source@ == t.source@,
        r.at@ == Seq::<int>::empty(),
{
    TreeNode { node: t.tree.root_node(), source: Ghost(t.source@), at: Ghost(Seq::empty()) }
}

/// Relies on `tree_sitter::Node::kind`: the grammar's name for the node's kind.
#[verifier::external_body]
fn ts_kind(n: &TreeNode) -> (r: String)
    ensures
        r@ == ts_kind_at(n.source@, n.at@),
{
    n.node.kind().to_string()
}

/// Relies on `tree_sitter::Node::child_count`.
#[verifier::external_body]
fn ts_child_count(n: &TreeNode) -> (r: usize)
    ensures
        r == ts_child_count_at(n.source@, n.at@),
{
    n.node.child_count()
}

/// Relies on `tree_sitter::Node::child`: the child at a position, if any.
#[verifier::external_body]
fn ts_child<'tree>(n: &TreeNode<'tree>, i: usize) -> (r: Option<TreeNode<'tree>>)
    requires
        i < u32::MAX,
    ensures
        r is Some <==> ts_has_node_at(n.source@, n.at@.push(i as int)),
        r matches Some(c) ==> c.source@ == n.source@ && c.at@ == n.at@.push(i as int),
{
    match n.node.child(i) {
        Some(node) => Some(TreeNode { node, source: Ghost(n.source@), at: Ghost(n.at@.push(i as int)) }),
        None => None,
    }
}

/// Relies on `tree_sitter::Node::field_name_for_child`: the field that holds
/// the child at a position, if any.
#[verifier::external_body]
fn ts_field_name_for_child(n: &TreeNode, i: u32) -> (r: Option<String>)
    ensures
        opt_string(r) == ts_field_at(n.source@, n.at@.push(i as int)),
{
    n.node.field_name_for_child(i).map(|f| f.to_string())
}

/// Relies on `tree_sitter::Node::start_byte`.
#[verifier::external_body]
fn ts_start_byte(n: &TreeNode) -> (r: usize)
    ensures
        r == ts_start_byte_at(n.source@, n.at@),
{
    n.node.start_byte()
}

/// Relies on `tree_sitter::Node::end_byte`.
#[verifier::external_body]
fn ts_end_byte(n: &TreeNode) -> (r: usize)
    ensures
        r == ts_end_byte_at(n.source@, n.at@),
{
    n.node.end_byte()
}

/// Relies on `tree_sitter::Node::start_position`: the row of the start.
#[verifier::external_body]
fn ts_start_row(n: &TreeNode) -> (r: usize)
    ensures
        r == ts_start_row_at(n.source@, n.at@),
{
    n.node.start_position().row
}

/// Relies on `tree_sitter::Node::end_position`: the row of the end.
#[verifier::external_body]
fn ts_end_row(n: &TreeNode) -> (r: usize)
    ensures
        r == ts_end_row_at(n.source@, n.at@),
{
    n.node.end_position().row
}

/// Relies on `tree_sitter::Node::descendant_count`: the number of nodes in
/// the subtree, the node itself included.
#[verifier::external_body]
fn ts_descendant_count(n: &TreeNode) -> (r: usize)
    ensures
        r == ts_descendants_at(n.source@, n.at@),
{
    n.node.descendant_count()
}

/// The text of an optional string.
pub open spec fn opt_string(o: Option<String>) -> Option<Seq<char>> {
    match o {
        Some(s) => Some(s@),
        None => None,
    }
}

/// Relies on `std::str::from_utf8`: the decoded text of valid UTF-8.
#[verifier::external_body]
fn decode_text(b: &[u8]) -> (r: Option<String>)
    ensures
        r is Some <==> valid_utf8(b@),
        r matches Some(s) ==> s@ == decode_utf8(b@),
{
    std::str::from_utf8(b).ok().map(|s| s.to_string())
}

/// The text of the bytes `start..end` of `source`, where they lie in it.
fn text_between(source: &[u8], start: usize, end: usize) -> (r: Option<String>)
    ensures
        opt_string(r) == byte_text(source@, start, end),
{
    if start <= end && end <= source.len() {
        decode_text(slice_subrange(source, start, end))
    } else {
        None
    }
}

/// The decoded text of the bytes `start..end` of `source`, where they lie in
/// it and are valid UTF-8.
pub open spec fn byte_text(source: Seq<u8>, start: usize, end: usize) -> Option<Seq<char>> {
    if start <= end && end <= source.len() && valid_utf8(source.subrange(start as int, end as int)) {
        Some(decode_utf8(source.subrange(start as int, end as int)))
    } else {
        None
    }
}

/// The mathematical model of a [`SyntaxNode`].
pub struct NodeModel {
    pub kind: SyntaxKind,
    pub parent: Option<usize>,
    pub children: Seq<usize>,
    pub name: Option<usize>,
    pub object: Option<usize>,
    pub attribute: Option<usize>,
    pub alias: Option<usize>,
    pub module_name: Option<usize>,
    pub field: Option<Field>,
    pub text: Option<Seq<char>>,
    pub start_byte: usize,
    pub end_byte: usize,
    pub start_row: usize,
    pub end_row: usize,
}

impl View for SyntaxNode {
    type V = NodeModel;

    open spec fn view(&self) -> NodeModel {
        NodeModel {
            kind: self.kind,
            parent: self.parent,
            children: self.children@,
            name: self.name,
            object: self.object,
            attribute: self.attribute,
            alias: self.alias,
            module_name: self.module_name,
            field: self.field,
            text: opt_string(self.text),
            start_byte: self.start_byte,
            end_byte: self.end_byte,
            start_row: self.start_row,
            end_row: self.end_row,
        }
    }
}

/// The models of a sequence of nodes.
pub open spec fn tree_model(nodes: Seq<SyntaxNode>) -> Seq<NodeModel> {
    nodes.map_values(|n: SyntaxNode| n@)
}

/// The children and field slots of a node gathered so far.
pub struct ChildSlots {
    pub children: Seq<usize>,
    pub name: Option<usize>,
    pub object: Option<usize>,
    pub attribute: Option<usize>,
    pub alias: Option<usize>,
    pub module_name: Option<usize>,
}

pub open spec fn no_slots() -> ChildSlots {
    ChildSlots { children: Seq::empty(), name: None, object: None, attribute: None, alias: None, module_name: None }
}

/// `st` with one more child, at index `c`, in the field `f`.
pub open spec fn with_child(st: ChildSlots, c: usize, f: Option<Field>) -> ChildSlots {
    ChildSlots {
        children: st.children.push(c),
        name: if f == Some(Field::Name) { Some(c) } else { st.name },
        object: if f == Some(Field::Object) { Some(c) } else { st.object },
        attribute: if f == Some(Field::Attribute) { Some(c) } else { st.attribute },
        alias: if f == Some(Field::Alias) { Some(c) } else { st.alias },
        module_name: if f == Some(Field::ModuleName) { Some(c) } else { st.module_name },
    }
}

/// The field that a tree-sitter field name, if any, stands for.
pub open spec fn field_model(f: Option<Seq<char>>) -> Option<Field> {
    match f {
        Some(x) => field_of(x),
        None => None,
    }
}

/// The node at `at` of the parse of `src`, before its children are known.
pub open spec fn fresh_node(src: Seq<u8>, at: Seq<int>, parent: Option<usize>, field: Option<Field>) -> NodeModel {
    NodeModel {
        kind: kind_of(ts_kind_at(src, at)),
        parent,
        children: Seq::empty(),
        name: None,
        object: None,
        attribute: None,
        alias: None,
        module_name: None,
        field,
        text: None,
        start_byte: ts_start_byte_at(src, at),
        end_byte: ts_end_byte_at(src, at),
        start_row: ts_start_row_at(src, at),
        end_row: ts_end_row_at(src, at),
    }
}

/// The node at `at` of the parse of `src`, with its children's slots.
pub open spec fn full_node(src: Seq<u8>, at: Seq<int>, parent: Option<usize>, field: Option<Field>, st: ChildSlots) -> NodeModel {
    let kind = kind_of(ts_kind_at(src, at));
    NodeModel {
        kind,
        parent,
        children: st.children,
        name: st.name,
        object: st.object,
        attribute: st.attribute,
        alias: st.alias,
        module_name: st.module_name,
        field,
        text: if kind == SyntaxKind::Identifier || kind == SyntaxKind::DottedName {
            byte_text(src, ts_start_byte_at(src, at), ts_end_byte_at(src, at))
        } else {
            None
        },
        start_byte: ts_start_byte_at(src, at),
        end_byte: ts_end_byte_at(src, at),
        start_row: ts_start_row_at(src, at),
        end_row: ts_end_row_at(src, at),
    }
}

/// `nodes` with the subtree at `at` of the parse of `src` appended in
/// pre-order, and the number of nodes appended; `None` where the subtree
/// has more than `budget` nodes or a child is missing.
pub open spec fn convert(
    src: Seq<u8>,
    at: Seq<int>,
    parent: Option<usize>,
    field: Option<Field>,
    nodes: Seq<NodeModel>,
    budget: nat,
) -> Option<(Seq<NodeModel>, nat)>
    decreases budget, 1nat, 0nat,
{
    if budget == 0 {
        None
    } else {
        let me = nodes.len() as usize;
        match convert_children(
            src,
            at,
            me,
            0,
            ts_child_count_at(src, at) as nat,
            nodes.push(fresh_node(src, at, parent, field)),
            1,
            budget,
            no_slots(),
        ) {
            Some((ns, used, st)) => Some((ns.update(me as int, full_node(src, at, parent, field, st)), used)),
            None => None,
        }
    }
}

/// The conversion of the children from position `i` on of the node at `at`.
pub open spec fn convert_children(
    src: Seq<u8>,
    at: Seq<int>,
    me: usize,
    i: nat,
    count: nat,
    nodes: Seq<NodeModel>,
    used: nat,
    budget: nat,
    st: ChildSlots,
) -> Option<(Seq<NodeModel>, nat, ChildSlots)>
    decreases budget, 0nat, count - i,
{
    if i >= count {
        Some((nodes, used, st))
    } else if used >= budget || used == 0 {
        None
    } else if !ts_has_node_at(src, at.push(i as int)) {
        None
    } else {
        let f = field_model(ts_field_at(src, at.push(i as int)));
        let c = nodes.len() as usize;
        match convert(src, at.push(i as int), Some(me), f, nodes, (budget - used) as nat) {
            Some((ns, got)) => convert_children(src, at, me, i + 1, count, ns, used + got, budget, with_child(st, c, f)),
            None => None,
        }
    }
}

/// The model of the syntax tree of the Python source `source`, if tree-sitter
/// gives a tree that converts within `u32` indices.
pub open spec fn python_tree(source: Seq<u8>) -> Option<Seq<NodeModel>> {
    if !ts_parse_gives_tree(source) {
        None
    } else {
        python_tree_of_parse(source)
    }
}

proof fn lemma_links_push(nodes: Seq<SyntaxNode>, x: SyntaxNode)
    requires
        links_ok(nodes),
        links_ok_at(nodes.push(x), nodes.len() as int),
    ensures
        links_ok(nodes.push(x)),
{
    let s = nodes.push(x);
    assert forall|i: int| 0 <= i < s.len() implies #[trigger] links_ok_at(s, i) by {
        if i < nodes.len() {
            assert(links_ok_at(nodes, i));
            assert(s[i] == nodes[i]);
        }
    }
}

/// Append the subtree under `ts` to `nodes` in pre-order, with `parent` as
/// the parent of its root; `Some(count)` with the number of nodes appended,
/// `None` where the subtree has more than `budget` nodes.
fn convert_subtree<'tree>(
    ts: TreeNode<'tree>,
    parent: Option<usize>,
    field: Option<Field>,
    source: &[u8],
    vocabulary: &Vocabulary,
    nodes: &mut Vec<SyntaxNode>,
    budget: usize,
) -> (r: Option<usize>)
    requires
        vocabulary.wf(),
        ts.source@ == source@,
        links_ok(old(nodes)@),
        parent is None <==> old(nodes)@.len() == 0,
        parent matches Some(p) ==> p < old(nodes)@.len(),
        old(nodes)@.len() + budget < u32::MAX,
    ensures
        links_ok(final(nodes)@),
        final(nodes)@.len() >= old(nodes)@.len(),
        forall|j: int| 0 <= j < old(nodes)@.len() ==> final(nodes)@[j] == old(nodes)@[j],
        r matches Some(u) ==> 1 <= u <= budget && final(nodes)@.len() == old(nodes)@.len() + u,
        r is Some <==> convert(source@, ts.at@, parent, field, tree_model(old(nodes)@), budget as nat) is Some,
        r matches Some(u) ==> convert(source@, ts.at@, parent, field, tree_model(old(nodes)@), budget as nat)
            == Some((tree_model(final(nodes)@), u as nat)),
    decreases budget,
{
    if budget == 0 {
        return None;
    }
    let ghost src = source@;
    let ghost at = ts.at@;
    let me = nodes.len();
    let kind_name = ts_kind(&ts);
    let kind = vocabulary.classify(&kind_name);
    let start_byte = ts_start_byte(&ts);
    let end_byte = ts_end_byte(&ts);
    let start_row = ts_start_row(&ts);
    let end_row = ts_end_row(&ts);
    let text = if kind == SyntaxKind::Identifier || kind == SyntaxKind::DottedName {
        text_between(source, start_byte, end_byte)
    } else {
        None
    };
    let placeholder = SyntaxNode {
        kind,
        parent,
        children: Vec::new(),
        name: None,
        object: None,
        attribute: None,
        alias: None,
        module_name: None,
        field,
        text: None,
        start_byte,
        end_byte,
        start_row,
        end_row,
    };
    assert(placeholder@ == fresh_node(src, at, parent, field));
    proof {
        lemma_links_push(nodes@, placeholder);
    }
    let ghost start = old(nodes)@;
    nodes.push(placeholder);
    assert(tree_model(nodes@) =~= tree_model(start).push(fresh_node(src, at, parent, field)));
    let count = ts_child_count(&ts);
    let ghost init = convert_children(src, at, me, 0, count as nat, tree_model(nodes@), 1, budget as nat, no_slots());
    let mut children: Vec<usize> = Vec::new();
    let mut name: Option<usize> = None;
    let mut object: Option<usize> = None;
    let mut attribute: Option<usize> = None;
    let mut alias: Option<usize> = None;
    let mut module_name: Option<usize> = None;
    let mut used: usize = 1;
    let mut i: usize = 0;
    assert(children@ =~= Seq::<usize>::empty());
    assert(init is None <==> convert(src, at, parent, field, tree_model(start), budget as nat) is None);
    while i < count
        invariant
            init is None <==> convert(src, at, parent, field, tree_model(start), budget as nat) is None,
            vocabulary.wf(),
            ts.source@ == source@,
            src == source@,
            at == ts.at@,
            start == old(nodes)@,
            me == start.len(),
            links_ok(nodes@),
            nodes@.len() == me + used,
            1 <= used <= budget,
            i < used,
            children@.len() < used,
            me + budget < u32::MAX,
            forall|j: int| 0 <= j < me ==> nodes@[j] == start[j],
            nodes@[me as int].parent == parent,
            parent is None <==> me == 0,
            parent matches Some(p) ==> p < me,
            forall|j: int| 0 <= j < children@.len() ==> me < #[trigger] children@[j] < nodes@.len(),
            name matches Some(c) ==> me < c < nodes@.len(),
            object matches Some(c) ==> me < c < nodes@.len(),
            attribute matches Some(c) ==> me < c < nodes@.len(),
            alias matches Some(c) ==> me < c < nodes@.len(),
            module_name matches Some(c) ==> me < c < nodes@.len(),
            convert_children(
                src,
                at,
                me,
                i as nat,
                count as nat,
                tree_model(nodes@),
                used as nat,
                budget as nat,
                ChildSlots { children: children@, name, object, attribute, alias, module_name },
            ) == init,
        decreases count - i,
    {
        if used >= budget {
            return None;
        }
        let child = match ts_child(&ts, i) {
            Some(c) => c,
            None => {
                return None;
            },
        };
        let child_field = match ts_field_name_for_child(&ts, i as u32) {
            Some(f) => vocabulary.field(&f),
            None => None,
        };
        assert(child_field == field_model(ts_field_at(src, at.push(i as int))));
        let at_child = nodes.len();
        let ghost before = nodes@;
        let sub = convert_subtree(child, Some(me), child_field, source, vocabulary, nodes, budget - used);
        let got = match sub {
            Some(u) => u,
            None => {
                return None;
            },
        };
        let ghost st0 = ChildSlots { children: children@, name, object, attribute, alias, module_name };
        used = used + got;
        children.push(at_child);
        match child_field {
            Some(Field::Name) => {
                name = Some(at_child);
            },
            Some(Field::Object) => {
                object = Some(at_child);
            },
            Some(Field::Attribute) => {
                attribute = Some(at_child);
            },
            Some(Field::Alias) => {
                alias = Some(at_child);
            },
            Some(Field::ModuleName) => {
                module_name = Some(at_child);
            },
            None => {},
        }
        assert(ChildSlots { children: children@, name, object, attribute, alias, module_name } == with_child(
            st0,
            at_child,
            child_field,
        ));
        i = i + 1;
    }
    let node = SyntaxNode {
        kind,
        parent,
        children,
        name,
        object,
        attribute,
        alias,
        module_name,
        field,
        text,
        start_byte,
        end_byte,
        start_row,
        end_row,
    };
    let ghost st = ChildSlots { children: node.children@, name, object, attribute, alias, module_name };
    assert(node@ == full_node(src, at, parent, field, st));
    let ghost before = nodes@;
    nodes.set(me, node);
    assert(tree_model(nodes@) =~= tree_model(before).update(me as int, node@));
    proof {
        assert forall|j: int| 0 <= j < nodes@.len() implies #[trigger] links_ok_at(nodes@, j) by {
            assert(links_ok_at(before, j));
        }
    }
    Some(used)
}

/// The syntax tree of a tree-sitter parse of `source`; `None` where the
/// parse does not fit the node count that it reports, or is too large for
/// `u32` indices.
fn syntax_tree_of(tree: &ParsedTree, source: &[u8]) -> (r: Option<SyntaxTree>)
    requires
        tree.source@ == source@,
    ensures
        r is Some <==> python_tree_of_parse(source@) is Some,
        r matches Some(t) ==> t.wf() && tree_model(t.nodes@) == python_tree_of_parse(source@)->0,
{
    let root = ts_root(tree);
    let budget = ts_descendant_count(&root);
    if budget >= u32::MAX as usize {
        return None;
    }
    let vocabulary = Vocabulary::new();
    let mut nodes: Vec<SyntaxNode> = Vec::new();
    assert(tree_model(nodes@) =~= Seq::<NodeModel>::empty());
    match convert_subtree(root, None, None, source, &vocabulary, &mut nodes, budget) {
        Some(_) => Some(SyntaxTree { nodes }),
        None => None,
    }
}

/// The model of the tree that a successful tree-sitter parse of `source`
/// converts to, within `u32` indices.
pub open spec fn python_tree_of_parse(source: Seq<u8>) -> Option<Seq<NodeModel>> {
    let b = ts_descendants_at(source, Seq::empty());
    if b >= u32::MAX {
        None
    } else {
        match convert(source, Seq::empty(), None, None, Seq::empty(), b as nat) {
            Some((ns, _)) => Some(ns),
            None => None,
        }
    }
}

/// Parse Python source with tree-sitter into a [`SyntaxTree`], whose model
/// is `python_tree(source@)`; `None` where that is `None`.
pub fn parse_python(source: &[u8]) -> (r: Option<SyntaxTree>)
    ensures
        r is Some <==> python_tree(source@) is Some,
        r matches Some(t) ==> t.wf() && tree_model(t.nodes@) == python_tree(source@)->0,
{
    let mut parser = python_parser(ts_parser_new());
    match ts_parse(&mut parser, source) {
        Some(tree) => syntax_tree_of(&tree, source),
        None => None,
    }
}

} // verus!
