//! What tree-sitter tells of source text: highlighting, the function that encloses a hunk, and the
//! symbols that relate files. An unknown language or a failed parse gives nothing, never an error.
use std::collections::HashMap;
use vstd::prelude::*;
use vstd::string::*;

use crate::changes;
use crate::order;
use crate::path;
use crate::style;
use crate::text;
use crate::order::{indices, sort_by_keys};
use crate::path::{extension, push_text_key};
use crate::style::Style;
use crate::text::{ascii_lower, byte_len, contains, ends_with, join, same, split};
use crate::theme::Theme;

verus! {

broadcast use {vstd::seq_lib::group_seq_properties, vstd::std_specs::hash::group_hash_axioms};

/// A styled run of text within a source line.
pub type Seg = (String, Style);

/// Larger files are not highlighted: it would take long and little of it would be seen.
pub const MAX_HIGHLIGHT_BYTES: usize = 2_097_152;

/// A language whose grammar is known.
#[derive(Clone, Copy, PartialEq, Eq, Hash, Debug, Structural)]
pub enum Lang {
    Rust,
    JavaScript,
    TypeScript,
    Tsx,
    Python,
    Go,
    Java,
}

/// The language of files with an extension, in small letters.
pub open spec fn lang_of_ext_v(ext: Seq<char>) -> Option<Lang> {
    if ext == "rs"@ {
        Some(Lang::Rust)
    } else if ext == "js"@ || ext == "jsx"@ || ext == "mjs"@ || ext == "cjs"@ {
        Some(Lang::JavaScript)
    } else if ext == "ts"@ || ext == "mts"@ || ext == "cts"@ {
        Some(Lang::TypeScript)
    } else if ext == "tsx"@ {
        Some(Lang::Tsx)
    } else if ext == "py"@ || ext == "pyi"@ {
        Some(Lang::Python)
    } else if ext == "go"@ {
        Some(Lang::Go)
    } else if ext == "java"@ {
        Some(Lang::Java)
    } else {
        None
    }
}

impl Lang {
    /// The language of a file, by its extension.
    pub open spec fn from_path_v(path: Seq<char>) -> Option<Lang> {
        match path::extension_v(path) {
            Some(ext) => lang_of_ext_v(text::ascii_lower_v(ext)),
            None => None,
        }
    }

    /// The language of the file at `path`, by its extension.
    pub fn from_path(path: &str) -> (r: Option<Lang>)
        ensures
            r == Lang::from_path_v(path@),
    {
        let ext = extension(path);
        let ext: String = match ext {
            Some(e) => e,
            None => {
                return None;
            },
        };
        assert(path::extension_v(path@) == Some(ext@));
        let small = ascii_lower(ext.as_str());
        let e: &str = small.as_str();
        if same(e, "rs") {
            Some(Lang::Rust)
        } else if same(e, "js") || same(e, "jsx") || same(e, "mjs") || same(e, "cjs") {
            Some(Lang::JavaScript)
        } else if same(e, "ts") || same(e, "mts") || same(e, "cts") {
            Some(Lang::TypeScript)
        } else if same(e, "tsx") {
            Some(Lang::Tsx)
        } else if same(e, "py") || same(e, "pyi") {
            Some(Lang::Python)
        } else if same(e, "go") {
            Some(Lang::Go)
        } else if same(e, "java") {
            Some(Lang::Java)
        } else {
            None
        }
    }

    /// Whether nodes of a kind label a hunk: functions, types and the like.
    pub open spec fn is_context_v(self, kind: Seq<char>) -> bool {
        match self {
            Lang::Rust => {
                ||| kind == "impl_item"@
                ||| kind == "trait_item"@
                ||| kind == "struct_item"@
                ||| kind == "enum_item"@
                ||| kind == "mod_item"@
                ||| kind == "function_item"@
            },
            Lang::JavaScript => {
                ||| kind == "class_declaration"@
                ||| kind == "function_declaration"@
                ||| kind == "generator_function_declaration"@
                ||| kind == "method_definition"@
            },
            Lang::TypeScript => {
                ||| kind == "class_declaration"@
                ||| kind == "function_declaration"@
                ||| kind == "generator_function_declaration"@
                ||| kind == "method_definition"@
            },
            Lang::Tsx => {
                ||| kind == "class_declaration"@
                ||| kind == "function_declaration"@
                ||| kind == "generator_function_declaration"@
                ||| kind == "method_definition"@
            },
            Lang::Python => {
                ||| kind == "class_definition"@
                ||| kind == "function_definition"@
            },
            Lang::Go => {
                ||| kind == "type_declaration"@
                ||| kind == "function_declaration"@
                ||| kind == "method_declaration"@
            },
            Lang::Java => {
                ||| kind == "class_declaration"@
                ||| kind == "interface_declaration"@
                ||| kind == "enum_declaration"@
                ||| kind == "method_declaration"@
                ||| kind == "constructor_declaration"@
            },
        }
    }

    /// Whether nodes of a kind label a hunk: functions, types and the like.
    pub fn is_context(self, kind: &str) -> (r: bool)
        ensures
            r == self.is_context_v(kind@),
    {
        match self {
            Lang::Rust => {
                same(kind, "impl_item") || same(kind, "trait_item") || same(kind, "struct_item")
                    || same(kind, "enum_item") || same(kind, "mod_item")
                    || same(kind, "function_item")
            },
            Lang::JavaScript | Lang::TypeScript | Lang::Tsx => {
                same(kind, "class_declaration") || same(kind, "function_declaration")
                    || same(kind, "generator_function_declaration")
                    || same(kind, "method_definition")
            },
            Lang::Python => {
                same(kind, "class_definition") || same(kind, "function_definition")
            },
            Lang::Go => {
                same(kind, "type_declaration") || same(kind, "function_declaration")
                    || same(kind, "method_declaration")
            },
            Lang::Java => {
                same(kind, "class_declaration") || same(kind, "interface_declaration")
                    || same(kind, "enum_declaration") || same(kind, "method_declaration")
                    || same(kind, "constructor_declaration")
            },
        }
    }

    /// Whether nodes of a kind call something.
    pub open spec fn is_call_v(self, kind: Seq<char>) -> bool {
        match self {
            Lang::Rust => {
                ||| kind == "call_expression"@
                ||| kind == "macro_invocation"@
            },
            Lang::JavaScript => {
                ||| kind == "call_expression"@
            },
            Lang::TypeScript => {
                ||| kind == "call_expression"@
            },
            Lang::Tsx => {
                ||| kind == "call_expression"@
            },
            Lang::Go => {
                ||| kind == "call_expression"@
            },
            Lang::Python => {
                ||| kind == "call"@
            },
            Lang::Java => {
                ||| kind == "method_invocation"@
            },
        }
    }

    /// Whether nodes of a kind call something.
    pub fn is_call(self, kind: &str) -> (r: bool)
        ensures
            r == self.is_call_v(kind@),
    {
        match self {
            Lang::Rust => {
                same(kind, "call_expression") || same(kind, "macro_invocation")
            },
            Lang::JavaScript | Lang::TypeScript | Lang::Tsx | Lang::Go => {
                same(kind, "call_expression")
            },
            Lang::Python => {
                same(kind, "call")
            },
            Lang::Java => {
                same(kind, "method_invocation")
            },
        }
    }

    /// Whether nodes of a kind import something.
    pub open spec fn is_import_v(self, kind: Seq<char>) -> bool {
        match self {
            Lang::Rust => {
                ||| kind == "use_declaration"@
            },
            Lang::JavaScript => {
                ||| kind == "import_statement"@
            },
            Lang::TypeScript => {
                ||| kind == "import_statement"@
            },
            Lang::Tsx => {
                ||| kind == "import_statement"@
            },
            Lang::Python => {
                ||| kind == "import_statement"@
                ||| kind == "import_from_statement"@
            },
            Lang::Go => {
                ||| kind == "import_declaration"@
                ||| kind == "import_spec"@
            },
            Lang::Java => {
                ||| kind == "import_declaration"@
            },
        }
    }

    /// Whether nodes of a kind import something.
    pub fn is_import(self, kind: &str) -> (r: bool)
        ensures
            r == self.is_import_v(kind@),
    {
        match self {
            Lang::Rust => {
                same(kind, "use_declaration")
            },
            Lang::JavaScript | Lang::TypeScript | Lang::Tsx => {
                same(kind, "import_statement")
            },
            Lang::Python => {
                same(kind, "import_statement") || same(kind, "import_from_statement")
            },
            Lang::Go => {
                same(kind, "import_declaration") || same(kind, "import_spec")
            },
            Lang::Java => {
                same(kind, "import_declaration")
            },
        }
    }

    /// Whether nodes of a kind define a named symbol.
    pub open spec fn is_definition_v(self, kind: Seq<char>) -> bool {
        match self {
            Lang::Rust => {
                ||| kind == "function_item"@
                ||| kind == "struct_item"@
                ||| kind == "enum_item"@
                ||| kind == "trait_item"@
                ||| kind == "type_item"@
                ||| kind == "const_item"@
                ||| kind == "static_item"@
                ||| kind == "macro_definition"@
                ||| kind == "mod_item"@
                ||| kind == "union_item"@
            },
            Lang::JavaScript => {
                ||| kind == "function_declaration"@
                ||| kind == "generator_function_declaration"@
                ||| kind == "class_declaration"@
                ||| kind == "method_definition"@
                ||| kind == "interface_declaration"@
                ||| kind == "type_alias_declaration"@
                ||| kind == "enum_declaration"@
            },
            Lang::TypeScript => {
                ||| kind == "function_declaration"@
                ||| kind == "generator_function_declaration"@
                ||| kind == "class_declaration"@
                ||| kind == "method_definition"@
                ||| kind == "interface_declaration"@
                ||| kind == "type_alias_declaration"@
                ||| kind == "enum_declaration"@
            },
            Lang::Tsx => {
                ||| kind == "function_declaration"@
                ||| kind == "generator_function_declaration"@
                ||| kind == "class_declaration"@
                ||| kind == "method_definition"@
                ||| kind == "interface_declaration"@
                ||| kind == "type_alias_declaration"@
                ||| kind == "enum_declaration"@
            },
            Lang::Python => {
                ||| kind == "function_definition"@
                ||| kind == "class_definition"@
            },
            Lang::Go => {
                ||| kind == "function_declaration"@
                ||| kind == "method_declaration"@
                ||| kind == "type_spec"@
                ||| kind == "type_declaration"@
            },
            Lang::Java => {
                ||| kind == "class_declaration"@
                ||| kind == "interface_declaration"@
                ||| kind == "enum_declaration"@
                ||| kind == "method_declaration"@
                ||| kind == "record_declaration"@
            },
        }
    }

    /// Whether nodes of a kind define a named symbol.
    pub fn is_definition(self, kind: &str) -> (r: bool)
        ensures
            r == self.is_definition_v(kind@),
    {
        match self {
            Lang::Rust => {
                same(kind, "function_item") || same(kind, "struct_item")
                    || same(kind, "enum_item") || same(kind, "trait_item")
                    || same(kind, "type_item") || same(kind, "const_item")
                    || same(kind, "static_item") || same(kind, "macro_definition")
                    || same(kind, "mod_item") || same(kind, "union_item")
            },
            Lang::JavaScript | Lang::TypeScript | Lang::Tsx => {
                same(kind, "function_declaration") || same(kind, "generator_function_declaration")
                    || same(kind, "class_declaration") || same(kind, "method_definition")
                    || same(kind, "interface_declaration") || same(kind, "type_alias_declaration")
                    || same(kind, "enum_declaration")
            },
            Lang::Python => {
                same(kind, "function_definition") || same(kind, "class_definition")
            },
            Lang::Go => {
                same(kind, "function_declaration") || same(kind, "method_declaration")
                    || same(kind, "type_spec") || same(kind, "type_declaration")
            },
            Lang::Java => {
                same(kind, "class_declaration") || same(kind, "interface_declaration")
                    || same(kind, "enum_declaration") || same(kind, "method_declaration")
                    || same(kind, "record_declaration")
            },
        }
    }

    /// A number for the language.
    pub open spec fn number_v(self) -> u64 {
        match self {
            Lang::Rust => 0,
            Lang::JavaScript => 1,
            Lang::TypeScript => 2,
            Lang::Tsx => 3,
            Lang::Python => 4,
            Lang::Go => 5,
            Lang::Java => 6,
        }
    }

    fn number(self) -> (r: u64)
        ensures
            r == self.number_v(),
    {
        match self {
            Lang::Rust => 0,
            Lang::JavaScript => 1,
            Lang::TypeScript => 2,
            Lang::Tsx => 3,
            Lang::Python => 4,
            Lang::Go => 5,
            Lang::Java => 6,
        }
    }
}

/// The word for a node kind in a hunk's label; empty where it has none.
pub open spec fn kind_keyword_v(kind: Seq<char>) -> Seq<char> {
    if kind == "impl_item"@ {
        "impl"@
    } else if kind == "trait_item"@ || kind == "interface_declaration"@ {
        "trait"@
    } else if kind == "struct_item"@ || kind == "record_declaration"@ {
        "struct"@
    } else if kind == "enum_item"@ || kind == "enum_declaration"@ {
        "enum"@
    } else if kind == "mod_item"@ {
        "mod"@
    } else if kind == "class_definition"@ || kind == "class_declaration"@ {
        "class"@
    } else if kind == "type_declaration"@ || kind == "type_spec"@
        || kind == "type_alias_declaration"@ {
        "type"@
    } else if kind == "function_item"@ || kind == "function_declaration"@
        || kind == "generator_function_declaration"@ || kind == "function_definition"@
        || kind == "method_definition"@ || kind == "method_declaration"@
        || kind == "constructor_declaration"@ {
        "fn"@
    } else {
        ""@
    }
}

/// The word for a node kind in a hunk's label; empty where it has none.
pub fn kind_keyword(kind: &str) -> (r: &'static str)
    ensures
        r@ == kind_keyword_v(kind@),
{
    if same(kind, "impl_item") {
        "impl"
    } else if same(kind, "trait_item") || same(kind, "interface_declaration") {
        "trait"
    } else if same(kind, "struct_item") || same(kind, "record_declaration") {
        "struct"
    } else if same(kind, "enum_item") || same(kind, "enum_declaration") {
        "enum"
    } else if same(kind, "mod_item") {
        "mod"
    } else if same(kind, "class_definition") || same(kind, "class_declaration") {
        "class"
    } else if same(kind, "type_declaration") || same(kind, "type_spec")
        || same(kind, "type_alias_declaration") {
        "type"
    } else if same(kind, "function_item") || same(kind, "function_declaration")
        || same(kind, "generator_function_declaration") || same(kind, "function_definition")
        || same(kind, "method_definition") || same(kind, "method_declaration")
        || same(kind, "constructor_declaration") {
        "fn"
    } else {
        ""
    }
}

// ---- Grammars and trees ----

/// A grammar.
#[verifier::external_type_specification]
#[verifier::external_body]
pub struct ExLanguage(tree_sitter::Language);

/// A parsed source text.
#[verifier::external_type_specification]
#[verifier::external_body]
pub struct ExTree(tree_sitter::Tree);

/// A grammar with its compiled highlight query.
#[verifier::external_type_specification]
#[verifier::external_body]
pub struct ExHighlightConfiguration(tree_sitter_highlight::HighlightConfiguration);

/// A node of a syntax tree.
#[derive(Debug)]
pub struct SynNode {
    /// How far below the root it is.
    pub depth: usize,
    pub kind: String,
    /// Its source text, where that is valid text.
    pub text: Option<String>,
    pub start_byte: usize,
    /// Which of its children is its `name` field.
    pub name: Option<usize>,
    /// Which of its children is its `type` field.
    pub type_field: Option<usize>,
    /// Which of its children is its `function` field.
    pub function: Option<usize>,
}

/// The mathematical value of a [`SynNode`].
#[verifier::ext_equal]
pub ghost struct NodeV {
    pub depth: int,
    pub kind: Seq<char>,
    pub text: Option<Seq<char>>,
    pub start_byte: int,
    pub name: Option<int>,
    pub type_field: Option<int>,
    pub function: Option<int>,
}

impl DeepView for SynNode {
    type V = NodeV;

    open spec fn deep_view(&self) -> NodeV {
        NodeV {
            depth: self.depth as int,
            kind: self.kind@,
            text: self.text.deep_view(),
            start_byte: self.start_byte as int,
            name: changes::opt_int(self.name),
            type_field: changes::opt_int(self.type_field),
            function: changes::opt_int(self.function),
        }
    }
}

/// The language that a grammar is for.
pub uninterp spec fn grammar_lang(grammar: tree_sitter::Language) -> Lang;

/// The text that a tree was parsed from.
pub uninterp spec fn tree_text(tree: tree_sitter::Tree) -> Seq<char>;

/// The language that a tree was parsed as.
pub uninterp spec fn tree_lang(tree: tree_sitter::Tree) -> Lang;

/// Whether a text can be parsed as a language.
pub uninterp spec fn parses_v(text: Seq<char>, lang: Lang) -> bool;

/// The nodes of a text's syntax tree, each before its children.
pub uninterp spec fn tree_nodes_v(text: Seq<char>, lang: Lang) -> Seq<NodeV>;

/// The place among the nodes of the smallest node at the start of a row.
pub uninterp spec fn node_at_v(text: Seq<char>, lang: Lang, row: nat) -> Option<int>;

/// The `LANGUAGE` constants of the grammar crates, made a `tree_sitter::Language`: the grammar of
/// each language.
#[verifier::external_body]
fn grammar(lang: Lang) -> (r: tree_sitter::Language)
    ensures
        grammar_lang(r) == lang,
{
    match lang {
        Lang::Rust => tree_sitter_rust::LANGUAGE.into(),
        Lang::JavaScript => tree_sitter_javascript::LANGUAGE.into(),
        Lang::TypeScript => tree_sitter_typescript::LANGUAGE_TYPESCRIPT.into(),
        Lang::Tsx => tree_sitter_typescript::LANGUAGE_TSX.into(),
        Lang::Python => tree_sitter_python::LANGUAGE.into(),
        Lang::Go => tree_sitter_go::LANGUAGE.into(),
        Lang::Java => tree_sitter_java::LANGUAGE.into(),
    }
}

/// `tree_sitter::Parser::parse` after `set_language`: parses a text. Claimed of it: whether it
/// succeeds depends on the text and the grammar alone.
#[verifier::external_body]
fn parse_text(text: &str, grammar: &tree_sitter::Language) -> (r: Option<tree_sitter::Tree>)
    ensures
        r is Some == parses_v(text@, grammar_lang(*grammar)),
        r matches Some(t) ==> tree_text(t) == text@ && tree_lang(t) == grammar_lang(*grammar),
{
    let mut parser = tree_sitter::Parser::new();
    parser.set_language(grammar).ok()?;
    parser.parse(text, None)
}

/// The nodes of a tree in the order of `tree_sitter::TreeCursor::goto_descendant`, each before its
/// children, with its depth, `kind`, `utf8_text`, `start_byte`, and the places among its children
/// of what `child_by_field_name` finds. Claimed of it: they depend on the text and the grammar
/// alone.
#[verifier::external_body]
fn tree_nodes(tree: &tree_sitter::Tree, text: &str) -> (r: Vec<SynNode>)
    requires
        text@ == tree_text(*tree),
    ensures
        r.deep_view() == tree_nodes_v(tree_text(*tree), tree_lang(*tree)),
{
    let mut c = tree.walk();
    (0..tree.root_node().descendant_count()).map(|i| {
        c.goto_descendant(i);
        let (n, depth) = (c.node(), c.depth() as usize);
        let field = |f: &str| n.child_by_field_name(f).and_then(
            |k| (0..n.child_count()).position(|j| n.child(j) == Some(k)));
        let text = n.utf8_text(text.as_bytes()).ok().map(str::to_string);
        SynNode { depth, kind: n.kind().to_string(), text, start_byte: n.start_byte(),
            name: field("name"), type_field: field("type"), function: field("function") }
    }).collect()
}

/// `tree_sitter::Node::descendant_for_point_range` from the root: the smallest node at the start of
/// a row, as its place in the order of the nodes. Claimed of it: it depends on the text, the
/// grammar and the row alone, and is one of the tree's nodes.
#[verifier::external_body]
fn node_at(tree: &tree_sitter::Tree, row: usize) -> (r: Option<usize>)
    ensures
        changes::opt_int(r) == node_at_v(tree_text(*tree), tree_lang(*tree), row as nat),
        r matches Some(i) ==> i < tree_nodes_v(tree_text(*tree), tree_lang(*tree)).len(),
{
    let p = tree_sitter::Point::new(row, 0);
    let found = tree.root_node().descendant_for_point_range(p, p)?;
    let mut c = tree.walk();
    (0..tree.root_node().descendant_count()).position(|i| {
        c.goto_descendant(i);
        c.node() == found
    })
}

// ---- Reading a tree ----

/// The end of the subtree of the node at `i`, looked for from `j` on.
pub open spec fn end_from(nodes: Seq<NodeV>, i: int, j: int) -> int
    decreases nodes.len() - j,
{
    if j >= nodes.len() || nodes[j].depth <= nodes[i].depth {
        j
    } else {
        end_from(nodes, i, j + 1)
    }
}

/// Where the subtree of the node at `i` ends.
pub open spec fn end_v(nodes: Seq<NodeV>, i: int) -> int {
    end_from(nodes, i, i + 1)
}

/// The subtree from `j` on lies deeper than its root, up to its end.
proof fn lemma_end_from(nodes: Seq<NodeV>, i: int, j: int)
    requires
        0 <= i < j <= nodes.len(),
    ensures
        j <= end_from(nodes, i, j) <= nodes.len(),
        forall|k: int|
            j <= k < end_from(nodes, i, j) ==> (#[trigger] nodes[k]).depth > nodes[i].depth,
        end_from(nodes, i, j) < nodes.len() ==> nodes[end_from(nodes, i, j)].depth
            <= nodes[i].depth,
    decreases nodes.len() - j,
{
    if j < nodes.len() && nodes[j].depth > nodes[i].depth {
        lemma_end_from(nodes, i, j + 1);
    }
}

/// A subtree within another ends within it.
proof fn lemma_nested(nodes: Seq<NodeV>, i: int, j: int)
    requires
        0 <= i < j < nodes.len(),
        j < end_v(nodes, i),
    ensures
        end_v(nodes, j) <= end_v(nodes, i),
{
    lemma_end_from(nodes, i, i + 1);
    lemma_end_from(nodes, j, j + 1);
    let e = end_v(nodes, i);
    if end_v(nodes, j) > e {
        assert(nodes[e].depth > nodes[j].depth);
        assert(nodes[j].depth > nodes[i].depth);
    }
}

/// The node whose subtree the node at `i` hangs in directly, looked for from `j` down.
pub open spec fn parent_from(nodes: Seq<NodeV>, depth: int, j: int) -> Option<int>
    decreases j + 1,
{
    if j < 0 {
        None
    } else if nodes[j].depth < depth {
        Some(j)
    } else {
        parent_from(nodes, depth, j - 1)
    }
}

/// The parent of the node at `i`.
pub open spec fn parent_of_v(nodes: Seq<NodeV>, i: int) -> Option<int> {
    parent_from(nodes, nodes[i].depth, i - 1)
}

/// The child at place `n` among those of the node at `i`, looked for from `j` on.
pub open spec fn child_from(nodes: Seq<NodeV>, i: int, j: int, n: int) -> Option<int>
    decreases nodes.len() - j,
{
    if j >= nodes.len() || nodes[j].depth <= nodes[i].depth {
        None
    } else if nodes[j].depth == nodes[i].depth + 1 {
        if n == 0 {
            Some(j)
        } else {
            child_from(nodes, i, j + 1, n - 1)
        }
    } else {
        child_from(nodes, i, j + 1, n)
    }
}

/// The child of the node at `i` at an optional place.
pub open spec fn child_v(nodes: Seq<NodeV>, i: int, place: Option<int>) -> Option<int> {
    match place {
        Some(n) => child_from(nodes, i, i + 1, n),
        None => None,
    }
}

/// The text of the child of the node at `i` at an optional place.
pub open spec fn child_text_v(nodes: Seq<NodeV>, i: int, place: Option<int>) -> Option<Seq<char>> {
    match child_v(nodes, i, place) {
        Some(c) => nodes[c].text,
        None => None,
    }
}

/// The text of the first child of the node at `i`, from `j` on, whose kind has to do with
/// identifiers.
pub open spec fn identifier_child_from(nodes: Seq<NodeV>, i: int, j: int) -> Option<Seq<char>>
    decreases nodes.len() - j,
{
    if j >= nodes.len() || nodes[j].depth <= nodes[i].depth {
        None
    } else if nodes[j].depth == nodes[i].depth + 1 && text::contains_v(nodes[j].kind, "identifier"@)
        && nodes[j].text is Some {
        nodes[j].text
    } else {
        identifier_child_from(nodes, i, j + 1)
    }
}

/// The name of the node at `i`: the text of its `name` field, else of its `type` field (as an
/// `impl` has), else of its first child that has to do with identifiers.
pub open spec fn node_name_v(nodes: Seq<NodeV>, i: int) -> Option<Seq<char>> {
    match child_text_v(nodes, i, nodes[i].name) {
        Some(t) => Some(t),
        None => match child_text_v(nodes, i, nodes[i].type_field) {
            Some(t) => Some(t),
            None => identifier_child_from(nodes, i, i + 1),
        },
    }
}

/// Is the node an identifier with a text?
pub open spec fn is_identifier_v(node: NodeV) -> bool {
    "identifier"@.is_suffix_of(node.kind) && node.text is Some
}

/// A copy of an optional text.
fn copy_text(s: &Option<String>) -> (r: Option<String>)
    ensures
        r.deep_view() == s.deep_view(),
{
    match s {
        Some(t) => Some(t.clone()),
        None => None,
    }
}

/// Is the node an identifier with a text?
fn is_identifier(node: &SynNode) -> (r: bool)
    ensures
        r == is_identifier_v(node.deep_view()),
{
    node.text.is_some() && ends_with(node.kind.as_str(), "identifier")
}

/// The text of the child of the node at `i` at an optional place.
fn child_index(nodes: &Vec<SynNode>, i: usize, place: Option<usize>) -> (r: Option<usize>)
    requires
        i < nodes@.len(),
    ensures
        changes::opt_int(r) == child_v(nodes.deep_view(), i as int, changes::opt_int(place)),
        r matches Some(c) ==> i < c < nodes@.len(),
{
    let ghost ns = nodes.deep_view();
    let mut left: usize = match place {
        Some(n) => n,
        None => {
            return None;
        },
    };
    let total: usize = nodes.len();
    let mut j: usize = i + 1;
    assert(ns[i as int] == nodes@[i as int].deep_view());
    while j < total
        invariant
            i < j <= total == nodes@.len(),
            ns == nodes.deep_view(),
            ns[i as int] == nodes@[i as int].deep_view(),
            child_v(ns, i as int, changes::opt_int(place)) == child_from(
                ns,
                i as int,
                j as int,
                left as int,
            ),
        decreases nodes@.len() - j,
    {
        assert(ns[j as int] == nodes@[j as int].deep_view());
        if nodes[j].depth <= nodes[i].depth {
            return None;
        }
        if nodes[j].depth - 1 == nodes[i].depth {
            if left == 0 {
                return Some(j);
            }
            left = left - 1;
        }
        j = j + 1;
    }
    None
}

/// The text of the child of the node at `i` at an optional place.
fn child_text(nodes: &Vec<SynNode>, i: usize, place: Option<usize>) -> (r: Option<String>)
    requires
        i < nodes@.len(),
    ensures
        r.deep_view() == child_text_v(nodes.deep_view(), i as int, changes::opt_int(place)),
{
    match child_index(nodes, i, place) {
        Some(c) => {
            assert(nodes.deep_view()[c as int] == nodes@[c as int].deep_view());
            copy_text(&nodes[c].text)
        },
        None => None,
    }
}

/// The name of the node at `i`.
pub fn node_name(nodes: &Vec<SynNode>, i: usize) -> (r: Option<String>)
    requires
        i < nodes@.len(),
    ensures
        r.deep_view() == node_name_v(nodes.deep_view(), i as int),
{
    let ghost ns = nodes.deep_view();
    assert(ns[i as int] == nodes@[i as int].deep_view());
    let by_name = child_text(nodes, i, nodes[i].name);
    if by_name.is_some() {
        return by_name;
    }
    let by_type = child_text(nodes, i, nodes[i].type_field);
    if by_type.is_some() {
        return by_type;
    }
    let total: usize = nodes.len();
    let mut j: usize = i + 1;
    while j < total
        invariant
            i < j <= total == nodes@.len(),
            ns == nodes.deep_view(),
            ns[i as int] == nodes@[i as int].deep_view(),
            node_name_v(ns, i as int) == identifier_child_from(ns, i as int, j as int),
        decreases nodes@.len() - j,
    {
        assert(ns[j as int] == nodes@[j as int].deep_view());
        if nodes[j].depth <= nodes[i].depth {
            return None;
        }
        if nodes[j].depth - 1 == nodes[i].depth && nodes[j].text.is_some() && contains(
            nodes[j].kind.as_str(),
            "identifier",
        ) {
            return copy_text(&nodes[j].text);
        }
        j = j + 1;
    }
    None
}

/// Where the subtree of the node at `i` ends.
fn subtree_end(nodes: &Vec<SynNode>, i: usize) -> (r: usize)
    requires
        i < nodes@.len(),
    ensures
        r == end_v(nodes.deep_view(), i as int),
        i < r <= nodes@.len(),
{
    let ghost ns = nodes.deep_view();
    assert(ns[i as int] == nodes@[i as int].deep_view());
    let total: usize = nodes.len();
    let mut j: usize = i + 1;
    while j < total && nodes[j].depth > nodes[i].depth
        invariant
            i < j <= total == nodes@.len(),
            ns == nodes.deep_view(),
            ns[i as int] == nodes@[i as int].deep_view(),
            end_v(ns, i as int) == end_from(ns, i as int, j as int),
        decreases nodes@.len() - j,
    {
        assert(ns[j as int] == nodes@[j as int].deep_view());
        j = j + 1;
    }
    if j < total {
        assert(ns[j as int] == nodes@[j as int].deep_view());
    }
    j
}

/// Where the name of what the call at `i` calls is looked for: in its `function` field, else in its
/// `name` field, else in all of it.
pub open spec fn callee_v(nodes: Seq<NodeV>, i: int) -> int {
    match child_v(nodes, i, nodes[i].function) {
        Some(c) => c,
        None => match child_v(nodes, i, nodes[i].name) {
            Some(c) => c,
            None => i,
        },
    }
}

/// The node at `a` ends before the node at `b` does: it is within it, or wholly before it.
pub open spec fn ends_before(nodes: Seq<NodeV>, a: int, b: int) -> bool {
    (b < a && a < end_v(nodes, b)) || (a < b && b >= end_v(nodes, a))
}

/// The identifier at `a` names a call rather than the one at `b`: it starts further right, or at
/// the same place and ends first.
pub open spec fn rightmost(nodes: Seq<NodeV>, a: int, b: int) -> bool {
    a == b || nodes[a].start_byte > nodes[b].start_byte || (nodes[a].start_byte
        == nodes[b].start_byte && ends_before(nodes, a, b))
}

/// The node at `k` is the identifier that names a call whose callee is the subtree at `c`.
pub open spec fn names_callee(nodes: Seq<NodeV>, c: int, k: int) -> bool {
    c <= k < end_v(nodes, c) && is_identifier_v(nodes[k]) && forall|j: int|
        c <= j < end_v(nodes, c) && is_identifier_v(#[trigger] nodes[j]) ==> rightmost(nodes, k, j)
}

/// The name that the call at `i` calls: the rightmost identifier of its callee (`c` for `a.b.c()`,
/// `method` for `Type::method()`).
pub open spec fn callee_name_v(nodes: Seq<NodeV>, i: int) -> Option<Seq<char>> {
    let c = callee_v(nodes, i);
    if exists|k: int| names_callee(nodes, c, k) {
        nodes[choose|k: int| names_callee(nodes, c, k)].text
    } else {
        None
    }
}

/// At most one identifier names a call.
proof fn lemma_callee_unique(nodes: Seq<NodeV>, c: int, a: int, b: int)
    requires
        0 <= c < nodes.len(),
        names_callee(nodes, c, a),
        names_callee(nodes, c, b),
    ensures
        a == b,
{
    lemma_end_from(nodes, c, c + 1);
    assert(rightmost(nodes, a, b));
    assert(rightmost(nodes, b, a));
    lemma_end_from(nodes, a, a + 1);
    lemma_end_from(nodes, b, b + 1);
}

/// The name that the call at `i` calls.
pub fn callee_name(nodes: &Vec<SynNode>, i: usize) -> (r: Option<String>)
    requires
        i < nodes@.len(),
    ensures
        r.deep_view() == callee_name_v(nodes.deep_view(), i as int),
{
    let ghost ns = nodes.deep_view();
    assert(ns[i as int] == nodes@[i as int].deep_view());
    let c: usize = match child_index(nodes, i, nodes[i].function) {
        Some(c) => c,
        None => match child_index(nodes, i, nodes[i].name) {
            Some(c) => c,
            None => i,
        },
    };
    let end: usize = subtree_end(nodes, c);
    let mut best: Option<usize> = None;
    let mut best_end: usize = 0;
    let mut k: usize = c;
    while k < end
        invariant
            c <= k <= end <= nodes@.len(),
            c < nodes@.len(),
            ns == nodes.deep_view(),
            end == end_v(ns, c as int),
            match best {
                Some(b) => c <= b < k && is_identifier_v(ns[b as int]) && best_end == end_v(
                    ns,
                    b as int,
                ),
                None => true,
            },
            forall|j: int|
                c <= j < k && is_identifier_v(#[trigger] ns[j]) ==> (match best {
                    Some(b) => rightmost(ns, b as int, j),
                    None => false,
                }),
        decreases end - k,
    {
        assert(ns[k as int] == nodes@[k as int].deep_view());
        if is_identifier(&nodes[k]) {
            let better: bool = match best {
                None => true,
                Some(b) => {
                    assert(ns[b as int] == nodes@[b as int].deep_view());
                    nodes[k].start_byte > nodes[b].start_byte || (nodes[k].start_byte
                        == nodes[b].start_byte && k < best_end)
                },
            };
            let ghost before = best;
            if better {
                best = Some(k);
                best_end = subtree_end(nodes, k);
                proof {
                    assert forall|j: int|
                        c <= j < k + 1 && is_identifier_v(#[trigger] ns[j]) implies rightmost(
                        ns,
                        k as int,
                        j,
                    ) by {
                        if j < k {
                            let b = before->0;
                            assert(rightmost(ns, b as int, j));
                            if ns[k as int].start_byte == ns[j].start_byte {
                                if j < b {
                                    lemma_nested(ns, j, b as int);
                                }
                            }
                        }
                    }
                }
            }
        }
        k = k + 1;
    }
    match best {
        Some(b) => {
            proof {
                assert(names_callee(ns, c as int, b as int));
                let x = choose|k: int| names_callee(ns, c as int, k);
                lemma_callee_unique(ns, c as int, b as int, x);
                assert(ns[b as int] == nodes@[b as int].deep_view());
            }
            copy_text(&nodes[b].text)
        },
        None => {
            assert forall|k: int| !names_callee(ns, c as int, k) by {
                if names_callee(ns, c as int, k) {
                    assert(is_identifier_v(ns[k]));
                }
            }
            None
        },
    }
}

// ---- Labels of hunks ----

/// The name and kind of the node at `i`, where it labels hunks.
pub open spec fn label_part_v(nodes: Seq<NodeV>, lang: Lang, i: int) -> Option<
    (Seq<char>, Seq<char>),
> {
    if lang.is_context_v(nodes[i].kind) {
        match node_name_v(nodes, i) {
            Some(name) => Some((name, nodes[i].kind)),
            None => None,
        }
    } else {
        None
    }
}

/// A parent stands before its children.
pub proof fn lemma_parent_before(nodes: Seq<NodeV>, depth: int, j: int)
    ensures
        parent_from(nodes, depth, j) matches Some(p) ==> 0 <= p <= j,
    decreases j + 1,
{
    if j >= 0 && nodes[j].depth >= depth {
        lemma_parent_before(nodes, depth, j - 1);
    }
}

/// The names and kinds that label a hunk at the node at `i`, from the inside out: of it and the
/// nodes around it, at most `limit`.
pub open spec fn label_chain_v(nodes: Seq<NodeV>, lang: Lang, i: int, limit: nat) -> Seq<
    (Seq<char>, Seq<char>),
>
    decreases i + 1,
{
    if i < 0 || i >= nodes.len() || limit == 0 {
        Seq::empty()
    } else {
        proof {
            lemma_parent_before(nodes, nodes[i].depth, i - 1);
        }
        let here = label_part_v(nodes, lang, i);
        let left = if here is Some {
            (limit - 1) as nat
        } else {
            limit
        };
        let rest = match parent_of_v(nodes, i) {
            Some(p) => label_chain_v(nodes, lang, p, left),
            None => Seq::empty(),
        };
        match here {
            Some(part) => seq![part] + rest,
            None => rest,
        }
    }
}

/// The label of a chain of names and kinds: the outermost kind's word, and the names from the
/// outside in.
pub open spec fn label_v(chain: Seq<(Seq<char>, Seq<char>)>) -> Option<Seq<char>> {
    if chain.len() == 0 {
        None
    } else {
        let outer = chain.reverse();
        let names = text::join_v(outer.map_values(|p: (Seq<char>, Seq<char>)| p.0), "::"@);
        let word = kind_keyword_v(outer[0].1);
        Some(
            if word.len() == 0 {
                names
            } else {
                word + " "@ + names
            },
        )
    }
}

/// The label of a hunk at a row: `impl Store::refresh`.
pub open spec fn context_at_v(
    nodes: Seq<NodeV>,
    lang: Lang,
    at: Option<int>,
) -> Option<Seq<char>> {
    match at {
        Some(i) => label_v(label_chain_v(nodes, lang, i, 3)),
        None => None,
    }
}

/// The parent of the node at `i`.
fn parent_of(nodes: &Vec<SynNode>, i: usize) -> (r: Option<usize>)
    requires
        i < nodes@.len(),
    ensures
        changes::opt_int(r) == parent_of_v(nodes.deep_view(), i as int),
        r matches Some(p) ==> p < i,
{
    let ghost ns = nodes.deep_view();
    assert(ns[i as int] == nodes@[i as int].deep_view());
    let depth: usize = nodes[i].depth;
    let mut j: usize = i;
    while j > 0
        invariant
            j <= i < nodes@.len(),
            ns == nodes.deep_view(),
            parent_of_v(ns, i as int) == parent_from(ns, depth as int, j - 1),
        decreases j,
    {
        assert(ns[j - 1] == nodes@[j - 1].deep_view());
        if nodes[j - 1].depth < depth {
            return Some(j - 1);
        }
        j = j - 1;
    }
    None
}

/// The label of a hunk at the node at `at`.
pub fn context_at(nodes: &Vec<SynNode>, lang: Lang, at: Option<usize>) -> (r: Option<String>)
    requires
        at matches Some(i) ==> i < nodes@.len(),
    ensures
        r.deep_view() == context_at_v(nodes.deep_view(), lang, changes::opt_int(at)),
{
    let ghost ns = nodes.deep_view();
    let start: usize = match at {
        Some(i) => i,
        None => {
            return None;
        },
    };
    let ghost all = label_chain_v(ns, lang, start as int, 3);
    let mut names: Vec<String> = Vec::new();
    let mut outer_kind: usize = start;
    let mut cursor: Option<usize> = Some(start);
    let ghost mut chain: Seq<(Seq<char>, Seq<char>)> = Seq::empty();
    assert(chain + all =~= all);
    loop
        invariant_except_break
            ns == nodes.deep_view(),
            start < nodes@.len(),
            outer_kind < nodes@.len(),
            chain.len() == names@.len() <= 3,
            names.deep_view() =~= chain.map_values(|p: (Seq<char>, Seq<char>)| p.0),
            chain.len() > 0 ==> chain.last().1 == ns[outer_kind as int].kind,
            cursor matches Some(i) ==> i < nodes@.len(),
            all =~= chain + (match cursor {
                Some(i) => label_chain_v(ns, lang, i as int, (3 - chain.len()) as nat),
                None => Seq::empty(),
            }),
        ensures
            ns == nodes.deep_view(),
            outer_kind < nodes@.len(),
            chain.len() == names@.len() <= 3,
            names.deep_view() =~= chain.map_values(|p: (Seq<char>, Seq<char>)| p.0),
            chain.len() > 0 ==> chain.last().1 == ns[outer_kind as int].kind,
            all =~= chain,
        decreases (match cursor {
            Some(i) => i + 1,
            None => 0int,
        }),
    {
        let i: usize = match cursor {
            Some(i) => i,
            None => {
                break;
            },
        };
        if names.len() >= 3 {
            break;
        }
        assert(ns[i as int] == nodes@[i as int].deep_view());
        let ghost limit = (3 - chain.len()) as nat;
        let ghost before = chain;
        if lang.is_context(nodes[i].kind.as_str()) {
            let found = node_name(nodes, i);
            if let Some(name) = found {
                assert(node_name_v(ns, i as int) == Some(name@));
                let ghost was = names.deep_view();
                proof {
                    chain = chain.push((name@, ns[i as int].kind));
                }
                names.push(name);
                assert(names.deep_view() =~= was.push(name@));
                assert(chain.map_values(|p: (Seq<char>, Seq<char>)| p.0) =~= before.map_values(
                    |p: (Seq<char>, Seq<char>)| p.0,
                ).push(name@));
                outer_kind = i;
            }
        }
        let ghost here = label_part_v(ns, lang, i as int);
        assert(chain =~= match here {
            Some(part) => before.push(part),
            None => before,
        });
        let up = parent_of(nodes, i);
        assert(label_chain_v(ns, lang, i as int, limit) =~= (match here {
            Some(part) => seq![part],
            None => Seq::empty(),
        }) + (match up {
            Some(p) => label_chain_v(ns, lang, p as int, (3 - chain.len()) as nat),
            None => Seq::empty(),
        }));
        cursor = up;
    }
    if names.len() == 0 {
        return None;
    }
    assert(ns[outer_kind as int] == nodes@[outer_kind as int].deep_view());
    let outer = reversed(&names);
    proof {
        let f = |p: (Seq<char>, Seq<char>)| p.0;
        assert(outer.deep_view() =~= all.reverse().map_values(f));
        assert(all.reverse()[0] == all.last());
    }
    let joined = join(outer.as_slice(), "::");
    let word = kind_keyword(nodes[outer_kind].kind.as_str());
    if word.is_empty() {
        Some(joined)
    } else {
        let mut s = word.to_owned();
        s.append(" ");
        s.append(joined.as_str());
        Some(s)
    }
}

/// The texts in reverse order.
fn reversed(list: &Vec<String>) -> (r: Vec<String>)
    ensures
        r.deep_view() == list.deep_view().reverse(),
{
    let ghost want = list.deep_view().reverse();
    let mut out: Vec<String> = Vec::new();
    let mut i: usize = list.len();
    while i > 0
        invariant
            i <= list@.len(),
            want == list.deep_view().reverse(),
            want.len() == list@.len(),
            out.deep_view() =~= want.take(list@.len() - i),
        decreases i,
    {
        let ghost before = out.deep_view();
        i = i - 1;
        let s = list[i].clone();
        assert(want[list@.len() - 1 - i] == s@);
        out.push(s);
        assert(out.deep_view() =~= before.push(s@));
    }
    assert(want.take(list@.len() as int) =~= want);
    out
}

// ---- Facts that relate files ----

/// The symbols that a file defines, and the identifiers that it uses, calls and imports.
#[derive(Debug)]
pub struct FileFacts {
    /// Sorted, each once.
    pub defines: Vec<String>,
    pub uses: Vec<String>,
    pub calls: Vec<String>,
    pub imports: Vec<String>,
}

/// The mathematical value of a [`FileFacts`].
#[verifier::ext_equal]
pub ghost struct FactsV {
    pub defines: Seq<Seq<char>>,
    pub uses: Set<Seq<char>>,
    pub calls: Set<Seq<char>>,
    pub imports: Set<Seq<char>>,
}

impl DeepView for FileFacts {
    type V = FactsV;

    open spec fn deep_view(&self) -> FactsV {
        FactsV {
            defines: self.defines.deep_view(),
            uses: self.uses.deep_view().to_set(),
            calls: self.calls.deep_view().to_set(),
            imports: self.imports.deep_view().to_set(),
        }
    }
}

/// No facts.
pub open spec fn no_facts_v() -> FactsV {
    FactsV {
        defines: Seq::empty(),
        uses: Set::empty(),
        calls: Set::empty(),
        imports: Set::empty(),
    }
}

impl Default for FileFacts {
    fn default() -> (r: Self)
        ensures
            r.deep_view() == no_facts_v(),
    {
        let r = FileFacts {
            defines: Vec::new(),
            uses: Vec::new(),
            calls: Vec::new(),
            imports: Vec::new(),
        };
        assert(r.defines.deep_view() =~= Seq::empty());
        assert(r.uses.deep_view().to_set() =~= Set::empty());
        assert(r.calls.deep_view().to_set() =~= Set::empty());
        assert(r.imports.deep_view().to_set() =~= Set::empty());
        r
    }
}

/// How a related file refers to another.
#[derive(Clone, Copy, PartialEq, Eq, Debug, Structural)]
pub enum Verb {
    Calls,
    Imports,
    References,
}

impl Verb {
    /// The word for a verb.
    pub open spec fn label_v(self) -> Seq<char> {
        match self {
            Verb::Calls => "calls"@,
            Verb::Imports => "imports"@,
            Verb::References => "references"@,
        }
    }

    pub fn label(self) -> (r: &'static str)
        ensures
            r@ == self.label_v(),
    {
        match self {
            Verb::Calls => "calls",
            Verb::Imports => "imports",
            Verb::References => "references",
        }
    }
}

/// The names that the first `k` nodes define, in order.
pub open spec fn defined_v(nodes: Seq<NodeV>, lang: Lang, k: nat) -> Seq<Seq<char>>
    decreases k,
{
    if k == 0 {
        Seq::empty()
    } else {
        let before = defined_v(nodes, lang, (k - 1) as nat);
        if lang.is_definition_v(nodes[k - 1].kind) {
            match node_name_v(nodes, k - 1) {
                Some(name) => before.push(name),
                None => before,
            }
        } else {
            before
        }
    }
}

/// The first `k` nodes use the identifier `t`.
pub open spec fn uses_v(nodes: Seq<NodeV>, k: int, t: Seq<char>) -> bool {
    exists|i: int|
        0 <= i < k && is_identifier_v(#[trigger] nodes[i]) && nodes[i].text == Some(t)
}

/// The node at `i` calls `t`.
pub open spec fn node_calls(nodes: Seq<NodeV>, lang: Lang, i: int, t: Seq<char>) -> bool {
    lang.is_call_v(nodes[i].kind) && callee_name_v(nodes, i) == Some(t)
}

/// One of the first `k` nodes calls `t`.
pub open spec fn calls_v(nodes: Seq<NodeV>, lang: Lang, k: int, t: Seq<char>) -> bool {
    exists|i: int| 0 <= i < k && #[trigger] node_calls(nodes, lang, i, t)
}

/// The node at `i` imports `t`: the identifier occurs in it.
pub open spec fn node_imports(nodes: Seq<NodeV>, lang: Lang, i: int, t: Seq<char>) -> bool {
    lang.is_import_v(nodes[i].kind) && exists|j: int|
        i <= j < end_v(nodes, i) && is_identifier_v(#[trigger] nodes[j]) && nodes[j].text == Some(t)
}

/// One of the first `k` nodes imports `t`.
pub open spec fn imports_v(nodes: Seq<NodeV>, lang: Lang, k: int, t: Seq<char>) -> bool {
    exists|i: int| 0 <= i < k && #[trigger] node_imports(nodes, lang, i, t)
}

/// Texts without those that equal the one before them.
pub open spec fn dedup_v(list: Seq<Seq<char>>) -> Seq<Seq<char>>
    decreases list.len(),
{
    if list.len() <= 1 {
        list
    } else if list.last() == list[list.len() - 2] {
        dedup_v(list.drop_last())
    } else {
        dedup_v(list.drop_last()).push(list.last())
    }
}

/// The sort keys of texts.
pub open spec fn text_keys_v(list: Seq<Seq<char>>) -> Seq<Seq<u64>> {
    list.map_values(|t: Seq<char>| path::text_key_v(t))
}

/// Texts, sorted, each once.
pub open spec fn sorted_once_v(list: Seq<Seq<char>>) -> Seq<Seq<char>> {
    dedup_v(crate::group::pick_v(list, order::sort_v(order::upto(list.len()), text_keys_v(list))))
}

/// The facts of a syntax tree.
pub open spec fn facts_v(nodes: Seq<NodeV>, lang: Lang) -> FactsV {
    let n = nodes.len() as int;
    FactsV {
        defines: sorted_once_v(defined_v(nodes, lang, nodes.len())),
        uses: Set::new(|t: Seq<char>| uses_v(nodes, n, t)),
        calls: Set::new(|t: Seq<char>| calls_v(nodes, lang, n, t)),
        imports: Set::new(|t: Seq<char>| imports_v(nodes, lang, n, t)),
    }
}

/// The facts of a text in a language: none where it cannot be parsed.
pub open spec fn analyze_v(text: Seq<char>, lang: Lang) -> FactsV {
    if parses_v(text, lang) {
        facts_v(tree_nodes_v(text, lang), lang)
    } else {
        no_facts_v()
    }
}

/// Texts without those that equal the one before them.
fn dedup(list: &Vec<String>) -> (r: Vec<String>)
    ensures
        r.deep_view() == dedup_v(list.deep_view()),
{
    let ghost all = list.deep_view();
    let mut out: Vec<String> = Vec::new();
    let mut i: usize = 0;
    assert(out.deep_view() =~= dedup_v(all.take(0)));
    while i < list.len()
        invariant
            i <= list@.len(),
            all == list.deep_view(),
            out.deep_view() == dedup_v(all.take(i as int)),
        decreases list@.len() - i,
    {
        let ghost before = out.deep_view();
        let ghost next = all.take(i + 1);
        assert(next.drop_last() =~= all.take(i as int));
        assert(all[i as int] == list@[i as int]@);
        if i > 0 {
            assert(all[i - 1] == list@[i - 1]@);
            assert(next[next.len() - 2] == all[i - 1]);
        }
        if i == 0 || !same(list[i].as_str(), list[i - 1].as_str()) {
            let s = list[i].clone();
            out.push(s);
            assert(out.deep_view() =~= before.push(s@));
            if i == 0 {
                assert(next =~= before.push(s@));
            }
        }
        i = i + 1;
    }
    assert(all.take(all.len() as int) =~= all);
    out
}

/// Texts, sorted, each once.
pub fn sorted_once(list: &Vec<String>) -> (r: Vec<String>)
    ensures
        r.deep_view() == sorted_once_v(list.deep_view()),
{
    let ghost all = list.deep_view();
    let mut keys: Vec<Vec<u64>> = Vec::new();
    let mut i: usize = 0;
    while i < list.len()
        invariant
            i <= list@.len(),
            all == list.deep_view(),
            keys@.len() == i,
            keys.deep_view() =~= text_keys_v(all).take(i as int),
        decreases list@.len() - i,
    {
        let ghost before = keys.deep_view();
        assert(all[i as int] == list@[i as int]@);
        let mut key: Vec<u64> = Vec::new();
        push_text_key(&mut key, list[i].as_str());
        assert(key@ =~= text_keys_v(all)[i as int]);
        assert(key.deep_view() =~= key@);
        keys.push(key);
        assert(keys.deep_view() =~= before.push(text_keys_v(all)[i as int]));
        i = i + 1;
    }
    assert(text_keys_v(all).take(all.len() as int) =~= text_keys_v(all));
    let items = indices(list.len());
    let order = sort_by_keys(&items, &keys);
    let mut sorted: Vec<String> = Vec::new();
    let mut k: usize = 0;
    while k < order.len()
        invariant
            k <= order@.len(),
            all == list.deep_view(),
            crate::order::keyed(order@, list@.len()),
            sorted.deep_view() =~= crate::group::pick_v(all, order@).take(k as int),
        decreases order@.len() - k,
    {
        let ghost before = sorted.deep_view();
        assert(order@[k as int] < list@.len());
        let s = list[order[k]].clone();
        assert(all[order@[k as int] as int] == list@[order@[k as int] as int]@);
        sorted.push(s);
        assert(sorted.deep_view() =~= before.push(s@));
        k = k + 1;
    }
    assert(crate::group::pick_v(all, order@).take(order@.len() as int) =~= crate::group::pick_v(
        all,
        order@,
    ));
    dedup(&sorted)
}

/// Appends a text to `list`.
fn push_name(list: &mut Vec<String>, name: String)
    ensures
        final(list).deep_view() == old(list).deep_view().push(name@),
        final(list).deep_view().to_set() == old(list).deep_view().to_set().insert(name@),
{
    list.push(name);
    assert(list.deep_view() =~= old(list).deep_view().push(name@));
    proof {
        old(list).deep_view().lemma_push_to_set_commute(name@);
    }
}

/// Adds the identifiers from `start` to `end` to `out`.
fn collect_identifiers(nodes: &Vec<SynNode>, start: usize, end: usize, out: &mut Vec<String>)
    requires
        start <= end <= nodes@.len(),
    ensures
        forall|t: Seq<char>| #[trigger]
            final(out).deep_view().to_set().contains(t) <==> (old(
                out,
            ).deep_view().to_set().contains(t) || exists|j: int|
                start <= j < end && is_identifier_v(#[trigger] nodes.deep_view()[j])
                    && nodes.deep_view()[j].text == Some(t)),
{
    let ghost ns = nodes.deep_view();
    let mut j: usize = start;
    while j < end
        invariant
            start <= j <= end <= nodes@.len(),
            ns == nodes.deep_view(),
            forall|t: Seq<char>| #[trigger]
                out.deep_view().to_set().contains(t) <==> (old(out).deep_view().to_set().contains(t)
                    || exists|i: int|
                    start <= i < j && is_identifier_v(#[trigger] ns[i]) && ns[i].text == Some(t)),
        decreases end - j,
    {
        let ghost before = out.deep_view().to_set();
        assert(ns[j as int] == nodes@[j as int].deep_view());
        if is_identifier(&nodes[j]) {
            if let Some(t) = &nodes[j].text {
                push_name(out, t.clone());
                assert(ns[j as int].text == Some(t@));
            }
        }
        assert forall|t: Seq<char>| #[trigger]
            out.deep_view().to_set().contains(t) <==> (old(out).deep_view().to_set().contains(t)
                || exists|i: int|
                start <= i < j + 1 && is_identifier_v(#[trigger] ns[i]) && ns[i].text == Some(
                    t,
                )) by {
            if before.contains(t) && !old(out).deep_view().to_set().contains(t) {
                let i = choose|i: int|
                    start <= i < j && is_identifier_v(#[trigger] ns[i]) && ns[i].text == Some(t);
                assert(is_identifier_v(ns[i]));
            }
            if is_identifier_v(ns[j as int]) && ns[j as int].text == Some(t) {
                assert(out.deep_view().to_set().contains(t));
            }
        }
        j = j + 1;
    }
}

/// Adds the facts of the node at `i` to `facts`.
fn walk_node(nodes: &Vec<SynNode>, lang: Lang, i: usize, facts: &mut FileFacts)
    requires
        i < nodes@.len(),
        old(facts).defines.deep_view() == defined_v(nodes.deep_view(), lang, i as nat),
        forall|t: Seq<char>| #[trigger]
            old(facts).uses.deep_view().to_set().contains(t) <==> uses_v(
                nodes.deep_view(),
                i as int,
                t,
            ),
        forall|t: Seq<char>| #[trigger]
            old(facts).calls.deep_view().to_set().contains(t) <==> calls_v(
                nodes.deep_view(),
                lang,
                i as int,
                t,
            ),
        forall|t: Seq<char>| #[trigger]
            old(facts).imports.deep_view().to_set().contains(t) <==> imports_v(
                nodes.deep_view(),
                lang,
                i as int,
                t,
            ),
    ensures
        final(facts).defines.deep_view() == defined_v(nodes.deep_view(), lang, (i + 1) as nat),
        forall|t: Seq<char>| #[trigger]
            final(facts).uses.deep_view().to_set().contains(t) <==> uses_v(
                nodes.deep_view(),
                i + 1,
                t,
            ),
        forall|t: Seq<char>| #[trigger]
            final(facts).calls.deep_view().to_set().contains(t) <==> calls_v(
                nodes.deep_view(),
                lang,
                i + 1,
                t,
            ),
        forall|t: Seq<char>| #[trigger]
            final(facts).imports.deep_view().to_set().contains(t) <==> imports_v(
                nodes.deep_view(),
                lang,
                i + 1,
                t,
            ),
{
    let ghost ns = nodes.deep_view();
    let ghost uses0 = facts.uses.deep_view().to_set();
    let ghost calls0 = facts.calls.deep_view().to_set();
    let ghost imports0 = facts.imports.deep_view().to_set();
    assert(ns[i as int] == nodes@[i as int].deep_view());
    let kind: &str = nodes[i].kind.as_str();
    if lang.is_definition(kind) {
        let found = node_name(nodes, i);
        if let Some(name) = found {
            assert(node_name_v(ns, i as int) == Some(name@));
            push_name(&mut facts.defines, name);
        }
    }
    if is_identifier(&nodes[i]) {
        if let Some(t) = &nodes[i].text {
            push_name(&mut facts.uses, t.clone());
            assert(ns[i as int].text == Some(t@));
        }
    }
    assert forall|t: Seq<char>| #[trigger]
        facts.uses.deep_view().to_set().contains(t) <==> uses_v(ns, i + 1, t) by {
        if uses0.contains(t) {
            let j = choose|j: int|
                0 <= j < i && is_identifier_v(#[trigger] ns[j]) && ns[j].text == Some(t);
            assert(is_identifier_v(ns[j]));
        }
        if is_identifier_v(ns[i as int]) && ns[i as int].text == Some(t) {
            assert(uses_v(ns, i + 1, t));
        }
    }
    if lang.is_call(kind) {
        let found = callee_name(nodes, i);
        if let Some(name) = found {
            assert(callee_name_v(ns, i as int) == Some(name@));
            push_name(&mut facts.calls, name);
        }
    }
    assert forall|t: Seq<char>| #[trigger]
        facts.calls.deep_view().to_set().contains(t) <==> calls_v(ns, lang, i + 1, t) by {
        if calls0.contains(t) {
            let j = choose|j: int| 0 <= j < i && #[trigger] node_calls(ns, lang, j, t);
            assert(node_calls(ns, lang, j, t));
        }
        if node_calls(ns, lang, i as int, t) {
            assert(calls_v(ns, lang, i + 1, t));
        }
    }
    if lang.is_import(kind) {
        let end: usize = subtree_end(nodes, i);
        collect_identifiers(nodes, i, end, &mut facts.imports);
    }
    assert forall|t: Seq<char>| #[trigger]
        facts.imports.deep_view().to_set().contains(t) <==> imports_v(ns, lang, i + 1, t) by {
        if imports0.contains(t) {
            let j = choose|j: int| 0 <= j < i && #[trigger] node_imports(ns, lang, j, t);
            assert(node_imports(ns, lang, j, t));
        }
        if node_imports(ns, lang, i as int, t) {
            assert(imports_v(ns, lang, i + 1, t));
        }
        if facts.imports.deep_view().to_set().contains(t) && !imports0.contains(t) {
            assert(node_imports(ns, lang, i as int, t));
        }
    }
}

/// The facts of a syntax tree.
pub fn walk_facts(nodes: &Vec<SynNode>, lang: Lang) -> (r: FileFacts)
    ensures
        r.deep_view() == facts_v(nodes.deep_view(), lang),
{
    let ghost ns = nodes.deep_view();
    let mut facts = FileFacts::default();
    let mut i: usize = 0;
    while i < nodes.len()
        invariant
            i <= nodes@.len(),
            ns == nodes.deep_view(),
            facts.defines.deep_view() == defined_v(ns, lang, i as nat),
            forall|t: Seq<char>| #[trigger]
                facts.uses.deep_view().to_set().contains(t) <==> uses_v(ns, i as int, t),
            forall|t: Seq<char>| #[trigger]
                facts.calls.deep_view().to_set().contains(t) <==> calls_v(ns, lang, i as int, t),
            forall|t: Seq<char>| #[trigger]
                facts.imports.deep_view().to_set().contains(t) <==> imports_v(
                    ns,
                    lang,
                    i as int,
                    t,
                ),
        decreases nodes@.len() - i,
    {
        walk_node(nodes, lang, i, &mut facts);
        i = i + 1;
    }
    let defines = sorted_once(&facts.defines);
    facts.defines = defines;
    proof {
        let want = facts_v(ns, lang);
        assert(facts.uses.deep_view().to_set() =~= want.uses);
        assert(facts.calls.deep_view().to_set() =~= want.calls);
        assert(facts.imports.deep_view().to_set() =~= want.imports);
    }
    facts
}

// ---- Highlighting ----

/// What a highlighter says of a text, piece by piece.
#[derive(Debug)]
pub enum HlEvent {
    /// What follows is in the style with this number, until its end.
    Start(usize),
    End,
    /// A piece of the text.
    Source(String),
}

/// The mathematical value of a [`HlEvent`].
#[verifier::ext_equal]
pub ghost enum EventV {
    Start(int),
    End,
    Source(Seq<char>),
}

impl DeepView for HlEvent {
    type V = EventV;

    open spec fn deep_view(&self) -> EventV {
        match self {
            HlEvent::Start(n) => EventV::Start(*n as int),
            HlEvent::End => EventV::End,
            HlEvent::Source(s) => EventV::Source(s@),
        }
    }
}

/// The pieces of the text, one after the other.
pub open spec fn sources_v(events: Seq<EventV>) -> Seq<char>
    decreases events.len(),
{
    if events.len() == 0 {
        Seq::empty()
    } else {
        sources_v(events.drop_last()) + (match events.last() {
            EventV::Source(s) => s,
            _ => Seq::empty(),
        })
    }
}

/// The language of a highlight configuration.
pub uninterp spec fn config_lang(
    config: tree_sitter_highlight::HighlightConfiguration,
) -> Lang;

/// The names that a highlight configuration recognizes.
pub uninterp spec fn config_names(
    config: tree_sitter_highlight::HighlightConfiguration,
) -> Seq<Seq<char>>;

/// Whether the highlight query of a language compiles.
pub uninterp spec fn query_compiles_v(lang: Lang) -> bool;

/// What a highlighter says of a text in a language; nothing where it fails.
pub uninterp spec fn highlight_events_v(
    text: Seq<char>,
    lang: Lang,
    names: Seq<Seq<char>>,
) -> Option<Seq<EventV>>;

/// `tree_sitter_highlight::HighlightConfiguration::new` with the highlight query of the grammar's
/// crate, and `configure` with the names to recognize. Claimed of it: whether it succeeds depends
/// on the language alone.
#[verifier::external_body]
fn build_config(lang: Lang, grammar: tree_sitter::Language, names: &Vec<String>) -> (r: Option<
    tree_sitter_highlight::HighlightConfiguration,
>)
    requires
        grammar_lang(grammar) == lang,
    ensures
        r is Some == query_compiles_v(lang),
        r matches Some(c) ==> config_lang(c) == lang && config_names(c) == names.deep_view(),
{
    let query = match lang {
        Lang::Rust => tree_sitter_rust::HIGHLIGHTS_QUERY,
        Lang::JavaScript => tree_sitter_javascript::HIGHLIGHT_QUERY,
        Lang::TypeScript => tree_sitter_typescript::HIGHLIGHTS_QUERY,
        Lang::Tsx => tree_sitter_typescript::HIGHLIGHTS_QUERY,
        Lang::Python => tree_sitter_python::HIGHLIGHTS_QUERY,
        Lang::Go => tree_sitter_go::HIGHLIGHTS_QUERY,
        Lang::Java => tree_sitter_java::HIGHLIGHTS_QUERY,
    };
    let new = tree_sitter_highlight::HighlightConfiguration::new;
    let mut config = new(grammar, "", query, "", "").ok()?;
    config.configure(names.as_slice());
    Some(config)
}

/// `tree_sitter_highlight::Highlighter::highlight`: the events of a text, with the source ranges
/// as the text that they cover; `None` where it, or one of its events, is an error. Claimed of it:
/// it depends on the text, the language and the recognized names alone; and the source ranges
/// follow one another and cover the text.
#[verifier::external_body]
fn highlight_events(
    config: &tree_sitter_highlight::HighlightConfiguration,
    text: &str,
) -> (r: Option<Vec<HlEvent>>)
    ensures
        r.deep_view() == highlight_events_v(text@, config_lang(*config), config_names(*config)),
        r matches Some(events) ==> sources_v(events.deep_view()) == text@,
{
    let mut highlighter = tree_sitter_highlight::Highlighter::new();
    let events = highlighter.highlight(config, text.as_bytes(), None, None, |_| None).ok()?;
    events.map(|e| e.ok().map(|e| match e {
        tree_sitter_highlight::HighlightEvent::HighlightStart(h) => HlEvent::Start(h.0),
        tree_sitter_highlight::HighlightEvent::HighlightEnd => HlEvent::End,
        tree_sitter_highlight::HighlightEvent::Source { start, end } => {
            HlEvent::Source(text[start..end].to_string())
        },
    })).collect()
}

/// The names that are recognized; a query's `function.method` counts as `function`, the longest
/// that fits.
pub open spec fn highlight_names_v() -> Seq<Seq<char>> {
    seq!["attribute"@,
        "comment"@,
        "constant"@,
        "constructor"@,
        "escape"@,
        "function"@,
        "keyword"@,
        "label"@,
        "module"@,
        "number"@,
        "operator"@,
        "property"@,
        "punctuation"@,
        "string"@,
        "string.special"@,
        "tag"@,
        "type"@,
        "variable"@]
}

/// Appends a text to `list`.
fn push_word(list: &mut Vec<String>, name: &str)
    ensures
        final(list).deep_view() == old(list).deep_view().push(name@),
{
    list.push(name.to_owned());
    assert(list.deep_view() =~= old(list).deep_view().push(name@));
}

/// The names that are recognized.
fn highlight_names() -> (r: Vec<String>)
    ensures
        r.deep_view() == highlight_names_v(),
{
    let mut out: Vec<String> = Vec::new();
    assert(out.deep_view() =~= Seq::empty());
    push_word(&mut out, "attribute");
    push_word(&mut out, "comment");
    push_word(&mut out, "constant");
    push_word(&mut out, "constructor");
    push_word(&mut out, "escape");
    push_word(&mut out, "function");
    push_word(&mut out, "keyword");
    push_word(&mut out, "label");
    push_word(&mut out, "module");
    push_word(&mut out, "number");
    push_word(&mut out, "operator");
    push_word(&mut out, "property");
    push_word(&mut out, "punctuation");
    push_word(&mut out, "string");
    push_word(&mut out, "string.special");
    push_word(&mut out, "tag");
    push_word(&mut out, "type");
    push_word(&mut out, "variable");
    out
}

impl DeepView for Style {
    type V = Style;

    open spec fn deep_view(&self) -> Style {
        *self
    }
}

/// Lines of segments, and the styles that are open.
#[verifier::ext_equal]
pub ghost struct PaintV {
    pub lines: Seq<Seq<(Seq<char>, Style)>>,
    pub open: Seq<Style>,
}

/// The style that text is in.
pub open spec fn current_v(open: Seq<Style>) -> Style {
    if open.len() > 0 {
        open.last()
    } else {
        style::plain_v()
    }
}

/// Lines with a text added to the last of them.
pub open spec fn add_text_v(
    lines: Seq<Seq<(Seq<char>, Style)>>,
    text: Seq<char>,
    style: Style,
) -> Seq<Seq<(Seq<char>, Style)>> {
    if text.len() == 0 || lines.len() == 0 {
        lines
    } else {
        lines.drop_last().push(lines.last().push((text, style)))
    }
}

/// Lines with the first `k` parts of a text added, each part but the first on a new line.
pub open spec fn add_parts_v(
    lines: Seq<Seq<(Seq<char>, Style)>>,
    parts: Seq<Seq<char>>,
    style: Style,
    k: nat,
) -> Seq<Seq<(Seq<char>, Style)>>
    decreases k,
{
    if k == 0 {
        lines
    } else {
        let before = add_parts_v(lines, parts, style, (k - 1) as nat);
        add_text_v(
            if k > 1 {
                before.push(Seq::empty())
            } else {
                before
            },
            parts[k - 1],
            style,
        )
    }
}

/// What an event does.
pub open spec fn paint_event_v(p: PaintV, e: EventV, styles: Seq<Style>) -> PaintV {
    match e {
        EventV::Start(n) => PaintV {
            lines: p.lines,
            open: p.open.push(
                if 0 <= n < styles.len() {
                    styles[n]
                } else {
                    style::plain_v()
                },
            ),
        },
        EventV::End => PaintV {
            lines: p.lines,
            open: if p.open.len() > 0 {
                p.open.drop_last()
            } else {
                p.open
            },
        },
        EventV::Source(s) => PaintV {
            lines: add_parts_v(
                p.lines,
                text::split_v(s, '\n'),
                current_v(p.open),
                text::split_v(s, '\n').len(),
            ),
            open: p.open,
        },
    }
}

/// What the first `k` events do, from one empty line on.
pub open spec fn paint_v(events: Seq<EventV>, styles: Seq<Style>, k: nat) -> PaintV
    decreases k,
{
    if k == 0 {
        PaintV { lines: seq![Seq::empty()], open: Seq::empty() }
    } else {
        paint_event_v(paint_v(events, styles, (k - 1) as nat), events[k - 1], styles)
    }
}

/// The text of a line of segments.
pub open spec fn line_text_v(line: Seq<(Seq<char>, Style)>) -> Seq<char>
    decreases line.len(),
{
    if line.len() == 0 {
        Seq::empty()
    } else {
        line_text_v(line.drop_last()) + line.last().0
    }
}

/// The text of lines of segments, with a newline between each two.
pub open spec fn page_text_v(lines: Seq<Seq<(Seq<char>, Style)>>) -> Seq<char>
    decreases lines.len(),
{
    if lines.len() == 0 {
        Seq::empty()
    } else if lines.len() == 1 {
        line_text_v(lines[0])
    } else {
        page_text_v(lines.drop_last()) + seq!['\n'] + line_text_v(lines.last())
    }
}

/// Adding a text appends it.
proof fn lemma_add_text(lines: Seq<Seq<(Seq<char>, Style)>>, text: Seq<char>, style: Style)
    requires
        lines.len() > 0,
    ensures
        add_text_v(lines, text, style).len() == lines.len(),
        page_text_v(add_text_v(lines, text, style)) == page_text_v(lines) + text,
{
    let next = add_text_v(lines, text, style);
    if text.len() == 0 {
        assert(page_text_v(lines) + text =~= page_text_v(lines));
    } else {
        let line = lines.last().push((text, style));
        assert(line.drop_last() =~= lines.last());
        assert(line_text_v(line) == line_text_v(lines.last()) + text);
        assert(next.drop_last() =~= lines.drop_last());
        assert(next.last() == line);
        assert(page_text_v(next) =~= page_text_v(lines) + text);
    }
}

/// Adding parts on lines of their own appends them with newlines between.
proof fn lemma_add_parts(
    lines: Seq<Seq<(Seq<char>, Style)>>,
    parts: Seq<Seq<char>>,
    style: Style,
    k: nat,
)
    requires
        lines.len() > 0,
        k <= parts.len(),
    ensures
        add_parts_v(lines, parts, style, k).len() > 0,
        page_text_v(add_parts_v(lines, parts, style, k)) == page_text_v(lines) + text::join_v(
            parts.take(k as int),
            seq!['\n'],
        ),
    decreases k,
{
    let joined = text::join_v(parts.take(k as int), seq!['\n']);
    if k == 0 {
        assert(page_text_v(lines) + joined =~= page_text_v(lines));
    } else {
        lemma_add_parts(lines, parts, style, (k - 1) as nat);
        let before = add_parts_v(lines, parts, style, (k - 1) as nat);
        assert(parts.take(k as int).drop_last() =~= parts.take(k - 1));
        if k == 1 {
            lemma_add_text(before, parts[0], style);
            assert(joined == parts[0]);
            assert(page_text_v(lines) + Seq::<char>::empty() =~= page_text_v(lines));
            assert(text::join_v(parts.take(0), seq!['\n']) =~= Seq::<char>::empty());
        } else {
            let grown = before.push(Seq::empty());
            assert(grown.drop_last() =~= before);
            assert(page_text_v(grown) =~= page_text_v(before) + seq!['\n']);
            lemma_add_text(grown, parts[k - 1], style);
            assert(page_text_v(lines) + joined =~= page_text_v(grown) + parts[k - 1]);
        }
    }
}

/// Painting keeps the text: the lines of segments, with a newline between each two, are the pieces
/// of the text one after the other.
pub proof fn law_painting_keeps_text(events: Seq<EventV>, styles: Seq<Style>, k: nat)
    requires
        k <= events.len(),
    ensures
        paint_v(events, styles, k).lines.len() > 0,
        page_text_v(paint_v(events, styles, k).lines) == sources_v(events.take(k as int)),
    decreases k,
{
    if k == 0 {
        assert(paint_v(events, styles, 0).lines[0].len() == 0);
        assert(page_text_v(paint_v(events, styles, 0).lines) =~= Seq::<char>::empty());
    } else {
        law_painting_keeps_text(events, styles, (k - 1) as nat);
        let p = paint_v(events, styles, (k - 1) as nat);
        let e = events[k - 1];
        assert(events.take(k as int).drop_last() =~= events.take(k - 1));
        match e {
            EventV::Source(s) => {
                let parts = text::split_v(s, '\n');
                lemma_add_parts(p.lines, parts, current_v(p.open), parts.len());
                text::law_split_join(s, '\n');
                assert(parts.take(parts.len() as int) =~= parts);
            },
            _ => {
                assert(sources_v(events.take(k - 1)) + Seq::<char>::empty() =~= sources_v(
                    events.take(k - 1),
                ));
            },
        }
    }
}

/// The styled segments of each line of a text; nothing for a text that is too long, or where the
/// highlighter fails.
pub open spec fn highlight_v(text: Seq<char>, lang: Lang, styles: Seq<Style>) -> Option<
    Seq<Seq<(Seq<char>, Style)>>,
> {
    if text::byte_len_v(text) > MAX_HIGHLIGHT_BYTES || !query_compiles_v(lang) {
        None
    } else {
        match highlight_events_v(text, lang, highlight_names_v()) {
            Some(events) => Some(paint_v(events, styles, events.len()).lines),
            None => None,
        }
    }
}

/// Adds a text in a style to the last line.
fn add_text(lines: &mut Vec<Vec<Seg>>, text: &String, style: Style)
    requires
        old(lines)@.len() > 0,
    ensures
        final(lines).deep_view() == add_text_v(old(lines).deep_view(), text@, style),
        final(lines)@.len() == old(lines)@.len(),
{
    let ghost ls = lines.deep_view();
    if text.as_str().is_empty() {
        return ;
    }
    let n: usize = lines.len();
    let mut last: Vec<Seg> = lines.pop().unwrap();
    let ghost rest = lines.deep_view();
    let ghost was = last.deep_view();
    assert(rest =~= ls.drop_last());
    assert(was == ls.last());
    last.push((text.clone(), style));
    assert(last.deep_view() =~= was.push((text@, style)));
    lines.push(last);
    assert(lines.deep_view() =~= rest.push(last.deep_view()));
}

/// Adds an empty line.
fn add_line(lines: &mut Vec<Vec<Seg>>)
    ensures
        final(lines).deep_view() == old(lines).deep_view().push(Seq::empty()),
        final(lines)@.len() == old(lines)@.len() + 1,
{
    let line: Vec<Seg> = Vec::new();
    assert(line.deep_view() =~= Seq::empty());
    lines.push(line);
    assert(lines.deep_view() =~= old(lines).deep_view().push(Seq::empty()));
}

/// The styled segments of each line, from a highlighter's events.
pub fn paint(events: &Vec<HlEvent>, styles: &Vec<Style>) -> (r: Vec<Vec<Seg>>)
    ensures
        r.deep_view() == paint_v(events.deep_view(), styles@, events@.len()).lines,
{
    let ghost es = events.deep_view();
    let mut lines: Vec<Vec<Seg>> = Vec::new();
    assert(lines.deep_view() =~= Seq::empty());
    add_line(&mut lines);
    let mut open: Vec<Style> = Vec::new();
    let mut i: usize = 0;
    while i < events.len()
        invariant
            i <= events@.len(),
            es == events.deep_view(),
            lines@.len() > 0,
            lines.deep_view() == paint_v(es, styles@, i as nat).lines,
            open@ == paint_v(es, styles@, i as nat).open,
        decreases events@.len() - i,
    {
        assert(es[i as int] == events@[i as int].deep_view());
        match &events[i] {
            HlEvent::Start(n) => {
                open.push(
                    if *n < styles.len() {
                        styles[*n]
                    } else {
                        Style::plain()
                    },
                );
            },
            HlEvent::End => {
                let _ = open.pop();
            },
            HlEvent::Source(s) => {
                let style: Style = if open.len() > 0 {
                    open[open.len() - 1]
                } else {
                    Style::plain()
                };
                let parts = split(s.as_str(), '\n');
                let ghost ps = parts.deep_view();
                let ghost from = lines.deep_view();
                let mut k: usize = 0;
                while k < parts.len()
                    invariant
                        k <= parts@.len(),
                        ps == parts.deep_view(),
                        lines@.len() > 0,
                        lines.deep_view() == add_parts_v(from, ps, style, k as nat),
                    decreases parts@.len() - k,
                {
                    assert(ps[k as int] == parts@[k as int]@);
                    if k > 0 {
                        add_line(&mut lines);
                    }
                    add_text(&mut lines, &parts[k], style);
                    k = k + 1;
                }
            },
        }
        i = i + 1;
    }
    lines
}

// ---- The engine ----

/// Styles for the recognized names, and the highlight configurations that were built so far.
pub struct Syntax {
    configs: HashMap<u64, Option<tree_sitter_highlight::HighlightConfiguration>>,
    styles: Vec<Style>,
}

/// The styles of the recognized names in a theme.
pub open spec fn styles_v(theme: Theme) -> Seq<Style> {
    highlight_names_v().map_values(|n: Seq<char>| theme.syntax_style_v(n))
}

impl Syntax {
    /// The styles of the recognized names.
    pub closed spec fn styles(&self) -> Seq<Style> {
        self.styles@
    }

    /// What is kept of a language is its configuration.
    pub closed spec fn wf(&self) -> bool {
        forall|lang: Lang|
            self.configs@.dom().contains(#[trigger] lang.number_v()) ==> (
            match self.configs@[lang.number_v()] {
                Some(c) => query_compiles_v(lang) && config_lang(c) == lang && config_names(c)
                    == highlight_names_v(),
                None => !query_compiles_v(lang),
            })
    }

    pub fn new(theme: &Theme) -> (r: Syntax)
        ensures
            r.wf(),
            r.styles() == styles_v(*theme),
    {
        let names = highlight_names();
        let ghost want = styles_v(*theme);
        let mut styles: Vec<Style> = Vec::new();
        let mut i: usize = 0;
        while i < names.len()
            invariant
                i <= names@.len(),
                names.deep_view() == highlight_names_v(),
                want == styles_v(*theme),
                want.len() == names@.len(),
                styles@ =~= want.take(i as int),
            decreases names@.len() - i,
        {
            assert(names.deep_view()[i as int] == names@[i as int]@);
            assert(want[i as int] == theme.syntax_style_v(highlight_names_v()[i as int]));
            styles.push(theme.syntax_style(names[i].as_str()));
            i = i + 1;
        }
        assert(want.take(want.len() as int) =~= want);
        Syntax { configs: HashMap::new(), styles }
    }

    /// The styled segments of each line of `text`. `None` where the text is too long or cannot be
    /// highlighted.
    pub fn highlight(&mut self, text: &str, lang: Lang) -> (r: Option<Vec<Vec<Seg>>>)
        requires
            old(self).wf(),
        ensures
            final(self).wf(),
            final(self).styles() == old(self).styles(),
            r.deep_view() == highlight_v(text@, lang, old(self).styles()),
            r matches Some(lines) ==> page_text_v(lines.deep_view()) == text@,
    {
        if byte_len(text) > MAX_HIGHLIGHT_BYTES {
            return None;
        }
        let key: u64 = lang.number();
        if !self.configs.contains_key(&key) {
            let names = highlight_names();
            let config = build_config(lang, grammar(lang), &names);
            self.configs.insert(key, config);
            assert(self.wf());
        }
        let config = match self.configs.get(&key) {
            Some(Some(c)) => c,
            _ => {
                return None;
            },
        };
        match highlight_events(config, text) {
            Some(events) => {
                proof {
                    let es = events.deep_view();
                    law_painting_keeps_text(es, self.styles@, es.len());
                    assert(es.take(es.len() as int) =~= es);
                }
                Some(paint(&events, &self.styles))
            },
            None => None,
        }
    }

    /// The labels of hunks (`impl Store::refresh`) at 0-based rows of `text`, which is parsed once.
    pub fn contexts(&self, text: &str, lang: Lang, rows: &Vec<usize>) -> (r: Vec<Option<String>>)
        ensures
            r.deep_view() == contexts_v(text@, lang, rows@),
    {
        let ghost want = contexts_v(text@, lang, rows@);
        let mut out: Vec<Option<String>> = Vec::new();
        let language = grammar(lang);
        let tree = parse_text(text, &language);
        let nodes: Vec<SynNode> = match &tree {
            Some(t) => tree_nodes(t, text),
            None => Vec::new(),
        };
        let mut i: usize = 0;
        while i < rows.len()
            invariant
                i <= rows@.len(),
                want == contexts_v(text@, lang, rows@),
                tree is Some == parses_v(text@, lang),
                tree matches Some(t) ==> tree_text(t) == text@ && tree_lang(t) == lang
                    && nodes.deep_view() == tree_nodes_v(text@, lang),
                out.deep_view() =~= want.take(i as int),
            decreases rows@.len() - i,
        {
            let ghost before = out.deep_view();
            let label: Option<String> = match &tree {
                Some(t) => {
                    let at = node_at(t, rows[i]);
                    assert(nodes.deep_view().len() == nodes@.len());
                    context_at(&nodes, lang, at)
                },
                None => None,
            };
            assert(want[i as int] == label.deep_view());
            out.push(label);
            assert(out.deep_view() =~= before.push(label.deep_view()));
            i = i + 1;
        }
        assert(want.take(want.len() as int) =~= want);
        out
    }

    /// The symbols that `text` defines, and the identifiers that it uses, calls and imports.
    pub fn analyze(&self, text: &str, lang: Lang) -> (r: FileFacts)
        ensures
            r.deep_view() == analyze_v(text@, lang),
    {
        let language = grammar(lang);
        match parse_text(text, &language) {
            Some(t) => {
                let nodes = tree_nodes(&t, text);
                walk_facts(&nodes, lang)
            },
            None => FileFacts::default(),
        }
    }
}

/// The labels of hunks at rows of a text.
pub open spec fn contexts_v(text: Seq<char>, lang: Lang, rows: Seq<usize>) -> Seq<
    Option<Seq<char>>,
> {
    rows.map_values(
        |row: usize|
            if parses_v(text, lang) {
                context_at_v(
                    tree_nodes_v(text, lang),
                    lang,
                    node_at_v(text, lang, row as nat),
                )
            } else {
                None
            },
    )
}

// ---- What is highlighted, and how ----

/// Text within a highlight has the style of that highlight, the innermost one where several are
/// open, and what follows it has the style from before.
pub proof fn law_painted(p: PaintV, n: int, s: Seq<char>, styles: Seq<Style>)
    requires
        p.lines.len() > 0,
        s.len() > 0,
        !s.contains('\n'),
        0 <= n < styles.len(),
    ensures
        ({
            let started = paint_event_v(p, EventV::Start(n), styles);
            let painted = paint_event_v(started, EventV::Source(s), styles);
            let ended = paint_event_v(painted, EventV::End, styles);
            &&& ended.open == p.open
            &&& ended.lines == p.lines.drop_last().push(p.lines.last().push((s, styles[n])))
            &&& p.open.len() == 0 ==> paint_event_v(p, EventV::Source(s), styles).lines
                == p.lines.drop_last().push(p.lines.last().push((s, style::plain_v())))
            &&& p.open.len() > 0 ==> paint_event_v(p, EventV::Source(s), styles).lines
                == p.lines.drop_last().push(p.lines.last().push((s, p.open.last())))
        }),
{
    text::lemma_find_char(s, '\n');
    if text::find_char_v(s, '\n') < s.len() {
        assert(s[text::find_char_v(s, '\n')] == '\n');
        assert(s.contains('\n'));
    }
    assert(text::split_v(s, '\n') =~= seq![s]);
    reveal_with_fuel(add_parts_v, 2);
    let started = paint_event_v(p, EventV::Start(n), styles);
    assert(started.open.drop_last() =~= p.open);
}

/// A newline in the text starts a line, also within a highlight.
pub proof fn law_painted_lines(p: PaintV, a: Seq<char>, b: Seq<char>, styles: Seq<Style>)
    requires
        p.lines.len() > 0,
        a.len() > 0,
        b.len() > 0,
        !a.contains('\n'),
        !b.contains('\n'),
    ensures
        ({
            let style = if p.open.len() > 0 {
                p.open.last()
            } else {
                style::plain_v()
            };
            paint_event_v(p, EventV::Source(a.push('\n') + b), styles).lines
                == p.lines.drop_last().push(p.lines.last().push((a, style))).push(
                seq![(b, style)],
            )
        }),
{
    let s = a.push('\n') + b;
    text::lemma_find_char(s, '\n');
    let k = text::find_char_v(s, '\n');
    assert(s[a.len() as int] == '\n');
    if k < a.len() {
        assert(a[k] == '\n');
        assert(a.contains('\n'));
    }
    assert(s.take(k) =~= a);
    assert(s.skip(k + 1) =~= b);
    text::lemma_find_char(b, '\n');
    if text::find_char_v(b, '\n') < b.len() {
        assert(b[text::find_char_v(b, '\n')] == '\n');
        assert(b.contains('\n'));
    }
    assert(text::split_v(b, '\n') =~= seq![b]);
    assert(text::split_v(s, '\n') =~= seq![a, b]);
    reveal_with_fuel(add_parts_v, 3);
    let style = current_v(p.open);
    let one = p.lines.drop_last().push(p.lines.last().push((a, style)));
    let two = one.push(Seq::empty());
    assert(add_text_v(two, b, style) =~= one.push(seq![(b, style)]));
}

/// A text of more than two megabytes is not highlighted. One that is keeps its text: its lines, with
/// a newline between each two, are the text, as long as the highlighter's pieces are.
pub proof fn law_highlighted(text: Seq<char>, lang: Lang, styles: Seq<Style>)
    requires
        highlight_events_v(text, lang, highlight_names_v()) matches Some(events) ==> sources_v(
            events,
        ) == text,
    ensures
        text::byte_len_v(text) > 2097152 ==> highlight_v(text, lang, styles) is None,
        highlight_v(text, lang, styles) matches Some(lines) ==> page_text_v(lines) == text,
        text::byte_len_v(text) <= 2097152 && query_compiles_v(lang) ==> (highlight_v(
            text,
            lang,
            styles,
        ) is Some <==> highlight_events_v(text, lang, highlight_names_v()) is Some),
{
    if let Some(events) = highlight_events_v(text, lang, highlight_names_v()) {
        law_painting_keeps_text(events, styles, events.len());
        assert(events.take(events.len() as int) =~= events);
    }
}

/// The styles of the highlights are the theme's for the names that are recognised, in their order.
pub proof fn law_styles(theme: Theme, i: int)
    requires
        0 <= i < highlight_names_v().len(),
    ensures
        styles_v(theme).len() == highlight_names_v().len(),
        styles_v(theme)[i] == theme.syntax_style_v(highlight_names_v()[i]),
        theme.syntax_style_v("comment"@).italic,
        theme.syntax_style_v("comment"@).fg == Some(theme.tertiary),
{
    reveal_strlit("comment");
    reveal_strlit("keyword");
    reveal_strlit("function");
    reveal_strlit("constructor");
    reveal_strlit("string");
    reveal_strlit("string.special");
    assert("comment"@[0] == 'c' && "keyword"@[0] == 'k');
    assert("comment"@.len() == 7 && "constructor"@.len() == 11);
    assert("function"@[0] == 'f' && "string"@[0] == 's' && "string.special"@[0] == 's');
}

} // verus!
