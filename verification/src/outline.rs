//! What the facts of a file hold, and what labels a hunk.
use vstd::prelude::*;

use crate::group;
use crate::order;
use crate::path;
use crate::syntax;
use crate::syntax::{Lang, NodeV};
use crate::text;

verus! {

broadcast use vstd::seq_lib::group_seq_properties;

// ---- Sorted lists of names ----

/// A text comes before another in a list: by the first characters that differ, and the start of a
/// text before the text.
pub open spec fn text_before(a: Seq<char>, b: Seq<char>) -> bool
    decreases a.len(),
{
    if b.len() == 0 {
        false
    } else if a.len() == 0 {
        true
    } else {
        (a[0] as u32) < (b[0] as u32) || (a[0] == b[0] && text_before(
            a.drop_first(),
            b.drop_first(),
        ))
    }
}

/// Characters are ordered as their keys are.
proof fn lemma_char_keys(a: char, b: char)
    ensures
        path::char_key_v(a) == path::char_key_v(b) <==> a == b,
        path::char_key_v(a) < path::char_key_v(b) <==> (a as u32) < (b as u32),
{
}

/// Texts are ordered as their keys are.
pub proof fn lemma_text_keys(a: Seq<char>, b: Seq<char>)
    ensures
        order::key_le(path::text_key_v(a), path::text_key_v(b)) <==> a == b || text_before(a, b),
    decreases a.len(),
{
    let x = path::text_key_v(a);
    let y = path::text_key_v(b);
    if a.len() > 0 && b.len() > 0 {
        lemma_text_keys(a.drop_first(), b.drop_first());
        assert(x.drop_first() =~= path::text_key_v(a.drop_first()));
        assert(y.drop_first() =~= path::text_key_v(b.drop_first()));
        assert(x[0] == path::char_key_v(a[0]) && y[0] == path::char_key_v(b[0]));
        lemma_char_keys(a[0], b[0]);
        if a[0] == b[0] && a.drop_first() == b.drop_first() {
            assert(a =~= seq![a[0]] + a.drop_first());
            assert(b =~= seq![b[0]] + b.drop_first());
        }
    } else if b.len() == 0 && a.len() == 0 {
        assert(a =~= b);
    }
}

/// No text comes before itself, nor each of two before the other.
pub proof fn lemma_text_order(a: Seq<char>, b: Seq<char>)
    ensures
        !(text_before(a, b) && text_before(b, a)),
        !text_before(a, a),
    decreases a.len(),
{
    if a.len() > 0 {
        if b.len() > 0 {
            lemma_text_order(a.drop_first(), b.drop_first());
        } else {
            lemma_text_order(a.drop_first(), a.drop_first());
        }
    }
}

/// Each text comes before those behind it.
pub open spec fn ascending(list: Seq<Seq<char>>) -> bool {
    forall|i: int, j: int|
        0 <= i < j < list.len() ==> text_before(#[trigger] list[i], #[trigger] list[j])
}

/// Taking out what repeats from a sorted list loses nothing and leaves nothing twice.
proof fn lemma_dedup(list: Seq<Seq<char>>)
    requires
        forall|i: int, j: int|
            0 <= i < j < list.len() ==> #[trigger] list[i] == #[trigger] list[j] || text_before(
                list[i],
                list[j],
            ),
    ensures
        ascending(syntax::dedup_v(list)),
        forall|t: Seq<char>| #[trigger] syntax::dedup_v(list).contains(t) <==> list.contains(t),
    decreases list.len(),
{
    if list.len() > 1 {
        let init = list.drop_last();
        let n = list.len() - 1;
        assert forall|i: int, j: int| 0 <= i < j < init.len() implies #[trigger] init[i]
            == #[trigger] init[j] || text_before(init[i], init[j]) by {
            assert(init[i] == list[i] && init[j] == list[j]);
        }
        lemma_dedup(init);
        let d = syntax::dedup_v(init);
        let all = syntax::dedup_v(list);
        assert(list =~= init.push(list.last()));
        assert forall|t: Seq<char>| #[trigger] all.contains(t) <==> list.contains(t) by {
            assert(d.contains(t) <==> init.contains(t));
            if init.contains(t) {
                let k = choose|k: int| 0 <= k < init.len() && init[k] == t;
                assert(list[k] == t);
                let m = choose|m: int| 0 <= m < d.len() && d[m] == t;
                assert(all[m] == t);
            }
            if t == list.last() {
                assert(list[n] == t);
                if list.last() == list[n - 1] {
                    assert(init[n - 1] == t);
                } else {
                    assert(all[all.len() - 1] == t);
                }
            }
            if all.contains(t) {
                let m = choose|m: int| 0 <= m < all.len() && all[m] == t;
                if m < d.len() {
                    assert(d[m] == t);
                }
            }
            if list.contains(t) {
                let k = choose|k: int| 0 <= k < list.len() && list[k] == t;
                if k < n {
                    assert(init[k] == t);
                }
            }
        }
        if list.last() != list[n - 1] {
            assert forall|i: int, j: int| 0 <= i < j < all.len() implies text_before(
                #[trigger] all[i],
                #[trigger] all[j],
            ) by {
                if j < d.len() {
                    assert(all[i] == d[i] && all[j] == d[j]);
                } else {
                    assert(d.contains(d[i]));
                    let k = choose|k: int| 0 <= k < init.len() && init[k] == d[i];
                    assert(list[k] == d[i]);
                    assert(list[k] == list[n] || text_before(list[k], list[n]));
                    if list[k] == list[n] {
                        assert(k < n - 1);
                        assert(text_before(list[n - 1], list[n]));
                        assert(list[k] == list[n - 1] || text_before(list[k], list[n - 1]));
                        lemma_text_order(list[n], list[n - 1]);
                    }
                }
            }
        }
    }
}

/// A sorted list holds what it was made of, each text once and in ascending order.
pub proof fn law_sorted_once(list: Seq<Seq<char>>)
    requires
        list.len() <= usize::MAX,
    ensures
        ascending(syntax::sorted_once_v(list)),
        forall|t: Seq<char>| #[trigger]
            syntax::sorted_once_v(list).contains(t) <==> list.contains(t),
{
    let keys = syntax::text_keys_v(list);
    let items = order::upto(list.len());
    let at = order::sort_v(items, keys);
    let sorted = group::pick_v(list, at);
    order::law_sort(items, keys);
    assert forall|i: int| 0 <= i < at.len() implies #[trigger] at[i] < list.len() by {
        assert(at.contains(at[i]));
        assert(items.contains(at[i]));
    }
    assert forall|i: int, j: int| 0 <= i < j < sorted.len() implies #[trigger] sorted[i]
        == #[trigger] sorted[j] || text_before(sorted[i], sorted[j]) by {
        assert(order::key_le(keys[at[i] as int], keys[at[j] as int]));
        lemma_text_keys(sorted[i], sorted[j]);
    }
    lemma_dedup(sorted);
    assert forall|t: Seq<char>| #[trigger] syntax::sorted_once_v(list).contains(t)
        <==> list.contains(t) by {
        if sorted.contains(t) {
            let k = choose|k: int| 0 <= k < sorted.len() && sorted[k] == t;
            assert(list[at[k] as int] == t);
        }
        if list.contains(t) {
            let k = choose|k: int| 0 <= k < list.len() && list[k] == t;
            assert(items[k] == k as usize);
            assert(items.contains(k as usize));
            assert(at.contains(k as usize));
            let m = choose|m: int| 0 <= m < at.len() && at[m] == k as usize;
            assert(sorted[m] == t);
        }
    }
}

// ---- Facts ----

/// The names that the first `k` nodes define.
proof fn lemma_defined(nodes: Seq<NodeV>, lang: Lang, k: nat, t: Seq<char>)
    requires
        k <= nodes.len(),
    ensures
        syntax::defined_v(nodes, lang, k).len() <= k,
        syntax::defined_v(nodes, lang, k).contains(t) <==> exists|i: int|
            0 <= i < k && #[trigger] syntax::node_name_v(nodes, i) == Some(t)
                && lang.is_definition_v(nodes[i].kind),
    decreases k,
{
    if k > 0 {
        let p = (k - 1) as nat;
        lemma_defined(nodes, lang, p, t);
        let before = syntax::defined_v(nodes, lang, p);
        let all = syntax::defined_v(nodes, lang, k);
        if before.contains(t) {
            let m = choose|m: int| 0 <= m < before.len() && before[m] == t;
            assert(all[m] == t);
            let i = choose|i: int|
                0 <= i < p && #[trigger] syntax::node_name_v(nodes, i) == Some(t)
                    && lang.is_definition_v(nodes[i].kind);
            assert(syntax::node_name_v(nodes, i) == Some(t));
        }
        if syntax::node_name_v(nodes, k - 1) == Some(t) && lang.is_definition_v(
            nodes[k - 1].kind,
        ) {
            assert(all[all.len() - 1] == t);
        }
        if all.contains(t) && !before.contains(t) {
            let m = choose|m: int| 0 <= m < all.len() && all[m] == t;
            if m < before.len() {
                assert(before[m] == t);
            }
            assert(syntax::node_name_v(nodes, k - 1) == Some(t));
        }
    }
}

/// A file defines a name exactly where one of its nodes has that name and is a definition: in Rust
/// a function, a type, a constant, a static, a macro or a module; in JavaScript and TypeScript a
/// function, a class, a method, an interface, a type alias or an enum; in Python a function or a
/// class; in Go a function, a method or a type; in Java a class, an interface, an enum, a method or
/// a record.
pub proof fn law_definitions(nodes: Seq<NodeV>, lang: Lang, t: Seq<char>)
    requires
        nodes.len() <= usize::MAX,
    ensures
        syntax::facts_v(nodes, lang).defines.contains(t) <==> exists|i: int|
            0 <= i < nodes.len() && #[trigger] syntax::node_name_v(nodes, i) == Some(t)
                && match lang {
                Lang::Rust => {
                    ||| nodes[i].kind == "function_item"@
                    ||| nodes[i].kind == "struct_item"@
                    ||| nodes[i].kind == "enum_item"@
                    ||| nodes[i].kind == "union_item"@
                    ||| nodes[i].kind == "trait_item"@
                    ||| nodes[i].kind == "type_item"@
                    ||| nodes[i].kind == "const_item"@
                    ||| nodes[i].kind == "static_item"@
                    ||| nodes[i].kind == "macro_definition"@
                    ||| nodes[i].kind == "mod_item"@
                },
                Lang::JavaScript | Lang::TypeScript | Lang::Tsx => {
                    ||| nodes[i].kind == "function_declaration"@
                    ||| nodes[i].kind == "generator_function_declaration"@
                    ||| nodes[i].kind == "class_declaration"@
                    ||| nodes[i].kind == "method_definition"@
                    ||| nodes[i].kind == "interface_declaration"@
                    ||| nodes[i].kind == "type_alias_declaration"@
                    ||| nodes[i].kind == "enum_declaration"@
                },
                Lang::Python => {
                    ||| nodes[i].kind == "function_definition"@
                    ||| nodes[i].kind == "class_definition"@
                },
                Lang::Go => {
                    ||| nodes[i].kind == "function_declaration"@
                    ||| nodes[i].kind == "method_declaration"@
                    ||| nodes[i].kind == "type_spec"@
                    ||| nodes[i].kind == "type_declaration"@
                },
                Lang::Java => {
                    ||| nodes[i].kind == "class_declaration"@
                    ||| nodes[i].kind == "interface_declaration"@
                    ||| nodes[i].kind == "enum_declaration"@
                    ||| nodes[i].kind == "method_declaration"@
                    ||| nodes[i].kind == "record_declaration"@
                },
            },
        ascending(syntax::facts_v(nodes, lang).defines),
{
    lemma_defined(nodes, lang, nodes.len(), t);
    law_sorted_once(syntax::defined_v(nodes, lang, nodes.len()));
    let list = syntax::defined_v(nodes, lang, nodes.len());
    assert(syntax::sorted_once_v(list).contains(t) <==> list.contains(t));
    if list.contains(t) {
        let i = choose|i: int|
            0 <= i < nodes.len() && #[trigger] syntax::node_name_v(nodes, i) == Some(t)
                && lang.is_definition_v(nodes[i].kind);
        assert(syntax::node_name_v(nodes, i) == Some(t));
    }
}

/// What labels hunks is also a definition, but for a Rust `impl`, which names what it is for, and a
/// Java constructor, which has its class's name.
pub proof fn law_labels_are_definitions(lang: Lang, kind: Seq<char>)
    ensures
        lang.is_context_v(kind) && kind != "impl_item"@ && kind != "constructor_declaration"@
            ==> lang.is_definition_v(kind),
        lang.is_context_v(kind) ==> syntax::kind_keyword_v(kind).len() > 0,
        lang == Lang::Rust ==> lang.is_context_v("impl_item"@),
        lang == Lang::Java ==> lang.is_context_v("constructor_declaration"@),
{
    reveal_strlit("impl");
    reveal_strlit("trait");
    reveal_strlit("struct");
    reveal_strlit("enum");
    reveal_strlit("mod");
    reveal_strlit("class");
    reveal_strlit("type");
    reveal_strlit("fn");
}

/// A file calls a name exactly where one of its call nodes has it as the name of what it calls.
pub proof fn law_calls(nodes: Seq<NodeV>, lang: Lang, t: Seq<char>)
    ensures
        syntax::facts_v(nodes, lang).calls.contains(t) <==> exists|i: int|
            0 <= i < nodes.len() && #[trigger] syntax::callee_name_v(nodes, i) == Some(t)
                && match lang {
                Lang::Rust => nodes[i].kind == "call_expression"@ || nodes[i].kind
                    == "macro_invocation"@,
                Lang::JavaScript | Lang::TypeScript | Lang::Tsx | Lang::Go => nodes[i].kind
                    == "call_expression"@,
                Lang::Python => nodes[i].kind == "call"@,
                Lang::Java => nodes[i].kind == "method_invocation"@,
            },
{
    let n = nodes.len() as int;
    if syntax::calls_v(nodes, lang, n, t) {
        let i = choose|i: int| 0 <= i < n && #[trigger] syntax::node_calls(nodes, lang, i, t);
        assert(syntax::callee_name_v(nodes, i) == Some(t));
    }
    assert forall|i: int|
        0 <= i < n && #[trigger] syntax::callee_name_v(nodes, i) == Some(t) && lang.is_call_v(
            nodes[i].kind,
        ) implies syntax::calls_v(nodes, lang, n, t) by {
        assert(syntax::node_calls(nodes, lang, i, t));
    }
}

/// A file uses a name exactly where an identifier of it has that name, and imports it exactly where
/// such an identifier stands within an import.
pub proof fn law_uses_and_imports(nodes: Seq<NodeV>, lang: Lang, t: Seq<char>)
    ensures
        syntax::facts_v(nodes, lang).uses.contains(t) <==> exists|j: int|
            #![trigger nodes[j]]
            0 <= j < nodes.len() && "identifier"@.is_suffix_of(nodes[j].kind) && nodes[j].text
                == Some(t),
        syntax::facts_v(nodes, lang).imports.contains(t) <==> exists|i: int, j: int|
            #![trigger nodes[i], nodes[j]]
            0 <= i <= j < nodes.len() && "identifier"@.is_suffix_of(nodes[j].kind) && nodes[j].text
                == Some(t) && (forall|k: int|
                i < k <= j ==> (#[trigger] nodes[k]).depth > nodes[i].depth) && match lang {
                Lang::Rust => nodes[i].kind == "use_declaration"@,
                Lang::JavaScript | Lang::TypeScript | Lang::Tsx => nodes[i].kind
                    == "import_statement"@,
                Lang::Python => nodes[i].kind == "import_statement"@ || nodes[i].kind
                    == "import_from_statement"@,
                Lang::Go => nodes[i].kind == "import_declaration"@ || nodes[i].kind
                    == "import_spec"@,
                Lang::Java => nodes[i].kind == "import_declaration"@,
            },
        syntax::facts_v(nodes, lang).imports.contains(t) ==> syntax::facts_v(
            nodes,
            lang,
        ).uses.contains(t),
{
    let n = nodes.len() as int;
    if syntax::imports_v(nodes, lang, n, t) {
        let i = choose|i: int| 0 <= i < n && #[trigger] syntax::node_imports(nodes, lang, i, t);
        lemma_subtree(nodes, i, i + 1);
        let j = choose|j: int|
            i <= j < syntax::end_v(nodes, i) && syntax::is_identifier_v(#[trigger] nodes[j])
                && nodes[j].text == Some(t);
        assert(syntax::is_identifier_v(nodes[j]));
        assert(nodes[i] == nodes[i]);
    }
    assert forall|i: int, j: int|
        #![trigger nodes[i], nodes[j]]
        0 <= i <= j < n && syntax::is_identifier_v(nodes[j]) && nodes[j].text == Some(t) && (
        forall|k: int| i < k <= j ==> (#[trigger] nodes[k]).depth > nodes[i].depth)
            && lang.is_import_v(nodes[i].kind) implies syntax::imports_v(nodes, lang, n, t) by {
        lemma_subtree(nodes, i, i + 1);
        assert(j < syntax::end_v(nodes, i));
        assert(syntax::node_imports(nodes, lang, i, t));
    }
}

/// A subtree is what lies deeper than its root without a break.
proof fn lemma_subtree(nodes: Seq<NodeV>, i: int, j: int)
    requires
        0 <= i < j <= nodes.len(),
    ensures
        j <= syntax::end_from(nodes, i, j) <= nodes.len(),
        forall|k: int|
            j <= k < syntax::end_from(nodes, i, j) ==> (#[trigger] nodes[k]).depth
                > nodes[i].depth,
        syntax::end_from(nodes, i, j) < nodes.len() ==> nodes[syntax::end_from(
            nodes,
            i,
            j,
        )].depth <= nodes[i].depth,
    decreases nodes.len() - j,
{
    if j < nodes.len() && nodes[j].depth > nodes[i].depth {
        lemma_subtree(nodes, i, j + 1);
    }
}

// ---- Parents, children and names ----

/// The nodes right below the node at `i`, from `j` on.
pub open spec fn children_from(nodes: Seq<NodeV>, i: int, j: int) -> Seq<int>
    decreases nodes.len() - j,
{
    if j >= nodes.len() || nodes[j].depth <= nodes[i].depth {
        Seq::empty()
    } else if nodes[j].depth == nodes[i].depth + 1 {
        seq![j] + children_from(nodes, i, j + 1)
    } else {
        children_from(nodes, i, j + 1)
    }
}

/// A child is found by its place among those of its parent, and there is none at a place beyond.
proof fn lemma_child(nodes: Seq<NodeV>, i: int, j: int, n: int)
    requires
        0 <= i < j,
        0 <= n,
    ensures
        ({
            let list = children_from(nodes, i, j);
            syntax::child_from(nodes, i, j, n) == (if n < list.len() {
                Some(list[n])
            } else {
                None
            })
        }),
    decreases nodes.len() - j,
{
    if j < nodes.len() && nodes[j].depth > nodes[i].depth {
        if nodes[j].depth == nodes[i].depth + 1 {
            if n > 0 {
                lemma_child(nodes, i, j + 1, n - 1);
            }
        } else {
            lemma_child(nodes, i, j + 1, n);
        }
    }
}

proof fn lemma_children(nodes: Seq<NodeV>, i: int, j: int, c: int)
    requires
        0 <= i < j <= nodes.len(),
    ensures
        children_from(nodes, i, j).contains(c) <==> j <= c < nodes.len() && nodes[c].depth
            == nodes[i].depth + 1 && forall|k: int|
            j <= k <= c ==> (#[trigger] nodes[k]).depth > nodes[i].depth,
    decreases nodes.len() - j,
{
    let all = children_from(nodes, i, j);
    if j < nodes.len() && nodes[j].depth > nodes[i].depth {
        let rest = children_from(nodes, i, j + 1);
        lemma_children(nodes, i, j + 1, c);
        if nodes[j].depth == nodes[i].depth + 1 {
            assert(all =~= seq![j] + rest);
            assert(all.contains(c) <==> c == j || rest.contains(c)) by {
                if rest.contains(c) {
                    let m = choose|m: int| 0 <= m < rest.len() && rest[m] == c;
                    assert(all[m + 1] == c);
                }
                if c == j {
                    assert(all[0] == c);
                }
                if all.contains(c) && c != j {
                    let m = choose|m: int| 0 <= m < all.len() && all[m] == c;
                    assert(rest[m - 1] == c);
                }
            }
        }
        if rest.contains(c) {
            assert forall|k: int| j <= k <= c implies (#[trigger] nodes[k]).depth
                > nodes[i].depth by {}
        }
        if c > j && forall|k: int| j <= k <= c ==> (#[trigger] nodes[k]).depth > nodes[i].depth {
            assert forall|k: int| j + 1 <= k <= c implies (#[trigger] nodes[k]).depth
                > nodes[i].depth by {}
        }
    } else if j < nodes.len() {
        if j <= c && forall|k: int| j <= k <= c ==> (#[trigger] nodes[k]).depth > nodes[i].depth {
            assert(nodes[j].depth > nodes[i].depth);
        }
    }
}

/// The child of a node at a place is the one that so many others stand before: it lies one level
/// below the node, within its subtree.
pub proof fn law_children(nodes: Seq<NodeV>, i: int, n: int)
    requires
        0 <= i < nodes.len(),
        0 <= n,
    ensures
        ({
            let list = children_from(nodes, i, i + 1);
            &&& syntax::child_v(nodes, i, Some(n)) == (if n < list.len() {
                Some(list[n])
            } else {
                None
            })
            &&& syntax::child_v(nodes, i, None) is None
            &&& n < list.len() ==> i < list[n] < syntax::end_v(nodes, i) && nodes[list[n]].depth
                == nodes[i].depth + 1
        }),
{
    lemma_child(nodes, i, i + 1, n);
    let list = children_from(nodes, i, i + 1);
    if n < list.len() {
        lemma_children(nodes, i, i + 1, list[n]);
        assert(list.contains(list[n]));
        lemma_subtree(nodes, i, i + 1);
        if list[n] >= syntax::end_v(nodes, i) {
            assert(nodes[syntax::end_v(nodes, i)].depth > nodes[i].depth);
        }
    }
}

proof fn lemma_parent(nodes: Seq<NodeV>, depth: int, j: int)
    requires
        j < nodes.len(),
    ensures
        syntax::parent_from(nodes, depth, j) matches Some(p) ==> 0 <= p <= j && nodes[p].depth < depth
            && forall|k: int| p < k <= j ==> (#[trigger] nodes[k]).depth >= depth,
        syntax::parent_from(nodes, depth, j) is None ==> forall|k: int|
            0 <= k <= j ==> (#[trigger] nodes[k]).depth >= depth,
    decreases j + 1,
{
    if j >= 0 && nodes[j].depth >= depth {
        lemma_parent(nodes, depth, j - 1);
    }
}

/// The parent of a node is the last node before it that lies higher; a node without one is the
/// highest up to there. A node lies within the subtree of its parent.
pub proof fn law_parents(nodes: Seq<NodeV>, i: int)
    requires
        0 <= i < nodes.len(),
    ensures
        syntax::parent_of_v(nodes, i) matches Some(p) ==> {
            &&& 0 <= p < i
            &&& nodes[p].depth < nodes[i].depth
            &&& forall|k: int| p < k < i ==> (#[trigger] nodes[k]).depth >= nodes[i].depth
            &&& i < syntax::end_v(nodes, p)
        },
        syntax::parent_of_v(nodes, i) is None <==> forall|k: int|
            0 <= k < i ==> (#[trigger] nodes[k]).depth >= nodes[i].depth,
{
    lemma_parent(nodes, nodes[i].depth, i - 1);
    if let Some(p) = syntax::parent_of_v(nodes, i) {
        lemma_subtree(nodes, p, p + 1);
        let e = syntax::end_v(nodes, p);
        if e <= i {
            assert(nodes[e].depth <= nodes[p].depth);
            if e < i {
                assert(nodes[e].depth >= nodes[i].depth);
            }
        }
    }
}

/// A node is named by its name, else by its type, as an `impl` is; only a node that has neither is
/// named by the first of its children that is some identifier.
pub proof fn law_node_names(nodes: Seq<NodeV>, i: int)
    ensures
        syntax::child_v(nodes, i, nodes[i].name) matches Some(c) ==> (nodes[c].text is Some
            ==> syntax::node_name_v(nodes, i) == nodes[c].text),
        nodes[i].name is None ==> (syntax::child_v(nodes, i, nodes[i].type_field) matches Some(c)
            ==> (nodes[c].text is Some ==> syntax::node_name_v(nodes, i) == nodes[c].text)),
        nodes[i].name is None && nodes[i].type_field is None ==> syntax::node_name_v(nodes, i)
            == syntax::identifier_child_from(nodes, i, i + 1),
{
}

proof fn lemma_identifier_child(nodes: Seq<NodeV>, i: int, j: int)
    requires
        0 <= i < j <= nodes.len(),
    ensures
        syntax::identifier_child_from(nodes, i, j) matches Some(t) ==> exists|c: int|
            j <= c < nodes.len() && (#[trigger] nodes[c]).text == Some(t) && nodes[c].depth
                == nodes[i].depth + 1 && text::contains_v(nodes[c].kind, "identifier"@),
        syntax::identifier_child_from(nodes, i, j) is None ==> forall|c: int|
            j <= c < syntax::end_from(nodes, i, j) && (#[trigger] nodes[c]).depth == nodes[i].depth
                + 1 && text::contains_v(nodes[c].kind, "identifier"@) ==> nodes[c].text is None,
    decreases nodes.len() - j,
{
    if j < nodes.len() && nodes[j].depth > nodes[i].depth {
        if nodes[j].depth == nodes[i].depth + 1 && text::contains_v(
            nodes[j].kind,
            "identifier"@,
        ) && nodes[j].text is Some {
            assert(nodes[j].text == syntax::identifier_child_from(nodes, i, j));
        } else {
            lemma_identifier_child(nodes, i, j + 1);
        }
    }
}

/// The name that a node without a name or a type has is the text of an identifier right below it,
/// and there is one wherever such an identifier has a text.
pub proof fn law_identifier_names(nodes: Seq<NodeV>, i: int)
    requires
        0 <= i < nodes.len(),
        nodes[i].name is None,
        nodes[i].type_field is None,
    ensures
        syntax::node_name_v(nodes, i) matches Some(t) ==> exists|c: int|
            i < c < nodes.len() && (#[trigger] nodes[c]).text == Some(t) && nodes[c].depth
                == nodes[i].depth + 1 && text::contains_v(nodes[c].kind, "identifier"@),
        syntax::node_name_v(nodes, i) is None ==> forall|c: int|
            i < c < syntax::end_v(nodes, i) && (#[trigger] nodes[c]).depth == nodes[i].depth + 1
                && text::contains_v(nodes[c].kind, "identifier"@) ==> nodes[c].text is None,
{
    lemma_identifier_child(nodes, i, i + 1);
}

/// What a call calls is an identifier with a text, from its function where it has one, else from
/// its name, else from all of it; and no identifier of that part starts further right.
pub proof fn law_callees(nodes: Seq<NodeV>, i: int)
    requires
        0 <= i < nodes.len(),
    ensures
        ({
            let c = syntax::callee_v(nodes, i);
            &&& syntax::child_v(nodes, i, nodes[i].function) matches Some(f) ==> c == f
            &&& nodes[i].function is None ==> (syntax::child_v(nodes, i, nodes[i].name) matches Some(
                n,
            ) ==> c == n)
            &&& nodes[i].function is None && nodes[i].name is None ==> c == i
            &&& syntax::callee_name_v(nodes, i) matches Some(t) ==> exists|k: int|
                c <= k < syntax::end_v(nodes, c) && "identifier"@.is_suffix_of(
                    (#[trigger] nodes[k]).kind,
                ) && nodes[k].text == Some(t) && forall|j: int|
                    c <= j < syntax::end_v(nodes, c) && "identifier"@.is_suffix_of(
                        (#[trigger] nodes[j]).kind,
                    ) && nodes[j].text is Some ==> nodes[j].start_byte <= nodes[k].start_byte
        }),
{
    let c = syntax::callee_v(nodes, i);
    if exists|k: int| syntax::names_callee(nodes, c, k) {
        let k = choose|k: int| syntax::names_callee(nodes, c, k);
        assert(syntax::names_callee(nodes, c, k));
        assert forall|j: int|
            c <= j < syntax::end_v(nodes, c) && "identifier"@.is_suffix_of(
                (#[trigger] nodes[j]).kind,
            ) && nodes[j].text is Some implies nodes[j].start_byte <= nodes[k].start_byte by {
            assert(syntax::is_identifier_v(nodes[j]));
            assert(syntax::rightmost(nodes, k, j));
        }
        assert(syntax::is_identifier_v(nodes[k]));
    }
}

// ---- Labels ----

/// The node at `i` and those that it lies in, from the inside out.
pub open spec fn around_v(nodes: Seq<NodeV>, i: int) -> Seq<int>
    decreases i + 1,
{
    if i < 0 || i >= nodes.len() {
        Seq::empty()
    } else {
        proof {
            syntax::lemma_parent_before(nodes, nodes[i].depth, i - 1);
        }
        match syntax::parent_of_v(nodes, i) {
            Some(p) => seq![i] + around_v(nodes, p),
            None => seq![i],
        }
    }
}

/// Those of some nodes that label hunks, with their names and kinds.
pub open spec fn labels_v(nodes: Seq<NodeV>, lang: Lang, list: Seq<int>) -> Seq<
    (Seq<char>, Seq<char>),
>
    decreases list.len(),
{
    if list.len() == 0 {
        Seq::empty()
    } else {
        let rest = labels_v(nodes, lang, list.drop_first());
        match syntax::node_name_v(nodes, list[0]) {
            Some(name) => if lang.is_context_v(nodes[list[0]].kind) {
                seq![(name, nodes[list[0]].kind)] + rest
            } else {
                rest
            },
            None => rest,
        }
    }
}

/// A label is made of the innermost few of the nodes around that label hunks.
proof fn lemma_label_chain(nodes: Seq<NodeV>, lang: Lang, i: int, limit: nat)
    requires
        i < nodes.len(),
    ensures
        ({
            let all = labels_v(nodes, lang, around_v(nodes, i));
            syntax::label_chain_v(nodes, lang, i, limit) == all.take(
                if all.len() < limit {
                    all.len() as int
                } else {
                    limit as int
                },
            )
        }),
    decreases i + 1,
{
    let all = labels_v(nodes, lang, around_v(nodes, i));
    if i < 0 || limit == 0 {
        assert(syntax::label_chain_v(nodes, lang, i, limit) =~= all.take(0));
    } else {
        syntax::lemma_parent_before(nodes, nodes[i].depth, i - 1);
        let here = syntax::label_part_v(nodes, lang, i);
        let left = if here is Some {
            (limit - 1) as nat
        } else {
            limit
        };
        let outer = match syntax::parent_of_v(nodes, i) {
            Some(p) => around_v(nodes, p),
            None => Seq::empty(),
        };
        assert(around_v(nodes, i) =~= seq![i] + outer);
        assert(around_v(nodes, i).drop_first() =~= outer);
        let rest = labels_v(nodes, lang, outer);
        match syntax::parent_of_v(nodes, i) {
            Some(p) => {
                lemma_label_chain(nodes, lang, p, left);
            },
            None => {},
        }
        let n = if all.len() < limit {
            all.len() as int
        } else {
            limit as int
        };
        assert(syntax::label_chain_v(nodes, lang, i, limit) =~= all.take(n));
    }
}

/// A hunk is labelled with the names of what it lies in, at most the innermost three, from the
/// outside in and with two colons between; in front stands the word for the outermost of them. A
/// hunk that lies in nothing has no label.
pub proof fn law_labels(nodes: Seq<NodeV>, lang: Lang, i: int)
    requires
        0 <= i < nodes.len(),
    ensures
        ({
            let all = labels_v(nodes, lang, around_v(nodes, i));
            let label = syntax::context_at_v(nodes, lang, Some(i));
            &&& label is None <==> all.len() == 0
            &&& all.len() == 1 ==> label == Some(
                syntax::kind_keyword_v(all[0].1) + " "@ + all[0].0,
            )
            &&& all.len() == 2 ==> label == Some(
                syntax::kind_keyword_v(all[1].1) + " "@ + (all[1].0 + "::"@ + all[0].0),
            )
            &&& all.len() >= 3 ==> label == Some(
                syntax::kind_keyword_v(all[2].1) + " "@ + (all[2].0 + "::"@ + all[1].0 + "::"@
                    + all[0].0),
            )
        }),
        syntax::context_at_v(nodes, lang, None) is None,
{
    lemma_label_chain(nodes, lang, i, 3);
    let all = labels_v(nodes, lang, around_v(nodes, i));
    lemma_labels_are_context(nodes, lang, around_v(nodes, i));
    let chain = syntax::label_chain_v(nodes, lang, i, 3);
    if chain.len() > 0 {
        let outer = chain.reverse();
        let names = outer.map_values(|p: (Seq<char>, Seq<char>)| p.0);
        law_labels_are_definitions(lang, outer[0].1);
        reveal_with_fuel(text::join_v, 4);
        if chain.len() == 1 {
            assert(names =~= seq![all[0].0]);
        } else if chain.len() == 2 {
            assert(names =~= seq![all[1].0, all[0].0]);
            assert(names.drop_last() =~= seq![all[1].0]);
        } else {
            assert(names =~= seq![all[2].0, all[1].0, all[0].0]);
            assert(names.drop_last() =~= seq![all[2].0, all[1].0]);
            assert(names.drop_last().drop_last() =~= seq![all[2].0]);
        }
    }
}

proof fn lemma_labels_are_context(nodes: Seq<NodeV>, lang: Lang, list: Seq<int>)
    ensures
        forall|k: int|
            0 <= k < labels_v(nodes, lang, list).len() ==> lang.is_context_v(
                (#[trigger] labels_v(nodes, lang, list)[k]).1,
            ),
    decreases list.len(),
{
    if list.len() > 0 {
        lemma_labels_are_context(nodes, lang, list.drop_first());
        let rest = labels_v(nodes, lang, list.drop_first());
        let all = labels_v(nodes, lang, list);
        assert forall|k: int| 0 <= k < all.len() implies lang.is_context_v(
            (#[trigger] all[k]).1,
        ) by {
            if all.len() == rest.len() {
                assert(all[k] == rest[k]);
            } else if k > 0 {
                assert(all[k] == rest[k - 1]);
            }
        }
    }
}

/// What labels hunks: in Rust an `impl`, a trait, a struct, an enum, a module or a function; in
/// JavaScript and TypeScript a class, a function or a method; in Python a class or a function; in
/// Go a type, a function or a method; in Java a class, an interface, an enum, a method or a
/// constructor.
pub proof fn law_label_kinds(lang: Lang, kind: Seq<char>)
    ensures
        lang.is_context_v(kind) <==> match lang {
            Lang::Rust => {
                ||| kind == "impl_item"@
                ||| kind == "trait_item"@
                ||| kind == "struct_item"@
                ||| kind == "enum_item"@
                ||| kind == "mod_item"@
                ||| kind == "function_item"@
            },
            Lang::JavaScript | Lang::TypeScript | Lang::Tsx => {
                ||| kind == "class_declaration"@
                ||| kind == "function_declaration"@
                ||| kind == "generator_function_declaration"@
                ||| kind == "method_definition"@
            },
            Lang::Python => {
                ||| kind == "class_definition"@
                ||| kind == "function_definition"@
            },
            Lang::Go => {
                ||| kind == "type_declaration"@
                ||| kind == "function_declaration"@
                ||| kind == "method_declaration"@
            },
            Lang::Java => {
                ||| kind == "class_declaration"@
                ||| kind == "interface_declaration"@
                ||| kind == "enum_declaration"@
                ||| kind == "method_declaration"@
                ||| kind == "constructor_declaration"@
            },
        },
{
}

/// The word for a kind: each language's functions and methods are `fn`, its classes `class`, and so
/// on.
pub proof fn law_kind_words(kind: Seq<char>)
    ensures
        kind == "function_item"@ || kind == "function_declaration"@ || kind
            == "generator_function_declaration"@ || kind == "function_definition"@ || kind
            == "method_definition"@ || kind == "method_declaration"@ || kind
            == "constructor_declaration"@ ==> syntax::kind_keyword_v(kind) == "fn"@,
        kind == "class_definition"@ || kind == "class_declaration"@ ==> syntax::kind_keyword_v(kind)
            == "class"@,
        kind == "impl_item"@ ==> syntax::kind_keyword_v(kind) == "impl"@,
        kind == "trait_item"@ || kind == "interface_declaration"@ ==> syntax::kind_keyword_v(kind)
            == "trait"@,
        kind == "struct_item"@ || kind == "record_declaration"@ ==> syntax::kind_keyword_v(kind)
            == "struct"@,
        kind == "enum_item"@ || kind == "enum_declaration"@ ==> syntax::kind_keyword_v(kind)
            == "enum"@,
        kind == "mod_item"@ ==> syntax::kind_keyword_v(kind) == "mod"@,
        kind == "type_declaration"@ || kind == "type_spec"@ || kind == "type_alias_declaration"@
            ==> syntax::kind_keyword_v(kind) == "type"@,
{
    lemma_kinds_differ();
}

/// The language of a file goes by its extension, however that is capitalised.
pub proof fn law_languages(path: Seq<char>)
    ensures
        ({
            let lang = Lang::from_path_v(path);
            match path::extension_v(path) {
                None => lang is None,
                Some(ext) => {
                    let e = text::ascii_lower_v(ext);
                    &&& e == "rs"@ ==> lang == Some(Lang::Rust)
                    &&& e == "js"@ || e == "jsx"@ || e == "mjs"@ || e == "cjs"@ ==> lang == Some(
                        Lang::JavaScript,
                    )
                    &&& e == "ts"@ || e == "mts"@ || e == "cts"@ ==> lang == Some(Lang::TypeScript)
                    &&& e == "tsx"@ ==> lang == Some(Lang::Tsx)
                    &&& e == "py"@ || e == "pyi"@ ==> lang == Some(Lang::Python)
                    &&& e == "go"@ ==> lang == Some(Lang::Go)
                    &&& e == "java"@ ==> lang == Some(Lang::Java)
                    &&& lang is Some ==> {
                        ||| e == "rs"@
                        ||| e == "js"@
                        ||| e == "jsx"@
                        ||| e == "mjs"@
                        ||| e == "cjs"@
                        ||| e == "ts"@
                        ||| e == "mts"@
                        ||| e == "cts"@
                        ||| e == "tsx"@
                        ||| e == "py"@
                        ||| e == "pyi"@
                        ||| e == "go"@
                        ||| e == "java"@
                    }
                },
            }
        }),
{
    lemma_extensions_differ();
}

/// The extensions are different texts.
proof fn lemma_extensions_differ()
    ensures
        ({
            &&& "rs"@.len() == 2 && "rs"@[0] == 'r'
            &&& "js"@.len() == 2 && "js"@[0] == 'j'
            &&& "jsx"@.len() == 3 && "jsx"@[0] == 'j'
            &&& "mjs"@.len() == 3 && "mjs"@[0] == 'm' && "mjs"@[1] == 'j'
            &&& "cjs"@.len() == 3 && "cjs"@[0] == 'c' && "cjs"@[1] == 'j'
            &&& "ts"@.len() == 2 && "ts"@[0] == 't'
            &&& "mts"@.len() == 3 && "mts"@[0] == 'm' && "mts"@[1] == 't'
            &&& "cts"@.len() == 3 && "cts"@[0] == 'c' && "cts"@[1] == 't'
            &&& "tsx"@.len() == 3 && "tsx"@[0] == 't'
            &&& "py"@.len() == 2 && "py"@[0] == 'p'
            &&& "pyi"@.len() == 3 && "pyi"@[0] == 'p'
            &&& "go"@.len() == 2 && "go"@[0] == 'g'
            &&& "java"@.len() == 4
        }),
{
    reveal_strlit("rs");
    reveal_strlit("js");
    reveal_strlit("jsx");
    reveal_strlit("mjs");
    reveal_strlit("cjs");
    reveal_strlit("ts");
    reveal_strlit("mts");
    reveal_strlit("cts");
    reveal_strlit("tsx");
    reveal_strlit("py");
    reveal_strlit("pyi");
    reveal_strlit("go");
    reveal_strlit("java");
}

/// The kinds are different texts, told apart by their lengths and a few characters.
proof fn lemma_kinds_differ()
    ensures
        ({
            &&& "impl_item"@.len() == 9 && "impl_item"@[0] == 'i'
            &&& "trait_item"@.len() == 10 && "trait_item"@[0] == 't'
            &&& "struct_item"@.len() == 11
            &&& "enum_item"@.len() == 9 && "enum_item"@[0] == 'e'
            &&& "mod_item"@.len() == 8
            &&& "function_item"@.len() == 13
            &&& "type_spec"@.len() == 9 && "type_spec"@[0] == 't'
            &&& "class_definition"@.len() == 16 && "class_definition"@[0] == 'c'
            &&& "type_declaration"@.len() == 16 && "type_declaration"@[0] == 't'
            &&& "enum_declaration"@.len() == 16 && "enum_declaration"@[0] == 'e'
            &&& "class_declaration"@.len() == 17 && "class_declaration"@[0] == 'c'
            &&& "method_definition"@.len() == 17 && "method_definition"@[0] == 'm'
            &&& "method_declaration"@.len() == 18 && "method_declaration"@[0] == 'm'
            &&& "record_declaration"@.len() == 18 && "record_declaration"@[0] == 'r'
            &&& "function_definition"@.len() == 19
            &&& "function_declaration"@.len() == 20
            &&& "interface_declaration"@.len() == 21
            &&& "type_alias_declaration"@.len() == 22
            &&& "constructor_declaration"@.len() == 23
            &&& "generator_function_declaration"@.len() == 30
        }),
{
    reveal_strlit("impl_item");
    reveal_strlit("trait_item");
    reveal_strlit("struct_item");
    reveal_strlit("enum_item");
    reveal_strlit("mod_item");
    reveal_strlit("function_item");
    reveal_strlit("type_spec");
    reveal_strlit("class_definition");
    reveal_strlit("type_declaration");
    reveal_strlit("enum_declaration");
    reveal_strlit("class_declaration");
    reveal_strlit("method_definition");
    reveal_strlit("method_declaration");
    reveal_strlit("record_declaration");
    reveal_strlit("function_definition");
    reveal_strlit("function_declaration");
    reveal_strlit("interface_declaration");
    reveal_strlit("type_alias_declaration");
    reveal_strlit("constructor_declaration");
    reveal_strlit("generator_function_declaration");
}

} // verus!
