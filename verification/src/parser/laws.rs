//! What holds of every tree that the phases build.

use super::ast::{lemma_names_map_push, names_map, NodeView};
use super::{
    build_all, build_spec, closing, decode_literal, group, index_node, index_tree, lemma_scan_close_bounds,
    matching_close, names_prefix, parse_spec, resolve_node, resolve_prefix, resolve_tree,
    root_scope, top_level_entries, top_level_names, without_prefix, ParsingErrorView,
    MAX_DEPTH,
};
use super::raw_parser::{
    ends_with_comma, list_has_trailing_comma, lists_spec, node_has_trailing_comma,
    parse_raw_spec, tree_has_trailing_comma,
};
use crate::lexer::form::{all_digits, number_value};
use crate::lexer::token::{text_of, Braket, Token, TokenType, Value};
use crate::lexer::words::lexical_form;
use vstd::prelude::*;

verus! {

/// The kinds of the tokens that a node was built from: a group gives its
/// opening bracket, what its content gives, and its closing bracket; a
/// leaf gives its own kind.
pub open spec fn unparse_node(n: NodeView) -> Seq<TokenType>
    decreases n, 0nat,
{
    match n {
        NodeView::Brace(c) => seq![TokenType::Braket(Braket::OpenBrace)] + unparse_prefix(
            c,
            c.len(),
        ) + seq![TokenType::Braket(Braket::CloseBrace)],
        NodeView::Paren(c) => seq![TokenType::Braket(Braket::OpenParen)] + unparse_prefix(
            c,
            c.len(),
        ) + seq![TokenType::Braket(Braket::CloseParen)],
        NodeView::SquareBraket(c) => seq![TokenType::Braket(Braket::OpenSquareBraket)]
            + unparse_prefix(c, c.len()) + seq![TokenType::Braket(Braket::CloseSquareBraket)],
        NodeView::Token(t) => seq![t.token],
        NodeView::Value(_) => Seq::empty(),
        NodeView::Scope(s) => seq![TokenType::Braket(Braket::OpenBrace)] + unparse_prefix(
            s.content,
            s.content.len(),
        ) + seq![TokenType::Braket(Braket::CloseBrace)],
    }
}

/// The kinds of the tokens that the first `n` nodes were built from.
pub open spec fn unparse_prefix(nodes: Seq<NodeView>, n: nat) -> Seq<TokenType>
    decreases nodes, n,
{
    if n == 0 || n > nodes.len() {
        Seq::empty()
    } else {
        unparse_prefix(nodes, (n - 1) as nat) + unparse_node(nodes[n - 1])
    }
}

/// The kinds of the tokens that a tree was built from, in their order.
pub open spec fn unparse(nodes: Seq<NodeView>) -> Seq<TokenType> {
    unparse_prefix(nodes, nodes.len())
}

/// The kinds of the tokens from `lo` up to `hi`.
pub open spec fn kinds(tokens: Seq<Token>, lo: int, hi: int) -> Seq<TokenType> {
    Seq::new((hi - lo) as nat, |i: int| tokens[lo + i].token)
}

/// No leaf of the node is a bracket.
pub open spec fn node_brackets_matched(n: NodeView) -> bool
    decreases n,
{
    match n {
        NodeView::Brace(c) => brackets_matched(c),
        NodeView::Paren(c) => brackets_matched(c),
        NodeView::SquareBraket(c) => brackets_matched(c),
        NodeView::Token(t) => !(t.token is Braket),
        NodeView::Value(_) => true,
        NodeView::Scope(s) => brackets_matched(s.content),
    }
}

/// No leaf of the tree is a bracket: every bracket stands for a group.
pub open spec fn brackets_matched(nodes: Seq<NodeView>) -> bool
    decreases nodes,
{
    forall|i: int| 0 <= i < nodes.len() ==> node_brackets_matched(#[trigger] nodes[i])
}

proof fn lemma_unparse_prefix_of_push(nodes: Seq<NodeView>, x: NodeView, n: nat)
    requires
        n <= nodes.len(),
    ensures
        unparse_prefix(nodes.push(x), n) == unparse_prefix(nodes, n),
    decreases n,
{
    if n > 0 {
        lemma_unparse_prefix_of_push(nodes, x, (n - 1) as nat);
    }
}

proof fn lemma_unparse_concat(a: Seq<NodeView>, b: Seq<NodeView>)
    ensures
        unparse(a + b) == unparse(a) + unparse(b),
    decreases b.len(),
{
    if b.len() == 0 {
        assert(a + b =~= a);
        assert(unparse(a) + unparse(b) =~= unparse(a));
    } else {
        let b0 = b.drop_last();
        lemma_unparse_concat(a, b0);
        assert(a + b =~= (a + b0).push(b.last()));
        assert(b =~= b0.push(b.last()));
        lemma_unparse_prefix_of_push(a + b0, b.last(), (a + b0).len());
        lemma_unparse_prefix_of_push(b0, b.last(), b0.len());
        assert(unparse(a + b) == unparse(a + b0) + unparse_node(b.last()));
        assert(unparse(b) == unparse(b0) + unparse_node(b.last()));
        assert((unparse(a) + unparse(b0)) + unparse_node(b.last()) =~= unparse(a) + (unparse(b0)
            + unparse_node(b.last())));
    }
}

proof fn lemma_unparse_single(x: NodeView)
    ensures
        unparse(seq![x]) == unparse_node(x),
{
    let s = seq![x];
    assert(unparse_prefix(s, 0) =~= Seq::empty());
    assert(unparse_prefix(s, 1) == unparse_prefix(s, 0) + unparse_node(s[0]));
    assert(Seq::<TokenType>::empty() + unparse_node(x) =~= unparse_node(x));
}

/// Bracket integrity of the builder. Where the tokens from `lo` up to `hi`
/// give a tree, the tree gives those tokens back, kind by kind: each group
/// stands for an opening bracket of its kind, the tokens of its content,
/// and the closing bracket of the same kind. And no bracket is left as a
/// leaf.
pub proof fn law_groups_are_bracket_pairs(tokens: Seq<Token>, lo: int, hi: int, room: nat)
    requires
        0 <= lo <= hi <= tokens.len(),
        build_spec(tokens, lo, hi, room) is Ok,
    ensures
        unparse(build_spec(tokens, lo, hi, room)->Ok_0) == kinds(tokens, lo, hi),
        brackets_matched(build_spec(tokens, lo, hi, room)->Ok_0),
    decreases hi - lo,
{
    let tree = build_spec(tokens, lo, hi, room)->Ok_0;
    if lo >= hi {
        assert(unparse(tree) =~= kinds(tokens, lo, hi));
    } else {
        match tokens[lo].token {
            TokenType::Braket(b) => {
                let m = matching_close(tokens, lo, hi)->Ok_0;
                lemma_scan_close_bounds(tokens, b, lo + 1, hi, 1);
                let content = build_spec(tokens, lo + 1, m, (room - 1) as nat)->Ok_0;
                let rest = build_spec(tokens, m + 1, hi, room)->Ok_0;
                law_groups_are_bracket_pairs(tokens, lo + 1, m, (room - 1) as nat);
                law_groups_are_bracket_pairs(tokens, m + 1, hi, room);
                let g = group(b, content);
                assert(tree == seq![g] + rest);
                lemma_unparse_concat(seq![g], rest);
                lemma_unparse_single(g);
                assert(unparse_node(g) == seq![TokenType::Braket(b)] + unparse(content)
                    + seq![TokenType::Braket(closing(b))]);
                assert(unparse(tree) =~= kinds(tokens, lo, hi));
                assert(node_brackets_matched(g));
                assert forall|i: int| 0 <= i < tree.len() implies node_brackets_matched(
                    #[trigger] tree[i],
                ) by {
                    if i > 0 {
                        assert(tree[i] == rest[i - 1]);
                    }
                }
            },
            _ => {
                let rest = build_spec(tokens, lo + 1, hi, room)->Ok_0;
                law_groups_are_bracket_pairs(tokens, lo + 1, hi, room);
                let leaf = NodeView::Token(tokens[lo]);
                assert(tree == seq![leaf] + rest);
                lemma_unparse_concat(seq![leaf], rest);
                lemma_unparse_single(leaf);
                assert(unparse(tree) =~= kinds(tokens, lo, hi));
                assert forall|i: int| 0 <= i < tree.len() implies node_brackets_matched(
                    #[trigger] tree[i],
                ) by {
                    if i > 0 {
                        assert(tree[i] == rest[i - 1]);
                    }
                }
            },
        }
    }
}

proof fn lemma_resolve_prefix_len(nodes: Seq<NodeView>, n: nat, text: Seq<u8>)
    requires
        n <= nodes.len(),
        resolve_prefix(nodes, n, text) is Ok,
    ensures
        resolve_prefix(nodes, n, text)->Ok_0.len() == n,
        forall|k: nat| k <= n ==> #[trigger] resolve_prefix(nodes, k, text) is Ok,
        forall|i: int|
            0 <= i < n ==> resolve_node(nodes[i], text) == Ok::<NodeView, ParsingErrorView>(
                #[trigger] resolve_prefix(nodes, n, text)->Ok_0[i],
            ),
    decreases n,
{
    if n > 0 {
        lemma_resolve_prefix_len(nodes, (n - 1) as nat, text);
    }
}

proof fn lemma_resolve_prefix_of_fixed(nodes: Seq<NodeView>, n: nat, text: Seq<u8>)
    requires
        n <= nodes.len(),
        forall|i: int|
            0 <= i < n ==> resolve_node(#[trigger] nodes[i], text) == Ok::<
                NodeView,
                ParsingErrorView,
            >(nodes[i]),
    ensures
        resolve_prefix(nodes, n, text) == Ok::<Seq<NodeView>, ParsingErrorView>(
            nodes.take(n as int),
        ),
    decreases n,
{
    if n == 0 {
        assert(nodes.take(0) =~= Seq::empty());
    } else {
        lemma_resolve_prefix_of_fixed(nodes, (n - 1) as nat, text);
        assert(nodes.take(n - 1).push(nodes[n - 1]) =~= nodes.take(n as int));
    }
}

proof fn lemma_resolve_node_idempotent(n: NodeView, text: Seq<u8>)
    requires
        resolve_node(n, text) is Ok,
    ensures
        resolve_node(resolve_node(n, text)->Ok_0, text) == resolve_node(n, text),
    decreases n, 0nat,
{
    match n {
        NodeView::Brace(c) => {
            lemma_resolve_tree_idempotent(c, text);
        },
        NodeView::Paren(c) => {
            lemma_resolve_tree_idempotent(c, text);
        },
        NodeView::SquareBraket(c) => {
            lemma_resolve_tree_idempotent(c, text);
        },
        NodeView::Scope(s) => {
            lemma_resolve_tree_idempotent(s.content, text);
        },
        _ => {},
    }
}

proof fn lemma_resolve_tree_idempotent(nodes: Seq<NodeView>, text: Seq<u8>)
    requires
        resolve_tree(nodes, text) is Ok,
    ensures
        resolve_tree(resolve_tree(nodes, text)->Ok_0, text) == resolve_tree(nodes, text),
    decreases nodes, 1nat,
{
    let r = resolve_tree(nodes, text)->Ok_0;
    lemma_resolve_prefix_len(nodes, nodes.len(), text);
    assert forall|i: int| 0 <= i < r.len() implies resolve_node(#[trigger] r[i], text) == Ok::<
        NodeView,
        ParsingErrorView,
    >(r[i]) by {
        lemma_resolve_node_idempotent(nodes[i], text);
    }
    lemma_resolve_prefix_of_fixed(r, r.len(), text);
    assert(r.take(r.len() as int) =~= r);
}

/// Decoding the literals of a tree whose literals are decoded changes
/// nothing: what the phase gives, it gives again when run on its own
/// result.
pub proof fn law_resolve_idempotent(nodes: Seq<NodeView>, text: Seq<u8>)
    requires
        resolve_tree(nodes, text) is Ok,
    ensures
        resolve_tree(resolve_tree(nodes, text)->Ok_0, text) == resolve_tree(nodes, text),
{
    lemma_resolve_tree_idempotent(nodes, text);
}

proof fn lemma_names_of_indexed(nodes: Seq<NodeView>, n: nat, text: Seq<u8>)
    requires
        n <= nodes.len(),
    ensures
        names_prefix(index_tree(nodes, text), n, text) == names_prefix(nodes, n, text),
    decreases n,
{
    if n > 0 {
        lemma_names_of_indexed(nodes, (n - 1) as nat, text);
    }
}

proof fn lemma_index_node_idempotent(n: NodeView, text: Seq<u8>)
    ensures
        index_node(index_node(n, text), text) == index_node(n, text),
    decreases n, 0nat,
{
    match n {
        NodeView::Brace(c) => {
            lemma_index_tree_idempotent(c, text);
            lemma_names_of_indexed(c, c.len(), text);
        },
        NodeView::Paren(c) => {
            lemma_index_tree_idempotent(c, text);
        },
        NodeView::SquareBraket(c) => {
            lemma_index_tree_idempotent(c, text);
        },
        NodeView::Scope(s) => {
            lemma_index_tree_idempotent(s.content, text);
            lemma_names_of_indexed(s.content, s.content.len(), text);
        },
        _ => {},
    }
}

proof fn lemma_index_tree_idempotent(nodes: Seq<NodeView>, text: Seq<u8>)
    ensures
        index_tree(index_tree(nodes, text), text) == index_tree(nodes, text),
    decreases nodes, 1nat,
{
    let once = index_tree(nodes, text);
    assert forall|i: int| 0 <= i < nodes.len() implies index_node(#[trigger] once[i], text)
        == once[i] by {
        lemma_index_node_idempotent(nodes[i], text);
    }
    assert(index_tree(once, text) =~= once);
}

/// Indexing an indexed tree changes nothing: neither the tree nor the
/// names of its top level.
pub proof fn law_index_idempotent(nodes: Seq<NodeView>, text: Seq<u8>)
    ensures
        index_tree(index_tree(nodes, text), text) == index_tree(nodes, text),
        top_level_entries(index_tree(nodes, text), text) == top_level_entries(nodes, text),
        top_level_names(index_tree(nodes, text), text) == top_level_names(nodes, text),
{
    lemma_index_tree_idempotent(nodes, text);
    lemma_names_of_indexed(nodes, nodes.len(), text);
}

/// Whether no literal is left as a token in the node.
pub open spec fn node_literals_decoded(n: NodeView) -> bool
    decreases n,
{
    match n {
        NodeView::Brace(c) => literals_decoded(c),
        NodeView::Paren(c) => literals_decoded(c),
        NodeView::SquareBraket(c) => literals_decoded(c),
        NodeView::Token(t) => !(t.token is Value),
        NodeView::Value(_) => true,
        NodeView::Scope(s) => literals_decoded(s.content),
    }
}

/// Whether no literal is left as a token in the tree.
pub open spec fn literals_decoded(nodes: Seq<NodeView>) -> bool
    decreases nodes,
{
    forall|i: int| 0 <= i < nodes.len() ==> node_literals_decoded(#[trigger] nodes[i])
}

/// Whether no group in braces is left without its names in the node.
pub open spec fn node_braces_indexed(n: NodeView) -> bool
    decreases n,
{
    match n {
        NodeView::Brace(_) => false,
        NodeView::Paren(c) => braces_indexed(c),
        NodeView::SquareBraket(c) => braces_indexed(c),
        NodeView::Scope(s) => braces_indexed(s.content),
        _ => true,
    }
}

/// Whether no group in braces is left without its names in the tree.
pub open spec fn braces_indexed(nodes: Seq<NodeView>) -> bool
    decreases nodes,
{
    forall|i: int| 0 <= i < nodes.len() ==> node_braces_indexed(#[trigger] nodes[i])
}

/// After the literals are decoded none is left as a token: a value stands
/// in the place of each.
pub proof fn law_no_literal_token_is_left(nodes: Seq<NodeView>, text: Seq<u8>)
    requires
        resolve_tree(nodes, text) is Ok,
    ensures
        literals_decoded(resolve_tree(nodes, text)->Ok_0),
    decreases nodes,
{
    let r = resolve_tree(nodes, text)->Ok_0;
    lemma_resolve_prefix_len(nodes, nodes.len(), text);
    assert forall|i: int| 0 <= i < r.len() implies node_literals_decoded(#[trigger] r[i]) by {
        assert(resolve_node(nodes[i], text) == Ok::<NodeView, ParsingErrorView>(r[i]));
        match nodes[i] {
            NodeView::Brace(c) => {
                law_no_literal_token_is_left(c, text);
            },
            NodeView::Paren(c) => {
                law_no_literal_token_is_left(c, text);
            },
            NodeView::SquareBraket(c) => {
                law_no_literal_token_is_left(c, text);
            },
            NodeView::Scope(s) => {
                law_no_literal_token_is_left(s.content, text);
            },
            _ => {},
        }
    }
}

/// After indexing a scope stands in the place of every group in braces,
/// at any depth.
pub proof fn law_every_brace_is_a_scope(nodes: Seq<NodeView>, text: Seq<u8>)
    ensures
        braces_indexed(index_tree(nodes, text)),
    decreases nodes,
{
    let r = index_tree(nodes, text);
    assert forall|i: int| 0 <= i < r.len() implies node_braces_indexed(#[trigger] r[i]) by {
        match nodes[i] {
            NodeView::Brace(c) => {
                law_every_brace_is_a_scope(c, text);
            },
            NodeView::Paren(c) => {
                law_every_brace_is_a_scope(c, text);
            },
            NodeView::SquareBraket(c) => {
                law_every_brace_is_a_scope(c, text);
            },
            NodeView::Scope(s) => {
                law_every_brace_is_a_scope(s.content, text);
            },
            _ => {},
        }
    }
}

proof fn lemma_indexed_literals_decoded(nodes: Seq<NodeView>, text: Seq<u8>)
    requires
        literals_decoded(nodes),
    ensures
        literals_decoded(index_tree(nodes, text)),
    decreases nodes,
{
    let r = index_tree(nodes, text);
    assert forall|i: int| 0 <= i < r.len() implies node_literals_decoded(#[trigger] r[i]) by {
        assert(node_literals_decoded(nodes[i]));
        match nodes[i] {
            NodeView::Brace(c) => {
                lemma_indexed_literals_decoded(c, text);
            },
            NodeView::Paren(c) => {
                lemma_indexed_literals_decoded(c, text);
            },
            NodeView::SquareBraket(c) => {
                lemma_indexed_literals_decoded(c, text);
            },
            NodeView::Scope(s) => {
                lemma_indexed_literals_decoded(s.content, text);
            },
            _ => {},
        }
    }
}

/// Whether the node at place `i` of `nodes` is an identifier token whose
/// text is `name`.
pub open spec fn names_at(nodes: Seq<NodeView>, i: int, name: Seq<u8>, text: Seq<u8>) -> bool {
    &&& 0 <= i < nodes.len()
    &&& nodes[i] is Token
    &&& nodes[i]->Token_0.token == TokenType::Identifier
    &&& text_of(text, nodes[i]->Token_0.range) == name
}

#[verifier::rlimit(50)]
proof fn lemma_names_prefix(nodes: Seq<NodeView>, n: nat, text: Seq<u8>, name: Seq<u8>)
    requires
        n <= nodes.len(),
    ensures
        names_map(names_prefix(nodes, n, text)).contains_key(name) <==> exists|i: int|
            i < n && #[trigger] names_at(nodes, i, name, text),
        names_map(names_prefix(nodes, n, text)).contains_key(name) ==> {
            let at = names_map(names_prefix(nodes, n, text))[name];
            &&& at < n
            &&& names_at(nodes, at, name, text)
            &&& forall|j: int| at < j < n ==> !names_at(nodes, j, name, text)
        },
    decreases n,
{
    if n > 0 {
        lemma_names_prefix(nodes, (n - 1) as nat, text, name);
        let before = names_prefix(nodes, (n - 1) as nat, text);
        if nodes[n - 1] is Token && nodes[n - 1]->Token_0.token == TokenType::Identifier {
            lemma_names_map_push(before, text_of(text, nodes[n - 1]->Token_0.range), n - 1);
        }
        if names_at(nodes, n - 1, name, text) {
        } else {
            if exists|i: int| i < n && #[trigger] names_at(nodes, i, name, text) {
                let i = choose|i: int| i < n && #[trigger] names_at(nodes, i, name, text);
                assert(i < n - 1 && names_at(nodes, i, name, text));
            }
        }
    }
}

/// Scope locality. The names of a scope are exactly the texts of the
/// identifier tokens that stand in its content themselves, and each name
/// leads to the last place where it stands. What stands inside a nested
/// group gives the scope no name.
pub proof fn law_scope_names_are_local(nodes: Seq<NodeView>, text: Seq<u8>, name: Seq<u8>)
    ensures
        top_level_names(nodes, text).contains_key(name) <==> exists|i: int| #[trigger]
            names_at(nodes, i, name, text),
        top_level_names(nodes, text).contains_key(name) ==> {
            let at = top_level_names(nodes, text)[name];
            &&& names_at(nodes, at, name, text)
            &&& forall|j: int| at < j ==> !names_at(nodes, j, name, text)
        },
{
    lemma_names_prefix(nodes, nodes.len(), text, name);
    if exists|i: int| #[trigger] names_at(nodes, i, name, text) {
        let i = choose|i: int| #[trigger] names_at(nodes, i, name, text);
        assert(i < nodes.len() && names_at(nodes, i, name, text));
    }
}

/// Whether the groups of the node lie at most `room` deep inside one
/// another, the node itself counted.
pub open spec fn node_within_depth(n: NodeView, room: nat) -> bool
    decreases n,
{
    match n {
        NodeView::Brace(c) => room > 0 && within_depth(c, (room - 1) as nat),
        NodeView::Paren(c) => room > 0 && within_depth(c, (room - 1) as nat),
        NodeView::SquareBraket(c) => room > 0 && within_depth(c, (room - 1) as nat),
        NodeView::Scope(s) => room > 0 && within_depth(s.content, (room - 1) as nat),
        _ => true,
    }
}

/// Whether the groups of the tree lie at most `room` deep inside one
/// another.
pub open spec fn within_depth(nodes: Seq<NodeView>, room: nat) -> bool
    decreases nodes,
{
    forall|i: int| 0 <= i < nodes.len() ==> node_within_depth(#[trigger] nodes[i], room)
}

/// The builder keeps within its bound: in the tree that it gives, groups
/// lie at most `room` deep inside one another.
pub proof fn law_groups_lie_within_the_bound(tokens: Seq<Token>, lo: int, hi: int, room: nat)
    requires
        0 <= lo <= hi <= tokens.len(),
        build_spec(tokens, lo, hi, room) is Ok,
    ensures
        within_depth(build_spec(tokens, lo, hi, room)->Ok_0, room),
    decreases hi - lo,
{
    let tree = build_spec(tokens, lo, hi, room)->Ok_0;
    if lo < hi {
        match tokens[lo].token {
            TokenType::Braket(b) => {
                let m = matching_close(tokens, lo, hi)->Ok_0;
                lemma_scan_close_bounds(tokens, b, lo + 1, hi, 1);
                let content = build_spec(tokens, lo + 1, m, (room - 1) as nat)->Ok_0;
                let rest = build_spec(tokens, m + 1, hi, room)->Ok_0;
                law_groups_lie_within_the_bound(tokens, lo + 1, m, (room - 1) as nat);
                law_groups_lie_within_the_bound(tokens, m + 1, hi, room);
                assert(tree == seq![group(b, content)] + rest);
                assert(node_within_depth(group(b, content), room));
                assert forall|i: int| 0 <= i < tree.len() implies node_within_depth(
                    #[trigger] tree[i],
                    room,
                ) by {
                    if i > 0 {
                        assert(tree[i] == rest[i - 1]);
                    }
                }
            },
            _ => {
                let rest = build_spec(tokens, lo + 1, hi, room)->Ok_0;
                law_groups_lie_within_the_bound(tokens, lo + 1, hi, room);
                assert(tree == seq![NodeView::Token(tokens[lo])] + rest);
                assert forall|i: int| 0 <= i < tree.len() implies node_within_depth(
                    #[trigger] tree[i],
                    room,
                ) by {
                    if i > 0 {
                        assert(tree[i] == rest[i - 1]);
                    }
                }
            },
        }
    }
}

proof fn lemma_resolved_within_depth(nodes: Seq<NodeView>, text: Seq<u8>, room: nat)
    requires
        within_depth(nodes, room),
        resolve_tree(nodes, text) is Ok,
    ensures
        within_depth(resolve_tree(nodes, text)->Ok_0, room),
    decreases nodes,
{
    let r = resolve_tree(nodes, text)->Ok_0;
    lemma_resolve_prefix_len(nodes, nodes.len(), text);
    assert forall|i: int| 0 <= i < r.len() implies node_within_depth(#[trigger] r[i], room) by {
        assert(node_within_depth(nodes[i], room));
        assert(resolve_node(nodes[i], text) == Ok::<NodeView, ParsingErrorView>(r[i]));
        match nodes[i] {
            NodeView::Brace(c) => {
                lemma_resolved_within_depth(c, text, (room - 1) as nat);
            },
            NodeView::Paren(c) => {
                lemma_resolved_within_depth(c, text, (room - 1) as nat);
            },
            NodeView::SquareBraket(c) => {
                lemma_resolved_within_depth(c, text, (room - 1) as nat);
            },
            NodeView::Scope(s) => {
                lemma_resolved_within_depth(s.content, text, (room - 1) as nat);
            },
            _ => {},
        }
    }
}

proof fn lemma_indexed_within_depth(nodes: Seq<NodeView>, text: Seq<u8>, room: nat)
    requires
        within_depth(nodes, room),
    ensures
        within_depth(index_tree(nodes, text), room),
    decreases nodes,
{
    let r = index_tree(nodes, text);
    assert forall|i: int| 0 <= i < r.len() implies node_within_depth(#[trigger] r[i], room) by {
        assert(node_within_depth(nodes[i], room));
        match nodes[i] {
            NodeView::Brace(c) => {
                lemma_indexed_within_depth(c, text, (room - 1) as nat);
            },
            NodeView::Paren(c) => {
                lemma_indexed_within_depth(c, text, (room - 1) as nat);
            },
            NodeView::SquareBraket(c) => {
                lemma_indexed_within_depth(c, text, (room - 1) as nat);
            },
            NodeView::Scope(s) => {
                lemma_indexed_within_depth(s.content, text, (room - 1) as nat);
            },
            _ => {},
        }
    }
}

/// The kinds `s` without the kinds of literals.
pub open spec fn without_literals(s: Seq<TokenType>) -> Seq<TokenType> {
    s.filter(|k: TokenType| !(k is Value))
}

proof fn lemma_without_literals_single(k: TokenType)
    ensures
        without_literals(seq![k]) == if k is Value {
            Seq::<TokenType>::empty()
        } else {
            seq![k]
        },
        without_literals(Seq::<TokenType>::empty()) == Seq::<TokenType>::empty(),
{
    reveal(Seq::filter);
    let s = seq![k];
    assert(s.drop_last() =~= Seq::<TokenType>::empty());
    assert(s.last() == k);
    assert(without_literals(s.drop_last()) =~= Seq::<TokenType>::empty());
    assert(Seq::<TokenType>::empty().push(k) =~= seq![k]);
}

proof fn lemma_without_literals_group(open: TokenType, inner: Seq<TokenType>, close: TokenType)
    requires
        open is Braket,
        close is Braket,
    ensures
        without_literals(seq![open] + inner + seq![close]) == seq![open] + without_literals(inner)
            + seq![close],
{
    let pred = |k: TokenType| !(k is Value);
    Seq::filter_distributes_over_add(seq![open] + inner, seq![close], pred);
    Seq::filter_distributes_over_add(seq![open], inner, pred);
    lemma_without_literals_single(open);
    lemma_without_literals_single(close);
}

proof fn lemma_unparse_resolved_node(n: NodeView, text: Seq<u8>)
    requires
        resolve_node(n, text) is Ok,
    ensures
        unparse_node(resolve_node(n, text)->Ok_0) == without_literals(unparse_node(n)),
    decreases n, 0nat,
{
    match n {
        NodeView::Brace(c) => {
            lemma_unparse_resolved_prefix(c, c.len(), text);
            lemma_resolve_prefix_len(c, c.len(), text);
            lemma_without_literals_group(
                TokenType::Braket(Braket::OpenBrace),
                unparse(c),
                TokenType::Braket(Braket::CloseBrace),
            );
        },
        NodeView::Paren(c) => {
            lemma_unparse_resolved_prefix(c, c.len(), text);
            lemma_resolve_prefix_len(c, c.len(), text);
            lemma_without_literals_group(
                TokenType::Braket(Braket::OpenParen),
                unparse(c),
                TokenType::Braket(Braket::CloseParen),
            );
        },
        NodeView::SquareBraket(c) => {
            lemma_unparse_resolved_prefix(c, c.len(), text);
            lemma_resolve_prefix_len(c, c.len(), text);
            lemma_without_literals_group(
                TokenType::Braket(Braket::OpenSquareBraket),
                unparse(c),
                TokenType::Braket(Braket::CloseSquareBraket),
            );
        },
        NodeView::Scope(s) => {
            lemma_unparse_resolved_prefix(s.content, s.content.len(), text);
            lemma_resolve_prefix_len(s.content, s.content.len(), text);
            lemma_without_literals_group(
                TokenType::Braket(Braket::OpenBrace),
                unparse(s.content),
                TokenType::Braket(Braket::CloseBrace),
            );
        },
        NodeView::Token(t) => {
            lemma_without_literals_single(t.token);
        },
        NodeView::Value(_) => {
            lemma_without_literals_single(TokenType::Comment);
        },
    }
}

proof fn lemma_unparse_resolved_prefix(nodes: Seq<NodeView>, n: nat, text: Seq<u8>)
    requires
        n <= nodes.len(),
        resolve_prefix(nodes, n, text) is Ok,
    ensures
        unparse(resolve_prefix(nodes, n, text)->Ok_0) == without_literals(
            unparse_prefix(nodes, n),
        ),
    decreases nodes, n,
{
    if n == 0 {
        lemma_without_literals_single(TokenType::Comment);
    } else {
        let done = resolve_prefix(nodes, (n - 1) as nat, text)->Ok_0;
        let x = resolve_node(nodes[n - 1], text)->Ok_0;
        lemma_unparse_resolved_prefix(nodes, (n - 1) as nat, text);
        lemma_unparse_resolved_node(nodes[n - 1], text);
        lemma_resolve_prefix_len(nodes, (n - 1) as nat, text);
        lemma_unparse_prefix_of_push(done, x, done.len());
        Seq::filter_distributes_over_add(
            unparse_prefix(nodes, (n - 1) as nat),
            unparse_node(nodes[n - 1]),
            |k: TokenType| !(k is Value),
        );
    }
}

proof fn lemma_unparse_indexed_node(n: NodeView, text: Seq<u8>)
    ensures
        unparse_node(index_node(n, text)) == unparse_node(n),
    decreases n, 0nat,
{
    match n {
        NodeView::Brace(c) => {
            lemma_unparse_indexed_prefix(c, c.len(), text);
        },
        NodeView::Paren(c) => {
            lemma_unparse_indexed_prefix(c, c.len(), text);
        },
        NodeView::SquareBraket(c) => {
            lemma_unparse_indexed_prefix(c, c.len(), text);
        },
        NodeView::Scope(s) => {
            lemma_unparse_indexed_prefix(s.content, s.content.len(), text);
        },
        _ => {},
    }
}

proof fn lemma_unparse_indexed_prefix(nodes: Seq<NodeView>, n: nat, text: Seq<u8>)
    requires
        n <= nodes.len(),
    ensures
        unparse_prefix(index_tree(nodes, text), n) == unparse_prefix(nodes, n),
    decreases nodes, n,
{
    if n > 0 {
        lemma_unparse_indexed_prefix(nodes, (n - 1) as nat, text);
        lemma_unparse_indexed_node(nodes[n - 1], text);
    }
}

proof fn lemma_resolved_brackets_matched(nodes: Seq<NodeView>, text: Seq<u8>)
    requires
        brackets_matched(nodes),
        resolve_tree(nodes, text) is Ok,
    ensures
        brackets_matched(resolve_tree(nodes, text)->Ok_0),
    decreases nodes,
{
    let r = resolve_tree(nodes, text)->Ok_0;
    lemma_resolve_prefix_len(nodes, nodes.len(), text);
    assert forall|i: int| 0 <= i < r.len() implies node_brackets_matched(#[trigger] r[i]) by {
        assert(node_brackets_matched(nodes[i]));
        assert(resolve_node(nodes[i], text) == Ok::<NodeView, ParsingErrorView>(r[i]));
        match nodes[i] {
            NodeView::Brace(c) => {
                lemma_resolved_brackets_matched(c, text);
            },
            NodeView::Paren(c) => {
                lemma_resolved_brackets_matched(c, text);
            },
            NodeView::SquareBraket(c) => {
                lemma_resolved_brackets_matched(c, text);
            },
            NodeView::Scope(s) => {
                lemma_resolved_brackets_matched(s.content, text);
            },
            _ => {},
        }
    }
}

proof fn lemma_indexed_brackets_matched(nodes: Seq<NodeView>, text: Seq<u8>)
    requires
        brackets_matched(nodes),
    ensures
        brackets_matched(index_tree(nodes, text)),
    decreases nodes,
{
    let r = index_tree(nodes, text);
    assert forall|i: int| 0 <= i < r.len() implies node_brackets_matched(#[trigger] r[i]) by {
        assert(node_brackets_matched(nodes[i]));
        match nodes[i] {
            NodeView::Brace(c) => {
                lemma_indexed_brackets_matched(c, text);
            },
            NodeView::Paren(c) => {
                lemma_indexed_brackets_matched(c, text);
            },
            NodeView::SquareBraket(c) => {
                lemma_indexed_brackets_matched(c, text);
            },
            NodeView::Scope(s) => {
                lemma_indexed_brackets_matched(s.content, text);
            },
            _ => {},
        }
    }
}

/// Bracket integrity of the whole pipeline. The tree of a program is one
/// scope. Read back, its content gives the tokens of the program that are
/// no literals, kind by kind and in their order, each group standing for
/// a pair of brackets of its kind. No bracket is left in it as a leaf, no
/// literal as a token, and no group in braces without its names; and the
/// groups lie within the bound of the builder, the root counted.
pub proof fn law_tree_reads_back_as_tokens(tokens: Seq<Token>, text: Seq<u8>)
    requires
        parse_spec(tokens, text) is Ok,
    ensures
        parse_spec(tokens, text)->Ok_0.len() == 1,
        parse_spec(tokens, text)->Ok_0[0] is Scope,
        unparse(parse_spec(tokens, text)->Ok_0[0]->Scope_0.content) == without_literals(
            kinds(tokens, 0, tokens.len() as int),
        ),
        brackets_matched(parse_spec(tokens, text)->Ok_0),
        literals_decoded(parse_spec(tokens, text)->Ok_0),
        braces_indexed(parse_spec(tokens, text)->Ok_0),
        within_depth(parse_spec(tokens, text)->Ok_0, (MAX_DEPTH + 1) as nat),
{
    let groups = build_all(tokens)->Ok_0;
    let resolved = resolve_tree(groups, text)->Ok_0;
    let tree = parse_spec(tokens, text)->Ok_0;
    law_groups_are_bracket_pairs(tokens, 0, tokens.len() as int, MAX_DEPTH as nat);
    lemma_unparse_resolved_prefix(groups, groups.len(), text);
    lemma_resolve_prefix_len(groups, groups.len(), text);
    lemma_unparse_indexed_prefix(resolved, resolved.len(), text);
    lemma_resolved_brackets_matched(groups, text);
    lemma_indexed_brackets_matched(resolved, text);
    law_no_literal_token_is_left(groups, text);
    lemma_indexed_literals_decoded(resolved, text);
    law_every_brace_is_a_scope(resolved, text);
    law_groups_lie_within_the_bound(tokens, 0, tokens.len() as int, MAX_DEPTH as nat);
    lemma_resolved_within_depth(groups, text, MAX_DEPTH as nat);
    lemma_indexed_within_depth(resolved, text, MAX_DEPTH as nat);
    assert(tree[0] == root_scope(resolved, text));
    assert(node_within_depth(tree[0], (MAX_DEPTH + 1) as nat));
    assert(node_brackets_matched(tree[0]));
    assert(node_literals_decoded(tree[0]));
    assert(node_braces_indexed(tree[0]));
}

/// The digits of a numeral of kind `kind` with the text `s`, and its base.
pub open spec fn numeral_digits(kind: Value, s: Seq<u8>) -> (Seq<u8>, int) {
    match kind {
        Value::Hex => (without_prefix(s, 'x' as u8), 16),
        Value::Oct => (without_prefix(s, 'o' as u8), 8),
        Value::Bin => (without_prefix(s, 'b' as u8), 2),
        _ => (s, 10),
    }
}

/// A literal that has the lexical form of its kind decodes, unless it is
/// a numeral too large for 64 bits. So on the tokens that the tokenizer
/// gives, the only error of decoding is a number that does not fit.
pub proof fn law_well_formed_literals_decode(kind: Value, s: Seq<u8>)
    requires
        lexical_form(TokenType::Value(kind), s),
    ensures
        decode_literal(kind, s) is Err <==> {
            &&& kind == Value::Int || kind == Value::Hex || kind == Value::Oct || kind
                == Value::Bin
            &&& number_value(numeral_digits(kind, s).0, numeral_digits(kind, s).1) > u64::MAX
        },
        decode_literal(kind, s) is Err ==> decode_literal(kind, s)->Err_0
            == ParsingErrorView::Unparsable(s),
{
    match kind {
        Value::Int => {
            assert(all_digits(s, 10));
        },
        Value::Hex => {
            assert(without_prefix(s, 'x' as u8) == s.skip(2));
        },
        Value::Oct => {
            assert(without_prefix(s, 'o' as u8) == s.skip(2));
        },
        Value::Bin => {
            assert(without_prefix(s, 'b' as u8) == s.skip(2));
        },
        _ => {},
    }
}

/// Only a group can have too many commas. A tree is refused exactly where
/// one of its nodes is a group, or holds a group at some depth, whose
/// content ends with a comma; so a tree of leaves is never refused,
/// wherever its commas stand.
pub proof fn law_only_groups_have_too_many_commas(nodes: Seq<NodeView>)
    ensures
        lists_spec(nodes) is Err <==> exists|i: int|
            0 <= i < nodes.len() && node_has_trailing_comma(#[trigger] nodes[i]),
        lists_spec(nodes) is Err ==> lists_spec(nodes)->Err_0 == ParsingErrorView::TooManyCommas,
        lists_spec(nodes) is Ok ==> lists_spec(nodes)->Ok_0 == nodes,
        (forall|i: int|
            0 <= i < nodes.len() ==> (#[trigger] nodes[i]) is Token || nodes[i] is Value)
            ==> lists_spec(nodes) is Ok,
{
}

/// A group whose content ends with a comma is refused, whatever stands
/// around it; and a group is in order where neither its content ends with
/// a comma nor a group inside it is refused.
pub proof fn law_group_with_trailing_comma(n: NodeView, content: Seq<NodeView>)
    requires
        n == NodeView::Brace(content) || n == NodeView::Paren(content) || n
            == NodeView::SquareBraket(content) || (n is Scope && n->Scope_0.content == content),
    ensures
        node_has_trailing_comma(n) <==> ends_with_comma(content) || tree_has_trailing_comma(
            content,
        ),
{
    assert(node_has_trailing_comma(n) == list_has_trailing_comma(content));
}

/// The whole program is the content of its root scope: where the program
/// builds and ends with a comma, the full pipeline gives `TooManyCommas`.
pub proof fn law_program_ending_with_comma_is_refused(tokens: Seq<Token>, text: Seq<u8>)
    requires
        parse_spec(tokens, text) is Ok,
        ends_with_comma(parse_spec(tokens, text)->Ok_0[0]->Scope_0.content),
    ensures
        parse_raw_spec(tokens, text) == Err::<Seq<NodeView>, ParsingErrorView>(
            ParsingErrorView::TooManyCommas,
        ),
{
    let tree = parse_spec(tokens, text)->Ok_0;
    assert(tree[0] is Scope);
    assert(node_has_trailing_comma(tree[0]));
}

} // verus!
