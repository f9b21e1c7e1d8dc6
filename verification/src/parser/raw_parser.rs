//! The full pipeline from tokens to tree, lists included.

use super::ast::{clone_tree, tree_view, Node, NodeView, Tree, Type, TypeView};
use super::{outcome_view, parse, parse_spec, ParsingError, ParsingErrorView};
use crate::lexer::form::{bytes_of, text_is};
use crate::lexer::token::{slice_of, text_of, Range, Symbol, Token, TokenType};
use vstd::prelude::*;
use vstd::slice::slice_to_vec;
use vstd::string::*;

verus! {

/// Whether the last of `nodes` is a comma.
pub open spec fn ends_with_comma(nodes: Seq<NodeView>) -> bool {
    nodes.len() > 0 && match nodes.last() {
        NodeView::Token(t) => t.token == TokenType::Symbol(Symbol::Comma),
        _ => false,
    }
}

/// Whether a group in `n`, at any depth, ends with a comma: `n` itself,
/// where it is a group, or a group inside it.
pub open spec fn node_has_trailing_comma(n: NodeView) -> bool
    decreases n, 0nat,
{
    match n {
        NodeView::Brace(c) => list_has_trailing_comma(c),
        NodeView::Paren(c) => list_has_trailing_comma(c),
        NodeView::SquareBraket(c) => list_has_trailing_comma(c),
        NodeView::Scope(s) => list_has_trailing_comma(s.content),
        _ => false,
    }
}

/// Whether a group among `nodes`, or inside one of them, ends with a
/// comma. Where `nodes` themselves end is not looked at: they stand
/// between no brackets.
pub open spec fn tree_has_trailing_comma(nodes: Seq<NodeView>) -> bool
    decreases nodes, 1nat,
{
    exists|i: int| 0 <= i < nodes.len() && node_has_trailing_comma(#[trigger] nodes[i])
}

/// Whether the list `nodes`, the content of a group, ends with a comma
/// before the bracket that closes it, or a group inside it does.
pub open spec fn list_has_trailing_comma(nodes: Seq<NodeView>) -> bool
    decreases nodes, 2nat,
{
    ends_with_comma(nodes) || tree_has_trailing_comma(nodes)
}

/// What the phase of lists makes of a tree: the tree itself, or
/// `TooManyCommas` where a group in it, at any depth, ends with a comma.
pub open spec fn lists_spec(nodes: Seq<NodeView>) -> Result<Seq<NodeView>, ParsingErrorView> {
    if tree_has_trailing_comma(nodes) {
        Err(ParsingErrorView::TooManyCommas)
    } else {
        Ok(nodes)
    }
}

/// The tree of a program, every list in it checked.
pub open spec fn parse_raw_spec(tokens: Seq<Token>, text: Seq<u8>) -> Result<
    Seq<NodeView>,
    ParsingErrorView,
> {
    match parse_spec(tokens, text) {
        Err(e) => Err(e),
        Ok(tree) => lists_spec(tree),
    }
}

fn node_trailing_comma(node: &Node) -> (r: bool)
    ensures
        r == node_has_trailing_comma(node@),
    decreases node, 0nat,
{
    match node {
        Node::Brace(c) => list_trailing_comma(c),
        Node::Paren(c) => list_trailing_comma(c),
        Node::SquareBraket(c) => list_trailing_comma(c),
        Node::Scope(s) => list_trailing_comma(&s.content),
        _ => false,
    }
}

fn trailing_comma(tree: &Tree) -> (r: bool)
    ensures
        r == tree_has_trailing_comma(tree_view(tree@)),
    decreases tree, 1nat,
{
    let mut i: usize = 0;
    while i < tree.len()
        invariant
            0 <= i <= tree@.len(),
            forall|j: int|
                0 <= j < i ==> !node_has_trailing_comma(#[trigger] tree_view(tree@)[j]),
        decreases tree@.len() - i,
    {
        if node_trailing_comma(&tree[i]) {
            assert(node_has_trailing_comma(tree_view(tree@)[i as int]));
            return true;
        }
        i += 1;
    }
    false
}

fn list_trailing_comma(content: &Tree) -> (r: bool)
    ensures
        r == list_has_trailing_comma(tree_view(content@)),
    decreases content, 2nat,
{
    let n = content.len();
    if n > 0 {
        if let Node::Token(t) = &content[n - 1] {
            if t.token == TokenType::Symbol(Symbol::Comma) {
                return true;
            }
        }
    }
    trailing_comma(content)
}

/// Checks every list of the tree: the content of each group, at any
/// depth. A group that ends with a comma before the bracket that closes
/// it is refused with `TooManyCommas`; otherwise the tree comes back as it
/// went in. The nodes handed in stand between no brackets themselves, so
/// a comma at their end is no error.
pub fn parse_construction_lists(tree: &Tree) -> (r: Result<Tree, ParsingError>)
    ensures
        outcome_view(r) == lists_spec(tree_view(tree@)),
{
    if trailing_comma(tree) {
        Err(ParsingError::TooManyCommas)
    } else {
        Ok(clone_tree(tree))
    }
}

/// Builds the tree of a program from its tokens and checks its lists. The
/// whole program is the content of the root scope, so a program that ends
/// with a comma is refused like any block that does.
pub fn parse_raw(tokens: &Vec<Token>, program: &[u8]) -> (r: Result<Tree, ParsingError>)
    ensures
        outcome_view(r) == parse_raw_spec(tokens@, program@),
{
    let tree = match parse(tokens, program) {
        Ok(t) => t,
        Err(e) => {
            return Err(e);
        },
    };
    parse_construction_lists(&tree)
}

/// The type that the name `s` stands for: one of the built-in types, or a
/// type of the user's with that name.
pub open spec fn type_of_name(s: Seq<u8>) -> TypeView {
    if s == bytes_of("u8"@) {
        TypeView::U8
    } else if s == bytes_of("u16"@) {
        TypeView::U16
    } else if s == bytes_of("u32"@) {
        TypeView::U32
    } else if s == bytes_of("u64"@) {
        TypeView::U64
    } else if s == bytes_of("i32"@) {
        TypeView::I32
    } else if s == bytes_of("i64"@) {
        TypeView::I64
    } else if s == bytes_of("f32"@) {
        TypeView::F32
    } else if s == bytes_of("f64"@) {
        TypeView::F64
    } else if s == bytes_of("str"@) {
        TypeView::String
    } else {
        TypeView::UserType(s)
    }
}

/// Reads the text of `program` under `r` as the name of a type.
pub fn parse_type(r: Range, program: &[u8]) -> (t: Type)
    ensures
        t@ == type_of_name(text_of(program@, r)),
{
    proof {
        reveal_strlit("u8");
        reveal_strlit("u16");
        reveal_strlit("u32");
        reveal_strlit("u64");
        reveal_strlit("i32");
        reveal_strlit("i64");
        reveal_strlit("f32");
        reveal_strlit("f64");
        reveal_strlit("str");
    }
    let s = slice_of(program, r);
    if text_is(s, "u8") {
        Type::U8
    } else if text_is(s, "u16") {
        Type::U16
    } else if text_is(s, "u32") {
        Type::U32
    } else if text_is(s, "u64") {
        Type::U64
    } else if text_is(s, "i32") {
        Type::I32
    } else if text_is(s, "i64") {
        Type::I64
    } else if text_is(s, "f32") {
        Type::F32
    } else if text_is(s, "f64") {
        Type::F64
    } else if text_is(s, "str") {
        Type::String
    } else {
        Type::UserType(slice_to_vec(s))
    }
}

} // verus!
