//! The tree builder: nested groups, typed literals and block scopes.

pub mod ast;
pub mod laws;
pub mod raw_parser;
pub mod render;

use crate::lexer::form::{decode_number, float_form, is_float, parse_number};
use crate::lexer::token::{slice_of, text_of, Braket, Token, TokenType, Value};
use ast::{
    entries_view, lemma_entries_view_push, lemma_tree_view_push, names_map, tree_view,
    IdentEntry, IdentMap,
    Literal, LiteralView, Node, NodeView, RealValue, RealValueView, Scope, ScopeView, Tree,
    Type, TypeView,
};
use vstd::prelude::*;
use vstd::slice::slice_to_vec;

verus! {

/// Why a tree could not be built.
#[derive(Debug, PartialEq, Eq)]
pub enum ParsingError {
    /// A token that opens no group stood where a group had to be matched.
    NonMatchable(TokenType),
    /// The bracket at this place in the token list is never closed.
    MatchNotFound((usize, Braket)),
    /// The text of a literal does not write a value of its kind.
    Unparsable(Vec<u8>),
    /// Kept for the parsing of assignments.
    MissingColonBeforeTypeInAssignment,
    /// Kept for the parsing of assignments.
    CannotAssignTo(Node),
    /// A group ends with a comma.
    TooManyCommas,
    /// The bracket at this place in the token list opens a group inside
    /// more groups than the builder goes into.
    TooDeep(usize),
}

/// The model of a [`ParsingError`].
pub enum ParsingErrorView {
    NonMatchable(TokenType),
    MatchNotFound((usize, Braket)),
    Unparsable(Seq<u8>),
    MissingColonBeforeTypeInAssignment,
    CannotAssignTo(NodeView),
    TooManyCommas,
    TooDeep(usize),
}

impl View for ParsingError {
    type V = ParsingErrorView;

    open spec fn view(&self) -> ParsingErrorView {
        match self {
            ParsingError::NonMatchable(t) => ParsingErrorView::NonMatchable(*t),
            ParsingError::MatchNotFound(p) => ParsingErrorView::MatchNotFound(*p),
            ParsingError::Unparsable(t) => ParsingErrorView::Unparsable(t@),
            ParsingError::MissingColonBeforeTypeInAssignment => {
                ParsingErrorView::MissingColonBeforeTypeInAssignment
            },
            ParsingError::CannotAssignTo(n) => ParsingErrorView::CannotAssignTo(n@),
            ParsingError::TooManyCommas => ParsingErrorView::TooManyCommas,
            ParsingError::TooDeep(at) => ParsingErrorView::TooDeep(*at),
        }
    }
}

/// The model of what a phase returns: the model of the tree, or of the
/// error.
pub open spec fn outcome_view(r: Result<Tree, ParsingError>) -> Result<
    Seq<NodeView>,
    ParsingErrorView,
> {
    match r {
        Ok(t) => Ok(tree_view(t@)),
        Err(e) => Err(e@),
    }
}

/// `s` without a leading `0` and `marker`, where it begins with them.
pub open spec fn without_prefix(s: Seq<u8>, marker: u8) -> Seq<u8> {
    if s.len() >= 2 && s[0] == '0' as u8 && s[1] == marker {
        s.skip(2)
    } else {
        s
    }
}

/// A literal that holds an unsigned 64-bit number.
pub open spec fn number_literal(n: u64) -> LiteralView {
    LiteralView { ttype: TypeView::U64, value: RealValueView::U64(n) }
}

/// The literal that `digits` write in base `radix`; `s` is the whole text
/// of the token, which the error carries.
pub open spec fn decode_integer(s: Seq<u8>, digits: Seq<u8>, radix: int) -> Result<
    LiteralView,
    ParsingErrorView,
> {
    match decode_number(digits, radix) {
        Some(n) => Ok(number_literal(n)),
        None => Err(ParsingErrorView::Unparsable(s)),
    }
}

/// The literal that the text `s` of a token of kind `kind` writes.
///
/// A decimal, hexadecimal, octal or binary numeral gives its number, which
/// must fit in 64 bits; a floating-point numeral is kept as text; a string
/// and a byte literal lose the quote at either end and keep the rest as it
/// stands, escapes included.
pub open spec fn decode_literal(kind: Value, s: Seq<u8>) -> Result<LiteralView, ParsingErrorView> {
    match kind {
        Value::Int => decode_integer(s, s, 10),
        Value::Hex => decode_integer(s, without_prefix(s, 'x' as u8), 16),
        Value::Oct => decode_integer(s, without_prefix(s, 'o' as u8), 8),
        Value::Bin => decode_integer(s, without_prefix(s, 'b' as u8), 2),
        Value::Float => if float_form(s) {
            Ok(LiteralView { ttype: TypeView::F64, value: RealValueView::F64(s) })
        } else {
            Err(ParsingErrorView::Unparsable(s))
        },
        Value::String => if s.len() >= 2 {
            Ok(
                LiteralView {
                    ttype: TypeView::String,
                    value: RealValueView::String(s.subrange(1, s.len() - 1)),
                },
            )
        } else {
            Err(ParsingErrorView::Unparsable(s))
        },
        Value::Byte => if s.len() >= 2 {
            Ok(
                LiteralView {
                    ttype: TypeView::Byte,
                    value: RealValueView::Byte(s.subrange(1, s.len() - 1)),
                },
            )
        } else {
            Err(ParsingErrorView::Unparsable(s))
        },
        Value::True => Ok(LiteralView { ttype: TypeView::Bool, value: RealValueView::Bool(true) }),
        Value::False => Ok(
            LiteralView { ttype: TypeView::Bool, value: RealValueView::Bool(false) },
        ),
        Value::Null => Ok(LiteralView { ttype: TypeView::Null, value: RealValueView::Null }),
        Value::Error => Ok(LiteralView { ttype: TypeView::Error, value: RealValueView::Error }),
    }
}

/// A node with its literal tokens decoded, or the error of the first
/// literal in it that does not decode.
pub open spec fn resolve_node(n: NodeView, text: Seq<u8>) -> Result<NodeView, ParsingErrorView>
    decreases n, 0nat,
{
    match n {
        NodeView::Brace(c) => match resolve_prefix(c, c.len(), text) {
            Ok(r) => Ok(NodeView::Brace(r)),
            Err(e) => Err(e),
        },
        NodeView::Paren(c) => match resolve_prefix(c, c.len(), text) {
            Ok(r) => Ok(NodeView::Paren(r)),
            Err(e) => Err(e),
        },
        NodeView::SquareBraket(c) => match resolve_prefix(c, c.len(), text) {
            Ok(r) => Ok(NodeView::SquareBraket(r)),
            Err(e) => Err(e),
        },
        NodeView::Token(t) => match t.token {
            TokenType::Value(kind) => match decode_literal(kind, text_of(text, t.range)) {
                Ok(l) => Ok(NodeView::Value(l)),
                Err(e) => Err(e),
            },
            _ => Ok(n),
        },
        NodeView::Value(_) => Ok(n),
        NodeView::Scope(s) => match resolve_prefix(s.content, s.content.len(), text) {
            Ok(r) => Ok(NodeView::Scope(ScopeView { identifiers: s.identifiers, content: r })),
            Err(e) => Err(e),
        },
    }
}

/// The first `n` nodes of `nodes` with their literal tokens decoded, in
/// order, or the error of the first literal among them that does not decode.
pub open spec fn resolve_prefix(nodes: Seq<NodeView>, n: nat, text: Seq<u8>) -> Result<
    Seq<NodeView>,
    ParsingErrorView,
>
    decreases nodes, n,
{
    if n == 0 || n > nodes.len() {
        Ok(Seq::empty())
    } else {
        match resolve_prefix(nodes, (n - 1) as nat, text) {
            Err(e) => Err(e),
            Ok(done) => match resolve_node(nodes[n - 1], text) {
                Err(e) => Err(e),
                Ok(r) => Ok(done.push(r)),
            },
        }
    }
}

/// A tree with its literal tokens decoded.
pub open spec fn resolve_tree(nodes: Seq<NodeView>, text: Seq<u8>) -> Result<
    Seq<NodeView>,
    ParsingErrorView,
> {
    resolve_prefix(nodes, nodes.len(), text)
}

/// Decodes the text `s` of a literal token of kind `kind`.
pub fn literal(kind: Value, s: &[u8]) -> (r: Result<Literal, ParsingError>)
    ensures
        match r {
            Ok(l) => decode_literal(kind, s@) == Ok::<LiteralView, ParsingErrorView>(l@),
            Err(e) => decode_literal(kind, s@) == Err::<LiteralView, ParsingErrorView>(e@),
        },
{
    match kind {
        Value::Int => integer(s, s, 10),
        Value::Hex => integer(s, strip_prefix(s, 'x' as u8), 16),
        Value::Oct => integer(s, strip_prefix(s, 'o' as u8), 8),
        Value::Bin => integer(s, strip_prefix(s, 'b' as u8), 2),
        Value::Float => if is_float(s) {
            Ok(Literal { ttype: Type::F64, value: RealValue::F64(slice_to_vec(s)) })
        } else {
            Err(ParsingError::Unparsable(slice_to_vec(s)))
        },
        Value::String => if s.len() >= 2 {
            Ok(Literal { ttype: Type::String, value: RealValue::String(unquoted(s)) })
        } else {
            Err(ParsingError::Unparsable(slice_to_vec(s)))
        },
        Value::Byte => if s.len() >= 2 {
            Ok(Literal { ttype: Type::Byte, value: RealValue::Byte(unquoted(s)) })
        } else {
            Err(ParsingError::Unparsable(slice_to_vec(s)))
        },
        Value::True => Ok(Literal { ttype: Type::Bool, value: RealValue::Bool(true) }),
        Value::False => Ok(Literal { ttype: Type::Bool, value: RealValue::Bool(false) }),
        Value::Null => Ok(Literal { ttype: Type::Null, value: RealValue::Null }),
        Value::Error => Ok(Literal { ttype: Type::Error, value: RealValue::Error }),
    }
}

fn integer(s: &[u8], digits: &[u8], radix: u64) -> (r: Result<Literal, ParsingError>)
    requires
        2 <= radix <= 16,
    ensures
        match r {
            Ok(l) => decode_integer(s@, digits@, radix as int) == Ok::<
                LiteralView,
                ParsingErrorView,
            >(l@),
            Err(e) => decode_integer(s@, digits@, radix as int) == Err::<
                LiteralView,
                ParsingErrorView,
            >(e@),
        },
{
    match parse_number(digits, radix) {
        Some(n) => Ok(Literal { ttype: Type::U64, value: RealValue::U64(n) }),
        None => Err(ParsingError::Unparsable(slice_to_vec(s))),
    }
}

fn strip_prefix(s: &[u8], marker: u8) -> (r: &[u8])
    ensures
        r@ == without_prefix(s@, marker),
{
    if s.len() >= 2 && s[0] == '0' as u8 && s[1] == marker {
        let r = &s[2..s.len()];
        assert(r@ =~= s@.skip(2));
        r
    } else {
        s
    }
}

fn unquoted(s: &[u8]) -> (r: Vec<u8>)
    requires
        s@.len() >= 2,
    ensures
        r@ == s@.subrange(1, s@.len() - 1),
{
    slice_to_vec(&s[1..s.len() - 1])
}

/// Decodes the literal tokens of one node.
fn literal_node(node: &Node, program: &[u8]) -> (r: Result<Node, ParsingError>)
    ensures
        match r {
            Ok(n) => resolve_node(node@, program@) == Ok::<NodeView, ParsingErrorView>(n@),
            Err(e) => resolve_node(node@, program@) == Err::<NodeView, ParsingErrorView>(e@),
        },
    decreases node,
{
    match node {
        Node::Brace(c) => match parse_literals(c, program) {
            Ok(r) => Ok(Node::Brace(r)),
            Err(e) => Err(e),
        },
        Node::Paren(c) => match parse_literals(c, program) {
            Ok(r) => Ok(Node::Paren(r)),
            Err(e) => Err(e),
        },
        Node::SquareBraket(c) => match parse_literals(c, program) {
            Ok(r) => Ok(Node::SquareBraket(r)),
            Err(e) => Err(e),
        },
        Node::Token(t) => match t.token {
            TokenType::Value(kind) => match literal(kind, slice_of(program, t.range)) {
                Ok(l) => Ok(Node::Value(l)),
                Err(e) => Err(e),
            },
            _ => Ok(Node::Token(*t)),
        },
        Node::Value(l) => Ok(Node::Value(l.clone())),
        Node::Scope(s) => match parse_literals(&s.content, program) {
            Ok(r) => Ok(Node::Scope(Scope { identifiers: s.identifiers.clone(), content: r })),
            Err(e) => Err(e),
        },
    }
}

/// Replaces every literal token of `tree` by the literal that its text in
/// `program` writes. Everything else is copied as it stands. The first
/// literal that does not decode ends the work with its error.
pub fn parse_literals(tree: &Tree, program: &[u8]) -> (r: Result<Tree, ParsingError>)
    ensures
        outcome_view(r) == resolve_tree(tree_view(tree@), program@),
    decreases tree,
{
    let mut parsed_tree: Tree = Vec::new();
    let mut i: usize = 0;
    assert(tree_view(parsed_tree@) =~= Seq::empty());
    while i < tree.len()
        invariant
            0 <= i <= tree@.len(),
            resolve_prefix(tree_view(tree@), i as nat, program@) == Ok::<
                Seq<NodeView>,
                ParsingErrorView,
            >(tree_view(parsed_tree@)),
        decreases tree@.len() - i,
    {
        match literal_node(&tree[i], program) {
            Ok(n) => {
                proof {
                    lemma_tree_view_push(parsed_tree@, n);
                }
                parsed_tree.push(n);
            },
            Err(e) => {
                proof {
                    lemma_resolve_error_stays(tree_view(tree@), (i + 1) as nat, program@);
                }
                return Err(e);
            },
        }
        i += 1;
    }
    Ok(parsed_tree)
}

/// An error among the first `n` nodes is the error of the whole sequence.
pub proof fn lemma_resolve_error_stays(nodes: Seq<NodeView>, n: nat, text: Seq<u8>)
    requires
        n <= nodes.len(),
        resolve_prefix(nodes, n, text) is Err,
    ensures
        resolve_tree(nodes, text) == resolve_prefix(nodes, n, text),
    decreases nodes.len() - n,
{
    if n < nodes.len() {
        lemma_resolve_error_stays(nodes, n + 1, text);
    }
}

/// Whether `b` opens a group.
pub open spec fn is_open(b: Braket) -> bool {
    b == Braket::OpenBrace || b == Braket::OpenSquareBraket || b == Braket::OpenParen
}

/// The bracket that closes what `b` opens.
pub open spec fn closing(b: Braket) -> Braket {
    match b {
        Braket::OpenBrace => Braket::CloseBrace,
        Braket::OpenSquareBraket => Braket::CloseSquareBraket,
        _ => Braket::CloseParen,
    }
}

/// The group that the bracket `open` opens, around `content`.
pub open spec fn group(open: Braket, content: Seq<NodeView>) -> NodeView {
    match open {
        Braket::OpenBrace => NodeView::Brace(content),
        Braket::OpenSquareBraket => NodeView::SquareBraket(content),
        _ => NodeView::Paren(content),
    }
}

/// Walks forward from `pos`, `depth` brackets of the kind `open` being
/// open, and gives the place before `end` of the bracket that closes the
/// outermost of them. Brackets of another kind are passed over.
pub open spec fn scan_close(
    tokens: Seq<Token>,
    open: Braket,
    pos: int,
    end: int,
    depth: nat,
) -> Option<int>
    decreases end - pos,
{
    if pos < 0 || pos >= end || end > tokens.len() {
        None
    } else if tokens[pos].token == TokenType::Braket(closing(open)) {
        if depth <= 1 {
            Some(pos)
        } else {
            scan_close(tokens, open, pos + 1, end, (depth - 1) as nat)
        }
    } else if tokens[pos].token == TokenType::Braket(open) {
        scan_close(tokens, open, pos + 1, end, depth + 1)
    } else {
        scan_close(tokens, open, pos + 1, end, depth)
    }
}

/// The place before `end` of the bracket that closes the one at `idx`.
///
/// A token at `idx` that opens nothing is `NonMatchable`; an opening
/// bracket that nothing closes before `end` is `MatchNotFound`.
pub open spec fn matching_close(tokens: Seq<Token>, idx: int, end: int) -> Result<
    int,
    ParsingErrorView,
> {
    match tokens[idx].token {
        TokenType::Braket(b) => if is_open(b) {
            match scan_close(tokens, b, idx + 1, end, 1) {
                Some(m) => Ok(m),
                None => Err(ParsingErrorView::MatchNotFound((idx as usize, b))),
            }
        } else {
            Err(ParsingErrorView::NonMatchable(tokens[idx].token))
        },
        other => Err(ParsingErrorView::NonMatchable(other)),
    }
}

/// `done` in front of what `rest` holds, or the error of `rest`.
pub open spec fn prepend(done: Seq<NodeView>, rest: Result<Seq<NodeView>, ParsingErrorView>)
    -> Result<Seq<NodeView>, ParsingErrorView> {
    match rest {
        Ok(r) => Ok(done + r),
        Err(e) => Err(e),
    }
}

/// How many groups may lie inside one another. The walks over a tree go
/// as deep as the tree does, so the builder keeps the depth of what it
/// builds within this bound.
pub const MAX_DEPTH: usize = 512;

/// The tree of the tokens from `lo` up to `hi`, where groups may still
/// lie `room` deep inside one another.
///
/// An opening bracket and the bracket that closes it become a group around
/// the tree of the tokens between them. A token that is no bracket becomes
/// a leaf. A closing bracket that closes nothing is `NonMatchable`, and a
/// group for which no room is left is `TooDeep`. The first error, in the
/// order of the tokens, is the result.
///
/// The bracket that closes another always lies behind it and before `hi`;
/// the test of that in the definition only shows that it ends.
pub open spec fn build_spec(tokens: Seq<Token>, lo: int, hi: int, room: nat) -> Result<
    Seq<NodeView>,
    ParsingErrorView,
>
    decreases hi - lo,
{
    if lo < 0 || lo >= hi || hi > tokens.len() {
        Ok(Seq::empty())
    } else {
        match tokens[lo].token {
            TokenType::Braket(b) => match matching_close(tokens, lo, hi) {
                Err(e) => Err(e),
                Ok(m) => if room == 0 {
                    Err(ParsingErrorView::TooDeep(lo as usize))
                } else if lo < m < hi {
                    match build_spec(tokens, lo + 1, m, (room - 1) as nat) {
                        Err(e) => Err(e),
                        Ok(content) => prepend(
                            seq![group(b, content)],
                            build_spec(tokens, m + 1, hi, room),
                        ),
                    }
                } else {
                    Ok(Seq::empty())
                },
            },
            _ => prepend(
                seq![NodeView::Token(tokens[lo])],
                build_spec(tokens, lo + 1, hi, room),
            ),
        }
    }
}

/// The tree of all the tokens.
pub open spec fn build_all(tokens: Seq<Token>) -> Result<Seq<NodeView>, ParsingErrorView> {
    build_spec(tokens, 0, tokens.len() as int, MAX_DEPTH as nat)
}

/// The bracket that closes the one at `lo` lies behind it and before `end`.
pub proof fn lemma_scan_close_bounds(
    tokens: Seq<Token>,
    open: Braket,
    pos: int,
    end: int,
    depth: nat,
)
    requires
        scan_close(tokens, open, pos, end, depth) is Some,
    ensures
        pos <= scan_close(tokens, open, pos, end, depth)->0 < end <= tokens.len(),
        tokens[scan_close(tokens, open, pos, end, depth)->0].token == TokenType::Braket(
            closing(open),
        ),
    decreases end - pos,
{
    if pos < 0 || pos >= end || end > tokens.len() {
    } else if tokens[pos].token == TokenType::Braket(closing(open)) {
        if depth > 1 {
            lemma_scan_close_bounds(tokens, open, pos + 1, end, (depth - 1) as nat);
        }
    } else if tokens[pos].token == TokenType::Braket(open) {
        lemma_scan_close_bounds(tokens, open, pos + 1, end, depth + 1);
    } else {
        lemma_scan_close_bounds(tokens, open, pos + 1, end, depth);
    }
}

fn closing_of(b: Braket) -> (r: Option<Braket>)
    ensures
        r == if is_open(b) {
            Some(closing(b))
        } else {
            None
        },
{
    match b {
        Braket::OpenBrace => Some(Braket::CloseBrace),
        Braket::OpenSquareBraket => Some(Braket::CloseSquareBraket),
        Braket::OpenParen => Some(Braket::CloseParen),
        _ => None,
    }
}

fn find_matching_before(tokens: &Vec<Token>, idx: usize, end: usize) -> (r: Result<
    usize,
    ParsingError,
>)
    requires
        idx < end <= tokens@.len(),
    ensures
        match r {
            Ok(m) => matching_close(tokens@, idx as int, end as int) == Ok::<
                int,
                ParsingErrorView,
            >(m as int) && idx < m < end,
            Err(e) => matching_close(tokens@, idx as int, end as int) == Err::<
                int,
                ParsingErrorView,
            >(e@),
        },
{
    let open = match tokens[idx].token {
        TokenType::Braket(k) => k,
        other => {
            return Err(ParsingError::NonMatchable(other));
        },
    };
    let close = match closing_of(open) {
        Some(c) => c,
        None => {
            return Err(ParsingError::NonMatchable(TokenType::Braket(open)));
        },
    };
    let mut matching: usize = idx + 1;
    let mut counter: usize = 1;
    while matching < end
        invariant
            idx < matching <= end <= tokens@.len(),
            1 <= counter <= matching - idx,
            tokens@[idx as int].token == TokenType::Braket(open),
            is_open(open),
            close == closing(open),
            scan_close(tokens@, open, idx + 1, end as int, 1) == scan_close(
                tokens@,
                open,
                matching as int,
                end as int,
                counter as nat,
            ),
        decreases end - matching,
    {
        let kind = tokens[matching].token;
        if kind == TokenType::Braket(close) {
            if counter == 1 {
                return Ok(matching);
            }
            counter -= 1;
        } else if kind == TokenType::Braket(open) {
            counter += 1;
        }
        matching += 1;
    }
    Err(ParsingError::MatchNotFound((idx, open)))
}

/// Finds the bracket that closes the one at `idx`.
///
/// Brackets of the same kind nest: each one that opens behind `idx` has to
/// be closed before the one at `idx` is. Brackets of the other kinds are
/// passed over.
pub fn find_matching(tokens: &Vec<Token>, idx: usize) -> (r: Result<usize, ParsingError>)
    requires
        idx < tokens@.len(),
    ensures
        match r {
            Ok(m) => matching_close(tokens@, idx as int, tokens@.len() as int) == Ok::<
                int,
                ParsingErrorView,
            >(m as int) && idx < m < tokens@.len(),
            Err(e) => matching_close(tokens@, idx as int, tokens@.len() as int) == Err::<
                int,
                ParsingErrorView,
            >(e@),
        },
{
    find_matching_before(tokens, idx, tokens.len())
}

/// Builds the group that the bracket at `cursor` opens. Gives the group
/// and the place behind the bracket that closes it.
fn braket_construct(tokens: &Vec<Token>, cursor: usize, end: usize, room: usize) -> (r: Result<
    (Node, usize),
    ParsingError,
>)
    requires
        cursor < end <= tokens@.len(),
        tokens@[cursor as int].token is Braket,
    ensures
        match r {
            Ok((node, next)) => {
                &&& cursor < next <= end
                &&& matching_close(tokens@, cursor as int, end as int) == Ok::<
                    int,
                    ParsingErrorView,
                >(next - 1)
                &&& build_spec(tokens@, cursor as int, end as int, room as nat) == prepend(
                    seq![node@],
                    build_spec(tokens@, next as int, end as int, room as nat),
                )
            },
            Err(e) => build_spec(tokens@, cursor as int, end as int, room as nat) == Err::<
                Seq<NodeView>,
                ParsingErrorView,
            >(e@),
        },
    decreases end - cursor, 0nat,
{
    let matching = match find_matching_before(tokens, cursor, end) {
        Ok(m) => m,
        Err(e) => {
            return Err(e);
        },
    };
    if room == 0 {
        return Err(ParsingError::TooDeep(cursor));
    }
    let content = match build_range(tokens, cursor + 1, matching, room - 1) {
        Ok(c) => c,
        Err(e) => {
            return Err(e);
        },
    };
    let node = match tokens[cursor].token {
        TokenType::Braket(Braket::OpenBrace) => Node::Brace(content),
        TokenType::Braket(Braket::OpenSquareBraket) => Node::SquareBraket(content),
        _ => Node::Paren(content),
    };
    Ok((node, matching + 1))
}

/// Builds the tree of the tokens from `lo` up to `hi`.
fn build_range(tokens: &Vec<Token>, lo: usize, hi: usize, room: usize) -> (r: Result<
    Tree,
    ParsingError,
>)
    requires
        lo <= hi <= tokens@.len(),
    ensures
        outcome_view(r) == build_spec(tokens@, lo as int, hi as int, room as nat),
    decreases hi - lo, 1nat,
{
    let mut constructions: Tree = Vec::new();
    let mut cursor: usize = lo;
    assert(tree_view(constructions@) =~= Seq::empty());
    assert(Seq::<NodeView>::empty() + Seq::<NodeView>::empty() =~= Seq::<NodeView>::empty());
    while cursor < hi
        invariant
            lo <= cursor <= hi <= tokens@.len(),
            build_spec(tokens@, lo as int, hi as int, room as nat) == prepend(
                tree_view(constructions@),
                build_spec(tokens@, cursor as int, hi as int, room as nat),
            ),
        decreases hi - cursor,
    {
        let ghost done_before = tree_view(constructions@);
        match tokens[cursor].token {
            TokenType::Braket(_) => {
                let (con, next) = match braket_construct(tokens, cursor, hi, room) {
                    Ok(c) => c,
                    Err(e) => {
                        return Err(e);
                    },
                };
                proof {
                    lemma_tree_view_push(constructions@, con);
                    lemma_prepend_push(
                        done_before,
                        con@,
                        build_spec(tokens@, next as int, hi as int, room as nat),
                    );
                }
                constructions.push(con);
                cursor = next;
            },
            _ => {
                let con = Node::Token(tokens[cursor]);
                proof {
                    lemma_tree_view_push(constructions@, con);
                    lemma_prepend_push(
                        done_before,
                        con@,
                        build_spec(tokens@, cursor + 1, hi as int, room as nat),
                    );
                }
                constructions.push(con);
                cursor += 1;
            },
        }
    }
    assert(tree_view(constructions@) + Seq::<NodeView>::empty() =~= tree_view(constructions@));
    Ok(constructions)
}

/// Putting one node in front of the rest, and what is done in front of
/// that, is putting what is done and the node in front of the rest.
pub proof fn lemma_prepend_push(
    done: Seq<NodeView>,
    n: NodeView,
    rest: Result<Seq<NodeView>, ParsingErrorView>,
)
    ensures
        prepend(done, prepend(seq![n], rest)) == prepend(done.push(n), rest),
{
    if let Ok(r) = rest {
        assert(done + (seq![n] + r) =~= done.push(n) + r);
    }
}

/// Builds the tree of nested groups from the flat list of tokens.
///
/// An opening bracket and the bracket that closes it become a group around
/// the tree of what stands between them; the kinds never match across, and
/// may nest in one another freely, up to `MAX_DEPTH` groups deep. Every
/// other token becomes a leaf.
pub fn generate_braket_heirarchy(tokens: &Vec<Token>) -> (r: Result<Tree, ParsingError>)
    ensures
        outcome_view(r) == build_all(tokens@),
{
    build_range(tokens, 0, tokens.len(), MAX_DEPTH)
}

/// The names among the first `n` nodes of `nodes`, in their order: each
/// identifier token that stands there itself, not inside a group, gives
/// its text and its place.
pub open spec fn names_prefix(nodes: Seq<NodeView>, n: nat, text: Seq<u8>) -> Seq<(Seq<u8>, int)>
    decreases n,
{
    if n == 0 || n > nodes.len() {
        Seq::empty()
    } else {
        let before = names_prefix(nodes, (n - 1) as nat, text);
        match nodes[n - 1] {
            NodeView::Token(t) => if t.token == TokenType::Identifier {
                before.push((text_of(text, t.range), n - 1))
            } else {
                before
            },
            _ => before,
        }
    }
}

/// The occurrences of names at the top level of `nodes`, in their order.
pub open spec fn top_level_entries(nodes: Seq<NodeView>, text: Seq<u8>) -> Seq<(Seq<u8>, int)> {
    names_prefix(nodes, nodes.len(), text)
}

/// The names of the top level of `nodes`, each with the place of its last
/// occurrence.
pub open spec fn top_level_names(nodes: Seq<NodeView>, text: Seq<u8>) -> Map<Seq<u8>, int> {
    names_map(top_level_entries(nodes, text))
}

/// A node with every group in braces in it turned into a scope that holds
/// the names of its own top level.
pub open spec fn index_node(n: NodeView, text: Seq<u8>) -> NodeView
    decreases n,
{
    match n {
        NodeView::Brace(c) => NodeView::Scope(
            ScopeView { identifiers: top_level_entries(c, text), content: index_tree(c, text) },
        ),
        NodeView::Paren(c) => NodeView::Paren(index_tree(c, text)),
        NodeView::SquareBraket(c) => NodeView::SquareBraket(index_tree(c, text)),
        NodeView::Token(_) => n,
        NodeView::Value(_) => n,
        NodeView::Scope(s) => NodeView::Scope(
            ScopeView {
                identifiers: top_level_entries(s.content, text),
                content: index_tree(s.content, text),
            },
        ),
    }
}

/// A sequence of nodes, each with its groups in braces turned into scopes.
pub open spec fn index_tree(nodes: Seq<NodeView>, text: Seq<u8>) -> Seq<NodeView>
    decreases nodes,
{
    Seq::new(
        nodes.len(),
        |i: int|
            if 0 <= i < nodes.len() {
                index_node(nodes[i], text)
            } else {
                NodeView::Brace(Seq::empty())
            },
    )
}

/// The whole program as one scope around the indexed tree.
pub open spec fn root_scope(nodes: Seq<NodeView>, text: Seq<u8>) -> NodeView {
    NodeView::Scope(
        ScopeView { identifiers: top_level_entries(nodes, text), content: index_tree(nodes, text) },
    )
}

/// The tree of a program: groups built, literals decoded, blocks indexed,
/// and one scope around it all.
pub open spec fn parse_spec(tokens: Seq<Token>, text: Seq<u8>) -> Result<
    Seq<NodeView>,
    ParsingErrorView,
> {
    match build_all(tokens) {
        Err(e) => Err(e),
        Ok(groups) => match resolve_tree(groups, text) {
            Err(e) => Err(e),
            Ok(resolved) => Ok(seq![root_scope(resolved, text)]),
        },
    }
}

fn index_one(node: &Node, program: &[u8]) -> (r: Node)
    ensures
        r@ == index_node(node@, program@),
    decreases node,
{
    match node {
        Node::Brace(c) => {
            let (content, identifiers) = index_all(c, program);
            Node::Scope(Scope { identifiers, content })
        },
        Node::Paren(c) => Node::Paren(index_all(c, program).0),
        Node::SquareBraket(c) => Node::SquareBraket(index_all(c, program).0),
        Node::Token(t) => Node::Token(*t),
        Node::Value(l) => Node::Value(l.clone()),
        Node::Scope(s) => {
            let (content, identifiers) = index_all(&s.content, program);
            Node::Scope(Scope { identifiers, content })
        },
    }
}

fn index_all(tree: &Tree, program: &[u8]) -> (r: (Tree, IdentMap))
    ensures
        tree_view(r.0@) == index_tree(tree_view(tree@), program@),
        r.1@ == top_level_entries(tree_view(tree@), program@),
    decreases tree,
{
    let mut new_tree: Tree = Vec::new();
    let mut entries: Vec<IdentEntry> = Vec::new();
    let mut i: usize = 0;
    while i < tree.len()
        invariant
            0 <= i <= tree@.len(),
            tree_view(new_tree@) =~= index_tree(tree_view(tree@), program@).take(i as int),
            entries_view(entries@) == names_prefix(tree_view(tree@), i as nat, program@),
        decreases tree@.len() - i,
    {
        let node = &tree[i];
        if let Node::Token(t) = node {
            if t.token == TokenType::Identifier {
                let entry = IdentEntry {
                    name: slice_to_vec(slice_of(program, t.range)),
                    index: i,
                };
                proof {
                    lemma_entries_view_push(entries@, entry);
                }
                entries.push(entry);
            }
        }
        let indexed = index_one(node, program);
        proof {
            lemma_tree_view_push(new_tree@, indexed);
        }
        new_tree.push(indexed);
        i += 1;
    }
    (new_tree, IdentMap { entries })
}

/// Turns every group in braces into a scope, and gives the indexed tree
/// with the names of its own top level.
///
/// The names of a scope are those of the identifier tokens that stand in
/// its content themselves; what stands inside a nested group belongs to
/// that group. Where a name occurs more than once, its last occurrence
/// counts. This phase never fails.
pub fn generate_scopes(tree: &Tree, program: &[u8]) -> (r: Result<(Tree, IdentMap), ParsingError>)
    ensures
        r is Ok,
        tree_view(r->Ok_0.0@) == index_tree(tree_view(tree@), program@),
        r->Ok_0.1@ == top_level_entries(tree_view(tree@), program@),
        r->Ok_0.1.names() == top_level_names(tree_view(tree@), program@),
{
    Ok(index_all(tree, program))
}

/// Builds the tree of a program from its tokens: the groups, then the
/// literals, then the scopes, each phase on the whole result of the one
/// before it. The first error ends the work.
pub fn parse(tokens: &Vec<Token>, program: &[u8]) -> (r: Result<Tree, ParsingError>)
    ensures
        outcome_view(r) == parse_spec(tokens@, program@),
{
    let groups = match generate_braket_heirarchy(tokens) {
        Ok(c) => c,
        Err(e) => {
            return Err(e);
        },
    };
    let resolved = match parse_literals(&groups, program) {
        Ok(t) => t,
        Err(e) => {
            return Err(e);
        },
    };
    match generate_scopes(&resolved, program) {
        Ok((content, identifiers)) => {
            let root = Node::Scope(Scope { identifiers, content });
            let mut tree: Tree = Vec::new();
            tree.push(root);
            assert(tree_view(tree@) =~= seq![root@]);
            Ok(tree)
        },
        Err(e) => Err(e),
    }
}

} // verus!
