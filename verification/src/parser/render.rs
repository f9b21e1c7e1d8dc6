//! The tree as text for a reader: one line for each node, indented by its
//! depth.

use super::ast::{tree_view, Node, NodeView, Tree};
use crate::lexer::token::{token_text, Token};
use vstd::prelude::*;
use vstd::string::*;

verus! {

/// The blanks in front of a line at depth `offset`: four for each level.
pub open spec fn indentation(offset: nat) -> Seq<char> {
    Seq::new(4 * offset, |i: int| ' ')
}

/// The text that the derived `Debug` impl of [`Node`] writes for a node
/// with the model `n`.
pub uninterp spec fn node_debug_text(n: NodeView) -> Seq<char>;

/// The derived `Debug` form of a node, as the macro `format!` of std
/// writes it with `{:?}`.
///
/// Nothing is proved of this function. Its contract only gives the text a
/// name: the derived impl writes the variants, the fields and the numbers
/// of the node, all of which its model holds, so nodes with one model have
/// one text.
#[verifier::external_body]
fn debug_text(node: &Node) -> (r: String)
    ensures
        r@ == node_debug_text(node@),
{
    format!("{:?}", node)
}

/// The line of a node at depth `offset`: the indentation, a blank, the
/// node in its `Debug` form, and a colon.
pub open spec fn display_line(n: NodeView, offset: usize) -> Seq<char> {
    indentation(offset as nat) + seq![' '] + node_debug_text(n) + seq![':']
}

/// The second line of a token, at depth `depth`: the indentation, then the
/// kind and the range of the token.
pub open spec fn token_line(t: Token, depth: usize) -> Seq<char> {
    indentation(depth as nat) + token_text(t)
}

/// The depth below `offset`. Where the machine cannot count further, the
/// depth stays.
pub open spec fn deeper(offset: usize) -> usize {
    if offset < usize::MAX {
        (offset + 1) as usize
    } else {
        offset
    }
}

/// The lines of a node at depth `offset`: its own line, then, for a token,
/// the line of the token one level deeper, and for a group or a scope the
/// lines of its content one level deeper.
pub open spec fn node_lines_spec(n: NodeView, offset: usize) -> Seq<Seq<char>>
    decreases n, 0nat,
{
    match n {
        NodeView::Brace(c) => seq![display_line(n, offset)] + lines_prefix(
            c,
            c.len(),
            deeper(offset),
        ),
        NodeView::Paren(c) => seq![display_line(n, offset)] + lines_prefix(
            c,
            c.len(),
            deeper(offset),
        ),
        NodeView::SquareBraket(c) => seq![display_line(n, offset)] + lines_prefix(
            c,
            c.len(),
            deeper(offset),
        ),
        NodeView::Token(t) => seq![display_line(n, offset), token_line(t, deeper(offset))],
        NodeView::Value(_) => seq![display_line(n, offset)],
        NodeView::Scope(s) => seq![display_line(n, offset)] + lines_prefix(
            s.content,
            s.content.len(),
            deeper(offset),
        ),
    }
}

/// The lines of the first `n` nodes, one node after another.
pub open spec fn lines_prefix(nodes: Seq<NodeView>, n: nat, offset: usize) -> Seq<Seq<char>>
    decreases nodes, n,
{
    if n == 0 || n > nodes.len() {
        Seq::empty()
    } else {
        lines_prefix(nodes, (n - 1) as nat, offset) + node_lines_spec(nodes[n - 1], offset)
    }
}

/// The lines of a tree at depth `offset`.
pub open spec fn tree_lines_spec(nodes: Seq<NodeView>, offset: usize) -> Seq<Seq<char>> {
    lines_prefix(nodes, nodes.len(), offset)
}

/// The texts of a list of lines.
pub open spec fn lines_view(lines: Seq<String>) -> Seq<Seq<char>> {
    Seq::new(lines.len(), |i: int| lines[i]@)
}

impl Node {
    /// The node as one line for a reader: the indentation of its depth, a
    /// blank, the node in its `Debug` form, and a colon.
    pub fn display(&self, offset: usize) -> (r: String)
        ensures
            r@ == display_line(self@, offset),
    {
        let mut line = self.offset(offset);
        let text = debug_text(self);
        line.append(" ");
        line.append(text.as_str());
        line.append(":");
        proof {
            reveal_strlit(" ");
            reveal_strlit(":");
            assert(" "@ =~= seq![' ']);
            assert(":"@ =~= seq![':']);
        }
        line
    }

    /// The blanks in front of a line at depth `offset`.
    pub fn offset(&self, offset: usize) -> (r: String)
        ensures
            r@ == indentation(offset as nat),
    {
        let mut spaces = String::new();
        let mut i: usize = 0;
        assert(spaces@ =~= indentation(0));
        while i < offset
            invariant
                0 <= i <= offset,
                spaces@ == indentation(i as nat),
            decreases offset - i,
        {
            spaces.append("    ");
            proof {
                reveal_strlit("    ");
                assert(spaces@ =~= indentation((i + 1) as nat));
            }
            i += 1;
        }
        spaces
    }
}

/// One more line puts its text behind the others.
proof fn lemma_lines_view_push(lines: Seq<String>, line: String)
    ensures
        lines_view(lines.push(line)) == lines_view(lines).push(line@),
{
    assert(lines_view(lines.push(line)) =~= lines_view(lines).push(line@));
}

/// Adds the lines of one node to `lines`.
fn node_lines(node: &Node, offset: usize, lines: &mut Vec<String>)
    ensures
        lines_view(final(lines)@) == lines_view(old(lines)@) + node_lines_spec(node@, offset),
    decreases node, 0nat,
{
    let below = if offset < usize::MAX {
        offset + 1
    } else {
        offset
    };
    let ghost before = lines_view(lines@);
    let own = node.display(offset);
    proof {
        lemma_lines_view_push(lines@, own);
    }
    lines.push(own);
    match node {
        Node::Brace(c) => {
            tree_lines_into(c, below, lines);
            assert(before.push(own@) + tree_lines_spec(tree_view(c@), below) =~= before + (
            seq![own@] + tree_lines_spec(tree_view(c@), below)));
        },
        Node::Paren(c) => {
            tree_lines_into(c, below, lines);
            assert(before.push(own@) + tree_lines_spec(tree_view(c@), below) =~= before + (
            seq![own@] + tree_lines_spec(tree_view(c@), below)));
        },
        Node::SquareBraket(c) => {
            tree_lines_into(c, below, lines);
            assert(before.push(own@) + tree_lines_spec(tree_view(c@), below) =~= before + (
            seq![own@] + tree_lines_spec(tree_view(c@), below)));
        },
        Node::Token(t) => {
            let mut line = node.offset(below);
            let text = t.to_string();
            line.append(text.as_str());
            proof {
                lemma_lines_view_push(lines@, line);
                assert(before.push(own@).push(line@) =~= before + seq![own@, line@]);
            }
            lines.push(line);
        },
        Node::Value(_) => {
            assert(before.push(own@) =~= before + seq![own@]);
        },
        Node::Scope(s) => {
            tree_lines_into(&s.content, below, lines);
            assert(before.push(own@) + tree_lines_spec(tree_view(s.content@), below) =~= before
                + (seq![own@] + tree_lines_spec(tree_view(s.content@), below)));
        },
    }
}

/// Adds the lines of a tree to `lines`.
fn tree_lines_into(tree: &Tree, offset: usize, lines: &mut Vec<String>)
    ensures
        lines_view(final(lines)@) == lines_view(old(lines)@) + tree_lines_spec(
            tree_view(tree@),
            offset,
        ),
    decreases tree, 1nat,
{
    let ghost nodes = tree_view(tree@);
    let ghost before = lines_view(lines@);
    let mut k: usize = 0;
    assert(before + lines_prefix(nodes, 0, offset) =~= before);
    while k < tree.len()
        invariant
            0 <= k <= tree@.len(),
            nodes == tree_view(tree@),
            lines_view(lines@) == before + lines_prefix(nodes, k as nat, offset),
        decreases tree@.len() - k,
    {
        node_lines(&tree[k], offset, lines);
        proof {
            let done = lines_prefix(nodes, k as nat, offset);
            let added = node_lines_spec(nodes[k as int], offset);
            assert((before + done) + added =~= before + (done + added));
        }
        k += 1;
    }
}

/// The lines of a tree for a reader, the tree standing at depth `offset`.
///
/// Each node gives a line of its own, indented by four blanks for each
/// level of depth. A token gives a second line, one level deeper, with its
/// kind and range; a group or a scope gives the lines of its content, one
/// level deeper.
pub fn tree_lines(tree: &Tree, offset: usize) -> (lines: Vec<String>)
    ensures
        lines_view(lines@) == tree_lines_spec(tree_view(tree@), offset),
{
    let mut lines: Vec<String> = Vec::new();
    assert(lines_view(lines@) =~= Seq::<Seq<char>>::empty());
    tree_lines_into(tree, offset, &mut lines);
    assert(Seq::<Seq<char>>::empty() + tree_lines_spec(tree_view(tree@), offset)
        =~= tree_lines_spec(tree_view(tree@), offset));
    lines
}

} // verus!
