//! The vocabulary shared by every phase: token kinds and byte ranges.

use vstd::prelude::*;

verus! {

/// A half-open byte range `[start, end)` of the source text.
pub type Range = [usize; 2];

/// A classified lexical unit and the bytes of the source that it covers.
#[derive(Debug, Copy, Clone, PartialEq, Eq)]
pub struct Token {
    pub token: TokenType,
    pub range: Range,
}

#[derive(Debug, Copy, Clone, PartialEq, Eq, Structural)]
pub enum TokenType {
    Comment,
    Identifier,
    Keyword(Keyword),
    Compare(Compare),
    Operator(Operator),
    Value(Value),
    Symbol(Symbol),
    Braket(Braket),
    Type,
}

#[derive(Debug, Copy, Clone, PartialEq, Eq, Structural)]
pub enum Compare {
    GreaterEqual,
    LessEqual,
    Greater,
    Less,
    Equal,
}

#[derive(Debug, Copy, Clone, PartialEq, Eq, Structural)]
pub enum Operator {
    Plus,
    Minus,
    Mult,
    Div,
    Power,
    Modulus,
    PlusAssign,
    MinusAssign,
    MultAssign,
    DivAssign,
    PowerAssign,
    ModulusAssign,
}

#[derive(Debug, Copy, Clone, PartialEq, Eq, Structural)]
pub enum Keyword {
    Mut,
    For,
    Loop,
    While,
    If,
    Else,
    Switch,
    In,
    Return,
    Catch,
    Fn,
    Is,
    Enum,
    Impl,
    Interface,
    Debug,
    And,
    Or,
    Not,
    As,
    Mod,
    Import,
}

/// The kinds of literal. A token of one of these kinds carries only its
/// range; the value is decoded later, from the text under that range.
#[derive(Debug, Copy, Clone, PartialEq, Eq, Structural)]
pub enum Value {
    Int,
    Float,
    String,
    Byte,
    Hex,
    Oct,
    Bin,
    True,
    False,
    /// The literal `none`.
    Null,
    Error,
}

#[derive(Debug, Copy, Clone, PartialEq, Eq, Structural)]
pub enum Symbol {
    Colon,
    DoubleColon,
    /// `!`
    Bang,
    /// `?`
    Optional,
    Dot,
    Comma,
    /// `*` in front of a name
    Dereference,
    /// `&`
    Address,
    Assign,
    /// `|`
    TypeSum,
    Arrow,
    /// `..`
    Range,
    /// `...`
    Elipsis,
}

#[derive(Debug, Copy, Clone, PartialEq, Eq, Structural)]
pub enum Braket {
    OpenBrace,
    CloseBrace,
    OpenSquareBraket,
    CloseSquareBraket,
    OpenParen,
    CloseParen,
}

/// The bytes of `text` under `range`, or nothing where `range` is not a
/// range of `text`.
pub open spec fn text_of(text: Seq<u8>, range: Range) -> Seq<u8> {
    if range[0] <= range[1] <= text.len() {
        text.subrange(range[0] as int, range[1] as int)
    } else {
        Seq::empty()
    }
}

/// The bytes of `text` under `range`, as a slice of `text`.
pub fn slice_of<'a>(text: &'a [u8], range: Range) -> (s: &'a [u8])
    ensures
        s@ == text_of(text@, range),
{
    if range[0] <= range[1] && range[1] <= text.len() {
        let s = &text[range[0]..range[1]];
        assert(s@ =~= text_of(text@, range));
        s
    } else {
        let s = &text[0..0];
        assert(s@ =~= text_of(text@, range));
        s
    }
}

/// The printable form of a token: the text that the derived `Debug` impls
/// write for its kind and for its range, with ` : ` between them.
pub uninterp spec fn token_text(t: Token) -> Seq<char>;

impl Token {
    /// A printable form of the token: its kind and its range in their
    /// derived `Debug` form, as the macro `format!` of std writes them.
    ///
    /// Nothing is proved of this function. Its contract only gives the
    /// text a name: tokens of one kind and range have one text.
    #[verifier::external_body]
    pub fn to_string(&self) -> (r: String)
        ensures
            r@ == token_text(*self),
    {
        format!("{:?} : {:?}", self.token, self.range)
    }
}

} // verus!
