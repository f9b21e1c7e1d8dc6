//! The words and signs of the language: the text of each kind of token
//! that is always written the same way.

use super::form::{
    array_prefix_end, bytes_of, comment_form, float_form, identifier_form,
    int_form, is_user_type, quoted_form, radix_form, skip_array_prefix, text_is,
    user_type_form,
};
use super::token::{Braket, Compare, Keyword, Operator, Symbol, TokenType, Value};
use vstd::prelude::*;
use vstd::string::*;

verus! {

/// The text of a keyword.
pub open spec fn keyword_text(k: Keyword) -> Seq<char> {
    match k {
        Keyword::Mut => "mut"@,
        Keyword::For => "for"@,
        Keyword::Loop => "loop"@,
        Keyword::While => "while"@,
        Keyword::If => "if"@,
        Keyword::Else => "else"@,
        Keyword::Switch => "switch"@,
        Keyword::In => "in"@,
        Keyword::Return => "return"@,
        Keyword::Catch => "catch"@,
        Keyword::Fn => "fn"@,
        Keyword::Is => "is"@,
        Keyword::Enum => "enum"@,
        Keyword::Impl => "impl"@,
        Keyword::Interface => "interface"@,
        Keyword::Debug => "debug"@,
        Keyword::And => "and"@,
        Keyword::Or => "or"@,
        Keyword::Not => "not"@,
        Keyword::As => "as"@,
        Keyword::Mod => "mod"@,
        Keyword::Import => "import"@,
    }
}

/// The text of a comparison.
pub open spec fn compare_text(c: Compare) -> Seq<char> {
    match c {
        Compare::GreaterEqual => ">="@,
        Compare::LessEqual => "<="@,
        Compare::Greater => ">"@,
        Compare::Less => "<"@,
        Compare::Equal => "=="@,
    }
}

/// The text of an operator.
pub open spec fn operator_text(o: Operator) -> Seq<char> {
    match o {
        Operator::Plus => "+"@,
        Operator::Minus => "-"@,
        Operator::Mult => "*"@,
        Operator::Div => "/"@,
        Operator::Power => "^"@,
        Operator::Modulus => "%"@,
        Operator::PlusAssign => "+="@,
        Operator::MinusAssign => "-="@,
        Operator::MultAssign => "*="@,
        Operator::DivAssign => "/="@,
        Operator::PowerAssign => "^="@,
        Operator::ModulusAssign => "%="@,
    }
}

/// The text of a symbol.
pub open spec fn symbol_text(s: Symbol) -> Seq<char> {
    match s {
        Symbol::Colon => ":"@,
        Symbol::DoubleColon => "::"@,
        Symbol::Bang => "!"@,
        Symbol::Optional => "?"@,
        Symbol::Dot => "."@,
        Symbol::Comma => ","@,
        Symbol::Dereference => "*"@,
        Symbol::Address => "&"@,
        Symbol::Assign => "="@,
        Symbol::TypeSum => "|"@,
        Symbol::Arrow => "->"@,
        Symbol::Range => ".."@,
        Symbol::Elipsis => "..."@,
    }
}

/// The text of a bracket.
pub open spec fn braket_text(b: Braket) -> Seq<char> {
    match b {
        Braket::OpenBrace => "{"@,
        Braket::CloseBrace => "}"@,
        Braket::OpenSquareBraket => "["@,
        Braket::CloseSquareBraket => "]"@,
        Braket::OpenParen => "("@,
        Braket::CloseParen => ")"@,
    }
}

/// The text of a kind of token that is always written the same way; the
/// empty text for the other kinds.
pub open spec fn fixed_text(kind: TokenType) -> Seq<char> {
    match kind {
        TokenType::Keyword(k) => keyword_text(k),
        TokenType::Compare(c) => compare_text(c),
        TokenType::Operator(o) => operator_text(o),
        TokenType::Symbol(s) => symbol_text(s),
        TokenType::Braket(b) => braket_text(b),
        TokenType::Value(Value::True) => "true"@,
        TokenType::Value(Value::False) => "false"@,
        TokenType::Value(Value::Null) => "none"@,
        TokenType::Value(Value::Error) => "error"@,
        _ => ""@,
    }
}

/// Whether the bytes `s` are the text of `kind`.
pub open spec fn spelled(s: Seq<u8>, kind: TokenType) -> bool {
    s == bytes_of(fixed_text(kind))
}

fn keyword_name(k: Keyword) -> (r: &'static str)
    ensures
        r@ == keyword_text(k),
        is_ascii(r),
{
    proof {
        reveal_strlit("mut");
        reveal_strlit("for");
        reveal_strlit("loop");
        reveal_strlit("while");
        reveal_strlit("if");
        reveal_strlit("else");
        reveal_strlit("switch");
        reveal_strlit("in");
        reveal_strlit("return");
        reveal_strlit("catch");
        reveal_strlit("fn");
        reveal_strlit("is");
        reveal_strlit("enum");
        reveal_strlit("impl");
        reveal_strlit("interface");
        reveal_strlit("debug");
        reveal_strlit("and");
        reveal_strlit("or");
        reveal_strlit("not");
        reveal_strlit("as");
        reveal_strlit("mod");
        reveal_strlit("import");
    }
    match k {
        Keyword::Mut => "mut",
        Keyword::For => "for",
        Keyword::Loop => "loop",
        Keyword::While => "while",
        Keyword::If => "if",
        Keyword::Else => "else",
        Keyword::Switch => "switch",
        Keyword::In => "in",
        Keyword::Return => "return",
        Keyword::Catch => "catch",
        Keyword::Fn => "fn",
        Keyword::Is => "is",
        Keyword::Enum => "enum",
        Keyword::Impl => "impl",
        Keyword::Interface => "interface",
        Keyword::Debug => "debug",
        Keyword::And => "and",
        Keyword::Or => "or",
        Keyword::Not => "not",
        Keyword::As => "as",
        Keyword::Mod => "mod",
        Keyword::Import => "import",
    }
}

fn compare_name(c: Compare) -> (r: &'static str)
    ensures
        r@ == compare_text(c),
        is_ascii(r),
{
    proof {
        reveal_strlit(">=");
        reveal_strlit("<=");
        reveal_strlit(">");
        reveal_strlit("<");
        reveal_strlit("==");
    }
    match c {
        Compare::GreaterEqual => ">=",
        Compare::LessEqual => "<=",
        Compare::Greater => ">",
        Compare::Less => "<",
        Compare::Equal => "==",
    }
}

fn operator_name(o: Operator) -> (r: &'static str)
    ensures
        r@ == operator_text(o),
        is_ascii(r),
{
    proof {
        reveal_strlit("+");
        reveal_strlit("-");
        reveal_strlit("*");
        reveal_strlit("/");
        reveal_strlit("^");
        reveal_strlit("%");
        reveal_strlit("+=");
        reveal_strlit("-=");
        reveal_strlit("*=");
        reveal_strlit("/=");
        reveal_strlit("^=");
        reveal_strlit("%=");
    }
    match o {
        Operator::Plus => "+",
        Operator::Minus => "-",
        Operator::Mult => "*",
        Operator::Div => "/",
        Operator::Power => "^",
        Operator::Modulus => "%",
        Operator::PlusAssign => "+=",
        Operator::MinusAssign => "-=",
        Operator::MultAssign => "*=",
        Operator::DivAssign => "/=",
        Operator::PowerAssign => "^=",
        Operator::ModulusAssign => "%=",
    }
}

fn symbol_name(s: Symbol) -> (r: &'static str)
    ensures
        r@ == symbol_text(s),
        is_ascii(r),
{
    proof {
        reveal_strlit(":");
        reveal_strlit("::");
        reveal_strlit("!");
        reveal_strlit("?");
        reveal_strlit(".");
        reveal_strlit(",");
        reveal_strlit("*");
        reveal_strlit("&");
        reveal_strlit("=");
        reveal_strlit("|");
        reveal_strlit("->");
        reveal_strlit("..");
        reveal_strlit("...");
    }
    match s {
        Symbol::Colon => ":",
        Symbol::DoubleColon => "::",
        Symbol::Bang => "!",
        Symbol::Optional => "?",
        Symbol::Dot => ".",
        Symbol::Comma => ",",
        Symbol::Dereference => "*",
        Symbol::Address => "&",
        Symbol::Assign => "=",
        Symbol::TypeSum => "|",
        Symbol::Arrow => "->",
        Symbol::Range => "..",
        Symbol::Elipsis => "...",
    }
}

fn braket_name(b: Braket) -> (r: &'static str)
    ensures
        r@ == braket_text(b),
        is_ascii(r),
{
    proof {
        reveal_strlit("{");
        reveal_strlit("}");
        reveal_strlit("[");
        reveal_strlit("]");
        reveal_strlit("(");
        reveal_strlit(")");
    }
    match b {
        Braket::OpenBrace => "{",
        Braket::CloseBrace => "}",
        Braket::OpenSquareBraket => "[",
        Braket::CloseSquareBraket => "]",
        Braket::OpenParen => "(",
        Braket::CloseParen => ")",
    }
}

/// The text of a kind of token that is always written the same way.
pub fn fixed_name(kind: TokenType) -> (r: &'static str)
    ensures
        r@ == fixed_text(kind),
        is_ascii(r),
{
    proof {
        reveal_strlit("true");
        reveal_strlit("false");
        reveal_strlit("none");
        reveal_strlit("error");
        reveal_strlit("");
    }
    match kind {
        TokenType::Keyword(k) => keyword_name(k),
        TokenType::Compare(c) => compare_name(c),
        TokenType::Operator(o) => operator_name(o),
        TokenType::Symbol(s) => symbol_name(s),
        TokenType::Braket(b) => braket_name(b),
        TokenType::Value(Value::True) => "true",
        TokenType::Value(Value::False) => "false",
        TokenType::Value(Value::Null) => "none",
        TokenType::Value(Value::Error) => "error",
        _ => "",
    }
}

/// Whether the bytes `s` are the text of `kind`.
pub fn is_spelled(s: &[u8], kind: TokenType) -> (r: bool)
    ensures
        r == spelled(s@, kind),
{
    text_is(s, fixed_name(kind))
}

/// The keyword that `s` spells.
pub open spec fn keyword_of(s: Seq<u8>) -> Option<Keyword> {
    if spelled(s, TokenType::Keyword(Keyword::Mut)) {
        Some(Keyword::Mut)
    }     else if spelled(s, TokenType::Keyword(Keyword::For)) {
        Some(Keyword::For)
    }     else if spelled(s, TokenType::Keyword(Keyword::Loop)) {
        Some(Keyword::Loop)
    }     else if spelled(s, TokenType::Keyword(Keyword::While)) {
        Some(Keyword::While)
    }     else if spelled(s, TokenType::Keyword(Keyword::If)) {
        Some(Keyword::If)
    }     else if spelled(s, TokenType::Keyword(Keyword::Else)) {
        Some(Keyword::Else)
    }     else if spelled(s, TokenType::Keyword(Keyword::Switch)) {
        Some(Keyword::Switch)
    }     else if spelled(s, TokenType::Keyword(Keyword::In)) {
        Some(Keyword::In)
    }     else if spelled(s, TokenType::Keyword(Keyword::Return)) {
        Some(Keyword::Return)
    }     else if spelled(s, TokenType::Keyword(Keyword::Catch)) {
        Some(Keyword::Catch)
    }     else if spelled(s, TokenType::Keyword(Keyword::Fn)) {
        Some(Keyword::Fn)
    }     else if spelled(s, TokenType::Keyword(Keyword::Is)) {
        Some(Keyword::Is)
    }     else if spelled(s, TokenType::Keyword(Keyword::Enum)) {
        Some(Keyword::Enum)
    }     else if spelled(s, TokenType::Keyword(Keyword::Impl)) {
        Some(Keyword::Impl)
    }     else if spelled(s, TokenType::Keyword(Keyword::Interface)) {
        Some(Keyword::Interface)
    }     else if spelled(s, TokenType::Keyword(Keyword::Debug)) {
        Some(Keyword::Debug)
    }     else if spelled(s, TokenType::Keyword(Keyword::And)) {
        Some(Keyword::And)
    }     else if spelled(s, TokenType::Keyword(Keyword::Or)) {
        Some(Keyword::Or)
    }     else if spelled(s, TokenType::Keyword(Keyword::Not)) {
        Some(Keyword::Not)
    }     else if spelled(s, TokenType::Keyword(Keyword::As)) {
        Some(Keyword::As)
    }     else if spelled(s, TokenType::Keyword(Keyword::Mod)) {
        Some(Keyword::Mod)
    }     else if spelled(s, TokenType::Keyword(Keyword::Import)) {
        Some(Keyword::Import)
    } else {
        None
    }
}

/// The word for a value that `s` spells: `true`, `false`, `none` or
/// `error`.
pub open spec fn value_word_of(s: Seq<u8>) -> Option<Value> {
    if spelled(s, TokenType::Value(Value::Null)) {
        Some(Value::Null)
    }     else if spelled(s, TokenType::Value(Value::True)) {
        Some(Value::True)
    }     else if spelled(s, TokenType::Value(Value::False)) {
        Some(Value::False)
    }     else if spelled(s, TokenType::Value(Value::Error)) {
        Some(Value::Error)
    } else {
        None
    }
}

/// The sign that `s` spells, among those that need no look at what stands
/// around them: brackets, punctuation, and the operators and comparisons
/// that are not written with a bare `*`, `=` or `:`.
pub open spec fn symbol_of(s: Seq<u8>) -> Option<TokenType> {
    if spelled(s, TokenType::Symbol(Symbol::Elipsis)) {
        Some(TokenType::Symbol(Symbol::Elipsis))
    }     else if spelled(s, TokenType::Symbol(Symbol::Range)) {
        Some(TokenType::Symbol(Symbol::Range))
    }     else if spelled(s, TokenType::Symbol(Symbol::Arrow)) {
        Some(TokenType::Symbol(Symbol::Arrow))
    }     else if spelled(s, TokenType::Operator(Operator::PlusAssign)) {
        Some(TokenType::Operator(Operator::PlusAssign))
    }     else if spelled(s, TokenType::Operator(Operator::MinusAssign)) {
        Some(TokenType::Operator(Operator::MinusAssign))
    }     else if spelled(s, TokenType::Operator(Operator::MultAssign)) {
        Some(TokenType::Operator(Operator::MultAssign))
    }     else if spelled(s, TokenType::Operator(Operator::DivAssign)) {
        Some(TokenType::Operator(Operator::DivAssign))
    }     else if spelled(s, TokenType::Operator(Operator::PowerAssign)) {
        Some(TokenType::Operator(Operator::PowerAssign))
    }     else if spelled(s, TokenType::Operator(Operator::ModulusAssign)) {
        Some(TokenType::Operator(Operator::ModulusAssign))
    }     else if spelled(s, TokenType::Compare(Compare::GreaterEqual)) {
        Some(TokenType::Compare(Compare::GreaterEqual))
    }     else if spelled(s, TokenType::Compare(Compare::LessEqual)) {
        Some(TokenType::Compare(Compare::LessEqual))
    }     else if spelled(s, TokenType::Symbol(Symbol::Bang)) {
        Some(TokenType::Symbol(Symbol::Bang))
    }     else if spelled(s, TokenType::Symbol(Symbol::Optional)) {
        Some(TokenType::Symbol(Symbol::Optional))
    }     else if spelled(s, TokenType::Symbol(Symbol::Dot)) {
        Some(TokenType::Symbol(Symbol::Dot))
    }     else if spelled(s, TokenType::Symbol(Symbol::Comma)) {
        Some(TokenType::Symbol(Symbol::Comma))
    }     else if spelled(s, TokenType::Symbol(Symbol::Address)) {
        Some(TokenType::Symbol(Symbol::Address))
    }     else if spelled(s, TokenType::Symbol(Symbol::TypeSum)) {
        Some(TokenType::Symbol(Symbol::TypeSum))
    }     else if spelled(s, TokenType::Braket(Braket::OpenBrace)) {
        Some(TokenType::Braket(Braket::OpenBrace))
    }     else if spelled(s, TokenType::Braket(Braket::CloseBrace)) {
        Some(TokenType::Braket(Braket::CloseBrace))
    }     else if spelled(s, TokenType::Braket(Braket::OpenSquareBraket)) {
        Some(TokenType::Braket(Braket::OpenSquareBraket))
    }     else if spelled(s, TokenType::Braket(Braket::CloseSquareBraket)) {
        Some(TokenType::Braket(Braket::CloseSquareBraket))
    }     else if spelled(s, TokenType::Braket(Braket::OpenParen)) {
        Some(TokenType::Braket(Braket::OpenParen))
    }     else if spelled(s, TokenType::Braket(Braket::CloseParen)) {
        Some(TokenType::Braket(Braket::CloseParen))
    }     else if spelled(s, TokenType::Operator(Operator::Plus)) {
        Some(TokenType::Operator(Operator::Plus))
    }     else if spelled(s, TokenType::Operator(Operator::Minus)) {
        Some(TokenType::Operator(Operator::Minus))
    }     else if spelled(s, TokenType::Operator(Operator::Div)) {
        Some(TokenType::Operator(Operator::Div))
    }     else if spelled(s, TokenType::Operator(Operator::Power)) {
        Some(TokenType::Operator(Operator::Power))
    }     else if spelled(s, TokenType::Operator(Operator::Modulus)) {
        Some(TokenType::Operator(Operator::Modulus))
    }     else if spelled(s, TokenType::Compare(Compare::Greater)) {
        Some(TokenType::Compare(Compare::Greater))
    }     else if spelled(s, TokenType::Compare(Compare::Less)) {
        Some(TokenType::Compare(Compare::Less))
    } else {
        None
    }
}

/// Whether `s` is the name of a built-in type.
pub open spec fn builtin_type_name(s: Seq<u8>) -> bool {
    s == bytes_of("u8"@)
        || s == bytes_of("u16"@)
        || s == bytes_of("u32"@)
        || s == bytes_of("u64"@)
        || s == bytes_of("i32"@)
        || s == bytes_of("i64"@)
        || s == bytes_of("f32"@)
        || s == bytes_of("f64"@)
        || s == bytes_of("str"@)
        || s == bytes_of("usize"@)
        || s == bytes_of("isize"@)
        || s == bytes_of("bool"@)
}

/// The form of a type: array markers `[]`, none or more, and then the name
/// of a built-in type or of a user's type.
pub open spec fn type_form(s: Seq<u8>) -> bool {
    let name = s.skip(array_prefix_end(s, 0));
    builtin_type_name(name) || user_type_form(name)
}

/// The keyword that `s` spells.
pub fn classify_keyword(s: &[u8]) -> (r: Option<Keyword>)
    ensures
        r == keyword_of(s@),
{
    if is_spelled(s, TokenType::Keyword(Keyword::Mut)) {
        Some(Keyword::Mut)
    }     else if is_spelled(s, TokenType::Keyword(Keyword::For)) {
        Some(Keyword::For)
    }     else if is_spelled(s, TokenType::Keyword(Keyword::Loop)) {
        Some(Keyword::Loop)
    }     else if is_spelled(s, TokenType::Keyword(Keyword::While)) {
        Some(Keyword::While)
    }     else if is_spelled(s, TokenType::Keyword(Keyword::If)) {
        Some(Keyword::If)
    }     else if is_spelled(s, TokenType::Keyword(Keyword::Else)) {
        Some(Keyword::Else)
    }     else if is_spelled(s, TokenType::Keyword(Keyword::Switch)) {
        Some(Keyword::Switch)
    }     else if is_spelled(s, TokenType::Keyword(Keyword::In)) {
        Some(Keyword::In)
    }     else if is_spelled(s, TokenType::Keyword(Keyword::Return)) {
        Some(Keyword::Return)
    }     else if is_spelled(s, TokenType::Keyword(Keyword::Catch)) {
        Some(Keyword::Catch)
    }     else if is_spelled(s, TokenType::Keyword(Keyword::Fn)) {
        Some(Keyword::Fn)
    }     else if is_spelled(s, TokenType::Keyword(Keyword::Is)) {
        Some(Keyword::Is)
    }     else if is_spelled(s, TokenType::Keyword(Keyword::Enum)) {
        Some(Keyword::Enum)
    }     else if is_spelled(s, TokenType::Keyword(Keyword::Impl)) {
        Some(Keyword::Impl)
    }     else if is_spelled(s, TokenType::Keyword(Keyword::Interface)) {
        Some(Keyword::Interface)
    }     else if is_spelled(s, TokenType::Keyword(Keyword::Debug)) {
        Some(Keyword::Debug)
    }     else if is_spelled(s, TokenType::Keyword(Keyword::And)) {
        Some(Keyword::And)
    }     else if is_spelled(s, TokenType::Keyword(Keyword::Or)) {
        Some(Keyword::Or)
    }     else if is_spelled(s, TokenType::Keyword(Keyword::Not)) {
        Some(Keyword::Not)
    }     else if is_spelled(s, TokenType::Keyword(Keyword::As)) {
        Some(Keyword::As)
    }     else if is_spelled(s, TokenType::Keyword(Keyword::Mod)) {
        Some(Keyword::Mod)
    }     else if is_spelled(s, TokenType::Keyword(Keyword::Import)) {
        Some(Keyword::Import)
    } else {
        None
    }
}

/// The word for a value that `s` spells.
pub fn classify_value_word(s: &[u8]) -> (r: Option<Value>)
    ensures
        r == value_word_of(s@),
{
    if is_spelled(s, TokenType::Value(Value::Null)) {
        Some(Value::Null)
    }     else if is_spelled(s, TokenType::Value(Value::True)) {
        Some(Value::True)
    }     else if is_spelled(s, TokenType::Value(Value::False)) {
        Some(Value::False)
    }     else if is_spelled(s, TokenType::Value(Value::Error)) {
        Some(Value::Error)
    } else {
        None
    }
}

/// The sign that `s` spells.
pub fn classify_symbol(s: &[u8]) -> (r: Option<TokenType>)
    ensures
        r == symbol_of(s@),
{
    if is_spelled(s, TokenType::Symbol(Symbol::Elipsis)) {
        Some(TokenType::Symbol(Symbol::Elipsis))
    }     else if is_spelled(s, TokenType::Symbol(Symbol::Range)) {
        Some(TokenType::Symbol(Symbol::Range))
    }     else if is_spelled(s, TokenType::Symbol(Symbol::Arrow)) {
        Some(TokenType::Symbol(Symbol::Arrow))
    }     else if is_spelled(s, TokenType::Operator(Operator::PlusAssign)) {
        Some(TokenType::Operator(Operator::PlusAssign))
    }     else if is_spelled(s, TokenType::Operator(Operator::MinusAssign)) {
        Some(TokenType::Operator(Operator::MinusAssign))
    }     else if is_spelled(s, TokenType::Operator(Operator::MultAssign)) {
        Some(TokenType::Operator(Operator::MultAssign))
    }     else if is_spelled(s, TokenType::Operator(Operator::DivAssign)) {
        Some(TokenType::Operator(Operator::DivAssign))
    }     else if is_spelled(s, TokenType::Operator(Operator::PowerAssign)) {
        Some(TokenType::Operator(Operator::PowerAssign))
    }     else if is_spelled(s, TokenType::Operator(Operator::ModulusAssign)) {
        Some(TokenType::Operator(Operator::ModulusAssign))
    }     else if is_spelled(s, TokenType::Compare(Compare::GreaterEqual)) {
        Some(TokenType::Compare(Compare::GreaterEqual))
    }     else if is_spelled(s, TokenType::Compare(Compare::LessEqual)) {
        Some(TokenType::Compare(Compare::LessEqual))
    }     else if is_spelled(s, TokenType::Symbol(Symbol::Bang)) {
        Some(TokenType::Symbol(Symbol::Bang))
    }     else if is_spelled(s, TokenType::Symbol(Symbol::Optional)) {
        Some(TokenType::Symbol(Symbol::Optional))
    }     else if is_spelled(s, TokenType::Symbol(Symbol::Dot)) {
        Some(TokenType::Symbol(Symbol::Dot))
    }     else if is_spelled(s, TokenType::Symbol(Symbol::Comma)) {
        Some(TokenType::Symbol(Symbol::Comma))
    }     else if is_spelled(s, TokenType::Symbol(Symbol::Address)) {
        Some(TokenType::Symbol(Symbol::Address))
    }     else if is_spelled(s, TokenType::Symbol(Symbol::TypeSum)) {
        Some(TokenType::Symbol(Symbol::TypeSum))
    }     else if is_spelled(s, TokenType::Braket(Braket::OpenBrace)) {
        Some(TokenType::Braket(Braket::OpenBrace))
    }     else if is_spelled(s, TokenType::Braket(Braket::CloseBrace)) {
        Some(TokenType::Braket(Braket::CloseBrace))
    }     else if is_spelled(s, TokenType::Braket(Braket::OpenSquareBraket)) {
        Some(TokenType::Braket(Braket::OpenSquareBraket))
    }     else if is_spelled(s, TokenType::Braket(Braket::CloseSquareBraket)) {
        Some(TokenType::Braket(Braket::CloseSquareBraket))
    }     else if is_spelled(s, TokenType::Braket(Braket::OpenParen)) {
        Some(TokenType::Braket(Braket::OpenParen))
    }     else if is_spelled(s, TokenType::Braket(Braket::CloseParen)) {
        Some(TokenType::Braket(Braket::CloseParen))
    }     else if is_spelled(s, TokenType::Operator(Operator::Plus)) {
        Some(TokenType::Operator(Operator::Plus))
    }     else if is_spelled(s, TokenType::Operator(Operator::Minus)) {
        Some(TokenType::Operator(Operator::Minus))
    }     else if is_spelled(s, TokenType::Operator(Operator::Div)) {
        Some(TokenType::Operator(Operator::Div))
    }     else if is_spelled(s, TokenType::Operator(Operator::Power)) {
        Some(TokenType::Operator(Operator::Power))
    }     else if is_spelled(s, TokenType::Operator(Operator::Modulus)) {
        Some(TokenType::Operator(Operator::Modulus))
    }     else if is_spelled(s, TokenType::Compare(Compare::Greater)) {
        Some(TokenType::Compare(Compare::Greater))
    }     else if is_spelled(s, TokenType::Compare(Compare::Less)) {
        Some(TokenType::Compare(Compare::Less))
    } else {
        None
    }
}

/// Whether `s` is the name of a built-in type.
pub fn is_builtin_type(s: &[u8]) -> (r: bool)
    ensures
        r == builtin_type_name(s@),
{
    proof {
        reveal_strlit("u8");
        reveal_strlit("u16");
        reveal_strlit("u32");
        reveal_strlit("u64");
        reveal_strlit("i32");
        reveal_strlit("i64");
        reveal_strlit("f32");
        reveal_strlit("f64");
        reveal_strlit("str");
        reveal_strlit("usize");
        reveal_strlit("isize");
        reveal_strlit("bool");
    }
    text_is(s, "u8")
        || text_is(s, "u16")
        || text_is(s, "u32")
        || text_is(s, "u64")
        || text_is(s, "i32")
        || text_is(s, "i64")
        || text_is(s, "f32")
        || text_is(s, "f64")
        || text_is(s, "str")
        || text_is(s, "usize")
        || text_is(s, "isize")
        || text_is(s, "bool")
}

/// Whether `s` has the form of a type.
pub fn is_type(s: &[u8]) -> (r: bool)
    ensures
        r == type_form(s@),
{
    let k = skip_array_prefix(s);
    let name = &s[k..s.len()];
    assert(name@ =~= s@.skip(k as int));
    is_builtin_type(name) || is_user_type(name)
}

/// The lexical form of each kind of token: what the text of a token of
/// that kind looks like.
pub open spec fn lexical_form(kind: TokenType, s: Seq<u8>) -> bool {
    match kind {
        TokenType::Comment => comment_form(s),
        TokenType::Identifier => identifier_form(s),
        TokenType::Type => type_form(s),
        TokenType::Value(Value::Int) => int_form(s),
        TokenType::Value(Value::Float) => float_form(s),
        TokenType::Value(Value::Hex) => radix_form(s, 'x' as u8, 16),
        TokenType::Value(Value::Oct) => radix_form(s, 'o' as u8, 8),
        TokenType::Value(Value::Bin) => radix_form(s, 'b' as u8, 2),
        TokenType::Value(Value::String) => quoted_form(s, '"' as u8),
        TokenType::Value(Value::Byte) => quoted_form(s, '\'' as u8) && s.len() >= 3,
        _ => spelled(s, kind),
    }
}

} // verus!
