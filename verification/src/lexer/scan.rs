//! One pass of the tokenizer: where a pattern matches, what kind of token
//! each match is, and which matches are kept.

use super::form::{
    array_prefix_end, block_comment_form, byte_is_letter, byte_is_word, dashes_at, float_form,
    has_dashes_at, identifier_form, int_form, is_block_comment, is_float, is_identifier, is_int,
    is_letter, is_line_comment, is_quoted, is_radix, is_word, line_comment_form, quoted_form,
    radix_form, skip_array_prefix,
};
use super::skip::{intersects_skip, range_intersects_skip, SkipRange};
use super::token::{Compare, Operator, Range, Symbol, Token, TokenType, Value};
use super::words::{
    classify_keyword, classify_symbol, classify_value_word, is_spelled, is_type, keyword_of,
    spelled, symbol_of, type_form, value_word_of,
};
use super::LexingError;
use vstd::prelude::*;
use vstd::string::*;

verus! {

/// The passes of the tokenizer, in the order in which they run. Each pass
/// goes over the whole source and claims what no earlier pass has claimed.
#[derive(Debug, Copy, Clone, PartialEq, Eq, Structural)]
pub enum Pass {
    Comment,
    String,
    Char,
    Number,
    Keyword,
    Value,
    Type,
    Identifier,
    Symbol,
    EqualAssign,
    MultDeref,
    Colon,
}

/// Comments: a block from `---` to the next `---`, or a line from `--` on.
pub const COMMENT_PATTERN: &'static str = r"(?s-u)---.*?---|--[^\n]*";

/// Strings: from a double quote to the next one that no backslash escapes.
pub const STRING_PATTERN: &'static str = r#"(?s-u)"(?:\\.|[^"\\])*""#;

/// Byte literals: the same in single quotes, around a byte at least.
pub const CHAR_PATTERN: &'static str = r"(?s-u)'(?:\\.|[^'\\])+'";

/// Numerals of each kind, as whole words.
pub const NUMBER_PATTERN: &'static str =
    r"(?-u)\b(?:0x[0-9a-fA-F]+|0o[0-7]+|0b[01]+|[0-9]+\.[0-9]+(?:e[+-][0-9]+)?|[0-9]+)\b";

/// Keywords, as whole words.
pub const KEYWORD_PATTERN: &'static str =
    r"(?-u)\b(?:mut|for|loop|while|if|else|switch|in|return|catch|fn|is|enum|impl|interface|debug|and|or|not|as|mod|import)\b";

/// The words for values, as whole words.
pub const VALUE_PATTERN: &'static str = r"(?-u)\b(?:none|true|false|error)\b";

/// Types: array markers, then a built-in name or a name with an
/// upper-case letter in front.
pub const TYPE_PATTERN: &'static str =
    r"(?-u)(?:\[\])*\b(?:u8|u16|u32|u64|i32|i64|f32|f64|str|usize|isize|bool|[A-Z][a-zA-Z0-9_]*)\b";

/// Identifiers: words with a lower-case letter in front.
pub const IDENTIFIER_PATTERN: &'static str = r"(?-u)\b[a-z][a-zA-Z0-9_]*";

/// Signs, the longer ones first.
pub const SYMBOL_PATTERN: &'static str =
    r"(?-u)\.\.\.|\.\.|->|\+=|-=|\*=|/=|\^=|%=|>=|<=|[!?.,&|{}\[\]()+\-/^%<>]";

/// `==` and `=`.
pub const EQUAL_ASSIGN_PATTERN: &'static str = r"(?-u)==|=";

/// `*`.
pub const MULT_DEREF_PATTERN: &'static str = r"(?-u)\*";

/// `::` and `:`.
pub const COLON_PATTERN: &'static str = r"(?-u)::|:";

/// The regular expression by which a pass finds its matches.
pub open spec fn pattern_of(pass: Pass) -> Seq<char> {
    match pass {
        Pass::Comment => COMMENT_PATTERN@,
        Pass::String => STRING_PATTERN@,
        Pass::Char => CHAR_PATTERN@,
        Pass::Number => NUMBER_PATTERN@,
        Pass::Keyword => KEYWORD_PATTERN@,
        Pass::Value => VALUE_PATTERN@,
        Pass::Type => TYPE_PATTERN@,
        Pass::Identifier => IDENTIFIER_PATTERN@,
        Pass::Symbol => SYMBOL_PATTERN@,
        Pass::EqualAssign => EQUAL_ASSIGN_PATTERN@,
        Pass::MultDeref => MULT_DEREF_PATTERN@,
        Pass::Colon => COLON_PATTERN@,
    }
}

/// The regular expression by which a pass finds its matches.
pub fn pattern(pass: Pass) -> (p: &'static str)
    ensures
        p@ == pattern_of(pass),
{
    match pass {
        Pass::Comment => COMMENT_PATTERN,
        Pass::String => STRING_PATTERN,
        Pass::Char => CHAR_PATTERN,
        Pass::Number => NUMBER_PATTERN,
        Pass::Keyword => KEYWORD_PATTERN,
        Pass::Value => VALUE_PATTERN,
        Pass::Type => TYPE_PATTERN,
        Pass::Identifier => IDENTIFIER_PATTERN,
        Pass::Symbol => SYMBOL_PATTERN,
        Pass::EqualAssign => EQUAL_ASSIGN_PATTERN,
        Pass::MultDeref => MULT_DEREF_PATTERN,
        Pass::Colon => COLON_PATTERN,
    }
}

/// Whether `pattern` is the pattern of one of the passes.
pub open spec fn known_pattern(pattern: Seq<char>) -> bool {
    exists|pass: Pass| pattern == #[trigger] pattern_of(pass)
}

/// The matches of the regular expression `pattern` in `text`, one after
/// another from the start of the text, each as the range of bytes that it
/// covers; nothing where `pattern` cannot be compiled.
pub uninterp spec fn regex_find_all(pattern: Seq<char>, text: Seq<u8>) -> Option<Seq<Range>>;

/// Compiles `pattern` with `regex::bytes::Regex::new` and walks `text` with
/// `Regex::find_iter`, keeping the start and the end of each match.
///
/// Nothing is proved of this function. Its contract only gives the result a
/// name: what the two calls return for one of the patterns of this library
/// and a text is the same whenever they are made. Callers check by
/// themselves whatever they need to know of a match.
#[verifier::external_body]
pub(crate) fn find_all(pattern: &str, text: &[u8]) -> (r: Option<Vec<Range>>)
    requires
        known_pattern(pattern@),
    ensures
        match r {
            Some(v) => regex_find_all(pattern@, text@) == Some(v@),
            None => regex_find_all(pattern@, text@) is None,
        },
{
    match regex::bytes::Regex::new(pattern) {
        Ok(re) => Some(re.find_iter(text).map(|m| [m.start(), m.end()]).collect()),
        Err(_) => None,
    }
}

/// Whether a word may begin at `at`: no byte of a word stands before it.
pub open spec fn word_start(text: Seq<u8>, at: int) -> bool {
    at <= 0 || at > text.len() || !is_word(text[at - 1])
}

/// Whether a word may end at `at`: no byte of a word stands there.
pub open spec fn word_end(text: Seq<u8>, at: int) -> bool {
    at < 0 || at >= text.len() || !is_word(text[at])
}

/// Whether what `r` covers is a whole word: not a part of a longer one.
pub open spec fn whole_word(text: Seq<u8>, r: Range) -> bool {
    word_start(text, r[0] as int) && word_end(text, r[1] as int)
}

/// Whether the type that `r` covers stands alone: no word goes on behind
/// it, and none runs into its name. Array markers in front of the name
/// keep any word away from it.
pub open spec fn whole_type(text: Seq<u8>, r: Range) -> bool {
    &&& word_end(text, r[1] as int)
    &&& array_prefix_end(text.subrange(r[0] as int, r[1] as int), 0) > 0 || word_start(
        text,
        r[0] as int,
    )
}

/// The kind of numeral that `s` is.
pub open spec fn number_kind(s: Seq<u8>) -> Option<Value> {
    if radix_form(s, 'x' as u8, 16) {
        Some(Value::Hex)
    } else if radix_form(s, 'o' as u8, 8) {
        Some(Value::Oct)
    } else if radix_form(s, 'b' as u8, 2) {
        Some(Value::Bin)
    } else if float_form(s) {
        Some(Value::Float)
    } else if int_form(s) {
        Some(Value::Int)
    } else {
        None
    }
}

/// What a `=` at `at` is: an assignment where a byte stands on either side
/// of it and neither is a `=`. At the very end of the text the byte behind
/// it is missing, and the text is cut short.
pub open spec fn assign_rule(text: Seq<u8>, at: int) -> Result<Option<TokenType>, LexingError> {
    if at + 1 >= text.len() {
        Err(LexingError::EOF)
    } else if at > 0 && text[at - 1] != '=' as u8 && text[at + 1] != '=' as u8 {
        Ok(Some(TokenType::Symbol(Symbol::Assign)))
    } else {
        Ok(None)
    }
}

/// What a `*` at `at` is: a dereference where a letter or another `*`
/// follows it at once, and a multiplication otherwise.
pub open spec fn star_rule(text: Seq<u8>, at: int) -> TokenType {
    if at + 1 < text.len() && (is_letter(text[at + 1]) || text[at + 1] == '*' as u8) {
        TokenType::Symbol(Symbol::Dereference)
    } else {
        TokenType::Operator(Operator::Mult)
    }
}

/// What a `:` at `at` is: a colon, unless another `:` stands next to it.
pub open spec fn colon_rule(text: Seq<u8>, at: int) -> Option<TokenType> {
    if (at > 0 && text[at - 1] == ':' as u8) || (at + 1 < text.len() && text[at + 1]
        == ':' as u8) {
        None
    } else {
        Some(TokenType::Symbol(Symbol::Colon))
    }
}

/// What `pass` makes of a match that covers `r` in `text`, where `r` is a
/// range of the text and not empty: a token of some kind, nothing, or an
/// error.
///
/// A pass knows the forms of its own tokens and takes a match of no other
/// form; it is `Unknown`. A word, a numeral or a type has to stand alone,
/// not as a part of a longer word.
pub open spec fn classify_text(pass: Pass, text: Seq<u8>, r: Range) -> Result<
    Option<TokenType>,
    LexingError,
> {
    let s = text.subrange(r[0] as int, r[1] as int);
    match pass {
        Pass::Comment => if block_comment_form(s) || line_comment_form(s) {
            Ok(Some(TokenType::Comment))
        } else if dashes_at(s, 0) {
            Err(LexingError::Unclosed(TokenType::Comment, r[0]))
        } else {
            Err(LexingError::Unknown)
        },
        Pass::String => if quoted_form(s, '"' as u8) {
            Ok(Some(TokenType::Value(Value::String)))
        } else {
            Err(LexingError::Unknown)
        },
        Pass::Char => if quoted_form(s, '\'' as u8) && s.len() >= 3 {
            Ok(Some(TokenType::Value(Value::Byte)))
        } else {
            Err(LexingError::Unknown)
        },
        Pass::Number => match number_kind(s) {
            Some(v) => if whole_word(text, r) {
                Ok(Some(TokenType::Value(v)))
            } else {
                Err(LexingError::Unknown)
            },
            None => Err(LexingError::Unknown),
        },
        Pass::Keyword => match keyword_of(s) {
            Some(k) => if whole_word(text, r) {
                Ok(Some(TokenType::Keyword(k)))
            } else {
                Err(LexingError::Unknown)
            },
            None => Err(LexingError::Unknown),
        },
        Pass::Value => match value_word_of(s) {
            Some(v) => if whole_word(text, r) {
                Ok(Some(TokenType::Value(v)))
            } else {
                Err(LexingError::Unknown)
            },
            None => Err(LexingError::Unknown),
        },
        Pass::Type => if type_form(s) && whole_type(text, r) {
            Ok(Some(TokenType::Type))
        } else {
            Err(LexingError::Unknown)
        },
        Pass::Identifier => if identifier_form(s) && whole_word(text, r) {
            Ok(Some(TokenType::Identifier))
        } else {
            Err(LexingError::Unknown)
        },
        Pass::Symbol => match symbol_of(s) {
            Some(kind) => Ok(Some(kind)),
            None => Err(LexingError::Unknown),
        },
        Pass::EqualAssign => if spelled(s, TokenType::Compare(Compare::Equal)) {
            Ok(Some(TokenType::Compare(Compare::Equal)))
        } else if spelled(s, TokenType::Symbol(Symbol::Assign)) {
            assign_rule(text, r[0] as int)
        } else {
            Err(LexingError::Unknown)
        },
        Pass::MultDeref => if spelled(s, TokenType::Operator(Operator::Mult)) {
            Ok(Some(star_rule(text, r[0] as int)))
        } else {
            Err(LexingError::Unknown)
        },
        Pass::Colon => if spelled(s, TokenType::Symbol(Symbol::DoubleColon)) {
            Ok(Some(TokenType::Symbol(Symbol::DoubleColon)))
        } else if spelled(s, TokenType::Symbol(Symbol::Colon)) {
            Ok(colon_rule(text, r[0] as int))
        } else {
            Err(LexingError::Unknown)
        },
    }
}

/// What `pass` makes of a match that covers `r` in `text`. A match that is
/// empty or does not lie in the text is `Unknown`.
pub open spec fn classify_spec(pass: Pass, text: Seq<u8>, r: Range) -> Result<
    Option<TokenType>,
    LexingError,
> {
    if r[0] < r[1] <= text.len() {
        classify_text(pass, text, r)
    } else {
        Err(LexingError::Unknown)
    }
}

/// The tokens that `pass` makes of the first `n` of `matches`, in their
/// order. A match that shares a byte with a range of `skip` is passed
/// over; every other match is classified. The first error is the result.
pub open spec fn claim_prefix(
    pass: Pass,
    text: Seq<u8>,
    skip: Seq<Range>,
    matches: Seq<Range>,
    n: nat,
) -> Result<Seq<Token>, LexingError>
    decreases n,
{
    if n == 0 || n > matches.len() {
        Ok(Seq::empty())
    } else {
        match claim_prefix(pass, text, skip, matches, (n - 1) as nat) {
            Err(e) => Err(e),
            Ok(done) => if intersects_skip(matches[n - 1], skip) {
                Ok(done)
            } else {
                match classify_spec(pass, text, matches[n - 1]) {
                    Err(e) => Err(e),
                    Ok(None) => Ok(done),
                    Ok(Some(kind)) => Ok(done.push(Token { token: kind, range: matches[n - 1] })),
                }
            },
        }
    }
}

/// The tokens that `pass` makes of `matches`.
pub open spec fn claim_spec(pass: Pass, text: Seq<u8>, skip: Seq<Range>, matches: Seq<Range>)
    -> Result<Seq<Token>, LexingError> {
    claim_prefix(pass, text, skip, matches, matches.len())
}

/// The tokens of `pass` in `text`, given what is claimed: those that it
/// makes of the matches of its pattern. A pattern that is no regular
/// expression is `Unknown`.
pub open spec fn pass_spec(pass: Pass, text: Seq<u8>, skip: Seq<Range>) -> Result<
    Seq<Token>,
    LexingError,
> {
    match regex_find_all(pattern_of(pass), text) {
        None => Err(LexingError::Unknown),
        Some(matches) => claim_spec(pass, text, skip, matches),
    }
}

/// The model of what a pass returns.
pub open spec fn tokens_view(r: Result<Vec<Token>, LexingError>) -> Result<
    Seq<Token>,
    LexingError,
> {
    match r {
        Ok(v) => Ok(v@),
        Err(e) => Err(e),
    }
}

fn classify_number(s: &[u8]) -> (r: Option<Value>)
    ensures
        r == number_kind(s@),
{
    if is_radix(s, 'x' as u8, 16) {
        Some(Value::Hex)
    } else if is_radix(s, 'o' as u8, 8) {
        Some(Value::Oct)
    } else if is_radix(s, 'b' as u8, 2) {
        Some(Value::Bin)
    } else if is_float(s) {
        Some(Value::Float)
    } else if is_int(s) {
        Some(Value::Int)
    } else {
        None
    }
}

/// Tells what `pass` makes of a match that covers `r` in `program`.
#[verifier::rlimit(50)]
pub fn classify(pass: Pass, program: &[u8], r: Range) -> (c: Result<Option<TokenType>, LexingError>)
    ensures
        c == classify_spec(pass, program@, r),
{
    if !(r[0] < r[1] && r[1] <= program.len()) {
        return Err(LexingError::Unknown);
    }
    let start = r[0];
    let n = program.len();
    let s = &program[r[0]..r[1]];
    assert(s@ == program@.subrange(r[0] as int, r[1] as int));
    let begins = start == 0 || !byte_is_word(program[start - 1]);
    let ends = r[1] == n || !byte_is_word(program[r[1]]);
    match pass {
        Pass::Comment => if is_block_comment(s) || is_line_comment(s) {
            Ok(Some(TokenType::Comment))
        } else if has_dashes_at(s, 0) {
            Err(LexingError::Unclosed(TokenType::Comment, start))
        } else {
            Err(LexingError::Unknown)
        },
        Pass::String => if is_quoted(s, '"' as u8) {
            Ok(Some(TokenType::Value(Value::String)))
        } else {
            Err(LexingError::Unknown)
        },
        Pass::Char => if is_quoted(s, '\'' as u8) && s.len() >= 3 {
            Ok(Some(TokenType::Value(Value::Byte)))
        } else {
            Err(LexingError::Unknown)
        },
        Pass::Number => match classify_number(s) {
            Some(v) => if begins && ends {
                Ok(Some(TokenType::Value(v)))
            } else {
                Err(LexingError::Unknown)
            },
            None => Err(LexingError::Unknown),
        },
        Pass::Keyword => match classify_keyword(s) {
            Some(k) => if begins && ends {
                Ok(Some(TokenType::Keyword(k)))
            } else {
                Err(LexingError::Unknown)
            },
            None => Err(LexingError::Unknown),
        },
        Pass::Value => match classify_value_word(s) {
            Some(v) => if begins && ends {
                Ok(Some(TokenType::Value(v)))
            } else {
                Err(LexingError::Unknown)
            },
            None => Err(LexingError::Unknown),
        },
        Pass::Type => if is_type(s) && ends && (skip_array_prefix(s) > 0 || begins) {
            Ok(Some(TokenType::Type))
        } else {
            Err(LexingError::Unknown)
        },
        Pass::Identifier => if is_identifier(s) && begins && ends {
            Ok(Some(TokenType::Identifier))
        } else {
            Err(LexingError::Unknown)
        },
        Pass::Symbol => match classify_symbol(s) {
            Some(kind) => Ok(Some(kind)),
            None => Err(LexingError::Unknown),
        },
        Pass::EqualAssign => if is_spelled(s, TokenType::Compare(Compare::Equal)) {
            Ok(Some(TokenType::Compare(Compare::Equal)))
        } else if is_spelled(s, TokenType::Symbol(Symbol::Assign)) {
            if n - start < 2 {
                Err(LexingError::EOF)
            } else if start > 0 && program[start - 1] != '=' as u8 && program[start + 1]
                != '=' as u8 {
                Ok(Some(TokenType::Symbol(Symbol::Assign)))
            } else {
                Ok(None)
            }
        } else {
            Err(LexingError::Unknown)
        },
        Pass::MultDeref => if is_spelled(s, TokenType::Operator(Operator::Mult)) {
            if n - start >= 2 && (byte_is_letter(program[start + 1]) || program[start + 1]
                == '*' as u8) {
                Ok(Some(TokenType::Symbol(Symbol::Dereference)))
            } else {
                Ok(Some(TokenType::Operator(Operator::Mult)))
            }
        } else {
            Err(LexingError::Unknown)
        },
        Pass::Colon => if is_spelled(s, TokenType::Symbol(Symbol::DoubleColon)) {
            Ok(Some(TokenType::Symbol(Symbol::DoubleColon)))
        } else if is_spelled(s, TokenType::Symbol(Symbol::Colon)) {
            if (start > 0 && program[start - 1] == ':' as u8) || (n - start >= 2 && program[start
                + 1] == ':' as u8) {
                Ok(None)
            } else {
                Ok(Some(TokenType::Symbol(Symbol::Colon)))
            }
        } else {
            Err(LexingError::Unknown)
        },
    }
}

/// Makes the tokens of `pass` out of the matches of its pattern: passes
/// over each match that shares a byte with what is claimed, and classifies
/// every other.
pub fn claim_matches(pass: Pass, program: &[u8], skip: &SkipRange, matches: &Vec<Range>) -> (r:
    Result<Vec<Token>, LexingError>)
    ensures
        tokens_view(r) == claim_spec(pass, program@, skip@, matches@),
{
    let mut tokens: Vec<Token> = Vec::new();
    let mut i: usize = 0;
    while i < matches.len()
        invariant
            0 <= i <= matches@.len(),
            claim_prefix(pass, program@, skip@, matches@, i as nat) == Ok::<
                Seq<Token>,
                LexingError,
            >(tokens@),
        decreases matches@.len() - i,
    {
        let range = matches[i];
        if !range_intersects_skip(range, skip) {
            match classify(pass, program, range) {
                Err(e) => {
                    proof {
                        lemma_claim_error_stays(pass, program@, skip@, matches@, (i + 1) as nat);
                    }
                    return Err(e);
                },
                Ok(None) => {},
                Ok(Some(kind)) => {
                    tokens.push(Token { token: kind, range });
                },
            }
        }
        i += 1;
    }
    Ok(tokens)
}

/// An error among the first `n` matches is the error of them all.
pub proof fn lemma_claim_error_stays(
    pass: Pass,
    text: Seq<u8>,
    skip: Seq<Range>,
    matches: Seq<Range>,
    n: nat,
)
    requires
        n <= matches.len(),
        claim_prefix(pass, text, skip, matches, n) is Err,
    ensures
        claim_spec(pass, text, skip, matches) == claim_prefix(pass, text, skip, matches, n),
    decreases matches.len() - n,
{
    if n < matches.len() {
        lemma_claim_error_stays(pass, text, skip, matches, n + 1);
    }
}

/// Runs one pass over `program`: finds the matches of its pattern and makes
/// its tokens of them.
pub fn scan(pass: Pass, program: &[u8], skip: &SkipRange) -> (r: Result<Vec<Token>, LexingError>)
    ensures
        tokens_view(r) == pass_spec(pass, program@, skip@),
{
    let p = pattern(pass);
    assert(p@ == pattern_of(pass));
    match find_all(p, program) {
        None => Err(LexingError::Unknown),
        Some(matches) => claim_matches(pass, program, skip, &matches),
    }
}

} // verus!
