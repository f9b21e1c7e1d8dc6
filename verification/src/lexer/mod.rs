//! The tokenizer: from source text to an ordered stream of tokens.
//!
//! The source is a sequence of bytes, and every range counts bytes. The
//! tokenizer runs its passes one after another, each over the whole
//! source. A pass claims what no earlier pass has claimed, so the order of
//! the passes settles what a byte belongs to: a keyword inside a comment is
//! part of the comment.

pub mod form;
pub mod laws;
pub mod scan;
pub mod skip;
pub mod token;
pub mod words;

use scan::{pass_spec, scan, tokens_view, Pass};
use skip::{
    covered, extend_skip, overlaps, range_intersects_skip, token_ranges, update_skip, SkipRange,
};
use token::{Range, Token, TokenType, Value};
use vstd::prelude::*;
use vstd::slice::slice_to_vec;

verus! {

/// Why a source text could not be tokenized.
#[derive(Debug, Copy, Clone, PartialEq, Eq, Structural)]
pub enum LexingError {
    /// The bookkeeping of claimed ranges is broken: two tokens share a byte.
    UnevenRanges,
    /// The text ends where a token needs one more byte to be told apart.
    EOF,
    /// What begins at this byte is never closed.
    Unclosed(TokenType, usize),
    /// A match has none of the forms that its pass knows.
    Unknown,
}

/// The passes in the order in which they run. Comments come first, for a
/// comment may hold anything; then strings and byte literals, numerals,
/// the words of the language, types, identifiers and signs; and last the
/// signs that are told apart by what stands next to them.
pub open spec fn passes() -> Seq<Pass> {
    seq![
        Pass::Comment,
        Pass::String,
        Pass::Char,
        Pass::Number,
        Pass::Keyword,
        Pass::Value,
        Pass::Type,
        Pass::Identifier,
        Pass::Symbol,
        Pass::EqualAssign,
        Pass::MultDeref,
        Pass::Colon,
    ]
}

/// The first quote at or after `i` that nothing has claimed, as the error
/// that it stands for: a string or a byte literal that is never closed.
pub open spec fn open_quote_from(text: Seq<u8>, skip: Seq<Range>, i: int) -> Option<LexingError>
    decreases text.len() - i,
{
    if i < 0 || i >= text.len() {
        None
    } else if text[i] == '"' as u8 && !covered(skip, i) {
        Some(LexingError::Unclosed(TokenType::Value(Value::String), i as usize))
    } else if text[i] == '\'' as u8 && !covered(skip, i) {
        Some(LexingError::Unclosed(TokenType::Value(Value::Byte), i as usize))
    } else {
        open_quote_from(text, skip, i + 1)
    }
}

/// What is checked once `pass` has claimed its tokens. When strings and
/// byte literals are both claimed, a quote that is left over opens a
/// literal that is never closed.
pub open spec fn after_pass(pass: Pass, text: Seq<u8>, skip: Seq<Range>) -> Option<LexingError> {
    if pass == Pass::Char {
        open_quote_from(text, skip, 0)
    } else {
        None
    }
}

/// One step of the tokenizer: the tokens and the claimed ranges after
/// `pass` has run on `text`, given those before it.
pub open spec fn lex_spec(pass: Pass, text: Seq<u8>, tokens: Seq<Token>, skip: Seq<Range>)
    -> Result<(Seq<Token>, Seq<Range>), LexingError> {
    match pass_spec(pass, text, skip) {
        Err(e) => Err(e),
        Ok(new_tokens) => match extend_skip(skip, token_ranges(new_tokens), new_tokens.len()) {
            None => Err(LexingError::UnevenRanges),
            Some(claimed) => match after_pass(pass, text, claimed) {
                Some(e) => Err(e),
                None => Ok((tokens + new_tokens, claimed)),
            },
        },
    }
}

/// The tokens and the claimed ranges after the first `n` passes.
pub open spec fn run_passes(text: Seq<u8>, n: nat) -> Result<(Seq<Token>, Seq<Range>), LexingError>
    decreases n,
{
    if n == 0 || n > passes().len() {
        Ok((Seq::empty(), Seq::empty()))
    } else {
        match run_passes(text, (n - 1) as nat) {
            Err(e) => Err(e),
            Ok((tokens, skip)) => lex_spec(passes()[n - 1], text, tokens, skip),
        }
    }
}

/// The first place at or after `k` whose token ends behind the end of `t`,
/// or the length of `s` where there is none.
pub open spec fn place_by_end(s: Seq<Token>, t: Token, k: int) -> int
    decreases s.len() - k,
{
    if 0 <= k < s.len() && s[k].range[1] <= t.range[1] {
        place_by_end(s, t, k + 1)
    } else {
        k
    }
}

/// The first `n` of `tokens`, ordered by where they end. Tokens that end
/// at the same place keep their order.
pub open spec fn sort_prefix(tokens: Seq<Token>, n: nat) -> Seq<Token>
    decreases n,
{
    if n == 0 || n > tokens.len() {
        Seq::empty()
    } else {
        let sorted = sort_prefix(tokens, (n - 1) as nat);
        sorted.insert(place_by_end(sorted, tokens[n - 1], 0), tokens[n - 1])
    }
}

/// `tokens`, ordered by where they end.
pub open spec fn sort_by_end(tokens: Seq<Token>) -> Seq<Token> {
    sort_prefix(tokens, tokens.len())
}

/// The stream of tokens of `text`: what all the passes have claimed, in
/// the order of the source.
pub open spec fn tokenize_spec(text: Seq<u8>) -> Result<Seq<Token>, LexingError> {
    match run_passes(text, passes().len()) {
        Err(e) => Err(e),
        Ok((tokens, _)) => Ok(sort_by_end(tokens)),
    }
}

/// Comments: a line comment runs from `--` to the end of the line, a block
/// comment from `---` to the next `---`. A block comment that is never
/// closed is `Unclosed`.
pub fn comment_tokens(program: &[u8], skip: &SkipRange) -> (r: Result<Vec<Token>, LexingError>)
    ensures
        tokens_view(r) == pass_spec(Pass::Comment, program@, skip@),
{
    scan(Pass::Comment, program, skip)
}

/// Strings, in double quotes. A backslash escapes the byte behind it, so
/// an escaped quote does not end the string.
pub fn string_tokens(program: &[u8], skip: &SkipRange) -> (r: Result<Vec<Token>, LexingError>)
    ensures
        tokens_view(r) == pass_spec(Pass::String, program@, skip@),
{
    scan(Pass::String, program, skip)
}

/// Byte literals, in single quotes, with the escapes of strings. One holds
/// a byte at least.
pub fn char_tokens(program: &[u8], skip: &SkipRange) -> (r: Result<Vec<Token>, LexingError>)
    ensures
        tokens_view(r) == pass_spec(Pass::Char, program@, skip@),
{
    scan(Pass::Char, program, skip)
}

/// Numerals: hexadecimal behind `0x`, octal behind `0o`, binary behind
/// `0b`, floating-point with a dot and perhaps a signed exponent, and
/// decimal. Each is tagged with its kind; none is decoded here.
pub fn number_tokens(program: &[u8], skip: &SkipRange) -> (r: Result<Vec<Token>, LexingError>)
    ensures
        tokens_view(r) == pass_spec(Pass::Number, program@, skip@),
{
    scan(Pass::Number, program, skip)
}

/// Keywords, as whole words only.
pub fn keyword_tokens(program: &[u8], skip: &SkipRange) -> (r: Result<Vec<Token>, LexingError>)
    ensures
        tokens_view(r) == pass_spec(Pass::Keyword, program@, skip@),
{
    scan(Pass::Keyword, program, skip)
}

/// The words for values: `true`, `false`, `none` and `error`.
pub fn value_tokens(program: &[u8], skip: &SkipRange) -> (r: Result<Vec<Token>, LexingError>)
    ensures
        tokens_view(r) == pass_spec(Pass::Value, program@, skip@),
{
    scan(Pass::Value, program, skip)
}

/// Types: the name of a built-in type, or a name that begins with an
/// upper-case letter, behind array markers `[]` where there are any.
pub fn type_tokens(program: &[u8], skip: &SkipRange) -> (r: Result<Vec<Token>, LexingError>)
    ensures
        tokens_view(r) == pass_spec(Pass::Type, program@, skip@),
{
    scan(Pass::Type, program, skip)
}

/// Identifiers: the words that begin with a lower-case letter and are not
/// claimed yet.
pub fn identifier_tokens(program: &[u8], skip: &SkipRange) -> (r: Result<Vec<Token>, LexingError>)
    ensures
        tokens_view(r) == pass_spec(Pass::Identifier, program@, skip@),
{
    scan(Pass::Identifier, program, skip)
}

/// Brackets, punctuation, and the operators and comparisons that can be
/// told without a look at what stands around them.
pub fn symbol_tokens(program: &[u8], skip: &SkipRange) -> (r: Result<Vec<Token>, LexingError>)
    ensures
        tokens_view(r) == pass_spec(Pass::Symbol, program@, skip@),
{
    scan(Pass::Symbol, program, skip)
}

/// `==` is a comparison. A single `=` is an assignment where a byte that is
/// no `=` stands on either side of it; as the last byte of the text it is
/// `EOF`, for the byte behind it is missing.
pub fn equal_and_assign_tokens(program: &[u8], skip: &SkipRange) -> (r: Result<
    Vec<Token>,
    LexingError,
>)
    ensures
        tokens_view(r) == pass_spec(Pass::EqualAssign, program@, skip@),
{
    scan(Pass::EqualAssign, program, skip)
}

/// A `*` is a dereference where a letter or another `*` follows it at
/// once, and a multiplication otherwise.
pub fn multiplication_and_deref_tokens(program: &[u8], skip: &SkipRange) -> (r: Result<
    Vec<Token>,
    LexingError,
>)
    ensures
        tokens_view(r) == pass_spec(Pass::MultDeref, program@, skip@),
{
    scan(Pass::MultDeref, program, skip)
}

/// `::` is a double colon. A single `:` is a colon where no other `:`
/// stands next to it.
pub fn colon_and_double_tokens(program: &[u8], skip: &SkipRange) -> (r: Result<
    Vec<Token>,
    LexingError,
>)
    ensures
        tokens_view(r) == pass_spec(Pass::Colon, program@, skip@),
{
    scan(Pass::Colon, program, skip)
}

/// Runs `pass` over `program`.
pub fn run_pass(pass: Pass, program: &[u8], skip: &SkipRange) -> (r: Result<
    Vec<Token>,
    LexingError,
>)
    ensures
        tokens_view(r) == pass_spec(pass, program@, skip@),
{
    match pass {
        Pass::Comment => comment_tokens(program, skip),
        Pass::String => string_tokens(program, skip),
        Pass::Char => char_tokens(program, skip),
        Pass::Number => number_tokens(program, skip),
        Pass::Keyword => keyword_tokens(program, skip),
        Pass::Value => value_tokens(program, skip),
        Pass::Type => type_tokens(program, skip),
        Pass::Identifier => identifier_tokens(program, skip),
        Pass::Symbol => symbol_tokens(program, skip),
        Pass::EqualAssign => equal_and_assign_tokens(program, skip),
        Pass::MultDeref => multiplication_and_deref_tokens(program, skip),
        Pass::Colon => colon_and_double_tokens(program, skip),
    }
}

/// Looks for a quote that nothing has claimed.
pub fn find_open_quote(program: &[u8], skip: &SkipRange) -> (r: Option<LexingError>)
    ensures
        r == open_quote_from(program@, skip@, 0),
{
    let mut i: usize = 0;
    while i < program.len()
        invariant
            0 <= i <= program@.len(),
            open_quote_from(program@, skip@, 0) == open_quote_from(program@, skip@, i as int),
        decreases program@.len() - i,
    {
        let b = program[i];
        if b == '"' as u8 || b == '\'' as u8 {
            let here: Range = [i, i + 1];
            let claimed = range_intersects_skip(here, skip);
            proof {
                if claimed {
                    let k = choose|k: int| 0 <= k < skip@.len() && overlaps(here, #[trigger] skip@[k]);
                    assert(skip@[k][0] <= i < skip@[k][1]);
                }
                if covered(skip@, i as int) {
                    let k = choose|k: int|
                        0 <= k < skip@.len() && (#[trigger] skip@[k])[0] <= i < skip@[k][1];
                    assert(overlaps(here, skip@[k]));
                }
            }
            if !claimed {
                if b == '"' as u8 {
                    return Some(LexingError::Unclosed(TokenType::Value(Value::String), i));
                } else {
                    return Some(LexingError::Unclosed(TokenType::Value(Value::Byte), i));
                }
            }
        }
        i += 1;
    }
    None
}

/// Runs one pass and adds what it claims: its tokens behind `tokens`, and
/// their ranges to `skip`. Where the pass fails, both stay as they were.
pub fn lex(program: &[u8], tokens: &mut Vec<Token>, skip: &mut SkipRange, pass: Pass) -> (r:
    Option<LexingError>)
    ensures
        match lex_spec(pass, program@, old(tokens)@, old(skip)@) {
            Ok((t, s)) => r is None && final(tokens)@ == t && final(skip)@ == s,
            Err(e) => r == Some(e) && final(tokens)@ == old(tokens)@ && final(skip)@ == old(
                skip,
            )@,
        },
{
    let mut new_tokens = match run_pass(pass, program, skip) {
        Ok(t) => t,
        Err(e) => {
            return Some(e);
        },
    };
    let mut claimed: SkipRange = slice_to_vec(skip.as_slice());
    if let Some(e) = update_skip(&new_tokens, &mut claimed) {
        return Some(e);
    }
    if let Pass::Char = pass {
        if let Some(e) = find_open_quote(program, &claimed) {
            return Some(e);
        }
    }
    tokens.append(&mut new_tokens);
    *skip = claimed;
    None
}

/// Orders `tokens` by where they end.
pub fn sort_tokens(tokens: &Vec<Token>) -> (sorted: Vec<Token>)
    ensures
        sorted@ == sort_by_end(tokens@),
{
    let mut sorted: Vec<Token> = Vec::new();
    let mut i: usize = 0;
    while i < tokens.len()
        invariant
            0 <= i <= tokens@.len(),
            sorted@ == sort_prefix(tokens@, i as nat),
            sorted@.len() == i,
        decreases tokens@.len() - i,
    {
        let t = tokens[i];
        let mut k: usize = 0;
        while k < sorted.len() && sorted[k].range[1] <= t.range[1]
            invariant
                0 <= k <= sorted@.len(),
                place_by_end(sorted@, t, 0) == place_by_end(sorted@, t, k as int),
            decreases sorted@.len() - k,
        {
            k += 1;
        }
        sorted.insert(k, t);
        i += 1;
    }
    sorted
}

/// Turns a source text into its stream of tokens.
///
/// The passes run in their order, each on the whole text; the first error
/// ends the work. What they claim is then put in the order of the source.
/// In the stream no two tokens share a byte, each token lies in the text,
/// and the text under it has the form of its kind.
pub fn tokenize(program: &[u8]) -> (r: Result<Vec<Token>, LexingError>)
    ensures
        tokens_view(r) == tokenize_spec(program@),
        r matches Ok(tokens) ==> laws::in_source_order(tokens@) && laws::faithful(
            tokens@,
            program@,
        ),
{
    let mut tokens: Vec<Token> = Vec::new();
    let mut skip: SkipRange = Vec::new();
    let lexers = vec![
        Pass::Comment,
        Pass::String,
        Pass::Char,
        Pass::Number,
        Pass::Keyword,
        Pass::Value,
        Pass::Type,
        Pass::Identifier,
        Pass::Symbol,
        Pass::EqualAssign,
        Pass::MultDeref,
        Pass::Colon,
    ];
    assert(lexers@ =~= passes());
    let mut i: usize = 0;
    while i < lexers.len()
        invariant
            0 <= i <= lexers@.len(),
            lexers@ == passes(),
            run_passes(program@, i as nat) == Ok::<(Seq<Token>, Seq<Range>), LexingError>(
                (tokens@, skip@),
            ),
        decreases lexers@.len() - i,
    {
        match lex(program, &mut tokens, &mut skip, lexers[i]) {
            Some(err) => {
                proof {
                    lemma_run_error_stays(program@, (i + 1) as nat);
                }
                return Err(err);
            },
            None => {},
        }
        i += 1;
    }
    let sorted = sort_tokens(&tokens);
    proof {
        laws::law_tokens_do_not_overlap(program@);
        laws::law_tokens_are_faithful(program@);
    }
    Ok(sorted)
}

/// Looks for the first byte of `program` that is no white space and lies
/// in none of `tokens`. A text in which there is none is well formed.
pub fn first_unclaimed(program: &[u8], tokens: &Vec<Token>) -> (r: Option<usize>)
    requires
        laws::in_source_order(tokens@),
    ensures
        match r {
            None => laws::well_formed(program@, tokens@),
            Some(p) => {
                &&& p < program@.len()
                &&& !laws::is_space(program@[p as int])
                &&& !laws::claimed(tokens@, p as int)
                &&& forall|q: int|
                    0 <= q < p && !laws::is_space(#[trigger] program@[q]) ==> laws::claimed(
                        tokens@,
                        q,
                    )
            },
        },
{
    let mut p: usize = 0;
    let mut k: usize = 0;
    while p < program.len()
        invariant
            0 <= p <= program@.len(),
            0 <= k <= tokens@.len(),
            laws::in_source_order(tokens@),
            forall|j: int| 0 <= j < k ==> (#[trigger] tokens@[j]).range[1] <= p,
            forall|q: int|
                0 <= q < p && !laws::is_space(#[trigger] program@[q]) ==> laws::claimed(tokens@, q),
        decreases program@.len() - p,
    {
        while k < tokens.len() && tokens[k].range[1] <= p
            invariant
                0 <= k <= tokens@.len(),
                forall|j: int| 0 <= j < k ==> (#[trigger] tokens@[j]).range[1] <= p,
            decreases tokens@.len() - k,
        {
            k += 1;
        }
        let b = program[p];
        let space = b == ' ' as u8 || b == '\t' as u8 || b == '\n' as u8 || b == '\r' as u8;
        if !space {
            if k < tokens.len() && tokens[k].range[0] <= p {
                assert(laws::token_covers(tokens@, k as int, p as int));
            } else {
                assert forall|j: int| !laws::token_covers(tokens@, j, p as int) by {
                    if 0 <= j < k {
                        assert(tokens@[j].range[1] <= p);
                    } else if k < j < tokens@.len() {
                        assert(tokens@[k as int].range[1] <= tokens@[j].range[0]);
                    }
                }
                return Some(p);
            }
        }
        p += 1;
    }
    None
}

/// An error of the first `n` passes is the error of them all.
pub proof fn lemma_run_error_stays(text: Seq<u8>, n: nat)
    requires
        n <= passes().len(),
        run_passes(text, n) is Err,
    ensures
        run_passes(text, passes().len()) == run_passes(text, n),
    decreases passes().len() - n,
{
    if n < passes().len() {
        lemma_run_error_stays(text, n + 1);
    }
}

} // verus!
