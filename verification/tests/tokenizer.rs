use lp_frontend::lexer::form::{
    is_block_comment, is_float, is_identifier, is_int, is_line_comment, is_quoted, is_radix,
    parse_number,
};
use lp_frontend::lexer::scan::{claim_matches, classify, scan, Pass};
use lp_frontend::lexer::words::{is_spelled, is_type};
use lp_frontend::lexer::skip::{range_intersects_skip, update_skip, SkipRange};
use lp_frontend::lexer::token::{
    Braket, Compare, Keyword, Operator, Symbol, Token, TokenType, Value,
};
use lp_frontend::lexer::{
    find_open_quote, first_unclaimed, keyword_tokens, lex, number_tokens, sort_tokens, tokenize,
    LexingError,
};

fn tok(token: TokenType, start: usize, end: usize) -> Token {
    Token { token, range: [start, end] }
}

fn kinds(source: &str) -> Vec<TokenType> {
    let tokens = tokenize(source.as_bytes()).unwrap();
    let mut out = Vec::new();
    for t in tokens {
        out.push(t.token);
    }
    out
}

#[test]
fn tokenizes_a_declaration() {
    let tokens = tokenize(b"a := 1").unwrap();
    assert_eq!(
        tokens,
        vec![
            tok(TokenType::Identifier, 0, 1),
            tok(TokenType::Symbol(Symbol::Colon), 2, 3),
            tok(TokenType::Symbol(Symbol::Assign), 3, 4),
            tok(TokenType::Value(Value::Int), 5, 6),
        ]
    );
}

#[test]
fn empty_source_has_no_tokens() {
    assert_eq!(tokenize(b"").unwrap(), Vec::new());
    assert_eq!(tokenize(b"  \n\t ").unwrap(), Vec::new());
}

#[test]
fn unterminated_string_is_unclosed() {
    assert_eq!(
        tokenize(b"\"abc"),
        Err(LexingError::Unclosed(TokenType::Value(Value::String), 0))
    );
}

#[test]
fn unterminated_string_reports_its_own_offset() {
    assert_eq!(
        tokenize(b"x = \"abc"),
        Err(LexingError::Unclosed(TokenType::Value(Value::String), 4))
    );
}

#[test]
fn string_that_ends_in_an_escaped_quote_is_unclosed() {
    assert_eq!(
        tokenize(b"\"abc\\\""),
        Err(LexingError::Unclosed(TokenType::Value(Value::String), 0))
    );
}

#[test]
fn unterminated_byte_literal_is_unclosed() {
    assert_eq!(
        tokenize(b"'a"),
        Err(LexingError::Unclosed(TokenType::Value(Value::Byte), 0))
    );
    assert_eq!(
        tokenize(b"''"),
        Err(LexingError::Unclosed(TokenType::Value(Value::Byte), 0))
    );
}

#[test]
fn unterminated_block_comment_is_unclosed() {
    assert_eq!(
        tokenize(b"x --- never closed"),
        Err(LexingError::Unclosed(TokenType::Comment, 2))
    );
}

#[test]
fn trailing_assign_runs_off_the_end() {
    assert_eq!(tokenize(b"a ="), Err(LexingError::EOF));
}

#[test]
fn escaped_quote_does_not_end_a_string() {
    let tokens = tokenize(b"\"ab\\\"c\" x").unwrap();
    assert_eq!(
        tokens,
        vec![tok(TokenType::Value(Value::String), 0, 7), tok(TokenType::Identifier, 8, 9)]
    );
}

#[test]
fn escaped_backslash_does_not_escape_the_quote_behind_it() {
    let tokens = tokenize(b"\"a\\\\\" b").unwrap();
    assert_eq!(
        tokens,
        vec![tok(TokenType::Value(Value::String), 0, 5), tok(TokenType::Identifier, 6, 7)]
    );
}

#[test]
fn byte_literals() {
    let tokens = tokenize(b"'a' '\\'' '\"'").unwrap();
    assert_eq!(
        tokens,
        vec![
            tok(TokenType::Value(Value::Byte), 0, 3),
            tok(TokenType::Value(Value::Byte), 4, 8),
            tok(TokenType::Value(Value::Byte), 9, 12),
        ]
    );
}

#[test]
fn quote_inside_a_string_is_part_of_it() {
    let tokens = tokenize(b"\"it's\"").unwrap();
    assert_eq!(tokens, vec![tok(TokenType::Value(Value::String), 0, 6)]);
}

#[test]
fn line_comment_runs_to_the_end_of_the_line() {
    let tokens = tokenize(b"x -- for \"all\ny").unwrap();
    assert_eq!(
        tokens,
        vec![
            tok(TokenType::Identifier, 0, 1),
            tok(TokenType::Comment, 2, 13),
            tok(TokenType::Identifier, 14, 15),
        ]
    );
}

#[test]
fn block_comment_runs_to_the_next_marker() {
    let tokens = tokenize(b"--- a\nb --- z -- -c").unwrap();
    assert_eq!(
        tokens,
        vec![
            tok(TokenType::Comment, 0, 11),
            tok(TokenType::Identifier, 12, 13),
            tok(TokenType::Comment, 14, 19),
        ]
    );
}

#[test]
fn numerals_of_each_kind() {
    let tokens = tokenize(b"0x1A 0o17 0b101 3.14 42 1.5e+10 2.0e-3").unwrap();
    assert_eq!(
        tokens,
        vec![
            tok(TokenType::Value(Value::Hex), 0, 4),
            tok(TokenType::Value(Value::Oct), 5, 9),
            tok(TokenType::Value(Value::Bin), 10, 15),
            tok(TokenType::Value(Value::Float), 16, 20),
            tok(TokenType::Value(Value::Int), 21, 23),
            tok(TokenType::Value(Value::Float), 24, 31),
            tok(TokenType::Value(Value::Float), 32, 38),
        ]
    );
}

#[test]
fn keywords_are_whole_words() {
    let tokens = tokenize(b"for forest in_x in").unwrap();
    assert_eq!(
        tokens,
        vec![
            tok(TokenType::Keyword(Keyword::For), 0, 3),
            tok(TokenType::Identifier, 4, 10),
            tok(TokenType::Identifier, 11, 15),
            tok(TokenType::Keyword(Keyword::In), 16, 18),
        ]
    );
}

#[test]
fn every_keyword() {
    assert_eq!(
        kinds(
            "mut for loop while if else switch in return catch fn is enum impl interface debug \
             and or not as mod import"
        ),
        vec![
            TokenType::Keyword(Keyword::Mut),
            TokenType::Keyword(Keyword::For),
            TokenType::Keyword(Keyword::Loop),
            TokenType::Keyword(Keyword::While),
            TokenType::Keyword(Keyword::If),
            TokenType::Keyword(Keyword::Else),
            TokenType::Keyword(Keyword::Switch),
            TokenType::Keyword(Keyword::In),
            TokenType::Keyword(Keyword::Return),
            TokenType::Keyword(Keyword::Catch),
            TokenType::Keyword(Keyword::Fn),
            TokenType::Keyword(Keyword::Is),
            TokenType::Keyword(Keyword::Enum),
            TokenType::Keyword(Keyword::Impl),
            TokenType::Keyword(Keyword::Interface),
            TokenType::Keyword(Keyword::Debug),
            TokenType::Keyword(Keyword::And),
            TokenType::Keyword(Keyword::Or),
            TokenType::Keyword(Keyword::Not),
            TokenType::Keyword(Keyword::As),
            TokenType::Keyword(Keyword::Mod),
            TokenType::Keyword(Keyword::Import),
        ]
    );
}

#[test]
fn words_for_values() {
    assert_eq!(
        kinds("true false none error"),
        vec![
            TokenType::Value(Value::True),
            TokenType::Value(Value::False),
            TokenType::Value(Value::Null),
            TokenType::Value(Value::Error),
        ]
    );
}

#[test]
fn types_with_and_without_array_markers() {
    let tokens = tokenize(b"[]u8 Foo bool [][]Bar_1 usize").unwrap();
    assert_eq!(
        tokens,
        vec![
            tok(TokenType::Type, 0, 4),
            tok(TokenType::Type, 5, 8),
            tok(TokenType::Type, 9, 13),
            tok(TokenType::Type, 14, 23),
            tok(TokenType::Type, 24, 29),
        ]
    );
}

#[test]
fn a_word_with_an_upper_case_letter_inside_is_an_identifier() {
    let tokens = tokenize(b"fooBar u8x").unwrap();
    assert_eq!(
        tokens,
        vec![tok(TokenType::Identifier, 0, 6), tok(TokenType::Identifier, 7, 10)]
    );
}

#[test]
fn star_before_a_name_is_a_dereference() {
    assert_eq!(
        kinds("*p"),
        vec![TokenType::Symbol(Symbol::Dereference), TokenType::Identifier]
    );
    assert_eq!(
        kinds("**p"),
        vec![
            TokenType::Symbol(Symbol::Dereference),
            TokenType::Symbol(Symbol::Dereference),
            TokenType::Identifier,
        ]
    );
    assert_eq!(
        kinds("*Foo"),
        vec![TokenType::Symbol(Symbol::Dereference), TokenType::Type]
    );
}

#[test]
fn star_before_anything_else_is_a_multiplication() {
    assert_eq!(
        kinds("a * b"),
        vec![
            TokenType::Identifier,
            TokenType::Operator(Operator::Mult),
            TokenType::Identifier,
        ]
    );
    assert_eq!(
        kinds("2 *3"),
        vec![
            TokenType::Value(Value::Int),
            TokenType::Operator(Operator::Mult),
            TokenType::Value(Value::Int),
        ]
    );
    assert_eq!(
        kinds("a *"),
        vec![TokenType::Identifier, TokenType::Operator(Operator::Mult)]
    );
}

#[test]
fn equal_and_assign() {
    assert_eq!(
        kinds("a == b"),
        vec![
            TokenType::Identifier,
            TokenType::Compare(Compare::Equal),
            TokenType::Identifier,
        ]
    );
    assert_eq!(
        kinds("a = b"),
        vec![TokenType::Identifier, TokenType::Symbol(Symbol::Assign), TokenType::Identifier]
    );
    assert_eq!(
        kinds("a=b=c"),
        vec![
            TokenType::Identifier,
            TokenType::Symbol(Symbol::Assign),
            TokenType::Identifier,
            TokenType::Symbol(Symbol::Assign),
            TokenType::Identifier,
        ]
    );
}

#[test]
fn assign_needs_a_byte_on_either_side() {
    let tokens = tokenize(b"= a").unwrap();
    assert_eq!(tokens, vec![tok(TokenType::Identifier, 2, 3)]);
    let tokens = tokenize(b"a === b").unwrap();
    assert_eq!(
        tokens,
        vec![
            tok(TokenType::Identifier, 0, 1),
            tok(TokenType::Compare(Compare::Equal), 2, 4),
            tok(TokenType::Identifier, 6, 7),
        ]
    );
}

#[test]
fn colon_and_double_colon() {
    assert_eq!(
        kinds("a: T"),
        vec![TokenType::Identifier, TokenType::Symbol(Symbol::Colon), TokenType::Type]
    );
    assert_eq!(
        kinds("a::b"),
        vec![
            TokenType::Identifier,
            TokenType::Symbol(Symbol::DoubleColon),
            TokenType::Identifier,
        ]
    );
    let tokens = tokenize(b"a:::b").unwrap();
    assert_eq!(
        tokens,
        vec![
            tok(TokenType::Identifier, 0, 1),
            tok(TokenType::Symbol(Symbol::DoubleColon), 1, 3),
            tok(TokenType::Identifier, 4, 5),
        ]
    );
    assert_eq!(kinds("a :"), vec![TokenType::Identifier, TokenType::Symbol(Symbol::Colon)]);
}

#[test]
fn signs_of_more_than_one_byte_are_one_token() {
    assert_eq!(
        kinds("... .. -> += -= *= /= ^= %= >= <="),
        vec![
            TokenType::Symbol(Symbol::Elipsis),
            TokenType::Symbol(Symbol::Range),
            TokenType::Symbol(Symbol::Arrow),
            TokenType::Operator(Operator::PlusAssign),
            TokenType::Operator(Operator::MinusAssign),
            TokenType::Operator(Operator::MultAssign),
            TokenType::Operator(Operator::DivAssign),
            TokenType::Operator(Operator::PowerAssign),
            TokenType::Operator(Operator::ModulusAssign),
            TokenType::Compare(Compare::GreaterEqual),
            TokenType::Compare(Compare::LessEqual),
        ]
    );
}

#[test]
fn signs_of_one_byte() {
    assert_eq!(
        kinds("! ? . , & | { } [ ] ( ) + - / ^ % > <"),
        vec![
            TokenType::Symbol(Symbol::Bang),
            TokenType::Symbol(Symbol::Optional),
            TokenType::Symbol(Symbol::Dot),
            TokenType::Symbol(Symbol::Comma),
            TokenType::Symbol(Symbol::Address),
            TokenType::Symbol(Symbol::TypeSum),
            TokenType::Braket(Braket::OpenBrace),
            TokenType::Braket(Braket::CloseBrace),
            TokenType::Braket(Braket::OpenSquareBraket),
            TokenType::Braket(Braket::CloseSquareBraket),
            TokenType::Braket(Braket::OpenParen),
            TokenType::Braket(Braket::CloseParen),
            TokenType::Operator(Operator::Plus),
            TokenType::Operator(Operator::Minus),
            TokenType::Operator(Operator::Div),
            TokenType::Operator(Operator::Power),
            TokenType::Operator(Operator::Modulus),
            TokenType::Compare(Compare::Greater),
            TokenType::Compare(Compare::Less),
        ]
    );
}

#[test]
fn range_between_numbers() {
    let tokens = tokenize(b"1..5 -3 x.y").unwrap();
    assert_eq!(
        tokens,
        vec![
            tok(TokenType::Value(Value::Int), 0, 1),
            tok(TokenType::Symbol(Symbol::Range), 1, 3),
            tok(TokenType::Value(Value::Int), 3, 4),
            tok(TokenType::Operator(Operator::Minus), 5, 6),
            tok(TokenType::Value(Value::Int), 6, 7),
            tok(TokenType::Identifier, 8, 9),
            tok(TokenType::Symbol(Symbol::Dot), 9, 10),
            tok(TokenType::Identifier, 10, 11),
        ]
    );
}

#[test]
fn bang_before_assign() {
    assert_eq!(
        kinds("a != b"),
        vec![
            TokenType::Identifier,
            TokenType::Symbol(Symbol::Bang),
            TokenType::Symbol(Symbol::Assign),
            TokenType::Identifier,
        ]
    );
}

#[test]
fn what_a_comment_holds_is_not_tokenized_again() {
    let tokens = tokenize(b"a -- if \"x\" 12 {").unwrap();
    assert_eq!(
        tokens,
        vec![tok(TokenType::Identifier, 0, 1), tok(TokenType::Comment, 2, 16)]
    );
}

#[test]
fn comment_marker_inside_a_string_opens_a_comment() {
    assert_eq!(
        tokenize(b"\"a -- b\""),
        Err(LexingError::Unclosed(TokenType::Value(Value::String), 0))
    );
    let source = b"x \"a -- b\"\ny";
    let skip: SkipRange = Vec::new();
    assert_eq!(
        scan(Pass::Comment, source, &skip),
        Ok(vec![tok(TokenType::Comment, 5, 10)])
    );
}

#[test]
fn what_a_string_holds_is_not_tokenized_again() {
    let tokens = tokenize(b"\"if 12 { x\" y").unwrap();
    assert_eq!(
        tokens,
        vec![tok(TokenType::Value(Value::String), 0, 11), tok(TokenType::Identifier, 12, 13)]
    );
}

#[test]
fn tokens_come_in_the_order_of_the_source_and_apart() {
    let source = b"fn main(a: u8) -> Foo { -- go\n  x := *a + 0x1F * 2.5 if x >= 3 { \"s\" } }";
    let tokens = tokenize(source).unwrap();
    assert_eq!(tokens.len(), 28);
    for i in 0..tokens.len() {
        assert!(tokens[i].range[0] < tokens[i].range[1]);
        assert!(tokens[i].range[1] <= source.len());
        if i + 1 < tokens.len() {
            assert!(tokens[i].range[1] <= tokens[i + 1].range[0]);
        }
    }
    assert_eq!(first_unclaimed(source, &tokens), None);
}

#[test]
fn text_of_each_token_has_the_form_of_its_kind() {
    let source = b"fn f(n: u64) { -- count\n  x := 0x1F + 12 * 2.5e-1 \"s\" 'c' 0b10 0o7 }";
    let tokens = tokenize(source).unwrap();
    let mut seen = 0;
    for t in &tokens {
        let text = &source[t.range[0]..t.range[1]];
        match t.token {
            TokenType::Value(Value::Int) => {
                assert!(is_int(text));
                assert_eq!(text, &b"12"[..]);
            }
            TokenType::Value(Value::Hex) => {
                assert!(is_radix(text, b'x', 16));
                assert_eq!(text, &b"0x1F"[..]);
            }
            TokenType::Value(Value::Oct) => assert!(is_radix(text, b'o', 8)),
            TokenType::Value(Value::Bin) => assert!(is_radix(text, b'b', 2)),
            TokenType::Value(Value::Float) => {
                assert!(is_float(text));
                assert_eq!(text, &b"2.5e-1"[..]);
            }
            TokenType::Value(Value::String) => assert!(is_quoted(text, b'"')),
            TokenType::Value(Value::Byte) => assert!(is_quoted(text, b'\'')),
            TokenType::Comment => assert!(is_line_comment(text)),
            TokenType::Identifier => assert!(is_identifier(text)),
            TokenType::Type => assert!(is_type(text)),
            kind => assert!(is_spelled(text, kind)),
        }
        seen += 1;
    }
    assert_eq!(seen, 22);
}

#[test]
fn recognizers_refuse_what_has_another_form() {
    assert!(!is_int(b""));
    assert!(!is_int(b"1a"));
    assert!(!is_radix(b"0x", b'x', 16));
    assert!(!is_radix(b"0xg", b'x', 16));
    assert!(!is_radix(b"1x1", b'x', 16));
    assert!(!is_float(b"1"));
    assert!(!is_float(b".5"));
    assert!(!is_float(b"1.5e10"));
    assert!(!is_float(b"1.5e+"));
    assert!(!is_quoted(b"\"a", b'"'));
    assert!(!is_quoted(b"\"a\\\"", b'"'));
    assert!(!is_quoted(b"\"a\"b\"", b'"'));
    assert!(!is_identifier(b"Foo"));
    assert!(!is_identifier(b"a-b"));
    assert!(!is_type(b"foo"));
    assert!(!is_type(b"[]"));
    assert!(is_block_comment(b"--- a ---"));
    assert!(is_block_comment(b"------"));
    assert!(!is_block_comment(b"--- a --- b ---"));
    assert!(!is_block_comment(b"-----"));
    assert!(!is_line_comment(b"--- a"));
    assert!(!is_line_comment(b"-- a\nb"));
}

#[test]
fn parse_number_reads_each_base() {
    assert_eq!(parse_number(b"1A", 16), Some(26));
    assert_eq!(parse_number(b"ff", 16), Some(255));
    assert_eq!(parse_number(b"17", 8), Some(15));
    assert_eq!(parse_number(b"101", 2), Some(5));
    assert_eq!(parse_number(b"18446744073709551615", 10), Some(u64::MAX));
    assert_eq!(parse_number(b"18446744073709551616", 10), None);
    assert_eq!(parse_number(b"8", 8), None);
    assert_eq!(parse_number(b"", 10), None);
    assert_eq!(parse_number(b"+5", 10), None);
}

#[test]
fn first_unclaimed_finds_a_stray_byte() {
    let source = b"a @ b";
    let tokens = tokenize(source).unwrap();
    assert_eq!(
        tokens,
        vec![tok(TokenType::Identifier, 0, 1), tok(TokenType::Identifier, 4, 5)]
    );
    assert_eq!(first_unclaimed(source, &tokens), Some(2));
}

#[test]
fn non_ascii_bytes_may_stand_in_strings_and_comments() {
    let source = "s := \"h\u{e9}llo\" -- caf\u{e9}";
    let tokens = tokenize(source.as_bytes()).unwrap();
    assert_eq!(
        tokens,
        vec![
            tok(TokenType::Identifier, 0, 1),
            tok(TokenType::Symbol(Symbol::Colon), 2, 3),
            tok(TokenType::Symbol(Symbol::Assign), 3, 4),
            tok(TokenType::Value(Value::String), 5, 13),
            tok(TokenType::Comment, 14, 22),
        ]
    );
}

#[test]
fn scan_finds_the_keywords() {
    let skip: SkipRange = Vec::new();
    assert_eq!(
        scan(Pass::Keyword, b"mut x", &skip),
        Ok(vec![tok(TokenType::Keyword(Keyword::Mut), 0, 3)])
    );
    assert_eq!(
        keyword_tokens(b"if a else b", &skip),
        Ok(vec![
            tok(TokenType::Keyword(Keyword::If), 0, 2),
            tok(TokenType::Keyword(Keyword::Else), 5, 9),
        ])
    );
}

#[test]
fn a_pass_leaves_what_is_claimed() {
    let skip: SkipRange = vec![[0, 6]];
    assert_eq!(
        number_tokens(b"\"1 2\"  3", &skip),
        Ok(vec![tok(TokenType::Value(Value::Int), 7, 8)])
    );
}

#[test]
fn a_match_that_holds_a_claimed_range_is_left() {
    let skip: SkipRange = vec![[1, 2]];
    assert_eq!(scan(Pass::Identifier, b"abc", &skip), Ok(Vec::new()));
}

#[test]
fn claim_matches_refuses_a_match_of_no_known_form() {
    let skip: SkipRange = Vec::new();
    assert_eq!(
        claim_matches(Pass::Keyword, b"xyz", &skip, &vec![[0, 3]]),
        Err(LexingError::Unknown)
    );
    assert_eq!(
        claim_matches(Pass::Number, b"12a", &skip, &vec![[0, 3]]),
        Err(LexingError::Unknown)
    );
}

#[test]
fn claim_matches_refuses_a_part_of_a_longer_word() {
    let skip: SkipRange = Vec::new();
    assert_eq!(
        claim_matches(Pass::Keyword, b"format", &skip, &vec![[0, 3]]),
        Err(LexingError::Unknown)
    );
    assert_eq!(
        claim_matches(Pass::Keyword, b"x_for", &skip, &vec![[2, 5]]),
        Err(LexingError::Unknown)
    );
    assert_eq!(
        claim_matches(Pass::Identifier, b"fooBar", &skip, &vec![[0, 3]]),
        Err(LexingError::Unknown)
    );
    assert_eq!(
        claim_matches(Pass::Number, b"12a", &skip, &vec![[0, 2]]),
        Err(LexingError::Unknown)
    );
    assert_eq!(
        claim_matches(Pass::Type, b"aFoo", &skip, &vec![[1, 4]]),
        Err(LexingError::Unknown)
    );
    assert_eq!(
        claim_matches(Pass::Type, b"a[]Foo", &skip, &vec![[1, 6]]),
        Ok(vec![tok(TokenType::Type, 1, 6)])
    );
}

#[test]
fn claim_matches_refuses_a_match_outside_the_text() {
    let skip: SkipRange = Vec::new();
    assert_eq!(
        claim_matches(Pass::Identifier, b"abc", &skip, &vec![[1, 4]]),
        Err(LexingError::Unknown)
    );
    assert_eq!(
        claim_matches(Pass::Identifier, b"abc", &skip, &vec![[2, 2]]),
        Err(LexingError::Unknown)
    );
}

#[test]
fn claim_matches_keeps_the_order_of_the_matches() {
    let skip: SkipRange = vec![[2, 3]];
    assert_eq!(
        claim_matches(Pass::Identifier, b"a b c", &skip, &vec![[0, 1], [2, 3], [4, 5]]),
        Ok(vec![tok(TokenType::Identifier, 0, 1), tok(TokenType::Identifier, 4, 5)])
    );
}

#[test]
fn classify_tells_the_kind() {
    assert_eq!(
        classify(Pass::Number, b"x 0b11", [2, 6]),
        Ok(Some(TokenType::Value(Value::Bin)))
    );
    assert_eq!(classify(Pass::Number, b"0b12", [0, 4]), Err(LexingError::Unknown));
    assert_eq!(classify(Pass::Colon, b"::", [1, 2]), Ok(None));
    assert_eq!(
        classify(Pass::Comment, b"--- x", [0, 5]),
        Err(LexingError::Unclosed(TokenType::Comment, 0))
    );
    assert_eq!(classify(Pass::EqualAssign, b"a =", [2, 3]), Err(LexingError::EOF));
    assert_eq!(classify(Pass::String, b"\"a\"b\"", [0, 5]), Err(LexingError::Unknown));
}

#[test]
fn range_intersects_skip_when_a_byte_is_shared() {
    let skip: SkipRange = vec![[2, 5], [8, 10]];
    assert!(range_intersects_skip([4, 6], &skip));
    assert!(range_intersects_skip([0, 3], &skip));
    assert!(range_intersects_skip([1, 12], &skip));
    assert!(range_intersects_skip([9, 10], &skip));
    assert!(!range_intersects_skip([5, 8], &skip));
    assert!(!range_intersects_skip([0, 2], &skip));
    assert!(!range_intersects_skip([10, 11], &skip));
}

#[test]
fn update_skip_keeps_the_ranges_in_order() {
    let mut skip: SkipRange = vec![[4, 6]];
    let new_tokens = vec![tok(TokenType::Identifier, 8, 9), tok(TokenType::Identifier, 0, 2)];
    assert_eq!(update_skip(&new_tokens, &mut skip), None);
    assert_eq!(skip, vec![[0, 2], [4, 6], [8, 9]]);
}

#[test]
fn update_skip_refuses_tokens_that_share_a_byte() {
    let mut skip: SkipRange = vec![[4, 6]];
    let new_tokens = vec![tok(TokenType::Identifier, 0, 2), tok(TokenType::Identifier, 1, 3)];
    assert_eq!(update_skip(&new_tokens, &mut skip), Some(LexingError::UnevenRanges));
    assert_eq!(skip, vec![[4, 6]]);
    let new_tokens = vec![tok(TokenType::Identifier, 5, 7)];
    assert_eq!(update_skip(&new_tokens, &mut skip), Some(LexingError::UnevenRanges));
    let new_tokens = vec![tok(TokenType::Identifier, 7, 7)];
    assert_eq!(update_skip(&new_tokens, &mut skip), Some(LexingError::UnevenRanges));
    assert_eq!(skip, vec![[4, 6]]);
}

#[test]
fn lex_adds_the_tokens_of_a_pass() {
    let mut tokens = vec![tok(TokenType::Value(Value::String), 0, 3)];
    let mut skip: SkipRange = vec![[0, 3]];
    assert_eq!(lex(b"\"a\" b 1", &mut tokens, &mut skip, Pass::Identifier), None);
    assert_eq!(
        tokens,
        vec![tok(TokenType::Value(Value::String), 0, 3), tok(TokenType::Identifier, 4, 5)]
    );
    assert_eq!(skip, vec![[0, 3], [4, 5]]);
}

#[test]
fn lex_changes_nothing_where_the_pass_fails() {
    let mut tokens: Vec<Token> = Vec::new();
    let mut skip: SkipRange = Vec::new();
    assert_eq!(
        lex(b"'a' \"b", &mut tokens, &mut skip, Pass::Char),
        Some(LexingError::Unclosed(TokenType::Value(Value::String), 4))
    );
    assert_eq!(tokens, Vec::new());
    assert_eq!(skip, Vec::<[usize; 2]>::new());
}

#[test]
fn find_open_quote_passes_over_what_is_claimed() {
    let skip: SkipRange = vec![[0, 3]];
    assert_eq!(find_open_quote(b"\"a\" b", &skip), None);
    assert_eq!(
        find_open_quote(b"\"a\" 'b", &skip),
        Some(LexingError::Unclosed(TokenType::Value(Value::Byte), 4))
    );
}

#[test]
fn sort_tokens_orders_by_the_end() {
    let tokens = vec![
        tok(TokenType::Identifier, 6, 7),
        tok(TokenType::Comment, 0, 3),
        tok(TokenType::Type, 4, 5),
    ];
    assert_eq!(
        sort_tokens(&tokens),
        vec![
            tok(TokenType::Comment, 0, 3),
            tok(TokenType::Type, 4, 5),
            tok(TokenType::Identifier, 6, 7),
        ]
    );
}

#[test]
fn token_has_a_printable_form() {
    assert_eq!(
        tok(TokenType::Keyword(Keyword::Fn), 0, 2).to_string(),
        "Keyword(Fn) : [0, 2]"
    );
}
