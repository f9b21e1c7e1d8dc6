use lp_frontend::lexer::token::{Braket, Keyword, Symbol, Token, TokenType, Value};
use lp_frontend::lexer::tokenize;
use lp_frontend::parser::ast::{
    clone_tree, IdentEntry, IdentMap, Literal, Node, RealValue, Scope, Tree, Type,
};
use lp_frontend::parser::raw_parser::{parse_construction_lists, parse_raw, parse_type};
use lp_frontend::parser::render::tree_lines;
use lp_frontend::parser::{
    find_matching, generate_braket_heirarchy, generate_scopes, literal, parse, parse_literals,
    ParsingError, MAX_DEPTH,
};

fn tok(token: TokenType, start: usize, end: usize) -> Token {
    Token { token, range: [start, end] }
}

fn leaf(token: TokenType, start: usize, end: usize) -> Node {
    Node::Token(tok(token, start, end))
}

fn number(n: u64) -> Node {
    Node::Value(Literal { ttype: Type::U64, value: RealValue::U64(n) })
}

fn entry(name: &str, index: usize) -> IdentEntry {
    IdentEntry { name: name.as_bytes().to_vec(), index }
}

fn tokens_of(source: &str) -> Vec<Token> {
    tokenize(source.as_bytes()).unwrap()
}

fn decoded(kind: Value, text: &str) -> Result<Literal, ParsingError> {
    literal(kind, text.as_bytes())
}

#[test]
fn find_matching_counts_brackets_of_the_same_kind() {
    let tokens = tokens_of("( ( ) [ ) ] )");
    assert_eq!(find_matching(&tokens, 0), Ok(4));
    assert_eq!(find_matching(&tokens, 1), Ok(2));
    assert_eq!(find_matching(&tokens, 3), Ok(5));
}

#[test]
fn find_matching_reports_a_bracket_that_is_never_closed() {
    let tokens = tokens_of("{ ( { }");
    assert_eq!(
        find_matching(&tokens, 0),
        Err(ParsingError::MatchNotFound((0, Braket::OpenBrace)))
    );
    assert_eq!(
        find_matching(&tokens, 1),
        Err(ParsingError::MatchNotFound((1, Braket::OpenParen)))
    );
    assert_eq!(find_matching(&tokens, 2), Ok(3));
}

#[test]
fn find_matching_refuses_what_opens_nothing() {
    let tokens = tokens_of("a )");
    assert_eq!(
        find_matching(&tokens, 0),
        Err(ParsingError::NonMatchable(TokenType::Identifier))
    );
    assert_eq!(
        find_matching(&tokens, 1),
        Err(ParsingError::NonMatchable(TokenType::Braket(Braket::CloseParen)))
    );
}

#[test]
fn groups_nest() {
    let tokens = tokens_of("a ( b [ ] ) { c }");
    let tree = generate_braket_heirarchy(&tokens).unwrap();
    assert_eq!(
        tree,
        vec![
            leaf(TokenType::Identifier, 0, 1),
            Node::Paren(vec![leaf(TokenType::Identifier, 4, 5), Node::SquareBraket(Vec::new())]),
            Node::Brace(vec![leaf(TokenType::Identifier, 14, 15)]),
        ]
    );
}

#[test]
fn no_tokens_give_an_empty_tree() {
    assert_eq!(generate_braket_heirarchy(&Vec::new()), Ok(Vec::new()));
}

#[test]
fn kinds_of_brackets_do_not_match_across() {
    let tokens = tokens_of("( ]");
    assert_eq!(
        generate_braket_heirarchy(&tokens),
        Err(ParsingError::MatchNotFound((0, Braket::OpenParen)))
    );
    let tokens = tokens_of("( [ ) ]");
    assert_eq!(
        generate_braket_heirarchy(&tokens),
        Err(ParsingError::MatchNotFound((1, Braket::OpenSquareBraket)))
    );
}

#[test]
fn unmatched_open_bracket_is_reported_with_its_place() {
    let tokens = tokens_of("a { b ( c )");
    assert_eq!(
        generate_braket_heirarchy(&tokens),
        Err(ParsingError::MatchNotFound((1, Braket::OpenBrace)))
    );
}

#[test]
fn stray_closing_bracket_is_refused() {
    let tokens = tokens_of("a ) b");
    assert_eq!(
        generate_braket_heirarchy(&tokens),
        Err(ParsingError::NonMatchable(TokenType::Braket(Braket::CloseParen)))
    );
    let tokens = tokens_of("( a } )");
    assert_eq!(
        generate_braket_heirarchy(&tokens),
        Err(ParsingError::NonMatchable(TokenType::Braket(Braket::CloseBrace)))
    );
}

#[test]
fn groups_may_lie_as_deep_as_the_bound() {
    let mut source = String::new();
    for _ in 0..MAX_DEPTH {
        source.push('(');
    }
    for _ in 0..MAX_DEPTH {
        source.push(')');
    }
    let tokens = tokens_of(&source);
    let tree = generate_braket_heirarchy(&tokens).unwrap();
    let mut depth = 0;
    let mut level = &tree;
    while let Some(Node::Paren(inner)) = level.first() {
        depth += 1;
        level = inner;
    }
    assert_eq!(depth, MAX_DEPTH);
    assert!(parse_raw(&tokens, source.as_bytes()).is_ok());
}

#[test]
fn groups_deeper_than_the_bound_are_refused() {
    let mut source = String::new();
    for _ in 0..MAX_DEPTH + 1 {
        source.push('[');
    }
    for _ in 0..MAX_DEPTH + 1 {
        source.push(']');
    }
    let tokens = tokens_of(&source);
    assert_eq!(generate_braket_heirarchy(&tokens), Err(ParsingError::TooDeep(MAX_DEPTH)));
    assert_eq!(
        parse(&tokens, source.as_bytes()),
        Err(ParsingError::TooDeep(MAX_DEPTH))
    );
}

#[test]
fn decodes_hexadecimal() {
    assert_eq!(
        decoded(Value::Hex, "0x1A"),
        Ok(Literal { ttype: Type::U64, value: RealValue::U64(26) })
    );
    assert_eq!(
        decoded(Value::Hex, "0xffffffffffffffff"),
        Ok(Literal { ttype: Type::U64, value: RealValue::U64(u64::MAX) })
    );
}

#[test]
fn decodes_octal() {
    assert_eq!(
        decoded(Value::Oct, "0o17"),
        Ok(Literal { ttype: Type::U64, value: RealValue::U64(15) })
    );
}

#[test]
fn decodes_binary() {
    assert_eq!(
        decoded(Value::Bin, "0b101"),
        Ok(Literal { ttype: Type::U64, value: RealValue::U64(5) })
    );
}

#[test]
fn decodes_decimal() {
    assert_eq!(
        decoded(Value::Int, "0"),
        Ok(Literal { ttype: Type::U64, value: RealValue::U64(0) })
    );
    assert_eq!(
        decoded(Value::Int, "007"),
        Ok(Literal { ttype: Type::U64, value: RealValue::U64(7) })
    );
    assert_eq!(
        decoded(Value::Int, "18446744073709551615"),
        Ok(Literal { ttype: Type::U64, value: RealValue::U64(18446744073709551615) })
    );
}

#[test]
fn number_that_does_not_fit_is_unparsable() {
    assert_eq!(
        decoded(Value::Int, "18446744073709551616"),
        Err(ParsingError::Unparsable(b"18446744073709551616".to_vec()))
    );
    assert_eq!(
        decoded(Value::Hex, "0x10000000000000000"),
        Err(ParsingError::Unparsable(b"0x10000000000000000".to_vec()))
    );
}

#[test]
fn text_that_is_no_number_is_unparsable() {
    assert_eq!(decoded(Value::Int, "12a"), Err(ParsingError::Unparsable(b"12a".to_vec())));
    assert_eq!(decoded(Value::Int, ""), Err(ParsingError::Unparsable(Vec::new())));
    assert_eq!(decoded(Value::Oct, "0o8"), Err(ParsingError::Unparsable(b"0o8".to_vec())));
    assert_eq!(decoded(Value::Bin, "0b"), Err(ParsingError::Unparsable(b"0b".to_vec())));
    assert_eq!(decoded(Value::Float, "1."), Err(ParsingError::Unparsable(b"1.".to_vec())));
    assert_eq!(decoded(Value::String, "\""), Err(ParsingError::Unparsable(b"\"".to_vec())));
}

#[test]
fn floating_point_literal_keeps_its_text() {
    let lit = decoded(Value::Float, "3.14").unwrap();
    assert_eq!(lit.ttype, Type::F64);
    match lit.value {
        RealValue::F64(text) => {
            let parsed: f64 = String::from_utf8(text).unwrap().parse().unwrap();
            assert_eq!(parsed, 3.14);
        },
        other => panic!("not a floating-point payload: {:?}", other),
    }
    assert_eq!(
        decoded(Value::Float, "1.5e+10"),
        Ok(Literal { ttype: Type::F64, value: RealValue::F64(b"1.5e+10".to_vec()) })
    );
}

#[test]
fn string_loses_its_quotes_and_keeps_its_escapes() {
    assert_eq!(
        decoded(Value::String, "\"ab\\\"c\""),
        Ok(Literal { ttype: Type::String, value: RealValue::String(b"ab\\\"c".to_vec()) })
    );
    assert_eq!(
        decoded(Value::String, "\"\""),
        Ok(Literal { ttype: Type::String, value: RealValue::String(Vec::new()) })
    );
}

#[test]
fn byte_literal_loses_its_quotes() {
    assert_eq!(
        decoded(Value::Byte, "'a'"),
        Ok(Literal { ttype: Type::Byte, value: RealValue::Byte(b"a".to_vec()) })
    );
}

#[test]
fn words_decode_to_their_values() {
    assert_eq!(
        decoded(Value::True, "true"),
        Ok(Literal { ttype: Type::Bool, value: RealValue::Bool(true) })
    );
    assert_eq!(
        decoded(Value::False, "false"),
        Ok(Literal { ttype: Type::Bool, value: RealValue::Bool(false) })
    );
    assert_eq!(
        decoded(Value::Null, "none"),
        Ok(Literal { ttype: Type::Null, value: RealValue::Null })
    );
    assert_eq!(
        decoded(Value::Error, "error"),
        Ok(Literal { ttype: Type::Error, value: RealValue::Error })
    );
}

#[test]
fn literals_are_decoded_at_any_depth() {
    let source = "a ( 0x1A [ 0o17 ] ) { true }";
    let tokens = tokens_of(source);
    let groups = generate_braket_heirarchy(&tokens).unwrap();
    let tree = parse_literals(&groups, source.as_bytes()).unwrap();
    assert_eq!(
        tree,
        vec![
            leaf(TokenType::Identifier, 0, 1),
            Node::Paren(vec![number(26), Node::SquareBraket(vec![number(15)])]),
            Node::Brace(vec![Node::Value(Literal {
                ttype: Type::Bool,
                value: RealValue::Bool(true),
            })]),
        ]
    );
}

#[test]
fn first_literal_that_fails_ends_the_work() {
    let source = "1 ( 99999999999999999999 ) 88888888888888888888";
    let tokens = tokens_of(source);
    let groups = generate_braket_heirarchy(&tokens).unwrap();
    assert_eq!(
        parse_literals(&groups, source.as_bytes()),
        Err(ParsingError::Unparsable(b"99999999999999999999".to_vec()))
    );
}

#[test]
fn decoding_twice_changes_nothing() {
    let source = "x := 0b101 { \"s\" 2.5 }";
    let tokens = tokens_of(source);
    let groups = generate_braket_heirarchy(&tokens).unwrap();
    let once = parse_literals(&groups, source.as_bytes()).unwrap();
    let twice = parse_literals(&once, source.as_bytes()).unwrap();
    assert_eq!(once, twice);
}

#[test]
fn token_outside_the_text_has_no_text() {
    let tree: Tree = vec![leaf(TokenType::Value(Value::Int), 2, 9)];
    assert_eq!(parse_literals(&tree, b"123"), Err(ParsingError::Unparsable(Vec::new())));
}

#[test]
fn scope_holds_the_names_of_its_own_level_only() {
    let source = "{ a := 1 b := { c := 2 } }";
    let tree = parse(&tokens_of(source), source.as_bytes()).unwrap();
    assert_eq!(tree.len(), 1);
    let root = match &tree[0] {
        Node::Scope(s) => s,
        other => panic!("the root is no scope: {:?}", other),
    };
    assert_eq!(root.identifiers.entries, Vec::new());
    assert_eq!(root.content.len(), 1);
    let outer = match &root.content[0] {
        Node::Scope(s) => s,
        other => panic!("the block is no scope: {:?}", other),
    };
    assert_eq!(outer.identifiers.entries, vec![entry("a", 0), entry("b", 4)]);
    assert_eq!(outer.identifiers.get(b"a"), Some(0));
    assert_eq!(outer.identifiers.get(b"b"), Some(4));
    assert_eq!(outer.identifiers.get(b"c"), None);
    let inner = match &outer.content[7] {
        Node::Scope(s) => s,
        other => panic!("the nested block is no scope: {:?}", other),
    };
    assert_eq!(inner.identifiers.entries, vec![entry("c", 0)]);
    assert_eq!(inner.identifiers.get(b"c"), Some(0));
    assert_eq!(inner.identifiers.get(b"a"), None);
}

#[test]
fn last_occurrence_of_a_name_counts() {
    let source = "a b a";
    let tree = generate_braket_heirarchy(&tokens_of(source)).unwrap();
    let (indexed, names) = generate_scopes(&tree, source.as_bytes()).unwrap();
    assert_eq!(indexed, tree);
    assert_eq!(names.get(b"a"), Some(2));
    assert_eq!(names.get(b"b"), Some(1));
    assert_eq!(names.get(b""), None);
}

#[test]
fn braces_inside_other_groups_become_scopes_too() {
    let source = "( { a } x )";
    let tree = generate_braket_heirarchy(&tokens_of(source)).unwrap();
    let (indexed, names) = generate_scopes(&tree, source.as_bytes()).unwrap();
    assert_eq!(names.entries, Vec::new());
    assert_eq!(
        indexed,
        vec![Node::Paren(vec![
            Node::Scope(Scope {
                identifiers: IdentMap { entries: vec![entry("a", 0)] },
                content: vec![leaf(TokenType::Identifier, 4, 5)],
            }),
            leaf(TokenType::Identifier, 8, 9),
        ])]
    );
}

#[test]
fn indexing_twice_changes_nothing() {
    let source = "a { b { c } [ { d } ] }";
    let tree = generate_braket_heirarchy(&tokens_of(source)).unwrap();
    let (once, names_once) = generate_scopes(&tree, source.as_bytes()).unwrap();
    let (twice, names_twice) = generate_scopes(&once, source.as_bytes()).unwrap();
    assert_eq!(once, twice);
    assert_eq!(names_once, names_twice);
}

#[test]
fn empty_ident_map_holds_no_name() {
    assert_eq!(IdentMap::new().get(b"a"), None);
}

#[test]
fn parse_wraps_the_program_in_one_scope() {
    let source = "x := 42";
    let tree = parse(&tokens_of(source), source.as_bytes()).unwrap();
    assert_eq!(
        tree,
        vec![Node::Scope(Scope {
            identifiers: IdentMap { entries: vec![entry("x", 0)] },
            content: vec![
                leaf(TokenType::Identifier, 0, 1),
                leaf(TokenType::Symbol(Symbol::Colon), 2, 3),
                leaf(TokenType::Symbol(Symbol::Assign), 3, 4),
                number(42),
            ],
        })]
    );
}

#[test]
fn parse_of_nothing_is_an_empty_scope() {
    let tree = parse(&Vec::new(), b"").unwrap();
    assert_eq!(
        tree,
        vec![Node::Scope(Scope { identifiers: IdentMap { entries: Vec::new() }, content: Vec::new() })]
    );
}

#[test]
fn parse_stops_at_the_first_phase_that_fails() {
    let source = "( 99999999999999999999";
    assert_eq!(
        parse(&tokens_of(source), source.as_bytes()),
        Err(ParsingError::MatchNotFound((0, Braket::OpenParen)))
    );
    let source = "( 99999999999999999999 , )";
    assert_eq!(
        parse_raw(&tokens_of(source), source.as_bytes()),
        Err(ParsingError::Unparsable(b"99999999999999999999".to_vec()))
    );
}

#[test]
fn trailing_comma_is_too_many_commas() {
    let source = "(a, b,)";
    assert_eq!(
        parse_raw(&tokens_of(source), source.as_bytes()),
        Err(ParsingError::TooManyCommas)
    );
}

#[test]
fn trailing_comma_is_found_at_any_depth() {
    for source in ["f { x [ 1, 2, ] }", "{ a, }", "a, b,", "[ ( 1, ) 2 ]"] {
        assert_eq!(
            parse_raw(&tokens_of(source), source.as_bytes()),
            Err(ParsingError::TooManyCommas)
        );
    }
}

#[test]
fn comma_at_the_end_of_the_nodes_handed_in_is_no_error() {
    let comma = leaf(TokenType::Symbol(Symbol::Comma), 0, 1);
    let tree: Tree = vec![comma.clone()];
    assert_eq!(parse_construction_lists(&tree), Ok(vec![comma.clone()]));
    let tree: Tree = vec![leaf(TokenType::Identifier, 0, 1), leaf(TokenType::Symbol(Symbol::Comma), 1, 2)];
    assert_eq!(parse_construction_lists(&tree), Ok(clone_tree(&tree)));
    assert_eq!(parse_construction_lists(&Vec::new()), Ok(Vec::new()));
}

#[test]
fn comma_at_the_end_of_a_group_is_an_error() {
    let a = leaf(TokenType::Identifier, 1, 2);
    let comma = leaf(TokenType::Symbol(Symbol::Comma), 2, 3);
    let b = leaf(TokenType::Identifier, 4, 5);
    for group in [
        Node::Paren(vec![a.clone(), comma.clone()]),
        Node::Brace(vec![a.clone(), comma.clone()]),
        Node::SquareBraket(vec![a.clone(), comma.clone()]),
        Node::Scope(Scope { identifiers: IdentMap::new(), content: vec![comma.clone()] }),
        Node::Paren(vec![b.clone(), Node::SquareBraket(vec![comma.clone()]), a.clone()]),
    ] {
        let tree: Tree = vec![b.clone(), group, b.clone()];
        assert_eq!(parse_construction_lists(&tree), Err(ParsingError::TooManyCommas));
    }
    let tree: Tree = vec![Node::Paren(vec![a.clone(), comma.clone(), b.clone()]), comma.clone()];
    assert_eq!(parse_construction_lists(&tree), Ok(clone_tree(&tree)));
}

#[test]
fn commas_between_items_are_in_order() {
    let source = "f(a, b) [1, 2] { x, y }";
    let tokens = tokens_of(source);
    assert_eq!(
        parse_raw(&tokens, source.as_bytes()),
        parse(&tokens, source.as_bytes())
    );
    let tree = parse(&tokens, source.as_bytes()).unwrap();
    assert_eq!(parse_construction_lists(&tree), Ok(clone_tree(&tree)));
}

#[test]
fn whole_pipeline_on_a_small_program() {
    let source = "fn area(w: u64) -> u64 {\n  -- twice\n  r := w * 0x10\n  return [r, \"a\"]\n}";
    let tokens = tokenize(source.as_bytes()).unwrap();
    let tree = parse_raw(&tokens, source.as_bytes()).unwrap();
    assert_eq!(tree.len(), 1);
    let root = match &tree[0] {
        Node::Scope(s) => s,
        other => panic!("the root is no scope: {:?}", other),
    };
    assert_eq!(root.identifiers.entries, vec![entry("area", 1)]);
    assert_eq!(root.content.len(), 6);
    assert_eq!(root.content[0], leaf(TokenType::Keyword(Keyword::Fn), 0, 2));
    assert_eq!(
        root.content[2],
        Node::Paren(vec![
            leaf(TokenType::Identifier, 8, 9),
            leaf(TokenType::Symbol(Symbol::Colon), 9, 10),
            leaf(TokenType::Type, 11, 14),
        ])
    );
    let body = match &root.content[5] {
        Node::Scope(s) => s,
        other => panic!("the body is no scope: {:?}", other),
    };
    assert_eq!(body.identifiers.get(b"r"), Some(1));
    assert_eq!(body.identifiers.get(b"w"), Some(4));
    assert_eq!(body.identifiers.get(b"area"), None);
    assert_eq!(body.content[6], number(16));
    assert_eq!(
        body.content[8],
        Node::SquareBraket(vec![
            leaf(TokenType::Identifier, 62, 63),
            leaf(TokenType::Symbol(Symbol::Comma), 63, 64),
            Node::Value(Literal { ttype: Type::String, value: RealValue::String(b"a".to_vec()) }),
        ])
    );
}

#[test]
fn keywords_stay_leaves() {
    let source = "if x { return }";
    let tree = generate_braket_heirarchy(&tokens_of(source)).unwrap();
    assert_eq!(
        tree,
        vec![
            leaf(TokenType::Keyword(Keyword::If), 0, 2),
            leaf(TokenType::Identifier, 3, 4),
            Node::Brace(vec![leaf(TokenType::Keyword(Keyword::Return), 7, 13)]),
        ]
    );
}

#[test]
fn parse_type_knows_the_built_in_types() {
    let source = b"u8 u16 u32 u64 i32 i64 f32 f64 str Foo";
    assert_eq!(parse_type([0, 2], source), Type::U8);
    assert_eq!(parse_type([3, 6], source), Type::U16);
    assert_eq!(parse_type([7, 10], source), Type::U32);
    assert_eq!(parse_type([11, 14], source), Type::U64);
    assert_eq!(parse_type([15, 18], source), Type::I32);
    assert_eq!(parse_type([19, 22], source), Type::I64);
    assert_eq!(parse_type([23, 26], source), Type::F32);
    assert_eq!(parse_type([27, 30], source), Type::F64);
    assert_eq!(parse_type([31, 34], source), Type::String);
    assert_eq!(parse_type([35, 38], source), Type::UserType(b"Foo".to_vec()));
}

#[test]
fn display_indents_by_the_depth() {
    let node = leaf(TokenType::Identifier, 0, 1);
    assert_eq!(node.offset(0), "");
    assert_eq!(node.offset(2), "        ");
    assert_eq!(node.display(0), " Token(Token { token: Identifier, range: [0, 1] }):");
    assert_eq!(
        node.display(1),
        "     Token(Token { token: Identifier, range: [0, 1] }):"
    );
}

#[test]
fn tree_lines_indent_by_the_depth() {
    let source = "a ( 1 )";
    let tokens = tokens_of(source);
    let groups = generate_braket_heirarchy(&tokens).unwrap();
    let tree = parse_literals(&groups, source.as_bytes()).unwrap();
    let lines = tree_lines(&tree, 1);
    assert_eq!(
        lines,
        vec![
            "     Token(Token { token: Identifier, range: [0, 1] }):".to_string(),
            "        Identifier : [0, 1]".to_string(),
            "     Paren([Value(Literal { ttype: U64, value: U64(1) })]):".to_string(),
            "         Value(Literal { ttype: U64, value: U64(1) }):".to_string(),
        ]
    );
    assert_eq!(tree_lines(&Vec::new(), 0), Vec::<String>::new());
}

#[test]
fn clone_of_a_node_is_equal_to_it() {
    let source = "a { 1 \"s\" ( b ) }";
    let tree = parse(&tokens_of(source), source.as_bytes()).unwrap();
    assert_eq!(clone_tree(&tree), tree);
    assert_eq!(tree[0].clone(), tree[0]);
}
