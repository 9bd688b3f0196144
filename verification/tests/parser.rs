use pratt_parser::lexer::lexemes::Token;
use pratt_parser::lexer::Lexer;
use pratt_parser::nodes::Node;
use pratt_parser::nodes::NodeType;
use pratt_parser::pratt::get_precedence;
use pratt_parser::pratt::Malformed;
use pratt_parser::pratt::ParseError;
use pratt_parser::pratt::Parser;
use pratt_parser::pratt::Postfix;
use pratt_parser::pratt::LOWEST_RANK;

fn lex(src: &str) -> Vec<Token> {
    let mut lx = Lexer::new();
    lx.lexify(src);
    lx.toks
}

fn parse_text(src: &str) -> Result<Vec<NodeType>, ParseError> {
    let toks = lex(src);
    let mut p = Parser::new(&toks);
    p.parse()
}

fn leaf(text: &str) -> NodeType {
    NodeType::Literal(text.to_string(), vec![])
}

fn unary(op: char, operand: NodeType) -> NodeType {
    NodeType::Operator(op, vec![Node { kind: operand }])
}

fn binary(op: char, left: NodeType, right: NodeType) -> NodeType {
    NodeType::Operator(op, vec![Node { kind: left }, Node { kind: right }])
}

#[test]
fn test_parse() {
    let mut lx = Lexer::new();
    lx.lexify("a = a * (b * (c+d)) - 4;");
    println!("{:?}", lx.toks);
    let mut p = Parser::new(&lx.toks);
    let n = p.parse().unwrap();
    for k in n {
        println!("{}", Node { kind: k }.traverse(0));
        println!("----")
    }
}

#[test]
fn single_string_literal_is_one_leaf() {
    assert_eq!(parse_text("\"hello\""), Ok(vec![leaf("hello")]));
}

#[test]
fn product_binds_tighter_than_sum() {
    assert_eq!(
        parse_text("a+b*c"),
        Ok(vec![binary('+', leaf("a"), binary('*', leaf("b"), leaf("c")))])
    );
}

#[test]
fn equal_ranks_group_to_the_left() {
    assert_eq!(
        parse_text("a-b-c"),
        Ok(vec![binary('-', binary('-', leaf("a"), leaf("b")), leaf("c"))])
    );
}

#[test]
fn bracketed_group_is_one_operand() {
    assert_eq!(
        parse_text("(a+b)*c"),
        Ok(vec![binary('*', binary('+', leaf("a"), leaf("b")), leaf("c"))])
    );
}

#[test]
fn punctuation_separates_roots() {
    assert_eq!(parse_text("a;b"), Ok(vec![leaf("a"), leaf("b")]));
}

#[test]
fn leading_operator_is_a_prefix_operator() {
    assert_eq!(parse_text("*a"), Ok(vec![unary('*', leaf("a"))]));
    assert_eq!(parse_text("*a"), parse_text("*a"));
}

#[test]
fn operator_without_operand_fails() {
    assert_eq!(
        parse_text("*"),
        Err(ParseError::MalformedExpression(Malformed::NoPrefixForm))
    );
    assert_eq!(
        parse_text("a+*"),
        Err(ParseError::MalformedExpression(Malformed::NoPrefixForm))
    );
}

#[test]
fn operand_after_operand_fails() {
    assert_eq!(
        parse_text("a b"),
        Err(ParseError::MalformedExpression(Malformed::UnexpectedToken))
    );
}

fn ident(text: &str) -> Token {
    Token::Identifier(text.to_string(), 1)
}

#[test]
fn ranks_are_the_table_in_tenths() {
    assert_eq!(get_precedence('*'), 40);
    assert_eq!(get_precedence('/'), 40);
    assert_eq!(get_precedence('.'), 30);
    assert_eq!(get_precedence('+'), 20);
    assert_eq!(get_precedence('-'), 20);
    assert_eq!(get_precedence('!'), 10);
    assert_eq!(get_precedence('='), 1);
    for op in ['%', '<', '>', '|', '&', '#', '?', ',', 'a', '('] {
        assert_eq!(get_precedence(op), -5);
    }
    assert_eq!(LOWEST_RANK, 0);
    assert_eq!(get_precedence('=') as f32 / 10.0, 0.1);
    assert_eq!(get_precedence('%') as f32 / 10.0, -0.5);
}

#[test]
fn single_identifier_is_one_leaf() {
    assert_eq!(parse_text("hello"), Ok(vec![leaf("hello")]));
}

#[test]
fn no_tokens_give_no_roots() {
    assert_eq!(parse_text(""), Ok(vec![]));
    assert_eq!(parse_text("  \n "), Ok(vec![]));
}

#[test]
fn whole_expression() {
    let expected = binary(
        '=',
        leaf("a"),
        binary(
            '-',
            binary(
                '*',
                leaf("a"),
                binary('*', leaf("b"), binary('+', leaf("c"), leaf("d"))),
            ),
            leaf("4"),
        ),
    );
    assert_eq!(parse_text("a = a * (b * (c+d)) - 4;"), Ok(vec![expected]));
}

#[test]
fn whole_expression_outline() {
    let roots = parse_text("a = a * (b * (c+d)) - 4;").unwrap();
    assert_eq!(roots.len(), 1);
    let root = Node { kind: roots.into_iter().next().unwrap() };
    assert_eq!(
        root.traverse(0),
        "=\n  a\n  -\n    *\n      a\n      *\n        b\n        +\n          c\n          d\n    4\n"
    );
}

#[test]
fn tighter_rank_on_the_left_closes_first() {
    assert_eq!(
        parse_text("a*b+c"),
        Ok(vec![binary('+', binary('*', leaf("a"), leaf("b")), leaf("c"))])
    );
    assert_eq!(
        parse_text("a/b*c"),
        Ok(vec![binary('*', binary('/', leaf("a"), leaf("b")), leaf("c"))])
    );
}

#[test]
fn member_access_binds_between_product_and_sum() {
    assert_eq!(
        parse_text("a.b+c"),
        Ok(vec![binary('+', binary('.', leaf("a"), leaf("b")), leaf("c"))])
    );
    assert_eq!(
        parse_text("a.b*c"),
        Ok(vec![binary('.', leaf("a"), binary('*', leaf("b"), leaf("c")))])
    );
}

#[test]
fn assignment_binds_loosest() {
    assert_eq!(
        parse_text("a=b+c"),
        Ok(vec![binary('=', leaf("a"), binary('+', leaf("b"), leaf("c")))])
    );
    assert_eq!(
        parse_text("a=b=c"),
        Ok(vec![binary('=', binary('=', leaf("a"), leaf("b")), leaf("c"))])
    );
}

#[test]
fn prefix_operator_takes_what_binds_tighter_than_itself() {
    assert_eq!(parse_text("!a"), Ok(vec![unary('!', leaf("a"))]));
    assert_eq!(
        parse_text("!a+b"),
        Ok(vec![unary('!', binary('+', leaf("a"), leaf("b")))])
    );
    assert_eq!(
        parse_text("-a*b+c"),
        Ok(vec![binary(
            '+',
            unary('-', binary('*', leaf("a"), leaf("b"))),
            leaf("c")
        )])
    );
    assert_eq!(
        parse_text("a+-b"),
        Ok(vec![binary('+', leaf("a"), unary('-', leaf("b")))])
    );
}

#[test]
fn leading_punctuation_is_a_prefix_operator() {
    assert_eq!(parse_text(",a"), Ok(vec![unary(',', leaf("a"))]));
    assert_eq!(
        parse_text(";a=b"),
        Ok(vec![unary(';', binary('=', leaf("a"), leaf("b")))])
    );
}

#[test]
fn unlisted_operator_never_binds() {
    assert_eq!(parse_text("a&b"), Ok(vec![leaf("a"), leaf("b")]));
    assert_eq!(
        parse_text("a+b|c"),
        Ok(vec![binary('+', leaf("a"), leaf("b")), leaf("c")])
    );
    assert_eq!(parse_text("&a"), Ok(vec![unary('&', leaf("a"))]));
}

#[test]
fn string_literals_are_operands() {
    assert_eq!(
        parse_text("\"a b\" + `c`"),
        Ok(vec![binary('+', leaf("a b"), leaf("c"))])
    );
}

#[test]
fn nested_groups() {
    assert_eq!(
        parse_text("((a))"),
        Ok(vec![leaf("a")])
    );
    assert_eq!(
        parse_text("a*(b+(c-d))"),
        Ok(vec![binary(
            '*',
            leaf("a"),
            binary('+', leaf("b"), binary('-', leaf("c"), leaf("d")))
        )])
    );
    assert_eq!(
        parse_text("{a+b}*[c]"),
        Ok(vec![binary('*', binary('+', leaf("a"), leaf("b")), leaf("c"))])
    );
}

#[test]
fn brackets_are_not_matched() {
    assert_eq!(parse_text("(a"), Ok(vec![leaf("a")]));
    assert_eq!(parse_text("(a+b"), Ok(vec![binary('+', leaf("a"), leaf("b"))]));
    assert_eq!(parse_text("(a]"), Ok(vec![leaf("a")]));
    assert_eq!(parse_text(")a("), Ok(vec![leaf("a")]));
    assert_eq!(parse_text("a(b)"), Ok(vec![leaf("a"), leaf("b")]));
    assert_eq!(parse_text("a)b"), Ok(vec![leaf("a"), leaf("b")]));
}

#[test]
fn group_closing_passes_over_any_token() {
    assert_eq!(parse_text("(a;"), Ok(vec![leaf("a")]));
    assert_eq!(
        parse_text("(a;+b"),
        Ok(vec![binary('+', leaf("a"), leaf("b"))])
    );
    assert_eq!(
        parse_text("(a&*b"),
        Ok(vec![binary('*', leaf("a"), leaf("b"))])
    );
    assert_eq!(
        parse_text("(a;b"),
        Err(ParseError::MalformedExpression(Malformed::UnexpectedToken))
    );
}

#[test]
fn several_roots() {
    assert_eq!(
        parse_text("a+b; c*d, e"),
        Ok(vec![
            binary('+', leaf("a"), leaf("b")),
            binary('*', leaf("c"), leaf("d")),
            leaf("e"),
        ])
    );
    assert_eq!(parse_text("a;"), Ok(vec![leaf("a")]));
}

#[test]
fn empty_group_fails() {
    assert_eq!(
        parse_text("()"),
        Err(ParseError::MalformedExpression(Malformed::NoPrefixForm))
    );
    assert_eq!(
        parse_text("(a)b"),
        Err(ParseError::MalformedExpression(Malformed::UnexpectedToken))
    );
    assert_eq!(
        parse_text("("),
        Err(ParseError::MalformedExpression(Malformed::NoPrefixForm))
    );
}

#[test]
fn failure_returns_nothing_of_earlier_roots() {
    assert_eq!(
        parse_text("a; b c"),
        Err(ParseError::MalformedExpression(Malformed::UnexpectedToken))
    );
    assert_eq!(
        parse_text("a; b +"),
        Err(ParseError::MalformedExpression(Malformed::NoPrefixForm))
    );
    assert_eq!(
        parse_text("a \"b\""),
        Err(ParseError::MalformedExpression(Malformed::UnexpectedToken))
    );
}

#[test]
fn sentinel_among_the_tokens_is_malformed() {
    let mut p = Parser::new(&vec![Token::Sentinel]);
    assert_eq!(
        p.parse(),
        Err(ParseError::MalformedExpression(Malformed::NoPrefixForm))
    );
    let mut p = Parser::new(&vec![ident("a"), Token::Sentinel]);
    assert_eq!(
        p.parse(),
        Err(ParseError::MalformedExpression(Malformed::UnexpectedToken))
    );
}

#[test]
fn cursor_stands_on_the_offending_token_after_a_failure() {
    let toks = vec![ident("a"), Token::Operator('+', 1), ident("b"), ident("c")];
    let mut p = Parser::new(&toks);
    assert_eq!(
        p.parse(),
        Err(ParseError::MalformedExpression(Malformed::UnexpectedToken))
    );
    assert_eq!(p.current_token(), &ident("c"));
    let toks = vec![ident("a"), Token::Operator('+', 1)];
    let mut p = Parser::new(&toks);
    assert_eq!(
        p.parse(),
        Err(ParseError::MalformedExpression(Malformed::NoPrefixForm))
    );
    assert!(!p.has_tokens());
    assert_eq!(p.look_ahead_token(-1), &Token::Operator('+', 1));
}

#[test]
fn parser_works_on_a_copy_of_the_tokens() {
    let mut toks = vec![ident("a")];
    let mut p = Parser::new(&toks);
    toks.clear();
    assert_eq!(p.parse(), Ok(vec![leaf("a")]));
}

#[test]
fn cursor_moves_one_token_at_a_time() {
    let toks = vec![ident("a"), Token::Operator('+', 1), ident("b")];
    let mut p = Parser::new(&toks);
    assert!(p.has_tokens());
    assert_eq!(p.current_token(), &ident("a"));
    assert_eq!(p.consume_token(), &ident("a"));
    assert_eq!(p.current_token(), &Token::Operator('+', 1));
    assert_eq!(p.consume_token(), &Token::Operator('+', 1));
    assert_eq!(p.consume_token(), &ident("b"));
    assert!(!p.has_tokens());
    assert_eq!(p.current_token(), &Token::Sentinel);
    assert_eq!(p.consume_token(), &Token::Sentinel);
    assert_eq!(p.consume_token(), &Token::Sentinel);
    assert!(!p.has_tokens());
    assert_eq!(p.look_ahead_token(-2), &Token::Sentinel);
    assert_eq!(p.look_ahead_token(-3), &ident("b"));
    assert_eq!(p.look_ahead_token(-5), &ident("a"));
    assert_eq!(p.look_ahead_token(-6), &Token::Sentinel);
}

#[test]
fn look_ahead_reads_around_the_cursor() {
    let toks = vec![ident("a"), Token::Operator('+', 1), ident("b")];
    let mut p = Parser::new(&toks);
    assert_eq!(p.look_ahead_token(0), &ident("a"));
    assert_eq!(p.look_ahead_token(1), &Token::Operator('+', 1));
    assert_eq!(p.look_ahead_token(2), &ident("b"));
    assert_eq!(p.look_ahead_token(3), &Token::Sentinel);
    assert_eq!(p.look_ahead_token(i32::MAX), &Token::Sentinel);
    assert_eq!(p.look_ahead_token(-1), &Token::Sentinel);
    assert_eq!(p.look_ahead_token(i32::MIN), &Token::Sentinel);
    p.consume_token();
    assert_eq!(p.look_ahead_token(-1), &ident("a"));
    assert_eq!(p.look_ahead_token(0), &Token::Operator('+', 1));
    assert_eq!(p.look_ahead_token(1), &ident("b"));
    assert_eq!(p.look_ahead_token(2), &Token::Sentinel);
    assert!(p.has_tokens());
}

#[test]
fn parse_starts_at_the_cursor() {
    let toks = vec![ident("a"), Token::Operator('+', 1), ident("b")];
    let mut p = Parser::new(&toks);
    p.consume_token();
    assert_eq!(p.parse(), Ok(vec![unary('+', leaf("b"))]));
    assert!(!p.has_tokens());
    assert_eq!(p.parse(), Ok(vec![]));
}

#[test]
fn group_closing_moves_the_cursor_behind_the_end() {
    let mut p = Parser::new(&lex("((a"));
    assert_eq!(p.parse(), Ok(vec![leaf("a")]));
    assert!(!p.has_tokens());
    assert_eq!(p.look_ahead_token(-1), &Token::Sentinel);
    assert_eq!(p.look_ahead_token(-3), &Token::Sentinel);
    assert_eq!(p.look_ahead_token(-4), &Token::Identifier("a".to_string(), 1));
    assert_eq!(p.look_ahead_token(-6), &Token::Bracket('(', 1));
    assert_eq!(p.look_ahead_token(-7), &Token::Sentinel);
}

#[test]
fn prefix_parse_takes_one_operand() {
    let mut p = Parser::new(&lex("a+b"));
    assert_eq!(p.prefix_parse_current_token(), Ok(leaf("a")));
    assert_eq!(p.current_token(), &Token::Operator('+', 1));
    assert_eq!(p.prefix_parse_current_token(), Ok(unary('+', leaf("b"))));
    assert!(!p.has_tokens());
    assert_eq!(
        p.prefix_parse_current_token(),
        Err(ParseError::MalformedExpression(Malformed::NoPrefixForm))
    );
    let mut p = Parser::new(&lex("(a+b)*c"));
    assert_eq!(
        p.prefix_parse_current_token(),
        Ok(binary('+', leaf("a"), leaf("b")))
    );
    assert_eq!(p.current_token(), &Token::Operator('*', 1));
    let mut p = Parser::new(&lex("\"s\" t"));
    assert_eq!(p.prefix_parse_current_token(), Ok(leaf("s")));
    assert_eq!(p.current_token(), &Token::Identifier("t".to_string(), 1));
}

#[test]
fn no_operator_is_a_postfix_operator() {
    for src in ["+", "!", "*", "?", "a", ";", "(", ""] {
        let p = Parser::new(&lex(src));
        assert_eq!(
            p.try_postfix_parse_current_token(leaf("x")),
            Postfix::NotPostfix(leaf("x"))
        );
        assert_eq!(p.look_ahead_token(0), Parser::new(&lex(src)).current_token());
    }
}

#[test]
fn parsing_is_a_function_of_the_tokens() {
    for src in ["a+b*c", "*a", "a b", "(a", "a;b", "+"] {
        assert_eq!(parse_text(src), parse_text(src));
    }
}
