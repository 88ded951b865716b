use aee::{parse_expression, Found, Node, NumLit, ParseError, Parser, Token};

fn num(text: &str) -> Node {
    Node::Number(NumLit::new(text).unwrap())
}

fn add(l: Node, r: Node) -> Node {
    Node::Add(Box::new(l), Box::new(r))
}

fn sub(l: Node, r: Node) -> Node {
    Node::Subtract(Box::new(l), Box::new(r))
}

fn mul(l: Node, r: Node) -> Node {
    Node::Multiply(Box::new(l), Box::new(r))
}

fn div(l: Node, r: Node) -> Node {
    Node::Divide(Box::new(l), Box::new(r))
}

fn pow(l: Node, r: Node) -> Node {
    Node::Caret(Box::new(l), Box::new(r))
}

fn neg(e: Node) -> Node {
    Node::Negative(Box::new(e))
}

fn parse(text: &str) -> Node {
    Parser::new(text).unwrap().parse().unwrap()
}

fn unexpected(expected: Option<Token>, found: Token) -> ParseError {
    ParseError::UnexpectedToken { expected, found: Found::Token(found) }
}

/// The value of a tree in double precision, as a reader of the tree computes
/// it.
fn value(node: &Node) -> f64 {
    match node {
        Node::Number(lit) => lit.chars().iter().collect::<String>().parse().unwrap(),
        Node::Add(l, r) => value(l) + value(r),
        Node::Subtract(l, r) => value(l) - value(r),
        Node::Multiply(l, r) => value(l) * value(r),
        Node::Divide(l, r) => value(l) / value(r),
        Node::Caret(l, r) => value(l).powf(value(r)),
        Node::Negative(e) => -value(e),
    }
}

#[test]
fn single_number() {
    assert_eq!(parse("42"), num("42"));
    assert_eq!(parse("4.25"), num("4.25"));
    assert_eq!(value(&parse("4.25")), 4.25);
}

#[test]
fn multiplication_binds_tighter_than_addition() {
    assert_eq!(parse("2+3*4"), add(num("2"), mul(num("3"), num("4"))));
    assert_eq!(value(&parse("2+3*4")), 14.0);
    assert_eq!(parse("2*3+4"), add(mul(num("2"), num("3")), num("4")));
    assert_eq!(value(&parse("2*3+4")), 10.0);
}

#[test]
fn parentheses_override_precedence() {
    assert_eq!(parse("(2+3)*4"), mul(add(num("2"), num("3")), num("4")));
    assert_eq!(value(&parse("(2+3)*4")), 20.0);
    assert_eq!(parse("2*(3+4)"), mul(num("2"), add(num("3"), num("4"))));
    assert_eq!(value(&parse("2*(3+4)")), 14.0);
}

#[test]
fn exponentiation_binds_tighter_than_multiplication() {
    assert_eq!(parse("2*3^2"), mul(num("2"), pow(num("3"), num("2"))));
    assert_eq!(value(&parse("2*3^2")), 18.0);
    assert_eq!(parse("2^3*4"), mul(pow(num("2"), num("3")), num("4")));
    assert_eq!(value(&parse("2^3*4")), 32.0);
}

#[test]
fn exponentiation_groups_to_the_right() {
    assert_eq!(parse("2^3^2"), pow(num("2"), pow(num("3"), num("2"))));
    assert_eq!(value(&parse("2^3^2")), 512.0);
    assert_ne!(value(&parse("2^3^2")), 64.0);
    assert_eq!(
        parse("2^2^2^2"),
        pow(num("2"), pow(num("2"), pow(num("2"), num("2"))))
    );
    assert_eq!(value(&parse("2^2^2^2")), 65536.0);
}

#[test]
fn other_operators_group_to_the_left() {
    assert_eq!(parse("8-3-2"), sub(sub(num("8"), num("3")), num("2")));
    assert_eq!(value(&parse("8-3-2")), 3.0);
    assert_eq!(parse("8/4/2"), div(div(num("8"), num("4")), num("2")));
    assert_eq!(value(&parse("8/4/2")), 1.0);
    assert_eq!(parse("8-3+2"), add(sub(num("8"), num("3")), num("2")));
    assert_eq!(value(&parse("8-3+2")), 7.0);
    assert_eq!(parse("8/4*2"), mul(div(num("8"), num("4")), num("2")));
    assert_eq!(value(&parse("8/4*2")), 4.0);
}

#[test]
fn negation_binds_tighter_than_exponentiation() {
    assert_eq!(parse("-2^2"), pow(neg(num("2")), num("2")));
    assert_eq!(value(&parse("-2^2")), 4.0);
}

#[test]
fn negation_binds_tighter_than_the_other_operators() {
    assert_eq!(parse("-2+3"), add(neg(num("2")), num("3")));
    assert_eq!(value(&parse("-2+3")), 1.0);
    assert_eq!(parse("-2*3"), mul(neg(num("2")), num("3")));
    assert_eq!(parse("2--3"), sub(num("2"), neg(num("3"))));
    assert_eq!(value(&parse("2--3")), 5.0);
    assert_eq!(parse("2*-3+4"), add(mul(num("2"), neg(num("3"))), num("4")));
    assert_eq!(value(&parse("2*-3+4")), -2.0);
}

#[test]
fn negation_takes_a_parenthesized_operand() {
    assert_eq!(parse("-(2^2)"), neg(pow(num("2"), num("2"))));
    assert_eq!(value(&parse("-(2^2)")), -4.0);
    assert_eq!(parse("-(2+3)"), neg(add(num("2"), num("3"))));
    assert_eq!(value(&parse("-(2+3)")), -5.0);
}

#[test]
fn negation_may_be_repeated() {
    assert_eq!(parse("--2"), neg(neg(num("2"))));
    assert_eq!(value(&parse("--2")), 2.0);
    assert_eq!(parse("2^-3^2"), pow(num("2"), pow(neg(num("3")), num("2"))));
    assert_eq!(value(&parse("2^-3^2")), 512.0);
}

#[test]
fn adjacent_parentheses_multiply() {
    assert_eq!(parse("(2)(3)"), mul(num("2"), num("3")));
    assert_eq!(value(&parse("(2)(3)")), 6.0);
    assert_eq!(
        parse("(1+2)(3+4)"),
        mul(add(num("1"), num("2")), add(num("3"), num("4")))
    );
    assert_eq!(value(&parse("(1+2)(3+4)")), 21.0);
}

#[test]
fn adjacent_parentheses_chain_to_the_right() {
    assert_eq!(parse("(2)(3)(4)"), mul(num("2"), mul(num("3"), num("4"))));
    assert_eq!(value(&parse("(2)(3)(4)")), 24.0);
    assert_eq!(parse("(2)(3)^2"), mul(num("2"), pow(num("3"), num("2"))));
    assert_eq!(value(&parse("(2)(3)^2")), 18.0);
    assert_eq!(parse("(2)(3)*4"), mul(mul(num("2"), num("3")), num("4")));
    assert_eq!(parse("(2)(3)+4"), add(mul(num("2"), num("3")), num("4")));
    assert_eq!(parse("-(2)(3)"), neg(mul(num("2"), num("3"))));
}

#[test]
fn adjacency_is_for_parentheses_only() {
    assert_eq!(
        parse_expression("2(3)"),
        Err(unexpected(Some(Token::EOF), Token::LeftParen))
    );
    assert_eq!(
        parse_expression("(2)3"),
        Err(unexpected(Some(Token::EOF), Token::Num(NumLit::new("3").unwrap())))
    );
}

#[test]
fn nested_parentheses() {
    assert_eq!(parse("((2))"), num("2"));
    assert_eq!(parse("((2+3))*(4)"), mul(add(num("2"), num("3")), num("4")));
    assert_eq!(parse("(((1)+(2)))"), add(num("1"), num("2")));
}

#[test]
fn longer_expression() {
    let tree = parse("2*3+(4-5)+2^3/4");
    let expected = add(
        add(mul(num("2"), num("3")), sub(num("4"), num("5"))),
        div(pow(num("2"), num("3")), num("4")),
    );
    assert_eq!(tree, expected);
    assert_eq!(value(&tree), 7.0);
}

#[test]
fn literals_keep_their_text() {
    assert_eq!(parse("1.50+.5"), add(num("1.50"), num(".5")));
    assert_eq!(value(&parse("1.50+.5")), 2.0);
    assert_eq!(parse("5.*2"), mul(num("5."), num("2")));
    assert_eq!(value(&parse("5.*2")), 10.0);
}

#[test]
fn missing_operand_is_rejected() {
    assert_eq!(parse_expression("2+"), Err(unexpected(None, Token::EOF)));
    assert_eq!(parse_expression("2*"), Err(unexpected(None, Token::EOF)));
    assert_eq!(parse_expression("-"), Err(unexpected(None, Token::EOF)));
    assert_eq!(parse_expression("2+*3"), Err(unexpected(None, Token::Multiply)));
    assert_eq!(parse_expression("*3"), Err(unexpected(None, Token::Multiply)));
    assert_eq!(parse_expression("()"), Err(unexpected(None, Token::RightParen)));
    assert_eq!(parse_expression(")"), Err(unexpected(None, Token::RightParen)));
    assert_eq!(parse_expression("+2"), Err(unexpected(None, Token::Add)));
}

#[test]
fn unmatched_parenthesis_is_rejected() {
    assert_eq!(
        parse_expression("(2+3"),
        Err(unexpected(Some(Token::RightParen), Token::EOF))
    );
    assert_eq!(
        parse_expression("((2+3)"),
        Err(unexpected(Some(Token::RightParen), Token::EOF))
    );
    assert_eq!(
        parse_expression("(2+3(4)"),
        Err(unexpected(Some(Token::RightParen), Token::LeftParen))
    );
    assert_eq!(
        parse_expression("2+3)"),
        Err(unexpected(Some(Token::EOF), Token::RightParen))
    );
}

#[test]
fn doubled_point_is_rejected() {
    assert_eq!(
        parse_expression("2..3"),
        Err(unexpected(Some(Token::EOF), Token::Num(NumLit::new(".3").unwrap())))
    );
    assert_eq!(
        parse_expression("1.2.3"),
        Err(unexpected(Some(Token::EOF), Token::Num(NumLit::new(".3").unwrap())))
    );
}

#[test]
fn malformed_number_is_rejected() {
    let lone = Err(ParseError::MalformedNumber { context: vec!['.'] });
    assert_eq!(parse_expression("."), lone);
    assert_eq!(parse_expression("2+."), lone);
    assert_eq!(parse_expression("(.)"), lone);
    assert_eq!(parse_expression("2+3*."), lone);
}

#[test]
fn unknown_character_is_rejected() {
    let found = |c| Err(ParseError::UnexpectedToken { expected: None, found: Found::Char(c) });
    assert_eq!(parse_expression("x"), found('x'));
    assert_eq!(parse_expression("2+x"), found('x'));
    assert_eq!(parse_expression("2 + 3"), found(' '));
    assert_eq!(parse_expression("2+3\n"), found('\n'));
    assert_eq!(parse_expression("1e5"), found('e'));
    assert_eq!(parse_expression("2+3$"), found('$'));
}

#[test]
fn empty_text_is_rejected() {
    assert_eq!(parse_expression(""), Err(unexpected(None, Token::EOF)));
    assert_eq!(Parser::new("").err(), Some(unexpected(None, Token::EOF)));
}

#[test]
fn parser_is_not_made_from_a_text_without_a_first_token() {
    assert_eq!(
        Parser::new("?1").err(),
        Some(ParseError::UnexpectedToken { expected: None, found: Found::Char('?') })
    );
    assert_eq!(
        Parser::new(".").err(),
        Some(ParseError::MalformedNumber { context: vec!['.'] })
    );
    assert!(Parser::new("1?").is_ok());
    assert!(Parser::new(")").is_ok());
}

#[test]
fn first_fault_from_the_left_is_reported() {
    // The parser fails at `*` or at `)` before the tokenizer reaches `?`.
    assert_eq!(parse_expression("2+*?"), Err(unexpected(None, Token::Multiply)));
    assert_eq!(
        parse_expression("2)?"),
        Err(unexpected(Some(Token::EOF), Token::RightParen))
    );
    // The tokenizer fails at `?` when the parser steps over the number.
    assert_eq!(
        parse_expression("2?)"),
        Err(ParseError::UnexpectedToken { expected: None, found: Found::Char('?') })
    );
    assert_eq!(
        parse_expression("(2?"),
        Err(ParseError::UnexpectedToken { expected: None, found: Found::Char('?') })
    );
}

#[test]
fn parser_is_at_the_end_after_parsing() {
    let mut parser = Parser::new("1+2").unwrap();
    assert_eq!(parser.parse(), Ok(add(num("1"), num("2"))));
    assert_eq!(parser.parse(), Err(unexpected(None, Token::EOF)));
}

#[test]
fn parsing_twice_gives_the_same_outcome() {
    for text in ["2+3*4", "(2)(3)", "-2^2", "2+", "(2+3", "2..3", "", "1/0", "2 3"] {
        assert_eq!(parse_expression(text), parse_expression(text), "{:?}", text);
    }
}

#[test]
fn parse_expression_is_new_then_parse() {
    for text in ["2+3*4", "((1))", "2^3^2", "1/0"] {
        assert_eq!(parse_expression(text), Ok(parse(text)), "{:?}", text);
    }
}

#[test]
fn division_by_zero_is_parsed_like_any_division() {
    assert_eq!(parse("1/0"), div(num("1"), num("0")));
}

#[test]
fn trees_can_be_cloned() {
    let tree = parse("-(1+2)*3^4/5-6");
    assert_eq!(tree.clone(), tree);
    let error = parse_expression("(1").unwrap_err();
    assert_eq!(error.clone(), error);
    let error = parse_expression("1+.").unwrap_err();
    assert_eq!(error.clone(), error);
    let error = parse_expression("1#").unwrap_err();
    assert_eq!(error.clone(), error);
}

#[test]
fn deep_nesting_is_parsed() {
    let depth = 200;
    let text = format!("{}7{}", "(".repeat(depth), ")".repeat(depth));
    assert_eq!(parse(&text), num("7"));
    let text = format!("{}7", "-".repeat(depth));
    let mut expected = num("7");
    for _ in 0..depth {
        expected = neg(expected);
    }
    assert_eq!(parse(&text), expected);
}

/// The text of a tree as an operand: a number as it is, every other tree in
/// parentheses.
fn spell_operand(node: &Node) -> String {
    match node {
        Node::Number(lit) => lit.chars().iter().collect(),
        _ => format!("({})", spell(node)),
    }
}

/// The text of a tree: the operator between the operands.
fn spell(node: &Node) -> String {
    match node {
        Node::Number(lit) => lit.chars().iter().collect(),
        Node::Negative(e) => format!("-{}", spell_operand(e)),
        Node::Add(l, r) => format!("{}+{}", spell_operand(l), spell_operand(r)),
        Node::Subtract(l, r) => format!("{}-{}", spell_operand(l), spell_operand(r)),
        Node::Multiply(l, r) => format!("{}*{}", spell_operand(l), spell_operand(r)),
        Node::Divide(l, r) => format!("{}/{}", spell_operand(l), spell_operand(r)),
        Node::Caret(l, r) => format!("{}^{}", spell_operand(l), spell_operand(r)),
    }
}

#[test]
fn every_tree_can_be_written_down() {
    let trees = [
        num("1"),
        neg(num("1")),
        neg(neg(num("1"))),
        add(num("1"), num("2")),
        sub(add(num("1"), num("2")), mul(num("3"), num("4"))),
        pow(pow(num("2"), num("3")), num("2")),
        pow(num("2"), pow(num("3"), num("2"))),
        add(num("1"), add(num("2"), num("3"))),
        mul(neg(add(num("1"), num("2"))), neg(num("3"))),
        div(num("1"), sub(num("2"), div(num("2"), neg(neg(num(".5")))))),
        neg(pow(neg(num("2")), neg(num("2")))),
    ];
    for tree in trees {
        let text = spell(&tree);
        assert_eq!(parse_expression(&text), Ok(tree), "{:?}", text);
    }
    assert_eq!(spell(&sub(add(num("1"), num("2")), mul(num("3"), num("4")))), "(1+2)-(3*4)");
}

#[test]
fn precedence_holds_between_operands_of_every_shape() {
    let operands = ["7", "(1+2)", "(-3)", "(2^(1/2))", "((4))"];
    let operators = ["+", "-", "*", "/", "^"];
    let level = |op: &str| match op {
        "+" | "-" => 1,
        "*" | "/" => 2,
        _ => 3,
    };
    for a in operands {
        for b in operands {
            for c in operands {
                for op1 in operators {
                    for op2 in operators {
                        let text = format!("{a}{op1}{b}{op2}{c}");
                        let right = level(op2) > level(op1) || (op1 == "^" && op2 == "^");
                        let same = if right {
                            format!("{a}{op1}({b}{op2}{c})")
                        } else {
                            format!("({a}{op1}{b}){op2}{c}")
                        };
                        assert_eq!(parse(&text), parse(&same), "{:?}", text);
                    }
                }
            }
        }
    }
}

#[test]
fn negation_goes_before_every_operator() {
    for op in ["+", "-", "*", "/", "^"] {
        for a in ["2", "(1+1)", "(-2)"] {
            let text = format!("-{a}{op}3");
            let same = format!("(-{a}){op}3");
            assert_eq!(parse(&text), parse(&same), "{:?}", text);
        }
    }
}

/// The numbers and the operators of a tree, from left to right.
fn inorder(node: &Node, out: &mut Vec<Token>) {
    let (l, op, r) = match node {
        Node::Number(lit) => return out.push(Token::Num(lit.clone())),
        Node::Negative(e) => {
            out.push(Token::Subtract);
            return inorder(e, out);
        }
        Node::Add(l, r) => (l, Token::Add, r),
        Node::Subtract(l, r) => (l, Token::Subtract, r),
        Node::Multiply(l, r) => (l, Token::Multiply, r),
        Node::Divide(l, r) => (l, Token::Divide, r),
        Node::Caret(l, r) => (l, Token::Caret, r),
    };
    inorder(l, out);
    out.push(op);
    inorder(r, out);
}

/// The numbers and the operators of a text, with a multiplication sign for
/// each `)(`.
fn plain(text: &str) -> Vec<Token> {
    let tokens = aee::tokenize(text).unwrap();
    let mut out = Vec::new();
    for (i, token) in tokens.iter().enumerate() {
        match token {
            Token::LeftParen | Token::EOF => {}
            Token::RightParen => {
                if tokens.get(i + 1) == Some(&Token::LeftParen) {
                    out.push(Token::Multiply);
                }
            }
            other => out.push(other.clone()),
        }
    }
    out
}

#[test]
fn tree_keeps_the_numbers_and_operators_of_the_text() {
    for text in [
        "7",
        "2+3*4",
        "(2+3)*4",
        "2^3^2",
        "-2^2",
        "(2)(3)",
        "(2)(3)(4)",
        "-(1+2)(3)/((4))^-5-.5",
        "2*3+(4-5)+2^3/4",
        "((((1))))",
        "1-2-3-4-5",
    ] {
        let mut kept = Vec::new();
        inorder(&parse(text), &mut kept);
        assert_eq!(kept, plain(text), "{:?}", text);
    }
    assert_eq!(
        plain("(2)(3)"),
        vec![
            Token::Num(NumLit::new("2").unwrap()),
            Token::Multiply,
            Token::Num(NumLit::new("3").unwrap())
        ]
    );
}

#[test]
fn parser_stays_before_a_token_that_begins_no_expression() {
    for (text, found) in [(")", Token::RightParen), ("*2", Token::Multiply), ("^", Token::Caret)] {
        let mut parser = Parser::new(text).unwrap();
        for _ in 0..3 {
            assert_eq!(parser.parse(), Err(unexpected(None, found.clone())), "{:?}", text);
        }
    }
}

#[test]
fn parser_stops_before_what_follows_an_expression() {
    let mut parser = Parser::new("1+2)3").unwrap();
    assert_eq!(parser.parse(), Err(unexpected(Some(Token::EOF), Token::RightParen)));
    // The parser stands at `)`, which begins no expression, and stays there.
    assert_eq!(parser.parse(), Err(unexpected(None, Token::RightParen)));
    assert_eq!(parser.parse(), Err(unexpected(None, Token::RightParen)));

    let mut parser = Parser::new("1(2+3)").unwrap();
    assert_eq!(parser.parse(), Err(unexpected(Some(Token::EOF), Token::LeftParen)));
    // The parser stands at `(`, where an expression begins.
    assert_eq!(parser.parse(), Ok(add(num("2"), num("3"))));
}

#[test]
fn unclosed_parenthesis_leaves_the_parser_at_the_token_found() {
    let mut parser = Parser::new("(1+2*3").unwrap();
    assert_eq!(parser.parse(), Err(unexpected(Some(Token::RightParen), Token::EOF)));
    assert_eq!(parser.parse(), Err(unexpected(None, Token::EOF)));
}
