use aee::{tokenize, Found, NumLit, ParseError, Token, Tokenizer};

fn number(text: &str) -> Token {
    Token::Num(NumLit::new(text).unwrap())
}

fn text_of(lit: &NumLit) -> String {
    lit.chars().iter().collect()
}

#[test]
fn literal_accepts_digits_with_at_most_one_point() {
    for text in ["0", "12", "1.5", ".5", "5.", "007", "3.14159"] {
        let lit = NumLit::new(text).unwrap();
        assert_eq!(text_of(&lit), text);
    }
}

#[test]
fn literal_rejects_what_is_no_number() {
    for text in ["", ".", "..", "1.2.3", "1..2", "-1", "+1", "1e5", "a", "1 ", " 1", "1,5", "٣"] {
        assert_eq!(NumLit::new(text), None, "{:?}", text);
    }
}

#[test]
fn literals_compare_by_their_text() {
    assert_eq!(NumLit::new("1.0"), NumLit::new("1.0"));
    assert_ne!(NumLit::new("1.0"), NumLit::new("1"));
    assert_ne!(NumLit::new("1.0"), NumLit::new("1.00"));
    assert_ne!(NumLit::new("12"), NumLit::new("13"));
    let lit = NumLit::new("42.5").unwrap();
    assert_eq!(lit.clone(), lit);
}

#[test]
fn each_symbol_is_its_own_token() {
    assert_eq!(
        tokenize("+-*/^()"),
        Ok(vec![
            Token::Add,
            Token::Subtract,
            Token::Multiply,
            Token::Divide,
            Token::Caret,
            Token::LeftParen,
            Token::RightParen,
            Token::EOF,
        ])
    );
}

#[test]
fn empty_text_is_the_end_of_input() {
    assert_eq!(tokenize(""), Ok(vec![Token::EOF]));
}

#[test]
fn expression_is_cut_into_tokens() {
    assert_eq!(
        tokenize("2*3+(4-5)+2^3/4"),
        Ok(vec![
            number("2"),
            Token::Multiply,
            number("3"),
            Token::Add,
            Token::LeftParen,
            number("4"),
            Token::Subtract,
            number("5"),
            Token::RightParen,
            Token::Add,
            number("2"),
            Token::Caret,
            number("3"),
            Token::Divide,
            number("4"),
            Token::EOF,
        ])
    );
}

#[test]
fn number_scan_is_greedy() {
    assert_eq!(tokenize("123.456"), Ok(vec![number("123.456"), Token::EOF]));
    assert_eq!(tokenize("12+3"), Ok(vec![number("12"), Token::Add, number("3"), Token::EOF]));
}

#[test]
fn second_point_begins_a_new_number() {
    assert_eq!(tokenize("2..3"), Ok(vec![number("2."), number(".3"), Token::EOF]));
    assert_eq!(tokenize("1.2.3"), Ok(vec![number("1.2"), number(".3"), Token::EOF]));
}

#[test]
fn number_may_begin_or_end_with_the_point() {
    assert_eq!(tokenize(".5"), Ok(vec![number(".5"), Token::EOF]));
    assert_eq!(tokenize("5."), Ok(vec![number("5."), Token::EOF]));
    assert_eq!(tokenize("5.+.5"), Ok(vec![number("5."), Token::Add, number(".5"), Token::EOF]));
}

#[test]
fn lone_point_is_a_malformed_number() {
    let lone = Err(ParseError::MalformedNumber { context: vec!['.'] });
    assert_eq!(tokenize("."), lone);
    assert_eq!(tokenize("1+."), lone);
    assert_eq!(tokenize(".+1"), lone);
    assert_eq!(tokenize("(.)"), lone);
    assert_eq!(tokenize("1.2..3"), lone);
}

#[test]
fn other_characters_are_unexpected() {
    let cases = [
        ("a", 'a'),
        ("2+x", 'x'),
        ("2 + 3", ' '),
        ("2,5", ','),
        ("3%2", '%'),
        ("1e5", 'e'),
        ("٣", '٣'),
    ];
    for (text, c) in cases {
        assert_eq!(
            tokenize(text),
            Err(ParseError::UnexpectedToken { expected: None, found: Found::Char(c) }),
            "{:?}",
            text
        );
    }
}

#[test]
fn first_fault_wins() {
    assert_eq!(
        tokenize("a."),
        Err(ParseError::UnexpectedToken { expected: None, found: Found::Char('a') })
    );
    assert_eq!(tokenize(".a"), Err(ParseError::MalformedNumber { context: vec!['.'] }));
}

#[test]
fn tokenizer_hands_out_one_token_per_call() {
    let mut tokenizer = Tokenizer::new("(1.5)");
    assert_eq!(tokenizer.next_token(), Ok(Token::LeftParen));
    assert_eq!(tokenizer.next_token(), Ok(number("1.5")));
    assert_eq!(tokenizer.next_token(), Ok(Token::RightParen));
    assert_eq!(tokenizer.next_token(), Ok(Token::EOF));
}

#[test]
fn tokenizer_stays_at_the_end_of_input() {
    let mut tokenizer = Tokenizer::new("7");
    assert_eq!(tokenizer.next_token(), Ok(number("7")));
    for _ in 0..3 {
        assert_eq!(tokenizer.next_token(), Ok(Token::EOF));
    }
}

#[test]
fn tokenizer_goes_on_behind_a_fault() {
    let mut tokenizer = Tokenizer::new("a+.1");
    assert_eq!(
        tokenizer.next_token(),
        Err(ParseError::UnexpectedToken { expected: None, found: Found::Char('a') })
    );
    assert_eq!(tokenizer.next_token(), Ok(Token::Add));
    assert_eq!(tokenizer.next_token(), Ok(number(".1")));
    assert_eq!(tokenizer.next_token(), Ok(Token::EOF));
}

#[test]
fn tokenizing_twice_gives_the_same_tokens() {
    assert_eq!(tokenize("2^3^2"), tokenize("2^3^2"));
    assert_eq!(tokenize("2^?"), tokenize("2^?"));
}

#[test]
fn tokens_compare_by_kind_and_text() {
    assert_eq!(number("1"), number("1"));
    assert_ne!(number("1"), number("2"));
    assert_ne!(number("1"), Token::Add);
    assert_ne!(Token::Add, Token::Subtract);
    assert_ne!(Token::LeftParen, Token::RightParen);
    assert_ne!(Token::EOF, Token::Caret);
    assert_eq!(Token::Divide.clone(), Token::Divide);
    assert_eq!(number("8.25").clone(), number("8.25"));
}

fn written(token: &Token) -> String {
    match token {
        Token::Add => "+".to_string(),
        Token::Subtract => "-".to_string(),
        Token::Multiply => "*".to_string(),
        Token::Divide => "/".to_string(),
        Token::Caret => "^".to_string(),
        Token::LeftParen => "(".to_string(),
        Token::RightParen => ")".to_string(),
        Token::Num(lit) => text_of(lit),
        Token::EOF => String::new(),
    }
}

#[test]
fn tokens_spell_the_text() {
    for text in ["", "7", "2*3+(4-5)+2^3/4", "1.2.3", "))((", "-.5^5.", "12..34"] {
        let tokens = tokenize(text).unwrap();
        let spelled: String = tokens.iter().map(written).collect();
        assert_eq!(spelled, text);
        assert_eq!(tokens.last(), Some(&Token::EOF));
        assert_eq!(tokens.iter().filter(|t| **t == Token::EOF).count(), 1);
        assert!(tokens.len() <= text.len() + 1);
    }
}
