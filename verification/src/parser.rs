//! The parser: from tokens to a syntax tree, by precedence climbing.

use crate::ast::Node;
use crate::error::{Found, ParseError, ParseErrorView};
use crate::grammar::{
    advance, begins_atom, climb, expect, head, lemma_atom_consumes, lemma_operation_consumes,
    parse_atom, parse_expr, parse_operation, parse_stream, parse_text, rejected, unexpected,
    Outcome, Parsed,
};
use crate::precedence::OperPrec;
use crate::token::{Token, TokenView};
use crate::tokenizer::{lex, tok, Lexeme, Tokenizer};
use vstd::prelude::*;

verus! {

/// The mathematical value of a parsing step: the tree built and the stream
/// left behind, or the error.
pub open spec fn outcome(r: Result<Node, ParseError>, rest: Seq<Lexeme>) -> Parsed {
    match r {
        Ok(tree) => Ok((tree@, rest)),
        Err(e) => Err(e@),
    }
}

/// The mathematical value of the outcome of parsing: the tree or the error.
pub open spec fn result_view(r: Result<Node, ParseError>) -> Outcome {
    match r {
        Ok(tree) => Ok(tree@),
        Err(e) => Err(e@),
    }
}

/// The error with which a stream that begins with `first` is turned away
/// before any parsing, if it is: the error that `first` is, or the lack of an
/// expression where `first` is the end of input.
pub open spec fn opening_error(first: Lexeme) -> Option<ParseErrorView> {
    match first {
        Err(e) => Some(e),
        Ok(TokenView::EOF) => Some(unexpected(None, TokenView::EOF)),
        Ok(_) => None,
    }
}

/// A parser over the tokens of one expression, with one token of lookahead.
pub struct Parser {
    tokenizer: Tokenizer,
    current_token: Token,
}

impl Parser {
    /// The stream that is still to be parsed: the lookahead token, then what
    /// the tokenizer has not scanned yet.
    pub closed spec fn stream(&self) -> Seq<Lexeme> {
        if self.current_token@ == TokenView::EOF {
            seq![tok(TokenView::EOF)]
        } else {
            seq![tok(self.current_token@)] + self.tokenizer.pending()
        }
    }

    /// A parser at the start of `expr`.
    ///
    /// Fails if the text is empty or does not begin with a token.
    pub fn new(expr: &str) -> (r: Result<Parser, ParseError>)
        ensures
            match r {
                Ok(parser) => opening_error(lex(expr@)[0]) is None && parser.stream() == lex(
                    expr@,
                ),
                Err(e) => opening_error(lex(expr@)[0]) == Some(e@) && parse_text(expr@)
                    == rejected(e@),
            },
    {
        let mut lexer = Tokenizer::new(expr);
        let cur_token = lexer.next_token()?;
        match cur_token {
            Token::EOF => Err(
                ParseError::UnexpectedToken { expected: None, found: Found::Token(Token::EOF) },
            ),
            _ => {
                let parser = Parser { tokenizer: lexer, current_token: cur_token };
                assert(parser.stream() =~= lex(expr@));
                Ok(parser)
            },
        }
    }

    /// Parses the whole expression.
    ///
    /// Succeeds if the stream holds one expression and then ends; the parser
    /// is then at the end of input.  Where an expression is followed by
    /// something else, the parser stops before what follows; where the stream
    /// begins with a token that begins no expression, the parser stays as it
    /// was.  The parser calls itself once for each level of nesting, so the
    /// depth of an expression is bounded by the stack.
    pub fn parse(&mut self) -> (r: Result<Node, ParseError>)
        ensures
            result_view(r) == parse_stream(old(self).stream()),
            r is Ok ==> final(self).stream() == seq![tok(TokenView::EOF)],
            parse_expr(old(self).stream(), OperPrec::DefaultZero) matches Ok((_, rest))
                ==> final(self).stream() == rest,
            (head(old(self).stream()) matches Ok(t) && !begins_atom(t)) ==> *final(self) == *old(
                self,
            ),
    {
        let ast = self.generate_ast(OperPrec::DefaultZero)?;
        match self.current_token {
            Token::EOF => Ok(ast),
            _ => Err(
                ParseError::UnexpectedToken {
                    expected: Some(Token::EOF),
                    found: Found::Token(self.current_token.clone()),
                },
            ),
        }
    }

    /// Steps to the next token.
    ///
    /// Where the tokenizer finds no token, the lookahead stays as it was.
    fn get_next_token(&mut self) -> (r: Result<(), ParseError>)
        requires
            old(self).current_token@ != TokenView::EOF,
        ensures
            match r {
                Ok(_) => advance(old(self).stream()) == Ok::<Seq<Lexeme>, ParseErrorView>(
                    final(self).stream(),
                ) && final(self).stream().len() < old(self).stream().len(),
                Err(e) => advance(old(self).stream()) == Err::<Seq<Lexeme>, ParseErrorView>(e@)
                    && final(self).current_token == old(self).current_token,
            },
    {
        let ghost pending = self.tokenizer.pending();
        assert(self.stream().drop_first() =~= pending);
        let next_token = self.tokenizer.next_token()?;
        self.current_token = next_token;
        assert(self.stream() =~= pending);
        Ok(())
    }

    /// Steps over the token `expected`, which must be the current one.
    ///
    /// Where the current token is another one, the error names both, and the
    /// parser stays as it was: no token is taken from the tokenizer.
    fn check_paren(&mut self, expected: Token) -> (r: Result<(), ParseError>)
        requires
            expected@ != TokenView::EOF || head(old(self).stream()) != tok(TokenView::EOF),
        ensures
            match r {
                Ok(_) => expect(old(self).stream(), expected@) == Ok::<
                    Seq<Lexeme>,
                    ParseErrorView,
                >(final(self).stream()) && final(self).stream().len() < old(self).stream().len(),
                Err(e) => expect(old(self).stream(), expected@) == Err::<
                    Seq<Lexeme>,
                    ParseErrorView,
                >(e@),
            },
            head(old(self).stream()) != tok(expected@) ==> *final(self) == *old(self),
    {
        if expected == self.current_token {
            self.get_next_token()
        } else {
            Err(
                ParseError::UnexpectedToken {
                    expected: Some(expected),
                    found: Found::Token(self.current_token.clone()),
                },
            )
        }
    }

    /// Parses an atom: a number, a negated operand, or an expression in
    /// parentheses, which an expression in parentheses that follows at once
    /// multiplies.
    ///
    /// Where the current token begins no atom, the parser stays as it was: no
    /// token is taken from the tokenizer.
    fn parse_number(&mut self) -> (r: Result<Node, ParseError>)
        ensures
            outcome(r, final(self).stream()) == parse_atom(old(self).stream()),
            r is Ok ==> final(self).stream().len() < old(self).stream().len(),
            (head(old(self).stream()) matches Ok(t) && !begins_atom(t)) ==> *final(self) == *old(
                self,
            ),
        decreases old(self).stream().len(), 0nat,
    {
        let ghost input = self.stream();
        proof {
            lemma_atom_consumes(input);
        }
        let token = self.current_token.clone();
        match token {
            Token::Subtract => {
                self.get_next_token()?;
                let expr = self.generate_ast(OperPrec::Negative)?;
                Ok(Node::Negative(Box::new(expr)))
            },
            Token::Num(i) => {
                self.get_next_token()?;
                Ok(Node::Number(i))
            },
            Token::LeftParen => {
                self.get_next_token()?;
                let expr = self.generate_ast(OperPrec::DefaultZero)?;
                self.check_paren(Token::RightParen)?;
                let adjacent = match self.current_token {
                    Token::LeftParen => true,
                    _ => false,
                };
                if adjacent {
                    let right = self.generate_ast(OperPrec::MulDiv)?;
                    return Ok(Node::Multiply(Box::new(expr), Box::new(right)));
                }
                Ok(expr)
            },
            _ => Err(ParseError::UnexpectedToken { expected: None, found: Found::Token(token) }),
        }
    }

    /// Parses an expression whose operators all bind more strongly than
    /// `oper_prec`.
    ///
    /// Where the current token begins no atom, the parser stays as it was.
    fn generate_ast(&mut self, oper_prec: OperPrec) -> (r: Result<Node, ParseError>)
        ensures
            outcome(r, final(self).stream()) == parse_expr(old(self).stream(), oper_prec),
            r is Ok ==> final(self).stream().len() < old(self).stream().len(),
            (head(old(self).stream()) matches Ok(t) && !begins_atom(t)) ==> *final(self) == *old(
                self,
            ),
        decreases old(self).stream().len(), 1nat,
    {
        let ghost input = self.stream();
        let mut left_expr = self.parse_number()?;
        while oper_prec < self.current_token.get_oper_prec()
            invariant
                input == old(self).stream(),
                head(input) matches Ok(t) && begins_atom(t),
                self.stream().len() < input.len(),
                climb(left_expr@, self.stream(), oper_prec) == parse_expr(input, oper_prec),
            decreases self.stream().len(),
        {
            proof {
                lemma_operation_consumes(left_expr@, self.stream());
                assert(head(self.stream()) == tok(self.current_token@));
            }
            left_expr = self.convert_token_to_node(left_expr)?;
        }
        Ok(left_expr)
    }

    /// Parses the binary operator under the parser's eye and its right
    /// operand, and joins them to `left_expr`.
    ///
    /// Where the current token is no binary operator, the parser stays as it
    /// was: no token is taken from the tokenizer.
    fn convert_token_to_node(&mut self, left_expr: Node) -> (r: Result<Node, ParseError>)
        ensures
            outcome(r, final(self).stream()) == parse_operation(left_expr@, old(self).stream()),
            r is Ok ==> final(self).stream().len() < old(self).stream().len(),
            (head(old(self).stream()) matches Ok(t) && !t.is_operator()) ==> *final(self) == *old(
                self,
            ),
        decreases old(self).stream().len(), 0nat,
    {
        let ghost input = self.stream();
        proof {
            lemma_operation_consumes(left_expr@, input);
        }
        let token = self.current_token.clone();
        // A `^` behind the operand of a `^` belongs to that operand, so the
        // operand is parsed one level below `Power`.
        let operand_level = match token {
            Token::Add | Token::Subtract => OperPrec::AddSub,
            Token::Multiply | Token::Divide => OperPrec::MulDiv,
            Token::Caret => OperPrec::MulDiv,
            _ => {
                return Err(
                    ParseError::UnexpectedToken { expected: None, found: Found::Token(token) },
                );
            },
        };
        self.get_next_token()?;
        // get right side of expression
        let right_expr = self.generate_ast(operand_level)?;
        match token {
            Token::Add => Ok(Node::Add(Box::new(left_expr), Box::new(right_expr))),
            Token::Subtract => Ok(Node::Subtract(Box::new(left_expr), Box::new(right_expr))),
            Token::Multiply => Ok(Node::Multiply(Box::new(left_expr), Box::new(right_expr))),
            Token::Divide => Ok(Node::Divide(Box::new(left_expr), Box::new(right_expr))),
            _ => Ok(Node::Caret(Box::new(left_expr), Box::new(right_expr))),
        }
    }
}

/// Parses a text that holds one expression and no white space.
///
/// The tree is that of [`parse_text`]: the text is accepted if it spells one
/// expression from its first character to its last, and rejected with the
/// first fault that a reader meets who goes through it from left to right.
pub fn parse_expression(expr: &str) -> (r: Result<Node, ParseError>)
    ensures
        result_view(r) == parse_text(expr@),
{
    let mut parser = Parser::new(expr)?;
    parser.parse()
}

/// Parsing keeps no hidden state: the outcome is a function of the text, so
/// two outcomes for one text are the same tree or the same error, whenever
/// and from whichever parser they come.
pub proof fn lemma_same_text_same_outcome(
    text: Seq<char>,
    first: Result<Node, ParseError>,
    second: Result<Node, ParseError>,
)
    requires
        result_view(first) == parse_text(text),
        result_view(second) == parse_text(text),
    ensures
        result_view(first) == result_view(second),
{
}

} // verus!
