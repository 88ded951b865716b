//! Tokens: the lexical units of an expression.

use crate::number::NumLit;
use crate::precedence::OperPrec;
use vstd::prelude::*;
use vstd::std_specs::cmp::PartialEqSpecImpl;

verus! {

/// One lexical unit of an expression.
#[derive(Debug, Eq)]
pub enum Token {
    Add,
    Subtract,
    Multiply,
    Divide,
    Caret,
    LeftParen,
    RightParen,
    /// A number literal.
    Num(NumLit),
    /// The end of the input.
    EOF,
}

/// The mathematical value of a [`Token`]: the same variants, with the text of
/// a literal in place of the literal.
pub enum TokenView {
    Add,
    Subtract,
    Multiply,
    Divide,
    Caret,
    LeftParen,
    RightParen,
    Num(Seq<char>),
    EOF,
}

impl View for Token {
    type V = TokenView;

    open spec fn view(&self) -> TokenView {
        match self {
            Token::Add => TokenView::Add,
            Token::Subtract => TokenView::Subtract,
            Token::Multiply => TokenView::Multiply,
            Token::Divide => TokenView::Divide,
            Token::Caret => TokenView::Caret,
            Token::LeftParen => TokenView::LeftParen,
            Token::RightParen => TokenView::RightParen,
            Token::Num(lit) => TokenView::Num(lit@),
            Token::EOF => TokenView::EOF,
        }
    }
}

impl PartialEq for Token {
    fn eq(&self, other: &Self) -> (r: bool) {
        match (self, other) {
            (Token::Add, Token::Add) => true,
            (Token::Subtract, Token::Subtract) => true,
            (Token::Multiply, Token::Multiply) => true,
            (Token::Divide, Token::Divide) => true,
            (Token::Caret, Token::Caret) => true,
            (Token::LeftParen, Token::LeftParen) => true,
            (Token::RightParen, Token::RightParen) => true,
            (Token::Num(a), Token::Num(b)) => a == b,
            (Token::EOF, Token::EOF) => true,
            _ => false,
        }
    }
}

/// Two tokens are equal when they are of one kind and, for numbers, written
/// alike.
impl PartialEqSpecImpl for Token {
    open spec fn obeys_eq_spec() -> bool {
        true
    }

    open spec fn eq_spec(&self, other: &Self) -> bool {
        self@ == other@
    }
}

impl Clone for Token {
    fn clone(&self) -> (r: Self)
        ensures
            r@ == self@,
    {
        match self {
            Token::Add => Token::Add,
            Token::Subtract => Token::Subtract,
            Token::Multiply => Token::Multiply,
            Token::Divide => Token::Divide,
            Token::Caret => Token::Caret,
            Token::LeftParen => Token::LeftParen,
            Token::RightParen => Token::RightParen,
            Token::Num(lit) => Token::Num(lit.clone()),
            Token::EOF => Token::EOF,
        }
    }
}

impl TokenView {
    /// The precedence table: the binding power of a binary operator, and
    /// `DefaultZero` for every other token.
    pub open spec fn oper_prec(self) -> OperPrec {
        match self {
            TokenView::Add | TokenView::Subtract => OperPrec::AddSub,
            TokenView::Multiply | TokenView::Divide => OperPrec::MulDiv,
            TokenView::Caret => OperPrec::Power,
            _ => OperPrec::DefaultZero,
        }
    }

    /// Whether the token is one of the five binary operators.
    pub open spec fn is_operator(self) -> bool {
        self.oper_prec() != OperPrec::DefaultZero
    }
}

impl Token {
    /// The binding power of the token as a binary operator.
    pub fn get_oper_prec(&self) -> (prec: OperPrec)
        ensures
            prec == self@.oper_prec(),
    {
        match self {
            Token::Add | Token::Subtract => OperPrec::AddSub,
            Token::Multiply | Token::Divide => OperPrec::MulDiv,
            Token::Caret => OperPrec::Power,
            _ => OperPrec::DefaultZero,
        }
    }
}

} // verus!
