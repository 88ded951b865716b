//! The ways in which a text can fail to be an expression.

use crate::number::same_chars;
use crate::token::{Token, TokenView};
use vstd::prelude::*;
use vstd::std_specs::cmp::PartialEqSpecImpl;

verus! {

/// What stood in the input where something else was called for.
#[derive(Debug, Eq)]
pub enum Found {
    /// A token that is out of place.
    Token(Token),
    /// A character that begins no token.
    Char(char),
}

/// The mathematical value of a [`Found`].
pub enum FoundView {
    Token(TokenView),
    Char(char),
}

impl View for Found {
    type V = FoundView;

    open spec fn view(&self) -> FoundView {
        match self {
            Found::Token(t) => FoundView::Token(t@),
            Found::Char(c) => FoundView::Char(*c),
        }
    }
}

impl PartialEq for Found {
    fn eq(&self, other: &Self) -> (r: bool) {
        match (self, other) {
            (Found::Token(a), Found::Token(b)) => a == b,
            (Found::Char(a), Found::Char(b)) => *a == *b,
            _ => false,
        }
    }
}

/// Two finds are equal when they are the same token or the same character.
impl PartialEqSpecImpl for Found {
    open spec fn obeys_eq_spec() -> bool {
        true
    }

    open spec fn eq_spec(&self, other: &Self) -> bool {
        self@ == other@
    }
}

impl Clone for Found {
    fn clone(&self) -> (r: Self)
        ensures
            r@ == self@,
    {
        match self {
            Found::Token(t) => Found::Token(t.clone()),
            Found::Char(c) => Found::Char(*c),
        }
    }
}

/// Why a text was rejected.
#[derive(Debug, Eq)]
pub enum ParseError {
    /// The input holds `found` at a place where it cannot stand.  Where one
    /// token alone could have stood there, `expected` names it.
    UnexpectedToken { expected: Option<Token>, found: Found },
    /// A run of number characters that denotes no number; `context` is the run.
    MalformedNumber { context: Vec<char> },
}

/// The mathematical value of a [`ParseError`].
pub enum ParseErrorView {
    UnexpectedToken { expected: Option<TokenView>, found: FoundView },
    MalformedNumber { context: Seq<char> },
}

impl View for ParseError {
    type V = ParseErrorView;

    open spec fn view(&self) -> ParseErrorView {
        match self {
            ParseError::UnexpectedToken { expected, found } => ParseErrorView::UnexpectedToken {
                expected: match expected {
                    Some(t) => Some(t@),
                    None => None,
                },
                found: found@,
            },
            ParseError::MalformedNumber { context } => ParseErrorView::MalformedNumber {
                context: context@,
            },
        }
    }
}

impl PartialEq for ParseError {
    fn eq(&self, other: &Self) -> (r: bool) {
        match (self, other) {
            (
                ParseError::UnexpectedToken { expected: e1, found: f1 },
                ParseError::UnexpectedToken { expected: e2, found: f2 },
            ) => {
                let same_expected = match (e1, e2) {
                    (Some(a), Some(b)) => a == b,
                    (None, None) => true,
                    _ => false,
                };
                same_expected && f1 == f2
            },
            (
                ParseError::MalformedNumber { context: c1 },
                ParseError::MalformedNumber { context: c2 },
            ) => same_chars(c1, c2),
            _ => false,
        }
    }
}

/// Two errors are equal when they are of one kind and tell the same.
impl PartialEqSpecImpl for ParseError {
    open spec fn obeys_eq_spec() -> bool {
        true
    }

    open spec fn eq_spec(&self, other: &Self) -> bool {
        self@ == other@
    }
}

impl Clone for ParseError {
    fn clone(&self) -> (r: Self)
        ensures
            r@ == self@,
    {
        match self {
            ParseError::UnexpectedToken { expected, found } => {
                let expected = match expected {
                    Some(t) => Some(t.clone()),
                    None => None,
                };
                ParseError::UnexpectedToken { expected, found: found.clone() }
            },
            ParseError::MalformedNumber { context } => {
                let copy = context.clone();
                assert(copy@ =~= context@);
                ParseError::MalformedNumber { context: copy }
            },
        }
    }
}

} // verus!
